//! A deterministic stand-in for the model: every reply is a function of the request, who asks, the
//! number of the call and the seed.
pub mod arc;
pub mod clock;
pub mod endpoint;
pub mod manners;
pub mod parse;
pub mod phrase;
pub mod rendered;
pub mod scenario;
pub mod seed;
pub mod server;
pub mod sight;
