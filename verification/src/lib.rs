//! A multi-agent work board and everything around it.

pub mod agent;
pub mod base64;
pub mod board;
pub mod bookend;
pub mod clock;
pub mod context;
pub mod cuts;
pub mod directive;
pub mod directive_lines;
pub mod dispatch;
pub mod effects;
pub mod event;
pub mod exchange;
pub mod fixed;
pub mod hash;
pub mod ids;
pub mod json;
pub mod knowledge;
pub mod legible;
pub mod lifecycle;
pub mod llm;
pub mod message;
pub mod metrics;
pub mod mock;
pub mod nudges;
pub mod numbering;
pub mod offers;
pub mod portions;
pub mod readings;
pub mod repeat;
pub mod rerun;
pub mod rounds;
pub mod run;
pub mod schedule;
pub mod serve;
pub mod sources;
pub mod spelling;
pub mod table;
pub mod tally;
pub mod telling;
pub mod text;
pub mod tools;
pub mod turn;
pub mod verbs;
pub mod wire;
pub mod world;
