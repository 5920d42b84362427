# openteam

A harness in which a team of agents works on a goal in parallel: an orchestrator breaks the goal
into tasks, team agents claim and complete them, and meta-agents watch and steer. Everything that
happens is logged, and the log alone rebuilds what a run looked like.

`src/` holds every decision of the harness, written in Verus and proved against its contracts:

- the board, the mail, the knowledge store, the directives and the metrics that are folded from
  the log (`board`, `message`, `knowledge`, `directive`, `event`, `metrics`);
- the verbs that agents call and how a call is answered (`tools`, `verbs`, `dispatch`);
- prompts within their budgets (`context`), and turns from the first prompt to the logged end
  (`turn`, `exchange`);
- the scheduler, the watchdog and the start and end of a run (`schedule`, `run`);
- the deterministic mock model, its scenarios and its endpoint (`mock`);
- the stream server: tailing logs, finding runs, folding snapshots, resuming streams (`serve`).

Some modules state what holds of the whole: `lifecycle` (the board is always the one that the log
rebuilds), `tally` (so are the counters), `sources` (knowledge mirrors its events), `numbering` (requests
are numbered without gaps), `bookend` (a log ends with how its run finished), `repeat` and `rerun` (the
same seed gives an identical run) and `legible` with `directive_lines` (what prompts show reads back).

`app/` is ordinary Rust around the library: files, sockets, clocks, JSON records, and everything
that needs floating point. `tests/` runs the library on concrete values.
