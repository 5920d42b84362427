use openteam::serve::config::ServeConfig;
use openteam::serve::discovery::RunState;
use openteam::serve::stream::{
    answer_stream, replay_from, resume_start, tail_step, terminal_frames, Frame, LiveCursor, LiveMsg, LiveStep,
    StreamAnswer, TailStep, ABORT_DATA,
};
use openteam::serve::tail::{split_complete_lines, Tailer};
use std::time::Duration;

fn lines_utf8(lines: &[Vec<u8>]) -> Vec<String> {
    lines
        .iter()
        .map(|line| String::from_utf8(line.clone()).unwrap())
        .collect()
}

fn numbered(ids: &[u64]) -> Vec<(u64, String)> {
    ids.iter().map(|id| (*id, format!("{{\"id\":{id}}}"))).collect()
}

#[test]
fn defaults_match_the_pinned_values() {
    let config = ServeConfig::default();
    assert_eq!(
        Duration::from_millis(config.poll_interval),
        Duration::from_millis(100)
    );
    assert_eq!(
        Duration::from_millis(config.keep_alive),
        Duration::from_secs(15)
    );
    assert_eq!(config.retry_ms, 2000);
    assert_eq!(config.broadcast_capacity, 1024);
}

#[test]
fn split_yields_complete_lines_and_holds_a_partial_tail() {
    let (lines, consumed) = split_complete_lines(b"a\nbb\nccc");
    assert_eq!(lines, vec![b"a".as_slice(), b"bb".as_slice()]);
    assert_eq!(consumed, 5, "consumed through the second '\\n', not 'ccc'");

    // No newline yet — nothing complete.
    let (lines, consumed) = split_complete_lines(b"partial");
    assert!(lines.is_empty());
    assert_eq!(consumed, 0);

    // A lone newline is one empty line.
    let (lines, consumed) = split_complete_lines(b"\n");
    assert_eq!(lines, vec![b"".as_slice()]);
    assert_eq!(consumed, 1);
}

fn poll(tailer: &mut Tailer, file: &[u8]) -> Vec<String> {
    lines_utf8(&tailer.take(&file[tailer.offset() as usize..]))
}

#[test]
fn tailer_emits_a_torn_line_only_once_it_completes() {
    let mut file = b"{\"id\":0}\n{\"id\":1}\n".to_vec();
    let mut tailer = Tailer::new();

    // First poll: both complete lines.
    assert_eq!(
        poll(&mut tailer, &file),
        vec!["{\"id\":0}".to_string(), "{\"id\":1}".to_string()]
    );

    // Append a torn line (no trailing newline): several polls must not emit it.
    file.extend_from_slice(b"{\"id\":2");
    for _ in 0..3 {
        assert!(
            poll(&mut tailer, &file).is_empty(),
            "a torn final line is never emitted"
        );
    }

    // Complete the line; now it arrives, exactly once.
    file.extend_from_slice(b",\"x\":1}\n");
    assert_eq!(
        poll(&mut tailer, &file),
        vec!["{\"id\":2,\"x\":1}".to_string()]
    );
    assert!(poll(&mut tailer, &file).is_empty(), "no re-emission");
}

#[test]
fn polls_of_a_growing_file_give_each_line_once() {
    let whole: &[u8] = b"{\"id\":0}\n\n{\"id\":1,\"x\":\"\xc3\xa9\"}\n{\"id\":2}\n{\"id\"";
    let (expected, consumed) = split_complete_lines(whole);
    assert_eq!(consumed, 37);
    for step in 1..=whole.len() {
        let mut tailer = Tailer::new();
        let mut seen: Vec<Vec<u8>> = vec![];
        let mut length = 0;
        while length < whole.len() {
            length = (length + step).min(whole.len());
            seen.extend(tailer.take(&whole[tailer.offset() as usize..length]));
            let end = tailer.offset() as usize;
            assert!(end == 0 || whole[end - 1] == b'\n', "reading stops at a line end");
        }
        assert_eq!(seen, expected, "in steps of {step}");
        assert_eq!(tailer.offset(), 37);
    }
}

#[test]
fn tailer_on_a_missing_file_yields_nothing() {
    let mut tailer = Tailer::new();
    assert!(tailer.take(b"").is_empty());
    assert_eq!(tailer.offset(), 0);
}

#[test]
fn read_complete_lines_excludes_a_partial_tail() {
    let (lines, _) = split_complete_lines(b"one\ntwo\npartial");
    assert_eq!(
        lines_utf8(&lines),
        vec!["one".to_string(), "two".to_string()]
    );
}

#[test]
fn skipping_stops_at_the_end_of_a_line() {
    let file = b"one\ntwo\npar".to_vec();
    let mut tailer = Tailer::new();
    tailer.skip_to_end(&file);
    assert_eq!(tailer.offset(), 8);
    let mut more = file.clone();
    more.extend_from_slice(b"tial\n");
    assert_eq!(poll(&mut tailer, &more), vec!["partial".to_string()]);
}

#[test]
fn resume_arithmetic_matches_the_pinned_semantics() {
    // Absent → from 0.
    assert_eq!(resume_start(None, None), Ok(0));
    // Last-Event-ID: n → n + 1.
    assert_eq!(resume_start(Some("5"), None), Ok(6));
    // ?from=n → n + 1 (the reload/curl fallback).
    assert_eq!(resume_start(None, Some("5")), Ok(6));
    // Empty header/param → fresh (0).
    assert_eq!(resume_start(Some(""), None), Ok(0));
    assert_eq!(resume_start(None, Some("")), Ok(0));
    // Non-u64 → Err (→ 400).
    assert_eq!(resume_start(Some("nope"), None), Err(()));
    assert_eq!(resume_start(None, Some("1.5")), Err(()));
    // The header comes first, and the last id does not wrap around.
    assert_eq!(resume_start(Some(" 7 "), Some("3")), Ok(8));
    assert_eq!(
        resume_start(Some("18446744073709551615"), None),
        Ok(u64::MAX)
    );
}

#[test]
fn live_producer_ends_the_stream_on_broadcast_lag() {
    let mut cursor = LiveCursor::new(0);
    assert!(matches!(cursor.step(LiveMsg::Lagged), LiveStep::End));
    assert!(matches!(cursor.step(LiveMsg::Closed), LiveStep::End));
    assert!(matches!(
        cursor.step(LiveMsg::Aborted),
        LiveStep::SendLast(Frame::Abort)
    ));
    assert_eq!(ABORT_DATA, "{\"state\":\"aborted\"}");
}

#[test]
fn caught_up_events_are_sent_once() {
    let mut cursor = LiveCursor::new(2);
    let mut sent = Vec::new();
    for (id, line) in numbered(&[2, 3, 4]) {
        if let LiveStep::Send(Frame::Data { id, .. }) = cursor.pass(id, line) {
            sent.push(id);
        }
    }
    for (id, line) in numbered(&[3, 4, 5, 6]) {
        if let LiveStep::Send(Frame::Data { id, .. }) = cursor.step(LiveMsg::Event { id, line }) {
            sent.push(id);
        }
    }
    assert_eq!(sent, vec![2, 3, 4, 5, 6]);
}

#[test]
fn a_gap_ends_the_stream() {
    let mut cursor = LiveCursor::new(0);
    let event = |id: u64| LiveMsg::Event {
        id,
        line: format!("{{\"id\":{id}}}"),
    };
    assert!(matches!(
        cursor.step(event(0)),
        LiveStep::Send(Frame::Data { id: 0, line }) if line == "{\"id\":0}"
    ));
    assert!(matches!(cursor.step(event(0)), LiveStep::Skip));
    assert!(matches!(cursor.step(event(2)), LiveStep::End));
    let mut caught = LiveCursor::new(5);
    assert!(matches!(caught.pass(6, "{\"id\":6}".to_string()), LiveStep::End));
    let mut last = LiveCursor::new(u64::MAX);
    assert!(matches!(last.step(event(u64::MAX)), LiveStep::Send(_)));
    assert!(matches!(last.step(event(u64::MAX)), LiveStep::Skip));
}

#[test]
fn terminal_streams_replay_and_announce_an_abort() {
    let lines = numbered(&[0, 1, 2]);
    assert_eq!(
        terminal_frames(&lines, 1, 2000, RunState::Aborted),
        Some(vec![
            Frame::Retry(2000),
            Frame::Data {
                id: 1,
                line: "{\"id\":1}".to_string()
            },
            Frame::Data {
                id: 2,
                line: "{\"id\":2}".to_string()
            },
            Frame::Abort,
        ])
    );
    let finished = terminal_frames(&lines, 0, 10, RunState::Finished).unwrap();
    assert_eq!(finished.len(), 4);
    assert!(!finished.contains(&Frame::Abort));
    assert_eq!(terminal_frames(&lines, 3, 10, RunState::Finished), None);
    assert_eq!(terminal_frames(&vec![], 0, 10, RunState::Aborted), None);
    assert_eq!(replay_from(&lines, 2), numbered(&[2]));
}

#[test]
fn readers_stop_with_the_run_or_without_listeners() {
    assert_eq!(tail_step(RunState::Finished, 3), TailStep::Stop);
    assert_eq!(tail_step(RunState::Aborted, 0), TailStep::Abort);
    assert_eq!(tail_step(RunState::Live, 0), TailStep::Idle);
    assert_eq!(tail_step(RunState::Live, 1), TailStep::Wait);
    assert!(RunState::Aborted.is_terminal());
    assert!(!RunState::Live.is_terminal());
    assert_eq!(RunState::Finished.as_wire_str(), "finished");
}

#[test]
fn streams_are_answered_by_where_they_resume_and_how_the_run_stands() {
    let lines = numbered(&[0, 1]);
    assert_eq!(
        answer_stream(Err(()), None, &lines, 10),
        StreamAnswer::BadRequest
    );
    assert_eq!(
        answer_stream(Ok(0), None, &lines, 10),
        StreamAnswer::NotFound
    );
    assert_eq!(
        answer_stream(Ok(5), Some(RunState::Live), &lines, 10),
        StreamAnswer::Live { start: 5 }
    );
    assert_eq!(
        answer_stream(Ok(2), Some(RunState::Finished), &lines, 10),
        StreamAnswer::NoContent
    );
    assert_eq!(
        answer_stream(Ok(1), Some(RunState::Aborted), &lines, 10),
        StreamAnswer::Replay(vec![
            Frame::Retry(10),
            Frame::Data {
                id: 1,
                line: "{\"id\":1}".to_string()
            },
            Frame::Abort,
        ])
    );
}
