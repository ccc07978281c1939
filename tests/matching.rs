use log_pm_dataset_generator::matching::{
    match_message, output_step, worker_step, MatchFailure, MatchOutcome, OutputAction,
    PoolController, PoolPhase, RecvEvent, Request, Response, WorkerAction,
};
use log_pm_dataset_generator::template::{compile_bank, Template};

fn bank(patterns: &[&str]) -> Vec<Template> {
    let owned: Vec<String> = patterns.iter().map(|p| p.to_string()).collect();
    match compile_bank(&owned) {
        Ok(b) => b,
        Err(i) => panic!("pattern {} does not compile", i),
    }
}

#[test]
fn unique_match_gives_index_and_mask() {
    let b = bank(&[r"foo (\d+)", r"bar (\w+)"]);
    match match_message(&b, "foo 123") {
        MatchOutcome::Matched { idx, mask } => {
            assert_eq!(idx, 0);
            assert_eq!(mask, "0000111");
        }
        _ => panic!("expected a match"),
    }
}

#[test]
fn second_template_matches_with_word_group() {
    let b = bank(&[r"foo (\d+)", r"bar (\w+)"]);
    match match_message(&b, "bar abc") {
        MatchOutcome::Matched { idx, mask } => {
            assert_eq!(idx, 1);
            assert_eq!(mask, "0000111");
        }
        _ => panic!("expected a match"),
    }
}

#[test]
fn two_matching_templates_are_ambiguous() {
    let b = bank(&[r"foo \d+", r"foo (\d+)"]);
    match match_message(&b, "foo 123") {
        MatchOutcome::Ambiguous { indices } => assert_eq!(indices, vec![0, 1]),
        _ => panic!("expected an ambiguous outcome"),
    }
}

#[test]
fn ambiguity_names_every_matching_index() {
    let b = bank(&[r"a.*", r"x", r"ab", r"(a)b"]);
    match match_message(&b, "ab") {
        MatchOutcome::Ambiguous { indices } => assert_eq!(indices, vec![0, 2, 3]),
        _ => panic!("expected an ambiguous outcome"),
    }
}

#[test]
fn no_template_matches() {
    let b = bank(&[r"foo \d+", r"foo (\d+)"]);
    assert!(matches!(match_message(&b, "xyz"), MatchOutcome::NoMatch));
}

#[test]
fn patterns_are_anchored_to_the_whole_message() {
    let b = bank(&[r"foo (\d+)"]);
    assert!(matches!(match_message(&b, "a foo 123"), MatchOutcome::NoMatch));
    assert!(matches!(match_message(&b, "foo 123 b"), MatchOutcome::NoMatch));
}

#[test]
fn top_level_alternation_must_match_the_whole_message() {
    let b = bank(&[r"a|b"]);
    assert!(matches!(match_message(&b, "ab"), MatchOutcome::NoMatch));
    assert!(matches!(match_message(&b, "xb"), MatchOutcome::NoMatch));
    assert!(matches!(match_message(&b, "b"), MatchOutcome::Matched { idx: 0, .. }));
}

#[test]
fn multibyte_characters_inside_a_group_are_marked_once() {
    let b = bank(&[r"(\w+) x"]);
    match match_message(&b, "héé x") {
        MatchOutcome::Matched { mask, .. } => assert_eq!(mask, "11100"),
        _ => panic!("expected a match"),
    }
}

#[test]
fn empty_bank_matches_nothing() {
    let b = bank(&[]);
    assert!(matches!(match_message(&b, ""), MatchOutcome::NoMatch));
}

#[test]
fn mask_unions_several_groups_and_skips_absent_ones() {
    let b = bank(&[r"(\w+) x(\d)?(y)? (\d+)"]);
    match match_message(&b, "ab x 42") {
        MatchOutcome::Matched { idx, mask } => {
            assert_eq!(idx, 0);
            assert_eq!(mask, "1100011");
        }
        _ => panic!("expected a match"),
    }
}

#[test]
fn mask_has_one_position_per_character() {
    let b = bank(&[r"é (\d)"]);
    match match_message(&b, "é 7") {
        MatchOutcome::Matched { mask, .. } => assert_eq!(mask, "001"),
        _ => panic!("expected a match"),
    }
}

#[test]
fn matching_twice_gives_the_same_outcome() {
    let b = bank(&[r"foo (\d+)", r"bar (\w+)"]);
    for msg in ["foo 123", "bar q", "xyz"] {
        let first = match_message(&b, msg);
        let second = match_message(&b, msg);
        match (first, second) {
            (MatchOutcome::Matched { idx: a, mask: m }, MatchOutcome::Matched { idx: c, mask: n }) => {
                assert_eq!(a, c);
                assert_eq!(m, n);
            }
            (MatchOutcome::NoMatch, MatchOutcome::NoMatch) => {}
            _ => panic!("outcomes differ"),
        }
    }
}

#[test]
fn compile_bank_reports_first_bad_pattern() {
    let patterns = vec!["ok".to_string(), "foo(bar".to_string(), "(".to_string()];
    assert_eq!(compile_bank(&patterns).err(), Some(1));
}

#[test]
fn compile_anchors_the_source() {
    let t = Template::compile(r"a\d").unwrap();
    assert_eq!(t.source(), r"^(?:a\d)$");
    assert!(t.is_match("a1"));
    assert!(!t.is_match("xa1"));
    assert!(Template::compile("(").is_none());
}

#[test]
fn capture_spans_lists_group_zero_first() {
    let t = Template::compile(r"foo (\d+)").unwrap();
    assert_eq!(t.capture_spans("foo 123"), Some(vec![Some((0, 7)), Some((4, 7))]));
    assert_eq!(t.capture_spans("bar"), None);
}

#[test]
fn csv_record_has_message_mask_and_decimal_index() {
    let r = Response { msg: "foo 123".to_string(), msk: "0000111".to_string(), idx: 0 };
    assert_eq!(r.into_csv_record(), ["foo 123".to_string(), "0000111".to_string(), "0".to_string()]);
    let r = Response { msg: "m".to_string(), msk: "0".to_string(), idx: 65535 };
    assert_eq!(r.into_csv_record()[2], "65535");
    let r = Response { msg: "m".to_string(), msk: "0".to_string(), idx: 10 };
    assert_eq!(r.into_csv_record()[2], "10");
}

#[test]
fn worker_emits_a_response_for_a_match() {
    let b = bank(&[r"foo (\d+)", r"bar (\w+)"]);
    match worker_step(&b, RecvEvent::Received(Request::Parse("foo 123".to_string()))) {
        WorkerAction::Emit(r) => {
            assert_eq!(r.msg, "foo 123");
            assert_eq!(r.msk, "0000111");
            assert_eq!(r.idx, 0);
        }
        _ => panic!("expected a response"),
    }
}

#[test]
fn worker_drops_ambiguous_and_unmatched_messages() {
    let b = bank(&[r"foo \d+", r"foo (\d+)"]);
    match worker_step(&b, RecvEvent::Received(Request::Parse("foo 123".to_string()))) {
        WorkerAction::Drop(MatchFailure::Ambiguous { indices, message }) => {
            assert_eq!(indices, vec![0, 1]);
            assert_eq!(message, "foo 123");
        }
        _ => panic!("expected an ambiguous drop"),
    }
    match worker_step(&b, RecvEvent::Received(Request::Parse("xyz".to_string()))) {
        WorkerAction::Drop(MatchFailure::NoMatch { message }) => assert_eq!(message, "xyz"),
        _ => panic!("expected a no-match drop"),
    }
}

#[test]
fn worker_exits_polls_and_aborts() {
    let b = bank(&[r"foo"]);
    assert!(matches!(worker_step(&b, RecvEvent::Received(Request::EndOfStream)), WorkerAction::Exit));
    assert!(matches!(worker_step(&b, RecvEvent::Empty), WorkerAction::Poll));
    assert!(matches!(worker_step(&b, RecvEvent::Closed), WorkerAction::Fatal));
}

#[test]
fn output_step_yields_polls_and_finishes() {
    let r = Response { msg: "a".to_string(), msk: "0".to_string(), idx: 3 };
    match output_step(RecvEvent::Received(r)) {
        OutputAction::Yield(r) => assert_eq!((r.msg.as_str(), r.idx), ("a", 3)),
        _ => panic!("expected the response"),
    }
    assert!(matches!(output_step(RecvEvent::Empty), OutputAction::Poll));
    assert!(matches!(output_step(RecvEvent::Closed), OutputAction::Finish));
}

#[test]
fn controller_runs_drains_and_joins_once() {
    let mut c = PoolController::new(4);
    assert_eq!(c.phase(), PoolPhase::Running);
    assert!(matches!(c.submit("m".to_string()), Some(Request::Parse(m)) if m == "m"));
    assert!(!c.join());
    let signals = c.end_of_stream().unwrap();
    assert_eq!(signals.len(), 4);
    assert!(signals.iter().all(|s| matches!(s, Request::EndOfStream)));
    assert_eq!(c.phase(), PoolPhase::Draining);
    assert!(c.submit("late".to_string()).is_none());
    assert!(c.end_of_stream().is_none());
    assert!(c.join());
    assert_eq!(c.phase(), PoolPhase::Joined);
    assert!(!c.join());
    assert_eq!(c.workers(), 4);
}

#[test]
fn ten_thousand_messages_over_four_workers_are_all_accounted() {
    let b = bank(&[r"foo (\d+)", r"bar (\w+)", r"bar \d+"]);
    let mut c = PoolController::new(4);
    let mut queue: Vec<Request> = Vec::new();
    for i in 0..10_000u32 {
        let msg = match i % 4 {
            0 => format!("foo {}", i),
            1 => format!("bar w{}", i),
            2 => format!("bar {}", i),
            _ => format!("none {}", i),
        };
        queue.push(c.submit(msg).unwrap());
    }
    queue.extend(c.end_of_stream().unwrap());
    let (mut responses, mut drops, mut exited) = (0u32, 0u32, 0u32);
    for req in queue {
        match worker_step(&b, RecvEvent::Received(req)) {
            WorkerAction::Emit(r) => {
                assert_eq!(r.msk.chars().count(), r.msg.chars().count());
                responses += 1;
            }
            WorkerAction::Drop(_) => drops += 1,
            WorkerAction::Exit => exited += 1,
            _ => panic!("unexpected action"),
        }
    }
    assert!(c.join());
    assert_eq!(exited, 4);
    assert_eq!(responses, 5_000);
    assert_eq!(responses + drops, 10_000);
}
