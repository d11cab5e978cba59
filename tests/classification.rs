use pending_backports::collect::{collect, CommitSet};
use pending_backports::commit::{decimal_text, BackportError, Commit, Revision};
use pending_backports::cutoff::parse_cutoff;
use pending_backports::identity::{first_line_of, parse_identity};
use pending_backports::report::{pending, pending_lines, report};

fn rev(message: &str, seconds: i64) -> Revision {
    Revision { message: Some(message.to_string()), seconds }
}

#[test]
fn scenario_pending_commit_reported() {
    let main = vec![rev("Add foo (#101)", 100), rev("Fix bar (#102)", 200)];
    let backport = vec![rev("Fix bar (#102)", 200)];
    let lines = report(&main, &backport, 0).unwrap();
    assert_eq!(lines, vec!["Add foo (#101) (100)".to_string()]);
}

#[test]
fn scenario_commits_without_marker_collapse() {
    let main = vec![rev("Misc cleanup", 100), rev("Other", 200)];
    assert_eq!(parse_identity("Misc cleanup"), 0);
    assert_eq!(parse_identity("Other"), 0);
    let set = collect(&main, 0).unwrap();
    assert_eq!(set.len(), 1);
    assert_eq!(set.commits()[0].identity, 0);
    assert_eq!(set.commits()[0].summary, "Misc cleanup");
}

#[test]
fn scenario_cutoff_after_everything() {
    let main = vec![rev("Add foo (#101)", 100), rev("Fix bar (#102)", 200)];
    let backport = vec![rev("Fix bar (#102)", 200)];
    assert_eq!(collect(&main, 201).unwrap().len(), 0);
    assert_eq!(collect(&backport, 201).unwrap().len(), 0);
    assert!(report(&main, &backport, 201).unwrap().is_empty());
}

#[test]
fn scenario_same_branch_reports_nothing() {
    let revs = vec![
        rev("Add foo (#101)", 100),
        rev("Misc cleanup", 150),
        rev("Fix bar (#102)", 200),
    ];
    for cutoff in [i64::MIN, 0, 100, 150, 200, 201] {
        assert!(report(&revs, &revs, cutoff).unwrap().is_empty());
    }
}

#[test]
fn dedup_keeps_one_record_per_number() {
    let revs = vec![rev("Fix bar (#102)", 300), rev("Fix bar, again (#102)", 200)];
    let set = collect(&revs, 0).unwrap();
    assert_eq!(set.len(), 1);
    assert_eq!(set.commits()[0].summary, "Fix bar (#102)");
    assert_eq!(set.commits()[0].timestamp, 300);
    assert!(set.contains_identity(102));
    assert!(!set.contains_identity(101));
}

#[test]
fn cutoff_is_inclusive() {
    let revs = vec![rev("a (#1)", 150), rev("b (#2)", 100), rev("c (#3)", 50)];
    let set = collect(&revs, 100).unwrap();
    assert_eq!(set.len(), 2);
    assert!(set.commits().iter().all(|c| c.timestamp >= 100));
    assert!(set.contains_identity(1));
    assert!(set.contains_identity(2));
    assert!(!set.contains_identity(3));
}

#[test]
fn difference_drops_backported_numbers() {
    let main = vec![rev("a (#1)", 30), rev("b (#2)", 20), rev("c (#3)", 10)];
    let backport = vec![rev("b, backported (#2)", 25)];
    let lines = report(&main, &backport, 0).unwrap();
    assert_eq!(lines, vec!["c (#3) (10)".to_string(), "a (#1) (30)".to_string()]);
}

#[test]
fn report_is_chronological_with_ties_by_number() {
    let main = vec![
        rev("late (#9)", 500),
        rev("tie high (#8)", 100),
        rev("early (#7)", 50),
        rev("tie low (#3)", 100),
    ];
    let lines = report(&main, &vec![], 0).unwrap();
    assert_eq!(
        lines,
        vec![
            "early (#7) (50)".to_string(),
            "tie low (#3) (100)".to_string(),
            "tie high (#8) (100)".to_string(),
            "late (#9) (500)".to_string(),
        ]
    );
}

#[test]
fn report_twice_gives_the_same_lines() {
    let main = vec![rev("a (#1)", 30), rev("b (#2)", 20), rev("Misc", 40)];
    let backport = vec![rev("a (#1)", 30)];
    let first = report(&main, &backport, 10).unwrap();
    let second = report(&main, &backport, 10).unwrap();
    assert_eq!(first, second);
    assert_eq!(first, vec!["b (#2) (20)".to_string(), "Misc (40)".to_string()]);
}

#[test]
fn missing_message_is_malformed() {
    let main = vec![rev("a (#1)", 30), Revision { message: None, seconds: 5 }];
    assert_eq!(report(&main, &vec![], 0).unwrap_err(), BackportError::MalformedCommit);
    assert_eq!(report(&vec![], &main, 100).unwrap_err(), BackportError::MalformedCommit);
    assert!(collect(&main, 0).is_err());
}

#[test]
fn empty_message_is_malformed() {
    let revs = vec![rev("", 30)];
    assert!(matches!(collect(&revs, 0), Err(BackportError::MalformedCommit)));
}

#[test]
fn observe_leaves_set_alone_on_error() {
    let mut set = CommitSet::new();
    assert!(set.observe(&rev("a (#4)", 10), 0).is_ok());
    assert_eq!(
        set.observe(&Revision { message: None, seconds: 10 }, 0),
        Err(BackportError::MalformedCommit)
    );
    assert_eq!(set.len(), 1);
    assert!(set.observe(&rev("early (#5)", 1), 5).is_ok());
    assert_eq!(set.len(), 1);
}

#[test]
fn pending_orders_records() {
    let main = collect(&vec![rev("x (#2)", 9), rev("y (#1)", 3)], 0).unwrap();
    let backport = CommitSet::new();
    let p = pending(&main, &backport);
    assert_eq!(p.len(), 2);
    assert_eq!(p[0].identity, 1);
    assert_eq!(p[1].identity, 2);
    assert_eq!(pending_lines(&main, &backport), vec!["y (#1) (3)".to_string(), "x (#2) (9)".to_string()]);
}

#[test]
fn identity_from_marker() {
    assert_eq!(parse_identity("Fix tracing (#2700)"), 2700);
    assert_eq!(parse_identity("(#1)"), 1);
    assert_eq!(parse_identity("((#7))"), 7);
    assert_eq!(parse_identity("pad (#0012)"), 12);
    assert_eq!(parse_identity("first (#12) then (#34)"), 12);
    assert_eq!(parse_identity("too long (#12345) then (#6)"), 6);
}

#[test]
fn identity_absent_without_valid_marker() {
    assert_eq!(parse_identity(""), 0);
    assert_eq!(parse_identity("(#)"), 0);
    assert_eq!(parse_identity("(#12345)"), 0);
    assert_eq!(parse_identity("(#abc)"), 0);
    assert_eq!(parse_identity("#12"), 0);
    assert_eq!(parse_identity("(#12"), 0);
    assert_eq!(parse_identity("( #12)"), 0);
}

#[test]
fn first_line_of_message() {
    assert_eq!(first_line_of("subject\nbody"), "subject");
    assert_eq!(first_line_of("subject\r\nbody"), "subject");
    assert_eq!(first_line_of("only"), "only");
    assert_eq!(first_line_of("\nbody"), "");
    assert_eq!(first_line_of("é (#5)\n"), "é (#5)");
}

#[test]
fn summary_is_the_first_line() {
    let set = collect(&vec![rev("Add foo (#101)\n\nLonger (#999) text", 7)], 0).unwrap();
    assert_eq!(set.commits()[0].summary, "Add foo (#101)");
    assert_eq!(set.commits()[0].identity, 101);
}

#[test]
fn decimal_rendering() {
    assert_eq!(decimal_text(0), "0");
    assert_eq!(decimal_text(100), "100");
    assert_eq!(decimal_text(-5), "-5");
    assert_eq!(decimal_text(i64::MAX), "9223372036854775807");
    assert_eq!(decimal_text(i64::MIN), "-9223372036854775808");
}

#[test]
fn commit_rendering() {
    let c = Commit { summary: "x".to_string(), identity: 1, timestamp: -3 };
    assert_eq!(c.render(), "x (-3)");
    let d = c.duplicate();
    assert_eq!(d.render(), "x (-3)");
}

#[test]
fn commits_equal_by_number() {
    let a = Commit { summary: "a".to_string(), identity: 4, timestamp: 1 };
    let b = Commit { summary: "b".to_string(), identity: 4, timestamp: 2 };
    let c = Commit { summary: "a".to_string(), identity: 5, timestamp: 1 };
    assert!(a == b);
    assert!(a != c);
}

#[test]
fn cutoff_parses_utc() {
    assert_eq!(parse_cutoff("1970-01-01 00:01:40"), Ok(100));
    assert_eq!(parse_cutoff("2024-01-02 03:04:05"), Ok(1704164645));
}

#[test]
fn cutoff_rejects_other_text() {
    assert_eq!(parse_cutoff("yesterday"), Err(BackportError::InvalidCutoff));
    assert_eq!(parse_cutoff("2024-01-02"), Err(BackportError::InvalidCutoff));
    assert_eq!(parse_cutoff(""), Err(BackportError::InvalidCutoff));
}

#[test]
fn commits_ordered_by_number() {
    let a = Commit { summary: "z".to_string(), identity: 4, timestamp: 900 };
    let b = Commit { summary: "a".to_string(), identity: 9, timestamp: 1 };
    let c = Commit { summary: "m".to_string(), identity: 4, timestamp: 5 };
    assert!(a < b);
    assert!(b > a);
    assert_eq!(a.partial_cmp(&c), Some(std::cmp::Ordering::Equal));
}
