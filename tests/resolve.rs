use fd_watcher::failure::IoFailure;
use fd_watcher::resolve::{
    classify_entry, matching_pids, reports_name, resolve, EntryOutcome, ProcEntry, ResolveError,
};

fn process(pid: &str, name: &str) -> ProcEntry {
    ProcEntry {
        file_name: pid.as_bytes().to_vec(),
        name_record: Some(format!("{}\n", name).into_bytes()),
    }
}

fn other(file_name: &str) -> ProcEntry {
    ProcEntry { file_name: file_name.as_bytes().to_vec(), name_record: None }
}

fn gone(pid: &str) -> ProcEntry {
    ProcEntry { file_name: pid.as_bytes().to_vec(), name_record: None }
}

#[test]
fn worker_scenario() {
    let set = vec![process("10", "worker"), process("11", "worker"), process("12", "init")];
    assert_eq!(resolve(Ok(set.clone()), "worker"), Ok(vec![10, 11]));
    assert_eq!(resolve(Ok(set), "nope"), Ok(vec![]));
}

#[test]
fn empty_process_set_gives_empty_result() {
    assert_eq!(resolve(Ok(vec![]), "worker"), Ok(vec![]));
    assert_eq!(resolve(Ok(vec![]), ""), Ok(vec![]));
}

#[test]
fn non_numeric_entries_are_ignored() {
    let set = vec![
        other("self"),
        process("7", "sshd"),
        ProcEntry { file_name: b"cpuinfo".to_vec(), name_record: Some(b"sshd\n".to_vec()) },
        other("12x"),
        ProcEntry { file_name: b"-3".to_vec(), name_record: Some(b"sshd\n".to_vec()) },
        process("9", "sshd"),
    ];
    assert_eq!(resolve(Ok(set), "sshd"), Ok(vec![7, 9]));
}

#[test]
fn unreadable_directory_is_an_environment_failure() {
    assert_eq!(
        resolve(Err(IoFailure::PermissionDenied), "worker"),
        Err(ResolveError::Unavailable(IoFailure::PermissionDenied))
    );
    assert_eq!(
        resolve(Err(IoFailure::NotFound), "worker"),
        Err(ResolveError::Unavailable(IoFailure::NotFound))
    );
    assert_ne!(resolve(Err(IoFailure::NotFound), "worker"), Ok(vec![]));
}

#[test]
fn names_are_compared_exactly() {
    let set = vec![process("1", "bash"), process("2", "ssh"), process("3", "sh"), process("4", "sh2")];
    assert_eq!(resolve(Ok(set.clone()), "sh"), Ok(vec![3]));
    assert_eq!(resolve(Ok(set.clone()), "bas"), Ok(vec![]));
    assert_eq!(resolve(Ok(set), "Bash"), Ok(vec![]));
}

#[test]
fn vanished_processes_are_skipped() {
    let set = vec![process("20", "worker"), gone("21"), process("22", "worker")];
    assert_eq!(resolve(Ok(set), "worker"), Ok(vec![20, 22]));
}

#[test]
fn matches_keep_listing_order() {
    let set = vec![process("300", "a"), process("5", "a"), process("40", "b"), process("1", "a")];
    assert_eq!(matching_pids(&set, "a"), vec![300, 5, 1]);
}

#[test]
fn record_without_terminator_still_matches() {
    let set = vec![ProcEntry { file_name: b"8".to_vec(), name_record: Some(b"worker".to_vec()) }];
    assert_eq!(matching_pids(&set, "worker"), vec![8]);
}

#[test]
fn reports_name_drops_one_terminator() {
    assert!(reports_name(b"bash\n", b"bash"));
    assert!(reports_name(b"bash", b"bash"));
    assert!(reports_name(b"a\n\n", b"a\n"));
    assert!(!reports_name(b"a\n\n", b"a"));
    assert!(!reports_name(b"bash\n", b"sh"));
    assert!(!reports_name(b"sh\n", b"bash"));
    assert!(reports_name(b"\n", b""));
    assert!(reports_name(b"", b""));
}

#[test]
fn classify_each_outcome() {
    assert_eq!(classify_entry(&process("10", "worker"), b"worker"), EntryOutcome::Matched(10));
    assert_eq!(classify_entry(&process("10", "init"), b"worker"), EntryOutcome::Mismatched);
    assert_eq!(classify_entry(&gone("10"), b"worker"), EntryOutcome::Vanished);
    assert_eq!(classify_entry(&other("self"), b"worker"), EntryOutcome::NotProcess);
}
