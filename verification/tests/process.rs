use nlauncher::process::{
    list_lowered, list_processes, terminate_outcome, ProcessInfo, TerminateError, EPERM,
};

fn proc_named(name: &str, pid: u32) -> ProcessInfo {
    ProcessInfo { pid, name: name.to_string(), cpu_hundredths: 150, memory_kib: 2048 }
}

fn browsers() -> Vec<ProcessInfo> {
    vec![proc_named("chrome", 100), proc_named("chromium", 101), proc_named("firefox", 102)]
}

#[test]
fn filtering_processes_keeps_matches_in_snapshot_order() {
    let shown = list_processes(&browsers(), Some("chrome"));
    assert_eq!(shown, vec![proc_named("chrome", 100)]);
    let shown = list_processes(&browsers(), Some("chrom"));
    assert_eq!(shown, vec![proc_named("chrome", 100), proc_named("chromium", 101)]);
}

#[test]
fn filtering_processes_ignores_case() {
    let snapshot = vec![proc_named("Xorg", 1), proc_named("xterm", 2), proc_named("bash", 3)];
    let shown = list_processes(&snapshot, Some("X"));
    assert_eq!(shown, vec![proc_named("Xorg", 1), proc_named("xterm", 2)]);
    let shown = list_processes(&snapshot, Some("BASH"));
    assert_eq!(shown, vec![proc_named("bash", 3)]);
}

#[test]
fn listing_without_a_filter_shows_the_whole_snapshot() {
    assert_eq!(list_processes(&browsers(), None), browsers());
    assert_eq!(list_processes(&Vec::new(), None), Vec::<ProcessInfo>::new());
}

#[test]
fn a_filter_that_nothing_matches_shows_nothing() {
    assert_eq!(list_processes(&browsers(), Some("emacs")), Vec::<ProcessInfo>::new());
}

#[test]
fn listed_processes_keep_all_their_fields() {
    let snapshot = vec![ProcessInfo {
        pid: 4242,
        name: "worker".to_string(),
        cpu_hundredths: 9950,
        memory_kib: 1_048_576,
    }];
    let shown = list_processes(&snapshot, Some("work"));
    assert_eq!(shown[0].pid, 4242);
    assert_eq!(shown[0].cpu_hundredths, 9950);
    assert_eq!(shown[0].memory_kib, 1_048_576);
    assert_eq!(shown[0].duplicate(), snapshot[0]);
}

#[test]
fn a_signal_that_went_through_is_a_success() {
    assert_eq!(terminate_outcome(0), Ok(()));
}

#[test]
fn a_refused_signal_is_reported_as_permission_denied() {
    assert_eq!(EPERM, 1);
    assert_eq!(terminate_outcome(EPERM), Err(TerminateError::PermissionDenied));
}

#[test]
fn any_other_failure_to_signal_is_reported_as_failed() {
    assert_eq!(terminate_outcome(3), Err(TerminateError::OperationFailed));
    assert_eq!(terminate_outcome(-1), Err(TerminateError::OperationFailed));
    assert_eq!(terminate_outcome(i32::MAX), Err(TerminateError::OperationFailed));
}

fn searched(items: &[&str]) -> Vec<Vec<char>> {
    items.iter().map(|s| s.chars().collect()).collect()
}

#[test]
fn processes_are_picked_by_the_names_they_are_searched_under() {
    let needle: Vec<char> = "chrom".chars().collect();
    let shown = list_lowered(&browsers(), &searched(&["chrome", "chromium", "firefox"]), &needle);
    assert_eq!(shown, vec![proc_named("chrome", 100), proc_named("chromium", 101)]);
    let shown = list_lowered(&browsers(), &searched(&["x", "y", "chromatic"]), &needle);
    assert_eq!(shown, vec![proc_named("firefox", 102)]);
    let shown = list_lowered(&browsers(), &searched(&["Chrome", "CHROMIUM", "firefox"]), &needle);
    assert_eq!(shown, Vec::<ProcessInfo>::new());
}

#[test]
fn a_process_without_a_searched_name_is_left_out() {
    let needle: Vec<char> = "".chars().collect();
    let shown = list_lowered(&browsers(), &searched(&["chrome"]), &needle);
    assert_eq!(shown, vec![proc_named("chrome", 100)]);
    let shown = list_lowered(&browsers(), &searched(&["a", "b", "c", "d", "e"]), &needle);
    assert_eq!(shown, browsers());
    assert_eq!(list_lowered(&browsers(), &Vec::new(), &needle), Vec::<ProcessInfo>::new());
}
