use nlauncher::process::ProcessInfo;
use nlauncher::router::{
    application_results, calculation_results, classify, notice_results, process_results,
    vault_results, Calculation, Notice, QueryMode, SearchResult, MAX_RESULTS,
};
use nlauncher::vault::VaultEntry;

fn describe(results: &[SearchResult]) -> Vec<String> {
    results
        .iter()
        .map(|r| match r {
            SearchResult::Application(at) => format!("app {}", at),
            SearchResult::Calculation(value) => format!("calc {}", value),
            SearchResult::Process(p) => format!("process {} {}", p.pid, p.name),
            SearchResult::VaultEntry(e) => format!("entry {}", e.title),
            SearchResult::Notice(n) => format!("notice {:?}", n),
        })
        .collect()
}

#[test]
fn a_query_with_the_vault_prefix_is_for_the_vault() {
    assert_eq!(classify("pass github"), QueryMode::Vault("github".to_string()));
    assert_eq!(classify("passgithub"), QueryMode::Vault("github".to_string()));
    assert_eq!(classify("pass   my secret  "), QueryMode::Vault("my secret".to_string()));
}

#[test]
fn the_vault_prefix_wins_over_signs_of_arithmetic() {
    assert_eq!(classify("pass 1+1"), QueryMode::Vault("1+1".to_string()));
    assert_eq!(classify("pass =2*2"), QueryMode::Vault("=2*2".to_string()));
    assert_eq!(classify("pass ps"), QueryMode::Vault("ps".to_string()));
}

#[test]
fn the_vault_prefix_alone_is_an_application_search() {
    assert_eq!(classify("pass"), QueryMode::Applications);
    assert_eq!(classify("pass   "), QueryMode::Applications);
    assert_eq!(classify("pas"), QueryMode::Applications);
}

#[test]
fn a_query_with_the_process_prefix_lists_processes() {
    assert_eq!(classify("ps"), QueryMode::Process(None));
    assert_eq!(classify("ps "), QueryMode::Process(None));
    assert_eq!(classify("ps chrome"), QueryMode::Process(Some("chrome".to_string())));
    assert_eq!(classify("psql"), QueryMode::Process(Some("ql".to_string())));
}

#[test]
fn the_process_prefix_wins_over_signs_of_arithmetic() {
    assert_eq!(classify("ps =1+1"), QueryMode::Process(Some("=1+1".to_string())));
    assert_eq!(classify("ps 2*3"), QueryMode::Process(Some("2*3".to_string())));
}

#[test]
fn a_query_that_starts_with_an_equals_sign_is_a_calculation() {
    assert_eq!(classify("=1+1"), QueryMode::Calculator);
    assert_eq!(classify("  = 5 km"), QueryMode::Calculator);
    assert_eq!(classify("= pass"), QueryMode::Calculator);
    assert_eq!(classify("= ps"), QueryMode::Calculator);
}

#[test]
fn everything_else_searches_the_applications() {
    assert_eq!(classify(""), QueryMode::Applications);
    assert_eq!(classify("firefox"), QueryMode::Applications);
    assert_eq!(classify("1+1"), QueryMode::Applications);
    assert_eq!(classify(" ps"), QueryMode::Applications);
    assert_eq!(classify(" pass x"), QueryMode::Applications);
    assert_eq!(classify("PS"), QueryMode::Applications);
    assert_eq!(classify("Pass x"), QueryMode::Applications);
    assert_eq!(classify("clip"), QueryMode::Applications);
}

#[test]
fn application_rows_follow_the_ranking() {
    assert_eq!(describe(&application_results(&vec![4, 0, 2])), vec!["app 4", "app 0", "app 2"]);
    assert!(application_results(&Vec::new()).is_empty());
}

#[test]
fn application_rows_are_capped() {
    assert_eq!(MAX_RESULTS, 50);
    let order: Vec<usize> = (0..120).rev().collect();
    let results = application_results(&order);
    assert_eq!(results.len(), 50);
    assert_eq!(describe(&results[..2]), vec!["app 119", "app 118"]);
    assert_eq!(describe(&results[49..]), vec!["app 70"]);
    let order: Vec<usize> = (0..50).collect();
    assert_eq!(application_results(&order).len(), 50);
}

#[test]
fn process_rows_keep_the_order_of_the_list() {
    let shown = vec![
        ProcessInfo { pid: 7, name: "a".to_string(), cpu_hundredths: 0, memory_kib: 0 },
        ProcessInfo { pid: 3, name: "b".to_string(), cpu_hundredths: 0, memory_kib: 0 },
    ];
    assert_eq!(describe(&process_results(&shown)), vec!["process 7 a", "process 3 b"]);
}

#[test]
fn vault_rows_keep_the_order_of_the_list() {
    let shown = vec![
        VaultEntry { title: "x".to_string(), username: "".to_string(), password: "".to_string(), totp: None },
        VaultEntry { title: "y".to_string(), username: "".to_string(), password: "".to_string(), totp: None },
    ];
    assert_eq!(describe(&vault_results(&shown)), vec!["entry x", "entry y"]);
}

#[test]
fn a_calculation_gives_at_most_one_row() {
    assert_eq!(
        describe(&calculation_results(Calculation::Done(Some("42".to_string())))),
        vec!["calc 42"]
    );
    assert!(calculation_results(Calculation::Done(None)).is_empty());
}

#[test]
fn a_calculator_that_is_not_ready_gives_a_notice() {
    assert_eq!(
        describe(&calculation_results(Calculation::Starting)),
        vec!["notice CalculatorStarting"]
    );
}

#[test]
fn a_notice_is_a_row_of_its_own() {
    assert_eq!(
        describe(&notice_results(Notice::VaultError("why".to_string()))),
        vec!["notice VaultError(\"why\")"]
    );
    assert_eq!(describe(&notice_results(Notice::VaultLoading)), vec!["notice VaultLoading"]);
}
