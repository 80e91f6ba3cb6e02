use nlauncher::applications::{Applications, DesktopEntry};
use nlauncher::cache::{save_to_cache, CACHE_TTL_SECS};
use nlauncher::state::ApplicationInfo;

fn entry(name: &str, command: &str) -> DesktopEntry {
    DesktopEntry {
        name: Some(name.to_string()),
        command: Some(command.to_string()),
        icon: None,
        icon_path: None,
        should_show: true,
    }
}

fn record(name: &str, command: &str) -> ApplicationInfo {
    ApplicationInfo {
        name: name.to_string(),
        exec_command: command.to_string(),
        icon_ref: None,
        icon_resolved_path: None,
    }
}

fn summary(index: &[ApplicationInfo]) -> Vec<(String, String)> {
    index.iter().map(|a| (a.name.clone(), a.exec_command.clone())).collect()
}

fn pairs(items: &[(&str, &str)]) -> Vec<(String, String)> {
    items.iter().map(|(n, c)| (n.to_string(), c.to_string())).collect()
}

#[test]
fn a_scan_comes_out_in_name_order() {
    let found = vec![entry("Zed", "zed"), entry("Files", "nautilus"), entry("Alacritty", "alacritty")];
    let index = Applications::scan_for_applications(&found);
    assert_eq!(
        summary(&index),
        pairs(&[("Alacritty", "alacritty"), ("Files", "nautilus"), ("Zed", "zed")])
    );
}

#[test]
fn of_descriptors_with_the_same_name_the_first_one_counts() {
    let found = vec![
        entry("Firefox", "/usr/bin/firefox"),
        entry("Editor", "gedit"),
        entry("Firefox", "/opt/firefox/firefox"),
        entry("Editor", "kate"),
        entry("Firefox", "flatpak run org.mozilla.firefox"),
    ];
    let index = Applications::scan_for_applications(&found);
    assert_eq!(summary(&index), pairs(&[("Editor", "gedit"), ("Firefox", "/usr/bin/firefox")]));
}

#[test]
fn a_scan_gives_the_same_index_every_time() {
    let found = vec![entry("b", "1"), entry("a", "2"), entry("b", "3"), entry("a", "4")];
    let first = Applications::scan_for_applications(&found);
    let second = Applications::scan_for_applications(&found);
    assert_eq!(summary(&first), summary(&second));
    assert_eq!(summary(&first), pairs(&[("a", "2"), ("b", "1")]));
}

#[test]
fn descriptors_without_a_name_or_a_command_are_left_out() {
    let mut nameless = entry("x", "run-x");
    nameless.name = None;
    let mut commandless = entry("Broken", "x");
    commandless.command = None;
    let found = vec![nameless, commandless, entry("Works", "works")];
    let index = Applications::scan_for_applications(&found);
    assert_eq!(summary(&index), pairs(&[("Works", "works")]));
}

#[test]
fn descriptors_that_ask_not_to_be_shown_are_left_out() {
    let mut hidden = entry("Hidden", "hidden");
    hidden.should_show = false;
    let found = vec![hidden, entry("Hidden", "shown-later"), entry("Visible", "visible")];
    let index = Applications::scan_for_applications(&found);
    assert_eq!(summary(&index), pairs(&[("Hidden", "shown-later"), ("Visible", "visible")]));
}

#[test]
fn names_that_differ_in_case_are_different_names() {
    let found = vec![entry("gimp", "gimp-2"), entry("GIMP", "gimp-1")];
    let index = Applications::scan_for_applications(&found);
    assert_eq!(summary(&index), pairs(&[("GIMP", "gimp-1"), ("gimp", "gimp-2")]));
}

#[test]
fn a_scan_carries_the_icon_over() {
    let mut with_icon = entry("Files", "nautilus");
    with_icon.icon = Some("system-file-manager".to_string());
    with_icon.icon_path = Some("/usr/share/icons/32/system-file-manager.png".to_string());
    let index = Applications::scan_for_applications(&vec![with_icon]);
    assert_eq!(index.len(), 1);
    assert_eq!(index[0].icon_ref.as_deref(), Some("system-file-manager"));
    assert_eq!(
        index[0].icon_resolved_path.as_deref(),
        Some("/usr/share/icons/32/system-file-manager.png")
    );
}

#[test]
fn a_scan_of_nothing_is_an_empty_index() {
    assert!(Applications::scan_for_applications(&Vec::new()).is_empty());
}

#[test]
fn without_a_cache_file_the_system_has_to_be_scanned() {
    assert!(Applications::get_cached_applications(None, 0, 0).is_none());
}

#[test]
fn a_cache_one_second_short_of_the_window_is_used() {
    let text = save_to_cache(&vec![record("a", "1")]).unwrap();
    let index = Applications::get_cached_applications(Some(&text), 1000, 1000 + CACHE_TTL_SECS - 1);
    assert_eq!(summary(&index.unwrap()), pairs(&[("a", "1")]));
}

#[test]
fn a_cache_one_second_past_the_window_is_not_used() {
    let text = save_to_cache(&vec![record("a", "1")]).unwrap();
    assert!(Applications::get_cached_applications(Some(&text), 1000, 1000 + CACHE_TTL_SECS + 1).is_none());
}

#[test]
fn a_cache_exactly_as_old_as_the_window_is_used() {
    let text = save_to_cache(&vec![record("a", "1")]).unwrap();
    assert!(Applications::get_cached_applications(Some(&text), 1000, 1000 + CACHE_TTL_SECS).is_some());
}

#[test]
fn a_cache_that_does_not_parse_counts_as_missing() {
    assert!(Applications::get_cached_applications(Some("not json"), 10, 10).is_none());
    assert!(Applications::get_cached_applications(Some("[\"firefox.desktop\"]"), 10, 10).is_none());
    assert!(Applications::get_cached_applications(Some(""), 10, 10).is_none());
}

#[test]
fn what_the_cache_holds_is_made_into_an_index_again() {
    let text = "[[\"b\",\"1\",null,null],[\"a\",\"2\",null,null],[\"b\",\"3\",null,null]]";
    let index = Applications::get_cached_applications(Some(text), 10, 20).unwrap();
    assert_eq!(summary(&index), pairs(&[("a", "2"), ("b", "1")]));
}

#[test]
fn a_cold_start_scans_and_the_next_load_uses_the_cache() {
    let now = 1_700_000_000;
    assert!(Applications::get_cached_applications(None, 0, now).is_none());
    let mut files = entry("Files", "nautilus");
    files.icon = Some("folder".to_string());
    let found = vec![entry("Zed", "zed"), files, entry("Zed", "zed-preview")];
    let scanned = Applications::scan_for_applications(&found);
    let written = save_to_cache(&scanned).unwrap();
    let loaded = Applications::get_cached_applications(Some(&written), now, now + 5).unwrap();
    assert_eq!(loaded.len(), scanned.len());
    for (a, b) in loaded.iter().zip(scanned.iter()) {
        assert_eq!(a.name, b.name);
        assert_eq!(a.exec_command, b.exec_command);
        assert_eq!(a.icon_ref, b.icon_ref);
        assert_eq!(a.icon_resolved_path, b.icon_resolved_path);
    }
    assert_eq!(summary(&loaded), pairs(&[("Files", "nautilus"), ("Zed", "zed")]));
}

#[test]
fn rows_are_made_into_an_index() {
    let rows = vec![record("b", "1"), record("a", "2"), record("b", "3"), record("c", "4")];
    let index = Applications::index_of_rows(&rows);
    assert_eq!(summary(&index), pairs(&[("a", "2"), ("b", "1"), ("c", "4")]));
    assert_eq!(summary(&Applications::index_of_rows(&index)), summary(&index));
    assert!(Applications::index_of_rows(&Vec::new()).is_empty());
}

#[test]
fn a_scan_leaves_its_index_in_the_cache() {
    let found = vec![entry("Zed", "zed"), entry("Files", "nautilus"), entry("Zed", "other")];
    let (index, text) = Applications::scan_and_cache(&found);
    assert_eq!(summary(&index), pairs(&[("Files", "nautilus"), ("Zed", "zed")]));
    assert_eq!(text, save_to_cache(&index).unwrap());
    let loaded = Applications::get_cached_applications(Some(&text), 50, 60).unwrap();
    assert_eq!(summary(&loaded), summary(&index));
}
