use app_launcher::catalog::{assemble_catalog, default_favorite_keywords};
use app_launcher::entry::{parse_desktop_entry, App};

const HOME: &str = "/home/nobody";

fn record(name: &str, command: &str) -> App {
    App {
        name: name.to_string(),
        icon: String::new(),
        command: command.to_string(),
        terminal: false,
    }
}

#[test]
fn terminal_entry_with_empty_icon() {
    // None of the fallback icon files exist here, so the icon stays empty.
    let content = "[Desktop Entry]\nName=Test App\nExec=/bin/test %F\nIcon=\nTerminal=true\n";
    let app = parse_desktop_entry(content, HOME).expect("entry must be accepted");
    assert_eq!(app.name, "Test App");
    assert_eq!(app.command, "/bin/test");
    assert!(app.terminal);
    assert_eq!(app.icon, "");
}

#[test]
fn hidden_entry_never_produces_a_record() {
    let content =
        "[Desktop Entry]\nNoDisplay=true\nName=Hidden App\nExec=/bin/hidden\nTerminal=false\n";
    assert!(parse_desktop_entry(content, HOME).is_none());
}

#[test]
fn entry_without_name_is_rejected() {
    let content = "[Desktop Entry]\nExec=/bin/x\n";
    assert!(parse_desktop_entry(content, HOME).is_none());
}

#[test]
fn entry_with_empty_name_is_rejected() {
    let content = "[Desktop Entry]\nName=\nExec=/bin/x\n";
    assert!(parse_desktop_entry(content, HOME).is_none());
}

#[test]
fn entry_without_exec_is_rejected() {
    let content = "[Desktop Entry]\nName=X\n";
    assert!(parse_desktop_entry(content, HOME).is_none());
}

#[test]
fn entry_whose_command_sanitizes_to_nothing_is_rejected() {
    let content = "[Desktop Entry]\nName=X\nExec= %F %u \n";
    assert!(parse_desktop_entry(content, HOME).is_none());
}

#[test]
fn entry_without_desktop_entry_section_is_rejected() {
    let content = "[Other Section]\nName=X\nExec=/bin/x\n";
    assert!(parse_desktop_entry(content, HOME).is_none());
}

#[test]
fn terminal_defaults_to_false_and_needs_the_exact_word() {
    let absent = "[Desktop Entry]\nName=X\nExec=/bin/x\n";
    assert!(!parse_desktop_entry(absent, HOME).unwrap().terminal);
    let other = "[Desktop Entry]\nName=X\nExec=/bin/x\nTerminal=True\n";
    assert!(!parse_desktop_entry(other, HOME).unwrap().terminal);
}

#[test]
fn duplicate_names_yield_one_entry_sourced_from_the_visible_file() {
    let visible = "[Desktop Entry]\nName=Browser\nExec=/bin/browser\n";
    let hidden = "[Desktop Entry]\nName=Browser\nNoDisplay=true\nExec=/bin/other\n";
    let mut records = Vec::new();
    if let Some(a) = parse_desktop_entry(visible, HOME) {
        records.push(a);
    }
    if let Some(a) = parse_desktop_entry(hidden, HOME) {
        records.push(a);
    }
    assert_eq!(records.len(), 1);
    let keywords = default_favorite_keywords();
    let catalog = assemble_catalog(records, &keywords, None);
    assert_eq!(catalog.apps.len(), 1);
    assert_eq!(catalog.apps[0].name, "Browser");
    assert_eq!(catalog.apps[0].command, "/bin/browser");
}

#[test]
fn applications_are_sorted_and_deduplicated() {
    let records = vec![
        record("Zed", "/bin/zed"),
        record("Alpha", "/bin/alpha"),
        record("Zed", "/bin/zed-too"),
        record("Mid", "/bin/mid"),
    ];
    let keywords = default_favorite_keywords();
    let catalog = assemble_catalog(records, &keywords, None);
    let names: Vec<&str> = catalog.apps.iter().map(|a| a.name.as_str()).collect();
    assert_eq!(names, vec!["Alpha", "Mid", "Zed"]);
    for a in &catalog.apps {
        assert!(!a.name.is_empty());
        assert!(!a.command.is_empty());
    }
}

#[test]
fn favorites_match_the_keyword_list_case_insensitively() {
    let records = vec![
        record("Discord", "/bin/discord"),
        record("Files", "/bin/files"),
        record("OBS Studio", "/bin/obs"),
    ];
    let keywords = default_favorite_keywords();
    let catalog = assemble_catalog(records, &keywords, None);
    let fav_names: Vec<&str> = catalog.favorites.iter().map(|a| a.name.as_str()).collect();
    assert_eq!(fav_names, vec!["Discord", "OBS Studio"]);
    for f in &catalog.favorites {
        assert!(catalog.apps.iter().any(|a| a.name == f.name && a.command == f.command));
    }
}

#[test]
fn search_query_filters_both_lists() {
    let records = vec![record("Terminal", "/bin/term"), record("Calculator", "/bin/calc")];
    let keywords = default_favorite_keywords();
    let query = "term".to_string();
    let catalog = assemble_catalog(records, &keywords, Some(&query));
    let names: Vec<&str> = catalog.apps.iter().map(|a| a.name.as_str()).collect();
    assert_eq!(names, vec!["Terminal"]);
    // "Terminal" is no favorite, so the filtered favorites stay empty.
    assert!(catalog.favorites.is_empty());
}

#[test]
fn search_query_is_case_insensitive() {
    let records = vec![record("Terminal", "/bin/term"), record("Calculator", "/bin/calc")];
    let keywords = default_favorite_keywords();
    let query = "TERM".to_string();
    let catalog = assemble_catalog(records, &keywords, Some(&query));
    assert_eq!(catalog.apps.len(), 1);
    assert_eq!(catalog.apps[0].name, "Terminal");
}

#[test]
fn search_query_filters_favorites_that_match() {
    let records = vec![record("Discord", "/bin/discord"), record("Dictionary", "/bin/dict")];
    let keywords = default_favorite_keywords();
    let query = "disc".to_string();
    let catalog = assemble_catalog(records, &keywords, Some(&query));
    assert_eq!(catalog.apps.len(), 1);
    assert_eq!(catalog.favorites.len(), 1);
    assert_eq!(catalog.favorites[0].name, "Discord");
}
