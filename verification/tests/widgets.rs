use app_launcher::widget::{execute, window_listed, WidgetAction, WidgetStep};

fn eww(args: &[&str]) -> WidgetStep {
    WidgetStep::Eww(args.iter().map(|s| s.to_string()).collect())
}

fn message(text: &str) -> WidgetStep {
    WidgetStep::Message(text.to_string())
}

#[test]
fn open_reports_an_already_active_window() {
    let steps = execute(WidgetAction::Open, "bar", None, true);
    assert_eq!(steps, vec![message("Window 'bar' is already active.")]);
}

#[test]
fn open_runs_the_daemon_and_sets_the_reveal_variable() {
    let var = "reveal".to_string();
    let steps = execute(WidgetAction::Open, "bar", Some(&var), false);
    assert_eq!(
        steps,
        vec![
            eww(&["open", "bar"]),
            message("Opened window 'bar'."),
            eww(&["update", "reveal=true"]),
            message("Updated reveal to true."),
        ]
    );
}

#[test]
fn close_reports_an_inactive_window() {
    let steps = execute(WidgetAction::Close, "bar", None, false);
    assert_eq!(steps, vec![message("Window 'bar' is not active.")]);
}

#[test]
fn close_with_reveal_variable_animates() {
    let var = "reveal".to_string();
    let steps = execute(WidgetAction::Close, "bar", Some(&var), true);
    assert_eq!(
        steps,
        vec![
            eww(&["update", "reveal=false"]),
            WidgetStep::DelayedClose("bar".to_string()),
            message("Closed 'bar' with animation."),
        ]
    );
}

#[test]
fn close_without_reveal_variable_is_immediate() {
    let steps = execute(WidgetAction::Close, "bar", None, true);
    assert_eq!(steps, vec![eww(&["close", "bar"]), message("Closed 'bar' immediately.")]);
}

#[test]
fn toggle_closes_active_and_opens_inactive_windows() {
    let closed = execute(WidgetAction::Toggle, "bar", None, true);
    assert_eq!(closed, execute(WidgetAction::Close, "bar", None, true));
    let opened = execute(WidgetAction::Toggle, "bar", None, false);
    assert_eq!(opened, execute(WidgetAction::Open, "bar", None, false));
}

#[test]
fn window_listing_matches_the_name_before_the_colon() {
    assert!(window_listed("bar: something\nfoo", "bar"));
    assert!(window_listed("bar: something\nfoo", "foo"));
    assert!(!window_listed("bar: something\nfoo", "baz"));
}

#[test]
fn window_listing_trims_and_handles_crlf() {
    assert!(window_listed("  bar  : x\r\nqux\r\n", "bar"));
    assert!(window_listed("  bar  : x\r\nqux\r\n", "qux"));
    assert!(!window_listed("", "bar"));
}
