use app_launcher::catalog::{default_favorite_keywords, get_application_dirs};
use app_launcher::entry::has_desktop_extension;
use app_launcher::icons::{
    icon_stem, pick_lookup_candidate, resolve_from_candidates, resolve_icon, score_path,
};
use app_launcher::sanitize::sanitize_command;

#[test]
fn sanitize_strips_file_placeholder() {
    assert_eq!(sanitize_command("/bin/test %F"), "/bin/test");
}

#[test]
fn sanitize_strips_every_placeholder_kind() {
    assert_eq!(sanitize_command("app %f %F %u %U"), "app");
}

#[test]
fn sanitize_trims_surrounding_whitespace() {
    assert_eq!(sanitize_command("  cmd --flag  "), "cmd --flag");
}

#[test]
fn sanitize_keeps_plain_commands() {
    assert_eq!(sanitize_command("firefox --new-window"), "firefox --new-window");
}

#[test]
fn sanitize_is_idempotent_on_ordinary_commands() {
    let inputs = ["/bin/test %F", "  app %f %u  ", "plain", "", "%%ff", "a %%Uu b"];
    for raw in inputs {
        let once = sanitize_command(raw);
        let twice = sanitize_command(&once);
        assert_eq!(twice, once);
    }
}

#[test]
fn sanitize_leaves_no_placeholder_behind() {
    // A removal can splice a new placeholder together; it is removed in turn.
    assert_eq!(sanitize_command("%%ff"), "");
    assert_eq!(sanitize_command("%%Ff"), "");
    assert_eq!(sanitize_command("a %%ff b"), "a  b");
}

#[test]
fn score_path_scoring_table() {
    assert_eq!(score_path("/usr/share/icons/theme/apps/a.svg"), 5);
    assert_eq!(score_path("/usr/share/icons/theme/scalable/a.png"), 5);
    assert_eq!(score_path("/usr/share/icons/theme/512x512/a.png"), 4);
    assert_eq!(score_path("/usr/share/icons/theme/256x256/a.png"), 3);
    assert_eq!(score_path("/usr/share/icons/theme/128x128/a.png"), 2);
    assert_eq!(score_path("/usr/share/icons/theme/64x64/a.png"), 1);
    assert_eq!(score_path("/usr/share/icons/theme/32x32/a.png"), 0);
}

#[test]
fn pick_keeps_best_scoring_candidate() {
    let cands = vec![
        "/icons/64x64/a.png".to_string(),
        "/icons/256x256/a.png".to_string(),
        "/icons/128x128/a.png".to_string(),
    ];
    assert_eq!(pick_lookup_candidate(&cands), Some("/icons/256x256/a.png".to_string()));
}

#[test]
fn pick_settles_on_the_first_candidate_when_all_score_zero() {
    let cands = vec!["/icons/32x32/a.png".to_string(), "/icons/16x16/a.png".to_string()];
    assert_eq!(pick_lookup_candidate(&cands), Some("/icons/32x32/a.png".to_string()));
}

#[test]
fn pick_yields_nothing_only_without_candidates() {
    assert_eq!(pick_lookup_candidate(&Vec::new()), None);
}

#[test]
fn pick_ties_keep_the_first_candidate() {
    let cands = vec!["/icons/scalable/a.svg".to_string(), "/icons/scalable/b.svg".to_string()];
    assert_eq!(pick_lookup_candidate(&cands), Some("/icons/scalable/a.svg".to_string()));
}

#[test]
fn pick_inspects_at_most_fifteen_candidates() {
    let mut cands = vec!["/plain/a.png".to_string(); 15];
    cands.push("/icons/scalable/late.svg".to_string());
    assert_eq!(pick_lookup_candidate(&cands), Some("/plain/a.png".to_string()));
}

#[test]
fn stem_of_missing_absolute_path() {
    assert_eq!(icon_stem("/opt/app/missing.png"), "missing");
}

#[test]
fn stem_keeps_dotless_and_hidden_names() {
    assert_eq!(icon_stem("/a/b"), "b");
    assert_eq!(icon_stem("/home/x/.bashrc"), ".bashrc");
}

#[test]
fn lookup_candidate_beats_fallback_chain() {
    // A theme lookup that offers one SVG wins over the empty-icon fallback.
    let cands = vec!["/usr/share/icons/theme/scalable/apps/missing.svg".to_string()];
    let resolved = resolve_from_candidates("missing", "/home/nobody", &cands);
    assert_eq!(resolved, "/usr/share/icons/theme/scalable/apps/missing.svg");
}

#[test]
fn resolution_is_repeatable_on_an_unchanged_filesystem() {
    let first = resolve_icon("surely-not-an-installed-icon-name", "/home/nobody");
    let second = resolve_icon("surely-not-an-installed-icon-name", "/home/nobody");
    assert_eq!(first, second);
}

#[test]
fn empty_reference_yields_nothing_without_fallback_files() {
    // None of the universal fallback icons exist here.
    assert_eq!(resolve_icon("", "/home/nobody"), "");
}

#[test]
fn existing_absolute_path_is_used_verbatim() {
    assert_eq!(resolve_icon("/usr/share/icons", "/home/nobody"), "/usr/share/icons");
}

#[test]
fn application_dirs_user_dir_comes_first() {
    let user = "/home/u/.local/share".to_string();
    let xdg = "/a:/b".to_string();
    let dirs = get_application_dirs(Some(&user), Some(&xdg));
    assert_eq!(
        dirs,
        vec![
            "/home/u/.local/share/applications".to_string(),
            "/a/applications".to_string(),
            "/b/applications".to_string(),
        ]
    );
}

#[test]
fn application_dirs_default_when_variable_unset() {
    let dirs = get_application_dirs(None, None);
    assert_eq!(
        dirs,
        vec![
            "/usr/local/share/applications".to_string(),
            "/usr/share/applications".to_string(),
        ]
    );
}

#[test]
fn favorite_keywords_are_the_configured_seven() {
    let kws = default_favorite_keywords();
    assert_eq!(
        kws,
        vec![
            "neovim".to_string(),
            "prism launcher".to_string(),
            "steam".to_string(),
            "zen browser".to_string(),
            "obs studio".to_string(),
            "cider".to_string(),
            "discord".to_string(),
        ]
    );
}

#[test]
fn desktop_extension_detection() {
    assert!(has_desktop_extension("firefox.desktop"));
    assert!(has_desktop_extension("org.gnome.Files.desktop"));
    assert!(!has_desktop_extension("firefox.txt"));
    assert!(!has_desktop_extension(".desktop"));
    assert!(!has_desktop_extension("a.desktop.bak"));
    assert!(!has_desktop_extension("desktop"));
}
