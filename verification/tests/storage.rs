use snow_storage::sensitive::{
    check_sensitive_command_match, collect_matches, Candidate, SensitiveCommandConfig,
};
use snow_storage::theme::{self, ThemeFile};
use snow_storage::workspace::{self, PathSize, SizeEntry};

fn s(x: &str) -> String {
    x.to_string()
}

fn rule(id: &str, pattern: &str, enabled: bool) -> SensitiveCommandConfig {
    SensitiveCommandConfig { command_id: s(id), pattern: s(pattern), description: format!("about {id}"), enabled }
}

fn candidate(text: &str, source: Option<&str>) -> Candidate {
    Candidate { text: s(text), source: source.map(s) }
}

#[test]
fn rules_are_held_against_commands() {
    let rules = vec![
        rule("rm", r"\brm\s+-rf\b", true),
        rule("off", ".*", false),
        rule("broken", "(", true),
        rule("curl", "curl", true),
    ];
    let found = check_sensitive_command_match(
        &rules,
        &vec![
            candidate("rm  -rf /tmp && curl x", None),
            candidate("rm -rf again", None),
            candidate("curl y", Some("/s.sh")),
        ],
    );
    let shown: Vec<(String, String)> = found.into_iter().map(|m| (m.command_id, m.description)).collect();
    assert_eq!(
        shown,
        vec![
            (s("rm"), s("about rm")),
            (s("curl"), s("about curl")),
            (s("curl"), s("about curl (via script /s.sh)")),
        ]
    );
}

#[test]
fn a_rule_is_reported_once_for_a_source() {
    let rules = vec![rule("a", "x", true), rule("a", "y", true)];
    let found = collect_matches(
        &rules,
        &vec![candidate("one", None), candidate("two", Some("p")), candidate("three", Some("p"))],
        &vec![vec![false, true], vec![true, true], vec![true, false]],
    );
    assert_eq!(found.len(), 2);
    assert_eq!(found[0].pattern, "y");
    assert_eq!(found[1].pattern, "x");
}

#[test]
fn entries_stay_in_the_workspace() {
    assert!(workspace::resolve_workspace_entry("/w", "/w/a").is_ok());
    for entry in ["/w", "/wide/a", "/", "/w/"] {
        let e = workspace::resolve_workspace_entry("/w", entry).unwrap_err();
        assert_eq!(e.reason, "Workspace entry is outside the workspace root");
    }
    assert!(workspace::delete_workspace_entry("/w", "/x").is_err());
}

#[test]
fn names_of_entries_have_one_part() {
    for name in ["a", " a b ", ".hidden", "a.", "..a", "a/", "a/."] {
        assert_eq!(workspace::validate_entry_name(name).unwrap(), name.trim());
    }
    for name in ["", "  ", ".", "..", "a/b", "/a", "./a", "/", "a/..", "../a"] {
        let e = workspace::validate_entry_name(name).unwrap_err();
        assert_eq!(e.reason, "Entry name must be a single file or directory name");
    }
    // The same names, seen as the standard library sees them.
    for name in ["a", ".", "..", "a/b", "/a", "./a", "/", "a/..", "a/", "a/.", "", "..a", "a//"] {
        let path = std::path::Path::new(name);
        let plain = matches!(path.components().next(), Some(std::path::Component::Normal(_)))
            && path.components().count() == 1;
        assert_eq!(workspace::validate_entry_name(name).is_ok(), plain, "{name}");
    }
    assert_eq!(workspace::rename_workspace_entry("/w", "/w/a", " b ", false).unwrap(), "b");
    let e = workspace::rename_workspace_entry("/w", "/w/a", "b", true).unwrap_err();
    assert_eq!(e.reason, "A workspace entry named 'b' already exists");
    let e = workspace::rename_workspace_entry("/w", "/x", "..", true).unwrap_err();
    assert_eq!(e.reason, "Workspace entry is outside the workspace root");
}

#[test]
fn projects_need_an_identifier() {
    assert_eq!(workspace::check_project_id(" p ").unwrap(), "p");
    let e = workspace::check_project_has_gitignore(" ", Some(true)).unwrap_err();
    assert_eq!(e.reason, "Project id is required");
    assert!(workspace::check_project_has_gitignore("p", Some(true)).unwrap());
    assert!(!workspace::check_project_has_gitignore("p", None).unwrap());
    assert!(workspace::check_project_is_remote("p", Some("ssh")).unwrap());
    assert!(!workspace::check_project_is_remote("p", Some("local")).unwrap());
    assert!(!workspace::check_project_is_remote("p", None).unwrap());
    assert!(workspace::check_project_is_remote("", None).is_err());
    assert_eq!(workspace::project_scope(Some(" p ")).as_deref(), Some("p"));
    assert_eq!(workspace::project_scope(Some("  ")), None);
    assert_eq!(workspace::project_scope(None), None);
}

#[test]
fn sizes_add_up_to_a_bound() {
    let file = |size: Option<i64>| SizeEntry { path: s("f"), is_dir: false, is_file: true, size };
    let mut sum = PathSize::start("/d");
    assert_eq!(sum.next_directory().as_deref(), Some("/d"));
    sum.get_path_size(&vec![
        file(Some(5)),
        file(None),
        SizeEntry { path: s("/d/e"), is_dir: true, is_file: false, size: None },
        SizeEntry { path: s("link"), is_dir: false, is_file: false, size: Some(9) },
    ]);
    assert_eq!(sum.total, 5);
    assert_eq!(sum.next_directory().as_deref(), Some("/d/e"));
    sum.get_path_size(&vec![file(Some(i64::MAX)), file(Some(1))]);
    assert_eq!(sum.total, i64::MAX);
    assert_eq!(sum.next_directory(), None);
}

#[test]
fn copies_of_theme_files_are_named() {
    for (path, extension) in [
        ("/a/b.PNG", "png"),
        ("x.jpeg", "jpeg"),
        ("x.exe", "png"),
        ("x", "png"),
        (".png", "png"),
        ("a.b/c", "png"),
        ("a.webp/", "webp"),
        ("a.webp/..", "png"),
    ] {
        assert_eq!(theme::extension_for(ThemeFile::Background, path), extension, "{path}");
    }
    assert_eq!(theme::extension_for(ThemeFile::StreamCursor, "x.png"), "svg");
    assert_eq!(theme::file_name(ThemeFile::Background, "2024", "ab", "png"), "bg-2024-ab.png");
    let (source, name) = theme::save_theme_background_image(" /a/b.gif ", true).ok().unwrap();
    assert_eq!(source, "/a/b.gif");
    assert!(name.starts_with("bg-2") && name.ends_with(".gif"));
    assert_eq!(name.len(), "bg-".len() + 14 + 1 + 32 + ".gif".len());
    let (_, other) = theme::save_theme_background_image("/a/b.gif", true).ok().unwrap();
    assert_ne!(name, other);
    let (_, name) = theme::save_theme_stream_cursor_svg("/a/b.svg", true).ok().unwrap();
    assert!(name.starts_with("cursor-2") && name.ends_with(".svg"));
}

#[test]
fn theme_files_must_be_there() {
    let e = theme::save_theme_background_image("  ", false).err().unwrap();
    assert_eq!(e.text(), "InvalidArg, Background image source path is required");
    let e = theme::save_theme_background_image("/x", false).err().unwrap();
    assert_eq!(e.text(), "GenericFailure, Background image source file does not exist: /x");
    let e = theme::save_theme_stream_cursor_svg("", false).err().unwrap();
    assert_eq!(e.reason, "Stream cursor SVG source path is required");
    for refused in ["/tmp/x.png", "/tmp/svg", "/tmp/.svg", "x.svg.bak"] {
        let e = theme::save_theme_stream_cursor_svg(refused, true).err().unwrap();
        assert_eq!(e.reason, format!("Stream cursor SVG source file is not an SVG file: {refused}"));
    }
    assert!(theme::save_theme_stream_cursor_svg(" /tmp/x.SVG ", true).is_ok());
    let (_, name) = theme::save_theme_background_image("/tmp/x.tiff", true).ok().unwrap();
    let parts: Vec<&str> = name.split('-').collect();
    assert!(parts[1].len() == 14 && parts[1].chars().all(|c| c.is_ascii_digit()));
    let hex = parts[2].split('.').next().unwrap();
    assert!(hex.len() == 32 && hex.chars().all(|c| c.is_ascii_hexdigit() && !c.is_ascii_uppercase()));
    let e = theme::save_theme_stream_cursor_svg("/x", false).err().unwrap();
    assert_eq!(e.reason, "Stream cursor SVG source file does not exist: /x");
}

#[test]
fn only_own_theme_files_are_deleted() {
    assert!(!theme::delete_theme_background_image(" ", true, "", "").unwrap());
    assert!(!theme::delete_theme_background_image("/b/x", false, "", "").unwrap());
    assert!(theme::delete_theme_background_image("/b/x", true, "/s/backgrounds/x", "/s/backgrounds").unwrap());
    let e = theme::delete_theme_background_image("/b/x", true, "/s/backgrounds2/x", "/s/backgrounds").unwrap_err();
    assert_eq!(e.reason, "Refused to delete a file outside the backgrounds directory");
    let e = theme::delete_theme_stream_cursor_svg("/b/x", true, "/etc/x", "/s/stream-cursors").unwrap_err();
    assert_eq!(e.reason, "Refused to delete a file outside the stream-cursors directory");
    assert_eq!(ThemeFile::Background.directory(), "backgrounds");
}
