use pocket_calibre::config::{sanitize_filename, Config, LoadAction, LoadNote, HEADER};
use pocket_calibre::path::{file_name, join_path, same_path};

#[test]
fn sanitize_filename_cleans_edges_and_length() {
    assert_eq!(sanitize_filename("Автор - Книга"), "Автор - Книга");
    assert_eq!(sanitize_filename("a/b:c*d?e\"f<g>h|i"), "a_b_c_d_e_f_g_h_i");
    assert_eq!(sanitize_filename("  имя. . "), "имя");
    assert_eq!(sanitize_filename(""), "book");
    assert_eq!(sanitize_filename("..."), "book");

    // Cutting a long name must not leave a trailing dot.
    let long = format!("{}. хвост", "я".repeat(119));
    let cut = sanitize_filename(&long);
    assert_eq!(cut.chars().count(), 119);
    assert!(!cut.ends_with('.') && !cut.ends_with(' '));
}

#[test]
fn sanitizing_twice_is_sanitizing_once() {
    for name in ["a\\b", "\u{1}\u{1f}", " . x . ", ".hidden", "....", "name.tar.gz."] {
        let once = sanitize_filename(name);
        assert_eq!(sanitize_filename(&once), once);
    }
    assert_eq!(sanitize_filename("a\\b"), "a_b");
    assert_eq!(sanitize_filename("\u{1}\u{1f}"), "__");
    assert_eq!(sanitize_filename(".hidden"), ".hidden");
    assert_eq!(sanitize_filename(&"x".repeat(120)), "x".repeat(120));
    assert_eq!(sanitize_filename(&"x".repeat(121)), "x".repeat(120));
}

#[test]
fn defaults_are_usable() {
    let cfg = Config::default();
    assert_eq!(cfg.server, "http://192.168.1.10:8080");
    assert_eq!(cfg.user, None);
    assert_eq!(cfg.password, None);
    assert_eq!(cfg.library, None);
    assert_eq!(cfg.download_dir, "/mnt/ext1/Books");
    assert_eq!(cfg.formats, ["FB2", "EPUB", "PDF", "MOBI"]);
    assert_eq!(cfg.limit, 200);
    assert_eq!(cfg.language, None);
}

#[test]
fn settings_compare_by_what_they_say() {
    let cfg = Config::default();
    let mut other = cfg.clone();
    assert!(cfg == other);
    other.download_dir = "/mnt//ext1/./Books/".to_string();
    assert!(cfg == other);
    other.download_dir = "/mnt/ext1/books".to_string();
    assert!(cfg != other);
    let mut third = cfg.clone();
    third.language = Some("ru".to_string());
    assert!(cfg != third);
}

#[test]
fn the_file_is_looked_for_beside_the_program_first() {
    assert_eq!(
        Config::candidate_paths(Some("/mnt/ext1/apps")),
        [
            "/mnt/ext1/apps/pocket_calibre.toml",
            "/mnt/ext1/applications/pocket_calibre.toml",
            "/mnt/ext1/system/config/pocket_calibre.toml",
        ]
    );
    assert_eq!(
        Config::candidate_paths(None),
        [
            "/mnt/ext1/applications/pocket_calibre.toml",
            "/mnt/ext1/system/config/pocket_calibre.toml",
        ]
    );
}

#[test]
fn loading_takes_the_first_readable_file() {
    let mut loading = Config::load(Some("/app"));
    assert!(matches!(loading.action(), LoadAction::Read(p) if p == "/app/pocket_calibre.toml"));
    loading.missing();
    assert!(matches!(
        loading.action(),
        LoadAction::Read(p) if p == "/mnt/ext1/applications/pocket_calibre.toml"
    ));
    let mut found = Config::default();
    found.limit = 17;
    let loaded = loading.parsed(Ok(found));
    assert_eq!(loaded.config.limit, 17);
    assert_eq!(loaded.path, "/mnt/ext1/applications/pocket_calibre.toml");
    assert!(loaded.note.is_none());
}

#[test]
fn a_broken_file_is_reported_and_left_alone() {
    let loading = Config::load(None);
    let loaded = loading.parsed(Err("expected `=`".to_string()));
    assert!(loaded.config == Config::default());
    match loaded.note {
        Some(LoadNote::ParseError { path, error }) => {
            assert_eq!(path, "/mnt/ext1/applications/pocket_calibre.toml");
            assert_eq!(path, loaded.path);
            assert_eq!(error, "expected `=`");
        }
        other => panic!("{other:?}"),
    }
}

#[test]
fn a_file_that_cannot_be_read_does_not_stop_the_search() {
    let mut loading = Config::load(Some("/app"));
    loading.unreadable("permission denied".to_string());
    loading.missing();
    assert!(matches!(
        loading.action(),
        LoadAction::Read(p) if p == "/mnt/ext1/system/config/pocket_calibre.toml"
    ));
    let mut found = Config::default();
    found.limit = 9;
    let loaded = loading.parsed(Ok(found));
    assert_eq!(loaded.config.limit, 9);
    assert_eq!(loaded.path, "/mnt/ext1/system/config/pocket_calibre.toml");
    assert!(loaded.note.is_none());
}

#[test]
fn a_file_that_cannot_be_read_is_left_alone() {
    let mut loading = Config::load(Some("/app"));
    loading.missing();
    loading.unreadable("not valid UTF-8".to_string());
    loading.unreadable("permission denied".to_string());
    assert!(matches!(loading.action(), LoadAction::GiveUp));
    let loaded = loading.gave_up();
    assert!(loaded.config == Config::default());
    assert_eq!(loaded.path, "/mnt/ext1/applications/pocket_calibre.toml");
    match loaded.note {
        Some(LoadNote::ParseError { path, error }) => {
            assert_eq!(path, loaded.path);
            assert_eq!(error, "not valid UTF-8");
        }
        other => panic!("{other:?}"),
    }
}

#[test]
fn a_file_is_created_only_where_there_is_none() {
    let mut loading = Config::load(None);
    loading.missing();
    loading.missing();
    assert!(matches!(
        loading.action(),
        LoadAction::Create(p) if p == "/mnt/ext1/applications/pocket_calibre.toml"
    ));
    let loaded = loading.created(Ok(()));
    assert!(matches!(loaded.note, Some(LoadNote::Created)));
    let failed = loading.created(Err("read-only".to_string()));
    match failed.note {
        Some(LoadNote::CreateFailed { path, error }) => {
            assert_eq!(path, "/mnt/ext1/applications/pocket_calibre.toml");
            assert_eq!(error, "read-only");
        }
        other => panic!("{other:?}"),
    }
}

#[test]
fn saved_files_start_with_the_header() {
    let text = Config::save("limit = 3\n");
    assert!(text.starts_with("# pocket_calibre settings."));
    assert!(text.ends_with("\n\nlimit = 3\n"));
    assert_eq!(text, format!("{HEADER}limit = 3\n"));
    // All of the header is comment: the text parses to the settings alone.
    let table: toml::Table = toml::from_str(&text).unwrap();
    assert_eq!(table.len(), 1);
    assert_eq!(table.get("limit").and_then(toml::Value::as_integer), Some(3));
}

#[test]
fn paths_join_like_paths() {
    for (dir, name) in [("/a", "b"), ("/a/", "b"), ("", "b"), ("/a", "/b"), ("a/b", ".c"), ("/", "x")] {
        let expected = std::path::Path::new(dir).join(name);
        assert_eq!(join_path(dir, name), expected.to_str().unwrap());
    }
}

#[test]
fn file_names_end_paths() {
    for path in ["/a/b.txt", "/a/b/", "a", "", "/", "..", "a/..", "a/.", ".", "/a//b//", "x/.y"] {
        let expected = std::path::Path::new(path)
            .file_name()
            .map(|n| n.to_string_lossy().into_owned())
            .unwrap_or_default();
        assert_eq!(file_name(path), expected, "{path}");
    }
}

#[test]
fn paths_are_the_same_by_their_parts() {
    let all = [
        "", ".", "/", "//", "a", "./a", "a/", "a/.", "/a", "/./a", "//a", "a/b", "a//b", "a/./b",
        "a/../b", "..", "./..", "a/b/.", "./a/b",
    ];
    for one in all {
        for other in all {
            let expected = std::path::Path::new(one) == std::path::Path::new(other);
            assert_eq!(same_path(one, other), expected, "{one} {other}");
        }
    }
}
