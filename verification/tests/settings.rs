use pocket_calibre::config::Config;
use pocket_calibre::i18n::{LangChoice, Status};
use pocket_calibre::keyboard::Field;
use pocket_calibre::settings::{
    apply_answer, current_value, cycle_language, edit_field, keep_nonempty, language_choice,
    saved_status, show_config, split_formats,
};
use pocket_calibre::worker::Cmd;

fn answer(cfg: &mut Config, field: Field, text: &str) -> bool {
    let answered = apply_answer(cfg, field, Some(text.to_string()));
    assert!(answered.shown.is_some());
    match answered.reconfigure {
        Some(Cmd::Reconfigure(sent)) => {
            assert!(sent == *cfg);
            true
        }
        Some(other) => panic!("{other:?}"),
        None => false,
    }
}

#[test]
fn settings_are_shown() {
    let mut cfg = Config::default();
    let shown = show_config(&cfg);
    assert_eq!(shown.server, "http://192.168.1.10:8080");
    assert_eq!(shown.user, "—");
    assert_eq!(shown.password, "—");
    assert_eq!(shown.library, "—");
    assert_eq!(shown.download_dir, "/mnt/ext1/Books");
    assert_eq!(shown.formats, "FB2, EPUB, PDF, MOBI");
    assert_eq!(shown.limit, "200");
    cfg.user = Some("me".to_string());
    cfg.password = Some("s".to_string());
    let shown = show_config(&cfg);
    assert_eq!(shown.user, "me");
    assert_eq!(shown.password, "••••••");
}

#[test]
fn passwords_are_never_filled_in() {
    let mut cfg = Config::default();
    cfg.password = Some("hidden".to_string());
    let request = edit_field(&cfg, 2, "Password".to_string()).unwrap();
    assert_eq!(request.field, Field::Password);
    assert_eq!(request.title, "Password");
    assert_eq!(request.initial, "");
    assert_eq!(current_value(&cfg, Field::Password), "hidden");
    cfg.password = Some("other".to_string());
    assert_eq!(show_config(&cfg).password, "••••••");
}

#[test]
fn rows_open_the_keyboard_with_the_current_value() {
    let mut cfg = Config::default();
    cfg.library = Some("L".to_string());
    let initial = |i: i32| edit_field(&cfg, i, String::new()).map(|r| r.initial);
    assert_eq!(initial(0).as_deref(), Some("http://192.168.1.10:8080"));
    assert_eq!(initial(1).as_deref(), Some(""));
    assert_eq!(initial(3).as_deref(), Some("L"));
    assert_eq!(initial(4).as_deref(), Some("/mnt/ext1/Books"));
    assert_eq!(initial(5).as_deref(), Some("FB2,EPUB,PDF,MOBI"));
    assert_eq!(initial(6).as_deref(), Some("200"));
    assert_eq!(initial(7), None);
    assert_eq!(initial(-1), None);
}

#[test]
fn confirming_without_an_edit_changes_nothing() {
    let mut cfg = Config::default();
    cfg.user = Some("me".to_string());
    for field in [
        Field::Server,
        Field::User,
        Field::Library,
        Field::DownloadDir,
        Field::Formats,
        Field::Limit,
    ] {
        let value = current_value(&cfg, field);
        assert!(!answer(&mut cfg, field, &value), "{field:?}");
    }
}

#[test]
fn closing_the_keyboard_changes_nothing() {
    let mut cfg = Config::default();
    let answered = apply_answer(&mut cfg, Field::Server, None);
    assert!(answered.shown.is_none());
    assert!(answered.reconfigure.is_none());
    assert!(cfg == Config::default());
}

#[test]
fn answers_are_taken_into_the_settings() {
    let mut cfg = Config::default();
    assert!(answer(&mut cfg, Field::Server, "  http://host:8080// "));
    assert_eq!(cfg.server, "http://host:8080");
    assert!(answer(&mut cfg, Field::User, " me "));
    assert_eq!(cfg.user.as_deref(), Some("me"));
    assert!(answer(&mut cfg, Field::User, "  "));
    assert_eq!(cfg.user, None);
    assert!(answer(&mut cfg, Field::Password, "p w"));
    assert_eq!(cfg.password.as_deref(), Some("p w"));
    assert!(answer(&mut cfg, Field::Library, "L"));
    assert_eq!(cfg.library.as_deref(), Some("L"));
    assert!(answer(&mut cfg, Field::DownloadDir, "/mnt/ext2"));
    assert_eq!(cfg.download_dir, "/mnt/ext2");
    // A second time it is no change.
    assert!(!answer(&mut cfg, Field::Library, "L"));
    assert!(!answer(&mut cfg, Field::DownloadDir, "/mnt/ext2/"));
    assert_eq!(cfg.download_dir, "/mnt/ext2/");
}

#[test]
fn lists_of_formats_are_cleaned() {
    let mut cfg = Config::default();
    assert!(answer(&mut cfg, Field::Formats, " epub, ,fb2 ,,Mobi,"));
    assert_eq!(cfg.formats, ["EPUB", "FB2", "MOBI"]);
    assert!(!answer(&mut cfg, Field::Formats, "   "));
    assert_eq!(cfg.formats.len(), 3);
    assert!(answer(&mut cfg, Field::Formats, ","));
    assert!(cfg.formats.is_empty());
    assert_eq!(split_formats(" a , b"), ["a", "b"]);
    assert_eq!(keep_nonempty(&vec![String::new(), "x".to_string(), String::new()]), ["x"]);
}

#[test]
fn limits_are_brought_within_bounds() {
    let mut cfg = Config::default();
    assert!(answer(&mut cfg, Field::Limit, "0"));
    assert_eq!(cfg.limit, 1);
    assert!(answer(&mut cfg, Field::Limit, "999999"));
    assert_eq!(cfg.limit, 5000);
    assert!(answer(&mut cfg, Field::Limit, " +42 "));
    assert_eq!(cfg.limit, 42);
    assert!(!answer(&mut cfg, Field::Limit, "many"));
    assert!(!answer(&mut cfg, Field::Limit, "-1"));
    assert_eq!(cfg.limit, 42);
}

#[test]
fn a_mandatory_field_cannot_be_cleared() {
    let mut cfg = Config::default();
    assert!(!answer(&mut cfg, Field::DownloadDir, " "));
    assert_eq!(cfg.download_dir, "/mnt/ext1/Books");
}

#[test]
fn saving_is_reported() {
    assert!(matches!(saved_status(Ok(())), Status::SettingsSaved));
    assert!(matches!(
        saved_status(Err("full".to_string())),
        Status::SettingsSaveFailed(e) if e == "full"
    ));
}

#[test]
fn the_language_row_goes_round() {
    let mut cfg = Config::default();
    assert_eq!(language_choice(&cfg), LangChoice::Auto);
    assert_eq!(cycle_language(&mut cfg), LangChoice::En);
    assert_eq!(cfg.language.as_deref(), Some("en"));
    assert_eq!(cycle_language(&mut cfg), LangChoice::Ru);
    assert_eq!(cycle_language(&mut cfg), LangChoice::Auto);
    assert!(cfg == Config::default());
}
