use pocket_calibre::calibre::Book;
use pocket_calibre::config::LoadNote;
use pocket_calibre::cover::CachedCover;
use pocket_calibre::i18n::{BookState, Lang, LangChoice, Status};
use pocket_calibre::pager::Pager;
use pocket_calibre::ui::{apply, apply_language, initial_status, route, set_status, Event};
use pocket_calibre::worker::Msg;

fn one_book() -> Vec<Book> {
    vec![Book { id: 4, title: String::new(), author: "A".to_string(), format: None }]
}

#[test]
fn events_are_routed() {
    let all = [
        Event::Exit,
        Event::Init,
        Event::LanguageChange,
        Event::PointerMove,
        Event::Repaint,
        Event::Show,
        Event::Other,
    ];
    for event in all {
        for open in [false, true] {
            let r = route(event, open);
            assert_eq!(r.close, event == Event::Exit);
            assert_eq!(r.read_language, event == Event::Init || event == Event::LanguageChange);
            let quiet = open || event == Event::Exit || event == Event::PointerMove;
            assert_eq!(r.forward, !quiet);
        }
    }
    assert!(route(Event::Repaint, false).redraw);
    assert!(!route(Event::Show, true).redraw);
    assert!(route(Event::LanguageChange, true).redraw);
    assert!(!route(Event::Other, false).redraw);
}

#[test]
fn the_first_status_tells_of_the_settings() {
    let path = || "/c.toml".to_string();
    assert!(matches!(initial_status(None, path()), Status::ConfigPath(p) if p == "/c.toml"));
    assert!(matches!(initial_status(Some(LoadNote::Created), path()), Status::ConfigMissing));
    let note = LoadNote::ParseError { path: path(), error: "e".to_string() };
    assert!(matches!(
        initial_status(Some(note), path()),
        Status::ConfigError { path, error } if path == "/c.toml" && error == "e"
    ));
    let note = LoadNote::CreateFailed { path: path(), error: "f".to_string() };
    assert!(matches!(
        initial_status(Some(note), path()),
        Status::ConfigCreateFailed { error, .. } if error == "f"
    ));
}

#[test]
fn a_status_is_kept_to_be_said_again() {
    let mut last = None;
    assert_eq!(set_status(&mut last, Lang::En, Status::BookCount(3)), "Books listed: 3");
    assert!(matches!(last, Some(Status::BookCount(3))));
}

#[test]
fn messages_are_applied() {
    let mut pager = Pager::new();
    let mut last = None;
    let shown = apply(&mut pager, &mut last, Lang::En, Msg::Status(Status::LoadingList));
    assert_eq!(shown.status.as_deref(), Some("Loading book list…"));
    assert!(shown.busy.is_none() && shown.page.is_none());

    let shown = apply(&mut pager, &mut last, Lang::En, Msg::Busy(true));
    assert_eq!(shown.busy, Some(true));
    assert!(shown.status.is_none());

    let shown = apply(&mut pager, &mut last, Lang::En, Msg::Books(one_book()));
    assert_eq!(shown.page.unwrap().missing, [4]);

    let shown = apply(&mut pager, &mut last, Lang::En, Msg::BookState(4, BookState::Failed));
    assert!(shown.page.is_none());
    let cover = CachedCover { width: 1, height: 1, pixels: vec![0] };
    let shown = apply(&mut pager, &mut last, Lang::En, Msg::Cover { id: 4, cover });
    assert!(shown.page.is_none());
    let page = pager.flush(Lang::En).unwrap();
    assert_eq!(page.items[0].state, "error");
    assert!(page.items[0].cover.is_some());
}

#[test]
fn a_new_language_is_shown_at_once() {
    let mut pager = Pager::new();
    let mut last = None;
    let mut lang = Lang::En;
    apply(&mut pager, &mut last, lang, Msg::Books(one_book()));
    apply(&mut pager, &mut last, lang, Msg::Status(Status::BookCount(1)));

    let shown = apply_language(&mut pager, &last, &mut lang, LangChoice::En, Lang::Ru);
    assert_eq!(shown.row, "English");
    assert!(shown.switched.is_none());

    let shown = apply_language(&mut pager, &last, &mut lang, LangChoice::Auto, Lang::Ru);
    assert_eq!(shown.row, "Авто (Русский)");
    assert_eq!(lang, Lang::Ru);
    let switched = shown.switched.unwrap();
    assert_eq!(switched.lang, Lang::Ru);
    assert_eq!(switched.status.as_deref(), Some("Книг в списке: 1"));
    assert_eq!(switched.page.items[0].title, "Без названия");
    assert!(matches!(last, Some(Status::BookCount(1))));
}
