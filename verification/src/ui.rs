//! The UI thread: what becomes of events, of messages of the worker, and of a change of language.
use vstd::prelude::*;

use crate::calibre::book_views;
use crate::config::{LoadNote, LoadNoteView};
use crate::i18n::{language_row_text, language_row_value, resolved, status, status_text, Lang,
    LangChoice, Status, StatusView};
use crate::pager::{page_of, rendered, with_books, with_cover, Page, Pager, PagerView};
use crate::worker::Msg;

verus! {

/// An event of the firmware, as far as it matters here.
#[derive(Debug, Clone, Copy, PartialEq, Eq, Structural)]
pub enum Event {
    Exit,
    Init,
    /// The key that tells of a new language in the system settings.
    LanguageChange,
    PointerMove,
    Repaint,
    Show,
    Other,
}

/// What is done about an event.
#[derive(Debug, Clone, Copy, PartialEq, Eq, Structural)]
pub struct Route {
    /// Close the program.
    pub close: bool,
    /// Read the language of the firmware, and tell the UI.
    pub read_language: bool,
    /// Have everything drawn anew.
    pub redraw: bool,
    /// Hand the event on to the UI.
    pub forward: bool,
}

/// What is done about an event. While the keyboard is open, input is its own.
pub open spec fn routed(event: Event, keyboard_open: bool) -> Route {
    let taken = event == Event::Exit || keyboard_open || event == Event::PointerMove;
    Route {
        close: event == Event::Exit,
        read_language: event == Event::Init || event == Event::LanguageChange,
        redraw: event == Event::LanguageChange || !keyboard_open && (event == Event::Repaint || event
            == Event::Show),
        forward: !taken,
    }
}

/// What is done about an event.
pub fn route(event: Event, keyboard_open: bool) -> (r: Route)
    ensures
        r == routed(event, keyboard_open),
{
    let mut out = Route { close: false, read_language: false, redraw: false, forward: false };
    // First of all: the firmware takes the event as handled, so that nothing else would end the
    // program.
    if event == Event::Exit {
        out.close = true;
        return out;
    }
    if event == Event::Init || event == Event::LanguageChange {
        out.read_language = true;
    }
    // The firmware has drawn its menus over the frame.
    if event == Event::LanguageChange {
        out.redraw = true;
    }
    if keyboard_open {
        return out;
    }
    // A finger makes dozens of these in a second, and every event costs a frame. A tap does not
    // need them: press and release carry their own coordinates.
    if event == Event::PointerMove {
        return out;
    }
    // The frame on screen is no longer the program's own.
    if event == Event::Repaint || event == Event::Show {
        out.redraw = true;
    }
    out.forward = true;
    out
}

/// The program can always be left; moves of a finger never reach the UI, and nothing does while the
/// keyboard is open; every other event does, and a change of language is noticed in any case.
pub proof fn routing_rules(event: Event, keyboard_open: bool)
    ensures
        routed(Event::Exit, keyboard_open).close,
        routed(event, keyboard_open).close ==> event == Event::Exit,
        !routed(Event::PointerMove, keyboard_open).forward,
        !routed(event, true).forward,
        event != Event::Exit && event != Event::PointerMove ==> routed(event, false).forward,
        routed(Event::LanguageChange, keyboard_open).read_language,
        routed(Event::LanguageChange, keyboard_open).redraw,
{
}

/// The status at the start: what loading the settings came to.
pub open spec fn initial_status_of(note: Option<LoadNoteView>, path: Seq<char>) -> StatusView {
    match note {
        Some(LoadNoteView::ParseError { path, error }) => StatusView::ConfigError { path, error },
        Some(LoadNoteView::Created) => StatusView::ConfigMissing,
        Some(LoadNoteView::CreateFailed { path, error }) => StatusView::ConfigCreateFailed {
            path,
            error,
        },
        None => StatusView::ConfigPath(path),
    }
}

/// The status at the start: what loading the settings came to.
pub fn initial_status(note: Option<LoadNote>, path: String) -> (r: Status)
    ensures
        r@ == initial_status_of(
            match note {
                Some(note) => Some(note@),
                None => None,
            },
            path@,
        ),
{
    match note {
        Some(LoadNote::ParseError { path, error }) => Status::ConfigError { path, error },
        Some(LoadNote::Created) => Status::ConfigMissing,
        Some(LoadNote::CreateFailed { path, error }) => Status::ConfigCreateFailed { path, error },
        None => Status::ConfigPath(path),
    }
}

/// The text of a status in the current language. The status itself is kept, to be put into words
/// again when the language changes.
pub fn set_status(last: &mut Option<Status>, lang: Lang, s: Status) -> (r: String)
    ensures
        r@ == status_text(s@, lang),
        *final(last) == Some(s),
{
    let text = status(&s, lang);
    *last = Some(s);
    text
}

/// What is to be shown; what is absent stays as it is.
#[derive(Debug)]
pub struct Shown {
    pub status: Option<String>,
    pub busy: Option<bool>,
    pub page: Option<Page>,
}

/// Takes a message of the worker. Covers and states of books are shown later, all that have come in
/// at once: see `Pager::flush`.
pub fn apply(pager: &mut Pager, last: &mut Option<Status>, lang: Lang, msg: Msg) -> (r: Shown)
    requires
        old(pager)@.wf(),
        msg matches Msg::Cover { cover, .. } ==> cover.wf(),
    ensures
        final(pager)@.wf(),
        match msg {
            Msg::Status(s) => {
                &&& r.status is Some
                &&& r.status->0@ == status_text(s@, lang)
                &&& *final(last) == Some(s)
            },
            _ => r.status is None && *final(last) == *old(last),
        },
        r.busy == match msg {
            Msg::Busy(busy) => Some(busy),
            _ => None,
        },
        match msg {
            Msg::Books(books) => {
                &&& r.page is Some
                &&& r.page->0@ == page_of(with_books(old(pager)@, book_views(books@)), lang)
            },
            _ => r.page is None,
        },
        final(pager)@ == match msg {
            Msg::Books(books) => rendered(with_books(old(pager)@, book_views(books@))),
            Msg::BookState(id, state) => PagerView {
                states: old(pager)@.states.insert(id as i64, state),
                dirty: true,
                ..old(pager)@
            },
            Msg::Cover { id, cover } => with_cover(old(pager)@, id, cover),
            _ => old(pager)@,
        },
{
    let mut shown = Shown { status: None, busy: None, page: None };
    match msg {
        Msg::Status(s) => {
            shown.status = Some(set_status(last, lang, s));
        },
        Msg::Busy(busy) => {
            shown.busy = Some(busy);
        },
        Msg::Books(books) => {
            shown.page = Some(pager.set_books(books, lang));
        },
        Msg::BookState(id, state) => {
            pager.set_state(id as i64, state);
        },
        Msg::Cover { id, cover } => {
            pager.set_cover(id, cover);
        },
    }
    shown
}

/// What a change of language leads to.
#[derive(Debug)]
pub struct LanguageShown {
    /// The text of the language row.
    pub row: String,
    /// What else is shown anew, if the language of the UI is another one now.
    pub switched: Option<Switched>,
}

/// What is shown anew in another language, with a repaint of the whole screen.
#[derive(Debug)]
pub struct Switched {
    pub lang: Lang,
    pub page: Page,
    /// The last status, if there has been one.
    pub status: Option<String>,
}

/// Takes a choice of language, or a new language of the firmware. The language row is shown anew in
/// any case: it spells out what "auto" comes to. The rest is only if the language of the UI is
/// another one now.
pub fn apply_language(
    pager: &mut Pager,
    last: &Option<Status>,
    lang: &mut Lang,
    choice: LangChoice,
    system: Lang,
) -> (r: LanguageShown)
    requires
        old(pager)@.wf(),
    ensures
        final(pager)@.wf(),
        *final(lang) == resolved(choice, system),
        r.row@ == language_row_text(choice, system),
        if *final(lang) == *old(lang) {
            final(pager)@ == old(pager)@ && r.switched is None
        } else {
            &&& final(pager)@ == rendered(old(pager)@)
            &&& r.switched matches Some(switched)
            &&& switched.lang == *final(lang)
            &&& switched.page@ == page_of(old(pager)@, *final(lang))
            &&& match *last {
                Some(s) => {
                    &&& switched.status is Some
                    &&& switched.status->0@ == status_text(s@, *final(lang))
                },
                None => switched.status is None,
            }
        },
{
    let row = language_row_value(choice, system);
    let new = choice.resolve(system);
    let before = *lang;
    *lang = new;
    if before == new {
        return LanguageShown { row, switched: None };
    }
    let page = pager.render(new);
    let text = match last {
        Some(s) => Some(status(s, new)),
        None => None,
    };
    LanguageShown { row, switched: Some(Switched { lang: new, page, status: text }) }
}

} // verus!
