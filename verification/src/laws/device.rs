//! Laws of the device: its keyboard, its network and its events, and what the screen shows of the
//! messages of the worker.
use vstd::prelude::*;
use vstd::utf8::encode_utf8;

use crate::calibre::book_views;
use crate::config::LoadNote;
use crate::i18n::{language_row_value, status, Lang, LangChoice, Status};
use crate::keyboard::{fill_buffer, Answer, Dialog, Field, Keyboard};
use crate::laws::pages::{after_showing, begins, lemma_after_showing, lemma_new_list,
    lemma_shows_page, shows_page};
use crate::laws::settings::field_in_row;
use crate::laws::speech::{brackets_number, ends_with};
use crate::laws::texts::says_signed;
use crate::net::{connect_result, ensure_online, ConnectError, NetStep};
use crate::number::{decimal, decimal_reads_back, signed_decimal};
use crate::pager::{Pager, PagerView};
use crate::ui::{apply, apply_language, initial_status, route, set_status, Event, LanguageShown, Route,
    Shown};
use crate::worker::Msg;

verus! {

/// A row of the settings screen is for the field that stands in it, and each field has the keyboard
/// that its text asks for: for addresses, hidden, for digits, in capitals, or plain.
pub proof fn a_row_is_for_its_field(index: i32, field: Option<Field>, of: Field, flags: i32)
    requires
        call_ensures(Field::from_index, (index,), field),
        call_ensures(Field::flags, (of,), flags),
    ensures
        field == field_in_row(index as int),
        flags == 256 <==> of == Field::Password,
        flags == 4 <==> of == Field::Limit,
        flags == 7 <==> of == Field::Server,
        flags == 17 <==> of == Field::Formats,
        flags == 1 <==> of == Field::User || of == Field::Library || of == Field::DownloadDir,
{
}

/// Whether a buffer holds the bytes of a text, as many as it has room for before the zero at its
/// end.
pub open spec fn holds_bytes(buffer: Seq<u8>, text: Seq<u8>) -> bool {
    &&& buffer.len() == 512
    &&& forall|i: int|
        0 <= i < 512 ==> #[trigger] buffer[i] == if i < 511 && i < text.len() {
            text[i]
        } else {
            0
        }
}

/// The buffer of the keyboard begins with the text that is edited and ends in a zero.
pub proof fn the_buffer_holds_the_text(text: &str, r: Vec<u8>)
    requires
        call_ensures(fill_buffer, (text,), r),
    ensures
        holds_bytes(r@, encode_utf8(text@)),
{
}

/// A request is taken where none waits and the keyboard is closed, and then it is the one that
/// waits; otherwise nothing changes.
pub proof fn a_request_waits_its_turn(
    keyboard: &mut Keyboard,
    field: Field,
    title: String,
    initial: String,
    open: bool,
    r: bool,
)
    requires
        call_ensures(Keyboard::request, (keyboard, field, title, initial, open), r),
    ensures
        r <==> old(keyboard).pending is None && !open,
        !r ==> final(keyboard)@ == old(keyboard)@,
        r ==> (final(keyboard).pending matches Some(request) && {
            &&& request.field == field
            &&& request.title@ == title@
            &&& request.initial@ == initial@
        }),
        final(keyboard).active == old(keyboard).active,
{
    assert(final(keyboard)@.active == final(keyboard).active);
}

/// The request that waits opens the keyboard for its field, under its title and with its text, and
/// waits no longer; one whose title holds a zero is dropped.
pub proof fn a_request_opens_the_keyboard(keyboard: &mut Keyboard, r: Option<Dialog>, flags: i32)
    requires
        call_ensures(Keyboard::trampoline, (keyboard,), r),
        old(keyboard).pending matches Some(request) ==> call_ensures(
            Field::flags,
            (request.field,),
            flags,
        ),
    ensures
        final(keyboard).pending is None,
        old(keyboard).pending is None ==> r is None,
        r is None ==> final(keyboard).active == old(keyboard).active,
        old(keyboard).pending matches Some(request) ==> {
            &&& r is Some <==> !request.title@.contains('\0')
            &&& r matches Some(dialog) ==> {
                &&& dialog.title@ == request.title@
                &&& dialog.flags == flags
                &&& holds_bytes(dialog.buffer@, encode_utf8(request.initial@))
                &&& final(keyboard).active == Some(request.field)
            }
        },
{
    assert(final(keyboard)@.active == final(keyboard).active);
    assert(old(keyboard)@.active == old(keyboard).active);
    assert(final(keyboard)@.pending is None <==> final(keyboard).pending is None);
}

/// What is typed goes to the field that the keyboard was opened for, once.
pub proof fn what_is_typed_reaches_its_field(
    keyboard: &mut Keyboard,
    text: Option<String>,
    r: Option<Answer>,
)
    requires
        call_ensures(Keyboard::on_done, (keyboard, text), r),
    ensures
        final(keyboard).active is None,
        old(keyboard).active is None ==> r is None,
        old(keyboard).active matches Some(field) ==> r == Some((field, text)),
        final(keyboard)@.pending == old(keyboard)@.pending,
{
    assert(final(keyboard)@.active == final(keyboard).active);
}

/// The device is online where any of the four bits of a connection is set, whatever the others say;
/// connecting worked where its code is zero, and otherwise the error is that code.
pub proof fn a_connection_is_told_by_its_bits(
    state: i32,
    step: NetStep,
    code: i32,
    r: Result<(), ConnectError>,
)
    requires
        call_ensures(ensure_online, (state,), step),
        call_ensures(connect_result, (code,), r),
    ensures
        step == NetStep::Online <==> state & 0x100 != 0 || state & 0x200 != 0 || state & 0x400 != 0
            || state & 0x800 != 0,
        step == NetStep::Online || step == NetStep::Connect,
        r is Ok <==> code == 0,
        r matches Err(e) ==> e.0 == code,
{
    assert(state & 0xf00 != 0 <==> state & 0x100 != 0 || state & 0x200 != 0 || state & 0x400 != 0
        || state & 0x800 != 0) by (bit_vector);
}

/// The error of a connection tells its code.
pub proof fn a_failed_connection_tells_its_code(e: &ConnectError, r: String)
    requires
        call_ensures(ConnectError::message, (e,), r),
    ensures
        brackets_number(r@, e.0 as int),
{
    reveal_strlit("couldn't connect to the network (code ");
    reveal_strlit(")");
    assert(")"@ =~= seq![')']);
    let front = "couldn't connect to the network (code "@;
    let digits = signed_decimal(e.0 as int);
    if e.0 < 0 {
        decimal_reads_back((-e.0) as nat);
        assert(digits.drop_first() =~= decimal((-e.0) as nat));
    } else {
        decimal_reads_back(e.0 as nat);
    }
    assert(says_signed(digits, e.0 as int));
    let tail = digits + seq![')'];
    assert(r@ =~= front + tail);
    assert(r@.skip(front.len() as int) =~= tail);
    assert(ends_with(r@, tail));
}

/// The program is closed by the event that asks for it and by no other. Events reach the UI but for
/// that one, for moves of a finger, and for all while the keyboard is open. The language is read at
/// the start and when it changes; all is drawn anew then, and when the firmware has drawn over it.
pub proof fn events_go_where_they_belong(event: Event, keyboard_open: bool, r: Route)
    requires
        call_ensures(route, (event, keyboard_open), r),
    ensures
        r.close <==> event == Event::Exit,
        r.forward <==> !keyboard_open && event != Event::Exit && event != Event::PointerMove,
        r.read_language <==> event == Event::Init || event == Event::LanguageChange,
        event == Event::LanguageChange ==> r.redraw,
        event == Event::Repaint || event == Event::Show ==> (r.redraw <==> !keyboard_open),
        r.redraw ==> event == Event::LanguageChange || event == Event::Repaint || event
            == Event::Show,
{
}

/// The first status tells what loading came to: where the settings are, or what went wrong with
/// which file, or that there were none.
pub proof fn the_first_status_tells_of_loading(note: Option<LoadNote>, path: String, r: Status)
    requires
        call_ensures(initial_status, (note, path), r),
    ensures
        match note {
            None => r matches Status::ConfigPath(shown) && shown@ == path@,
            Some(LoadNote::Created) => r is ConfigMissing,
            Some(LoadNote::ParseError { path: file, error: why }) => r matches Status::ConfigError {
                path: shown,
                error,
            } && shown@ == file@ && error@ == why@,
            Some(LoadNote::CreateFailed { path: file, error: why }) => r matches
                Status::ConfigCreateFailed { path: shown, error } && shown@ == file@ && error@
                == why@,
        },
{
}

/// A status is put into words, and kept to be put into words again.
pub proof fn a_status_is_kept(
    last: &mut Option<Status>,
    lang: Lang,
    s: Status,
    r: String,
    said: String,
)
    requires
        call_ensures(set_status, (last, lang, s), r),
        call_ensures(status, (&s, lang), said),
    ensures
        r@ == said@,
        *final(last) == Some(s),
{
}

/// A message of the worker is shown as what it is: a status in words, whether it is busy, or a new
/// list from its first page on. A state and a cover are noted, to be shown later.
pub proof fn messages_are_shown_as_they_are(
    pager: &mut Pager,
    last: &mut Option<Status>,
    lang: Lang,
    msg: Msg,
    r: Shown,
    said: String,
)
    requires
        call_ensures(apply, (pager, last, lang, msg), r),
        old(pager)@.wf(),
        msg matches Msg::Status(s) ==> call_ensures(status, (&s, lang), said),
    ensures
        r.status is Some <==> msg is Status,
        r.busy is Some <==> msg is Busy,
        r.page is Some <==> msg is Books,
        msg matches Msg::Status(s) ==> r.status->0@ == said@ && *final(last) == Some(s),
        !(msg is Status) ==> *final(last) == *old(last),
        msg matches Msg::Busy(busy) ==> r.busy == Some(busy),
        msg is Status || msg is Busy ==> final(pager)@ == old(pager)@,
        msg matches Msg::Books(books) ==> exists|v: PagerView|
            {
                &&& #[trigger] begins(v, book_views(books@), old(pager).rows as nat)
                &&& shows_page(v, lang, r.page->0)
                &&& after_showing(v, r.page->0, final(pager)@)
            },
        msg matches Msg::BookState(id, state) ==> {
            &&& final(pager)@.states.contains_key(id as i64)
            &&& final(pager)@.states[id as i64] == state
            &&& final(pager).dirty
            &&& final(pager)@.all == old(pager)@.all
            &&& final(pager)@.covers == old(pager)@.covers
            &&& final(pager)@.page == old(pager)@.page
            &&& forall|other: i64|
                other != id ==> {
                    &&& #[trigger] final(pager)@.states.contains_key(other) <==> old(
                        pager,
                    )@.states.contains_key(other)
                    &&& final(pager)@.states.contains_key(other) ==> final(pager)@.states[other]
                        == old(pager)@.states[other]
                }
        },
        msg matches Msg::Cover { id, cover } ==> {
            &&& final(pager)@.covers.contains_key(id)
            &&& final(pager)@.covers[id] == cover
            &&& final(pager).dirty <==> old(pager).dirty || old(pager)@.shows(id)
            &&& final(pager)@.all == old(pager)@.all
            &&& final(pager)@.states == old(pager)@.states
            &&& final(pager)@.page == old(pager)@.page
        },
{
    assert(final(pager)@.dirty == final(pager).dirty && old(pager)@.dirty == old(pager).dirty);
    let was = old(pager)@;
    match msg {
        Msg::Books(books) => {
            lemma_new_list(was, book_views(books@), lang, r.page->0);
        },
        Msg::Cover { id, cover } => {
            if !was.covers.contains_key(id) {
                assert(!was.order.to_set().contains(id));
                assert(!was.order.contains(id));
            }
        },
        _ => {},
    }
}

/// A choice of language shows its row anew, and, only where the language of the UI is another one
/// then, the page and the last status in it.
pub proof fn another_language_shows_all_anew(
    pager: &mut Pager,
    last: &Option<Status>,
    lang: &mut Lang,
    choice: LangChoice,
    system: Lang,
    r: LanguageShown,
    row: String,
    chosen: Lang,
    said: String,
)
    requires
        call_ensures(apply_language, (pager, last, lang, choice, system), r),
        call_ensures(language_row_value, (choice, system), row),
        call_ensures(LangChoice::resolve, (choice, system), chosen),
        last matches Some(s) ==> call_ensures(status, (s, chosen), said),
        old(pager)@.wf(),
    ensures
        *final(lang) == chosen,
        r.row@ == row@,
        r.switched is Some <==> chosen != *old(lang),
        r.switched is None ==> final(pager)@ == old(pager)@,
        r.switched matches Some(switched) ==> {
            &&& switched.lang == chosen
            &&& shows_page(old(pager)@, chosen, switched.page)
            &&& after_showing(old(pager)@, switched.page, final(pager)@)
            &&& switched.status is Some <==> last is Some
            &&& switched.status matches Some(text) ==> text@ == said@
        },
{
    if let Some(switched) = r.switched {
        lemma_shows_page(old(pager)@, chosen, switched.page);
        lemma_after_showing(old(pager)@, switched.page, chosen);
    }
}

} // verus!
