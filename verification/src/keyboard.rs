//! The on-screen keyboard of the firmware: which setting is edited, and how requests and answers
//! pass between the two threads.
//!
//! The UI thread leaves a request; the firmware thread takes it, opens the keyboard, and hands the
//! answer back when the keyboard is closed.
use vstd::prelude::*;
use vstd::utf8::encode_utf8;

use crate::text::chars_of;

verus! {

/// `inkview::bindings::KBD_ENTEXT`: plain text.
#[verifier::external_body]
fn kbd_entext() -> (r: u32)
    ensures
        r == 1,
{
    inkview::bindings::KBD_ENTEXT
}

/// `inkview::bindings::KBD_NUMERIC`: digits.
#[verifier::external_body]
fn kbd_numeric() -> (r: u32)
    ensures
        r == 4,
{
    inkview::bindings::KBD_NUMERIC
}

/// `inkview::bindings::KBD_URL`: an address.
#[verifier::external_body]
fn kbd_url() -> (r: u32)
    ensures
        r == 7,
{
    inkview::bindings::KBD_URL
}

/// `inkview::bindings::KBD_UPPER`: capitals.
#[verifier::external_body]
fn kbd_upper() -> (r: u32)
    ensures
        r == 16,
{
    inkview::bindings::KBD_UPPER
}

/// `inkview::bindings::KBD_PASSWORD`: hidden text.
#[verifier::external_body]
fn kbd_password() -> (r: u32)
    ensures
        r == 256,
{
    inkview::bindings::KBD_PASSWORD
}

/// A setting that is edited by the keyboard.
#[derive(Debug, Clone, Copy, PartialEq, Eq, Structural)]
pub enum Field {
    Server,
    User,
    Password,
    Library,
    DownloadDir,
    Formats,
    Limit,
}

/// The field in the given row of the settings screen.
pub open spec fn field_at(index: i32) -> Option<Field> {
    if index == 0 {
        Some(Field::Server)
    } else if index == 1 {
        Some(Field::User)
    } else if index == 2 {
        Some(Field::Password)
    } else if index == 3 {
        Some(Field::Library)
    } else if index == 4 {
        Some(Field::DownloadDir)
    } else if index == 5 {
        Some(Field::Formats)
    } else if index == 6 {
        Some(Field::Limit)
    } else {
        None
    }
}

/// The keyboard flags for a field: an address, hidden text, plain text, plain text in capitals, or
/// digits.
pub open spec fn flags_of(field: Field) -> i32 {
    match field {
        Field::Server => 7,
        Field::Password => 256,
        Field::User | Field::Library | Field::DownloadDir => 1,
        Field::Formats => 17,
        Field::Limit => 4,
    }
}

impl Field {
    /// The field in the given row of the settings screen, which knows rows by their index alone.
    pub fn from_index(index: i32) -> (r: Option<Self>)
        ensures
            r == field_at(index),
    {
        Some(
            match index {
                0 => Self::Server,
                1 => Self::User,
                2 => Self::Password,
                3 => Self::Library,
                4 => Self::DownloadDir,
                5 => Self::Formats,
                6 => Self::Limit,
                _ => return None,
            },
        )
    }

    /// The keyboard flags for the field.
    pub fn flags(self) -> (r: i32)
        ensures
            r == flags_of(self),
    {
        let flags: u32 = match self {
            Self::Server => kbd_url(),
            Self::Password => kbd_password(),
            Self::User | Self::Library | Self::DownloadDir => kbd_entext(),
            Self::Formats => {
                assert(1u32 | 16u32 == 17u32) by (bit_vector);
                kbd_entext() | kbd_upper()
            },
            Self::Limit => kbd_numeric(),
        };
        flags as i32
    }
}

/// Every field has a row, and no two fields share one.
pub proof fn rows_and_fields_match(field: Field, one: i32, other: i32)
    ensures
        exists|index: i32| #[trigger] field_at(index) == Some(field),
        field_at(one) == Some(field) && field_at(other) == Some(field) ==> one == other,
{
    let index: i32 = match field {
        Field::Server => 0,
        Field::User => 1,
        Field::Password => 2,
        Field::Library => 3,
        Field::DownloadDir => 4,
        Field::Formats => 5,
        Field::Limit => 6,
    };
    assert(field_at(index) == Some(field));
}

/// Bytes that the keyboard may fill, with room for long paths and lists of formats.
pub const BUFFER_LEN: usize = 512;

/// What the user entered. `None`: the keyboard was closed without confirmation.
pub type Answer = (Field, Option<String>);

/// A request to edit a field. The title is the label of the settings row, already translated.
#[derive(Debug)]
pub struct Request {
    pub field: Field,
    pub title: String,
    pub initial: String,
}

/// What the keyboard of the firmware is opened with.
#[derive(Debug)]
pub struct Dialog {
    pub title: String,
    /// Holds the initial text and receives what is entered.
    pub buffer: Vec<u8>,
    pub flags: i32,
}

/// The initial contents of the buffer: the text, cut short so that it ends in a zero.
pub open spec fn initial_buffer(text: Seq<u8>) -> Seq<u8> {
    Seq::new(
        BUFFER_LEN as nat,
        |i: int|
            if i < text.len() && i < BUFFER_LEN - 1 {
                text[i]
            } else {
                0
            },
    )
}

/// The initial contents of the buffer: the text, cut short so that it ends in a zero.
pub fn fill_buffer(text: &str) -> (r: Vec<u8>)
    ensures
        r@ == initial_buffer(encode_utf8(text@)),
{
    let bytes = text.as_bytes();
    let mut out: Vec<u8> = Vec::new();
    for i in 0..BUFFER_LEN
        invariant
            bytes@ == encode_utf8(text@),
            out@ == initial_buffer(encode_utf8(text@)).take(i as int),
    {
        if i < bytes.len() && i < BUFFER_LEN - 1 {
            out.push(bytes[i]);
        } else {
            out.push(0);
        }
        assert(out@ =~= initial_buffer(encode_utf8(text@)).take(i + 1));
    }
    assert(out@ =~= initial_buffer(encode_utf8(text@)));
    out
}

/// The buffer always ends in a zero, and holds the whole text where that is short enough.
pub proof fn buffer_is_terminated(text: Seq<u8>)
    ensures
        initial_buffer(text).len() == BUFFER_LEN,
        initial_buffer(text).last() == 0,
        text.len() < BUFFER_LEN ==> initial_buffer(text).take(text.len() as int) == text,
{
    if text.len() < BUFFER_LEN {
        assert(initial_buffer(text).take(text.len() as int) =~= text);
    }
}

/// Whether a title can be handed to the firmware, which takes texts that end at the first zero.
pub open spec fn title_passes(title: Seq<char>) -> bool {
    !title.contains('\0')
}

/// A request to edit a field.
#[verifier::ext_equal]
pub struct RequestView {
    pub field: Field,
    pub title: Seq<char>,
    pub initial: Seq<char>,
}

impl View for Request {
    type V = RequestView;

    open spec fn view(&self) -> RequestView {
        RequestView { field: self.field, title: self.title@, initial: self.initial@ }
    }
}

/// What the keyboard of the firmware is opened with.
#[verifier::ext_equal]
pub struct DialogView {
    pub title: Seq<char>,
    pub buffer: Seq<u8>,
    pub flags: i32,
}

impl View for Dialog {
    type V = DialogView;

    open spec fn view(&self) -> DialogView {
        DialogView { title: self.title@, buffer: self.buffer@, flags: self.flags }
    }
}

/// The requests and the open dialog that the two threads share.
#[derive(Debug)]
pub struct Keyboard {
    /// A request of the UI thread that the firmware thread has not taken yet.
    pub pending: Option<Request>,
    /// The field that the open keyboard edits.
    pub active: Option<Field>,
}

/// The requests and the open dialog that the two threads share.
#[verifier::ext_equal]
pub struct KeyboardView {
    pub pending: Option<RequestView>,
    pub active: Option<Field>,
}

impl View for Keyboard {
    type V = KeyboardView;

    open spec fn view(&self) -> KeyboardView {
        KeyboardView {
            pending: match self.pending {
                Some(request) => Some(request@),
                None => None,
            },
            active: self.active,
        }
    }
}

/// Whether a request is taken: not while another waits, nor while the keyboard is open.
pub open spec fn takes(k: KeyboardView, open: bool) -> bool {
    k.pending is None && !open
}

/// The request is left, if it is taken.
pub open spec fn after_request(k: KeyboardView, request: RequestView, open: bool) -> KeyboardView {
    if takes(k, open) {
        KeyboardView { pending: Some(request), ..k }
    } else {
        k
    }
}

/// The request that waits is served, unless its title cannot be handed over; none waits any more.
pub open spec fn after_trampoline(k: KeyboardView) -> (KeyboardView, Option<DialogView>) {
    match k.pending {
        Some(request) => if title_passes(request.title) {
            (
                KeyboardView { pending: None, active: Some(request.field) },
                Some(
                    DialogView {
                        title: request.title,
                        buffer: initial_buffer(encode_utf8(request.initial)),
                        flags: flags_of(request.field),
                    },
                ),
            )
        } else {
            (KeyboardView { pending: None, ..k }, None)
        },
        None => (k, None),
    }
}

/// The keyboard is closed, and the answer is for the field that it was opened for.
pub open spec fn after_done(k: KeyboardView) -> (KeyboardView, Option<Field>) {
    (KeyboardView { active: None, ..k }, k.active)
}

impl Keyboard {
    /// Nothing requested, nothing open.
    pub fn new() -> (r: Self)
        ensures
            r@ == (KeyboardView { pending: None, active: None }),
    {
        Keyboard { pending: None, active: None }
    }

    /// Leaves a request; whether it was taken, so that the firmware thread must be called. A second
    /// request before the first is served, or one while the keyboard is open, is dropped.
    pub fn request(&mut self, field: Field, title: String, initial: String, open: bool) -> (r: bool)
        ensures
            r == takes(old(self)@, open),
            final(self)@ == after_request(
                old(self)@,
                RequestView { field, title: title@, initial: initial@ },
                open,
            ),
    {
        if self.pending.is_some() || open {
            return false;
        }
        self.pending = Some(Request { field, title, initial });
        true
    }

    /// Takes the request, on the firmware thread, and says what to open the keyboard with. A title
    /// that cannot be handed over drops the request.
    pub fn trampoline(&mut self) -> (r: Option<Dialog>)
        ensures
            final(self)@ == after_trampoline(old(self)@).0,
            match after_trampoline(old(self)@).1 {
                Some(dialog) => r is Some && r->0@ == dialog,
                None => r is None,
            },
    {
        match self.pending.take() {
            Some(request) => {
                let chars = chars_of(request.title.as_str());
                for i in 0..chars.len()
                    invariant
                        chars@ == request.title@,
                        forall|j: int| 0 <= j < i ==> chars@[j] != '\0',
                        old(self).pending == Some(request),
                        self.pending is None,
                        self.active == old(self).active,
                {
                    if chars[i] == '\0' {
                        assert(request.title@.contains('\0'));
                        return None;
                    }
                }
                self.active = Some(request.field);
                Some(
                    Dialog {
                        buffer: fill_buffer(request.initial.as_str()),
                        flags: request.field.flags(),
                        title: request.title,
                    },
                )
            },
            None => None,
        }
    }

    /// The keyboard was closed with the given text, or without confirmation: the answer, for the
    /// field that it was opened for.
    pub fn on_done(&mut self, text: Option<String>) -> (r: Option<Answer>)
        ensures
            final(self)@ == after_done(old(self)@).0,
            r == match after_done(old(self)@).1 {
                Some(field) => Some((field, text)),
                None => None,
            },
    {
        match self.active.take() {
            Some(field) => Some((field, text)),
            None => None,
        }
    }
}

/// A request that waits is never displaced by another: it is the one that is served.
pub proof fn a_waiting_request_stays(k: KeyboardView, other: RequestView, open: bool)
    requires
        k.pending is Some,
    ensures
        after_request(k, other, open) == k,
{
}

/// What is typed goes to the field that was asked for, and then the next request is taken.
pub proof fn answers_reach_their_field(k: KeyboardView, request: RequestView)
    requires
        k.pending is None,
        title_passes(request.title),
    ensures
        ({
            let (opened, dialog) = after_trampoline(after_request(k, request, false));
            let (closed, field) = after_done(opened);
            &&& dialog matches Some(shown)
            &&& shown.flags == flags_of(request.field)
            &&& field == Some(request.field)
            &&& takes(closed, false)
        }),
{
}

} // verus!
