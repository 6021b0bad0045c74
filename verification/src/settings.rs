//! The settings screen: what it shows, and what an answer of the keyboard does to the settings.
use vstd::prelude::*;

use crate::calibre::client_for;
use crate::config::{same_settings, Config, ConfigView};
use crate::i18n::{choice_after, choice_of, choice_round_trips, choice_text, LangChoice, Status,
    StatusView};
use crate::keyboard::{field_at, Field, Request};
use crate::number::{decimal, decimal_reads_back, is_digit, numbers_read_back, parse_usize,
    parsed_usize, push_decimal};
use crate::text::{join, joined, lemma_trimmed, opt_text, pieces, split, splitting_undoes_joining,
    strip, strip_end, texts, trim, trimmed, trimming_is_idempotent,
    uppercase_all, uppercased, Strip};
use crate::worker::{Cmd, CmdView};

verus! {

/// The most books that a list may be asked to have.
pub const LIMIT_MAX: usize = 5000;

/// The settings as the settings screen shows them.
#[derive(Debug)]
pub struct ShownConfig {
    pub server: String,
    pub user: String,
    pub password: String,
    pub library: String,
    pub download_dir: String,
    pub formats: String,
    pub limit: String,
}

/// The settings as the settings screen shows them.
#[verifier::ext_equal]
pub struct ShownConfigView {
    pub server: Seq<char>,
    pub user: Seq<char>,
    pub password: Seq<char>,
    pub library: Seq<char>,
    pub download_dir: Seq<char>,
    pub formats: Seq<char>,
    pub limit: Seq<char>,
}

impl View for ShownConfig {
    type V = ShownConfigView;

    open spec fn view(&self) -> ShownConfigView {
        ShownConfigView {
            server: self.server@,
            user: self.user@,
            password: self.password@,
            library: self.library@,
            download_dir: self.download_dir@,
            formats: self.formats@,
            limit: self.limit@,
        }
    }
}

/// A setting that may be absent; a dash stands for it then.
pub open spec fn or_dash_text(value: Option<Seq<char>>) -> Seq<char> {
    match value {
        Some(text) => text,
        None => "—"@,
    }
}

/// The settings as the settings screen shows them. Of a password it shows only that there is one.
pub open spec fn shown_config(c: ConfigView) -> ShownConfigView {
    ShownConfigView {
        server: c.server,
        user: or_dash_text(c.user),
        password: if c.password is Some {
            "••••••"@
        } else {
            "—"@
        },
        library: or_dash_text(c.library),
        download_dir: c.download_dir,
        formats: joined(c.formats, ", "@),
        limit: decimal(c.limit as nat),
    }
}

fn or_dash(value: &Option<String>) -> (r: String)
    ensures
        r@ == or_dash_text(opt_text(*value)),
{
    match value {
        Some(text) => text.clone(),
        None => "—".to_string(),
    }
}

fn limit_text(limit: usize) -> (r: String)
    ensures
        r@ == decimal(limit as nat),
{
    let mut out: String = String::new();
    push_decimal(&mut out, limit as u64);
    assert(out@ =~= decimal(limit as nat));
    out
}

/// The settings as the settings screen shows them.
pub fn show_config(cfg: &Config) -> (r: ShownConfig)
    ensures
        r@ == shown_config(cfg@),
{
    ShownConfig {
        server: cfg.server.clone(),
        user: or_dash(&cfg.user),
        password: if cfg.password.is_some() {
            "••••••".to_string()
        } else {
            "—".to_string()
        },
        library: or_dash(&cfg.library),
        download_dir: cfg.download_dir.clone(),
        formats: join(&cfg.formats, ", "),
        limit: limit_text(cfg.limit),
    }
}

/// A setting that may be absent; empty then.
pub open spec fn or_empty_text(value: Option<Seq<char>>) -> Seq<char> {
    match value {
        Some(text) => text,
        None => Seq::empty(),
    }
}

fn or_empty(value: &Option<String>) -> (r: String)
    ensures
        r@ == or_empty_text(opt_text(*value)),
{
    match value {
        Some(text) => text.clone(),
        None => String::new(),
    }
}

/// A setting as text that can be edited.
pub open spec fn value_of(c: ConfigView, field: Field) -> Seq<char> {
    match field {
        Field::Server => c.server,
        Field::User => or_empty_text(c.user),
        Field::Password => or_empty_text(c.password),
        Field::Library => or_empty_text(c.library),
        Field::DownloadDir => c.download_dir,
        Field::Formats => joined(c.formats, ","@),
        Field::Limit => decimal(c.limit as nat),
    }
}

/// A setting as text that can be edited.
pub fn current_value(cfg: &Config, field: Field) -> (r: String)
    ensures
        r@ == value_of(cfg@, field),
{
    match field {
        Field::Server => cfg.server.clone(),
        Field::User => or_empty(&cfg.user),
        Field::Password => or_empty(&cfg.password),
        Field::Library => or_empty(&cfg.library),
        Field::DownloadDir => cfg.download_dir.clone(),
        Field::Formats => join(&cfg.formats, ","),
        Field::Limit => limit_text(cfg.limit),
    }
}

/// What the keyboard starts with: the setting as it is, but never the password, which is always
/// typed anew.
pub open spec fn initial_of(c: ConfigView, field: Field) -> Seq<char> {
    if field == Field::Password {
        Seq::empty()
    } else {
        value_of(c, field)
    }
}

/// What to ask of the keyboard when a row of the settings screen is tapped. The title is the label
/// of the row.
pub fn edit_field(cfg: &Config, index: i32, title: String) -> (r: Option<Request>)
    ensures
        match field_at(index) {
            Some(field) => {
                &&& r matches Some(request)
                &&& request.field == field
                &&& request.title == title
                &&& request.initial@ == initial_of(cfg@, field)
            },
            None => r is None,
        },
{
    match Field::from_index(index) {
        Some(field) => {
            let initial = match field {
                Field::Password => String::new(),
                other => current_value(cfg, other),
            };
            Some(Request { field, title, initial })
        },
        None => None,
    }
}

/// The texts of a list that are not empty.
pub open spec fn nonempty(list: Seq<Seq<char>>) -> Seq<Seq<char>>
    decreases list.len(),
{
    if list.len() == 0 {
        list
    } else if list.last().len() > 0 {
        nonempty(list.drop_last()).push(list.last())
    } else {
        nonempty(list.drop_last())
    }
}

/// The texts of a list that are not empty.
pub fn keep_nonempty(list: &Vec<String>) -> (r: Vec<String>)
    ensures
        texts(r@) == nonempty(texts(list@)),
{
    let ghost all = texts(list@);
    let mut out: Vec<String> = Vec::new();
    assert(texts(out@) =~= nonempty(all.take(0)));
    for i in 0..list.len()
        invariant
            all == texts(list@),
            texts(out@) == nonempty(all.take(i as int)),
    {
        assert(all.take(i + 1).drop_last() =~= all.take(i as int));
        if !list[i].as_str().is_empty() {
            let ghost was = out@;
            out.push(list[i].clone());
            assert(texts(out@) =~= texts(was).push(list@[i as int]@));
        }
    }
    assert(all.take(all.len() as int) =~= all);
    out
}

/// The entries of a list of formats: what stands between commas, without the space around it.
pub open spec fn entries_of(text: Seq<char>) -> Seq<Seq<char>> {
    Seq::new(pieces(text, ',').len(), |i: int| trimmed(pieces(text, ',')[i]))
}

/// The entries of a list of formats: what stands between commas, without the space around it.
pub fn split_formats(text: &str) -> (r: Vec<String>)
    ensures
        texts(r@) == entries_of(text@),
{
    let parts = split(text, ',');
    let mut out: Vec<String> = Vec::new();
    for i in 0..parts.len()
        invariant
            texts(parts@) == pieces(text@, ','),
            out@.len() == i,
            forall|j: int| 0 <= j < i ==> #[trigger] out@[j]@ == trimmed(pieces(text@, ',')[j]),
    {
        assert(parts@[i as int]@ == texts(parts@)[i as int]);
        out.push(trim(parts[i].as_str()));
    }
    assert(texts(out@) =~= entries_of(text@));
    out
}

/// A text that stands for nothing when it is empty.
pub open spec fn optional_text(text: Seq<char>) -> Option<Seq<char>> {
    if text.len() == 0 {
        None
    } else {
        Some(text)
    }
}

fn optional(text: String) -> (r: Option<String>)
    ensures
        opt_text(r) == optional_text(text@),
{
    if text.as_str().is_empty() {
        None
    } else {
        Some(text)
    }
}

/// A number of books brought within bounds.
pub open spec fn bounded(n: usize) -> usize {
    if n < 1 {
        1
    } else if n > LIMIT_MAX {
        LIMIT_MAX
    } else {
        n
    }
}

/// The settings with one field as entered. Space around the text does not count. Clearing a
/// directory or a list of formats, neither of which can be absent, is no change, and neither is a
/// limit that is no number.
pub open spec fn answered(c: ConfigView, field: Field, value: Seq<char>) -> ConfigView {
    let text = trimmed(value);
    match field {
        Field::Server => ConfigView { server: strip_end(text, Strip::Slash), ..c },
        Field::User => ConfigView { user: optional_text(text), ..c },
        Field::Password => ConfigView { password: optional_text(text), ..c },
        Field::Library => ConfigView { library: optional_text(text), ..c },
        Field::DownloadDir => if text.len() > 0 {
            ConfigView { download_dir: text, ..c }
        } else {
            c
        },
        Field::Formats => if text.len() > 0 {
            ConfigView { formats: nonempty(uppercased(entries_of(text))), ..c }
        } else {
            c
        },
        Field::Limit => match parsed_usize(text) {
            Some(n) => ConfigView { limit: bounded(n), ..c },
            None => c,
        },
    }
}

/// What an answer leads to.
#[derive(Debug)]
pub struct Answered {
    /// The settings to show anew; the screen is repainted in any case.
    pub shown: Option<ShownConfig>,
    /// The command for the worker. Where there is one, the settings are also to be saved.
    pub reconfigure: Option<Cmd>,
}

/// Takes what was entered into the settings. `None`: the keyboard was closed without confirmation.
///
/// The worker is told only if the settings are not the same as before: being told, it forgets the
/// list of books.
pub fn apply_answer(cfg: &mut Config, field: Field, value: Option<String>) -> (r: Answered)
    ensures
        match value {
            None => final(cfg)@ == old(cfg)@ && r.shown is None && r.reconfigure is None,
            Some(text) => {
                &&& final(cfg)@ == answered(old(cfg)@, field, text@)
                &&& r.shown is Some
                &&& r.shown->0@ == shown_config(final(cfg)@)
                &&& if same_settings(final(cfg)@, old(cfg)@) {
                    r.reconfigure is None
                } else {
                    &&& r.reconfigure is Some
                    &&& r.reconfigure->0@ == CmdView::Reconfigure(final(cfg)@)
                }
            },
        },
{
    let text = match value {
        Some(value) => trim(value.as_str()),
        None => return Answered { shown: None, reconfigure: None },
    };
    let before = cfg.clone();
    match field {
        Field::Server => {
            cfg.server = strip(text.as_str(), None, Strip::Slash);
        },
        Field::User => {
            cfg.user = optional(text);
        },
        Field::Password => {
            cfg.password = optional(text);
        },
        Field::Library => {
            cfg.library = optional(text);
        },
        Field::DownloadDir => {
            if !text.as_str().is_empty() {
                cfg.download_dir = text;
            }
        },
        Field::Formats => {
            if !text.as_str().is_empty() {
                cfg.formats = keep_nonempty(&uppercase_all(&split_formats(text.as_str())));
            }
        },
        Field::Limit => {
            if let Some(n) = parse_usize(text.as_str()) {
                cfg.limit = if n < 1 {
                    1
                } else if n > LIMIT_MAX {
                    LIMIT_MAX
                } else {
                    n
                };
            }
        },
    }
    let shown = show_config(cfg);
    let reconfigure = if *cfg == before {
        None
    } else {
        Some(Cmd::Reconfigure(cfg.clone()))
    };
    Answered { shown: Some(shown), reconfigure }
}

/// What to say once the settings were to be saved after an answer.
pub fn saved_status(outcome: Result<(), String>) -> (r: Status)
    ensures
        r@ == match outcome {
            Ok(_) => StatusView::SettingsSaved,
            Err(e) => StatusView::SettingsSaveFailed(e@),
        },
{
    match outcome {
        Ok(_) => Status::SettingsSaved,
        Err(e) => Status::SettingsSaveFailed(e),
    }
}

/// The settings with the next choice of language.
pub open spec fn cycled(c: ConfigView) -> ConfigView {
    ConfigView { language: choice_text(choice_after(choice_of(c.language))), ..c }
}

/// Moves on to the next choice of language. The worker is not told: the language is nothing to it,
/// and being told it would forget the list of books.
pub fn cycle_language(cfg: &mut Config) -> (r: LangChoice)
    ensures
        final(cfg)@ == cycled(old(cfg)@),
        r == choice_of(final(cfg)@.language),
        r == choice_after(choice_of(old(cfg)@.language)),
{
    let next = language_choice(cfg).next();
    cfg.language = next.to_config();
    proof {
        choice_round_trips(next);
    }
    next
}

/// The choice of language that the settings hold.
pub fn language_choice(cfg: &Config) -> (r: LangChoice)
    ensures
        r == choice_of(cfg@.language),
{
    match &cfg.language {
        Some(text) => LangChoice::from_config(Some(text.as_str())),
        None => LangChoice::from_config(None),
    }
}

/// An answer changes the field that it is for, and nothing else.
pub proof fn an_answer_changes_its_field_only(c: ConfigView, field: Field, value: Seq<char>)
    ensures
        ({
            let after = answered(c, field, value);
            &&& field != Field::Server ==> after.server == c.server
            &&& field != Field::User ==> after.user == c.user
            &&& field != Field::Password ==> after.password == c.password
            &&& field != Field::Library ==> after.library == c.library
            &&& field != Field::DownloadDir ==> after.download_dir == c.download_dir
            &&& field != Field::Formats ==> after.formats == c.formats
            &&& field != Field::Limit ==> after.limit == c.limit
            &&& after.language == c.language
        }),
{
}

/// Giving the same answer again changes nothing more.
pub proof fn answering_again_changes_nothing(c: ConfigView, field: Field, value: Seq<char>)
    ensures
        answered(answered(c, field, value), field, value) == answered(c, field, value),
{
}

/// No answer takes the limit out of its bounds, or makes an empty directory.
pub proof fn answers_keep_bounds(c: ConfigView, field: Field, value: Seq<char>)
    ensures
        1 <= c.limit <= LIMIT_MAX ==> 1 <= answered(c, field, value).limit <= LIMIT_MAX,
        answered(c, field, value).limit != c.limit ==> 1 <= answered(c, field, value).limit
            <= LIMIT_MAX,
        c.download_dir.len() > 0 ==> answered(c, field, value).download_dir.len() > 0,
{
}

/// Neither the settings screen nor the keyboard tells anything of a password but that there is one.
pub proof fn passwords_stay_hidden(c: ConfigView, one: Seq<char>, other: Seq<char>)
    ensures
        shown_config(ConfigView { password: Some(one), ..c }) == shown_config(
            ConfigView { password: Some(other), ..c },
        ),
        initial_of(ConfigView { password: Some(one), ..c }, Field::Password).len() == 0,
{
}

/// A text that an answer takes as it is.
pub open spec fn settled_text(text: Seq<char>) -> bool {
    trimmed(text) == text
}

/// A setting that has the form that an answer would give it.
pub open spec fn settled(c: ConfigView, field: Field) -> bool {
    match field {
        Field::Server => settled_text(c.server) && strip_end(c.server, Strip::Slash) == c.server,
        Field::User => c.user matches Some(text) ==> text.len() > 0 && settled_text(text),
        Field::Password => c.password matches Some(text) ==> text.len() > 0 && settled_text(text),
        Field::Library => c.library matches Some(text) ==> text.len() > 0 && settled_text(text),
        Field::DownloadDir => settled_text(c.download_dir),
        Field::Formats => {
            &&& uppercased(c.formats) == c.formats
            &&& forall|i: int|
                0 <= i < c.formats.len() ==> {
                    &&& (#[trigger] c.formats[i]).len() > 0
                    &&& settled_text(c.formats[i])
                    &&& !c.formats[i].contains(',')
                }
        },
        Field::Limit => 1 <= c.limit <= LIMIT_MAX,
    }
}

/// Opening a field and confirming it without an edit changes nothing, so that the worker is not
/// told and keeps its list. The password is left out: it is typed anew.
pub proof fn confirming_changes_nothing(c: ConfigView, field: Field)
    ensures
        settled(c, field) && field != Field::Password ==> {
            let after = answered(c, field, initial_of(c, field));
            after == c && same_settings(after, c)
        },
{
    if settled(c, field) && field != Field::Password {
        let value = initial_of(c, field);
        match field {
            Field::User | Field::Library => {
                lemma_trimmed(Seq::empty());
            },
            Field::Formats => {
                lemma_confirm_formats(c.formats);
            },
            Field::Limit => {
                numbers_read_back(c.limit as int);
                lemma_decimal_is_trimmed(c.limit as nat);
            },
            _ => {},
        }
        assert(answered(c, field, value) =~= c);
    }
}

/// What an answer sets is settled, so that confirming it afterwards changes nothing. The server is
/// left out, for space can remain where slashes were stripped, and so are the formats, of whose
/// capitals nothing is known.
pub proof fn answers_are_settled(c: ConfigView, field: Field, value: Seq<char>)
    ensures
        field == Field::User || field == Field::Password || field == Field::Library ==> settled(
            answered(c, field, value),
            field,
        ),
        field == Field::DownloadDir || field == Field::Limit ==> settled(c, field) || answered(
            c,
            field,
            value,
        ) != c ==> settled(answered(c, field, value), field),
{
    trimming_is_idempotent(value);
}

proof fn lemma_decimal_is_trimmed(n: nat)
    ensures
        trimmed(decimal(n)) == decimal(n),
{
    decimal_reads_back(n);
    lemma_trimmed(decimal(n));
    assert(is_digit(decimal(n)[0]));
    assert(is_digit(decimal(n).last()));
}

proof fn lemma_nonempty_keeps(list: Seq<Seq<char>>)
    requires
        forall|i: int| 0 <= i < list.len() ==> (#[trigger] list[i]).len() > 0,
    ensures
        nonempty(list) == list,
    decreases list.len(),
{
    if list.len() > 0 {
        lemma_nonempty_keeps(list.drop_last());
        assert(list[list.len() - 1].len() > 0);
        assert(list.drop_last().push(list.last()) =~= list);
    }
}

proof fn lemma_joined_edges(parts: Seq<Seq<char>>, between: Seq<char>)
    requires
        parts.len() > 0,
        forall|i: int| 0 <= i < parts.len() ==> (#[trigger] parts[i]).len() > 0,
    ensures
        joined(parts, between).len() > 0,
        joined(parts, between)[0] == parts[0][0],
        joined(parts, between).last() == parts.last().last(),
    decreases parts.len(),
{
    assert(parts[parts.len() - 1].len() > 0);
    if parts.len() > 1 {
        lemma_joined_edges(parts.drop_last(), between);
    }
}

proof fn lemma_confirm_formats(formats: Seq<Seq<char>>)
    requires
        uppercased(formats) == formats,
        forall|i: int|
            0 <= i < formats.len() ==> {
                &&& (#[trigger] formats[i]).len() > 0
                &&& settled_text(formats[i])
                &&& !formats[i].contains(',')
            },
    ensures
        ({
            let text = trimmed(joined(formats, ","@));
            text.len() > 0 ==> nonempty(uppercased(entries_of(text))) == formats
        }),
{
    reveal_strlit(",");
    assert(","@ =~= seq![',']);
    let line = joined(formats, ","@);
    if formats.len() == 0 {
        lemma_trimmed(line);
    } else {
        lemma_joined_edges(formats, ","@);
        lemma_trimmed(formats[0]);
        lemma_trimmed(formats.last());
        assert(settled_text(formats[formats.len() - 1]));
        lemma_trimmed(line);
        splitting_undoes_joining(formats, ',');
        assert(entries_of(line) =~= formats);
        lemma_nonempty_keeps(formats);
    }
}

/// The choice of language is nothing to the client, and tapping its row through all choices comes
/// back to the first one.
pub proof fn language_leaves_the_rest_alone(c: ConfigView)
    ensures
        client_for(cycled(c)) == client_for(c),
        cycled(c) == (ConfigView { language: cycled(c).language, ..c }),
        choice_of(cycled(cycled(cycled(c))).language) == choice_of(c.language),
        choice_of(cycled(c).language) != choice_of(c.language),
{
    let first = choice_after(choice_of(c.language));
    choice_round_trips(first);
    choice_round_trips(choice_after(first));
    choice_round_trips(choice_after(choice_after(first)));
}

} // verus!
