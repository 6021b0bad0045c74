//! Laws of the settings: what the settings screen shows, what an answer does to them, and where they
//! are found and kept.
use vstd::prelude::*;

use crate::calibre::client_for;
use crate::config::{only_comments, same_settings, the_header_is_comment, Config, ConfigView,
    LoadAction, LoadNote, Loaded, Loading};
use crate::i18n::{LangChoice, Status};
use crate::keyboard::{Field, Request};
use crate::laws::downloads::in_front;
use crate::laws::requests::same_text;
use crate::laws::texts::{cut_out, lemma_stripped_behind, lemma_trims, lemma_trims_once, says_unsigned,
    trims};
use crate::number::{all_digits, decimal_reads_back, is_digit};
use crate::path::same_path_text;
use crate::settings::{apply_answer, current_value, cycle_language, edit_field, entries_of,
    keep_nonempty, language_choice, nonempty, saved_status, show_config, split_formats, Answered,
    ShownConfig};
use crate::text::{joined, lemma_strip_end, opt_text, pieces, texts, trimmed, uppercased,
    Strip};
use crate::worker::Cmd;

verus! {

/// What stands for a setting that is absent.
pub open spec fn or_a_dash(value: Option<String>) -> Seq<char> {
    match value {
        Some(text) => text@,
        None => "—"@,
    }
}

/// Whether each row shows its own setting: the text of it, or a dash where it is absent, the formats
/// with commas between them, the limit in digits, and of a password only whether there is one.
pub open spec fn shows(cfg: Config, r: ShownConfig) -> bool {
    &&& r.server@ == cfg.server@
    &&& r.user@ == or_a_dash(cfg.user)
    &&& cfg.password is None ==> r.password@ == "—"@
    &&& cfg.password is Some ==> r.password@ == "••••••"@
    &&& r.library@ == or_a_dash(cfg.library)
    &&& r.download_dir@ == cfg.download_dir@
    &&& r.formats@ == joined(texts(cfg.formats@), ", "@)
    &&& says_unsigned(r.limit@, cfg.limit as int)
}

/// Each row of the settings screen shows its own setting.
pub proof fn each_row_shows_its_setting(cfg: &Config, r: ShownConfig)
    requires
        call_ensures(show_config, (cfg,), r),
    ensures
        shows(*cfg, r),
{
    decimal_reads_back(cfg.limit as nat);
}

/// A row depends on its own setting alone, and the row of the password not even on that but on
/// whether there is one.
pub proof fn rows_depend_on_their_own_setting(
    a: &Config,
    b: &Config,
    one: ShownConfig,
    other: ShownConfig,
)
    requires
        call_ensures(show_config, (a,), one),
        call_ensures(show_config, (b,), other),
    ensures
        one.server@ == other.server@ <==> a.server@ == b.server@,
        same_text(a.user, b.user) ==> one.user@ == other.user@,
        a.user is Some && b.user is Some ==> (one.user@ == other.user@ <==> a.user->0@
            == b.user->0@),
        one.password@ == other.password@ <==> (a.password is Some <==> b.password is Some),
        same_text(a.library, b.library) ==> one.library@ == other.library@,
        a.library is Some && b.library is Some ==> (one.library@ == other.library@ <==> a.library->0@
            == b.library->0@),
        one.download_dir@ == other.download_dir@ <==> a.download_dir@ == b.download_dir@,
        texts(a.formats@) == texts(b.formats@) ==> one.formats@ == other.formats@,
        one.limit@ == other.limit@ <==> a.limit == b.limit,
{
    reveal_strlit("••••••");
    reveal_strlit("—");
    assert("••••••"@.len() == 6 && "—"@.len() == 1);
    decimal_reads_back(a.limit as nat);
    decimal_reads_back(b.limit as nat);
}

/// The text of a setting that may be absent; empty then.
pub open spec fn or_nothing(value: Option<String>) -> Seq<char> {
    match value {
        Some(text) => text@,
        None => Seq::empty(),
    }
}

/// Whether a text is a setting as it can be edited.
pub open spec fn is_value(cfg: Config, field: Field, text: Seq<char>) -> bool {
    match field {
        Field::Server => text == cfg.server@,
        Field::User => text == or_nothing(cfg.user),
        Field::Password => text == or_nothing(cfg.password),
        Field::Library => text == or_nothing(cfg.library),
        Field::DownloadDir => text == cfg.download_dir@,
        Field::Formats => text == joined(texts(cfg.formats@), ","@),
        Field::Limit => says_unsigned(text, cfg.limit as int),
    }
}

/// A setting is edited as the text that it is.
pub proof fn a_setting_is_edited_as_it_is(cfg: &Config, field: Field, r: String)
    requires
        call_ensures(current_value, (cfg, field), r),
    ensures
        is_value(*cfg, field, r@),
{
    decimal_reads_back(cfg.limit as nat);
}

/// The fields stand in the rows of the settings screen in this order.
pub open spec fn field_in_row(index: int) -> Option<Field> {
    if 0 <= index < 7 {
        Some(
            seq![
                Field::Server,
                Field::User,
                Field::Password,
                Field::Library,
                Field::DownloadDir,
                Field::Formats,
                Field::Limit,
            ][index],
        )
    } else {
        None
    }
}

/// Tapping a row asks for its field, under its title and starting with its setting; a password is
/// typed anew.
pub proof fn tapping_a_row_edits_its_field(
    cfg: &Config,
    index: i32,
    title: String,
    r: Option<Request>,
)
    requires
        call_ensures(edit_field, (cfg, index, title), r),
    ensures
        match field_in_row(index as int) {
            Some(field) => r matches Some(request) && {
                &&& request.field == field
                &&& request.title@ == title@
                &&& field == Field::Password ==> request.initial@.len() == 0
                &&& field != Field::Password ==> is_value(*cfg, field, request.initial@)
            },
            None => r is None,
        },
{
    decimal_reads_back(cfg.limit as nat);
}

/// What is kept of a list is its filtering by whether a text is empty.
proof fn lemma_nonempty(list: Seq<Seq<char>>)
    ensures
        nonempty(list) == list.filter(|text: Seq<char>| text.len() > 0),
    decreases list.len(),
{
    reveal(Seq::filter);
    if list.len() > 0 {
        lemma_nonempty(list.drop_last());
    }
}

/// Empty texts are left out of a list, and the others keep their order.
pub proof fn empty_texts_are_left_out(list: &Vec<String>, r: Vec<String>)
    requires
        call_ensures(keep_nonempty, (list,), r),
    ensures
        texts(r@) == texts(list@).filter(|text: Seq<char>| text.len() > 0),
{
    lemma_nonempty(texts(list@));
}

/// A list of formats is split at its commas, and space around an entry does not count.
pub proof fn formats_are_split_at_commas(text: &str, r: Vec<String>)
    requires
        call_ensures(split_formats, (text,), r),
    ensures
        r@.len() == pieces(text@, ',').len(),
        forall|i: int| 0 <= i < r@.len() ==> trims(pieces(text@, ',')[i], (#[trigger] r@[i])@),
{
    assert(texts(r@).len() == entries_of(text@).len());
    assert forall|i: int| 0 <= i < r@.len() implies trims(
        pieces(text@, ',')[i],
        (#[trigger] r@[i])@,
    ) by {
        assert(texts(r@)[i] == r@[i]@);
        lemma_trims(pieces(text@, ',')[i]);
    }
}

/// Whether a setting that may be absent is the given text; an empty text makes it absent.
pub open spec fn is_set_to(value: Option<String>, text: Seq<char>) -> bool {
    match value {
        Some(set) => set@ == text && text.len() > 0,
        None => text.len() == 0,
    }
}

/// Whether formats are those entered: what stands between the commas, without the space around it,
/// in capitals, and without what is empty.
pub open spec fn are_formats_of(formats: Seq<Seq<char>>, text: Seq<char>) -> bool {
    exists|entries: Seq<Seq<char>>|
        {
            &&& entries.len() == pieces(text, ',').len()
            &&& forall|i: int|
                0 <= i < entries.len() ==> trims(pieces(text, ',')[i], #[trigger] entries[i])
            &&& formats == (#[trigger] uppercased(entries)).filter(
                |entry: Seq<char>| entry.len() > 0,
            )
        }
}

/// Whether a setting is as entered, the space around the text left off. An empty directory and an
/// empty list of formats change nothing, and neither does a limit that is no number; any other limit
/// is brought within 1 and 5000.
pub open spec fn is_as_entered(
    before: Config,
    after: Config,
    field: Field,
    text: Seq<char>,
) -> bool {
    match field {
        Field::Server => {
            let n = after.server@.len();
            &&& cut_out(text, after.server@, 0, n as int)
            &&& forall|i: int| n <= i < text.len() ==> #[trigger] text[i] == '/'
            &&& n > 0 ==> after.server@.last() != '/'
        },
        Field::User => is_set_to(after.user, text),
        Field::Password => is_set_to(after.password, text),
        Field::Library => is_set_to(after.library, text),
        Field::DownloadDir => after.download_dir@ == if text.len() > 0 {
            text
        } else {
            before.download_dir@
        },
        Field::Formats => if text.len() > 0 {
            are_formats_of(texts(after.formats@), text)
        } else {
            texts(after.formats@) == texts(before.formats@)
        },
        Field::Limit => {
            &&& forall|n: int|
                0 <= n <= usize::MAX && #[trigger] says_unsigned(text, n) ==> {
                    &&& 1 <= after.limit <= 5000
                    &&& 1 <= n <= 5000 ==> after.limit == n
                    &&& n < 1 ==> after.limit == 1
                    &&& n > 5000 ==> after.limit == 5000
                }
            &&& (forall|n: int| 0 <= n <= usize::MAX ==> !#[trigger] says_unsigned(text, n))
                ==> after.limit == before.limit
        },
    }
}

/// Whether all settings but one, and the language in any case, are as before.
pub open spec fn rest_is_kept(before: Config, after: Config, field: Field) -> bool {
    &&& field == Field::Server || after.server@ == before.server@
    &&& field == Field::User || same_text(after.user, before.user)
    &&& field == Field::Password || same_text(after.password, before.password)
    &&& field == Field::Library || same_text(after.library, before.library)
    &&& field == Field::DownloadDir || after.download_dir@ == before.download_dir@
    &&& field == Field::Formats || texts(after.formats@) == texts(before.formats@)
    &&& field == Field::Limit || after.limit == before.limit
    &&& same_text(after.language, before.language)
}

/// Whether two settings say the same; two spellings of one directory do.
pub open spec fn say_the_same(a: Config, b: Config) -> bool {
    &&& a.server@ == b.server@
    &&& same_text(a.user, b.user)
    &&& same_text(a.password, b.password)
    &&& same_text(a.library, b.library)
    &&& same_path_text(a.download_dir@, b.download_dir@)
    &&& texts(a.formats@) == texts(b.formats@)
    &&& a.limit == b.limit
    &&& same_text(a.language, b.language)
}

/// An answer sets the field that it is for to what was entered, and nothing else; closing the
/// keyboard without confirming changes nothing. The screen shows the settings as they then are, and
/// the worker is given them exactly where they no longer say the same.
pub proof fn an_answer_sets_its_field(
    cfg: &mut Config,
    field: Field,
    value: Option<String>,
    r: Answered,
)
    requires
        call_ensures(apply_answer, (cfg, field, value), r),
    ensures
        value is None ==> {
            &&& final(cfg)@ == old(cfg)@
            &&& r.shown is None
            &&& r.reconfigure is None
        },
        value matches Some(entered) ==> {
            &&& exists|text: Seq<char>|
                trims(entered@, text) && #[trigger] is_as_entered(
                    *old(cfg),
                    *final(cfg),
                    field,
                    text,
                )
            &&& rest_is_kept(*old(cfg), *final(cfg), field)
            &&& r.shown matches Some(shown) && shows(*final(cfg), shown)
            &&& r.reconfigure is None <==> say_the_same(*final(cfg), *old(cfg))
            &&& r.reconfigure matches Some(cmd) ==> cmd matches Cmd::Reconfigure(given) && given@
                == final(cfg)@
        },
{
    if let Some(entered) = value {
        let text = trimmed(entered@);
        lemma_trims(entered@);
        decimal_reads_back(final(cfg).limit as nat);
        assert(final(cfg)@.limit == final(cfg).limit);
        assert(old(cfg)@.limit == old(cfg).limit);
        match field {
            Field::Server => {
                lemma_strip_end(text, Strip::Slash);
                lemma_stripped_behind(text, Strip::Slash);
                assert(final(cfg).server@ =~= text.subrange(0, final(cfg).server@.len() as int));
                assert forall|i: int| final(cfg).server@.len() <= i < text.len() implies
                    #[trigger] text[i] == '/' by {
                    assert(Strip::Slash.strips(text[i]));
                }
            },
            Field::Formats => {
                if text.len() > 0 {
                    let entries = entries_of(text);
                    lemma_nonempty(uppercased(entries));
                    assert forall|i: int| 0 <= i < entries.len() implies trims(
                        pieces(text, ',')[i],
                        #[trigger] entries[i],
                    ) by {
                        lemma_trims(pieces(text, ',')[i]);
                    }
                    assert(texts(final(cfg).formats@) == uppercased(entries).filter(
                        |entry: Seq<char>| entry.len() > 0,
                    ));
                }
            },
            Field::Limit => {
                if text.len() > 0 && text[0] == '+' {
                    assert(!is_digit(text[0]));
                    assert(!all_digits(text));
                }
                if let Some(n) = crate::number::parsed_usize(text) {
                    assert(says_unsigned(text, n as int));
                }
            },
            _ => {},
        }
        assert(is_as_entered(*old(cfg), *final(cfg), field, text));
    }
}

/// Settings are the same only if every one of them is.
pub proof fn settings_are_compared_one_by_one(a: ConfigView, b: ConfigView)
    ensures
        same_settings(a, b) ==> {
            &&& a.server == b.server
            &&& a.user == b.user
            &&& a.password == b.password
            &&& a.library == b.library
            &&& a.formats == b.formats
            &&& a.limit == b.limit
            &&& a.language == b.language
            &&& same_path_text(a.download_dir, b.download_dir)
        },
        same_settings(a, a),
        same_settings(a, b) ==> same_settings(b, a),
        same_settings(a, b) && a.download_dir == b.download_dir ==> client_for(a) == client_for(b),
{
}

/// What is said once the settings were to be saved is whether they were, and if not, why.
pub proof fn saving_is_reported(outcome: Result<(), String>, r: Status)
    requires
        call_ensures(saved_status, (outcome,), r),
    ensures
        outcome is Ok ==> r is SettingsSaved,
        outcome matches Err(e) ==> r matches Status::SettingsSaveFailed(why) && why@ == e@,
{
}

/// Whether the settings hold a choice of language: by its name, or by none.
pub open spec fn holds_choice(language: Option<String>, choice: LangChoice) -> bool {
    match language {
        Some(text) => {
            &&& trims(text@, "en"@) <==> choice == LangChoice::En
            &&& trims(text@, "ru"@) <==> choice == LangChoice::Ru
        },
        None => choice == LangChoice::Auto,
    }
}

proof fn lemma_holds_choice(language: Option<String>, choice: LangChoice)
    requires
        choice == crate::i18n::choice_of(opt_text(language)),
    ensures
        holds_choice(language, choice),
{
    reveal_strlit("en");
    reveal_strlit("ru");
    assert("en"@[0] != "ru"@[0]);
    if let Some(text) = language {
        lemma_trims(text@);
        if trims(text@, "en"@) {
            lemma_trims_once(text@, "en"@);
        }
        if trims(text@, "ru"@) {
            lemma_trims_once(text@, "ru"@);
        }
    }
}

/// The language of the settings is read by its name; anything else follows the firmware.
pub proof fn the_language_is_read_by_its_name(cfg: &Config, r: LangChoice)
    requires
        call_ensures(language_choice, (cfg,), r),
    ensures
        holds_choice(cfg.language, r),
{
    lemma_holds_choice(cfg.language, r);
}

/// Tapping the language row goes on to the next choice, from following the firmware to English to
/// Russian and back; it leaves every other setting as it is.
pub proof fn tapping_the_language_goes_on(cfg: &mut Config, r: LangChoice, was: LangChoice)
    requires
        call_ensures(cycle_language, (cfg,), r),
        holds_choice(old(cfg).language, was),
    ensures
        was == LangChoice::Auto ==> r == LangChoice::En,
        was == LangChoice::En ==> r == LangChoice::Ru,
        was == LangChoice::Ru ==> r == LangChoice::Auto,
        holds_choice(final(cfg).language, r),
        r == LangChoice::Auto ==> final(cfg).language is None,
        final(cfg).server@ == old(cfg).server@,
        same_text(final(cfg).user, old(cfg).user),
        same_text(final(cfg).password, old(cfg).password),
        same_text(final(cfg).library, old(cfg).library),
        final(cfg).download_dir@ == old(cfg).download_dir@,
        texts(final(cfg).formats@) == texts(old(cfg).formats@),
        final(cfg).limit == old(cfg).limit,
{
    lemma_holds_choice(old(cfg).language, crate::i18n::choice_of(opt_text(old(cfg).language)));
    lemma_holds_choice(final(cfg).language, r);
    assert(final(cfg)@.limit == final(cfg).limit);
    assert(old(cfg)@.limit == old(cfg).limit);
}

/// The settings are looked for beside the program first, where its place is known, and then in the
/// folders of the device, which are the same in any case.
pub proof fn settings_are_looked_for_beside_the_program(
    exe_dir: &str,
    r: Vec<String>,
    fixed: Vec<String>,
)
    requires
        call_ensures(Config::candidate_paths, (Some(exe_dir),), r),
        call_ensures(Config::candidate_paths, (None,), fixed),
    ensures
        r@.len() == 3,
        r@[0]@ == in_front(exe_dir@) + "pocket_calibre.toml"@,
        texts(r@).skip(1) == texts(fixed@),
        fixed@.len() == 2,
        fixed@[0]@ == "/mnt/ext1/applications/pocket_calibre.toml"@,
        fixed@[1]@ == "/mnt/ext1/system/config/pocket_calibre.toml"@,
{
    reveal_strlit("pocket_calibre.toml");
    assert(texts(r@).len() == 3);
    assert(texts(r@)[0] == r@[0]@);
    assert(r@[0]@ =~= in_front(exe_dir@) + "pocket_calibre.toml"@);
    assert(texts(fixed@).len() == 2);
    assert(texts(fixed@)[0] == fixed@[0]@);
    assert(texts(fixed@)[1] == fixed@[1]@);
    assert(texts(r@).skip(1) =~= texts(fixed@));
}

/// The search begins at the first place, with nothing found.
pub proof fn loading_begins_at_the_first_place(exe_dir: Option<&str>, r: Loading, paths: Vec<String>)
    requires
        call_ensures(Config::load, (exe_dir,), r),
        call_ensures(Config::candidate_paths, (exe_dir,), paths),
    ensures
        r.tried == 0,
        r.broken is None,
        texts(r.paths@) == texts(paths@),
{
}

/// The places are read one after another; when none is left, a file is made at the first, unless
/// there is one that could not be read.
pub proof fn places_are_read_in_order(loading: &Loading, r: LoadAction)
    requires
        call_ensures(Loading::action, (loading,), r),
        loading.wf(),
    ensures
        loading.tried < loading.paths@.len() ==> (r matches LoadAction::Read(path) && path@
            == loading.paths@[loading.tried as int]@),
        loading.tried == loading.paths@.len() && loading.broken is None ==> (r matches
            LoadAction::Create(path) && path@ == loading.paths@[0]@),
        loading.tried == loading.paths@.len() && loading.broken is Some ==> r is GiveUp,
{
}

/// A place without a file is passed over.
pub proof fn missing_files_are_passed_over(loading: &mut Loading)
    requires
        call_ensures(Loading::missing, (loading,), ()),
    ensures
        final(loading).tried == old(loading).tried + 1,
        final(loading).paths == old(loading).paths,
        final(loading).broken == old(loading).broken,
{
}

/// A file that cannot be read is passed over, and the first such file is remembered with the reason.
pub proof fn unreadable_files_are_remembered(loading: &mut Loading, error: String)
    requires
        call_ensures(Loading::unreadable, (loading, error), ()),
    ensures
        final(loading).tried == old(loading).tried + 1,
        final(loading).paths == old(loading).paths,
        old(loading).broken is Some ==> final(loading).broken == old(loading).broken,
        old(loading).broken is None ==> (final(loading).broken matches Some((place, why)) && place
            == old(loading).tried && why@ == error@),
{
}

/// A file that was read gives its settings, or, where it is broken, the defaults and a note that
/// names the file and the fault; it stays the file of the settings either way.
pub proof fn a_file_gives_its_settings(
    loading: &Loading,
    outcome: Result<Config, String>,
    r: Loaded,
    defaults: Config,
)
    requires
        call_ensures(Loading::parsed, (loading, outcome), r),
        call_ensures(Config::default, (), defaults),
    ensures
        r.path@ == loading.paths@[loading.tried as int]@,
        outcome matches Ok(config) ==> r.config@ == config@ && r.note is None,
        outcome matches Err(e) ==> {
            &&& r.config@ == defaults@
            &&& r.note matches Some(LoadNote::ParseError { path, error }) && path@ == r.path@
                && error@ == e@
        },
{
}

/// Where there is no file, the defaults are used, and the note says whether they could be written to
/// the first place.
pub proof fn a_new_file_holds_the_defaults(
    loading: &Loading,
    outcome: Result<(), String>,
    r: Loaded,
    defaults: Config,
)
    requires
        call_ensures(Loading::created, (loading, outcome), r),
        call_ensures(Config::default, (), defaults),
    ensures
        r.path@ == loading.paths@[0]@,
        r.config@ == defaults@,
        outcome is Ok ==> (r.note matches Some(note) && note is Created),
        outcome matches Err(e) ==> r.note matches Some(LoadNote::CreateFailed { path, error })
            && path@ == r.path@ && error@ == e@,
{
}

/// Where a file is there and none can be read, the defaults are used, and the note names that file
/// and why.
pub proof fn giving_up_names_the_file(loading: &Loading, r: Loaded, defaults: Config)
    requires
        call_ensures(Loading::gave_up, (loading,), r),
        call_ensures(Config::default, (), defaults),
        loading.broken is Some,
    ensures
        r.config@ == defaults@,
        loading.broken matches Some((place, why)) && {
            &&& r.path@ == loading.paths@[place as int]@
            &&& r.note matches Some(LoadNote::ParseError { path, error }) && path@ == r.path@
                && error@ == why@
        },
{
}

/// A saved file ends with the settings as they were serialized; all before them is comment.
pub proof fn a_saved_file_ends_with_the_settings(body: &str, r: String)
    requires
        call_ensures(Config::save, (body,), r),
    ensures
        body@.len() <= r@.len(),
        r@.skip(r@.len() - body@.len()) == body@,
        only_comments(r@.take(r@.len() - body@.len())),
{
    the_header_is_comment();
    assert(r@.skip(r@.len() - body@.len()) =~= body@);
    assert(r@.take(r@.len() - body@.len()) =~= crate::config::HEADER@);
}

} // verus!
