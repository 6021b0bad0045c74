//! UI language: detection, selection, and every sentence that the program puts on screen.
//!
//! What happened is carried as data (`Status`, `BookState`) and becomes text only here, so that a
//! change of language can render it again.
use vstd::prelude::*;

use crate::number::{decimal, push_decimal, push_signed, signed_decimal};
use crate::text::{chars_of, same_str, trim, trimmed};

verus! {

/// Effective UI language.
#[derive(Debug, Clone, Copy, PartialEq, Eq, Structural)]
pub enum Lang {
    En,
    Ru,
}

impl Default for Lang {
    fn default() -> (r: Self)
        ensures
            r == Lang::En,
    {
        Lang::En
    }
}

/// Whether a language name from the firmware means Russian: apart from white space it begins with
/// "ru", in either case.
pub open spec fn means_russian(raw: Seq<char>) -> bool {
    let name = trimmed(raw);
    &&& name.len() >= 2
    &&& (name[0] == 'r' || name[0] == 'R')
    &&& (name[1] == 'u' || name[1] == 'U')
}

/// The identifier of a language.
pub open spec fn lang_code(lang: Lang) -> Seq<char> {
    match lang {
        Lang::En => "en"@,
        Lang::Ru => "ru"@,
    }
}

/// The name of a language in that language.
pub open spec fn lang_name(lang: Lang) -> Seq<char> {
    match lang {
        Lang::En => "English"@,
        Lang::Ru => "Русский"@,
    }
}

impl Lang {
    /// Normalizes whatever the firmware reports: a bare code ("ru"), a locale ("ru_RU.UTF-8") or a
    /// full name ("russian"). Anything else is English.
    pub fn normalize(raw: &str) -> (r: Self)
        ensures
            r == if means_russian(raw@) {
                Lang::Ru
            } else {
                Lang::En
            },
    {
        let name = chars_of(trim(raw).as_str());
        if name.len() >= 2 && (name[0] == 'r' || name[0] == 'R') && (name[1] == 'u' || name[1]
            == 'U') {
            Lang::Ru
        } else {
            Lang::En
        }
    }

    /// The identifier by which bundled translations are selected.
    pub fn code(self) -> (r: &'static str)
        ensures
            r@ == lang_code(self),
    {
        match self {
            Lang::En => "en",
            Lang::Ru => "ru",
        }
    }

    /// The name of the language in that language.
    pub fn name(self) -> (r: &'static str)
        ensures
            r@ == lang_name(self),
    {
        match self {
            Lang::En => "English",
            Lang::Ru => "Русский",
        }
    }
}

/// The language of the firmware, given what it reported, if it reported anything.
pub fn system_lang(reported: Option<&str>) -> (r: Lang)
    ensures
        r == match reported {
            Some(raw) => if means_russian(raw@) {
                Lang::Ru
            } else {
                Lang::En
            },
            None => Lang::En,
        },
{
    match reported {
        Some(raw) => Lang::normalize(raw),
        None => Lang::En,
    }
}

/// What the config asks for: follow the firmware language or force one.
#[derive(Debug, Clone, Copy, PartialEq, Eq, Structural)]
pub enum LangChoice {
    Auto,
    En,
    Ru,
}

impl Default for LangChoice {
    fn default() -> (r: Self)
        ensures
            r == LangChoice::Auto,
    {
        LangChoice::Auto
    }
}

/// The choice that the `language` key of the config stands for.
pub open spec fn choice_of(value: Option<Seq<char>>) -> LangChoice {
    match value {
        Some(text) => if trimmed(text) == "en"@ {
            LangChoice::En
        } else if trimmed(text) == "ru"@ {
            LangChoice::Ru
        } else {
            LangChoice::Auto
        },
        None => LangChoice::Auto,
    }
}

/// The `language` key of the config that stands for a choice.
pub open spec fn choice_text(choice: LangChoice) -> Option<Seq<char>> {
    match choice {
        LangChoice::Auto => None,
        LangChoice::En => Some("en"@),
        LangChoice::Ru => Some("ru"@),
    }
}

/// The choice that follows `choice` when the settings row is tapped.
pub open spec fn choice_after(choice: LangChoice) -> LangChoice {
    match choice {
        LangChoice::Auto => LangChoice::En,
        LangChoice::En => LangChoice::Ru,
        LangChoice::Ru => LangChoice::Auto,
    }
}

/// The language that a choice comes to, given that of the firmware.
pub open spec fn resolved(choice: LangChoice, system: Lang) -> Lang {
    match choice {
        LangChoice::Auto => system,
        LangChoice::En => Lang::En,
        LangChoice::Ru => Lang::Ru,
    }
}

impl LangChoice {
    /// Reads the `language` config key. Junk values mean Auto rather than an error: the file is
    /// hand-editable and a typo should not wedge the UI.
    pub fn from_config(value: Option<&str>) -> (r: Self)
        ensures
            r == choice_of(
                match value {
                    Some(text) => Some(text@),
                    None => None,
                },
            ),
    {
        match value {
            Some(text) => {
                let word = trim(text);
                proof {
                    reveal_strlit("en");
                    reveal_strlit("ru");
                    assert("en"@[0] != "ru"@[0]);
                }
                if same_str(word.as_str(), "en") {
                    LangChoice::En
                } else if same_str(word.as_str(), "ru") {
                    LangChoice::Ru
                } else {
                    LangChoice::Auto
                }
            },
            None => LangChoice::Auto,
        }
    }

    /// Auto is stored as an absent key, so a config predating the setting and one cycled back to
    /// Auto look identical.
    pub fn to_config(self) -> (r: Option<String>)
        ensures
            crate::text::opt_text(r) == choice_text(self),
    {
        match self {
            LangChoice::Auto => None,
            LangChoice::En => Some("en".to_string()),
            LangChoice::Ru => Some("ru".to_string()),
        }
    }

    /// The order the settings row cycles through on tap.
    pub fn next(self) -> (r: Self)
        ensures
            r == choice_after(self),
    {
        match self {
            LangChoice::Auto => LangChoice::En,
            LangChoice::En => LangChoice::Ru,
            LangChoice::Ru => LangChoice::Auto,
        }
    }

    /// The language that the choice comes to.
    pub fn resolve(self, system: Lang) -> (r: Lang)
        ensures
            r == resolved(self, system),
    {
        match self {
            LangChoice::Auto => system,
            LangChoice::En => Lang::En,
            LangChoice::Ru => Lang::Ru,
        }
    }
}

/// What is stored for a choice reads back as that choice.
pub proof fn choice_round_trips(choice: LangChoice)
    ensures
        choice_of(choice_text(choice)) == choice,
{
    reveal_strlit("en");
    reveal_strlit("ru");
    assert("en"@[0] != "ru"@[0]);
}

/// Tapping the settings row three times comes back to the first choice, past all three.
pub proof fn choices_cycle(choice: LangChoice)
    ensures
        choice_after(choice) != choice,
        choice_after(choice_after(choice)) != choice,
        choice_after(choice_after(choice_after(choice))) == choice,
{
}

/// The firmware language matters to Auto alone.
pub proof fn only_auto_follows_the_firmware(choice: LangChoice, one: Lang, other: Lang)
    requires
        one != other,
    ensures
        resolved(choice, one) == resolved(choice, other) <==> choice != LangChoice::Auto,
        resolved(LangChoice::Auto, one) == one,
{
}

/// Per-book download state, shown in the right-hand column of a list row.
#[derive(Debug, Clone, Copy, PartialEq, Eq, Structural)]
pub enum BookState {
    NoFormat,
    InProgress,
    Done,
    Failed,
}

/// The text for a download state.
pub open spec fn book_state_text(state: BookState, lang: Lang) -> Seq<char> {
    match (state, lang) {
        (BookState::InProgress, _) => "…"@,
        (BookState::NoFormat, Lang::En) => "no format"@,
        (BookState::NoFormat, Lang::Ru) => "нет формата"@,
        (BookState::Done, Lang::En) => "done"@,
        (BookState::Done, Lang::Ru) => "готово"@,
        (BookState::Failed, Lang::En) => "error"@,
        (BookState::Failed, Lang::Ru) => "ошибка"@,
    }
}

/// The text for a download state.
pub fn book_state(state: BookState, lang: Lang) -> (r: &'static str)
    ensures
        r@ == book_state_text(state, lang),
{
    match (state, lang) {
        (BookState::InProgress, _) => "…",
        (BookState::NoFormat, Lang::En) => "no format",
        (BookState::NoFormat, Lang::Ru) => "нет формата",
        (BookState::Done, Lang::En) => "done",
        (BookState::Done, Lang::Ru) => "готово",
        (BookState::Failed, Lang::En) => "error",
        (BookState::Failed, Lang::Ru) => "ошибка",
    }
}

/// Display fallback for a book with no title.
pub open spec fn untitled_text(lang: Lang) -> Seq<char> {
    match lang {
        Lang::En => "Untitled"@,
        Lang::Ru => "Без названия"@,
    }
}

/// Display fallback for a book with no title. Filenames do not use this: what lands on disk does
/// not depend on the UI language.
pub fn untitled(lang: Lang) -> (r: &'static str)
    ensures
        r@ == untitled_text(lang),
{
    match lang {
        Lang::En => "Untitled",
        Lang::Ru => "Без названия",
    }
}

/// Display fallback for a book with no author.
pub open spec fn unknown_author_text(lang: Lang) -> Seq<char> {
    match lang {
        Lang::En => "Unknown author"@,
        Lang::Ru => "Неизвестный автор"@,
    }
}

/// Display fallback for a book with no author.
pub fn unknown_author(lang: Lang) -> (r: &'static str)
    ensures
        r@ == unknown_author_text(lang),
{
    match lang {
        Lang::En => "Unknown author",
        Lang::Ru => "Неизвестный автор",
    }
}

/// The page indicator.
pub open spec fn page_label_text(page: nat, total: nat, lang: Lang) -> Seq<char> {
    match lang {
        Lang::En => "p. "@ + decimal(page) + " / "@ + decimal(total),
        Lang::Ru => "стр. "@ + decimal(page) + " / "@ + decimal(total),
    }
}

/// "p. 3 / 12" under the book list. Pages are 1-based on screen.
pub fn page_label(page: usize, total: usize, lang: Lang) -> (r: String)
    ensures
        r@ == page_label_text(page as nat, total as nat, lang),
{
    let mut out: String = match lang {
        Lang::En => "p. ".to_string(),
        Lang::Ru => "стр. ".to_string(),
    };
    push_decimal(&mut out, page as u64);
    out.append(" / ");
    push_decimal(&mut out, total as u64);
    out
}

/// The value of the Language settings row.
pub open spec fn language_row_text(choice: LangChoice, system: Lang) -> Seq<char> {
    match choice {
        LangChoice::Auto => match system {
            Lang::En => "Auto ("@ + lang_name(system) + ")"@,
            Lang::Ru => "Авто ("@ + lang_name(system) + ")"@,
        },
        LangChoice::En => lang_name(Lang::En),
        LangChoice::Ru => lang_name(Lang::Ru),
    }
}

/// Value text of the Language settings row. Auto spells out what it currently resolves to, so the
/// row is informative before the first tap.
pub fn language_row_value(choice: LangChoice, system: Lang) -> (r: String)
    ensures
        r@ == language_row_text(choice, system),
{
    match choice {
        LangChoice::Auto => match system {
            Lang::En => framed("Auto (", system.name(), ")"),
            Lang::Ru => framed("Авто (", system.name(), ")"),
        },
        LangChoice::En => Lang::En.name().to_string(),
        LangChoice::Ru => Lang::Ru.name().to_string(),
    }
}

fn framed(before: &str, middle: &str, after: &str) -> (r: String)
    ensures
        r@ == before@ + middle@ + after@,
{
    let mut out: String = before.to_string();
    out.append(middle);
    out.append(after);
    out
}

fn followed(before: &str, after: &str) -> (r: String)
    ensures
        r@ == before@ + after@,
{
    let mut out: String = before.to_string();
    out.append(after);
    out
}

/// Everything the status line can say. Error details carried inside stay in English: they are
/// diagnostics interleaved with library error text, not sentences of this program.
#[derive(Debug, Clone)]
pub enum Status {
    ConfigPath(String),
    ConfigError { path: String, error: String },
    ConfigMissing,
    ConfigCreateFailed { path: String, error: String },
    CheckingNetwork,
    NetworkFailed(i32),
    LoadingList,
    BookCount(usize),
    ListFailed(String),
    BookNotFound,
    NoFormat { title: String },
    Downloading { title: String },
    Saved { name: String },
    DownloadFailed(String),
    SettingsSaved,
    SettingsSaveFailed(String),
}

/// What a status says.
pub enum StatusView {
    ConfigPath(Seq<char>),
    ConfigError { path: Seq<char>, error: Seq<char> },
    ConfigMissing,
    ConfigCreateFailed { path: Seq<char>, error: Seq<char> },
    CheckingNetwork,
    NetworkFailed(i32),
    LoadingList,
    BookCount(usize),
    ListFailed(Seq<char>),
    BookNotFound,
    NoFormat { title: Seq<char> },
    Downloading { title: Seq<char> },
    Saved { name: Seq<char> },
    DownloadFailed(Seq<char>),
    SettingsSaved,
    SettingsSaveFailed(Seq<char>),
}

impl View for Status {
    type V = StatusView;

    open spec fn view(&self) -> StatusView {
        match *self {
            Status::ConfigPath(path) => StatusView::ConfigPath(path@),
            Status::ConfigError { path, error } => StatusView::ConfigError {
                path: path@,
                error: error@,
            },
            Status::ConfigMissing => StatusView::ConfigMissing,
            Status::ConfigCreateFailed { path, error } => StatusView::ConfigCreateFailed {
                path: path@,
                error: error@,
            },
            Status::CheckingNetwork => StatusView::CheckingNetwork,
            Status::NetworkFailed(code) => StatusView::NetworkFailed(code),
            Status::LoadingList => StatusView::LoadingList,
            Status::BookCount(n) => StatusView::BookCount(n),
            Status::ListFailed(e) => StatusView::ListFailed(e@),
            Status::BookNotFound => StatusView::BookNotFound,
            Status::NoFormat { title } => StatusView::NoFormat { title: title@ },
            Status::Downloading { title } => StatusView::Downloading { title: title@ },
            Status::Saved { name } => StatusView::Saved { name: name@ },
            Status::DownloadFailed(e) => StatusView::DownloadFailed(e@),
            Status::SettingsSaved => StatusView::SettingsSaved,
            Status::SettingsSaveFailed(e) => StatusView::SettingsSaveFailed(e@),
        }
    }
}

/// A title, or the localized placeholder where it is empty.
pub open spec fn shown_title(title: Seq<char>, lang: Lang) -> Seq<char> {
    if title.len() == 0 {
        untitled_text(lang)
    } else {
        title
    }
}

/// An author, or the localized placeholder where it is empty.
pub open spec fn shown_author(author: Seq<char>, lang: Lang) -> Seq<char> {
    if author.len() == 0 {
        unknown_author_text(lang)
    } else {
        author
    }
}

/// A title, or the localized placeholder where it is empty.
pub fn title_or_placeholder(title: &str, lang: Lang) -> (r: String)
    ensures
        r@ == shown_title(title@, lang),
{
    if title.is_empty() {
        untitled(lang).to_string()
    } else {
        title.to_string()
    }
}

/// An author, or the localized placeholder where it is empty.
pub fn author_or_placeholder(author: &str, lang: Lang) -> (r: String)
    ensures
        r@ == shown_author(author@, lang),
{
    if author.is_empty() {
        unknown_author(lang).to_string()
    } else {
        author.to_string()
    }
}

/// The sentence for a status.
pub open spec fn status_text(s: StatusView, lang: Lang) -> Seq<char> {
    match (s, lang) {
        (StatusView::ConfigPath(path), Lang::En) => "Config: "@ + path,
        (StatusView::ConfigPath(path), Lang::Ru) => "Конфиг: "@ + path,
        (StatusView::ConfigError { path, error }, Lang::En) => "Error in "@ + path + ": "@ + error,
        (StatusView::ConfigError { path, error }, Lang::Ru) => "Ошибка в "@ + path + ": "@ + error,
        (StatusView::ConfigMissing, Lang::En) => "No settings found — set the server address"@,
        (StatusView::ConfigMissing, Lang::Ru) => "Настройки не найдены — укажите адрес сервера"@,
        (StatusView::ConfigCreateFailed { path, error }, Lang::En) => {
            "Couldn't create "@ + path + ": "@ + error
        },
        (StatusView::ConfigCreateFailed { path, error }, Lang::Ru) => {
            "Не удалось создать "@ + path + ": "@ + error
        },
        (StatusView::CheckingNetwork, Lang::En) => "Checking network…"@,
        (StatusView::CheckingNetwork, Lang::Ru) => "Проверяю сеть…"@,
        (StatusView::NetworkFailed(code), Lang::En) => {
            "Couldn't connect to the network (code "@ + signed_decimal(code as int) + ")"@
        },
        (StatusView::NetworkFailed(code), Lang::Ru) => {
            "Не удалось подключиться к сети (код "@ + signed_decimal(code as int) + ")"@
        },
        (StatusView::LoadingList, Lang::En) => "Loading book list…"@,
        (StatusView::LoadingList, Lang::Ru) => "Загружаю список книг…"@,
        (StatusView::BookCount(n), Lang::En) => "Books listed: "@ + decimal(n as nat),
        (StatusView::BookCount(n), Lang::Ru) => "Книг в списке: "@ + decimal(n as nat),
        (StatusView::ListFailed(e), Lang::En) => "Couldn't fetch the list: "@ + e,
        (StatusView::ListFailed(e), Lang::Ru) => "Не удалось получить список: "@ + e,
        (StatusView::BookNotFound, Lang::En) => "Book not found, refresh the list"@,
        (StatusView::BookNotFound, Lang::Ru) => "Книга не найдена, обновите список"@,
        (StatusView::NoFormat { title }, Lang::En) => {
            "“"@ + shown_title(title, lang) + "”: none of the wanted formats"@
        },
        (StatusView::NoFormat { title }, Lang::Ru) => {
            "«"@ + shown_title(title, lang) + "»: нет ни одного из нужных форматов"@
        },
        (StatusView::Downloading { title }, Lang::En) => {
            "Downloading “"@ + shown_title(title, lang) + "”…"@
        },
        (StatusView::Downloading { title }, Lang::Ru) => {
            "Скачиваю «"@ + shown_title(title, lang) + "»…"@
        },
        (StatusView::Saved { name }, Lang::En) => "Saved: "@ + name,
        (StatusView::Saved { name }, Lang::Ru) => "Сохранено: "@ + name,
        (StatusView::DownloadFailed(e), Lang::En) => "Download error: "@ + e,
        (StatusView::DownloadFailed(e), Lang::Ru) => "Ошибка загрузки: "@ + e,
        (StatusView::SettingsSaved, Lang::En) => "Settings saved — press “Refresh”"@,
        (StatusView::SettingsSaved, Lang::Ru) => "Настройки сохранены — нажмите «Обновить»"@,
        (StatusView::SettingsSaveFailed(e), Lang::En) => "Couldn't save settings: "@ + e,
        (StatusView::SettingsSaveFailed(e), Lang::Ru) => "Не удалось сохранить настройки: "@ + e,
    }
}

/// The sentence for a status. A book without a title shows the localized placeholder.
pub fn status(s: &Status, lang: Lang) -> (r: String)
    ensures
        r@ == status_text(s@, lang),
{
    match (s, lang) {
        (Status::ConfigPath(path), Lang::En) => followed("Config: ", path.as_str()),
        (Status::ConfigPath(path), Lang::Ru) => followed("Конфиг: ", path.as_str()),
        (Status::ConfigError { path, error }, Lang::En) => {
            let mut out: String = framed("Error in ", path.as_str(), ": ");
            out.append(error.as_str());
            out
        },
        (Status::ConfigError { path, error }, Lang::Ru) => {
            let mut out: String = framed("Ошибка в ", path.as_str(), ": ");
            out.append(error.as_str());
            out
        },
        (Status::ConfigMissing, Lang::En) => {
            "No settings found — set the server address".to_string()
        },
        (Status::ConfigMissing, Lang::Ru) => {
            "Настройки не найдены — укажите адрес сервера".to_string()
        },
        (Status::ConfigCreateFailed { path, error }, Lang::En) => {
            let mut out: String = framed("Couldn't create ", path.as_str(), ": ");
            out.append(error.as_str());
            out
        },
        (Status::ConfigCreateFailed { path, error }, Lang::Ru) => {
            let mut out: String = framed("Не удалось создать ", path.as_str(), ": ");
            out.append(error.as_str());
            out
        },
        (Status::CheckingNetwork, Lang::En) => "Checking network…".to_string(),
        (Status::CheckingNetwork, Lang::Ru) => "Проверяю сеть…".to_string(),
        (Status::NetworkFailed(code), Lang::En) => {
            let mut out: String = "Couldn't connect to the network (code ".to_string();
            push_signed(&mut out, *code as i64);
            out.append(")");
            out
        },
        (Status::NetworkFailed(code), Lang::Ru) => {
            let mut out: String = "Не удалось подключиться к сети (код ".to_string();
            push_signed(&mut out, *code as i64);
            out.append(")");
            out
        },
        (Status::LoadingList, Lang::En) => "Loading book list…".to_string(),
        (Status::LoadingList, Lang::Ru) => "Загружаю список книг…".to_string(),
        (Status::BookCount(n), Lang::En) => {
            let mut out: String = "Books listed: ".to_string();
            push_decimal(&mut out, *n as u64);
            out
        },
        (Status::BookCount(n), Lang::Ru) => {
            let mut out: String = "Книг в списке: ".to_string();
            push_decimal(&mut out, *n as u64);
            out
        },
        (Status::ListFailed(e), Lang::En) => followed("Couldn't fetch the list: ", e.as_str()),
        (Status::ListFailed(e), Lang::Ru) => followed("Не удалось получить список: ", e.as_str()),
        (Status::BookNotFound, Lang::En) => "Book not found, refresh the list".to_string(),
        (Status::BookNotFound, Lang::Ru) => "Книга не найдена, обновите список".to_string(),
        (Status::NoFormat { title }, Lang::En) => framed(
            "“",
            title_or_placeholder(title.as_str(), lang).as_str(),
            "”: none of the wanted formats",
        ),
        (Status::NoFormat { title }, Lang::Ru) => framed(
            "«",
            title_or_placeholder(title.as_str(), lang).as_str(),
            "»: нет ни одного из нужных форматов",
        ),
        (Status::Downloading { title }, Lang::En) => framed(
            "Downloading “",
            title_or_placeholder(title.as_str(), lang).as_str(),
            "”…",
        ),
        (Status::Downloading { title }, Lang::Ru) => framed(
            "Скачиваю «",
            title_or_placeholder(title.as_str(), lang).as_str(),
            "»…",
        ),
        (Status::Saved { name }, Lang::En) => followed("Saved: ", name.as_str()),
        (Status::Saved { name }, Lang::Ru) => followed("Сохранено: ", name.as_str()),
        (Status::DownloadFailed(e), Lang::En) => followed("Download error: ", e.as_str()),
        (Status::DownloadFailed(e), Lang::Ru) => followed("Ошибка загрузки: ", e.as_str()),
        (Status::SettingsSaved, Lang::En) => "Settings saved — press “Refresh”".to_string(),
        (Status::SettingsSaved, Lang::Ru) => "Настройки сохранены — нажмите «Обновить»".to_string(),
        (Status::SettingsSaveFailed(e), Lang::En) => {
            followed("Couldn't save settings: ", e.as_str())
        },
        (Status::SettingsSaveFailed(e), Lang::Ru) => {
            followed("Не удалось сохранить настройки: ", e.as_str())
        },
    }
}

} // verus!
