//! Laws of what the program says, in either language.
use vstd::prelude::*;

use crate::i18n::{author_or_placeholder, book_state, language_row_value, page_label, status,
    system_lang, title_or_placeholder, unknown_author, untitled, BookState, Lang, LangChoice, Status};
use crate::laws::pages::counts;
use crate::laws::texts::{cut_out, lemma_trims, lemma_trims_once, says_signed, says_unsigned, trims};
use crate::number::{decimal, decimal_reads_back, numbers_read_back, signed_decimal};
use crate::text::trimmed;

verus! {

/// Whether a text holds another one.
pub open spec fn holds(text: Seq<char>, part: Seq<char>) -> bool {
    exists|a: int| #[trigger] cut_out(text, part, a, a + part.len())
}

/// Whether a text ends with another one, behind a blank.
pub open spec fn ends_with(text: Seq<char>, part: Seq<char>) -> bool {
    let n = text.len() - part.len();
    &&& n > 0
    &&& text[n - 1] == ' '
    &&& text.skip(n) == part
}

/// A text holds what stands in it at a place.
proof fn lemma_holds_at(text: Seq<char>, part: Seq<char>, a: int)
    requires
        0 <= a <= a + part.len() <= text.len(),
        text.subrange(a, a + part.len()) == part,
    ensures
        holds(text, part),
{
    assert(cut_out(text, part, a, a + part.len()));
}

proof fn lemma_holds(before: Seq<char>, part: Seq<char>, after: Seq<char>)
    ensures
        holds(before + part + after, part),
        holds(before + part, part),
{
    let a = before.len() as int;
    assert((before + part + after).subrange(a, a + part.len()) =~= part);
    assert((before + part).subrange(a, a + part.len()) =~= part);
    assert(cut_out(before + part + after, part, a, a + part.len()));
    assert(cut_out(before + part, part, a, a + part.len()));
}

proof fn lemma_ends_with(before: Seq<char>, part: Seq<char>)
    requires
        before.len() > 0,
        before.last() == ' ',
    ensures
        ends_with(before + part, part),
{
    assert((before + part).skip(before.len() as int) =~= part);
}

/// Whether a text ends with a number, behind a blank.
pub open spec fn ends_with_number(text: Seq<char>, n: int) -> bool {
    exists|digits: Seq<char>| #[trigger] ends_with(text, digits) && says_unsigned(digits, n)
}

/// Whether a text has a number in it, between a blank and a closing bracket.
pub open spec fn brackets_number(text: Seq<char>, n: int) -> bool {
    exists|digits: Seq<char>|
        #[trigger] ends_with(text, digits + seq![')']) && says_signed(digits, n)
}

/// What a status says holds what it is about: the path, the reason, the name, the title or what
/// stands for it, the code, the number.
pub proof fn a_status_says_what_it_is_about(s: &Status, lang: Lang, r: String, no_title: &'static str)
    requires
        call_ensures(status, (s, lang), r),
        call_ensures(untitled, (lang,), no_title),
    ensures
        match *s {
            Status::ConfigPath(path) => ends_with(r@, path@),
            Status::ConfigError { path, error } => holds(r@, path@) && ends_with(r@, error@),
            Status::ConfigCreateFailed { path, error } => holds(r@, path@) && ends_with(r@, error@),
            Status::NetworkFailed(code) => brackets_number(r@, code as int),
            Status::BookCount(n) => ends_with_number(r@, n as int),
            Status::ListFailed(e) => ends_with(r@, e@),
            Status::NoFormat { title } => holds(
                r@,
                if title@.len() > 0 {
                    title@
                } else {
                    no_title@
                },
            ),
            Status::Downloading { title } => holds(
                r@,
                if title@.len() > 0 {
                    title@
                } else {
                    no_title@
                },
            ),
            Status::Saved { name } => ends_with(r@, name@),
            Status::DownloadFailed(e) => ends_with(r@, e@),
            Status::SettingsSaveFailed(e) => ends_with(r@, e@),
            _ => r@.len() > 0,
        },
{
    let english = lang == Lang::En;
    match *s {
        Status::ConfigPath(path) => {
            reveal_strlit("Config: ");
            reveal_strlit("Конфиг: ");
            lemma_ends_with(if english { "Config: "@ } else { "Конфиг: "@ }, path@);
        },
        Status::ConfigError { path, error } => {
            reveal_strlit(": ");
            let front = if english {
                "Error in "@
            } else {
                "Ошибка в "@
            };
            lemma_holds(front, path@, ": "@ + error@);
            assert(r@ =~= front + path@ + (": "@ + error@));
            lemma_ends_with(front + path@ + ": "@, error@);
        },
        Status::ConfigCreateFailed { path, error } => {
            reveal_strlit(": ");
            let front = if english {
                "Couldn't create "@
            } else {
                "Не удалось создать "@
            };
            lemma_holds(front, path@, ": "@ + error@);
            assert(r@ =~= front + path@ + (": "@ + error@));
            lemma_ends_with(front + path@ + ": "@, error@);
        },
        Status::NetworkFailed(code) => {
            reveal_strlit("Couldn't connect to the network (code ");
            reveal_strlit("Не удалось подключиться к сети (код ");
            reveal_strlit(")");
            assert(")"@ =~= seq![')']);
            // The blank that the number stands behind.
            let front = if english {
                "Couldn't connect to the network (code "@
            } else {
                "Не удалось подключиться к сети (код "@
            };
            let digits = signed_decimal(code as int);
            numbers_read_back(code as int);
            lemma_signed(code as int);
            lemma_ends_with(front, digits + seq![')']);
            assert(r@ =~= front + (digits + seq![')']));
        },
        Status::BookCount(n) => {
            reveal_strlit("Books listed: ");
            reveal_strlit("Книг в списке: ");
            decimal_reads_back(n as nat);
            lemma_ends_with(
                if english {
                    "Books listed: "@
                } else {
                    "Книг в списке: "@
                },
                decimal(n as nat),
            );
        },
        Status::ListFailed(e) => {
            reveal_strlit("Couldn't fetch the list: ");
            reveal_strlit("Не удалось получить список: ");
            lemma_ends_with(
                if english {
                    "Couldn't fetch the list: "@
                } else {
                    "Не удалось получить список: "@
                },
                e@,
            );
        },
        Status::NoFormat { title } => {
            let shown = if title@.len() > 0 {
                title@
            } else {
                no_title@
            };
            if english {
                lemma_holds("“"@, shown, "”: none of the wanted formats"@);
            } else {
                lemma_holds("«"@, shown, "»: нет ни одного из нужных форматов"@);
            }
        },
        Status::Downloading { title } => {
            let shown = if title@.len() > 0 {
                title@
            } else {
                no_title@
            };
            if english {
                lemma_holds("Downloading “"@, shown, "”…"@);
            } else {
                lemma_holds("Скачиваю «"@, shown, "»…"@);
            }
        },
        Status::Saved { name } => {
            reveal_strlit("Saved: ");
            reveal_strlit("Сохранено: ");
            lemma_ends_with(if english { "Saved: "@ } else { "Сохранено: "@ }, name@);
        },
        Status::DownloadFailed(e) => {
            reveal_strlit("Download error: ");
            reveal_strlit("Ошибка загрузки: ");
            lemma_ends_with(
                if english {
                    "Download error: "@
                } else {
                    "Ошибка загрузки: "@
                },
                e@,
            );
        },
        Status::SettingsSaveFailed(e) => {
            reveal_strlit("Couldn't save settings: ");
            reveal_strlit("Не удалось сохранить настройки: ");
            lemma_ends_with(
                if english {
                    "Couldn't save settings: "@
                } else {
                    "Не удалось сохранить настройки: "@
                },
                e@,
            );
        },
        Status::ConfigMissing => {
            reveal_strlit("No settings found — set the server address");
            reveal_strlit("Настройки не найдены — укажите адрес сервера");
        },
        Status::CheckingNetwork => {
            reveal_strlit("Checking network…");
            reveal_strlit("Проверяю сеть…");
        },
        Status::LoadingList => {
            reveal_strlit("Loading book list…");
            reveal_strlit("Загружаю список книг…");
        },
        Status::BookNotFound => {
            reveal_strlit("Book not found, refresh the list");
            reveal_strlit("Книга не найдена, обновите список");
        },
        Status::SettingsSaved => {
            reveal_strlit("Settings saved — press “Refresh”");
            reveal_strlit("Настройки сохранены — нажмите «Обновить»");
        },
    }
}

proof fn lemma_signed(n: int)
    ensures
        says_signed(signed_decimal(n), n),
{
    if n < 0 {
        decimal_reads_back((-n) as nat);
        assert(signed_decimal(n).drop_first() =~= decimal((-n) as nat));
    } else {
        decimal_reads_back(n as nat);
    }
}

/// Whether a character begins a sentence in the language.
pub open spec fn begins_in(c: char, lang: Lang) -> bool {
    match lang {
        Lang::En => 'A' <= c <= 'Z' || c == '“',
        Lang::Ru => 'А' <= c <= 'Я' || c == '«',
    }
}

/// A status is said in the language asked for; so no status reads the same in both.
pub proof fn a_status_is_said_in_its_language(
    s: &Status,
    lang: Lang,
    r: String,
    t: &Status,
    other: Lang,
    q: String,
)
    requires
        call_ensures(status, (s, lang), r),
        call_ensures(status, (t, other), q),
    ensures
        r@.len() > 0,
        begins_in(r@[0], lang),
        lang != other ==> r@ != q@,
{
    lemma_begins(s, lang, r);
    lemma_begins(t, other, q);
}

proof fn lemma_begins(s: &Status, lang: Lang, r: String)
    requires
        call_ensures(status, (s, lang), r),
    ensures
        r@.len() > 0,
        begins_in(r@[0], lang),
{
    reveal_strlit("Config: ");
    reveal_strlit("Конфиг: ");
    reveal_strlit("Error in ");
    reveal_strlit("Ошибка в ");
    reveal_strlit("No settings found — set the server address");
    reveal_strlit("Настройки не найдены — укажите адрес сервера");
    reveal_strlit("Couldn't create ");
    reveal_strlit("Не удалось создать ");
    reveal_strlit("Checking network…");
    reveal_strlit("Проверяю сеть…");
    reveal_strlit("Couldn't connect to the network (code ");
    reveal_strlit("Не удалось подключиться к сети (код ");
    reveal_strlit("Loading book list…");
    reveal_strlit("Загружаю список книг…");
    reveal_strlit("Books listed: ");
    reveal_strlit("Книг в списке: ");
    reveal_strlit("Couldn't fetch the list: ");
    reveal_strlit("Не удалось получить список: ");
    reveal_strlit("Book not found, refresh the list");
    reveal_strlit("Книга не найдена, обновите список");
    reveal_strlit("“");
    reveal_strlit("«");
    reveal_strlit("Downloading “");
    reveal_strlit("Скачиваю «");
    reveal_strlit("Saved: ");
    reveal_strlit("Сохранено: ");
    reveal_strlit("Download error: ");
    reveal_strlit("Ошибка загрузки: ");
    reveal_strlit("Settings saved — press “Refresh”");
    reveal_strlit("Настройки сохранены — нажмите «Обновить»");
    reveal_strlit("Couldn't save settings: ");
    reveal_strlit("Не удалось сохранить настройки: ");
}

/// What kind of thing a status tells.
pub open spec fn kind_of(s: Status) -> int {
    match s {
        Status::ConfigPath(_) => 0,
        Status::ConfigError { .. } => 1,
        Status::ConfigMissing => 2,
        Status::ConfigCreateFailed { .. } => 3,
        Status::CheckingNetwork => 4,
        Status::NetworkFailed(_) => 5,
        Status::LoadingList => 6,
        Status::BookCount(_) => 7,
        Status::ListFailed(_) => 8,
        Status::BookNotFound => 9,
        Status::NoFormat { .. } => 10,
        Status::Downloading { .. } => 11,
        Status::Saved { .. } => 12,
        Status::DownloadFailed(_) => 13,
        Status::SettingsSaved => 14,
        Status::SettingsSaveFailed(_) => 15,
    }
}

/// Statuses of different kinds never read the same.
pub proof fn kinds_of_status_are_told_apart(s: &Status, t: &Status, lang: Lang, r: String, q: String)
    requires
        call_ensures(status, (s, lang), r),
        call_ensures(status, (t, lang), q),
    ensures
        r@ == q@ ==> kind_of(*s) == kind_of(*t),
{
    lemma_front(s, lang, r);
    lemma_front(t, lang, q);
    if r@ == q@ && kind_of(*s) != kind_of(*t) {
        let a = front_of(kind_of(*s), lang);
        let b = front_of(kind_of(*t), lang);
        lemma_fronts(kind_of(*s), kind_of(*t), lang);
        let i = choose|i: int| #[trigger] part(a, b, i);
        assert(r@[i] == a[i] && q@[i] == b[i]);
    }
}

/// What the statuses of a kind begin with.
spec fn front_of(kind: int, lang: Lang) -> Seq<char> {
    match lang {
        Lang::En => if kind == 0 {
            "Config: "@
        } else if kind == 1 {
            "Error in "@
        } else if kind == 2 {
            "No settings found — set the server address"@
        } else if kind == 3 {
            "Couldn't create "@
        } else if kind == 4 {
            "Checking network…"@
        } else if kind == 5 {
            "Couldn't connect to the network (code "@
        } else if kind == 6 {
            "Loading book list…"@
        } else if kind == 7 {
            "Books listed: "@
        } else if kind == 8 {
            "Couldn't fetch the list: "@
        } else if kind == 9 {
            "Book not found, refresh the list"@
        } else if kind == 10 {
            "“"@
        } else if kind == 11 {
            "Downloading “"@
        } else if kind == 12 {
            "Saved: "@
        } else if kind == 13 {
            "Download error: "@
        } else if kind == 14 {
            "Settings saved — press “Refresh”"@
        } else {
            "Couldn't save settings: "@
        },
        Lang::Ru => if kind == 0 {
            "Конфиг: "@
        } else if kind == 1 {
            "Ошибка в "@
        } else if kind == 2 {
            "Настройки не найдены — укажите адрес сервера"@
        } else if kind == 3 {
            "Не удалось создать "@
        } else if kind == 4 {
            "Проверяю сеть…"@
        } else if kind == 5 {
            "Не удалось подключиться к сети (код "@
        } else if kind == 6 {
            "Загружаю список книг…"@
        } else if kind == 7 {
            "Книг в списке: "@
        } else if kind == 8 {
            "Не удалось получить список: "@
        } else if kind == 9 {
            "Книга не найдена, обновите список"@
        } else if kind == 10 {
            "«"@
        } else if kind == 11 {
            "Скачиваю «"@
        } else if kind == 12 {
            "Сохранено: "@
        } else if kind == 13 {
            "Ошибка загрузки: "@
        } else if kind == 14 {
            "Настройки сохранены — нажмите «Обновить»"@
        } else {
            "Не удалось сохранить настройки: "@
        },
    }
}

proof fn lemma_front(s: &Status, lang: Lang, r: String)
    requires
        call_ensures(status, (s, lang), r),
    ensures
        front_of(kind_of(*s), lang).len() <= r@.len(),
        r@.take(front_of(kind_of(*s), lang).len() as int) == front_of(kind_of(*s), lang),
        forall|i: int|
            0 <= i < front_of(kind_of(*s), lang).len() ==> #[trigger] r@[i] == front_of(
                kind_of(*s),
                lang,
            )[i],
{
    assert(r@.take(front_of(kind_of(*s), lang).len() as int) =~= front_of(kind_of(*s), lang));
}

/// Whether two texts part at a place.
spec fn part(x: Seq<char>, y: Seq<char>, i: int) -> bool {
    0 <= i < x.len() && i < y.len() && x[i] != y[i]
}

proof fn lemma_fronts(a: int, b: int, lang: Lang)
    requires
        0 <= a < 16,
        0 <= b < 16,
        a != b,
    ensures
        exists|i: int| #[trigger] part(front_of(a, lang), front_of(b, lang), i),
{
    reveal_strlit("Config: ");
    reveal_strlit("Error in ");
    reveal_strlit("No settings found — set the server address");
    reveal_strlit("Couldn't create ");
    reveal_strlit("Checking network…");
    reveal_strlit("Couldn't connect to the network (code ");
    reveal_strlit("Loading book list…");
    reveal_strlit("Books listed: ");
    reveal_strlit("Couldn't fetch the list: ");
    reveal_strlit("Book not found, refresh the list");
    reveal_strlit("“");
    reveal_strlit("Downloading “");
    reveal_strlit("Saved: ");
    reveal_strlit("Download error: ");
    reveal_strlit("Settings saved — press “Refresh”");
    reveal_strlit("Couldn't save settings: ");
    reveal_strlit("Конфиг: ");
    reveal_strlit("Ошибка в ");
    reveal_strlit("Настройки не найдены — укажите адрес сервера");
    reveal_strlit("Не удалось создать ");
    reveal_strlit("Проверяю сеть…");
    reveal_strlit("Не удалось подключиться к сети (код ");
    reveal_strlit("Загружаю список книг…");
    reveal_strlit("Книг в списке: ");
    reveal_strlit("Не удалось получить список: ");
    reveal_strlit("Книга не найдена, обновите список");
    reveal_strlit("«");
    reveal_strlit("Скачиваю «");
    reveal_strlit("Сохранено: ");
    reveal_strlit("Ошибка загрузки: ");
    reveal_strlit("Настройки сохранены — нажмите «Обновить»");
    reveal_strlit("Не удалось сохранить настройки: ");
    let x = front_of(a, lang);
    let y = front_of(b, lang);
    match lang {
        Lang::En => {
            assert(part(x, y, 0) || part(x, y, 1) || part(x, y, 2) || part(x, y, 4) || part(x, y, 8)
                || part(x, y, 9) || part(x, y, 10));
        },
        Lang::Ru => {
            assert(part(x, y, 0) || part(x, y, 1) || part(x, y, 4) || part(x, y, 7) || part(x, y, 10)
                || part(x, y, 11) || part(x, y, 13));
        },
    }
}

/// The word by which a status names its matter.
pub open spec fn matter_of(s: Status, lang: Lang) -> Seq<char> {
    match lang {
        Lang::En => match s {
            Status::ConfigPath(_) => "Config"@,
            Status::ConfigError { .. } => "Error"@,
            Status::ConfigMissing => "settings"@,
            Status::ConfigCreateFailed { .. } => "create"@,
            Status::CheckingNetwork => "network"@,
            Status::NetworkFailed(_) => "network"@,
            Status::LoadingList => "list"@,
            Status::BookCount(_) => "Books"@,
            Status::ListFailed(_) => "list"@,
            Status::BookNotFound => "not found"@,
            Status::NoFormat { .. } => "formats"@,
            Status::Downloading { .. } => "Downloading"@,
            Status::Saved { .. } => "Saved"@,
            Status::DownloadFailed(_) => "Download"@,
            Status::SettingsSaved => "saved"@,
            Status::SettingsSaveFailed(_) => "save settings"@,
        },
        Lang::Ru => match s {
            Status::ConfigPath(_) => "Конфиг"@,
            Status::ConfigError { .. } => "Ошибка"@,
            Status::ConfigMissing => "Настройки"@,
            Status::ConfigCreateFailed { .. } => "создать"@,
            Status::CheckingNetwork => "сеть"@,
            Status::NetworkFailed(_) => "сети"@,
            Status::LoadingList => "список"@,
            Status::BookCount(_) => "Книг"@,
            Status::ListFailed(_) => "список"@,
            Status::BookNotFound => "не найдена"@,
            Status::NoFormat { .. } => "форматов"@,
            Status::Downloading { .. } => "Скачиваю"@,
            Status::Saved { .. } => "Сохранено"@,
            Status::DownloadFailed(_) => "загрузки"@,
            Status::SettingsSaved => "сохранены"@,
            Status::SettingsSaveFailed(_) => "сохранить настройки"@,
        },
    }
}

/// A status names its matter.
pub proof fn a_status_names_its_matter(s: &Status, lang: Lang, r: String)
    requires
        call_ensures(status, (s, lang), r),
    ensures
        holds(r@, matter_of(*s, lang)),
{
    match (*s, lang) {
        (Status::ConfigPath(_), Lang::En) => {
            reveal_strlit("Config");
            reveal_strlit("Config: ");
            assert("Config: "@.subrange(0, 6) =~= "Config"@);
            assert(r@.subrange(0, 6) =~= "Config"@);
            lemma_holds_at(r@, "Config"@, 0);
        },
        (Status::ConfigPath(_), Lang::Ru) => {
            reveal_strlit("Конфиг");
            reveal_strlit("Конфиг: ");
            assert("Конфиг: "@.subrange(0, 6) =~= "Конфиг"@);
            assert(r@.subrange(0, 6) =~= "Конфиг"@);
            lemma_holds_at(r@, "Конфиг"@, 0);
        },
        (Status::ConfigError { .. }, Lang::En) => {
            reveal_strlit("Error");
            reveal_strlit("Error in ");
            assert("Error in "@.subrange(0, 5) =~= "Error"@);
            assert(r@.subrange(0, 5) =~= "Error"@);
            lemma_holds_at(r@, "Error"@, 0);
        },
        (Status::ConfigError { .. }, Lang::Ru) => {
            reveal_strlit("Ошибка");
            reveal_strlit("Ошибка в ");
            assert("Ошибка в "@.subrange(0, 6) =~= "Ошибка"@);
            assert(r@.subrange(0, 6) =~= "Ошибка"@);
            lemma_holds_at(r@, "Ошибка"@, 0);
        },
        (Status::ConfigMissing, Lang::En) => {
            reveal_strlit("settings");
            reveal_strlit("No settings found — set the server address");
            assert("No settings found — set the server address"@.subrange(3, 11) =~= "settings"@);
            assert(r@.subrange(3, 11) =~= "settings"@);
            lemma_holds_at(r@, "settings"@, 3);
        },
        (Status::ConfigMissing, Lang::Ru) => {
            reveal_strlit("Настройки");
            reveal_strlit("Настройки не найдены — укажите адрес сервера");
            assert("Настройки не найдены — укажите адрес сервера"@.subrange(0, 9) =~= "Настройки"@);
            assert(r@.subrange(0, 9) =~= "Настройки"@);
            lemma_holds_at(r@, "Настройки"@, 0);
        },
        (Status::ConfigCreateFailed { .. }, Lang::En) => {
            reveal_strlit("create");
            reveal_strlit("Couldn't create ");
            assert("Couldn't create "@.subrange(9, 15) =~= "create"@);
            assert(r@.subrange(9, 15) =~= "create"@);
            lemma_holds_at(r@, "create"@, 9);
        },
        (Status::ConfigCreateFailed { .. }, Lang::Ru) => {
            reveal_strlit("создать");
            reveal_strlit("Не удалось создать ");
            assert("Не удалось создать "@.subrange(11, 18) =~= "создать"@);
            assert(r@.subrange(11, 18) =~= "создать"@);
            lemma_holds_at(r@, "создать"@, 11);
        },
        (Status::CheckingNetwork, Lang::En) => {
            reveal_strlit("network");
            reveal_strlit("Checking network…");
            assert("Checking network…"@.subrange(9, 16) =~= "network"@);
            assert(r@.subrange(9, 16) =~= "network"@);
            lemma_holds_at(r@, "network"@, 9);
        },
        (Status::CheckingNetwork, Lang::Ru) => {
            reveal_strlit("сеть");
            reveal_strlit("Проверяю сеть…");
            assert("Проверяю сеть…"@.subrange(9, 13) =~= "сеть"@);
            assert(r@.subrange(9, 13) =~= "сеть"@);
            lemma_holds_at(r@, "сеть"@, 9);
        },
        (Status::NetworkFailed(_), Lang::En) => {
            reveal_strlit("network");
            reveal_strlit("Couldn't connect to the network (code ");
            assert("Couldn't connect to the network (code "@.subrange(24, 31) =~= "network"@);
            assert(r@.subrange(24, 31) =~= "network"@);
            lemma_holds_at(r@, "network"@, 24);
        },
        (Status::NetworkFailed(_), Lang::Ru) => {
            reveal_strlit("сети");
            reveal_strlit("Не удалось подключиться к сети (код ");
            assert("Не удалось подключиться к сети (код "@.subrange(26, 30) =~= "сети"@);
            assert(r@.subrange(26, 30) =~= "сети"@);
            lemma_holds_at(r@, "сети"@, 26);
        },
        (Status::LoadingList, Lang::En) => {
            reveal_strlit("list");
            reveal_strlit("Loading book list…");
            assert("Loading book list…"@.subrange(13, 17) =~= "list"@);
            assert(r@.subrange(13, 17) =~= "list"@);
            lemma_holds_at(r@, "list"@, 13);
        },
        (Status::LoadingList, Lang::Ru) => {
            reveal_strlit("список");
            reveal_strlit("Загружаю список книг…");
            assert("Загружаю список книг…"@.subrange(9, 15) =~= "список"@);
            assert(r@.subrange(9, 15) =~= "список"@);
            lemma_holds_at(r@, "список"@, 9);
        },
        (Status::BookCount(_), Lang::En) => {
            reveal_strlit("Books");
            reveal_strlit("Books listed: ");
            assert("Books listed: "@.subrange(0, 5) =~= "Books"@);
            assert(r@.subrange(0, 5) =~= "Books"@);
            lemma_holds_at(r@, "Books"@, 0);
        },
        (Status::BookCount(_), Lang::Ru) => {
            reveal_strlit("Книг");
            reveal_strlit("Книг в списке: ");
            assert("Книг в списке: "@.subrange(0, 4) =~= "Книг"@);
            assert(r@.subrange(0, 4) =~= "Книг"@);
            lemma_holds_at(r@, "Книг"@, 0);
        },
        (Status::ListFailed(_), Lang::En) => {
            reveal_strlit("list");
            reveal_strlit("Couldn't fetch the list: ");
            assert("Couldn't fetch the list: "@.subrange(19, 23) =~= "list"@);
            assert(r@.subrange(19, 23) =~= "list"@);
            lemma_holds_at(r@, "list"@, 19);
        },
        (Status::ListFailed(_), Lang::Ru) => {
            reveal_strlit("список");
            reveal_strlit("Не удалось получить список: ");
            assert("Не удалось получить список: "@.subrange(20, 26) =~= "список"@);
            assert(r@.subrange(20, 26) =~= "список"@);
            lemma_holds_at(r@, "список"@, 20);
        },
        (Status::BookNotFound, Lang::En) => {
            reveal_strlit("not found");
            reveal_strlit("Book not found, refresh the list");
            assert("Book not found, refresh the list"@.subrange(5, 14) =~= "not found"@);
            assert(r@.subrange(5, 14) =~= "not found"@);
            lemma_holds_at(r@, "not found"@, 5);
        },
        (Status::BookNotFound, Lang::Ru) => {
            reveal_strlit("не найдена");
            reveal_strlit("Книга не найдена, обновите список");
            assert("Книга не найдена, обновите список"@.subrange(6, 16) =~= "не найдена"@);
            assert(r@.subrange(6, 16) =~= "не найдена"@);
            lemma_holds_at(r@, "не найдена"@, 6);
        },
        (Status::NoFormat { .. }, Lang::En) => {
            reveal_strlit("formats");
            reveal_strlit("”: none of the wanted formats");
            assert("”: none of the wanted formats"@.subrange(22, 29) =~= "formats"@);
            let a = r@.len() - "”: none of the wanted formats"@.len() + 22;
            assert(r@.subrange(a, a + 7) =~= "formats"@);
            lemma_holds_at(r@, "formats"@, a);
        },
        (Status::NoFormat { .. }, Lang::Ru) => {
            reveal_strlit("форматов");
            reveal_strlit("»: нет ни одного из нужных форматов");
            assert("»: нет ни одного из нужных форматов"@.subrange(27, 35) =~= "форматов"@);
            let a = r@.len() - "»: нет ни одного из нужных форматов"@.len() + 27;
            assert(r@.subrange(a, a + 8) =~= "форматов"@);
            lemma_holds_at(r@, "форматов"@, a);
        },
        (Status::Downloading { .. }, Lang::En) => {
            reveal_strlit("Downloading");
            reveal_strlit("Downloading “");
            assert("Downloading “"@.subrange(0, 11) =~= "Downloading"@);
            assert(r@.subrange(0, 11) =~= "Downloading"@);
            lemma_holds_at(r@, "Downloading"@, 0);
        },
        (Status::Downloading { .. }, Lang::Ru) => {
            reveal_strlit("Скачиваю");
            reveal_strlit("Скачиваю «");
            assert("Скачиваю «"@.subrange(0, 8) =~= "Скачиваю"@);
            assert(r@.subrange(0, 8) =~= "Скачиваю"@);
            lemma_holds_at(r@, "Скачиваю"@, 0);
        },
        (Status::Saved { .. }, Lang::En) => {
            reveal_strlit("Saved");
            reveal_strlit("Saved: ");
            assert("Saved: "@.subrange(0, 5) =~= "Saved"@);
            assert(r@.subrange(0, 5) =~= "Saved"@);
            lemma_holds_at(r@, "Saved"@, 0);
        },
        (Status::Saved { .. }, Lang::Ru) => {
            reveal_strlit("Сохранено");
            reveal_strlit("Сохранено: ");
            assert("Сохранено: "@.subrange(0, 9) =~= "Сохранено"@);
            assert(r@.subrange(0, 9) =~= "Сохранено"@);
            lemma_holds_at(r@, "Сохранено"@, 0);
        },
        (Status::DownloadFailed(_), Lang::En) => {
            reveal_strlit("Download");
            reveal_strlit("Download error: ");
            assert("Download error: "@.subrange(0, 8) =~= "Download"@);
            assert(r@.subrange(0, 8) =~= "Download"@);
            lemma_holds_at(r@, "Download"@, 0);
        },
        (Status::DownloadFailed(_), Lang::Ru) => {
            reveal_strlit("загрузки");
            reveal_strlit("Ошибка загрузки: ");
            assert("Ошибка загрузки: "@.subrange(7, 15) =~= "загрузки"@);
            assert(r@.subrange(7, 15) =~= "загрузки"@);
            lemma_holds_at(r@, "загрузки"@, 7);
        },
        (Status::SettingsSaved, Lang::En) => {
            reveal_strlit("saved");
            reveal_strlit("Settings saved — press “Refresh”");
            assert("Settings saved — press “Refresh”"@.subrange(9, 14) =~= "saved"@);
            assert(r@.subrange(9, 14) =~= "saved"@);
            lemma_holds_at(r@, "saved"@, 9);
        },
        (Status::SettingsSaved, Lang::Ru) => {
            reveal_strlit("сохранены");
            reveal_strlit("Настройки сохранены — нажмите «Обновить»");
            assert("Настройки сохранены — нажмите «Обновить»"@.subrange(10, 19) =~= "сохранены"@);
            assert(r@.subrange(10, 19) =~= "сохранены"@);
            lemma_holds_at(r@, "сохранены"@, 10);
        },
        (Status::SettingsSaveFailed(_), Lang::En) => {
            reveal_strlit("save settings");
            reveal_strlit("Couldn't save settings: ");
            assert("Couldn't save settings: "@.subrange(9, 22) =~= "save settings"@);
            assert(r@.subrange(9, 22) =~= "save settings"@);
            lemma_holds_at(r@, "save settings"@, 9);
        },
        (Status::SettingsSaveFailed(_), Lang::Ru) => {
            reveal_strlit("сохранить настройки");
            reveal_strlit("Не удалось сохранить настройки: ");
            assert("Не удалось сохранить настройки: "@.subrange(11, 30) =~= "сохранить настройки"@);
            assert(r@.subrange(11, 30) =~= "сохранить настройки"@);
            lemma_holds_at(r@, "сохранить настройки"@, 11);
        },
    }
}

/// The states of a download are told apart by their texts, in either language.
pub proof fn states_are_told_apart(
    a: BookState,
    b: BookState,
    lang: Lang,
    one: &'static str,
    other: &'static str,
)
    requires
        call_ensures(book_state, (a, lang), one),
        call_ensures(book_state, (b, lang), other),
    ensures
        one@.len() > 0,
        one@ == other@ <==> a == b,
        a == BookState::InProgress ==> one@ == "…"@,
        a == BookState::NoFormat ==> holds(one@, if lang == Lang::En { "format"@ } else { "формат"@ }),
        a == BookState::Done ==> one@ == if lang == Lang::En { "done"@ } else { "готово"@ },
        a == BookState::Failed ==> one@ == if lang == Lang::En { "error"@ } else { "ошибка"@ },
{
    if a == BookState::NoFormat {
        reveal_strlit("no format");
        reveal_strlit("нет формата");
        reveal_strlit("format");
        reveal_strlit("формат");
        if lang == Lang::En {
            assert("no format"@.subrange(3, 9) =~= "format"@);
            lemma_holds_at("no format"@, "format"@, 3);
        } else {
            assert("нет формата"@.subrange(4, 10) =~= "формат"@);
            lemma_holds_at("нет формата"@, "формат"@, 4);
        }
    }
    reveal_strlit("…");
    reveal_strlit("no format");
    reveal_strlit("нет формата");
    reveal_strlit("done");
    reveal_strlit("готово");
    reveal_strlit("error");
    reveal_strlit("ошибка");
    assert("…"@[0] == '…');
    assert("no format"@[0] == 'n');
    assert("done"@[0] == 'd');
    assert("error"@[0] == 'e');
    assert("нет формата"@[0] == 'н');
    assert("готово"@[0] == 'г');
    assert("ошибка"@[0] == 'о');
}

/// A title or an author is shown as it is; where it is missing, the placeholder of the language
/// stands for it.
pub proof fn missing_names_have_placeholders(
    text: &str,
    lang: Lang,
    title: String,
    author: String,
    no_title: &'static str,
    no_author: &'static str,
)
    requires
        call_ensures(title_or_placeholder, (text, lang), title),
        call_ensures(author_or_placeholder, (text, lang), author),
        call_ensures(untitled, (lang,), no_title),
        call_ensures(unknown_author, (lang,), no_author),
    ensures
        text@.len() > 0 ==> title@ == text@ && author@ == text@,
        text@.len() == 0 ==> title@ == no_title@ && author@ == no_author@,
        no_title@.len() > 0,
        no_author@.len() > 0,
        no_title@ != no_author@,
        holds(no_author@, if lang == Lang::En { "author"@ } else { "автор"@ }),
        lang == Lang::En ==> 'A' <= no_title@[0] <= 'Z' && 'A' <= no_author@[0] <= 'Z',
        lang == Lang::Ru ==> 'А' <= no_title@[0] <= 'Я' && 'А' <= no_author@[0] <= 'Я',
{
    reveal_strlit("Untitled");
    reveal_strlit("Без названия");
    reveal_strlit("Unknown author");
    reveal_strlit("Неизвестный автор");
    reveal_strlit("author");
    reveal_strlit("автор");
    if lang == Lang::En {
        assert("Unknown author"@.subrange(8, 14) =~= "author"@);
        lemma_holds_at("Unknown author"@, "author"@, 8);
    } else {
        assert("Неизвестный автор"@.subrange(12, 17) =~= "автор"@);
        lemma_holds_at("Неизвестный автор"@, "автор"@, 12);
    }
    assert("Untitled"@.len() == 8 && "Unknown author"@.len() == 14);
    assert("Без названия"@[0] == 'Б' && "Неизвестный автор"@[0] == 'Н');
}

/// The page indicator tells the number of the page and the number of all, in this order.
pub proof fn a_label_counts_pages(page: usize, total: usize, lang: Lang, r: String)
    requires
        call_ensures(page_label, (page, total, lang), r),
    ensures
        counts(r@, page as int, total as int),
{
    let first = decimal(page as nat);
    let second = decimal(total as nat);
    decimal_reads_back(page as nat);
    decimal_reads_back(total as nat);
    reveal_strlit("p. ");
    reveal_strlit("стр. ");
    let before = match lang {
        Lang::En => "p. "@,
        Lang::Ru => "стр. "@,
    };
    assert(r@ == before + first + " / "@ + second);
}

/// The languages are told apart by their codes and by their names.
pub proof fn languages_are_told_apart(
    lang: Lang,
    other: Lang,
    code: &'static str,
    other_code: &'static str,
    name: &'static str,
    other_name: &'static str,
)
    requires
        call_ensures(Lang::code, (lang,), code),
        call_ensures(Lang::code, (other,), other_code),
        call_ensures(Lang::name, (lang,), name),
        call_ensures(Lang::name, (other,), other_name),
    ensures
        code@ == other_code@ <==> lang == other,
        name@ == other_name@ <==> lang == other,
        name@.len() > 0,
        begins_in(name@[0], lang),
{
    reveal_strlit("en");
    reveal_strlit("ru");
    reveal_strlit("English");
    reveal_strlit("Русский");
    assert("en"@[0] == 'e' && "ru"@[0] == 'r');
    assert("English"@[0] == 'E' && "Русский"@[0] == 'Р');
}

/// The language row names the language that is in use; where it follows the firmware it says so.
pub proof fn the_language_row_names_the_language(
    choice: LangChoice,
    system: Lang,
    lang: Lang,
    r: String,
    name: &'static str,
)
    requires
        call_ensures(language_row_value, (choice, system), r),
        call_ensures(LangChoice::resolve, (choice, system), lang),
        call_ensures(Lang::name, (lang,), name),
    ensures
        holds(r@, name@),
        choice != LangChoice::Auto ==> r@ == name@,
        choice == LangChoice::Auto ==> r@.len() > name@.len(),
        choice == LangChoice::Auto ==> lang == system,
        choice == LangChoice::En ==> lang == Lang::En,
        choice == LangChoice::Ru ==> lang == Lang::Ru,
{
    reveal_strlit("Auto (");
    reveal_strlit("Авто (");
    if choice == LangChoice::Auto {
        match system {
            Lang::En => lemma_holds("Auto ("@, name@, ")"@),
            Lang::Ru => lemma_holds("Авто ("@, name@, ")"@),
        }
    } else {
        lemma_holds(Seq::empty(), name@, Seq::empty());
        assert(Seq::<char>::empty() + name@ =~= name@);
    }
}

/// Whether a name of a language means Russian: without the space around it, it begins with `ru`, in
/// capitals or not.
pub open spec fn names_russian(raw: Seq<char>) -> bool {
    exists|name: Seq<char>|
        {
            &&& #[trigger] trims(raw, name)
            &&& name.len() >= 2
            &&& name[0] == 'r' || name[0] == 'R'
            &&& name[1] == 'u' || name[1] == 'U'
        }
}

/// The firmware language is Russian where its name says so, and English in any other case, even
/// where nothing is reported.
pub proof fn the_firmware_names_its_language(
    raw: &str,
    r: Lang,
    reported: Option<&str>,
    system: Lang,
)
    requires
        call_ensures(Lang::normalize, (raw,), r),
        call_ensures(system_lang, (reported,), system),
    ensures
        r == Lang::Ru <==> names_russian(raw@),
        match reported {
            Some(name) => system == Lang::Ru <==> names_russian(name@),
            None => system == Lang::En,
        },
{
    lemma_russian(raw@);
    if let Some(name) = reported {
        lemma_russian(name@);
    }
}

proof fn lemma_russian(raw: Seq<char>)
    ensures
        crate::i18n::means_russian(raw) <==> names_russian(raw),
{
    lemma_trims(raw);
    if names_russian(raw) {
        let name = choose|name: Seq<char>|
            {
                &&& #[trigger] trims(raw, name)
                &&& name.len() >= 2
                &&& name[0] == 'r' || name[0] == 'R'
                &&& name[1] == 'u' || name[1] == 'U'
            };
        lemma_trims_once(raw, name);
    }
    if crate::i18n::means_russian(raw) {
        assert(trims(raw, trimmed(raw)));
    }
}

/// A choice of language reads back from what is stored for it; what is stored otherwise, but for the
/// space around it, follows the firmware.
pub proof fn choices_read_back(
    choice: LangChoice,
    stored: Option<String>,
    text: &str,
    r: LangChoice,
    next: LangChoice,
)
    requires
        call_ensures(LangChoice::to_config, (choice,), stored),
        call_ensures(LangChoice::from_config, (Some(text),), r),
        call_ensures(LangChoice::next, (choice,), next),
    ensures
        choice == LangChoice::Auto <==> stored is None,
        stored matches Some(name) && text@ == name@ ==> r == choice,
        r == LangChoice::En <==> trims(text@, "en"@),
        r == LangChoice::Ru <==> trims(text@, "ru"@),
        choice == LangChoice::Auto ==> next == LangChoice::En,
        choice == LangChoice::En ==> next == LangChoice::Ru,
        choice == LangChoice::Ru ==> next == LangChoice::Auto,
{
    crate::i18n::choice_round_trips(choice);
    reveal_strlit("en");
    reveal_strlit("ru");
    assert("en"@[0] != "ru"@[0]);
    lemma_trims(text@);
    if trims(text@, "en"@) {
        lemma_trims_once(text@, "en"@);
    }
    if trims(text@, "ru"@) {
        lemma_trims_once(text@, "ru"@);
    }
}

/// The language is English until it is known, and follows the firmware until one is chosen.
pub proof fn languages_begin_with_the_firmware(lang: Lang, choice: LangChoice)
    requires
        call_ensures(Lang::default, (), lang),
        call_ensures(LangChoice::default, (), choice),
    ensures
        lang == Lang::En,
        choice == LangChoice::Auto,
{
}

} // verus!
