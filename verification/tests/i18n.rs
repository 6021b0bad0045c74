use pocket_calibre::i18n::{
    author_or_placeholder, book_state, language_row_value, page_label, status, system_lang,
    title_or_placeholder, unknown_author, untitled, BookState, Lang, LangChoice, Status,
};

#[test]
fn normalize_handles_firmware_variants() {
    assert_eq!(Lang::normalize("ru"), Lang::Ru);
    assert_eq!(Lang::normalize("RU"), Lang::Ru);
    assert_eq!(Lang::normalize("ru_RU.UTF-8"), Lang::Ru);
    assert_eq!(Lang::normalize("russian"), Lang::Ru);
    assert_eq!(Lang::normalize(" ru "), Lang::Ru);
    assert_eq!(Lang::normalize("en"), Lang::En);
    assert_eq!(Lang::normalize("english"), Lang::En);
    assert_eq!(Lang::normalize(""), Lang::En);
    assert_eq!(Lang::normalize("uk"), Lang::En);
    assert_eq!(Lang::normalize("de_DE"), Lang::En);
}

#[test]
fn choice_round_trips_through_config() {
    for choice in [LangChoice::Auto, LangChoice::En, LangChoice::Ru] {
        let stored = choice.to_config();
        assert_eq!(LangChoice::from_config(stored.as_deref()), choice);
    }

    assert_eq!(LangChoice::from_config(None), LangChoice::Auto);
    assert_eq!(LangChoice::from_config(Some("auto")), LangChoice::Auto);
    assert_eq!(LangChoice::from_config(Some(" en ")), LangChoice::En);
    // A typo must not wedge the UI in a surprise language.
    assert_eq!(LangChoice::from_config(Some("gibberish")), LangChoice::Auto);
}

#[test]
fn choice_cycle_covers_all_states() {
    assert_eq!(LangChoice::Auto.next(), LangChoice::En);
    assert_eq!(LangChoice::En.next(), LangChoice::Ru);
    assert_eq!(LangChoice::Ru.next(), LangChoice::Auto);
}

#[test]
fn resolve_follows_system_only_on_auto() {
    assert_eq!(LangChoice::Auto.resolve(Lang::Ru), Lang::Ru);
    assert_eq!(LangChoice::Auto.resolve(Lang::En), Lang::En);
    assert_eq!(LangChoice::En.resolve(Lang::Ru), Lang::En);
    assert_eq!(LangChoice::Ru.resolve(Lang::En), Lang::Ru);
}

#[test]
fn status_renders_in_both_languages() {
    assert_eq!(status(&Status::BookCount(7), Lang::En), "Books listed: 7");
    assert_eq!(status(&Status::BookCount(7), Lang::Ru), "Книг в списке: 7");
    assert_eq!(
        status(&Status::Downloading { title: "War and Peace".into() }, Lang::En),
        "Downloading “War and Peace”…"
    );
    // An empty title renders as the localized placeholder.
    assert_eq!(
        status(&Status::Downloading { title: String::new() }, Lang::Ru),
        "Скачиваю «Без названия»…"
    );
}

#[test]
fn language_row_value_spells_out_auto() {
    assert_eq!(language_row_value(LangChoice::Auto, Lang::Ru), "Авто (Русский)");
    assert_eq!(language_row_value(LangChoice::Auto, Lang::En), "Auto (English)");
    assert_eq!(language_row_value(LangChoice::En, Lang::Ru), "English");
    assert_eq!(language_row_value(LangChoice::Ru, Lang::En), "Русский");
}

#[test]
fn languages_have_codes() {
    assert_eq!(Lang::En.code(), "en");
    assert_eq!(Lang::Ru.code(), "ru");
    assert_eq!(Lang::default(), Lang::En);
    assert_eq!(LangChoice::default(), LangChoice::Auto);
}

#[test]
fn a_silent_firmware_speaks_english() {
    assert_eq!(system_lang(None), Lang::En);
    assert_eq!(system_lang(Some("ru_RU")), Lang::Ru);
    assert_eq!(system_lang(Some("fr")), Lang::En);
}

#[test]
fn rows_have_texts_in_both_languages() {
    assert_eq!(book_state(BookState::InProgress, Lang::Ru), "…");
    assert_eq!(book_state(BookState::NoFormat, Lang::En), "no format");
    assert_eq!(book_state(BookState::Done, Lang::Ru), "готово");
    assert_eq!(book_state(BookState::Failed, Lang::En), "error");
    assert_eq!(untitled(Lang::Ru), "Без названия");
    assert_eq!(unknown_author(Lang::En), "Unknown author");
    assert_eq!(page_label(3, 12, Lang::En), "p. 3 / 12");
    assert_eq!(page_label(3, 12, Lang::Ru), "стр. 3 / 12");
    assert_eq!(title_or_placeholder("", Lang::En), "Untitled");
    assert_eq!(title_or_placeholder("Dune", Lang::Ru), "Dune");
    assert_eq!(author_or_placeholder("", Lang::Ru), unknown_author(Lang::Ru));
    assert_eq!(author_or_placeholder("Herbert", Lang::Ru), "Herbert");
}
