use pocket_calibre::calibre::Book;
use pocket_calibre::cover::CachedCover;
use pocket_calibre::i18n::{BookState, Lang};
use pocket_calibre::pager::{Pager, COVER_CACHE_LIMIT};

fn books(n: i64) -> Vec<Book> {
    (1..=n)
        .map(|id| Book {
            id,
            title: format!("Title {id}"),
            author: String::new(),
            format: if id % 2 == 0 { Some("PDF".to_string()) } else { None },
        })
        .collect()
}

fn cover() -> CachedCover {
    CachedCover { width: 1, height: 1, pixels: vec![0x80] }
}

#[test]
fn an_empty_list_is_one_empty_page() {
    let mut pager = Pager::new();
    let page = pager.render(Lang::En);
    assert!(page.items.is_empty());
    assert_eq!(page.label, "");
    assert!(!page.has_prev && !page.has_next);
    assert!(page.missing.is_empty());
    assert_eq!(pager.total_pages(), 1);
}

#[test]
fn pages_hold_as_many_rows_as_fit() {
    let mut pager = Pager::new();
    pager.set_books(books(7), Lang::En);
    let page = pager.set_rows(3, Lang::En).unwrap();
    assert_eq!(pager.total_pages(), 3);
    assert_eq!(page.items.iter().map(|i| i.id).collect::<Vec<_>>(), [1, 2, 3]);
    assert_eq!(page.label, "p. 1 / 3");
    assert!(!page.has_prev && page.has_next);

    let page = pager.turn(true, Lang::Ru).unwrap();
    assert_eq!(page.label, "стр. 2 / 3");
    assert!(page.has_prev && page.has_next);
    let page = pager.turn(true, Lang::En).unwrap();
    assert_eq!(page.items.iter().map(|i| i.id).collect::<Vec<_>>(), [7]);
    assert!(page.has_prev && !page.has_next);
    assert_eq!(pager.page_range(), (6, 7));
    assert!(pager.turn(true, Lang::En).is_none());

    assert_eq!(pager.turn(false, Lang::En).unwrap().items[0].id, 4);
    assert_eq!(pager.turn(false, Lang::En).unwrap().items[0].id, 1);
    assert!(pager.turn(false, Lang::En).is_none());
}

#[test]
fn rows_say_what_is_known() {
    let mut pager = Pager::new();
    pager.set_rows(2, Lang::En);
    let mut list = books(2);
    list[0].title = String::new();
    list[1].author = "Author".to_string();
    list[1].id = (1 << 32) + 5;
    let page = pager.set_books(list, Lang::Ru);
    assert_eq!(page.items[0].title, "Без названия");
    assert_eq!(page.items[0].author, "Неизвестный автор");
    assert_eq!(page.items[0].format, "—");
    assert_eq!(page.items[0].state, "");
    assert!(page.items[0].cover.is_none());
    assert_eq!(page.items[1].id, 5);
    assert_eq!(page.items[1].author, "Author");
    assert_eq!(page.items[1].format, "PDF");
}

#[test]
fn the_page_stays_within_the_list_when_rows_change() {
    let mut pager = Pager::new();
    pager.set_books(books(10), Lang::En);
    for _ in 0..9 {
        pager.turn(true, Lang::En);
    }
    assert_eq!(pager.page, 9);
    let page = pager.set_rows(4, Lang::En).unwrap();
    assert_eq!(page.label, "p. 3 / 3");
    assert!(pager.set_rows(4, Lang::En).is_none());
    assert!(pager.set_rows(0, Lang::En).is_some());
    assert_eq!(pager.rows, 1);
    assert_eq!(pager.page, 2);
}

#[test]
fn covers_are_asked_for_once() {
    let mut pager = Pager::new();
    pager.set_rows(3, Lang::En);
    let page = pager.set_books(books(6), Lang::En);
    assert_eq!(page.missing, [1, 2, 3]);
    assert!(pager.render(Lang::En).missing.is_empty());
    pager.set_cover(2, cover());
    assert!(pager.render(Lang::En).missing.is_empty());
    assert_eq!(pager.turn(true, Lang::En).unwrap().missing, [4, 5, 6]);
    assert!(pager.turn(false, Lang::En).unwrap().missing.is_empty());
    // A new list starts over.
    assert_eq!(pager.set_books(books(2), Lang::En).missing, [1, 2]);
}

#[test]
fn a_book_listed_twice_is_asked_for_once() {
    let mut pager = Pager::new();
    pager.set_rows(4, Lang::En);
    let mut list = books(2);
    list.extend(books(2));
    assert_eq!(pager.set_books(list, Lang::En).missing, [1, 2]);
}

#[test]
fn only_what_is_on_screen_makes_a_frame_due() {
    let mut pager = Pager::new();
    pager.set_rows(2, Lang::En);
    pager.set_books(books(4), Lang::En);
    assert!(pager.flush(Lang::En).is_none());
    assert!(!pager.is_visible(3) && pager.is_visible(2));
    pager.set_cover(3, cover());
    assert!(pager.flush(Lang::En).is_none());
    pager.set_cover(2, cover());
    let page = pager.flush(Lang::En).unwrap();
    let picture = page.items[1].cover.as_ref().unwrap();
    assert_eq!((picture.width, picture.height), (1, 1));
    assert_eq!(picture.pixels[0].r, 0x88);
    assert!(pager.flush(Lang::En).is_none());
    pager.set_state(1, BookState::Done);
    assert_eq!(pager.flush(Lang::En).unwrap().items[0].state, "done");
}

#[test]
fn the_oldest_covers_make_room_and_can_come_back() {
    let mut pager = Pager::new();
    pager.set_rows(1, Lang::En);
    pager.set_books(books(100), Lang::En);
    pager.set_cover(1, cover());
    for id in 2..=COVER_CACHE_LIMIT as i64 {
        pager.set_cover(id, cover());
    }
    // One that is there already takes no room.
    pager.set_cover(1, cover());
    assert_eq!(pager.covers.len(), COVER_CACHE_LIMIT);
    assert!(pager.render(Lang::En).items[0].cover.is_some());

    pager.set_cover(70, cover());
    assert_eq!(pager.covers.len(), COVER_CACHE_LIMIT);
    assert_eq!(pager.cover_order.len(), COVER_CACHE_LIMIT);
    assert!(!pager.covers.contains_key(&1));
    let page = pager.render(Lang::En);
    assert!(page.items[0].cover.is_none());
    assert_eq!(page.missing, [1]);
}
