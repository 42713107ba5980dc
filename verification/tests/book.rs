use vendace::book::best_entry;
use vendace::book::choose_move;
use vendace::book::Book;
use vendace::book::BookEntry;
use vendace::book::Move;

fn record(key: u64, mv: u16, weight: u16) -> Vec<u8> {
    let mut bytes = Vec::new();
    bytes.extend_from_slice(&key.to_be_bytes());
    bytes.extend_from_slice(&mv.to_be_bytes());
    bytes.extend_from_slice(&weight.to_be_bytes());
    bytes.extend_from_slice(&[0xde, 0xad, 0xbe, 0xef]);
    bytes
}

fn entry(mv: u16, weight: u16) -> BookEntry {
    BookEntry { mv, weight }
}

#[test]
fn the_heaviest_entry_is_chosen_and_the_first_among_equals() {
    let entries = vec![entry(0x031C, 5), entry(0x02DB, 9), entry(0x0252, 9), entry(0x031D, 1)];
    assert_eq!(best_entry(&entries), Some(entry(0x02DB, 9)));
    assert_eq!(choose_move(&entries), Move::try_from(0x02DBu16).ok());
    assert_eq!(best_entry(&vec![entry(7, 0), entry(8, 0)]), Some(entry(7, 0)));
    assert_eq!(best_entry(&vec![entry(7, 1), entry(8, 2)]), Some(entry(8, 2)));
    assert_eq!(best_entry(&Vec::new()), None);
    assert_eq!(choose_move(&Vec::new()), None);
    assert_eq!(choose_move(&vec![entry(0x5000, 3), entry(0x031C, 2)]), None);
}

#[test]
fn a_book_is_read_record_by_record() {
    let mut data = Vec::new();
    data.extend(record(0x0123_4567_89ab_cdef, 0x031C, 10));
    data.extend(record(42, 0x02DB, 3));
    data.extend(record(0x0123_4567_89ab_cdef, 0x0252, 700));
    data.extend(record(u64::MAX, 0x7fff, 0xffff));
    let book = Book::from_bytes(&data);
    assert_eq!(
        book.entries(0x0123_4567_89ab_cdef),
        Some(&vec![entry(0x031C, 10), entry(0x0252, 700)])
    );
    assert_eq!(book.entries(42), Some(&vec![entry(0x02DB, 3)]));
    assert_eq!(book.entries(u64::MAX), Some(&vec![entry(0x7fff, 0xffff)]));
    assert_eq!(book.entries(43), None);
    assert_eq!(book.lookup(0x0123_4567_89ab_cdef), Move::try_from(0x0252u16).ok());
    assert_eq!(book.lookup(42), Move::try_from("d2d4").ok());
    assert_eq!(book.lookup(u64::MAX), None);
    assert_eq!(book.lookup(43), None);
}

#[test]
fn reading_ends_at_a_malformed_or_short_record() {
    let mut data = Vec::new();
    data.extend(record(1, 0x031C, 10));
    data.extend(record(2, 0x8000, 10));
    data.extend(record(3, 0x031C, 10));
    let book = Book::from_bytes(&data);
    assert!(book.entries(1).is_some());
    assert!(book.entries(2).is_none());
    assert!(book.entries(3).is_none());

    let mut data = Vec::new();
    data.extend(record(1, 0x031C, 10));
    data.extend(record(2, 0x031C, 10));
    data.truncate(31);
    let book = Book::from_bytes(&data);
    assert!(book.entries(1).is_some());
    assert!(book.entries(2).is_none());

    assert!(Book::from_bytes(&[]).entries(0).is_none());
    assert!(Book::new().entries(0).is_none());
    assert!(Book::from_bytes(&[0u8; 15]).entries(0).is_none());
    assert_eq!(Book::from_bytes(&[0u8; 16]).entries(0), Some(&vec![entry(0, 0)]));
}

#[test]
fn entries_are_listed_in_order() {
    let mut book = Book::new();
    book.list(9, entry(1, 1));
    book.list(8, entry(2, 2));
    book.list(9, entry(3, 3));
    assert_eq!(book.entries(9), Some(&vec![entry(1, 1), entry(3, 3)]));
    assert_eq!(book.entries(8), Some(&vec![entry(2, 2)]));
}
