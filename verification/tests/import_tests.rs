use flashcards::import::{import_cards, import_deck_name, parse_cards};
use flashcards::text::{find_first, split_on, trim};

#[test]
fn split_on_plain_delimiters() {
    let s = b"a----b----c".to_vec();
    let d = b"----".to_vec();
    let parts = split_on(&s, &d);
    assert_eq!(parts, vec![b"a".to_vec(), b"b".to_vec(), b"c".to_vec()]);
}

#[test]
fn split_on_keeps_empty_pieces() {
    let s = b"----x----".to_vec();
    let d = b"----".to_vec();
    let parts = split_on(&s, &d);
    assert_eq!(parts, vec![b"".to_vec(), b"x".to_vec(), b"".to_vec()]);
}

#[test]
fn split_on_takes_leftmost_occurrences() {
    // six dashes: the delimiter is consumed greedily from the left
    let s = b"a------b".to_vec();
    let d = b"----".to_vec();
    let parts = split_on(&s, &d);
    assert_eq!(parts, vec![b"a".to_vec(), b"--b".to_vec()]);
}

#[test]
fn split_on_without_occurrence_is_one_piece() {
    let s = b"plain".to_vec();
    let d = b"----".to_vec();
    assert_eq!(split_on(&s, &d), vec![b"plain".to_vec()]);
    let empty = b"".to_vec();
    assert_eq!(split_on(&empty, &d), vec![b"".to_vec()]);
}

#[test]
fn find_first_reports_leftmost() {
    let s = b"xx<>yy<>zz".to_vec();
    let d = b"<>".to_vec();
    assert_eq!(find_first(&s, &d), Some(2));
    let none = b"xxyy".to_vec();
    assert_eq!(find_first(&none, &d), None);
}

#[test]
fn trim_strips_ascii_whitespace() {
    let s = b" \t hola \r\n".to_vec();
    assert_eq!(trim(&s), b"hola".to_vec());
    let all = b" \n\t ".to_vec();
    assert_eq!(trim(&all), b"".to_vec());
    let none = b"x y".to_vec();
    assert_eq!(trim(&none), b"x y".to_vec());
}

#[test]
fn import_reads_well_formed_cards() {
    let content = b"name: Spanish\n----hola<>hello----adios<>goodbye".to_vec();
    let today: i64 = 738000;
    let cards = import_cards(7, &content, today);
    assert_eq!(cards.len(), 2);
    assert_eq!(cards[0].front, b"hola".to_vec());
    assert_eq!(cards[0].back, b"hello".to_vec());
    assert_eq!(cards[1].front, b"adios".to_vec());
    assert_eq!(cards[1].back, b"goodbye".to_vec());
    for card in &cards {
        assert_eq!(card.id, -1);
        assert_eq!(card.deck_id, 7);
        assert_eq!(card.level, 1);
        assert_eq!(card.added, today);
        assert_eq!(card.next, today);
    }
}

#[test]
fn import_counts_only_well_formed_cards() {
    // one good card, one without a delimiter, one with two delimiters
    let content = b"name: d----good<>card----nodelim----two<>del<>ims".to_vec();
    let cards = import_cards(1, &content, 10);
    assert_eq!(cards.len(), 1);
    assert_eq!(cards[0].front, b"good".to_vec());
    assert_eq!(cards[0].back, b"card".to_vec());
}

#[test]
fn import_of_n_cards_yields_n_rows_dated_today() {
    let content = b"name: d----a<>1----b<>2----c<>3".to_vec();
    let today: i64 = 555;
    let cards = import_cards(2, &content, today);
    assert_eq!(cards.len(), 3);
    for card in &cards {
        assert_eq!(card.level, 1);
        assert_eq!(card.added, today);
        assert_eq!(card.next, today);
        assert_eq!(card.deck_id, 2);
    }
}

#[test]
fn import_header_only_yields_no_cards() {
    let content = b"name: empty deck".to_vec();
    assert_eq!(import_cards(1, &content, 0).len(), 0);
    let nothing = b"".to_vec();
    assert_eq!(import_cards(1, &nothing, 0).len(), 0);
}

#[test]
fn deck_name_is_trimmed_text_after_colon() {
    let content = b"name: Spanish \n----hola<>hello".to_vec();
    assert_eq!(import_deck_name(&content), Some(b"Spanish".to_vec()));
}

#[test]
fn deck_name_stops_at_second_colon() {
    let content = b"name: a:b----x<>y".to_vec();
    assert_eq!(import_deck_name(&content), Some(b"a".to_vec()));
}

#[test]
fn deck_name_missing_colon_is_none() {
    let content = b"no header here----a<>b".to_vec();
    assert_eq!(import_deck_name(&content), None);
    let empty = b"".to_vec();
    assert_eq!(import_deck_name(&empty), None);
}

#[test]
fn parse_cards_skips_the_header_sections() {
    let secs = vec![b"header".to_vec(), b"f<>b".to_vec(), b"bad".to_vec()];
    let cards = parse_cards(4, &secs, 1, 9);
    assert_eq!(cards.len(), 1);
    assert_eq!(cards[0].front, b"f".to_vec());
    assert_eq!(cards[0].back, b"b".to_vec());
    let none = parse_cards(4, &secs, 3, 9);
    assert_eq!(none.len(), 0);
}
