use deckmaster::lines::{
    card_from_line, card_to_line, cards_from_lines, cards_to_lines, deck_from_line, deck_to_line,
    decks_from_lines, decks_to_lines,
};
use deckmaster::model::{decode_mana, encode_mana, Card, Deck};
use deckmaster::rows::{decode_card_row, decode_cards_strict, decode_cards_tolerant, decode_deck_row, CardRow, DeckRow};
use deckmaster::service::DataError;

const DECK: u128 = 0xa1a2a3a4b1b2c1c2d1d2d3d4d5d6d7d8;
const DECK_TEXT: &str = "a1a2a3a4-b1b2-c1c2-d1d2-d3d4d5d6d7d8";

fn sample_card() -> Card {
    Card {
        id: 3,
        title: "Storm Crow".to_string(),
        number: 12,
        description: Some("Flying".to_string()),
        mana: Some(vec!["1".to_string(), "U".to_string()]),
        kind: "Creature — Bird".to_string(),
        rarity: "C".to_string(),
        artist: Some("A. Painter".to_string()),
        power: Some("1".to_string()),
        toughness: Some("2".to_string()),
        deck_id: DECK,
    }
}

fn bare_card() -> Card {
    Card {
        id: 4,
        title: "Nameless Thing".to_string(),
        number: -3,
        description: None,
        mana: None,
        kind: "Enchantment".to_string(),
        rarity: "R".to_string(),
        artist: None,
        power: None,
        toughness: None,
        deck_id: DECK,
    }
}

#[test]
fn mana_round_trips_through_the_flat_encoding() {
    let tokens = vec!["1".to_string(), "U".to_string(), "U".to_string()];
    let flat = encode_mana(&tokens);
    assert_eq!(flat, "1, U, U");
    assert_eq!(decode_mana(&flat), tokens);
}

#[test]
fn a_single_mana_token_round_trips() {
    let tokens = vec!["G".to_string()];
    assert_eq!(decode_mana(&encode_mana(&tokens)), tokens);
}

#[test]
fn the_empty_mana_list_does_not_round_trip() {
    // The boundary the encoding documents: no tokens joins to the empty
    // string, which splits into one empty token.
    let tokens: Vec<String> = Vec::new();
    assert_eq!(encode_mana(&tokens), "");
    assert_eq!(decode_mana(""), vec![String::new()]);
}

#[test]
fn card_line_holds_every_field_in_column_order() {
    let line = card_to_line(&sample_card());
    assert_eq!(
        line,
        format!(
            "00000000-0000-0000-0000-000000000003\tStorm Crow\t12\tFlying\t1, U\tCreature — Bird\tC\tA. Painter\t1\t2\t{DECK_TEXT}"
        )
    );
}

#[test]
fn card_line_round_trips() {
    let c = sample_card();
    let back = card_from_line(&card_to_line(&c)).unwrap();
    assert_eq!(back.id, c.id);
    assert_eq!(back.title, c.title);
    assert_eq!(back.number, c.number);
    assert_eq!(back.description, c.description);
    assert_eq!(back.mana, c.mana);
    assert_eq!(back.kind, c.kind);
    assert_eq!(back.rarity, c.rarity);
    assert_eq!(back.artist, c.artist);
    assert_eq!(back.power, c.power);
    assert_eq!(back.toughness, c.toughness);
    assert_eq!(back.deck_id, c.deck_id);
}

#[test]
fn card_line_round_trips_with_absent_optionals() {
    let c = bare_card();
    let line = card_to_line(&c);
    let back = card_from_line(&line).unwrap();
    assert_eq!(back.number, -3);
    assert!(back.description.is_none());
    assert!(back.mana.is_none());
    assert!(back.artist.is_none());
}

#[test]
fn malformed_card_lines_are_decode_errors() {
    assert_eq!(card_from_line("too\tfew\tfields").unwrap_err(), DataError::Decode);
    let bad_id = format!("not-an-id\tT\t1\t\t\tK\tR\t\t\t\t{DECK_TEXT}");
    assert_eq!(card_from_line(&bad_id).unwrap_err(), DataError::Decode);
    let bad_number = format!("{DECK_TEXT}\tT\ttwelve\t\t\tK\tR\t\t\t\t{DECK_TEXT}");
    assert_eq!(card_from_line(&bad_number).unwrap_err(), DataError::Decode);
}

#[test]
fn deck_line_round_trips() {
    let d = Deck { id: DECK, name: "Alpha".to_string(), code: "ALP".to_string(), release: -10 };
    let line = deck_to_line(&d);
    assert_eq!(line, format!("{DECK_TEXT}\tAlpha\tALP\t-10"));
    let back = deck_from_line(&line).unwrap();
    assert_eq!(back.id, d.id);
    assert_eq!(back.name, d.name);
    assert_eq!(back.code, d.code);
    assert_eq!(back.release, d.release);
}

#[test]
fn dataset_lines_round_trip() {
    let cards = vec![sample_card(), bare_card()];
    let ls = cards_to_lines(&cards);
    assert_eq!(ls.len(), 2);
    let back = cards_from_lines(&ls).unwrap();
    assert_eq!(back.len(), 2);
    assert_eq!(back[0].title, "Storm Crow");
    assert_eq!(back[1].title, "Nameless Thing");

    let decks = vec![Deck { id: 1, name: "B".to_string(), code: "B".to_string(), release: 0 }];
    let dls = decks_to_lines(&decks);
    let dback = decks_from_lines(&dls).unwrap();
    assert_eq!(dback.len(), 1);
    assert_eq!(dback[0].id, 1);
}

#[test]
fn one_bad_line_fails_the_whole_dataset() {
    let mut ls = cards_to_lines(&vec![sample_card()]);
    ls.push("garbage".to_string());
    assert_eq!(cards_from_lines(&ls).unwrap_err(), DataError::Decode);
}

fn row_of(id: &str, deck_id: &str) -> CardRow {
    CardRow {
        id: id.to_string(),
        title: "T".to_string(),
        number: 1,
        description: None,
        mana: Some("G, G".to_string()),
        kind: "K".to_string(),
        rarity: "R".to_string(),
        artist: None,
        power: None,
        toughness: None,
        deck_id: deck_id.to_string(),
    }
}

#[test]
fn row_decode_splits_mana_and_parses_identities() {
    let c = decode_card_row(&row_of(DECK_TEXT, DECK_TEXT)).unwrap();
    assert_eq!(c.id, DECK);
    assert_eq!(c.deck_id, DECK);
    assert_eq!(c.mana, Some(vec!["G".to_string(), "G".to_string()]));
}

#[test]
fn deck_row_decode_defaults_an_absent_release_to_the_epoch() {
    let row = DeckRow {
        id: DECK_TEXT.to_string(),
        name: "Alpha".to_string(),
        code: "ALP".to_string(),
        release: None,
    };
    let d = decode_deck_row(&row).unwrap();
    assert_eq!(d.id, DECK);
    assert_eq!(d.release, 0);
    let row = DeckRow { release: Some(123), ..row };
    assert_eq!(decode_deck_row(&row).unwrap().release, 123);
}

#[test]
fn deck_row_decode_rejects_a_malformed_identity() {
    let row = DeckRow {
        id: "xyz".to_string(),
        name: String::new(),
        code: String::new(),
        release: None,
    };
    assert_eq!(decode_deck_row(&row).unwrap_err(), DataError::Decode);
}

#[test]
fn row_decode_rejects_a_malformed_identity() {
    let r = decode_card_row(&row_of("nope", DECK_TEXT));
    assert_eq!(r.unwrap_err(), DataError::Decode);
}

#[test]
fn strict_decode_fails_the_batch_on_one_bad_row() {
    let rows = vec![row_of(DECK_TEXT, DECK_TEXT), row_of("nope", DECK_TEXT)];
    assert_eq!(decode_cards_strict(&rows).unwrap_err(), DataError::Decode);
    let rows = vec![row_of(DECK_TEXT, DECK_TEXT)];
    assert_eq!(decode_cards_strict(&rows).unwrap().len(), 1);
}

#[test]
fn tolerant_decode_skips_and_counts_bad_rows() {
    let rows = vec![
        row_of(DECK_TEXT, DECK_TEXT),
        row_of("nope", DECK_TEXT),
        row_of(DECK_TEXT, DECK_TEXT),
    ];
    let (cards, skipped) = decode_cards_tolerant(&rows);
    assert_eq!(cards.len(), 2);
    assert_eq!(skipped, 1);
}
