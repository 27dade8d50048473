use deckmaster::ids::{format_entity_id, parse_entity_id};
use deckmaster::images::{image_request_path, image_response_outcome};
use deckmaster::model::{FindCardsFilter, FindDecksFilter, FindImageFilter};
use deckmaster::relational::{cards_query, decks_query, SqlParam};
use deckmaster::service::DataError;
use deckmaster::to_sql_query::ToSqlQuery;

const SAMPLE: u128 = 0xa1a2a3a4b1b2c1c2d1d2d3d4d5d6d7d8;
const SAMPLE_TEXT: &str = "a1a2a3a4-b1b2-c1c2-d1d2-d3d4d5d6d7d8";

#[test]
fn identity_renders_hyphenated_lower_case() {
    assert_eq!(format_entity_id(SAMPLE), SAMPLE_TEXT);
    assert_eq!(
        format_entity_id(0),
        "00000000-0000-0000-0000-000000000000"
    );
}

#[test]
fn identity_rendering_agrees_with_the_uuid_crate() {
    let rendered = format_entity_id(SAMPLE);
    let parsed = uuid::Uuid::parse_str(&rendered).unwrap();
    assert_eq!(parsed.as_u128(), SAMPLE);
    assert_eq!(uuid::Uuid::from_u128(SAMPLE).to_string(), rendered);
}

#[test]
fn identity_parse_inverts_rendering() {
    assert_eq!(parse_entity_id(SAMPLE_TEXT), Some(SAMPLE));
    assert_eq!(parse_entity_id("not-an-identity"), None);
}

#[test]
fn bound_cards_query_without_restriction() {
    let q = cards_query(&FindCardsFilter { deck_id: None, page: None });
    assert_eq!(
        q.text,
        "SELECT id, title, number, description, mana, kind, rarity, artist, power, toughness, deck_id FROM cards LIMIT 20 OFFSET ?"
    );
    assert_eq!(q.params, vec![SqlParam::Int(0)]);
}

#[test]
fn bound_cards_query_binds_the_deck_identity() {
    let q = cards_query(&FindCardsFilter { deck_id: Some(SAMPLE), page: Some(3) });
    assert_eq!(
        q.text,
        "SELECT id, title, number, description, mana, kind, rarity, artist, power, toughness, deck_id FROM cards WHERE deck_id = ? LIMIT 20 OFFSET ?"
    );
    assert_eq!(q.params, vec![SqlParam::Id(SAMPLE), SqlParam::Int(40)]);
}

#[test]
fn bound_decks_query_shapes() {
    let q = decks_query(&FindDecksFilter { id: None, page: Some(2) });
    assert_eq!(q.text, "SELECT id, name, code, release FROM decks LIMIT 20 OFFSET ?");
    assert_eq!(q.params, vec![SqlParam::Int(20)]);
    let q = decks_query(&FindDecksFilter { id: Some(7), page: None });
    assert_eq!(q.text, "SELECT id, name, code, release FROM decks WHERE id = ? LIMIT 20 OFFSET ?");
    assert_eq!(q.params, vec![SqlParam::Id(7), SqlParam::Int(0)]);
}

#[test]
fn textual_cards_query_interpolates_the_identity() {
    let f = FindCardsFilter { deck_id: Some(SAMPLE), page: Some(2) };
    assert_eq!(
        f.to_sql_query(),
        format!(
            "SELECT id, title, number, description, mana, kind, rarity, artist, power, toughness, deck_id FROM cards WHERE deck_id = '{SAMPLE_TEXT}' LIMIT 20 OFFSET 20"
        )
    );
}

#[test]
fn textual_cards_query_without_restriction() {
    let f = FindCardsFilter { deck_id: None, page: None };
    assert_eq!(
        f.to_sql_query(),
        "SELECT id, title, number, description, mana, kind, rarity, artist, power, toughness, deck_id FROM cards LIMIT 20 OFFSET 0"
    );
}

#[test]
fn textual_decks_query() {
    let f = FindDecksFilter { id: Some(0), page: None };
    assert_eq!(
        f.to_sql_query(),
        "SELECT id, name, code, release FROM decks WHERE id = '00000000-0000-0000-0000-000000000000' LIMIT 20 OFFSET 0"
    );
}

// A crafted, identity-typed value: every byte chosen to spell hex digits
// that look like SQL fragments. The rendering stays plain hex-and-hyphen
// text, so the query structure cannot change. (Arbitrary text input is
// not defended against, by design: only identity values are ever
// interpolated.)
#[test]
fn crafted_identity_cannot_alter_query_structure() {
    let crafted: u128 = 0xdeadbeefdeadbeefdeadbeefdeadbeef;
    let f = FindCardsFilter { deck_id: Some(crafted), page: None };
    let q = f.to_sql_query();
    let rendered = format_entity_id(crafted);
    assert!(rendered.chars().all(|c| c.is_ascii_hexdigit() || c == '-'));
    assert!(!rendered.contains('\''));
    assert!(!rendered.contains(';'));
    // Exactly the two quotes of the template, still enclosing the value.
    assert_eq!(q.matches('\'').count(), 2);
    assert!(q.ends_with(&format!("WHERE deck_id = '{rendered}' LIMIT 20 OFFSET 0")));
}

#[test]
fn image_path_is_built_from_both_identities() {
    let r = image_request_path(&FindImageFilter { card: Some((SAMPLE, 1)) }).unwrap();
    assert_eq!(
        r,
        format!(
            "magic-the-gathering/images/cards/{SAMPLE_TEXT}/00000000-0000-0000-0000-000000000001.jpg"
        )
    );
}

#[test]
fn image_path_requires_both_identities() {
    let r = image_request_path(&FindImageFilter { card: None });
    assert_eq!(r.unwrap_err(), DataError::NotFound);
}

#[test]
fn image_response_is_kept_only_on_success() {
    assert_eq!(image_response_outcome(200, vec![1, 2, 3]).unwrap(), vec![1, 2, 3]);
    assert_eq!(image_response_outcome(404, vec![1]).unwrap_err(), DataError::NotFound);
    assert_eq!(image_response_outcome(500, Vec::new()).unwrap_err(), DataError::NotFound);
}
