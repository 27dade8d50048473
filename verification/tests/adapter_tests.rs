use std::sync::Arc;

use deckmaster::model::{Card, Deck, FindCardsFilter, FindDecksFilter, FindImageFilter};
use deckmaster::service::{DataError, MtgDataAccessLayer, MtgService};
use deckmaster::snapshot::SnapshotRepository;

fn card(id: u128, deck_id: u128, number: i64, title: &str) -> Card {
    Card {
        id,
        title: title.to_string(),
        number,
        description: None,
        mana: None,
        kind: "Creature".to_string(),
        rarity: "C".to_string(),
        artist: None,
        power: None,
        toughness: None,
        deck_id,
    }
}

fn deck(id: u128, name: &str, code: &str) -> Deck {
    Deck { id, name: name.to_string(), code: code.to_string(), release: 1_696_000_000_000 }
}

fn snapshot_of(n_cards: u128) -> SnapshotRepository {
    let cards: Vec<Card> = (0..n_cards).map(|i| card(i, i % 2, i as i64, &format!("card {i}"))).collect();
    let decks = vec![deck(0, "Alpha", "ALP"), deck(1, "Beta", "BET")];
    SnapshotRepository::new(cards, decks)
}

#[test]
fn unfiltered_cards_are_the_first_page_window() {
    let repo = snapshot_of(25);
    let cards = repo.find_cards(FindCardsFilter { deck_id: None, page: None }).unwrap();
    assert_eq!(cards.len(), 20);
    let ids: Vec<u128> = cards.iter().map(|c| c.id).collect();
    let expected: Vec<u128> = (0..20).collect();
    assert_eq!(ids, expected);
}

#[test]
fn page_two_is_the_next_window_of_the_unfiltered_dataset() {
    let repo = snapshot_of(25);
    let cards = repo.find_cards(FindCardsFilter { deck_id: None, page: Some(2) }).unwrap();
    let ids: Vec<u128> = cards.iter().map(|c| c.id).collect();
    let expected: Vec<u128> = (20..25).collect();
    assert_eq!(ids, expected);
}

#[test]
fn page_one_and_no_page_agree() {
    let repo = snapshot_of(25);
    let a = repo.find_cards(FindCardsFilter { deck_id: None, page: Some(1) }).unwrap();
    let b = repo.find_cards(FindCardsFilter { deck_id: None, page: None }).unwrap();
    let ids_a: Vec<u128> = a.iter().map(|c| c.id).collect();
    let ids_b: Vec<u128> = b.iter().map(|c| c.id).collect();
    assert_eq!(ids_a, ids_b);
}

#[test]
fn page_past_the_end_is_empty() {
    let repo = snapshot_of(25);
    let cards = repo.find_cards(FindCardsFilter { deck_id: None, page: Some(3) }).unwrap();
    assert!(cards.is_empty());
}

#[test]
fn deck_filter_returns_only_that_decks_cards() {
    let repo = snapshot_of(25);
    let cards = repo.find_cards(FindCardsFilter { deck_id: Some(1), page: None }).unwrap();
    assert!(!cards.is_empty());
    assert!(cards.iter().all(|c| c.deck_id == 1));
    // Pagination applies to the filtered result: deck 1 holds the 12 odd ids.
    let ids: Vec<u128> = cards.iter().map(|c| c.id).collect();
    let expected: Vec<u128> = (0..25).filter(|i| i % 2 == 1).collect();
    assert_eq!(ids, expected);
}

#[test]
fn deck_filter_with_unknown_deck_is_empty() {
    let repo = snapshot_of(25);
    let cards = repo.find_cards(FindCardsFilter { deck_id: Some(77), page: None }).unwrap();
    assert!(cards.is_empty());
}

#[test]
fn find_decks_without_filter_lists_all_decks() {
    let repo = snapshot_of(4);
    let decks = repo.find_decks(FindDecksFilter { id: None, page: None }).unwrap();
    assert_eq!(decks.len(), 2);
    assert_eq!(decks[0].name, "Alpha");
    assert_eq!(decks[1].code, "BET");
}

#[test]
fn find_decks_by_identity() {
    let repo = snapshot_of(4);
    let decks = repo.find_decks(FindDecksFilter { id: Some(1), page: None }).unwrap();
    assert_eq!(decks.len(), 1);
    assert_eq!(decks[0].name, "Beta");
}

#[test]
fn snapshot_has_no_image_storage() {
    let repo = snapshot_of(1);
    let r = repo.find_image(FindImageFilter { card: Some((0, 0)) });
    assert_eq!(r.unwrap_err(), DataError::NotFound);
}

#[test]
fn service_forwards_to_its_adapter() {
    let repo = Arc::new(snapshot_of(25));
    let service = MtgService::new(repo);
    let cards = service.get_cards(FindCardsFilter { deck_id: None, page: None }).unwrap();
    assert_eq!(cards.len(), 20);
    let decks = service.get_decks(FindDecksFilter::default()).unwrap();
    assert_eq!(decks.len(), 2);
    let image = service.get_image(FindImageFilter::default());
    assert_eq!(image.unwrap_err(), DataError::NotFound);
}

#[test]
fn filter_defaults_are_unrestricted() {
    let f = FindCardsFilter::default();
    assert!(f.deck_id.is_none());
    assert!(f.page.is_none());
    let f = FindDecksFilter::default();
    assert!(f.id.is_none());
    assert!(f.page.is_none());
    let f = FindImageFilter::default();
    assert!(f.card.is_none());
}

#[test]
fn error_messages_name_each_failure() {
    assert_eq!(DataError::Input.message(), "malformed identity value");
    assert_eq!(DataError::Adapter.message(), "backend query failed");
    assert_eq!(DataError::Decode.message(), "row failed to decode into a record");
    assert_eq!(DataError::Cache.message(), "cache chunk could not be stored or read");
    assert_eq!(DataError::NotFound.message(), "not found");
}
