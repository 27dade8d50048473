use deckmaster::cache::{
    chunk_key, chunk_lines, decks_key, decks_refresh_entry, decode_lines, encode_lines,
    read_outcome, read_unchunked, refresh_plan, CacheRead, LINES_PER_CHUNK, MAX_CHUNK_COUNT,
};
use deckmaster::lines::{cards_from_cache_text, cards_to_lines};
use deckmaster::model::Card;
use deckmaster::service::DataError;

fn lines(texts: &[&str]) -> Vec<String> {
    texts.iter().map(|s| s.to_string()).collect()
}

fn reads_of(chunks: &[String]) -> Vec<Option<String>> {
    chunks.iter().map(|c| Some(c.clone())).collect()
}

#[test]
fn standard_configuration() {
    assert_eq!(LINES_PER_CHUNK, 1000);
    assert_eq!(MAX_CHUNK_COUNT, 100);
    assert_eq!(decks_key(), "decks");
}

#[test]
fn chunk_keys_are_indexed_by_dataset() {
    assert_eq!(chunk_key("cards", 0), "cards_0");
    assert_eq!(chunk_key("cards", 17), "cards_17");
}

#[test]
fn lines_encode_with_trailing_delimiters() {
    assert_eq!(encode_lines(&lines(&["a", "b"])), "a\nb\n");
    assert_eq!(encode_lines(&lines(&[])), "");
    assert_eq!(decode_lines("a\nb\n"), lines(&["a", "b"]));
    assert_eq!(decode_lines(""), lines(&[]));
}

#[test]
fn chunking_always_ends_with_a_partial_chunk() {
    // Five lines, three per chunk: one full chunk, one partial.
    let c = chunk_lines(&lines(&["a", "b", "c", "d", "e"]), 3);
    assert_eq!(c, vec!["a\nb\nc\n".to_string(), "d\ne\n".to_string()]);
    // An exact multiple gets an empty final chunk, marking the end.
    let c = chunk_lines(&lines(&["a", "b", "c"]), 3);
    assert_eq!(c, vec!["a\nb\nc\n".to_string(), "".to_string()]);
    // The empty dataset is a single empty chunk.
    let c = chunk_lines(&lines(&[]), 3);
    assert_eq!(c, vec!["".to_string()]);
}

#[test]
fn round_trip_of_an_empty_dataset_reads_as_miss() {
    // Zero rows round-trip to the empty serialization, which the cache
    // treats as no usable snapshot.
    let chunks = chunk_lines(&lines(&[]), 3);
    let outcome = read_outcome(&reads_of(&chunks), 3);
    assert!(matches!(outcome, CacheRead::Miss));
}

#[test]
fn round_trip_of_a_single_chunk_dataset() {
    let ls = lines(&["row one", "row two"]);
    let chunks = chunk_lines(&ls, 3);
    assert_eq!(chunks.len(), 1);
    match read_outcome(&reads_of(&chunks), 3) {
        CacheRead::Hit(text) => {
            assert_eq!(text, "row one\nrow two\n");
            assert_eq!(decode_lines(&text), ls);
        }
        CacheRead::Miss => panic!("expected a hit"),
    }
}

#[test]
fn round_trip_of_a_multi_chunk_dataset() {
    let ls: Vec<String> = (0..7).map(|i| format!("row {i}")).collect();
    let chunks = chunk_lines(&ls, 2);
    assert_eq!(chunks.len(), 4);
    match read_outcome(&reads_of(&chunks), 2) {
        CacheRead::Hit(text) => {
            assert_eq!(text, encode_lines(&ls));
            assert_eq!(decode_lines(&text), ls);
        }
        CacheRead::Miss => panic!("expected a hit"),
    }
}

#[test]
fn an_absent_first_chunk_is_a_miss() {
    let reads: Vec<Option<String>> = vec![None, Some("a\n".to_string())];
    assert!(matches!(read_outcome(&reads, 2), CacheRead::Miss));
}

#[test]
fn an_absent_middle_chunk_is_a_miss_not_a_truncated_dataset() {
    let ls: Vec<String> = (0..7).map(|i| format!("row {i}")).collect();
    let chunks = chunk_lines(&ls, 2);
    let mut reads = reads_of(&chunks);
    reads[2] = None;
    assert!(matches!(read_outcome(&reads, 2), CacheRead::Miss));
}

#[test]
fn an_absent_final_partial_chunk_is_a_miss() {
    let ls: Vec<String> = (0..6).map(|i| format!("row {i}")).collect();
    let chunks = chunk_lines(&ls, 2);
    let mut reads = reads_of(&chunks);
    let last = reads.len() - 1;
    reads[last] = None;
    assert!(matches!(read_outcome(&reads, 2), CacheRead::Miss));
}

#[test]
fn an_overfull_chunk_is_a_miss() {
    let reads = vec![Some("a\nb\nc\n".to_string())];
    assert!(matches!(read_outcome(&reads, 2), CacheRead::Miss));
}

#[test]
fn running_past_the_bound_without_an_end_is_a_miss() {
    // Every read is a full chunk: no final partial chunk ever appears.
    let reads = vec![Some("a\nb\n".to_string()), Some("c\nd\n".to_string())];
    assert!(matches!(read_outcome(&reads, 2), CacheRead::Miss));
}

#[test]
fn stale_chunks_after_the_partial_end_are_ignored() {
    let reads = vec![
        Some("a\nb\n".to_string()),
        Some("c\n".to_string()),
        Some("stale junk\nfrom an older, larger dataset\n".to_string()),
    ];
    match read_outcome(&reads, 2) {
        CacheRead::Hit(text) => assert_eq!(text, "a\nb\nc\n"),
        CacheRead::Miss => panic!("expected a hit"),
    }
}

#[test]
fn refresh_plan_lists_every_chunk_under_its_key() {
    let ls: Vec<String> = (0..5).map(|i| format!("row {i}")).collect();
    let plan = refresh_plan("cards", &ls, 2, 10).unwrap();
    assert_eq!(plan.len(), 3);
    assert_eq!(plan[0].0, "cards_0");
    assert_eq!(plan[0].1, "row 0\nrow 1\n");
    assert_eq!(plan[1].0, "cards_1");
    assert_eq!(plan[2].0, "cards_2");
    assert_eq!(plan[2].1, "row 4\n");
}

#[test]
fn refresh_plan_refuses_a_dataset_past_the_chunk_bound() {
    let ls: Vec<String> = (0..10).map(|i| format!("row {i}")).collect();
    let r = refresh_plan("cards", &ls, 2, 3);
    assert_eq!(r.unwrap_err(), DataError::Cache);
}

#[test]
fn unchunked_read_is_a_hit_only_when_present_and_non_empty() {
    match read_unchunked(Some("deck data\n".to_string())) {
        CacheRead::Hit(text) => assert_eq!(text, "deck data\n"),
        CacheRead::Miss => panic!("expected a hit"),
    }
    assert!(matches!(read_unchunked(Some(String::new())), CacheRead::Miss));
    assert!(matches!(read_unchunked(None), CacheRead::Miss));
}

fn tiny_card(id: u128, title: &str) -> Card {
    Card {
        id,
        title: title.to_string(),
        number: id as i64,
        description: None,
        mana: Some(vec!["G".to_string()]),
        kind: "K".to_string(),
        rarity: "C".to_string(),
        artist: None,
        power: None,
        toughness: None,
        deck_id: 1,
    }
}

#[test]
fn a_card_dataset_survives_the_whole_cache_tier() {
    let cards: Vec<Card> = (0..5).map(|i| tiny_card(i, &format!("card {i}"))).collect();
    let ls = cards_to_lines(&cards);
    let plan = refresh_plan("cards", &ls, 2, 10).unwrap();
    // Read back exactly what the plan wrote, in key order.
    let reads: Vec<Option<String>> = plan.iter().map(|(_, v)| Some(v.clone())).collect();
    match read_outcome(&reads, 2) {
        CacheRead::Hit(text) => {
            let back = cards_from_cache_text(&text).unwrap();
            assert_eq!(back.len(), cards.len());
            for (b, c) in back.iter().zip(cards.iter()) {
                assert_eq!(b.id, c.id);
                assert_eq!(b.title, c.title);
                assert_eq!(b.mana, c.mana);
            }
        }
        CacheRead::Miss => panic!("expected a hit"),
    }
}

#[test]
fn decks_are_stored_whole_under_their_own_key() {
    let ls = lines(&["deck line"]);
    let (key, value) = decks_refresh_entry(&ls);
    assert_eq!(key, "decks");
    assert_eq!(value, "deck line\n");
}
