//! The one meaning every backend strategy must implement: equality
//! filtering followed by the page window.
//!
//! [`spec_find_cards`] and [`spec_find_decks`] are the reference
//! semantics. The in-memory snapshot scan is proved to compute them
//! directly; the bound-parameter and textual query builders are proved to
//! emit queries whose clauses mirror the same predicate and window, and
//! their row decoders are proved to reproduce the records the semantics
//! selects.

use vstd::prelude::*;

use crate::model::{CardV, DeckV, FindCardsFilter, FindDecksFilter};
use crate::pagination::{spec_page_offset, PAGE_SIZE};

verus! {

/// Whether a card satisfies a card filter: an absent deck restriction
/// matches every card, a present one exactly the cards of that deck.
pub open spec fn spec_card_matches(c: CardV, f: FindCardsFilter) -> bool {
    match f.deck_id {
        Some(d) => c.deck_id == d,
        None => true,
    }
}

/// Whether a deck satisfies a deck filter.
pub open spec fn spec_deck_matches(d: DeckV, f: FindDecksFilter) -> bool {
    match f.id {
        Some(i) => d.id == i,
        None => true,
    }
}

/// The page window: up to [`PAGE_SIZE`] records of `s` starting at
/// `offset`, empty when the offset lies past the end.
pub open spec fn spec_window<A>(s: Seq<A>, offset: nat) -> Seq<A> {
    if offset >= s.len() {
        Seq::empty()
    } else if offset + PAGE_SIZE as nat >= s.len() {
        s.subrange(offset as int, s.len() as int)
    } else {
        s.subrange(offset as int, offset as int + PAGE_SIZE as int)
    }
}

/// What a card query returns: the requested page window of the filtered
/// dataset, in dataset order. Pagination applies to the filtered result,
/// never to the unfiltered dataset.
pub open spec fn spec_find_cards(cards: Seq<CardV>, f: FindCardsFilter) -> Seq<CardV> {
    spec_window(
        cards.filter(|c: CardV| spec_card_matches(c, f)),
        spec_page_offset(f.page),
    )
}

/// What a deck query returns.
pub open spec fn spec_find_decks(decks: Seq<DeckV>, f: FindDecksFilter) -> Seq<DeckV> {
    spec_window(
        decks.filter(|d: DeckV| spec_deck_matches(d, f)),
        spec_page_offset(f.page),
    )
}

/// Filtering with a predicate that holds everywhere changes nothing.
proof fn lemma_filter_true<A>(s: Seq<A>, pred: spec_fn(A) -> bool)
    requires
        forall|i: int| 0 <= i < s.len() ==> pred(#[trigger] s[i]),
    ensures
        s.filter(pred) == s,
    decreases s.len(),
{
    reveal(Seq::filter);
    if s.len() > 0 {
        let prefix = s.drop_last();
        assert(forall|i: int| 0 <= i < prefix.len() ==> pred(#[trigger] prefix[i]));
        lemma_filter_true(prefix, pred);
        assert(pred(s.last()));
        assert(s.filter(pred) =~= s);
    }
}

/// A card filter with no deck restriction selects the page window of the
/// unfiltered dataset.
pub proof fn lemma_cards_unrestricted_is_window(cards: Seq<CardV>, f: FindCardsFilter)
    requires
        f.deck_id is None,
    ensures
        spec_find_cards(cards, f) == spec_window(cards, spec_page_offset(f.page)),
{
    lemma_filter_true(cards, |c: CardV| spec_card_matches(c, f));
}

/// A deck filter with no identity restriction selects the page window of
/// the unfiltered dataset.
pub proof fn lemma_decks_unrestricted_is_window(decks: Seq<DeckV>, f: FindDecksFilter)
    requires
        f.id is None,
    ensures
        spec_find_decks(decks, f) == spec_window(decks, spec_page_offset(f.page)),
{
    lemma_filter_true(decks, |d: DeckV| spec_deck_matches(d, f));
}

/// A card query restricted to deck `d` returns only cards of that deck.
pub proof fn lemma_cards_deck_restriction(cards: Seq<CardV>, f: FindCardsFilter, d: u128)
    requires
        f.deck_id == Some(d),
    ensures
        forall|i: int|
            0 <= i < spec_find_cards(cards, f).len() ==> (#[trigger] spec_find_cards(cards, f)[i]).deck_id
                == d,
{
    broadcast use vstd::seq_lib::group_filter_ensures;

    let pred = |c: CardV| spec_card_matches(c, f);
    let filtered = cards.filter(pred);
    let r = spec_find_cards(cards, f);
    assert forall|i: int| 0 <= i < r.len() implies (#[trigger] r[i]).deck_id == d by {
        let offset = spec_page_offset(f.page);
        assert(r[i] == filtered[offset + i]);
    }
}

/// The pagination offset law: page `p >= 1` starts at `(p - 1) *
/// PAGE_SIZE`, and requesting page 1 and requesting no page yield the same
/// result.
pub proof fn lemma_page_offset_law(cards: Seq<CardV>, f1: FindCardsFilter, f2: FindCardsFilter)
    requires
        f1.deck_id == f2.deck_id,
        f1.page == Some(1u32),
        f2.page is None,
    ensures
        f1.page matches Some(p) ==> spec_page_offset(f1.page) == (p - 1) * PAGE_SIZE,
        spec_find_cards(cards, f1) == spec_find_cards(cards, f2),
{
    assert(spec_page_offset(f1.page) == spec_page_offset(f2.page));
    let p1 = |c: CardV| spec_card_matches(c, f1);
    let p2 = |c: CardV| spec_card_matches(c, f2);
    assert(cards.filter(p1) == cards.filter(p2)) by {
        assert(forall|c: CardV| #[trigger] p1(c) == #[trigger] p2(c));
        fun_ext_filter(cards, p1, p2);
    }
}

/// Every element of a filtered sequence is an element of the original.
pub proof fn lemma_filter_members<A>(s: Seq<A>, pred: spec_fn(A) -> bool)
    ensures
        forall|i: int|
            0 <= i < s.filter(pred).len() ==> s.contains(#[trigger] s.filter(pred)[i]),
    decreases s.len(),
{
    reveal(Seq::filter);
    if s.len() > 0 {
        lemma_filter_members(s.drop_last(), pred);
        let out = s.filter(pred);
        let sub = s.drop_last().filter(pred);
        assert forall|i: int| 0 <= i < out.len() implies s.contains(#[trigger] out[i]) by {
            if pred(s.last()) && i == out.len() - 1 {
                assert(out[i] == s.last());
                assert(s[s.len() - 1] == s.last());
            } else {
                assert(out[i] == sub[i]);
                assert(s.drop_last().contains(sub[i]));
                let j = choose|j: int| 0 <= j < s.drop_last().len() && s.drop_last()[j] == sub[i];
                assert(s[j] == sub[i]);
            }
        }
    }
}

/// Filters that agree pointwise filter identically.
proof fn fun_ext_filter<A>(s: Seq<A>, p1: spec_fn(A) -> bool, p2: spec_fn(A) -> bool)
    requires
        forall|a: A| #[trigger] p1(a) == #[trigger] p2(a),
    ensures
        s.filter(p1) == s.filter(p2),
    decreases s.len(),
{
    reveal(Seq::filter);
    if s.len() > 0 {
        fun_ext_filter(s.drop_last(), p1, p2);
    }
}

} // verus!
