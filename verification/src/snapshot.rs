//! The snapshot adapter: the full dataset held in memory, queried by a
//! predicate scan.
//!
//! The snapshot owns its record vectors for the lifetime of the process;
//! they are read-only after construction. Queries filter the in-memory
//! sequence with a boolean predicate per field and then slice the
//! filtered result — never the unfiltered dataset — to the page window.
//! This adapter has no failure mode, so its card and deck queries always
//! succeed; it holds no image storage, so every image lookup reports
//! [`DataError::NotFound`].

use vstd::prelude::*;

use crate::model::{
    clone_card, clone_deck, spec_card_views, spec_deck_views, Card, CardV, Deck, DeckV,
    FindCardsFilter, FindDecksFilter, FindImageFilter,
};
use crate::pagination::{page_offset, PAGE_SIZE};
use crate::query::{spec_card_matches, spec_deck_matches, spec_window};
use crate::service::{DataError, MtgDataAccessLayer};

verus! {

broadcast use vstd::seq_lib::group_filter_ensures, vstd::prelude::Seq::lemma_filter_push;

/// The in-memory backend: the loaded dataset, owned exclusively and never
/// mutated after construction.
pub struct SnapshotRepository {
    cards: Vec<Card>,
    decks: Vec<Deck>,
}

impl SnapshotRepository {
    /// The card dataset held by this snapshot.
    pub closed spec fn spec_cards(&self) -> Seq<CardV> {
        spec_card_views(self.cards@)
    }

    /// The deck dataset held by this snapshot.
    pub closed spec fn spec_decks(&self) -> Seq<DeckV> {
        spec_deck_views(self.decks@)
    }

    /// Builds a snapshot over a loaded dataset.
    pub fn new(cards: Vec<Card>, decks: Vec<Deck>) -> (s: Self)
        ensures
            s.spec_cards() == spec_card_views(cards@),
            s.spec_decks() == spec_deck_views(decks@),
    {
        SnapshotRepository { cards, decks }
    }
}

fn matching_cards(cards: &Vec<Card>, filter: &FindCardsFilter) -> (r: Vec<Card>)
    ensures
        spec_card_views(r@) == spec_card_views(cards@).filter(
            |c: CardV| spec_card_matches(c, *filter),
        ),
{
    let ghost pred = |c: CardV| spec_card_matches(c, *filter);
    let mut out: Vec<Card> = Vec::new();
    let n = cards.len();
    let mut i: usize = 0;
    while i < n
        invariant
            0 <= i <= n,
            n == cards.len(),
            pred == (|c: CardV| spec_card_matches(c, *filter)),
            spec_card_views(out@) == spec_card_views(cards@).take(i as int).filter(pred),
        decreases n - i,
    {
        let c = &cards[i];
        let keep = match filter.deck_id {
            Some(d) => c.deck_id == d,
            None => true,
        };
        proof {
            assert(spec_card_views(cards@).take(i + 1) =~= spec_card_views(cards@).take(
                i as int,
            ).push(cards@[i as int]@));
            assert(pred(cards@[i as int]@) == keep);
        }
        if keep {
            out.push(clone_card(c));
        }
        proof {
            assert(spec_card_views(out@) =~= spec_card_views(cards@).take(i + 1).filter(pred));
        }
        i = i + 1;
    }
    proof {
        assert(spec_card_views(cards@).take(n as int) =~= spec_card_views(cards@));
    }
    out
}

fn matching_decks(decks: &Vec<Deck>, filter: &FindDecksFilter) -> (r: Vec<Deck>)
    ensures
        spec_deck_views(r@) == spec_deck_views(decks@).filter(
            |d: DeckV| spec_deck_matches(d, *filter),
        ),
{
    let ghost pred = |d: DeckV| spec_deck_matches(d, *filter);
    let mut out: Vec<Deck> = Vec::new();
    let n = decks.len();
    let mut i: usize = 0;
    while i < n
        invariant
            0 <= i <= n,
            n == decks.len(),
            pred == (|d: DeckV| spec_deck_matches(d, *filter)),
            spec_deck_views(out@) == spec_deck_views(decks@).take(i as int).filter(pred),
        decreases n - i,
    {
        let d = &decks[i];
        let keep = match filter.id {
            Some(id) => d.id == id,
            None => true,
        };
        proof {
            assert(spec_deck_views(decks@).take(i + 1) =~= spec_deck_views(decks@).take(
                i as int,
            ).push(decks@[i as int]@));
            assert(pred(decks@[i as int]@) == keep);
        }
        if keep {
            out.push(clone_deck(d));
        }
        proof {
            assert(spec_deck_views(out@) =~= spec_deck_views(decks@).take(i + 1).filter(pred));
        }
        i = i + 1;
    }
    proof {
        assert(spec_deck_views(decks@).take(n as int) =~= spec_deck_views(decks@));
    }
    out
}

fn window_cards(v: Vec<Card>, offset: u64) -> (r: Vec<Card>)
    ensures
        spec_card_views(r@) == spec_window(spec_card_views(v@), offset as nat),
{
    let n = v.len();
    let mut out: Vec<Card> = Vec::new();
    if offset >= n as u64 {
        assert(spec_card_views(out@) =~= spec_window(spec_card_views(v@), offset as nat));
        return out;
    }
    let start = offset as usize;
    let take: usize = if n - start < PAGE_SIZE as usize {
        n - start
    } else {
        PAGE_SIZE as usize
    };
    let mut i: usize = 0;
    while i < take
        invariant
            0 <= i <= take,
            start + take <= n,
            n == v.len(),
            out.len() == i,
            forall|k: int| 0 <= k < i ==> spec_card_views(out@)[k] == spec_card_views(v@)[start + k],
        decreases take - i,
    {
        let ghost prev = out@;
        out.push(clone_card(&v[start + i]));
        proof {
            assert forall|k: int| 0 <= k < i + 1 implies spec_card_views(out@)[k]
                == spec_card_views(v@)[start + k] by {
                if k < i {
                    assert(out@[k] == prev[k]);
                    assert(spec_card_views(prev)[k] == spec_card_views(v@)[start + k]);
                } else {
                    assert(out@[k] == prev.push(out@[k as int]).last());
                }
            }
        }
        i = i + 1;
    }
    proof {
        let views = spec_card_views(v@);
        if offset as nat + PAGE_SIZE as nat >= views.len() {
            assert(spec_card_views(out@) =~= views.subrange(offset as int, views.len() as int));
        } else {
            assert(spec_card_views(out@) =~= views.subrange(
                offset as int,
                offset as int + PAGE_SIZE as int,
            ));
        }
    }
    out
}

fn window_decks(v: Vec<Deck>, offset: u64) -> (r: Vec<Deck>)
    ensures
        spec_deck_views(r@) == spec_window(spec_deck_views(v@), offset as nat),
{
    let n = v.len();
    let mut out: Vec<Deck> = Vec::new();
    if offset >= n as u64 {
        assert(spec_deck_views(out@) =~= spec_window(spec_deck_views(v@), offset as nat));
        return out;
    }
    let start = offset as usize;
    let take: usize = if n - start < PAGE_SIZE as usize {
        n - start
    } else {
        PAGE_SIZE as usize
    };
    let mut i: usize = 0;
    while i < take
        invariant
            0 <= i <= take,
            start + take <= n,
            n == v.len(),
            out.len() == i,
            forall|k: int| 0 <= k < i ==> spec_deck_views(out@)[k] == spec_deck_views(v@)[start + k],
        decreases take - i,
    {
        let ghost prev = out@;
        out.push(clone_deck(&v[start + i]));
        proof {
            assert forall|k: int| 0 <= k < i + 1 implies spec_deck_views(out@)[k]
                == spec_deck_views(v@)[start + k] by {
                if k < i {
                    assert(out@[k] == prev[k]);
                    assert(spec_deck_views(prev)[k] == spec_deck_views(v@)[start + k]);
                } else {
                    assert(out@[k] == prev.push(out@[k as int]).last());
                }
            }
        }
        i = i + 1;
    }
    proof {
        let views = spec_deck_views(v@);
        if offset as nat + PAGE_SIZE as nat >= views.len() {
            assert(spec_deck_views(out@) =~= views.subrange(offset as int, views.len() as int));
        } else {
            assert(spec_deck_views(out@) =~= views.subrange(
                offset as int,
                offset as int + PAGE_SIZE as int,
            ));
        }
    }
    out
}

impl MtgDataAccessLayer for SnapshotRepository {
    closed spec fn cards_model(&self) -> Seq<CardV> {
        self.spec_cards()
    }

    closed spec fn decks_model(&self) -> Seq<DeckV> {
        self.spec_decks()
    }

    /// The snapshot is in memory: card queries always succeed.
    open spec fn cards_available(&self) -> bool {
        true
    }

    /// The snapshot is in memory: deck queries always succeed.
    open spec fn decks_available(&self) -> bool {
        true
    }

    fn find_cards(&self, filter: FindCardsFilter) -> (r: Result<Vec<Card>, DataError>) {
        let filtered = matching_cards(&self.cards, &filter);
        let offset = page_offset(filter.page);
        let page = window_cards(filtered, offset);
        Ok(page)
    }

    fn find_decks(&self, filter: FindDecksFilter) -> (r: Result<Vec<Deck>, DataError>) {
        let filtered = matching_decks(&self.decks, &filter);
        let offset = page_offset(filter.page);
        let page = window_decks(filtered, offset);
        Ok(page)
    }

    /// The snapshot holds no image storage: every lookup is "not found".
    fn find_image(&self, filter: FindImageFilter) -> (r: Result<Vec<u8>, DataError>) {
        Err(DataError::NotFound)
    }
}

} // verus!
