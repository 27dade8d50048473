//! The record model: the two entity shapes (card and deck) and the filter
//! shapes that queries take.
//!
//! Every adapter interprets an absent filter field as "match all" and a
//! present field as exact equality on that field. Mana-symbol lists
//! round-trip through a comma-space-joined textual encoding when persisted
//! as flat text; that encoding is lossy if a symbol contains the delimiter
//! itself, so callers must keep symbols free of `", "`.

use vstd::prelude::*;

use crate::ids::EntityId;
use crate::text::{join_strs, spec_contains, spec_join, spec_split, split_str};

verus! {

/// One trading-card record. `number` is the card's ordinal within its
/// release; `power` and `toughness` stay textual because their values may
/// be symbolic (for example `"*"`); `deck_id` references the deck the card
/// belongs to.
#[derive(Debug)]
pub struct Card {
    pub id: EntityId,
    pub title: String,
    pub number: i64,
    pub description: Option<String>,
    pub mana: Option<Vec<String>>,
    pub kind: String,
    pub rarity: String,
    pub artist: Option<String>,
    pub power: Option<String>,
    pub toughness: Option<String>,
    pub deck_id: EntityId,
}

/// The mathematical value of a [`Card`]: identities as 128-bit values and
/// every text field as its character sequence.
pub struct CardV {
    pub id: EntityId,
    pub title: Seq<char>,
    pub number: int,
    pub description: Option<Seq<char>>,
    pub mana: Option<Seq<Seq<char>>>,
    pub kind: Seq<char>,
    pub rarity: Seq<char>,
    pub artist: Option<Seq<char>>,
    pub power: Option<Seq<char>>,
    pub toughness: Option<Seq<char>>,
    pub deck_id: EntityId,
}

impl View for Card {
    type V = CardV;

    open spec fn view(&self) -> CardV {
        CardV {
            id: self.id,
            title: self.title@,
            number: self.number as int,
            description: match self.description {
                Some(d) => Some(d@),
                None => None,
            },
            mana: match self.mana {
                Some(m) => Some(m.deep_view()),
                None => None,
            },
            kind: self.kind@,
            rarity: self.rarity@,
            artist: match self.artist {
                Some(a) => Some(a@),
                None => None,
            },
            power: match self.power {
                Some(p) => Some(p@),
                None => None,
            },
            toughness: match self.toughness {
                Some(t) => Some(t@),
                None => None,
            },
            deck_id: self.deck_id,
        }
    }
}

/// One release of cards. `release` is the release instant as a Unix
/// timestamp in milliseconds, UTC. The code is not guaranteed unique
/// across the dataset; the identity is.
#[derive(Debug)]
pub struct Deck {
    pub id: EntityId,
    pub name: String,
    pub code: String,
    pub release: i64,
}

/// The mathematical value of a [`Deck`].
pub struct DeckV {
    pub id: EntityId,
    pub name: Seq<char>,
    pub code: Seq<char>,
    pub release: int,
}

impl View for Deck {
    type V = DeckV;

    open spec fn view(&self) -> DeckV {
        DeckV { id: self.id, name: self.name@, code: self.code@, release: self.release as int }
    }
}

/// The views of a sequence of cards.
pub open spec fn spec_card_views(s: Seq<Card>) -> Seq<CardV> {
    s.map_values(|c: Card| c@)
}

/// The views of a sequence of decks.
pub open spec fn spec_deck_views(s: Seq<Deck>) -> Seq<DeckV> {
    s.map_values(|d: Deck| d@)
}

fn clone_string_vec(v: &Vec<String>) -> (r: Vec<String>)
    ensures
        r.deep_view() == v.deep_view(),
{
    let mut out: Vec<String> = Vec::new();
    let n = v.len();
    let mut i: usize = 0;
    while i < n
        invariant
            0 <= i <= n,
            n == v.len(),
            out.len() == i,
            forall|k: int| 0 <= k < i ==> out.deep_view()[k] == v.deep_view()[k],
        decreases n - i,
    {
        out.push(v[i].clone());
        i = i + 1;
    }
    assert(out.deep_view() =~= v.deep_view());
    out
}

/// Copies an optional string; the copy has the same character sequence.
pub fn clone_opt_string(v: &Option<String>) -> (r: Option<String>)
    ensures
        match v {
            Some(s) => r matches Some(t) && t@ == s@,
            None => r is None,
        },
{
    match v {
        Some(s) => Some(s.clone()),
        None => None,
    }
}

/// Copies a card; the copy has the same mathematical value.
pub fn clone_card(c: &Card) -> (r: Card)
    ensures
        r@ == c@,
{
    let r = Card {
        id: c.id,
        title: c.title.clone(),
        number: c.number,
        description: clone_opt_string(&c.description),
        mana: match &c.mana {
            Some(m) => Some(clone_string_vec(m)),
            None => None,
        },
        kind: c.kind.clone(),
        rarity: c.rarity.clone(),
        artist: clone_opt_string(&c.artist),
        power: clone_opt_string(&c.power),
        toughness: clone_opt_string(&c.toughness),
        deck_id: c.deck_id,
    };
    r
}

/// Copies a deck; the copy has the same mathematical value.
pub fn clone_deck(d: &Deck) -> (r: Deck)
    ensures
        r@ == d@,
{
    Deck { id: d.id, name: d.name.clone(), code: d.code.clone(), release: d.release }
}

// ---------------------------------------------------------------------------
// Filters
// ---------------------------------------------------------------------------
/// Criterion for card queries: an optional deck restriction and an
/// optional 1-indexed page. An absent field means no restriction.
#[derive(Clone, Debug)]
pub struct FindCardsFilter {
    pub deck_id: Option<EntityId>,
    pub page: Option<u32>,
}

impl Default for FindCardsFilter {
    /// The empty filter: no restriction, first page.
    fn default() -> (r: Self)
        ensures
            r.deck_id is None,
            r.page is None,
    {
        FindCardsFilter { deck_id: None, page: None }
    }
}

/// Criterion for deck queries: an optional identity restriction and an
/// optional 1-indexed page.
#[derive(Clone, Debug)]
pub struct FindDecksFilter {
    pub id: Option<EntityId>,
    pub page: Option<u32>,
}

impl Default for FindDecksFilter {
    /// The empty filter: no restriction, first page.
    fn default() -> (r: Self)
        ensures
            r.id is None,
            r.page is None,
    {
        FindDecksFilter { id: None, page: None }
    }
}

/// Criterion for image lookups: the pair (deck identity, card identity),
/// both of which must be present for a lookup to be attempted.
#[derive(Clone, Debug)]
pub struct FindImageFilter {
    pub card: Option<(EntityId, EntityId)>,
}

impl Default for FindImageFilter {
    /// The empty filter, which no image lookup accepts.
    fn default() -> (r: Self)
        ensures
            r.card is None,
    {
        FindImageFilter { card: None }
    }
}

// ---------------------------------------------------------------------------
// Mana-token encoding
// ---------------------------------------------------------------------------
/// The delimiter of the flat mana-token encoding.
pub open spec fn spec_mana_delim() -> Seq<char> {
    seq![',', ' ']
}

/// Whether a single mana symbol is safe to encode: it must not contain
/// the delimiter `", "` itself.
pub open spec fn spec_mana_token_ok(t: Seq<char>) -> bool {
    !spec_contains(t, spec_mana_delim())
}

/// Encodes a mana-token list as flat text, the tokens joined by `", "`.
pub fn encode_mana(tokens: &Vec<String>) -> (r: String)
    ensures
        r@ == spec_join(tokens.deep_view(), spec_mana_delim()),
{
    proof {
        reveal_strlit(", ");
        assert(", "@ =~= spec_mana_delim());
    }
    join_strs(tokens, ", ")
}

/// Decodes a flat mana-token encoding by splitting on `", "`.
pub fn decode_mana(s: &str) -> (r: Vec<String>)
    ensures
        r.deep_view() == spec_split(s@, spec_mana_delim()),
{
    proof {
        reveal_strlit(", ");
        assert(", "@ =~= spec_mana_delim());
    }
    split_str(s, ", ")
}

/// Mana-token round trip: encoding a non-empty token list and decoding the
/// result reproduces the original list, for any tokens that do not contain
/// the literal delimiter `", "`. (The empty list is excluded: it encodes
/// to the empty string, which decodes to a list holding one empty token.)
pub proof fn lemma_mana_roundtrip(ts: Seq<Seq<char>>)
    requires
        ts.len() >= 1,
        forall|k: int| 0 <= k < ts.len() ==> spec_mana_token_ok(#[trigger] ts[k]),
    ensures
        spec_split(spec_join(ts, spec_mana_delim()), spec_mana_delim()) == ts,
{
    crate::text::lemma_join_split_roundtrip(ts, spec_mana_delim());
}

} // verus!
