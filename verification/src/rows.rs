//! Row shapes and row-to-record decoding.
//!
//! A backend engine hands rows back as plain values, decoded here by
//! name with an explicit required-versus-optional table per entity:
//! identity, title, number, kind, rarity and deck identity are required
//! for a card; description, mana, artist, power and toughness are
//! optional. Identities must be in canonical hyphenated form. Two
//! decoding policies exist: the strict path fails the whole batch on the
//! first bad row (the relational adapter's policy), the tolerant path
//! skips bad rows and counts them (the embedded-engine adapter's policy).
//! On rows that stand for actual records the two policies agree, which is
//! what makes the row-backed adapters interchangeable with the snapshot.

use vstd::prelude::*;

use crate::ids::{
    lemma_canonical_id_agrees, lemma_canonical_of_render, parse_canonical_id, spec_canonical_id,
    spec_uuid_hyphenated,
};
use crate::model::{
    clone_opt_string, decode_mana, lemma_mana_roundtrip, spec_mana_delim, spec_mana_token_ok,
    Card, CardV, Deck, DeckV,
};
use crate::service::DataError;
use crate::text::{spec_join, spec_split};

verus! {

/// One card row as a backend returns it: identities and mana still
/// textual, optional columns absent when the stored value was null.
#[derive(Debug)]
pub struct CardRow {
    pub id: String,
    pub title: String,
    pub number: i64,
    pub description: Option<String>,
    pub mana: Option<String>,
    pub kind: String,
    pub rarity: String,
    pub artist: Option<String>,
    pub power: Option<String>,
    pub toughness: Option<String>,
    pub deck_id: String,
}

/// The mathematical value of a [`CardRow`].
pub struct CardRowV {
    pub id: Seq<char>,
    pub title: Seq<char>,
    pub number: int,
    pub description: Option<Seq<char>>,
    pub mana: Option<Seq<char>>,
    pub kind: Seq<char>,
    pub rarity: Seq<char>,
    pub artist: Option<Seq<char>>,
    pub power: Option<Seq<char>>,
    pub toughness: Option<Seq<char>>,
    pub deck_id: Seq<char>,
}

impl View for CardRow {
    type V = CardRowV;

    open spec fn view(&self) -> CardRowV {
        CardRowV {
            id: self.id@,
            title: self.title@,
            number: self.number as int,
            description: match self.description {
                Some(s) => Some(s@),
                None => None,
            },
            mana: match self.mana {
                Some(s) => Some(s@),
                None => None,
            },
            kind: self.kind@,
            rarity: self.rarity@,
            artist: match self.artist {
                Some(s) => Some(s@),
                None => None,
            },
            power: match self.power {
                Some(s) => Some(s@),
                None => None,
            },
            toughness: match self.toughness {
                Some(s) => Some(s@),
                None => None,
            },
            deck_id: self.deck_id@,
        }
    }
}

/// One deck row as a backend returns it; a null release timestamp is
/// absent.
#[derive(Debug)]
pub struct DeckRow {
    pub id: String,
    pub name: String,
    pub code: String,
    pub release: Option<i64>,
}

/// The mathematical value of a [`DeckRow`].
pub struct DeckRowV {
    pub id: Seq<char>,
    pub name: Seq<char>,
    pub code: Seq<char>,
    pub release: Option<int>,
}

impl View for DeckRow {
    type V = DeckRowV;

    open spec fn view(&self) -> DeckRowV {
        DeckRowV {
            id: self.id@,
            name: self.name@,
            code: self.code@,
            release: match self.release {
                Some(t) => Some(t as int),
                None => None,
            },
        }
    }
}

/// What decoding a card row yields: the record, when both identities are
/// canonical; nothing otherwise. The optional mana text is split into its
/// token list; other fields carry over.
pub open spec fn spec_decode_card(r: CardRowV) -> Option<CardV> {
    match (spec_canonical_id(r.id), spec_canonical_id(r.deck_id)) {
        (Some(id), Some(deck_id)) => Some(
            CardV {
                id,
                title: r.title,
                number: r.number,
                description: r.description,
                mana: match r.mana {
                    Some(m) => Some(spec_split(m, spec_mana_delim())),
                    None => None,
                },
                kind: r.kind,
                rarity: r.rarity,
                artist: r.artist,
                power: r.power,
                toughness: r.toughness,
                deck_id,
            },
        ),
        _ => None,
    }
}

/// What decoding a deck row yields: the record, when the identity is
/// canonical; an absent release timestamp defaults to the epoch.
pub open spec fn spec_decode_deck(r: DeckRowV) -> Option<DeckV> {
    match spec_canonical_id(r.id) {
        Some(id) => Some(
            DeckV {
                id,
                name: r.name,
                code: r.code,
                release: match r.release {
                    Some(t) => t,
                    None => 0,
                },
            },
        ),
        None => None,
    }
}

/// Decodes one card row, failing with [`DataError::Decode`] exactly when
/// a required identity is not canonical.
pub fn decode_card_row(row: &CardRow) -> (r: Result<Card, DataError>)
    ensures
        match spec_decode_card(row@) {
            Some(cv) => r matches Ok(c) && c@ == cv,
            None => r == Err::<Card, DataError>(DataError::Decode),
        },
{
    let id_opt = parse_canonical_id(row.id.as_str());
    proof {
        lemma_canonical_id_agrees(row.id@, id_opt);
    }
    let id = match id_opt {
        Some(v) => v,
        None => {
            return Err(DataError::Decode);
        },
    };
    let deck_opt = parse_canonical_id(row.deck_id.as_str());
    proof {
        lemma_canonical_id_agrees(row.deck_id@, deck_opt);
    }
    let deck_id = match deck_opt {
        Some(v) => v,
        None => {
            return Err(DataError::Decode);
        },
    };
    let mana = match &row.mana {
        Some(m) => Some(decode_mana(m.as_str())),
        None => None,
    };
    Ok(
        Card {
            id,
            title: row.title.clone(),
            number: row.number,
            description: clone_opt_string(&row.description),
            mana,
            kind: row.kind.clone(),
            rarity: row.rarity.clone(),
            artist: clone_opt_string(&row.artist),
            power: clone_opt_string(&row.power),
            toughness: clone_opt_string(&row.toughness),
            deck_id,
        },
    )
}

/// Decodes one deck row, failing with [`DataError::Decode`] exactly when
/// the identity is not canonical.
pub fn decode_deck_row(row: &DeckRow) -> (r: Result<Deck, DataError>)
    ensures
        match spec_decode_deck(row@) {
            Some(dv) => r matches Ok(d) && d@ == dv,
            None => r == Err::<Deck, DataError>(DataError::Decode),
        },
{
    let id_opt = parse_canonical_id(row.id.as_str());
    proof {
        lemma_canonical_id_agrees(row.id@, id_opt);
    }
    let id = match id_opt {
        Some(v) => v,
        None => {
            return Err(DataError::Decode);
        },
    };
    let release = match row.release {
        Some(t) => t,
        None => 0,
    };
    Ok(Deck { id, name: row.name.clone(), code: row.code.clone(), release })
}

/// The views of a sequence of card rows.
pub open spec fn spec_card_row_views(s: Seq<CardRow>) -> Seq<CardRowV> {
    s.map_values(|r: CardRow| r@)
}

/// The views of a sequence of deck rows.
pub open spec fn spec_deck_row_views(s: Seq<DeckRow>) -> Seq<DeckRowV> {
    s.map_values(|r: DeckRow| r@)
}

/// What the strict batch decode yields: every record, if every row
/// decodes; nothing as soon as any row fails.
pub open spec fn spec_decode_cards_strict(rs: Seq<CardRowV>) -> Option<Seq<CardV>> {
    if forall|i: int| 0 <= i < rs.len() ==> spec_decode_card(#[trigger] rs[i]) is Some {
        Some(Seq::new(rs.len(), |i: int| spec_decode_card(rs[i])->Some_0))
    } else {
        None
    }
}

/// What the tolerant batch decode yields: the records of the rows that
/// decode, in order, the rest skipped.
pub open spec fn spec_decode_cards_tolerant(rs: Seq<CardRowV>) -> Seq<CardV>
    decreases rs.len(),
{
    if rs.len() == 0 {
        Seq::empty()
    } else {
        spec_decode_cards_tolerant(rs.drop_last()) + (match spec_decode_card(rs.last()) {
            Some(c) => seq![c],
            None => Seq::<CardV>::empty(),
        })
    }
}

/// Strict batch decode: the relational adapter's policy. Any row that
/// fails to decode fails the whole call with [`DataError::Decode`].
pub fn decode_cards_strict(rows: &Vec<CardRow>) -> (r: Result<Vec<Card>, DataError>)
    ensures
        match spec_decode_cards_strict(spec_card_row_views(rows@)) {
            Some(cs) => r matches Ok(v) && crate::model::spec_card_views(v@) == cs,
            None => r == Err::<Vec<Card>, DataError>(DataError::Decode),
        },
{
    let ghost rvs = spec_card_row_views(rows@);
    let mut out: Vec<Card> = Vec::new();
    let n = rows.len();
    let mut i: usize = 0;
    while i < n
        invariant
            0 <= i <= n,
            n == rows.len(),
            rvs == spec_card_row_views(rows@),
            rvs.len() == n,
            out.len() == i,
            forall|k: int| 0 <= k < i ==> spec_decode_card(#[trigger] rvs[k]) is Some,
            forall|k: int|
                0 <= k < i ==> crate::model::spec_card_views(out@)[k] == spec_decode_card(
                    rvs[k],
                )->Some_0,
        decreases n - i,
    {
        let ghost prev = out@;
        match decode_card_row(&rows[i]) {
            Ok(c) => {
                out.push(c);
            },
            Err(e) => {
                assert(spec_decode_card(rvs[i as int]) is None);
                return Err(DataError::Decode);
            },
        }
        proof {
            assert forall|k: int|
                0 <= k < i + 1 implies crate::model::spec_card_views(out@)[k] == spec_decode_card(
                rvs[k],
            )->Some_0 by {
                if k < i {
                    assert(out@[k] == prev[k]);
                    assert(crate::model::spec_card_views(prev)[k] == spec_decode_card(
                        rvs[k],
                    )->Some_0);
                }
            }
        }
        i = i + 1;
    }
    proof {
        let cs = spec_decode_cards_strict(rvs)->Some_0;
        assert(crate::model::spec_card_views(out@) =~= cs);
    }
    Ok(out)
}

/// Tolerant batch decode: the embedded-engine adapter's policy. A row
/// that fails to decode is skipped and counted, never fatal to the whole
/// query.
pub fn decode_cards_tolerant(rows: &Vec<CardRow>) -> (r: (Vec<Card>, usize))
    ensures
        crate::model::spec_card_views(r.0@) == spec_decode_cards_tolerant(
            spec_card_row_views(rows@),
        ),
        r.0@.len() + r.1 == rows@.len(),
{
    let ghost rvs = spec_card_row_views(rows@);
    let mut out: Vec<Card> = Vec::new();
    let mut skipped: usize = 0;
    let n = rows.len();
    let mut i: usize = 0;
    while i < n
        invariant
            0 <= i <= n,
            n == rows.len(),
            rvs == spec_card_row_views(rows@),
            rvs.len() == n,
            out@.len() + skipped == i,
            crate::model::spec_card_views(out@) == spec_decode_cards_tolerant(
                rvs.take(i as int),
            ),
        decreases n - i,
    {
        proof {
            assert(rvs.take(i + 1).drop_last() =~= rvs.take(i as int));
            assert(rvs.take(i + 1).last() == rvs[i as int]);
        }
        let ghost prev = out@;
        match decode_card_row(&rows[i]) {
            Ok(c) => {
                out.push(c);
                proof {
                    assert(crate::model::spec_card_views(out@) =~= crate::model::spec_card_views(
                        prev,
                    ) + seq![out@.last()@]);
                }
            },
            Err(_) => {
                skipped = skipped + 1;
            },
        }
        proof {
            assert(crate::model::spec_card_views(out@) =~= spec_decode_cards_tolerant(
                rvs.take(i + 1),
            ));
        }
        i = i + 1;
    }
    proof {
        assert(rvs.take(n as int) =~= rvs);
    }
    (out, skipped)
}

// ---------------------------------------------------------------------------
// The rows that stand for records, and the decode round trip
// ---------------------------------------------------------------------------
/// The row a backend returns for a given card record: identities in
/// canonical form, the mana list joined flat.
pub open spec fn spec_card_row_of(c: CardV) -> CardRowV {
    CardRowV {
        id: spec_uuid_hyphenated(c.id),
        title: c.title,
        number: c.number,
        description: c.description,
        mana: match c.mana {
            Some(ts) => Some(spec_join(ts, spec_mana_delim())),
            None => None,
        },
        kind: c.kind,
        rarity: c.rarity,
        artist: c.artist,
        power: c.power,
        toughness: c.toughness,
        deck_id: spec_uuid_hyphenated(c.deck_id),
    }
}

/// The row a backend returns for a given deck record.
pub open spec fn spec_deck_row_of(d: DeckV) -> DeckRowV {
    DeckRowV {
        id: spec_uuid_hyphenated(d.id),
        name: d.name,
        code: d.code,
        release: Some(d.release),
    }
}

/// Whether a card's mana list survives the flat encoding: when present it
/// holds at least one token and no token contains the delimiter `", "`.
pub open spec fn spec_card_mana_wf(c: CardV) -> bool {
    match c.mana {
        Some(ts) => ts.len() >= 1 && (forall|k: int|
            0 <= k < ts.len() ==> spec_mana_token_ok(#[trigger] ts[k])),
        None => true,
    }
}

/// Decoding the row that stands for a record yields the record again.
pub proof fn lemma_decode_encoded_card(c: CardV)
    requires
        spec_card_mana_wf(c),
    ensures
        spec_decode_card(spec_card_row_of(c)) == Some(c),
{
    lemma_canonical_of_render(c.id);
    lemma_canonical_of_render(c.deck_id);
    match c.mana {
        Some(ts) => {
            lemma_mana_roundtrip(ts);
        },
        None => {
        },
    }
}

/// Decoding the row that stands for a deck yields the deck again.
pub proof fn lemma_decode_encoded_deck(d: DeckV)
    ensures
        spec_decode_deck(spec_deck_row_of(d)) == Some(d),
{
    lemma_canonical_of_render(d.id);
}

/// The rows that stand for a sequence of records.
pub open spec fn spec_card_rows_of(cs: Seq<CardV>) -> Seq<CardRowV> {
    cs.map_values(|c: CardV| spec_card_row_of(c))
}

/// Backend agreement on rows that stand for records: the strict decode
/// accepts them all and reproduces the records exactly, and the tolerant
/// decode skips none and agrees with it. Given the same underlying
/// records, the relational and embedded-engine decode paths therefore
/// return exactly what the snapshot adapter returns.
pub proof fn lemma_decode_encoded_rows(cs: Seq<CardV>)
    requires
        forall|i: int| 0 <= i < cs.len() ==> spec_card_mana_wf(#[trigger] cs[i]),
    ensures
        spec_decode_cards_strict(spec_card_rows_of(cs)) == Some(cs),
        spec_decode_cards_tolerant(spec_card_rows_of(cs)) == cs,
    decreases cs.len(),
{
    let rows = spec_card_rows_of(cs);
    assert forall|i: int| 0 <= i < rows.len() implies spec_decode_card(#[trigger] rows[i])
        is Some by {
        lemma_decode_encoded_card(cs[i]);
    }
    assert(spec_decode_cards_strict(rows) matches Some(ds) && ds =~= cs) by {
        assert forall|i: int| 0 <= i < rows.len() implies spec_decode_card(rows[i])->Some_0
            == cs[i] by {
            lemma_decode_encoded_card(cs[i]);
        }
    }
    if cs.len() == 0 {
    } else {
        assert(forall|i: int|
            0 <= i < cs.drop_last().len() ==> spec_card_mana_wf(#[trigger] cs.drop_last()[i]));
        lemma_decode_encoded_rows(cs.drop_last());
        assert(rows.drop_last() =~= spec_card_rows_of(cs.drop_last()));
        lemma_decode_encoded_card(cs.last());
        assert(rows.last() == spec_card_row_of(cs.last()));
        assert(spec_decode_cards_tolerant(rows) =~= cs);
    }
}

/// Cross-adapter agreement on a shared dataset: for any filter, the rows
/// that stand for the snapshot semantics' result decode — strictly and
/// tolerantly — to exactly that result. An engine that returns the
/// filtered page window as rows therefore yields, through either decode
/// policy, the same records the snapshot adapter returns.
pub proof fn lemma_adapters_agree(cards: Seq<CardV>, f: crate::model::FindCardsFilter)
    requires
        forall|i: int| 0 <= i < cards.len() ==> spec_card_mana_wf(#[trigger] cards[i]),
    ensures
        spec_decode_cards_strict(spec_card_rows_of(crate::query::spec_find_cards(cards, f)))
            == Some(crate::query::spec_find_cards(cards, f)),
        spec_decode_cards_tolerant(spec_card_rows_of(crate::query::spec_find_cards(cards, f)))
            == crate::query::spec_find_cards(cards, f),
{
    let pred = |c: CardV| crate::query::spec_card_matches(c, f);
    let result = crate::query::spec_find_cards(cards, f);
    let filtered = cards.filter(pred);
    crate::query::lemma_filter_members(cards, pred);
    assert forall|i: int| 0 <= i < result.len() implies spec_card_mana_wf(
        #[trigger] result[i],
    ) by {
        let offset = crate::pagination::spec_page_offset(f.page);
        assert(result[i] == filtered[offset + i]);
        assert(cards.contains(filtered[offset + i]));
        let j = choose|j: int| 0 <= j < cards.len() && cards[j] == filtered[offset + i];
        assert(spec_card_mana_wf(cards[j]));
    }
    lemma_decode_encoded_rows(result);
}

} // verus!
