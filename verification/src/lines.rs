//! The flat line serialization of records.
//!
//! The cache tier stores a dataset snapshot as lines of text, one record
//! per line, the record's fields joined by tabs. Optional fields encode
//! absence as the empty field, so a present optional value must be
//! non-empty; no field may contain a tab or a line break, and mana
//! symbols must not contain the token delimiter. Under those constraints
//! — [`spec_card_encodable`] / [`spec_deck_encodable`] — serializing and
//! parsing a record is proved to be a round trip.

use vstd::prelude::*;

use crate::cache::{
    lemma_chunk_roundtrip, spec_chunks, spec_encode_lines, spec_line_delim, spec_line_ok,
    spec_read_outcome,
};
use crate::ids::{
    format_entity_id, lemma_canonical_id_agrees, lemma_canonical_of_render,
    lemma_identity_text_is_inert, parse_canonical_id, spec_canonical_id, spec_is_identity_char,
    spec_uuid_hyphenated,
};
use crate::model::{
    clone_opt_string, decode_mana, encode_mana, lemma_mana_roundtrip, spec_mana_delim,
    spec_mana_token_ok, Card, CardV, Deck, DeckV,
};
use crate::service::DataError;
use crate::text::{
    format_i64, join_strs, lemma_dec_nat_digits, lemma_dec_roundtrip, lemma_join_split_roundtrip,
    parse_i64, spec_contains, spec_dec_int, spec_dec_nat, spec_digit_value, spec_join, spec_match_at,
    spec_parse_i64, spec_split, split_str,
};

verus! {

/// The delimiter between the fields of one serialized record.
pub open spec fn spec_field_delim() -> Seq<char> {
    seq!['\t']
}

/// Whether a character may appear inside a serialized field.
pub open spec fn spec_field_char_ok(c: char) -> bool {
    c != '\t' && c != '\n'
}

/// Whether a text value is safe to store as a field: no tab, no line
/// break.
pub open spec fn spec_field_ok(s: Seq<char>) -> bool {
    forall|i: int| 0 <= i < s.len() ==> spec_field_char_ok(#[trigger] s[i])
}

/// Whether an optional text value encodes unambiguously: when present it
/// is non-empty (the empty field means absent) and field-safe.
pub open spec fn spec_opt_field_ok(o: Option<Seq<char>>) -> bool {
    match o {
        Some(s) => s.len() >= 1 && spec_field_ok(s),
        None => true,
    }
}

/// Whether one mana symbol survives the flat encoding: non-empty,
/// field-safe, and free of the token delimiter `", "`.
pub open spec fn spec_mana_symbol_ok(t: Seq<char>) -> bool {
    t.len() >= 1 && spec_field_ok(t) && spec_mana_token_ok(t)
}

/// Whether a card survives the line encoding.
pub open spec fn spec_card_encodable(c: CardV) -> bool {
    &&& spec_field_ok(c.title)
    &&& spec_field_ok(c.kind)
    &&& spec_field_ok(c.rarity)
    &&& spec_opt_field_ok(c.description)
    &&& spec_opt_field_ok(c.artist)
    &&& spec_opt_field_ok(c.power)
    &&& spec_opt_field_ok(c.toughness)
    &&& (match c.mana {
        Some(ts) => ts.len() >= 1 && (forall|k: int|
            0 <= k < ts.len() ==> spec_mana_symbol_ok(#[trigger] ts[k])),
        None => true,
    })
    &&& i64::MIN <= c.number <= i64::MAX
}

/// Whether a deck survives the line encoding.
pub open spec fn spec_deck_encodable(d: DeckV) -> bool {
    &&& spec_field_ok(d.name)
    &&& spec_field_ok(d.code)
    &&& i64::MIN <= d.release <= i64::MAX
}

/// An optional text value as a field: the value, or the empty field.
pub open spec fn spec_opt_field(o: Option<Seq<char>>) -> Seq<char> {
    match o {
        Some(s) => s,
        None => Seq::empty(),
    }
}

/// An optional value read back from a field: empty means absent.
pub open spec fn spec_opt_of_field(s: Seq<char>) -> Option<Seq<char>> {
    if s.len() == 0 {
        None
    } else {
        Some(s)
    }
}

/// The eleven fields of a card's line, in column order.
pub open spec fn spec_card_fields(c: CardV) -> Seq<Seq<char>> {
    seq![
        spec_uuid_hyphenated(c.id),
        c.title,
        spec_dec_int(c.number),
        spec_opt_field(c.description),
        (match c.mana {
            Some(ts) => spec_join(ts, spec_mana_delim()),
            None => Seq::<char>::empty(),
        }),
        c.kind,
        c.rarity,
        spec_opt_field(c.artist),
        spec_opt_field(c.power),
        spec_opt_field(c.toughness),
        spec_uuid_hyphenated(c.deck_id),
    ]
}

/// One card as one line: its fields joined by tabs.
pub open spec fn spec_card_line(c: CardV) -> Seq<char> {
    spec_join(spec_card_fields(c), spec_field_delim())
}

/// The four fields of a deck's line, in column order.
pub open spec fn spec_deck_fields(d: DeckV) -> Seq<Seq<char>> {
    seq![spec_uuid_hyphenated(d.id), d.name, d.code, spec_dec_int(d.release)]
}

/// One deck as one line.
pub open spec fn spec_deck_line(d: DeckV) -> Seq<char> {
    spec_join(spec_deck_fields(d), spec_field_delim())
}

/// What parsing one card line yields.
pub open spec fn spec_card_from_line(l: Seq<char>) -> Option<CardV> {
    let fs = spec_split(l, spec_field_delim());
    if fs.len() != 11 {
        None
    } else {
        match (spec_canonical_id(fs[0]), spec_canonical_id(fs[10]), spec_parse_i64(fs[2])) {
            (Some(id), Some(deck_id), Some(num)) => Some(
                CardV {
                    id,
                    title: fs[1],
                    number: num as int,
                    description: spec_opt_of_field(fs[3]),
                    mana: if fs[4].len() == 0 {
                        None
                    } else {
                        Some(spec_split(fs[4], spec_mana_delim()))
                    },
                    kind: fs[5],
                    rarity: fs[6],
                    artist: spec_opt_of_field(fs[7]),
                    power: spec_opt_of_field(fs[8]),
                    toughness: spec_opt_of_field(fs[9]),
                    deck_id,
                },
            ),
            _ => None,
        }
    }
}

/// What parsing one deck line yields.
pub open spec fn spec_deck_from_line(l: Seq<char>) -> Option<DeckV> {
    let fs = spec_split(l, spec_field_delim());
    if fs.len() != 4 {
        None
    } else {
        match (spec_canonical_id(fs[0]), spec_parse_i64(fs[3])) {
            (Some(id), Some(release)) => Some(
                DeckV { id, name: fs[1], code: fs[2], release: release as int },
            ),
            _ => None,
        }
    }
}

fn opt_field(o: &Option<String>) -> (r: String)
    ensures
        r@ == spec_opt_field(
            match o {
                Some(s) => Some(s@),
                None => None,
            },
        ),
{
    match o {
        Some(s) => s.clone(),
        None => String::new(),
    }
}

/// Serializes one card as one tab-separated line.
pub fn card_to_line(c: &Card) -> (l: String)
    ensures
        l@ == spec_card_line(c@),
{
    let mut fields: Vec<String> = Vec::new();
    fields.push(format_entity_id(c.id));
    fields.push(c.title.clone());
    fields.push(format_i64(c.number));
    fields.push(opt_field(&c.description));
    fields.push(
        match &c.mana {
            Some(ts) => encode_mana(ts),
            None => String::new(),
        },
    );
    fields.push(c.kind.clone());
    fields.push(c.rarity.clone());
    fields.push(opt_field(&c.artist));
    fields.push(opt_field(&c.power));
    fields.push(opt_field(&c.toughness));
    fields.push(format_entity_id(c.deck_id));
    proof {
        reveal_strlit("\t");
        assert("\t"@ =~= spec_field_delim());
        assert(fields.deep_view() =~= spec_card_fields(c@));
    }
    join_strs(&fields, "\t")
}

/// Serializes one deck as one tab-separated line.
pub fn deck_to_line(d: &Deck) -> (l: String)
    ensures
        l@ == spec_deck_line(d@),
{
    let mut fields: Vec<String> = Vec::new();
    fields.push(format_entity_id(d.id));
    fields.push(d.name.clone());
    fields.push(d.code.clone());
    fields.push(format_i64(d.release));
    proof {
        reveal_strlit("\t");
        assert("\t"@ =~= spec_field_delim());
        assert(fields.deep_view() =~= spec_deck_fields(d@));
    }
    join_strs(&fields, "\t")
}

fn opt_of_field(s: &String) -> (r: Option<String>)
    ensures
        match spec_opt_of_field(s@) {
            Some(t) => r matches Some(v) && v@ == t,
            None => r is None,
        },
{
    if s.as_str().unicode_len() == 0 {
        None
    } else {
        Some(s.clone())
    }
}

/// Parses one card line, failing with [`DataError::Decode`] on any line
/// that no card serializes to.
pub fn card_from_line(l: &str) -> (r: Result<Card, DataError>)
    ensures
        match spec_card_from_line(l@) {
            Some(cv) => r matches Ok(c) && c@ == cv,
            None => r == Err::<Card, DataError>(DataError::Decode),
        },
{
    proof {
        reveal_strlit("\t");
        assert("\t"@ =~= spec_field_delim());
    }
    let fields = split_str(l, "\t");
    if fields.len() != 11 {
        return Err(DataError::Decode);
    }
    let id_opt = parse_canonical_id(fields[0].as_str());
    proof {
        lemma_canonical_id_agrees(fields[0]@, id_opt);
    }
    let id = match id_opt {
        Some(v) => v,
        None => {
            return Err(DataError::Decode);
        },
    };
    let deck_opt = parse_canonical_id(fields[10].as_str());
    proof {
        lemma_canonical_id_agrees(fields[10]@, deck_opt);
    }
    let deck_id = match deck_opt {
        Some(v) => v,
        None => {
            return Err(DataError::Decode);
        },
    };
    let number = match parse_i64(fields[2].as_str()) {
        Some(n) => n,
        None => {
            return Err(DataError::Decode);
        },
    };
    let mana = if fields[4].as_str().unicode_len() == 0 {
        None
    } else {
        Some(decode_mana(fields[4].as_str()))
    };
    Ok(
        Card {
            id,
            title: fields[1].clone(),
            number,
            description: opt_of_field(&fields[3]),
            mana,
            kind: fields[5].clone(),
            rarity: fields[6].clone(),
            artist: opt_of_field(&fields[7]),
            power: opt_of_field(&fields[8]),
            toughness: opt_of_field(&fields[9]),
            deck_id,
        },
    )
}

/// Parses one deck line, failing with [`DataError::Decode`] on any line
/// that no deck serializes to.
pub fn deck_from_line(l: &str) -> (r: Result<Deck, DataError>)
    ensures
        match spec_deck_from_line(l@) {
            Some(dv) => r matches Ok(d) && d@ == dv,
            None => r == Err::<Deck, DataError>(DataError::Decode),
        },
{
    proof {
        reveal_strlit("\t");
        assert("\t"@ =~= spec_field_delim());
    }
    let fields = split_str(l, "\t");
    if fields.len() != 4 {
        return Err(DataError::Decode);
    }
    let id_opt = parse_canonical_id(fields[0].as_str());
    proof {
        lemma_canonical_id_agrees(fields[0]@, id_opt);
    }
    let id = match id_opt {
        Some(v) => v,
        None => {
            return Err(DataError::Decode);
        },
    };
    let release = match parse_i64(fields[3].as_str()) {
        Some(n) => n,
        None => {
            return Err(DataError::Decode);
        },
    };
    Ok(Deck { id, name: fields[1].clone(), code: fields[2].clone(), release })
}

// ---------------------------------------------------------------------------
// Round trip
// ---------------------------------------------------------------------------
/// A field-safe text contains neither the field nor the line delimiter.
proof fn lemma_field_ok_no_delim(s: Seq<char>)
    requires
        spec_field_ok(s),
    ensures
        !spec_contains(s, spec_field_delim()),
        !spec_contains(s, spec_line_delim()),
{
    if spec_contains(s, spec_field_delim()) {
        let i = choose|i: int| spec_match_at(s, spec_field_delim(), i);
        assert(s.subrange(i, i + 1) == spec_field_delim());
        assert(s.subrange(i, i + 1)[0] == s[i]);
    }
    if spec_contains(s, spec_line_delim()) {
        let i = choose|i: int| spec_match_at(s, spec_line_delim(), i);
        assert(s.subrange(i, i + 1) == spec_line_delim());
        assert(s.subrange(i, i + 1)[0] == s[i]);
    }
}

/// An identity rendering is field-safe: hex digits and hyphens only.
proof fn lemma_identity_field_ok(v: u128)
    ensures
        spec_field_ok(spec_uuid_hyphenated(v)),
{
    lemma_identity_text_is_inert(v);
    assert forall|i: int|
        0 <= i < spec_uuid_hyphenated(v).len() implies spec_field_char_ok(
        #[trigger] spec_uuid_hyphenated(v)[i],
    ) by {
        assert(spec_is_identity_char(spec_uuid_hyphenated(v)[i]));
    }
}

/// A decimal rendering is field-safe: digits and a possible sign only.
proof fn lemma_dec_field_ok(n: int)
    ensures
        spec_field_ok(spec_dec_int(n)),
{
    let s = spec_dec_int(n);
    if n >= 0 {
        lemma_dec_nat_digits(n as nat);
        assert forall|i: int| 0 <= i < s.len() implies spec_field_char_ok(#[trigger] s[i]) by {
            assert(spec_digit_value(s[i]) >= 0);
        }
    } else {
        lemma_dec_nat_digits((-n) as nat);
        let m = spec_dec_nat((-n) as nat);
        assert forall|i: int| 0 <= i < s.len() implies spec_field_char_ok(#[trigger] s[i]) by {
            if i == 0 {
                assert(s[0] == '-');
            } else {
                assert(s[i] == m[i - 1]);
                assert(spec_digit_value(m[i - 1]) >= 0);
            }
        }
    }
}

/// A join of field-safe segments over the token delimiter is field-safe.
proof fn lemma_join_field_ok(ts: Seq<Seq<char>>)
    requires
        forall|k: int| 0 <= k < ts.len() ==> spec_field_ok(#[trigger] ts[k]),
    ensures
        spec_field_ok(spec_join(ts, spec_mana_delim())),
    decreases ts.len(),
{
    let d = spec_mana_delim();
    let s = spec_join(ts, d);
    if ts.len() == 0 {
    } else if ts.len() == 1 {
        assert(s == ts[0]);
    } else {
        assert(forall|k: int| 0 <= k < ts.skip(1).len() ==> spec_field_ok(#[trigger] ts.skip(1)[k]));
        lemma_join_field_ok(ts.skip(1));
        let rest = spec_join(ts.skip(1), d);
        assert(s == ts[0] + d + rest);
        assert forall|i: int| 0 <= i < s.len() implies spec_field_char_ok(#[trigger] s[i]) by {
            if i < ts[0].len() {
                assert(s[i] == ts[0][i]);
            } else if i < ts[0].len() + 2 {
                assert(s[i] == d[i - ts[0].len()]);
            } else {
                assert(s[i] == rest[i - ts[0].len() - 2]);
            }
        }
    }
}

/// Every field of an encodable card is field-safe.
proof fn lemma_card_fields_ok(c: CardV)
    requires
        spec_card_encodable(c),
    ensures
        forall|k: int|
            0 <= k < spec_card_fields(c).len() ==> spec_field_ok(#[trigger] spec_card_fields(c)[k]),
{
    lemma_identity_field_ok(c.id);
    lemma_identity_field_ok(c.deck_id);
    lemma_dec_field_ok(c.number);
    match c.mana {
        Some(ts) => {
            assert(forall|k: int| 0 <= k < ts.len() ==> spec_field_ok(#[trigger] ts[k]));
            lemma_join_field_ok(ts);
        },
        None => {
        },
    }
    let fs = spec_card_fields(c);
    assert forall|k: int| 0 <= k < fs.len() implies spec_field_ok(#[trigger] fs[k]) by {
        assert(fs[0] == spec_uuid_hyphenated(c.id));
        assert(fs[1] == c.title);
        assert(fs[2] == spec_dec_int(c.number));
        assert(fs[3] == spec_opt_field(c.description));
        assert(fs[5] == c.kind);
        assert(fs[6] == c.rarity);
        assert(fs[7] == spec_opt_field(c.artist));
        assert(fs[8] == spec_opt_field(c.power));
        assert(fs[9] == spec_opt_field(c.toughness));
        assert(fs[10] == spec_uuid_hyphenated(c.deck_id));
    }
}

/// A line of field-safe fields is safe for the cache: it contains no
/// line delimiter.
proof fn lemma_fields_line_ok(fs: Seq<Seq<char>>)
    requires
        fs.len() >= 1,
        forall|k: int| 0 <= k < fs.len() ==> spec_field_ok(#[trigger] fs[k]),
    ensures
        spec_line_ok(spec_join(fs, spec_field_delim())),
    decreases fs.len(),
{
    let d = spec_field_delim();
    let s = spec_join(fs, d);
    if fs.len() == 1 {
        assert(s == fs[0]);
        lemma_field_ok_no_delim(fs[0]);
    } else {
        assert(forall|k: int| 0 <= k < fs.skip(1).len() ==> spec_field_ok(#[trigger] fs.skip(1)[k]));
        lemma_fields_line_ok(fs.skip(1));
        let rest = spec_join(fs.skip(1), d);
        assert(s == fs[0] + d + rest);
        if spec_contains(s, spec_line_delim()) {
            let i = choose|i: int| spec_match_at(s, spec_line_delim(), i);
            assert(s.subrange(i, i + 1) == spec_line_delim());
            assert(s.subrange(i, i + 1)[0] == s[i]);
            assert(s[i] == '\n');
            if i < fs[0].len() {
                assert(s[i] == fs[0][i]);
            } else if i < fs[0].len() + 1 {
                assert(s[i] == d[0]);
            } else {
                assert(s[i] == rest[i - fs[0].len() - 1]);
                let j = i - fs[0].len() - 1;
                assert(rest.subrange(j, j + 1) =~= spec_line_delim());
                assert(spec_match_at(rest, spec_line_delim(), j));
            }
        }
    }
}

/// Serializing an encodable card and parsing the line back yields the
/// card again, and the line is safe to store in the cache.
pub proof fn lemma_card_line_roundtrip(c: CardV)
    requires
        spec_card_encodable(c),
    ensures
        spec_card_from_line(spec_card_line(c)) == Some(c),
        spec_line_ok(spec_card_line(c)),
{
    let fs = spec_card_fields(c);
    lemma_card_fields_ok(c);
    assert forall|k: int| 0 <= k < fs.len() implies !spec_contains(
        #[trigger] fs[k],
        spec_field_delim(),
    ) by {
        lemma_field_ok_no_delim(fs[k]);
    }
    lemma_join_split_roundtrip(fs, spec_field_delim());
    lemma_fields_line_ok(fs);
    lemma_canonical_of_render(c.id);
    lemma_canonical_of_render(c.deck_id);
    lemma_dec_roundtrip(c.number);
    match c.mana {
        Some(ts) => {
            lemma_mana_roundtrip(ts);
            assert(spec_join(ts, spec_mana_delim()).len() >= 1) by {
                if ts.len() == 1 {
                    assert(spec_join(ts, spec_mana_delim()) == ts[0]);
                } else {
                    assert(spec_join(ts, spec_mana_delim()) == ts[0] + spec_mana_delim()
                        + spec_join(ts.skip(1), spec_mana_delim()));
                }
                assert(spec_mana_symbol_ok(ts[0]));
            }
        },
        None => {
        },
    }
}

/// The lines of a card dataset, one card per line, in dataset order.
pub open spec fn spec_cards_lines(cs: Seq<CardV>) -> Seq<Seq<char>> {
    cs.map_values(|c: CardV| spec_card_line(c))
}

/// What parsing a card dataset's lines yields: every card, if every line
/// parses; nothing as soon as any line fails.
pub open spec fn spec_cards_from_lines(ls: Seq<Seq<char>>) -> Option<Seq<CardV>> {
    if forall|i: int| 0 <= i < ls.len() ==> spec_card_from_line(#[trigger] ls[i]) is Some {
        Some(Seq::new(ls.len(), |i: int| spec_card_from_line(ls[i])->Some_0))
    } else {
        None
    }
}

/// The lines of a deck dataset.
pub open spec fn spec_decks_lines(ds: Seq<DeckV>) -> Seq<Seq<char>> {
    ds.map_values(|d: DeckV| spec_deck_line(d))
}

/// What parsing a deck dataset's lines yields.
pub open spec fn spec_decks_from_lines(ls: Seq<Seq<char>>) -> Option<Seq<DeckV>> {
    if forall|i: int| 0 <= i < ls.len() ==> spec_deck_from_line(#[trigger] ls[i]) is Some {
        Some(Seq::new(ls.len(), |i: int| spec_deck_from_line(ls[i])->Some_0))
    } else {
        None
    }
}

/// Serializes a card dataset, one line per card.
pub fn cards_to_lines(cards: &Vec<Card>) -> (r: Vec<String>)
    ensures
        r.deep_view() == spec_cards_lines(crate::model::spec_card_views(cards@)),
{
    let mut out: Vec<String> = Vec::new();
    let n = cards.len();
    let mut i: usize = 0;
    while i < n
        invariant
            0 <= i <= n,
            n == cards@.len(),
            out@.len() == i,
            forall|k: int| 0 <= k < i ==> (#[trigger] out@[k])@ == spec_card_line(cards@[k]@),
        decreases n - i,
    {
        let ghost prev = out@;
        out.push(card_to_line(&cards[i]));
        proof {
            assert forall|k: int| 0 <= k < i + 1 implies (#[trigger] out@[k])@ == spec_card_line(
                cards@[k]@,
            ) by {
                if k < i {
                    assert(out@[k] == prev[k]);
                }
            }
        }
        i = i + 1;
    }
    proof {
        assert(out.deep_view() =~= spec_cards_lines(crate::model::spec_card_views(cards@)));
    }
    out
}

/// Serializes a deck dataset, one line per deck.
pub fn decks_to_lines(decks: &Vec<Deck>) -> (r: Vec<String>)
    ensures
        r.deep_view() == spec_decks_lines(crate::model::spec_deck_views(decks@)),
{
    let mut out: Vec<String> = Vec::new();
    let n = decks.len();
    let mut i: usize = 0;
    while i < n
        invariant
            0 <= i <= n,
            n == decks@.len(),
            out@.len() == i,
            forall|k: int| 0 <= k < i ==> (#[trigger] out@[k])@ == spec_deck_line(decks@[k]@),
        decreases n - i,
    {
        let ghost prev = out@;
        out.push(deck_to_line(&decks[i]));
        proof {
            assert forall|k: int| 0 <= k < i + 1 implies (#[trigger] out@[k])@ == spec_deck_line(
                decks@[k]@,
            ) by {
                if k < i {
                    assert(out@[k] == prev[k]);
                }
            }
        }
        i = i + 1;
    }
    proof {
        assert(out.deep_view() =~= spec_decks_lines(crate::model::spec_deck_views(decks@)));
    }
    out
}

/// Parses a card dataset from its lines; any unparsable line fails the
/// whole dataset, so a corrupt cache is refetched rather than partially
/// trusted.
pub fn cards_from_lines(lines: &Vec<String>) -> (r: Result<Vec<Card>, DataError>)
    ensures
        match spec_cards_from_lines(lines.deep_view()) {
            Some(cs) => r matches Ok(v) && crate::model::spec_card_views(v@) == cs,
            None => r == Err::<Vec<Card>, DataError>(DataError::Decode),
        },
{
    let ghost ls = lines.deep_view();
    let mut out: Vec<Card> = Vec::new();
    let n = lines.len();
    let mut i: usize = 0;
    while i < n
        invariant
            0 <= i <= n,
            n == lines@.len(),
            ls == lines.deep_view(),
            ls.len() == n,
            out@.len() == i,
            forall|k: int| 0 <= k < i ==> spec_card_from_line(#[trigger] ls[k]) is Some,
            forall|k: int|
                0 <= k < i ==> crate::model::spec_card_views(out@)[k] == spec_card_from_line(
                    ls[k],
                )->Some_0,
        decreases n - i,
    {
        let ghost prev = out@;
        match card_from_line(lines[i].as_str()) {
            Ok(c) => {
                out.push(c);
            },
            Err(_) => {
                assert(spec_card_from_line(ls[i as int]) is None);
                return Err(DataError::Decode);
            },
        }
        proof {
            assert forall|k: int|
                0 <= k < i + 1 implies crate::model::spec_card_views(out@)[k]
                == spec_card_from_line(ls[k])->Some_0 by {
                if k < i {
                    assert(out@[k] == prev[k]);
                    assert(crate::model::spec_card_views(prev)[k] == spec_card_from_line(
                        ls[k],
                    )->Some_0);
                }
            }
        }
        i = i + 1;
    }
    proof {
        let cs = spec_cards_from_lines(ls)->Some_0;
        assert(crate::model::spec_card_views(out@) =~= cs);
    }
    Ok(out)
}

/// Parses a deck dataset from its lines.
pub fn decks_from_lines(lines: &Vec<String>) -> (r: Result<Vec<Deck>, DataError>)
    ensures
        match spec_decks_from_lines(lines.deep_view()) {
            Some(ds) => r matches Ok(v) && crate::model::spec_deck_views(v@) == ds,
            None => r == Err::<Vec<Deck>, DataError>(DataError::Decode),
        },
{
    let ghost ls = lines.deep_view();
    let mut out: Vec<Deck> = Vec::new();
    let n = lines.len();
    let mut i: usize = 0;
    while i < n
        invariant
            0 <= i <= n,
            n == lines@.len(),
            ls == lines.deep_view(),
            ls.len() == n,
            out@.len() == i,
            forall|k: int| 0 <= k < i ==> spec_deck_from_line(#[trigger] ls[k]) is Some,
            forall|k: int|
                0 <= k < i ==> crate::model::spec_deck_views(out@)[k] == spec_deck_from_line(
                    ls[k],
                )->Some_0,
        decreases n - i,
    {
        let ghost prev = out@;
        match deck_from_line(lines[i].as_str()) {
            Ok(d) => {
                out.push(d);
            },
            Err(_) => {
                assert(spec_deck_from_line(ls[i as int]) is None);
                return Err(DataError::Decode);
            },
        }
        proof {
            assert forall|k: int|
                0 <= k < i + 1 implies crate::model::spec_deck_views(out@)[k]
                == spec_deck_from_line(ls[k])->Some_0 by {
                if k < i {
                    assert(out@[k] == prev[k]);
                    assert(crate::model::spec_deck_views(prev)[k] == spec_deck_from_line(
                        ls[k],
                    )->Some_0);
                }
            }
        }
        i = i + 1;
    }
    proof {
        let ds = spec_decks_from_lines(ls)->Some_0;
        assert(crate::model::spec_deck_views(out@) =~= ds);
    }
    Ok(out)
}

/// Rebuilds the card dataset from the text a cache hit reassembled.
pub fn cards_from_cache_text(text: &str) -> (r: Result<Vec<Card>, DataError>)
    ensures
        match spec_cards_from_lines(crate::cache::spec_decode_lines(text@)) {
            Some(cs) => r matches Ok(v) && crate::model::spec_card_views(v@) == cs,
            None => r == Err::<Vec<Card>, DataError>(DataError::Decode),
        },
{
    let ls = crate::cache::decode_lines(text);
    cards_from_lines(&ls)
}

/// Rebuilds the deck dataset from the text a cache hit reassembled.
pub fn decks_from_cache_text(text: &str) -> (r: Result<Vec<Deck>, DataError>)
    ensures
        match spec_decks_from_lines(crate::cache::spec_decode_lines(text@)) {
            Some(ds) => r matches Ok(v) && crate::model::spec_deck_views(v@) == ds,
            None => r == Err::<Vec<Deck>, DataError>(DataError::Decode),
        },
{
    let ls = crate::cache::decode_lines(text);
    decks_from_lines(&ls)
}

/// Dataset round trip: the lines of an encodable card dataset all parse,
/// reproduce the dataset exactly, and are all safe for the cache.
pub proof fn lemma_cards_lines_roundtrip(cs: Seq<CardV>)
    requires
        forall|i: int| 0 <= i < cs.len() ==> spec_card_encodable(#[trigger] cs[i]),
    ensures
        spec_cards_from_lines(spec_cards_lines(cs)) == Some(cs),
        forall|i: int| 0 <= i < cs.len() ==> spec_line_ok(#[trigger] spec_cards_lines(cs)[i]),
{
    let ls = spec_cards_lines(cs);
    assert forall|i: int| 0 <= i < cs.len() implies spec_line_ok(#[trigger] ls[i])
        && spec_card_from_line(ls[i]) == Some(cs[i]) by {
        lemma_card_line_roundtrip(cs[i]);
    }
    assert(spec_cards_from_lines(ls) matches Some(r) && r =~= cs);
}

/// The whole cache round trip of a non-empty card dataset: serialize
/// the records to lines, split the lines into chunks, store and read
/// every chunk back in index order — the read path reports a hit, and
/// the text it reassembles parses back to exactly the original records.
/// (The empty dataset instead reads back as a miss by design: the cache
/// never reports a usable empty snapshot.)
pub proof fn lemma_cache_dataset_roundtrip(
    cs: Seq<CardV>,
    per: nat,
    reads: Seq<Option<Seq<char>>>,
)
    requires
        per >= 1,
        cs.len() >= 1,
        forall|i: int| 0 <= i < cs.len() ==> spec_card_encodable(#[trigger] cs[i]),
        reads.len() >= spec_chunks(spec_cards_lines(cs), per).len(),
        forall|i: int|
            0 <= i < spec_chunks(spec_cards_lines(cs), per).len() ==> reads[i] == Some(
                #[trigger] spec_chunks(spec_cards_lines(cs), per)[i],
            ),
    ensures
        spec_read_outcome(reads, per) == Some(spec_encode_lines(spec_cards_lines(cs))),
        spec_cards_from_lines(crate::cache::spec_decode_lines(spec_encode_lines(spec_cards_lines(cs))))
            == Some(cs),
{
    let ls = spec_cards_lines(cs);
    lemma_cards_lines_roundtrip(cs);
    lemma_chunk_roundtrip(ls, per, reads);
    assert(spec_encode_lines(ls).len() >= 1) by {
        assert(spec_encode_lines(ls) == ls[0] + spec_line_delim() + spec_encode_lines(ls.skip(1)));
    }
}

/// Dataset round trip for decks.
pub proof fn lemma_decks_lines_roundtrip(ds: Seq<DeckV>)
    requires
        forall|i: int| 0 <= i < ds.len() ==> spec_deck_encodable(#[trigger] ds[i]),
    ensures
        spec_decks_from_lines(spec_decks_lines(ds)) == Some(ds),
        forall|i: int| 0 <= i < ds.len() ==> spec_line_ok(#[trigger] spec_decks_lines(ds)[i]),
{
    let ls = spec_decks_lines(ds);
    assert forall|i: int| 0 <= i < ds.len() implies spec_line_ok(#[trigger] ls[i])
        && spec_deck_from_line(ls[i]) == Some(ds[i]) by {
        lemma_deck_line_roundtrip(ds[i]);
    }
    assert(spec_decks_from_lines(ls) matches Some(r) && r =~= ds);
}

/// Serializing an encodable deck and parsing the line back yields the
/// deck again, and the line is safe to store in the cache.
pub proof fn lemma_deck_line_roundtrip(d: DeckV)
    requires
        spec_deck_encodable(d),
    ensures
        spec_deck_from_line(spec_deck_line(d)) == Some(d),
        spec_line_ok(spec_deck_line(d)),
{
    let fs = spec_deck_fields(d);
    lemma_identity_field_ok(d.id);
    lemma_dec_field_ok(d.release);
    assert forall|k: int| 0 <= k < fs.len() implies spec_field_ok(#[trigger] fs[k]) by {
        assert(fs[0] == spec_uuid_hyphenated(d.id));
        assert(fs[1] == d.name);
        assert(fs[2] == d.code);
        assert(fs[3] == spec_dec_int(d.release));
    }
    assert forall|k: int| 0 <= k < fs.len() implies !spec_contains(
        #[trigger] fs[k],
        spec_field_delim(),
    ) by {
        lemma_field_ok_no_delim(fs[k]);
    }
    lemma_join_split_roundtrip(fs, spec_field_delim());
    lemma_fields_line_ok(fs);
    lemma_canonical_of_render(d.id);
    lemma_dec_roundtrip(d.release);
}

} // verus!
