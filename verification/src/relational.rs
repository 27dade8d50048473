//! The bound-parameter query strategy: the relational adapter's side.
//!
//! A query is built incrementally — a `WHERE` clause is appended only
//! when the filter restricts a field — and the page window is always a
//! bound `LIMIT`/`OFFSET` pair computed from the same pagination formula
//! every strategy uses. Values are never interpolated into the text:
//! each `?` placeholder is paired, in order, with a typed parameter.

use vstd::prelude::*;

use crate::ids::EntityId;
use crate::model::{FindCardsFilter, FindDecksFilter};
use crate::pagination::{page_offset, spec_page_offset, PAGE_SIZE};

verus! {

/// One typed value bound to a `?` placeholder.
#[derive(Clone, Copy, Debug, PartialEq, Eq, Structural)]
pub enum SqlParam {
    /// An identity, bound as such — never rendered into the text.
    Id(EntityId),
    /// An integer, here always the page offset.
    Int(i64),
}

/// A query as the relational engine receives it: the text with
/// placeholders, and the values bound to them in placeholder order.
#[derive(Debug)]
pub struct BoundQuery {
    pub text: String,
    pub params: Vec<SqlParam>,
}

/// The column list and table of the card query.
pub open spec fn spec_cards_select() -> Seq<char> {
    "SELECT id, title, number, description, mana, kind, rarity, artist, power, toughness, deck_id FROM cards"@
}

/// The column list and table of the deck query.
pub open spec fn spec_decks_select() -> Seq<char> {
    "SELECT id, name, code, release FROM decks"@
}

/// The text of the bound card query for a filter.
pub open spec fn spec_cards_bound_text(f: FindCardsFilter) -> Seq<char> {
    spec_cards_select() + (match f.deck_id {
        Some(_) => " WHERE deck_id = ?"@,
        None => Seq::<char>::empty(),
    }) + " LIMIT 20 OFFSET ?"@
}

/// The parameters of the bound card query, in placeholder order.
pub open spec fn spec_cards_bound_params(f: FindCardsFilter) -> Seq<SqlParam> {
    (match f.deck_id {
        Some(d) => seq![SqlParam::Id(d)],
        None => Seq::<SqlParam>::empty(),
    }) + seq![SqlParam::Int(spec_page_offset(f.page) as i64)]
}

/// The text of the bound deck query for a filter.
pub open spec fn spec_decks_bound_text(f: FindDecksFilter) -> Seq<char> {
    spec_decks_select() + (match f.id {
        Some(_) => " WHERE id = ?"@,
        None => Seq::<char>::empty(),
    }) + " LIMIT 20 OFFSET ?"@
}

/// The parameters of the bound deck query, in placeholder order.
pub open spec fn spec_decks_bound_params(f: FindDecksFilter) -> Seq<SqlParam> {
    (match f.id {
        Some(d) => seq![SqlParam::Id(d)],
        None => Seq::<SqlParam>::empty(),
    }) + seq![SqlParam::Int(spec_page_offset(f.page) as i64)]
}

/// The page offset fits a signed 64-bit bind value.
proof fn lemma_offset_fits(page: Option<u32>)
    ensures
        spec_page_offset(page) <= (u32::MAX as nat) * (PAGE_SIZE as nat),
{
}

/// Builds the bound card query for a filter.
pub fn cards_query(f: &FindCardsFilter) -> (q: BoundQuery)
    ensures
        q.text@ == spec_cards_bound_text(*f),
        q.params@ == spec_cards_bound_params(*f),
{
    let mut text =
        "SELECT id, title, number, description, mana, kind, rarity, artist, power, toughness, deck_id FROM cards".to_owned();
    let mut params: Vec<SqlParam> = Vec::new();
    if let Some(d) = f.deck_id {
        text.append(" WHERE deck_id = ?");
        params.push(SqlParam::Id(d));
    }
    text.append(" LIMIT 20 OFFSET ?");
    let offset = page_offset(f.page);
    proof {
        lemma_offset_fits(f.page);
    }
    params.push(SqlParam::Int(offset as i64));
    proof {
        assert(text@ =~= spec_cards_bound_text(*f));
        assert(params@ =~= spec_cards_bound_params(*f));
    }
    BoundQuery { text, params }
}

/// Builds the bound deck query for a filter.
pub fn decks_query(f: &FindDecksFilter) -> (q: BoundQuery)
    ensures
        q.text@ == spec_decks_bound_text(*f),
        q.params@ == spec_decks_bound_params(*f),
{
    let mut text = "SELECT id, name, code, release FROM decks".to_owned();
    let mut params: Vec<SqlParam> = Vec::new();
    if let Some(d) = f.id {
        text.append(" WHERE id = ?");
        params.push(SqlParam::Id(d));
    }
    text.append(" LIMIT 20 OFFSET ?");
    let offset = page_offset(f.page);
    proof {
        lemma_offset_fits(f.page);
    }
    params.push(SqlParam::Int(offset as i64));
    proof {
        assert(text@ =~= spec_decks_bound_text(*f));
        assert(params@ =~= spec_decks_bound_params(*f));
    }
    BoundQuery { text, params }
}

} // verus!
