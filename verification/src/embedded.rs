//! The textual query strategy: the embedded-engine adapter's side.
//!
//! The embedded engine's client offers no parameter binding, so the
//! filter's scalar value is interpolated into the query text. This is a
//! deliberately narrow trust boundary: the only value ever interpolated
//! is an identity, whose rendering is proved to consist of hex digits
//! and hyphens alone ([`lemma_interpolated_identity_is_inert`]), so it
//! cannot close the quoted literal or alter the query structure. The
//! exception is not extended to any other field type, and it is not a
//! defense against arbitrary text: correctness rests on the invariant
//! that filters carry identity values only.

use vstd::prelude::*;

use crate::ids::{
    format_entity_id, lemma_identity_text_is_inert, spec_is_hex_char, spec_is_identity_char,
    spec_uuid_hyphenated, EntityId,
};
use crate::model::{FindCardsFilter, FindDecksFilter};
use crate::pagination::{page_offset, spec_page_offset};
use crate::relational::{spec_cards_select, spec_decks_select};
use crate::text::{format_u64, spec_dec_nat};
use crate::to_sql_query::ToSqlQuery;

verus! {

/// The textual card query: the identity, when present, is interpolated
/// as a quoted literal; the page window is rendered in the text.
impl ToSqlQuery for FindCardsFilter {
    open spec fn spec_sql_query(&self) -> Seq<char> {
        spec_cards_select() + (match self.deck_id {
            Some(d) => " WHERE deck_id = '"@ + spec_uuid_hyphenated(d) + "'"@,
            None => Seq::<char>::empty(),
        }) + " LIMIT 20 OFFSET "@ + spec_dec_nat(spec_page_offset(self.page))
    }

    fn to_sql_query(&self) -> (r: String) {
        let mut text =
            "SELECT id, title, number, description, mana, kind, rarity, artist, power, toughness, deck_id FROM cards".to_owned();
        if let Some(d) = self.deck_id {
            text.append(" WHERE deck_id = '");
            let rendered = format_entity_id(d);
            text.append(rendered.as_str());
            text.append("'");
        }
        text.append(" LIMIT 20 OFFSET ");
        let offset = page_offset(self.page);
        let digits = format_u64(offset);
        text.append(digits.as_str());
        proof {
            assert(text@ =~= self.spec_sql_query());
        }
        text
    }
}

/// The textual deck query.
impl ToSqlQuery for FindDecksFilter {
    open spec fn spec_sql_query(&self) -> Seq<char> {
        spec_decks_select() + (match self.id {
            Some(d) => " WHERE id = '"@ + spec_uuid_hyphenated(d) + "'"@,
            None => Seq::<char>::empty(),
        }) + " LIMIT 20 OFFSET "@ + spec_dec_nat(spec_page_offset(self.page))
    }

    fn to_sql_query(&self) -> (r: String) {
        let mut text = "SELECT id, name, code, release FROM decks".to_owned();
        if let Some(d) = self.id {
            text.append(" WHERE id = '");
            let rendered = format_entity_id(d);
            text.append(rendered.as_str());
            text.append("'");
        }
        text.append(" LIMIT 20 OFFSET ");
        let offset = page_offset(self.page);
        let digits = format_u64(offset);
        text.append(digits.as_str());
        proof {
            assert(text@ =~= self.spec_sql_query());
        }
        text
    }
}

/// The interpolated identity is inert: every character of its rendering
/// is a hex digit or a hyphen — never a quote, and never any other
/// metacharacter — so an identity-typed value cannot terminate the
/// quoted literal it stands in or change the structure of the query
/// around it. This holds for identity values only; nothing here defends
/// against interpolating arbitrary text, by design.
pub proof fn lemma_interpolated_identity_is_inert(v: EntityId)
    ensures
        spec_uuid_hyphenated(v).len() == 36,
        forall|i: int|
            0 <= i < 36 ==> spec_is_identity_char(#[trigger] spec_uuid_hyphenated(v)[i]),
        forall|i: int| 0 <= i < 36 ==> #[trigger] spec_uuid_hyphenated(v)[i] != '\'',
        forall|i: int| 0 <= i < 36 ==> #[trigger] spec_uuid_hyphenated(v)[i] != ';',
{
    lemma_identity_text_is_inert(v);
    assert forall|i: int| 0 <= i < 36 implies #[trigger] spec_uuid_hyphenated(v)[i] != '\''
        && spec_uuid_hyphenated(v)[i] != ';' by {
        let c = spec_uuid_hyphenated(v)[i];
        assert(spec_is_identity_char(c));
        if spec_is_hex_char(c) {
        } else {
            assert(c == '-');
        }
    }
}

} // verus!
