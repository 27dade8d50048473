//! The data-access contract and the service that fronts it.
//!
//! [`MtgDataAccessLayer`] is the capability set every backend adapter
//! implements: card queries, deck queries and image lookups. An adapter
//! declares its dataset as a spec-level model, and its query methods must
//! return exactly the reference semantics of that model. [`MtgService`]
//! forwards to whichever adapter it was wired with.

use vstd::prelude::*;

use std::sync::Arc;

use crate::model::{
    spec_card_views, spec_deck_views, Card, Deck, FindCardsFilter, FindDecksFilter,
    FindImageFilter,
};
use crate::model::{CardV, DeckV};
use crate::query::{spec_find_cards, spec_find_decks};

verus! {

/// The single discriminated error value every core failure maps to.
#[derive(Clone, Copy, Debug, PartialEq, Eq, Structural)]
pub enum DataError {
    /// A malformed identity value in a filter, rejected before querying.
    Input,
    /// A connection or query execution failure, propagated as-is.
    Adapter,
    /// A row failed to parse into a record.
    Decode,
    /// A cache chunk could not be written or read back.
    Cache,
    /// An image lookup with missing keys or a non-success remote response.
    NotFound,
}

/// The description of an error variant.
pub open spec fn spec_error_message(e: DataError) -> Seq<char> {
    match e {
        DataError::Input => "malformed identity value"@,
        DataError::Adapter => "backend query failed"@,
        DataError::Decode => "row failed to decode into a record"@,
        DataError::Cache => "cache chunk could not be stored or read"@,
        DataError::NotFound => "not found"@,
    }
}

impl DataError {
    /// A human-readable description of the error.
    pub fn message(&self) -> (r: String)
        ensures
            r@ == spec_error_message(*self),
    {
        match self {
            DataError::Input => "malformed identity value".to_owned(),
            DataError::Adapter => "backend query failed".to_owned(),
            DataError::Decode => "row failed to decode into a record".to_owned(),
            DataError::Cache => "cache chunk could not be stored or read".to_owned(),
            DataError::NotFound => "not found".to_owned(),
        }
    }
}

/// The capability set of a backend adapter. An implementation answers
/// from the card and deck datasets its spec-level model declares, and a
/// successful query returns exactly the reference semantics
/// ([`spec_find_cards`] / [`spec_find_decks`]) of that model. The
/// availability flags say when success is owed: an adapter with no
/// failure mode (such as the in-memory snapshot) sets them, and its
/// queries then cannot fail.
pub trait MtgDataAccessLayer: Sized {
    /// The card dataset this adapter answers card queries from.
    spec fn cards_model(&self) -> Seq<CardV>;

    /// The deck dataset this adapter answers deck queries from.
    spec fn decks_model(&self) -> Seq<DeckV>;

    /// Whether card queries are owed success.
    spec fn cards_available(&self) -> bool;

    /// Whether deck queries are owed success.
    spec fn decks_available(&self) -> bool;

    /// Returns the page window of the cards matching the filter.
    fn find_cards(&self, filter: FindCardsFilter) -> (r: Result<Vec<Card>, DataError>)
        ensures
            r matches Ok(cs) ==> spec_card_views(cs@) == spec_find_cards(
                self.cards_model(),
                filter,
            ),
            self.cards_available() ==> r is Ok,
    ;

    /// Returns the page window of the decks matching the filter.
    fn find_decks(&self, filter: FindDecksFilter) -> (r: Result<Vec<Deck>, DataError>)
        ensures
            r matches Ok(ds) ==> spec_deck_views(ds@) == spec_find_decks(
                self.decks_model(),
                filter,
            ),
            self.decks_available() ==> r is Ok,
    ;

    /// Returns the image bytes for the card the filter names; fails with
    /// [`DataError::NotFound`] when either identity is absent, so success
    /// always names a card.
    fn find_image(&self, filter: FindImageFilter) -> (r: Result<Vec<u8>, DataError>)
        ensures
            filter.card is None ==> r == Err::<Vec<u8>, DataError>(DataError::NotFound),
            r is Ok ==> filter.card is Some,
    ;
}

/// The domain service: a thin front over one wired backend adapter.
pub struct MtgService<T: MtgDataAccessLayer> {
    repo: Arc<T>,
}

impl<T: MtgDataAccessLayer> MtgService<T> {
    /// The adapter this service answers from.
    pub closed spec fn spec_repo(&self) -> Arc<T> {
        self.repo
    }

    /// Wires a service to an adapter.
    pub fn new(repo: Arc<T>) -> (s: Self)
        ensures
            s.spec_repo() == repo,
    {
        MtgService { repo }
    }

    /// Returns the page window of the cards matching the filter.
    pub fn get_cards(&self, filter: FindCardsFilter) -> (r: Result<Vec<Card>, DataError>)
        ensures
            r matches Ok(cs) ==> spec_card_views(cs@) == spec_find_cards(
                self.spec_repo().cards_model(),
                filter,
            ),
            self.spec_repo().cards_available() ==> r is Ok,
    {
        let cards = self.repo.find_cards(filter)?;
        Ok(cards)
    }

    /// Returns the page window of the decks matching the filter.
    pub fn get_decks(&self, filter: FindDecksFilter) -> (r: Result<Vec<Deck>, DataError>)
        ensures
            r matches Ok(ds) ==> spec_deck_views(ds@) == spec_find_decks(
                self.spec_repo().decks_model(),
                filter,
            ),
            self.spec_repo().decks_available() ==> r is Ok,
    {
        let decks = self.repo.find_decks(filter)?;
        Ok(decks)
    }

    /// Returns the image bytes for the card the filter names; success
    /// always names a card.
    pub fn get_image(&self, filter: FindImageFilter) -> (r: Result<Vec<u8>, DataError>)
        ensures
            filter.card is None ==> r == Err::<Vec<u8>, DataError>(DataError::NotFound),
            r is Ok ==> filter.card is Some,
    {
        let image = self.repo.find_image(filter)?;
        Ok(image)
    }
}

} // verus!
