//! The compute side of the image lookup.
//!
//! An image is fetched from remote storage by the pair (deck identity,
//! card identity). The storage path and the outcome of the remote
//! response are computed and verified here; performing the fetch itself
//! is the calling layer's job.

use vstd::prelude::*;

use crate::ids::{format_entity_id, spec_uuid_hyphenated, EntityId};
use crate::model::FindImageFilter;
use crate::service::DataError;

verus! {

/// The storage path of a card's image.
pub open spec fn spec_image_path(deck_id: EntityId, card_id: EntityId) -> Seq<char> {
    "magic-the-gathering/images/cards/"@ + spec_uuid_hyphenated(deck_id) + "/"@
        + spec_uuid_hyphenated(card_id) + ".jpg"@
}

/// The storage path an image filter asks for, or [`DataError::NotFound`]
/// when the filter names no card: both identities must be provided.
pub fn image_request_path(filter: &FindImageFilter) -> (r: Result<String, DataError>)
    ensures
        match filter.card {
            Some((deck_id, card_id)) => r matches Ok(p) && p@ == spec_image_path(
                deck_id,
                card_id,
            ),
            None => r == Err::<String, DataError>(DataError::NotFound),
        },
{
    match filter.card {
        Some((deck_id, card_id)) => {
            let mut path = "magic-the-gathering/images/cards/".to_owned();
            let deck = format_entity_id(deck_id);
            path.append(deck.as_str());
            path.append("/");
            let card = format_entity_id(card_id);
            path.append(card.as_str());
            path.append(".jpg");
            Ok(path)
        },
        None => Err(DataError::NotFound),
    }
}

/// The outcome of the remote response: the body on HTTP success (200),
/// [`DataError::NotFound`] on anything else.
pub fn image_response_outcome(status: u16, body: Vec<u8>) -> (r: Result<Vec<u8>, DataError>)
    ensures
        status == 200 ==> (r matches Ok(b) && b@ == body@),
        status != 200 ==> r == Err::<Vec<u8>, DataError>(DataError::NotFound),
{
    if status == 200 {
        Ok(body)
    } else {
        Err(DataError::NotFound)
    }
}

} // verus!
