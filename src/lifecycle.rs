//! What creating and loading a store decide, given what a path holds.
use vstd::prelude::*;
use crate::codec::{decode, encode, parse, serialize, titles_fit, lemma_round_trip};
use crate::error::StoreError;
use crate::store::{Store, StoreModel, well_formed};

verus! {

/// Whether these bytes are a valid store file: they follow the format and
/// hold a well-formed store.
pub open spec fn holds_store(b: Seq<u8>) -> bool {
    match parse(b) {
        Some(m) => well_formed(m),
        None => false,
    }
}

/// The store that a newly created store file holds: no tasks, counter zero.
pub open spec fn empty_store() -> StoreModel {
    StoreModel { tasks: seq![], counter: 0 }
}

/// The bytes to write when creating a store at a path that holds `existing`
/// (`None` when nothing is there). Fails with `StoreAlreadyExists`, so that
/// nothing is written, when the path already holds a valid store.
pub fn create(existing: Option<&[u8]>) -> (r: Result<Vec<u8>, StoreError>)
    ensures
        (existing matches Some(b) && holds_store(b@)) ==> r == Err::<Vec<u8>, StoreError>(
            StoreError::StoreAlreadyExists,
        ),
        !(existing matches Some(b) && holds_store(b@)) ==> (r matches Ok(bytes) && bytes@
            == serialize(empty_store())),
{
    match existing {
        Some(b) => match decode(b) {
            Ok(_) => {
                return Err(StoreError::StoreAlreadyExists);
            },
            Err(_) => {},
        },
        None => {},
    }
    let fresh = Store::new();
    assert(fresh@.tasks =~= empty_store().tasks);
    assert(fresh@ == empty_store());
    Ok(encode(&fresh))
}

/// The store that a path holds, given its content (`None` when no file is
/// there). Fails with `StoreNotFound` when there is none and with
/// `StoreCorrupt` when the content is not a valid store.
pub fn load(content: Option<&[u8]>) -> (r: Result<Store, StoreError>)
    ensures
        content is None ==> r == Err::<Store, StoreError>(StoreError::StoreNotFound),
        content matches Some(b) ==> (holds_store(b@) <==> r is Ok),
        content matches Some(b) && !holds_store(b@) ==> r == Err::<Store, StoreError>(
            StoreError::StoreCorrupt,
        ),
        r matches Ok(s) ==> (well_formed(s@) && (content matches Some(b) && parse(b@) == Some(s@))),
{
    match content {
        None => Err(StoreError::StoreNotFound),
        Some(b) => decode(b),
    }
}

/// Once a store has been saved to a path, creating a store there again is
/// refused: the saved bytes are a valid store file.
pub proof fn lemma_saved_store_blocks_create(m: StoreModel)
    requires
        well_formed(m),
        titles_fit(m.tasks),
    ensures
        holds_store(serialize(m)),
{
    lemma_round_trip(m);
}

} // verus!
