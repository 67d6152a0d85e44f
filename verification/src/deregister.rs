//! Taking a language out of the central table.

use crate::reg::{deregister_langs, with_absent, StoredValue};
use crate::register::{derive_keys, string_keys, Error};
use crate::table::Table;
use vstd::prelude::*;

verus! {

/// Marks every key of `tag` as deregistered in the central table. Where the
/// tag has no keys the table stays as it is.
pub fn deregister(store: &mut Table<StoredValue>, tag: &str) -> (r: Result<(), Error>)
    requires
        old(store).wf(),
    ensures
        final(store).wf(),
        match r {
            Ok(()) => string_keys(tag@) matches Ok(keys) && final(store).map() == with_absent(
                old(store).map(),
                keys,
            ),
            Err(e) => string_keys(tag@) == Err::<Set<Seq<char>>, Error>(e) && final(store).map()
                == old(store).map(),
        },
{
    match derive_keys(tag) {
        Ok(keys) => {
            deregister_langs(store, &keys);
            Ok(())
        },
        Err(e) => Err(e),
    }
}

} // verus!
