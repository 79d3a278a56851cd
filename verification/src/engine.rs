//! The interface every storage backend offers to the server.

use vstd::prelude::*;
use crate::error::KVSError;

verus! {

/// A store of text values under text keys. The log-structured engine and the
/// B-tree backend both offer these three operations, and the server works
/// with either.
///
/// Nothing is promised here of what an implementation returns or of how it
/// changes. Each operation comes with a relation of the same name ending in
/// `_gives`, which tells which outcomes a call with given arguments can have
/// on a given engine, and how the engine can be left. An implementation may
/// define the relation for itself; one that does not keeps the relation that
/// admits every outcome. The contract of the operation says no more than
/// that the call keeps to this relation, and the callers in this crate state
/// their own results over it, for every implementation alike.
pub trait KvsEngine {
    /// A call of `set` with `key` and `value` on this engine can return
    /// `outcome` and leave the engine as `after`.
    open spec fn set_gives(
        &self,
        key: Seq<char>,
        value: Seq<char>,
        after: &Self,
        outcome: Result<(), KVSError>,
    ) -> bool {
        true
    }

    /// A call of `get` with `key` on this engine can return `outcome` and
    /// leave the engine as `after`.
    open spec fn get_gives(
        &self,
        key: Seq<char>,
        after: &Self,
        outcome: Result<Option<String>, KVSError>,
    ) -> bool {
        true
    }

    /// A call of `remove` with `key` on this engine can return `outcome` and
    /// leave the engine as `after`.
    open spec fn remove_gives(
        &self,
        key: Seq<char>,
        after: &Self,
        outcome: Result<(), KVSError>,
    ) -> bool {
        true
    }

    /// Binds `value` to `key`, replacing any earlier value.
    fn set(&mut self, key: String, value: String) -> (outcome: Result<(), KVSError>)
        ensures
            old(self).set_gives(key@, value@, final(self), outcome),
    ;

    /// The value bound to `key`, or `None` where the key has none.
    fn get(&mut self, key: String) -> (outcome: Result<Option<String>, KVSError>)
        ensures
            old(self).get_gives(key@, final(self), outcome),
    ;

    /// Removes the binding of `key`; an error where the key has none.
    fn remove(&mut self, key: String) -> (outcome: Result<(), KVSError>)
        ensures
            old(self).remove_gives(key@, final(self), outcome),
    ;
}

} // verus!
