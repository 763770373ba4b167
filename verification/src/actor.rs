//! Identities of changes: the actor that wrote a change and its sequence
//! number.

use vstd::prelude::*;
use crate::keyed::{copy_bytes, same_bytes, Key};
use crate::encoding::{actor_hex, hex_text};

verus! {

/// The identifier of one writer of the document: an opaque string of bytes.
#[derive(Debug, PartialEq, Eq, Hash)]
pub struct ActorId {
    bytes: Vec<u8>,
}

impl View for ActorId {
    type V = Seq<u8>;

    closed spec fn view(&self) -> Seq<u8> {
        self.bytes@
    }
}

impl ActorId {
    /// The actor with the given bytes.
    pub fn from_bytes(bytes: Vec<u8>) -> (a: Self)
        ensures
            a@ == bytes@,
    {
        ActorId { bytes }
    }

    /// The bytes of the actor.
    pub fn to_bytes(&self) -> (b: Vec<u8>)
        ensures
            b@ == self@,
    {
        copy_bytes(&self.bytes)
    }

    /// The bytes of the actor as lower-case hexadecimal text.
    pub fn to_hex_string(&self) -> (s: String)
        ensures
            s@ == hex_text(self@),
    {
        actor_hex(&self.bytes)
    }
}

impl Clone for ActorId {
    fn clone(&self) -> (c: Self)
        ensures
            c@ == self@,
    {
        ActorId { bytes: copy_bytes(&self.bytes) }
    }
}

/// The identity of a change: its actor and its sequence number.
#[derive(Debug, PartialEq, Eq, Hash)]
pub struct ChangeId {
    /// The actor that wrote the change.
    pub actor: ActorId,
    /// The position of the change in the actor's history.
    pub seq: u64,
}

impl View for ChangeId {
    type V = (Seq<u8>, u64);

    open spec fn view(&self) -> (Seq<u8>, u64) {
        (self.actor@, self.seq)
    }
}

impl Key for ChangeId {
    fn same(&self, other: &Self) -> (b: bool) {
        self.seq == other.seq && same_bytes(self.actor.bytes.as_slice(), other.actor.bytes.as_slice())
    }

    fn duplicate(&self) -> (c: Self) {
        ChangeId { actor: self.actor.clone(), seq: self.seq }
    }
}

} // verus!
