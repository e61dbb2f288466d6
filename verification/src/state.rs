//! Interfaces through which connection and application state is moved between servers.

use crate::buffer::Buffer;
use vstd::prelude::*;

verus! {

/// State that can be written into a byte buffer.
pub trait Serialize {
    /// Serializes into the buffer and returns its unused part.
    fn serialize_into<'buf>(&self, buf: &'buf mut [u8]) -> &'buf mut [u8];
}

/// State that can be read back from a byte buffer.
pub trait Deserialize: Sized {
    /// Deserializes and removes the deserialised part from the buffer.
    fn deserialize_from(buf: &mut Buffer) -> Self;
}

/// Application-level state that is migrated together with a connection.
pub trait ApplicationState {
    /// The number of bytes that `serialize` writes.
    fn serialized_size(&self) -> usize;

    /// Writes the state into `buf`.
    fn serialize(&self, buf: &mut [u8]);

    /// Reads a state back from `buf`.
    fn deserialize(buf: &[u8]) -> Self where Self: Sized;
}

} // verus!
