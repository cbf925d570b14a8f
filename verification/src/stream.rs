//! The unit a contract reads: a Stream of bytes, with the media type its
//! sender declared, if any.

use vstd::prelude::*;

verus! {

/// The identity of a Stream.
#[derive(Clone, Copy, Debug, PartialEq, Eq)]
pub struct StreamId(u64);

impl StreamId {
    /// The Stream id `n`.
    pub fn new(n: u64) -> (id: StreamId)
        ensures
            id.value() == n,
    {
        StreamId(n)
    }

    /// The number this id carries.
    pub closed spec fn value(self) -> u64 {
        self.0
    }

    /// The number this id carries.
    pub fn get(&self) -> (n: u64)
        ensures
            n == self.value(),
    {
        self.0
    }
}

/// The bytes of a Stream and its declared media type.
#[derive(Debug)]
pub struct Stream {
    id: StreamId,
    bytes: Vec<u8>,
    media_type: Option<String>,
}

/// The mathematical content of a [`Stream`].
pub struct StreamView {
    pub id: u64,
    pub bytes: Seq<u8>,
    pub media_type: Option<Seq<char>>,
}

impl View for Stream {
    type V = StreamView;

    closed spec fn view(&self) -> StreamView {
        StreamView { id: self.id.value(), bytes: self.bytes@, media_type: self.media_type.deep_view() }
    }
}

impl Stream {
    /// A Stream `id` holding `bytes`, declared as `media_type`.
    pub fn new(id: StreamId, bytes: Vec<u8>, media_type: Option<String>) -> (s: Stream)
        ensures
            s@ == (StreamView { id: id.value(), bytes: bytes@, media_type: media_type.deep_view() }),
    {
        Stream { id, bytes, media_type }
    }

    /// The Stream's identity.
    pub fn id(&self) -> (id: StreamId)
        ensures
            id.value() == self@.id,
    {
        self.id
    }

    /// The Stream's bytes.
    pub fn bytes(&self) -> (b: &[u8])
        ensures
            b@ == self@.bytes,
    {
        self.bytes.as_slice()
    }

    /// The media type the sender declared, if any.
    pub fn media_type(&self) -> (m: Option<&str>)
        ensures
            match m {
                Some(t) => self@.media_type == Some(t@),
                None => self@.media_type is None,
            },
    {
        match &self.media_type {
            Some(t) => Some(t.as_str()),
            None => None,
        }
    }
}

} // verus!
