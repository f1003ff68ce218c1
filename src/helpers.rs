//! Helper roles, record identifiers, channels and the fixed-width message codec.
use crate::field::CodecError;
use vstd::prelude::*;

verus! {

/// Every transport message is a block of this many bytes.
pub const MESSAGE_PAYLOAD_SIZE_BYTES: usize = 8;

/// One of the three helpers.
#[derive(Clone, Copy, Debug, PartialEq, Eq, Hash, Structural)]
pub enum Role {
    H1,
    H2,
    H3,
}

/// Which neighbour of a helper: the helpers form the cycle `H1 -> H2 -> H3 -> H1`,
/// and a helper's right peer is the next one on it.
#[derive(Clone, Copy, Debug, PartialEq, Eq, Hash, Structural)]
pub enum Direction {
    Left,
    Right,
}

/// The helper that owns a channel end.
pub type Identity = Role;

/// The next helper on the cycle.
pub open spec fn next_role(r: Role) -> Role {
    match r {
        Role::H1 => Role::H2,
        Role::H2 => Role::H3,
        Role::H3 => Role::H1,
    }
}

/// The previous helper on the cycle.
pub open spec fn prev_role(r: Role) -> Role {
    match r {
        Role::H1 => Role::H3,
        Role::H2 => Role::H1,
        Role::H3 => Role::H2,
    }
}

pub open spec fn peer_spec(r: Role, d: Direction) -> Role {
    match d {
        Direction::Left => prev_role(r),
        Direction::Right => next_role(r),
    }
}

impl Role {
    /// The neighbour of this helper in the given direction.
    pub fn peer(&self, d: Direction) -> (r: Role)
        ensures
            r == peer_spec(*self, d),
    {
        match (self, d) {
            (Role::H1, Direction::Left) => Role::H3,
            (Role::H1, Direction::Right) => Role::H2,
            (Role::H2, Direction::Left) => Role::H1,
            (Role::H2, Direction::Right) => Role::H3,
            (Role::H3, Direction::Left) => Role::H2,
            (Role::H3, Direction::Right) => Role::H1,
        }
    }
}

/// A helper's neighbours are the other two helpers, and each is the other's
/// neighbour in the opposite direction.
pub proof fn lemma_peers(r: Role)
    ensures
        peer_spec(r, Direction::Left) != r,
        peer_spec(r, Direction::Right) != r,
        peer_spec(r, Direction::Left) != peer_spec(r, Direction::Right),
        peer_spec(peer_spec(r, Direction::Left), Direction::Right) == r,
        peer_spec(peer_spec(r, Direction::Right), Direction::Left) == r,
{
}

/// Index of a message within a channel; parties number identical records identically.
#[derive(Clone, Copy, Debug, PartialEq, Eq, Hash, Structural)]
pub struct RecordId(pub u32);

impl From<u32> for RecordId {
    fn from(v: u32) -> (r: RecordId) {
        RecordId(v)
    }
}

impl vstd::std_specs::convert::FromSpecImpl<u32> for RecordId {
    open spec fn obeys_from_spec() -> bool {
        true
    }

    open spec fn from_spec(v: u32) -> RecordId {
        RecordId(v)
    }
}

/// A helper identity together with a protocol step names one stream of messages.
#[derive(Clone, Copy, Debug, PartialEq, Eq, Hash)]
pub struct ChannelId<S> {
    pub identity: Identity,
    pub step: S,
}

impl<S> ChannelId<S> {
    pub fn new(identity: Identity, step: S) -> (r: Self)
        ensures
            r.identity == identity,
            r.step == step,
    {
        ChannelId { identity, step }
    }
}

/// A message payload tagged with its record.
#[derive(Debug)]
pub struct MessageEnvelope {
    pub record_id: RecordId,
    pub payload: Box<[u8]>,
}

/// A value carried in one fixed-width transport message.
pub trait Message: Sized {
    /// Width of the encoding.
    spec fn size() -> nat;

    /// The bytes that encode a value.
    spec fn encoding(&self) -> Seq<u8>;

    fn size_in_bytes() -> (r: u32)
        ensures
            r as nat == Self::size(),
    ;

    /// Writes the encoding into `buf[..size]`.
    fn serialize(self, buf: &mut [u8]) -> (r: Result<(), CodecError>)
        ensures
            r is Ok <==> old(buf)@.len() >= Self::size(),
            r is Ok ==> final(buf)@ == self.encoding() + old(buf)@.subrange(
                Self::size() as int,
                old(buf)@.len() as int,
            ),
            r is Err ==> final(buf)@ == old(buf)@,
    ;

    /// Reads a value from `buf[..size]`.
    fn deserialize(buf: &mut [u8]) -> (r: Result<Self, CodecError>)
        ensures
            final(buf)@ == old(buf)@,
            r is Ok <==> old(buf)@.len() >= Self::size(),
            r matches Ok(v) ==> v.encoding() == old(buf)@.subrange(0, Self::size() as int),
    ;
}

} // verus!
