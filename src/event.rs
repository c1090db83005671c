use vstd::prelude::*;
use crate::endpoint::{Endpoint, EndpointPair, endpoint_bytes, endpoint_of, pair_bytes, pair_of, PAIR_LEN};

verus! {

/// Size of an encoded classification.
pub const INNER_LEN: usize = 60;

/// Size of an encoded event: the pair, then the classification.
pub const EVENT_LEN: usize = 72;

/// Size of a captured proof-of-work.
pub const POW_LEN: usize = 56;

/// What the classifier observed on a connection.
#[derive(Clone, Copy, Debug, PartialEq, Eq)]
pub enum EventInner {
    ReceivedPow([u8; 56]),
    NotEnoughBytesForPow,
    BlockedAlreadyConnected { already_connected: Endpoint, try_connect: Endpoint },
}

/// A record carried from the classifier to the event consumer.
#[derive(Clone, Copy, Debug, PartialEq, Eq)]
pub struct Event {
    pub pair: EndpointPair,
    pub event: EventInner,
}

/// Why an address was put on the blacklist.
#[derive(Clone, Copy, Debug, PartialEq, Eq, Structural)]
pub enum BlockingReason {
    NoBlocking,
    CommandLineArgument,
    BadProofOfWork,
    AlreadyConnected,
    EventFromTezedge,
}

/// Why a record could not be decoded.
#[derive(Clone, Copy, Debug, PartialEq, Eq, Structural)]
pub enum DecodeError {
    /// The record does not have the fixed size.
    WrongLength,
    /// The discriminant names no classification.
    UnknownKind(u32),
}

pub open spec fn zeros(n: nat) -> Seq<u8> {
    Seq::new(n, |i: int| 0u8)
}

/// The little-endian discriminant in the first four bytes.
pub open spec fn kind_of(b: Seq<u8>) -> u32 {
    (b[0] as int + b[1] as int * 0x100 + b[2] as int * 0x1_0000 + b[3] as int * 0x100_0000) as u32
}

/// The 60-byte encoding of a classification.
pub open spec fn inner_bytes(e: EventInner) -> Seq<u8> {
    match e {
        EventInner::ReceivedPow(b) => seq![0u8, 0, 0, 0] + b@,
        EventInner::NotEnoughBytesForPow => seq![1u8, 0, 0, 0] + zeros(56),
        EventInner::BlockedAlreadyConnected { already_connected, try_connect } =>
            seq![2u8, 0, 0, 0] + endpoint_bytes(already_connected) + endpoint_bytes(try_connect)
                + zeros(44),
    }
}

/// `r` is what decoding the 60 bytes `b` gives.
pub open spec fn inner_decoding(b: Seq<u8>, r: Result<EventInner, DecodeError>) -> bool {
    if b.len() != INNER_LEN {
        r == Err::<EventInner, DecodeError>(DecodeError::WrongLength)
    } else if kind_of(b) == 0 {
        match r {
            Ok(EventInner::ReceivedPow(p)) => p@ == b.subrange(4, 60),
            _ => false,
        }
    } else if kind_of(b) == 1 {
        r == Ok::<EventInner, DecodeError>(EventInner::NotEnoughBytesForPow)
    } else if kind_of(b) == 2 {
        r == Ok::<EventInner, DecodeError>(
            EventInner::BlockedAlreadyConnected {
                already_connected: endpoint_of(b.subrange(4, 10)),
                try_connect: endpoint_of(b.subrange(10, 16)),
            },
        )
    } else {
        r == Err::<EventInner, DecodeError>(DecodeError::UnknownKind(kind_of(b)))
    }
}

/// The 72-byte encoding of an event.
pub open spec fn event_bytes(e: Event) -> Seq<u8> {
    pair_bytes(e.pair) + inner_bytes(e.event)
}

/// `r` is what decoding the 72 bytes `b` gives.
pub open spec fn event_decoding(b: Seq<u8>, r: Result<Event, DecodeError>) -> bool {
    if b.len() != EVENT_LEN {
        r == Err::<Event, DecodeError>(DecodeError::WrongLength)
    } else {
        match r {
            Ok(e) => e.pair == pair_of(b.subrange(0, 12)) && inner_decoding(
                b.subrange(12, 72),
                Ok(e.event),
            ),
            Err(x) => inner_decoding(b.subrange(12, 72), Err(x)),
        }
    }
}

/// Reads the little-endian discriminant at `start`.
fn read_kind(b: &[u8], start: usize) -> (r: u32)
    requires
        start + 4 <= b@.len(),
    ensures
        r == kind_of(b@.subrange(start as int, start + 4)),
{
    b[start] as u32 + b[start + 1] as u32 * 0x100 + b[start + 2] as u32 * 0x1_0000 + b[start + 3] as u32
        * 0x100_0000
}

/// Appends `n` zero bytes.
fn push_zeros(r: &mut Vec<u8>, n: usize)
    ensures
        final(r)@ == old(r)@ + zeros(n as nat),
{
    let mut i: usize = 0;
    while i < n
        invariant
            i <= n,
            r@ == old(r)@ + zeros(i as nat),
        decreases n - i,
    {
        r.push(0u8);
        i = i + 1;
        assert(r@ =~= old(r)@ + zeros(i as nat));
    }
}

impl EventInner {
    pub fn encode(&self) -> (r: Vec<u8>)
        ensures
            r@ == inner_bytes(*self),
    {
        let mut r: Vec<u8> = Vec::new();
        match self {
            EventInner::ReceivedPow(b) => {
                r.push(0u8);
                r.push(0u8);
                r.push(0u8);
                r.push(0u8);
                let mut i: usize = 0;
                while i < 56
                    invariant
                        i <= 56,
                        r@ == seq![0u8, 0, 0, 0] + b@.subrange(0, i as int),
                    decreases 56 - i,
                {
                    r.push(b[i]);
                    i = i + 1;
                    assert(r@ =~= seq![0u8, 0, 0, 0] + b@.subrange(0, i as int));
                }
                assert(b@.subrange(0, 56) =~= b@);
            },
            EventInner::NotEnoughBytesForPow => {
                r.push(1u8);
                r.push(0u8);
                r.push(0u8);
                r.push(0u8);
                push_zeros(&mut r, 56);
                assert(r@ =~= seq![1u8, 0, 0, 0] + zeros(56));
            },
            EventInner::BlockedAlreadyConnected { already_connected, try_connect } => {
                r.push(2u8);
                r.push(0u8);
                r.push(0u8);
                r.push(0u8);
                let mut a = already_connected.encode();
                r.append(&mut a);
                let mut t = try_connect.encode();
                r.append(&mut t);
                push_zeros(&mut r, 44);
            },
        }
        r
    }

    /// Decodes the 60 bytes at `start`.
    pub fn decode_at(b: &[u8], start: usize) -> (r: Result<EventInner, DecodeError>)
        requires
            start + 60 <= b@.len(),
        ensures
            inner_decoding(b@.subrange(start as int, start + 60), r),
    {
        let ghost s = b@.subrange(start as int, start + 60);
        let n = b.len();
        let d = read_kind(b, start);
        assert(s.subrange(0, 4) =~= b@.subrange(start as int, start + 4));
        if d == 0 {
            let mut p: [u8; 56] = [0u8; 56];
            let mut i: usize = 0;
            while i < 56
                invariant
                    i <= 56,
                    start + 60 <= n == b@.len(),
                    forall|j: int| 0 <= j < i ==> p@[j] == b@[start + 4 + j],
                    p@.len() == 56,
                decreases 56 - i,
            {
                p[i] = b[start + 4 + i];
                i = i + 1;
            }
            assert(p@ =~= s.subrange(4, 60));
            Ok(EventInner::ReceivedPow(p))
        } else if d == 1 {
            Ok(EventInner::NotEnoughBytesForPow)
        } else if d == 2 {
            let a = Endpoint::decode_at(b, start + 4);
            let t = Endpoint::decode_at(b, start + 10);
            assert(s.subrange(4, 10) =~= b@.subrange(start + 4, start + 10));
            assert(s.subrange(10, 16) =~= b@.subrange(start + 10, start + 16));
            Ok(EventInner::BlockedAlreadyConnected { already_connected: a, try_connect: t })
        } else {
            Err(DecodeError::UnknownKind(d))
        }
    }

    /// Decodes a 60-byte classification record.
    pub fn decode(b: &[u8]) -> (r: Result<EventInner, DecodeError>)
        ensures
            inner_decoding(b@, r),
    {
        if b.len() != INNER_LEN {
            return Err(DecodeError::WrongLength);
        }
        let r = EventInner::decode_at(b, 0);
        assert(b@.subrange(0, 60) =~= b@);
        r
    }
}

impl Event {
    pub fn encode(&self) -> (r: Vec<u8>)
        ensures
            r@ == event_bytes(*self),
    {
        let mut r = self.pair.encode();
        let mut e = self.event.encode();
        r.append(&mut e);
        r
    }

    /// Decodes a 72-byte event record.
    pub fn decode(b: &[u8]) -> (r: Result<Event, DecodeError>)
        ensures
            event_decoding(b@, r),
    {
        if b.len() != EVENT_LEN {
            return Err(DecodeError::WrongLength);
        }
        let pair = EndpointPair::decode_at(b, 0);
        match EventInner::decode_at(b, PAIR_LEN) {
            Ok(event) => Ok(Event { pair, event }),
            Err(x) => Err(x),
        }
    }
}

/// Decoding the encoding of a classification gives it back, and nothing else.
pub proof fn lemma_inner_round_trip(e: EventInner)
    ensures
        inner_bytes(e).len() == INNER_LEN,
        inner_decoding(inner_bytes(e), Ok(e)),
        forall|r: Result<EventInner, DecodeError>| inner_decoding(inner_bytes(e), r) ==> r == Ok::<EventInner, DecodeError>(e),
{
    broadcast use vstd::array::group_array_axioms;

    let b = inner_bytes(e);
    match e {
        EventInner::ReceivedPow(p) => {
            assert(b.subrange(4, 60) =~= p@);
            assert(kind_of(b) == 0);
            assert forall|r: Result<EventInner, DecodeError>| inner_decoding(b, r) implies r == Ok::<EventInner, DecodeError>(e) by {
                match r {
                    Ok(EventInner::ReceivedPow(q)) => {
                        assert(q@ =~= p@);
                        assert(q =~= p);
                    },
                    _ => {},
                }
            }
        },
        EventInner::NotEnoughBytesForPow => {
            assert(kind_of(b) == 1);
        },
        EventInner::BlockedAlreadyConnected { already_connected, try_connect } => {
            assert(kind_of(b) == 2);
            crate::endpoint::lemma_endpoint_round_trip(already_connected);
            crate::endpoint::lemma_endpoint_round_trip(try_connect);
            assert(b.subrange(4, 10) =~= endpoint_bytes(already_connected));
            assert(b.subrange(10, 16) =~= endpoint_bytes(try_connect));
        },
    }
}

/// Decoding the encoding of an event gives it back, and nothing else.
pub proof fn lemma_event_round_trip(e: Event)
    ensures
        event_bytes(e).len() == EVENT_LEN,
        event_decoding(event_bytes(e), Ok(e)),
        forall|r: Result<Event, DecodeError>| event_decoding(event_bytes(e), r) ==> r == Ok::<Event, DecodeError>(e),
{
    let b = event_bytes(e);
    lemma_inner_round_trip(e.event);
    crate::endpoint::lemma_pair_round_trip(e.pair);
    assert(b.subrange(0, 12) =~= pair_bytes(e.pair));
    assert(b.subrange(12, 72) =~= inner_bytes(e.event));
    assert forall|r: Result<Event, DecodeError>| event_decoding(b, r) implies r == Ok::<Event, DecodeError>(e) by {
        match r {
            Ok(x) => {
                assert(Ok::<EventInner, DecodeError>(x.event) == Ok::<EventInner, DecodeError>(e.event));
            },
            Err(x) => {
                assert(Err::<EventInner, DecodeError>(x) == Ok::<EventInner, DecodeError>(e.event));
            },
        }
    }
}

} // verus!
