use vstd::prelude::*;
use crate::endpoint::{Endpoint, EndpointPair, ip_key, ip_to_u32, pair_key, port_value};
use crate::event::{Event, EventInner, INNER_LEN, POW_LEN};
use crate::status::{has_bit, BLOCKED_BIT, POW_SENT_BIT};
use crate::store::{bits_or_empty, first_conflict, StateStore};

verus! {

broadcast use vstd::std_specs::hash::group_hash_axioms;

/// Length of the link-layer header in front of the IPv4 header.
pub const LINK_HEADER_LEN: usize = 14;

/// What happens to a frame.
#[derive(Clone, Copy, Debug, PartialEq, Eq, Structural)]
pub enum Action {
    Pass,
    Drop,
}

/// The outcome of classifying one frame: the action, and the event to hand to the consumer, if any.
#[derive(Clone, Copy, Debug, PartialEq, Eq)]
pub struct Verdict {
    pub action: Action,
    pub event: Option<Event>,
}

/// The fields of an IPv4/TCP frame that the classifier reads.
#[derive(Clone, Copy, Debug, PartialEq, Eq)]
pub struct TcpHeaders {
    /// Remote side is the source, local side the destination.
    pub pair: EndpointPair,
    /// Offset of the TCP payload in the frame.
    pub payload_offset: usize,
}

/// Offset of the TCP header: link header, then the IPv4 header of `ihl` words.
pub open spec fn tcp_offset(f: Seq<u8>) -> int {
    LINK_HEADER_LEN + (f[14] % 16) * 4
}

/// The headers of an IPv4/TCP frame, or `None` for any other, truncated or malformed frame.
pub open spec fn parse_headers(f: Seq<u8>) -> Option<TcpHeaders> {
    if f.len() < 34 || f[12] != 8 || f[13] != 0 || f[14] / 16 != 4 || f[14] % 16 < 5 || f[23] != 6 {
        None
    } else {
        let t = tcp_offset(f);
        if t + 20 > f.len() || f[t + 12] / 16 < 5 {
            None
        } else {
            Some(
                TcpHeaders {
                    pair: EndpointPair {
                        remote: Endpoint { ipv4: [f[26], f[27], f[28], f[29]], port: [f[t], f[t + 1]] },
                        local: Endpoint { ipv4: [f[30], f[31], f[32], f[33]], port: [f[t + 2], f[t + 3]] },
                    },
                    payload_offset: (t + (f[t + 12] / 16) * 4) as usize,
                },
            )
        }
    }
}

/// Source ports whose traffic is never inspected.
pub open spec fn allowlisted(port: [u8; 2]) -> bool {
    port_value(port) == 80 || port_value(port) == 443
}

/// `o` is what the classifier observes on a frame with headers `h`, given the store `s`.
pub open spec fn observation(s: StateStore, h: TcpHeaders, f: Seq<u8>, o: Option<EventInner>) -> bool {
    let bits = s.ip_bits(h.pair.remote.ipv4);
    let off = h.payload_offset as int;
    match first_conflict(s.peers@, h.pair.remote) {
        Some(a) => o == Some(
            EventInner::BlockedAlreadyConnected { already_connected: a, try_connect: h.pair.remote },
        ),
        None => if has_bit(bits, POW_SENT_BIT) {
            o.is_none()
        } else if off + 60 <= f.len() {
            match o {
                Some(EventInner::ReceivedPow(p)) => p@ == f.subrange(off + 4, off + 60),
                _ => false,
            }
        } else {
            o == Some(EventInner::NotEnoughBytesForPow)
        },
    }
}

/// The status of the remote address after a frame with headers `h`.
pub open spec fn next_bits(s: StateStore, h: TcpHeaders, f: Seq<u8>) -> u32 {
    let bits = s.ip_bits(h.pair.remote.ipv4);
    if first_conflict(s.peers@, h.pair.remote).is_none() && !has_bit(bits, POW_SENT_BIT) {
        bits | POW_SENT_BIT
    } else {
        bits
    }
}

/// The frame passes and nothing in the store changes.
pub open spec fn passes_untouched(old: StateStore, new: StateStore, r: Verdict) -> bool {
    &&& r.action == Action::Pass
    &&& r.event.is_none()
    &&& new.blacklist@ == old.blacklist@
    &&& new.pairs@ == old.pairs@
    &&& new.node_ports@ == old.node_ports@
    &&& new.pending_peers@ == old.pending_peers@
    &&& new.peers@ == old.peers@
}

/// Classifying frame `f` on store `old` gives verdict `r` and store `new`.
pub open spec fn classify_post(old: StateStore, new: StateStore, f: Seq<u8>, r: Verdict) -> bool {
    match parse_headers(f) {
        None => passes_untouched(old, new, r),
        Some(h) => if allowlisted(h.pair.remote.port) {
            passes_untouched(old, new, r)
        } else {
            let bits = old.ip_bits(h.pair.remote.ipv4);
            let nb = next_bits(old, h, f);
            let pk = pair_key(h.pair);
            &&& r.action == (if has_bit(bits, BLOCKED_BIT) {
                Action::Drop
            } else {
                Action::Pass
            })
            &&& new.node_ports@ == old.node_ports@
            &&& new.pending_peers@ == old.pending_peers@
            &&& new.peers@ == old.peers@
            &&& if old.pairs@.contains_key(pk) && old.pairs@[pk] == nb {
                &&& new.blacklist@ == old.blacklist@
                &&& new.pairs@ == old.pairs@
                &&& r.event.is_none()
            } else {
                &&& new.blacklist@ == old.blacklist@.insert(ip_key(h.pair.remote.ipv4), nb)
                &&& new.pairs@ == old.pairs@.insert(pk, nb)
                &&& match r.event {
                    None => observation(old, h, f, None),
                    Some(e) => e.pair == h.pair && observation(old, h, f, Some(e.event)),
                }
            }
        },
    }
}

/// Reads the headers of an IPv4/TCP frame; `None` for any other, truncated or malformed frame.
pub fn parse_tcp_headers(f: &[u8]) -> (r: Option<TcpHeaders>)
    ensures
        r == parse_headers(f@),
{
    let n = f.len();
    if n < 34 || f[12] != 8 || f[13] != 0 || f[14] / 16 != 4 || f[14] % 16 < 5 || f[23] != 6 {
        return None;
    }
    let t: usize = LINK_HEADER_LEN + (f[14] % 16) as usize * 4;
    if t + 20 > n || f[t + 12] / 16 < 5 {
        return None;
    }
    let remote = Endpoint { ipv4: [f[26], f[27], f[28], f[29]], port: [f[t], f[t + 1]] };
    let local = Endpoint { ipv4: [f[30], f[31], f[32], f[33]], port: [f[t + 2], f[t + 3]] };
    let payload_offset: usize = t + (f[t + 12] / 16) as usize * 4;
    Some(TcpHeaders { pair: EndpointPair { remote, local }, payload_offset })
}

/// Copies the 56 bytes after the 4 leading bytes of the 60-byte window at `off`.
fn capture_pow(f: &[u8], off: usize) -> (r: [u8; 56])
    requires
        off + 60 <= f@.len(),
    ensures
        r@ == f@.subrange(off + 4, off + 60),
{
    let n = f.len();
    let mut p: [u8; 56] = [0u8; 56];
    let mut i: usize = 0;
    while i < POW_LEN
        invariant
            i <= POW_LEN,
            off + 60 <= n == f@.len(),
            p@.len() == 56,
            forall|j: int| 0 <= j < i ==> p@[j] == f@[off + 4 + j],
        decreases 56 - i,
    {
        p[i] = f[off + 4 + i];
        i = i + 1;
    }
    assert(p@ =~= f@.subrange(off + 4, off + 60));
    p
}

/// Classifies one incoming frame against the store: decides pass or drop, records
/// the status of the remote address and of the connection pair, and reports an
/// event when the pair's status changes.
pub fn classify(store: &mut StateStore, frame: &[u8]) -> (r: Verdict)
    ensures
        classify_post(*old(store), *final(store), frame@, r),
{
    let untouched = Verdict { action: Action::Pass, event: None };
    let h = match parse_tcp_headers(frame) {
        Some(h) => h,
        None => return untouched,
    };
    let sport = h.pair.remote.port_number();
    if sport == 80 || sport == 443 {
        return untouched;
    }
    let st = store.ip_status(&h.pair.remote.ipv4);
    let mut new_st = st;
    let obs: Option<EventInner> = match store.connected_conflict(&h.pair.remote) {
        Some(a) => Some(EventInner::BlockedAlreadyConnected { already_connected: a, try_connect: h.pair.remote }),
        None => {
            if st.is_pow_sent() {
                None
            } else if h.payload_offset <= frame.len() && frame.len() - h.payload_offset >= INNER_LEN {
                new_st = st.with_pow_sent();
                Some(EventInner::ReceivedPow(capture_pow(frame, h.payload_offset)))
            } else {
                new_st = st.with_pow_sent();
                Some(EventInner::NotEnoughBytesForPow)
            }
        },
    };
    let pk = h.pair.key();
    let same = match store.pairs.get(&pk) {
        Some(b) => *b == new_st.bits,
        None => false,
    };
    let mut event: Option<Event> = None;
    if !same {
        let ik = ip_to_u32(&h.pair.remote.ipv4);
        store.blacklist.insert(ik, new_st.bits);
        store.pairs.insert(pk, new_st.bits);
        event = match obs {
            Some(x) => Some(Event { pair: h.pair, event: x }),
            None => None,
        };
    }
    let action = if st.is_blocked() {
        Action::Drop
    } else {
        Action::Pass
    };
    Verdict { action, event }
}

/// One frame keeps `POW_SENT` on the address keyed `k` wherever it is set, and a
/// frame from that address then captures no proof-of-work bytes (only a conflict
/// with a connected peer can still be reported).
pub proof fn lemma_pow_sent_is_kept(old: StateStore, new: StateStore, f: Seq<u8>, r: Verdict, k: u32)
    requires
        classify_post(old, new, f, r),
        has_bit(bits_or_empty(old.blacklist@, k), POW_SENT_BIT),
    ensures
        has_bit(bits_or_empty(new.blacklist@, k), POW_SENT_BIT),
        parse_headers(f).is_some() && ip_key(parse_headers(f).unwrap().pair.remote.ipv4) == k
            ==> match r.event {
            Some(e) => e.event is BlockedAlreadyConnected,
            None => true,
        },
{
    if let Some(h) = parse_headers(f) {
        let ip = h.pair.remote.ipv4;
        if ip_key(ip) == k {
            assert(next_bits(old, h, f) == old.ip_bits(ip));
        }
    }
}

/// Over a run of frames, an address keyed `k` that starts with `POW_SENT` keeps it,
/// and no frame from it captures proof-of-work bytes.
pub proof fn lemma_pow_sent_run(
    stores: Seq<StateStore>,
    frames: Seq<Seq<u8>>,
    verdicts: Seq<Verdict>,
    k: u32,
)
    requires
        stores.len() == frames.len() + 1,
        verdicts.len() == frames.len(),
        forall|i: int| 0 <= i < frames.len() ==> classify_post(stores[i], stores[i + 1], frames[i], verdicts[i]),
        has_bit(bits_or_empty(stores[0].blacklist@, k), POW_SENT_BIT),
    ensures
        forall|i: int| 0 <= i < stores.len() ==> has_bit(bits_or_empty(#[trigger] stores[i].blacklist@, k), POW_SENT_BIT),
        forall|i: int|
            0 <= i < frames.len() && parse_headers(#[trigger] frames[i]).is_some()
                && ip_key(parse_headers(frames[i]).unwrap().pair.remote.ipv4) == k ==> match verdicts[i].event {
                Some(e) => e.event is BlockedAlreadyConnected,
                None => true,
            },
    decreases frames.len(),
{
    if frames.len() > 0 {
        let n = frames.len() - 1;
        lemma_pow_sent_run(stores.take(n + 1), frames.take(n), verdicts.take(n), k);
        assert(stores.take(n + 1)[n] == stores[n]);
        lemma_pow_sent_is_kept(stores[n], stores[n + 1], frames[n], verdicts[n], k);
        assert forall|i: int| 0 <= i < stores.len() implies has_bit(bits_or_empty(#[trigger] stores[i].blacklist@, k), POW_SENT_BIT) by {
            if i <= n {
                assert(stores.take(n + 1)[i] == stores[i]);
            }
        }
        assert forall|i: int|
            0 <= i < frames.len() && parse_headers(#[trigger] frames[i]).is_some()
                && ip_key(parse_headers(frames[i]).unwrap().pair.remote.ipv4) == k implies match verdicts[i].event {
                Some(e) => e.event is BlockedAlreadyConnected,
                None => true,
            } by {
            if i < n {
                assert(frames.take(n)[i] == frames[i]);
                assert(verdicts.take(n)[i] == verdicts[i]);
            }
        }
    }
}

/// The first frame of a new pair from an address without `POW_SENT`, with no
/// conflicting peer, carrying the whole 60-byte window, is reported once as a
/// received proof-of-work holding the last 56 bytes of the window, and the address
/// gets `POW_SENT`.
pub proof fn lemma_first_window_is_captured(old: StateStore, new: StateStore, f: Seq<u8>, r: Verdict)
    requires
        classify_post(old, new, f, r),
        parse_headers(f).is_some(),
        !allowlisted(parse_headers(f).unwrap().pair.remote.port),
        !has_bit(old.ip_bits(parse_headers(f).unwrap().pair.remote.ipv4), POW_SENT_BIT),
        !old.pairs@.contains_key(pair_key(parse_headers(f).unwrap().pair)),
        first_conflict(old.peers@, parse_headers(f).unwrap().pair.remote).is_none(),
        parse_headers(f).unwrap().payload_offset + 60 <= f.len(),
    ensures
        ({
            let h = parse_headers(f).unwrap();
            let off = h.payload_offset as int;
            &&& r.event matches Some(e) && e.pair == h.pair && (e.event matches EventInner::ReceivedPow(p)
                && p@ == f.subrange(off + 4, off + 60))
            &&& new.blacklist@ == old.blacklist@.insert(
                ip_key(h.pair.remote.ipv4),
                old.ip_bits(h.pair.remote.ipv4) | POW_SENT_BIT,
            )
            &&& new.ip_bits(h.pair.remote.ipv4) == old.ip_bits(h.pair.remote.ipv4) | POW_SENT_BIT
        }),
{
    let h = parse_headers(f).unwrap();
    assert(new.blacklist@.contains_key(ip_key(h.pair.remote.ipv4)));
}

/// The first frame of a new pair from an address on which a peer is already
/// connected from another port is reported once as a blocked second connection,
/// naming that peer's endpoint and the new one.
pub proof fn lemma_second_connection_is_reported(old: StateStore, new: StateStore, f: Seq<u8>, r: Verdict)
    requires
        classify_post(old, new, f, r),
        parse_headers(f).is_some(),
        !allowlisted(parse_headers(f).unwrap().pair.remote.port),
        !old.pairs@.contains_key(pair_key(parse_headers(f).unwrap().pair)),
        first_conflict(old.peers@, parse_headers(f).unwrap().pair.remote).is_some(),
    ensures
        ({
            let h = parse_headers(f).unwrap();
            r.event == Some(
                Event {
                    pair: h.pair,
                    event: EventInner::BlockedAlreadyConnected {
                        already_connected: first_conflict(old.peers@, h.pair.remote).unwrap(),
                        try_connect: h.pair.remote,
                    },
                },
            )
        }),
{
}

/// A frame from source port 80 or 443 passes and changes nothing.
pub proof fn lemma_allowlisted_port_passes(old: StateStore, new: StateStore, f: Seq<u8>, r: Verdict)
    requires
        classify_post(old, new, f, r),
        parse_headers(f).is_some(),
        allowlisted(parse_headers(f).unwrap().pair.remote.port),
    ensures
        passes_untouched(old, new, r),
{
}

} // verus!
