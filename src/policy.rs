use vstd::prelude::*;
use crate::endpoint::{Endpoint, endpoint_key, ip_key};
use crate::event::{BlockingReason, Event, EventInner};
use crate::status::BLOCKED_BIT;
use crate::store::{bits_or_empty, without_key, StateStore};

verus! {

broadcast use vstd::std_specs::hash::group_hash_axioms;

/// An IP address as a command carries it.
#[derive(Clone, Copy, Debug, PartialEq, Eq)]
pub enum IpAddress {
    V4([u8; 4]),
    V6([u8; 16]),
}

/// A socket address as a command carries it.
#[derive(Clone, Copy, Debug, PartialEq, Eq)]
pub enum SocketAddress {
    V4(Endpoint),
    V6([u8; 16], u16),
}

/// An administrative command received over the control channel.
#[derive(Clone, Copy, Debug, PartialEq, Eq)]
pub enum Command {
    Block(IpAddress),
    Unblock(IpAddress),
    FilterLocalPort(u16),
    FilterRemoteAddr(SocketAddress),
    Disconnected(SocketAddress, [u8; 32]),
}

/// Why a command was not applied.
#[derive(Clone, Copy, Debug, PartialEq, Eq, Structural)]
pub enum CommandError {
    /// IPv6 addresses are not supported.
    Unimplemented,
}

/// One mutation of the state store.
#[derive(Clone, Copy, Debug, PartialEq, Eq)]
pub enum MapOp {
    Block([u8; 4]),
    Unblock([u8; 4]),
    FilterLocalPort(u16),
    FilterRemoteAddr(Endpoint),
    RemovePeer([u8; 32]),
}

/// The blacklist with `ip` marked blocked, its other flags kept.
pub open spec fn blocked_map(m: Map<u32, u32>, ip: [u8; 4]) -> Map<u32, u32> {
    m.insert(ip_key(ip), bits_or_empty(m, ip_key(ip)) | BLOCKED_BIT)
}

/// The store `new` is `old` with `op` applied.
pub open spec fn op_post(old: StateStore, new: StateStore, op: MapOp) -> bool {
    &&& new.blacklist@ == match op {
        MapOp::Block(ip) => blocked_map(old.blacklist@, ip),
        MapOp::Unblock(ip) => old.blacklist@.remove(ip_key(ip)),
        _ => old.blacklist@,
    }
    &&& new.node_ports@ == match op {
        MapOp::FilterLocalPort(p) => old.node_ports@.insert(p, 0),
        _ => old.node_ports@,
    }
    &&& new.pending_peers@ == match op {
        MapOp::FilterRemoteAddr(e) => old.pending_peers@.insert(endpoint_key(e), 0),
        _ => old.pending_peers@,
    }
    &&& new.peers@ == match op {
        MapOp::RemovePeer(pk) => without_key(old.peers@, pk),
        _ => old.peers@,
    }
    &&& new.pairs@ == old.pairs@
}

/// No map of the store changed.
pub open spec fn unchanged(old: StateStore, new: StateStore) -> bool {
    &&& new.blacklist@ == old.blacklist@
    &&& new.pairs@ == old.pairs@
    &&& new.node_ports@ == old.node_ports@
    &&& new.pending_peers@ == old.pending_peers@
    &&& new.peers@ == old.peers@
}

/// The mutation a command asks for, or why it cannot be applied.
pub open spec fn command_op_spec(c: Command) -> Result<MapOp, CommandError> {
    match c {
        Command::Block(IpAddress::V4(ip)) => Ok(MapOp::Block(ip)),
        Command::Unblock(IpAddress::V4(ip)) => Ok(MapOp::Unblock(ip)),
        Command::FilterLocalPort(p) => Ok(MapOp::FilterLocalPort(p)),
        Command::FilterRemoteAddr(SocketAddress::V4(e)) => Ok(MapOp::FilterRemoteAddr(e)),
        Command::Disconnected(SocketAddress::V4(_), pk) => Ok(MapOp::RemovePeer(pk)),
        _ => Err(CommandError::Unimplemented),
    }
}

/// The reason recorded for the blocking a command asks for; `NoBlocking` for the others.
pub open spec fn command_reason_spec(c: Command) -> BlockingReason {
    match c {
        Command::Block(_) => BlockingReason::EventFromTezedge,
        _ => BlockingReason::NoBlocking,
    }
}

/// Why an event leads to blocking its remote address; `NoBlocking` when it does not.
pub open spec fn event_reason_spec(e: EventInner, pow_valid: bool) -> BlockingReason {
    match e {
        EventInner::ReceivedPow(_) => if pow_valid {
            BlockingReason::NoBlocking
        } else {
            BlockingReason::BadProofOfWork
        },
        EventInner::NotEnoughBytesForPow => BlockingReason::BadProofOfWork,
        EventInner::BlockedAlreadyConnected { .. } => BlockingReason::AlreadyConnected,
    }
}

/// The mutation a command asks for; IPv6 variants are refused.
pub fn command_op(c: &Command) -> (r: Result<MapOp, CommandError>)
    ensures
        r == command_op_spec(*c),
{
    match c {
        Command::Block(IpAddress::V4(ip)) => Ok(MapOp::Block(*ip)),
        Command::Unblock(IpAddress::V4(ip)) => Ok(MapOp::Unblock(*ip)),
        Command::FilterLocalPort(p) => Ok(MapOp::FilterLocalPort(*p)),
        Command::FilterRemoteAddr(SocketAddress::V4(e)) => Ok(MapOp::FilterRemoteAddr(*e)),
        Command::Disconnected(SocketAddress::V4(_), pk) => Ok(MapOp::RemovePeer(*pk)),
        _ => Err(CommandError::Unimplemented),
    }
}

/// The reason recorded for the blocking a command asks for.
pub fn command_reason(c: &Command) -> (r: BlockingReason)
    ensures
        r == command_reason_spec(*c),
{
    match c {
        Command::Block(_) => BlockingReason::EventFromTezedge,
        _ => BlockingReason::NoBlocking,
    }
}

/// The reason an event blocks its remote address, given the proof-of-work verdict
/// (read only for a received proof-of-work).
pub fn event_reason(e: &EventInner, pow_valid: bool) -> (r: BlockingReason)
    ensures
        r == event_reason_spec(*e, pow_valid),
{
    match e {
        EventInner::ReceivedPow(_) => if pow_valid {
            BlockingReason::NoBlocking
        } else {
            BlockingReason::BadProofOfWork
        },
        EventInner::NotEnoughBytesForPow => BlockingReason::BadProofOfWork,
        EventInner::BlockedAlreadyConnected { .. } => BlockingReason::AlreadyConnected,
    }
}

impl StateStore {
    /// Applies one mutation.
    pub fn apply(&mut self, op: &MapOp)
        requires
            old(self).wf(),
        ensures
            final(self).wf(),
            op_post(*old(self), *final(self), *op),
    {
        match op {
            MapOp::Block(ip) => self.block_ip(*ip),
            MapOp::Unblock(ip) => self.unblock_ip(*ip),
            MapOp::FilterLocalPort(p) => self.filter_local_port(*p),
            MapOp::FilterRemoteAddr(e) => self.filter_remote_addr(*e),
            MapOp::RemovePeer(pk) => self.remove_peer(pk),
        }
    }
}

/// Applies a control command to the store and returns the reason recorded for it;
/// an IPv6 command changes nothing and is refused.
pub fn apply_command(store: &mut StateStore, c: &Command) -> (r: Result<BlockingReason, CommandError>)
    requires
        old(store).wf(),
    ensures
        final(store).wf(),
        match command_op_spec(*c) {
            Ok(op) => r == Ok::<BlockingReason, CommandError>(command_reason_spec(*c)) && op_post(
                *old(store),
                *final(store),
                op,
            ),
            Err(x) => r == Err::<BlockingReason, CommandError>(x) && unchanged(*old(store), *final(store)),
        },
{
    match command_op(c) {
        Ok(op) => {
            store.apply(&op);
            Ok(command_reason(c))
        },
        Err(x) => Err(x),
    }
}

/// Acts on one classifier event: blocks the remote address unless the event
/// carries a proof-of-work that passed validation. Returns the reason for blocking,
/// `NoBlocking` when the store was left as it was.
pub fn handle_event(store: &mut StateStore, e: &Event, pow_valid: bool) -> (r: BlockingReason)
    requires
        old(store).wf(),
    ensures
        final(store).wf(),
        r == event_reason_spec(e.event, pow_valid),
        r == BlockingReason::NoBlocking ==> unchanged(*old(store), *final(store)),
        r != BlockingReason::NoBlocking ==> op_post(*old(store), *final(store), MapOp::Block(e.pair.remote.ipv4)),
{
    let reason = event_reason(&e.event, pow_valid);
    match reason {
        BlockingReason::NoBlocking => {},
        _ => store.apply(&MapOp::Block(e.pair.remote.ipv4)),
    }
    reason
}

/// Blocking an address a second time leaves the store as the first block left it.
pub proof fn lemma_block_idempotent(s0: StateStore, s1: StateStore, s2: StateStore, ip: [u8; 4])
    requires
        op_post(s0, s1, MapOp::Block(ip)),
        op_post(s1, s2, MapOp::Block(ip)),
    ensures
        unchanged(s1, s2),
{
    let k = ip_key(ip);
    let b = bits_or_empty(s0.blacklist@, k);
    assert(bits_or_empty(s1.blacklist@, k) == b | BLOCKED_BIT);
    crate::status::lemma_blocked_idempotent(b);
    assert(s2.blacklist@ =~= s1.blacklist@);
}

/// Unblocking an address that is not on the blacklist changes nothing.
pub proof fn lemma_unblock_absent(s0: StateStore, s1: StateStore, ip: [u8; 4])
    requires
        !s0.blacklist@.contains_key(ip_key(ip)),
        op_post(s0, s1, MapOp::Unblock(ip)),
    ensures
        unchanged(s0, s1),
{
    assert(s1.blacklist@ =~= s0.blacklist@);
}

} // verus!
