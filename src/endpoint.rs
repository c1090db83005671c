use vstd::prelude::*;

verus! {

/// One side of a TCP flow: an IPv4 address and a port, both in network byte order.
#[derive(Clone, Copy, Debug, PartialEq, Eq)]
pub struct Endpoint {
    pub ipv4: [u8; 4],
    pub port: [u8; 2],
}

/// The two sides of one TCP flow, as seen from this host.
#[derive(Clone, Copy, Debug, PartialEq, Eq)]
pub struct EndpointPair {
    pub remote: Endpoint,
    pub local: Endpoint,
}

/// Size of an encoded endpoint.
pub const ENDPOINT_LEN: usize = 6;

/// Size of an encoded endpoint pair.
pub const PAIR_LEN: usize = 12;

/// The 6-byte encoding of an endpoint: address, then port.
pub open spec fn endpoint_bytes(e: Endpoint) -> Seq<u8> {
    e.ipv4@ + e.port@
}

/// The endpoint that 6 bytes encode.
pub open spec fn endpoint_of(b: Seq<u8>) -> Endpoint {
    Endpoint { ipv4: [b[0], b[1], b[2], b[3]], port: [b[4], b[5]] }
}

/// The 12-byte encoding of a pair: local endpoint, then remote endpoint.
pub open spec fn pair_bytes(p: EndpointPair) -> Seq<u8> {
    endpoint_bytes(p.local) + endpoint_bytes(p.remote)
}

/// The pair that 12 bytes encode.
pub open spec fn pair_of(b: Seq<u8>) -> EndpointPair {
    EndpointPair { local: endpoint_of(b.subrange(0, 6)), remote: endpoint_of(b.subrange(6, 12)) }
}

/// An IPv4 address read as a big-endian number.
pub open spec fn ip_key(ip: [u8; 4]) -> u32 {
    (ip[0] as int * 0x100_0000 + ip[1] as int * 0x1_0000 + ip[2] as int * 0x100 + ip[3] as int) as u32
}

/// A port read as a big-endian number.
pub open spec fn port_value(port: [u8; 2]) -> u16 {
    (port[0] as int * 0x100 + port[1] as int) as u16
}

/// An endpoint read as a 48-bit number: address above port.
pub open spec fn endpoint_key(e: Endpoint) -> u64 {
    (ip_key(e.ipv4) as int * 0x1_0000 + port_value(e.port) as int) as u64
}

/// A pair read as a 96-bit number: local endpoint above remote endpoint.
pub open spec fn pair_key(p: EndpointPair) -> u128 {
    (endpoint_key(p.local) as int * 0x1_0000_0000_0000 + endpoint_key(p.remote) as int) as u128
}

impl Endpoint {
    pub fn new(ipv4: [u8; 4], port: u16) -> (r: Endpoint)
        ensures
            r.ipv4 == ipv4,
            port_value(r.port) == port,
    {
        let hi: u8 = (port / 256) as u8;
        let lo: u8 = (port % 256) as u8;
        Endpoint { ipv4, port: [hi, lo] }
    }

    /// The port as a number.
    pub fn port_number(&self) -> (r: u16)
        ensures
            r == port_value(self.port),
    {
        self.port[0] as u16 * 256 + self.port[1] as u16
    }

    /// The address as a number.
    pub fn ip_number(&self) -> (r: u32)
        ensures
            r == ip_key(self.ipv4),
    {
        ip_to_u32(&self.ipv4)
    }

    /// The map key of this endpoint.
    pub fn key(&self) -> (r: u64)
        ensures
            r == endpoint_key(*self),
    {
        self.ip_number() as u64 * 0x1_0000 + self.port_number() as u64
    }

    pub fn encode(&self) -> (r: Vec<u8>)
        ensures
            r@ == endpoint_bytes(*self),
    {
        let mut r: Vec<u8> = Vec::new();
        r.push(self.ipv4[0]);
        r.push(self.ipv4[1]);
        r.push(self.ipv4[2]);
        r.push(self.ipv4[3]);
        r.push(self.port[0]);
        r.push(self.port[1]);
        assert(r@ =~= endpoint_bytes(*self));
        r
    }

    /// Reads the endpoint from the 6 bytes at `start`.
    pub fn decode_at(b: &[u8], start: usize) -> (r: Endpoint)
        requires
            start + 6 <= b@.len(),
        ensures
            r == endpoint_of(b@.subrange(start as int, start + 6)),
    {
        Endpoint {
            ipv4: [b[start], b[start + 1], b[start + 2], b[start + 3]],
            port: [b[start + 4], b[start + 5]],
        }
    }

    /// Decodes a 6-byte record; `None` exactly when the length is not 6.
    pub fn decode(b: &[u8]) -> (r: Option<Endpoint>)
        ensures
            b@.len() == ENDPOINT_LEN ==> r == Some(endpoint_of(b@)),
            b@.len() != ENDPOINT_LEN ==> r.is_none(),
    {
        if b.len() != ENDPOINT_LEN {
            return None;
        }
        let e = Endpoint::decode_at(b, 0);
        assert(b@.subrange(0, 6) =~= b@);
        Some(e)
    }
}

/// An address as a big-endian number.
pub fn ip_to_u32(ip: &[u8; 4]) -> (r: u32)
    ensures
        r == ip_key(*ip),
{
    ip[0] as u32 * 0x100_0000 + ip[1] as u32 * 0x1_0000 + ip[2] as u32 * 0x100 + ip[3] as u32
}

impl EndpointPair {
    /// The map key of this pair.
    pub fn key(&self) -> (r: u128)
        ensures
            r == pair_key(*self),
    {
        self.local.key() as u128 * 0x1_0000_0000_0000 + self.remote.key() as u128
    }

    pub fn encode(&self) -> (r: Vec<u8>)
        ensures
            r@ == pair_bytes(*self),
    {
        let mut r = self.local.encode();
        let mut rest = self.remote.encode();
        r.append(&mut rest);
        r
    }

    /// Reads the pair from the 12 bytes at `start`.
    pub fn decode_at(b: &[u8], start: usize) -> (r: EndpointPair)
        requires
            start + 12 <= b@.len(),
        ensures
            r == pair_of(b@.subrange(start as int, start + 12)),
    {
        let n = b.len();
        assert(start + 6 <= n);
        let local = Endpoint::decode_at(b, start);
        let remote = Endpoint::decode_at(b, start + 6);
        let ghost s = b@.subrange(start as int, start + 12);
        assert(s.subrange(0, 6) =~= b@.subrange(start as int, start + 6));
        assert(s.subrange(6, 12) =~= b@.subrange(start + 6, start + 12));
        EndpointPair { local, remote }
    }

    /// Decodes a 12-byte record; `None` exactly when the length is not 12.
    pub fn decode(b: &[u8]) -> (r: Option<EndpointPair>)
        ensures
            b@.len() == PAIR_LEN ==> r == Some(pair_of(b@)),
            b@.len() != PAIR_LEN ==> r.is_none(),
    {
        if b.len() != PAIR_LEN {
            return None;
        }
        let p = EndpointPair::decode_at(b, 0);
        assert(b@.subrange(0, 12) =~= b@);
        Some(p)
    }
}

/// Decoding the encoding of an endpoint gives it back.
pub proof fn lemma_endpoint_round_trip(e: Endpoint)
    ensures
        endpoint_bytes(e).len() == ENDPOINT_LEN,
        endpoint_of(endpoint_bytes(e)) == e,
{
    let b = endpoint_bytes(e);
    assert(endpoint_of(b).ipv4 =~= e.ipv4);
    assert(endpoint_of(b).port =~= e.port);
}

/// Decoding the encoding of a pair gives it back.
pub proof fn lemma_pair_round_trip(p: EndpointPair)
    ensures
        pair_bytes(p).len() == PAIR_LEN,
        pair_of(pair_bytes(p)) == p,
{
    let b = pair_bytes(p);
    lemma_endpoint_round_trip(p.local);
    lemma_endpoint_round_trip(p.remote);
    assert(b.subrange(0, 6) =~= endpoint_bytes(p.local));
    assert(b.subrange(6, 12) =~= endpoint_bytes(p.remote));
}

/// Every 6-byte record is the encoding of the endpoint it decodes to.
pub proof fn lemma_endpoint_bytes_round_trip(b: Seq<u8>)
    requires
        b.len() == ENDPOINT_LEN,
    ensures
        endpoint_bytes(endpoint_of(b)) == b,
{
    assert(endpoint_bytes(endpoint_of(b)) =~= b);
}

/// Every 12-byte record is the encoding of the pair it decodes to.
pub proof fn lemma_pair_bytes_round_trip(b: Seq<u8>)
    requires
        b.len() == PAIR_LEN,
    ensures
        pair_bytes(pair_of(b)) == b,
{
    lemma_endpoint_bytes_round_trip(b.subrange(0, 6));
    lemma_endpoint_bytes_round_trip(b.subrange(6, 12));
    assert(pair_bytes(pair_of(b)) =~= b);
}

} // verus!
