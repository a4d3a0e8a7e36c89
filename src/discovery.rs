//! Discovery of the host: the beacon, and the address that a reply names.
use vstd::prelude::*;

verus! {

/// An IPv4 socket address.
#[derive(Clone, Copy, Debug, PartialEq, Eq, Hash)]
pub struct ServerAddress {
    pub ip: [u8; 4],
    pub port: u16,
}

#[derive(Clone, Copy, Debug, PartialEq, Eq, Structural)]
pub enum DiscoveryError {
    /// The reply is not a decimal port number.
    MalformedReply,
}

/// The payload of the presence beacon.
pub open spec fn beacon() -> Seq<u8> {
    seq![104u8, 101u8, 108u8, 108u8, 111u8]
}

/// The bytes of the presence beacon (`hello`).
pub fn beacon_payload() -> (r: Vec<u8>)
    ensures
        r@ == beacon(),
{
    let r: Vec<u8> = vec![104u8, 101u8, 108u8, 108u8, 111u8];
    assert(r@ =~= beacon());
    r
}

pub open spec fn is_digit(b: u8) -> bool {
    48 <= b <= 57
}

/// The number that decimal digits stand for.
pub open spec fn decimal_value(s: Seq<u8>) -> int
    decreases s.len(),
{
    if s.len() == 0 {
        0
    } else {
        decimal_value(s.drop_last()) * 10 + (s.last() - 48)
    }
}

/// The digits of a port number: an optional `+` is dropped.
pub open spec fn unsigned_digits(s: Seq<u8>) -> Seq<u8> {
    if s.len() > 0 && s[0] == 43 {
        s.skip(1)
    } else {
        s
    }
}

/// The port number that a reply holds: one or more decimal digits, after an
/// optional `+`, of a value that fits in 16 bits.
pub open spec fn port_of(s: Seq<u8>) -> Option<u16> {
    let d = unsigned_digits(s);
    if d.len() > 0 && (forall|i: int| 0 <= i < d.len() ==> is_digit(#[trigger] d[i])) && decimal_value(d)
        <= u16::MAX {
        Some(decimal_value(d) as u16)
    } else {
        None
    }
}

proof fn lemma_decimal_value_nonneg(s: Seq<u8>)
    requires
        forall|i: int| 0 <= i < s.len() ==> is_digit(#[trigger] s[i]),
    ensures
        decimal_value(s) >= 0,
    decreases s.len(),
{
    if s.len() > 0 {
        lemma_decimal_value_nonneg(s.drop_last());
    }
}

proof fn lemma_decimal_value_grows(s: Seq<u8>, k: int)
    requires
        0 <= k <= s.len(),
        forall|i: int| 0 <= i < s.len() ==> is_digit(#[trigger] s[i]),
    ensures
        decimal_value(s.subrange(0, k)) <= decimal_value(s),
    decreases s.len() - k,
{
    if k < s.len() {
        let t = s.subrange(0, k + 1);
        assert(t.drop_last() =~= s.subrange(0, k));
        lemma_decimal_value_nonneg(s.subrange(0, k));
        lemma_decimal_value_grows(s, k + 1);
    } else {
        assert(s.subrange(0, k) =~= s);
    }
}

/// Reads the port number of a discovery reply.
pub fn parse_port(reply: &[u8]) -> (r: Option<u16>)
    ensures
        r == port_of(reply@),
{
    let ghost d = unsigned_digits(reply@);
    let start: usize = if reply.len() > 0 && reply[0] == 43 {
        1
    } else {
        0
    };
    assert(d =~= reply@.skip(start as int));
    if start == reply.len() {
        return None;
    }
    let mut value: u32 = 0;
    let mut i: usize = start;
    while i < reply.len()
        invariant
            start <= i <= reply@.len(),
            d == reply@.skip(start as int),
            d == unsigned_digits(reply@),
            forall|j: int| 0 <= j < i - start ==> is_digit(#[trigger] d[j]),
            value == decimal_value(d.subrange(0, i - start)),
            value <= u16::MAX,
        decreases reply@.len() - i,
    {
        let b = reply[i];
        if b < 48 || b > 57 {
            assert(!is_digit(d[i - start]));
            return None;
        }
        let ghost pre = d.subrange(0, i - start);
        assert(d.subrange(0, i - start + 1).drop_last() =~= pre);
        let next: u32 = value * 10 + (b - 48) as u32;
        assert(decimal_value(d.subrange(0, i - start + 1)) == next);
        if next > 65535 {
            proof {
                assert(forall|j: int| 0 <= j < i - start + 1 ==> is_digit(#[trigger] d[j]));
                if forall|j: int| 0 <= j < d.len() ==> is_digit(#[trigger] d[j]) {
                    lemma_decimal_value_grows(d, i - start + 1);
                }
            }
            return None;
        }
        value = next;
        i = i + 1;
    }
    assert(d.subrange(0, d.len() as int) =~= d);
    Some(value as u16)
}

/// The address of the host: the sender of the reply, at the port the reply
/// names.
pub fn discovered_address(sender_ip: [u8; 4], reply: &[u8]) -> (r: Result<ServerAddress, DiscoveryError>)
    ensures
        match port_of(reply@) {
            Some(p) => r == Ok::<ServerAddress, DiscoveryError>(ServerAddress { ip: sender_ip, port: p }),
            None => r == Err::<ServerAddress, DiscoveryError>(DiscoveryError::MalformedReply),
        },
{
    match parse_port(reply) {
        Some(port) => Ok(ServerAddress { ip: sender_ip, port }),
        None => Err(DiscoveryError::MalformedReply),
    }
}

} // verus!
