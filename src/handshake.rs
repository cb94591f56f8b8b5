use vstd::prelude::*;

verus! {

/// The only version of the handshake record this library reads.
///
/// Layout, in bytes: the version; the 16-byte credential; the destination
/// port, big-endian; the address kind (`1` IPv4, `2` domain name, `3` IPv6);
/// then the address: 4 bytes, a length byte (at least 1) and that many bytes
/// of name, or 16 bytes. What follows the record is payload.
pub const HANDSHAKE_VERSION: u8 = 1;

pub const CREDENTIAL_LEN: usize = 16;

#[derive(Clone, Copy, Debug, PartialEq, Eq, Structural)]
pub enum AddressKind {
    Ipv4,
    Domain,
    Ipv6,
}

/// A parsed handshake record.
#[derive(Debug, PartialEq, Eq)]
pub struct Handshake {
    pub credential: Vec<u8>,
    pub kind: AddressKind,
    pub address: Vec<u8>,
    pub port: u16,
}

/// What a prefix of the client's bytes amounts to.
#[derive(Debug, PartialEq, Eq)]
pub enum HandshakeParse {
    /// More bytes are needed.
    Incomplete,
    /// No continuation of these bytes is a valid record.
    Malformed,
    /// A record, and the number of bytes it takes.
    Complete(Handshake, usize),
}

pub enum ParseModel {
    Incomplete,
    Malformed,
    Complete { credential: Seq<u8>, kind: AddressKind, address: Seq<u8>, port: u16, consumed: nat },
}

impl View for HandshakeParse {
    type V = ParseModel;

    open spec fn view(&self) -> ParseModel {
        match self {
            HandshakeParse::Incomplete => ParseModel::Incomplete,
            HandshakeParse::Malformed => ParseModel::Malformed,
            HandshakeParse::Complete(h, n) => ParseModel::Complete {
                credential: h.credential@,
                kind: h.kind,
                address: h.address@,
                port: h.port,
                consumed: *n as nat,
            },
        }
    }
}

pub open spec fn kind_of(tag: u8) -> Option<AddressKind> {
    if tag == 1 {
        Some(AddressKind::Ipv4)
    } else if tag == 2 {
        Some(AddressKind::Domain)
    } else if tag == 3 {
        Some(AddressKind::Ipv6)
    } else {
        None
    }
}

/// Where the address starts, for a record whose first 21 bytes are `b`'s.
pub open spec fn address_start(kind: AddressKind) -> int {
    if kind == AddressKind::Domain {
        21
    } else {
        20
    }
}

pub open spec fn address_len(kind: AddressKind, b: Seq<u8>) -> int {
    match kind {
        AddressKind::Ipv4 => 4,
        AddressKind::Ipv6 => 16,
        AddressKind::Domain => b[20] as int,
    }
}

/// The meaning of the client's first bytes under the record layout.
pub open spec fn parse_model(b: Seq<u8>) -> ParseModel {
    if b.len() == 0 {
        ParseModel::Incomplete
    } else if b[0] != HANDSHAKE_VERSION {
        ParseModel::Malformed
    } else if b.len() < 20 {
        ParseModel::Incomplete
    } else if kind_of(b[19]) is None {
        ParseModel::Malformed
    } else if kind_of(b[19]) == Some(AddressKind::Domain) && b.len() < 21 {
        ParseModel::Incomplete
    } else if kind_of(b[19]) == Some(AddressKind::Domain) && b[20] == 0 {
        ParseModel::Malformed
    } else {
        let kind = kind_of(b[19])->Some_0;
        let start = address_start(kind);
        let end = start + address_len(kind, b);
        if b.len() < end {
            ParseModel::Incomplete
        } else {
            ParseModel::Complete {
                credential: b.subrange(1, 17),
                kind,
                address: b.subrange(start, end),
                port: (b[17] as int * 256 + b[18] as int) as u16,
                consumed: end as nat,
            }
        }
    }
}

pub(crate) fn copy_range(b: &[u8], from: usize, to: usize) -> (r: Vec<u8>)
    requires
        from <= to <= b@.len(),
    ensures
        r@ == b@.subrange(from as int, to as int),
{
    let mut r: Vec<u8> = Vec::new();
    let mut i: usize = from;
    while i < to
        invariant
            from <= i <= to <= b@.len(),
            r@ == b@.subrange(from as int, i as int),
        decreases to - i,
    {
        r.push(b[i]);
        i = i + 1;
        assert(r@ =~= b@.subrange(from as int, i as int));
    }
    r
}

/// Reads a handshake record from the start of `b`.
pub fn parse_handshake(b: &[u8]) -> (r: HandshakeParse)
    ensures
        r@ == parse_model(b@),
{
    let n = b.len();
    if n == 0 {
        return HandshakeParse::Incomplete;
    }
    if b[0] != HANDSHAKE_VERSION {
        return HandshakeParse::Malformed;
    }
    if n < 20 {
        return HandshakeParse::Incomplete;
    }
    let tag = b[19];
    let kind = if tag == 1 {
        AddressKind::Ipv4
    } else if tag == 2 {
        AddressKind::Domain
    } else if tag == 3 {
        AddressKind::Ipv6
    } else {
        return HandshakeParse::Malformed;
    };
    let (start, len): (usize, usize) = match kind {
        AddressKind::Ipv4 => (20, 4),
        AddressKind::Ipv6 => (20, 16),
        AddressKind::Domain => {
            if n < 21 {
                return HandshakeParse::Incomplete;
            }
            if b[20] == 0 {
                return HandshakeParse::Malformed;
            }
            (21, b[20] as usize)
        },
    };
    let end = start + len;
    if n < end {
        return HandshakeParse::Incomplete;
    }
    let credential = copy_range(b, 1, 1 + CREDENTIAL_LEN);
    let address = copy_range(b, start, end);
    let port: u16 = (b[17] as u16) * 256 + b[18] as u16;
    HandshakeParse::Complete(Handshake { credential, kind, address, port }, end)
}

/// Compares two credentials without stopping at the first differing byte.
pub fn credentials_match(a: &[u8], b: &[u8]) -> (r: bool)
    ensures
        r == (a@ == b@),
{
    if a.len() != b.len() {
        return false;
    }
    let mut diff: u8 = 0;
    let mut i: usize = 0;
    assert(a@.subrange(0, 0) =~= b@.subrange(0, 0));
    while i < a.len()
        invariant
            i <= a@.len() == b@.len(),
            (diff == 0) == (a@.subrange(0, i as int) == b@.subrange(0, i as int)),
        decreases a.len() - i,
    {
        let x = a[i];
        let y = b[i];
        let d = diff | (x ^ y);
        assert((d == 0) == (diff == 0 && x == y)) by (bit_vector)
            requires
                d == diff | (x ^ y),
        ;
        assert(a@.subrange(0, i + 1) == a@.subrange(0, i as int).push(x));
        assert(b@.subrange(0, i + 1) == b@.subrange(0, i as int).push(y));
        proof {
            if a@.subrange(0, i + 1) == b@.subrange(0, i + 1) {
                assert(a@.subrange(0, i + 1)[i as int] == b@.subrange(0, i + 1)[i as int]);
                assert(a@.subrange(0, i as int) =~= a@.subrange(0, i + 1).drop_last());
                assert(b@.subrange(0, i as int) =~= b@.subrange(0, i + 1).drop_last());
            }
        }
        diff = d;
        i = i + 1;
    }
    assert(a@.subrange(0, i as int) =~= a@);
    assert(b@.subrange(0, i as int) =~= b@);
    diff == 0
}

} // verus!
