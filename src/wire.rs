use vstd::prelude::*;

verus! {

/// The type and sequence number at the front of a sealed packet.
#[derive(Debug, Clone, Copy, PartialEq, Eq, Structural)]
pub struct Header {
    pub packet_type: u8,
    pub sequence: u64,
}

/// The unsigned value of little-endian bytes.
pub open spec fn le_value(b: Seq<u8>) -> nat
    decreases b.len(),
{
    if b.len() == 0 {
        0
    } else {
        b[0] as nat + 256 * le_value(b.drop_first())
    }
}

pub open spec fn pow256(n: nat) -> nat
    decreases n,
{
    if n == 0 {
        1
    } else {
        256 * pow256((n - 1) as nat)
    }
}

/// Number of sequence bytes announced by the prefix byte (its high four bits).
pub open spec fn sequence_len(prefix: u8) -> u8 {
    prefix >> 4u8
}

/// Packet type announced by the prefix byte (its low four bits).
pub open spec fn packet_type_of(prefix: u8) -> u8 {
    prefix & 15u8
}

/// A prefix byte announcing 1 to 8 sequence bytes, all present.
pub open spec fn header_ok(data: Seq<u8>) -> bool {
    &&& data.len() >= 1
    &&& 1 <= sequence_len(data[0]) <= 8
    &&& data.len() >= 1 + sequence_len(data[0])
}

pub open spec fn header_of(data: Seq<u8>) -> Header {
    Header {
        packet_type: packet_type_of(data[0]),
        sequence: le_value(data.subrange(1, 1 + sequence_len(data[0]) as int)) as u64,
    }
}

proof fn lemma_pow256_le(m: nat)
    requires
        m <= 8,
    ensures
        pow256(m) <= 0x1_0000_0000_0000_0000,
    decreases m,
{
    if m > 0 {
        lemma_pow256_le((m - 1) as nat);
        if m < 8 {
            lemma_pow256_below((m - 1) as nat);
        } else {
            reveal_with_fuel(pow256, 9);
        }
    }
}

proof fn lemma_pow256_below(m: nat)
    requires
        m < 7,
    ensures
        pow256(m) <= 0x1_0000_0000_0000,
    decreases m,
{
    reveal_with_fuel(pow256, 8);
    if m > 0 {
        lemma_pow256_below((m - 1) as nat);
    }
}

/// Reads the prefix byte and the little-endian sequence number after it.
pub fn read_header(data: &[u8]) -> (r: Option<Header>)
    ensures
        r is Some <==> header_ok(data@),
        r is Some ==> r->0 == header_of(data@),
{
    if data.len() < 1 {
        return None;
    }
    let prefix = data[0];
    let n = prefix >> 4u8;
    if n < 1 || n > 8 || data.len() < 1 + n as usize {
        return None;
    }
    let ghost b = data@.subrange(1, 1 + n as int);
    let mut k: usize = n as usize;
    let mut v: u64 = 0;
    proof {
        assert(b.subrange(n as int, n as int) =~= Seq::<u8>::empty());
    }
    while k > 0
        invariant
            1 <= n <= 8,
            data@.len() >= 1 + n,
            b == data@.subrange(1, 1 + n as int),
            k <= n,
            v as nat == le_value(b.subrange(k as int, n as int)),
            v < pow256((n - k) as nat),
        decreases k,
    {
        let ghost old_v = v;
        k = k - 1;
        let byte = data[1 + k];
        proof {
            assert(b.subrange(k as int, n as int).drop_first() =~= b.subrange(k + 1, n as int));
            assert(b[k as int] == byte);
            let m = (n - k - 1) as nat;
            lemma_pow256_le(m + 1);
            assert(pow256(m + 1) == 256 * pow256(m));
            assert(256 * (old_v as int) + (byte as int) < 256 * pow256(m)) by (nonlinear_arith)
                requires old_v < pow256(m), byte < 256;
        }
        v = byte as u64 + 256 * v;
    }
    proof {
        assert(b.subrange(0, n as int) =~= b);
    }
    Some(Header { packet_type: prefix & 15u8, sequence: v })
}

} // verus!
