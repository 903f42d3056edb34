//! Little-endian integers and variable-length integers on byte sequences.
//!
//! A variable-length integer takes one byte when below 251, and otherwise a marker
//! byte (251, 252 or 253) followed by 2, 4 or 8 little-endian bytes.
use vstd::prelude::*;

verus! {

pub open spec fn pow256(k: nat) -> nat
    decreases k,
{
    if k == 0 {
        1
    } else {
        256 * pow256((k - 1) as nat)
    }
}

/// The `k` low-order bytes of `v`, least significant first.
pub open spec fn le_bytes(v: nat, k: nat) -> Seq<u8>
    decreases k,
{
    if k == 0 {
        Seq::empty()
    } else {
        seq![(v % 256) as u8] + le_bytes(v / 256, (k - 1) as nat)
    }
}

/// The value of the `k` little-endian bytes of `b` that start at `pos`.
pub open spec fn le_value(b: Seq<u8>, pos: int, k: nat) -> nat
    decreases k,
{
    if k == 0 {
        0
    } else {
        b[pos] as nat + 256 * le_value(b, pos + 1, (k - 1) as nat)
    }
}

/// The variable-length encoding of `v`.
pub open spec fn varint(v: u64) -> Seq<u8> {
    if v < 251 {
        seq![v as u8]
    } else if v < 0x1_0000 {
        seq![251u8] + le_bytes(v as nat, 2)
    } else if v < 0x1_0000_0000 {
        seq![252u8] + le_bytes(v as nat, 4)
    } else {
        seq![253u8] + le_bytes(v as nat, 8)
    }
}

/// Reads a variable-length integer at `pos`: its value and the position after it.
pub open spec fn read_varint(b: Seq<u8>, pos: int) -> Option<(u64, int)> {
    if pos < 0 || pos >= b.len() {
        None
    } else if b[pos] < 251 {
        Some((b[pos] as u64, pos + 1))
    } else if b[pos] == 251 {
        if pos + 3 <= b.len() {
            Some((le_value(b, pos + 1, 2) as u64, pos + 3))
        } else {
            None
        }
    } else if b[pos] == 252 {
        if pos + 5 <= b.len() {
            Some((le_value(b, pos + 1, 4) as u64, pos + 5))
        } else {
            None
        }
    } else if b[pos] == 253 {
        if pos + 9 <= b.len() {
            Some((le_value(b, pos + 1, 8) as u64, pos + 9))
        } else {
            None
        }
    } else {
        None
    }
}

/// `b` holds `e` from `pos` on.
pub open spec fn holds_at(b: Seq<u8>, pos: int, e: Seq<u8>) -> bool {
    &&& 0 <= pos
    &&& pos + e.len() <= b.len()
    &&& b.subrange(pos, pos + e.len()) == e
}

pub proof fn lemma_pow256_values()
    ensures
        pow256(2) == 0x1_0000,
        pow256(4) == 0x1_0000_0000,
        pow256(7) == 0x100_0000_0000_0000,
        pow256(8) == 0x1_0000_0000_0000_0000,
{
    reveal_with_fuel(pow256, 9);
}

pub proof fn lemma_pow256_monotonic(j: nat, k: nat)
    requires
        j <= k,
    ensures
        pow256(j) <= pow256(k),
    decreases k,
{
    if j < k {
        lemma_pow256_monotonic(j, (k - 1) as nat);
    }
}

pub proof fn lemma_le_bytes_len(v: nat, k: nat)
    ensures
        le_bytes(v, k).len() == k,
    decreases k,
{
    if k > 0 {
        lemma_le_bytes_len(v / 256, (k - 1) as nat);
    }
}

pub proof fn lemma_le_value_bound(b: Seq<u8>, pos: int, k: nat)
    ensures
        le_value(b, pos, k) < pow256(k),
    decreases k,
{
    if k > 0 {
        let k1 = (k - 1) as nat;
        lemma_le_value_bound(b, pos + 1, k1);
        let r = le_value(b, pos + 1, k1);
        let p = pow256(k1);
        let d = b[pos] as nat;
        assert(d + 256 * r < 256 * p) by (nonlinear_arith)
            requires
                d < 256,
                r < p,
        ;
    }
}

/// Reading back `k` bytes written from a value below `256^k` gives that value.
pub proof fn lemma_le_round_trip(b: Seq<u8>, pos: int, v: nat, k: nat)
    requires
        v < pow256(k),
        holds_at(b, pos, le_bytes(v, k)),
    ensures
        le_value(b, pos, k) == v,
    decreases k,
{
    lemma_le_bytes_len(v, k);
    if k > 0 {
        let k1 = (k - 1) as nat;
        let e = le_bytes(v, k);
        let rest = le_bytes(v / 256, k1);
        lemma_le_bytes_len(v / 256, k1);
        assert(b[pos] == e[0]);
        assert(b.subrange(pos + 1, pos + 1 + rest.len()) =~= rest) by {
            assert forall|i: int| 0 <= i < rest.len() implies b.subrange(
                pos + 1,
                pos + 1 + rest.len(),
            )[i] == rest[i] by {
                assert(b[pos + 1 + i] == b.subrange(pos, pos + e.len())[i + 1]);
            }
        }
        assert(v / 256 < pow256(k1)) by (nonlinear_arith)
            requires
                v < 256 * pow256(k1),
        ;
        lemma_le_round_trip(b, pos + 1, v / 256, k1);
    }
}

pub proof fn lemma_varint_len(v: u64)
    ensures
        1 <= varint(v).len() <= 9,
{
    lemma_le_bytes_len(v as nat, 2);
    lemma_le_bytes_len(v as nat, 4);
    lemma_le_bytes_len(v as nat, 8);
}

/// Reading a variable-length integer where one was written gives it back.
pub proof fn lemma_varint_round_trip(b: Seq<u8>, pos: int, v: u64)
    requires
        holds_at(b, pos, varint(v)),
    ensures
        read_varint(b, pos) == Some((v, pos + varint(v).len())),
{
    lemma_pow256_values();
    let e = varint(v);
    lemma_varint_len(v);
    assert(b[pos] == e[0]);
    if v >= 251 {
        let k: nat = if v < 0x1_0000 {
            2
        } else if v < 0x1_0000_0000 {
            4
        } else {
            8
        };
        let rest = le_bytes(v as nat, k);
        lemma_le_bytes_len(v as nat, k);
        assert(e == seq![e[0]] + rest);
        assert(b.subrange(pos + 1, pos + 1 + rest.len()) =~= rest) by {
            assert forall|i: int| 0 <= i < rest.len() implies b.subrange(
                pos + 1,
                pos + 1 + rest.len(),
            )[i] == rest[i] by {
                assert(b[pos + 1 + i] == b.subrange(pos, pos + e.len())[i + 1]);
            }
        }
        lemma_le_round_trip(b, pos + 1, v as nat, k);
    }
}

/// Two pieces written one after the other can each be found where they begin.
pub proof fn lemma_holds_split(b: Seq<u8>, pos: int, x: Seq<u8>, y: Seq<u8>)
    requires
        holds_at(b, pos, x + y),
    ensures
        holds_at(b, pos, x),
        holds_at(b, pos + x.len(), y),
{
    let xy = x + y;
    assert(b.subrange(pos, pos + x.len()) =~= x) by {
        assert forall|i: int| 0 <= i < x.len() implies b.subrange(pos, pos + x.len())[i] == x[i] by {
            assert(b[pos + i] == b.subrange(pos, pos + xy.len())[i]);
        }
    }
    assert(b.subrange(pos + x.len(), pos + x.len() + y.len()) =~= y) by {
        assert forall|i: int| 0 <= i < y.len() implies b.subrange(
            pos + x.len(),
            pos + x.len() + y.len(),
        )[i] == y[i] by {
            assert(b[pos + x.len() + i] == b.subrange(pos, pos + xy.len())[x.len() + i]);
        }
    }
}

/// Appends the `k` low-order bytes of `v`, least significant first.
pub fn push_le(out: &mut Vec<u8>, v: u64, k: usize)
    requires
        k <= 8,
    ensures
        final(out)@ == old(out)@ + le_bytes(v as nat, k as nat),
    decreases k,
{
    if k > 0 {
        let ghost start = out@;
        out.push((v % 256) as u8);
        push_le(out, v / 256, k - 1);
        assert(final(out)@ =~= start + le_bytes(v as nat, k as nat));
    }
}

/// The value of the `k` little-endian bytes of `b` that start at `pos`.
pub fn read_le(b: &[u8], pos: usize, k: usize) -> (r: u64)
    requires
        k <= 8,
        pos + k <= b@.len(),
    ensures
        r as nat == le_value(b@, pos as int, k as nat),
    decreases k,
{
    if k == 0 {
        0
    } else {
        let n: usize = b.len();
        assert(pos < n);
        let rest: u64 = read_le(b, pos + 1, k - 1);
        proof {
            lemma_le_value_bound(b@, pos + 1, (k - 1) as nat);
            lemma_pow256_monotonic((k - 1) as nat, 7);
            lemma_pow256_values();
        }
        b[pos] as u64 + 256 * rest
    }
}

/// Appends the variable-length encoding of `v`.
pub fn push_varint(out: &mut Vec<u8>, v: u64)
    ensures
        final(out)@ == old(out)@ + varint(v),
{
    let ghost start = out@;
    if v < 251 {
        out.push(v as u8);
    } else if v < 0x1_0000 {
        out.push(251u8);
        push_le(out, v, 2);
    } else if v < 0x1_0000_0000 {
        out.push(252u8);
        push_le(out, v, 4);
    } else {
        out.push(253u8);
        push_le(out, v, 8);
    }
    assert(final(out)@ =~= start + varint(v));
}

/// Reads a variable-length integer at `pos`.
pub fn read_varint_at(b: &[u8], pos: usize) -> (r: Option<(u64, usize)>)
    ensures
        r is Some <==> read_varint(b@, pos as int) is Some,
        r matches Some((v, q)) ==> read_varint(b@, pos as int) == Some((v, q as int)),
{
    proof {
        lemma_pow256_values();
        lemma_le_value_bound(b@, pos + 1, 2);
        lemma_le_value_bound(b@, pos + 1, 4);
        lemma_le_value_bound(b@, pos + 1, 8);
    }
    if pos >= b.len() {
        return None;
    }
    let d: u8 = b[pos];
    let left: usize = b.len() - pos;
    if d < 251 {
        Some((d as u64, pos + 1))
    } else if d == 251 {
        if left >= 3 {
            Some((read_le(b, pos + 1, 2), pos + 3))
        } else {
            None
        }
    } else if d == 252 {
        if left >= 5 {
            Some((read_le(b, pos + 1, 4), pos + 5))
        } else {
            None
        }
    } else if d == 253 {
        if left >= 9 {
            Some((read_le(b, pos + 1, 8), pos + 9))
        } else {
            None
        }
    } else {
        None
    }
}

} // verus!
