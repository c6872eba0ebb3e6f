//! Numbers as bytes, the lowest first.
use vstd::prelude::*;

verus! {

/// The number of values that `n` bytes have.
pub open spec fn values(n: nat) -> int
    decreases n,
{
    if n == 0 {
        1
    } else {
        256 * values((n - 1) as nat)
    }
}

/// The lowest `n` bytes of a number, the lowest first.
pub open spec fn le_bytes(x: int, n: nat) -> Seq<u8>
    decreases n,
{
    if n == 0 {
        Seq::empty()
    } else {
        seq![(x % 256) as u8] + le_bytes(x / 256, (n - 1) as nat)
    }
}

/// The number that bytes stand for, the lowest first.
pub open spec fn le_value(s: Seq<u8>) -> int
    decreases s.len(),
{
    if s.len() == 0 {
        0
    } else {
        s[0] + 256 * le_value(s.skip(1))
    }
}

/// There are as many bytes as were asked for.
pub proof fn lemma_le_bytes_len(x: int, n: nat)
    ensures
        le_bytes(x, n).len() == n,
    decreases n,
{
    if n > 0 {
        lemma_le_bytes_len(x / 256, (n - 1) as nat);
    }
}

/// The number that bytes stand for is one of the values that they have.
pub proof fn lemma_le_value_bound(s: Seq<u8>)
    ensures
        0 <= le_value(s) < values(s.len()),
    decreases s.len(),
{
    if s.len() > 0 {
        lemma_le_value_bound(s.skip(1));
    }
}

/// How many values two, four and eight bytes have.
pub proof fn lemma_values()
    ensures
        values(2) == 0x1_0000,
        values(4) == 0x1_0000_0000,
        values(8) == 0x1_0000_0000_0000_0000,
{
    reveal_with_fuel(values, 9);
}

/// A number comes back from its bytes.
pub proof fn law_le_bytes_round_trip(x: int, n: nat)
    requires
        0 <= x < values(n),
    ensures
        le_value(le_bytes(x, n)) == x,
    decreases n,
{
    if n > 0 {
        let rest = (n - 1) as nat;
        law_le_bytes_round_trip(x / 256, rest);
        assert(le_bytes(x, n).skip(1) =~= le_bytes(x / 256, rest));
    }
}

/// The lowest byte of a number comes first, and the bytes behind it are those of what is
/// left of the number. So it is with the number that bytes stand for.
pub proof fn law_lowest_byte_first(x: int, n: nat, s: Seq<u8>)
    requires
        0 <= x,
        n > 0,
        s.len() > 0,
    ensures
        le_bytes(x, n).len() == n,
        le_bytes(x, n)[0] == x % 256,
        le_bytes(x, n).skip(1) == le_bytes(x / 256, (n - 1) as nat),
        le_value(s) % 256 == s[0],
        le_value(s) / 256 == le_value(s.skip(1)),
        le_value(Seq::empty()) == 0,
{
    lemma_le_bytes_len(x, n);
    assert(le_bytes(x, n).skip(1) =~= le_bytes(x / 256, (n - 1) as nat));
}

/// More values for more bytes.
proof fn lemma_values_grow(m: nat, n: nat)
    requires
        m <= n,
    ensures
        0 < values(m) <= values(n),
    decreases n,
{
    if m < n {
        lemma_values_grow(m, (n - 1) as nat);
    } else if m > 0 {
        lemma_values_grow((m - 1) as nat, (m - 1) as nat);
    }
}

/// Returns the lowest `n` bytes of a number.
pub fn put_le(x: u64, n: usize) -> (r: Vec<u8>)
    ensures
        r@ == le_bytes(x as int, n as nat),
        r@.len() == n,
{
    let mut bytes: Vec<u8> = Vec::new();
    let mut rest: u64 = x;
    let mut i: usize = 0;
    assert(bytes@ + le_bytes(x as int, n as nat) =~= le_bytes(x as int, n as nat));
    while i < n
        invariant
            i <= n,
            bytes@.len() == i,
            bytes@ + le_bytes(rest as int, (n - i) as nat) == le_bytes(x as int, n as nat),
        decreases n - i,
    {
        let ghost before = bytes@;
        let ghost tail = le_bytes(rest as int / 256, (n - i - 1) as nat);
        bytes.push((rest % 256) as u8);
        assert(bytes@ + tail =~= before + (seq![(rest as int % 256) as u8] + tail));
        rest = rest / 256;
        i = i + 1;
    }
    assert(bytes@ =~= bytes@ + le_bytes(rest as int, 0));
    bytes
}

/// Returns the number that `n` bytes at `at` stand for.
pub fn get_le(bytes: &Vec<u8>, at: usize, n: usize) -> (r: u64)
    requires
        n <= 8,
        at + n <= bytes@.len(),
    ensures
        r == le_value(bytes@.subrange(at as int, at + n)),
{
    let mut r: u64 = 0;
    let mut i: usize = n;
    assert(bytes@.subrange(at + n, at + n) =~= Seq::<u8>::empty());
    while i > 0
        invariant
            i <= n <= 8,
            at + n <= bytes.len(),
            r == le_value(bytes@.subrange(at + i, at + n)),
        decreases i,
    {
        let ghost tail = bytes@.subrange(at + i, at + n);
        i = i - 1;
        let ghost more = bytes@.subrange(at + i, at + n);
        proof {
            assert(more.skip(1) =~= tail);
            lemma_le_value_bound(more);
            lemma_values_grow(more.len(), 8);
            lemma_values();
        }
        r = r * 256 + bytes[at + i] as u64;
    }
    r
}

} // verus!
