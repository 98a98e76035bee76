//! Little-endian integers, the only kind the wire knows.

use vstd::arithmetic::div_mod;
use vstd::arithmetic::power;
use vstd::prelude::*;

verus! {

/// The number of values that fit in `n` bytes.
pub open spec fn pow256(n: nat) -> nat
    decreases n,
{
    if n == 0 {
        1
    } else {
        256 * pow256((n - 1) as nat)
    }
}

/// The low `n` bytes of `v`, least significant first.
pub open spec fn le_bytes(v: nat, n: nat) -> Seq<u8>
    decreases n,
{
    if n == 0 {
        Seq::empty()
    } else {
        seq![(v % 256) as u8] + le_bytes(v / 256, (n - 1) as nat)
    }
}

/// The number that `s` spells, least significant byte first.
pub open spec fn le_value(s: Seq<u8>) -> nat
    decreases s.len(),
{
    if s.len() == 0 {
        0
    } else {
        s[0] as nat + 256 * le_value(s.drop_first())
    }
}

/// The field of `n` bytes that starts at `at`, read as a number.
pub open spec fn field(s: Seq<u8>, at: int, n: int) -> nat {
    le_value(s.subrange(at, at + n))
}

/// `n` zero bytes.
pub open spec fn zeros(n: nat) -> Seq<u8> {
    Seq::new(n, |i: int| 0u8)
}

/// `n` rounded up to a multiple of eight.
pub open spec fn pad8(n: int) -> int {
    (n + 7) / 8 * 8
}

/// The ranges of the field widths in use.
pub proof fn lemma_pow256()
    ensures
        pow256(1) == 0x100,
        pow256(2) == 0x1_0000,
        pow256(4) == 0x1_0000_0000,
        pow256(8) == 0x1_0000_0000_0000_0000,
{
    reveal_with_fuel(pow256, 9);
}

/// An encoding has the width that was asked for.
pub proof fn lemma_le_bytes_len(v: nat, n: nat)
    ensures
        le_bytes(v, n).len() == n,
    decreases n,
{
    if n > 0 {
        lemma_le_bytes_len(v / 256, (n - 1) as nat);
    }
}

/// Reading back what was written gives the number that was written.
pub proof fn lemma_le_value_of_bytes(v: nat, n: nat)
    requires
        v < pow256(n),
    ensures
        le_value(le_bytes(v, n)) == v,
    decreases n,
{
    if n > 0 {
        let rest = le_bytes(v / 256, (n - 1) as nat);
        lemma_le_value_of_bytes(v / 256, (n - 1) as nat);
        assert(le_bytes(v, n).drop_first() =~= rest);
    }
}

/// A number read from `n` bytes fits in `n` bytes.
pub proof fn lemma_le_value_bound(s: Seq<u8>)
    ensures
        le_value(s) < pow256(s.len()),
    decreases s.len(),
{
    if s.len() > 0 {
        lemma_le_value_bound(s.drop_first());
    }
}

/// A field that was written at the end of `before` reads back as it was written, whatever
/// follows.
pub proof fn lemma_field_written(before: Seq<u8>, v: nat, n: nat, after: Seq<u8>)
    requires
        v < pow256(n),
    ensures
        field(before + le_bytes(v, n) + after, before.len() as int, n as int) == v,
{
    lemma_le_bytes_len(v, n);
    lemma_le_value_of_bytes(v, n);
    let s = before + le_bytes(v, n) + after;
    assert(s.subrange(before.len() as int, (before.len() + n) as int) =~= le_bytes(v, n));
}

/// Appends the low `n` bytes of `v`.
pub fn put_le(out: &mut Vec<u8>, v: u64, n: usize)
    ensures
        final(out)@ == old(out)@ + le_bytes(v as nat, n as nat),
{
    let mut rest: u64 = v;
    let mut left: usize = n;
    assert(out@ + le_bytes(v as nat, n as nat) =~= old(out)@ + le_bytes(v as nat, n as nat));
    while left > 0
        invariant
            left <= n,
            out@ + le_bytes(rest as nat, left as nat) == old(out)@ + le_bytes(v as nat, n as nat),
        decreases left,
    {
        let ghost before = out@;
        out.push((rest % 256) as u8);
        assert(out@ + le_bytes((rest / 256) as nat, (left - 1) as nat) =~= before + le_bytes(
            rest as nat,
            left as nat,
        ));
        rest = rest / 256;
        left = left - 1;
    }
    assert(out@ + Seq::<u8>::empty() =~= out@);
}

/// Appends `n` zero bytes.
pub fn put_zeros(out: &mut Vec<u8>, n: usize)
    ensures
        final(out)@ == old(out)@ + zeros(n as nat),
{
    let mut i: usize = 0;
    assert(out@ =~= old(out)@ + zeros(0));
    while i < n
        invariant
            i <= n,
            out@ == old(out)@ + zeros(i as nat),
        decreases n - i,
    {
        out.push(0);
        i = i + 1;
        assert(out@ =~= old(out)@ + zeros(i as nat));
    }
}

/// Appends a copy of `data`.
pub fn put_bytes(out: &mut Vec<u8>, data: &[u8])
    ensures
        final(out)@ == old(out)@ + data@,
{
    let mut i: usize = 0;
    assert(out@ =~= old(out)@ + data@.take(0));
    while i < data.len()
        invariant
            i <= data.len(),
            out@ == old(out)@ + data@.take(i as int),
        decreases data.len() - i,
    {
        out.push(data[i]);
        i = i + 1;
        assert(out@ =~= old(out)@ + data@.take(i as int));
    }
    assert(data@.take(i as int) =~= data@);
}

/// Reads the `n`-byte number at `at`.
pub fn get_le(data: &[u8], at: usize, n: usize) -> (v: u64)
    requires
        at + n <= data@.len(),
        n <= 8,
    ensures
        v == field(data@, at as int, n as int),
        v < pow256(n as nat),
{
    let mut v: u64 = 0;
    let mut i: usize = n;
    assert(data@.subrange(at + n, at + n) =~= Seq::<u8>::empty());
    while i > 0
        invariant
            i <= n,
            n <= 8,
            at + n <= data.len(),
            v == le_value(data@.subrange(at + i, at + n)),
        decreases i,
    {
        proof {
            let tail = data@.subrange(at + i, at + n);
            lemma_le_value_bound(tail);
            lemma_pow256_small((n - i) as nat);
            let whole = data@.subrange(at + i - 1, at + n);
            assert(whole.drop_first() =~= tail);
            assert(whole[0] == data@[at + i - 1]);
        }
        i = i - 1;
        v = v * 256 + data[at + i] as u64;
    }
    proof {
        lemma_le_value_bound(data@.subrange(at as int, at + n));
    }
    v
}

/// Seven bytes leave room for one more in sixty-four bits.
proof fn lemma_pow256_small(n: nat)
    requires
        n <= 7,
    ensures
        pow256(n) <= 0x100_0000_0000_0000,
{
    reveal_with_fuel(pow256, 8);
}

/// A copy of `data[from..to]`.
pub fn copy_range(data: &[u8], from: usize, to: usize) -> (out: Vec<u8>)
    requires
        from <= to <= data@.len(),
    ensures
        out@ == data@.subrange(from as int, to as int),
{
    let mut out: Vec<u8> = Vec::new();
    let mut i: usize = from;
    while i < to
        invariant
            from <= i <= to <= data@.len(),
            out@ == data@.subrange(from as int, i as int),
        decreases to - i,
    {
        out.push(data[i]);
        i = i + 1;
        assert(out@ =~= data@.subrange(from as int, i as int));
    }
    out
}

/// Whether two byte strings are the same.
pub fn bytes_eq(a: &[u8], b: &[u8]) -> (same: bool)
    ensures
        same == (a@ == b@),
{
    if a.len() != b.len() {
        return false;
    }
    let mut i: usize = 0;
    while i < a.len()
        invariant
            i <= a.len(),
            a@.len() == b@.len(),
            a@.take(i as int) == b@.take(i as int),
        decreases a.len() - i,
    {
        if a[i] != b[i] {
            return false;
        }
        i = i + 1;
        assert(a@.take(i as int) =~= b@.take(i as int));
    }
    assert(a@.take(i as int) =~= a@ && b@.take(i as int) =~= b@);
    true
}

// ── Laws ───────────────────────────────────────────────────────────────────

/// Byte `i` of an encoding is the digit of weight 256 to the `i`, and `n` bytes hold every number
/// below 256 to the `n`.
pub proof fn law_bytes_are_digits(v: nat, n: nat, i: nat)
    requires
        i < n,
    ensures
        le_bytes(v, n).len() == n,
        le_bytes(v, n)[i as int] == (v as int / power::pow(256, i)) % 256,
        pow256(n) == power::pow(256, n),
    decreases n,
{
    reveal(power::pow);
    lemma_le_bytes_len(v, n);
    if n > 1 {
        law_bytes_are_digits(v / 256, (n - 1) as nat, if i > 0 { (i - 1) as nat } else { 0 });
    } else {
        assert(power::pow(256, 0) == 1);
        assert(pow256(0) == 1);
    }
    if i > 0 {
        let rest = le_bytes(v / 256, (n - 1) as nat);
        assert(le_bytes(v, n)[i as int] == rest[i - 1]);
        power::lemma_pow_positive(256, (i - 1) as nat);
        div_mod::lemma_div_denominator(v as int, 256, power::pow(256, (i - 1) as nat));
    } else {
        assert(power::pow(256, 0) == 1);
    }
}

/// Different bytes are different numbers, and a number is never larger than its bytes can hold.
pub proof fn law_reading_loses_nothing(a: Seq<u8>, b: Seq<u8>)
    requires
        a.len() == b.len(),
        le_value(a) == le_value(b),
    ensures
        a == b,
        le_value(a) < power::pow(256, a.len()),
    decreases a.len(),
{
    lemma_le_value_bound(a);
    if a.len() > 0 {
        law_bytes_are_digits(0, a.len(), 0);
        assert(a[0] == b[0] && le_value(a.drop_first()) == le_value(b.drop_first()));
        law_reading_loses_nothing(a.drop_first(), b.drop_first());
        assert(seq![a[0]] + a.drop_first() =~= a);
        assert(seq![b[0]] + b.drop_first() =~= b);
    } else {
        reveal(power::pow);
        assert(a =~= b);
    }
}

/// Every number that `n` bytes can hold reads back as it was written, at any place in a message.
pub proof fn law_numbers_read_back(before: Seq<u8>, v: nat, n: nat, after: Seq<u8>)
    requires
        v < power::pow(256, n),
    ensures
        field(before + le_bytes(v, n) + after, before.len() as int, n as int) == v,
{
    if n > 0 {
        law_bytes_are_digits(v, n, 0);
    } else {
        reveal(power::pow);
    }
    lemma_field_written(before, v, n, after);
}

/// Filler is zeros, as many as were asked for.
pub proof fn law_zeros(n: nat)
    ensures
        zeros(n).len() == n,
        forall|i: int| 0 <= i < n ==> #[trigger] zeros(n)[i] == 0,
{
}

/// Padding reaches the next multiple of eight and goes no further.
pub proof fn law_padding(n: int)
    ensures
        n <= pad8(n) < n + 8,
        pad8(n) % 8 == 0,
{
}

} // verus!
