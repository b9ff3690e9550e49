//! Little-endian integers in byte sequences.
use vstd::prelude::*;

verus! {

/// The `width` low-order bytes of `n`, least significant first.
pub open spec fn le_bytes(n: nat, width: nat) -> Seq<u8>
    decreases width,
{
    if width == 0 {
        Seq::empty()
    } else {
        seq![(n % 256) as u8] + le_bytes(n / 256, (width - 1) as nat)
    }
}

/// The number whose bytes are `s`, least significant first.
pub open spec fn le_value(s: Seq<u8>) -> nat
    decreases s.len(),
{
    if s.len() == 0 {
        0
    } else {
        s[0] as nat + 256 * le_value(s.drop_first())
    }
}

/// The count of numbers that `width` bytes can tell apart.
pub open spec fn span(width: nat) -> nat
    decreases width,
{
    if width == 0 {
        1
    } else {
        256 * span((width - 1) as nat)
    }
}

/// The number at bytes `at .. at + width`.
pub open spec fn le_at(bytes: Seq<u8>, at: int, width: int) -> nat {
    le_value(bytes.subrange(at, at + width))
}

pub proof fn lemma_le_len(n: nat, width: nat)
    ensures
        le_bytes(n, width).len() == width,
    decreases width,
{
    if width > 0 {
        lemma_le_len(n / 256, (width - 1) as nat);
    }
}

/// A number that fits in `width` bytes is read back from its bytes.
pub proof fn law_le_reads_back(n: nat, width: nat)
    requires
        n < span(width),
    ensures
        le_value(le_bytes(n, width)) == n,
    decreases width,
{
    if width > 0 {
        law_le_reads_back(n / 256, (width - 1) as nat);
        assert(le_bytes(n, width).drop_first() =~= le_bytes(n / 256, (width - 1) as nat));
    }
}

/// Any bytes are written back from the number that they hold.
pub proof fn law_le_writes_back(s: Seq<u8>)
    ensures
        le_bytes(le_value(s), s.len()) == s,
    decreases s.len(),
{
    if s.len() > 0 {
        law_le_writes_back(s.drop_first());
        let rest = le_value(s.drop_first());
        assert(le_value(s) == s[0] as nat + 256 * rest);
        assert(le_value(s) / 256 == rest);
        assert(le_value(s) % 256 == s[0] as nat);
        assert(seq![s[0]] + s.drop_first() =~= s);
    }
}

pub proof fn lemma_le_bound(s: Seq<u8>)
    ensures
        le_value(s) < span(s.len()),
    decreases s.len(),
{
    if s.len() > 0 {
        lemma_le_bound(s.drop_first());
    }
}

pub proof fn lemma_span_grows(a: nat, b: nat)
    requires
        a <= b,
    ensures
        span(a) <= span(b),
    decreases b,
{
    if a < b {
        lemma_span_grows(a, (b - 1) as nat);
    }
}

pub proof fn lemma_spans()
    ensures
        span(2) == 0x1_0000,
        span(4) == 0x1_0000_0000,
        span(8) == 0x1_0000_0000_0000_0000,
{
    reveal_with_fuel(span, 9);
}

/// Reads the number at bytes `at .. at + width`.
pub fn read_le(bytes: &[u8], at: usize, width: usize) -> (result: u64)
    requires
        width <= 8,
        at + width <= bytes@.len(),
    ensures
        result == le_at(bytes@, at as int, width as int),
        result < span(width as nat),
{
    let size: usize = bytes.len();
    let mut value: u64 = 0;
    let mut left: usize = width;
    assert(bytes@.subrange(at + width, at + width) =~= Seq::<u8>::empty());
    while left > 0
        invariant
            left <= width <= 8,
            at + width <= bytes@.len() == size,
            value == le_value(bytes@.subrange(at + left, at + width)),
        decreases left,
    {
        proof {
            let tail = bytes@.subrange(at + left, at + width);
            let wider = bytes@.subrange(at + left - 1, at + width);
            lemma_le_bound(tail);
            lemma_le_bound(wider);
            lemma_span_grows(wider.len(), 8);
            lemma_spans();
            assert(wider.drop_first() =~= tail);
            assert(le_value(wider) == wider[0] as nat + 256 * le_value(tail));
        }
        left = left - 1;
        value = value * 256 + bytes[at + left] as u64;
    }
    proof {
        lemma_le_bound(bytes@.subrange(at as int, at + width));
    }
    value
}

/// Appends the `width` low-order bytes of `n`.
pub fn push_le(out: &mut Vec<u8>, n: u64, width: usize)
    ensures
        final(out)@ == old(out)@ + le_bytes(n as nat, width as nat),
    decreases width,
{
    if width > 0 {
        out.push((n % 256) as u8);
        push_le(out, n / 256, width - 1);
        assert(out@ =~= old(out)@ + le_bytes(n as nat, width as nat));
    } else {
        assert(out@ =~= old(out)@ + le_bytes(n as nat, width as nat));
    }
}

/// Appends all of `bytes`.
pub fn push_bytes(out: &mut Vec<u8>, bytes: &[u8])
    ensures
        final(out)@ == old(out)@ + bytes@,
{
    let mut i: usize = 0;
    while i < bytes.len()
        invariant
            i <= bytes@.len(),
            out@ =~= old(out)@ + bytes@.take(i as int),
        decreases bytes@.len() - i,
    {
        out.push(bytes[i]);
        i = i + 1;
    }
    assert(bytes@.take(bytes@.len() as int) =~= bytes@);
}

/// `n` zero bytes.
pub open spec fn zeros(n: nat) -> Seq<u8> {
    Seq::new(n, |i: int| 0u8)
}

/// Appends `n` zero bytes.
pub fn push_zeros(out: &mut Vec<u8>, n: usize)
    ensures
        final(out)@ == old(out)@ + zeros(n as nat),
{
    let mut i: usize = 0;
    while i < n
        invariant
            i <= n,
            out@ =~= old(out)@ + zeros(i as nat),
        decreases n - i,
    {
        out.push(0);
        i = i + 1;
    }
}

/// The lowest byte comes first: byte `i` of a number is what stands at that
/// place to the base of 256.
pub proof fn law_the_lowest_byte_comes_first(n: nat, width: nat, i: nat)
    requires
        i < width,
    ensures
        le_bytes(n, width).len() == width,
        le_bytes(n, width)[i as int] == (n / span(i)) % 256,
    decreases width,
{
    lemma_le_len(n, width);
    lemma_le_len(n / 256, (width - 1) as nat);
    let rest = le_bytes(n / 256, (width - 1) as nat);
    assert(le_bytes(n, width) =~= seq![(n % 256) as u8] + rest);
    if i == 0 {
        assert(span(0) == 1);
        assert(n / 1 == n);
    } else {
        let below = (i - 1) as nat;
        law_the_lowest_byte_comes_first(n / 256, (width - 1) as nat, below);
        assert(le_bytes(n, width)[i as int] == rest[below as int]);
        lemma_span_grows(0, below);
        vstd::arithmetic::div_mod::lemma_div_denominator(n as int, 256, span(below) as int);
        assert(span(i) == 256 * span(below));
    }
}

/// A further byte counts by its place.
pub proof fn law_each_byte_counts_by_its_place(s: Seq<u8>, b: u8)
    ensures
        le_value(s.push(b)) == le_value(s) + span(s.len()) * b,
    decreases s.len(),
{
    let longer = s.push(b);
    if s.len() == 0 {
        assert(longer.drop_first() =~= Seq::<u8>::empty());
        assert(le_value(longer.drop_first()) == 0);
        assert(longer[0] == b);
        assert(span(0) == 1);
    } else {
        let rest = s.drop_first();
        law_each_byte_counts_by_its_place(rest, b);
        assert(longer.drop_first() =~= rest.push(b));
        assert(longer[0] == s[0]);
        let place = span(rest.len()) as int;
        assert(256 * (place * (b as int)) == (256 * place) * (b as int)) by (nonlinear_arith);
    }
}

} // verus!
