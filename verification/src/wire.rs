//! Unsigned integers as big-endian bytes.

use vstd::prelude::*;

verus! {

/// The number whose big-endian bytes are `s`.
pub open spec fn be_value(s: Seq<u8>) -> nat
    decreases s.len(),
{
    if s.len() == 0 {
        0
    } else {
        be_value(s.drop_last()) * 256 + s.last() as nat
    }
}

/// The `width` low bytes of `n`, the most significant first.
pub open spec fn be_bytes(n: nat, width: nat) -> Seq<u8>
    decreases width,
{
    if width == 0 {
        seq![]
    } else {
        be_bytes(n / 256, (width - 1) as nat).push((n % 256) as u8)
    }
}

/// How many numbers `width` bytes can tell apart.
pub open spec fn be_range(width: nat) -> nat
    decreases width,
{
    if width == 0 {
        1
    } else {
        256 * be_range((width - 1) as nat)
    }
}

pub proof fn lemma_be_ranges()
    ensures
        be_range(0) == 1,
        be_range(1) == 0x100,
        be_range(2) == 0x1_0000,
        be_range(3) == 0x100_0000,
        be_range(4) == 0x1_0000_0000,
        be_range(5) == 0x100_0000_0000,
        be_range(6) == 0x1_0000_0000_0000,
        be_range(7) == 0x100_0000_0000_0000,
        be_range(8) == 0x1_0000_0000_0000_0000,
{
    reveal_with_fuel(be_range, 9);
}

pub proof fn lemma_be_value_bound(s: Seq<u8>)
    ensures
        be_value(s) < be_range(s.len()),
    decreases s.len(),
{
    if s.len() > 0 {
        lemma_be_value_bound(s.drop_last());
    }
}

pub proof fn lemma_be_bytes_len(n: nat, width: nat)
    ensures
        be_bytes(n, width).len() == width,
    decreases width,
{
    if width > 0 {
        lemma_be_bytes_len(n / 256, (width - 1) as nat);
    }
}

/// Reading the bytes of a number that fits in them gives the number back.
pub proof fn law_be_bytes_read_back(n: nat, width: nat)
    requires
        n < be_range(width),
    ensures
        be_bytes(n, width).len() == width,
        be_value(be_bytes(n, width)) == n,
    decreases width,
{
    if width > 0 {
        let w = (width - 1) as nat;
        let head = be_bytes(n / 256, w);
        law_be_bytes_read_back(n / 256, w);
        assert(be_bytes(n, width).drop_last() =~= head);
        assert(be_bytes(n, width).last() == (n % 256) as u8);
    }
}

/// Writing the number that some bytes stand for gives the bytes back.
pub proof fn law_be_value_writes_back(s: Seq<u8>)
    ensures
        be_bytes(be_value(s), s.len()) == s,
    decreases s.len(),
{
    if s.len() > 0 {
        let head = s.drop_last();
        let n = be_value(s);
        law_be_value_writes_back(head);
        assert(n / 256 == be_value(head));
        assert(n % 256 == s.last() as nat);
        assert(head.push(s.last()) =~= s);
    } else {
        assert(be_bytes(0, 0) =~= s);
    }
}

/// Appends the `width` low bytes of `n`, the most significant first.
pub fn put_be(buf: &mut Vec<u8>, n: u64, width: u8)
    ensures
        final(buf)@ == old(buf)@ + be_bytes(n as nat, width as nat),
    decreases width,
{
    if width > 0 {
        put_be(buf, n / 256, width - 1);
        let low: u64 = n % 256;
        buf.push(low as u8);
    }
    assert(buf@ =~= old(buf)@ + be_bytes(n as nat, width as nat));
}

/// The number whose big-endian bytes stand in `data` from `pos` on.
pub fn take_be(data: &[u8], pos: usize, width: u8) -> (n: u64)
    requires
        width <= 8,
        pos + width <= data@.len(),
    ensures
        n == be_value(data@.subrange(pos as int, pos + width)),
        n < be_range(width as nat),
{
    let len: usize = data.len();
    let mut n: u64 = 0;
    let mut i: u8 = 0;
    proof {
        lemma_be_ranges();
    }
    while i < width
        invariant
            i <= width <= 8,
            pos + width <= data@.len() == len,
            n == be_value(data@.subrange(pos as int, pos + i)),
        decreases width - i,
    {
        let ghost s = data@.subrange(pos as int, pos + i);
        let ghost t = data@.subrange(pos as int, pos + i + 1);
        proof {
            lemma_be_ranges();
            lemma_be_value_bound(s);
            assert(t.drop_last() =~= s);
            assert(t.last() == data@[pos + i]);
        }
        n = n * 256 + data[pos + i as usize] as u64;
        i += 1;
    }
    proof {
        lemma_be_value_bound(data@.subrange(pos as int, pos + width));
    }
    n
}

/// The first byte counts most: it stands for as many times what the bytes behind it can tell
/// apart.
pub proof fn law_first_byte_counts_most(first: u8, rest: Seq<u8>)
    ensures
        be_value(seq![first] + rest) == first * be_range(rest.len()) + be_value(rest),
        be_value(seq![first]) == first,
        be_value(Seq::empty()) == 0,
    decreases rest.len(),
{
    let all = seq![first] + rest;
    reveal_with_fuel(be_value, 2);
    assert(seq![first].drop_last() =~= seq![]);
    if rest.len() == 0 {
        assert(all =~= seq![first]);
    } else {
        let less = rest.drop_last();
        law_first_byte_counts_most(first, less);
        assert(all.drop_last() =~= seq![first] + less);
        assert(all.last() == rest.last());
        let r = be_range(less.len()) as int;
        assert((first * r + be_value(less)) * 256 == first * (256 * r) + be_value(less) * 256)
            by (nonlinear_arith);
    }
}

/// One byte tells 256 numbers apart, and each further one as many times more.
pub proof fn law_bytes_tell_numbers_apart(width: nat)
    ensures
        be_range(0) == 1,
        be_range(width + 1) == 256 * be_range(width),
{
}

} // verus!
