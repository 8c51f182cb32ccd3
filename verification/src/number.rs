//! Numbers as bytes of fixed width, least significant byte first.

use vstd::prelude::*;

verus! {

/// The number that the bytes stand for, least significant byte first.
pub open spec fn le_value(bytes: Seq<u8>) -> nat
    decreases bytes.len(),
{
    if bytes.len() == 0 {
        0
    } else {
        bytes[0] as nat + 256 * le_value(bytes.drop_first())
    }
}

/// The `width` bytes of a number, least significant byte first.
pub open spec fn le_bytes(x: nat, width: nat) -> Seq<u8>
    decreases width,
{
    if width == 0 {
        Seq::empty()
    } else {
        seq![(x % 256) as u8] + le_bytes(x / 256, (width - 1) as nat)
    }
}

/// The first number that `width` bytes cannot hold: 256 to the power `width`.
pub open spec fn le_limit(width: nat) -> nat
    decreases width,
{
    if width == 0 {
        1
    } else {
        256 * le_limit((width - 1) as nat)
    }
}

/// Four bytes hold the numbers of `u32`, eight bytes those of `u64`.
pub proof fn lemma_le_limits()
    ensures
        le_limit(4) == 0x1_0000_0000,
        le_limit(8) == 0x1_0000_0000_0000_0000,
{
    assert(le_limit(0) == 1);
    assert(le_limit(1) == 256);
    assert(le_limit(2) == 0x1_0000);
    assert(le_limit(3) == 0x100_0000);
    assert(le_limit(4) == 0x1_0000_0000);
    assert(le_limit(5) == 0x100_0000_0000);
    assert(le_limit(6) == 0x1_0000_0000_0000);
    assert(le_limit(7) == 0x100_0000_0000_0000);
}

/// A number has as many bytes as were asked for.
pub proof fn lemma_le_bytes_len(x: nat, width: nat)
    ensures
        le_bytes(x, width).len() == width,
    decreases width,
{
    if width > 0 {
        lemma_le_bytes_len(x / 256, (width - 1) as nat);
    }
}

/// What bytes stand for is below the limit of their width.
pub proof fn lemma_le_value_bound(bytes: Seq<u8>)
    ensures
        le_value(bytes) < le_limit(bytes.len()),
    decreases bytes.len(),
{
    if bytes.len() > 0 {
        lemma_le_value_bound(bytes.drop_first());
    }
}

/// The bytes of a number that the width can hold stand for that number.
pub proof fn lemma_le_value_of_bytes(x: nat, width: nat)
    requires
        x < le_limit(width),
    ensures
        le_value(le_bytes(x, width)) == x,
    decreases width,
{
    if width > 0 {
        let rest = le_bytes(x / 256, (width - 1) as nat);
        let all = le_bytes(x, width);
        lemma_le_value_of_bytes(x / 256, (width - 1) as nat);
        assert(all.drop_first() =~= rest);
    }
}

/// Bytes are the bytes of the number that they stand for.
pub proof fn lemma_le_bytes_of_value(bytes: Seq<u8>)
    ensures
        le_bytes(le_value(bytes), bytes.len()) == bytes,
    decreases bytes.len(),
{
    if bytes.len() > 0 {
        let rest = bytes.drop_first();
        lemma_le_bytes_of_value(rest);
        let x = le_value(bytes);
        assert(x % 256 == bytes[0] as nat);
        assert(x / 256 == le_value(rest));
        assert(le_bytes(x, bytes.len()) =~= bytes);
    } else {
        assert(le_bytes(le_value(bytes), 0) =~= bytes);
    }
}

/// A wider limit is no smaller.
pub proof fn lemma_le_limit_grows(width: nat, wider: nat)
    requires
        width <= wider,
    ensures
        le_limit(width) <= le_limit(wider),
    decreases wider,
{
    if width < wider {
        lemma_le_limit_grows(width, (wider - 1) as nat);
    }
}

/// Reads the number that the bytes from `pos` up to `end` stand for.
pub(crate) fn read_le(data: &[u8], pos: usize, end: usize) -> (x: u64)
    requires
        pos <= end <= data@.len(),
        end - pos <= 8,
    ensures
        x == le_value(data@.subrange(pos as int, end as int)),
{
    let mut x: u64 = 0;
    let mut k: usize = end;
    assert(data@.subrange(end as int, end as int) =~= Seq::<u8>::empty());
    while k > pos
        invariant
            pos <= k <= end <= data@.len(),
            end - pos <= 8,
            x == le_value(data@.subrange(k as int, end as int)),
        decreases k,
    {
        let ghost tail = data@.subrange(k as int, end as int);
        let ghost more = data@.subrange(k - 1, end as int);
        proof {
            lemma_le_limits();
            lemma_le_value_bound(tail);
            lemma_le_value_bound(more);
            lemma_le_limit_grows(more.len(), 8);
            assert(more.drop_first() =~= tail);
        }
        k -= 1;
        x = x * 256 + data[k] as u64;
    }
    x
}

/// Appends the `width` bytes of the number.
pub(crate) fn write_le(out: &mut Vec<u8>, x: u64, width: usize)
    requires
        width <= 8,
    ensures
        final(out)@ == old(out)@ + le_bytes(x as nat, width as nat),
{
    let mut rest: u64 = x;
    let mut k: usize = 0;
    assert(out@ + le_bytes(rest as nat, width as nat) =~= old(out)@ + le_bytes(
        x as nat,
        width as nat,
    ));
    while k < width
        invariant
            k <= width,
            out@ + le_bytes(rest as nat, (width - k) as nat) == old(out)@ + le_bytes(
                x as nat,
                width as nat,
            ),
        decreases width - k,
    {
        let ghost before = out@;
        let ghost prev = rest as nat;
        let byte: u8 = (rest % 256) as u8;
        out.push(byte);
        rest = rest / 256;
        k += 1;
        proof {
            let tail = le_bytes(rest as nat, (width - k) as nat);
            assert(le_bytes(prev, (width - k + 1) as nat) == seq![byte] + tail);
            assert(out@ + tail =~= before + (seq![byte] + tail));
        }
    }
    assert(le_bytes(rest as nat, 0) =~= Seq::<u8>::empty());
    assert(out@ + Seq::<u8>::empty() =~= out@);
}

} // verus!
