//! The tag block of a lattice signature: the number of entries (4 bytes), then
//! each entry (8 bytes, two's complement), all big-endian. The block tells its
//! own length, so it can stand in the middle of a frame.
use vstd::prelude::*;
use crate::bytes::{
    append_be, be_bytes, be_value, lemma_be_bytes_len, lemma_be_bytes_of_value,
    lemma_be_value_bound, lemma_be_value_of_bytes, lemma_pow256_widths, read_be,
};
use crate::error::{Error, ErrorView};
use crate::text::{decimal, with_number};

verus! {

/// The number of bytes that hold the count.
pub const COUNT_LEN: usize = 4;

/// The number of bytes that hold an entry.
pub const ENTRY_LEN: usize = 8;

/// An entry modulo 2^64.
pub open spec fn residue(entry: i64) -> nat {
    if entry >= 0 {
        entry as nat
    } else {
        (entry + 0x1_0000_0000_0000_0000) as nat
    }
}

/// The bytes of the entries, one after another.
pub open spec fn entries_wire(entries: Seq<i64>) -> Seq<u8>
    decreases entries.len(),
{
    if entries.len() == 0 {
        Seq::empty()
    } else {
        entries_wire(entries.drop_last()) + be_bytes(residue(entries.last()), 8)
    }
}

/// The block of a signature.
pub open spec fn signature_wire(entries: Seq<i64>) -> Seq<u8> {
    be_bytes(entries.len(), 4) + entries_wire(entries)
}

/// How many of the bytes are a signature block, where there are enough.
pub open spec fn signature_extent(bytes: Seq<u8>) -> Option<nat> {
    if bytes.len() < 4 {
        None
    } else {
        let n = 4 + 8 * be_value(bytes.take(4));
        if n <= bytes.len() {
            Some(n as nat)
        } else {
            None
        }
    }
}

/// Each entry takes eight bytes.
proof fn lemma_entries_len(entries: Seq<i64>)
    ensures
        entries_wire(entries).len() == 8 * entries.len(),
    decreases entries.len(),
{
    broadcast use lemma_be_bytes_len;

    if entries.len() > 0 {
        lemma_entries_len(entries.drop_last());
    }
}

/// Entries with the same bytes are equal.
proof fn lemma_entries_injective(a: Seq<i64>, b: Seq<i64>)
    requires
        entries_wire(a) == entries_wire(b),
    ensures
        a == b,
    decreases a.len(),
{
    broadcast use lemma_be_bytes_len;

    lemma_entries_len(a);
    lemma_entries_len(b);
    if a.len() == 0 {
        assert(a =~= b);
    } else {
        lemma_entries_len(a.drop_last());
        lemma_entries_len(b.drop_last());
        let cut = 8 * (a.len() - 1);
        let s = entries_wire(a);
        assert(entries_wire(a.drop_last()) =~= s.take(cut));
        assert(entries_wire(b.drop_last()) =~= s.take(cut));
        lemma_entries_injective(a.drop_last(), b.drop_last());
        assert(be_bytes(residue(a.last()), 8) =~= s.skip(cut));
        assert(be_bytes(residue(b.last()), 8) =~= s.skip(cut));
        lemma_pow256_widths();
        lemma_be_value_of_bytes(residue(a.last()), 8);
        lemma_be_value_of_bytes(residue(b.last()), 8);
        assert(a =~= a.drop_last().push(a.last()));
        assert(b =~= b.drop_last().push(b.last()));
    }
}

/// A block is found again at the front of whatever follows it.
pub proof fn signature_block_survives(entries: Seq<i64>, rest: Seq<u8>)
    requires
        entries.len() <= u32::MAX,
    ensures
        signature_extent(signature_wire(entries) + rest) == Some(signature_wire(entries).len()),
{
    broadcast use lemma_be_bytes_len;

    lemma_entries_len(entries);
    lemma_pow256_widths();
    lemma_be_value_of_bytes(entries.len(), 4);
    assert((signature_wire(entries) + rest).take(4) =~= be_bytes(entries.len(), 4));
}

/// Signatures with the same block are equal.
pub proof fn signature_block_is_injective(a: Seq<i64>, b: Seq<i64>)
    requires
        signature_wire(a) == signature_wire(b),
    ensures
        a == b,
{
    broadcast use lemma_be_bytes_len;

    assert(entries_wire(a) =~= signature_wire(a).skip(4));
    assert(entries_wire(b) =~= signature_wire(b).skip(4));
    lemma_entries_injective(a, b);
}

/// The block of a signature, where the number of entries fits in its field.
pub fn signature_to_vec(entries: &[i64]) -> (r: Option<Vec<u8>>)
    ensures
        match r {
            Some(bytes) => entries@.len() <= u32::MAX && bytes@ == signature_wire(entries@),
            None => entries@.len() > u32::MAX,
        },
{
    if entries.len() > u32::MAX as usize {
        return None;
    }
    let mut out: Vec<u8> = Vec::new();
    append_be(&mut out, entries.len() as u128, COUNT_LEN);
    assert(out@ =~= be_bytes(entries@.len(), 4) + entries_wire(entries@.take(0)));
    let mut i: usize = 0;
    while i < entries.len()
        invariant
            i <= entries@.len(),
            out@ == be_bytes(entries@.len(), 4) + entries_wire(entries@.take(i as int)),
        decreases entries@.len() - i,
    {
        let entry: i64 = entries[i];
        let word: u64 = if entry >= 0 {
            entry as u64
        } else {
            u64::MAX - (-(entry + 1)) as u64
        };
        append_be(&mut out, word as u128, ENTRY_LEN);
        proof {
            let next = entries@.take(i + 1);
            assert(next.drop_last() =~= entries@.take(i as int));
            assert(next.last() == entry);
            assert(word as nat == residue(entry));
            assert(out@ =~= be_bytes(entries@.len(), 4) + entries_wire(next));
        }
        i = i + 1;
    }
    assert(entries@.take(i as int) =~= entries@);
    Some(out)
}

/// How many of the bytes are a signature block.
pub fn signature_width(bytes: &[u8]) -> (r: Option<usize>)
    ensures
        match r {
            Some(n) => signature_extent(bytes@) == Some(n as nat),
            None => signature_extent(bytes@) is None,
        },
{
    if bytes.len() < COUNT_LEN {
        return None;
    }
    assert(bytes@.subrange(0, 4) =~= bytes@.take(4));
    let count: u128 = read_be(bytes, 0, COUNT_LEN);
    proof {
        lemma_pow256_widths();
    }
    let n: u128 = 4 + 8 * count;
    if n <= bytes.len() as u128 {
        Some(n as usize)
    } else {
        None
    }
}

/// The signature whose block the bytes are.
pub fn signature_from_bytes(bytes: &[u8]) -> (r: Result<Vec<i64>, Error>)
    ensures
        match r {
            Ok(entries) => signature_extent(bytes@) == Some(bytes@.len()) && signature_wire(
                entries@,
            ) == bytes@,
            Err(e) => signature_extent(bytes@) != Some(bytes@.len()) && e@
                == ErrorView::PubsubProtocol(
                "lattice signature block does not fit its count, got length "@ + decimal(
                    bytes@.len(),
                ),
            ),
        },
{
    let total: usize = bytes.len();
    match signature_width(bytes) {
        Some(n) if n == total => {},
        _ => {
            return Err(
                Error::PubsubProtocol {
                    reason: with_number(
                        "lattice signature block does not fit its count, got length ",
                        total as u64,
                    ),
                },
            );
        },
    }
    let ghost count = be_value(bytes@.take(4));
    let mut entries: Vec<i64> = Vec::new();
    let mut at: usize = COUNT_LEN;
    proof {
        lemma_be_value_bound(bytes@.take(4));
        lemma_pow256_widths();
    }
    assert(entries_wire(entries@) =~= bytes@.subrange(4, 4));
    while at < total
        invariant
            4 <= at <= total == bytes@.len(),
            total == 4 + 8 * count,
            at == 4 + 8 * entries@.len(),
            entries_wire(entries@) == bytes@.subrange(4, at as int),
        decreases total - at,
    {
        let word: u64 = read_be(bytes, at, ENTRY_LEN) as u64;
        let entry: i64 = if word <= i64::MAX as u64 {
            word as i64
        } else {
            -((u64::MAX - word) as i64) - 1
        };
        let ghost before = entries@;
        entries.push(entry);
        proof {
            lemma_pow256_widths();
            let field = bytes@.subrange(at as int, at + 8);
            lemma_be_value_bound(field);
            assert(residue(entry) == be_value(field));
            lemma_be_bytes_of_value(field);
            assert(entries@.drop_last() =~= before);
            assert(entries_wire(entries@) =~= bytes@.subrange(4, at + 8));
        }
        at = at + ENTRY_LEN;
    }
    proof {
        lemma_be_bytes_of_value(bytes@.take(4));
        assert(signature_wire(entries@) =~= bytes@);
    }
    Ok(entries)
}

} // verus!
