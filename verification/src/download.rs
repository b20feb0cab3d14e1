//! The download side of the protocol: a client sends one eight-byte
//! big-endian index, and the service streams the payload that index selects
//! in the current snapshot's file table — or closes the connection without a
//! byte when the index is out of range.

use vstd::prelude::*;

verus! {

/// The unsigned value of big-endian bytes.
pub open spec fn be_val(b: Seq<u8>) -> nat
    decreases b.len(),
{
    if b.len() == 0 {
        0
    } else {
        (be_val(b.drop_last()) * 256 + b.last()) as nat
    }
}

/// Read the download index from the eight bytes a client sends.
pub fn u64_from_be_bytes(b: &[u8; 8]) -> (r: u64)
    ensures
        r as nat == be_val(b@),
{
    proof {
        assert(b@.take(0) =~= Seq::<u8>::empty());
        assert(be_val(b@.take(0)) == 0);
        assert(b@.take(1).drop_last() =~= b@.take(0));
        assert(b@.take(2).drop_last() =~= b@.take(1));
        assert(b@.take(3).drop_last() =~= b@.take(2));
        assert(b@.take(4).drop_last() =~= b@.take(3));
        assert(b@.take(5).drop_last() =~= b@.take(4));
        assert(b@.take(6).drop_last() =~= b@.take(5));
        assert(b@.take(7).drop_last() =~= b@.take(6));
        assert(b@.take(8) =~= b@);
        assert(b@.take(8).drop_last() =~= b@.take(7));
    }
    let mut acc: u64 = 0;
    acc = acc * 256 + b[0] as u64;
    assert(acc as nat == be_val(b@.take(1)));
    acc = acc * 256 + b[1] as u64;
    assert(acc as nat == be_val(b@.take(2)));
    acc = acc * 256 + b[2] as u64;
    assert(acc as nat == be_val(b@.take(3)));
    acc = acc * 256 + b[3] as u64;
    assert(acc as nat == be_val(b@.take(4)));
    acc = acc * 256 + b[4] as u64;
    assert(acc as nat == be_val(b@.take(5)));
    acc = acc * 256 + b[5] as u64;
    assert(acc as nat == be_val(b@.take(6)));
    acc = acc * 256 + b[6] as u64;
    assert(acc as nat == be_val(b@.take(7)));
    acc = acc * 256 + b[7] as u64;
    assert(acc as nat == be_val(b@.take(8)));
    acc
}

/// Look one download index up in a snapshot's file table: the payload when
/// the index is in range, nothing when it is not.
pub fn lookup_file<'a>(table: &'a Vec<Vec<u8>>, index: u64) -> (r: Option<&'a Vec<u8>>)
    ensures
        match r {
            Some(d) => (index as int) < table@.len() && d@ == table@[index as int]@,
            None => (index as int) >= table@.len(),
        },
{
    if index < table.len() as u64 {
        Some(&table[index as usize])
    } else {
        None
    }
}

} // verus!
