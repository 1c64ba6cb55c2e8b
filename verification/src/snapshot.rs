//! The published snapshot record and its fixed binary layout.
//!
//! One record per cycle: the history matrix rows in lookback order, each row
//! three unsigned 16-bit little-endian readings in canonical sensor order,
//! followed by a 128-bit wall-clock timestamp split into four unsigned
//! 32-bit little-endian words, least-significant first.

use vstd::prelude::*;

verus! {

/// One published snapshot: the history matrix (one row of three readings
/// per lookback slot) and the wall-clock timestamp words.
pub struct SampleBlob {
    pub arr: Vec<[u16; 3]>,
    pub timestamp: [u32; 4],
}

/// The four 32-bit words recombine, least-significant first, to `ts`.
pub open spec fn ts_words_ok(ts: u128, w: Seq<u32>) -> bool {
    &&& w.len() == 4
    &&& ts == w[0] + w[1] * 0x1_0000_0000 + w[2] * 0x1_0000_0000_0000_0000 + w[3]
        * 0x1_0000_0000_0000_0000_0000_0000
}

/// Split a 128-bit timestamp into four 32-bit words, least-significant
/// first.
pub fn split_timestamp(ts: u128) -> (w: [u32; 4])
    ensures
        ts_words_ok(ts, w@),
{
    let w0: u32 = (ts % 0x1_0000_0000) as u32;
    let w1: u32 = ((ts / 0x1_0000_0000) % 0x1_0000_0000) as u32;
    let w2: u32 = ((ts / 0x1_0000_0000_0000_0000) % 0x1_0000_0000) as u32;
    let w3: u32 = (ts / 0x1_0000_0000_0000_0000_0000_0000) as u32;
    proof {
        let t = ts as int;
        vstd::arithmetic::div_mod::lemma_fundamental_div_mod(t, 0x1_0000_0000);
        vstd::arithmetic::div_mod::lemma_fundamental_div_mod(t / 0x1_0000_0000, 0x1_0000_0000);
        vstd::arithmetic::div_mod::lemma_fundamental_div_mod(
            t / 0x1_0000_0000 / 0x1_0000_0000,
            0x1_0000_0000,
        );
        vstd::arithmetic::div_mod::lemma_div_denominator(t, 0x1_0000_0000, 0x1_0000_0000);
        vstd::arithmetic::div_mod::lemma_div_denominator(
            t,
            0x1_0000_0000_0000_0000,
            0x1_0000_0000,
        );
        assert(t / 0x1_0000_0000 / 0x1_0000_0000 == t / 0x1_0000_0000_0000_0000);
        assert(t / 0x1_0000_0000_0000_0000 / 0x1_0000_0000 == t
            / 0x1_0000_0000_0000_0000_0000_0000);
        assert(ts == w0 + w1 * 0x1_0000_0000 + w2 * 0x1_0000_0000_0000_0000 + w3
            * 0x1_0000_0000_0000_0000_0000_0000);
    }
    let w = [w0, w1, w2, w3];
    proof {
        assert(w@ =~= seq![w0, w1, w2, w3]);
    }
    w
}

/// Bundle the history matrix and a wall-clock timestamp into one snapshot
/// record.
pub fn make_blob(arr: Vec<[u16; 3]>, ts: u128) -> (b: SampleBlob)
    ensures
        b.arr@ == arr@,
        ts_words_ok(ts, b.timestamp@),
{
    let timestamp = split_timestamp(ts);
    SampleBlob { arr, timestamp }
}

/// Little-endian bytes of one 16-bit reading.
pub open spec fn le16(v: u16) -> Seq<u8> {
    seq![(v % 256) as u8, (v / 256) as u8]
}

/// Little-endian bytes of one 32-bit timestamp word.
pub open spec fn le32(v: u32) -> Seq<u8> {
    seq![
        (v % 256) as u8,
        ((v / 256) % 256) as u8,
        ((v / 65536) % 256) as u8,
        (v / 16777216) as u8,
    ]
}

/// Bytes of one matrix row: three 16-bit readings in canonical order.
pub open spec fn row_bytes(row: Seq<u16>) -> Seq<u8>
    recommends
        row.len() == 3,
{
    le16(row[0]) + le16(row[1]) + le16(row[2])
}

/// Bytes of the whole matrix, row-major in lookback order.
pub open spec fn matrix_bytes(m: Seq<[u16; 3]>) -> Seq<u8>
    decreases m.len(),
{
    if m.len() == 0 {
        Seq::empty()
    } else {
        matrix_bytes(m.drop_last()) + row_bytes(m.last()@)
    }
}

/// The raw bytes of one whole snapshot record: the matrix rows, then the
/// four timestamp words.
pub open spec fn record_bytes_spec(b: SampleBlob) -> Seq<u8> {
    matrix_bytes(b.arr@) + le32(b.timestamp@[0]) + le32(b.timestamp@[1]) + le32(b.timestamp@[2])
        + le32(b.timestamp@[3])
}

/// Append the little-endian bytes of one 16-bit reading.
fn push_le16(out: &mut Vec<u8>, v: u16)
    requires
        old(out)@.len() + 2 <= usize::MAX,
    ensures
        final(out)@ == old(out)@ + le16(v),
{
    out.push((v % 256) as u8);
    out.push((v / 256) as u8);
    proof {
        assert(final(out)@ =~= old(out)@ + le16(v));
    }
}

/// Append the little-endian bytes of one 32-bit word.
fn push_le32(out: &mut Vec<u8>, v: u32)
    requires
        old(out)@.len() + 4 <= usize::MAX,
    ensures
        final(out)@ == old(out)@ + le32(v),
{
    out.push((v % 256) as u8);
    out.push(((v / 256) % 256) as u8);
    out.push(((v / 65536) % 256) as u8);
    out.push((v / 16777216) as u8);
    proof {
        assert(final(out)@ =~= old(out)@ + le32(v));
    }
}

/// Serialize one snapshot record into its fixed binary layout.
pub fn record_bytes(b: &SampleBlob) -> (out: Vec<u8>)
    requires
        b.arr@.len() * 6 + 16 <= usize::MAX,
    ensures
        out@ == record_bytes_spec(*b),
{
    let mut out: Vec<u8> = Vec::new();
    let mut i: usize = 0;
    while i < b.arr.len()
        invariant
            i <= b.arr@.len(),
            b.arr@.len() * 6 + 16 <= usize::MAX,
            out@.len() == i * 6,
            out@ == matrix_bytes(b.arr@.subrange(0, i as int)),
        decreases b.arr@.len() - i,
    {
        let row = b.arr[i];
        proof {
            assert(b.arr@.subrange(0, i + 1).drop_last() =~= b.arr@.subrange(0, i as int));
            assert(b.arr@.subrange(0, i + 1).last() == b.arr@[i as int]);
            assert(i * 6 + 6 <= b.arr@.len() * 6) by (nonlinear_arith)
                requires
                    i + 1 <= b.arr@.len(),
            ;
        }
        push_le16(&mut out, row[0]);
        push_le16(&mut out, row[1]);
        push_le16(&mut out, row[2]);
        proof {
            assert(row@[0] == b.arr@[i as int]@[0]);
            assert(row@[1] == b.arr@[i as int]@[1]);
            assert(row@[2] == b.arr@[i as int]@[2]);
            assert(out@ =~= matrix_bytes(b.arr@.subrange(0, i + 1)));
        }
        i += 1;
    }
    proof {
        assert(b.arr@.subrange(0, b.arr@.len() as int) =~= b.arr@);
    }
    push_le32(&mut out, b.timestamp[0]);
    push_le32(&mut out, b.timestamp[1]);
    push_le32(&mut out, b.timestamp[2]);
    push_le32(&mut out, b.timestamp[3]);
    proof {
        assert(out@ =~= record_bytes_spec(*b));
    }
    out
}

} // verus!
