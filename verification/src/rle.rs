//! Run-length codec for the grid byte buffer.
//!
//! A buffer is encoded as a sequence of runs. Each run is serialized as a
//! count-width byte (1 or 2), the run count in that many big-endian bytes,
//! and the repeated value byte. Runs are maximal up to a cap of 65535:
//! a longer stretch of one value is chained as several runs, so every
//! buffer round-trips exactly.

use vstd::prelude::*;
use crate::ProtocolError;

verus! {

/// Largest count a single run can carry: the count field is at most two bytes.
pub const MAX_RUN_COUNT: usize = 65535;

/// Length of the leading run of `s`: the number of copies of `s[0]`
/// standing at the start of `s`.
pub open spec fn run_len(s: Seq<u8>) -> nat
    recommends
        s.len() > 0,
    decreases s.len(),
{
    if s.len() <= 1 || s[1] != s[0] {
        1
    } else {
        (1 + run_len(s.skip(1))) as nat
    }
}

/// Leading run length as the encoder uses it, capped at `MAX_RUN_COUNT`.
pub open spec fn capped_run_len(s: Seq<u8>) -> nat {
    if run_len(s) <= MAX_RUN_COUNT as nat {
        run_len(s)
    } else {
        MAX_RUN_COUNT as nat
    }
}

/// Serialized form of one run: count-width byte, big-endian count, value.
pub open spec fn run_bytes(count: nat, value: u8) -> Seq<u8>
    recommends
        1 <= count <= MAX_RUN_COUNT,
{
    if count < 256 {
        seq![1u8, count as u8, value]
    } else {
        seq![2u8, (count / 256) as u8, (count % 256) as u8, value]
    }
}

/// The run-length encoding of a byte sequence: the leading run, serialized,
/// followed by the encoding of the rest. The empty sequence encodes to the
/// empty stream.
pub open spec fn rle_encode(s: Seq<u8>) -> Seq<u8>
    decreases s.len() via rle_encode_decreases
{
    if s.len() == 0 {
        seq![]
    } else {
        run_bytes(capped_run_len(s), s[0]) + rle_encode(s.skip(capped_run_len(s) as int))
    }
}

#[via_fn]
proof fn rle_encode_decreases(s: Seq<u8>) {
    if s.len() > 0 {
        lemma_run_len_char(s);
    }
}

/// The decoding of a run-length stream: reads runs until the stream is
/// consumed exactly, or fails on a count-width byte other than 1 or 2
/// (`InvalidRunWidth`) or on a run cut short by the end of the stream
/// (`TruncatedRun`).
pub open spec fn rle_decode(s: Seq<u8>) -> Result<Seq<u8>, ProtocolError>
    decreases s.len(),
{
    if s.len() == 0 {
        Ok(seq![])
    } else if s[0] == 1 {
        if s.len() < 3 {
            Err(ProtocolError::TruncatedRun)
        } else {
            match rle_decode(s.skip(3)) {
                Ok(rest) => Ok(Seq::new(s[1] as nat, |k: int| s[2]) + rest),
                Err(e) => Err(e),
            }
        }
    } else if s[0] == 2 {
        if s.len() < 4 {
            Err(ProtocolError::TruncatedRun)
        } else {
            match rle_decode(s.skip(4)) {
                Ok(rest) => Ok(Seq::new(s[1] as nat * 256 + s[2] as nat, |k: int| s[3]) + rest),
                Err(e) => Err(e),
            }
        }
    } else {
        Err(ProtocolError::InvalidRunWidth)
    }
}

/// A decoded vector seen as the mathematical result the decoder's
/// contract speaks of.
pub open spec fn decode_result_view(r: Result<Vec<u8>, ProtocolError>) -> Result<
    Seq<u8>,
    ProtocolError,
> {
    match r {
        Ok(v) => Ok(v@),
        Err(e) => Err(e),
    }
}

/// The leading run length is between 1 and the sequence's length, every
/// element before it equals the first, and the element after it (if any)
/// differs from the first.
pub proof fn lemma_run_len_char(s: Seq<u8>)
    requires
        s.len() > 0,
    ensures
        1 <= run_len(s) <= s.len(),
        forall|k: int| 0 <= k < run_len(s) ==> #[trigger] s[k] == s[0],
        run_len(s) < s.len() ==> s[run_len(s) as int] != s[0],
    decreases s.len(),
{
    if s.len() <= 1 || s[1] != s[0] {
    } else {
        lemma_run_len_char(s.skip(1));
        assert(forall|k: int| 1 <= k < run_len(s) ==> #[trigger] s[k] == s.skip(1)[k - 1]);
    }
}

/// A count that reaches the end of the sequence or a differing byte,
/// with only equal bytes before it, is the leading run length.
pub proof fn lemma_run_len_is(s: Seq<u8>, c: int)
    requires
        1 <= c <= s.len(),
        forall|k: int| 0 <= k < c ==> #[trigger] s[k] == s[0],
        c < s.len() ==> s[c] != s[0],
    ensures
        run_len(s) == c,
{
    lemma_run_len_char(s);
    let r = run_len(s) as int;
    if r < c {
        assert(s[r] == s[0]);
    } else if c < r {
        assert(s[c] == s[0]);
    }
}

/// The run-length encoder. Scans the input left to right, gathering each
/// maximal run (capped at `MAX_RUN_COUNT`) and serializing it as a
/// count-width byte, the count in one or two big-endian bytes, and the
/// run's value.
pub fn compress_grid_rle_arg(data: &[u8]) -> (rle: Vec<u8>)
    ensures
        rle@ == rle_encode(data@),
{
    let mut rle: Vec<u8> = Vec::new();
    let mut i: usize = 0;
    proof {
        assert(data@.skip(0) =~= data@);
        assert(rle@ + rle_encode(data@) =~= rle_encode(data@));
    }
    while i < data.len()
        invariant
            i <= data@.len(),
            rle_encode(data@) == rle@ + rle_encode(data@.skip(i as int)),
        decreases data@.len() - i,
    {
        let mut j: usize = i + 1;
        while j < data.len() && j - i < MAX_RUN_COUNT && data[j] == data[i]
            invariant
                i < j <= data@.len(),
                j - i <= MAX_RUN_COUNT,
                i < data@.len(),
                forall|k: int| i <= k < j ==> #[trigger] data@[k] == data@[i as int],
            decreases data@.len() - j,
        {
            j += 1;
        }
        let count = j - i;
        let ghost tail = data@.skip(i as int);
        proof {
            assert(forall|k: int| 0 <= k < count ==> #[trigger] tail[k] == tail[0]);
            if count < tail.len() {
                assert(tail[count as int] == data@[j as int]);
                if data@[j as int] == data@[i as int] {
                    // the inner loop stopped at the cap
                    assert(j - i == MAX_RUN_COUNT);
                    lemma_run_len_char(tail);
                    if run_len(tail) < count {
                        assert(tail[run_len(tail) as int] == tail[0]);
                    }
                    assert(capped_run_len(tail) == count);
                } else {
                    lemma_run_len_is(tail, count as int);
                    assert(capped_run_len(tail) == count);
                }
            } else {
                lemma_run_len_is(tail, count as int);
                assert(capped_run_len(tail) == count);
            }
        }
        let ghost rle_before = rle@;
        if count < 256 {
            rle.push(1);
            rle.push(count as u8);
        } else {
            rle.push(2);
            rle.push((count / 256) as u8);
            rle.push((count % 256) as u8);
        }
        rle.push(data[i]);
        proof {
            assert(rle@ =~= rle_before + run_bytes(count as nat, data@[i as int]));
            assert(tail.skip(count as int) =~= data@.skip(j as int));
            assert(rle_encode(data@) =~= rle@ + rle_encode(data@.skip(j as int)));
        }
        i = j;
    }
    proof {
        assert(data@.skip(i as int) =~= Seq::<u8>::empty());
        assert(rle@ =~= rle@ + rle_encode(data@.skip(i as int)));
    }
    rle
}

/// The run-length decoder. Reads runs until the stream is consumed
/// exactly; a count-width byte other than 1 or 2 is `InvalidRunWidth`,
/// and a run cut short by the end of the stream is `TruncatedRun`.
pub fn uncompress_grid_rle(cgrid: &[u8]) -> (out: Result<Vec<u8>, ProtocolError>)
    ensures
        decode_result_view(out) == rle_decode(cgrid@),
{
    let mut out: Vec<u8> = Vec::new();
    let mut i: usize = 0;
    proof {
        assert(cgrid@.skip(0) =~= cgrid@);
    }
    while i < cgrid.len()
        invariant
            i <= cgrid@.len(),
            rle_decode(cgrid@) == (match rle_decode(cgrid@.skip(i as int)) {
                Ok(rest) => Ok::<Seq<u8>, ProtocolError>(out@ + rest),
                Err(e) => Err(e),
            }),
        decreases cgrid@.len() - i,
    {
        let ghost tail = cgrid@.skip(i as int);
        let width = cgrid[i];
        let count: usize;
        let value: u8;
        if width == 1 {
            if cgrid.len() - i < 3 {
                return Err(ProtocolError::TruncatedRun);
            }
            count = cgrid[i + 1] as usize;
            value = cgrid[i + 2];
            proof {
                assert(tail[1] == cgrid@[i + 1]);
                assert(tail[2] == cgrid@[i + 2]);
                assert(tail.skip(3) =~= cgrid@.skip(i + 3));
            }
            i = i + 3;
        } else if width == 2 {
            if cgrid.len() - i < 4 {
                return Err(ProtocolError::TruncatedRun);
            }
            count = (cgrid[i + 1] as usize) * 256 + (cgrid[i + 2] as usize);
            value = cgrid[i + 3];
            proof {
                assert(tail[1] == cgrid@[i + 1]);
                assert(tail[2] == cgrid@[i + 2]);
                assert(tail[3] == cgrid@[i + 3]);
                assert(tail.skip(4) =~= cgrid@.skip(i + 4));
            }
            i = i + 4;
        } else {
            return Err(ProtocolError::InvalidRunWidth);
        }
        let ghost out_before = out@;
        let mut chunk: Vec<u8> = vec![value; count];
        out.append(&mut chunk);
        proof {
            assert(out@ =~= out_before + Seq::new(count as nat, |k: int| value));
            assert(rle_decode(cgrid@) == (match rle_decode(cgrid@.skip(i as int)) {
                Ok(rest) => Ok::<Seq<u8>, ProtocolError>(out@ + rest),
                Err(e) => Err(e),
            })) by {
                if rle_decode(cgrid@.skip(i as int)) is Ok {
                    let rest = rle_decode(cgrid@.skip(i as int)).unwrap();
                    assert(out_before + (Seq::new(count as nat, |k: int| value) + rest) =~= out@
                        + rest);
                }
            }
        }
    }
    proof {
        assert(cgrid@.skip(i as int) =~= Seq::<u8>::empty());
        assert(out@ + Seq::<u8>::empty() =~= out@);
    }
    Ok(out)
}

/// Round trip: decoding an encoded buffer gives the buffer back, for
/// every byte sequence (the empty one included).
pub proof fn lemma_rle_round_trip(b: Seq<u8>)
    ensures
        rle_decode(rle_encode(b)) == Ok::<Seq<u8>, ProtocolError>(b),
    decreases b.len(),
{
    if b.len() == 0 {
        assert(rle_encode(b) =~= Seq::<u8>::empty());
        assert(b =~= Seq::<u8>::empty());
    } else {
        lemma_run_len_char(b);
        let r = capped_run_len(b) as int;
        let rest_enc = rle_encode(b.skip(r));
        let enc = rle_encode(b);
        assert(enc == run_bytes(r as nat, b[0]) + rest_enc);
        lemma_rle_round_trip(b.skip(r));
        if r < 256 {
            assert(enc[0] == 1);
            assert(enc[1] == r as u8);
            assert(enc[2] == b[0]);
            assert(enc.skip(3) =~= rest_enc);
            assert(enc[1] as nat == r as nat);
            assert(Seq::new(enc[1] as nat, |k: int| enc[2]) =~= b.take(r));
        } else {
            assert(enc[0] == 2);
            assert(enc[1] == (r / 256) as u8);
            assert(enc[2] == (r % 256) as u8);
            assert(enc[3] == b[0]);
            assert(enc.skip(4) =~= rest_enc);
            assert(0 <= r % 256 < 256);
            assert(0 <= r / 256 < 256);
            assert(enc[1] as nat * 256 + enc[2] as nat == r) by {
                vstd::arithmetic::div_mod::lemma_fundamental_div_mod(r, 256);
            }
            assert(Seq::new((enc[1] as nat) * 256 + enc[2] as nat, |k: int| enc[3]) =~= b.take(
                r,
            ));
        }
        assert(b.take(r) + b.skip(r) =~= b);
    }
}

/// The count-width byte of the leading run: 1 for counts under 256, 2 for
/// counts of 256 and above. In particular a run of exactly 257 equal bytes
/// is serialized with a two-byte count.
pub proof fn lemma_count_width(b: Seq<u8>)
    requires
        b.len() > 0,
    ensures
        rle_encode(b)[0] == if capped_run_len(b) < 256 {
            1u8
        } else {
            2u8
        },
{
    lemma_run_len_char(b);
}

} // verus!
