//! Byte-level run-length compression of packet payloads.
//!
//! A byte sequence is cut, from the left, into groups of equal bytes of at
//! most 255 bytes each. A group of one byte is written as that byte; a longer
//! group as the byte twice followed by the group's length.

use vstd::prelude::*;

verus! {

/// Number of leading bytes of `s` that equal its first byte; 0 when `s` is empty.
pub open spec fn run_length(s: Seq<u8>) -> nat
    decreases s.len(),
{
    if s.len() == 0 {
        0
    } else if s.len() == 1 || s[1] != s[0] {
        1
    } else {
        1 + run_length(s.skip(1))
    }
}

/// Length of the first group of `s`: its leading run, cut at 255 bytes.
pub open spec fn leading_run(s: Seq<u8>) -> nat {
    if run_length(s) >= 255 {
        255
    } else {
        run_length(s)
    }
}

/// The bytes written for a group of `n` bytes of value `v`.
pub open spec fn emit(v: u8, n: int) -> Seq<u8> {
    if n == 1 {
        seq![v]
    } else {
        seq![v, v, n as u8]
    }
}

/// The compressed form of `s`.
pub open spec fn rle_encode(s: Seq<u8>) -> Seq<u8>
    decreases s.len(),
{
    if s.len() == 0 {
        Seq::empty()
    } else {
        let n = leading_run(s);
        proof {
            lemma_run_length(s);
        }
        emit(s[0], n as int) + rle_encode(s.skip(n as int))
    }
}

/// What a reader recovers from `s`: a byte followed by an equal byte opens a
/// group whose length is the third byte; any other byte stands for itself.
pub open spec fn rle_decode(s: Seq<u8>) -> Seq<u8>
    decreases s.len(),
{
    if s.len() == 0 {
        Seq::empty()
    } else if s.len() >= 3 && s[0] == s[1] {
        Seq::new(s[2] as nat, |i: int| s[0]) + rle_decode(s.skip(3))
    } else {
        seq![s[0]] + rle_decode(s.skip(1))
    }
}

/// A run of `n` equal bytes at the front of `s` makes its leading run at least `n`.
pub proof fn lemma_run_at_least(s: Seq<u8>, n: int)
    requires
        1 <= n <= s.len(),
        forall|i: int| 0 <= i < n ==> #[trigger] s[i] == s[0],
    ensures
        run_length(s) >= n,
    decreases n,
{
    if n >= 2 {
        let t = s.skip(1);
        assert forall|i: int| 0 <= i < n - 1 implies #[trigger] t[i] == t[0] by {
            assert(t[i] == s[i + 1]);
            assert(t[0] == s[1]);
        }
        lemma_run_at_least(t, n - 1);
    }
}

/// A run of `n` equal bytes that ends with the input, or before a different
/// byte, is exactly the leading run.
pub proof fn lemma_run_stops(s: Seq<u8>, n: int)
    requires
        1 <= n <= s.len(),
        forall|i: int| 0 <= i < n ==> #[trigger] s[i] == s[0],
        n == s.len() || s[n] != s[0],
    ensures
        run_length(s) == n,
    decreases n,
{
    if n >= 2 {
        let t = s.skip(1);
        assert forall|i: int| 0 <= i < n - 1 implies #[trigger] t[i] == t[0] by {
            assert(t[i] == s[i + 1]);
            assert(t[0] == s[1]);
        }
        if n < s.len() {
            assert(t[n - 1] == s[n]);
        }
        lemma_run_stops(t, n - 1);
    }
}

/// The leading run lies inside `s`, holds equal bytes only, and cannot be extended.
pub proof fn lemma_run_length(s: Seq<u8>)
    requires
        s.len() > 0,
    ensures
        1 <= run_length(s) <= s.len(),
        forall|i: int| 0 <= i < run_length(s) ==> #[trigger] s[i] == s[0],
        run_length(s) == s.len() || s[run_length(s) as int] != s[0],
    decreases s.len(),
{
    if s.len() >= 2 && s[1] == s[0] {
        let t = s.skip(1);
        lemma_run_length(t);
        assert forall|i: int| 0 <= i < run_length(s) implies #[trigger] s[i] == s[0] by {
            if i >= 1 {
                assert(t[i - 1] == s[i]);
            }
        }
        if run_length(s) < s.len() {
            assert(t[run_length(t) as int] == s[run_length(s) as int]);
        }
    }
}

/// Compressing a non-empty input gives a non-empty output that starts with
/// the input's first byte; compressing nothing gives nothing.
pub proof fn lemma_encode_head(s: Seq<u8>)
    ensures
        s.len() == 0 ==> rle_encode(s).len() == 0,
        s.len() > 0 ==> rle_encode(s).len() > 0 && rle_encode(s)[0] == s[0],
{
}

/// Decoding what was compressed gives the input back, for every input.
pub proof fn lemma_round_trip(s: Seq<u8>)
    ensures
        rle_decode(rle_encode(s)) == s,
    decreases s.len(),
{
    if s.len() > 0 {
        lemma_run_length(s);
        let n = leading_run(s) as int;
        let v = s[0];
        let rest = s.skip(n);
        let t = rle_encode(rest);
        let w = rle_encode(s);
        lemma_round_trip(rest);
        lemma_encode_head(rest);
        assert(w == emit(v, n) + t);
        if n >= 2 {
            assert(w[0] == v && w[1] == v && w[2] == n);
            assert(w.skip(3) =~= t);
            assert(rle_decode(w) =~= s);
        } else {
            assert(w.skip(1) =~= t);
            if t.len() > 0 {
                assert(rest[0] == s[1]);
                assert(w[1] == t[0]);
            }
            assert(rle_decode(w) =~= s);
        }
    }
}

/// A sequence of `n` equal bytes, `n` from 1 to 255, compresses to one group.
pub proof fn lemma_encode_uniform(s: Seq<u8>)
    requires
        1 <= s.len() <= 255,
        forall|i: int| 0 <= i < s.len() ==> #[trigger] s[i] == s[0],
    ensures
        rle_encode(s) == emit(s[0], s.len() as int),
{
    lemma_run_stops(s, s.len() as int);
    let rest = s.skip(s.len() as int);
    assert(rest.len() == 0);
    assert(rle_encode(rest) =~= Seq::<u8>::empty());
    assert(rle_encode(s) =~= emit(s[0], s.len() as int));
}

/// A sequence of more than 255 equal bytes compresses to a full group of 255
/// followed by the compressed form of what is left.
pub proof fn lemma_encode_long_uniform(s: Seq<u8>)
    requires
        s.len() > 255,
        forall|i: int| 0 <= i < s.len() ==> #[trigger] s[i] == s[0],
    ensures
        rle_encode(s) == seq![s[0], s[0], 255u8] + rle_encode(s.skip(255)),
{
    lemma_run_at_least(s, s.len() as int);
}

/// Appends the bytes of one group to `out`.
fn flush_run(out: &mut Vec<u8>, value: u8, run: u8)
    requires
        run >= 1,
    ensures
        final(out)@ == old(out)@ + emit(value, run as int),
{
    if run == 1 {
        out.push(value);
    } else {
        out.push(value);
        out.push(value);
        out.push(run);
    }
    assert(out@ =~= old(out)@ + emit(value, run as int));
}

/// Compresses `body`: scans it once, keeping the byte of the pending group
/// and its length, and writes a group out when a different byte arrives,
/// when the group is full, and at the end of the input.
pub fn compress(body: &Vec<u8>) -> (out: Vec<u8>)
    ensures
        out@ == rle_encode(body@),
{
    let mut out: Vec<u8> = Vec::new();
    if body.len() == 0 {
        return out;
    }
    let mut prev: u8 = body[0];
    let mut run: u8 = 1;
    let mut i: usize = 1;
    let ghost mut start: int = 0;
    proof {
        assert(body@.skip(0) =~= body@);
        assert(out@ + rle_encode(body@) =~= rle_encode(body@));
    }
    while i < body.len()
        invariant
            1 <= i <= body.len(),
            0 <= start,
            1 <= run,
            i - start == run,
            prev == body@[start],
            forall|k: int| start <= k < i ==> #[trigger] body@[k] == prev,
            out@ + rle_encode(body@.skip(start)) == rle_encode(body@),
        decreases body.len() - i,
    {
        let curr = body[i];
        let ghost pending = body@.skip(start);
        if curr == prev {
            if run == 255 {
                proof {
                    lemma_run_at_least(pending, 256);
                    assert(pending.skip(255) =~= body@.skip(i as int));
                }
                flush_run(&mut out, prev, run);
                proof {
                    start = i as int;
                }
                run = 1;
            } else {
                run += 1;
            }
        } else {
            proof {
                lemma_run_stops(pending, run as int);
                assert(pending.skip(run as int) =~= body@.skip(i as int));
            }
            flush_run(&mut out, prev, run);
            proof {
                start = i as int;
            }
            prev = curr;
            run = 1;
        }
        i += 1;
    }
    let ghost written = out@;
    flush_run(&mut out, prev, run);
    proof {
        let pending = body@.skip(start);
        lemma_run_stops(pending, run as int);
        assert(pending.skip(run as int).len() == 0);
        assert(rle_encode(pending.skip(run as int)) =~= Seq::<u8>::empty());
        assert(rle_encode(pending) =~= emit(prev, run as int));
        assert(out@ =~= written + rle_encode(pending));
    }
    out
}

/// Expands `data` as a reader of the compressed form does.
pub fn decompress(data: &Vec<u8>) -> (out: Vec<u8>)
    ensures
        out@ == rle_decode(data@),
{
    let mut out: Vec<u8> = Vec::new();
    let mut i: usize = 0;
    proof {
        assert(data@.skip(0) =~= data@);
    }
    while i < data.len()
        invariant
            i <= data.len(),
            out@ + rle_decode(data@.skip(i as int)) == rle_decode(data@),
        decreases data.len() - i,
    {
        let ghost here = data@.skip(i as int);
        let ghost before = out@;
        let value = data[i];
        if data.len() - i >= 3 && data[i + 1] == value {
            let count = data[i + 2];
            let mut k: u8 = 0;
            while k < count
                invariant
                    k <= count,
                    out@ == before + Seq::new(k as nat, |j: int| value),
                decreases count - k,
            {
                out.push(value);
                k += 1;
                assert(out@ =~= before + Seq::new(k as nat, |j: int| value));
            }
            proof {
                assert(here.skip(3) =~= data@.skip(i + 3));
                assert(here[0] == value && here[1] == value && here[2] == count);
            }
            i += 3;
        } else {
            out.push(value);
            proof {
                assert(here.skip(1) =~= data@.skip(i + 1));
                assert(here[0] == value);
                if here.len() >= 3 {
                    assert(here[1] == data@[i + 1]);
                }
            }
            i += 1;
        }
    }
    proof {
        assert(data@.skip(i as int).len() == 0);
    }
    out
}

} // verus!
