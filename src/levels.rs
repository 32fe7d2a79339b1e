//! Definition levels of a data page, from the runs of its hybrid
//! run-length / bit-packed level stream.

use vstd::prelude::*;
use crate::hybrid::{bit_runs_of, decode_bit_runs, decode_levels, hybrid_levels_of};
use crate::stream::{stream_is_safe, stream_safe};

verus! {

/// One run of a level stream of one-bit values.
#[derive(Debug)]
pub enum Run {
    /// `len` values packed into `bytes`, low bit first, eight per byte.
    Bitmap(Vec<u8>, usize),
    /// One value (set or not) repeated `len` times.
    Repeated(bool, usize),
}

/// Why the levels of a page could not be recovered.
#[derive(Debug)]
pub enum LevelsError {
    /// The level stream is malformed, as the outside decoder reports it.
    Hybrid(parquet2::error::Error),
    /// A bit-packed run claims more values than its bytes hold.
    TruncatedRun,
    /// The stream does not hold exactly as many levels as the page has values.
    CountMismatch,
    /// A decoded level is larger than the column's maximum definition level.
    LevelOutOfRange,
    /// The level stream is empty though the page has values, or a run header
    /// or a repeated value in it is cut short or too long.
    MalformedStream,
    /// A page header's level lengths are negative or exceed the page.
    LevelLengthsOutOfBounds,
}

/// Bit `i` of the byte sequence `bs`, counting from the low bit of the first byte.
pub open spec fn bit_at(bs: Seq<u8>, i: int) -> u32 {
    ((bs[i / 8] >> ((i % 8) as u8)) & 1u8) as u32
}

/// Whether the run's bytes hold all the values it claims.
pub open spec fn run_is_complete(run: Run) -> bool {
    match run {
        Run::Bitmap(bs, len) => len <= 8 * bs@.len(),
        Run::Repeated(_, _) => true,
    }
}

/// The levels that a run stands for.
pub open spec fn run_values(run: Run) -> Seq<u32> {
    match run {
        Run::Bitmap(bs, len) => Seq::new(len as nat, |i: int| bit_at(bs@, i)),
        Run::Repeated(set, len) => Seq::new(len as nat, |i: int| if set { 1u32 } else { 0u32 }),
    }
}

/// The levels of a sequence of runs, one after the other.
pub open spec fn runs_values(runs: Seq<Run>) -> Seq<u32>
    decreases runs.len(),
{
    if runs.len() == 0 {
        Seq::empty()
    } else {
        runs_values(runs.drop_last()) + run_values(runs.last())
    }
}

/// Whether every run of the sequence is complete.
pub open spec fn runs_complete(runs: Seq<Run>) -> bool {
    forall|k: int| 0 <= k < runs.len() ==> run_is_complete(#[trigger] runs[k])
}

/// Whether every level is at most `max`.
pub open spec fn all_at_most(levels: Seq<u32>, max: nat) -> bool {
    forall|k: int| 0 <= k < levels.len() ==> #[trigger] levels[k] <= max
}

proof fn lemma_bit_at_most_one(bs: Seq<u8>, i: int)
    requires
        0 <= i < 8 * bs.len(),
    ensures
        bit_at(bs, i) <= 1,
{
    let b = bs[i / 8];
    let s = (i % 8) as u8;
    assert((b >> s) & 1u8 <= 1u8) by (bit_vector);
}

/// Every level of a run is 0 or 1.
pub proof fn lemma_run_values_bits(run: Run)
    requires
        run_is_complete(run),
    ensures
        all_at_most(run_values(run), 1),
{
    match run {
        Run::Bitmap(bs, len) => {
            assert forall|k: int| 0 <= k < run_values(run).len() implies #[trigger] run_values(
                run,
            )[k] <= 1 by {
                lemma_bit_at_most_one(bs@, k);
            }
        },
        Run::Repeated(_, _) => {},
    }
}

/// A bit-packed run of `len == 8 * k + r` values (`r < 8`) stands for
/// exactly `len` values, and the last `r` of them are the low `r` bits of
/// byte `k`, low bit first; the upper bits of that byte are not read.
pub proof fn lemma_bitmap_boundary(bs: Vec<u8>, len: usize)
    requires
        len <= 8 * bs@.len(),
    ensures
        run_values(Run::Bitmap(bs, len)).len() == len,
        forall|j: int|
            0 <= j < len % 8 ==> #[trigger] run_values(Run::Bitmap(bs, len))[8 * (len / 8) + j]
                == ((bs@[(len / 8) as int] >> (j as u8)) & 1u8) as u32,
{
    let k = len / 8;
    assert forall|j: int| 0 <= j < len % 8 implies #[trigger] run_values(Run::Bitmap(bs, len))[8
        * (len / 8) + j] == ((bs@[(len / 8) as int] >> (j as u8)) & 1u8) as u32 by {
        assert((8 * k + j) / 8 == k) by (nonlinear_arith)
            requires
                0 <= j < 8,
        ;
        assert((8 * k + j) % 8 == j) by (nonlinear_arith)
            requires
                0 <= j < 8,
        ;
    }
}

/// The levels of one run, or `None` where a bit-packed run claims more
/// values than its bytes hold.
pub fn expand_run(run: &Run) -> (r: Option<Vec<u32>>)
    ensures
        r is Some <==> run_is_complete(*run),
        r matches Some(v) ==> v@ == run_values(*run),
{
    match run {
        Run::Bitmap(bs, len) => {
            if *len / 8 > bs.len() || (*len / 8 == bs.len() && *len % 8 != 0) {
                return None;
            }
            let mut out: Vec<u32> = Vec::new();
            let mut i: usize = 0;
            while i < *len
                invariant
                    i <= *len,
                    *len <= 8 * bs@.len(),
                    out@ == Seq::new(i as nat, |j: int| bit_at(bs@, j)),
                decreases *len - i,
            {
                let b = bs[i / 8];
                out.push(((b >> ((i % 8) as u8)) & 1u8) as u32);
                assert(out@ =~= Seq::new((i + 1) as nat, |j: int| bit_at(bs@, j)));
                i = i + 1;
            }
            Some(out)
        },
        Run::Repeated(set, len) => {
            let v: u32 = if *set { 1 } else { 0 };
            let mut out: Vec<u32> = Vec::new();
            let mut i: usize = 0;
            while i < *len
                invariant
                    i <= *len,
                    v == (if *set { 1u32 } else { 0u32 }),
                    out@ == Seq::new(i as nat, |j: int| v),
                decreases *len - i,
            {
                out.push(v);
                assert(out@ =~= Seq::new((i + 1) as nat, |j: int| v));
                i = i + 1;
            }
            assert(out@ =~= run_values(*run));
            Some(out)
        },
    }
}


/// The number of bits needed to write `d` in binary: 0 for 0.
pub open spec fn bits(d: nat) -> nat
    decreases d,
{
    if d == 0 {
        0
    } else {
        1 + bits(d / 2)
    }
}

/// Two to the power `k`.
pub open spec fn pow2(k: nat) -> nat
    decreases k,
{
    if k == 0 {
        1
    } else {
        2 * pow2((k - 1) as nat)
    }
}

proof fn lemma_bits_below(d: nat, k: nat)
    requires
        d < pow2(k),
    ensures
        bits(d) <= k,
    decreases k,
{
    if d > 0 {
        assert(k > 0);
        lemma_bits_below(d / 2, (k - 1) as nat);
    }
}

proof fn lemma_runs_values_step(runs: Seq<Run>, i: int)
    requires
        0 <= i < runs.len(),
    ensures
        runs_values(runs.subrange(0, i + 1)) == runs_values(runs.subrange(0, i)) + run_values(
            runs[i],
        ),
{
    assert(runs.subrange(0, i + 1).drop_last() =~= runs.subrange(0, i));
}

/// The levels of complete runs are all 0 or 1.
pub proof fn lemma_runs_values_bits(runs: Seq<Run>)
    requires
        runs_complete(runs),
    ensures
        all_at_most(runs_values(runs), 1),
    decreases runs.len(),
{
    if runs.len() > 0 {
        let init = runs.drop_last();
        assert(runs_complete(init)) by {
            assert forall|k: int| 0 <= k < init.len() implies run_is_complete(#[trigger] init[k]) by {
                assert(init[k] == runs[k]);
            }
        }
        lemma_runs_values_bits(init);
        assert(run_is_complete(runs[runs.len() - 1]));
        lemma_run_values_bits(runs.last());
        let a = runs_values(init);
        let b = run_values(runs.last());
        assert forall|k: int| 0 <= k < (a + b).len() implies #[trigger] (a + b)[k] <= 1 by {
            if k < a.len() {
                assert((a + b)[k] == a[k]);
            } else {
                assert((a + b)[k] == b[k - a.len()]);
            }
        }
    }
}

/// The levels of a page of a column with maximum definition level 1, from
/// the runs of its level stream: their levels one after the other, where
/// every run is complete and they hold exactly `num_values` levels.
pub fn levels_of_runs(runs: &Vec<Run>, num_values: usize) -> (r: Result<Vec<u32>, LevelsError>)
    ensures
        r is Ok <==> (runs_complete(runs@) && runs_values(runs@).len() == num_values),
        r matches Ok(v) ==> v@ == runs_values(runs@),
        r matches Err(LevelsError::TruncatedRun) <==> !runs_complete(runs@),
        r matches Err(LevelsError::CountMismatch) <==> (runs_complete(runs@) && runs_values(
            runs@,
        ).len() != num_values),
        !(r matches Err(LevelsError::Hybrid(_))),
        !(r matches Err(LevelsError::LevelOutOfRange)),
        !(r matches Err(LevelsError::MalformedStream)),
        !(r matches Err(LevelsError::LevelLengthsOutOfBounds)),
{
    let mut out: Vec<u32> = Vec::new();
    let mut i: usize = 0;
    while i < runs.len()
        invariant
            i <= runs@.len(),
            runs_complete(runs@.subrange(0, i as int)),
            out@ == runs_values(runs@.subrange(0, i as int)),
        decreases runs@.len() - i,
    {
        proof {
            lemma_runs_values_step(runs@, i as int);
        }
        match expand_run(&runs[i]) {
            Some(mut v) => {
                out.append(&mut v);
            },
            None => {
                assert(!runs_complete(runs@));
                return Err(LevelsError::TruncatedRun);
            },
        }
        assert(runs_complete(runs@.subrange(0, i + 1))) by {
            let next = runs@.subrange(0, i + 1);
            assert forall|k: int| 0 <= k < next.len() implies run_is_complete(#[trigger] next[k]) by {
                if k < i {
                    assert(runs@.subrange(0, i as int)[k] == next[k]);
                }
            }
        }
        i = i + 1;
    }
    assert(runs@.subrange(0, runs@.len() as int) =~= runs@);
    if out.len() == num_values {
        Ok(out)
    } else {
        Err(LevelsError::CountMismatch)
    }
}

/// The levels of a page of a column with maximum definition level 1 and
/// `num_values` values, from its definition-level stream `data`: those of the
/// runs that parquet2 reads, where the stream is safe to read, the runs are
/// complete and they hold exactly one level for each value.
pub open spec fn bitmap_page_levels(data: Seq<u8>, num_values: usize) -> Option<Seq<u32>> {
    if !stream_safe(data, 1) {
        None
    } else {
        match bit_runs_of(data, num_values) {
            Some(rs) => if runs_complete(rs) && runs_values(rs).len() == num_values {
                Some(runs_values(rs))
            } else {
                None
            },
            None => None,
        }
    }
}

/// The levels of a page of a column with maximum definition level 1, read
/// from its definition-level stream `data` by parquet2's run reader.
pub fn bitmap_levels(data: &[u8], num_values: usize) -> (r: Result<Vec<u32>, LevelsError>)
    ensures
        r is Ok <==> bitmap_page_levels(data@, num_values) is Some,
        r matches Ok(v) ==> bitmap_page_levels(data@, num_values) == Some(v@),
        !stream_safe(data@, 1) ==> r matches Err(LevelsError::MalformedStream),
        r matches Ok(v) ==> v@.len() == num_values && all_at_most(v@, 1),
{
    if !stream_is_safe(data, 1) {
        return Err(LevelsError::MalformedStream);
    }
    let runs = match decode_bit_runs(data, num_values) {
        Ok(runs) => runs,
        Err(e) => {
            return Err(LevelsError::Hybrid(e));
        },
    };
    let r = levels_of_runs(&runs, num_values);
    proof {
        lemma_runs_values_bits(runs@);
    }
    r
}

/// The levels of a page of a column with maximum definition level `max_def`,
/// from the values that its level stream decoded to: those values, where
/// there are exactly `num_values` of them and none exceeds `max_def`.
pub fn bounded_levels(levels: Vec<u32>, max_def: u16, num_values: usize) -> (r: Result<
    Vec<u32>,
    LevelsError,
>)
    ensures
        r is Ok <==> (levels@.len() == num_values && all_at_most(levels@, max_def as nat)),
        r matches Ok(v) ==> v@ == levels@,
        r matches Err(LevelsError::CountMismatch) <==> levels@.len() != num_values,
        r matches Err(LevelsError::LevelOutOfRange) <==> (levels@.len() == num_values
            && !all_at_most(levels@, max_def as nat)),
        !(r matches Err(LevelsError::Hybrid(_))),
        !(r matches Err(LevelsError::TruncatedRun)),
        !(r matches Err(LevelsError::MalformedStream)),
        !(r matches Err(LevelsError::LevelLengthsOutOfBounds)),
{
    if levels.len() != num_values {
        return Err(LevelsError::CountMismatch);
    }
    let mut i: usize = 0;
    while i < levels.len()
        invariant
            i <= levels@.len(),
            levels@.len() == num_values,
            forall|k: int| 0 <= k < i ==> #[trigger] levels@[k] <= max_def as nat,
        decreases levels@.len() - i,
    {
        if levels[i] > max_def as u32 {
            return Err(LevelsError::LevelOutOfRange);
        }
        i = i + 1;
    }
    Ok(levels)
}

/// The number of bits that a level of a column with maximum definition level
/// `max_def` takes in a bit-packed run.
pub fn bit_width(max_def: u16) -> (r: u32)
    ensures
        r == bits(max_def as nat),
        r <= 16,
{
    proof {
        reveal_with_fuel(pow2, 17);
        lemma_bits_below(max_def as nat, 16);
    }
    let mut d: u16 = max_def;
    let mut w: u32 = 0;
    while d > 0
        invariant
            w + bits(d as nat) == bits(max_def as nat),
            bits(max_def as nat) <= 16,
        decreases d,
    {
        d = d / 2;
        w = w + 1;
    }
    w
}


/// The levels of a page of a column with maximum definition level `max_def`
/// of 2 or more and `num_values` values, from its definition-level stream
/// `data`: the values that parquet2 decodes, where the stream is safe to read
/// and not empty while the page has values, and they are exactly one level
/// for each value, none above `max_def`.
pub open spec fn multi_page_levels(data: Seq<u8>, max_def: u16, num_values: usize) -> Option<
    Seq<u32>,
> {
    let nb = bits(max_def as nat);
    if !stream_safe(data, nb) || (data.len() == 0 && num_values > 0) {
        None
    } else {
        match hybrid_levels_of(data, nb as u32, num_values) {
            Some(v) => if v.len() == num_values && all_at_most(v, max_def as nat) {
                Some(v)
            } else {
                None
            },
            None => None,
        }
    }
}

/// The definition levels of a data page with `num_values` values whose
/// column has maximum definition level `max_def`, from its definition-level
/// stream `data`: none for a page without values or a column without
/// definition levels.
pub open spec fn expected_levels(data: Seq<u8>, max_def: u16, num_values: usize) -> Option<
    Seq<u32>,
> {
    if num_values == 0 || max_def == 0 {
        Some(Seq::empty())
    } else if max_def == 1 {
        bitmap_page_levels(data, num_values)
    } else {
        multi_page_levels(data, max_def, num_values)
    }
}

/// The levels of a page of a column with maximum definition level `max_def`
/// of 2 or more, read from its definition-level stream `data` by parquet2's
/// level decoder.
pub fn multi_levels(data: &[u8], max_def: u16, num_values: usize) -> (r: Result<
    Vec<u32>,
    LevelsError,
>)
    requires
        max_def >= 2,
    ensures
        r is Ok <==> multi_page_levels(data@, max_def, num_values) is Some,
        r matches Ok(v) ==> multi_page_levels(data@, max_def, num_values) == Some(v@),
        (!stream_safe(data@, bits(max_def as nat)) || (data@.len() == 0 && num_values > 0))
            ==> r matches Err(LevelsError::MalformedStream),
        r matches Ok(v) ==> v@.len() == num_values && all_at_most(v@, max_def as nat),
{
    let num_bits = bit_width(max_def);
    proof {
        assert(bits(max_def as nat) == 1 + bits((max_def / 2) as nat));
    }
    if (data.len() == 0 && num_values > 0) || !stream_is_safe(data, num_bits as usize) {
        return Err(LevelsError::MalformedStream);
    }
    let levels = match decode_levels(data, num_bits, num_values) {
        Ok(levels) => levels,
        Err(e) => {
            return Err(LevelsError::Hybrid(e));
        },
    };
    bounded_levels(levels, max_def, num_values)
}

/// The definition levels of a data page with `num_values` values, read from
/// its definition-level stream `data`, for a column whose maximum definition
/// level is `max_def`. A page without values, or of a column without
/// definition levels, has none. Otherwise, on success there is one level for
/// each value, each at most `max_def`.
pub fn page_levels(data: &[u8], max_def: u16, num_values: usize) -> (r: Result<
    Vec<u32>,
    LevelsError,
>)
    ensures
        r is Ok <==> expected_levels(data@, max_def, num_values) is Some,
        r matches Ok(v) ==> expected_levels(data@, max_def, num_values) == Some(v@),
        (num_values == 0 || max_def == 0) ==> (r matches Ok(v) && v@.len() == 0),
        r matches Ok(v) ==> all_at_most(v@, max_def as nat),
        r matches Ok(v) ==> (num_values > 0 && max_def > 0 ==> v@.len() == num_values),
{
    if num_values == 0 || max_def == 0 {
        let r = Vec::new();
        assert(r@ =~= Seq::<u32>::empty());
        Ok(r)
    } else if max_def == 1 {
        bitmap_levels(data, num_values)
    } else {
        multi_levels(data, max_def, num_values)
    }
}

} // verus!
