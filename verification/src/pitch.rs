//! Pitch-range analysis over a benchmark corpus.
//!
//! Given the audio queries obtained for every line of a fixed corpus, the
//! analyzer collects every mora pitch strictly above the audibility
//! threshold, sorts the samples, and finds the narrowest window of sorted
//! samples that covers the configured density fraction. A style whose corpus
//! run yields no voiced sample at all gets the `Whisper` sentinel instead of
//! a degenerate interval.

use vstd::prelude::*;

use crate::audio_query::{AccentPhrase, AccentPhraseModel, AudioQuery, AudioQueryModel, MoraModel};
use crate::error::AppError;
use crate::order::{lemma_insert_by_key_at, lemma_sort_by_key_props, sort_by_key, sorted_by_key};

verus! {

/// Per-style pitch envelope: either an interval in engine pitch units, or
/// the sentinel for styles with no voiced pitch in the whole corpus.
#[derive(Clone, Copy, Debug, PartialEq, Eq, Structural)]
pub enum RangeItem {
    Normal(u64, u64),
    Whisper,
}

/// Target fraction of samples the pitch interval must cover, held as a
/// rational so the window arithmetic stays exact.
#[derive(Debug)]
pub struct DensityRatio {
    num: u64,
    den: u64,
}

impl DensityRatio {
    /// Numerator of the fraction.
    pub closed spec fn num_spec(&self) -> u64 {
        self.num
    }

    /// Denominator of the fraction.
    pub closed spec fn den_spec(&self) -> u64 {
        self.den
    }

    /// A density ratio is meaningful only strictly above zero and at most one.
    pub open spec fn wf(&self) -> bool {
        0 < self.num_spec() <= self.den_spec()
    }

    /// Builds the ratio num/den, rejecting values outside (0, 1] as a
    /// configuration error.
    pub fn new(num: u64, den: u64) -> (r: Result<DensityRatio, AppError>)
        ensures
            match r {
                Ok(d) => d.num_spec() == num && d.den_spec() == den && d.wf(),
                Err(e) => e == AppError::CacheMisuse && !(0 < num <= den),
            },
    {
        if num == 0 || num > den {
            Err(AppError::CacheMisuse)
        } else {
            Ok(DensityRatio { num, den })
        }
    }

    pub fn num(&self) -> (r: u64)
        ensures
            r == self.num_spec(),
    {
        self.num
    }

    pub fn den(&self) -> (r: u64)
        ensures
            r == self.den_spec(),
    {
        self.den
    }
}

/// The voiced pitches of a run of morae: every pitch strictly above the
/// threshold, in utterance order.
pub open spec fn moras_voiced(ms: Seq<MoraModel>, threshold: u64) -> Seq<u64> {
    ms.map_values(|m: MoraModel| m.pitch).filter(|p: u64| p > threshold)
}

/// The voiced pitches of a run of accent phrases, phrase by phrase.
pub open spec fn phrases_voiced(ps: Seq<AccentPhraseModel>, threshold: u64) -> Seq<u64>
    decreases ps.len(),
{
    if ps.len() == 0 {
        Seq::empty()
    } else {
        phrases_voiced(ps.drop_last(), threshold) + moras_voiced(ps.last().moras, threshold)
    }
}

/// The voiced pitches of one query.
pub open spec fn query_voiced(q: AudioQueryModel, threshold: u64) -> Seq<u64> {
    phrases_voiced(q.accent_phrases, threshold)
}

/// The model of one corpus line's outcome: the query obtained for it, or
/// nothing when that line failed and was skipped.
pub open spec fn opt_query_view(o: Option<AudioQuery>) -> Option<AudioQueryModel> {
    match o {
        Some(q) => Some(q@),
        None => None,
    }
}

/// The voiced pitches of a whole corpus run; failed lines contribute nothing.
pub open spec fn results_voiced(rs: Seq<Option<AudioQueryModel>>, threshold: u64) -> Seq<u64>
    decreases rs.len(),
{
    if rs.len() == 0 {
        Seq::empty()
    } else {
        results_voiced(rs.drop_last(), threshold) + (match rs.last() {
            Some(q) => query_voiced(q, threshold),
            None => Seq::empty(),
        })
    }
}

proof fn lemma_moras_voiced_step(ms: Seq<MoraModel>, threshold: u64, k: int)
    requires
        0 <= k < ms.len(),
    ensures
        moras_voiced(ms.take(k + 1), threshold) == if ms[k].pitch > threshold {
            moras_voiced(ms.take(k), threshold).push(ms[k].pitch)
        } else {
            moras_voiced(ms.take(k), threshold)
        },
{
    let pf = |m: MoraModel| m.pitch;
    let pred = |p: u64| p > threshold;
    let ma = ms.take(k + 1).map_values(pf);
    let mb = ms.take(k).map_values(pf);
    assert(ma.drop_last() =~= mb);
    assert(ma.last() == ms[k].pitch);
    reveal(Seq::filter);
    assert(ma.filter(pred) == if pred(ma.last()) {
        ma.drop_last().filter(pred).push(ma.last())
    } else {
        ma.drop_last().filter(pred)
    });
}

fn push_phrase_pitches(out: &mut Vec<u64>, p: &AccentPhrase, threshold: u64)
    ensures
        final(out)@ == old(out)@ + moras_voiced(p@.moras, threshold),
{
    let ghost base = out@;
    let n = p.moras.len();
    let mut k: usize = 0;
    assert(p@.moras.take(0) =~= Seq::<MoraModel>::empty());
    assert(moras_voiced(p@.moras.take(0), threshold) =~= Seq::<u64>::empty()) by {
        reveal(Seq::filter);
        assert(Seq::<MoraModel>::empty().map_values(|m: MoraModel| m.pitch) =~= Seq::<u64>::empty());
    }
    assert(out@ =~= base + moras_voiced(p@.moras.take(0), threshold));
    while k < n
        invariant
            n == p.moras.len(),
            0 <= k <= n,
            out@ == base + moras_voiced(p@.moras.take(k as int), threshold),
        decreases n - k,
    {
        proof {
            lemma_moras_voiced_step(p@.moras, threshold, k as int);
        }
        if p.moras[k].pitch > threshold {
            out.push(p.moras[k].pitch);
        }
        k += 1;
    }
    assert(p@.moras.take(n as int) =~= p@.moras);
}

fn push_query_pitches(out: &mut Vec<u64>, q: &AudioQuery, threshold: u64)
    ensures
        final(out)@ == old(out)@ + query_voiced(q@, threshold),
{
    let ghost base = out@;
    let ghost ps = q@.accent_phrases;
    let n = q.accent_phrases.len();
    let mut j: usize = 0;
    assert(ps.take(0) =~= Seq::<AccentPhraseModel>::empty());
    assert(out@ =~= base + phrases_voiced(ps.take(0), threshold));
    while j < n
        invariant
            n == q.accent_phrases.len(),
            ps == q@.accent_phrases,
            0 <= j <= n,
            out@ == base + phrases_voiced(ps.take(j as int), threshold),
        decreases n - j,
    {
        assert(q.accent_phrases[j as int]@ == ps[j as int]);
        push_phrase_pitches(out, &q.accent_phrases[j], threshold);
        proof {
            let a = ps.take(j + 1);
            assert(a.drop_last() =~= ps.take(j as int));
            assert(a.last() == ps[j as int]);
            assert(out@ =~= base + phrases_voiced(ps.take(j + 1), threshold));
        }
        j += 1;
    }
    assert(ps.take(n as int) =~= ps);
}

/// Collects every voiced pitch sample of a corpus run, in corpus order.
/// Lines whose query failed (absent entries) are skipped, not fatal.
pub fn collect_voiced_pitches(results: &Vec<Option<AudioQuery>>, threshold: u64) -> (r: Vec<u64>)
    ensures
        r@ == results_voiced(
            results@.map_values(|o: Option<AudioQuery>| opt_query_view(o)),
            threshold,
        ),
{
    let ghost rv = results@.map_values(|o: Option<AudioQuery>| opt_query_view(o));
    let mut out: Vec<u64> = Vec::new();
    let n = results.len();
    let mut i: usize = 0;
    assert(rv.take(0) =~= Seq::<Option<AudioQueryModel>>::empty());
    assert(out@ =~= Seq::<u64>::empty() + results_voiced(rv.take(0), threshold));
    while i < n
        invariant
            n == results.len(),
            rv == results@.map_values(|o: Option<AudioQuery>| opt_query_view(o)),
            0 <= i <= n,
            out@ == results_voiced(rv.take(i as int), threshold),
        decreases n - i,
    {
        let ghost before = out@;
        match &results[i] {
            Some(q) => {
                push_query_pitches(&mut out, q, threshold);
            },
            None => {},
        }
        proof {
            let a = rv.take(i + 1);
            assert(a.drop_last() =~= rv.take(i as int));
            assert(a.last() == rv[i as int]);
            assert(rv[i as int] == opt_query_view(results@[i as int]));
            assert(out@ =~= results_voiced(rv.take(i + 1), threshold));
        }
        i += 1;
    }
    assert(rv.take(n as int) =~= rv);
    out
}

/// Ascending order.
pub open spec fn sorted(s: Seq<u64>) -> bool {
    forall|i: int, j: int| 0 <= i <= j < s.len() ==> s[i] <= s[j]
}

/// A pitch sample's sort key: its own value.
pub open spec fn pitch_key() -> spec_fn(u64) -> int {
    |p: u64| p as int
}

/// The ascending rearrangement of the samples.
pub open spec fn sort_seq(s: Seq<u64>) -> Seq<u64> {
    sort_by_key(s, pitch_key())
}

/// What sorting means: `sort_seq` is ascending, keeps the length, and is a
/// permutation of its input.
pub proof fn lemma_sort_seq_props(s: Seq<u64>)
    ensures
        sort_seq(s).len() == s.len(),
        sorted(sort_seq(s)),
        sort_seq(s).to_multiset() == s.to_multiset(),
{
    lemma_sort_by_key_props(s, pitch_key());
    let r = sort_seq(s);
    assert(sorted_by_key(r, pitch_key()));
    assert forall|i: int, j: int| 0 <= i <= j < r.len() implies r[i] <= r[j] by {
        assert(pitch_key()(r[i]) <= pitch_key()(r[j]));
    }
}

/// Sorts the samples ascending; the result is exactly the ascending
/// rearrangement `sort_seq` of the input.
pub fn sort_pitches(v: &Vec<u64>) -> (r: Vec<u64>)
    ensures
        r@ == sort_seq(v@),
        sorted(r@),
{
    let ghost key = pitch_key();
    let n = v.len();
    let mut out: Vec<u64> = Vec::new();
    let mut i: usize = 0;
    assert(v@.take(0) =~= Seq::<u64>::empty());
    assert(out@ =~= sort_seq(v@.take(0)));
    while i < n
        invariant
            n == v.len(),
            key == pitch_key(),
            0 <= i <= n,
            out@ == sort_by_key(v@.take(i as int), key),
        decreases n - i,
    {
        let x = v[i];
        // find the first position whose element exceeds x
        let m = out.len();
        let mut j: usize = 0;
        while j < m && out[j] <= x
            invariant
                m == out.len(),
                0 <= j <= m,
                forall|k: int| 0 <= k < j ==> out@[k] <= x,
            decreases m - j,
        {
            j += 1;
        }
        assert(j < m ==> out@[j as int] > x);
        proof {
            assert(forall|k: int| 0 <= k < j ==> key(#[trigger] out@[k]) <= key(x));
            lemma_insert_by_key_at(out@, x, key, j as int);
            let a = v@.take(i + 1);
            assert(a.drop_last() =~= v@.take(i as int));
            assert(a.last() == v@[i as int]);
        }
        out.insert(j, x);
        i += 1;
    }
    assert(v@.take(n as int) =~= v@);
    proof {
        lemma_sort_seq_props(v@);
    }
    out
}

/// Width of the window of `w` sorted samples starting at `i`.
pub open spec fn win_width(s: Seq<u64>, w: int, i: int) -> int {
    s[i + w - 1] - s[i]
}

/// The window size demanded by a density ratio over `n` samples:
/// ceil(n * num / den), clamped to at least 1 and at most n.
pub open spec fn window_size_spec(n: int, num: int, den: int) -> int {
    let c = (n * num + den - 1) / den;
    if c < 1 {
        1
    } else if c > n {
        n
    } else {
        c
    }
}

/// Computes the density window size for `n` samples.
pub fn window_size(n: usize, ratio: &DensityRatio) -> (w: usize)
    requires
        ratio.wf(),
        n >= 1,
    ensures
        w == window_size_spec(n as int, ratio.num_spec() as int, ratio.den_spec() as int),
        1 <= w <= n,
{
    let num = ratio.num();
    let den = ratio.den();
    let nw: u128 = n as u128;
    let numw: u128 = num as u128;
    let denw: u128 = den as u128;
    proof {
        let m: u128 = u64::MAX as u128;
        assert(nw <= m && numw <= m);
        assert(nw * numw <= m * m) by (nonlinear_arith)
            requires
                nw <= m,
                numw <= m,
        ;
        assert(m * m + m <= u128::MAX) by (nonlinear_arith)
            requires
                m == u64::MAX as u128,
        ;
    }
    let prod: u128 = nw * numw;
    let c: u128 = (prod + (denw - 1)) / denw;
    if c < 1 {
        1
    } else if c > nw {
        n
    } else {
        c as usize
    }
}

/// Index of the first narrowest window of `w` contiguous sorted samples.
pub fn best_window_start(v: &Vec<u64>, w: usize) -> (best: usize)
    requires
        1 <= w <= v.len(),
        sorted(v@),
    ensures
        best + w <= v.len(),
        forall|j: int|
            0 <= j <= v.len() - w ==> win_width(v@, w as int, best as int) <= win_width(
                v@,
                w as int,
                j,
            ),
        forall|j: int| 0 <= j < best ==> win_width(v@, w as int, j) > win_width(v@, w as int, best as int),
{
    let n = v.len();
    let mut best: usize = 0;
    let mut best_width: u64 = v[w - 1] - v[0];
    let mut i: usize = 1;
    while i <= n - w
        invariant
            1 <= w <= n == v.len(),
            sorted(v@),
            1 <= i <= n - w + 1,
            best < i,
            best_width == win_width(v@, w as int, best as int),
            forall|j: int| 0 <= j < i ==> win_width(v@, w as int, best as int) <= win_width(v@, w as int, j),
            forall|j: int| 0 <= j < best ==> win_width(v@, w as int, j) > win_width(v@, w as int, best as int),
        decreases n + 1 - w - i,
    {
        let width = v[i + w - 1] - v[i];
        if width < best_width {
            best = i;
            best_width = width;
        }
        i += 1;
    }
    best
}

/// Whether `i` starts the first narrowest window of `w` contiguous samples
/// in the sorted sequence `s`: no window is narrower, and every earlier
/// window is strictly wider.
pub open spec fn first_min_window(s: Seq<u64>, w: int, i: int) -> bool {
    &&& 0 <= i <= s.len() - w
    &&& forall|j: int| 0 <= j <= s.len() - w ==> win_width(s, w, i) <= win_width(s, w, j)
    &&& forall|j: int| 0 <= j < i ==> win_width(s, w, j) > win_width(s, w, i)
}

/// Narrowest density window over one corpus run.
///
/// The result is `Whisper` exactly when no mora of any obtained query is
/// voiced above the threshold. Otherwise it is `Normal(lo, hi)` where
/// `[lo, hi]` spans the first narrowest window of `w` contiguous samples in
/// the ascending sample sequence, `w` being the density window size.
pub fn optimal_pitch_range(
    results: &Vec<Option<AudioQuery>>,
    threshold: u64,
    ratio: &DensityRatio,
) -> (r: RangeItem)
    requires
        ratio.wf(),
    ensures
        ({
            let samples = results_voiced(
                results@.map_values(|o: Option<AudioQuery>| opt_query_view(o)),
                threshold,
            );
            let s = sort_seq(samples);
            let w = window_size_spec(
                s.len() as int,
                ratio.num_spec() as int,
                ratio.den_spec() as int,
            );
            match r {
                RangeItem::Whisper => samples.len() == 0,
                RangeItem::Normal(lo, hi) => samples.len() > 0 && exists|i: int|
                    #[trigger] first_min_window(s, w, i) && lo == s[i] && hi == s[i + w - 1],
            }
        }),
{
    let pits = collect_voiced_pitches(results, threshold);
    if pits.len() == 0 {
        return RangeItem::Whisper;
    }
    let sorted_pits = sort_pitches(&pits);
    proof {
        lemma_sort_seq_props(pits@);
    }
    let n = sorted_pits.len();
    let w = window_size(n, ratio);
    let best = best_window_start(&sorted_pits, w);
    let lo = sorted_pits[best];
    let hi = sorted_pits[best + w - 1];
    proof {
        let s = sorted_pits@;
        let ws = window_size_spec(s.len() as int, ratio.num_spec() as int, ratio.den_spec() as int);
        assert(first_min_window(s, ws, best as int));
    }
    RangeItem::Normal(lo, hi)
}

} // verus!
