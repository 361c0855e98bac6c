//! Peak/valley detection over a spectrum.
//!
//! A sample is a local extremum when it is the extreme value within a
//! configurable index window and its deviation from the local baseline
//! (the opposite extreme inside the same window) exceeds a configurable
//! prominence threshold.  Ties resolve to the earliest index: a later
//! sample equal to an earlier one inside the window is not reported.
//! Spectra with fewer than three samples yield no features.
use vstd::prelude::*;

use crate::spectrum::Sample;

verus! {

/// Detection tuning: half-width of the comparison window in sample
/// indices, and the prominence threshold in milli-decibels.
#[derive(Clone, Copy, Debug, PartialEq, Eq, Structural)]
pub struct DetectionParams {
    pub window: usize,
    pub prominence: i64,
}

impl DetectionParams {
    /// A meaningful prominence threshold is non-negative.
    pub open spec fn valid(self) -> bool {
        self.prominence >= 0
    }
}

/// Which kind of extremum a feature is.
#[derive(Clone, Copy, Debug, PartialEq, Eq, Structural)]
pub enum FeatureKind {
    Peak,
    Valley,
}

/// A detected extremum: its sample index and that sample's coordinates.
#[derive(Clone, Copy, Debug, PartialEq, Eq, Structural)]
pub struct Feature {
    pub index: usize,
    pub wavelength: i64,
    pub power: i64,
    pub kind: FeatureKind,
}

/// First index of the window centred at `i` with half-width `w`.
pub open spec fn win_lo(i: int, w: int) -> int {
    if i >= w {
        i - w
    } else {
        0
    }
}

/// Last index of the window centred at `i` in a spectrum of `n` samples.
pub open spec fn win_hi(i: int, w: int, n: int) -> int {
    if i + w <= n - 1 {
        i + w
    } else {
        n - 1
    }
}

/// Sample `i` is a peak: strictly above every earlier sample in its
/// window, at least as high as every later one, and higher than the
/// window's baseline by more than `prom`.
pub open spec fn is_peak_at(s: Seq<Sample>, i: int, w: int, prom: int) -> bool {
    &&& 0 <= i < s.len()
    &&& forall|j: int| win_lo(i, w) <= j < i ==> (#[trigger] s[j].power) < s[i].power
    &&& forall|j: int| i < j <= win_hi(i, w, s.len() as int) ==> (#[trigger] s[j].power) <= s[i].power
    &&& exists|j: int| win_lo(i, w) <= j <= win_hi(i, w, s.len() as int)
        && s[i].power - (#[trigger] s[j].power) > prom
}

/// Sample `i` is a valley: the mirror image of `is_peak_at`.
pub open spec fn is_valley_at(s: Seq<Sample>, i: int, w: int, prom: int) -> bool {
    &&& 0 <= i < s.len()
    &&& forall|j: int| win_lo(i, w) <= j < i ==> (#[trigger] s[j].power) > s[i].power
    &&& forall|j: int| i < j <= win_hi(i, w, s.len() as int) ==> (#[trigger] s[j].power) >= s[i].power
    &&& exists|j: int| win_lo(i, w) <= j <= win_hi(i, w, s.len() as int)
        && (#[trigger] s[j].power) - s[i].power > prom
}

/// Index `i` appears in the peak report for `s` under `params`.
pub open spec fn reported_peak(s: Seq<Sample>, i: int, params: DetectionParams) -> bool {
    s.len() >= 3 && is_peak_at(s, i, params.window as int, params.prominence as int)
}

/// Index `i` appears in the valley report for `s` under `params`.
pub open spec fn reported_valley(s: Seq<Sample>, i: int, params: DetectionParams) -> bool {
    s.len() >= 3 && is_valley_at(s, i, params.window as int, params.prominence as int)
}

/// The feature record reporting index `i` of `s` as `kind`.
pub open spec fn feature_of(s: Seq<Sample>, i: int, kind: FeatureKind) -> Feature {
    Feature {
        index: i as usize,
        wavelength: s[i].wavelength,
        power: s[i].power,
        kind,
    }
}

/// The report for `kind` is exactly the indices satisfying the window
/// predicate, in increasing index order, each carrying its sample's
/// coordinates.
pub open spec fn is_feature_report(
    s: Seq<Sample>,
    params: DetectionParams,
    kind: FeatureKind,
    r: Seq<Feature>,
) -> bool {
    &&& forall|k: int| 0 <= k < r.len() ==> 0 <= (#[trigger] r[k]).index < s.len()
        && r[k] == feature_of(s, r[k].index as int, kind)
    &&& forall|k: int| 0 <= k < r.len() ==> if kind == FeatureKind::Peak {
        reported_peak(s, (#[trigger] r[k]).index as int, params)
    } else {
        reported_valley(s, r[k].index as int, params)
    }
    &&& forall|k1: int, k2: int| 0 <= k1 < k2 < r.len() ==> (#[trigger] r[k1]).index < (
    #[trigger] r[k2]).index
    &&& forall|i: int| 0 <= i < s.len() && (if kind == FeatureKind::Peak {
        reported_peak(s, i, params)
    } else {
        reported_valley(s, i, params)
    }) ==> exists|k: int| 0 <= k < r.len() && (#[trigger] r[k]).index == i
}

/// Computes the window of index `i` in a spectrum of `n` samples.
fn window_bounds(i: usize, n: usize, w: usize) -> (r: (usize, usize))
    requires
        i < n,
    ensures
        r.0 == win_lo(i as int, w as int),
        r.1 == win_hi(i as int, w as int, n as int),
{
    let lo: usize = if i >= w {
        i - w
    } else {
        0
    };
    let hi: usize = if n - 1 - i >= w {
        i + w
    } else {
        n - 1
    };
    (lo, hi)
}

/// Decides `is_peak_at` for one index by scanning its window.
fn check_peak(samples: &Vec<Sample>, i: usize, params: DetectionParams) -> (r: bool)
    requires
        i < samples@.len(),
    ensures
        r == is_peak_at(samples@, i as int, params.window as int, params.prominence as int),
{
    let n: usize = samples.len();
    let (lo, hi) = window_bounds(i, n, params.window);
    let pi: i64 = samples[i].power;
    let mut j: usize = lo;
    let mut prominent: bool = false;
    while j <= hi
        invariant
            win_lo(i as int, params.window as int) == lo,
            win_hi(i as int, params.window as int, n as int) == hi,
            lo <= j && j <= hi + 1,
            i < n,
            hi < n,
            n == samples@.len(),
            pi == samples@[i as int].power,
            forall|t: int| lo <= t < j && t < i ==> (#[trigger] samples@[t].power) < pi,
            forall|t: int| i < t < j ==> (#[trigger] samples@[t].power) <= pi,
            prominent == exists|t: int|
                lo <= t < j && pi - (#[trigger] samples@[t].power) > params.prominence,
        decreases hi + 1 - j,
    {
        let pj: i64 = samples[j].power;
        if j < i && pj >= pi {
            assert(!is_peak_at(samples@, i as int, params.window as int, params.prominence as int));
            return false;
        }
        if j > i && pj > pi {
            assert(!is_peak_at(samples@, i as int, params.window as int, params.prominence as int));
            return false;
        }
        if (pi as i128) - (pj as i128) > (params.prominence as i128) {
            prominent = true;
        }
        j = j + 1;
    }
    prominent
}

/// Decides `is_valley_at` for one index by scanning its window.
fn check_valley(samples: &Vec<Sample>, i: usize, params: DetectionParams) -> (r: bool)
    requires
        i < samples@.len(),
    ensures
        r == is_valley_at(samples@, i as int, params.window as int, params.prominence as int),
{
    let n: usize = samples.len();
    let (lo, hi) = window_bounds(i, n, params.window);
    let pi: i64 = samples[i].power;
    let mut j: usize = lo;
    let mut prominent: bool = false;
    while j <= hi
        invariant
            win_lo(i as int, params.window as int) == lo,
            win_hi(i as int, params.window as int, n as int) == hi,
            lo <= j && j <= hi + 1,
            i < n,
            hi < n,
            n == samples@.len(),
            pi == samples@[i as int].power,
            forall|t: int| lo <= t < j && t < i ==> (#[trigger] samples@[t].power) > pi,
            forall|t: int| i < t < j ==> (#[trigger] samples@[t].power) >= pi,
            prominent == exists|t: int|
                lo <= t < j && (#[trigger] samples@[t].power) - pi > params.prominence,
        decreases hi + 1 - j,
    {
        let pj: i64 = samples[j].power;
        if j < i && pj <= pi {
            assert(!is_valley_at(
                samples@,
                i as int,
                params.window as int,
                params.prominence as int,
            ));
            return false;
        }
        if j > i && pj < pi {
            assert(!is_valley_at(
                samples@,
                i as int,
                params.window as int,
                params.prominence as int,
            ));
            return false;
        }
        if (pj as i128) - (pi as i128) > (params.prominence as i128) {
            prominent = true;
        }
        j = j + 1;
    }
    prominent
}

/// Reports every peak of `samples`, earliest first.
pub fn detect_peaks(samples: &Vec<Sample>, params: DetectionParams) -> (r: Vec<Feature>)
    ensures
        is_feature_report(samples@, params, FeatureKind::Peak, r@),
        samples@.len() < 3 ==> r@.len() == 0,
{
    let n: usize = samples.len();
    let mut r: Vec<Feature> = Vec::new();
    if n < 3 {
        return r;
    }
    let mut i: usize = 0;
    while i < n
        invariant
            n == samples@.len(),
            3 <= n,
            i <= n,
            forall|k: int| 0 <= k < r@.len() ==> 0 <= (#[trigger] r@[k]).index < i
                && r@[k] == feature_of(samples@, r@[k].index as int, FeatureKind::Peak)
                && reported_peak(samples@, r@[k].index as int, params),
            forall|k1: int, k2: int| 0 <= k1 < k2 < r@.len() ==> (#[trigger] r@[k1]).index < (
            #[trigger] r@[k2]).index,
            forall|t: int| 0 <= t < i && reported_peak(samples@, t, params) ==> exists|k: int|
                0 <= k < r@.len() && (#[trigger] r@[k]).index == t,
        decreases n - i,
    {
        if check_peak(samples, i, params) {
            let f = Feature {
                index: i,
                wavelength: samples[i].wavelength,
                power: samples[i].power,
                kind: FeatureKind::Peak,
            };
            let ghost r0 = r@;
            r.push(f);
            proof {
                assert(r@ == r0.push(f));
                assert forall|t: int|
                    0 <= t <= i as int && reported_peak(samples@, t, params) implies exists|k: int|
                    0 <= k < r@.len() && (#[trigger] r@[k]).index == t by {
                    if t == i as int {
                        assert(r@[r0.len() as int].index == t);
                    } else {
                        let k = choose|k: int| 0 <= k < r0.len() && (#[trigger] r0[k]).index == t;
                        assert(r@[k].index == t);
                    }
                }
            }
        }
        i = i + 1;
    }
    r
}

/// Reports every valley of `samples`, earliest first.
pub fn detect_valleys(samples: &Vec<Sample>, params: DetectionParams) -> (r: Vec<Feature>)
    ensures
        is_feature_report(samples@, params, FeatureKind::Valley, r@),
        samples@.len() < 3 ==> r@.len() == 0,
{
    let n: usize = samples.len();
    let mut r: Vec<Feature> = Vec::new();
    if n < 3 {
        return r;
    }
    let mut i: usize = 0;
    while i < n
        invariant
            n == samples@.len(),
            3 <= n,
            i <= n,
            forall|k: int| 0 <= k < r@.len() ==> 0 <= (#[trigger] r@[k]).index < i
                && r@[k] == feature_of(samples@, r@[k].index as int, FeatureKind::Valley)
                && reported_valley(samples@, r@[k].index as int, params),
            forall|k1: int, k2: int| 0 <= k1 < k2 < r@.len() ==> (#[trigger] r@[k1]).index < (
            #[trigger] r@[k2]).index,
            forall|t: int| 0 <= t < i && reported_valley(samples@, t, params) ==> exists|k: int|
                0 <= k < r@.len() && (#[trigger] r@[k]).index == t,
        decreases n - i,
    {
        if check_valley(samples, i, params) {
            let f = Feature {
                index: i,
                wavelength: samples[i].wavelength,
                power: samples[i].power,
                kind: FeatureKind::Valley,
            };
            let ghost r0 = r@;
            r.push(f);
            proof {
                assert(r@ == r0.push(f));
                assert forall|t: int|
                    0 <= t <= i as int && reported_valley(samples@, t, params) implies exists|
                    k: int,
                |
                    0 <= k < r@.len() && (#[trigger] r@[k]).index == t by {
                    if t == i as int {
                        assert(r@[r0.len() as int].index == t);
                    } else {
                        let k = choose|k: int| 0 <= k < r0.len() && (#[trigger] r0[k]).index == t;
                        assert(r@[k].index == t);
                    }
                }
            }
        }
        i = i + 1;
    }
    r
}

/// Law: under non-negative prominence thresholds, no index of a
/// spectrum with at least three samples is reported both as a peak and
/// as a valley, even when the two detections use different windows.
pub proof fn lemma_no_index_both_peak_and_valley(
    s: Seq<Sample>,
    i: int,
    peak_params: DetectionParams,
    valley_params: DetectionParams,
)
    requires
        peak_params.valid(),
        valley_params.valid(),
    ensures
        !(reported_peak(s, i, peak_params) && reported_valley(s, i, valley_params)),
{
    if reported_peak(s, i, peak_params) && reported_valley(s, i, valley_params) {
        let n = s.len() as int;
        let wp = peak_params.window as int;
        let wv = valley_params.window as int;
        let jp = choose|j: int|
            win_lo(i, wp) <= j <= win_hi(i, wp, n) && s[i].power - (#[trigger] s[j].power)
                > peak_params.prominence;
        let jv = choose|j: int|
            win_lo(i, wv) <= j <= win_hi(i, wv, n) && (#[trigger] s[j].power) - s[i].power
                > valley_params.prominence;
        if wp <= wv {
            // The peak's prominence witness lies inside the valley's
            // window, where the valley predicate forbids lower samples.
            assert(win_lo(i, wv) <= jp <= win_hi(i, wv, n));
            assert(s[jp].power < s[i].power);
            assert(false);
        } else {
            // Symmetrically with the valley's witness in the peak window.
            assert(win_lo(i, wp) <= jv <= win_hi(i, wp, n));
            assert(s[jv].power > s[i].power);
            assert(false);
        }
    }
}


/// Some feature of `r` carries the sample index `i`.
pub open spec fn has_index(r: Seq<Feature>, i: int) -> bool {
    exists|k: int| 0 <= k < r.len() && (#[trigger] r[k]).index == i
}

/// Two index-sorted feature sequences with the same index membership,
/// whose entries agree wherever their indices do, are equal.
proof fn lemma_sorted_report_unique(r1: Seq<Feature>, r2: Seq<Feature>)
    requires
        forall|k1: int, k2: int| 0 <= k1 < k2 < r1.len() ==> (#[trigger] r1[k1]).index < (
        #[trigger] r1[k2]).index,
        forall|k1: int, k2: int| 0 <= k1 < k2 < r2.len() ==> (#[trigger] r2[k1]).index < (
        #[trigger] r2[k2]).index,
        forall|i: int| #[trigger] has_index(r1, i) <==> #[trigger] has_index(r2, i),
        forall|k1: int, k2: int|
            0 <= k1 < r1.len() && 0 <= k2 < r2.len() && (#[trigger] r1[k1]).index == (
            #[trigger] r2[k2]).index ==> r1[k1] == r2[k2],
    ensures
        r1 == r2,
    decreases r1.len(),
{
    if r1.len() == 0 && r2.len() == 0 {
        assert(r1 =~= r2);
    } else if r1.len() == 0 {
        assert(has_index(r2, r2[0].index as int));
        assert(!has_index(r1, r2[0].index as int));
        assert(false);
    } else if r2.len() == 0 {
        assert(has_index(r1, r1[0].index as int));
        assert(!has_index(r2, r1[0].index as int));
        assert(false);
    } else {
        // The heads carry the same index: each head's index occurs in
        // the other sequence, and sortedness puts it at position zero.
        assert(has_index(r1, r1[0].index as int));
        assert(has_index(r2, r2[0].index as int));
        assert(has_index(r2, r1[0].index as int));
        assert(has_index(r1, r2[0].index as int));
        let k2 = choose|k: int| 0 <= k < r2.len() && (#[trigger] r2[k]).index == r1[0].index as int;
        let k1 = choose|k: int| 0 <= k < r1.len() && (#[trigger] r1[k]).index == r2[0].index as int;
        assert(r2[0].index <= r2[k2].index);
        assert(r1[0].index <= r1[k1].index);
        assert(r1[0].index == r2[0].index);
        assert(r1[0] == r2[0]);
        let t1 = r1.subrange(1, r1.len() as int);
        let t2 = r2.subrange(1, r2.len() as int);
        assert forall|i: int| #[trigger] has_index(t1, i) implies #[trigger] has_index(t2, i) by {
            let k = choose|k: int| 0 <= k < t1.len() && (#[trigger] t1[k]).index == i;
            assert(t1[k] == r1[k + 1]);
            assert(r1[0].index < r1[k + 1].index);
            assert(has_index(r1, i));
            assert(has_index(r2, i));
            let j = choose|j: int| 0 <= j < r2.len() && (#[trigger] r2[j]).index == i;
            assert(j != 0);
            assert(t2[j - 1] == r2[j]);
        }
        assert forall|i: int| #[trigger] has_index(t2, i) implies #[trigger] has_index(t1, i) by {
            let k = choose|k: int| 0 <= k < t2.len() && (#[trigger] t2[k]).index == i;
            assert(t2[k] == r2[k + 1]);
            assert(r2[0].index < r2[k + 1].index);
            assert(has_index(r2, i));
            assert(has_index(r1, i));
            let j = choose|j: int| 0 <= j < r1.len() && (#[trigger] r1[j]).index == i;
            assert(j != 0);
            assert(t1[j - 1] == r1[j]);
        }
        assert forall|k1a: int, k2a: int|
            0 <= k1a < t1.len() && 0 <= k2a < t2.len() && (#[trigger] t1[k1a]).index == (
            #[trigger] t2[k2a]).index implies t1[k1a] == t2[k2a] by {
            assert(t1[k1a] == r1[k1a + 1]);
            assert(t2[k2a] == r2[k2a + 1]);
        }
        lemma_sorted_report_unique(t1, t2);
        assert(r1.len() == r2.len());
        assert forall|k: int| 0 <= k < r1.len() implies r1[k] == r2[k] by {
            if k > 0 {
                assert(r1[k] == t1[k - 1]);
                assert(r2[k] == t2[k - 1]);
            }
        }
        assert(r1 =~= r2);
    }
}

/// Law: feature detection is deterministic — for one spectrum, one
/// parameter set and one kind there is exactly one report satisfying
/// `is_feature_report`, so any two detections agree.
pub proof fn lemma_feature_report_unique(
    s: Seq<Sample>,
    params: DetectionParams,
    kind: FeatureKind,
    r1: Seq<Feature>,
    r2: Seq<Feature>,
)
    requires
        is_feature_report(s, params, kind, r1),
        is_feature_report(s, params, kind, r2),
    ensures
        r1 == r2,
{
    assert forall|i: int| #[trigger] has_index(r1, i) implies #[trigger] has_index(r2, i) by {
        let k = choose|k: int| 0 <= k < r1.len() && (#[trigger] r1[k]).index == i;
        assert(0 <= i < s.len());
    }
    assert forall|i: int| #[trigger] has_index(r2, i) implies #[trigger] has_index(r1, i) by {
        let k = choose|k: int| 0 <= k < r2.len() && (#[trigger] r2[k]).index == i;
        assert(0 <= i < s.len());
    }
    assert forall|k1: int, k2: int|
        0 <= k1 < r1.len() && 0 <= k2 < r2.len() && (#[trigger] r1[k1]).index == (
        #[trigger] r2[k2]).index implies r1[k1] == r2[k2] by {
        assert(r1[k1] == feature_of(s, r1[k1].index as int, kind));
        assert(r2[k2] == feature_of(s, r2[k2].index as int, kind));
    }
    lemma_sorted_report_unique(r1, r2);
}

} // verus!
