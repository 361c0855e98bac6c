//! Scalar trend extraction and rolling-window aggregation.
//!
//! On every new spectrum, while enabled, one scalar per configured
//! channel is extracted from the current features, appended with the
//! acquisition time, and samples older than the rolling `total_time`
//! window are evicted.
use vstd::prelude::*;

use crate::detect::Feature;

verus! {

/// Which trend channels are tracked, and the rolling window length in
/// milliseconds.
#[derive(Clone, Copy, Debug, PartialEq, Eq, Structural)]
pub struct TimeSeriesConfig {
    pub total_time: u64,
    pub enabled: bool,
    pub track_valley_wavelength: bool,
    pub track_valley_power: bool,
    pub track_peak_wavelength: bool,
    pub track_peak_power: bool,
}

impl TimeSeriesConfig {
    /// A non-degenerate window that keeps time arithmetic exact.
    pub open spec fn valid(self) -> bool {
        1 <= self.total_time <= 1_000_000_000_000
    }

    /// How many scalars each retained sample carries.
    pub open spec fn spec_channel_count(self) -> int {
        (if self.track_valley_wavelength {
            1int
        } else {
            0int
        }) + (if self.track_valley_power {
            1int
        } else {
            0int
        }) + (if self.track_peak_wavelength {
            1int
        } else {
            0int
        }) + (if self.track_peak_power {
            1int
        } else {
            0int
        })
    }

    /// Counts the tracked channels.
    pub fn channel_count(&self) -> (r: usize)
        ensures
            r == self.spec_channel_count(),
    {
        let mut r: usize = 0;
        if self.track_valley_wavelength {
            r = r + 1;
        }
        if self.track_valley_power {
            r = r + 1;
        }
        if self.track_peak_wavelength {
            r = r + 1;
        }
        if self.track_peak_power {
            r = r + 1;
        }
        r
    }
}

/// Feature `k` is the lowest-power feature of `s`, earliest on ties.
pub open spec fn is_lowest_at(s: Seq<Feature>, k: int) -> bool {
    &&& 0 <= k < s.len()
    &&& forall|j: int| 0 <= j < s.len() ==> (#[trigger] s[j].power) >= s[k].power
    &&& forall|j: int| 0 <= j < k ==> (#[trigger] s[j].power) > s[k].power
}

/// Feature `k` is the highest-power feature of `s`, earliest on ties.
pub open spec fn is_highest_at(s: Seq<Feature>, k: int) -> bool {
    &&& 0 <= k < s.len()
    &&& forall|j: int| 0 <= j < s.len() ==> (#[trigger] s[j].power) <= s[k].power
    &&& forall|j: int| 0 <= j < k ==> (#[trigger] s[j].power) < s[k].power
}

/// Picks the deepest feature: lowest power, earliest index on ties.
pub fn deepest_feature(features: &Vec<Feature>) -> (r: Option<Feature>)
    ensures
        r is Some <==> features@.len() > 0,
        r matches Some(f) ==> exists|k: int| is_lowest_at(features@, k) && f == features@[k],
{
    if features.len() == 0 {
        return None;
    }
    let mut best: usize = 0;
    let mut i: usize = 1;
    while i < features.len()
        invariant
            features@.len() > 0,
            best < i <= features@.len(),
            forall|j: int| 0 <= j < i ==> (#[trigger] features@[j].power) >= features@[best as int].power,
            forall|j: int| 0 <= j < best ==> (#[trigger] features@[j].power) > features@[best as int].power,
        decreases features@.len() - i,
    {
        if features[i].power < features[best].power {
            best = i;
        }
        i = i + 1;
    }
    proof {
        assert(is_lowest_at(features@, best as int));
    }
    Some(features[best])
}

/// Picks the tallest feature: highest power, earliest index on ties.
pub fn tallest_feature(features: &Vec<Feature>) -> (r: Option<Feature>)
    ensures
        r is Some <==> features@.len() > 0,
        r matches Some(f) ==> exists|k: int| is_highest_at(features@, k) && f == features@[k],
{
    if features.len() == 0 {
        return None;
    }
    let mut best: usize = 0;
    let mut i: usize = 1;
    while i < features.len()
        invariant
            features@.len() > 0,
            best < i <= features@.len(),
            forall|j: int| 0 <= j < i ==> (#[trigger] features@[j].power) <= features@[best as int].power,
            forall|j: int| 0 <= j < best ==> (#[trigger] features@[j].power) < features@[best as int].power,
        decreases features@.len() - i,
    {
        if features[i].power > features[best].power {
            best = i;
        }
        i = i + 1;
    }
    proof {
        assert(is_highest_at(features@, best as int));
    }
    Some(features[best])
}

/// Index of the valley-power channel among the enabled ones.
pub open spec fn slot_valley_power(cfg: TimeSeriesConfig) -> int {
    if cfg.track_valley_wavelength {
        1int
    } else {
        0int
    }
}

/// Index of the peak-wavelength channel among the enabled ones.
pub open spec fn slot_peak_wavelength(cfg: TimeSeriesConfig) -> int {
    slot_valley_power(cfg) + if cfg.track_valley_power {
        1int
    } else {
        0int
    }
}

/// Index of the peak-power channel among the enabled ones.
pub open spec fn slot_peak_power(cfg: TimeSeriesConfig) -> int {
    slot_peak_wavelength(cfg) + if cfg.track_peak_wavelength {
        1int
    } else {
        0int
    }
}

/// Extracts one scalar per enabled channel, in the fixed order valley
/// wavelength, valley power, peak wavelength, peak power.  The valley
/// channels carry the deepest valley's coordinates, the peak channels
/// the tallest peak's; a channel whose feature list is empty
/// contributes zero.
pub fn extract_channel_values(
    cfg: &TimeSeriesConfig,
    valleys: &Vec<Feature>,
    peaks: &Vec<Feature>,
) -> (r: Vec<i64>)
    ensures
        r@.len() == cfg.spec_channel_count(),
        cfg.track_valley_wavelength && valleys@.len() > 0 ==> exists|k: int|
            is_lowest_at(valleys@, k) && r@[0] == valleys@[k].wavelength,
        cfg.track_valley_power && valleys@.len() > 0 ==> exists|k: int|
            is_lowest_at(valleys@, k) && r@[slot_valley_power(*cfg)] == valleys@[k].power,
        cfg.track_peak_wavelength && peaks@.len() > 0 ==> exists|k: int|
            is_highest_at(peaks@, k) && r@[slot_peak_wavelength(*cfg)] == peaks@[k].wavelength,
        cfg.track_peak_power && peaks@.len() > 0 ==> exists|k: int|
            is_highest_at(peaks@, k) && r@[slot_peak_power(*cfg)] == peaks@[k].power,
        cfg.track_valley_wavelength && valleys@.len() == 0 ==> r@[0] == 0,
        cfg.track_valley_power && valleys@.len() == 0 ==> r@[slot_valley_power(*cfg)] == 0,
        cfg.track_peak_wavelength && peaks@.len() == 0 ==> r@[slot_peak_wavelength(*cfg)] == 0,
        cfg.track_peak_power && peaks@.len() == 0 ==> r@[slot_peak_power(*cfg)] == 0,
{
    let mut r: Vec<i64> = Vec::new();
    let deep = deepest_feature(valleys);
    let tall = tallest_feature(peaks);
    if cfg.track_valley_wavelength {
        r.push(
            match deep {
                Some(f) => f.wavelength,
                None => 0,
            },
        );
    }
    if cfg.track_valley_power {
        r.push(
            match deep {
                Some(f) => f.power,
                None => 0,
            },
        );
    }
    if cfg.track_peak_wavelength {
        r.push(
            match tall {
                Some(f) => f.wavelength,
                None => 0,
            },
        );
    }
    if cfg.track_peak_power {
        r.push(
            match tall {
                Some(f) => f.power,
                None => 0,
            },
        );
    }
    r
}

/// One trend point: acquisition time plus one scalar per channel.
#[derive(Debug)]
pub struct TimeSeriesSample {
    pub timestamp: u64,
    pub values: Vec<i64>,
}

/// Sample `s` is still inside the window of length `total` ending `now`.
pub open spec fn in_window(s: TimeSeriesSample, now: int, total: int) -> bool {
    s.timestamp + total >= now
}

/// The eviction predicate for an append at `now`: keep what is still
/// inside the rolling window.
pub open spec fn window_pred(now: u64, total_time: u64) -> spec_fn(TimeSeriesSample) -> bool {
    |s: TimeSeriesSample| s.timestamp + total_time >= now
}

/// The rolling trend buffer.
pub struct TimeSeriesAggregator {
    pub samples: Vec<TimeSeriesSample>,
}

impl TimeSeriesAggregator {
    /// Every retained sample carries exactly one value per channel of
    /// `cfg`.
    pub open spec fn well_formed(self, cfg: TimeSeriesConfig) -> bool {
        forall|k: int| 0 <= k < self.samples@.len() ==> (#[trigger] self.samples@[k]).values@.len()
            == cfg.spec_channel_count()
    }

    /// An empty buffer.
    pub fn new() -> (r: TimeSeriesAggregator)
        ensures
            r.samples@.len() == 0,
    {
        TimeSeriesAggregator { samples: Vec::new() }
    }

    /// Drops every retained sample; used when the channel configuration
    /// changes, so trends are recomputed wholesale.
    pub fn clear(&mut self)
        ensures
            final(self).samples@.len() == 0,
    {
        self.samples = Vec::new();
    }

    /// Appends one trend point taken at `now` and evicts everything
    /// older than `now - total_time`.  The retained sequence is exactly
    /// the in-window part of the old sequence plus the new point, in
    /// order.
    pub fn append(&mut self, now: u64, values: Vec<i64>, total_time: u64)
        ensures
            final(self).samples@ == old(self).samples@.push(
                TimeSeriesSample { timestamp: now, values },
            ).filter(window_pred(now, total_time)),
            forall|k: int| 0 <= k < final(self).samples@.len() ==> in_window(
                #[trigger] final(self).samples@[k],
                now as int,
                total_time as int,
            ),
    {
        let ghost pred = window_pred(now, total_time);
        let ghost all = self.samples@;
        let mut i: usize = 0;
        let ghost j: int = 0;
        while i < self.samples.len()
            invariant
                pred == window_pred(now, total_time),
                0 <= j <= all.len(),
                i == all.take(j).filter(pred).len(),
                self.samples@ == all.take(j).filter(pred) + all.skip(j),
                self.samples@.len() == i + all.len() - j,
            decreases all.len() - j,
        {
            let ghost kept_pre = all.take(j).filter(pred);
            proof {
                assert(self.samples@[i as int] == all.skip(j)[0]);
                assert(all.skip(j)[0] == all[j]);
                assert(all.take(j + 1).drop_last() =~= all.take(j));
                assert(all.take(j + 1).last() == all[j]);
                reveal_with_fuel(Seq::filter, 2);
            }
            let ts: u64 = self.samples[i].timestamp;
            let keep: bool = if total_time > u64::MAX - ts {
                true
            } else {
                ts + total_time >= now
            };
            assert(keep == pred(all[j]));
            if keep {
                i = i + 1;
                proof {
                    assert(all.take(j + 1).filter(pred) =~= kept_pre.push(all[j]));
                    assert(self.samples@ =~= all.take(j + 1).filter(pred) + all.skip(j + 1));
                }
            } else {
                let ghost before = self.samples@;
                self.samples.remove(i);
                proof {
                    assert(all.take(j + 1).filter(pred) =~= kept_pre);
                    assert(self.samples@ =~= before.remove(i as int));
                    assert(self.samples@ =~= all.take(j + 1).filter(pred) + all.skip(j + 1));
                }
            }
            proof {
                j = j + 1;
            }
        }
        proof {
            assert(all.take(all.len() as int) =~= all);
            assert(all.skip(all.len() as int) =~= Seq::<TimeSeriesSample>::empty());
            assert(self.samples@ =~= all.filter(pred));
        }
        let sample = TimeSeriesSample { timestamp: now, values };
        let ghost pushed = all.push(sample);
        self.samples.push(sample);
        proof {
            assert(pushed.drop_last() =~= all);
            assert(pushed.last() == sample);
            reveal_with_fuel(Seq::filter, 2);
            assert(pred(sample));
            assert(self.samples@ =~= pushed.filter(pred));
            lemma_filter_members(pushed, pred);
        }
    }
}

/// Every member of a filtered sequence is a member of the original.
pub proof fn lemma_filter_elems<A>(s: Seq<A>, pred: spec_fn(A) -> bool)
    ensures
        forall|k: int| 0 <= k < s.filter(pred).len() ==> exists|j: int|
            0 <= j < s.len() && #[trigger] s.filter(pred)[k] == s[j],
    decreases s.len(),
{
    reveal_with_fuel(Seq::filter, 2);
    if s.len() > 0 {
        lemma_filter_elems(s.drop_last(), pred);
        assert forall|k: int| 0 <= k < s.filter(pred).len() implies exists|j: int|
            0 <= j < s.len() && #[trigger] s.filter(pred)[k] == s[j] by {
            let sub = s.drop_last().filter(pred);
            if k < sub.len() {
                assert(s.filter(pred)[k] == sub[k]);
                let j = choose|j: int| 0 <= j < s.drop_last().len() && sub[k] == s.drop_last()[j];
                assert(s.drop_last()[j] == s[j]);
            } else {
                assert(s.filter(pred)[k] == s.last());
                assert(s.filter(pred)[k] == s[s.len() - 1]);
            }
        }
    }
}

/// Every member of a filtered sequence satisfies the filter predicate.
pub proof fn lemma_filter_members<A>(s: Seq<A>, pred: spec_fn(A) -> bool)
    ensures
        forall|k: int| 0 <= k < s.filter(pred).len() ==> pred(#[trigger] s.filter(pred)[k]),
    decreases s.len(),
{
    reveal_with_fuel(Seq::filter, 2);
    if s.len() > 0 {
        lemma_filter_members(s.drop_last(), pred);
        assert forall|k: int| 0 <= k < s.filter(pred).len() implies pred(
            #[trigger] s.filter(pred)[k],
        ) by {
            if s.len() > 0 {
                let sub = s.drop_last().filter(pred);
                if k < sub.len() {
                    assert(s.filter(pred)[k] == sub[k]);
                }
            }
        }
    }
}

} // verus!
