//! The spectrum handler: the engine behind the command surface.
//!
//! One process-wide instance owns the live-spectrum buffer, the frozen
//! store, the time-series aggregator, the acquisition link and the
//! configuration.  Callers share it behind their own mutual-exclusion
//! discipline; every method completes promptly and leaves the engine
//! consistent.  The producer loop lives outside the engine: it acquires
//! raw samples from the hardware while the link reads, and hands each
//! batch to `handle_new_spectrum`.
use vstd::prelude::*;

use crate::detect::detect_peaks;
use crate::detect::detect_valleys;
use crate::detect::DetectionParams;
use crate::detect::Feature;
use crate::detect::FeatureKind;
use crate::detect::is_feature_report;
use crate::errors::CoreError;
use crate::export::spec_txt;
use crate::export::spectrum_to_txt;
use crate::frozen::FrozenStore;
use crate::frozen::has_id;
use crate::link::AcquisitorLink;
use crate::link::ConnectionState;
use crate::link::link_accepts;
use crate::link::link_error;
use crate::link::link_next;
use crate::link::LinkCommand;
use crate::render::DrawInfo;
use crate::render::map_feature_point;
use crate::render::map_point;
use crate::render::Point;
use crate::render::render_feature_points;
use crate::render::render_spectrum;
use crate::spectrum::Sample;
use crate::spectrum::Spectrum;
use crate::spectrum::SpectrumBuffer;
use crate::spectrum::wavelengths_increasing;
use crate::timeseries::extract_channel_values;
use crate::timeseries::is_highest_at;
use crate::timeseries::is_lowest_at;
use crate::timeseries::slot_peak_power;
use crate::timeseries::slot_peak_wavelength;
use crate::timeseries::slot_valley_power;
use crate::timeseries::TimeSeriesAggregator;
use crate::timeseries::TimeSeriesConfig;
use crate::timeseries::TimeSeriesSample;
use crate::timeseries::window_pred;

verus! {

/// The aggregate of every limit, detection and time-series parameter.
/// One process-wide instance, read broadly, replaced only through
/// `apply_handler_config`.
#[derive(Clone, Copy, Debug, PartialEq, Eq, Structural)]
pub struct HandlerConfig {
    pub svg_width: i64,
    pub svg_height: i64,
    pub wl_min: i64,
    pub wl_max: i64,
    pub pw_min: i64,
    pub pw_max: i64,
    pub valley_detection: DetectionParams,
    pub peak_detection: DetectionParams,
    pub time_series: TimeSeriesConfig,
    pub acquisition_period_ms: u64,
}

/// The draw info a configuration induces.
pub open spec fn spec_draw_info(c: HandlerConfig) -> DrawInfo {
    DrawInfo {
        canvas_width: c.svg_width,
        canvas_height: c.svg_height,
        wl_min: c.wl_min,
        wl_max: c.wl_max,
        pw_min: c.pw_min,
        pw_max: c.pw_max,
        valley_detection: c.valley_detection,
        peak_detection: c.peak_detection,
        time_series: c.time_series,
    }
}

impl HandlerConfig {
    /// A configuration is valid when its induced draw info is and the
    /// acquisition cadence is non-degenerate.
    pub open spec fn valid(self) -> bool {
        spec_draw_info(self).valid() && 1 <= self.acquisition_period_ms <= 3_600_000
    }

    /// Assembles the rendering snapshot for the current configuration.
    pub fn draw_info(&self) -> (r: DrawInfo)
        ensures
            r == spec_draw_info(*self),
    {
        DrawInfo {
            canvas_width: self.svg_width,
            canvas_height: self.svg_height,
            wl_min: self.wl_min,
            wl_max: self.wl_max,
            pw_min: self.pw_min,
            pw_max: self.pw_max,
            valley_detection: self.valley_detection,
            peak_detection: self.peak_detection,
            time_series: self.time_series,
        }
    }
}

/// The hard-coded fallback configuration.
pub open spec fn spec_default_config() -> HandlerConfig {
    HandlerConfig {
        svg_width: 800,
        svg_height: 400,
        wl_min: 1_500_000,
        wl_max: 1_600_000,
        pw_min: -80_000i64,
        pw_max: 0,
        valley_detection: DetectionParams { window: 5, prominence: 3_000 },
        peak_detection: DetectionParams { window: 5, prominence: 3_000 },
        time_series: TimeSeriesConfig {
            total_time: 60_000,
            enabled: false,
            track_valley_wavelength: true,
            track_valley_power: false,
            track_peak_wavelength: false,
            track_peak_power: false,
        },
        acquisition_period_ms: 200,
    }
}

/// The fallback configuration used when a stored one is malformed.
pub fn default_config() -> (r: HandlerConfig)
    ensures
        r == spec_default_config(),
        r.valid(),
{
    HandlerConfig {
        svg_width: 800,
        svg_height: 400,
        wl_min: 1_500_000,
        wl_max: 1_600_000,
        pw_min: -80_000,
        pw_max: 0,
        valley_detection: DetectionParams { window: 5, prominence: 3_000 },
        peak_detection: DetectionParams { window: 5, prominence: 3_000 },
        time_series: TimeSeriesConfig {
            total_time: 60_000,
            enabled: false,
            track_valley_wavelength: true,
            track_valley_power: false,
            track_peak_wavelength: false,
            track_peak_power: false,
        },
        acquisition_period_ms: 200,
    }
}

/// The engine.
pub struct SpectrumHandler {
    pub config: HandlerConfig,
    pub buffer: SpectrumBuffer,
    pub store: FrozenStore,
    pub series: TimeSeriesAggregator,
    pub link: AcquisitorLink,
    pub saving: bool,
}

impl SpectrumHandler {
    /// The engine's standing invariant.
    pub open spec fn wf(self) -> bool {
        &&& self.config.valid()
        &&& self.buffer.well_formed()
        &&& self.store.well_formed()
        &&& self.series.well_formed(self.config.time_series)
    }

    /// Everything but the link equals `other`'s.
    pub open spec fn same_but_link(self, other: SpectrumHandler) -> bool {
        &&& self.config == other.config
        &&& self.buffer == other.buffer
        &&& self.store == other.store
        &&& self.series == other.series
        &&& self.saving == other.saving
    }
}

/// Builds the single engine instance.  A malformed configuration is
/// recovered locally: the hard-coded default takes its place.
pub fn new_spectrum_handler(config: HandlerConfig) -> (r: SpectrumHandler)
    ensures
        r.wf(),
        spec_draw_info(config).valid() && 1 <= config.acquisition_period_ms <= 3_600_000
            ==> r.config == config,
        !(spec_draw_info(config).valid() && 1 <= config.acquisition_period_ms <= 3_600_000)
            ==> r.config == spec_default_config(),
        r.buffer.current is None,
        !r.buffer.unread,
        r.store.traces@.len() == 0,
        r.series.samples@.len() == 0,
        r.link.state == ConnectionState::Disconnected,
        !r.saving,
{
    let ok: bool = config_valid_check(&config);
    let cfg: HandlerConfig = if ok {
        config
    } else {
        default_config()
    };
    SpectrumHandler {
        config: cfg,
        buffer: SpectrumBuffer::new(),
        store: FrozenStore::new(),
        series: TimeSeriesAggregator::new(),
        link: AcquisitorLink::new(),
        saving: false,
    }
}

/// Decides `HandlerConfig::valid`, so malformed configurations can be
/// rejected or replaced at the boundary.
pub fn config_valid_check(c: &HandlerConfig) -> (r: bool)
    ensures
        r == c.valid(),
{
    1 <= c.svg_width && c.svg_width <= 10_000 && 1 <= c.svg_height && c.svg_height <= 10_000
        && -1_000_000_000 <= c.wl_min && c.wl_min < c.wl_max && c.wl_max <= 1_000_000_000
        && -1_000_000_000 <= c.pw_min && c.pw_min < c.pw_max && c.pw_max <= 1_000_000_000
        && c.valley_detection.prominence >= 0 && c.peak_detection.prominence >= 0
        && 1 <= c.time_series.total_time && c.time_series.total_time <= 1_000_000_000_000
        && 1 <= c.acquisition_period_ms && c.acquisition_period_ms <= 3_600_000
}

impl SpectrumHandler {
    /// The current configuration, for readers.
    pub fn get_handler_config(&self) -> (r: HandlerConfig)
        ensures
            r == self.config,
    {
        self.config
    }

    /// Replaces the configuration.  A malformed one is rejected with
    /// `Config` and nothing changes; a change of time-series settings
    /// drops the retained trend samples so they are recomputed
    /// wholesale under the new channels.
    pub fn apply_handler_config(&mut self, cfg: HandlerConfig) -> (r: Result<(), CoreError>)
        requires
            old(self).wf(),
        ensures
            final(self).wf(),
            r is Ok <==> cfg.valid(),
            r is Ok ==> final(self).config == cfg,
            r matches Err(e) ==> e == CoreError::Config && *final(self) == *old(self),
            final(self).buffer == old(self).buffer,
            final(self).store == old(self).store,
            final(self).link == old(self).link,
            final(self).saving == old(self).saving,
    {
        if !config_valid_check(&cfg) {
            return Err(CoreError::Config);
        }
        if !(cfg.time_series == self.config.time_series) {
            self.series.clear();
        }
        self.config = cfg;
        Ok(())
    }

    /// The wavelength display limits, in milli-nanometres.
    pub fn get_wavelength_limits(&self) -> (r: (i64, i64))
        ensures
            r.0 == self.config.wl_min && r.1 == self.config.wl_max,
    {
        (self.config.wl_min, self.config.wl_max)
    }

    /// The power display limits, in milli-decibels.
    pub fn get_power_limits(&self) -> (r: (i64, i64))
        ensures
            r.0 == self.config.pw_min && r.1 == self.config.pw_max,
    {
        (self.config.pw_min, self.config.pw_max)
    }

    /// The valley detection parameters.
    pub fn get_valley_detection(&self) -> (r: DetectionParams)
        ensures
            r == self.config.valley_detection,
    {
        self.config.valley_detection
    }

    /// The peak detection parameters.
    pub fn get_peak_detection(&self) -> (r: DetectionParams)
        ensures
            r == self.config.peak_detection,
    {
        self.config.peak_detection
    }

    /// The time-series configuration.
    pub fn get_time_series_config(&self) -> (r: TimeSeriesConfig)
        ensures
            r == self.config.time_series,
    {
        self.config.time_series
    }

    /// The canvas size in pixels.
    pub fn get_svg_size(&self) -> (r: (i64, i64))
        ensures
            r.0 == self.config.svg_width && r.1 == self.config.svg_height,
    {
        (self.config.svg_width, self.config.svg_height)
    }

    /// Turns continuous saving on or off.
    pub fn save_continuous(&mut self, on: bool)
        ensures
            final(self).saving == on,
            final(self).config == old(self).config,
            final(self).buffer == old(self).buffer,
            final(self).store == old(self).store,
            final(self).series == old(self).series,
            final(self).link == old(self).link,
    {
        self.saving = on;
    }

    /// Whether continuous saving is on.
    pub fn get_saving(&self) -> (r: bool)
        ensures
            r == self.saving,
    {
        self.saving
    }

    /// The acquisition connection state.
    pub fn get_connection_state(&self) -> (r: ConnectionState)
        ensures
            r == self.link.state,
    {
        self.link.state
    }

    /// Runs one connection command against the state machine; nothing
    /// else moves.
    pub fn acquisitor_command(&mut self, cmd: LinkCommand) -> (r: Result<(), CoreError>)
        ensures
            final(self).link.state == link_next(old(self).link.state, cmd),
            r is Ok <==> link_accepts(old(self).link.state, cmd),
            r matches Err(e) ==> e == link_error(old(self).link.state, cmd),
            final(self).same_but_link(*old(self)),
    {
        self.link.step(cmd)
    }

    /// Atomically reports and clears the new-spectrum flag.
    pub fn unread_spectrum(&mut self) -> (r: bool)
        ensures
            r == old(self).buffer.unread,
            !final(self).buffer.unread,
            final(self).buffer.current == old(self).buffer.current,
            final(self).config == old(self).config,
            final(self).store == old(self).store,
            final(self).series == old(self).series,
            final(self).link == old(self).link,
            final(self).saving == old(self).saving,
    {
        self.buffer.take_unread()
    }

    /// Publishes one acquired spectrum: validates it, stores it as the
    /// live trace, raises the unread flag, appends the trend sample
    /// while the time series is enabled, and, while continuous saving
    /// is on, hands back the serialized record set for the external
    /// writer.  Samples whose wavelengths do not strictly increase are
    /// rejected as `Config` and nothing changes.
    pub fn handle_new_spectrum(&mut self, samples: Vec<Sample>, now: u64) -> (r: Result<
        Option<Vec<u8>>,
        CoreError,
    >)
        requires
            old(self).wf(),
        ensures
            final(self).wf(),
            r is Ok <==> wavelengths_increasing(samples@),
            r matches Err(e) ==> e == CoreError::Config && *final(self) == *old(self),
            r is Ok ==> (final(self).buffer.current matches Some(sp) && sp.samples@ == samples@
                && sp.timestamp == now && final(self).buffer.unread),
            r matches Ok(saved) ==> (old(self).saving <==> saved is Some),
            r matches Ok(saved) ==> (saved matches Some(bytes) ==> bytes@ == spec_txt(samples@)),
            r is Ok && !old(self).config.time_series.enabled ==> final(self).series == old(
                self,
            ).series,
            r is Ok && old(self).config.time_series.enabled ==> exists|
                smp: TimeSeriesSample,
                fs_v: Seq<Feature>,
                fs_p: Seq<Feature>,
            |
                #![trigger old(self).series.samples@.push(smp), is_feature_report(
                    samples@,
                    old(self).config.valley_detection,
                    FeatureKind::Valley,
                    fs_v,
                ), is_feature_report(
                    samples@,
                    old(self).config.peak_detection,
                    FeatureKind::Peak,
                    fs_p,
                )]
                {
                    let cfg = old(self).config.time_series;
                    &&& smp.timestamp == now
                    &&& smp.values@.len() == cfg.spec_channel_count()
                    &&& final(self).series.samples@ == old(self).series.samples@.push(smp).filter(
                        window_pred(now, cfg.total_time),
                    )
                    &&& is_feature_report(
                        samples@,
                        old(self).config.valley_detection,
                        FeatureKind::Valley,
                        fs_v,
                    )
                    &&& is_feature_report(
                        samples@,
                        old(self).config.peak_detection,
                        FeatureKind::Peak,
                        fs_p,
                    )
                    &&& (cfg.track_valley_wavelength && fs_v.len() > 0 ==> exists|k: int|
                        is_lowest_at(fs_v, k) && smp.values@[0] == fs_v[k].wavelength)
                    &&& (cfg.track_valley_power && fs_v.len() > 0 ==> exists|k: int|
                        is_lowest_at(fs_v, k) && smp.values@[slot_valley_power(cfg)] == fs_v[
                            k
                        ].power)
                    &&& (cfg.track_peak_wavelength && fs_p.len() > 0 ==> exists|k: int|
                        is_highest_at(fs_p, k) && smp.values@[slot_peak_wavelength(cfg)] == fs_p[
                            k
                        ].wavelength)
                    &&& (cfg.track_peak_power && fs_p.len() > 0 ==> exists|k: int|
                        is_highest_at(fs_p, k) && smp.values@[slot_peak_power(cfg)] == fs_p[
                            k
                        ].power)
                    &&& (cfg.track_valley_wavelength && fs_v.len() == 0 ==> smp.values@[0] == 0)
                    &&& (cfg.track_valley_power && fs_v.len() == 0 ==> smp.values@[
                        slot_valley_power(cfg)
                    ] == 0)
                    &&& (cfg.track_peak_wavelength && fs_p.len() == 0 ==> smp.values@[
                        slot_peak_wavelength(cfg)
                    ] == 0)
                    &&& (cfg.track_peak_power && fs_p.len() == 0 ==> smp.values@[
                        slot_peak_power(cfg)
                    ] == 0)
                },
            final(self).config == old(self).config,
            final(self).store == old(self).store,
            final(self).link == old(self).link,
            final(self).saving == old(self).saving,
    {
        let spectrum = match Spectrum::new(samples, now) {
            Ok(sp) => sp,
            Err(e) => {
                return Err(e);
            },
        };
        let saved: Option<Vec<u8>> = if self.saving {
            Some(spectrum_to_txt(&spectrum.samples))
        } else {
            None
        };
        if self.config.time_series.enabled {
            let valleys = detect_valleys(&spectrum.samples, self.config.valley_detection);
            let peaks = detect_peaks(&spectrum.samples, self.config.peak_detection);
            let values = extract_channel_values(&self.config.time_series, &valleys, &peaks);
            let ghost smp = TimeSeriesSample { timestamp: now, values: values };
            let ghost pushed = self.series.samples@.push(smp);
            self.series.append(now, values, self.config.time_series.total_time);
            proof {
                let pred = window_pred(now, old(self).config.time_series.total_time);
                crate::timeseries::lemma_filter_elems(pushed, pred);
                assert forall|k: int| 0 <= k < self.series.samples@.len() implies (
                #[trigger] self.series.samples@[k]).values@.len()
                    == self.config.time_series.spec_channel_count() by {
                    let j = choose|j: int|
                        0 <= j < pushed.len() && self.series.samples@[k] == pushed[j];
                    if j < pushed.len() - 1 {
                        assert(pushed[j] == old(self).series.samples@[j]);
                    }
                }
            }
        }
        self.buffer.set(spectrum);
        Ok(saved)
    }

    /// The live spectrum rendered under the current draw info; nothing
    /// while no spectrum has been acquired.
    pub fn get_last_spectrum_path(&self) -> (r: Option<Vec<Point>>)
        requires
            self.wf(),
        ensures
            r is Some <==> self.buffer.current is Some,
            r matches Some(p) ==> (self.buffer.current matches Some(sp) && p@.len()
                == sp.samples@.len() && forall|k: int|
                0 <= k < p@.len() ==> p@[k] == map_point(
                    spec_draw_info(self.config),
                    #[trigger] sp.samples@[k],
                )),
    {
        let info = self.config.draw_info();
        match self.buffer.get() {
            Some(sp) => Some(render_spectrum(&info, &sp.samples)),
            None => None,
        }
    }

    /// The live spectrum's valley markers under the current transform.
    pub fn get_last_spectrum_valleys_points(&self) -> (r: Option<Vec<Point>>)
        requires
            self.wf(),
        ensures
            r is Some <==> self.buffer.current is Some,
            r matches Some(p) ==> (self.buffer.current matches Some(sp) && exists|fs: Seq<Feature>|
                is_feature_report(
                    sp.samples@,
                    self.config.valley_detection,
                    FeatureKind::Valley,
                    fs,
                ) && p@.len() == fs.len() && forall|k: int|
                    0 <= k < p@.len() ==> p@[k] == map_feature_point(
                        spec_draw_info(self.config),
                        #[trigger] fs[k],
                    )),
    {
        let info = self.config.draw_info();
        match self.buffer.get() {
            Some(sp) => {
                let fs = detect_valleys(&sp.samples, self.config.valley_detection);
                Some(render_feature_points(&info, &fs))
            },
            None => None,
        }
    }

    /// The live spectrum's peak markers under the current transform.
    pub fn get_last_spectrum_peaks_points(&self) -> (r: Option<Vec<Point>>)
        requires
            self.wf(),
        ensures
            r is Some <==> self.buffer.current is Some,
            r matches Some(p) ==> (self.buffer.current matches Some(sp) && exists|fs: Seq<Feature>|
                is_feature_report(
                    sp.samples@,
                    self.config.peak_detection,
                    FeatureKind::Peak,
                    fs,
                ) && p@.len() == fs.len() && forall|k: int|
                    0 <= k < p@.len() ==> p@[k] == map_feature_point(
                        spec_draw_info(self.config),
                        #[trigger] fs[k],
                    )),
    {
        let info = self.config.draw_info();
        match self.buffer.get() {
            Some(sp) => {
                let fs = detect_peaks(&sp.samples, self.config.peak_detection);
                Some(render_feature_points(&info, &fs))
            },
            None => None,
        }
    }

    /// Captures the live spectrum and its feature sets into the frozen
    /// store, handing back the new id; with no live spectrum, reports
    /// `NotFound` and changes nothing.
    pub fn freeze_spectrum(&mut self, now: u64) -> (r: Result<u64, CoreError>)
        requires
            old(self).wf(),
            old(self).store.next_id < u64::MAX,
        ensures
            final(self).wf(),
            r is Ok <==> old(self).buffer.current is Some,
            r matches Err(e) ==> e == CoreError::NotFound && *final(self) == *old(self),
            r matches Ok(id) ==> (id == old(self).store.next_id && final(self).store.next_id == old(
                self,
            ).store.next_id + 1 && final(self).store.traces@.len() == old(
                self,
            ).store.traces@.len() + 1 && final(self).store.traces@.last().id == id && (old(
                self,
            ).buffer.current matches Some(sp) ==> final(self).store.traces@.last().spectrum.samples@
                == sp.samples@) && final(self).store.traces@.drop_last() == old(
                self,
            ).store.traces@ && final(self).store.traces@.last().frozen_at == now
                && is_feature_report(
                final(self).store.traces@.last().spectrum.samples@,
                old(self).config.valley_detection,
                FeatureKind::Valley,
                final(self).store.traces@.last().valleys@,
            ) && is_feature_report(
                final(self).store.traces@.last().spectrum.samples@,
                old(self).config.peak_detection,
                FeatureKind::Peak,
                final(self).store.traces@.last().peaks@,
            )),
            final(self).config == old(self).config,
            final(self).buffer == old(self).buffer,
            final(self).series == old(self).series,
            final(self).link == old(self).link,
            final(self).saving == old(self).saving,
    {
        let sp = match self.buffer.get() {
            Some(sp) => sp,
            None => {
                return Err(CoreError::NotFound);
            },
        };
        let valleys = detect_valleys(&sp.samples, self.config.valley_detection);
        let peaks = detect_peaks(&sp.samples, self.config.peak_detection);
        let id = self.store.freeze(sp, valleys, peaks, now);
        proof {
            assert(self.store.traces@.drop_last() =~= old(self).store.traces@);
        }
        Ok(id)
    }

    /// Deletes a frozen trace by id; an unknown id reports `NotFound`
    /// without failing anything else.
    pub fn delete_frozen_spectrum(&mut self, id: u64) -> (r: Result<(), CoreError>)
        requires
            old(self).wf(),
        ensures
            final(self).wf(),
            r is Ok <==> has_id(old(self).store.traces@, id),
            r is Ok ==> exists|k: int|
                0 <= k < old(self).store.traces@.len() && (#[trigger] old(
                    self,
                ).store.traces@[k].id) == id && final(self).store.traces@ == old(
                    self,
                ).store.traces@.remove(k),
            r matches Err(e) ==> e == CoreError::NotFound && *final(self) == *old(self),
            final(self).config == old(self).config,
            final(self).buffer == old(self).buffer,
            final(self).series == old(self).series,
            final(self).link == old(self).link,
            final(self).saving == old(self).saving,
            final(self).store.next_id == old(self).store.next_id,
    {
        self.store.delete(id)
    }

    /// A frozen trace rendered under the *current* draw info, so frozen
    /// traces rescale with the live view.
    pub fn get_frozen_spectrum_path(&self, id: u64) -> (r: Result<Vec<Point>, CoreError>)
        requires
            self.wf(),
        ensures
            r is Ok <==> has_id(self.store.traces@, id),
            r matches Ok(p) ==> exists|k: int|
                0 <= k < self.store.traces@.len() && (#[trigger] self.store.traces@[k].id) == id
                    && p@.len() == self.store.traces@[k].spectrum.samples@.len() && forall|j: int|
                    0 <= j < p@.len() ==> p@[j] == map_point(
                        spec_draw_info(self.config),
                        self.store.traces@[k].spectrum.samples@[j],
                    ),
            r matches Err(e) ==> e == CoreError::NotFound,
    {
        let info = self.config.draw_info();
        match self.store.get(id) {
            Some(trace) => Ok(render_spectrum(&info, &trace.spectrum.samples)),
            None => Err(CoreError::NotFound),
        }
    }

    /// A frozen trace's captured valley markers, re-rendered under the
    /// current draw info.
    pub fn get_frozen_spectrum_valleys_points(&self, id: u64) -> (r: Result<Vec<Point>, CoreError>)
        requires
            self.wf(),
        ensures
            r is Ok <==> has_id(self.store.traces@, id),
            r matches Ok(p) ==> exists|k: int|
                0 <= k < self.store.traces@.len() && (#[trigger] self.store.traces@[k].id) == id
                    && p@.len() == self.store.traces@[k].valleys@.len() && forall|j: int|
                    0 <= j < p@.len() ==> p@[j] == map_feature_point(
                        spec_draw_info(self.config),
                        self.store.traces@[k].valleys@[j],
                    ),
            r matches Err(e) ==> e == CoreError::NotFound,
    {
        let info = self.config.draw_info();
        match self.store.get(id) {
            Some(trace) => Ok(render_feature_points(&info, &trace.valleys)),
            None => Err(CoreError::NotFound),
        }
    }

    /// A frozen trace's captured peak markers, re-rendered under the
    /// current draw info.
    pub fn get_frozen_spectrum_peaks_points(&self, id: u64) -> (r: Result<Vec<Point>, CoreError>)
        requires
            self.wf(),
        ensures
            r is Ok <==> has_id(self.store.traces@, id),
            r matches Ok(p) ==> exists|k: int|
                0 <= k < self.store.traces@.len() && (#[trigger] self.store.traces@[k].id) == id
                    && p@.len() == self.store.traces@[k].peaks@.len() && forall|j: int|
                    0 <= j < p@.len() ==> p@[j] == map_feature_point(
                        spec_draw_info(self.config),
                        self.store.traces@[k].peaks@[j],
                    ),
            r matches Err(e) ==> e == CoreError::NotFound,
    {
        let info = self.config.draw_info();
        match self.store.get(id) {
            Some(trace) => Ok(render_feature_points(&info, &trace.peaks)),
            None => Err(CoreError::NotFound),
        }
    }

    /// Every frozen trace rendered against the live view: the shadow
    /// overlay, in creation order.
    pub fn get_shadow_paths(&self) -> (r: Vec<Vec<Point>>)
        requires
            self.wf(),
        ensures
            r@.len() == self.store.traces@.len(),
            forall|k: int|
                0 <= k < r@.len() ==> (#[trigger] r@[k])@.len()
                    == self.store.traces@[k].spectrum.samples@.len() && forall|j: int|
                    0 <= j < r@[k]@.len() ==> r@[k]@[j] == map_point(
                        spec_draw_info(self.config),
                        #[trigger] self.store.traces@[k].spectrum.samples@[j],
                    ),
    {
        let info = self.config.draw_info();
        let n: usize = self.store.traces.len();
        let mut r: Vec<Vec<Point>> = Vec::new();
        let mut i: usize = 0;
        while i < n
            invariant
                self.wf(),
                info == spec_draw_info(self.config),
                n == self.store.traces@.len(),
                i == r@.len() <= n,
                forall|k: int|
                    0 <= k < i ==> (#[trigger] r@[k])@.len()
                        == self.store.traces@[k].spectrum.samples@.len() && forall|j: int|
                        0 <= j < r@[k]@.len() ==> r@[k]@[j] == map_point(
                            spec_draw_info(self.config),
                            #[trigger] self.store.traces@[k].spectrum.samples@[j],
                        ),
            decreases n - i,
        {
            let path = render_spectrum(&info, &self.store.traces[i].spectrum.samples);
            r.push(path);
            i = i + 1;
        }
        r
    }

    /// Opens the hardware; the caller reports whether the open worked.
    pub fn connect_acquisitor(&mut self, hw_open_ok: bool) -> (r: Result<(), CoreError>)
        ensures
            final(self).link.state == link_next(
                old(self).link.state,
                LinkCommand::Connect(hw_open_ok),
            ),
            r is Ok <==> link_accepts(old(self).link.state, LinkCommand::Connect(hw_open_ok)),
            r matches Err(e) ==> e == link_error(
                old(self).link.state,
                LinkCommand::Connect(hw_open_ok),
            ),
            final(self).same_but_link(*old(self)),
    {
        self.link.step(LinkCommand::Connect(hw_open_ok))
    }

    /// Disconnects, implicitly stopping a running read first.
    pub fn disconnect_acquisitor(&mut self) -> (r: Result<(), CoreError>)
        ensures
            final(self).link.state == link_next(old(self).link.state, LinkCommand::Disconnect),
            r is Ok <==> link_accepts(old(self).link.state, LinkCommand::Disconnect),
            r matches Err(e) ==> e == link_error(old(self).link.state, LinkCommand::Disconnect),
            final(self).same_but_link(*old(self)),
    {
        self.link.step(LinkCommand::Disconnect)
    }

    /// Starts the continuous producer loop.
    pub fn acquisitor_start_reading(&mut self) -> (r: Result<(), CoreError>)
        ensures
            final(self).link.state == link_next(old(self).link.state, LinkCommand::StartReading),
            r is Ok <==> link_accepts(old(self).link.state, LinkCommand::StartReading),
            r matches Err(e) ==> e == link_error(old(self).link.state, LinkCommand::StartReading),
            final(self).same_but_link(*old(self)),
    {
        self.link.step(LinkCommand::StartReading)
    }

    /// Triggers exactly one acquisition cycle; the state stays
    /// `Connected`.
    pub fn acquisitor_read_single(&mut self) -> (r: Result<(), CoreError>)
        ensures
            final(self).link.state == old(self).link.state,
            r is Ok <==> link_accepts(old(self).link.state, LinkCommand::ReadSingle),
            r matches Err(e) ==> e == link_error(old(self).link.state, LinkCommand::ReadSingle),
            final(self).same_but_link(*old(self)),
    {
        self.link.step(LinkCommand::ReadSingle)
    }

    /// Stops the continuous producer loop.
    pub fn acquisitor_stop_reading(&mut self) -> (r: Result<(), CoreError>)
        ensures
            final(self).link.state == link_next(old(self).link.state, LinkCommand::StopReading),
            r is Ok <==> link_accepts(old(self).link.state, LinkCommand::StopReading),
            r matches Err(e) ==> e == link_error(old(self).link.state, LinkCommand::StopReading),
            final(self).same_but_link(*old(self)),
    {
        self.link.step(LinkCommand::StopReading)
    }

    /// Serializes one frozen trace for export; the external writer puts
    /// the bytes on disk.
    pub fn save_frozen_spectrum(&self, id: u64) -> (r: Result<Vec<u8>, CoreError>)
        requires
            self.wf(),
        ensures
            r is Ok <==> has_id(self.store.traces@, id),
            r matches Ok(bytes) ==> exists|k: int|
                0 <= k < self.store.traces@.len() && (#[trigger] self.store.traces@[k].id) == id
                    && bytes@ == spec_txt(self.store.traces@[k].spectrum.samples@),
            r matches Err(e) ==> e == CoreError::NotFound,
    {
        match self.store.get(id) {
            Some(trace) => Ok(spectrum_to_txt(&trace.spectrum.samples)),
            None => Err(CoreError::NotFound),
        }
    }

    /// Serializes every frozen trace, in creation order, as one record
    /// set per trace.  An empty store yields an empty record set, not
    /// an error.
    pub fn save_all_spectra(&self) -> (r: Vec<Vec<u8>>)
        requires
            self.wf(),
        ensures
            r@.len() == self.store.traces@.len(),
            forall|k: int|
                0 <= k < r@.len() ==> (#[trigger] r@[k])@ == spec_txt(
                    self.store.traces@[k].spectrum.samples@,
                ),
            self.store.traces@.len() == 0 ==> r@.len() == 0,
    {
        let n: usize = self.store.traces.len();
        let mut r: Vec<Vec<u8>> = Vec::new();
        let mut i: usize = 0;
        while i < n
            invariant
                n == self.store.traces@.len(),
                i == r@.len() <= n,
                forall|k: int|
                    0 <= k < i ==> (#[trigger] r@[k])@ == spec_txt(
                        self.store.traces@[k].spectrum.samples@,
                    ),
            decreases n - i,
        {
            let bytes = spectrum_to_txt(&self.store.traces[i].spectrum.samples);
            r.push(bytes);
            i = i + 1;
        }
        r
    }

    /// The retained trend window rendered as one path per tracked
    /// channel, time on the horizontal axis; wavelength-valued channels
    /// scale against the wavelength limits, power-valued ones against
    /// the power limits.
    pub fn get_time_series_paths(&self) -> (r: Vec<Vec<Point>>)
        requires
            self.wf(),
        ensures
            r@.len() == channel_kinds(self.config.time_series).len(),
            forall|c: int| 0 <= c < r@.len() ==> (#[trigger] r@[c])@.len()
                == self.series.samples@.len(),
            forall|c: int, j: int|
                0 <= c < r@.len() && 0 <= j < r@[c]@.len() ==> #[trigger] r@[c]@[j] == ts_point(
                    self.config,
                    ts_end(self.series.samples@),
                    channel_kinds(self.config.time_series)[c],
                    self.series.samples@[j],
                    c,
                ),
    {
        let cfg = self.config.time_series;
        let mut kinds: Vec<bool> = Vec::new();
        if cfg.track_valley_wavelength {
            kinds.push(true);
        }
        if cfg.track_valley_power {
            kinds.push(false);
        }
        if cfg.track_peak_wavelength {
            kinds.push(true);
        }
        if cfg.track_peak_power {
            kinds.push(false);
        }
        proof {
            assert(kinds@ =~= channel_kinds(cfg));
            assert(channel_kinds(cfg).len() == cfg.spec_channel_count());
        }
        let m: usize = self.series.samples.len();
        let t_end: u64 = if m == 0 {
            0
        } else {
            self.series.samples[m - 1].timestamp
        };
        let mut r: Vec<Vec<Point>> = Vec::new();
        let nch: usize = kinds.len();
        let mut c: usize = 0;
        while c < nch
            invariant
                self.wf(),
                nch == kinds@.len(),
                kinds@ == channel_kinds(self.config.time_series),
                m == self.series.samples@.len(),
                t_end == ts_end(self.series.samples@),
                c == r@.len() <= nch,
                forall|k: int| 0 <= k < c ==> (#[trigger] r@[k])@.len()
                    == self.series.samples@.len(),
                forall|k: int, j: int|
                    0 <= k < c && 0 <= j < r@[k]@.len() ==> #[trigger] r@[k]@[j] == ts_point(
                        self.config,
                        ts_end(self.series.samples@),
                        channel_kinds(self.config.time_series)[k],
                        self.series.samples@[j],
                        k,
                    ),
            decreases nch - c,
        {
            let is_wl: bool = kinds[c];
            let mut path: Vec<Point> = Vec::new();
            let mut j: usize = 0;
            while j < m
                invariant
                    self.wf(),
                    nch == kinds@.len(),
                    kinds@ == channel_kinds(self.config.time_series),
                    c < nch,
                    is_wl == channel_kinds(self.config.time_series)[c as int],
                    m == self.series.samples@.len(),
                    t_end == ts_end(self.series.samples@),
                    j == path@.len() <= m,
                    forall|t: int|
                        0 <= t < j ==> #[trigger] path@[t] == ts_point(
                            self.config,
                            ts_end(self.series.samples@),
                            channel_kinds(self.config.time_series)[c as int],
                            self.series.samples@[t],
                            c as int,
                        ),
                decreases m - j,
            {
                let smp = &self.series.samples[j];
                let x: i64 = map_time(
                    smp.timestamp,
                    t_end,
                    self.config.time_series.total_time,
                    self.config.svg_width,
                );
                let v: i64 = if c < smp.values.len() {
                    smp.values[c]
                } else {
                    0
                };
                let y: i64 = if is_wl {
                    crate::render::scale_y(
                        v,
                        self.config.wl_min,
                        self.config.wl_max,
                        self.config.svg_height,
                    )
                } else {
                    crate::render::scale_y(
                        v,
                        self.config.pw_min,
                        self.config.pw_max,
                        self.config.svg_height,
                    )
                };
                path.push(Point { x, y });
                j = j + 1;
            }
            r.push(path);
            c = c + 1;
        }
        r
    }
}

/// The tracked channels in their fixed order; `true` marks a
/// wavelength-valued channel, `false` a power-valued one.
pub open spec fn channel_kinds(c: TimeSeriesConfig) -> Seq<bool> {
    (if c.track_valley_wavelength {
        seq![true]
    } else {
        Seq::empty()
    }) + (if c.track_valley_power {
        seq![false]
    } else {
        Seq::empty()
    }) + (if c.track_peak_wavelength {
        seq![true]
    } else {
        Seq::empty()
    }) + (if c.track_peak_power {
        seq![false]
    } else {
        Seq::empty()
    })
}

/// The right edge of the rendered window: the newest retained
/// timestamp, or zero with nothing retained.
pub open spec fn ts_end(s: Seq<TimeSeriesSample>) -> int {
    if s.len() == 0 {
        0
    } else {
        s.last().timestamp as int
    }
}

/// Horizontal position of time `ts` inside the window of length
/// `total` ending at `t_end`, in milli-pixels.
pub open spec fn spec_time_x(width: int, t_end: int, total: int, ts: int) -> int {
    let lo = if t_end >= total {
        t_end - total
    } else {
        0
    };
    let hi = if t_end > lo {
        t_end
    } else {
        lo + 1
    };
    (crate::render::spec_clamp(ts, lo, hi) - lo) * (width * 1000) / (hi - lo)
}

/// Where channel `c`'s value of `smp` lands on the canvas.
pub open spec fn ts_point(
    cfg: HandlerConfig,
    t_end: int,
    is_wl: bool,
    smp: TimeSeriesSample,
    c: int,
) -> Point {
    let v = if 0 <= c < smp.values@.len() {
        smp.values@[c] as int
    } else {
        0
    };
    Point {
        x: spec_time_x(
            cfg.svg_width as int,
            t_end,
            cfg.time_series.total_time as int,
            smp.timestamp as int,
        ) as i64,
        y: (if is_wl {
            crate::render::spec_scale_y(v, cfg.wl_min as int, cfg.wl_max as int, cfg.svg_height as int)
        } else {
            crate::render::spec_scale_y(v, cfg.pw_min as int, cfg.pw_max as int, cfg.svg_height as int)
        }) as i64,
    }
}

/// Maps a timestamp into the rolling window.
fn map_time(ts: u64, t_end: u64, total: u64, width: i64) -> (r: i64)
    requires
        1 <= total <= 1_000_000_000_000,
        1 <= width <= 10_000,
    ensures
        r == spec_time_x(width as int, t_end as int, total as int, ts as int),
        0 <= r <= width * 1000,
{
    let lo: u64 = if t_end >= total {
        t_end - total
    } else {
        0
    };
    let hi: u64 = if t_end > lo {
        t_end
    } else {
        lo + 1
    };
    let c: u64 = if ts < lo {
        lo
    } else if ts > hi {
        hi
    } else {
        ts
    };
    let num: u64 = c - lo;
    let den: u64 = hi - lo;
    let k: u64 = (width as u64) * 1000;
    proof {
        assert(num <= den);
        assert(den <= 1_000_000_000_000);
        assert((num as int) * (k as int) <= 10_000_000_000_000_000_000 && 0 <= (num as int) * (
        k as int)) by (nonlinear_arith)
            requires
                0 <= num <= 1_000_000_000_000,
                0 <= k <= 10_000_000,
        ;
        assert((num as int) * (k as int) / (den as int) <= k as int) by (nonlinear_arith)
            requires
                0 <= num <= den,
                0 < den,
                0 <= k,
        ;
    }
    let wide: u128 = (num as u128) * (k as u128) / (den as u128);
    wide as i64
}

} // verus!
