use rosav::detect::{detect_peaks, detect_valleys, DetectionParams, FeatureKind};
use rosav::errors::CoreError;
use rosav::handler::{default_config, new_spectrum_handler, HandlerConfig};
use rosav::link::{AcquisitorLink, ConnectionState, LinkCommand};
use rosav::spectrum::{Sample, Spectrum, SpectrumBuffer};

fn s(wl: i64, pw: i64) -> Sample {
    Sample {
        wavelength: wl,
        power: pw,
    }
}

fn dip_spectrum() -> Vec<Sample> {
    // A clear valley at index 3 and a clear peak at index 7.
    vec![
        s(1_500_000, -10_000),
        s(1_510_000, -20_000),
        s(1_520_000, -35_000),
        s(1_530_000, -60_000),
        s(1_540_000, -30_000),
        s(1_550_000, -15_000),
        s(1_560_000, -8_000),
        s(1_570_000, -2_000),
        s(1_580_000, -12_000),
        s(1_590_000, -18_000),
    ]
}

#[test]
fn no_index_is_both_peak_and_valley() {
    let samples = dip_spectrum();
    let params = DetectionParams {
        window: 3,
        prominence: 1_000,
    };
    let peaks = detect_peaks(&samples, params);
    let valleys = detect_valleys(&samples, params);
    for p in &peaks {
        assert_eq!(p.kind, FeatureKind::Peak);
        for v in &valleys {
            assert_ne!(p.index, v.index);
        }
    }
    assert!(valleys.iter().any(|f| f.index == 3));
    assert!(peaks.iter().any(|f| f.index == 7));
}

#[test]
fn detection_on_short_spectra_is_empty() {
    let params = DetectionParams {
        window: 2,
        prominence: 0,
    };
    let empty: Vec<Sample> = vec![];
    assert!(detect_peaks(&empty, params).is_empty());
    assert!(detect_valleys(&empty, params).is_empty());
    let two = vec![s(1, 5), s(2, 3)];
    assert!(detect_peaks(&two, params).is_empty());
    assert!(detect_valleys(&two, params).is_empty());
}

#[test]
fn detection_ties_resolve_to_earliest_index() {
    // Two equal maxima inside one window: only the earlier is a peak.
    let samples = vec![s(1, 0), s(2, 5), s(3, 5), s(4, 0), s(5, -1)];
    let params = DetectionParams {
        window: 4,
        prominence: 1,
    };
    let peaks = detect_peaks(&samples, params);
    assert_eq!(peaks.len(), 1);
    assert_eq!(peaks[0].index, 1);
    assert_eq!(peaks[0].power, 5);
}

#[test]
fn link_follows_only_listed_edges() {
    let mut link = AcquisitorLink::new();
    assert_eq!(link.state, ConnectionState::Disconnected);

    // A failing hardware open leaves the state unchanged.
    assert_eq!(
        link.step(LinkCommand::Connect(false)),
        Err(CoreError::Hardware)
    );
    assert_eq!(link.state, ConnectionState::Disconnected);

    // Illegal calls from Disconnected are no-ops with InvalidTransition.
    assert_eq!(
        link.step(LinkCommand::StartReading),
        Err(CoreError::InvalidTransition)
    );
    assert_eq!(
        link.step(LinkCommand::StopReading),
        Err(CoreError::InvalidTransition)
    );
    assert_eq!(
        link.step(LinkCommand::Disconnect),
        Err(CoreError::InvalidTransition)
    );
    assert_eq!(link.state, ConnectionState::Disconnected);

    assert_eq!(link.step(LinkCommand::Connect(true)), Ok(()));
    assert_eq!(link.state, ConnectionState::Connected);

    // Duplicate connect is refused, state kept.
    assert_eq!(
        link.step(LinkCommand::Connect(true)),
        Err(CoreError::InvalidTransition)
    );
    assert_eq!(link.state, ConnectionState::Connected);

    // A single read stays Connected.
    assert_eq!(link.step(LinkCommand::ReadSingle), Ok(()));
    assert_eq!(link.state, ConnectionState::Connected);

    assert_eq!(link.step(LinkCommand::StartReading), Ok(()));
    assert_eq!(link.state, ConnectionState::Reading);
    assert_eq!(
        link.step(LinkCommand::ReadSingle),
        Err(CoreError::InvalidTransition)
    );
    assert_eq!(link.state, ConnectionState::Reading);
    assert_eq!(link.step(LinkCommand::StopReading), Ok(()));
    assert_eq!(link.state, ConnectionState::Connected);

    // Disconnect also works from Reading, stopping implicitly.
    assert_eq!(link.step(LinkCommand::StartReading), Ok(()));
    assert_eq!(link.step(LinkCommand::Disconnect), Ok(()));
    assert_eq!(link.state, ConnectionState::Disconnected);
}

#[test]
fn spectrum_rejects_unsorted_wavelengths() {
    let bad = vec![s(2, 0), s(1, 0)];
    assert!(matches!(Spectrum::new(bad, 0), Err(CoreError::Config)));
    let dup = vec![s(1, 0), s(1, 0)];
    assert!(matches!(Spectrum::new(dup, 0), Err(CoreError::Config)));
    let good = vec![s(1, 0), s(2, 0)];
    assert!(Spectrum::new(good, 7).is_ok());
}

#[test]
fn buffer_snapshot_and_unread_flag() {
    let mut buffer = SpectrumBuffer::new();
    assert!(!buffer.take_unread());
    assert!(buffer.get().is_none());
    let sp = Spectrum::new(vec![s(1, -1), s(2, -2)], 42).unwrap();
    buffer.set(sp);
    let snap = buffer.get().unwrap();
    assert_eq!(snap.timestamp, 42);
    assert_eq!(snap.samples.len(), 2);
    assert!(buffer.take_unread());
    // The flag clears after one report; the content stays.
    assert!(!buffer.take_unread());
    assert!(buffer.get().is_some());
}

#[test]
fn freeze_then_delete_restores_size() {
    let cfg = default_config();
    let mut h = new_spectrum_handler(cfg);
    h.handle_new_spectrum(dip_spectrum(), 1_000).unwrap();
    h.freeze_spectrum(1_000).unwrap();
    let before = h.store.len();
    let id = h.freeze_spectrum(2_000).unwrap();
    assert_eq!(h.store.len(), before + 1);
    h.delete_frozen_spectrum(id).unwrap();
    assert_eq!(h.store.len(), before);
}

#[test]
fn deleting_unknown_id_reports_not_found() {
    let mut h = new_spectrum_handler(default_config());
    assert_eq!(h.delete_frozen_spectrum(99), Err(CoreError::NotFound));
    assert_eq!(
        h.get_frozen_spectrum_path(99).unwrap_err(),
        CoreError::NotFound
    );
    // Freezing with no live spectrum is refused too.
    assert_eq!(h.freeze_spectrum(0), Err(CoreError::NotFound));
}

#[test]
fn invalid_config_falls_back_to_default() {
    let mut bad = default_config();
    bad.wl_max = bad.wl_min; // degenerate limits
    let h = new_spectrum_handler(bad);
    assert_eq!(h.get_handler_config(), default_config());
}

#[test]
fn apply_config_rejects_malformed_and_accepts_valid() {
    let mut h = new_spectrum_handler(default_config());
    let mut bad = default_config();
    bad.svg_width = 0;
    assert_eq!(h.apply_handler_config(bad), Err(CoreError::Config));
    assert_eq!(h.get_handler_config(), default_config());

    let mut good = default_config();
    good.pw_min = -90_000;
    assert_eq!(h.apply_handler_config(good), Ok(()));
    assert_eq!(h.get_power_limits(), (-90_000, 0));
}

#[test]
fn handler_read_projections_match_config() {
    let h = new_spectrum_handler(default_config());
    let c: HandlerConfig = h.get_handler_config();
    assert_eq!(h.get_wavelength_limits(), (c.wl_min, c.wl_max));
    assert_eq!(h.get_power_limits(), (c.pw_min, c.pw_max));
    assert_eq!(h.get_svg_size(), (800, 400));
    assert_eq!(h.get_valley_detection(), c.valley_detection);
    assert_eq!(h.get_peak_detection(), c.peak_detection);
    assert_eq!(h.get_time_series_config(), c.time_series);
    assert_eq!(h.get_connection_state(), ConnectionState::Disconnected);
}

#[test]
fn unread_polling_through_handler() {
    let mut h = new_spectrum_handler(default_config());
    assert!(!h.unread_spectrum());
    h.handle_new_spectrum(dip_spectrum(), 5).unwrap();
    assert!(h.unread_spectrum());
    assert!(!h.unread_spectrum());
}

#[test]
fn handle_new_spectrum_rejects_unsorted() {
    let mut h = new_spectrum_handler(default_config());
    let r = h.handle_new_spectrum(vec![s(2, 0), s(1, 0)], 5);
    assert!(matches!(r, Err(CoreError::Config)));
    assert!(h.get_last_spectrum_path().is_none());
}
