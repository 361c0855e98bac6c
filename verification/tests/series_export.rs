use rosav::errors::CoreError;
use rosav::export::{read_csv, read_txt, records_to_csv, spectrum_to_txt, Record};
use rosav::handler::{default_config, new_spectrum_handler};
use rosav::spectrum::Sample;
use rosav::timeseries::TimeSeriesAggregator;

fn s(wl: i64, pw: i64) -> Sample {
    Sample {
        wavelength: wl,
        power: pw,
    }
}

#[test]
fn aggregator_prunes_to_the_rolling_window() {
    let mut agg = TimeSeriesAggregator::new();
    let total: u64 = 1_000;
    agg.append(100, vec![1], total);
    agg.append(600, vec![2], total);
    agg.append(1_050, vec![3], total);
    assert_eq!(agg.samples.len(), 3); // 100 >= 1050 - 1000
    agg.append(1_200, vec![4], total);
    // The sample at 100 is now older than 1200 - 1000.
    assert_eq!(agg.samples.len(), 3);
    for smp in &agg.samples {
        assert!(smp.timestamp + total >= 1_200);
    }
    // A distant append keeps only itself.
    agg.append(10_000, vec![5], total);
    assert_eq!(agg.samples.len(), 1);
    assert_eq!(agg.samples[0].timestamp, 10_000);
}

#[test]
fn handler_appends_trends_only_while_enabled() {
    let mut cfg = default_config();
    cfg.time_series.enabled = true;
    cfg.time_series.total_time = 500;
    let mut h = new_spectrum_handler(cfg);
    let spectrum = vec![
        s(1_500_000, -10_000),
        s(1_510_000, -50_000),
        s(1_520_000, -9_000),
    ];
    h.handle_new_spectrum(spectrum.clone(), 100).unwrap();
    h.handle_new_spectrum(spectrum.clone(), 300).unwrap();
    assert_eq!(h.series.samples.len(), 2);
    h.handle_new_spectrum(spectrum.clone(), 700).unwrap();
    // The append at 100 fell out of the 500 ms window ending at 700.
    assert_eq!(h.series.samples.len(), 2);
    for smp in &h.series.samples {
        assert!(smp.timestamp + 500 >= 700);
        assert_eq!(smp.values.len(), 1); // valley wavelength channel
    }
    // The tracked scalar is the deepest valley's wavelength.
    assert_eq!(h.series.samples[0].values[0], 1_510_000);

    let mut off = new_spectrum_handler(default_config());
    off.handle_new_spectrum(spectrum, 100).unwrap();
    assert_eq!(off.series.samples.len(), 0);
}

#[test]
fn time_series_paths_have_one_path_per_channel() {
    let mut cfg = default_config();
    cfg.time_series.enabled = true;
    cfg.time_series.track_valley_power = true;
    let mut h = new_spectrum_handler(cfg);
    let spectrum = vec![
        s(1_500_000, -10_000),
        s(1_510_000, -50_000),
        s(1_520_000, -9_000),
    ];
    h.handle_new_spectrum(spectrum.clone(), 100).unwrap();
    h.handle_new_spectrum(spectrum, 200).unwrap();
    let paths = h.get_time_series_paths();
    assert_eq!(paths.len(), 2);
    for path in &paths {
        assert_eq!(path.len(), 2);
    }
    // The newest sample sits at the window's right edge.
    assert_eq!(paths[0][1].x, 800_000);
}

#[test]
fn spectrum_txt_is_exact_and_round_trips() {
    let samples = vec![s(1_550_000, -40_000), s(1_550_123, -39_999)];
    let bytes = spectrum_to_txt(&samples);
    assert_eq!(
        String::from_utf8(bytes.clone()).unwrap(),
        "1550.000;-40.000\n1550.123;-39.999\n"
    );
    let back = read_txt(&bytes).unwrap();
    assert_eq!(back, samples);
}

#[test]
fn txt_import_rejects_non_canonical_content() {
    assert_eq!(
        read_txt(b"not a spectrum").unwrap_err(),
        CoreError::Config
    );
    // A missing trailing newline is not the canonical form.
    assert_eq!(
        read_txt(b"1550.000;-40.000").unwrap_err(),
        CoreError::Config
    );
    // Too few decimal places is not the canonical form either.
    assert_eq!(read_txt(b"1550.0;-40.000\n").unwrap_err(), CoreError::Config);
    // The empty file is the canonical form of no samples.
    assert_eq!(read_txt(b"").unwrap(), vec![]);
}

#[test]
fn record_csv_is_exact_and_round_trips() {
    let records = vec![
        Record {
            a: 1_500,
            x0: 1_550_000,
            w: 10_000,
            bias: 0,
        },
        Record {
            a: 2_750,
            x0: 1_560_500,
            w: 12_345,
            bias: -1_000,
        },
    ];
    let bytes = records_to_csv(&records);
    assert_eq!(
        String::from_utf8(bytes.clone()).unwrap(),
        "a,x0,w,bias\n1.500,1550.000,10.000,0.000\n2.750,1560.500,12.345,-1.000\n"
    );
    let back = read_csv(&bytes).unwrap();
    assert_eq!(back, records);
}

#[test]
fn record_csv_requires_its_header() {
    assert_eq!(
        read_csv(b"1.500,1550.000,10.000,0.000\n").unwrap_err(),
        CoreError::Config
    );
    // The header alone is the canonical empty record set.
    assert_eq!(read_csv(b"a,x0,w,bias\n").unwrap(), vec![]);
    assert_eq!(read_csv(b"").unwrap_err(), CoreError::Config);
}

#[test]
fn save_all_spectra_on_empty_store_is_empty_not_an_error() {
    let h = new_spectrum_handler(default_config());
    let all = h.save_all_spectra();
    assert!(all.is_empty());
}

#[test]
fn save_frozen_spectrum_serializes_the_captured_trace() {
    let mut h = new_spectrum_handler(default_config());
    h.handle_new_spectrum(
        vec![s(1_500_000, -1_000), s(1_501_000, -2_000), s(1_502_000, -1_500)],
        7,
    )
    .unwrap();
    let id = h.freeze_spectrum(7).unwrap();
    let bytes = h.save_frozen_spectrum(id).unwrap();
    assert_eq!(
        String::from_utf8(bytes).unwrap(),
        "1500.000;-1.000\n1501.000;-2.000\n1502.000;-1.500\n"
    );
    assert_eq!(h.save_all_spectra().len(), 1);
    // Saving continuously hands the same serialization back on publish.
    h.save_continuous(true);
    assert!(h.get_saving());
    let saved = h
        .handle_new_spectrum(vec![s(1_500_000, -1_000)], 8)
        .unwrap()
        .unwrap();
    assert_eq!(String::from_utf8(saved).unwrap(), "1500.000;-1.000\n");
}

#[test]
fn shadow_paths_cover_every_frozen_trace() {
    let mut h = new_spectrum_handler(default_config());
    h.handle_new_spectrum(
        vec![s(1_500_000, -1_000), s(1_501_000, -2_000)],
        1,
    )
    .unwrap();
    h.freeze_spectrum(1).unwrap();
    h.handle_new_spectrum(
        vec![s(1_550_000, -40_000)],
        2,
    )
    .unwrap();
    h.freeze_spectrum(2).unwrap();
    let shadows = h.get_shadow_paths();
    assert_eq!(shadows.len(), 2);
    assert_eq!(shadows[0].len(), 2);
    assert_eq!(shadows[1].len(), 1);
    assert_eq!(shadows[1][0].x, 400_000);
}
