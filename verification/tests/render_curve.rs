use rosav::curve::{
    exp_neg_milli, isqrt, lorentzian_at, lorentzian_defined_check, my_gauss, transmission_spectra,
    transmission_spectra_2,
};
use rosav::handler::{default_config, new_spectrum_handler};
use rosav::render::{render_spectrum, Point};
use rosav::spectrum::Sample;

fn s(wl: i64, pw: i64) -> Sample {
    Sample {
        wavelength: wl,
        power: pw,
    }
}

#[test]
fn sample_maps_to_exact_canvas_point() {
    // power limits (-80, 0) dB, wavelength limits (1500, 1600) nm,
    // canvas 800x400: the sample (1550, -40) lands at (400, 200) px.
    let h = new_spectrum_handler(default_config());
    let info = h.get_handler_config().draw_info();
    let path = render_spectrum(&info, &vec![s(1_550_000, -40_000)]);
    assert_eq!(path.len(), 1);
    assert_eq!(path[0], Point {
        x: 400_000,
        y: 200_000
    });
}

#[test]
fn out_of_range_samples_clamp_instead_of_dropping() {
    let h = new_spectrum_handler(default_config());
    let info = h.get_handler_config().draw_info();
    let path = render_spectrum(
        &info,
        &vec![s(1_400_000, -90_000), s(1_700_000, 10_000)],
    );
    assert_eq!(path.len(), 2);
    assert_eq!(path[0], Point {
        x: 0,
        y: 400_000
    });
    assert_eq!(path[1], Point {
        x: 800_000,
        y: 0
    });
}

#[test]
fn renderer_is_deterministic() {
    let h = new_spectrum_handler(default_config());
    let info = h.get_handler_config().draw_info();
    let samples = vec![s(1_510_000, -5_000), s(1_554_321, -43_210), s(1_599_999, -79_999)];
    let first = render_spectrum(&info, &samples);
    let second = render_spectrum(&info, &samples);
    assert_eq!(first, second);
}

#[test]
fn lorentzian_is_exact_at_resonance() {
    // a=1.5, x0=1550, w=10, bias=0 evaluated at x=x0 gives -a - bias.
    let r = lorentzian_at(1_550_000, 1_500, 1_550_000, 10_000, 0);
    assert_eq!(r, -1_500);
    // With an insertion loss the bias adds on.
    let r2 = lorentzian_at(1_550_000, 1_500, 1_550_000, 10_000, 2_250);
    assert_eq!(r2, -3_750);
}

#[test]
fn lorentzian_singularity_is_rejected_at_the_boundary() {
    // a=3 makes the half-width factor undefined: callers must guard it.
    assert!(!lorentzian_defined_check(3_000));
    assert!(lorentzian_defined_check(1_500));
    assert!(lorentzian_defined_check(9_000));
}

#[test]
fn lorentzian_dip_decays_away_from_resonance() {
    let near = lorentzian_at(1_550_000, 1_500, 1_550_000, 10_000, 0);
    let mid = lorentzian_at(1_560_000, 1_500, 1_550_000, 10_000, 0);
    let far = lorentzian_at(1_600_000, 1_500, 1_550_000, 10_000, 0);
    assert!(near < mid && mid < far);
    assert!(far > -100);
}

#[test]
fn vector_forms_match_the_scalar_form() {
    let xs = vec![1_540_000, 1_550_000, 1_560_000];
    let ts = transmission_spectra(&xs, 1_500, 1_550_000, 10_000, 0);
    assert_eq!(ts.len(), 3);
    assert_eq!(ts[1], -1_500);
    assert_eq!(ts[0], ts[2]); // symmetric around the resonance

    let mg = my_gauss(&xs, 1_500, 1_550_000, 10_000, 0);
    assert_eq!(mg.len(), 3);
    assert_eq!(mg[0], mg[2]);
    assert!(mg[1] <= mg[0]);
}

#[test]
fn blended_form_switches_at_the_selector_threshold() {
    let xs = vec![1_540_000, 1_550_000, 1_560_000];
    let pure = transmission_spectra_2(&xs, 1_500, 1_550_000, 10_000, 0, 499);
    let lorentz = transmission_spectra(&xs, 1_500, 1_550_000, 10_000, 0);
    assert_eq!(pure, lorentz);

    let composite = transmission_spectra_2(&xs, 1_500, 1_550_000, 10_000, 0, 500);
    let half_l = transmission_spectra(&xs, 750, 1_550_000, 5_000, 0);
    let half_g = my_gauss(&xs, 750, 1_550_000, 5_000, 0);
    for k in 0..3 {
        assert_eq!(composite[k], half_l[k] + half_g[k]);
    }
}

#[test]
fn integer_sqrt_and_exponential_are_exact_to_their_spec() {
    assert_eq!(isqrt(0), 0);
    assert_eq!(isqrt(1), 1);
    assert_eq!(isqrt(8), 2);
    assert_eq!(isqrt(9), 3);
    assert_eq!(isqrt(10_000_000_000), 100_000);

    assert_eq!(exp_neg_milli(0), 1000);
    assert_eq!(exp_neg_milli(20_000), 0);
    let e1 = exp_neg_milli(1_000);
    assert!(360 <= e1 && e1 <= 375); // ~ 1/e
    let e2 = exp_neg_milli(2_000);
    assert!(e2 < e1);
}
