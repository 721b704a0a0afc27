//! End-to-end checks of the estimator on synthetic signals.

use swdft::collector::init_collector;
use swdft::collector::Collector;
use swdft::collector::WindowType;
use swdft::dftbin::DftBin;
use swdft::engine::pulsation_of;
use swdft::engine::BinParams;
use swdft::engine::ChannelSWDFT;
use swdft::engine::SColor;
use swdft::engine::SpectrumConfig;
use swdft::ring::ChannelRing;
use swdft::trig::TrigTable;
use swdft::trig::FIXED_POINT_FRACTIONAL;

fn make_trig() -> TrigTable {
    let mut v: Vec<i16> = Vec::with_capacity(FIXED_POINT_FRACTIONAL);
    for i in 0..FIXED_POINT_FRACTIONAL {
        let f = ((i as f64) / (FIXED_POINT_FRACTIONAL as f64) * std::f64::consts::TAU).sin();
        v.push((f * 32767.0) as i16);
    }
    TrigTable::new(v).expect("table length is one full turn")
}

fn quantize(x: f64) -> i32 {
    let q = (x * 32767.0).round();
    q.clamp(-32767.0, 32767.0) as i32
}

/// A sine block at the given frequency and amplitude, sampled at `sr`.
fn sine_block(freq: f64, amp: f64, sr: f64, n: usize) -> Vec<i32> {
    (0..n)
        .map(|t| quantize(amp * (std::f64::consts::TAU * freq * (t as f64) / sr).sin()))
        .collect()
}

fn test_config(sample_rate: u32, num_bins: u32) -> SpectrumConfig {
    SpectrumConfig {
        sample_rate,
        num_bins,
        min_f_mhz: 40_000,
        max_f_mhz: 10_000_000,
        wave_cycles_resolution: 16,
        resolution_low_f_shelf_mhz: 50_000,
        subtraction_peaks: false,
    }
}

/// Exponentially mapped per-bin frequencies, like the live display.
fn bin_freq_mhz(c: &SpectrumConfig, i: u32) -> u64 {
    let x = (i as f64) / (c.num_bins as f64);
    let min = (c.min_f_mhz as f64) / 1000.0;
    let max = (c.max_f_mhz as f64) / 1000.0;
    let f = max * ((min / max).ln() * (1.0 - x)).exp();
    (f * 1000.0) as u64
}

fn make_params(c: &SpectrumConfig) -> Vec<BinParams> {
    (0..c.num_bins)
        .map(|i| {
            let f = bin_freq_mhz(c, i);
            BinParams {
                freq_mhz: f,
                color: SColor::new(0xFF80FF40),
                octave_centi: (((f as f64 / 1000.0 / 440.0).log2() + 10.0) * 100.0) as i32,
                a_weight_milli: 1000,
            }
        })
        .collect()
}

/// Prefix-sum difference invariant on a driven bin: the O(1) ranged
/// query must equal a direct re-summation of sample-times-oscillator
/// terms, exactly, and the full-window magnitude of a pure tone at the
/// bin frequency must converge to the tone's amplitude.
#[test]
fn prefix_sum_difference_on_pure_tone() {
    let trig = make_trig();
    let sr = 24000.0;
    let freq = 750.0;
    let length: usize = 2048;
    let pulsation = pulsation_of(750_000, 24000);

    let mut bin = DftBin::new();
    bin.reinit_exact(pulsation, length, true);

    let mut ring = ChannelRing::new(4096);
    let block = sine_block(freq, 0.5, sr, 4096);
    ring.push_samples(&block);

    bin.advance(4096, &ring.ring_samples, ring.ring_offset, &trig);

    // direct re-summation of the last `length` terms, reproducing the
    // oscillator arithmetic sample by sample
    let mut phase: u64 = 0;
    let mut terms: Vec<(i64, i64)> = Vec::new();
    for t in 0..4096usize {
        let s = block[t] as i64;
        let und = ((phase >> 12) % 32768) as usize;
        let c = trig_cos(&trig, und);
        let sn = trig_sin(&trig, und);
        terms.push((s * c, s * sn));
        phase = (phase + pulsation as u64) % (1u64 << 27);
    }

    // compare several sub-window queries against the re-summation
    for (d1, d2) in [(0usize, 100usize), (5, 700), (0, 2047), (100, 2000)] {
        let q = bin.sum_ranged_from_to(d1, d2);
        let mut re: i64 = 0;
        let mut im: i64 = 0;
        for k in (4096 - d2)..(4096 - d1) {
            re += terms[k].0;
            im += terms[k].1;
        }
        assert_eq!(q.re, re, "window {}..{}", d1, d2);
        assert_eq!(q.im, im, "window {}..{}", d1, d2);
    }

    // magnitude of the full window approximates the amplitude
    let full = bin.sum_ranged_all();
    let cl = bin.current_length as f64;
    let mag = ((full.re as f64).powi(2) + (full.im as f64).powi(2)).sqrt();
    let amp = mag / (cl * 32767.0 * 32767.0 / 2.0);
    assert!(
        (amp - 0.5).abs() < 0.03,
        "amplitude estimate {} should be near 0.5",
        amp
    );
}

fn trig_sin(t: &TrigTable, idx: usize) -> i64 {
    t.sin_fp(idx as u32) as i64
}

fn trig_cos(t: &TrigTable, idx: usize) -> i64 {
    t.cos_fp(idx as u32) as i64
}

/// A rectangular kernel of a single unit coefficient reproduces the
/// plain full-window sum exactly.
#[test]
fn rect_kernel_matches_full_window() {
    let trig = make_trig();
    let mut bin = DftBin::new();
    bin.reinit_exact(pulsation_of(440_000, 24000), 1000, true);

    let mut ring = ChannelRing::new(2048);
    ring.push_samples(&sine_block(440.0, 0.8, 24000.0, 2048));
    bin.advance(2048, &ring.ring_samples, ring.ring_offset, &trig);

    let kerneled = bin.sum_complex_kerneled(&[1]);
    let full = bin.sum_ranged_all();
    assert_eq!(kerneled.re, full.re);
    assert_eq!(kerneled.im, full.im);
}

/// The smooth reinit path never resets the running sums; a
/// capacity-changing one still carries sums and history unless asked
/// to start empty.
#[test]
fn resize_continuity() {
    let trig = make_trig();
    let mut bin = DftBin::new();
    bin.reinit_exact(pulsation_of(440_000, 24000), 1000, true);

    let mut ring = ChannelRing::new(2048);
    ring.push_samples(&sine_block(440.0, 0.8, 24000.0, 2048));
    bin.advance(2048, &ring.ring_samples, ring.ring_offset, &trig);

    let re = bin.state_sum_real;
    let im = bin.state_sum_imag;
    assert!(re != 0 || im != 0);

    // same capacity class (1000 and 900 both round to 1024): smooth
    bin.reinit_exact(pulsation_of(500_000, 24000), 900, false);
    assert_eq!(bin.state_sum_real, re);
    assert_eq!(bin.state_sum_imag, im);
    assert_eq!(bin.length, 900);

    // different capacity class, non-empty: sums still carried over
    bin.reinit_exact(pulsation_of(500_000, 24000), 300, false);
    assert_eq!(bin.state_sum_real, re);
    assert_eq!(bin.state_sum_imag, im);

    // different capacity class, empty: full reset
    bin.reinit_exact(pulsation_of(500_000, 24000), 1500, true);
    assert_eq!(bin.state_sum_real, 0);
    assert_eq!(bin.state_sum_imag, 0);
    assert_eq!(bin.current_length, 0);
}

/// An all-zero block must collect as an all-zero spectrum.
#[test]
fn silence_collects_to_zero() {
    let c = test_config(24000, 64);
    let params = make_params(&c);
    let mut engine = ChannelSWDFT::new(&c, &params, make_trig());

    let zeros = vec![0i32; 8000];
    engine.on_input(&zeros);

    let snap = engine
        .collected_spectrums
        .recv()
        .expect("a collection boundary was crossed");
    assert_eq!(snap.spectrum.len(), 64);
    for s in &snap.spectrum {
        assert_eq!(s.value, 0);
    }
}

/// A pure tone must put the global maximum within one bin of its
/// frequency.
#[test]
fn single_tone_localization() {
    let c = test_config(24000, 256);
    let params = make_params(&c);
    let mut engine = ChannelSWDFT::new(&c, &params, make_trig());

    // the engine downsamples its input once, so feed at twice the
    // configured rate
    let tone = sine_block(440.0, 0.5, 48000.0, 96000);
    engine.on_input(&tone);

    let mut last = None;
    while let Some(s) = engine.collected_spectrums.recv() {
        last = Some(s);
    }
    let snap = last.expect("snapshots were produced");

    let mut max_i = 0;
    for (i, s) in snap.spectrum.iter().enumerate() {
        if s.value > snap.spectrum[max_i].value {
            max_i = i;
        }
    }
    let f_max = params[max_i].freq_mhz as f64 / 1000.0;
    let f_next = if max_i + 1 < params.len() {
        params[max_i + 1].freq_mhz as f64 / 1000.0
    } else {
        f_max
    };
    let bin_width = (f_max - f_next).abs().max(5.0);
    assert!(
        (f_max - 440.0).abs() <= bin_width * 2.0,
        "max bin at {} Hz, expected near 440 Hz (bin width {})",
        f_max,
        bin_width
    );
}

/// After the dominant tone is subtracted, the second strongest peak
/// must surface at the second tone.
#[test]
fn peak_subtraction_reveals_second_tone() {
    let mut c = test_config(24000, 256);
    c.subtraction_peaks = true;
    let params = make_params(&c);
    let mut engine = ChannelSWDFT::new(&c, &params, make_trig());
    // the default layout is the cross-correlation one; subtraction
    // peaks need the plain DFT layout
    engine.spectrum_bins = ChannelSWDFT::make_spectrum_bins(0, &c, &params);

    let sr = 48000.0;
    let n = 96000;
    let tone: Vec<i32> = (0..n)
        .map(|t| {
            let tt = t as f64 / sr;
            quantize(
                0.6 * (std::f64::consts::TAU * 440.0 * tt).sin()
                    + 0.3 * (std::f64::consts::TAU * 1250.0 * tt).sin(),
            )
        })
        .collect();
    engine.on_input(&tone);

    let mut last = None;
    while let Some(s) = engine.collected_spectrums.recv() {
        last = Some(s);
    }
    let snap = last.expect("snapshots were produced");
    let peaks = snap.peaks.expect("peaks are always collected");
    assert!(peaks.len() >= 2);

    // the two strongest extracted peaks (full alpha first) must sit
    // near the two injected tones
    let mut by_alpha: Vec<_> = peaks.iter().collect();
    by_alpha.sort_by(|a, b| b.alpha_milli.cmp(&a.alpha_milli));
    let f0 = params[by_alpha[0].probe_index as usize].freq_mhz as f64 / 1000.0;
    let f1 = params[by_alpha[1].probe_index as usize].freq_mhz as f64 / 1000.0;
    assert!(
        (f0 / 440.0 - 1.0).abs() < 0.1,
        "dominant peak at {} Hz, expected near 440",
        f0
    );
    assert!(
        (f1 / 1250.0 - 1.0).abs() < 0.1,
        "second peak at {} Hz, expected near 1250",
        f1
    );
}

/// The kernel normalization must make the collected magnitude of a
/// steady tone independent of the kernel length, within tolerance.
#[test]
fn kernel_sum_normalizes_magnitude() {
    let trig = make_trig();
    let mut bin = DftBin::new();
    bin.reinit_exact(pulsation_of(440_000, 24000), 4000, true);

    let mut ring = ChannelRing::new(8192);
    ring.push_samples(&sine_block(440.0, 0.5, 24000.0, 8192));
    bin.advance(8192, &ring.ring_samples, ring.ring_offset, &trig);

    let rect = init_collector(1, WindowType::Rect, &trig);
    let bn6 = init_collector(6, WindowType::BlackmanNutall, &trig);
    let bn12 = init_collector(12, WindowType::BlackmanNutall, &trig);

    let v_rect = magnitude_with(&bin, &rect);
    let v_bn6 = magnitude_with(&bin, &bn6);
    let v_bn12 = magnitude_with(&bin, &bn12);

    assert!(v_rect > 0);
    // the two tapered kernels must agree closely with each other
    let ratio_bn = v_bn6 as f64 / v_bn12 as f64;
    assert!(
        (ratio_bn - 1.0).abs() < 0.2,
        "6 vs 12 taps: {} vs {}",
        v_bn6,
        v_bn12
    );
    // and the taper must stay within the same scale as the flat window
    let ratio = v_bn6 as f64 / v_rect as f64;
    assert!(
        ratio > 0.3 && ratio < 3.0,
        "tapered vs rectangular: {} vs {}",
        v_bn6,
        v_rect
    );
}

fn magnitude_with(bin: &DftBin, coll: &Collector) -> u64 {
    ChannelSWDFT::dft_magnitude(bin, &coll.kernel, coll.kernel_sum, 1000)
}
