//! Exact-value checks of the small building blocks.

use swdft::collector::init_collector;
use swdft::collector::Collector;
use swdft::collector::WindowType;
use swdft::complex::ComplexI64;
use swdft::dftbin::DftBin;
use swdft::engine::needed_samplerate_octave;
use swdft::engine::pulsation_of;
use swdft::engine::ChannelSWDFT;
use swdft::engine::SColor;
use swdft::engine::SpectrumBinsState;
use swdft::ring::ChannelRing;
use swdft::snapshot::SnapshotChannel;
use swdft::trig::TrigTable;
use swdft::trig::FIXED_POINT_FRACTIONAL;
use swdft::query::parse_url_query_string;
use swdft::util::decr_modulo;
use swdft::util::isqrt_u64;
use swdft::util::positive_mod;
use swdft::util::round_next_power_of_2;

fn make_trig() -> TrigTable {
    let mut v: Vec<i16> = Vec::with_capacity(FIXED_POINT_FRACTIONAL);
    for i in 0..FIXED_POINT_FRACTIONAL {
        let f = ((i as f64) / (FIXED_POINT_FRACTIONAL as f64) * std::f64::consts::TAU).sin();
        v.push((f * 32767.0) as i16);
    }
    TrigTable::new(v).unwrap()
}

#[test]
fn positive_mod_wraps_negatives() {
    assert_eq!(positive_mod(7, 5), 2);
    assert_eq!(positive_mod(-1, 5), 4);
    assert_eq!(positive_mod(-5, 5), 0);
    assert_eq!(positive_mod(-13, 8), 3);
    assert_eq!(positive_mod(0, 3), 0);
}

#[test]
fn decr_modulo_steps_and_wraps() {
    let mut p: usize = 0;
    decr_modulo(&mut p, 4);
    assert_eq!(p, 1);
    let mut q: usize = 3;
    decr_modulo(&mut q, 4);
    assert_eq!(q, 0);
}

#[test]
fn next_power_of_two_values() {
    assert_eq!(round_next_power_of_2(1), 1);
    assert_eq!(round_next_power_of_2(2), 2);
    assert_eq!(round_next_power_of_2(3), 4);
    assert_eq!(round_next_power_of_2(1000), 1024);
    assert_eq!(round_next_power_of_2(1024), 1024);
    assert_eq!(round_next_power_of_2(1025), 2048);
}

#[test]
fn isqrt_exact_values() {
    assert_eq!(isqrt_u64(0), 0);
    assert_eq!(isqrt_u64(1), 1);
    assert_eq!(isqrt_u64(3), 1);
    assert_eq!(isqrt_u64(4), 2);
    assert_eq!(isqrt_u64(999999), 999);
    assert_eq!(isqrt_u64(1_000_000), 1000);
    assert_eq!(isqrt_u64(u64::MAX), 0xFFFF_FFFF);
}

#[test]
fn trig_table_rejects_wrong_length() {
    assert!(TrigTable::new(vec![0i16; 100]).is_none());
    assert!(TrigTable::new(vec![0i16; FIXED_POINT_FRACTIONAL]).is_some());
}

#[test]
fn complex_magnitude_and_rotate() {
    let c = ComplexI64 { re: 3, im: 4 };
    assert_eq!(c.magnitude_squared(), 25);

    // rotating by a quarter turn maps the real axis onto the
    // imaginary one, up to table quantization
    let trig = make_trig();
    let c = ComplexI64 { re: 1_000_000, im: 0 };
    let r = c.rotate(8192, &trig);
    assert!(r.re.abs() < 2000, "re after quarter turn: {}", r.re);
    assert!((r.im - 1_000_000).abs() < 2000, "im after quarter turn: {}", r.im);
}

#[test]
fn window_size_formula() {
    // 20 + 4*16 + 16*24000*1000/(50000 + 440000) = 84 + 783
    assert_eq!(DftBin::window_size(16, 24000, 440_000, 50_000), 867);
    // clamped at the supported maximum
    assert_eq!(DftBin::window_size(1024, 1_000_000, 1000, 1000), 65536);
}

#[test]
fn pulsation_formula() {
    // 440 Hz at 24 kHz: (440000 << 27) / 24000000
    assert_eq!(pulsation_of(440_000, 24000), 2460658);
    assert_eq!(pulsation_of(12_000_000, 24000) as u64, 1u64 << 26);
}

#[test]
fn needed_octave_halves_until_fit() {
    // 20 Hz easily fits far down; 10 kHz at 24 kHz fits only once
    assert_eq!(needed_samplerate_octave(10_000_000, 24_000_000), 1);
    assert!(needed_samplerate_octave(20_000, 24_000_000) > 5);
}

#[test]
fn scolor_gamma_squares_channels() {
    let c = SColor::new(0x00FF8040);
    assert_eq!(c.rgba, 0x00FF8040);
    assert_eq!(c.rgb_gamma.0, 0x40 * 0x40);
    assert_eq!(c.rgb_gamma.1, 0x80 * 0x80);
    assert_eq!(c.rgb_gamma.2, 0xFF * 0xFF);
}

#[test]
fn describe_names_layouts() {
    assert_eq!(SpectrumBinsState::DFT.describe(), "Regular DFT");
    assert_eq!(SpectrumBinsState::NC.describe(), "NC");
}

#[test]
fn window_type_round_trip() {
    for v in 0u8..4 {
        let w = WindowType::try_from_index(v).unwrap();
        assert_eq!(w.to_index(), v);
    }
    assert!(WindowType::try_from_index(4).is_none());
}

#[test]
fn collector_rejects_bad_coefficients() {
    // empty
    assert!(Collector::from_coefficients(WindowType::LogNormal, vec![]).is_none());
    // out of range
    assert!(Collector::from_coefficients(WindowType::LogNormal, vec![0x20000]).is_none());
    // too small on average to normalize by
    assert!(Collector::from_coefficients(WindowType::LogNormal, vec![0, 0, 0]).is_none());
    // a healthy taper
    let c = Collector::from_coefficients(WindowType::LogNormal, vec![100, 200, 300]).unwrap();
    assert_eq!(c.kernel_sum, 200);
}

#[test]
fn rect_collector_is_flat() {
    let trig = make_trig();
    let c = init_collector(4, WindowType::Rect, &trig);
    assert_eq!(c.kernel, vec![64864]);
    assert_eq!(c.kernel_sum, 64864);
}

#[test]
fn blackman_nutall_kernel_shape() {
    let trig = make_trig();
    let c = init_collector(6, WindowType::BlackmanNutall, &trig);
    assert_eq!(c.kernel.len(), 6);
    // symmetric bell: rises to the middle, falls after
    assert!(c.kernel[0] < c.kernel[1]);
    assert!(c.kernel[1] < c.kernel[2]);
    assert!(c.kernel[3] > c.kernel[4]);
    assert!(c.kernel[4] > c.kernel[5]);
    // roughly symmetric
    assert!((c.kernel[0] - c.kernel[5]).abs() < 200);
    // the float reference for the first tap of six is about 0.00825
    let expected0 = (0.00825 * 65520.0) as i64;
    assert!((c.kernel[0] - expected0).abs() < 150, "first tap {}", c.kernel[0]);
}

#[test]
fn ring_overwrites_on_wrap() {
    let mut r = ChannelRing::new(4);
    r.push_samples(&[1, 2, 3, 4, 5, 6]);
    // newest last: 6 at the cursor, then 5, 4, 3 behind it
    let off = r.ring_offset;
    assert_eq!(r.ring_samples[off], 6);
    assert_eq!(r.ring_samples[(off + 3) & r.ring_mask], 5);
    assert_eq!(r.ring_length, 4);
}

#[test]
fn ring_reset_zeroes() {
    let mut r = ChannelRing::new(8);
    r.push_samples(&[9; 8]);
    r.reset();
    assert!(r.ring_samples.iter().all(|&s| s == 0));
}

#[test]
fn snapshot_channel_drops_oldest() {
    let mut ch = SnapshotChannel::new(2);
    assert!(ch.recv().is_none());
    // build three snapshots through a real engine collection
    let c = swdft::engine::SpectrumConfig {
        sample_rate: 24000,
        num_bins: 4,
        min_f_mhz: 100_000,
        max_f_mhz: 1_000_000,
        wave_cycles_resolution: 4,
        resolution_low_f_shelf_mhz: 50_000,
        subtraction_peaks: false,
    };
    let params: Vec<swdft::engine::BinParams> = (0..4)
        .map(|i| swdft::engine::BinParams {
            freq_mhz: 100_000 + 100_000 * (i as u64),
            color: SColor::new(0xFFFFFFFF),
            octave_centi: 100 * i as i32,
            a_weight_milli: 1000,
        })
        .collect();
    let engine = ChannelSWDFT::new(&c, &params, make_trig());
    for tag in [1u64, 2, 3] {
        let mut s = engine.collect_spectrum();
        s.cur_rolling_gain = tag;
        ch.send(s);
    }
    assert_eq!(ch.len(), 2);
    assert_eq!(ch.recv().unwrap().cur_rolling_gain, 2);
    assert_eq!(ch.recv().unwrap().cur_rolling_gain, 3);
    assert!(ch.recv().is_none());
}

#[test]
fn half_samplerate_averages_pairs() {
    let out = ChannelSWDFT::half_samplerate(&[10, 20, 30, 50, -7, -9]);
    assert_eq!(out, vec![15, 40, -8]);
}

#[test]
fn allocator_exhaustion_returns_none() {
    let mut ra = swdft::texture::RectAllocator::new();
    ra.provide(swdft::texture::KRect {
        min: swdft::texture::KPoint { x: 0, y: 0 },
        max: swdft::texture::KPoint { x: 16, y: 16 },
        atlas_id: 7,
    });
    // a larger request than anything stored fails
    assert!(ra.allocate(64).is_none());
    // sixteen 4x4 squares fit in one 16x16, the seventeenth fails
    for _ in 0..16 {
        let r = ra.allocate(4).unwrap();
        assert_eq!(r.dx(), 4);
        assert_eq!(r.atlas_id, 7);
    }
    assert!(ra.allocate(4).is_none());
}

#[test]
fn simple_peaks_finds_local_maxima() {
    let c = swdft::engine::SpectrumConfig {
        sample_rate: 24000,
        num_bins: 8,
        min_f_mhz: 100_000,
        max_f_mhz: 1_000_000,
        wave_cycles_resolution: 4,
        resolution_low_f_shelf_mhz: 50_000,
        subtraction_peaks: false,
    };
    let params: Vec<swdft::engine::BinParams> = (0..8)
        .map(|i| swdft::engine::BinParams {
            freq_mhz: 100_000 + 100_000 * (i as u64),
            color: SColor::new(0xFFFFFFFF),
            octave_centi: 100 * i as i32,
            a_weight_milli: 1000,
        })
        .collect();
    let engine = ChannelSWDFT::new(&c, &params, make_trig());
    let spectrum: Vec<swdft::engine::SSample> = [10u64, 100, 500, 50, 0, 0, 300, 10]
        .iter()
        .enumerate()
        .map(|(i, &v)| swdft::engine::SSample {
            value: v * 1000,
            color: SColor::new(0xFFFFFFFF),
            octave_centi: i as i32 * 100,
        })
        .collect();
    let peaks = engine.simple_peaks(&spectrum);
    // the smoothed curve rises into the bump at index 2 and falls
    // right after it
    assert!(peaks.iter().any(|p| p.probe_index == 3));
    for p in &peaks {
        assert!(p.probe_index >= 1 && (p.probe_index as usize) < spectrum.len());
    }
}

#[test]
fn query_string_lookup() {
    let q = "?name=spectrum&bins=800&rate=24000";
    assert_eq!(parse_url_query_string(q, "name"), Some("spectrum"));
    assert_eq!(parse_url_query_string(q, "bins"), Some("800"));
    assert_eq!(parse_url_query_string(q, "rate"), Some("24000"));
    assert_eq!(parse_url_query_string(q, "missing"), None);
    // no leading question mark
    assert_eq!(parse_url_query_string("name=x", "name"), None);
    // a pair without '=' aborts the lookup
    assert_eq!(parse_url_query_string("?flag&name=x", "name"), None);
    // a second '=' ends the value early
    assert_eq!(parse_url_query_string("?a=b=c", "a"), Some("b"));
    // empty value
    assert_eq!(parse_url_query_string("?a=&b=2", "a"), Some(""));
}

#[test]
fn paused_engine_ignores_input() {
    let c = swdft::engine::SpectrumConfig {
        sample_rate: 24000,
        num_bins: 8,
        min_f_mhz: 100_000,
        max_f_mhz: 1_000_000,
        wave_cycles_resolution: 4,
        resolution_low_f_shelf_mhz: 50_000,
        subtraction_peaks: false,
    };
    let params: Vec<swdft::engine::BinParams> = (0..8)
        .map(|i| swdft::engine::BinParams {
            freq_mhz: 100_000 + 100_000 * (i as u64),
            color: SColor::new(0xFFFFFFFF),
            octave_centi: 100 * i as i32,
            a_weight_milli: 1000,
        })
        .collect();
    let mut engine = ChannelSWDFT::new(&c, &params, make_trig());
    engine.paused = true;
    engine.on_input(&vec![1000i32; 4000]);
    assert!(engine.collected_spectrums.recv().is_none());
}

#[test]
fn move_bins_respects_band_edges() {
    let c = swdft::engine::SpectrumConfig {
        sample_rate: 24000,
        num_bins: 8,
        min_f_mhz: 100_000,
        max_f_mhz: 1_000_000,
        wave_cycles_resolution: 4,
        resolution_low_f_shelf_mhz: 50_000,
        subtraction_peaks: false,
    };
    let mk = |f: u64| swdft::engine::BinParams {
        freq_mhz: f,
        color: SColor::new(0xFFFFFFFF),
        octave_centi: 100,
        a_weight_milli: 1000,
    };
    let params: Vec<swdft::engine::BinParams> =
        (0..8).map(|i| mk(100_000 + 100_000 * (i as u64))).collect();
    let mut engine = ChannelSWDFT::new(&c, &params, make_trig());

    // scrolling left stops at the initial lower bound
    let moved = engine.move_bins(true, &vec![mk(90_000), mk(80_000)]);
    assert_eq!(moved, 0);
    // scrolling right stops at the Nyquist frequency
    let moved = engine.move_bins(false, &vec![mk(2_000_000), mk(13_000_000)]);
    assert_eq!(moved, 1);
}

#[test]
fn colorize_keeps_magnitudes() {
    let spectrum_in: Vec<swdft::engine::SSample> = (0..40u64)
        .map(|i| swdft::engine::SSample {
            value: i * 1_000_000,
            color: SColor::new(0xFF000000 | (i as u32 * 6)),
            octave_centi: i as i32,
        })
        .collect();
    let mut spectrum = spectrum_in.iter().map(|s| swdft::engine::SSample {
        value: s.value,
        color: s.color,
        octave_centi: s.octave_centi,
    }).collect::<Vec<_>>();
    ChannelSWDFT::colorize_spectrum(&mut spectrum, &vec![]);
    for (a, b) in spectrum.iter().zip(spectrum_in.iter()) {
        assert_eq!(a.value, b.value);
        assert_eq!(a.octave_centi, b.octave_centi);
        // every recolored bin is fully opaque
        assert_eq!(a.color.rgba >> 24, 0xFF);
    }
}

#[test]
fn power_of_signal_full_scale() {
    // a constant full-scale block has power one, in micro-units
    let p = ChannelSWDFT::power_of_signal(&vec![32767i32; 1024]);
    assert!((p as i64 - 1_000_000).abs() < 2_000, "power {}", p);
    let z = ChannelSWDFT::power_of_signal(&vec![0i32; 1024]);
    assert_eq!(z, 0);
}

#[test]
fn shader_source_passes_through() {
    let src = "fn vs_main() {}";
    assert_eq!(swdft::types::fix_webgl_color(src), src);
}

#[test]
fn reset_clears_accumulated_state() {
    let c = swdft::engine::SpectrumConfig {
        sample_rate: 24000,
        num_bins: 16,
        min_f_mhz: 100_000,
        max_f_mhz: 4_000_000,
        wave_cycles_resolution: 8,
        resolution_low_f_shelf_mhz: 50_000,
        subtraction_peaks: false,
    };
    let params: Vec<swdft::engine::BinParams> = (0..16)
        .map(|i| swdft::engine::BinParams {
            freq_mhz: 100_000 + 200_000 * (i as u64),
            color: SColor::new(0xFFFFFFFF),
            octave_centi: 100 * i as i32,
            a_weight_milli: 1000,
        })
        .collect();
    let mut engine = ChannelSWDFT::new(&c, &params, make_trig());
    engine.spectrum_bins = ChannelSWDFT::make_spectrum_bins(0, &c, &params);

    // drive with a loud tone, then reset and collect: silence
    let tone: Vec<i32> = (0..8000)
        .map(|t| {
            ((std::f64::consts::TAU * 500.0 * (t as f64) / 48000.0).sin() * 30000.0) as i32
        })
        .collect();
    engine.on_input(&tone);
    engine.reset();
    let snap = engine.collect_spectrum();
    for s in &snap.spectrum {
        assert_eq!(s.value, 0);
    }
}
