//! The spectrum engine: an ordered set of correlator bins spanning an
//! exponential frequency axis, driven block-by-block from the capture
//! path.
//!
//! The engine owns the per-octave sample rings, the window kernel, the
//! gain tracker and the snapshot hand-off.  Everything on the hot path
//! is integer arithmetic; the few display-oriented quantities that are
//! derived with transcendental functions (per-bin color, perceptual
//! octave, A-weighting, the exponential frequency mapping itself) are
//! computed by the embedding program and enter through [`BinParams`]
//! as plain scaled integers.

use vstd::prelude::*;
use vstd::multiset::Multiset;
use crate::collector::Collector;
use crate::collector::WindowType;
use crate::dftbin::DftBin;
use crate::dftbin::MAX_WINDOW;
use crate::ring::ChannelRing;
use crate::trig::TrigTable;
use crate::trig::FIXED_POINT_FRACTIONAL_DITHER;

verus! {

/// A display color with its precomputed gamma-space components.
#[derive(Clone, Copy)]
pub struct SColor {
    pub rgba: u32,
    pub rgb_gamma: (u16, u16, u16),
}

impl SColor {
    /// Gamma components are squares of bytes.
    pub open spec fn wf(&self) -> bool {
        self.rgb_gamma.0 <= 0xFE01 && self.rgb_gamma.1 <= 0xFE01 && self.rgb_gamma.2 <= 0xFE01
    }

    /// Splits a packed RGBA value and squares each channel into gamma
    /// space.
    pub fn new(rgba: u32) -> (r: SColor)
        ensures
            r.wf(),
            r.rgba == rgba,
            r.rgb_gamma.0 == (rgba as int % 256) * (rgba as int % 256),
            r.rgb_gamma.1 == ((rgba as int / 256) % 256) * ((rgba as int / 256) % 256),
            r.rgb_gamma.2 == ((rgba as int / 65536) % 256) * ((rgba as int / 65536) % 256),
    {
        let r = rgba % 256;
        let g = (rgba / 256) % 256;
        let b = (rgba / 65536) % 256;
        proof {
            vstd::arithmetic::div_mod::lemma_mod_bound(rgba as int, 256);
            vstd::arithmetic::div_mod::lemma_mod_bound(rgba as int / 256, 256);
            vstd::arithmetic::div_mod::lemma_mod_bound(rgba as int / 65536, 256);
            assert(forall|x: int| 0 <= x < 256 ==> 0 <= #[trigger] (x * x) <= 0xFE01)
                by (nonlinear_arith);
        }
        SColor {
            rgba,
            rgb_gamma: ((r * r) as u16, (g * g) as u16, (b * b) as u16),
        }
    }
}

/// One collected bin: scaled magnitude, display color, and the bin's
/// perceptual octave in centi-octaves.
pub struct SSample {
    pub value: u64,
    pub color: SColor,
    pub octave_centi: i32,
}

/// The raw complex accumulator of one bin, carried into the
/// subtraction-peak pass together with its display data.
pub struct RawSSample {
    pub complex: crate::complex::ComplexI64,
    pub color: SColor,
    pub a_weight: i64,
    pub length: u32,
    pub pulsation: u32,
    pub current_phase: u32,
    pub octave_centi: i32,
}

/// One detected peak.
pub struct SPeak {
    pub probe_index: i32,
    pub value: u64,
    pub color: SColor,
    pub octave_centi: i32,
    pub alpha_milli: u32,
}

/// Which bin layout is active.
#[derive(PartialEq, Eq, Structural, Debug, Clone, Copy)]
pub enum SpectrumBinsState {
    DFT,
    NC,
}

impl SpectrumBinsState {
    /// Human-readable name of the layout.
    pub fn describe(&self) -> (r: &'static str)
        ensures
            *self == SpectrumBinsState::DFT ==> r@ == "Regular DFT"@,
            *self == SpectrumBinsState::NC ==> r@ == "NC"@,
    {
        match self {
            SpectrumBinsState::DFT => "Regular DFT",
            SpectrumBinsState::NC => "NC",
        }
    }
}

/// Display-oriented state frozen into each snapshot.
pub struct StateSnapshot {
    pub current_algo: SpectrumBinsState,
    pub window_type: WindowType,
    pub collect_every: usize,
    pub collect_frequency: usize,
    pub window_kernel_len: usize,
}

/// Engine configuration.  Frequencies are in milli-hertz so the
/// exponential axis can be handled as plain integers.
#[derive(Clone, Copy)]
pub struct SpectrumConfig {
    pub sample_rate: u32,
    pub num_bins: u32,
    pub min_f_mhz: u64,
    pub max_f_mhz: u64,
    pub wave_cycles_resolution: u32,
    pub resolution_low_f_shelf_mhz: u64,
    pub subtraction_peaks: bool,
}

impl SpectrumConfig {
    pub open spec fn wf(&self) -> bool {
        &&& 1 <= self.sample_rate <= 1_000_000
        &&& 1 <= self.num_bins <= 8192
        &&& 1 <= self.wave_cycles_resolution <= 1024
        &&& 1 <= self.resolution_low_f_shelf_mhz <= 0x10_0000_0000
        &&& 1 <= self.min_f_mhz
        &&& self.min_f_mhz <= self.max_f_mhz
        &&& self.max_f_mhz < (self.sample_rate as int) * 1000
    }
}

/// Fixed-point phase increment per sample for a target frequency:
/// the fraction `freq / sample_rate` of a turn, in dithered steps.
pub fn pulsation_of(freq_mhz: u64, sample_rate: u32) -> (r: u32)
    requires
        1 <= sample_rate <= 1_000_000,
        1 <= freq_mhz,
        freq_mhz < (sample_rate as int) * 1000,
    ensures
        r == (freq_mhz * (FIXED_POINT_FRACTIONAL_DITHER as int)) / ((sample_rate as int) * 1000),
        r < FIXED_POINT_FRACTIONAL_DITHER,
{
    let denom: u64 = (sample_rate as u64) * 1000;
    proof {
        assert(freq_mhz * (FIXED_POINT_FRACTIONAL_DITHER as int) < (denom as int) * (
        FIXED_POINT_FRACTIONAL_DITHER as int)) by (nonlinear_arith)
            requires freq_mhz < denom as int, denom as int >= 1,
        ;
        assert(freq_mhz * (FIXED_POINT_FRACTIONAL_DITHER as int) <= 1_000_000_000 * (
        FIXED_POINT_FRACTIONAL_DITHER as int)) by (nonlinear_arith)
            requires freq_mhz <= 1_000_000_000,
        ;
        vstd::arithmetic::div_mod::lemma_multiply_divide_lt(
            freq_mhz * (FIXED_POINT_FRACTIONAL_DITHER as int),
            denom as int,
            FIXED_POINT_FRACTIONAL_DITHER as int,
        );
        vstd::arithmetic::div_mod::lemma_div_pos_is_pos(
            freq_mhz * (FIXED_POINT_FRACTIONAL_DITHER as int),
            denom as int,
        );
    }
    ((freq_mhz * FIXED_POINT_FRACTIONAL_DITHER) / denom) as u32
}

/// How often a sample rate can be halved before a frequency (with a
/// safety factor of 2.1) no longer fits below it, capped by `fuel`.
pub open spec fn octave_steps(f: int, sr: int, fuel: int) -> int
    decreases fuel,
{
    if fuel <= 0 {
        0
    } else if f < sr {
        1 + octave_steps(f, sr / 2, fuel - 1)
    } else {
        0
    }
}

/// Which per-octave downsampled ring a frequency needs: halve the
/// sample rate until the frequency (with a safety factor of 2.1) no
/// longer fits below it.
pub fn needed_samplerate_octave(freq_mhz: u64, samplerate_mhz: u64) -> (r: usize)
    requires
        freq_mhz <= 0x10_0000_0000,
    ensures
        r <= 20,
        r == octave_steps((freq_mhz * 21) / 10, samplerate_mhz as int, 20),
{
    let f = (freq_mhz * 21) / 10;
    let mut sr = samplerate_mhz;
    let mut octave: usize = 0;
    let mut i: usize = 0;
    while i < 20 && f < sr
        invariant
            octave == i <= 20,
            (octave as int) + octave_steps(f as int, sr as int, 20 - i) == octave_steps(
                f as int,
                samplerate_mhz as int,
                20,
            ),
        decreases 20 - i,
    {
        octave = octave + 1;
        sr = sr / 2;
        i = i + 1;
    }
    octave
}

/// Per-bin cached display data.  The perceptual octave is in
/// centi-octaves and the A-weighting factor in milli-units; both are
/// computed by the embedding program from the bin frequency.
#[derive(Clone, Copy)]
pub struct BinMeta {
    pub color: SColor,
    pub octave_centi: i32,
    pub a_weight_milli: u32,
    pub samplerate_octave: usize,
}

impl BinMeta {
    pub open spec fn wf(&self) -> bool {
        self.a_weight_milli <= 0x10000 && self.color.wf()
    }

    /// Neutral metadata: white, unity octave and weight.
    pub fn new() -> (r: BinMeta)
        ensures
            r.wf(),
            r.octave_centi == 100,
            r.a_weight_milli == 1000,
            r.samplerate_octave == 0,
    {
        BinMeta {
            color: SColor::new(0xFFFFFFFF),
            octave_centi: 100,
            a_weight_milli: 1000,
            samplerate_octave: 0,
        }
    }

    /// Refreshes the cached data for a new bin frequency.
    pub fn reinit(&mut self, p: &BinParams, sample_rate: u32)
        requires
            p.wf(),
        ensures
            final(self).wf(),
            final(self).color == p.color,
            final(self).octave_centi == p.octave_centi,
            final(self).a_weight_milli == p.a_weight_milli,
            final(self).samplerate_octave == octave_steps(
                (p.freq_mhz * 21) / 10,
                (sample_rate as int) * 1000,
                20,
            ),
    {
        self.color = p.color.clone();
        self.octave_centi = p.octave_centi;
        self.a_weight_milli = p.a_weight_milli;
        self.samplerate_octave = needed_samplerate_octave(
            p.freq_mhz,
            (sample_rate as u64) * 1000,
        );
    }
}

/// Everything one bin needs when it is (re)targeted to a frequency:
/// the frequency itself plus the display data derived from it.
#[derive(Clone, Copy)]
pub struct BinParams {
    pub freq_mhz: u64,
    pub color: SColor,
    pub octave_centi: i32,
    pub a_weight_milli: u32,
}

impl BinParams {
    pub open spec fn wf(&self) -> bool {
        &&& 1 <= self.freq_mhz <= 0x10_0000_0000
        &&& self.a_weight_milli <= 0x10000
        &&& self.color.wf()
    }
}

/// One displayed frequency: metadata plus its correlator.
pub struct RegularBin {
    pub meta: BinMeta,
    pub bin: DftBin,
}

impl RegularBin {
    pub open spec fn wf(&self) -> bool {
        self.meta.wf() && self.bin.wf()
    }

    pub fn new() -> (r: RegularBin)
        ensures
            r.wf(),
            r.bin.hist@ == Seq::<crate::terms::Term>::empty(),
            r.bin.current_length == 0,
            r.bin.state_sum_real == 0,
            r.bin.state_sum_imag == 0,
            r.bin.current_phase == 0,
    {
        RegularBin { meta: BinMeta::new(), bin: DftBin::new() }
    }
}

/// One displayed frequency under the cross-correlation estimator: two
/// correlators offset half a bin width below and above it.
pub struct NCBin {
    pub meta: BinMeta,
    pub bina: DftBin,
    pub binb: DftBin,
}

impl NCBin {
    pub open spec fn wf(&self) -> bool {
        self.meta.wf() && self.bina.wf() && self.binb.wf()
    }

    pub fn new() -> (r: NCBin)
        ensures
            r.wf(),
            r.bina.hist@ == Seq::<crate::terms::Term>::empty(),
            r.bina.current_length == 0 && r.bina.state_sum_real == 0 && r.bina.state_sum_imag
                == 0 && r.bina.current_phase == 0,
            r.binb.hist@ == Seq::<crate::terms::Term>::empty(),
            r.binb.current_length == 0 && r.binb.state_sum_real == 0 && r.binb.state_sum_imag
                == 0 && r.binb.current_phase == 0,
    {
        NCBin { meta: BinMeta::new(), bina: DftBin::new(), binb: DftBin::new() }
    }
}

/// The active bin layout.
pub enum SpectrumBins {
    DFT(Vec<RegularBin>),
    NC(Vec<NCBin>),
}

impl SpectrumBins {
    /// The tag of the active layout.
    pub fn state(&self) -> (r: SpectrumBinsState)
        ensures
            r == SpectrumBinsState::DFT <==> self is DFT,
    {
        match self {
            SpectrumBins::DFT(_) => SpectrumBinsState::DFT,
            SpectrumBins::NC(_) => SpectrumBinsState::NC,
        }
    }

    pub open spec fn wf(&self) -> bool {
        match self {
            SpectrumBins::DFT(bins) => forall|i: int|
                0 <= i < bins@.len() ==> (#[trigger] bins@[i]).wf(),
            SpectrumBins::NC(bins) => forall|i: int|
                0 <= i < bins@.len() ==> (#[trigger] bins@[i]).wf(),
        }
    }

    pub open spec fn bin_count(&self) -> int {
        match self {
            SpectrumBins::DFT(bins) => bins@.len() as int,
            SpectrumBins::NC(bins) => bins@.len() as int,
        }
    }
}

/// What every snapshot collected from an engine looks like: one
/// sample per bin, peaks always present, and the engine's display
/// state frozen in.
pub open spec fn snapshot_shape(c: Collected, e: ChannelSWDFT) -> bool {
    &&& c.spectrum@.len() == e.spectrum_bins.bin_count()
    &&& c.peaks is Some
    &&& c.rendered is None
    &&& c.snapshot.collect_every == e.collect_every
    &&& c.snapshot.collect_frequency == e.collect_frequency
    &&& c.snapshot.window_kernel_len == e.collector.kernel@.len()
    &&& c.snapshot.window_type == e.collector.windowtype
    &&& (c.snapshot.current_algo == SpectrumBinsState::DFT <==> e.spectrum_bins is DFT)
}

/// An immutable spectrum snapshot handed to the renderer.
pub struct Collected {
    /// Gain of the tracker when the snapshot was taken, in micro-units.
    pub cur_rolling_gain: u64,
    pub spectrum: Vec<SSample>,
    pub peaks: Option<Vec<SPeak>>,
    pub rendered: Option<Vec<crate::types::PosColVertex>>,
    pub snapshot: StateSnapshot,
}


/// The sliding-window DFT engine for one audio channel.
pub struct ChannelSWDFT {
    /// The configuration the engine was created with; scrolling is
    /// bounded by its frequency range.
    pub init_config: SpectrumConfig,
    /// The live configuration.
    pub config: SpectrumConfig,
    /// Per-octave downsampled sample history.
    pub rings: Vec<ChannelRing>,
    /// Exponentially smoothed spectrum power, micro-units.
    pub rolling_gain: u64,
    /// Most recently measured spectrum power, micro-units.
    pub current_power: u64,
    /// Samples between two snapshot collections.
    pub collect_every: usize,
    /// Snapshot collections per second the cadence was derived from.
    pub collect_frequency: usize,
    /// Samples left until the next collection.
    pub samples_to_collect_remaining: usize,
    /// Hand-off of finished snapshots to the renderer.
    pub collected_spectrums: crate::snapshot::SnapshotChannel,
    /// The active window kernel.
    pub collector: Collector,
    /// Snapshots produced so far.
    pub collected_counter: usize,
    pub paused: bool,
    pub should_colorize: bool,
    /// The analysis bins.
    pub spectrum_bins: SpectrumBins,
    /// Extra correlators used by interactive measurement tools.
    pub measure_bins: Vec<DftBin>,
    /// The shared fixed-point oscillator table.
    pub trig: TrigTable,
}

impl ChannelSWDFT {
    /// Number of per-octave rings.
    pub open spec fn ring_count() -> int {
        14
    }

    /// Structural invariant of the whole engine.
    pub open spec fn wf(&self) -> bool {
        &&& self.init_config.wf()
        &&& self.config.wf()
        &&& self.trig.wf()
        &&& self.rings@.len() == Self::ring_count()
        &&& forall|i: int| 0 <= i < self.rings@.len() ==> (#[trigger] self.rings@[i]).wf()
        &&& self.rings@[1].ring_length == 0x8000
        &&& self.collector.wf()
        &&& self.spectrum_bins.wf()
        &&& forall|i: int|
            0 <= i < self.measure_bins@.len() ==> (#[trigger] self.measure_bins@[i]).wf()
        &&& 1 <= self.collect_every <= 0x100000
        &&& 1 <= self.samples_to_collect_remaining <= self.collect_every
        &&& 1 <= self.collect_frequency
        &&& self.collected_spectrums.wf()
        &&& 1 <= self.spectrum_bins.bin_count() <= 0x10000
    }

    /// A fresh vector of default bins for the plain DFT layout.
    pub fn make_spectrum(num_bins: usize) -> (r: Vec<RegularBin>)
        ensures
            r@.len() == num_bins,
            forall|i: int| 0 <= i < r@.len() ==> (#[trigger] r@[i]).wf(),
            forall|i: int|
                0 <= i < r@.len() ==> (#[trigger] r@[i]).bin.hist@
                    == Seq::<crate::terms::Term>::empty() && r@[i].bin.current_length == 0
                    && r@[i].bin.state_sum_real == 0 && r@[i].bin.state_sum_imag == 0
                    && r@[i].bin.current_phase == 0,
    {
        let mut bins: Vec<RegularBin> = Vec::new();
        let mut i: usize = 0;
        while i < num_bins
            invariant
                i == bins@.len() <= num_bins,
                forall|j: int| 0 <= j < bins@.len() ==> (#[trigger] bins@[j]).wf(),
                forall|j: int|
                    0 <= j < bins@.len() ==> (#[trigger] bins@[j]).bin.hist@
                        == Seq::<crate::terms::Term>::empty() && bins@[j].bin.current_length
                        == 0 && bins@[j].bin.state_sum_real == 0 && bins@[j].bin.state_sum_imag
                        == 0 && bins@[j].bin.current_phase == 0,
            decreases num_bins - i,
        {
            bins.push(RegularBin::new());
            i = i + 1;
        }
        bins
    }

    /// A fresh vector of default bins for the cross-correlation layout.
    pub fn make_nc_spectrum(num_bins: usize) -> (r: Vec<NCBin>)
        ensures
            r@.len() == num_bins,
            forall|i: int| 0 <= i < r@.len() ==> (#[trigger] r@[i]).wf(),
            forall|i: int|
                0 <= i < r@.len() ==> (#[trigger] r@[i]).bina.hist@
                    == Seq::<crate::terms::Term>::empty() && r@[i].binb.hist@
                    == Seq::<crate::terms::Term>::empty() && r@[i].bina.current_length == 0
                    && r@[i].binb.current_length == 0 && r@[i].bina.state_sum_real == 0
                    && r@[i].bina.state_sum_imag == 0 && r@[i].binb.state_sum_real == 0
                    && r@[i].binb.state_sum_imag == 0,
    {
        let mut bins: Vec<NCBin> = Vec::new();
        let mut i: usize = 0;
        while i < num_bins
            invariant
                i == bins@.len() <= num_bins,
                forall|j: int| 0 <= j < bins@.len() ==> (#[trigger] bins@[j]).wf(),
                forall|j: int|
                    0 <= j < bins@.len() ==> (#[trigger] bins@[j]).bina.hist@
                        == Seq::<crate::terms::Term>::empty() && bins@[j].binb.hist@
                        == Seq::<crate::terms::Term>::empty() && bins@[j].bina.current_length
                        == 0 && bins@[j].binb.current_length == 0 && bins@[
                    j].bina.state_sum_real == 0 && bins@[j].bina.state_sum_imag == 0 && bins@[
                    j].binb.state_sum_real == 0 && bins@[j].binb.state_sum_imag == 0,
            decreases num_bins - i,
        {
            bins.push(NCBin::new());
            i = i + 1;
        }
        bins
    }

    /// The window length a parameter entry selects under a config.
    pub open spec fn target_window(c: SpectrumConfig, p: BinParams) -> int {
        DftBin::window_size_spec(
            c.wave_cycles_resolution as int,
            c.sample_rate as int,
            p.freq_mhz as int,
            c.resolution_low_f_shelf_mhz as int,
        )
    }

    /// The pulsation a frequency selects under a config.
    pub open spec fn target_pulsation(c: SpectrumConfig, freq_mhz: int) -> int {
        (freq_mhz * (FIXED_POINT_FRACTIONAL_DITHER as int)) / ((c.sample_rate as int) * 1000)
    }

    /// The metadata a parameter entry selects.
    pub open spec fn meta_retargeted(c: SpectrumConfig, m: BinMeta, p: BinParams) -> bool {
        &&& m.wf()
        &&& m.color == p.color
        &&& m.octave_centi == p.octave_centi
        &&& m.a_weight_milli == p.a_weight_milli
        &&& m.samplerate_octave == octave_steps(
            (p.freq_mhz * 21) / 10,
            (c.sample_rate as int) * 1000,
            20,
        )
    }

    /// One correlator retargeted to a pulsation and window without a
    /// discontinuity: pulsation and length updated, the accumulated
    /// history, running sums and phase all carried over, the window
    /// fill never grown.
    pub open spec fn correlator_retargeted(
        old_bin: DftBin,
        new_bin: DftBin,
        pulsation: int,
        window: int,
    ) -> bool {
        &&& new_bin.wf()
        &&& new_bin.pulsation == pulsation
        &&& new_bin.length == window
        &&& new_bin.hist@ == old_bin.hist@
        &&& new_bin.state_sum_real == old_bin.state_sum_real
        &&& new_bin.state_sum_imag == old_bin.state_sum_imag
        &&& new_bin.current_phase == old_bin.current_phase
        &&& new_bin.current_length <= old_bin.current_length
    }

    /// One plain bin retargeted per its parameter entry.
    pub open spec fn regular_bin_retargeted(
        c: SpectrumConfig,
        old_bin: RegularBin,
        new_bin: RegularBin,
        p: BinParams,
    ) -> bool {
        &&& Self::meta_retargeted(c, new_bin.meta, p)
        &&& Self::correlator_retargeted(
            old_bin.bin,
            new_bin.bin,
            Self::target_pulsation(c, p.freq_mhz as int),
            Self::target_window(c, p),
        )
    }

    /// Offset frequencies of a cross-correlation pair: half a bin
    /// width below and above the displayed frequency, clamped into the
    /// valid band.
    pub open spec fn nc_low_freq(c: SpectrumConfig, p: BinParams) -> int {
        let half = (((c.sample_rate as int) * 1000) / Self::target_window(c, p)) / 2;
        if p.freq_mhz > half {
            p.freq_mhz - half
        } else {
            1
        }
    }

    /// The upper offset frequency of a cross-correlation pair.
    pub open spec fn nc_high_freq(c: SpectrumConfig, p: BinParams) -> int {
        let half = (((c.sample_rate as int) * 1000) / Self::target_window(c, p)) / 2;
        let top = (c.sample_rate as int) * 1000 - 1;
        if p.freq_mhz + half < top {
            p.freq_mhz + half
        } else {
            top
        }
    }

    /// One cross-correlation bin pair retargeted per its parameter
    /// entry.
    pub open spec fn nc_bin_retargeted(
        c: SpectrumConfig,
        old_bin: NCBin,
        new_bin: NCBin,
        p: BinParams,
    ) -> bool {
        &&& Self::meta_retargeted(c, new_bin.meta, p)
        &&& Self::correlator_retargeted(
            old_bin.bina,
            new_bin.bina,
            Self::target_pulsation(c, Self::nc_low_freq(c, p)),
            Self::target_window(c, p),
        )
        &&& Self::correlator_retargeted(
            old_bin.binb,
            new_bin.binb,
            Self::target_pulsation(c, Self::nc_high_freq(c, p)),
            Self::target_window(c, p),
        )
    }

    /// Retargets one plain bin to a new frequency.
    pub fn init_regular_bin(c: &SpectrumConfig, bin: &mut RegularBin, p: &BinParams)
        requires
            c.wf(),
            old(bin).wf(),
            p.wf(),
            p.freq_mhz < (c.sample_rate as int) * 1000,
        ensures
            final(bin).wf(),
            Self::regular_bin_retargeted(*c, *old(bin), *final(bin), *p),
    {
        bin.meta.reinit(p, c.sample_rate);
        let puls = pulsation_of(p.freq_mhz, c.sample_rate);
        let w = DftBin::window_size(
            c.wave_cycles_resolution,
            c.sample_rate,
            p.freq_mhz,
            c.resolution_low_f_shelf_mhz,
        );
        bin.bin.reinit_exact(puls, w, false);
    }

    /// Retargets one cross-correlation bin pair: the two correlators
    /// sit half a bin width below and above the displayed frequency.
    pub fn init_nc_bin(c: &SpectrumConfig, bin: &mut NCBin, p: &BinParams)
        requires
            c.wf(),
            old(bin).wf(),
            p.wf(),
            p.freq_mhz < (c.sample_rate as int) * 1000,
        ensures
            final(bin).wf(),
            Self::nc_bin_retargeted(*c, *old(bin), *final(bin), *p),
    {
        bin.meta.reinit(p, c.sample_rate);
        let w = DftBin::window_size(
            c.wave_cycles_resolution,
            c.sample_rate,
            p.freq_mhz,
            c.resolution_low_f_shelf_mhz,
        );
        // half the bin width in milli-hertz, clamped into the valid
        // frequency band
        let delta_mhz: u64 = ((c.sample_rate as u64) * 1000) / (w as u64);
        let half: u64 = delta_mhz / 2;
        let fa: u64 = if p.freq_mhz > half {
            p.freq_mhz - half
        } else {
            1
        };
        let top: u64 = (c.sample_rate as u64) * 1000 - 1;
        let fb_raw: u64 = p.freq_mhz + half;
        let fb: u64 = if fb_raw < top {
            fb_raw
        } else {
            top
        };
        proof {
            vstd::arithmetic::div_mod::lemma_div_pos_is_pos(
                ((c.sample_rate as int) * 1000),
                w as int,
            );
        }
        let pa = pulsation_of(fa, c.sample_rate);
        let pb = pulsation_of(fb, c.sample_rate);
        bin.bina.reinit_exact(pa, w, false);
        bin.binb.reinit_exact(pb, w, false);
    }

    /// Retargets every plain bin from its parameter entry.
    pub fn init_regular_spectrum(
        c: &SpectrumConfig,
        bins: &mut Vec<RegularBin>,
        params: &Vec<BinParams>,
    )
        requires
            c.wf(),
            old(bins)@.len() == params@.len(),
            forall|i: int| 0 <= i < old(bins)@.len() ==> (#[trigger] old(bins)@[i]).wf(),
            forall|i: int| 0 <= i < params@.len() ==> (#[trigger] params@[i]).wf(),
            forall|i: int|
                0 <= i < params@.len() ==> (#[trigger] params@[i]).freq_mhz < (
                c.sample_rate as int) * 1000,
        ensures
            final(bins)@.len() == old(bins)@.len(),
            forall|i: int| 0 <= i < final(bins)@.len() ==> (#[trigger] final(bins)@[i]).wf(),
            forall|i: int|
                0 <= i < final(bins)@.len() ==> Self::regular_bin_retargeted(
                    *c,
                    old(bins)@[i],
                    #[trigger] final(bins)@[i],
                    params@[i],
                ),
    {
        let n = bins.len();
        let mut i: usize = 0;
        while i < n
            invariant
                n == bins@.len(),
                n == params@.len(),
                i <= n,
                forall|j: int| 0 <= j < bins@.len() ==> (#[trigger] bins@[j]).wf(),
                forall|j: int| 0 <= j < params@.len() ==> (#[trigger] params@[j]).wf(),
                forall|j: int|
                    0 <= j < params@.len() ==> (#[trigger] params@[j]).freq_mhz < (
                    c.sample_rate as int) * 1000,
                c.wf(),
                forall|j: int|
                    0 <= j < i ==> Self::regular_bin_retargeted(
                        *c,
                        old(bins)@[j],
                        #[trigger] bins@[j],
                        params@[j],
                    ),
                forall|j: int| i <= j < n ==> #[trigger] bins@[j] == old(bins)@[j],
            decreases n - i,
        {
            let p = params[i].clone();
            Self::init_regular_bin(c, &mut bins[i], &p);
            i = i + 1;
        }
    }

    /// Retargets every cross-correlation bin from its parameter entry.
    pub fn init_nc_spectrum(c: &SpectrumConfig, bins: &mut Vec<NCBin>, params: &Vec<BinParams>)
        requires
            c.wf(),
            old(bins)@.len() == params@.len(),
            forall|i: int| 0 <= i < old(bins)@.len() ==> (#[trigger] old(bins)@[i]).wf(),
            forall|i: int| 0 <= i < params@.len() ==> (#[trigger] params@[i]).wf(),
            forall|i: int|
                0 <= i < params@.len() ==> (#[trigger] params@[i]).freq_mhz < (
                c.sample_rate as int) * 1000,
        ensures
            final(bins)@.len() == old(bins)@.len(),
            forall|i: int| 0 <= i < final(bins)@.len() ==> (#[trigger] final(bins)@[i]).wf(),
            forall|i: int|
                0 <= i < final(bins)@.len() ==> Self::nc_bin_retargeted(
                    *c,
                    old(bins)@[i],
                    #[trigger] final(bins)@[i],
                    params@[i],
                ),
    {
        let n = bins.len();
        let mut i: usize = 0;
        while i < n
            invariant
                n == bins@.len(),
                n == params@.len(),
                i <= n,
                forall|j: int| 0 <= j < bins@.len() ==> (#[trigger] bins@[j]).wf(),
                forall|j: int| 0 <= j < params@.len() ==> (#[trigger] params@[j]).wf(),
                forall|j: int|
                    0 <= j < params@.len() ==> (#[trigger] params@[j]).freq_mhz < (
                    c.sample_rate as int) * 1000,
                c.wf(),
                forall|j: int|
                    0 <= j < i ==> Self::nc_bin_retargeted(
                        *c,
                        old(bins)@[j],
                        #[trigger] bins@[j],
                        params@[j],
                    ),
                forall|j: int| i <= j < n ==> #[trigger] bins@[j] == old(bins)@[j],
            decreases n - i,
        {
            let p = params[i].clone();
            Self::init_nc_bin(c, &mut bins[i], &p);
            i = i + 1;
        }
    }

    /// Every bin of the new layout retargeted per its parameter entry
    /// from the matching old bin.
    pub open spec fn bins_retargeted(
        c: SpectrumConfig,
        old_bins: SpectrumBins,
        new_bins: SpectrumBins,
        params: Seq<BinParams>,
    ) -> bool {
        match (old_bins, new_bins) {
            (SpectrumBins::DFT(ob), SpectrumBins::DFT(nb)) => ob@.len() == nb@.len()
                && forall|i: int|
                0 <= i < ob@.len() ==> Self::regular_bin_retargeted(
                    c,
                    ob@[i],
                    #[trigger] nb@[i],
                    params[i],
                ),
            (SpectrumBins::NC(ob), SpectrumBins::NC(nb)) => ob@.len() == nb@.len()
                && forall|i: int|
                0 <= i < ob@.len() ==> Self::nc_bin_retargeted(
                    c,
                    ob@[i],
                    #[trigger] nb@[i],
                    params[i],
                ),
            _ => false,
        }
    }

    /// A plain bin targeted per its entry with no accumulated state.
    pub open spec fn regular_bin_fresh_targeted(
        c: SpectrumConfig,
        b: RegularBin,
        p: BinParams,
    ) -> bool {
        &&& b.wf()
        &&& Self::meta_retargeted(c, b.meta, p)
        &&& b.bin.pulsation == Self::target_pulsation(c, p.freq_mhz as int)
        &&& b.bin.length == Self::target_window(c, p)
        &&& b.bin.hist@ == Seq::<crate::terms::Term>::empty()
        &&& b.bin.current_length == 0
        &&& b.bin.state_sum_real == 0
        &&& b.bin.state_sum_imag == 0
    }

    /// A cross-correlation pair targeted per its entry with no
    /// accumulated state.
    pub open spec fn nc_bin_fresh_targeted(c: SpectrumConfig, b: NCBin, p: BinParams) -> bool {
        &&& b.wf()
        &&& Self::meta_retargeted(c, b.meta, p)
        &&& b.bina.pulsation == Self::target_pulsation(c, Self::nc_low_freq(c, p))
        &&& b.binb.pulsation == Self::target_pulsation(c, Self::nc_high_freq(c, p))
        &&& b.bina.length == Self::target_window(c, p)
        &&& b.binb.length == Self::target_window(c, p)
        &&& b.bina.hist@ == Seq::<crate::terms::Term>::empty()
        &&& b.binb.hist@ == Seq::<crate::terms::Term>::empty()
        &&& b.bina.current_length == 0 && b.binb.current_length == 0
        &&& b.bina.state_sum_real == 0 && b.bina.state_sum_imag == 0
        &&& b.binb.state_sum_real == 0 && b.binb.state_sum_imag == 0
    }

    /// Retargets whichever layout is active.
    pub fn reinit_spectrum(
        spectrum_bins: &mut SpectrumBins,
        config: &SpectrumConfig,
        params: &Vec<BinParams>,
    )
        requires
            config.wf(),
            old(spectrum_bins).wf(),
            old(spectrum_bins).bin_count() == params@.len(),
            forall|i: int| 0 <= i < params@.len() ==> (#[trigger] params@[i]).wf(),
            forall|i: int|
                0 <= i < params@.len() ==> (#[trigger] params@[i]).freq_mhz < (
                config.sample_rate as int) * 1000,
        ensures
            final(spectrum_bins).wf(),
            final(spectrum_bins).bin_count() == old(spectrum_bins).bin_count(),
            (*final(spectrum_bins)) is DFT <==> (*old(spectrum_bins)) is DFT,
            Self::bins_retargeted(*config, *old(spectrum_bins), *final(spectrum_bins), params@),
    {
        match spectrum_bins {
            SpectrumBins::DFT(dft_bins) => {
                Self::init_regular_spectrum(config, dft_bins, params);
            },
            SpectrumBins::NC(nc_bins) => {
                Self::init_nc_spectrum(config, nc_bins, params);
            },
        }
    }

    /// Replaces the live configuration and retargets all bins to it.
    pub fn reinit_my_spectrum(&mut self, config: &SpectrumConfig, params: &Vec<BinParams>)
        requires
            old(self).wf(),
            config.wf(),
            old(self).spectrum_bins.bin_count() == params@.len(),
            forall|i: int| 0 <= i < params@.len() ==> (#[trigger] params@[i]).wf(),
            forall|i: int|
                0 <= i < params@.len() ==> (#[trigger] params@[i]).freq_mhz < (
                config.sample_rate as int) * 1000,
        ensures
            final(self).wf(),
            final(self).config == *config,
            final(self).spectrum_bins.bin_count() == old(self).spectrum_bins.bin_count(),
            Self::bins_retargeted(
                *config,
                old(self).spectrum_bins,
                final(self).spectrum_bins,
                params@,
            ),
            final(self).init_config == old(self).init_config,
            final(self).rings == old(self).rings,
            final(self).collector == old(self).collector,
            final(self).collected_spectrums == old(self).collected_spectrums,
            final(self).collect_every == old(self).collect_every,
            final(self).collect_frequency == old(self).collect_frequency,
            final(self).samples_to_collect_remaining == old(
                self,
            ).samples_to_collect_remaining,
            final(self).collected_counter == old(self).collected_counter,
            final(self).rolling_gain == old(self).rolling_gain,
            final(self).current_power == old(self).current_power,
            final(self).paused == old(self).paused,
            final(self).trig == old(self).trig,
    {
        self.config = config.clone();
        Self::reinit_spectrum(&mut self.spectrum_bins, config, params);
    }

    /// Builds and targets a bin layout: `0` the plain DFT layout,
    /// anything else the cross-correlation layout.
    pub fn make_spectrum_bins(kind: u8, config: &SpectrumConfig, params: &Vec<BinParams>) -> (r:
        SpectrumBins)
        requires
            config.wf(),
            config.num_bins == params@.len(),
            forall|i: int| 0 <= i < params@.len() ==> (#[trigger] params@[i]).wf(),
            forall|i: int|
                0 <= i < params@.len() ==> (#[trigger] params@[i]).freq_mhz < (
                config.sample_rate as int) * 1000,
        ensures
            r.wf(),
            r.bin_count() == config.num_bins,
            r is DFT <==> kind == 0,
            match r {
                SpectrumBins::DFT(nb) => forall|i: int|
                    0 <= i < nb@.len() ==> Self::regular_bin_fresh_targeted(
                        *config,
                        #[trigger] nb@[i],
                        params@[i],
                    ),
                SpectrumBins::NC(nb) => forall|i: int|
                    0 <= i < nb@.len() ==> Self::nc_bin_fresh_targeted(
                        *config,
                        #[trigger] nb@[i],
                        params@[i],
                    ),
            },
    {
        let mut bins = if kind == 0 {
            SpectrumBins::DFT(Self::make_spectrum(config.num_bins as usize))
        } else {
            SpectrumBins::NC(Self::make_nc_spectrum(config.num_bins as usize))
        };
        Self::reinit_spectrum(&mut bins, config, params);
        bins
    }

    /// Derives the collection cadence from a target snapshots-per-
    /// second rate: samples per collection, floored to an even count,
    /// never zero.
    pub fn set_collect_frequency(&mut self, collect_frequency: usize)
        requires
            old(self).wf(),
            1 <= collect_frequency <= 1_000_000,
        ensures
            final(self).wf(),
            final(self).collect_frequency == collect_frequency,
            final(self).collect_every == ({
                let ce = (old(self).config.sample_rate as int) / (collect_frequency as int);
                if 2 * (ce / 2) >= 1 {
                    2 * (ce / 2)
                } else {
                    1int
                }
            }),
            final(self).samples_to_collect_remaining == final(self).collect_every,
            final(self).spectrum_bins == old(self).spectrum_bins,
            final(self).config == old(self).config,
            final(self).init_config == old(self).init_config,
            final(self).rings == old(self).rings,
            final(self).rolling_gain == old(self).rolling_gain,
            final(self).current_power == old(self).current_power,
            final(self).collected_spectrums == old(self).collected_spectrums,
            final(self).collector == old(self).collector,
            final(self).collected_counter == old(self).collected_counter,
            final(self).paused == old(self).paused,
            final(self).should_colorize == old(self).should_colorize,
            final(self).measure_bins == old(self).measure_bins,
            final(self).trig == old(self).trig,
    {
        let collect_every = (self.config.sample_rate as usize) / collect_frequency;
        proof {
            vstd::arithmetic::div_mod::lemma_div_pos_is_pos(
                old(self).config.sample_rate as int,
                collect_frequency as int,
            );
            vstd::arithmetic::div_mod::lemma_div_is_ordered_by_denominator(
                old(self).config.sample_rate as int,
                1,
                collect_frequency as int,
            );
            vstd::arithmetic::div_mod::lemma_div_is_ordered(
                collect_every as int,
                1_000_000,
                2,
            );
        }
        let halved = collect_every / 2;
        let even = halved * 2;
        self.collect_every = if even >= 1 {
            even
        } else {
            1
        };
        self.collect_frequency = collect_frequency;
        self.samples_to_collect_remaining = self.collect_every;
    }

    /// Zeroes every plain bin's accumulated state and every ring;
    /// cross-correlation layouts keep their bins, as only their rings
    /// are restarted.
    pub fn reset(&mut self)
        requires
            old(self).wf(),
        ensures
            final(self).wf(),
            final(self).spectrum_bins.bin_count() == old(self).spectrum_bins.bin_count(),
            match final(self).spectrum_bins {
                SpectrumBins::DFT(bins) => forall|i: int|
                    0 <= i < bins@.len() ==> (#[trigger] bins@[i]).bin.hist@
                        == Seq::<crate::terms::Term>::empty() && bins@[i].bin.current_length
                        == 0 && bins@[i].bin.state_sum_real == 0 && bins@[i].bin.state_sum_imag
                        == 0,
                SpectrumBins::NC(_) => final(self).spectrum_bins == old(self).spectrum_bins,
            },
            forall|j: int, k: int|
                0 <= j < final(self).rings@.len() && 0 <= k < final(
                self).rings@[j].ring_samples@.len() ==> #[trigger] final(
                self).rings@[j].ring_samples@[k] == 0,
    {
        match &mut self.spectrum_bins {
            SpectrumBins::DFT(dft_bins) => {
                let n = dft_bins.len();
                let mut i: usize = 0;
                while i < n
                    invariant
                        n == dft_bins@.len(),
                        i <= n,
                        forall|j: int| 0 <= j < dft_bins@.len() ==> (#[trigger] dft_bins@[j]).wf(),
                        forall|j: int|
                            0 <= j < i ==> (#[trigger] dft_bins@[j]).bin.hist@
                                == Seq::<crate::terms::Term>::empty() && dft_bins@[
                            j].bin.current_length == 0 && dft_bins@[j].bin.state_sum_real == 0
                                && dft_bins@[j].bin.state_sum_imag == 0,
                    decreases n - i,
                {
                    dft_bins[i].bin.reset();
                    i = i + 1;
                }
            },
            _ => {},
        }
        let ghost bins_after = self.spectrum_bins;
        let rn = self.rings.len();
        let mut i: usize = 0;
        while i < rn
            invariant
                rn == self.rings@.len(),
                i <= rn,
                self.spectrum_bins == bins_after,
                bins_after.bin_count() == old(self).spectrum_bins.bin_count(),
                match bins_after {
                    SpectrumBins::DFT(bins) => forall|j: int|
                        0 <= j < bins@.len() ==> (#[trigger] bins@[j]).bin.hist@
                            == Seq::<crate::terms::Term>::empty() && bins@[
                        j].bin.current_length == 0 && bins@[j].bin.state_sum_real == 0 && bins@[
                        j].bin.state_sum_imag == 0,
                    SpectrumBins::NC(_) => bins_after == old(self).spectrum_bins,
                },
                forall|j: int, k: int|
                    0 <= j < i && 0 <= k < self.rings@[j].ring_samples@.len()
                        ==> #[trigger] self.rings@[j].ring_samples@[k] == 0,
                forall|j: int| 0 <= j < self.rings@.len() ==> (#[trigger] self.rings@[j]).wf(),
                forall|j: int|
                    0 <= j < self.rings@.len() ==> (#[trigger] self.rings@[j]).ring_length == old(
                    self).rings@[j].ring_length,
                self.config == old(self).config,
                self.init_config == old(self).init_config,
                self.trig == old(self).trig,
                self.collector == old(self).collector,
                self.spectrum_bins.wf(),
                self.spectrum_bins.bin_count() == old(self).spectrum_bins.bin_count(),
                forall|j: int|
                    0 <= j < self.measure_bins@.len() ==> (#[trigger] self.measure_bins@[j]).wf(),
                self.measure_bins == old(self).measure_bins,
                self.collect_every == old(self).collect_every,
                self.samples_to_collect_remaining == old(self).samples_to_collect_remaining,
                self.collect_frequency == old(self).collect_frequency,
                self.collected_spectrums == old(self).collected_spectrums,
            decreases rn - i,
        {
            self.rings[i].reset();
            i = i + 1;
        }
    }

    /// Pops from the chosen end of a bin vector.
    pub fn pop_backfront<T>(q: &mut Vec<T>, back: bool) -> (r: Option<T>)
        ensures
            old(q)@.len() == 0 ==> r is None && final(q)@ == old(q)@,
            old(q)@.len() > 0 && back ==> r is Some && r->Some_0 == old(q)@.last() && final(q)@
                == old(q)@.drop_last(),
            old(q)@.len() > 0 && !back ==> r is Some && r->Some_0 == old(q)@[0] && final(q)@
                == old(q)@.subrange(1, old(q)@.len() as int),
    {
        if q.len() == 0 {
            return None;
        }
        if back {
            q.pop()
        } else {
            Some(q.remove(0))
        }
    }

    /// Pushes onto the chosen end of a bin vector.
    pub fn push_backfront<T>(q: &mut Vec<T>, v: T, back: bool)
        ensures
            back ==> final(q)@ == old(q)@.push(v),
            !back ==> final(q)@ == seq![v] + old(q)@,
    {
        if back {
            q.push(v);
        } else {
            q.insert(0, v);
            proof {
                assert(final(q)@ =~= seq![v] + old(q)@);
            }
        }
    }

    /// One bin taken off the chosen edge, retargeted per its
    /// parameter entry, and pushed at the opposite end; every other
    /// bin merely shifts one position.
    pub open spec fn bins_recycled(
        c: SpectrumConfig,
        old_bins: SpectrumBins,
        new_bins: SpectrumBins,
        left: bool,
        p: BinParams,
    ) -> bool {
        match (old_bins, new_bins) {
            (SpectrumBins::DFT(ob), SpectrumBins::DFT(nb)) => {
                let n = ob@.len() as int;
                &&& nb@.len() == n
                &&& n >= 1
                &&& if left {
                    &&& Self::regular_bin_retargeted(c, ob@[n - 1], nb@[0], p)
                    &&& forall|t: int| 1 <= t < n ==> #[trigger] nb@[t] == ob@[t - 1]
                } else {
                    &&& Self::regular_bin_retargeted(c, ob@[0], nb@[n - 1], p)
                    &&& forall|t: int| 0 <= t < n - 1 ==> #[trigger] nb@[t] == ob@[t + 1]
                }
            },
            (SpectrumBins::NC(ob), SpectrumBins::NC(nb)) => {
                let n = ob@.len() as int;
                &&& nb@.len() == n
                &&& n >= 1
                &&& if left {
                    &&& Self::nc_bin_retargeted(c, ob@[n - 1], nb@[0], p)
                    &&& forall|t: int| 1 <= t < n ==> #[trigger] nb@[t] == ob@[t - 1]
                } else {
                    &&& Self::nc_bin_retargeted(c, ob@[0], nb@[n - 1], p)
                    &&& forall|t: int| 0 <= t < n - 1 ==> #[trigger] nb@[t] == ob@[t + 1]
                }
            },
            _ => false,
        }
    }

    /// Recycles one bin from one edge of the spectrum to the other,
    /// retargeting it to the supplied frequency.
    pub fn recycle_bin(&mut self, left: bool, p: &BinParams)
        requires
            old(self).wf(),
            old(self).spectrum_bins.bin_count() >= 1,
            p.wf(),
            p.freq_mhz < (old(self).config.sample_rate as int) * 1000,
        ensures
            final(self).wf(),
            final(self).spectrum_bins.bin_count() == old(self).spectrum_bins.bin_count(),
            final(self).config == old(self).config,
            final(self).init_config == old(self).init_config,
            Self::bins_recycled(
                old(self).config,
                old(self).spectrum_bins,
                final(self).spectrum_bins,
                left,
                *p,
            ),
            final(self).rings == old(self).rings,
            final(self).collector == old(self).collector,
            final(self).collected_spectrums == old(self).collected_spectrums,
            final(self).collect_every == old(self).collect_every,
            final(self).collect_frequency == old(self).collect_frequency,
            final(self).samples_to_collect_remaining == old(
                self,
            ).samples_to_collect_remaining,
            final(self).collected_counter == old(self).collected_counter,
            final(self).rolling_gain == old(self).rolling_gain,
            final(self).current_power == old(self).current_power,
            final(self).paused == old(self).paused,
            final(self).measure_bins == old(self).measure_bins,
            final(self).trig == old(self).trig,
    {
        let config = self.config.clone();
        match &mut self.spectrum_bins {
            SpectrumBins::DFT(dft_bins) => {
                let bin = Self::pop_backfront(dft_bins, left);
                let mut bin = match bin {
                    Some(b) => b,
                    None => RegularBin::new(),
                };
                Self::init_regular_bin(&config, &mut bin, p);
                Self::push_backfront(dft_bins, bin, !left);
            },
            SpectrumBins::NC(nc_bins) => {
                let bin = Self::pop_backfront(nc_bins, left);
                let mut bin = match bin {
                    Some(b) => b,
                    None => NCBin::new(),
                };
                Self::init_nc_bin(&config, &mut bin, p);
                Self::push_backfront(nc_bins, bin, !left);
            },
        }
    }

    /// Scrolls the visible frequency axis by recycling bins from one
    /// edge to the other.  The caller supplies one parameter entry per
    /// candidate bin, already mapped along the exponential axis; the
    /// scroll stops early at the edges of the supported band.  Returns
    /// how many bins were actually recycled; the caller then moves the
    /// configured frequency range by the same amount.
    /// Whether a candidate frequency is still inside the scrollable
    /// band: above the initial lower bound when scrolling left, below
    /// the Nyquist frequency when scrolling right.
    pub open spec fn scroll_in_band(
        init_c: SpectrumConfig,
        c: SpectrumConfig,
        left: bool,
        p: BinParams,
    ) -> bool {
        if left {
            p.freq_mhz >= init_c.min_f_mhz
        } else {
            (p.freq_mhz as int) < ((c.sample_rate as int) * 1000) / 2
        }
    }

    /// The state of the bins after `k` single-bin recycles toward one
    /// edge: the `k` freshly retargeted bins stand at the landing edge
    /// in the order they arrived, and every other bin has shifted `k`
    /// positions toward the source edge.
    pub open spec fn bins_scrolled(
        c: SpectrumConfig,
        old_bins: SpectrumBins,
        new_bins: SpectrumBins,
        left: bool,
        params: Seq<BinParams>,
        k: int,
    ) -> bool {
        match (old_bins, new_bins) {
            (SpectrumBins::DFT(ob), SpectrumBins::DFT(nb)) => {
                let n = ob@.len() as int;
                &&& nb@.len() == n
                &&& if left {
                    &&& forall|t: int|
                        0 <= t < k ==> Self::regular_bin_retargeted(
                            c,
                            ob@[n - k + t],
                            #[trigger] nb@[t],
                            params[k - 1 - t],
                        )
                    &&& forall|t: int| k <= t < n ==> #[trigger] nb@[t] == ob@[t - k]
                } else {
                    &&& forall|t: int| 0 <= t < n - k ==> #[trigger] nb@[t] == ob@[t + k]
                    &&& forall|t: int|
                        n - k <= t < n ==> Self::regular_bin_retargeted(
                            c,
                            ob@[t - (n - k)],
                            #[trigger] nb@[t],
                            params[t - (n - k)],
                        )
                }
            },
            (SpectrumBins::NC(ob), SpectrumBins::NC(nb)) => {
                let n = ob@.len() as int;
                &&& nb@.len() == n
                &&& if left {
                    &&& forall|t: int|
                        0 <= t < k ==> Self::nc_bin_retargeted(
                            c,
                            ob@[n - k + t],
                            #[trigger] nb@[t],
                            params[k - 1 - t],
                        )
                    &&& forall|t: int| k <= t < n ==> #[trigger] nb@[t] == ob@[t - k]
                } else {
                    &&& forall|t: int| 0 <= t < n - k ==> #[trigger] nb@[t] == ob@[t + k]
                    &&& forall|t: int|
                        n - k <= t < n ==> Self::nc_bin_retargeted(
                            c,
                            ob@[t - (n - k)],
                            #[trigger] nb@[t],
                            params[t - (n - k)],
                        )
                }
            },
            _ => false,
        }
    }

    /// Scrolls the visible frequency axis by recycling bins from one
    /// edge to the other.  The caller supplies one parameter entry per
    /// candidate bin, already mapped along the exponential axis; the
    /// scroll stops at the first candidate outside the supported band.
    /// Returns how many bins were actually recycled; the caller then
    /// moves the configured frequency range by the same amount.
    pub fn move_bins(&mut self, left: bool, params: &Vec<BinParams>) -> (moved: usize)
        requires
            old(self).wf(),
            old(self).spectrum_bins.bin_count() >= 1,
            forall|i: int| 0 <= i < params@.len() ==> (#[trigger] params@[i]).wf(),
            forall|i: int|
                0 <= i < params@.len() ==> (#[trigger] params@[i]).freq_mhz < (old(
                self).config.sample_rate as int) * 1000,
        ensures
            final(self).wf(),
            final(self).spectrum_bins.bin_count() == old(self).spectrum_bins.bin_count(),
            moved <= params@.len(),
            // the scroll takes exactly the leading in-band candidates
            forall|j: int|
                0 <= j < moved ==> Self::scroll_in_band(
                    old(self).init_config,
                    old(self).config,
                    left,
                    #[trigger] params@[j],
                ),
            moved < params@.len() ==> !Self::scroll_in_band(
                old(self).init_config,
                old(self).config,
                left,
                params@[moved as int],
            ),
            // each taken candidate recycled one bin toward the edge
            moved <= old(self).spectrum_bins.bin_count() ==> Self::bins_scrolled(
                old(self).config,
                old(self).spectrum_bins,
                final(self).spectrum_bins,
                left,
                params@,
                moved as int,
            ),
            final(self).config == old(self).config,
            final(self).init_config == old(self).init_config,
            final(self).rings == old(self).rings,
            final(self).collector == old(self).collector,
            final(self).collected_spectrums == old(self).collected_spectrums,
            final(self).collect_every == old(self).collect_every,
            final(self).collect_frequency == old(self).collect_frequency,
            final(self).samples_to_collect_remaining == old(
                self,
            ).samples_to_collect_remaining,
            final(self).collected_counter == old(self).collected_counter,
            final(self).rolling_gain == old(self).rolling_gain,
            final(self).current_power == old(self).current_power,
            final(self).paused == old(self).paused,
            final(self).measure_bins == old(self).measure_bins,
            final(self).trig == old(self).trig,
    {
        let n = params.len();
        let mut moved: usize = 0;
        let mut i: usize = 0;
        let mut stopped = false;
        while i < n && !stopped
            invariant
                self.wf(),
                n == params@.len(),
                moved == i <= n,
                self.spectrum_bins.bin_count() == old(self).spectrum_bins.bin_count(),
                self.spectrum_bins.bin_count() >= 1,
                self.config == old(self).config,
                self.init_config == old(self).init_config,
                self.rings == old(self).rings,
                self.collector == old(self).collector,
                self.collected_spectrums == old(self).collected_spectrums,
                self.collect_every == old(self).collect_every,
                self.collect_frequency == old(self).collect_frequency,
                self.samples_to_collect_remaining == old(self).samples_to_collect_remaining,
                self.collected_counter == old(self).collected_counter,
                self.rolling_gain == old(self).rolling_gain,
                self.current_power == old(self).current_power,
                self.paused == old(self).paused,
                self.measure_bins == old(self).measure_bins,
                self.trig == old(self).trig,
                forall|j: int| 0 <= j < params@.len() ==> (#[trigger] params@[j]).wf(),
                forall|j: int|
                    0 <= j < params@.len() ==> (#[trigger] params@[j]).freq_mhz < (
                    self.config.sample_rate as int) * 1000,
                forall|j: int|
                    0 <= j < moved ==> Self::scroll_in_band(
                        old(self).init_config,
                        old(self).config,
                        left,
                        #[trigger] params@[j],
                    ),
                stopped ==> moved < n && !Self::scroll_in_band(
                    old(self).init_config,
                    old(self).config,
                    left,
                    params@[moved as int],
                ),
                moved <= old(self).spectrum_bins.bin_count() ==> Self::bins_scrolled(
                    old(self).config,
                    old(self).spectrum_bins,
                    self.spectrum_bins,
                    left,
                    params@,
                    moved as int,
                ),
            decreases 2 * (n - i) + (if stopped { 0int } else { 1int }),
        {
            let p = params[i].clone();
            let in_band = if left {
                p.freq_mhz >= self.init_config.min_f_mhz
            } else {
                p.freq_mhz < ((self.config.sample_rate as u64) * 1000) / 2
            };
            if !in_band {
                stopped = true;
            } else {
                let ghost prev = *self;
                let ghost k = moved as int;
                self.recycle_bin(left, &p);
                proof {
                    if k + 1 <= old(self).spectrum_bins.bin_count() {
                        Self::lemma_scroll_step(
                            old(self).config,
                            old(self).spectrum_bins,
                            prev.spectrum_bins,
                            self.spectrum_bins,
                            left,
                            params@,
                            k,
                        );
                    }
                }
                moved = moved + 1;
                i = i + 1;
            }
        }
        moved
    }

    /// One more recycle extends a `k`-bin scroll to a `k + 1`-bin one.
    pub proof fn lemma_scroll_step(
        c: SpectrumConfig,
        orig: SpectrumBins,
        mid: SpectrumBins,
        new_bins: SpectrumBins,
        left: bool,
        params: Seq<BinParams>,
        k: int,
    )
        requires
            0 <= k,
            k + 1 <= orig.bin_count(),
            k < params.len(),
            Self::bins_scrolled(c, orig, mid, left, params, k),
            Self::bins_recycled(c, mid, new_bins, left, params[k]),
        ensures
            Self::bins_scrolled(c, orig, new_bins, left, params, k + 1),
    {
    }

    /// Moves the configured frequency range after a scroll.
    pub fn set_freq_range(&mut self, min_f_mhz: u64, max_f_mhz: u64)
        requires
            old(self).wf(),
            1 <= min_f_mhz <= max_f_mhz,
            max_f_mhz < (old(self).config.sample_rate as int) * 1000,
        ensures
            final(self).wf(),
            final(self).config.min_f_mhz == min_f_mhz,
            final(self).config.max_f_mhz == max_f_mhz,
            final(self).spectrum_bins == old(self).spectrum_bins,
    {
        self.config.min_f_mhz = min_f_mhz;
        self.config.max_f_mhz = max_f_mhz;
    }
}


/// The downsampled block: each output sample is the truncating mean
/// of one input pair.
pub open spec fn downsampled(s: Seq<i32>) -> Seq<i32> {
    Seq::new((s.len() / 2) as nat, |i: int| crate::complex::tdiv(
        s[2 * i] + s[2 * i + 1],
        2,
    ) as i32)
}

/// `a` is an unchanged initial segment of `b`.
pub open spec fn hist_prefix(a: Seq<crate::terms::Term>, b: Seq<crate::terms::Term>) -> bool {
    a.len() <= b.len() && b.subrange(0, a.len() as int) == a
}

/// A history is trivially a prefix of itself.
pub proof fn lemma_hist_prefix_refl(a: Seq<crate::terms::Term>)
    ensures
        hist_prefix(a, a),
{
    assert(a.subrange(0, a.len() as int) =~= a);
}

/// Appending more terms keeps every earlier prefix.
pub proof fn lemma_hist_prefix_append(
    a: Seq<crate::terms::Term>,
    b: Seq<crate::terms::Term>,
    c: Seq<crate::terms::Term>,
)
    requires
        hist_prefix(a, b),
    ensures
        hist_prefix(a, b + c),
{
    assert((b + c).subrange(0, a.len() as int) =~= b.subrange(0, a.len() as int));
}

impl ChannelSWDFT {
    /// A correlator that has only accumulated: its targeting is
    /// untouched and its old history is an unchanged initial segment
    /// of its new one.
    pub open spec fn bin_extended(ob: DftBin, nb: DftBin) -> bool {
        &&& nb.pulsation == ob.pulsation
        &&& nb.length == ob.length
        &&& hist_prefix(ob.hist@, nb.hist@)
    }

    /// Every bin of the layout extended in place, metadata untouched.
    pub open spec fn bins_extended(old_bins: SpectrumBins, new_bins: SpectrumBins) -> bool {
        match (old_bins, new_bins) {
            (SpectrumBins::DFT(ob), SpectrumBins::DFT(nb)) => ob@.len() == nb@.len()
                && forall|i: int|
                0 <= i < ob@.len() ==> Self::bin_extended(
                    (#[trigger] ob@[i]).bin,
                    nb@[i].bin,
                ) && nb@[i].meta == ob@[i].meta,
            (SpectrumBins::NC(ob), SpectrumBins::NC(nb)) => ob@.len() == nb@.len()
                && forall|i: int|
                0 <= i < ob@.len() ==> Self::bin_extended(
                    (#[trigger] ob@[i]).bina,
                    nb@[i].bina,
                ) && Self::bin_extended(ob@[i].binb, nb@[i].binb) && nb@[i].meta == ob@[i].meta,
            _ => false,
        }
    }

    /// Halves the sample rate by averaging adjacent sample pairs.
    pub fn half_samplerate(input: &[i32]) -> (r: Vec<i32>)
        requires
            forall|i: int| 0 <= i < input@.len() ==> crate::ring::in_range(
                #[trigger] input@[i] as int,
            ),
            input@.len() <= 0x4000_0000,
        ensures
            r@ == downsampled(input@),
            forall|i: int| 0 <= i < r@.len() ==> crate::ring::in_range(#[trigger] r@[i] as int),
    {
        let half_len = input.len() / 2;
        let mut out: Vec<i32> = Vec::new();
        let mut i: usize = 0;
        while i < half_len
            invariant
                input@.len() <= 0x4000_0000,
                half_len == input@.len() / 2,
                i == out@.len() <= half_len,
                forall|j: int| 0 <= j < input@.len() ==> crate::ring::in_range(
                    #[trigger] input@[j] as int,
                ),
                forall|j: int|
                    0 <= j < i ==> #[trigger] out@[j] == crate::complex::tdiv(
                        input@[2 * j] + input@[2 * j + 1],
                        2,
                    ),
                forall|j: int| 0 <= j < i ==> crate::ring::in_range(#[trigger] out@[j] as int),
            decreases half_len - i,
        {
            let a = input[i * 2];
            let b = input[i * 2 + 1];
            proof {
                crate::complex::lemma_tdiv_bound(a as int + b as int, 2, 65534);
                vstd::arithmetic::div_mod::lemma_div_is_ordered(65534, 65535, 2);
            }
            out.push((a + b) / 2);
            i = i + 1;
        }
        proof {
            assert(out@ =~= downsampled(input@));
        }
        out
    }

    /// One bin advanced over one downsampled block: the history grows
    /// by exactly the block's oscillator terms.
    pub open spec fn advanced_from(
        old_bin: DftBin,
        new_bin: DftBin,
        table: Seq<i16>,
        samples: Seq<i32>,
        ring_offset: int,
        n: int,
    ) -> bool {
        &&& new_bin.hist@ == old_bin.hist@ + crate::dftbin::advance_terms(
            table,
            samples,
            ring_offset,
            n,
            old_bin.current_phase as int,
            old_bin.pulsation as int,
        )
        &&& new_bin.length == old_bin.length
        &&& new_bin.pulsation == old_bin.pulsation
        &&& new_bin.current_length == if old_bin.current_length + n > old_bin.length {
            old_bin.length as int
        } else {
            old_bin.current_length + n
        }
    }

    /// Every bin of the new layout is the matching old bin advanced
    /// over the same block.
    pub open spec fn bins_advanced(
        old_bins: SpectrumBins,
        new_bins: SpectrumBins,
        table: Seq<i16>,
        samples: Seq<i32>,
        ring_offset: int,
        n: int,
    ) -> bool {
        match (old_bins, new_bins) {
            (SpectrumBins::DFT(ob), SpectrumBins::DFT(nb)) => ob@.len() == nb@.len()
                && forall|i: int|
                0 <= i < ob@.len() ==> Self::advanced_from(
                    (#[trigger] ob@[i]).bin,
                    nb@[i].bin,
                    table,
                    samples,
                    ring_offset,
                    n,
                ) && nb@[i].meta == ob@[i].meta,
            (SpectrumBins::NC(ob), SpectrumBins::NC(nb)) => ob@.len() == nb@.len()
                && forall|i: int|
                0 <= i < ob@.len() ==> Self::advanced_from(
                    (#[trigger] ob@[i]).bina,
                    nb@[i].bina,
                    table,
                    samples,
                    ring_offset,
                    n,
                ) && Self::advanced_from(
                    ob@[i].binb,
                    nb@[i].binb,
                    table,
                    samples,
                    ring_offset,
                    n,
                ) && nb@[i].meta == ob@[i].meta,
            _ => false,
        }
    }

    /// Feeds one block: downsamples it once into the octave-1 ring and
    /// advances every bin over the new samples.
    pub fn process_input(&mut self, main_input: &[i32])
        requires
            old(self).wf(),
            forall|i: int| 0 <= i < main_input@.len() ==> crate::ring::in_range(
                #[trigger] main_input@[i] as int,
            ),
            main_input@.len() <= 0x100000,
        ensures
            final(self).wf(),
            final(self).spectrum_bins.bin_count() == old(self).spectrum_bins.bin_count(),
            (final(self).spectrum_bins is DFT) <==> (old(self).spectrum_bins is DFT),
            final(self).paused == old(self).paused,
            final(self).config == old(self).config,
            final(self).collect_every == old(self).collect_every,
            final(self).samples_to_collect_remaining == old(
                self,
            ).samples_to_collect_remaining,
            final(self).collected_spectrums == old(self).collected_spectrums,
            final(self).collector == old(self).collector,
            final(self).trig == old(self).trig,
            final(self).collect_frequency == old(self).collect_frequency,
            final(self).collected_counter == old(self).collected_counter,
            final(self).rolling_gain == old(self).rolling_gain,
            final(self).current_power == old(self).current_power,
            final(self).init_config == old(self).init_config,
            Self::bins_advanced(
                old(self).spectrum_bins,
                final(self).spectrum_bins,
                final(self).trig@,
                final(self).rings@[1].ring_samples@,
                final(self).rings@[1].ring_offset as int,
                (main_input@.len() / 2) as int,
            ),
            // the octave-1 ring received exactly the downsampled block
            final(self).rings@.len() == old(self).rings@.len(),
            forall|j: int|
                0 <= j < final(self).rings@.len() && j != 1 ==> #[trigger] final(
                self).rings@[j] == old(self).rings@[j],
            final(self).rings@[1].ring_length == old(self).rings@[1].ring_length,
            final(self).rings@[1].ring_offset == (old(self).rings@[1].ring_offset
                + downsampled(main_input@).len()) % (old(self).rings@[1].ring_length as int),
            forall|d: int|
                0 <= d < downsampled(main_input@).len() && d < old(
                self).rings@[1].ring_length ==> final(self).rings@[1].sample_back(d)
                    == #[trigger] downsampled(main_input@)[downsampled(main_input@).len() - 1
                    - d] as int,
            forall|d: int|
                downsampled(main_input@).len() <= d < old(self).rings@[1].ring_length
                    ==> #[trigger] final(self).rings@[1].sample_back(d) == old(
                self).rings@[1].sample_back(d - downsampled(main_input@).len()),
            // the measurement correlators advance over the same block
            final(self).measure_bins@.len() == old(self).measure_bins@.len(),
            forall|i: int|
                0 <= i < old(self).measure_bins@.len() ==> Self::advanced_from(
                    old(self).measure_bins@[i],
                    #[trigger] final(self).measure_bins@[i],
                    final(self).trig@,
                    final(self).rings@[1].ring_samples@,
                    final(self).rings@[1].ring_offset as int,
                    (main_input@.len() / 2) as int,
                ),
    {
        let samples = Self::half_samplerate(main_input);
        let l = samples.len();
        self.rings[1].push_samples(samples.as_slice());
        let ghost rings_after = self.rings@;
        let r_offset = self.rings[1].ring_offset;
        match &mut self.spectrum_bins {
            SpectrumBins::DFT(dft_bins) => {
                let n = dft_bins.len();
                let mut i: usize = 0;
                while i < n
                    invariant
                        n == dft_bins@.len(),
                        i <= n,
                        old(self).spectrum_bins is DFT,
                        n == old(self).spectrum_bins->DFT_0@.len(),
                        self.paused == old(self).paused,
                        self.init_config == old(self).init_config,
                        self.config == old(self).config,
                        self.collector == old(self).collector,
                        self.collect_every == old(self).collect_every,
                        self.collect_frequency == old(self).collect_frequency,
                        self.samples_to_collect_remaining == old(self).samples_to_collect_remaining,
                        self.collected_spectrums == old(self).collected_spectrums,
                        self.collected_counter == old(self).collected_counter,
                        self.rolling_gain == old(self).rolling_gain,
                        self.current_power == old(self).current_power,
                        self.measure_bins == old(self).measure_bins,
                        self.trig == old(self).trig,
                        self.trig.wf(),
                        self.rings@ == rings_after,
                        self.rings@.len() == Self::ring_count(),
                        forall|j: int| 0 <= j < self.rings@.len() ==> (
                        #[trigger] self.rings@[j]).wf(),
                        self.rings@[1].ring_length == 0x8000,
                        r_offset == self.rings@[1].ring_offset,
                        l <= 0x80000,
                        forall|j: int| 0 <= j < dft_bins@.len() ==> (#[trigger] dft_bins@[j]).wf(),
                        forall|j: int|
                            0 <= j < i ==> Self::advanced_from(
                                (#[trigger] old(self).spectrum_bins->DFT_0@[j]).bin,
                                dft_bins@[j].bin,
                                self.trig@,
                                self.rings@[1].ring_samples@,
                                r_offset as int,
                                l as int,
                            ) && dft_bins@[j].meta == old(self).spectrum_bins->DFT_0@[j].meta,
                        forall|j: int|
                            i <= j < dft_bins@.len() ==> #[trigger] dft_bins@[j] == old(
                            self).spectrum_bins->DFT_0@[j],
                    decreases n - i,
                {
                    let trig = &self.trig;
                    let ring = &self.rings[1];
                    dft_bins[i].bin.advance(l, ring.ring_samples.as_slice(), r_offset, trig);
                    i = i + 1;
                }
            },
            SpectrumBins::NC(nc_bins) => {
                let n = nc_bins.len();
                let mut i: usize = 0;
                while i < n
                    invariant
                        n == nc_bins@.len(),
                        i <= n,
                        old(self).spectrum_bins is NC,
                        n == old(self).spectrum_bins->NC_0@.len(),
                        self.paused == old(self).paused,
                        self.init_config == old(self).init_config,
                        self.config == old(self).config,
                        self.collector == old(self).collector,
                        self.collect_every == old(self).collect_every,
                        self.collect_frequency == old(self).collect_frequency,
                        self.samples_to_collect_remaining == old(self).samples_to_collect_remaining,
                        self.collected_spectrums == old(self).collected_spectrums,
                        self.collected_counter == old(self).collected_counter,
                        self.rolling_gain == old(self).rolling_gain,
                        self.current_power == old(self).current_power,
                        self.measure_bins == old(self).measure_bins,
                        self.trig == old(self).trig,
                        self.trig.wf(),
                        self.rings@ == rings_after,
                        self.rings@.len() == Self::ring_count(),
                        forall|j: int| 0 <= j < self.rings@.len() ==> (
                        #[trigger] self.rings@[j]).wf(),
                        self.rings@[1].ring_length == 0x8000,
                        r_offset == self.rings@[1].ring_offset,
                        l <= 0x80000,
                        forall|j: int| 0 <= j < nc_bins@.len() ==> (#[trigger] nc_bins@[j]).wf(),
                        forall|j: int|
                            0 <= j < i ==> Self::advanced_from(
                                (#[trigger] old(self).spectrum_bins->NC_0@[j]).bina,
                                nc_bins@[j].bina,
                                self.trig@,
                                self.rings@[1].ring_samples@,
                                r_offset as int,
                                l as int,
                            ) && Self::advanced_from(
                                old(self).spectrum_bins->NC_0@[j].binb,
                                nc_bins@[j].binb,
                                self.trig@,
                                self.rings@[1].ring_samples@,
                                r_offset as int,
                                l as int,
                            ) && nc_bins@[j].meta == old(self).spectrum_bins->NC_0@[j].meta,
                        forall|j: int|
                            i <= j < nc_bins@.len() ==> #[trigger] nc_bins@[j] == old(
                            self).spectrum_bins->NC_0@[j],
                    decreases n - i,
                {
                    let trig = &self.trig;
                    let ring = &self.rings[1];
                    nc_bins[i].bina.advance(l, ring.ring_samples.as_slice(), r_offset, trig);
                    let ring2 = &self.rings[1];
                    nc_bins[i].binb.advance(l, ring2.ring_samples.as_slice(), r_offset, trig);
                    i = i + 1;
                }
            },
        }
        proof {
            assert(Self::bins_advanced(
                old(self).spectrum_bins,
                self.spectrum_bins,
                self.trig@,
                self.rings@[1].ring_samples@,
                self.rings@[1].ring_offset as int,
                l as int,
            ));
        }
        let mn = self.measure_bins.len();
        let mut i: usize = 0;
        while i < mn
            invariant
                Self::bins_advanced(
                    old(self).spectrum_bins,
                    self.spectrum_bins,
                    self.trig@,
                    self.rings@[1].ring_samples@,
                    self.rings@[1].ring_offset as int,
                    l as int,
                ),
                l == main_input@.len() / 2,
                mn == self.measure_bins@.len(),
                mn == old(self).measure_bins@.len(),
                i <= mn,
                forall|j: int|
                    0 <= j < i ==> Self::advanced_from(
                        old(self).measure_bins@[j],
                        #[trigger] self.measure_bins@[j],
                        self.trig@,
                        self.rings@[1].ring_samples@,
                        r_offset as int,
                        l as int,
                    ),
                forall|j: int|
                    i <= j < mn ==> #[trigger] self.measure_bins@[j] == old(
                    self).measure_bins@[j],
                self.trig == old(self).trig,
                self.trig.wf(),
                self.rings@ == rings_after,
                self.rings@.len() == Self::ring_count(),
                forall|j: int| 0 <= j < self.rings@.len() ==> (#[trigger] self.rings@[j]).wf(),
                self.rings@[1].ring_length == 0x8000,
                r_offset == self.rings@[1].ring_offset,
                l <= 0x80000,
                forall|j: int| 0 <= j < self.measure_bins@.len() ==> (
                #[trigger] self.measure_bins@[j]).wf(),
                self.init_config == old(self).init_config,
                self.config == old(self).config,
                self.paused == old(self).paused,
                self.collector == old(self).collector,
                self.collect_every == old(self).collect_every,
                self.collect_frequency == old(self).collect_frequency,
                self.samples_to_collect_remaining == old(self).samples_to_collect_remaining,
                self.collected_spectrums == old(self).collected_spectrums,
                self.collected_counter == old(self).collected_counter,
                self.rolling_gain == old(self).rolling_gain,
                self.current_power == old(self).current_power,
                self.spectrum_bins.wf(),
                self.spectrum_bins.bin_count() == old(self).spectrum_bins.bin_count(),
            decreases mn - i,
        {
            let trig = &self.trig;
            let ring = &self.rings[1];
            self.measure_bins[i].advance(l, ring.ring_samples.as_slice(), r_offset, trig);
            i = i + 1;
        }
    }
}


/// The magnitudes of a collected spectrum, index-aligned with it.
pub open spec fn values_of(s: Seq<SSample>) -> Seq<u64> {
    s.map_values(|x: SSample| x.value)
}

/// The samples a collection pass assembles before any recoloring: one
/// entry per bin, carrying the bin's scaled magnitude and its cached
/// display data.
pub open spec fn collected_samples(e: ChannelSWDFT) -> Seq<SSample> {
    match e.spectrum_bins {
        SpectrumBins::DFT(bins) => Seq::new(bins@.len(), |i: int| (SSample {
            value: dft_value_spec(
                bins@[i].bin.hist@,
                bins@[i].bin.current_length as int,
                bins@[i].bin.length as int,
                e.collector.kernel@,
                e.collector.kernel_sum as int,
                bins@[i].meta.a_weight_milli as int,
            ) as u64,
            color: bins@[i].meta.color,
            octave_centi: bins@[i].meta.octave_centi,
        })),
        SpectrumBins::NC(bins) => Seq::new(bins@.len(), |i: int| (SSample {
            value: nc_value_spec(
                e.trig@,
                bins@[i].bina.hist@,
                bins@[i].bina.current_length as int,
                bins@[i].bina.length as int,
                bins@[i].bina.current_phase as int,
                bins@[i].binb.hist@,
                bins@[i].binb.current_length as int,
                bins@[i].binb.length as int,
                bins@[i].binb.current_phase as int,
                bins@[i].meta.a_weight_milli as int,
            ) as u64,
            color: bins@[i].meta.color,
            octave_centi: bins@[i].meta.octave_centi,
        })),
    }
}

/// Scaled magnitude of one plain bin: the kerneled complex sum,
/// normalized by window length, fixed-point unit and kernel mean, then
/// A-weighted.  An empty bin reads as zero.
pub open spec fn dft_value_spec(
    h: Seq<crate::terms::Term>,
    cl: int,
    length: int,
    kernel: Seq<i64>,
    kernel_sum: int,
    a_weight_milli: int,
) -> int {
    if cl < 1 {
        0
    } else {
        let kr = crate::dftbin::kerneled_re(h, cl, kernel, kernel.len() as int);
        let ki = crate::dftbin::kerneled_im(h, cl, kernel, kernel.len() as int);
        let rn = crate::complex::tdiv(kr, length * (crate::collector::KERNEL_ONE as int));
        let im_n = crate::complex::tdiv(ki, length * (crate::collector::KERNEL_ONE as int));
        let mag = crate::util::sqrt_floor(rn * rn + im_n * im_n);
        ((mag * (crate::collector::KERNEL_ONE as int) / kernel_sum) * a_weight_milli) / 1000
    }
}

/// The angle that rotates an accumulated phase back to the reference:
/// the negated undithered phase, reduced to one turn.
pub open spec fn back_rotation(phase: int) -> int {
    (32768 - ((phase / 4096) % 32768)) % 32768
}

/// Scaled magnitude of one cross-correlation bin pair: both raw
/// window sums rotated back to the reference phase, normalized by
/// twice their window lengths, and the negative real part of their
/// dot product (clamped at zero) taken as the squared magnitude.
pub open spec fn nc_value_spec(
    table: Seq<i16>,
    ha: Seq<crate::terms::Term>,
    cla: int,
    lena: int,
    phasea: int,
    hb: Seq<crate::terms::Term>,
    clb: int,
    lenb: int,
    phaseb: int,
    a_weight_milli: int,
) -> int {
    if cla < 1 || clb < 1 {
        0
    } else {
        let anga = back_rotation(phasea);
        let angb = back_rotation(phaseb);
        let a_re = crate::terms::range_re(ha, 0, cla - 1);
        let a_im = crate::terms::range_im(ha, 0, cla - 1);
        let b_re = crate::terms::range_re(hb, 0, clb - 1);
        let b_im = crate::terms::range_im(hb, 0, clb - 1);
        let ca = crate::trig::cosine_at(table, anga);
        let sa = crate::trig::sine_at(table, anga);
        let cb = crate::trig::cosine_at(table, angb);
        let sb = crate::trig::sine_at(table, angb);
        let ar_re = crate::complex::tdiv(a_re * ca - a_im * sa, 32768);
        let ar_im = crate::complex::tdiv(a_re * sa + a_im * ca, 32768);
        let br_re = crate::complex::tdiv(b_re * cb - b_im * sb, 32768);
        let br_im = crate::complex::tdiv(b_re * sb + b_im * cb, 32768);
        let an_re = crate::complex::tdiv(ar_re, 2 * lena);
        let an_im = crate::complex::tdiv(ar_im, 2 * lena);
        let bn_re = crate::complex::tdiv(br_re, 2 * lenb);
        let bn_im = crate::complex::tdiv(br_im, 2 * lenb);
        let val = -(an_re * bn_re + an_im * bn_im);
        let clamped = if val < 0 {
            0
        } else if val > i64::MAX as int {
            i64::MAX as int
        } else {
            val
        };
        (crate::util::sqrt_floor(clamped) * a_weight_milli) / 1000
    }
}

impl ChannelSWDFT {
    /// Kerneled, normalized, A-weighted magnitude of one plain bin.
    pub fn dft_magnitude(
        bin: &DftBin,
        kernel: &[i64],
        kernel_sum: i64,
        a_weight_milli: u32,
    ) -> (r: u64)
        requires
            bin.wf(),
            1 <= kernel@.len() <= 0x10000,
            forall|i: int|
                0 <= i < kernel@.len() ==> -crate::dftbin::KERNEL_COEFF_BOUND
                    <= #[trigger] kernel@[i] <= crate::dftbin::KERNEL_COEFF_BOUND,
            1 <= kernel_sum <= crate::dftbin::KERNEL_COEFF_BOUND,
            a_weight_milli <= 0x10000,
        ensures
            r == dft_value_spec(
                bin.hist@,
                bin.current_length as int,
                bin.length as int,
                kernel@,
                kernel_sum as int,
                a_weight_milli as int,
            ),
            r <= 0x1000_0000_0000_0000,
    {
        if bin.current_length < 1 {
            return 0;
        }
        let k = bin.sum_complex_kerneled(kernel);
        let denom: i64 = (bin.length as i64) * crate::collector::KERNEL_ONE;
        let ghost tbk: int = (crate::terms::TERM_BOUND as int) * (
        crate::dftbin::KERNEL_COEFF_BOUND as int);
        proof {
            let cl = bin.current_length as int;
            let len = bin.length as int;
            assert((cl - 1) * tbk <= len * tbk) by (nonlinear_arith)
                requires 0 <= cl - 1 <= len, tbk >= 0,
            ;
            crate::complex::lemma_tdiv_bound(k.re as int, denom as int, len * tbk);
            crate::complex::lemma_tdiv_bound(k.im as int, denom as int, len * tbk);
            vstd::arithmetic::div_mod::lemma_div_multiples_vanish_quotient(
                len,
                tbk,
                crate::collector::KERNEL_ONE as int,
            );
            assert(tbk / (crate::collector::KERNEL_ONE as int) <= 0x7FFF_FFFF);
        }
        let rn = k.re / denom;
        let im_n = k.im / denom;
        let c = crate::complex::ComplexI64 { re: rn, im: im_n };
        let msq = c.magnitude_squared();
        let mag = crate::util::isqrt_u64(msq as u64);
        proof {
            assert(mag <= 0xB504_F33F) by (nonlinear_arith)
                requires
                    mag * mag <= 0x7FFF_FFFF_FFFF_FFFF,
                    0 <= mag,
            ;
        }
        let t: u64 = mag * (crate::collector::KERNEL_ONE as u64);
        let t2: u64 = t / (kernel_sum as u64);
        proof {
            vstd::arithmetic::div_mod::lemma_div_is_ordered_by_denominator(
                t as int,
                1,
                kernel_sum as int,
            );
        }
        proof {
            assert(t2 * (a_weight_milli as int) <= 0xB504_F33F * 0xFFF0 * 0x10000)
                by (nonlinear_arith)
                requires 0 <= t2 <= 0xB504_F33F * 0xFFF0, 0 <= a_weight_milli <= 0x10000,
            ;
            assert(t <= 0xB504_F33F * 0xFFF0) by (nonlinear_arith)
                requires 0 <= mag <= 0xB504_F33F, t == mag * 0xFFF0,
            ;
        }
        let t3: u64 = t2 * (a_weight_milli as u64);
        t3 / 1000
    }

    /// Cross-correlation magnitude of one bin pair: both raw window
    /// sums are rotated back to a common reference phase; the negative
    /// real part of their dot product (clamped at zero) is the
    /// noise-robust magnitude estimate.
    pub fn nc_magnitude(
        bina: &DftBin,
        binb: &DftBin,
        trig: &TrigTable,
        a_weight_milli: u32,
    ) -> (r: u64)
        requires
            bina.wf(),
            binb.wf(),
            trig.wf(),
            a_weight_milli <= 0x10000,
        ensures
            r <= 0x1000_0000_0000_0000,
            r == nc_value_spec(
                trig@,
                bina.hist@,
                bina.current_length as int,
                bina.length as int,
                bina.current_phase as int,
                binb.hist@,
                binb.current_length as int,
                binb.length as int,
                binb.current_phase as int,
                a_weight_milli as int,
            ),
    {
        if bina.current_length < 1 || binb.current_length < 1 {
            return 0;
        }
        let a = bina.sum_ranged_all();
        let b = binb.sum_ranged_all();
        proof {
            let tb = crate::terms::TERM_BOUND as int;
            assert((bina.current_length - 1) * tb <= 0x10000 * tb) by (nonlinear_arith)
                requires 0 <= bina.current_length - 1 <= 0x10000, tb >= 0,
            ;
            assert((binb.current_length - 1) * tb <= 0x10000 * tb) by (nonlinear_arith)
                requires 0 <= binb.current_length - 1 <= 0x10000, tb >= 0,
            ;
        }
        // rotate each sum back by its own accumulated phase
        let ua = crate::trig::fp_undither(bina.current_phase);
        let ub = crate::trig::fp_undither(binb.current_phase);
        let anga: u32 = (32768 - (ua % 32768)) % 32768;
        let angb: u32 = (32768 - (ub % 32768)) % 32768;
        let ar = a.rotate(anga, trig);
        let br = b.rotate(angb, trig);
        let da: i64 = 2 * (bina.length as i64);
        let db: i64 = 2 * (binb.length as i64);
        proof {
            crate::complex::lemma_tdiv_bound(ar.re as int, da as int, 0x8000_0000_0000);
            crate::complex::lemma_tdiv_bound(ar.im as int, da as int, 0x8000_0000_0000);
            crate::complex::lemma_tdiv_bound(br.re as int, db as int, 0x8000_0000_0000);
            crate::complex::lemma_tdiv_bound(br.im as int, db as int, 0x8000_0000_0000);
            vstd::arithmetic::div_mod::lemma_div_is_ordered_by_denominator(
                0x8000_0000_0000,
                1,
                da as int,
            );
            vstd::arithmetic::div_mod::lemma_div_is_ordered_by_denominator(
                0x8000_0000_0000,
                1,
                db as int,
            );
        }
        let an = crate::complex::ComplexI64 { re: ar.re / da, im: ar.im / da };
        let bn = crate::complex::ComplexI64 { re: br.re / db, im: br.im / db };
        proof {
            assert(forall|x: int, y: int|
                -0x8000_0000_0000 <= x <= 0x8000_0000_0000 && -0x8000_0000_0000 <= y
                    <= 0x8000_0000_0000 ==> -0x4000_0000_0000_0000_0000_0000 <= #[trigger] (x * y)
                    <= 0x4000_0000_0000_0000_0000_0000) by (nonlinear_arith);
        }
        let dot: i128 = (an.re as i128) * (bn.re as i128) + (an.im as i128) * (bn.im as i128);
        let val: i128 = -dot;
        let clamped: u64 = if val < 0 {
            0
        } else if val > 0x7FFF_FFFF_FFFF_FFFF {
            0x7FFF_FFFF_FFFF_FFFF
        } else {
            val as u64
        };
        let mag = crate::util::isqrt_u64(clamped);
        proof {
            assert(mag <= 0xB504_F33F) by (nonlinear_arith)
                requires
                    mag * mag <= 0x7FFF_FFFF_FFFF_FFFF,
                    0 <= mag,
            ;
        }
        proof {
            assert(mag * (a_weight_milli as int) <= 0xB504_F33F * 0x10000) by (nonlinear_arith)
                requires 0 <= mag <= 0xB504_F33F, 0 <= a_weight_milli <= 0x10000,
            ;
        }
        (mag * (a_weight_milli as u64)) / 1000
    }

    /// Four-tap box smoothing of the magnitude curve, index-aligned:
    /// the mean of the two values before, at, and one past each index.
    pub open spec fn smoothed_at(v: Seq<u64>, i: int) -> int {
        let a = if i - 2 >= 0 && i - 2 < v.len() {
            v[i - 2] as int
        } else {
            0
        };
        let b = if i - 1 >= 0 && i - 1 < v.len() {
            v[i - 1] as int
        } else {
            0
        };
        let c = if i < v.len() {
            v[i] as int
        } else {
            0
        };
        let d = if i + 1 < v.len() {
            v[i + 1] as int
        } else {
            0
        };
        (a + b + c + d) / 5
    }

    /// Box-smoothed copy of the spectrum magnitudes.
    pub fn smoothed(spectrum: &Vec<SSample>) -> (r: Vec<u64>)
        requires
            forall|i: int|
                0 <= i < spectrum@.len() ==> (#[trigger] spectrum@[i]).value
                    <= 0x1000_0000_0000_0000,
        ensures
            r@.len() == spectrum@.len(),
            forall|i: int|
                0 <= i < r@.len() ==> #[trigger] r@[i] == Self::smoothed_at(
                    values_of(spectrum@),
                    i,
                ),
    {
        let n = spectrum.len();
        let mut out: Vec<u64> = Vec::new();
        let mut i: usize = 0;
        while i < n
            invariant
                n == spectrum@.len(),
                i == out@.len() <= n,
                forall|j: int|
                    0 <= j < spectrum@.len() ==> (#[trigger] spectrum@[j]).value
                        <= 0x1000_0000_0000_0000,
                forall|j: int|
                    0 <= j < i ==> #[trigger] out@[j] == Self::smoothed_at(
                        values_of(spectrum@),
                        j,
                    ),
            decreases n - i,
        {
            let a: u64 = if i >= 2 {
                spectrum[i - 2].value
            } else {
                0
            };
            let b: u64 = if i >= 1 {
                spectrum[i - 1].value
            } else {
                0
            };
            let c: u64 = spectrum[i].value;
            let d: u64 = if i + 1 < n {
                spectrum[i + 1].value
            } else {
                0
            };
            out.push((a + b + c + d) / 5);
            i = i + 1;
        }
        out
    }

    /// A peak sits where the smoothed curve has just fallen after
    /// rising: the sample below a strict local maximum of the smoothed
    /// magnitudes.
    pub open spec fn is_peak_at(sm: Seq<int>, i: int) -> bool {
        &&& 1 <= i < sm.len()
        &&& sm[i] < sm[i - 1]
        &&& (i == 1 || sm[i - 1] > sm[i - 2])
    }

    /// Indices of all peaks below `j`, in ascending order.
    pub open spec fn peak_indices(sm: Seq<int>, j: int) -> Seq<int>
        decreases j,
    {
        if j <= 1 {
            Seq::empty()
        } else {
            let rest = Self::peak_indices(sm, j - 1);
            if Self::is_peak_at(sm, j - 1) {
                rest.push(j - 1)
            } else {
                rest
            }
        }
    }

    /// The smoothed curve as a ghost integer sequence.
    pub open spec fn smoothed_seq(v: Seq<u64>) -> Seq<int> {
        Seq::new(v.len(), |i: int| Self::smoothed_at(v, i))
    }

    /// Local-maximum peaks of the box-smoothed magnitude curve, one
    /// entry per peak in ascending index order, carrying the unsmoothed
    /// value and display data of the peak's own bin.
    pub fn simple_peaks(&self, spectrum: &Vec<SSample>) -> (r: Vec<SPeak>)
        requires
            forall|i: int|
                0 <= i < spectrum@.len() ==> (#[trigger] spectrum@[i]).value
                    <= 0x1000_0000_0000_0000,
            spectrum@.len() <= 0x10000,
        ensures
            ({
                let sm = Self::smoothed_seq(values_of(spectrum@));
                let idxs = Self::peak_indices(sm, spectrum@.len() as int);
                &&& r@.len() == idxs.len()
                &&& forall|k: int|
                    0 <= k < r@.len() ==> (#[trigger] r@[k]).probe_index == idxs[k]
                        && r@[k].value == spectrum@[idxs[k]].value && r@[k].octave_centi
                        == spectrum@[idxs[k]].octave_centi && r@[k].alpha_milli == 1000
            }),
    {
        let smooth_spectrum = Self::smoothed(spectrum);
        let ghost smq = Self::smoothed_seq(values_of(spectrum@));
        let n = spectrum.len();
        let mut peaks: Vec<SPeak> = Vec::new();
        let mut i: usize = 0;
        proof {
            assert(smq.len() == n);
            assert(forall|j: int| 0 <= j < n ==> smq[j] == Self::smoothed_at(
                values_of(spectrum@),
                j,
            ));
        }
        while i < n
            invariant
                n == spectrum@.len() <= 0x10000,
                n == smooth_spectrum@.len(),
                i <= n,
                smq == Self::smoothed_seq(values_of(spectrum@)),
                smq.len() == n,
                forall|j: int|
                    0 <= j < n ==> #[trigger] smooth_spectrum@[j] == Self::smoothed_at(
                        values_of(spectrum@),
                        j,
                    ),
                forall|j: int| 0 <= j < n ==> smq[j] == smooth_spectrum@[j] as int,
                peaks@.len() == Self::peak_indices(smq, i as int).len(),
                forall|k: int|
                    0 <= k < peaks@.len() ==> (#[trigger] peaks@[k]).probe_index
                        == Self::peak_indices(smq, i as int)[k] && peaks@[k].value
                        == spectrum@[Self::peak_indices(smq, i as int)[k]].value
                        && peaks@[k].octave_centi == spectrum@[Self::peak_indices(
                        smq,
                        i as int,
                    )[k]].octave_centi && peaks@[k].alpha_milli == 1000,
            decreases n - i,
        {
            let ghost prev_idxs = Self::peak_indices(smq, i as int);
            if i >= 1 {
                let val = smooth_spectrum[i];
                let last_val = smooth_spectrum[i - 1];
                let rising = if i == 1 {
                    true
                } else {
                    last_val > smooth_spectrum[i - 2]
                };
                if val < last_val && rising {
                    let sp = &spectrum[i];
                    peaks.push(
                        SPeak {
                            value: sp.value,
                            probe_index: i as i32,
                            color: sp.color.clone(),
                            octave_centi: sp.octave_centi,
                            alpha_milli: 1000,
                        },
                    );
                    proof {
                        assert(Self::is_peak_at(smq, i as int));
                        assert(Self::peak_indices(smq, i as int + 1) =~= prev_idxs.push(
                            i as int,
                        ));
                    }
                } else {
                    proof {
                        assert(!Self::is_peak_at(smq, i as int));
                        assert(Self::peak_indices(smq, i as int + 1) =~= prev_idxs);
                    }
                }
            } else {
                proof {
                    assert(Self::peak_indices(smq, 1) =~= Seq::<int>::empty());
                    assert(Self::peak_indices(smq, 0) =~= Seq::<int>::empty());
                }
            }
            i = i + 1;
        }
        peaks
    }
}


/// Clamp into the `i64` range.
pub open spec fn clamp_i64(x: int) -> int {
    if x > i64::MAX as int {
        i64::MAX as int
    } else if x < i64::MIN as int {
        i64::MIN as int
    } else {
        x
    }
}

/// Largest magnitude a raw accumulator entry may carry into the
/// subtraction pass: one quantization range (the power-of-two neighbor
/// of the quantizer level) times the 31-bit range, so a value divided
/// by the quantization range always fits 32 bits.
pub const ACC_BOUND: i64 = 32768 * 0x7FFF_FFFF;

/// Clamp into the range raw accumulator sums live in.
pub open spec fn clamp_acc(x: int) -> int {
    if x > ACC_BOUND as int {
        ACC_BOUND as int
    } else if x < -(ACC_BOUND as int) {
        -(ACC_BOUND as int)
    } else {
        x
    }
}

/// Fixed-point reciprocal of one radian per dither step: 2^27 / tau.
pub const INV_TAU_SCALE: i64 = 21361415;

impl RawSSample {
    /// Bounds every later pass relies on.
    pub open spec fn wf(&self) -> bool {
        &&& self.complex.abs_le(ACC_BOUND as int)
        &&& self.a_weight <= 0x10000
        &&& 0 <= self.a_weight
        &&& 1 <= self.length <= 0x10000
        &&& self.pulsation < FIXED_POINT_FRACTIONAL_DITHER
        &&& self.current_phase < FIXED_POINT_FRACTIONAL_DITHER
    }

    /// The comparison key of the peak search: the squared magnitude of
    /// the accumulator scaled down by the quantization range and the
    /// window length.
    pub open spec fn scaled_msq(&self) -> int {
        let re = crate::complex::tdiv(
            crate::complex::tdiv(self.complex.re as int, 32768),
            self.length as int,
        );
        let im = crate::complex::tdiv(
            crate::complex::tdiv(self.complex.im as int, 32768),
            self.length as int,
        );
        re * re + im * im
    }
}

impl ChannelSWDFT {
    /// Index of the first strongest entry among the first `j`.
    pub open spec fn first_max_upto(s: Seq<RawSSample>, j: int) -> int
        decreases j,
    {
        if j <= 1 {
            0
        } else {
            let p = Self::first_max_upto(s, j - 1);
            if s[j - 1].scaled_msq() > s[p].scaled_msq() {
                j - 1
            } else {
                p
            }
        }
    }

    /// Index of the first strongest raw bin: every entry is at most as
    /// strong, and every earlier entry strictly weaker.
    pub open spec fn first_max(s: Seq<RawSSample>) -> int {
        Self::first_max_upto(s, s.len() as int)
    }

    /// The running first-maximum dominates the scanned prefix.
    pub proof fn lemma_first_max_upto_props(s: Seq<RawSSample>, j: int)
        requires
            1 <= j <= s.len(),
        ensures
            0 <= Self::first_max_upto(s, j) < j,
            forall|i: int|
                0 <= i < j ==> (#[trigger] s[i]).scaled_msq() <= s[Self::first_max_upto(
                    s,
                    j,
                )].scaled_msq(),
            forall|i: int|
                0 <= i < Self::first_max_upto(s, j) ==> (#[trigger] s[i]).scaled_msq() < s[
                Self::first_max_upto(s, j)].scaled_msq(),
        decreases j,
    {
        if j > 1 {
            Self::lemma_first_max_upto_props(s, j - 1);
        }
    }

    /// Any index with the first-maximum's two properties is the
    /// first maximum.
    pub proof fn lemma_first_max_characterized(s: Seq<RawSSample>, m: int)
        requires
            1 <= s.len(),
            0 <= m < s.len(),
            forall|i: int|
                0 <= i < s.len() ==> (#[trigger] s[i]).scaled_msq() <= s[m].scaled_msq(),
            forall|i: int| 0 <= i < m ==> (#[trigger] s[i]).scaled_msq() < s[m].scaled_msq(),
        ensures
            m == Self::first_max(s),
    {
        Self::lemma_first_max_upto_props(s, s.len() as int);
        let w = Self::first_max(s);
        if w < m {
            assert(s[w].scaled_msq() < s[m].scaled_msq());
            assert(s[m].scaled_msq() <= s[w].scaled_msq());
        }
        if m < w {
            assert(s[m].scaled_msq() < s[w].scaled_msq());
            assert(s[w].scaled_msq() <= s[m].scaled_msq());
        }
    }

    /// Index of the first strongest raw bin.
    pub fn find_max_ssample(spectrum: &Vec<RawSSample>) -> (r: usize)
        requires
            spectrum@.len() >= 1,
            forall|i: int| 0 <= i < spectrum@.len() ==> (#[trigger] spectrum@[i]).wf(),
        ensures
            r < spectrum@.len(),
            forall|i: int|
                0 <= i < spectrum@.len() ==> (#[trigger] spectrum@[i]).scaled_msq()
                    <= spectrum@[r as int].scaled_msq(),
            forall|i: int|
                0 <= i < r ==> (#[trigger] spectrum@[i]).scaled_msq() < spectrum@[
                r as int].scaled_msq(),
            r == Self::first_max(spectrum@),
    {
        let n = spectrum.len();
        let mut max_val: i64 = -1;
        let mut max_index: usize = 0;
        let mut i: usize = 0;
        while i < n
            invariant
                n == spectrum@.len() >= 1,
                i <= n,
                forall|j: int| 0 <= j < spectrum@.len() ==> (#[trigger] spectrum@[j]).wf(),
                i == 0 ==> max_val == -1 && max_index == 0,
                i > 0 ==> max_index < i && max_val == spectrum@[max_index as int].scaled_msq(),
                forall|j: int|
                    0 <= j < i ==> (#[trigger] spectrum@[j]).scaled_msq() <= max_val,
                forall|j: int|
                    0 <= j < max_index ==> (#[trigger] spectrum@[j]).scaled_msq() < max_val,
            decreases n - i,
        {
            let s = &spectrum[i];
            proof {
                crate::complex::lemma_tdiv_bound(
                    s.complex.re as int,
                    32768,
                    ACC_BOUND as int,
                );
                crate::complex::lemma_tdiv_bound(
                    s.complex.im as int,
                    32768,
                    ACC_BOUND as int,
                );
                assert((ACC_BOUND as int) / 32768 == 0x7FFF_FFFF) by (nonlinear_arith)
                    requires ACC_BOUND == 32768 * 0x7FFF_FFFF,
                ;
                crate::complex::lemma_tdiv_bound(
                    crate::complex::tdiv(s.complex.re as int, 32768),
                    s.length as int,
                    0x7FFF_FFFF,
                );
                crate::complex::lemma_tdiv_bound(
                    crate::complex::tdiv(s.complex.im as int, 32768),
                    s.length as int,
                    0x7FFF_FFFF,
                );
                vstd::arithmetic::div_mod::lemma_div_is_ordered_by_denominator(
                    0x7FFF_FFFF,
                    1,
                    s.length as int,
                );
            }
            let re0 = s.complex.re / 32768;
            let im0 = s.complex.im / 32768;
            let re = re0 / (s.length as i64);
            let im = im0 / (s.length as i64);
            let c = crate::complex::ComplexI64 { re, im };
            let mag = c.magnitude_squared();
            if mag > max_val {
                max_val = mag;
                max_index = i;
            }
            i = i + 1;
        }
        proof {
            Self::lemma_first_max_characterized(spectrum@, max_index as int);
        }
        max_index
    }

    /// Table index of a signed dithered phase, reduced into one turn.
    fn mod_dither(x: i64) -> (r: u32)
        requires
            -0x80_0000_0000_0000 <= x <= 0x80_0000_0000_0000,
        ensures
            r == (x as int) % (FIXED_POINT_FRACTIONAL_DITHER as int),
    {
        let d: i64 = FIXED_POINT_FRACTIONAL_DITHER as i64;
        let t = x % d;
        let u = if t < 0 {
            t + d
        } else {
            t
        };
        proof {
            let xi = x as int;
            let di = d as int;
            vstd::arithmetic::div_mod::lemma_mod_bound(xi, di);
            if xi >= 0 {
                // truncating and Euclidean remainders agree
            } else {
                let m = (-xi) % di;
                vstd::arithmetic::div_mod::lemma_mod_bound(-xi, di);
                vstd::arithmetic::div_mod::lemma_fundamental_div_mod(-xi, di);
                if m == 0 {
                    vstd::arithmetic::div_mod::lemma_fundamental_div_mod_converse(
                        xi,
                        di,
                        -((-xi) / di),
                        0,
                    );
                } else {
                    vstd::arithmetic::div_mod::lemma_fundamental_div_mod_converse(
                        xi,
                        di,
                        -((-xi) / di) - 1,
                        di - m,
                    );
                }
            }
        }
        u as u32
    }

    /// The complex correction `subtract_sine` applies to one raw bin:
    /// the closed-form integral of the dominant sinusoid against the
    /// bin's local oscillator over the bin's window, evaluated on the
    /// sine table from the two bins' phase difference, with the
    /// near-zero frequency difference guarded.
    pub open spec fn subtract_delta(
        table: Seq<i16>,
        s: RawSSample,
        max_c: crate::complex::ComplexI64,
        max_pulse: int,
        max_phase: int,
    ) -> (int, int) {
        let dd = FIXED_POINT_FRACTIONAL_DITHER as int;
        let diff = s.pulsation - max_pulse;
        let theta1 = (max_phase - s.current_phase) % dd;
        let theta2 = (theta1 + (s.length as int) * diff) % dd;
        let c1 = crate::dftbin::osc_cos(table, theta1);
        let s1 = crate::dftbin::osc_sin(table, theta1);
        let c2 = crate::dftbin::osc_cos(table, theta2);
        let s2 = crate::dftbin::osc_sin(table, theta2);
        let dsin = (s1 - s2) * max_c.re - (c1 - c2) * max_c.im;
        let dcos = (c1 - c2) * max_c.re + (s1 - s2) * max_c.im;
        let dabs = if diff == 0 {
            1int
        } else if diff < 0 {
            -diff
        } else {
            diff
        };
        let num_re = if diff < 0 {
            dsin * (INV_TAU_SCALE as int)
        } else {
            -(dsin * (INV_TAU_SCALE as int))
        };
        let num_im = if diff < 0 {
            dcos * (INV_TAU_SCALE as int)
        } else {
            -(dcos * (INV_TAU_SCALE as int))
        };
        let delta_re = clamp_i64(
            crate::complex::tdiv(crate::complex::tdiv(num_re, dabs), (s.length as int) * 32767),
        );
        let delta_im = clamp_i64(
            crate::complex::tdiv(crate::complex::tdiv(num_im, dabs), (s.length as int) * 32767),
        );
        (delta_re, delta_im)
    }

    /// Analytically removes the dominant sinusoid's contribution from
    /// a neighborhood of every other bin's complex accumulator, and
    /// zeroes the dominant bin itself.  Corrections are clamped so the
    /// accumulators stay within their proven range.
    pub fn subtract_sine(
        max_index: usize,
        max_c: crate::complex::ComplexI64,
        max_pulse: u32,
        max_phase: u32,
        spectrum: &mut Vec<RawSSample>,
        trig: &TrigTable,
    )
        requires
            trig.wf(),
            old(spectrum)@.len() <= 0x10000,
            max_index < old(spectrum)@.len(),
            forall|i: int| 0 <= i < old(spectrum)@.len() ==> (#[trigger] old(spectrum)@[i]).wf(),
            max_c.abs_le(ACC_BOUND as int),
            max_pulse < FIXED_POINT_FRACTIONAL_DITHER,
            max_phase < FIXED_POINT_FRACTIONAL_DITHER,
        ensures
            final(spectrum)@.len() == old(spectrum)@.len(),
            forall|i: int| 0 <= i < final(spectrum)@.len() ==> (
            #[trigger] final(spectrum)@[i]).wf(),
            final(spectrum)@[max_index as int].complex.re == 0,
            final(spectrum)@[max_index as int].complex.im == 0,
            final(spectrum)@[max_index as int].color == old(spectrum)@[max_index as int].color,
            final(spectrum)@[max_index as int].length == old(
                spectrum,
            )@[max_index as int].length,
            final(spectrum)@[max_index as int].a_weight == old(
                spectrum,
            )@[max_index as int].a_weight,
            final(spectrum)@[max_index as int].pulsation == old(
                spectrum,
            )@[max_index as int].pulsation,
            final(spectrum)@[max_index as int].current_phase == old(
                spectrum,
            )@[max_index as int].current_phase,
            final(spectrum)@[max_index as int].octave_centi == old(
                spectrum,
            )@[max_index as int].octave_centi,
            forall|i: int|
                0 <= i < final(spectrum)@.len() && i != max_index && max_index - 120 <= i
                    < max_index + 120 ==> {
                    let delta = Self::subtract_delta(
                        trig@,
                        old(spectrum)@[i],
                        max_c,
                        max_pulse as int,
                        max_phase as int,
                    );
                    (#[trigger] final(spectrum)@[i]).complex.re == clamp_acc(
                        crate::wrap::wrap64(old(spectrum)@[i].complex.re - delta.0) as int,
                    ) && final(spectrum)@[i].complex.im == clamp_acc(
                        crate::wrap::wrap64(old(spectrum)@[i].complex.im - delta.1) as int,
                    ) && final(spectrum)@[i].color == old(spectrum)@[i].color
                        && final(spectrum)@[i].length == old(spectrum)@[i].length
                        && final(spectrum)@[i].a_weight == old(spectrum)@[i].a_weight
                        && final(spectrum)@[i].pulsation == old(spectrum)@[i].pulsation
                        && final(spectrum)@[i].current_phase == old(
                        spectrum)@[i].current_phase && final(spectrum)@[i].octave_centi == old(
                        spectrum)@[i].octave_centi
                },
            forall|i: int|
                0 <= i < final(spectrum)@.len() && i != max_index && !(max_index - 120 <= i
                    < max_index + 120) ==> #[trigger] final(spectrum)@[i] == old(spectrum)@[i],
    {
        let n = spectrum.len();
        let ai: usize = if max_index >= 120 {
            max_index - 120
        } else {
            0
        };
        let bi: usize = if max_index + 120 < n {
            max_index + 120
        } else {
            n
        };
        let mut i: usize = ai;
        while i < bi
            invariant
                trig.wf(),
                n == spectrum@.len(),
                n <= 0x10000,
                max_index < n,
                max_c.abs_le(ACC_BOUND as int),
                max_pulse < FIXED_POINT_FRACTIONAL_DITHER,
                max_phase < FIXED_POINT_FRACTIONAL_DITHER,
                ai == if max_index >= 120 { max_index - 120 } else { 0 },
                bi == if max_index + 120 < n { (max_index + 120) as int } else { n as int },
                ai <= i <= bi,
                bi <= n,
                forall|j: int| 0 <= j < spectrum@.len() ==> (#[trigger] spectrum@[j]).wf(),
                forall|j: int|
                    (0 <= j < ai || bi <= j < n) ==> #[trigger] spectrum@[j] == old(
                    spectrum)@[j],
                forall|j: int| i <= j < bi ==> #[trigger] spectrum@[j] == old(spectrum)@[j],
                forall|j: int|
                    ai <= j < i && j == max_index ==> (#[trigger] spectrum@[j]).complex.re == 0
                        && spectrum@[j].complex.im == 0 && spectrum@[j].color == old(
                    spectrum)@[j].color && spectrum@[j].length == old(spectrum)@[j].length
                        && spectrum@[j].a_weight == old(spectrum)@[j].a_weight && spectrum@[
                    j].pulsation == old(spectrum)@[j].pulsation && spectrum@[j].current_phase
                        == old(spectrum)@[j].current_phase && spectrum@[j].octave_centi == old(
                    spectrum)@[j].octave_centi,
                forall|j: int|
                    ai <= j < i && j != max_index ==> {
                        let delta = Self::subtract_delta(
                            trig@,
                            old(spectrum)@[j],
                            max_c,
                            max_pulse as int,
                            max_phase as int,
                        );
                        (#[trigger] spectrum@[j]).complex.re == clamp_acc(
                            crate::wrap::wrap64(old(spectrum)@[j].complex.re - delta.0) as int,
                        ) && spectrum@[j].complex.im == clamp_acc(
                            crate::wrap::wrap64(old(spectrum)@[j].complex.im - delta.1) as int,
                        ) && spectrum@[j].color == old(spectrum)@[j].color && spectrum@[j].length
                            == old(spectrum)@[j].length && spectrum@[j].a_weight == old(
                        spectrum)@[j].a_weight && spectrum@[j].pulsation == old(
                        spectrum)@[j].pulsation && spectrum@[j].current_phase == old(
                        spectrum)@[j].current_phase && spectrum@[j].octave_centi == old(
                        spectrum)@[j].octave_centi
                    },
            decreases bi - i,
        {
            if i == max_index {
                let e = &mut spectrum[i];
                e.complex.re = 0;
                e.complex.im = 0;
            } else {
                let ghost olds = spectrum@[i as int];
                let diff: i64 = spectrum[i].pulsation as i64 - max_pulse as i64;
                let ll: i64 = spectrum[i].length as i64;
                let theta1: u32 = Self::mod_dither(max_phase as i64 - spectrum[i].current_phase as i64);
                proof {
                    assert(-0x8_0000_0000_0000 <= (ll as int) * (diff as int)
                        <= 0x8_0000_0000_0000) by (nonlinear_arith)
                        requires
                            1 <= ll as int <= 0x10000,
                            -0x800_0000 <= diff as int <= 0x800_0000,
                    ;
                }
                let theta2: u32 = Self::mod_dither(theta1 as i64 + ll * diff);
                let und1 = crate::trig::fp_undither(theta1);
                let und2 = crate::trig::fp_undither(theta2);
                let c1 = trig.cos_fp(und1) as i64;
                let s1 = trig.sin_fp(und1) as i64;
                let c2 = trig.cos_fp(und2) as i64;
                let s2 = trig.sin_fp(und2) as i64;
                proof {
                    assert(forall|a: int, b: int|
                        -0x10000 <= a <= 0x10000 && -0x4000_0000_0000 <= b <= 0x4000_0000_0000
                            ==> -0x4_0000_0000_0000_0000 <= #[trigger] (a * b)
                            <= 0x4_0000_0000_0000_0000) by (nonlinear_arith);
                    assert(forall|a: int|
                        -0x8_0000_0000_0000_0000 <= a <= 0x8_0000_0000_0000_0000 ==>
                            -0x2000_0000_0000_0000_0000_0000 <= #[trigger] (a * (
                            INV_TAU_SCALE as int)) <= 0x2000_0000_0000_0000_0000_0000)
                        by (nonlinear_arith);
                }
                let dsin: i128 = ((s1 - s2) as i128) * (max_c.re as i128) - ((c1 - c2) as i128)
                    * (max_c.im as i128);
                let dcos: i128 = ((c1 - c2) as i128) * (max_c.re as i128) + ((s1 - s2) as i128)
                    * (max_c.im as i128);
                let dabs: i64 = if diff == 0 {
                    1
                } else if diff < 0 {
                    -diff
                } else {
                    diff
                };
                let num_re: i128 = if diff < 0 {
                    dsin * (INV_TAU_SCALE as i128)
                } else {
                    -(dsin * (INV_TAU_SCALE as i128))
                };
                let num_im: i128 = if diff < 0 {
                    dcos * (INV_TAU_SCALE as i128)
                } else {
                    -(dcos * (INV_TAU_SCALE as i128))
                };
                proof {
                    crate::complex::lemma_tdiv_bound(
                        num_re as int,
                        dabs as int,
                        0x2000_0000_0000_0000_0000_0000,
                    );
                    crate::complex::lemma_tdiv_bound(
                        num_im as int,
                        dabs as int,
                        0x2000_0000_0000_0000_0000_0000,
                    );
                }
                let q1_re: i128 = num_re / (dabs as i128);
                let q1_im: i128 = num_im / (dabs as i128);
                let lls: i64 = ll * 32767;
                proof {
                    crate::complex::lemma_tdiv_bound(
                        q1_re as int,
                        lls as int,
                        0x2000_0000_0000_0000_0000_0000,
                    );
                    crate::complex::lemma_tdiv_bound(
                        q1_im as int,
                        lls as int,
                        0x2000_0000_0000_0000_0000_0000,
                    );
                }
                let q2_re: i128 = q1_re / (lls as i128);
                let q2_im: i128 = q1_im / (lls as i128);
                let delta_re: i64 = if q2_re > i64::MAX as i128 {
                    i64::MAX
                } else if q2_re < i64::MIN as i128 {
                    i64::MIN
                } else {
                    q2_re as i64
                };
                let delta_im: i64 = if q2_im > i64::MAX as i128 {
                    i64::MAX
                } else if q2_im < i64::MIN as i128 {
                    i64::MIN
                } else {
                    q2_im as i64
                };
                let new_re_raw = spectrum[i].complex.re.wrapping_sub(delta_re);
                let new_im_raw = spectrum[i].complex.im.wrapping_sub(delta_im);
                let new_re: i64 = if new_re_raw > ACC_BOUND {
                    ACC_BOUND
                } else if new_re_raw < -ACC_BOUND {
                    -ACC_BOUND
                } else {
                    new_re_raw
                };
                let new_im: i64 = if new_im_raw > ACC_BOUND {
                    ACC_BOUND
                } else if new_im_raw < -ACC_BOUND {
                    -ACC_BOUND
                } else {
                    new_im_raw
                };
                proof {
                    crate::wrap::lemma_wrapping_sub64(olds.complex.re, delta_re);
                    crate::wrap::lemma_wrapping_sub64(olds.complex.im, delta_im);
                    let delta = Self::subtract_delta(
                        trig@,
                        olds,
                        max_c,
                        max_pulse as int,
                        max_phase as int,
                    );
                    assert(delta_re == delta.0 && delta_im == delta.1);
                }
                let e = &mut spectrum[i];
                e.complex.re = new_re;
                e.complex.im = new_im;
            }
            i = i + 1;
        }
    }
}


/// The raw spectrum after the dominant tone is removed: the dominant
/// bin's accumulator is zeroed, every bin within the subtraction
/// neighborhood gets the closed-form correction, everything else is
/// untouched.
pub open spec fn residual_spectrum(table: Seq<i16>, s: Seq<RawSSample>) -> Seq<RawSSample> {
    let m = ChannelSWDFT::first_max(s);
    Seq::new(s.len(), |i: int|
        if i == m {
            RawSSample {
                complex: crate::complex::ComplexI64 { re: 0, im: 0 },
                color: s[i].color,
                a_weight: s[i].a_weight,
                length: s[i].length,
                pulsation: s[i].pulsation,
                current_phase: s[i].current_phase,
                octave_centi: s[i].octave_centi,
            }
        } else if m - 120 <= i < m + 120 {
            let delta = ChannelSWDFT::subtract_delta(
                table,
                s[i],
                s[m].complex,
                s[m].pulsation as int,
                s[m].current_phase as int,
            );
            RawSSample {
                complex: crate::complex::ComplexI64 {
                    re: clamp_acc(crate::wrap::wrap64(s[i].complex.re - delta.0) as int) as i64,
                    im: clamp_acc(crate::wrap::wrap64(s[i].complex.im - delta.1) as int) as i64,
                },
                color: s[i].color,
                a_weight: s[i].a_weight,
                length: s[i].length,
                pulsation: s[i].pulsation,
                current_phase: s[i].current_phase,
                octave_centi: s[i].octave_centi,
            }
        } else {
            s[i]
        })
}

/// The peak record the dominant tone leaves behind.
pub open spec fn peak_of(s: Seq<RawSSample>) -> SPeak {
    let m = ChannelSWDFT::first_max(s);
    SPeak {
        probe_index: m as i32,
        value: ((crate::util::sqrt_floor(s[m].scaled_msq()) * s[m].a_weight) / 1000) as u64,
        color: s[m].color,
        octave_centi: s[m].octave_centi,
        alpha_milli: 1000,
    }
}

/// The raw spectrum after `j` successive dominant-tone removals.
pub open spec fn residual_iter(table: Seq<i16>, s: Seq<RawSSample>, j: int) -> Seq<RawSSample>
    decreases j,
{
    if j <= 0 {
        s
    } else {
        residual_spectrum(table, residual_iter(table, s, j - 1))
    }
}

impl ChannelSWDFT {
    /// Extracts the dominant tone: finds the strongest raw bin,
    /// records it as a peak, then analytically subtracts its sinusoid
    /// from the neighborhood so the next strongest tone can surface.
    pub fn subtract_peak(&self, spectrum: &mut Vec<RawSSample>) -> (r: SPeak)
        requires
            self.wf(),
            1 <= old(spectrum)@.len() <= 0x10000,
            forall|i: int| 0 <= i < old(spectrum)@.len() ==> (#[trigger] old(spectrum)@[i]).wf(),
        ensures
            final(spectrum)@.len() == old(spectrum)@.len(),
            forall|i: int| 0 <= i < final(spectrum)@.len() ==> (
            #[trigger] final(spectrum)@[i]).wf(),
            0 <= r.probe_index < old(spectrum)@.len(),
            forall|i: int|
                0 <= i < old(spectrum)@.len() ==> (#[trigger] old(spectrum)@[i]).scaled_msq()
                    <= old(spectrum)@[r.probe_index as int].scaled_msq(),
            r.value == (crate::util::sqrt_floor(
                old(spectrum)@[r.probe_index as int].scaled_msq(),
            ) * old(spectrum)@[r.probe_index as int].a_weight) / 1000,
            r.alpha_milli == 1000,
            final(spectrum)@[r.probe_index as int].complex.re == 0,
            final(spectrum)@[r.probe_index as int].complex.im == 0,
            r == peak_of(old(spectrum)@),
            final(spectrum)@ == residual_spectrum(self.trig@, old(spectrum)@),
    {
        let max_index = Self::find_max_ssample(spectrum);
        let max_c = spectrum[max_index].complex;
        let max_pulse = spectrum[max_index].pulsation;
        let max_phase = spectrum[max_index].current_phase;
        let s = &spectrum[max_index];
        proof {
            crate::complex::lemma_tdiv_bound(s.complex.re as int, 32768, ACC_BOUND as int);
            crate::complex::lemma_tdiv_bound(s.complex.im as int, 32768, ACC_BOUND as int);
            assert((ACC_BOUND as int) / 32768 == 0x7FFF_FFFF) by (nonlinear_arith)
                requires ACC_BOUND == 32768 * 0x7FFF_FFFF,
            ;
            crate::complex::lemma_tdiv_bound(
                crate::complex::tdiv(s.complex.re as int, 32768),
                s.length as int,
                0x7FFF_FFFF,
            );
            crate::complex::lemma_tdiv_bound(
                crate::complex::tdiv(s.complex.im as int, 32768),
                s.length as int,
                0x7FFF_FFFF,
            );
            vstd::arithmetic::div_mod::lemma_div_is_ordered_by_denominator(
                0x7FFF_FFFF,
                1,
                s.length as int,
            );
        }
        let re0 = s.complex.re / 32768;
        let im0 = s.complex.im / 32768;
        let re = re0 / (s.length as i64);
        let im = im0 / (s.length as i64);
        let c = crate::complex::ComplexI64 { re, im };
        let msq = c.magnitude_squared();
        let mag = crate::util::isqrt_u64(msq as u64);
        proof {
            assert(mag <= 0xB504_F33F) by (nonlinear_arith)
                requires
                    mag * mag <= 0x7FFF_FFFF_FFFF_FFFF,
                    0 <= mag,
            ;
            assert(mag * (s.a_weight as int) <= 0xB504_F33F * 0x10000) by (nonlinear_arith)
                requires 0 <= mag <= 0xB504_F33F, 0 <= s.a_weight <= 0x10000,
            ;
        }
        let value = (mag * (s.a_weight as u64)) / 1000;
        let peak = SPeak {
            value,
            probe_index: max_index as i32,
            color: s.color.clone(),
            octave_centi: s.octave_centi,
            alpha_milli: 1000,
        };
        Self::subtract_sine(max_index, max_c, max_pulse, max_phase, spectrum, &self.trig);
        proof {
            assert(spectrum@ =~= residual_spectrum(self.trig@, old(spectrum)@));
        }
        peak
    }

    /// Iteratively extracts the strongest tones, each time removing
    /// the found tone's contribution so masked neighbors can surface.
    /// Later peaks carry a decaying rendering alpha.
    pub fn subtraction_peaks(&self, spectrum: &mut Vec<RawSSample>) -> (r: Vec<SPeak>)
        requires
            self.wf(),
            1 <= old(spectrum)@.len() <= 0x10000,
            forall|i: int| 0 <= i < old(spectrum)@.len() ==> (#[trigger] old(spectrum)@[i]).wf(),
        ensures
            r@.len() == 15,
            forall|j: int|
                0 <= j < 15 ==> (#[trigger] r@[j]).alpha_milli == 1000 - (j * 1000) / 15,
            forall|j: int| 0 <= j < 15 ==> 0 <= (#[trigger] r@[j]).probe_index < old(
            spectrum)@.len(),
            // the j-th peak is exactly the dominant tone of the j-th
            // residual spectrum, alpha aside
            forall|j: int|
                0 <= j < 15 ==> {
                    let p = peak_of(residual_iter(self.trig@, old(spectrum)@, j));
                    (#[trigger] r@[j]).probe_index == p.probe_index && r@[j].value == p.value
                        && r@[j].color == p.color && r@[j].octave_centi == p.octave_centi
                },
            final(spectrum)@ == residual_iter(self.trig@, old(spectrum)@, 15),
    {
        let mut peaks: Vec<SPeak> = Vec::new();
        let n: usize = 15;
        let mut j: usize = 0;
        while j < n
            invariant
                self.wf(),
                n == 15,
                j <= n,
                spectrum@.len() == old(spectrum)@.len(),
                1 <= spectrum@.len() <= 0x10000,
                forall|i: int| 0 <= i < spectrum@.len() ==> (#[trigger] spectrum@[i]).wf(),
                spectrum@ == residual_iter(self.trig@, old(spectrum)@, j as int),
                peaks@.len() == j,
                forall|k: int|
                    0 <= k < j ==> (#[trigger] peaks@[k]).alpha_milli == 1000 - (k * 1000) / 15,
                forall|k: int| 0 <= k < j ==> 0 <= (#[trigger] peaks@[k]).probe_index < spectrum@.len(),
                forall|k: int|
                    0 <= k < j ==> {
                        let p = peak_of(residual_iter(self.trig@, old(spectrum)@, k));
                        (#[trigger] peaks@[k]).probe_index == p.probe_index && peaks@[k].value
                            == p.value && peaks@[k].color == p.color && peaks@[k].octave_centi
                            == p.octave_centi
                    },
            decreases n - j,
        {
            let mut peak = self.subtract_peak(spectrum);
            peak.alpha_milli = 1000 - ((j as u32) * 1000) / 15;
            peaks.push(peak);
            j = j + 1;
        }
        peaks
    }

    /// Sorts peaks by ascending perceptual octave; the same peaks come
    /// out that went in.
    pub fn sort_peaks(peaks: Vec<SPeak>) -> (r: Vec<SPeak>)
        ensures
            r@.len() == peaks@.len(),
            forall|a: int, b: int|
                0 <= a < b < r@.len() ==> (#[trigger] r@[a]).octave_centi <= (
                #[trigger] r@[b]).octave_centi,
            r@.to_multiset() == peaks@.to_multiset(),
    {
        let mut rem = peaks;
        let mut out: Vec<SPeak> = Vec::new();
        proof {
            broadcast use vstd::seq_lib::group_to_multiset_ensures;
        }
        while rem.len() > 0
            invariant
                out@.len() + rem@.len() == peaks@.len(),
                out@.to_multiset().add(rem@.to_multiset()) == peaks@.to_multiset(),
                forall|a: int, b: int|
                    0 <= a < b < out@.len() ==> (#[trigger] out@[a]).octave_centi <= (
                    #[trigger] out@[b]).octave_centi,
                forall|a: int, b: int|
                    0 <= a < out@.len() && 0 <= b < rem@.len() ==> (
                    #[trigger] out@[a]).octave_centi <= (#[trigger] rem@[b]).octave_centi,
            decreases rem@.len(),
        {
            let mut min_idx: usize = 0;
            let mut k: usize = 1;
            let rlen = rem.len();
            while k < rlen
                invariant
                    rlen == rem@.len(),
                    min_idx < k <= rlen,
                    forall|t: int|
                        0 <= t < k ==> rem@[min_idx as int].octave_centi <= (
                        #[trigger] rem@[t]).octave_centi,
                decreases rlen - k,
            {
                if rem[k].octave_centi < rem[min_idx].octave_centi {
                    min_idx = k;
                }
                k = k + 1;
            }
            let ghost prev_rem = rem@;
            let ghost prev_out = out@;
            let m = rem.remove(min_idx);
            out.push(m);
            proof {
                broadcast use vstd::seq_lib::group_to_multiset_ensures;
                assert(rem@.to_multiset() =~= prev_rem.to_multiset().remove(m));
                assert(out@.to_multiset() =~= prev_out.to_multiset().insert(m));
                assert(out@.to_multiset().add(rem@.to_multiset()) =~= prev_out.to_multiset().add(
                    prev_rem.to_multiset(),
                ));
            }
        }
        proof {
            broadcast use vstd::seq_lib::group_to_multiset_ensures;
            assert(rem@.to_multiset() =~= Multiset::<SPeak>::empty());
            assert(out@.to_multiset().add(Multiset::<SPeak>::empty()) =~= out@.to_multiset());
        }
        out
    }

    /// One bin's contribution to the spectrum power: its magnitude
    /// clamped into the safe range, squared.
    pub open spec fn power_term(v: u64) -> int {
        let cl = if v > 0x80_0000 {
            0x80_0000int
        } else {
            v as int
        };
        cl * cl
    }

    /// Sum of the clamped squared magnitudes of the first `j` bins.
    pub open spec fn power_sum_of(vs: Seq<u64>, j: int) -> int
        decreases j,
    {
        if j <= 0 {
            0
        } else {
            Self::power_sum_of(vs, j - 1) + Self::power_term(vs[j - 1])
        }
    }

    /// Sum of the squared samples of the first `j` entries.
    pub open spec fn signal_power_sum(s: Seq<i32>, j: int) -> int
        decreases j,
    {
        if j <= 0 {
            0
        } else {
            Self::signal_power_sum(s, j - 1) + (s[j - 1] as int) * (s[j - 1] as int)
        }
    }

    /// Spectrum power: the square root of the summed squared
    /// magnitudes (each clamped into a safe range), divided by the bin
    /// count; micro-units.
    pub fn power_of_spectrum(samples: &Vec<SSample>) -> (r: u64)
        requires
            1 <= samples@.len() <= 0x10000,
        ensures
            r <= 0x80_0000,
            r == ({
                let q = crate::util::sqrt_floor(
                    Self::power_sum_of(values_of(samples@), samples@.len() as int),
                ) / (samples@.len() as int);
                if q > 0x80_0000 {
                    0x80_0000int
                } else {
                    q
                }
            }),
    {
        let n = samples.len();
        let mut power_sum: u64 = 0;
        let mut i: usize = 0;
        while i < n
            invariant
                n == samples@.len() <= 0x10000,
                i <= n,
                power_sum <= (i as int) * 0x4000_0000_0000,
                power_sum == Self::power_sum_of(values_of(samples@), i as int),
            decreases n - i,
        {
            let v = samples[i].value;
            let cl: u64 = if v > 0x80_0000 {
                0x80_0000
            } else {
                v
            };
            proof {
                assert(cl * cl <= 0x4000_0000_0000) by (nonlinear_arith)
                    requires 0 <= cl <= 0x80_0000,
                ;
                assert((i as int) * 0x4000_0000_0000 + 0x4000_0000_0000 == (i as int + 1)
                    * 0x4000_0000_0000) by (nonlinear_arith);
                assert((i as int + 1) * 0x4000_0000_0000 <= 0x10000 * 0x4000_0000_0000)
                    by (nonlinear_arith)
                    requires i as int + 1 <= 0x10000,
                ;
            }
            power_sum = power_sum + cl * cl;
            i = i + 1;
        }
        let root = crate::util::isqrt_u64(power_sum);
        proof {
            assert(root <= 0x8000_0000) by (nonlinear_arith)
                requires
                    root * root <= 0x10000int * 0x4000_0000_0000,
                    0 <= root,
            ;
            vstd::arithmetic::div_mod::lemma_div_is_ordered_by_denominator(
                root as int,
                1,
                n as int,
            );
        }
        let r = root / (n as u64);
        if r > 0x80_0000 {
            0x80_0000
        } else {
            r
        }
    }

    /// Signal power of a quantized block: root of the mean squared
    /// sample, in micro-units of full scale.
    pub fn power_of_signal(samples: &[i32]) -> (r: u64)
        requires
            1 <= samples@.len() <= 0x10000000,
            forall|i: int| 0 <= i < samples@.len() ==> crate::ring::in_range(
                #[trigger] samples@[i] as int,
            ),
        ensures
            r <= 1_000_100,
            r == ({
                let micro = (crate::util::sqrt_floor(
                    Self::signal_power_sum(samples@, samples@.len() as int) / (
                    samples@.len() as int),
                ) * 1_000_000) / 32767;
                if micro > 1_000_100 {
                    1_000_100int
                } else {
                    micro
                }
            }),
    {
        let n = samples.len();
        let mut power_sum: u64 = 0;
        let mut i: usize = 0;
        while i < n
            invariant
                n == samples@.len() <= 0x10000000,
                i <= n,
                forall|j: int| 0 <= j < samples@.len() ==> crate::ring::in_range(
                    #[trigger] samples@[j] as int,
                ),
                power_sum <= (i as int) * 0x4000_0000,
                power_sum == Self::signal_power_sum(samples@, i as int),
            decreases n - i,
        {
            let v = samples[i];
            proof {
                assert(v * v <= 0x4000_0000) by (nonlinear_arith)
                    requires -32767 <= v <= 32767,
                ;
                assert(v * v >= 0) by (nonlinear_arith);
                assert((i as int) * 0x4000_0000 + 0x4000_0000 == (i as int + 1) * 0x4000_0000)
                    by (nonlinear_arith);
                assert((i as int + 1) * 0x4000_0000 <= 0x10000000 * 0x4000_0000)
                    by (nonlinear_arith)
                    requires i as int + 1 <= 0x10000000,
                ;
            }
            let vv: i64 = (v as i64) * (v as i64);
            power_sum = power_sum + (vv as u64);
            i = i + 1;
        }
        // scale the mean square into micro-units of full scale
        let mean_sq: u64 = power_sum / (n as u64);
        proof {
            vstd::arithmetic::div_mod::lemma_div_is_ordered_by_denominator(
                power_sum as int,
                1,
                n as int,
            );
            vstd::arithmetic::div_mod::lemma_div_is_ordered(
                power_sum as int,
                0x10000000int * 0x4000_0000,
                n as int,
            );
        }
        let root = crate::util::isqrt_u64(mean_sq);
        proof {
            assert(root <= 0x8000_0000) by (nonlinear_arith)
                requires
                    root * root <= 0x10000000int * 0x4000_0000,
                    0 <= root,
            ;
        }
        let micro = (root * 1_000_000) / 32767;
        if micro > 1_000_100 {
            1_000_100
        } else {
            micro
        }
    }
}


/// Gamma-weight of one collected bin in the color average: the square
/// of its magnitude, scaled down to keep the window sums in range.
pub open spec fn color_weight(x: SSample) -> int {
    let cv = if x.value > 0x100_0000_0000 {
        0x100_0000_0000int
    } else {
        x.value as int
    };
    let v2 = cv / 0x10000;
    v2 * v2
}

/// Sum of color weights over a half-open index window.
pub open spec fn win_weight(s: Seq<SSample>, from: int, to: int) -> int
    decreases to - from,
{
    if to <= from {
        0
    } else {
        win_weight(s, from, to - 1) + color_weight(s[to - 1])
    }
}

/// Weighted sum of one gamma channel over a window (0, 1 or 2).
pub open spec fn win_gamma(s: Seq<SSample>, ch: int, from: int, to: int) -> int
    decreases to - from,
{
    if to <= from {
        0
    } else {
        let g = if ch == 0 {
            s[to - 1].color.rgb_gamma.0 as int
        } else if ch == 1 {
            s[to - 1].color.rgb_gamma.1 as int
        } else {
            s[to - 1].color.rgb_gamma.2 as int
        };
        win_gamma(s, ch, from, to - 1) + color_weight(s[to - 1]) * g
    }
}

/// The energy-weighted neighborhood color of one bin: each channel is
/// the square root of the weighted mean of the neighbors' gamma-space
/// channels, weights being squared magnitudes over a 64-bin window.
pub open spec fn colorized_rgba(s: Seq<SSample>, i: int) -> int {
    let lo = if i >= 32 {
        i - 32
    } else {
        0
    };
    let hi = if i + 32 <= s.len() {
        i + 32
    } else {
        s.len() as int
    };
    let vsuma = 1 + win_weight(s, lo, hi);
    let rr = crate::util::sqrt_floor(win_gamma(s, 0, lo, hi) / vsuma);
    let gg = crate::util::sqrt_floor(win_gamma(s, 1, lo, hi) / vsuma);
    let bb = crate::util::sqrt_floor(win_gamma(s, 2, lo, hi) / vsuma);
    0xFF00_0000 + rr + gg * 0x100 + bb * 0x10000
}

impl ChannelSWDFT {
    /// Replaces each bin's color with the energy-weighted average
    /// color of its neighborhood, so strong tones tint the region
    /// around them.  Magnitudes and octaves are untouched.
    pub fn colorize_spectrum(spectrum: &mut Vec<SSample>, _peaks: &Vec<SPeak>)
        requires
            old(spectrum)@.len() <= 0x10000,
            forall|i: int| 0 <= i < old(spectrum)@.len() ==> (
            #[trigger] old(spectrum)@[i]).color.wf(),
        ensures
            final(spectrum)@.len() == old(spectrum)@.len(),
            forall|i: int|
                0 <= i < final(spectrum)@.len() ==> (#[trigger] final(spectrum)@[i]).value
                    == old(spectrum)@[i].value && final(spectrum)@[i].octave_centi == old(
                spectrum)@[i].octave_centi && final(spectrum)@[i].color.rgb_gamma == old(
                spectrum)@[i].color.rgb_gamma,
            forall|i: int|
                0 <= i < final(spectrum)@.len() ==> (#[trigger] final(spectrum)@[i]).color.rgba
                    == colorized_rgba(old(spectrum)@, i),
    {
        let ghost orig = old(spectrum)@;
        let n = spectrum.len();
        let mut i: usize = 0;
        while i < n
            invariant
                n == spectrum@.len() == orig.len() <= 0x10000,
                i <= n,
                forall|j: int|
                    0 <= j < n ==> (#[trigger] spectrum@[j]).value == orig[j].value
                        && spectrum@[j].octave_centi == orig[j].octave_centi
                        && spectrum@[j].color.rgb_gamma == orig[j].color.rgb_gamma,
                forall|j: int| 0 <= j < orig.len() ==> (#[trigger] orig[j]).color.wf(),
                forall|j: int|
                    0 <= j < i ==> (#[trigger] spectrum@[j]).color.rgba == colorized_rgba(
                        orig,
                        j,
                    ),
                forall|j: int|
                    i <= j < n ==> (#[trigger] spectrum@[j]).color.rgba == orig[j].color.rgba,
            decreases n - i,
        {
            let lo: usize = if i >= 32 {
                i - 32
            } else {
                0
            };
            let hi: usize = if i + 32 <= n {
                i + 32
            } else {
                n
            };
            let mut wsum: u64 = 0;
            let mut c0: u128 = 0;
            let mut c1: u128 = 0;
            let mut c2: u128 = 0;
            let mut j: usize = lo;
            while j < hi
                invariant
                    n == spectrum@.len() == orig.len() <= 0x10000,
                    lo <= j <= hi <= n,
                    hi - lo <= 64,
                    forall|t: int|
                        0 <= t < n ==> (#[trigger] spectrum@[t]).value == orig[t].value
                            && spectrum@[t].color.rgb_gamma == orig[t].color.rgb_gamma,
                    forall|t: int| 0 <= t < orig.len() ==> (#[trigger] orig[t]).color.wf(),
                    wsum == win_weight(orig, lo as int, j as int),
                    c0 == win_gamma(orig, 0, lo as int, j as int),
                    c1 == win_gamma(orig, 1, lo as int, j as int),
                    c2 == win_gamma(orig, 2, lo as int, j as int),
                    wsum <= (j - lo) * 0x100_0000_0000_0000,
                    c0 <= wsum * 0xFE01,
                    c1 <= wsum * 0xFE01,
                    c2 <= wsum * 0xFE01,
                decreases hi - j,
            {
                let v = spectrum[j].value;
                let cv: u64 = if v > 0x100_0000_0000 {
                    0x100_0000_0000
                } else {
                    v
                };
                let v2: u64 = cv / 0x10000;
                proof {
                    vstd::arithmetic::div_mod::lemma_div_is_ordered(
                        cv as int,
                        0x100_0000_0000,
                        0x10000,
                    );
                    vstd::arithmetic::div_mod::lemma_div_pos_is_pos(cv as int, 0x10000);
                    assert(v2 * v2 <= 0x100_0000_0000_0000) by (nonlinear_arith)
                        requires 0 <= v2 <= 0x100_0000_0000int / 0x10000,
                    ;
                    assert((j - lo) * 0x100_0000_0000_0000 + 0x100_0000_0000_0000 == (j - lo + 1)
                        * 0x100_0000_0000_0000) by (nonlinear_arith);
                    assert((j - lo + 1) * 0x100_0000_0000_0000 <= 64 * 0x100_0000_0000_0000)
                        by (nonlinear_arith)
                        requires j - lo + 1 <= 64,
                    ;
                }
                let uval: u64 = v2 * v2;
                let g = spectrum[j].color.rgb_gamma;
                proof {
                    assert(uval * (g.0 as int) <= uval * 0xFE01 && uval * (g.1 as int) <= uval
                        * 0xFE01 && uval * (g.2 as int) <= uval * 0xFE01 && 0 <= uval * (
                    g.0 as int) && 0 <= uval * (g.1 as int) && 0 <= uval * (g.2 as int))
                        by (nonlinear_arith)
                        requires
                            0 <= uval,
                            0 <= g.0 <= 0xFE01,
                            0 <= g.1 <= 0xFE01,
                            0 <= g.2 <= 0xFE01,
                    ;
                    assert(wsum * 0xFE01 + uval * 0xFE01 == (wsum + uval) * 0xFE01)
                        by (nonlinear_arith);
                    assert((wsum + uval) * 0xFE01 <= (64 * 0x100_0000_0000_0000) * 0xFE01)
                        by (nonlinear_arith)
                        requires 0 <= wsum + uval <= 64 * 0x100_0000_0000_0000,
                    ;
                }
                wsum = wsum + uval;
                c0 = c0 + (uval as u128) * (g.0 as u128);
                c1 = c1 + (uval as u128) * (g.1 as u128);
                c2 = c2 + (uval as u128) * (g.2 as u128);
                j = j + 1;
            }
            let vsuma: u64 = 1 + wsum;
            proof {
                assert(c0 <= wsum * 0xFE01 && wsum * 0xFE01 < (1 + wsum) * 0xFE01)
                    by (nonlinear_arith)
                    requires c0 <= wsum * 0xFE01, 0 <= wsum,
                ;
                assert(c1 < (1 + wsum) * 0xFE01 && c2 < (1 + wsum) * 0xFE01)
                    by (nonlinear_arith)
                    requires c1 <= wsum * 0xFE01, c2 <= wsum * 0xFE01, 0 <= wsum,
                ;
                vstd::arithmetic::div_mod::lemma_multiply_divide_lt(
                    c0 as int,
                    vsuma as int,
                    0xFE01,
                );
                vstd::arithmetic::div_mod::lemma_multiply_divide_lt(
                    c1 as int,
                    vsuma as int,
                    0xFE01,
                );
                vstd::arithmetic::div_mod::lemma_multiply_divide_lt(
                    c2 as int,
                    vsuma as int,
                    0xFE01,
                );
                vstd::arithmetic::div_mod::lemma_div_pos_is_pos(c0 as int, vsuma as int);
                vstd::arithmetic::div_mod::lemma_div_pos_is_pos(c1 as int, vsuma as int);
                vstd::arithmetic::div_mod::lemma_div_pos_is_pos(c2 as int, vsuma as int);
            }
            let rrq: u64 = (c0 / (vsuma as u128)) as u64;
            let ggq: u64 = (c1 / (vsuma as u128)) as u64;
            let bbq: u64 = (c2 / (vsuma as u128)) as u64;
            let rr = crate::util::isqrt_u64(rrq);
            let gg = crate::util::isqrt_u64(ggq);
            let bb = crate::util::isqrt_u64(bbq);
            proof {
                assert(rr <= 0xFF && gg <= 0xFF && bb <= 0xFF) by (nonlinear_arith)
                    requires
                        rr * rr <= 0xFE01 && 0 <= rr,
                        gg * gg <= 0xFE01 && 0 <= gg,
                        bb * bb <= 0xFE01 && 0 <= bb,
                ;
            }
            let calc_rgba: u32 = 0xFF00_0000 + (rr as u32) + (gg as u32) * 0x100 + (bb as u32)
                * 0x10000;
            let e = &mut spectrum[i];
            e.color.rgba = calc_rgba;
            i = i + 1;
        }
    }

    /// Resets every bin's color to plain white.
    pub fn decolorize_spectrum(spectrum: &mut Vec<SSample>)
        ensures
            final(spectrum)@.len() == old(spectrum)@.len(),
            forall|i: int|
                0 <= i < final(spectrum)@.len() ==> (#[trigger] final(spectrum)@[i]).value
                    == old(spectrum)@[i].value && final(spectrum)@[i].octave_centi == old(
                spectrum)@[i].octave_centi && final(spectrum)@[i].color.rgba == 0xFFFF_FFFF,
    {
        let n = spectrum.len();
        let mut i: usize = 0;
        while i < n
            invariant
                n == spectrum@.len(),
                i <= n,
                forall|j: int|
                    0 <= j < n ==> (#[trigger] spectrum@[j]).value == old(spectrum)@[j].value
                        && spectrum@[j].octave_centi == old(spectrum)@[j].octave_centi,
                forall|j: int|
                    0 <= j < i ==> (#[trigger] spectrum@[j]).color.rgba == 0xFFFF_FFFF,
            decreases n - i,
        {
            let e = &mut spectrum[i];
            e.color = SColor::new(0xFFFFFFFF);
            i = i + 1;
        }
    }
}


impl ChannelSWDFT {
    /// Assembles one immutable snapshot: per-bin magnitude and color,
    /// detected peaks sorted by octave, the gain at collection time
    /// and the display-oriented state.
    pub fn collect_spectrum(&self) -> (r: Collected)
        requires
            self.wf(),
        ensures
            r.spectrum@.len() == self.spectrum_bins.bin_count(),
            r.cur_rolling_gain == self.rolling_gain,
            r.peaks is Some,
            r.rendered is None,
            r.snapshot.collect_every == self.collect_every,
            r.snapshot.collect_frequency == self.collect_frequency,
            r.snapshot.window_kernel_len == self.collector.kernel@.len(),
            r.snapshot.window_type == self.collector.windowtype,
            (r.snapshot.current_algo == SpectrumBinsState::DFT) <==> (self.spectrum_bins
                is DFT),
            match self.spectrum_bins {
                SpectrumBins::DFT(bins) => forall|i: int|
                    0 <= i < bins@.len() ==> (#[trigger] r.spectrum@[i]).value
                        == dft_value_spec(
                        bins@[i].bin.hist@,
                        bins@[i].bin.current_length as int,
                        bins@[i].bin.length as int,
                        self.collector.kernel@,
                        self.collector.kernel_sum as int,
                        bins@[i].meta.a_weight_milli as int,
                    ) && r.spectrum@[i].octave_centi == bins@[i].meta.octave_centi,
                SpectrumBins::NC(bins) => forall|i: int|
                    0 <= i < bins@.len() ==> (#[trigger] r.spectrum@[i]).value == nc_value_spec(
                        self.trig@,
                        bins@[i].bina.hist@,
                        bins@[i].bina.current_length as int,
                        bins@[i].bina.length as int,
                        bins@[i].bina.current_phase as int,
                        bins@[i].binb.hist@,
                        bins@[i].binb.current_length as int,
                        bins@[i].binb.length as int,
                        bins@[i].binb.current_phase as int,
                        bins@[i].meta.a_weight_milli as int,
                    ) && r.spectrum@[i].octave_centi == bins@[i].meta.octave_centi,
            },
            match r.peaks {
                Some(ps) => forall|a: int, b: int|
                    0 <= a < b < ps@.len() ==> (#[trigger] ps@[a]).octave_centi <= (
                    #[trigger] ps@[b]).octave_centi,
                None => false,
            },
            self.config.subtraction_peaks && self.spectrum_bins is DFT
                ==> r.peaks->Some_0@.len() == 15,
            !(self.config.subtraction_peaks && self.spectrum_bins is DFT)
                ==> r.peaks->Some_0@.len() == Self::peak_indices(
                Self::smoothed_seq(values_of(r.spectrum@)),
                r.spectrum@.len() as int,
            ).len(),
            forall|i: int|
                0 <= i < r.spectrum@.len() ==> (#[trigger] r.spectrum@[i]).value
                    <= 0x1000_0000_0000_0000,
            // colors: the bins' cached colors, or their energy-weighted
            // neighborhood average when colorization is on
            !self.should_colorize ==> r.spectrum@ == collected_samples(*self),
            self.should_colorize ==> r.spectrum@.len() == collected_samples(*self).len()
                && forall|i: int|
                0 <= i < r.spectrum@.len() ==> (#[trigger] r.spectrum@[i]).value
                    == collected_samples(*self)[i].value && r.spectrum@[i].octave_centi
                    == collected_samples(*self)[i].octave_centi
                    && r.spectrum@[i].color.rgb_gamma == collected_samples(
                    *self,
                )[i].color.rgb_gamma && r.spectrum@[i].color.rgba == colorized_rgba(
                    collected_samples(*self),
                    i,
                ),
    {
        let kernel_sum = self.collector.kernel_sum;
        let mut spectrum: Vec<SSample> = Vec::new();
        match &self.spectrum_bins {
            SpectrumBins::DFT(bins) => {
                let n = bins.len();
                let mut i: usize = 0;
                while i < n
                    invariant
                        self.wf(),
                        self.spectrum_bins is DFT,
                        bins == self.spectrum_bins->DFT_0,
                        n == bins@.len(),
                        i == spectrum@.len() <= n,
                        kernel_sum == self.collector.kernel_sum,
                        forall|j: int|
                            0 <= j < i ==> (#[trigger] spectrum@[j]).value == dft_value_spec(
                                bins@[j].bin.hist@,
                                bins@[j].bin.current_length as int,
                                bins@[j].bin.length as int,
                                self.collector.kernel@,
                                self.collector.kernel_sum as int,
                                bins@[j].meta.a_weight_milli as int,
                            ) && spectrum@[j].octave_centi == bins@[j].meta.octave_centi
                                && spectrum@[j].color == bins@[j].meta.color
                                && spectrum@[j].color.wf() && spectrum@[j].value
                                <= 0x1000_0000_0000_0000,
                    decreases n - i,
                {
                    let b = &bins[i];
                    let value = Self::dft_magnitude(
                        &b.bin,
                        self.collector.kernel.as_slice(),
                        kernel_sum,
                        b.meta.a_weight_milli,
                    );
                    spectrum.push(
                        SSample {
                            value,
                            color: b.meta.color.clone(),
                            octave_centi: b.meta.octave_centi,
                        },
                    );
                    i = i + 1;
                }
            },
            SpectrumBins::NC(bins) => {
                let n = bins.len();
                let mut i: usize = 0;
                while i < n
                    invariant
                        self.wf(),
                        self.spectrum_bins is NC,
                        bins == self.spectrum_bins->NC_0,
                        n == bins@.len(),
                        i == spectrum@.len() <= n,
                        forall|j: int|
                            0 <= j < i ==> (#[trigger] spectrum@[j]).value == nc_value_spec(
                                self.trig@,
                                bins@[j].bina.hist@,
                                bins@[j].bina.current_length as int,
                                bins@[j].bina.length as int,
                                bins@[j].bina.current_phase as int,
                                bins@[j].binb.hist@,
                                bins@[j].binb.current_length as int,
                                bins@[j].binb.length as int,
                                bins@[j].binb.current_phase as int,
                                bins@[j].meta.a_weight_milli as int,
                            ) && spectrum@[j].octave_centi == bins@[j].meta.octave_centi
                                && spectrum@[j].color == bins@[j].meta.color
                                && spectrum@[j].color.wf() && spectrum@[j].value
                                <= 0x1000_0000_0000_0000,
                    decreases n - i,
                {
                    let b = &bins[i];
                    let value = Self::nc_magnitude(
                        &b.bina,
                        &b.binb,
                        &self.trig,
                        b.meta.a_weight_milli,
                    );
                    spectrum.push(
                        SSample {
                            value,
                            color: b.meta.color.clone(),
                            octave_centi: b.meta.octave_centi,
                        },
                    );
                    i = i + 1;
                }
            },
        }
        proof {
            assert(spectrum@ =~= collected_samples(*self));
        }
        // peak extraction: analytic subtraction where configured and
        // possible, the smoothed local-maximum scan otherwise
        let mut peaks_v: Vec<SPeak>;
        if self.config.subtraction_peaks {
            match &self.spectrum_bins {
                SpectrumBins::DFT(bins) => {
                    let n = bins.len();
                    let mut raws: Vec<RawSSample> = Vec::new();
                    let mut i: usize = 0;
                    while i < n
                        invariant
                            self.wf(),
                            self.spectrum_bins is DFT,
                            bins == self.spectrum_bins->DFT_0,
                            n == bins@.len(),
                            i == raws@.len() <= n,
                            forall|j: int| 0 <= j < i ==> (#[trigger] raws@[j]).wf(),
                        decreases n - i,
                    {
                        let b = &bins[i];
                        let complex = if b.bin.current_length >= 1 {
                            let c = b.bin.sum_ranged_all();
                            proof {
                                let tb = crate::terms::TERM_BOUND as int;
                                assert((b.bin.current_length - 1) * tb <= 0xFFFF * tb
                                    && 0xFFFF * tb <= ACC_BOUND as int) by (nonlinear_arith)
                                    requires
                                        0 <= b.bin.current_length - 1 <= 0xFFFF,
                                        tb == 0x4000_0000,
                                        ACC_BOUND == 32768 * 0x7FFF_FFFF,
                                ;
                            }
                            c
                        } else {
                            crate::complex::ComplexI64 { re: 0, im: 0 }
                        };
                        raws.push(
                            RawSSample {
                                complex,
                                color: b.meta.color.clone(),
                                a_weight: b.meta.a_weight_milli as i64,
                                length: b.bin.length as u32,
                                pulsation: b.bin.pulsation,
                                current_phase: b.bin.current_phase,
                                octave_centi: b.meta.octave_centi,
                            },
                        );
                        i = i + 1;
                    }
                    peaks_v = self.subtraction_peaks(&mut raws);
                },
                _ => {
                    peaks_v = self.simple_peaks(&spectrum);
                },
            }
        } else {
            peaks_v = self.simple_peaks(&spectrum);
        }
        let ghost values_at_peaks = values_of(spectrum@);
        let peaks_sorted = Self::sort_peaks(peaks_v);
        if self.should_colorize {
            Self::colorize_spectrum(&mut spectrum, &peaks_sorted);
            proof {
                assert(values_of(spectrum@) =~= values_at_peaks);
            }
        }
        let snapshot = StateSnapshot {
            current_algo: self.spectrum_bins.state(),
            window_type: self.collector.windowtype,
            collect_every: self.collect_every,
            collect_frequency: self.collect_frequency,
            window_kernel_len: self.collector.kernel.len(),
        };
        Collected {
            cur_rolling_gain: self.rolling_gain,
            spectrum,
            peaks: Some(peaks_sorted),
            rendered: None,
            snapshot,
        }
    }

    /// How many collection boundaries a block of `len` samples
    /// crosses, starting `rem0` samples before the first boundary
    /// with boundaries every `ce` samples after it.
    pub open spec fn collections_of(len: int, rem0: int, ce: int) -> int {
        if len < rem0 {
            0
        } else {
            1 + (len - rem0) / ce
        }
    }

    /// The samples left to the next boundary after such a block.
    pub open spec fn remaining_after(len: int, rem0: int, ce: int) -> int {
        if len < rem0 {
            rem0 - len
        } else {
            ce - ((len - rem0) % ce)
        }
    }

    /// The snapshot counter after one more collection.
    pub open spec fn bump(c: int) -> int {
        if c < usize::MAX {
            c + 1
        } else {
            0
        }
    }

    /// How many downsampled samples reach the bins when a block of
    /// `len` samples is consumed in boundary-sized chunks: each chunk
    /// is halved separately.
    pub open spec fn advanced_total(len: int, rem0: int, ce: int) -> int
        decreases len,
            when 1 <= rem0
    {
        if len <= 0 {
            0
        } else {
            let c = if rem0 < len {
                rem0
            } else {
                len
            };
            c / 2 + Self::advanced_total(len - c, ce, ce)
        }
    }

    /// Every how many collections the gain tracker is refreshed.
    pub open spec fn agc_interval(cf: int) -> int {
        if cf / 60 >= 1 {
            cf / 60
        } else {
            1
        }
    }

    /// The snapshot counter after `k` collections.
    pub open spec fn bump_n(c: int, k: int) -> int
        decreases k,
    {
        if k <= 0 {
            c
        } else {
            Self::bump(Self::bump_n(c, k - 1))
        }
    }

    /// A chunk that stops short of the boundary just shortens the
    /// countdown.
    pub proof fn lemma_partial_step(start: int, d: int, rem0: int, ce: int)
        requires
            1 <= ce,
            1 <= rem0,
            0 <= start,
            0 <= d < Self::remaining_after(start, rem0, ce),
        ensures
            Self::collections_of(start + d, rem0, ce) == Self::collections_of(start, rem0, ce),
            Self::remaining_after(start + d, rem0, ce) == Self::remaining_after(start, rem0, ce)
                - d,
    {
        if start < rem0 {
            // still before the first boundary
        } else {
            let x = start - rem0;
            vstd::arithmetic::div_mod::lemma_mod_bound(x, ce);
            crate::util::lemma_mod_shift(x, d, ce);
            vstd::arithmetic::div_mod::lemma_small_mod((x % ce + d) as nat, ce as nat);
            vstd::arithmetic::div_mod::lemma_fundamental_div_mod(x, ce);
            vstd::arithmetic::div_mod::lemma_fundamental_div_mod(x + d, ce);
            vstd::arithmetic::div_mod::lemma_fundamental_div_mod_converse(
                x + d,
                ce,
                x / ce,
                x % ce + d,
            );
        }
    }

    /// A chunk that exactly reaches the boundary crosses it and
    /// restarts the countdown at the full period.
    pub proof fn lemma_boundary_step(start: int, rem0: int, ce: int)
        requires
            1 <= ce,
            1 <= rem0,
            0 <= start,
        ensures
            ({
                let rem = Self::remaining_after(start, rem0, ce);
                &&& Self::collections_of(start + rem, rem0, ce) == Self::collections_of(
                    start,
                    rem0,
                    ce,
                ) + 1
                &&& Self::remaining_after(start + rem, rem0, ce) == ce
            }),
    {
        let rem = Self::remaining_after(start, rem0, ce);
        if start < rem0 {
            // the chunk ends exactly on the first boundary
            assert(start + rem == rem0);
            vstd::arithmetic::div_mod::lemma_small_mod(0nat, ce as nat);
            vstd::arithmetic::div_mod::lemma_div_of0(ce);
        } else {
            let x = start - rem0;
            vstd::arithmetic::div_mod::lemma_mod_bound(x, ce);
            vstd::arithmetic::div_mod::lemma_fundamental_div_mod(x, ce);
            // the chunk end lands on the next multiple of the period
            assert(x + rem == (x / ce + 1) * ce) by (nonlinear_arith)
                requires
                    rem == ce - x % ce,
                    x == ce * (x / ce) + x % ce,
            ;
            vstd::arithmetic::div_mod::lemma_mod_multiples_basic(x / ce + 1, ce);
            vstd::arithmetic::div_mod::lemma_div_by_multiple(x / ce + 1, ce);
            assert((x / ce + 1) * ce == ce * (x / ce + 1)) by (nonlinear_arith);
        }
    }

    /// Drives the engine with one PCM block: processes it in chunks
    /// sized to hit the next collection boundary, collecting a
    /// snapshot (and occasionally refreshing the gain tracker) at each
    /// boundary.  A paused engine ignores input entirely; otherwise
    /// exactly one snapshot goes out per boundary crossed, and the
    /// countdown to the next boundary continues across calls.
    pub fn on_input(&mut self, input: &[i32])
        requires
            old(self).wf(),
            forall|i: int| 0 <= i < input@.len() ==> crate::ring::in_range(
                #[trigger] input@[i] as int,
            ),
            input@.len() <= 0x100000,
        ensures
            final(self).wf(),
            final(self).paused == old(self).paused,
            old(self).paused ==> *final(self) == *old(self),
            !old(self).paused ==> Self::bins_extended(
                old(self).spectrum_bins,
                final(self).spectrum_bins,
            ),
            // every bin accumulates exactly the downsampled block
            !old(self).paused ==> ({
                let grown = Self::advanced_total(
                    input@.len() as int,
                    old(self).samples_to_collect_remaining as int,
                    old(self).collect_every as int,
                );
                match (old(self).spectrum_bins, final(self).spectrum_bins) {
                    (SpectrumBins::DFT(ob), SpectrumBins::DFT(nb)) => forall|i: int|
                        0 <= i < ob@.len() ==> (#[trigger] nb@[i]).bin.hist@.len() == ob@[
                        i].bin.hist@.len() + grown,
                    (SpectrumBins::NC(ob), SpectrumBins::NC(nb)) => forall|i: int|
                        0 <= i < ob@.len() ==> (#[trigger] nb@[i]).bina.hist@.len() == ob@[
                        i].bina.hist@.len() + grown && nb@[i].binb.hist@.len() == ob@[
                        i].binb.hist@.len() + grown,
                    _ => false,
                }
            }),
            !old(self).paused ==> final(self).measure_bins@.len() == old(
                self,
            ).measure_bins@.len() && forall|i: int|
                0 <= i < old(self).measure_bins@.len() ==> Self::bin_extended(
                    #[trigger] old(self).measure_bins@[i],
                    final(self).measure_bins@[i],
                ),
            // every snapshot sent during this call has the engine's
            // shape: per-bin samples, peaks, and the frozen state
            !old(self).paused ==> ({
                let k = Self::collections_of(
                    input@.len() as int,
                    old(self).samples_to_collect_remaining as int,
                    old(self).collect_every as int,
                );
                let kept = vstd::math::min(k, old(self).collected_spectrums.cap());
                forall|t: int|
                    final(self).collected_spectrums@.len() - kept <= t < final(
                    self).collected_spectrums@.len() ==> snapshot_shape(
                        #[trigger] final(self).collected_spectrums@[t],
                        *old(self),
                    )
            }),
            // the gain tracker moves only on collections that hit the
            // refresh cadence
            !old(self).paused ==> ({
                let k = Self::collections_of(
                    input@.len() as int,
                    old(self).samples_to_collect_remaining as int,
                    old(self).collect_every as int,
                );
                (forall|j: int|
                    0 <= j < k ==> Self::bump_n(old(self).collected_counter as int, j)
                        % Self::agc_interval(old(self).collect_frequency as int) != 0)
                    ==> final(self).rolling_gain == old(self).rolling_gain && final(
                    self).current_power == old(self).current_power
            }),
            !old(self).paused ==> ({
                let k = Self::collections_of(
                    input@.len() as int,
                    old(self).samples_to_collect_remaining as int,
                    old(self).collect_every as int,
                );
                &&& final(self).collected_counter == Self::bump_n(
                    old(self).collected_counter as int,
                    k,
                )
                &&& final(self).samples_to_collect_remaining == Self::remaining_after(
                    input@.len() as int,
                    old(self).samples_to_collect_remaining as int,
                    old(self).collect_every as int,
                )
                &&& final(self).collected_spectrums@.len() == vstd::math::min(
                    old(self).collected_spectrums@.len() + k,
                    old(self).collected_spectrums.cap(),
                )
                &&& final(self).collect_every == old(self).collect_every
                &&& final(self).collect_frequency == old(self).collect_frequency
                &&& final(self).config == old(self).config
                &&& final(self).collector == old(self).collector
                &&& final(self).trig == old(self).trig
            }),
    {
        if self.paused {
            return;
        }
        let total = input.len();
        let ghost rem0 = old(self).samples_to_collect_remaining as int;
        let ghost ce = old(self).collect_every as int;
        let mut start: usize = 0;
        proof {
            vstd::arithmetic::div_mod::lemma_mod_self_0(ce);
            self.collected_spectrums.lemma_wf_len();
            // the untouched engine is trivially an extension of itself
            let cur = *self;
            match cur.spectrum_bins {
                SpectrumBins::DFT(bins) => {
                    assert forall|t: int| 0 <= t < bins@.len() implies Self::bin_extended(
                        (#[trigger] bins@[t]).bin,
                        bins@[t].bin,
                    ) by {
                        lemma_hist_prefix_refl(bins@[t].bin.hist@);
                    }
                },
                SpectrumBins::NC(bins) => {
                    assert forall|t: int| 0 <= t < bins@.len() implies Self::bin_extended(
                        (#[trigger] bins@[t]).bina,
                        bins@[t].bina,
                    ) && Self::bin_extended(bins@[t].binb, bins@[t].binb) by {
                        lemma_hist_prefix_refl(bins@[t].bina.hist@);
                        lemma_hist_prefix_refl(bins@[t].binb.hist@);
                    }
                },
            }
            assert forall|t: int| 0 <= t < self.measure_bins@.len() implies Self::bin_extended(
                #[trigger] self.measure_bins@[t],
                self.measure_bins@[t],
            ) by {
                lemma_hist_prefix_refl(self.measure_bins@[t].hist@);
            }
        }
        while start < total
            invariant
                self.wf(),
                total == input@.len() <= 0x100000,
                start <= total,
                self.paused == old(self).paused,
                !self.paused,
                rem0 == old(self).samples_to_collect_remaining as int,
                ce == old(self).collect_every as int,
                1 <= rem0 <= ce,
                1 <= ce <= 0x100000,
                self.collect_every == old(self).collect_every,
                self.collect_frequency == old(self).collect_frequency,
                self.config == old(self).config,
                self.collector == old(self).collector,
                self.trig == old(self).trig,
                self.collected_counter == Self::bump_n(
                    old(self).collected_counter as int,
                    Self::collections_of(start as int, rem0, ce),
                ),
                self.samples_to_collect_remaining == Self::remaining_after(
                    start as int,
                    rem0,
                    ce,
                ),
                self.collected_spectrums.cap() == old(self).collected_spectrums.cap(),
                self.collected_spectrums@.len() == vstd::math::min(
                    old(self).collected_spectrums@.len() + Self::collections_of(
                        start as int,
                        rem0,
                        ce,
                    ),
                    old(self).collected_spectrums.cap(),
                ),
                Self::bins_extended(old(self).spectrum_bins, self.spectrum_bins),
                ({
                    let grown = Self::advanced_total(total as int, rem0, ce)
                        - Self::advanced_total(
                        total - start,
                        self.samples_to_collect_remaining as int,
                        ce,
                    );
                    match (old(self).spectrum_bins, self.spectrum_bins) {
                        (SpectrumBins::DFT(ob), SpectrumBins::DFT(nb)) => forall|i: int|
                            0 <= i < ob@.len() ==> (#[trigger] nb@[i]).bin.hist@.len() == ob@[
                            i].bin.hist@.len() + grown,
                        (SpectrumBins::NC(ob), SpectrumBins::NC(nb)) => forall|i: int|
                            0 <= i < ob@.len() ==> (#[trigger] nb@[i]).bina.hist@.len() == ob@[
                            i].bina.hist@.len() + grown && nb@[i].binb.hist@.len() == ob@[
                            i].binb.hist@.len() + grown,
                        _ => false,
                    }
                }),
                self.measure_bins@.len() == old(self).measure_bins@.len(),
                forall|t: int|
                    0 <= t < old(self).measure_bins@.len() ==> Self::bin_extended(
                        #[trigger] old(self).measure_bins@[t],
                        self.measure_bins@[t],
                    ),
                (forall|j: int|
                    0 <= j < Self::collections_of(start as int, rem0, ce) ==> Self::bump_n(
                        old(self).collected_counter as int,
                        j,
                    ) % Self::agc_interval(old(self).collect_frequency as int) != 0)
                    ==> self.rolling_gain == old(self).rolling_gain && self.current_power
                    == old(self).current_power,
                forall|t: int|
                    self.collected_spectrums@.len() - vstd::math::min(
                        Self::collections_of(start as int, rem0, ce),
                        old(self).collected_spectrums.cap(),
                    ) <= t < self.collected_spectrums@.len() ==> snapshot_shape(
                        #[trigger] self.collected_spectrums@[t],
                        *old(self),
                    ),
                forall|i: int| 0 <= i < input@.len() ==> crate::ring::in_range(
                    #[trigger] input@[i] as int,
                ),
            decreases total - start,
        {
            let mut rem = self.samples_to_collect_remaining;
            if total - start < rem {
                rem = total - start;
            }
            proof {
                if (rem as int) < Self::remaining_after(start as int, rem0, ce) {
                    Self::lemma_partial_step(start as int, rem as int, rem0, ce);
                } else {
                    Self::lemma_boundary_step(start as int, rem0, ce);
                }
            }
            let chunk = vstd::slice::slice_subrange(input, start, start + rem);
            let ghost prev = *self;
            self.process_input(chunk);
            proof {
                // each bin only appended terms, so extension composes
                let cur = *self;
                let table = self.trig@;
                let rs = self.rings@[1].ring_samples@;
                let ro = self.rings@[1].ring_offset as int;
                let nn = (chunk@.len() / 2) as int;
                match (old(self).spectrum_bins, prev.spectrum_bins, cur.spectrum_bins) {
                    (
                        SpectrumBins::DFT(ob),
                        SpectrumBins::DFT(pb),
                        SpectrumBins::DFT(nb),
                    ) => {
                        assert forall|t: int| 0 <= t < ob@.len() implies Self::bin_extended(
                            (#[trigger] ob@[t]).bin,
                            nb@[t].bin,
                        ) && nb@[t].meta == ob@[t].meta by {
                            lemma_hist_prefix_append(
                                ob@[t].bin.hist@,
                                pb@[t].bin.hist@,
                                crate::dftbin::advance_terms(
                                    table,
                                    rs,
                                    ro,
                                    nn,
                                    pb@[t].bin.current_phase as int,
                                    pb@[t].bin.pulsation as int,
                                ),
                            );
                        }
                    },
                    (SpectrumBins::NC(ob), SpectrumBins::NC(pb), SpectrumBins::NC(nb)) => {
                        assert forall|t: int| 0 <= t < ob@.len() implies Self::bin_extended(
                            (#[trigger] ob@[t]).bina,
                            nb@[t].bina,
                        ) && Self::bin_extended(ob@[t].binb, nb@[t].binb) && nb@[t].meta
                            == ob@[t].meta by {
                            lemma_hist_prefix_append(
                                ob@[t].bina.hist@,
                                pb@[t].bina.hist@,
                                crate::dftbin::advance_terms(
                                    table,
                                    rs,
                                    ro,
                                    nn,
                                    pb@[t].bina.current_phase as int,
                                    pb@[t].bina.pulsation as int,
                                ),
                            );
                            lemma_hist_prefix_append(
                                ob@[t].binb.hist@,
                                pb@[t].binb.hist@,
                                crate::dftbin::advance_terms(
                                    table,
                                    rs,
                                    ro,
                                    nn,
                                    pb@[t].binb.current_phase as int,
                                    pb@[t].binb.pulsation as int,
                                ),
                            );
                        }
                    },
                    _ => {},
                }
                assert forall|t: int| 0 <= t < old(self).measure_bins@.len()
                    implies Self::bin_extended(
                    #[trigger] old(self).measure_bins@[t],
                    self.measure_bins@[t],
                ) by {
                    lemma_hist_prefix_append(
                        old(self).measure_bins@[t].hist@,
                        prev.measure_bins@[t].hist@,
                        crate::dftbin::advance_terms(
                            table,
                            rs,
                            ro,
                            nn,
                            prev.measure_bins@[t].current_phase as int,
                            prev.measure_bins@[t].pulsation as int,
                        ),
                    );
                }
            }
            let ghost start0 = start as int;
            start = start + rem;
            self.samples_to_collect_remaining = self.samples_to_collect_remaining - rem;
            if self.samples_to_collect_remaining == 0 {
                self.samples_to_collect_remaining = self.collect_every;
                let spectrum = self.collect_spectrum();
                let mut interval = self.collect_frequency / 60;
                if interval < 1 {
                    interval = 1;
                }
                if self.collected_counter % interval == 0 {
                    self.current_power = Self::power_of_spectrum(&spectrum.spectrum);
                    // exponential tracking of the spectrum power
                    let rgc: u64 = if self.rolling_gain > 0x1000_0000 {
                        0x1000_0000
                    } else {
                        self.rolling_gain
                    };
                    let rg: i64 = rgc as i64;
                    let cp: i64 = self.current_power as i64;
                    let delta: i64 = (cp + 10 - rg) / 100;
                    let next: i64 = rg + delta;
                    self.rolling_gain = if next < 0 {
                        0
                    } else if next > 0x1000_0000 {
                        0x1000_0000
                    } else {
                        next as u64
                    };
                }
                let ghost pre_q = self.collected_spectrums@;
                let ghost pre_cap = self.collected_spectrums.cap();
                let ghost sp = spectrum;
                proof {
                    self.collected_spectrums.lemma_wf_len();
                }
                self.collected_spectrums.send(spectrum);
                proof {
                    if pre_q.len() < pre_cap {
                        assert(self.collected_spectrums@ == pre_q.push(sp));
                        assert(self.collected_spectrums@.len() == pre_q.len() + 1);
                    } else {
                        assert(self.collected_spectrums@ == pre_q.subrange(
                            1,
                            pre_q.len() as int,
                        ).push(sp));
                        assert(pre_q.subrange(1, pre_q.len() as int).len() == pre_q.len()
                            - 1);
                        assert(self.collected_spectrums@.len() == pre_q.len());
                    }
                }
                self.collected_counter = if self.collected_counter == usize::MAX {
                    0
                } else {
                    self.collected_counter + 1
                };
            }
            proof {
                // one chunk unfolds one step of the downsample total,
                // and each bin's history grew by the chunk's half
                let li = total - start0;
                assert(Self::advanced_total(li, prev.samples_to_collect_remaining as int, ce)
                    == (rem as int) / 2 + Self::advanced_total(li - rem, ce, ce));
                if li - rem == 0 {
                    assert(Self::advanced_total(
                        li - rem,
                        self.samples_to_collect_remaining as int,
                        ce,
                    ) == 0);
                    assert(Self::advanced_total(li - rem, ce, ce) == 0);
                }
                let cur2 = *self;
                let grown_new = Self::advanced_total(total as int, rem0, ce)
                    - Self::advanced_total(
                    total - start,
                    self.samples_to_collect_remaining as int,
                    ce,
                );
                let grown_old = Self::advanced_total(total as int, rem0, ce)
                    - Self::advanced_total(li, prev.samples_to_collect_remaining as int, ce);
                let table = self.trig@;
                let rs = self.rings@[1].ring_samples@;
                let ro = self.rings@[1].ring_offset as int;
                let nn = (chunk@.len() / 2) as int;
                match (old(self).spectrum_bins, prev.spectrum_bins, cur2.spectrum_bins) {
                    (
                        SpectrumBins::DFT(ob),
                        SpectrumBins::DFT(pb),
                        SpectrumBins::DFT(nb),
                    ) => {
                        assert forall|t: int| 0 <= t < ob@.len() implies (
                        #[trigger] nb@[t]).bin.hist@.len() == ob@[t].bin.hist@.len()
                            + grown_new by {
                            assert(pb@[t].bin.hist@.len() == ob@[t].bin.hist@.len()
                                + grown_old);
                            assert(nb@[t].bin.hist@ == pb@[t].bin.hist@
                                + crate::dftbin::advance_terms(
                                table,
                                rs,
                                ro,
                                nn,
                                pb@[t].bin.current_phase as int,
                                pb@[t].bin.pulsation as int,
                            ));
                        }
                    },
                    (SpectrumBins::NC(ob), SpectrumBins::NC(pb), SpectrumBins::NC(nb)) => {
                        assert forall|t: int| 0 <= t < ob@.len() implies (
                        #[trigger] nb@[t]).bina.hist@.len() == ob@[t].bina.hist@.len()
                            + grown_new && nb@[t].binb.hist@.len() == ob@[t].binb.hist@.len()
                            + grown_new by {
                            assert(pb@[t].bina.hist@.len() == ob@[t].bina.hist@.len()
                                + grown_old);
                            assert(pb@[t].binb.hist@.len() == ob@[t].binb.hist@.len()
                                + grown_old);
                            assert(nb@[t].bina.hist@ == pb@[t].bina.hist@
                                + crate::dftbin::advance_terms(
                                table,
                                rs,
                                ro,
                                nn,
                                pb@[t].bina.current_phase as int,
                                pb@[t].bina.pulsation as int,
                            ));
                            assert(nb@[t].binb.hist@ == pb@[t].binb.hist@
                                + crate::dftbin::advance_terms(
                                table,
                                rs,
                                ro,
                                nn,
                                pb@[t].binb.current_phase as int,
                                pb@[t].binb.pulsation as int,
                            ));
                        }
                    },
                    _ => {},
                }
            }
        }
    }

    /// A freshly constructed engine: one zeroed ring per octave, the
    /// requested bin layout targeted from the supplied parameters, a
    /// Blackman–Nuttall kernel of six subdivisions, and a collection
    /// cadence of six hundred snapshots per second.
    pub fn new(config: &SpectrumConfig, params: &Vec<BinParams>, trig: TrigTable) -> (r:
        ChannelSWDFT)
        requires
            config.wf(),
            trig.wf(),
            config.num_bins == params@.len(),
            forall|i: int| 0 <= i < params@.len() ==> (#[trigger] params@[i]).wf(),
            forall|i: int|
                0 <= i < params@.len() ==> (#[trigger] params@[i]).freq_mhz < (
                config.sample_rate as int) * 1000,
        ensures
            r.wf(),
            r.config == *config,
            r.init_config == *config,
            r.paused == false,
            r.collected_counter == 0,
            r.collected_spectrums@ == Seq::<Collected>::empty(),
            r.spectrum_bins.bin_count() == config.num_bins,
    {
        let mut rings: Vec<ChannelRing> = Vec::new();
        proof {
            assert(crate::util::is_pow2(0x10000) && crate::util::is_pow2(0x8000)
                && crate::util::is_pow2(0x4000) && crate::util::is_pow2(0x2000)
                && crate::util::is_pow2(0x1000) && crate::util::is_pow2(0x800)
                && crate::util::is_pow2(0x400) && crate::util::is_pow2(0x200)
                && crate::util::is_pow2(0x100) && crate::util::is_pow2(0x80)
                && crate::util::is_pow2(0x40) && crate::util::is_pow2(0x20)
                && crate::util::is_pow2(0x10) && crate::util::is_pow2(0x8)) by {
                reveal_with_fuel(crate::util::is_pow2, 20);
            }
        }
        rings.push(ChannelRing::new(0x10000));
        rings.push(ChannelRing::new(0x8000));
        rings.push(ChannelRing::new(0x4000));
        rings.push(ChannelRing::new(0x2000));
        rings.push(ChannelRing::new(0x1000));
        rings.push(ChannelRing::new(0x800));
        rings.push(ChannelRing::new(0x400));
        rings.push(ChannelRing::new(0x200));
        rings.push(ChannelRing::new(0x100));
        rings.push(ChannelRing::new(0x80));
        rings.push(ChannelRing::new(0x40));
        rings.push(ChannelRing::new(0x20));
        rings.push(ChannelRing::new(0x10));
        rings.push(ChannelRing::new(0x8));
        let collector = crate::collector::init_collector(
            6,
            WindowType::BlackmanNutall,
            &trig,
        );
        let spectrum_bins = Self::make_spectrum_bins(1, config, params);
        let mut s = ChannelSWDFT {
            init_config: config.clone(),
            config: config.clone(),
            rings,
            rolling_gain: 100,
            current_power: 1_000_000,
            spectrum_bins,
            measure_bins: Vec::new(),
            collect_every: 1,
            collect_frequency: 1,
            samples_to_collect_remaining: 1,
            collected_spectrums: crate::snapshot::SnapshotChannel::new(200),
            collector,
            collected_counter: 0,
            paused: false,
            should_colorize: false,
            trig,
        };
        s.set_collect_frequency(600);
        s
    }
}

/// Feeding silence keeps every term of every history at zero, and a
/// bin whose history is all zero reads a magnitude of exactly zero:
/// together, an all-zero block through an initialized engine yields an
/// all-zero snapshot.
pub proof fn lemma_silent_bin_reads_zero(
    h: Seq<crate::terms::Term>,
    cl: int,
    length: int,
    kernel: Seq<i64>,
    kernel_sum: int,
    a_weight_milli: int,
)
    requires
        forall|k: int|
            0 <= k < h.len() ==> (#[trigger] h[k]).re == 0 && h[k].im == 0,
        cl <= h.len(),
        1 <= length,
        1 <= kernel_sum,
        1 <= kernel.len(),
    ensures
        dft_value_spec(h, cl, length, kernel, kernel_sum, a_weight_milli) == 0,
{
    if cl >= 1 {
        lemma_silent_kerneled(h, cl, kernel, kernel.len() as int);
        let d = length * (crate::collector::KERNEL_ONE as int);
        assert(d == length * 0xFFF0);
        assert(d >= 1) by (nonlinear_arith)
            requires length >= 1, d == length * 0xFFF0,
        ;
        vstd::arithmetic::div_mod::lemma_div_of0(d);
        assert(crate::complex::tdiv(0, d) == 0);
        assert(0int * 0 == 0 && (0int + 1) * (0int + 1) == 1) by (nonlinear_arith);
        crate::util::lemma_sqrt_floor_of(0, 0);
        vstd::arithmetic::div_mod::lemma_div_of0(kernel_sum);
        vstd::arithmetic::div_mod::lemma_div_of0(1000);
        assert(0 * a_weight_milli == 0) by (nonlinear_arith);
    }
}

/// Feeding a silent block into a bin with a silent history leaves
/// the history silent: together with `lemma_silent_bin_reads_zero`
/// and the contract of `collect_spectrum`, an all-zero PCM block
/// through an initialized engine collects an all-zero snapshot.
pub proof fn lemma_silent_bin_stays_silent(
    old_bin: DftBin,
    new_bin: DftBin,
    table: Seq<i16>,
    samples: Seq<i32>,
    ring_offset: int,
    n: int,
)
    requires
        ChannelSWDFT::advanced_from(old_bin, new_bin, table, samples, ring_offset, n),
        forall|k: int|
            0 <= k < old_bin.hist@.len() ==> (#[trigger] old_bin.hist@[k]).re == 0
                && old_bin.hist@[k].im == 0,
        forall|i: int| 0 <= i < samples.len() ==> #[trigger] samples[i] == 0,
        samples.len() >= 1,
        n >= 0,
    ensures
        forall|k: int|
            0 <= k < new_bin.hist@.len() ==> (#[trigger] new_bin.hist@[k]).re == 0
                && new_bin.hist@[k].im == 0,
{
    let ts = crate::dftbin::advance_terms(
        table,
        samples,
        ring_offset,
        n,
        old_bin.current_phase as int,
        old_bin.pulsation as int,
    );
    crate::dftbin::lemma_silent_advance_terms(
        table,
        samples,
        ring_offset,
        n,
        old_bin.current_phase as int,
        old_bin.pulsation as int,
    );
    assert forall|k: int|
        0 <= k < new_bin.hist@.len() implies (#[trigger] new_bin.hist@[k]).re == 0
        && new_bin.hist@[k].im == 0 by {
        if k < old_bin.hist@.len() {
            assert(new_bin.hist@[k] == old_bin.hist@[k]);
        } else {
            assert(new_bin.hist@[k] == ts[k - old_bin.hist@.len()]);
        }
    }
}

/// A kerneled sum over an all-zero history is zero.
pub proof fn lemma_silent_kerneled(
    h: Seq<crate::terms::Term>,
    cl: int,
    kernel: Seq<i64>,
    j: int,
)
    requires
        forall|k: int|
            0 <= k < h.len() ==> (#[trigger] h[k]).re == 0 && h[k].im == 0,
        1 <= cl <= h.len(),
        1 <= kernel.len(),
        j <= kernel.len(),
    ensures
        crate::dftbin::kerneled_re(h, cl, kernel, j) == 0,
        crate::dftbin::kerneled_im(h, cl, kernel, j) == 0,
    decreases j,
{
    if j > 0 {
        lemma_silent_kerneled(h, cl, kernel, j - 1);
        let klen = kernel.len() as int;
        crate::dftbin::lemma_seg_bounds(cl, klen, j - 1);
        let from = crate::dftbin::seg_pt(cl, klen, j - 1);
        let to = crate::dftbin::seg_pt(cl, klen, j);
        lemma_silent_range(h, from, to);
        assert(kernel[j - 1] * 0 == 0) by (nonlinear_arith);
    }
}

/// Any range sum over an all-zero history is zero.
pub proof fn lemma_silent_range(h: Seq<crate::terms::Term>, from: int, to: int)
    requires
        forall|k: int|
            0 <= k < h.len() ==> (#[trigger] h[k]).re == 0 && h[k].im == 0,
        0 <= from <= h.len(),
        0 <= to <= h.len(),
    ensures
        crate::terms::range_re(h, from, to) == 0,
        crate::terms::range_im(h, from, to) == 0,
{
    lemma_silent_suffix(h, from);
    lemma_silent_suffix(h, to);
}

/// Any suffix sum over an all-zero history is zero.
pub proof fn lemma_silent_suffix(h: Seq<crate::terms::Term>, d: int)
    requires
        forall|k: int|
            0 <= k < h.len() ==> (#[trigger] h[k]).re == 0 && h[k].im == 0,
        0 <= d <= h.len(),
    ensures
        crate::terms::suffix_re(h, d) == 0,
        crate::terms::suffix_im(h, d) == 0,
{
    let sub = h.subrange(h.len() - d, h.len() as int);
    assert(forall|k: int|
        0 <= k < sub.len() ==> (#[trigger] sub[k]).re == 0 && sub[k].im == 0);
    crate::terms::lemma_zero_sum(sub);
}

} // verus!







