//! Fixed-point sine/cosine lookup shared by every analysis bin.
//!
//! Phases are kept in a dithered fixed-point form: the low
//! `PHASE_DITHER_POW` bits are sub-resolution dither, the next
//! `FIXED_POINT_FRACTIONAL` steps cover one full turn.  The dither keeps
//! very low frequencies accumulating phase even when the per-sample
//! increment is below one table step.  The table itself is plain data
//! (one signed sample per step, one full sine period); it is supplied by
//! the embedding program, which evaluates the sine shape once at startup.

use vstd::prelude::*;

verus! {

/// Number of quantization levels on each side of zero.
pub const QUANTIZER_LEVELS: i64 = 32767;

/// Log2 of the dither factor appended below the table resolution.
pub const PHASE_DITHER_POW: u32 = 12;

/// Dither steps per table step.
pub const PHASE_DITHER: u32 = 4096;

/// Table steps per full turn.
pub const FIXED_POINT_FRACTIONAL: usize = 32768;

/// Mask for reducing a table index to one turn.
pub const FIXED_POINT_FRACTIONAL_MASK: usize = 32767;

/// Dithered steps per full turn.
pub const FIXED_POINT_FRACTIONAL_DITHER: u64 = 0x800_0000;

/// Mask for reducing a dithered phase to one turn.
pub const FIXED_POINT_FRACTIONAL_DITHER_MASK: u64 = 0x7FF_FFFF;

/// Table steps for a quarter turn; offsetting by it turns sine into cosine.
pub const FIXED_POINT_90DEG: usize = 8192;

/// Drops the dither bits of a phase, leaving a table index.
pub fn fp_undither(fp_x: u32) -> (r: u32)
    ensures
        r == fp_x as int / 4096,
{
    proof {
        assert(fp_x >> 12 == fp_x / 4096) by (bit_vector);
    }
    fp_x >> 12
}

/// The table entry a phase selects, reduced to one turn.
pub open spec fn sine_at(table: Seq<i16>, fp_x: int) -> int
    recommends
        table.len() == FIXED_POINT_FRACTIONAL,
{
    table[fp_x % (FIXED_POINT_FRACTIONAL as int)] as int
}

/// The cosine entry: the sine entry a quarter turn ahead.
pub open spec fn cosine_at(table: Seq<i16>, fp_x: int) -> int
    recommends
        table.len() == FIXED_POINT_FRACTIONAL,
{
    sine_at(table, fp_x + FIXED_POINT_90DEG)
}

/// One full period of a sine wave sampled at fixed-point resolution.
pub struct TrigTable {
    table: Vec<i16>,
}

impl View for TrigTable {
    type V = Seq<i16>;

    closed spec fn view(&self) -> Seq<i16> {
        self.table@
    }
}

impl TrigTable {
    /// A table is usable when it covers exactly one turn.
    pub closed spec fn wf(&self) -> bool {
        self.table@.len() == FIXED_POINT_FRACTIONAL
    }

    /// Wraps a sampled sine period; rejects a vector of the wrong length.
    pub fn new(values: Vec<i16>) -> (r: Option<TrigTable>)
        ensures
            r is Some <==> values@.len() == FIXED_POINT_FRACTIONAL,
            r is Some ==> r->Some_0.wf() && r->Some_0@ == values@,
    {
        if values.len() == FIXED_POINT_FRACTIONAL {
            Some(TrigTable { table: values })
        } else {
            None
        }
    }

    /// Sine of an undithered phase, straight from the table.
    pub fn sin_fp(&self, fp_x: u32) -> (r: i16)
        requires
            self.wf(),
        ensures
            r == sine_at(self@, fp_x as int),
    {
        let idx: usize = (fp_x % (FIXED_POINT_FRACTIONAL as u32)) as usize;
        self.table[idx]
    }

    /// Cosine of an undithered phase: sine shifted a quarter turn.
    pub fn cos_fp(&self, fp_x: u32) -> (r: i16)
        requires
            self.wf(),
        ensures
            r == cosine_at(self@, fp_x as int),
    {
        let idx: usize = ((fp_x as u64 + FIXED_POINT_90DEG as u64)
            % (FIXED_POINT_FRACTIONAL as u64)) as usize;
        self.table[idx]
    }
}

} // verus!
