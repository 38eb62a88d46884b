//! Configuration the core consumes, as plain values.
//!
//! The paths are opaque to the core: the surrounding program resolves and
//! reads them. What the core checks at startup is the analysis
//! configuration; a density ratio outside (0, 1] is a fatal configuration
//! error, never a silently clamped value.

use vstd::prelude::*;

use crate::error::AppError;
use crate::pitch::DensityRatio;

verus! {

/// Everything the core is configured with: where the models and the
/// benchmark corpus live, how large each request cache is (zero disables
/// one), and the pitch-analysis parameters.
pub struct CoreConfig {
    /// Directory scanned for voice model files.
    pub model_dir: String,
    /// Path of the benchmark corpus, one line per utterance.
    pub corpus_path: String,
    /// Capacity of the query cache; zero disables it.
    pub query_cache_capacity: usize,
    /// Capacity of the waveform cache; zero disables it.
    pub wav_cache_capacity: usize,
    /// Numerator of the pitch-analysis density ratio.
    pub density_num: u64,
    /// Denominator of the pitch-analysis density ratio.
    pub density_den: u64,
    /// Pitch at or below this value counts as unvoiced, in engine units.
    pub audibility_threshold: u64,
}

impl CoreConfig {
    /// The analysis parameters are meaningful: the density ratio lies in
    /// (0, 1].
    pub open spec fn wf(&self) -> bool {
        0 < self.density_num <= self.density_den
    }

    /// Checks the configuration once at startup and hands out the density
    /// ratio the analyzer runs with. A ratio outside (0, 1] is fatal.
    pub fn validate(&self) -> (r: Result<DensityRatio, AppError>)
        ensures
            match r {
                Ok(d) => self.wf() && d.wf() && d.num_spec() == self.density_num && d.den_spec()
                    == self.density_den,
                Err(e) => e == AppError::CacheMisuse && !self.wf(),
            },
    {
        DensityRatio::new(self.density_num, self.density_den)
    }
}

} // verus!
