//! The generation backend's plain values: base models, merge states, errors
//! and the per-image seed.

use vstd::prelude::*;

verus! {

#[verifier::external_type_specification]
#[verifier::external_body]
pub struct ExIoError(std::io::Error);

/// Base diffusion model.
#[derive(Clone, Copy, Debug, PartialEq, Eq, Structural)]
pub enum BaseModel {
    /// Few-step, CFG-free; fast iteration.
    SdxlTurbo,
    /// Full SDXL base (needs more steps without a Lightning LoRA).
    Sdxl,
}

impl BaseModel {
    /// Hugging Face repo holding the model's weights.
    pub fn repo(&self) -> (r: &'static str)
        ensures
            r@ == (match self {
                BaseModel::SdxlTurbo => "stabilityai/sdxl-turbo"@,
                BaseModel::Sdxl => "stabilityai/stable-diffusion-xl-base-1.0"@,
            }),
    {
        match self {
            BaseModel::SdxlTurbo => "stabilityai/sdxl-turbo",
            BaseModel::Sdxl => "stabilityai/stable-diffusion-xl-base-1.0",
        }
    }

    /// Name shown in the load report.
    pub fn label(&self) -> (r: &'static str)
        ensures
            r@ == (match self {
                BaseModel::SdxlTurbo => "SDXL-Turbo"@,
                BaseModel::Sdxl => "SDXL"@,
            }),
    {
        match self {
            BaseModel::Sdxl => "SDXL",
            BaseModel::SdxlTurbo => "SDXL-Turbo",
        }
    }
}

/// Whether the merged-UNet cache was reused or freshly built.
#[derive(Clone, Copy, Debug, PartialEq, Eq, Structural)]
pub enum MergeState {
    /// No LoRA was merged.
    NotMerged,
    Cached,
    Merged(usize),
}

/// Why a generation failed.
#[derive(Debug)]
pub enum GenError {
    /// Generation backend not in this build.
    NotImplemented,
    /// Weights unavailable.
    Weights(String),
    /// Device init failed.
    Device(String),
    /// Backend error.
    Backend(String),
    Io(std::io::Error),
}

/// Placeholder backend for builds without a generation backend: every
/// request fails with `GenError::NotImplemented`.
pub struct PendingGenerator;

impl PendingGenerator {
    /// The result of asking this backend for an image.
    pub fn unavailable(&self) -> (e: GenError)
        ensures
            e is NotImplemented,
    {
        GenError::NotImplemented
    }
}

/// Seed of image `index` of a batch: `base_seed + index`, so every image of a
/// run is reproducible from the base seed.
pub fn image_seed(base_seed: u64, index: usize) -> (s: u64)
    requires
        base_seed + index <= u64::MAX,
    ensures
        s == base_seed + index,
{
    base_seed + index as u64
}

} // verus!
