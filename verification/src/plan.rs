use vstd::prelude::*;
use crate::sample::Sample;

verus! {

/// Colour family of a video format.
#[derive(Debug, Clone, Copy, PartialEq, Eq, Structural)]
pub enum ColorFamily {
    Gray,
    RGB,
    YUV,
    YCoCg,
    Compat,
}

/// How the samples of a video format are stored.
#[derive(Debug, Clone, Copy, PartialEq, Eq, Structural)]
pub enum SampleType {
    Integer,
    Float,
}

/// The parameters that describe a video format.
#[derive(Debug, Clone, Copy, PartialEq, Eq, Structural)]
pub struct FormatSpec {
    pub color_family: ColorFamily,
    pub sample_type: SampleType,
    pub bits_per_sample: u8,
    pub sub_sampling_w: u8,
    pub sub_sampling_h: u8,
}

/// The format of the mask of a clip in format `f`: a single gray plane
/// without subsampling, with the sample type and depth of `f`.
pub open spec fn mask_format_of(f: FormatSpec) -> FormatSpec {
    FormatSpec {
        color_family: ColorFamily::Gray,
        sample_type: f.sample_type,
        bits_per_sample: f.bits_per_sample,
        sub_sampling_w: 0,
        sub_sampling_h: 0,
    }
}

/// The format to register for the mask of a clip in format `input`.
pub fn mask_format(input: &FormatSpec) -> (r: FormatSpec)
    ensures
        r == mask_format_of(*input),
        r.color_family == ColorFamily::Gray,
        r.sample_type == input.sample_type,
        r.bits_per_sample == input.bits_per_sample,
        r.sub_sampling_w == 0,
        r.sub_sampling_h == 0,
{
    FormatSpec {
        color_family: ColorFamily::Gray,
        sample_type: input.sample_type,
        bits_per_sample: input.bits_per_sample,
        sub_sampling_w: 0,
        sub_sampling_h: 0,
    }
}

/// The mask format of any format is a single gray plane without
/// subsampling that keeps the sample type and the depth of the source.
pub proof fn lemma_mask_format_fields(f: FormatSpec)
    ensures
        mask_format_of(f).color_family == ColorFamily::Gray,
        mask_format_of(f).sample_type == f.sample_type,
        mask_format_of(f).bits_per_sample == f.bits_per_sample,
        mask_format_of(f).sub_sampling_w == 0,
        mask_format_of(f).sub_sampling_h == 0,
{
}

/// The mask of a mask has the format of the mask.
pub proof fn lemma_mask_format_idempotent(f: FormatSpec)
    ensures
        mask_format_of(mask_format_of(f)) == mask_format_of(f),
{
}

/// The per-frame routine that a frame of a given format is processed with.
#[derive(Debug, Clone, Copy, PartialEq, Eq, Structural)]
pub enum Kernel {
    /// Integer samples stored in `u8`, through a lookup table.
    Integer8,
    /// Integer samples stored in `u16`, through a lookup table.
    Integer16,
    /// Integer samples stored in `u32`, through a lookup table.
    Integer32,
    /// Float samples, computed per sample.
    Float,
}

/// Why a frame cannot be processed.
#[derive(Debug, Clone, Copy, PartialEq, Eq, Structural)]
pub enum FrameError {
    /// The source frame carries no average brightness, so the plane
    /// statistics were not computed upstream.
    MissingPlaneStats,
    /// Integer samples of this depth are not supported.
    UnsupportedDepth(u8),
}

/// The width in bits of the storage type of an integer kernel.
pub open spec fn kernel_width(k: Kernel) -> nat {
    match k {
        Kernel::Integer8 => 8,
        Kernel::Integer16 => 16,
        Kernel::Integer32 => 32,
        Kernel::Float => 32,
    }
}

/// The kernel for frames of `sample_type` and `depth` bits, if any.
pub open spec fn kernel_for(sample_type: SampleType, depth: nat) -> Option<Kernel> {
    match sample_type {
        SampleType::Float => Some(Kernel::Float),
        SampleType::Integer => if depth <= 8 {
            Some(Kernel::Integer8)
        } else if depth <= 16 {
            Some(Kernel::Integer16)
        } else if depth <= 32 {
            Some(Kernel::Integer32)
        } else {
            None
        },
    }
}

/// Decides how a frame is processed: it needs the average brightness of the
/// source frame, and then integer frames go to the narrowest storage type
/// that holds their depth, float frames to the float kernel.
pub fn plan_frame(has_average: bool, sample_type: SampleType, depth: u8) -> (r: Result<
    Kernel,
    FrameError,
>)
    ensures
        !has_average ==> r == Err::<Kernel, FrameError>(FrameError::MissingPlaneStats),
        has_average ==> match kernel_for(sample_type, depth as nat) {
            Some(k) => r == Ok::<Kernel, FrameError>(k),
            None => r == Err::<Kernel, FrameError>(FrameError::UnsupportedDepth(depth)),
        },
        has_average && sample_type == SampleType::Float ==> r == Ok::<Kernel, FrameError>(
            Kernel::Float,
        ),
        has_average && sample_type == SampleType::Integer && depth <= 8 ==> r == Ok::<
            Kernel,
            FrameError,
        >(Kernel::Integer8),
        has_average && sample_type == SampleType::Integer && 8 < depth <= 16 ==> r == Ok::<
            Kernel,
            FrameError,
        >(Kernel::Integer16),
        has_average && sample_type == SampleType::Integer && 16 < depth <= 32 ==> r == Ok::<
            Kernel,
            FrameError,
        >(Kernel::Integer32),
        has_average && sample_type == SampleType::Integer && 32 < depth ==> r == Err::<
            Kernel,
            FrameError,
        >(FrameError::UnsupportedDepth(depth)),
{
    if !has_average {
        return Err(FrameError::MissingPlaneStats);
    }
    match sample_type {
        SampleType::Float => Ok(Kernel::Float),
        SampleType::Integer => {
            if depth <= 8 {
                Ok(Kernel::Integer8)
            } else if depth <= 16 {
                Ok(Kernel::Integer16)
            } else if depth <= 32 {
                Ok(Kernel::Integer32)
            } else {
                Err(FrameError::UnsupportedDepth(depth))
            }
        },
    }
}

/// Float formats take the float kernel; integer depths up to 8, 16 and 32
/// bits take the 8-, 16- and 32-bit kernels; deeper integer formats have
/// none.
pub proof fn lemma_kernel_for_table(depth: nat)
    ensures
        kernel_for(SampleType::Float, depth) == Some(Kernel::Float),
        depth <= 8 ==> kernel_for(SampleType::Integer, depth) == Some(Kernel::Integer8),
        8 < depth <= 16 ==> kernel_for(SampleType::Integer, depth) == Some(Kernel::Integer16),
        16 < depth <= 32 ==> kernel_for(SampleType::Integer, depth) == Some(Kernel::Integer32),
        32 < depth ==> kernel_for(SampleType::Integer, depth) is None,
        kernel_width(Kernel::Integer8) == 8,
        kernel_width(Kernel::Integer16) == 16,
        kernel_width(Kernel::Integer32) == 32,
{
}

/// The widths of the integer kernels are those of their sample types.
pub proof fn lemma_kernel_width_is_sample_width()
    ensures
        kernel_width(Kernel::Integer8) == <u8 as Sample>::width(),
        kernel_width(Kernel::Integer16) == <u16 as Sample>::width(),
        kernel_width(Kernel::Integer32) == <u32 as Sample>::width(),
{
}

/// An integer depth goes to the narrowest of the three storage types that
/// holds it.
pub proof fn lemma_integer_kernel_is_narrowest(depth: nat)
    requires
        depth <= 32,
    ensures
        kernel_for(SampleType::Integer, depth) is Some,
        ({
            let k = kernel_for(SampleType::Integer, depth).unwrap();
            &&& k != Kernel::Float
            &&& depth <= kernel_width(k)
            &&& k == Kernel::Integer8 || depth > kernel_width(k) / 2
        }),
{
}

/// For an integer kernel chosen for a depth of at least eight bits, the shift
/// `depth - 8` that the row pass applies is a valid shift amount for the
/// kernel's storage type.
pub proof fn lemma_integer_kernel_shift_fits(depth: nat)
    requires
        8 <= depth,
        kernel_for(SampleType::Integer, depth) is Some,
    ensures
        depth - 8 < kernel_width(kernel_for(SampleType::Integer, depth).unwrap()),
{
}

} // verus!
