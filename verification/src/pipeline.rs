//! Configuration data for the image preparation pipeline an embedder runs
//! before inference.
//!
//! The steps are held here as plain data; executing them on an image is
//! the embeddings provider's business and happens outside the library.
//! Fractional constants are carried as IEEE-754 bit patterns.

use vstd::prelude::*;

verus! {

/// Width and height of an image in pixels.
#[derive(Clone, Copy, PartialEq, Eq, Structural, Debug)]
pub struct ImageSize {
    pub width: usize,
    pub height: usize,
}

/// The resampling filter a resize step uses.
#[derive(Clone, Copy, PartialEq, Eq, Structural, Debug)]
pub enum FilterOption {
    Nearest,
    Triangle,
    CatmullRom,
    Gaussian,
    Lanczos3,
}

/// Resize to a fixed size.
#[derive(Clone, Copy, Debug)]
pub struct ResizeRGBImage {
    pub image_size: ImageSize,
    pub filter: FilterOption,
}

/// Resize to a size while keeping the aspect ratio; `scale_bits` holds
/// the bit pattern of the percentage scale factor.
#[derive(Clone, Copy, Debug)]
pub struct ResizeRGBImageAspectRatio {
    pub image_size: ImageSize,
    pub scale_bits: u32,
    pub filter: FilterOption,
}

/// Crop the central window of the given size.
#[derive(Clone, Copy, Debug)]
pub struct CenterCrop {
    pub crop_size: ImageSize,
}

/// Channel-wise normalisation; the arrays hold the bit patterns of the
/// per-channel constants that are subtracted and divided by.
#[derive(Clone, Copy, Debug)]
pub struct Normalization {
    pub sub_bits: [u32; 3],
    pub div_bits: [u32; 3],
    pub zeroone: bool,
}

/// Permute the axes of the intermediate tensor.
#[derive(Clone, Copy, Debug)]
pub struct Transpose {
    pub axes: [usize; 4],
}

/// Convert the intermediate value into a tensor.
#[derive(Clone, Copy, Debug)]
pub struct ToTensor {}

/// Convert the intermediate value into an array.
#[derive(Clone, Copy, Debug)]
pub struct ToArray {}

/// One step of the image preparation pipeline.
#[derive(Clone, Copy, Debug)]
pub enum ImageTransform {
    ResizeRGBImage(ResizeRGBImage),
    ResizeRGBImageAspectRatio(ResizeRGBImageAspectRatio),
    CenterCrop(CenterCrop),
    Normalization(Normalization),
    Transpose(Transpose),
    ToTensor(ToTensor),
    ToArray(ToArray),
}

/// The ordered list of preparation steps an embedder applies to an image.
#[derive(Debug)]
pub struct TransformationPipeline {
    pub steps: Vec<ImageTransform>,
}

impl View for TransformationPipeline {
    type V = Seq<ImageTransform>;

    open spec fn view(&self) -> Seq<ImageTransform> {
        self.steps@
    }
}

impl Clone for TransformationPipeline {
    fn clone(&self) -> (r: Self)
        ensures
            r@ == self@,
    {
        let steps = self.steps.clone();
        proof {
            assert(steps@ =~= self.steps@);
        }
        TransformationPipeline { steps }
    }
}

} // verus!
