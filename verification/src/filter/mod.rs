//! Reconstruction filters: how the samples of a pixel become its colour.
pub mod filters;

use crate::color::RGBA32;
use crate::filter::filters::{BoxFilter, MitchellFilter};
use crate::renderer::Pixel;
use crate::sampler::Sample;
use vstd::prelude::*;

verus! {

/// The greatest number of samples of a pixel that a filter accepts.
pub const SAMPLES_LIMIT: usize = 65536;

/// A reconstruction filter.
pub trait Filter {
    /// The colour that the filter gives to the pixel at `center` of a block
    /// at `position` in the image, from the samples of the pixel.
    spec fn reconstructed(
        &self,
        center: (u32, u32),
        samples: Seq<Sample>,
        position: (u32, u32),
    ) -> RGBA32;

    fn compute_color(&self, data: &Pixel, position: (u32, u32)) -> (c: RGBA32)
        requires
            data.samples@.len() <= SAMPLES_LIMIT,
            forall|i: int|
                0 <= i < data.samples@.len() ==> (#[trigger] data.samples@[i]).position.x.wf()
                    && data.samples@[i].position.y.wf(),
        ensures
            c == self.reconstructed((data.x, data.y), data.samples@, position),
    ;
}

/// The kinds of filters.
#[derive(Debug)]
pub enum FilterFactory {
    BoxFilter,
    MitchellFilter,
}

/// Either of the two filters.
pub enum AnyFilter {
    Box(BoxFilter),
    Mitchell(MitchellFilter),
}

impl Filter for AnyFilter {
    open spec fn reconstructed(
        &self,
        center: (u32, u32),
        samples: Seq<Sample>,
        position: (u32, u32),
    ) -> RGBA32 {
        match self {
            AnyFilter::Box(f) => f.reconstructed(center, samples, position),
            AnyFilter::Mitchell(f) => f.reconstructed(center, samples, position),
        }
    }

    fn compute_color(&self, data: &Pixel, position: (u32, u32)) -> (c: RGBA32) {
        match self {
            AnyFilter::Box(f) => f.compute_color(data, position),
            AnyFilter::Mitchell(f) => f.compute_color(data, position),
        }
    }
}

impl FilterFactory {
    /// The filter that the factory names, for an image of the given size.
    pub open spec fn filter(&self, width: u32, height: u32) -> AnyFilter {
        match *self {
            FilterFactory::BoxFilter => AnyFilter::Box(BoxFilter {  }),
            FilterFactory::MitchellFilter => AnyFilter::Mitchell(
                MitchellFilter { image_size: crate::math::Vector2 { x: width, y: height } },
            ),
        }
    }

    /// The filter of the kind that the factory names, for an image of the
    /// given size.
    pub fn create_filter(&self, width: u32, height: u32) -> (f: AnyFilter)
        ensures
            f == self.filter(width, height),
    {
        match *self {
            FilterFactory::BoxFilter => AnyFilter::Box(BoxFilter::default()),
            FilterFactory::MitchellFilter => {
                let mut result = MitchellFilter::default();
                result.set_image_size(width, height);
                AnyFilter::Mitchell(result)
            },
        }
    }
}

} // verus!
