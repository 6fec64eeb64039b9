use vstd::prelude::*;

use crate::matcher::{quantize_pixels, quantized, PIXEL_SIZE};
use crate::palette::Palette;

verus! {

/// An image held as rows of RGBA pixels, four bytes each, row after row.
pub struct Image {
    width: u32,
    height: u32,
    data: Vec<u8>,
}

impl Image {
    /// Width in pixels.
    pub closed spec fn spec_width(&self) -> nat {
        self.width as nat
    }

    /// Height in pixels.
    pub closed spec fn spec_height(&self) -> nat {
        self.height as nat
    }

    /// The RGBA bytes.
    pub closed spec fn spec_data(&self) -> Seq<u8> {
        self.data@
    }

    /// The buffer holds exactly `width * height` pixels.
    pub open spec fn wf(&self) -> bool {
        self.spec_data().len() == self.spec_width() * self.spec_height() * 4
    }

    /// An image of `width` by `height` pixels over the RGBA bytes `data`, or
    /// `None` when `data` does not hold exactly that many pixels.
    pub fn from_rgba(width: u32, height: u32, data: Vec<u8>) -> (r: Option<Image>)
        ensures
            r is Some <==> data@.len() == width as int * height as int * 4,
            r is Some ==> ({
                let img = r->0;
                &&& img.wf()
                &&& img.spec_width() == width
                &&& img.spec_height() == height
                &&& img.spec_data() == data@
            }),
    {
        let len = data.len();
        if len % PIXEL_SIZE != 0 {
            return None;
        }
        let pixels = (len / PIXEL_SIZE) as u64;
        assert(width as int * height as int <= u64::MAX) by (nonlinear_arith)
            requires
                width <= u32::MAX,
                height <= u32::MAX,
        ;
        let area = width as u64 * height as u64;
        if pixels == area {
            Some(Image { width, height, data })
        } else {
            None
        }
    }

    /// Width in pixels.
    pub fn width(&self) -> (r: u32)
        ensures
            r == self.spec_width(),
    {
        self.width
    }

    /// Height in pixels.
    pub fn height(&self) -> (r: u32)
        ensures
            r == self.spec_height(),
    {
        self.height
    }

    /// The RGBA bytes, row after row.
    pub fn as_rgba(&self) -> (r: &Vec<u8>)
        ensures
            r@ == self.spec_data(),
    {
        &self.data
    }

    /// Gives up the image for its RGBA bytes.
    pub fn into_rgba(self) -> (r: Vec<u8>)
        ensures
            r@ == self.spec_data(),
    {
        self.data
    }
}

/// A new image of the same size as `image`, whose every pixel is the nearest
/// palette entry to the pixel of `image` at the same place, with that pixel's
/// alpha.
pub fn quantize(palette: &Palette, image: &Image) -> (r: Image)
    requires
        palette.wf(),
        image.wf(),
    ensures
        r.wf(),
        r.spec_width() == image.spec_width(),
        r.spec_height() == image.spec_height(),
        quantized(palette@, image.spec_data(), r.spec_data()),
{
    let mut data = image.data.clone();
    assert(data@ =~= image.data@);
    quantize_pixels(palette, data.as_mut_slice());
    Image { width: image.width, height: image.height, data }
}

} // verus!
