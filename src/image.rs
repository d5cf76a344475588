use vstd::prelude::*;

verus! {

/// What PNG bytes decode to: RGBA pixels row by row from the top, then the
/// width and the height; `None` where the bytes are no PNG the decoder can
/// read.
pub uninterp spec fn png_rgba(png: Seq<u8>) -> Option<(Seq<[u8; 4]>, usize, usize)>;

/// Relies on lodepng's `decode32`: decodes PNG bytes to 8-bit RGBA pixels
/// with the image's width and height. Decoding depends on the bytes alone.
#[verifier::external_body]
fn decode_rgba(png: &[u8]) -> (r: Option<(Vec<[u8; 4]>, usize, usize)>)
    ensures
        match r {
            Some(t) => png_rgba(png@) == Some((t.0@, t.1, t.2)),
            None => png_rgba(png@) is None,
        },
{
    match lodepng::decode32(png) {
        Ok(img) => Some(
            (img.buffer.into_iter().map(|p: rgb::RGBA8| [p.r, p.g, p.b, p.a]).collect(), img.width, img.height),
        ),
        Err(_) => None,
    }
}

/// The PNG image that `width` by `height` RGBA pixels, stored row by row
/// from the top, encode to; `None` where the encoder refuses them.
pub uninterp spec fn png_of(pixels: Seq<[u8; 4]>, width: usize, height: usize) -> Option<Seq<u8>>;

/// Relies on lodepng's `encode32`: encodes 8-bit RGBA pixels as a PNG image.
/// The pixel count must match the size (lodepng asserts it in debug builds).
/// Encoding depends on its arguments alone.
#[verifier::external_body]
fn encode_rgba(pixels: &[[u8; 4]], width: usize, height: usize) -> (r: Option<Vec<u8>>)
    requires
        pixels@.len() == width * height,
    ensures
        match r {
            Some(bytes) => png_of(pixels@, width, height) == Some(bytes@),
            None => png_of(pixels@, width, height) is None,
        },
{
    lodepng::encode32(pixels, width, height).ok()
}

/// Encodes a `width` by `height` framebuffer, top row first, as a PNG image.
/// A framebuffer whose pixel count does not match its size is refused
/// without calling the encoder.
pub fn encode_png(pixels: &Vec<[u8; 4]>, width: usize, height: usize) -> (r: Result<
    Vec<u8>,
    ImageError,
>)
    ensures
        pixels@.len() != width * height ==> r == Err::<Vec<u8>, ImageError>(ImageError::BadGrid),
        pixels@.len() == width * height ==> match png_of(pixels@, width, height) {
            Some(bytes) => r matches Ok(v) && v@ == bytes,
            None => r == Err::<Vec<u8>, ImageError>(ImageError::Encode),
        },
{
    let len = pixels.len();
    let fits = match width.checked_mul(height) {
        Some(n) => n == len,
        None => false,
    };
    if !fits {
        return Err(ImageError::BadGrid);
    }
    match encode_rgba(pixels.as_slice(), width, height) {
        Some(bytes) => Ok(bytes),
        None => Err(ImageError::Encode),
    }
}

/// Why an image could not be decoded, encoded or used as a texture.
#[derive(PartialEq, Eq, Structural, Clone, Copy, Debug)]
pub enum ImageError {
    /// The bytes are no PNG image the decoder can read.
    Decode,
    /// The encoder refused the pixels.
    Encode,
    /// The image has no pixel, or its pixel count is not width times height.
    BadGrid,
}

/// A pixel grid can back a texture: it is not empty and holds exactly
/// `width * height` pixels.
pub open spec fn valid_grid(pixels: Seq<[u8; 4]>, width: nat, height: nat) -> bool {
    width > 0 && height > 0 && pixels.len() == width * height
}

pub open spec fn clamp_below(x: nat, n: nat) -> nat {
    if x < n {
        x
    } else {
        (n - 1) as nat
    }
}

/// Slot of the pixel nearest to column `i`, row `j` of a `width` by
/// `height` grid stored row by row.
pub open spec fn texel_index(width: nat, height: nat, i: nat, j: nat) -> int {
    (clamp_below(j, height) * width + clamp_below(i, width)) as int
}

/// A texture sampled from a decoded image, nearest pixel first. Row 0 is the
/// top of the image.
pub struct ImageTexture {
    data: Vec<[u8; 4]>,
    height: usize,
    width: usize,
}

impl ImageTexture {
    pub closed spec fn pixels(&self) -> Seq<[u8; 4]> {
        self.data@
    }

    pub closed spec fn width_spec(&self) -> nat {
        self.width as nat
    }

    pub closed spec fn height_spec(&self) -> nat {
        self.height as nat
    }

    pub open spec fn wf(&self) -> bool {
        valid_grid(self.pixels(), self.width_spec(), self.height_spec())
    }

    /// A texture over a decoded pixel grid; refused where the grid is
    /// empty or its size does not match.
    pub fn from_pixels(data: Vec<[u8; 4]>, width: usize, height: usize) -> (r: Result<
        ImageTexture,
        ImageError,
    >)
        ensures
            valid_grid(data@, width as nat, height as nat) <==> r is Ok,
            r matches Ok(t) ==> t.wf() && t.pixels() == data@ && t.width_spec() == width
                && t.height_spec() == height,
            r matches Err(e) ==> e == ImageError::BadGrid,
    {
        let len = data.len();
        let fits = match width.checked_mul(height) {
            Some(n) => n == len && n > 0,
            None => false,
        };
        proof {
            if width == 0 || height == 0 {
                assert(width * height == 0) by (nonlinear_arith)
                    requires
                        width == 0 || height == 0,
                ;
            } else {
                assert(width * height > 0) by (nonlinear_arith)
                    requires
                        width > 0,
                        height > 0,
                ;
            }
        }
        if fits {
            Ok(ImageTexture { data, height, width })
        } else {
            Err(ImageError::BadGrid)
        }
    }

    /// Decodes a PNG image into a texture.
    pub fn new(png: &[u8]) -> (r: Result<ImageTexture, ImageError>)
        ensures
            match png_rgba(png@) {
                None => r == Err::<ImageTexture, ImageError>(ImageError::Decode),
                Some(d) => {
                    &&& valid_grid(d.0, d.1 as nat, d.2 as nat) <==> r is Ok
                    &&& r matches Ok(t) ==> t.wf() && t.pixels() == d.0 && t.width_spec() == d.1
                        && t.height_spec() == d.2
                    &&& r matches Err(e) ==> e == ImageError::BadGrid
                },
            },
    {
        match decode_rgba(png) {
            Some((data, width, height)) => ImageTexture::from_pixels(data, width, height),
            None => Err(ImageError::Decode),
        }
    }

    pub fn width(&self) -> (r: usize)
        ensures
            r == self.width_spec(),
    {
        self.width
    }

    pub fn height(&self) -> (r: usize)
        ensures
            r == self.height_spec(),
    {
        self.height
    }

    /// The pixel in column `i`, row `j` (row 0 at the top); coordinates past
    /// the edge are clamped to the last column or row.
    pub fn texel(&self, i: usize, j: usize) -> (r: [u8; 4])
        requires
            self.wf(),
        ensures
            r == self.pixels()[texel_index(self.width_spec(), self.height_spec(), i as nat, j as nat)],
    {
        let mut i = i;
        let mut j = j;
        if i >= self.width {
            i = self.width - 1;
        }
        if j >= self.height {
            j = self.height - 1;
        }
        let n = self.data.len();
        proof {
            assert(j * self.width + i < self.width * self.height) by (nonlinear_arith)
                requires
                    i < self.width,
                    j < self.height,
            ;
            assert(n == self.width * self.height);
        }
        self.data[j * self.width + i]
    }
}

} // verus!
