//! Textures the engine manages for its widgets: raw bytes plus the format
//! and filtering metadata the render stage reads. The engine only stores
//! and hands out this record; external stages reference it by handle and
//! own any GPU-side resources themselves.

use vstd::prelude::*;
use vstd::pervasive::VecAdditionalExecFns;
use vstd::string::StringExecFns;
use crate::geometry::Extent2;

verus! {

/// The character of one decimal digit.
pub open spec fn spec_digit(d: nat) -> char {
    if d == 0 {
        '0'
    } else if d == 1 {
        '1'
    } else if d == 2 {
        '2'
    } else if d == 3 {
        '3'
    } else if d == 4 {
        '4'
    } else if d == 5 {
        '5'
    } else if d == 6 {
        '6'
    } else if d == 7 {
        '7'
    } else if d == 8 {
        '8'
    } else {
        '9'
    }
}

/// The decimal numeral of `v`, most significant digit first.
pub open spec fn spec_decimal(v: nat) -> Seq<char>
    decreases v,
{
    if v < 10 {
        seq![spec_digit(v)]
    } else {
        spec_decimal(v / 10).push(spec_digit(v % 10))
    }
}

/// The word naming a texture format.
pub open spec fn spec_format_word(f: TextureFormat) -> Seq<char> {
    match f {
        TextureFormat::Rgba8Srgb => "Rgba8Srgb"@,
        TextureFormat::R8 => "R8"@,
    }
}

/// The word naming a texture filter.
pub open spec fn spec_filter_word(f: TextureFilter) -> Seq<char> {
    match f {
        TextureFilter::Linear => "linear"@,
        TextureFilter::Nearest => "nearest"@,
    }
}

fn append_decimal(out: &mut String, v: u32)
    ensures
        final(out)@ == old(out)@ + spec_decimal(v as nat),
    decreases v,
{
    if v >= 10 {
        append_decimal(out, v / 10);
    }
    let d: u32 = v % 10;
    let digit: &str = if d == 0 {
        "0"
    } else if d == 1 {
        "1"
    } else if d == 2 {
        "2"
    } else if d == 3 {
        "3"
    } else if d == 4 {
        "4"
    } else if d == 5 {
        "5"
    } else if d == 6 {
        "6"
    } else if d == 7 {
        "7"
    } else if d == 8 {
        "8"
    } else {
        "9"
    };
    proof {
        reveal_strlit("0");
        reveal_strlit("1");
        reveal_strlit("2");
        reveal_strlit("3");
        reveal_strlit("4");
        reveal_strlit("5");
        reveal_strlit("6");
        reveal_strlit("7");
        reveal_strlit("8");
        reveal_strlit("9");
    }
    out.append(digit);
    proof {
        assert(out@ =~= old(out)@ + spec_decimal(v as nat));
    }
}

/// A texture format the engine can manage.
#[derive(Debug, Clone, Copy, PartialEq, Eq, Structural)]
#[non_exhaustive]
pub enum TextureFormat {
    /// Red, green, blue, and alpha channels, each represented as one byte;
    /// the color channels are sRGB-encoded.
    Rgba8Srgb,
    /// A single color channel represented as one byte.
    R8,
}

/// Which kind of filtering to use when scaling the texture.
#[derive(Debug, Clone, Copy, PartialEq, Eq, Hash, Structural)]
pub enum TextureFilter {
    /// Blend the nearest pixels in the texture.
    Linear,
    /// Pick the nearest pixel. Useful for pixel art.
    Nearest,
}

/// A texture that the engine manages.
#[derive(Clone, Debug)]
pub struct Texture {
    format: TextureFormat,
    size: Extent2,
    data: Vec<u8>,
    /// How to filter the texture when it needs to be minified (made smaller).
    min_filter: TextureFilter,
    /// How to filter the texture when it needs to be magnified (made larger).
    mag_filter: TextureFilter,
}

impl Texture {
    pub closed spec fn spec_format(&self) -> TextureFormat {
        self.format
    }

    pub closed spec fn spec_size(&self) -> Extent2 {
        self.size
    }

    pub closed spec fn spec_data(&self) -> Seq<u8> {
        self.data@
    }

    pub closed spec fn spec_min_filter(&self) -> TextureFilter {
        self.min_filter
    }

    pub closed spec fn spec_mag_filter(&self) -> TextureFilter {
        self.mag_filter
    }

    /// How this texture is filtered when minified.
    pub fn min_filter(&self) -> (r: TextureFilter)
        ensures
            r == self.spec_min_filter(),
    {
        self.min_filter
    }

    /// How this texture is filtered when magnified.
    pub fn mag_filter(&self) -> (r: TextureFilter)
        ensures
            r == self.spec_mag_filter(),
    {
        self.mag_filter
    }

    /// Choose how the texture is filtered when scaled.
    pub fn set_filters(&mut self, min_filter: TextureFilter, mag_filter: TextureFilter)
        ensures
            final(self).spec_min_filter() == min_filter,
            final(self).spec_mag_filter() == mag_filter,
            final(self).spec_format() == old(self).spec_format(),
            final(self).spec_size() == old(self).spec_size(),
            final(self).spec_data() == old(self).spec_data(),
    {
        self.min_filter = min_filter;
        self.mag_filter = mag_filter;
    }

    /// Create a new texture from its format, size, and data. Minification
    /// defaults to nearest filtering, magnification to linear.
    pub fn new(format: TextureFormat, size: Extent2, data: Vec<u8>) -> (r: Texture)
        ensures
            r.spec_format() == format,
            r.spec_size() == size,
            r.spec_data() == data@,
            r.spec_min_filter() == TextureFilter::Nearest,
            r.spec_mag_filter() == TextureFilter::Linear,
    {
        Texture {
            format,
            size,
            data,
            min_filter: TextureFilter::Nearest,
            mag_filter: TextureFilter::Linear,
        }
    }

    /// The size of the texture.
    pub fn size(&self) -> (r: Extent2)
        ensures
            r == self.spec_size(),
    {
        self.size
    }

    /// The texture's raw data.
    pub fn data(&self) -> (r: &[u8])
        ensures
            r@ == self.spec_data(),
    {
        self.data.as_slice()
    }

    /// Overwrite one byte of the texture's data in place.
    pub fn write_byte(&mut self, i: usize, value: u8)
        requires
            i < old(self).spec_data().len(),
        ensures
            final(self).spec_data() == old(self).spec_data().update(i as int, value),
            final(self).spec_format() == old(self).spec_format(),
            final(self).spec_size() == old(self).spec_size(),
            final(self).spec_min_filter() == old(self).spec_min_filter(),
            final(self).spec_mag_filter() == old(self).spec_mag_filter(),
    {
        self.data.set(i, value);
    }

    /// Replace the texture's data wholesale.
    pub fn set_data(&mut self, data: Vec<u8>)
        ensures
            final(self).spec_data() == data@,
            final(self).spec_format() == old(self).spec_format(),
            final(self).spec_size() == old(self).spec_size(),
            final(self).spec_min_filter() == old(self).spec_min_filter(),
            final(self).spec_mag_filter() == old(self).spec_mag_filter(),
    {
        self.data = data;
    }

    /// A short, human-readable account of the texture: its format, size
    /// and filters, with the raw bytes deliberately left out.
    pub fn describe(&self) -> (r: String)
        ensures
            r@ == spec_format_word(self.spec_format()) + " "@ + spec_decimal(
                self.spec_size().x as nat,
            ) + "x"@ + spec_decimal(self.spec_size().y as nat) + " "@ + spec_filter_word(
                self.spec_min_filter(),
            ) + "/"@ + spec_filter_word(self.spec_mag_filter()),
    {
        let mut out = String::new();
        let format_word: &str = match self.format {
            TextureFormat::Rgba8Srgb => "Rgba8Srgb",
            TextureFormat::R8 => "R8",
        };
        out.append(format_word);
        out.append(" ");
        append_decimal(&mut out, self.size.x);
        out.append("x");
        append_decimal(&mut out, self.size.y);
        out.append(" ");
        let min_word: &str = match self.min_filter {
            TextureFilter::Linear => "linear",
            TextureFilter::Nearest => "nearest",
        };
        out.append(min_word);
        out.append("/");
        let mag_word: &str = match self.mag_filter {
            TextureFilter::Linear => "linear",
            TextureFilter::Nearest => "nearest",
        };
        out.append(mag_word);
        proof {
            assert(out@ =~= spec_format_word(self.spec_format()) + " "@ + spec_decimal(
                self.spec_size().x as nat,
            ) + "x"@ + spec_decimal(self.spec_size().y as nat) + " "@ + spec_filter_word(
                self.spec_min_filter(),
            ) + "/"@ + spec_filter_word(self.spec_mag_filter()));
        }
        out
    }

    /// The texture's format.
    pub fn format(&self) -> (r: TextureFormat)
        ensures
            r == self.spec_format(),
    {
        self.format
    }
}

} // verus!
