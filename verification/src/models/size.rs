//! Photo sizes.
use crate::config::PhotoConfig;
use crate::text::{decimal3, push_decimal3, push_str, string_of};
use vstd::prelude::*;

verus! {

/// Suffix of original photo files.
pub const SUFFIX_ORIGINAL: &'static str = "o";

/// Suffix of the size shown when a photo is enlarged.
pub const SUFFIX_LARGE: &'static str = "l";

/// Suffix of the size shown within a post.
pub const SUFFIX_MEDIUM: &'static str = "m";

/// Suffix of the size shown in post summaries.
pub const SUFFIX_SMALL: &'static str = "s";

/// Suffix of the size shown in search results.
pub const SUFFIX_THUMB: &'static str = "t";

/// Width, height and file name of one size of a photo.
#[derive(Debug, PartialEq, Eq)]
pub struct Size {
    pub width: u16,
    pub height: u16,
    pub name: String,
}

/// `a * l / b` rounded to the nearest integer, halves up; 0 when `b` is 0.
pub open spec fn scaled(a: int, l: int, b: int) -> int {
    if b == 0 {
        0
    } else {
        (2 * (a * l) + b) / (2 * b)
    }
}

/// Left and top of the centered square of a size, and its edge: the short
/// edge.
pub open spec fn center_square_spec(s: Size) -> (u16, u16, u16) {
    if s.width > s.height {
        (((s.width - s.height) / 2) as u16, 0u16, s.height)
    } else {
        (0u16, ((s.height - s.width) / 2) as u16, s.width)
    }
}

impl Size {
    pub fn new(width: u16, height: u16, name: String) -> (s: Self)
        ensures
            s.width == width,
            s.height == height,
            s.name@ == name@,
    {
        Size { width, height, name }
    }

    /// Coordinates needed to crop a center square: x, y and edge length.
    pub fn center_square(&self) -> (r: (u16, u16, u16))
        ensures
            r == center_square_spec(*self),
    {
        if self.width > self.height {
            ((self.width - self.height) / 2, 0, self.height)
        } else {
            (0, (self.height - self.width) / 2, self.width)
        }
    }

    /// Dimensions with the long edge at most `long_edge`, keeping the aspect
    /// ratio; a photo already smaller than that keeps its dimensions.
    pub fn limit_to(&self, long_edge: u16, new_name: String) -> (s: Size)
        ensures
            s.name@ == new_name@,
            (s.width as int, s.height as int) == limit_dims(
                self.width as int,
                self.height as int,
                long_edge as int,
            ),
    {
        if long_edge > self.width && long_edge > self.height {
            Size { width: self.width, height: self.height, name: new_name }
        } else if self.height > self.width {
            let w = scale_exec(self.width, long_edge, self.height);
            Size::new(w, long_edge, new_name)
        } else {
            let h = scale_exec(self.height, long_edge, self.width);
            Size::new(long_edge, h, new_name)
        }
    }
}

/// Width and height of a `w` by `h` photo whose long edge is limited to `l`.
pub open spec fn limit_dims(w: int, h: int, l: int) -> (int, int) {
    if l > w && l > h {
        (w, h)
    } else if h > w {
        (scaled(w, l, h), l)
    } else {
        (l, scaled(h, l, w))
    }
}

/// Scaling `a` by `l / b` gives at most `a` when `l` is at most `b`, and at
/// most `l` when `a` is at most `b`.
proof fn lemma_scaled_bounds(a: int, l: int, b: int)
    requires
        0 <= a,
        0 <= l,
        0 < b,
    ensures
        l <= b ==> scaled(a, l, b) <= a,
        a <= b ==> scaled(a, l, b) <= l,
{
    let num = 2 * (a * l) + b;
    let den = 2 * b;
    if l <= b {
        assert(num / den <= a) by (nonlinear_arith)
            requires
                num == 2 * (a * l) + b,
                den == 2 * b,
                l <= b,
                0 <= a,
                0 <= l,
                0 < b,
        {
            assert(a * l <= a * b);
            assert(num < den * (a + 1));
        }
    }
    if a <= b {
        assert(num / den <= l) by (nonlinear_arith)
            requires
                num == 2 * (a * l) + b,
                den == 2 * b,
                a <= b,
                0 <= a,
                0 <= l,
                0 < b,
        {
            assert(a * l <= b * l);
            assert(num < den * (l + 1));
        }
    }
}

/// Limiting the long edge never enlarges a photo, and a photo larger than
/// the limit ends with neither edge beyond it.
pub proof fn lemma_limit_never_enlarges(w: int, h: int, l: int)
    requires
        0 <= w,
        0 <= h,
        0 <= l,
    ensures
        limit_dims(w, h, l).0 <= w,
        limit_dims(w, h, l).1 <= h,
        !(l > w && l > h) ==> limit_dims(w, h, l).0 <= l && limit_dims(w, h, l).1 <= l,
{
    if !(l > w && l > h) {
        if h > w {
            lemma_scaled_bounds(w, l, h);
        } else if w > 0 {
            lemma_scaled_bounds(h, l, w);
        }
    }
}

fn scale_exec(a: u16, l: u16, b: u16) -> (r: u16)
    requires
        a <= b,
    ensures
        r == scaled(a as int, l as int, b as int),
{
    if b == 0 {
        return 0;
    }
    let a64 = a as u64;
    let l64 = l as u64;
    assert(a64 * l64 <= 65535 * 65535) by (nonlinear_arith)
        requires
            a64 <= 65535,
            l64 <= 65535,
    ;
    let num: u64 = 2 * (a64 * l64) + (b as u64);
    let den: u64 = 2 * (b as u64);
    let q = num / den;
    assert(q <= l) by (nonlinear_arith)
        requires
            q == num / den,
            num == 2 * (a * l) + b,
            den == 2 * b,
            a <= b,
            b > 0,
    {
        assert(2 * a * l <= 2 * b * l);
        assert(num < 2 * b * l + 2 * b);
        assert(num / den <= l);
    }
    q as u16
}

/// File name of one size of a photo: the index padded to three digits, an
/// underscore, the size suffix and the extension.
pub open spec fn photo_file_name(index: u8, suffix: Seq<char>, ext: Seq<char>) -> Seq<char> {
    decimal3(index as nat) + "_"@ + suffix + ext
}

pub fn photo_file_name_exec(index: u8, suffix: &str, ext: &str) -> (name: String)
    ensures
        name@ == photo_file_name(index, suffix@, ext@),
{
    let mut v = Vec::new();
    push_decimal3(&mut v, index as u64);
    push_str(&mut v, "_");
    push_str(&mut v, suffix);
    push_str(&mut v, ext);
    string_of(&v)
}

/// The sizes in which a photo is made available.
#[derive(Debug, PartialEq, Eq)]
pub struct SizeCollection {
    pub original: Size,
    /// Size shown when image is enlarged
    pub large: Size,
    /// Main size within post body
    pub medium: Size,
    /// Size shown in post summary on category page
    pub small: Size,
    /// Size shown in search results
    pub thumb: Size,
}

/// Sizes `c` are those of a photo with original dimensions `width` by
/// `height` and index `index`: large, medium and small limited to the
/// configured edges, and a square thumbnail, each named by the photo's index,
/// the size's suffix and the output extension.
pub open spec fn sized(c: SizeCollection, width: u16, height: u16, index: u8, config: PhotoConfig) -> bool {
    &&& c.original.width == width && c.original.height == height
    &&& c.original.name@ == photo_file_name(index, SUFFIX_ORIGINAL@, config.output_ext@)
    &&& (c.large.width as int, c.large.height as int) == limit_dims(width as int, height as int, config.size.large as int)
    &&& c.large.name@ == photo_file_name(index, SUFFIX_LARGE@, config.output_ext@)
    &&& (c.medium.width as int, c.medium.height as int) == limit_dims(width as int, height as int, config.size.medium as int)
    &&& c.medium.name@ == photo_file_name(index, SUFFIX_MEDIUM@, config.output_ext@)
    &&& (c.small.width as int, c.small.height as int) == limit_dims(width as int, height as int, config.size.small as int)
    &&& c.small.name@ == photo_file_name(index, SUFFIX_SMALL@, config.output_ext@)
    &&& c.thumb.width == config.size.thumb && c.thumb.height == config.size.thumb
    &&& c.thumb.name@ == photo_file_name(index, SUFFIX_THUMB@, config.output_ext@)
}

impl SizeCollection {
    /// Sizes of a photo derived from its original dimensions: large, medium
    /// and small limited to the configured edges, and a square thumbnail.
    pub fn from(width: u16, height: u16, index: u8, config: &PhotoConfig) -> (c: Self)
        ensures
            sized(c, width, height, index, *config),
    {
        let ext = config.output_ext.as_str();
        let original = Size::new(width, height, photo_file_name_exec(index, SUFFIX_ORIGINAL, ext));
        let large = original.limit_to(config.size.large, photo_file_name_exec(index, SUFFIX_LARGE, ext));
        let medium = original.limit_to(config.size.medium, photo_file_name_exec(index, SUFFIX_MEDIUM, ext));
        let small = original.limit_to(config.size.small, photo_file_name_exec(index, SUFFIX_SMALL, ext));
        let thumb = Size::new(config.size.thumb, config.size.thumb, photo_file_name_exec(index, SUFFIX_THUMB, ext));
        SizeCollection { original, large, medium, small, thumb }
    }

    /// Whether photo is in portrait orientation (taller than wide).
    pub fn is_portrait(&self) -> (b: bool)
        ensures
            b == (self.original.width < self.original.height),
    {
        self.original.width < self.original.height
    }

    /// Whether photo is in landscape orientation (wider than tall).
    pub fn is_landscape(&self) -> (b: bool)
        ensures
            b == (self.original.width > self.original.height),
    {
        self.original.width > self.original.height
    }
}

} // verus!

verus! {

impl Default for Size {
    /// An empty size: no width, height or name.
    fn default() -> (s: Size)
        ensures
            s.width == 0,
            s.height == 0,
            s.name@.len() == 0,
    {
        Size { width: 0, height: 0, name: String::new() }
    }
}

impl Default for SizeCollection {
    /// Empty sizes.
    fn default() -> (c: SizeCollection)
        ensures
            c.original.width == 0 && c.original.height == 0 && c.original.name@.len() == 0,
            c.large.width == 0 && c.large.height == 0 && c.large.name@.len() == 0,
            c.medium.width == 0 && c.medium.height == 0 && c.medium.name@.len() == 0,
            c.small.width == 0 && c.small.height == 0 && c.small.name@.len() == 0,
            c.thumb.width == 0 && c.thumb.height == 0 && c.thumb.name@.len() == 0,
    {
        SizeCollection {
            original: Size::default(),
            large: Size::default(),
            medium: Size::default(),
            small: Size::default(),
            thumb: Size::default(),
        }
    }
}

} // verus!
