//! An inline image: drawn through the terminal's graphics protocol when an encoded sequence is
//! at hand, otherwise as a one-line text description.

use vstd::prelude::*;

use crate::chars::{chars_of, extend_chars, string_of};
use crate::component::Component;
use crate::digits::{decimal, decimal_chars};
use crate::render::{copy_strings, strings_are};
use crate::style::StyleFn;

verus! {

/// Pixel size of an image.
#[derive(Clone, Copy, Debug, PartialEq, Eq)]
pub struct ImageDimensions {
    pub width_px: u32,
    pub height_px: u32,
}

/// Colors of the image widget.
pub struct ImageTheme {
    /// Style of the text shown where the image cannot be drawn.
    pub fallback_color: Box<dyn StyleFn>,
}

#[derive(Debug, Clone, Default)]
pub struct ImageOptions {
    pub max_width_cells: Option<u32>,
    pub max_height_cells: Option<u32>,
    pub filename: Option<String>,
    pub image_id: Option<u32>,
}

/// What the graphics encoder is asked for when the image is drawn.
#[derive(Debug, Clone, PartialEq, Eq)]
pub struct ImageRenderOptions {
    pub max_width_cells: Option<u32>,
    pub max_height_cells: Option<u32>,
    pub preserve_aspect_ratio: Option<bool>,
    pub image_id: Option<u32>,
}

/// What the graphics encoder produced: the escape sequence, the number of terminal rows the
/// picture covers, and the protocol's image id, if it assigned one.
#[derive(Debug, Clone)]
pub struct ImageRender {
    pub sequence: String,
    pub rows: u32,
    pub image_id: Option<u32>,
}

/// Dimensions used when none are given.
pub open spec fn default_dimensions() -> ImageDimensions {
    ImageDimensions { width_px: 800, height_px: 600 }
}

/// `[Image: name [mime] WxH]`, leaving out the name and the size when they are unknown.
pub open spec fn fallback_text(
    mime_type: Seq<char>,
    dimensions: Option<ImageDimensions>,
    filename: Option<Seq<char>>,
) -> Seq<char> {
    let name = match filename {
        Some(f) => f + seq![' '],
        None => Seq::empty(),
    };
    let size = match dimensions {
        Some(d) => seq![' '] + decimal(d.width_px as nat) + seq!['x'] + decimal(
            d.height_px as nat,
        ),
        None => Seq::empty(),
    };
    seq!['[', 'I', 'm', 'a', 'g', 'e', ':', ' '] + name + seq!['['] + mime_type + seq![']'] + size
        + seq![']']
}

/// The cursor-up sequence that brings the cursor back to the first of `rows` rows.
pub open spec fn move_up(rows: nat) -> Seq<char> {
    if rows > 1 {
        seq!['\x1b', '['] + decimal((rows - 1) as nat) + seq!['A']
    } else {
        Seq::empty()
    }
}

/// The lines of a drawn image: `rows - 1` empty lines reserve the space, and the last line
/// moves back up and emits the sequence.
pub open spec fn drawn_lines(rows: nat, sequence: Seq<char>) -> Seq<Seq<char>> {
    if rows == 0 {
        Seq::empty()
    } else {
        Seq::new((rows - 1) as nat, |_i: int| Seq::<char>::empty()).push(move_up(rows) + sequence)
    }
}

/// The textual stand-in for an image that cannot be drawn.
pub fn image_fallback(
    mime_type: &str,
    dimensions: Option<ImageDimensions>,
    filename: Option<&str>,
) -> (r: String)
    ensures
        r@ == fallback_text(
            mime_type@,
            dimensions,
            match filename {
                Some(f) => Some(f@),
                None => None,
            },
        ),
{
    let mut out: Vec<char> = Vec::new();
    extend_chars(&mut out, &['[', 'I', 'm', 'a', 'g', 'e', ':', ' ']);
    match filename {
        Some(f) => {
            let fv = chars_of(f);
            extend_chars(&mut out, fv.as_slice());
            out.push(' ');
        },
        None => {},
    }
    out.push('[');
    let mv = chars_of(mime_type);
    extend_chars(&mut out, mv.as_slice());
    out.push(']');
    match dimensions {
        Some(d) => {
            out.push(' ');
            let w = decimal_chars(d.width_px as usize);
            extend_chars(&mut out, w.as_slice());
            out.push('x');
            let h = decimal_chars(d.height_px as usize);
            extend_chars(&mut out, h.as_slice());
        },
        None => {},
    }
    out.push(']');
    let r = string_of(out.as_slice());
    proof {
        let name = match filename {
            Some(f) => f@ + seq![' '],
            None => Seq::<char>::empty(),
        };
        let size = match dimensions {
            Some(d) => seq![' '] + decimal(d.width_px as nat) + seq!['x'] + decimal(
                d.height_px as nat,
            ),
            None => Seq::<char>::empty(),
        };
        assert(r@ =~= seq!['[', 'I', 'm', 'a', 'g', 'e', ':', ' '] + name + seq!['['] + mime_type@
            + seq![']'] + size + seq![']']);
    }
    r
}

/// The lines of a drawn image (see `drawn_lines`).
fn draw_lines(rows: u32, sequence: &str) -> (r: Vec<String>)
    ensures
        strings_are(r@, drawn_lines(rows as nat, sequence@)),
{
    let mut lines: Vec<String> = Vec::new();
    if rows == 0 {
        assert(drawn_lines(0, sequence@) =~= Seq::empty());
        return lines;
    }
    let n = rows as usize;
    let mut i: usize = 0;
    while i < n - 1
        invariant
            1 <= n,
            n == rows,
            i <= n - 1,
            lines@.len() == i,
            forall|k: int| 0 <= k < i ==> (#[trigger] lines@[k])@ == Seq::<char>::empty(),
        decreases n - 1 - i,
    {
        lines.push(String::new());
        i += 1;
    }
    let mut last: Vec<char> = Vec::new();
    if n > 1 {
        extend_chars(&mut last, &['\x1b', '[']);
        let d = decimal_chars(n - 1);
        extend_chars(&mut last, d.as_slice());
        last.push('A');
    }
    assert(last@ =~= move_up(rows as nat));
    let sv = chars_of(sequence);
    extend_chars(&mut last, sv.as_slice());
    lines.push(string_of(last.as_slice()));
    proof {
        let expected = drawn_lines(rows as nat, sequence@);
        assert(lines@.len() == expected.len());
        assert forall|k: int| 0 <= k < lines@.len() implies (#[trigger] lines@[k])@ == expected[k] by {
            if k < n - 1 {
                assert(expected[k] == Seq::<char>::empty());
            }
        }
    }
    lines
}

struct ImageCache {
    lines: Vec<String>,
    width: usize,
}

/// An image shown inline among the other components.
pub struct Image {
    base64_data: String,
    mime_type: String,
    dimensions: ImageDimensions,
    theme: ImageTheme,
    options: ImageOptions,
    image_id: Option<u32>,
    cache: Option<ImageCache>,
}

impl Image {
    /// The encoded image data.
    pub closed spec fn data_view(&self) -> Seq<char> {
        self.base64_data@
    }

    pub closed spec fn mime_view(&self) -> Seq<char> {
        self.mime_type@
    }

    pub closed spec fn dimensions_view(&self) -> ImageDimensions {
        self.dimensions
    }

    pub closed spec fn options_view(&self) -> ImageOptions {
        self.options
    }

    /// The id under which the terminal knows the image, if any.
    pub closed spec fn id_view(&self) -> Option<u32> {
        self.image_id
    }

    /// Whether the last rendering, made at `width`, is kept.
    pub closed spec fn cached_at(&self, width: usize) -> bool {
        self.cache is Some && self.cache->0.width == width
    }

    /// The kept lines of the last rendering.
    pub closed spec fn cached_lines(&self) -> Seq<String> {
        self.cache->0.lines@
    }

    /// Same image, same options: everything but the id and the kept rendering.
    pub open spec fn same_source(&self, other: &Image) -> bool {
        &&& self.data_view() == other.data_view()
        &&& self.mime_view() == other.mime_view()
        &&& self.dimensions_view() == other.dimensions_view()
        &&& self.options_view() == other.options_view()
    }

    /// An image of the given data. Without `dimensions`, 800 by 600 pixels are assumed; the
    /// image id starts as the one in `options`.
    pub fn new(
        base64_data: &str,
        mime_type: &str,
        theme: ImageTheme,
        options: ImageOptions,
        dimensions: Option<ImageDimensions>,
    ) -> (r: Self)
        ensures
            r.data_view() == base64_data@,
            r.mime_view() == mime_type@,
            r.dimensions_view() == (match dimensions {
                Some(d) => d,
                None => default_dimensions(),
            }),
            r.options_view() == options,
            r.id_view() == options.image_id,
            forall|w: usize| !r.cached_at(w),
    {
        let dims = match dimensions {
            Some(d) => d,
            None => ImageDimensions { width_px: 800, height_px: 600 },
        };
        let image_id = options.image_id;
        Image {
            base64_data: base64_data.to_owned(),
            mime_type: mime_type.to_owned(),
            dimensions: dims,
            theme,
            options,
            image_id,
            cache: None,
        }
    }

    pub fn get_image_id(&self) -> (r: Option<u32>)
        ensures
            r == self.id_view(),
    {
        self.image_id
    }

    /// Widest picture, in cells, at `width`: the configured maximum (60 by default), but two
    /// cells narrower than the width at most.
    pub fn max_width_cells_at(&self, width: usize) -> (r: u32)
        ensures
            r == ({
                let limit = (if width >= 2 { width - 2 } else { 0 }) as u32;
                let wanted = match self.options_view().max_width_cells {
                    Some(m) => m,
                    None => 60u32,
                };
                if wanted <= limit { wanted } else { limit }
            }),
    {
        let sub = if width >= 2 { width - 2 } else { 0 };
        #[verifier::truncate]
        let limit = sub as u32;
        let wanted = match self.options.max_width_cells {
            Some(m) => m,
            None => 60,
        };
        if wanted <= limit { wanted } else { limit }
    }

    /// What the graphics encoder is to be asked for when the image is drawn at `width`.
    pub fn render_options(&self, width: usize) -> (r: ImageRenderOptions)
        ensures
            r.max_width_cells == Some(
                ({
                    let limit = (if width >= 2 { width - 2 } else { 0 }) as u32;
                    let wanted = match self.options_view().max_width_cells {
                        Some(m) => m,
                        None => 60u32,
                    };
                    if wanted <= limit { wanted } else { limit }
                }),
            ),
            r.max_height_cells == self.options_view().max_height_cells,
            r.preserve_aspect_ratio is None,
            r.image_id == self.id_view(),
    {
        ImageRenderOptions {
            max_width_cells: Some(self.max_width_cells_at(width)),
            max_height_cells: self.options.max_height_cells,
            preserve_aspect_ratio: None,
            image_id: self.image_id,
        }
    }

    /// The text shown in place of the picture.
    pub fn fallback(&self) -> (r: String)
        ensures
            r@ == fallback_text(
                self.mime_view(),
                Some(self.dimensions_view()),
                match self.options_view().filename {
                    Some(f) => Some(f@),
                    None => None,
                },
            ),
    {
        let name = match &self.options.filename {
            Some(f) => Some(f.as_str()),
            None => None,
        };
        image_fallback(self.mime_type.as_str(), Some(self.dimensions), name)
    }

    /// Renders at `width`, given what the graphics encoder produced for `render_options(width)`
    /// (`None` where the terminal cannot show images or the encoder gave up). A rendering kept
    /// from the same width is returned unchanged. A drawn image takes over the encoder's id;
    /// otherwise a single line shows the styled fallback text.
    pub fn render_with(&mut self, width: usize, encoded: Option<ImageRender>) -> (r: Vec<String>)
        ensures
            final(self).same_source(old(self)),
            old(self).cached_at(width) ==> {
                &&& r@ == old(self).cached_lines()
                &&& final(self).id_view() == old(self).id_view()
                &&& final(self).cached_at(width)
                &&& final(self).cached_lines() == old(self).cached_lines()
            },
            !old(self).cached_at(width) ==> {
                &&& final(self).cached_at(width)
                &&& final(self).cached_lines() == r@
                &&& match encoded {
                    Some(e) => {
                        &&& strings_are(r@, drawn_lines(e.rows as nat, e.sequence@))
                        &&& final(self).id_view() == (if e.image_id is Some {
                            e.image_id
                        } else {
                            old(self).id_view()
                        })
                    },
                    None => {
                        &&& r@.len() == 1
                        &&& final(self).id_view() == old(self).id_view()
                    },
                }
            },
    {
        match &self.cache {
            Some(c) => {
                if c.width == width {
                    return copy_strings(c.lines.as_slice());
                }
            },
            None => {},
        }
        let lines = match encoded {
            Some(e) => {
                if e.image_id.is_some() {
                    self.image_id = e.image_id;
                }
                draw_lines(e.rows, e.sequence.as_str())
            },
            None => {
                let text = self.fallback();
                let styled = self.theme.fallback_color.style(text.as_str());
                vec![styled]
            },
        };
        self.cache = Some(ImageCache { lines: copy_strings(lines.as_slice()), width });
        lines
    }
}

impl Component for Image {
    /// Without an encoded sequence at hand, the image renders as its fallback text.
    fn render(&mut self, width: usize) -> (r: Vec<String>)
        ensures
            final(self).same_source(old(self)),
            final(self).id_view() == old(self).id_view(),
            final(self).cached_at(width),
            final(self).cached_lines() == r@,
            old(self).cached_at(width) ==> r@ == old(self).cached_lines(),
            !old(self).cached_at(width) ==> r@.len() == 1,
    {
        self.render_with(width, None)
    }

    /// Drops the kept rendering.
    fn invalidate(&mut self)
        ensures
            final(self).same_source(old(self)),
            final(self).id_view() == old(self).id_view(),
            forall|w: usize| !final(self).cached_at(w),
    {
        self.cache = None;
    }
}

} // verus!
