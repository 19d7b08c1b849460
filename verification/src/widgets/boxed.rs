//! A padded panel around child components, with an optional background.

use std::boxed::Box as StdBox;

use vstd::prelude::*;

use crate::chars::{chars_of, extend_chars, repeat_char, spaces, string_of};
use crate::component::{texts, Component};
use crate::render::{apply_background_to_line, copy_strings, pad_line, pad_to_width, strings_are};
use crate::style::{styled_by, StyleFn};
use crate::widgets::container::{lemma_texts_flatten, Child};
use crate::widgets::text::{blank_lines, content_width, content_width_of};

verus! {

/// Child lines indented by `padding_x` spaces.
pub open spec fn indent_all(lines: Seq<String>, padding_x: nat) -> Seq<Seq<char>> {
    lines.map_values(|s: String| spaces(padding_x) + s@)
}

/// The panel without a background: `padding_y` blank lines, each indented child line padded
/// to `width`, and `padding_y` blank lines.
pub open spec fn box_lines(child_lines: Seq<Seq<char>>, width: nat, padding_y: nat) -> Seq<Seq<char>> {
    blank_lines(padding_y, width) + child_lines.map_values(|l: Seq<char>| pad_line(l, width))
        + blank_lines(padding_y, width)
}

/// What `render` returns for the children's concatenated lines `flat`: nothing when there
/// are none; otherwise one line per child line plus the vertical padding, and exactly
/// `box_lines` of the indented child lines when there is no background.
pub open spec fn box_output(
    flat: Seq<Seq<char>>,
    r: Seq<Seq<char>>,
    width: nat,
    padding_x: nat,
    padding_y: nat,
    has_bg: bool,
) -> bool {
    let cl = flat.map_values(|l: Seq<char>| spaces(padding_x) + l);
    if cl.len() == 0 {
        r.len() == 0
    } else {
        &&& r.len() == cl.len() + 2 * padding_y
        &&& !has_bg ==> r == box_lines(cl, width, padding_y)
    }
}

/// `line` padded to `width`, styled by `bg` when there is one.
fn bg_line(line: &str, width: usize, bg: &Option<StdBox<dyn StyleFn>>) -> (r: String)
    ensures
        r@ == styled_by(*bg, pad_line(line@, width as nat)),
{
    match bg {
        Some(b) => apply_background_to_line(line, width, b),
        None => pad_to_width(line, width),
    }
}

/// The panel around the children's (indented) lines: `padding_y` blank lines, each line
/// padded to `width`, then `padding_y` blank lines; every line goes through the background
/// when there is one, and without one the lines are exactly `box_lines`.
pub fn frame_box_lines(child_lines: &[String], width: usize, padding_y: usize, bg: &Option<StdBox<dyn StyleFn>>) -> (result: Vec<String>)
    ensures
        result@.len() == child_lines@.len() + 2 * padding_y,
        bg is None ==> strings_are(result@, box_lines(child_lines@.map_values(|s: String| s@), width as nat, padding_y as nat)),
        strings_are(
            result@,
            box_lines(child_lines@.map_values(|s: String| s@), width as nat, padding_y as nat).map_values(
                |l: Seq<char>| styled_by(*bg, l),
            ),
        ),
{
        let empty = String::new();
        let mut result: Vec<String> = Vec::new();
        let mut i: usize = 0;
        while i < padding_y
            invariant
                i <= padding_y,
                empty@ == Seq::<char>::empty(),
                result@.len() == i,
                forall|k: int| 0 <= k < i ==> #[trigger] result@[k]@ == styled_by(*bg, spaces(width as nat)),
            decreases padding_y - i,
        {
            result.push(bg_line(empty.as_str(), width, bg));
            assert(pad_line(Seq::<char>::empty(), width as nat) =~= spaces(width as nat));
            i += 1;
        }
        let mut k: usize = 0;
        while k < child_lines.len()
            invariant
                k <= child_lines@.len(),
                result@.len() == padding_y + k,
                forall|q: int| 0 <= q < padding_y ==> #[trigger] result@[q]@ == styled_by(*bg, spaces(width as nat)),
                forall|q: int| 0 <= q < k ==> #[trigger] result@[padding_y + q]@ == styled_by(*bg, pad_line(child_lines@[q]@, width as nat)),
            decreases child_lines@.len() - k,
        {
            result.push(bg_line(child_lines[k].as_str(), width, bg));
            k += 1;
        }
        let mut j: usize = 0;
        while j < padding_y
            invariant
                j <= padding_y,
                empty@ == Seq::<char>::empty(),
                result@.len() == padding_y + child_lines@.len() + j,
                forall|q: int| 0 <= q < padding_y ==> #[trigger] result@[q]@ == styled_by(*bg, spaces(width as nat)),
                forall|q: int| 0 <= q < child_lines@.len() ==> #[trigger] result@[padding_y + q]@ == styled_by(*bg, pad_line(child_lines@[q]@, width as nat)),
                forall|q: int| padding_y + child_lines@.len() <= q < result@.len() ==> #[trigger] result@[q]@ == styled_by(*bg, spaces(width as nat)),
            decreases padding_y - j,
        {
            result.push(bg_line(empty.as_str(), width, bg));
            assert(pad_line(Seq::<char>::empty(), width as nat) =~= spaces(width as nat));
            j += 1;
        }
        proof {
            let cl = child_lines@.map_values(|s: String| s@);
            let expected = box_lines(cl, width as nat, padding_y as nat);
            let py = padding_y as int;
            assert forall|q: int| 0 <= q < result@.len() implies #[trigger] result@[q]@ == styled_by(*bg, expected[q]) by {
                if q < py {
                } else if q < py + cl.len() {
                    assert(result@[py + (q - py)]@ == styled_by(*bg, pad_line(child_lines@[q - py]@, width as nat)));
                } else {
                    assert(expected[q] == blank_lines(padding_y as nat, width as nat)[q - py - cl.len()]);
                }
            }
        }
        result
}

struct RenderCache {
    child_lines: Vec<String>,
    width: usize,
    bg_sample: Option<String>,
    padding_y: usize,
    lines: Vec<String>,
}

impl RenderCache {
    /// The stored lines are what the stored child lines render to.
    #[verifier::type_invariant]
    spec fn consistent(self) -> bool {
        let cl = self.child_lines@.map_values(|s: String| s@);
        &&& self.lines@.len() == cl.len() + 2 * self.padding_y
        &&& self.bg_sample is None ==> strings_are(
            self.lines@,
            box_lines(cl, self.width as nat, self.padding_y as nat),
        )
    }
}

/// Renders its children inside horizontal and vertical padding.
pub struct Box {
    children: Vec<Child>,
    padding_x: usize,
    padding_y: usize,
    bg_fn: Option<StdBox<dyn StyleFn>>,
    cache: Option<RenderCache>,
}

fn same_strings(a: &[String], b: &[String]) -> (r: bool)
    ensures
        r == (a@.map_values(|s: String| s@) == b@.map_values(|s: String| s@)),
{
    if a.len() != b.len() {
        assert(a@.map_values(|s: String| s@).len() != b@.map_values(|s: String| s@).len());
        return false;
    }
    let mut i: usize = 0;
    while i < a.len()
        invariant
            a@.len() == b@.len(),
            i <= a@.len(),
            forall|k: int| 0 <= k < i ==> (#[trigger] a@[k])@ == b@[k]@,
        decreases a@.len() - i,
    {
        if a[i] != b[i] {
            assert(a@.map_values(|s: String| s@)[i as int] != b@.map_values(|s: String| s@)[i as int]);
            return false;
        }
        i += 1;
    }
    assert(a@.map_values(|s: String| s@) =~= b@.map_values(|s: String| s@));
    true
}

fn same_sample(a: &Option<String>, b: &Option<String>) -> (r: bool)
    ensures
        r == (match (a, b) {
            (Some(x), Some(y)) => x@ == y@,
            (None, None) => true,
            _ => false,
        }),
{
    match (a, b) {
        (Some(x), Some(y)) => *x == *y,
        (None, None) => true,
        _ => false,
    }
}

impl Box {
    /// Whether a rendering is kept for reuse.
    pub closed spec fn cached(&self) -> bool {
        self.cache is Some
    }

    pub closed spec fn child_count(&self) -> nat {
        self.children@.len()
    }

    pub closed spec fn padding_x_view(&self) -> nat {
        self.padding_x as nat
    }

    pub closed spec fn padding_y_view(&self) -> nat {
        self.padding_y as nat
    }

    pub closed spec fn has_bg(&self) -> bool {
        self.bg_fn is Some
    }

    /// Whether `lines` is what child `i` gives when rendered at `width` in this state.
    pub closed spec fn child_renders(&self, i: int, width: usize, lines: Seq<Seq<char>>) -> bool {
        self.children@[i].component.renders(width, lines)
    }

    /// The width the children are rendered at: `width` less both paddings, at least 1.
    pub open spec fn inner_width(&self, width: usize) -> usize {
        content_width(width as nat, self.padding_x_view()) as usize
    }

    pub fn new(padding_x: usize, padding_y: usize, bg_fn: Option<StdBox<dyn StyleFn>>) -> (r: Self)
        ensures
            r.child_count() == 0,
            r.padding_x_view() == padding_x,
            r.padding_y_view() == padding_y,
            r.has_bg() == bg_fn is Some,
    {
        Box { children: Vec::new(), padding_x, padding_y, bg_fn, cache: None }
    }

    /// Appends a child below the existing ones.
    pub fn add_child(&mut self, component: StdBox<dyn Component>)
        ensures
            final(self).child_count() == old(self).child_count() + 1,
            forall|k: int, w: usize, l: Seq<Seq<char>>|
                0 <= k < old(self).child_count() ==> (#[trigger] final(self).child_renders(k, w, l) == old(self).child_renders(k, w, l)),
            final(self).padding_x_view() == old(self).padding_x_view(),
            final(self).padding_y_view() == old(self).padding_y_view(),
            final(self).has_bg() == old(self).has_bg(),
    {
        let child = Child { component };
        let ghost before = self.children@;
        self.cache = None;
        self.children.push(child);
        proof {
            vstd::seq::axiom_seq_push_len(before, child);
            assert forall|k: int| 0 <= k < before.len() implies self.children@[k] == before[k] by {
                vstd::seq::axiom_seq_push_index_different(before, child, k);
            }
        }
    }

    /// Removes the child at `index`; `false` (and no change) when there is none.
    pub fn remove_child(&mut self, index: usize) -> (r: bool)
        ensures
            r == (index < old(self).child_count()),
            final(self).child_count() == (if r {
                old(self).child_count() - 1
            } else {
                old(self).child_count() as int
            }),
            r ==> forall|k: int, w: usize, l: Seq<Seq<char>>|
                0 <= k < index ==> (#[trigger] final(self).child_renders(k, w, l) == old(self).child_renders(k, w, l)),
            r ==> forall|k: int, w: usize, l: Seq<Seq<char>>|
                index <= k < final(self).child_count() ==> (#[trigger] final(self).child_renders(k, w, l)
                    == old(self).child_renders(k + 1, w, l)),
            final(self).padding_x_view() == old(self).padding_x_view(),
            final(self).padding_y_view() == old(self).padding_y_view(),
            final(self).has_bg() == old(self).has_bg(),
    {
        if index >= self.children.len() {
            return false;
        }
        self.children.remove(index);
        self.cache = None;
        true
    }

    pub fn clear(&mut self)
        ensures
            final(self).child_count() == 0,
            final(self).padding_x_view() == old(self).padding_x_view(),
            final(self).padding_y_view() == old(self).padding_y_view(),
            final(self).has_bg() == old(self).has_bg(),
    {
        self.children.clear();
        self.cache = None;
    }

    /// Sets (or removes) the background function; a changed background is noticed at the
    /// next render by sampling it.
    pub fn set_bg_fn(&mut self, bg_fn: Option<StdBox<dyn StyleFn>>)
        ensures
            final(self).child_count() == old(self).child_count(),
            final(self).padding_x_view() == old(self).padding_x_view(),
            final(self).padding_y_view() == old(self).padding_y_view(),
            final(self).has_bg() == bg_fn is Some,
    {
        self.bg_fn = bg_fn;
    }

    /// Renders every child at the content width and indents its lines.
    fn render_children(&mut self, width: usize) -> (r: (Vec<String>, Ghost<Seq<Seq<String>>>))
        ensures
            r.1@.len() == old(self).children@.len(),
            strings_are(r.0@, indent_all(r.1@.flatten(), old(self).padding_x as nat)),
            forall|k: int| 0 <= k < r.1@.len() ==> #[trigger] old(self).child_renders(k, old(self).inner_width(width), texts(r.1@[k])),
            final(self).children@.len() == old(self).children@.len(),
            final(self).padding_x == old(self).padding_x,
            final(self).padding_y == old(self).padding_y,
            final(self).bg_fn == old(self).bg_fn,
            final(self).cache == old(self).cache,
    {
        let cw = content_width_of(width, self.padding_x);
        let left = repeat_char(' ', self.padding_x);
        assert(left@ =~= spaces(self.padding_x as nat));
        let n = self.children.len();
        let mut out: Vec<String> = Vec::new();
        let ghost mut parts: Seq<Seq<String>> = Seq::empty();
        let mut i: usize = 0;
        while i < n
            invariant
                n == self.children@.len(),
                i <= n,
                parts.len() == i,
                self.padding_x == old(self).padding_x,
                self.padding_y == old(self).padding_y,
                self.bg_fn == old(self).bg_fn,
                self.cache == old(self).cache,
                left@ == spaces(self.padding_x as nat),
                strings_are(out@, indent_all(parts.flatten(), self.padding_x as nat)),
                cw == old(self).inner_width(width),
                n == old(self).children@.len(),
                forall|j: int| i <= j < n ==> self.children@[j] == old(self).children@[j],
                forall|k: int| 0 <= k < i ==> #[trigger] old(self).child_renders(k, cw, texts(parts[k])),
            decreases n - i,
        {
            let lines = self.children[i].component.render(cw);
            assert(old(self).child_renders(i as int, cw, texts(lines@)));
            let ghost before = out@;
            let ghost flat = parts.flatten();
            let mut k: usize = 0;
            while k < lines.len()
                invariant
                    k <= lines@.len(),
                    left@ == spaces(self.padding_x as nat),
                    strings_are(out@, indent_all(flat + lines@.subrange(0, k as int), self.padding_x as nat)),
                decreases lines@.len() - k,
            {
                let mut v = left.clone();
                extend_chars(&mut v, chars_of(lines[k].as_str()).as_slice());
                out.push(string_of(v.as_slice()));
                proof {
                    let next = flat + lines@.subrange(0, k + 1 as int);
                    assert(next =~= (flat + lines@.subrange(0, k as int)).push(lines@[k as int]));
                    let target = indent_all(next, self.padding_x as nat);
                    assert forall|q: int| 0 <= q < out@.len() implies #[trigger] out@[q]@ == target[q] by {
                        if q < out@.len() - 1 {
                            assert(indent_all(flat + lines@.subrange(0, k as int), self.padding_x as nat)[q] == target[q]);
                        }
                    }
                }
                k += 1;
            }
            proof {
                assert(lines@.subrange(0, lines@.len() as int) =~= lines@);
                parts.lemma_flatten_push(lines@);
                let ghost prev = parts;
                parts = parts.push(lines@);
                assert forall|k: int| 0 <= k < i + 1 implies #[trigger] old(self).child_renders(k, cw, texts(parts[k])) by {
                    if k < i {
                        assert(parts[k] == prev[k]);
                    }
                }
            }
            i += 1;
        }
        (out, Ghost(parts))
    }

    fn match_cache(&self, width: usize, child_lines: &[String], bg_sample: &Option<String>) -> (r: bool)
        ensures
            r == (self.cache matches Some(c) && c.width == width && c.padding_y == self.padding_y
                && c.child_lines@.map_values(|s: String| s@) == child_lines@.map_values(|s: String| s@)
                && match (c.bg_sample, *bg_sample) {
                    (Some(x), Some(y)) => x@ == y@,
                    (None, None) => true,
                    _ => false,
                }),
    {
        match &self.cache {
            Some(c) => c.width == width && c.padding_y == self.padding_y && same_sample(
                &c.bg_sample,
                bg_sample,
            ) && same_strings(c.child_lines.as_slice(), child_lines),
            None => false,
        }
    }
}

impl Default for Box {
    fn default() -> (r: Self)
        ensures
            r.child_count() == 0,
            r.padding_x_view() == 1,
            r.padding_y_view() == 1,
            !r.has_bg(),
    {
        Box::new(1, 1, None)
    }
}

impl Component for Box {
    /// The children's lines, each child rendered at the inner width, indented and framed by
    /// the padding (see `box_output`).
    open spec fn renders(&self, width: usize, lines: Seq<Seq<char>>) -> bool {
        exists|parts: Seq<Seq<Seq<char>>>|
            #![trigger parts.flatten()]
            parts.len() == self.child_count() && (forall|i: int| 0 <= i < parts.len() ==> #[trigger] self.child_renders(
                i,
                self.inner_width(width),
                parts[i],
            )) && box_output(
                parts.flatten(),
                lines,
                width as nat,
                self.padding_x_view(),
                self.padding_y_view(),
                self.has_bg(),
            )
    }

    fn render(&mut self, width: usize) -> (r: Vec<String>)
        ensures
            final(self).child_count() == old(self).child_count(),
    {
        if self.children.len() == 0 {
            proof {
                let e = Seq::<Seq<Seq<char>>>::empty();
                assert(e.flatten() =~= Seq::<Seq<char>>::empty());
                assert(box_output(e.flatten(), texts(Seq::<String>::empty()), width as nat, self.padding_x as nat, self.padding_y as nat, self.bg_fn is Some));
            }
            return Vec::new();
        }
        let ghost old_self = *self;
        let (child_lines, Ghost(parts)) = self.render_children(width);
        let ghost tparts = parts.map_values(|p: Seq<String>| texts(p));
        let ghost flat = tparts.flatten();
        let ghost cl = flat.map_values(|l: Seq<char>| spaces(self.padding_x as nat) + l);
        proof {
            lemma_texts_flatten(parts);
            assert(parts.map_values(|p: Seq<String>| p.map_values(|s: String| s@)) =~= tparts);
            assert(texts(parts.flatten()) == flat);
            assert(child_lines@.map_values(|s: String| s@) =~= cl);
            assert forall|k: int| 0 <= k < tparts.len() implies #[trigger] old_self.child_renders(k, old_self.inner_width(width), tparts[k]) by {
                assert(tparts[k] == texts(parts[k]));
            }
        }
        if child_lines.len() == 0 {
            assert(old_self.renders(width, texts(Seq::<String>::empty())));
            return Vec::new();
        }
        let bg_sample: Option<String> = match &self.bg_fn {
            Some(bg) => Some(bg.style(string_of(&['t', 'e', 's', 't']).as_str())),
            None => None,
        };
        if self.match_cache(width, child_lines.as_slice(), &bg_sample) {
            let cached = match &self.cache {
                Some(c) => {
                    proof {
                        use_type_invariant(c);
                    }
                    copy_strings(c.lines.as_slice())
                },
                None => Vec::new(),
            };
            proof {
                if self.bg_fn is None {
                    assert(texts(cached@) =~= box_lines(cl, width as nat, self.padding_y as nat));
                }
                assert(texts(cached@).len() == cached@.len());
                assert(box_output(flat, texts(cached@), width as nat, self.padding_x as nat, self.padding_y as nat, self.bg_fn is Some));
                assert(old_self.renders(width, texts(cached@)));
            }
            return cached;
        }
        let result = frame_box_lines(child_lines.as_slice(), width, self.padding_y, &self.bg_fn);
        proof {
            assert(child_lines@.map_values(|s: String| s@) == cl);
            if self.bg_fn is None {
                assert(texts(result@) =~= box_lines(cl, width as nat, self.padding_y as nat));
            }
            assert(texts(result@).len() == result@.len());
            assert(box_output(flat, texts(result@), width as nat, self.padding_x as nat, self.padding_y as nat, self.bg_fn is Some));
            assert(old_self.renders(width, texts(result@)));
        }
        let lines_copy = copy_strings(result.as_slice());
        self.cache = Some(
            RenderCache {
                child_lines,
                width,
                bg_sample,
                padding_y: self.padding_y,
                lines: lines_copy,
            },
        );
        result
    }

    /// Drops the kept rendering, and the children's.
    fn invalidate(&mut self)
        ensures
            !final(self).cached(),
            final(self).child_count() == old(self).child_count(),
            final(self).padding_x_view() == old(self).padding_x_view(),
            final(self).padding_y_view() == old(self).padding_y_view(),
            final(self).has_bg() == old(self).has_bg(),
    {
        self.cache = None;
        let n = self.children.len();
        let mut i: usize = 0;
        while i < n
            invariant
                n == self.children@.len(),
                i <= n,
                self.cache is None,
                self.padding_x == old(self).padding_x,
                self.padding_y == old(self).padding_y,
                self.bg_fn == old(self).bg_fn,
            decreases n - i,
        {
            self.children[i].component.invalidate();
            i += 1;
        }
    }
}

} // verus!
