//! Markdown rendered to styled terminal lines: headings, paragraphs, emphasis, links, code,
//! lists, block quotes, rules, HTML and tables.

use vstd::prelude::*;

use crate::chars::{chars_of, extend_chars, repeat_char, slice_chars, spaces, string_of};
use crate::component::{texts, Component};
use crate::digits::{decimal, decimal_chars_u64};
use crate::render::{blank_text, copy_strings, expand_tabs, expand_tabs_chars, is_blank, pad_line};
use crate::style::{styled_by, StyleFn};
use crate::text::{sat, split_lines, split_lines_chars, text_width, visible_width, wrap_text, wrap_text_with_ansi};
use crate::widgets::editor_model::join_lines;
use crate::widgets::md_layout::{
    nested_list_line,
    blank_line_between, border_line, border_text, char_index, char_index_of, frame_markdown_lines, framed_markdown_with,
    get_longest_word_width, has_blank_line_between, is_nested_list_line, longest_word_width, prefix_before_nul, row_line, row_text, style_prefix,
    wrap_markdown_lines, wrapped_markdown,
};
use crate::widgets::md_table::{column_widths, ints, law_table_widths_fit, table_column_widths};
use crate::widgets::md_tree::{gfm_blocks, node_view, parse_blocks, MdKind, MdNode, MdView};
use crate::widgets::text::{content_width, content_width_of};

verus! {

/// Highlights a code block: returns one styled line per line of code.
pub trait CodeHighlighter {
    fn highlight(&self, code: &str, lang: Option<String>) -> Vec<String>;
}

/// The style of plain text when no markup applies.
pub struct DefaultTextStyle {
    pub color: Option<Box<dyn StyleFn>>,
    pub bg_color: Option<Box<dyn StyleFn>>,
    pub bold: bool,
    pub italic: bool,
    pub strikethrough: bool,
    pub underline: bool,
}

/// Styles for each kind of markdown element.
pub struct MarkdownTheme {
    pub heading: Box<dyn StyleFn>,
    pub link: Box<dyn StyleFn>,
    pub link_url: Box<dyn StyleFn>,
    pub code: Box<dyn StyleFn>,
    pub code_block: Box<dyn StyleFn>,
    pub code_block_border: Box<dyn StyleFn>,
    pub quote: Box<dyn StyleFn>,
    pub quote_border: Box<dyn StyleFn>,
    pub hr: Box<dyn StyleFn>,
    pub list_bullet: Box<dyn StyleFn>,
    pub bold: Box<dyn StyleFn>,
    pub italic: Box<dyn StyleFn>,
    pub strikethrough: Box<dyn StyleFn>,
    pub underline: Box<dyn StyleFn>,
    pub highlight_code: Option<Box<dyn CodeHighlighter>>,
    pub code_block_indent: Option<String>,
}

#[derive(Clone, Copy, PartialEq, Eq, Structural)]
enum InlineStyleKind {
    Default,
    Quote,
}

struct InlineStyleContext {
    kind: InlineStyleKind,
    style_prefix: String,
}

struct MarkdownCache {
    text: String,
    width: usize,
    lines: Vec<String>,
}

/// The text, paddings and cache of two widget states agree.
spec fn same_content(a: Markdown, b: Markdown) -> bool {
    a.text == b.text && a.padding_x == b.padding_x && a.padding_y == b.padding_y && a.cache == b.cache
        && a.prefix_view() == b.prefix_view()
}

/// Renders markdown text, wrapped to the width, with padding and an optional default style.
pub struct Markdown {
    text: String,
    padding_x: usize,
    padding_y: usize,
    default_text_style: Option<DefaultTextStyle>,
    theme: MarkdownTheme,
    default_style_prefix: Option<String>,
    cache: Option<MarkdownCache>,
}

/// Joining the lines of `s` with line breaks gives `s` back.
proof fn lemma_join_split(s: Seq<char>)
    ensures
        join_lines(split_lines(s)) == s,
    decreases s.len(),
{
    if s.len() > 0 {
        let t = s.drop_last();
        lemma_join_split(t);
        crate::text::lemma_split_lines_nonempty(t);
        let init = split_lines(t);
        if s.last() == '\n' {
            let lines = init.push(Seq::<char>::empty());
            assert(lines.drop_last() =~= init);
            assert(s =~= t + seq!['\n'] + Seq::<char>::empty());
        } else {
            let lines = init.update(init.len() - 1, init.last().push(s.last()));
            if init.len() == 1 {
                assert(s =~= t.push(s.last()));
            } else {
                assert(lines.drop_last() =~= init.drop_last());
                assert(join_lines(init) == join_lines(init.drop_last()) + seq!['\n'] + init.last());
                assert(lines.last() == init.last().push(s.last()));
                assert(join_lines(lines) == join_lines(lines.drop_last()) + seq!['\n'] + lines.last());
                assert(s =~= t.push(s.last()));
                assert(s =~= join_lines(init.drop_last()) + seq!['\n'] + init.last().push(s.last()));
            }
        }
    }
}

/// `text` split at every newline.
fn split_newlines(text: &str) -> (r: Vec<String>)
    ensures
        r@.len() >= 1,
        r@.map_values(|p: String| p@) == split_lines(text@),
{
    let parts = split_lines_chars(chars_of(text).as_slice());
    proof {
        crate::text::lemma_split_lines_nonempty(text@);
    }
    let mut out: Vec<String> = Vec::new();
    let mut i: usize = 0;
    while i < parts.len()
        invariant
            i <= parts@.len(),
            out@.len() == i,
            parts@.len() == split_lines(text@).len(),
            forall|k: int| 0 <= k < parts@.len() ==> #[trigger] parts@[k]@ == split_lines(text@)[k],
            forall|k: int| 0 <= k < i ==> #[trigger] out@[k]@ == split_lines(text@)[k],
        decreases parts@.len() - i,
    {
        out.push(string_of(parts[i].as_slice()));
        i += 1;
    }
    assert(out@.map_values(|p: String| p@) =~= split_lines(text@));
    out
}

fn push_all(dst: &mut Vec<String>, src: Vec<String>)
    ensures
        final(dst)@.len() == old(dst)@.len() + src@.len(),
        final(dst)@.subrange(0, old(dst)@.len() as int) == old(dst)@,
        texts(final(dst)@) == texts(old(dst)@) + texts(src@),
{
    let mut i: usize = 0;
    let ghost start = dst@.len();
    let ghost orig = dst@;
    while i < src.len()
        invariant
            i <= src@.len(),
            dst@.len() == start + i,
            start == orig.len(),
            dst@.subrange(0, start as int) == orig,
            texts(dst@) == texts(orig) + texts(src@.subrange(0, i as int)),
        decreases src@.len() - i,
    {
        let c = src[i].clone();
        assert(c@ == src@[i as int]@);
        let ghost prev = dst@;
        dst.push(c);
        assert(texts(dst@) =~= texts(prev).push(c@));
        assert(texts(src@.subrange(0, i + 1 as int)) =~= texts(src@.subrange(0, i as int)).push(src@[i as int]@));
        assert(texts(dst@) =~= texts(orig) + texts(src@.subrange(0, i + 1 as int)));
        i += 1;
    }
    assert(src@.subrange(0, src@.len() as int) =~= src@);
}

fn concat(a: &str, b: &str) -> (r: String)
    ensures
        r@ == a@ + b@,
{
    let mut v = chars_of(a);
    extend_chars(&mut v, chars_of(b).as_slice());
    string_of(v.as_slice())
}

/// The plain text of `nodes` (text, code, HTML and image alternatives, and the text inside
/// emphasis, links and paragraphs), without markup, descending at most `fuel` levels.
pub open spec fn plain_text(nodes: Seq<MdNode>, fuel: nat) -> Seq<char>
    decreases fuel, nodes.len(),
{
    if fuel == 0 || nodes.len() == 0 {
        seq![]
    } else {
        plain_text(nodes.drop_last(), fuel) + plain_piece(nodes.last(), fuel)
    }
}

/// The plain text of one node (see `plain_text`).
pub open spec fn plain_piece(node: MdNode, fuel: nat) -> Seq<char>
    decreases fuel, 0nat,
{
    if fuel == 0 {
        seq![]
    } else {
        match node.kind {
            MdKind::Text(v) => v@,
            MdKind::InlineCode(v) => v@,
            MdKind::Html(v) => v@,
            MdKind::Image { alt, url: _ } => alt@,
            MdKind::Strong | MdKind::Emphasis | MdKind::Delete | MdKind::Link(_) | MdKind::Paragraph =>
                plain_text(node.children@, (fuel - 1) as nat),
            _ => seq![],
        }
    }
}

/// What the default text style makes of a line: its color, then bold, italic,
/// strikethrough and underline in the theme's styles, each when the style asks for it.
pub open spec fn default_styled(theme: MarkdownTheme, style: Option<DefaultTextStyle>, t: Seq<char>) -> Seq<char> {
    match style {
        None => t,
        Some(st) => {
            let a = styled_by(st.color, t);
            let b = if st.bold { theme.bold.styled(a) } else { a };
            let c = if st.italic { theme.italic.styled(b) } else { b };
            let d = if st.strikethrough { theme.strikethrough.styled(c) } else { c };
            if st.underline { theme.underline.styled(d) } else { d }
        },
    }
}

/// A line in the quote style (italic, then the quote style), or in the default style.
pub open spec fn line_styled(theme: MarkdownTheme, style: Option<DefaultTextStyle>, quote: bool, t: Seq<char>) -> Seq<char> {
    if quote {
        theme.quote.styled(theme.italic.styled(t))
    } else {
        default_styled(theme, style, t)
    }
}

/// Each line of `t` styled on its own, the line breaks kept.
pub open spec fn lines_styled(theme: MarkdownTheme, style: Option<DefaultTextStyle>, quote: bool, t: Seq<char>) -> Seq<char> {
    join_lines(split_lines(t).map_values(|l: Seq<char>| line_styled(theme, style, quote, l)))
}

/// What the default style puts before text: what it makes of a lone NUL, up to the NUL;
/// nothing without a default style.
pub open spec fn default_prefix(theme: MarkdownTheme, style: Option<DefaultTextStyle>) -> Seq<char> {
    match style {
        None => Seq::empty(),
        Some(_) => prefix_before_nul(default_styled(theme, style, seq!['\0'])),
    }
}

/// What the quote style puts before text.
pub open spec fn quote_prefix(theme: MarkdownTheme) -> Seq<char> {
    prefix_before_nul(line_styled(theme, None, true, seq!['\0']))
}

/// Inline nodes rendered one after another (see `inline_text`).
pub open spec fn inline_texts(
    theme: MarkdownTheme,
    style: Option<DefaultTextStyle>,
    quote: bool,
    prefix: Seq<char>,
    nodes: Seq<MdNode>,
    fuel: nat,
) -> Seq<char>
    decreases fuel, nodes.len(),
{
    if fuel == 0 || nodes.len() == 0 {
        seq![]
    } else {
        inline_texts(theme, style, quote, prefix, nodes.drop_last(), fuel) + inline_text(
            theme,
            style,
            quote,
            prefix,
            nodes.last(),
            fuel,
        )
    }
}

/// An inline node rendered: text, HTML, math and images (their alternative text, or their
/// address without one) styled line by line; strong, emphasis and deleted text in the bold,
/// italic and strikethrough styles; inline code in the code style; a link's text underlined
/// in the link style, followed by ` (address)` in the address style when its plain text is
/// neither the address nor the address without `mailto:`; a break a line break. Each styled
/// span is followed by `prefix`, which restores the surrounding style. Block nodes give
/// nothing; a paragraph gives its children.
pub open spec fn inline_text(
    theme: MarkdownTheme,
    style: Option<DefaultTextStyle>,
    quote: bool,
    prefix: Seq<char>,
    node: MdNode,
    fuel: nat,
) -> Seq<char>
    decreases fuel, 0nat,
{
    if fuel == 0 {
        seq![]
    } else {
        let inner = inline_texts(theme, style, quote, prefix, node.children@, (fuel - 1) as nat);
        match node.kind {
            MdKind::Text(v) => lines_styled(theme, style, quote, v@),
            MdKind::Html(v) => lines_styled(theme, style, quote, v@),
            MdKind::InlineMath(v) => lines_styled(theme, style, quote, v@),
            MdKind::Math(v) => lines_styled(theme, style, quote, v@),
            MdKind::Image { alt, url } => lines_styled(theme, style, quote, if alt@.len() == 0 { url@ } else { alt@ }),
            MdKind::Paragraph => inner,
            MdKind::Strong => theme.bold.styled(inner) + prefix,
            MdKind::Emphasis => theme.italic.styled(inner) + prefix,
            MdKind::Delete => theme.strikethrough.styled(inner) + prefix,
            MdKind::InlineCode(v) => theme.code.styled(v@) + prefix,
            MdKind::Link(href) => {
                let shown = theme.link.styled(theme.underline.styled(inner));
                let plain = plain_text(node.children@, (fuel - 1) as nat);
                if plain == href@ || plain == without_mailto(href@) {
                    shown + prefix
                } else {
                    shown + theme.link_url.styled(seq![' ', '('] + href@ + seq![')']) + prefix
                }
            },
            MdKind::Break => seq!['\n'],
            _ => seq![],
        }
    }
}

/// The plain text of inline nodes (text, code, HTML and image alternatives), without markup.
fn plain_text_from_nodes(nodes: &[MdNode], fuel: usize) -> (r: String)
    ensures
        r@ == plain_text(nodes@, fuel as nat),
    decreases fuel,
{
    let mut out = String::new();
    if fuel == 0 {
        return out;
    }
    let mut i: usize = 0;
    assert(nodes@.take(0) =~= Seq::<MdNode>::empty());
    while i < nodes.len()
        invariant
            i <= nodes@.len(),
            fuel > 0,
            out@ == plain_text(nodes@.take(i as int), fuel as nat),
        decreases nodes@.len() - i,
    {
        let node = &nodes[i];
        let piece = match &node.kind {
            MdKind::Text(v) => v.clone(),
            MdKind::InlineCode(v) => v.clone(),
            MdKind::Html(v) => v.clone(),
            MdKind::Image { alt, url: _ } => alt.clone(),
            MdKind::Strong | MdKind::Emphasis | MdKind::Delete | MdKind::Link(_)
            | MdKind::Paragraph => plain_text_from_nodes(node.children.as_slice(), fuel - 1),
            _ => String::new(),
        };
        assert(piece@ == plain_piece(nodes@[i as int], fuel as nat));
        assert(nodes@.take(i + 1 as int).drop_last() =~= nodes@.take(i as int));
        out = concat(out.as_str(), piece.as_str());
        i += 1;
    }
    assert(nodes@.take(nodes@.len() as int) =~= nodes@);
    out
}

/// `s` without a leading `mailto:`.
pub open spec fn without_mailto(s: Seq<char>) -> Seq<char> {
    if s.len() >= 7 && s.subrange(0, 7) == seq!['m', 'a', 'i', 'l', 't', 'o', ':'] {
        s.subrange(7, s.len() as int)
    } else {
        s
    }
}

/// `s` without a leading `mailto:`.
fn strip_mailto(s: &str) -> (r: String)
    ensures
        r@ == without_mailto(s@),
{
    let v = chars_of(s);
    if v.len() >= 7 && v[0] == 'm' && v[1] == 'a' && v[2] == 'i' && v[3] == 'l' && v[4] == 't'
        && v[5] == 'o' && v[6] == ':' {
        assert(v@.subrange(0, 7) =~= seq!['m', 'a', 'i', 'l', 't', 'o', ':']);
        string_of(slice_chars(v.as_slice(), 7, v.len()).as_slice())
    } else {
        assert(v@.len() >= 7 ==> v@.subrange(0, 7)[0] == v@[0] && v@.subrange(0, 7)[1] == v@[1] && v@.subrange(0, 7)[2] == v@[2]
            && v@.subrange(0, 7)[3] == v@[3] && v@.subrange(0, 7)[4] == v@[4] && v@.subrange(0, 7)[5] == v@[5]
            && v@.subrange(0, 7)[6] == v@[6]);
        s.to_owned()
    }
}

/// What code block lines start with: the theme's indent, or two spaces.
pub open spec fn code_indent(theme: &MarkdownTheme) -> Seq<char> {
    match theme.code_block_indent {
        Some(s) => s@,
        None => seq![' ', ' '],
    }
}

/// The lines of a code block without a highlighter: the opening fence with the language in
/// the border style, each line of the code after the indent in the code style, and the
/// closing fence in the border style.
pub open spec fn code_text(theme: MarkdownTheme, lang: Option<String>, value: Seq<char>) -> Seq<Seq<char>> {
    seq![
        theme.code_block_border.styled(
            seq!['`', '`', '`'] + match lang {
                Some(l) => l@,
                None => Seq::<char>::empty(),
            },
        ),
    ] + split_lines(value).map_values(|l: Seq<char>| code_indent(&theme) + theme.code_block.styled(l)) + seq![
        theme.code_block_border.styled(seq!['`', '`', '`']),
    ]
}

/// A styled opening fence, the code lines each after the indent, and a styled closing fence.
/// Without a highlighter there is one code line per line of `value`.
fn code_lines(theme: &MarkdownTheme, lang: &Option<String>, value: &str) -> (r: Vec<String>)
    ensures
        r@.len() >= 2,
        theme.highlight_code is None ==> r@.len() == split_lines(value@).len() + 2,
        theme.highlight_code is None ==> texts(r@) == code_text(*theme, *lang, value@),
        forall|i: int| 1 <= i < r@.len() - 1 ==> (#[trigger] r@[i])@.len() >= code_indent(theme).len()
            && r@[i]@.subrange(0, code_indent(theme).len() as int) == code_indent(theme),
{
    let indent = match &theme.code_block_indent {
        Some(s) => s.clone(),
        None => string_of(&[' ', ' ']),
    };
    let ghost ind = code_indent(theme);
    assert(indent@ == ind);
    let mut lines: Vec<String> = Vec::new();
    let mut open = vec!['`', '`', '`'];
    match lang {
        Some(l) => extend_chars(&mut open, chars_of(l.as_str()).as_slice()),
        None => {},
    }
    assert(open@ =~= seq!['`', '`', '`'] + match lang {
        Some(l) => l@,
        None => Seq::<char>::empty(),
    });
    lines.push(theme.code_block_border.style(string_of(open.as_slice()).as_str()));
    let ghost head = texts(lines@);
    match &theme.highlight_code {
        Some(h) => {
            let lang_copy = match lang {
                Some(l) => Some(l.clone()),
                None => None,
            };
            let highlighted = h.highlight(value, lang_copy);
            let mut i: usize = 0;
            while i < highlighted.len()
                invariant
                    i <= highlighted@.len(),
                    lines@.len() == i + 1,
                    indent@ == ind,
                    forall|k: int| 1 <= k < lines@.len() ==> (#[trigger] lines@[k])@.len() >= ind.len()
                        && lines@[k]@.subrange(0, ind.len() as int) == ind,
                decreases highlighted@.len() - i,
            {
                let line = concat(indent.as_str(), highlighted[i].as_str());
                assert(line@.subrange(0, ind.len() as int) =~= ind);
                lines.push(line);
                i += 1;
            }
        },
        None => {
            let parts = split_newlines(value);
            let mut i: usize = 0;
            while i < parts.len()
                invariant
                    i <= parts@.len(),
                    lines@.len() == i + 1,
                    indent@ == ind,
                    forall|k: int| 1 <= k < lines@.len() ==> (#[trigger] lines@[k])@.len() >= ind.len()
                        && lines@[k]@.subrange(0, ind.len() as int) == ind,
                    head.len() == 1,
                    ind == code_indent(theme),
                    parts@.map_values(|p: String| p@) == split_lines(value@),
                    texts(lines@) == head + split_lines(value@).take(i as int).map_values(
                        |l: Seq<char>| code_indent(theme) + theme.code_block.styled(l),
                    ),
                decreases parts@.len() - i,
            {
                let styled = theme.code_block.style(parts[i].as_str());
                let line = concat(indent.as_str(), styled.as_str());
                assert(line@.subrange(0, ind.len() as int) =~= ind);
                let ghost before = texts(lines@);
                assert(parts@[i as int]@ == split_lines(value@)[i as int]);
                assert(styled@ == theme.code_block.styled(parts@[i as int]@));
                assert(line@ == indent@ + styled@);
                assert(line@ == code_indent(theme) + theme.code_block.styled(split_lines(value@)[i as int]));
                let ghost line_v = line@;
                lines.push(line);
                assert(texts(lines@) =~= before.push(line_v));
                assert(split_lines(value@).take(i + 1 as int) =~= split_lines(value@).take(i as int).push(
                    split_lines(value@)[i as int],
                ));
                assert(texts(lines@) =~= head + split_lines(value@).take(i + 1 as int).map_values(
                    |l: Seq<char>| code_indent(theme) + theme.code_block.styled(l),
                ));
                i += 1;
            }
            assert(parts@.len() == parts@.map_values(|p: String| p@).len());
            assert(split_lines(value@).take(parts@.len() as int) =~= split_lines(value@));
        },
    }
    let ghost body = texts(lines@);
    let fence = string_of(&['`', '`', '`']);
    assert(fence@ =~= seq!['`', '`', '`']);
    let close = theme.code_block_border.style(fence.as_str());
    let ghost close_v = close@;
    lines.push(close);
    assert(texts(lines@) =~= body + seq![close_v]);
    lines
}

impl Markdown {
    pub closed spec fn text_view(&self) -> Seq<char> {
        self.text@
    }

    pub closed spec fn padding_x_view(&self) -> nat {
        self.padding_x as nat
    }

    pub closed spec fn padding_y_view(&self) -> nat {
        self.padding_y as nat
    }

    /// What the default context puts after styled spans to restore the default style: the
    /// kept prefix, or the one that the default style gives.
    pub closed spec fn prefix_view(&self) -> Seq<char> {
        match self.default_style_prefix {
            Some(p) => p@,
            None => default_prefix(self.theme, self.default_text_style),
        }
    }

    pub closed spec fn theme_view(&self) -> MarkdownTheme {
        self.theme
    }

    pub closed spec fn style_view(&self) -> Option<DefaultTextStyle> {
        self.default_text_style
    }

    /// What a block renders to (see `block_lines_ok`).
    pub open spec fn node_lines(
        &self,
        node: MdNode,
        width: nat,
        next_is_list: bool,
        has_next: bool,
        space_after: bool,
        fuel: nat,
        l: Seq<Seq<char>>,
    ) -> bool {
        block_lines_ok(self.theme_view(), self.style_view(), self.prefix_view(), node, width, next_is_list, has_next, space_after, fuel, l)
    }

    /// The lines of a fresh rendering (see `markdown_lines`).
    pub open spec fn fresh_lines(&self, text: Seq<char>, width: nat, r: Seq<Seq<char>>) -> bool {
        markdown_lines(
            self.theme_view(),
            self.style_view(),
            self.prefix_view(),
            self.padding_x_view(),
            self.padding_y_view(),
            text,
            width,
            r,
        )
    }

    pub open spec fn cache_wf(&self) -> bool {
        &&& self.cache_view() matches Some((t, lines)) ==> (is_blank(t) ==> lines.len() == 0)
        &&& self.cache_fresh()
    }

    /// The kept lines are a fresh rendering of the kept text at the kept width.
    pub closed spec fn cache_fresh(&self) -> bool {
        self.cache matches Some(c) ==> self.fresh_lines(c.text@, c.width as nat, texts(c.lines@))
    }

    /// The width of the kept rendering.
    pub closed spec fn kept_width(&self) -> nat {
        match self.cache {
            Some(c) => c.width as nat,
            None => 0,
        }
    }

    /// What one render at `width` does to a widget in the state `before`, giving the lines `r`
    /// and the state `after`: the lines kept for the same text at the same width come back as
    /// they are; otherwise the fresh lines are kept for the text and width and returned, or a
    /// single empty line in their place when they are empty for text that is not blank.
    pub open spec fn render_step(before: Markdown, width: nat, r: Seq<String>, after: Markdown) -> bool {
        &&& after.text_view() == before.text_view()
        &&& after.kept_width() == width
        &&& before.cache_wf() ==> after.cache_wf()
        &&& before.cache_wf() && before.kept_width() == width ==> match before.cache_view() {
            Some((t, lines)) => t == before.text_view() ==> after.cache_view() == before.cache_view() && texts(r) == texts(
                lines,
            ),
            None => true,
        }
        &&& after.cache_view() matches Some((t, lines)) && t == before.text_view() && (texts(r) == texts(lines) || (
        lines.len() == 0 && !is_blank(t) && texts(r) == seq![Seq::<char>::empty()]))
    }

    pub closed spec fn cache_view(&self) -> Option<(Seq<char>, Seq<String>)> {
        match self.cache {
            Some(c) => Some((c.text@, c.lines@)),
            None => None,
        }
    }

    pub fn new(
        text: &str,
        padding_x: usize,
        padding_y: usize,
        theme: MarkdownTheme,
        default_text_style: Option<DefaultTextStyle>,
    ) -> (r: Self)
        ensures
            r.text_view() == text@,
            r.padding_x_view() == padding_x,
            r.padding_y_view() == padding_y,
            r.cache_wf(),
            r.prefix_view() == default_prefix(theme, default_text_style),
    {
        Markdown {
            text: text.to_owned(),
            padding_x,
            padding_y,
            default_text_style,
            theme,
            default_style_prefix: None,
            cache: None,
        }
    }

    pub fn set_text(&mut self, text: &str)
        ensures
            final(self).text_view() == text@,
            final(self).padding_x_view() == old(self).padding_x_view(),
            final(self).padding_y_view() == old(self).padding_y_view(),
            final(self).cache_wf(),
    {
        self.text = text.to_owned();
        self.cache = None;
    }

    /// Whether the default text style changes text: it has a color or an emphasis flag.
    pub closed spec fn restyles(&self) -> bool {
        styles_text(self.default_text_style)
    }

    /// Without a default style that changes text, text stays as it is.
    fn apply_default_style(&self, text: &str) -> (r: String)
        ensures
            !self.restyles() ==> r@ == text@,
            r@ == default_styled(self.theme, self.default_text_style, text@),
    {
        match &self.default_text_style {
            None => text.to_owned(),
            Some(style) => {
                let mut styled = text.to_owned();
                match &style.color {
                    Some(c) => {
                        styled = c.style(styled.as_str());
                    },
                    None => {},
                }
                if style.bold {
                    styled = self.theme.bold.style(styled.as_str());
                }
                if style.italic {
                    styled = self.theme.italic.style(styled.as_str());
                }
                if style.strikethrough {
                    styled = self.theme.strikethrough.style(styled.as_str());
                }
                if style.underline {
                    styled = self.theme.underline.style(styled.as_str());
                }
                styled
            },
        }
    }

    /// What the default style puts before text, found by styling a lone NUL; computed once.
    /// Without a default style it is empty.
    fn get_default_style_prefix(&mut self) -> (r: String)
        ensures
            same_content(*old(self), *final(self)),
            final(self).default_text_style == old(self).default_text_style,
            final(self).theme == old(self).theme,
            final(self).default_style_prefix matches Some(p) && p@ == r@,
            old(self).default_style_prefix matches Some(p) ==> r@ == p@,
            old(self).default_style_prefix is None && old(self).default_text_style is None ==> r@.len() == 0,
            r@ == old(self).prefix_view(),
    {
        match &self.default_style_prefix {
            Some(p) => {
                return p.clone();
            },
            None => {},
        }
        let prefix = match &self.default_text_style {
            None => String::new(),
            Some(_) => {
                let nul = string_of(&['\0']);
                assert(nul@ =~= seq!['\0']);
                let styled = self.apply_default_style(nul.as_str());
                style_prefix(styled.as_str())
            },
        };
        assert(prefix@ == default_prefix(self.theme, self.default_text_style));
        self.default_style_prefix = Some(prefix.clone());
        prefix
    }

    /// Text in the quote style: italic, then the quote style.
    fn quote_style(&self, text: &str) -> (r: String)
        ensures
            r@ == line_styled(self.theme, None, true, text@),
    {
        let italic = self.theme.italic.style(text);
        self.theme.quote.style(italic.as_str())
    }

    /// The default style or the quote style; plain default text stays as it is.
    fn apply_inline_style(&self, text: &str, kind: InlineStyleKind) -> (r: String)
        ensures
            kind == InlineStyleKind::Default && !self.restyles() ==> r@ == text@,
            r@ == line_styled(self.theme, self.default_text_style, kind == InlineStyleKind::Quote, text@),
    {
        match kind {
            InlineStyleKind::Default => self.apply_default_style(text),
            InlineStyleKind::Quote => self.quote_style(text),
        }
    }

    /// Styles each line of `text` separately, keeping the newlines; plain default text stays
    /// as it is.
    fn apply_inline_style_with_newlines(&self, text: &str, kind: InlineStyleKind) -> (r: String)
        ensures
            kind == InlineStyleKind::Default && !self.restyles() ==> r@ == text@,
            r@ == lines_styled(self.theme, self.default_text_style, kind == InlineStyleKind::Quote, text@),
    {
        let parts = split_newlines(text);
        let ghost plain = kind == InlineStyleKind::Default && !self.restyles();
        let ghost ls = split_lines(text@);
        let ghost q = kind == InlineStyleKind::Quote;
        let ghost sl = ls.map_values(|l: Seq<char>| line_styled(self.theme, self.default_text_style, q, l));
        let mut v: Vec<char> = Vec::new();
        let mut i: usize = 0;
        assert(ls.take(0) =~= Seq::<Seq<char>>::empty());
        assert(sl.take(0) =~= Seq::<Seq<char>>::empty());
        while i < parts.len()
            invariant
                i <= parts@.len(),
                parts@.map_values(|p: String| p@) == ls,
                sl.len() == ls.len(),
                sl == ls.map_values(|l: Seq<char>| line_styled(self.theme, self.default_text_style, q, l)),
                q == (kind == InlineStyleKind::Quote),
                plain == (kind == InlineStyleKind::Default && !self.restyles()),
                plain ==> v@ == join_lines(ls.take(i as int)),
                v@ == join_lines(sl.take(i as int)),
            decreases parts@.len() - i,
        {
            let ghost before = v@;
            if i > 0 {
                v.push('\n');
            }
            let styled = self.apply_inline_style(parts[i].as_str(), kind);
            extend_chars(&mut v, chars_of(styled.as_str()).as_slice());
            proof {
                assert(parts@[i as int]@ == ls[i as int]);
                assert(styled@ == sl[i as int]);
                let st = sl.take(i + 1 as int);
                if i == 0 {
                    assert(st.len() == 1);
                    assert(v@ =~= st[0]);
                } else {
                    assert(st.drop_last() =~= sl.take(i as int));
                    assert(join_lines(st) == join_lines(st.drop_last()) + seq!['\n'] + st.last());
                    assert(v@ =~= before + seq!['\n'] + sl[i as int]);
                }
                if plain {
                    assert(parts@[i as int]@ == ls[i as int]);
                    let t = ls.take(i + 1 as int);
                    if i == 0 {
                        assert(t.len() == 1);
                        assert(v@ =~= t[0]);
                    } else {
                        assert(t.drop_last() =~= ls.take(i as int));
                        assert(join_lines(t) == join_lines(t.drop_last()) + seq!['\n'] + t.last());
                        assert(v@ =~= before + seq!['\n'] + ls[i as int]);
                    }
                }
            }
            i += 1;
        }
        proof {
            assert(ls.take(ls.len() as int) =~= ls);
            assert(sl.take(sl.len() as int) =~= sl);
            lemma_join_split(text@);
        }
        string_of(v.as_slice())
    }

    /// The default context: default styling, with the default style's prefix re-applied after
    /// styled spans.
    fn default_inline_context(&mut self) -> (r: InlineStyleContext)
        ensures
            same_content(*old(self), *final(self)),
            final(self).default_text_style == old(self).default_text_style,
            final(self).theme == old(self).theme,
            r.kind == InlineStyleKind::Default,
            final(self).default_style_prefix matches Some(p) && p@ == r.style_prefix@,
            old(self).default_style_prefix matches Some(p) ==> r.style_prefix@ == p@,
            old(self).default_style_prefix is None && old(self).default_text_style is None ==> r.style_prefix@.len() == 0,
            r.style_prefix@ == old(self).prefix_view(),
    {
        InlineStyleContext { kind: InlineStyleKind::Default, style_prefix: self.get_default_style_prefix() }
    }

    /// Inline markup rendered with styles: the text of text-like nodes, emphasis, code, links
    /// with their target when it differs from their text, line breaks; block nodes give nothing.
    fn render_inline_node(&mut self, node: &MdNode, context: &InlineStyleContext, fuel: usize) -> (r: String)
        ensures
            same_content(*old(self), *final(self)),
            final(self).default_text_style == old(self).default_text_style,
            final(self).theme == old(self).theme,
            fuel == 0 || block_kind(node.kind) ==> r@.len() == 0,
            fuel > 0 && node.kind is Break ==> r@ == seq!['\n'],
            fuel > 0 && context.kind == InlineStyleKind::Default && !old(self).restyles() ==> match node.kind {
                MdKind::Text(v) => r@ == v@,
                MdKind::Html(v) => r@ == v@,
                MdKind::InlineMath(v) => r@ == v@,
                MdKind::Math(v) => r@ == v@,
                _ => true,
            },
            r@ == inline_text(
                old(self).theme,
                old(self).default_text_style,
                context.kind == InlineStyleKind::Quote,
                context.style_prefix@,
                *node,
                fuel as nat,
            ),
        decreases fuel, 1usize,
    {
        if fuel == 0 {
            return String::new();
        }
        let ghost q = context.kind == InlineStyleKind::Quote;
        let ghost th = self.theme;
        let ghost st = self.default_text_style;
        let ghost pre = context.style_prefix@;
        let ghost inner = inline_texts(th, st, q, pre, node.children@, (fuel - 1) as nat);
        let prefix = context.style_prefix.as_str();
        let kind = context.kind;
        match &node.kind {
            MdKind::Text(v) => self.apply_inline_style_with_newlines(v.as_str(), kind),
            MdKind::Paragraph => self.render_inline_nodes(node.children.as_slice(), context, fuel - 1),
            MdKind::Strong => {
                let content = self.render_inline_nodes(node.children.as_slice(), context, fuel - 1);
                assert(content@ == inner);
                concat(self.theme.bold.style(content.as_str()).as_str(), prefix)
            },
            MdKind::Emphasis => {
                let content = self.render_inline_nodes(node.children.as_slice(), context, fuel - 1);
                assert(content@ == inner);
                concat(self.theme.italic.style(content.as_str()).as_str(), prefix)
            },
            MdKind::Delete => {
                let content = self.render_inline_nodes(node.children.as_slice(), context, fuel - 1);
                assert(content@ == inner);
                concat(self.theme.strikethrough.style(content.as_str()).as_str(), prefix)
            },
            MdKind::InlineCode(v) => concat(self.theme.code.style(v.as_str()).as_str(), prefix),
            MdKind::Link(href) => {
                let link_text = self.render_inline_nodes(node.children.as_slice(), context, fuel - 1);
                assert(link_text@ == inner);
                let plain = plain_text_from_nodes(node.children.as_slice(), fuel - 1);
                let href_bare = strip_mailto(href.as_str());
                let underlined = self.theme.underline.style(link_text.as_str());
                let styled = self.theme.link.style(underlined.as_str());
                let same = plain == *href || plain == href_bare;
                assert(same == (plain@ == href@ || plain@ == href_bare@));
                if same {
                    concat(styled.as_str(), prefix)
                } else {
                    let mut u = vec![' ', '('];
                    extend_chars(&mut u, chars_of(href.as_str()).as_slice());
                    u.push(')');
                    assert(u@ =~= seq![' ', '('] + href@ + seq![')']);
                    let url = self.theme.link_url.style(string_of(u.as_slice()).as_str());
                    concat(concat(styled.as_str(), url.as_str()).as_str(), prefix)
                }
            },
            MdKind::Break => {
                let r = string_of(&['\n']);
                assert(r@ =~= seq!['\n']);
                r
            },
            MdKind::Html(v) => self.apply_inline_style_with_newlines(v.as_str(), kind),
            MdKind::Image { alt, url } => {
                let shown = if alt.as_str().is_empty() {
                    url.as_str()
                } else {
                    alt.as_str()
                };
                assert(shown@ == if alt@.len() == 0 { url@ } else { alt@ });
                self.apply_inline_style_with_newlines(shown, kind)
            },
            MdKind::InlineMath(v) => self.apply_inline_style_with_newlines(v.as_str(), kind),
            MdKind::Math(v) => self.apply_inline_style_with_newlines(v.as_str(), kind),
            _ => String::new(),
        }
    }

    /// The rendered nodes one after another; plain text nodes under the unstyled default
    /// context give their text.
    fn render_inline_nodes(&mut self, nodes: &[MdNode], context: &InlineStyleContext, fuel: usize) -> (r: String)
        ensures
            same_content(*old(self), *final(self)),
            final(self).default_text_style == old(self).default_text_style,
            final(self).theme == old(self).theme,
            nodes@.len() == 0 ==> r@.len() == 0,
            fuel > 0 && context.kind == InlineStyleKind::Default && !old(self).restyles() && all_text(nodes@)
                ==> r@ == plain_text(nodes@, fuel as nat),
            r@ == inline_texts(
                old(self).theme,
                old(self).default_text_style,
                context.kind == InlineStyleKind::Quote,
                context.style_prefix@,
                nodes@,
                fuel as nat,
            ),
        decreases fuel, 2usize,
    {
        let mut out = String::new();
        let mut i: usize = 0;
        let ghost plain = fuel > 0 && context.kind == InlineStyleKind::Default && !self.restyles() && all_text(nodes@);
        assert(nodes@.take(0) =~= Seq::<MdNode>::empty());
        while i < nodes.len()
            invariant
                i <= nodes@.len(),
                same_content(*old(self), *self),
                self.default_text_style == old(self).default_text_style,
                self.theme == old(self).theme,
                plain == (fuel > 0 && context.kind == InlineStyleKind::Default && !old(self).restyles() && all_text(nodes@)),
                plain ==> out@ == plain_text(nodes@.take(i as int), fuel as nat),
                i == 0 ==> out@.len() == 0,
                out@ == inline_texts(
                    old(self).theme,
                    old(self).default_text_style,
                    context.kind == InlineStyleKind::Quote,
                    context.style_prefix@,
                    nodes@.take(i as int),
                    fuel as nat,
                ),
            decreases nodes@.len() - i,
        {
            let piece = self.render_inline_node(&nodes[i], context, fuel);
            assert(nodes@.take(i + 1 as int).drop_last() =~= nodes@.take(i as int));
            assert(nodes@.take(i + 1 as int).last() == nodes@[i as int]);
            proof {
                if plain {
                    assert(nodes@[i as int].kind is Text);
                    assert(self.restyles() == old(self).restyles());
                    assert(piece@ == plain_piece(nodes@[i as int], fuel as nat));
                    assert(nodes@.take(i + 1 as int).drop_last() =~= nodes@.take(i as int));
                    assert(nodes@.take(i + 1 as int).last() == nodes@[i as int]);
                    assert(plain_text(nodes@.take(i + 1 as int), fuel as nat) == plain_text(nodes@.take(i as int), fuel as nat)
                        + plain_piece(nodes@[i as int], fuel as nat));
                }
            }
            out = concat(out.as_str(), piece.as_str());
            i += 1;
        }
        assert(nodes@.take(nodes@.len() as int) =~= nodes@);
        out
    }

    /// Each list item, after its indent and styled bullet (numbered from `start` when
    /// ordered): at least one line per item, and every line the item renders to (see
    /// `list_text`); other children are skipped.
    fn render_list(&mut self, node: &MdNode, ordered: bool, start: Option<u32>, depth: usize, fuel: usize) -> (r: Vec<String>)
        ensures
            same_content(*old(self), *final(self)),
            final(self).default_text_style == old(self).default_text_style,
            final(self).theme == old(self).theme,
            fuel == 0 ==> r@.len() == 0,
            fuel > 0 ==> r@.len() >= count_kind(node.children@, |k: MdKind| k is ListItem),
            old(self).theme.highlight_code is None ==> texts(r@) == list_text(
                old(self).theme,
                old(self).default_text_style,
                old(self).prefix_view(),
                *node,
                ordered,
                start,
                depth,
                fuel as nat,
            ),
        decreases fuel, 1usize,
    {
        let mut lines: Vec<String> = Vec::new();
        if fuel == 0 {
            assert(texts(lines@) =~= Seq::<Seq<char>>::empty());
            return lines;
        }
        let indent_width = match depth.checked_mul(2) {
            Some(w) => w,
            None => usize::MAX,
        };
        let indent = repeat_char(' ', indent_width);
        assert(indent@ =~= list_indent(depth));
        let start_number: u64 = match start {
            Some(s) => s as u64,
            None => 1,
        };
        let mut i: usize = 0;
        let ghost is_item = |k: MdKind| k is ListItem;
        let ghost theme = self.theme;
        let ghost style = self.default_text_style;
        let ghost prefix = self.prefix_view();
        let ghost kids = node.children@;
        let ghost ifuel = (fuel - 1) as nat;
        assert(node.children@.take(0) =~= Seq::<MdNode>::empty());
        assert(texts(lines@) =~= Seq::<Seq<char>>::empty());
        while i < node.children.len()
            invariant
                i <= node.children@.len(),
                fuel > 0,
                same_content(*old(self), *self),
                self.default_text_style == old(self).default_text_style,
                self.theme == old(self).theme,
                theme == old(self).theme,
                style == old(self).default_text_style,
                prefix == old(self).prefix_view(),
                kids == node.children@,
                indent@ == list_indent(depth),
                start_number == match start {
                    Some(s) => s as u64,
                    None => 1u64,
                },
                is_item == |k: MdKind| k is ListItem,
                lines@.len() >= count_kind(node.children@.take(i as int), is_item),
                ifuel == (fuel - 1) as nat,
                theme.highlight_code is None ==> texts(lines@) == list_compose(
                    theme,
                    ordered,
                    start,
                    indent@,
                    kids.take(i as int),
                    list_parts(theme, style, prefix, kids.take(i as int), depth, ifuel),
                ),
            decreases node.children@.len() - i,
        {
            let item = &node.children[i];
            assert(node.children@.take(i + 1 as int).drop_last() =~= node.children@.take(i as int));
            assert(node.children@.take(i + 1 as int).last() == node.children@[i as int]);
            let ghost before = texts(lines@);
            let ghost mut part: Seq<Seq<char>> = Seq::empty();
            match &item.kind {
                MdKind::ListItem => {
                    let bullet = if ordered {
                        let mut b = decimal_chars_u64(start_number.saturating_add(i as u64));
                        b.push('.');
                        b.push(' ');
                        string_of(b.as_slice())
                    } else {
                        string_of(&['-', ' '])
                    };
                    assert(bullet@ =~= list_bullet_text(ordered, start, i as int));
                    let styled_bullet = self.theme.list_bullet.style(bullet.as_str());
                    let item_lines = self.render_list_item(item, depth, fuel - 1);
                    let ghost il = texts(item_lines@);
                    proof {
                        part = il;
                    }
                    assert(theme.highlight_code is None ==> il == item_text(theme, style, prefix, kids[i as int], depth, ifuel));
                    let mut head = indent.clone();
                    extend_chars(&mut head, chars_of(styled_bullet.as_str()).as_slice());
                    let ghost h = head@;
                    assert(h == indent@ + theme.list_bullet.styled(list_bullet_text(ordered, start, i as int)));
                    if item_lines.len() == 0 {
                        lines.push(string_of(head.as_slice()));
                        assert(texts(lines@) =~= before + item_block(indent@, h, il));
                    } else {
                        let first = &item_lines[0];
                        if is_nested_list_line(first.as_str()) {
                            lines.push(first.clone());
                        } else {
                            extend_chars(&mut head, chars_of(first.as_str()).as_slice());
                            lines.push(string_of(head.as_slice()));
                        }
                        assert(texts(lines@) =~= before + item_block(indent@, h, il).subrange(0, 1));
                        let ghost reached = lines@.len();
                        let mut k: usize = 1;
                        while k < item_lines.len()
                            invariant
                                1 <= k <= item_lines@.len(),
                                lines@.len() >= reached,
                                il == texts(item_lines@),
                                il.len() >= 1,
                                indent@ == list_indent(depth),
                                texts(lines@) == before + item_block(indent@, h, il).subrange(0, k as int),
                            decreases item_lines@.len() - k,
                        {
                            let line = &item_lines[k];
                            let ghost prev = texts(lines@);
                            assert(il[k as int] == line@);
                            if is_nested_list_line(line.as_str()) {
                                let c = line.clone();
                                assert(c@ == item_rest_line(indent@, il[k as int]));
                                lines.push(c);
                            } else {
                                let mut v = indent.clone();
                                v.push(' ');
                                v.push(' ');
                                extend_chars(&mut v, chars_of(line.as_str()).as_slice());
                                let c = string_of(v.as_slice());
                                assert(c@ =~= item_rest_line(indent@, il[k as int]));
                                lines.push(c);
                            }
                            assert(item_block(indent@, h, il)[k as int] == item_rest_line(indent@, il[k as int]));
                            assert(texts(lines@) =~= prev.push(item_block(indent@, h, il)[k as int]));
                            assert(item_block(indent@, h, il).subrange(0, k + 1 as int) =~= item_block(indent@, h, il).subrange(0, k as int).push(item_block(indent@, h, il)[k as int]));
                            k += 1;
                        }
                        assert(item_block(indent@, h, il).subrange(0, il.len() as int) =~= item_block(indent@, h, il));
                    }
                },
                _ => {
                    assert(texts(lines@) =~= before + Seq::<Seq<char>>::empty());
                },
            }
            proof {
                if theme.highlight_code is None {
                    let t = kids.take(i + 1 as int);
                    assert(t.drop_last() =~= kids.take(i as int));
                    assert(t.last() == kids[i as int]);
                    let ps = list_parts(theme, style, prefix, t, depth, ifuel);
                    assert(ps.drop_last() == list_parts(theme, style, prefix, kids.take(i as int), depth, ifuel));
                    assert(ps.last() == part);
                    assert(texts(lines@) == list_compose(theme, ordered, start, indent@, t, ps));
                }
            }
            i += 1;
        }
        assert(node.children@.take(node.children@.len() as int) =~= node.children@);

        lines
    }

    /// The lines of a list item's children: nested lists, code blocks and text; at least one
    /// line for each paragraph, text, HTML or code child.
    fn render_list_item(&mut self, item: &MdNode, depth: usize, fuel: usize) -> (r: Vec<String>)
        ensures
            same_content(*old(self), *final(self)),
            final(self).default_text_style == old(self).default_text_style,
            final(self).theme == old(self).theme,
            r@.len() >= count_kind(item.children@, |k: MdKind| k is Paragraph || k is Text || k is Html || k is Code),
            old(self).theme.highlight_code is None ==> texts(r@) == item_text(
                old(self).theme,
                old(self).default_text_style,
                old(self).prefix_view(),
                *item,
                depth,
                fuel as nat,
            ),
        decreases fuel, 2usize,
    {
        let mut lines: Vec<String> = Vec::new();
        let context = self.default_inline_context();
        let mut i: usize = 0;
        let ghost p = |k: MdKind| k is Paragraph || k is Text || k is Html || k is Code;
        let ghost theme = self.theme;
        let ghost style = self.default_text_style;
        let ghost prefix = self.prefix_view();
        assert(item.children@.take(0) =~= Seq::<MdNode>::empty());
        assert(texts(lines@) =~= Seq::<Seq<char>>::empty());
        while i < item.children.len()
            invariant
                i <= item.children@.len(),
                same_content(*old(self), *self),
                self.default_text_style == old(self).default_text_style,
                self.theme == old(self).theme,
                theme == old(self).theme,
                style == old(self).default_text_style,
                prefix == old(self).prefix_view(),
                context.kind == InlineStyleKind::Default,
                context.style_prefix@ == prefix,
                p == |k: MdKind| k is Paragraph || k is Text || k is Html || k is Code,
                lines@.len() >= count_kind(item.children@.take(i as int), p),
                theme.highlight_code is None ==> texts(lines@) == children_text(
                    theme,
                    style,
                    prefix,
                    item.children@.take(i as int),
                    depth,
                    fuel as nat,
                ),
            decreases item.children@.len() - i,
        {
            let child = &item.children[i];
            assert(item.children@.take(i + 1 as int).drop_last() =~= item.children@.take(i as int));
            assert(item.children@.take(i + 1 as int).last() == item.children@[i as int]);
            let ghost before = texts(lines@);
            let ghost mut part: Seq<Seq<char>> = Seq::empty();
            match &child.kind {
                MdKind::List { ordered, start } => {
                    let nested = self.render_list(child, *ordered, *start, depth.saturating_add(1), fuel);
                    proof {
                        part = texts(nested@);
                    }
                    push_all(&mut lines, nested);
                },
                MdKind::Code { lang, value } => {
                    let code = code_lines(&self.theme, lang, value.as_str());
                    proof {
                        part = texts(code@);
                    }
                    push_all(&mut lines, code);
                },
                MdKind::Paragraph | MdKind::Text(_) | MdKind::Html(_) => {
                    let text = self.render_inline_node(child, &context, fuel);
                    let split = split_newlines(text.as_str());
                    proof {
                        part = texts(split@);
                        assert(part =~= split_lines(text@));
                    }
                    push_all(&mut lines, split);
                },
                _ => {
                    let text = self.render_inline_node(child, &context, fuel);
                    if !text.as_str().is_empty() {
                        let split = split_newlines(text.as_str());
                        proof {
                            part = texts(split@);
                            assert(part =~= split_lines(text@));
                        }
                        push_all(&mut lines, split);
                    } else {
                        assert(text@.len() == 0);
                    }
                },
            }
            proof {
                assert(texts(lines@) == before + part);
                if theme.highlight_code is None {
                    assert(part == item_child_text(theme, style, prefix, item.children@[i as int], depth, fuel as nat));
                    let t = item.children@.take(i + 1 as int);
                    assert(t.drop_last() =~= item.children@.take(i as int));
                    assert(t.last() == item.children@[i as int]);
                    assert(texts(lines@) == children_text(theme, style, prefix, t, depth, fuel as nat));
                }
            }
            i += 1;
        }
        assert(item.children@.take(item.children@.len() as int) =~= item.children@);

        lines
    }

    /// The quoted text in the quote style, wrapped, every line after one styled border.
    fn render_blockquote(&mut self, node: &MdNode, width: usize, fuel: usize) -> (r: Vec<String>)
        ensures
            same_content(*old(self), *final(self)),
            final(self).default_text_style == old(self).default_text_style,
            final(self).theme == old(self).theme,
            all_start_with(r@, old(self).theme.quote_border.styled(seq!['\u{2502}', ' '])),
    {
        let sample = self.quote_style(string_of(&['\0']).as_str());
        let context = InlineStyleContext { kind: InlineStyleKind::Quote, style_prefix: style_prefix(sample.as_str()) };
        let quote_text = self.render_inline_nodes(node.children.as_slice(), &context, fuel);
        let content_width = if width > 3 {
            width - 2
        } else {
            1
        };
        let bar = string_of(&['\u{2502}', ' ']);
        assert(bar@ =~= seq!['\u{2502}', ' ']);
        let border = self.theme.quote_border.style(bar.as_str());
        let ghost b = border@;
        let mut lines: Vec<String> = Vec::new();
        let parts = split_newlines(quote_text.as_str());
        let mut i: usize = 0;
        while i < parts.len()
            invariant
                i <= parts@.len(),
                border@ == b,
                forall|j: int| 0 <= j < lines@.len() ==> (#[trigger] lines@[j])@.len() >= b.len()
                    && lines@[j]@.subrange(0, b.len() as int) == b,
        decreases parts@.len() - i,
        {
            let wrapped = wrap_text_with_ansi(parts[i].as_str(), content_width);
            let mut k: usize = 0;
            while k < wrapped.len()
                invariant
                    k <= wrapped@.len(),
                    border@ == b,
                    forall|j: int| 0 <= j < lines@.len() ==> (#[trigger] lines@[j])@.len() >= b.len()
                        && lines@[j]@.subrange(0, b.len() as int) == b,
                decreases wrapped@.len() - k,
            {
                let line = concat(border.as_str(), wrapped[k].as_str());
                assert(line@.subrange(0, b.len() as int) =~= b);
                lines.push(line);
                k += 1;
            }
            i += 1;
        }
        assert(all_start_with(lines@, b));
        lines
    }

    /// A cell's inline content under the default context; a cell of plain text without a
    /// restyling default style gives its text.
    fn render_cell_text(&mut self, cell: &MdNode, fuel: usize) -> (r: String)
        ensures
            same_content(*old(self), *final(self)),
            final(self).default_text_style == old(self).default_text_style,
            final(self).theme == old(self).theme,
            fuel > 0 && !old(self).restyles() && cell.kind is TableCell && all_text(cell.children@) ==> r@
                == plain_text(cell.children@, fuel as nat),
            fuel > 0 && !old(self).restyles() && cell.kind is Text ==> r@ == cell.kind->Text_0@,
            r@ == cell_text(old(self).theme, old(self).default_text_style, old(self).prefix_view(), *cell, fuel as nat),
    {
        let context = self.default_inline_context();
        match &cell.kind {
            MdKind::TableCell => self.render_inline_nodes(cell.children.as_slice(), &context, fuel),
            _ => self.render_inline_node(cell, &context, fuel),
        }
    }

    /// Wraps each cell text of a row to its column; missing cells are empty.
    fn wrap_row(&mut self, row: &MdNode, widths: &[usize], fuel: usize) -> (r: Vec<Vec<String>>)
        ensures
            same_content(*old(self), *final(self)),
            final(self).default_text_style == old(self).default_text_style,
            final(self).theme == old(self).theme,
            r@.len() == widths@.len(),
            forall|c: int| row.children@.len() <= c < widths@.len() ==> (#[trigger] r@[c])@.len() == 0,
            cells_view(r@) == wrapped_cells(old(self).theme, old(self).default_text_style, old(self).prefix_view(), *row, widths@, fuel as nat),
    {
        let ghost plain = true;
        let ghost target = wrapped_cells(old(self).theme, old(self).default_text_style, old(self).prefix_view(), *row, widths@, fuel as nat);
        let mut out: Vec<Vec<String>> = Vec::new();
        let mut c: usize = 0;
        while c < widths.len()
            invariant
                c <= widths@.len(),
                out@.len() == c,
                forall|k: int| row.children@.len() <= k < c ==> (#[trigger] out@[k])@.len() == 0,
                same_content(*old(self), *self),
                self.default_text_style == old(self).default_text_style,
                self.theme == old(self).theme,
                target == wrapped_cells(old(self).theme, old(self).default_text_style, old(self).prefix_view(), *row, widths@, fuel as nat),
                plain,
                plain ==> forall|k: int| 0 <= k < c ==> #[trigger] cells_view(out@)[k] == target[k],
            decreases widths@.len() - c,
        {
            let ghost before = out@;
            let cell: Vec<String> = if c < row.children.len() {
                let text = self.render_cell_text(&row.children[c], fuel);
                let w = if widths[c] == 0 {
                    1
                } else {
                    widths[c]
                };
                let cell = wrap_text_with_ansi(text.as_str(), w);
                assert(cell@.map_values(|s: String| s@) =~= target[c as int]);
                cell
            } else {
                let cell: Vec<String> = Vec::new();
                assert(cell@.map_values(|s: String| s@) =~= target[c as int]);
                cell
            };
            let ghost cell_v = cell@.map_values(|s: String| s@);
            assert(plain ==> cell_v == target[c as int]);
            out.push(cell);
            assert(cells_view(out@)[c as int] == cell_v);
            assert forall|k: int| plain && 0 <= k < c + 1 implies #[trigger] cells_view(out@)[k] == target[k] by {
                if k < c {
                    assert(out@[k] == before[k]);
                    assert(cells_view(before)[k] == target[k]);
                }
            }
            c += 1;
        }
        assert(plain ==> cells_view(out@) =~= target);
        out
    }

    /// The lines of one table row: cells side by side, each padded to its column and, in the
    /// header, styled bold. There are as many lines as the tallest cell has.
    fn row_lines(&self, cells: &Vec<Vec<String>>, widths: &[usize], header: bool) -> (r: Vec<String>)
        requires
            cells@.len() == widths@.len(),
        ensures
            r@.len() == max_lines(cells_view(cells@)),
            texts(r@) == row_lines_text(self.theme, cells_view(cells@), widths@, header),
    {
        let ghost cv = cells_view(cells@);
        let mut count: usize = 0;
        let mut c: usize = 0;
        assert(cv.take(0) =~= Seq::<Seq<Seq<char>>>::empty());
        while c < cells.len()
            invariant
                c <= cells@.len(),
                cv == cells_view(cells@),
                count == max_lines(cv.take(c as int)),
            decreases cells@.len() - c,
        {
            assert(cv.take(c + 1 as int).drop_last() =~= cv.take(c as int));
            assert(cv.take(c + 1 as int).last() == cv[c as int]);
            assert(cv[c as int].len() == cells@[c as int]@.len());
            if cells[c].len() > count {
                count = cells[c].len();
            }
            c += 1;
        }
        assert(cv.take(cells@.len() as int) =~= cv);
        let mut lines: Vec<String> = Vec::new();
        let mut line_idx: usize = 0;
        while line_idx < count
            invariant
                line_idx <= count,
                cells@.len() == widths@.len(),
                cv == cells_view(cells@),
                lines@.len() == line_idx,
                forall|j: int| 0 <= j < lines@.len() ==> (#[trigger] lines@[j])@ == (if header {
                    header_row_line(self.theme, cv, widths@, j)
                } else {
                    plain_row_line(cv, widths@, j)
                }),
            decreases count - line_idx,
        {
            let mut parts: Vec<String> = Vec::new();
            let mut col: usize = 0;
            while col < widths.len()
                invariant
                    col <= widths@.len(),
                    cells@.len() == widths@.len(),
                    cv == cells_view(cells@),
                    parts@.len() == col,
                    !header ==> forall|k: int| 0 <= k < col ==> (#[trigger] parts@[k])@ == pad_line(
                        cell_line(cv[k], line_idx as int),
                        widths@[k] as nat,
                    ),
                    header ==> forall|k: int| 0 <= k < col ==> (#[trigger] parts@[k])@ == self.theme.bold.styled(
                        pad_line(cell_line(cv[k], line_idx as int), widths@[k] as nat),
                    ),
                decreases widths@.len() - col,
            {
                let text = if line_idx < cells[col].len() {
                    cells[col][line_idx].clone()
                } else {
                    String::new()
                };
                assert(text@ == cell_line(cv[col as int], line_idx as int));
                let padded = crate::render::pad_to_width(text.as_str(), widths[col]);
                if header {
                    parts.push(self.theme.bold.style(padded.as_str()));
                } else {
                    parts.push(padded);
                }
                col += 1;
            }
            let line = row_line(parts.as_slice());
            proof {
                if !header {
                    assert(parts@.map_values(|p: String| p@) =~= Seq::new(
                        widths@.len(),
                        |k: int| pad_line(cell_line(cv[k], line_idx as int), widths@[k] as nat),
                    ));
                } else {
                    assert(parts@.map_values(|p: String| p@) =~= Seq::new(
                        widths@.len(),
                        |k: int| self.theme.bold.styled(pad_line(cell_line(cv[k], line_idx as int), widths@[k] as nat)),
                    ));
                }
            }
            let ghost before = lines@;
            lines.push(line);
            assert forall|j: int| 0 <= j < lines@.len() implies (#[trigger] lines@[j])@ == (if header {
                header_row_line(self.theme, cv, widths@, j)
            } else {
                plain_row_line(cv, widths@, j)
            }) by {
                if j < line_idx {
                    assert(lines@[j] == before[j]);
                }
            }
            line_idx += 1;
        }
        assert(texts(lines@) =~= row_lines_text(self.theme, cv, widths@, header));
        lines
    }

    /// A table in box-drawing borders with a header separator, followed by a blank line. A
    /// table without rows or columns gives nothing; one too narrow for its columns gives its
    /// source wrapped to the width and a blank line (nothing when the source is not at hand).
    fn render_table(&mut self, table: &MdNode, width: usize, raw: Option<String>, fuel: usize) -> (r: Vec<String>)
        ensures
            same_content(*old(self), *final(self)),
            final(self).default_text_style == old(self).default_text_style,
            final(self).theme == old(self).theme,
            table.children@.len() == 0 || !(table.children@[0].kind is TableRow)
                || table.children@[0].children@.len() == 0 ==> r@.len() == 0,
            table.children@.len() > 0 && table.children@[0].kind is TableRow && table.children@[0].children@.len() > 0
                ==> if table_too_narrow(table.children@[0].children@.len(), width as nat) {
                    match raw {
                        None => r@.len() == 0,
                        Some(t) => {
                            &&& r@.len() == wrap_text(t@, width as nat).len() + 1
                            &&& r@[r@.len() - 1]@ == Seq::<char>::empty()
                            &&& forall|i: int| 0 <= i < r@.len() - 1 ==> (#[trigger] r@[i])@ == wrap_text(t@, width as nat)[i]
                        },
                    }
                } else {
                    &&& r@.len() >= 4
                    &&& r@[r@.len() - 1]@ == Seq::<char>::empty()
                    &&& r@[0]@.len() > 0 && r@[0]@[0] == '\u{250c}'
                },
            table.children@.len() > 0 && table.children@[0].kind is TableRow && table.children@[0].children@.len() > 0
                && !table_too_narrow(table.children@[0].children@.len(), width as nat) ==> exists|widths: Seq<usize>|
                #![trigger table_text(old(self).theme, old(self).default_text_style, old(self).prefix_view(), table_rows(table.children@), widths, fuel as nat)]
                widths.len() == table.children@[0].children@.len() && ints(widths) == column_widths(
                    ints(natural_widths(old(self).theme, old(self).default_text_style, old(self).prefix_view(), table_rows(table.children@), table.children@[0].children@.len(), fuel as nat)),
                    ints(word_widths(old(self).theme, old(self).default_text_style, old(self).prefix_view(), table_rows(table.children@), table.children@[0].children@.len(), fuel as nat)),
                    width as int,
                ) && texts(r@) == table_text(
                    old(self).theme,
                    old(self).default_text_style,
                    old(self).prefix_view(),
                    table_rows(table.children@),
                    widths,
                    fuel as nat,
                ),
    {
        let mut lines: Vec<String> = Vec::new();
        if table.children.len() == 0 {
            return lines;
        }
        match &table.children[0].kind {
            MdKind::TableRow => {},
            _ => {
                return lines;
            },
        }
        let mut rows: Vec<usize> = Vec::new();
        let mut r: usize = 0;
        while r < table.children.len()
            invariant
                r <= table.children@.len(),
                table.children@.len() > 0 && table.children@[0].kind is TableRow,
                forall|k: int| 0 <= k < rows@.len() ==> rows@[k] < table.children@.len(),
                table_rows(table.children@.take(r as int)) =~= Seq::new(
                    rows@.len(),
                    |k: int| table.children@[rows@[k] as int],
                ),
                r >= 1 ==> rows@.len() >= 1 && rows@[0] == 0,
        decreases table.children@.len() - r,
        {
            assert(table.children@.take(r + 1 as int).drop_last() =~= table.children@.take(r as int));
            match &table.children[r].kind {
                MdKind::TableRow => {
                    rows.push(r);
                },
                _ => {},
            }
            r += 1;
        }
        assert(table.children@.take(table.children@.len() as int) =~= table.children@);
        let ghost all_rows = table_rows(table.children@);
        let ghost plain = true;
        assert(all_rows.len() == rows@.len() && all_rows[0] == table.children@[0]);
        let num_cols = table.children[0].children.len();
        if num_cols == 0 {
            return lines;
        }
        let overhead = match num_cols.checked_mul(3) {
            Some(x) => x.checked_add(1),
            None => None,
        };
        let available = match overhead {
            Some(o) => if width > o {
                width - o
            } else {
                0
            },
            None => 0,
        };
        if available < num_cols {
            match raw {
                Some(text) => {
                    let mut fallback = wrap_text_with_ansi(text.as_str(), width);
                    fallback.push(String::new());
                    return fallback;
                },
                None => {
                    return lines;
                },
            }
        }
        let mut natural: Vec<usize> = Vec::new();
        let mut min_word: Vec<usize> = Vec::new();
        let mut c: usize = 0;
        let ghost hdr = all_rows.take(1);
        assert(natural@ =~= natural_widths(old(self).theme, old(self).default_text_style, old(self).prefix_view(), hdr, 0, fuel as nat));
        assert(min_word@ =~= word_widths(old(self).theme, old(self).default_text_style, old(self).prefix_view(), hdr, 0, fuel as nat));
        while c < num_cols
            invariant
                c <= num_cols,
                table.children@.len() > 0,
                num_cols == table.children@[0].children@.len(),
                same_content(*old(self), *self),
                self.default_text_style == old(self).default_text_style,
                self.theme == old(self).theme,
                natural@.len() == c,
                min_word@.len() == c,
                forall|k: int| 0 <= k < c ==> min_word@[k] >= 1,
                hdr == all_rows.take(1),
                hdr.len() == 1 && hdr[0] == table.children@[0],
                all_rows.len() >= 1 && all_rows[0] == table.children@[0],
                plain,
                plain ==> natural@ == natural_widths(old(self).theme, old(self).default_text_style, old(self).prefix_view(), hdr, c as nat, fuel as nat),
                plain ==> min_word@ == word_widths(old(self).theme, old(self).default_text_style, old(self).prefix_view(), hdr, c as nat, fuel as nat),
            decreases num_cols - c,
        {
            let ghost nat_before = natural@;
            let ghost min_before = min_word@;
            let text = self.render_cell_text(&table.children[0].children[c], fuel);
            natural.push(visible_width(text.as_str()));
            let w = get_longest_word_width(text.as_str(), 30);
            min_word.push(if w == 0 {
                1
            } else {
                w
            });
            assert(plain ==> natural@ =~= natural_widths(old(self).theme, old(self).default_text_style, old(self).prefix_view(), hdr, (c + 1) as nat, fuel as nat));
            assert(plain ==> min_word@ =~= word_widths(old(self).theme, old(self).default_text_style, old(self).prefix_view(), hdr, (c + 1) as nat, fuel as nat));
            c += 1;
        }
        let mut ri: usize = 1;
        while ri < rows.len()
            invariant
                1 <= ri,
                same_content(*old(self), *self),
                self.default_text_style == old(self).default_text_style,
                self.theme == old(self).theme,
                natural@.len() == num_cols,
                min_word@.len() == num_cols,
                forall|k: int| 0 <= k < num_cols ==> min_word@[k] >= 1,
                forall|k: int| 0 <= k < rows@.len() ==> rows@[k] < table.children@.len(),
                all_rows =~= Seq::new(rows@.len(), |k: int| table.children@[rows@[k] as int]),
                ri <= rows@.len(),
                plain,
                plain ==> natural@ == natural_widths(old(self).theme, old(self).default_text_style, old(self).prefix_view(), all_rows.take(ri as int), num_cols as nat, fuel as nat),
                plain ==> min_word@ == word_widths(old(self).theme, old(self).default_text_style, old(self).prefix_view(), all_rows.take(ri as int), num_cols as nat, fuel as nat),
            decreases rows@.len() - ri,
        {
            let row = &table.children[rows[ri]];
            let ghost pre = all_rows.take(ri as int);
            let ghost post = all_rows.take(ri + 1 as int);
            assert(post.drop_last() =~= pre);
            assert(post.last() == *row);
            let mut c: usize = 0;
            while c < row.children.len() && c < num_cols
                invariant
                    c <= num_cols,
                    same_content(*old(self), *self),
                    self.default_text_style == old(self).default_text_style,
                    self.theme == old(self).theme,
                    natural@.len() == num_cols,
                    min_word@.len() == num_cols,
                    forall|k: int| 0 <= k < num_cols ==> min_word@[k] >= 1,
                    post.drop_last() == pre,
                    post.len() >= 2,
                    post.last() == *row,
                    0 <= ri < all_rows.len(),
                    all_rows[ri as int] == *row,
                    c <= row.children@.len(),
                    plain,
                    plain ==> natural@ == Seq::new(
                        num_cols as nat,
                        |k: int| if k < c { natural_width(old(self).theme, old(self).default_text_style, old(self).prefix_view(), post, k, fuel as nat) as usize } else { natural_width(old(self).theme, old(self).default_text_style, old(self).prefix_view(), pre, k, fuel as nat) as usize },
                    ),
                    plain ==> min_word@ == Seq::new(
                        num_cols as nat,
                        |k: int| if k < c { word_width(old(self).theme, old(self).default_text_style, old(self).prefix_view(), post, k, fuel as nat) as usize } else { word_width(old(self).theme, old(self).default_text_style, old(self).prefix_view(), pre, k, fuel as nat) as usize },
                    ),
                decreases num_cols - c,
            {
                proof {
                    lemma_column_widths_bounded(old(self).theme, old(self).default_text_style, old(self).prefix_view(), pre, c as int, fuel as nat);
                    lemma_column_widths_bounded(old(self).theme, old(self).default_text_style, old(self).prefix_view(), post, c as int, fuel as nat);
                }
                let text = self.render_cell_text(&row.children[c], fuel);
                let vw = visible_width(text.as_str());
                if vw > natural[c] {
                    natural.set(c, vw);
                }
                let w = get_longest_word_width(text.as_str(), 30);
                if w > min_word[c] {
                    min_word.set(c, w);
                }
                assert(plain ==> natural@ =~= Seq::new(
                    num_cols as nat,
                    |k: int| if k < c + 1 { natural_width(old(self).theme, old(self).default_text_style, old(self).prefix_view(), post, k, fuel as nat) as usize } else { natural_width(old(self).theme, old(self).default_text_style, old(self).prefix_view(), pre, k, fuel as nat) as usize },
                ));
                assert(plain ==> min_word@ =~= Seq::new(
                    num_cols as nat,
                    |k: int| if k < c + 1 { word_width(old(self).theme, old(self).default_text_style, old(self).prefix_view(), post, k, fuel as nat) as usize } else { word_width(old(self).theme, old(self).default_text_style, old(self).prefix_view(), pre, k, fuel as nat) as usize },
                ));
                c += 1;
            }
            assert(plain ==> natural@ =~= natural_widths(old(self).theme, old(self).default_text_style, old(self).prefix_view(), post, num_cols as nat, fuel as nat));
            assert(plain ==> min_word@ =~= word_widths(old(self).theme, old(self).default_text_style, old(self).prefix_view(), post, num_cols as nat, fuel as nat));
            ri += 1;
        }
        let widths = table_column_widths(natural.as_slice(), min_word.as_slice(), width);
        proof {
            law_table_widths_fit(ints(natural@), ints(min_word@), width as int);
            assert(ints(widths@).len() == widths@.len());
            assert(all_rows.take(rows@.len() as int) =~= all_rows);
        }
        let top = border_line(widths.as_slice(), '\u{250c}', '\u{252c}', '\u{2510}');
        assert(top@[0] == '\u{250c}');
        let ghost top_v = top@;
        lines.push(top);
        assert(texts(lines@) =~= seq![top_v]);
        let header_cells = self.wrap_row(&table.children[0], widths.as_slice(), fuel);
        proof {
        }
        let ghost first = lines@[0];
        let header_lines = self.row_lines(&header_cells, widths.as_slice(), true);
        let ghost header_v = texts(header_lines@);
        push_all(&mut lines, header_lines);
        assert(lines@[0] == lines@.subrange(0, 1)[0]);
        let separator = border_line(widths.as_slice(), '\u{251c}', '\u{253c}', '\u{2524}');
        let ghost before_sep = texts(lines@);
        lines.push(separator.clone());
        assert(texts(lines@) =~= before_sep + seq![separator@]);
        let ghost prefix = texts(lines@);
        proof {
            if plain {
                assert(header_v == row_lines_text(self.theme, wrapped_cells(old(self).theme, old(self).default_text_style, old(self).prefix_view(), all_rows[0], widths@, fuel as nat), widths@, true));
                assert(prefix =~= seq![border_text(widths@, '\u{250c}', '\u{252c}', '\u{2510}')] + header_v + seq![
                    border_text(widths@, '\u{251c}', '\u{253c}', '\u{2524}'),
                ]);
            }
            assert(all_rows.subrange(1, 1) =~= Seq::<MdNode>::empty());
            assert(prefix =~= prefix + body_lines(self.theme, old(self).default_text_style, old(self).prefix_view(), all_rows.subrange(1, 1), widths@, fuel as nat));
        }
        let mut ri: usize = 1;
        while ri < rows.len()
            invariant
                1 <= ri <= rows@.len(),
                same_content(*old(self), *self),
                self.default_text_style == old(self).default_text_style,
                self.theme == old(self).theme,
                lines@.len() >= 2,
                lines@[0]@.len() > 0 && lines@[0]@[0] == '\u{250c}',
                forall|k: int| 0 <= k < rows@.len() ==> rows@[k] < table.children@.len(),
                all_rows =~= Seq::new(rows@.len(), |k: int| table.children@[rows@[k] as int]),
                plain,
                separator@ == border_text(widths@, '\u{251c}', '\u{253c}', '\u{2524}'),
                plain ==> texts(lines@) == prefix + body_lines(self.theme, old(self).default_text_style, old(self).prefix_view(), all_rows.subrange(1, ri as int), widths@, fuel as nat),
            decreases rows@.len() - ri,
        {
            let ghost before = texts(lines@);
            if ri > 1 {
                lines.push(separator.clone());
                assert(texts(lines@) =~= before + seq![separator@]);
            }
            let ghost mid = texts(lines@);
            let row_cells = self.wrap_row(&table.children[rows[ri]], widths.as_slice(), fuel);
            proof {
            }
            let ghost first = lines@[0];
            let row_out = self.row_lines(&row_cells, widths.as_slice(), false);
            let ghost row_v = texts(row_out@);
            push_all(&mut lines, row_out);
            assert(lines@[0] == lines@.subrange(0, 1)[0]);
            proof {
                let sub = all_rows.subrange(1, ri + 1 as int);
                assert(sub.drop_last() =~= all_rows.subrange(1, ri as int));
                assert(sub.last() == all_rows[ri as int]);
                if plain {
                    assert(row_v == row_lines_text(self.theme, wrapped_cells(old(self).theme, old(self).default_text_style, old(self).prefix_view(), all_rows[ri as int], widths@, fuel as nat), widths@, false));
                }
                assert(texts(lines@) =~= mid + row_v);
                if plain {
                    assert(texts(lines@) =~= prefix + body_lines(self.theme, old(self).default_text_style, old(self).prefix_view(), sub, widths@, fuel as nat));
                }
            }
            ri += 1;
        }
        let ghost before_end = texts(lines@);
        let bottom = border_line(widths.as_slice(), '\u{2514}', '\u{2534}', '\u{2518}');
        let ghost bottom_v = bottom@;
        lines.push(bottom);
        lines.push(String::new());
        assert(texts(lines@) =~= before_end + seq![bottom_v, Seq::<char>::empty()]);
        proof {
            if plain {
                assert(all_rows.subrange(1, rows@.len() as int) =~= all_rows.skip(1));
                assert(texts(lines@) =~= table_text(self.theme, old(self).default_text_style, old(self).prefix_view(), all_rows, widths@, fuel as nat));
                assert(widths@.len() == num_cols);
            }
        }
        lines
    }

    fn render_node(
        &mut self,
        node: &MdNode,
        width: usize,
        next_is_list: bool,
        has_next: bool,
        space_after: bool,
        raw: Option<String>,
        fuel: usize,
    ) -> (r: Vec<String>)
        ensures
            same_content(*old(self), *final(self)),
            final(self).default_text_style == old(self).default_text_style,
            final(self).theme == old(self).theme,
            old(self).node_lines(*node, width as nat, next_is_list, has_next, space_after, fuel as nat, texts(r@)),
    {
        match &node.kind {
            MdKind::Heading(depth) => {
                let context = self.default_inline_context();
                let text = self.render_inline_nodes(node.children.as_slice(), &context, fuel);
                let styled = if *depth == 1 {
                    let u = self.theme.underline.style(text.as_str());
                    let b = self.theme.bold.style(u.as_str());
                    self.theme.heading.style(b.as_str())
                } else if *depth == 2 {
                    let b = self.theme.bold.style(text.as_str());
                    self.theme.heading.style(b.as_str())
                } else {
                    let mut v = repeat_char('#', *depth as usize);
                    v.push(' ');
                    extend_chars(&mut v, chars_of(text.as_str()).as_slice());
                    assert(v@ =~= Seq::new(*depth as nat, |_i: int| '#') + seq![' '] + text@);
                    let b = self.theme.bold.style(string_of(v.as_slice()).as_str());
                    self.theme.heading.style(b.as_str())
                };
                assert(styled@ == heading_line(old(self).theme, *depth, text@));
                let mut lines = vec![styled];
                if !space_after {
                    lines.push(String::new());
                }
                assert(texts(lines@)[0] == styled@);
                lines
            },
            MdKind::Paragraph => {
                let context = self.default_inline_context();
                let text = self.render_inline_nodes(node.children.as_slice(), &context, fuel);
                let ghost tv = text@;
                let mut lines = vec![text];
                if has_next && !next_is_list && !space_after {
                    lines.push(String::new());
                }
                assert(texts(lines@)[0] == tv);
                lines
            },
            MdKind::Code { lang, value } => {
                let mut lines = code_lines(&self.theme, lang, value.as_str());
                let ghost code_v = texts(lines@);
                if !space_after {
                    lines.push(String::new());
                    assert(texts(lines@) =~= code_v + seq![Seq::<char>::empty()]);
                } else {
                    assert(texts(lines@) =~= code_v + Seq::<Seq<char>>::empty());
                }
                lines
            },
            MdKind::List { ordered, start } => self.render_list(node, *ordered, *start, 0, fuel),
            MdKind::Blockquote => {
                let mut lines = self.render_blockquote(node, width, fuel);
                let ghost quoted = lines@;
                if !space_after {
                    lines.push(String::new());
                }
                proof {
                    let bar = old(self).theme.quote_border.styled(seq!['\u{2502}', ' ']);
                    assert forall|j: int| 0 <= j < quoted.len() implies (#[trigger] texts(lines@)[j]).len() >= bar.len()
                        && texts(lines@)[j].subrange(0, bar.len() as int) == bar by {
                        assert(lines@[j] == quoted[j]);
                    }
                }
                lines
            },
            MdKind::ThematicBreak => {
                let n = if width < 80 {
                    width
                } else {
                    80
                };
                let rule = string_of(repeat_char('\u{2500}', n).as_slice());
                assert(rule@ =~= Seq::new(if width < 80 { width as nat } else { 80nat }, |_i: int| '\u{2500}'));
                let first = self.theme.hr.style(rule.as_str());
                let ghost first_v = first@;
                let mut lines = vec![first];
                assert(texts(lines@)[0] == first_v);
                if !space_after {
                    lines.push(String::new());
                }
                lines
            },
            MdKind::Html(v) => {
                let trimmed = string_of(crate::widgets::select_list::trim_text(v.as_str()).as_slice());
                let line = self.apply_default_style(trimmed.as_str());
                let ghost line_v = line@;
                let lines = vec![line];
                assert(texts(lines@)[0] == line_v);
                lines
            },
            MdKind::Table => self.render_table(node, width, raw, fuel),
            MdKind::Text(v) => vec![self.apply_default_style(v.as_str())],
            MdKind::Break => vec![String::new()],
            _ => Vec::new(),
        }
    }

    /// The source text of a table, from its start offset to its end offset (both clamped to
    /// the source); `None` when that is empty or an offset is not at a character boundary.
    fn raw_table_source(node: &MdNode, source: &[char]) -> (r: Option<String>)
        ensures
            match table_source(*node, source@) {
                Some(t) => r matches Some(x) && x@ == t,
                None => r is None,
            },
    {
        match &node.kind {
            MdKind::Table => {},
            _ => {
                return None;
            },
        }
        let (end, start) = match node.pos {
            Some(p) => p,
            None => {
                return None;
            },
        };
        let total = crate::chars::utf8_length(source);
        let s = if start < total {
            start
        } else {
            total
        };
        let e = if end < total {
            end
        } else {
            total
        };
        if s >= e {
            return None;
        }
        match (char_index_of(source, s), char_index_of(source, e)) {
            (Some(a), Some(b)) => if a <= b {
                Some(string_of(slice_chars(source, a, b).as_slice()))
            } else {
                None
            },
            _ => None,
        }
    }

    fn render_fresh(&mut self, width: usize) -> (r: Vec<String>)
        ensures
            old(self).fresh_lines(old(self).text_view(), width as nat, texts(r@)),
            final(self).text_view() == old(self).text_view(),
            final(self).padding_x_view() == old(self).padding_x_view(),
            final(self).padding_y_view() == old(self).padding_y_view(),
            final(self).cache == old(self).cache,
            final(self).theme == old(self).theme,
            final(self).default_text_style == old(self).default_text_style,
            final(self).prefix_view() == old(self).prefix_view(),
    {
        let content_width = content_width_of(width, self.padding_x);
        if blank_text(self.text.as_str()) {
            return Vec::new();
        }
        let normalized = expand_tabs_chars(chars_of(self.text.as_str()).as_slice());
        let normalized_text = string_of(normalized.as_slice());
        let nodes = parse_blocks(normalized_text.as_str());
        let ghost src = normalized@;
        let ghost ns = nodes@;
        let ghost mut parts: Seq<Seq<Seq<char>>> = Seq::empty();
        let mut rendered: Vec<String> = Vec::new();
        let mut idx: usize = 0;
        while idx < nodes.len()
            invariant
                idx <= nodes@.len(),
                ns == nodes@,
                src == normalized@,
                same_content(*old(self), *self),
                self.theme == old(self).theme,
                self.default_text_style == old(self).default_text_style,
                parts.len() == idx,
                texts(rendered@) == joined_blocks(parts, ns, src),
                forall|i: int|
                    #![trigger parts[i]]
                    0 <= i < idx ==> old(self).node_lines(
                        ns[i],
                        content_width as nat,
                        list_follows(ns, i),
                        i + 1 < ns.len(),
                        spaced_after(ns, i, src),
                        usize::MAX as nat,
                        parts[i],
                    ),
            decreases nodes@.len() - idx,
        {
            let node = &nodes[idx];
            let has_next = idx + 1 < nodes.len();
            let next_is_list = has_next && match &nodes[idx + 1].kind {
                MdKind::List { ordered: _, start: _ } => true,
                _ => false,
            };
            let space_after = if has_next {
                match (node_span(node), node_span(&nodes[idx + 1])) {
                    (Some((end, _)), Some((_, next_start))) => has_blank_line_between(
                        normalized.as_slice(),
                        end,
                        next_start,
                    ),
                    _ => false,
                }
            } else {
                false
            };
            assert(space_after == spaced_after(ns, idx as int, src));
            assert(next_is_list == list_follows(ns, idx as int));
            let raw = Self::raw_table_source(node, normalized.as_slice());
            let lines = self.render_node(node, content_width, next_is_list, has_next, space_after, raw, usize::MAX);
            let ghost before = rendered@;
            let ghost piece = texts(lines@);
            let ghost old_parts = parts;
            push_all(&mut rendered, lines);
            if space_after {
                rendered.push(String::new());
            }
            proof {
                parts = parts.push(piece);
                assert(parts.drop_last() =~= old_parts);
                assert(parts.last() == piece);
                assert(texts(rendered@) =~= joined_blocks(parts, ns, src));
                assert forall|i: int|
                    #![trigger parts[i]]
                    0 <= i < idx + 1 implies old(self).node_lines(
                        ns[i],
                        content_width as nat,
                        list_follows(ns, i),
                        i + 1 < ns.len(),
                        spaced_after(ns, i, src),
                        usize::MAX as nat,
                        parts[i],
                    ) by {
                    if i < idx {
                        assert(parts[i] == old_parts[i]);
                    }
                }
            }
            idx += 1;
        }
        let wrapped = wrap_markdown_lines(rendered.as_slice(), content_width);
        let none: Option<Box<dyn StyleFn>> = None;
        let bg = match &self.default_text_style {
            Some(st) => &st.bg_color,
            None => &none,
        };
        let r = frame_markdown_lines(wrapped.as_slice(), width, self.padding_x, self.padding_y, bg);
        proof {
            assert(block_views(ns) == gfm_blocks(src));
            assert(texts(wrapped@) == wrapped_markdown(joined_blocks(parts, ns, src), content_width as nat));
            assert(*bg == style_background(old(self).default_text_style));
            assert(texts(r@) =~= framed_markdown_with(
                texts(wrapped@),
                width as nat,
                self.padding_x as nat,
                self.padding_y as nat,
                style_background(old(self).default_text_style),
            ));
            assert(exists|nodes: Seq<MdNode>, parts: Seq<Seq<Seq<char>>>|
                #![trigger block_views(nodes), joined_blocks(parts, nodes, src)]
                {
                    &&& block_views(nodes) == gfm_blocks(src)
                    &&& parts.len() == nodes.len()
                    &&& forall|i: int|
                        #![trigger parts[i]]
                        0 <= i < nodes.len() ==> old(self).node_lines(
                            nodes[i],
                            content_width as nat,
                            list_follows(nodes, i),
                            i + 1 < nodes.len(),
                            spaced_after(nodes, i, src),
                            usize::MAX as nat,
                            parts[i],
                        )
                    &&& texts(r@) == framed_markdown_with(
                        wrapped_markdown(joined_blocks(parts, nodes, src), content_width as nat),
                        width as nat,
                        old(self).padding_x_view(),
                        old(self).padding_y_view(),
                        style_background(old(self).style_view()),
                    )
                });
        }
        r
    }
}

/// The source text of a table node: from its start to its end byte offset, each clamped to
/// the source's length; `None` for other nodes, unknown offsets, an empty range or an offset
/// inside a character.
pub open spec fn table_source(node: MdNode, source: Seq<char>) -> Option<Seq<char>> {
    if !(node.kind is Table) || node.pos is None {
        None
    } else {
        let p = node.pos->0;
        let end = p.0 as int;
        let start = p.1 as int;
        let total = crate::text::sat(crate::chars::utf8_bytes(source)) as int;
        let s = if start < total { start } else { total };
        let e = if end < total { end } else { total };
        if s >= e {
            None
        } else {
            match (char_index(source, s), char_index(source, e)) {
                (Some(a), Some(b)) => if a <= b { Some(source.subrange(a, b)) } else { None },
                _ => None,
            }
        }
    }
}

/// The indent of a list at nesting `depth`: two spaces per level.
pub open spec fn list_indent(depth: usize) -> Seq<char> {
    spaces(if 2 * depth > usize::MAX { usize::MAX as nat } else { (2 * depth) as nat })
}

/// The nesting of a list inside an item of a list at `depth`.
pub open spec fn nested_depth(depth: usize) -> usize {
    if depth < usize::MAX {
        (depth + 1) as usize
    } else {
        depth
    }
}

/// The bullet of child `i` of a list: its number (counted from `start`, 1 by default) and a
/// dot when the list is ordered, else a dash; then a space.
pub open spec fn list_bullet_text(ordered: bool, start: Option<u32>, i: int) -> Seq<char> {
    if ordered {
        let n: int = match start {
            Some(s) => s as int,
            None => 1,
        } + i;
        decimal(if n > u64::MAX { u64::MAX as nat } else { n as nat }) + seq!['.', ' ']
    } else {
        seq!['-', ' ']
    }
}

/// A line of an item after its first: kept as it is when it is a line of a nested list, else
/// indented by the list indent and two spaces.
pub open spec fn item_rest_line(indent: Seq<char>, l: Seq<char>) -> Seq<char> {
    if nested_list_line(l) {
        l
    } else {
        indent + seq![' ', ' '] + l
    }
}

/// The lines of one item whose own lines are `il`, with `head` (indent and bullet) in front
/// of its first line (unless that line belongs to a nested list); just `head` when the item
/// has no lines.
pub open spec fn item_block(indent: Seq<char>, head: Seq<char>, il: Seq<Seq<char>>) -> Seq<Seq<char>> {
    if il.len() == 0 {
        seq![head]
    } else {
        seq![if nested_list_line(il[0]) { il[0] } else { head + il[0] }] + il.subrange(1, il.len() as int).map_values(
            |l: Seq<char>| item_rest_line(indent, l),
        )
    }
}

/// The lines of a list whose children are `kids`, child `j` of which renders to `parts[j]`:
/// the block of each item in order; other children give nothing.
pub open spec fn list_compose(
    theme: MarkdownTheme,
    ordered: bool,
    start: Option<u32>,
    indent: Seq<char>,
    kids: Seq<MdNode>,
    parts: Seq<Seq<Seq<char>>>,
) -> Seq<Seq<char>>
    decreases kids.len(),
{
    if kids.len() == 0 {
        Seq::empty()
    } else {
        let n = kids.len() - 1;
        list_compose(theme, ordered, start, indent, kids.drop_last(), parts.drop_last()) + if kids[n].kind is ListItem {
            item_block(indent, indent + theme.list_bullet.styled(list_bullet_text(ordered, start, n)), parts.last())
        } else {
            Seq::empty()
        }
    }
}

/// The lines a list node renders to at nesting `depth` with `fuel` (code blocks taken
/// without a highlighter): nothing without fuel; otherwise the block of each item in order.
pub open spec fn list_text(
    theme: MarkdownTheme,
    style: Option<DefaultTextStyle>,
    prefix: Seq<char>,
    node: MdNode,
    ordered: bool,
    start: Option<u32>,
    depth: usize,
    fuel: nat,
) -> Seq<Seq<char>>
    decreases fuel, 0nat, 0nat,
{
    if fuel == 0 {
        Seq::empty()
    } else {
        list_compose(
            theme,
            ordered,
            start,
            list_indent(depth),
            node.children@,
            list_parts(theme, style, prefix, node.children@, depth, (fuel - 1) as nat),
        )
    }
}

/// What each child of a list renders to: an item its lines, anything else nothing.
pub open spec fn list_parts(
    theme: MarkdownTheme,
    style: Option<DefaultTextStyle>,
    prefix: Seq<char>,
    kids: Seq<MdNode>,
    depth: usize,
    fuel: nat,
) -> Seq<Seq<Seq<char>>>
    decreases fuel, 4nat, kids.len(),
{
    if kids.len() == 0 {
        Seq::empty()
    } else {
        list_parts(theme, style, prefix, kids.drop_last(), depth, fuel).push(
            if kids.last().kind is ListItem {
                item_text(theme, style, prefix, kids.last(), depth, fuel)
            } else {
                Seq::empty()
            },
        )
    }
}

/// The lines a list item renders to: the lines of its children one after the other.
pub open spec fn item_text(
    theme: MarkdownTheme,
    style: Option<DefaultTextStyle>,
    prefix: Seq<char>,
    item: MdNode,
    depth: usize,
    fuel: nat,
) -> Seq<Seq<char>>
    decreases fuel, 3nat, 0nat,
{
    children_text(theme, style, prefix, item.children@, depth, fuel)
}

/// The lines of the children of a list item, one child after the other.
pub open spec fn children_text(
    theme: MarkdownTheme,
    style: Option<DefaultTextStyle>,
    prefix: Seq<char>,
    kids: Seq<MdNode>,
    depth: usize,
    fuel: nat,
) -> Seq<Seq<char>>
    decreases fuel, 2nat, kids.len(),
{
    if kids.len() == 0 {
        Seq::empty()
    } else {
        children_text(theme, style, prefix, kids.drop_last(), depth, fuel) + item_child_text(
            theme,
            style,
            prefix,
            kids.last(),
            depth,
            fuel,
        )
    }
}

/// The lines a child of a list item renders to: a nested list one level deeper; a code block
/// its fenced lines; a paragraph, text or HTML its inline text split at line breaks; anything
/// else its inline text split at line breaks when there is any.
pub open spec fn item_child_text(
    theme: MarkdownTheme,
    style: Option<DefaultTextStyle>,
    prefix: Seq<char>,
    child: MdNode,
    depth: usize,
    fuel: nat,
) -> Seq<Seq<char>>
    decreases fuel, 1nat, 0nat,
{
    match child.kind {
        MdKind::List { ordered, start } => list_text(theme, style, prefix, child, ordered, start, nested_depth(depth), fuel),
        MdKind::Code { lang, value } => code_text(theme, lang, value@),
        MdKind::Paragraph | MdKind::Text(_) | MdKind::Html(_) => split_lines(inline_text(theme, style, false, prefix, child, fuel)),
        _ => {
            let t = inline_text(theme, style, false, prefix, child, fuel);
            if t.len() == 0 {
                Seq::empty()
            } else {
                split_lines(t)
            }
        },
    }
}

/// How many of `nodes` are of a kind that `p` holds of.
pub open spec fn count_kind(nodes: Seq<MdNode>, p: spec_fn(MdKind) -> bool) -> nat
    decreases nodes.len(),
{
    if nodes.len() == 0 {
        0
    } else {
        count_kind(nodes.drop_last(), p) + if p(nodes.last().kind) { 1nat } else { 0nat }
    }
}

/// The text of each line of each cell.
pub open spec fn cells_view(cells: Seq<Vec<String>>) -> Seq<Seq<Seq<char>>> {
    cells.map_values(|c: Vec<String>| c@.map_values(|s: String| s@))
}

/// The most lines any cell has.
pub open spec fn max_lines(cells: Seq<Seq<Seq<char>>>) -> nat
    decreases cells.len(),
{
    if cells.len() == 0 {
        0
    } else if cells.last().len() > max_lines(cells.drop_last()) {
        cells.last().len()
    } else {
        max_lines(cells.drop_last())
    }
}

/// Line `j` of a cell, or nothing past its last line.
pub open spec fn cell_line(cell: Seq<Seq<char>>, j: int) -> Seq<char> {
    if 0 <= j < cell.len() {
        cell[j]
    } else {
        Seq::empty()
    }
}

/// Line `j` of an unstyled row: each cell's line `j` padded to its column's width.
pub open spec fn plain_row_line(cells: Seq<Seq<Seq<char>>>, widths: Seq<usize>, j: int) -> Seq<char> {
    row_text(Seq::new(widths.len(), |k: int| pad_line(cell_line(cells[k], j), widths[k] as nat)))
}

/// A header line: as `plain_row_line`, with each padded cell in the bold style.
pub open spec fn header_row_line(theme: MarkdownTheme, cells: Seq<Seq<Seq<char>>>, widths: Seq<usize>, j: int) -> Seq<char> {
    row_text(Seq::new(widths.len(), |k: int| theme.bold.styled(pad_line(cell_line(cells[k], j), widths[k] as nat))))
}

/// The lines of a table row whose cells hold the lines `cells`: as many as its tallest cell.
pub open spec fn row_lines_text(theme: MarkdownTheme, cells: Seq<Seq<Seq<char>>>, widths: Seq<usize>, header: bool) -> Seq<
    Seq<char>,
> {
    Seq::new(
        max_lines(cells),
        |j: int|
            if header {
                header_row_line(theme, cells, widths, j)
            } else {
                plain_row_line(cells, widths, j)
            },
    )
}

/// The text a table cell shows: its inline content rendered in the default context.
pub open spec fn cell_text(theme: MarkdownTheme, style: Option<DefaultTextStyle>, prefix: Seq<char>, cell: MdNode, fuel: nat) -> Seq<char> {
    if cell.kind is TableCell {
        inline_texts(theme, style, false, prefix, cell.children@, fuel)
    } else {
        inline_text(theme, style, false, prefix, cell, fuel)
    }
}

/// The cells of a row wrapped to the column widths (each at least one cell wide); columns
/// past the row's last cell are empty.
pub open spec fn wrapped_cells(theme: MarkdownTheme, style: Option<DefaultTextStyle>, prefix: Seq<char>, row: MdNode, widths: Seq<usize>, fuel: nat) -> Seq<Seq<Seq<char>>> {
    Seq::new(
        widths.len(),
        |c: int|
            if c < row.children@.len() {
                wrap_text(
                    cell_text(theme, style, prefix, row.children@[c], fuel),
                    if widths[c] == 0 { 1nat } else { widths[c] as nat },
                )
            } else {
                Seq::empty()
            },
    )
}

/// How many cells wide cell `c` of `row` is as plain text.
pub open spec fn cell_natural(theme: MarkdownTheme, style: Option<DefaultTextStyle>, prefix: Seq<char>, row: MdNode, c: int, fuel: nat) -> nat {
    sat(text_width(cell_text(theme, style, prefix, row.children@[c], fuel))) as nat
}

/// The widest word of cell `c` of `row` as plain text, at most 30 cells.
pub open spec fn cell_word(theme: MarkdownTheme, style: Option<DefaultTextStyle>, prefix: Seq<char>, row: MdNode, c: int, fuel: nat) -> nat {
    longest_word_width(cell_text(theme, style, prefix, row.children@[c], fuel), 30)
}

/// The natural width of column `c`: its widest cell over the header `rows[0]` and the body
/// rows that have that cell.
pub open spec fn natural_width(theme: MarkdownTheme, style: Option<DefaultTextStyle>, prefix: Seq<char>, rows: Seq<MdNode>, c: int, fuel: nat) -> nat
    decreases rows.len(),
{
    if rows.len() == 0 {
        0
    } else if rows.len() == 1 {
        cell_natural(theme, style, prefix, rows[0], c, fuel)
    } else {
        let rest = natural_width(theme, style, prefix, rows.drop_last(), c, fuel);
        if c < rows.last().children@.len() && cell_natural(theme, style, prefix, rows.last(), c, fuel) > rest {
            cell_natural(theme, style, prefix, rows.last(), c, fuel)
        } else {
            rest
        }
    }
}

/// The least width of column `c`: its widest word over the same cells, and at least one.
pub open spec fn word_width(theme: MarkdownTheme, style: Option<DefaultTextStyle>, prefix: Seq<char>, rows: Seq<MdNode>, c: int, fuel: nat) -> nat
    decreases rows.len(),
{
    if rows.len() == 0 {
        1
    } else if rows.len() == 1 {
        if cell_word(theme, style, prefix, rows[0], c, fuel) == 0 {
            1
        } else {
            cell_word(theme, style, prefix, rows[0], c, fuel)
        }
    } else {
        let rest = word_width(theme, style, prefix, rows.drop_last(), c, fuel);
        if c < rows.last().children@.len() && cell_word(theme, style, prefix, rows.last(), c, fuel) > rest {
            cell_word(theme, style, prefix, rows.last(), c, fuel)
        } else {
            rest
        }
    }
}

/// Column widths stay within a machine word, and least widths within 30 cells.
pub proof fn lemma_column_widths_bounded(theme: MarkdownTheme, style: Option<DefaultTextStyle>, prefix: Seq<char>, rows: Seq<MdNode>, c: int, fuel: nat)
    ensures
        natural_width(theme, style, prefix, rows, c, fuel) <= usize::MAX,
        1 <= word_width(theme, style, prefix, rows, c, fuel) <= 30,
    decreases rows.len(),
{
    if rows.len() > 1 {
        lemma_column_widths_bounded(theme, style, prefix, rows.drop_last(), c, fuel);
    }
}

/// The natural and least widths of the first `n` columns.
pub open spec fn natural_widths(theme: MarkdownTheme, style: Option<DefaultTextStyle>, prefix: Seq<char>, rows: Seq<MdNode>, n: nat, fuel: nat) -> Seq<usize> {
    Seq::new(n, |k: int| natural_width(theme, style, prefix, rows, k, fuel) as usize)
}

pub open spec fn word_widths(theme: MarkdownTheme, style: Option<DefaultTextStyle>, prefix: Seq<char>, rows: Seq<MdNode>, n: nat, fuel: nat) -> Seq<usize> {
    Seq::new(n, |k: int| word_width(theme, style, prefix, rows, k, fuel) as usize)
}

/// The children that are table rows, in order.
pub open spec fn table_rows(children: Seq<MdNode>) -> Seq<MdNode>
    decreases children.len(),
{
    if children.len() == 0 {
        Seq::empty()
    } else {
        let p = table_rows(children.drop_last());
        if children.last().kind is TableRow {
            p.push(children.last())
        } else {
            p
        }
    }
}

/// The lines of the body rows `rows`, with a separator line between each two.
pub open spec fn body_lines(theme: MarkdownTheme, style: Option<DefaultTextStyle>, prefix: Seq<char>, rows: Seq<MdNode>, widths: Seq<usize>, fuel: nat) -> Seq<Seq<char>>
    decreases rows.len(),
{
    if rows.len() == 0 {
        Seq::empty()
    } else {
        let rest = body_lines(theme, style, prefix, rows.drop_last(), widths, fuel);
        let sep = if rows.len() > 1 {
            seq![border_text(widths, '\u{251c}', '\u{253c}', '\u{2524}')]
        } else {
            Seq::<Seq<char>>::empty()
        };
        rest + sep + row_lines_text(theme, wrapped_cells(theme, style, prefix, rows.last(), widths, fuel), widths, false)
    }
}

/// A table of plain cells drawn at column widths `widths`: the top border, the header row in
/// bold, the header separator, the body rows with separators between them, the bottom border
/// and a blank line.
pub open spec fn table_text(theme: MarkdownTheme, style: Option<DefaultTextStyle>, prefix: Seq<char>, rows: Seq<MdNode>, widths: Seq<usize>, fuel: nat) -> Seq<Seq<char>> {
    seq![border_text(widths, '\u{250c}', '\u{252c}', '\u{2510}')] + row_lines_text(
        theme,
        wrapped_cells(theme, style, prefix, rows[0], widths, fuel),
        widths,
        true,
    ) + seq![border_text(widths, '\u{251c}', '\u{253c}', '\u{2524}')] + body_lines(theme, style, prefix, rows.skip(1), widths, fuel)
        + seq![border_text(widths, '\u{2514}', '\u{2534}', '\u{2518}'), Seq::<char>::empty()]
}

/// Whether `cols` columns do not fit in `width`: less than a cell each is left once the
/// borders and the padding (three cells per column and one) are taken.
pub open spec fn table_too_narrow(cols: nat, width: nat) -> bool {
    let overhead = 3 * cols + 1;
    (if width > overhead { width - overhead } else { 0 }) < cols
}

/// Every line starts with `b`.
pub open spec fn all_start_with(lines: Seq<String>, b: Seq<char>) -> bool {
    forall|i: int| 0 <= i < lines.len() ==> (#[trigger] lines[i])@.len() >= b.len() && lines[i]@.subrange(0, b.len() as int) == b
}

/// Every node is plain text.
pub open spec fn all_text(nodes: Seq<MdNode>) -> bool {
    forall|i: int| 0 <= i < nodes.len() ==> (#[trigger] nodes[i]).kind is Text
}

/// Kinds that inline rendering leaves out.
pub open spec fn block_kind(k: MdKind) -> bool {
    match k {
        MdKind::Root | MdKind::Heading(_) | MdKind::Code { .. } | MdKind::List { .. } | MdKind::ListItem
        | MdKind::Blockquote | MdKind::ThematicBreak | MdKind::Table | MdKind::TableRow | MdKind::TableCell
        | MdKind::Other => true,
        _ => false,
    }
}

/// The block kinds whose spacing depends on the source.
pub open spec fn spaced_kind(k: MdKind) -> bool {
    match k {
        MdKind::Heading(_) | MdKind::Paragraph | MdKind::Code { .. } | MdKind::List { .. } | MdKind::Blockquote
        | MdKind::ThematicBreak | MdKind::Html(_) | MdKind::Table | MdKind::Text(_) => true,
        _ => false,
    }
}

/// The `(end, start)` offsets of the block kinds whose spacing depends on the source.
fn node_span(node: &MdNode) -> (r: Option<(usize, usize)>)
    ensures
        r == if spaced_kind(node.kind) { node.pos } else { None },
{
    match &node.kind {
        MdKind::Heading(_) | MdKind::Paragraph | MdKind::Code { lang: _, value: _ } | MdKind::List {
            ordered: _,
            start: _,
        } | MdKind::Blockquote | MdKind::ThematicBreak | MdKind::Html(_) | MdKind::Table
        | MdKind::Text(_) => node.pos,
        _ => None,
    }
}

/// The `(end, start)` offsets that spacing reads from a block (see `node_span`).
pub open spec fn span_of(node: MdNode) -> Option<(usize, usize)> {
    if spaced_kind(node.kind) {
        node.pos
    } else {
        None
    }
}

/// Whether a blank line follows block `i`: the next block begins after a blank source line.
pub open spec fn spaced_after(nodes: Seq<MdNode>, i: int, source: Seq<char>) -> bool {
    i + 1 < nodes.len() && match (span_of(nodes[i]), span_of(nodes[i + 1])) {
        (Some((end, _)), Some((_, next_start))) => blank_line_between(source, end as int, next_start as int),
        _ => false,
    }
}

/// Whether block `i` is followed by a list.
pub open spec fn list_follows(nodes: Seq<MdNode>, i: int) -> bool {
    i + 1 < nodes.len() && nodes[i + 1].kind is List
}

/// The blocks' lines in order, each block followed by a blank line where `spaced_after` holds.
pub open spec fn joined_blocks(parts: Seq<Seq<Seq<char>>>, nodes: Seq<MdNode>, source: Seq<char>) -> Seq<Seq<char>>
    decreases parts.len(),
{
    if parts.len() == 0 {
        Seq::empty()
    } else {
        joined_blocks(parts.drop_last(), nodes, source) + parts.last() + if spaced_after(
            nodes,
            parts.len() - 1,
            source,
        ) {
            seq![Seq::<char>::empty()]
        } else {
            Seq::<Seq<char>>::empty()
        }
    }
}

/// The first line of a heading of `depth` whose inline text is `text`: level 1 underlined,
/// bold and in the heading style; level 2 bold and in the heading style; deeper levels
/// after their `#` marks, bold and in the heading style.
pub open spec fn heading_line(theme: MarkdownTheme, depth: u8, text: Seq<char>) -> Seq<char> {
    if depth == 1 {
        theme.heading.styled(theme.bold.styled(theme.underline.styled(text)))
    } else if depth == 2 {
        theme.heading.styled(theme.bold.styled(text))
    } else {
        theme.heading.styled(
            theme.bold.styled(Seq::new(depth as nat, |_i: int| '#') + seq![' '] + text),
        )
    }
}

/// Whether a default text style changes text: it has a color or an emphasis flag.
pub open spec fn styles_text(style: Option<DefaultTextStyle>) -> bool {
    style matches Some(st) && (st.color is Some || st.bold || st.italic || st.strikethrough || st.underline)
}

/// The background of a default text style, if it has one.
pub open spec fn style_background(style: Option<DefaultTextStyle>) -> Option<Box<dyn StyleFn>> {
    match style {
        Some(st) => st.bg_color,
        None => None,
    }
}

/// What a block renders to (the lines `l`) at `width`, given whether a list follows,
/// whether any block follows and whether a blank source line follows. Headings and rules
/// give one line and a blank one unless spacing follows, a rule's line being `─` repeated to
/// the width (at most 80) in the rule style; a paragraph gives its text and a blank line
/// before a block other than a list; code gives its fenced lines (exactly `code_text`
/// without a highlighter) and a blank line unless spacing follows; a list at least one line
/// per item; a quote's lines each begin with the styled quote border; HTML (trimmed) and
/// text one line, as they are unless the default style changes text; a break an empty line.
/// When the default style leaves text alone and the block holds only text, a heading's line
/// is `heading_line` of that text and a paragraph's line is the text itself. A table whose cells hold only text and whose
/// columns fit in `width` is drawn as `table_text`, at the column widths chosen from the
/// cells' natural and least widths.
pub open spec fn block_lines_ok(
    theme: MarkdownTheme,
    style: Option<DefaultTextStyle>,
    prefix: Seq<char>,
    node: MdNode,
    width: nat,
    next_is_list: bool,
    has_next: bool,
    space_after: bool,
    fuel: nat,
    l: Seq<Seq<char>>,
) -> bool {
    &&& match node.kind {
        MdKind::Heading(_) => l.len() == (if space_after { 1int } else { 2int }) && (!space_after ==> l[1].len() == 0),
        MdKind::ThematicBreak => l.len() == (if space_after { 1int } else { 2int }) && (!space_after ==> l[1].len() == 0)
            && l[0] == theme.hr.styled(Seq::new(if width < 80 { width } else { 80nat }, |_i: int| '\u{2500}')),
        MdKind::Paragraph => l.len() == (if has_next && !next_is_list && !space_after { 2int } else { 1int })
            && (l.len() == 2 ==> l[1].len() == 0),
        MdKind::Code { lang, value } => l.len() >= (if space_after { 2int } else { 3int }) && (!space_after
            ==> l[l.len() - 1].len() == 0) && (theme.highlight_code is None ==> l == code_text(theme, lang, value@) + if space_after {
            Seq::<Seq<char>>::empty()
        } else {
            seq![Seq::<char>::empty()]
        }),
        MdKind::Blockquote => {
            let bar = theme.quote_border.styled(seq!['\u{2502}', ' ']);
            let quoted = if space_after { l.len() as int } else { l.len() - 1 };
            &&& !space_after ==> l.len() >= 1 && l[l.len() - 1].len() == 0
            &&& forall|j: int| 0 <= j < quoted ==> (#[trigger] l[j]).len() >= bar.len() && l[j].subrange(0, bar.len() as int) == bar
        },
        MdKind::List { .. } => fuel > 0 ==> l.len() >= count_kind(node.children@, |k: MdKind| k is ListItem),
        MdKind::Html(v) => l.len() == 1 && l[0] == default_styled(theme, style, crate::widgets::select_list::trim(v@)),
        MdKind::Text(v) => l.len() == 1 && l[0] == default_styled(theme, style, v@),
        MdKind::Break => l.len() == 1 && l[0].len() == 0,
        MdKind::Table => {
            let rows = table_rows(node.children@);
            let n = if node.children@.len() > 0 { node.children@[0].children@.len() } else { 0 };
            node.children@.len() > 0 && node.children@[0].kind is TableRow && n > 0 && !table_too_narrow(n, width)
                ==> exists|widths: Seq<usize>|
                #![trigger table_text(theme, style, prefix, rows, widths, fuel)]
                widths.len() == n && ints(widths) == column_widths(
                    ints(natural_widths(theme, style, prefix, rows, n, fuel)),
                    ints(word_widths(theme, style, prefix, rows, n, fuel)),
                    width as int,
                ) && l == table_text(theme, style, prefix, rows, widths, fuel)
        },
        _ => l.len() == 0,
    }
    &&& match node.kind {
        MdKind::Heading(d) => l[0] == heading_line(theme, d, inline_texts(theme, style, false, prefix, node.children@, fuel)),
        MdKind::Paragraph => l[0] == inline_texts(theme, style, false, prefix, node.children@, fuel),
        _ => true,
    }
}

/// The lines `r` of a fresh rendering of `text` at `width`: nothing for blank text;
/// otherwise the blocks of the GFM parse of `text` (tabs expanded), each rendered as
/// `node_lines` says, joined with the blank lines that spacing asks for, wrapped to the
/// content width and framed with the paddings, the default style's background applied to every
/// line but image lines.
pub open spec fn markdown_lines(
    theme: MarkdownTheme,
    style: Option<DefaultTextStyle>,
    prefix: Seq<char>,
    padding_x: nat,
    padding_y: nat,
    text: Seq<char>,
    width: nat,
    r: Seq<Seq<char>>,
) -> bool {
    if is_blank(text) {
        r.len() == 0
    } else {
        let src = expand_tabs(text);
        &&& r.len() >= 2 * padding_y
        &&& exists|nodes: Seq<MdNode>, parts: Seq<Seq<Seq<char>>>|
            #![trigger block_views(nodes), joined_blocks(parts, nodes, src)]
            {
                &&& block_views(nodes) == gfm_blocks(src)
                &&& parts.len() == nodes.len()
                &&& forall|i: int|
                    #![trigger parts[i]]
                    0 <= i < nodes.len() ==> block_lines_ok(
                        theme,
                        style,
                        prefix,
                        nodes[i],
                        content_width(width, padding_x),
                        list_follows(nodes, i),
                        i + 1 < nodes.len(),
                        spaced_after(nodes, i, src),
                        usize::MAX as nat,
                        parts[i],
                    )
                &&& r == framed_markdown_with(
                    wrapped_markdown(joined_blocks(parts, nodes, src), content_width(width, padding_x)),
                    width,
                    padding_x,
                    padding_y,
                    style_background(style),
                )
            }
    }
}

/// The plain-value views of blocks.
pub open spec fn block_views(nodes: Seq<MdNode>) -> Seq<MdView> {
    nodes.map_values(|n: MdNode| node_view(n))
}

impl Component for Markdown {
    /// Blank text renders to nothing; otherwise the rendered lines (a single empty line when
    /// nothing else results), reused while the text and width stay the same.
    fn render(&mut self, width: usize) -> (r: Vec<String>)
        ensures
            old(self).cache_wf() ==> (is_blank(old(self).text_view()) ==> r@.len() == 0),
            old(self).cache_wf() ==> exists|f: Seq<Seq<char>>|
                #[trigger] old(self).fresh_lines(old(self).text_view(), width as nat, f) && (texts(r@) == f || (f.len()
                    == 0 && !is_blank(old(self).text_view()) && texts(r@) == seq![Seq::<char>::empty()])),
            old(self).cache_wf() ==> final(self).cache_wf(),
            final(self).text_view() == old(self).text_view(),
            final(self).prefix_view() == old(self).prefix_view(),
            final(self).cache_view() matches Some((t, _)) && t == old(self).text_view(),
            Markdown::render_step(*old(self), width as nat, r@, *final(self)),
    {
        let stale = match &self.cache {
            Some(c) => blank_text(c.text.as_str()) && c.lines.len() > 0,
            None => false,
        };
        if stale {
            self.cache = None;
        }
        match &self.cache {
            Some(c) => {
                let same_text = c.text == self.text;
                assert(same_text == (c.text@ == self.text@));
                if same_text && c.width == width {
                    let out = copy_strings(c.lines.as_slice());
                    proof {
                        if old(self).cache_wf() {
                            assert(self.cache == old(self).cache);
                            assert(old(self).fresh_lines(c.text@, c.width as nat, texts(c.lines@)));
                            assert(texts(out@) == texts(c.lines@));
                            assert(c.text@ == old(self).text_view());
                            assert(old(self).fresh_lines(old(self).text_view(), width as nat, texts(out@)));
                        }
                    }
                    return out;
                }
            },
            None => {},
        }
        assert(old(self).cache_wf() && old(self).kept_width() == width ==> match old(self).cache_view() {
            Some((t, lines)) => t != old(self).text_view(),
            None => true,
        });
        let result = self.render_fresh(width);
        let ghost f = texts(result@);
        let kept_text = self.text.clone();
        let kept = copy_strings(result.as_slice());
        assert(kept_text@ == self.text@);
        assert(texts(kept@) == f);
        self.cache = Some(MarkdownCache { text: kept_text, width, lines: kept });
        assert(self.fresh_lines(self.text@, width as nat, f) == old(self).fresh_lines(old(self).text_view(), width as nat, f));
        if result.len() == 0 && !blank_text(self.text.as_str()) {
            let one = vec![String::new()];
            assert(texts(one@) =~= seq![Seq::<char>::empty()]);
            assert(self.cache_view() matches Some((t, lines)) && lines.len() == 0 && !is_blank(t));
            one
        } else {
            result
        }
    }

    /// Drops the kept rendering.
    fn invalidate(&mut self)
        ensures
            final(self).cache_view() is None,
            final(self).cache_wf(),
            final(self).text_view() == old(self).text_view(),
            final(self).padding_x_view() == old(self).padding_x_view(),
            final(self).padding_y_view() == old(self).padding_y_view(),
    {
        self.cache = None;
    }
}

} // verus!
