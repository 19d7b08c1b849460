//! The markdown syntax tree that the markdown widget renders, and its construction from the
//! tree that the `markdown` crate parses (GitHub-flavoured markdown).

use vstd::prelude::*;




verus! {

#[verifier::external_type_specification]
#[verifier::external_body]
pub struct ExMdastNode(::markdown::mdast::Node);

/// What a node is, with the values that rendering reads.
pub enum MdKind {
    Root,
    Heading(u8),
    Paragraph,
    Code { lang: Option<String>, value: String },
    List { ordered: bool, start: Option<u32> },
    ListItem,
    Blockquote,
    ThematicBreak,
    Html(String),
    Table,
    TableRow,
    TableCell,
    Text(String),
    Strong,
    Emphasis,
    Delete,
    InlineCode(String),
    Link(String),
    Break,
    Image { alt: String, url: String },
    InlineMath(String),
    Math(String),
    Other,
}

/// What a node is, as plain values.
pub enum MdKindView {
    Root,
    Heading(u8),
    Paragraph,
    Code { lang: Option<Seq<char>>, value: Seq<char> },
    List { ordered: bool, start: Option<u32> },
    ListItem,
    Blockquote,
    ThematicBreak,
    Html(Seq<char>),
    Table,
    TableRow,
    TableCell,
    Text(Seq<char>),
    Strong,
    Emphasis,
    Delete,
    InlineCode(Seq<char>),
    Link(Seq<char>),
    Break,
    Image { alt: Seq<char>, url: Seq<char> },
    InlineMath(Seq<char>),
    Math(Seq<char>),
    Other,
}

/// A node as plain values.
pub struct MdView {
    pub kind: MdKindView,
    pub children: Seq<MdView>,
    pub pos: Option<(usize, usize)>,
}

pub open spec fn kind_view(k: MdKind) -> MdKindView {
    match k {
        MdKind::Root => MdKindView::Root,
        MdKind::Heading(d) => MdKindView::Heading(d),
        MdKind::Paragraph => MdKindView::Paragraph,
        MdKind::Code { lang, value } => MdKindView::Code {
            lang: match lang {
                Some(l) => Some(l@),
                None => None,
            },
            value: value@,
        },
        MdKind::List { ordered, start } => MdKindView::List { ordered, start },
        MdKind::ListItem => MdKindView::ListItem,
        MdKind::Blockquote => MdKindView::Blockquote,
        MdKind::ThematicBreak => MdKindView::ThematicBreak,
        MdKind::Html(v) => MdKindView::Html(v@),
        MdKind::Table => MdKindView::Table,
        MdKind::TableRow => MdKindView::TableRow,
        MdKind::TableCell => MdKindView::TableCell,
        MdKind::Text(v) => MdKindView::Text(v@),
        MdKind::Strong => MdKindView::Strong,
        MdKind::Emphasis => MdKindView::Emphasis,
        MdKind::Delete => MdKindView::Delete,
        MdKind::InlineCode(v) => MdKindView::InlineCode(v@),
        MdKind::Link(v) => MdKindView::Link(v@),
        MdKind::Break => MdKindView::Break,
        MdKind::Image { alt, url } => MdKindView::Image { alt: alt@, url: url@ },
        MdKind::InlineMath(v) => MdKindView::InlineMath(v@),
        MdKind::Math(v) => MdKindView::Math(v@),
        MdKind::Other => MdKindView::Other,
    }
}

/// A node and everything below it, as plain values.
pub open spec fn node_view(n: MdNode) -> MdView
    decreases n,
{
    MdView {
        kind: kind_view(n.kind),
        children: Seq::new(n.children@.len(), |i: int| if 0 <= i < n.children@.len() { node_view(n.children@[i]) } else { MdView { kind: MdKindView::Other, children: Seq::empty(), pos: None } }),
        pos: n.pos,
    }
}

/// A node: its kind, its children and, when known, its `(end, start)` byte offsets in the
/// source.
pub struct MdNode {
    pub kind: MdKind,
    pub children: Vec<MdNode>,
    pub pos: Option<(usize, usize)>,
}

/// Reads the kind of a document or container node (moves the variant's fields).
/// Nothing is claimed: the node is opaque here.
#[verifier::external_body]
fn container_kind(n: &::markdown::mdast::Node) -> Option<MdKind> {
    match n {
        ::markdown::mdast::Node::Root(_) => Some(MdKind::Root),
        ::markdown::mdast::Node::Heading(x) => Some(MdKind::Heading(x.depth)),
        ::markdown::mdast::Node::Paragraph(_) => Some(MdKind::Paragraph),
        ::markdown::mdast::Node::List(x) => Some(MdKind::List { ordered: x.ordered, start: x.start }),
        ::markdown::mdast::Node::ListItem(_) => Some(MdKind::ListItem),
        ::markdown::mdast::Node::Blockquote(_) => Some(MdKind::Blockquote),
        ::markdown::mdast::Node::Table(_) => Some(MdKind::Table),
        ::markdown::mdast::Node::TableRow(_) => Some(MdKind::TableRow),
        ::markdown::mdast::Node::TableCell(_) => Some(MdKind::TableCell),
        _ => None,
    }
}

/// Reads the kind of a literal node (copies its text). Nothing is claimed.
#[verifier::external_body]
fn literal_kind(n: &::markdown::mdast::Node) -> Option<MdKind> {
    match n {
        ::markdown::mdast::Node::Code(x) => Some(MdKind::Code { lang: x.lang.clone(), value: x.value.clone() }),
        ::markdown::mdast::Node::Html(x) => Some(MdKind::Html(x.value.clone())),
        ::markdown::mdast::Node::Text(x) => Some(MdKind::Text(x.value.clone())),
        ::markdown::mdast::Node::InlineCode(x) => Some(MdKind::InlineCode(x.value.clone())),
        ::markdown::mdast::Node::InlineMath(x) => Some(MdKind::InlineMath(x.value.clone())),
        ::markdown::mdast::Node::Math(x) => Some(MdKind::Math(x.value.clone())),
        _ => None,
    }
}

/// Reads the kind of a phrasing node (copies link and image fields). Nothing is claimed.
#[verifier::external_body]
fn phrasing_kind(n: &::markdown::mdast::Node) -> Option<MdKind> {
    match n {
        ::markdown::mdast::Node::Strong(_) => Some(MdKind::Strong),
        ::markdown::mdast::Node::Emphasis(_) => Some(MdKind::Emphasis),
        ::markdown::mdast::Node::Delete(_) => Some(MdKind::Delete),
        ::markdown::mdast::Node::Link(x) => Some(MdKind::Link(x.url.clone())),
        ::markdown::mdast::Node::Break(_) => Some(MdKind::Break),
        ::markdown::mdast::Node::Image(x) => Some(MdKind::Image { alt: x.alt.clone(), url: x.url.clone() }),
        ::markdown::mdast::Node::ThematicBreak(_) => Some(MdKind::ThematicBreak),
        _ => None,
    }
}

/// Converts a parsed node and everything below it to the library's tree, variant for variant,
/// with its `(end, start)` offsets. Nothing is claimed here; `parse_gfm_blocks` names the
/// converted result.
#[verifier::external_body]
fn convert_tree(n: &::markdown::mdast::Node) -> MdNode {
    let kind = match container_kind(n) {
        Some(k) => k,
        None => literal_kind(n).or_else(|| phrasing_kind(n)).unwrap_or(MdKind::Other),
    };
    let children = match n.children() {
        Some(v) => v.iter().map(convert_tree).collect(),
        None => Vec::new(),
    };
    MdNode { kind, children, pos: n.position().map(|p| (p.end.offset, p.start.offset)) }
}

/// The blocks of GitHub-flavoured markdown `text`, as plain values: what `markdown::to_mdast`
/// parses, converted node for node.
pub uninterp spec fn gfm_blocks(text: Seq<char>) -> Seq<MdView>;

/// Calls `markdown::to_mdast` with `ParseOptions::gfm()` and converts the document's children.
/// Claimed: the result, as plain values, is `gfm_blocks(text)`: the parse depends on the text
/// alone. Its documentation says it fails only on MDX, which these options do not enable; a
/// failure would give the whole text as one text block.
#[verifier::external_body]
fn parse_gfm_blocks(text: &str) -> (r: Vec<MdNode>)
    ensures
        r@.map_values(|n: MdNode| node_view(n)) == gfm_blocks(text@),
{
    match ::markdown::to_mdast(text, &::markdown::ParseOptions::gfm()) {
        Ok(::markdown::mdast::Node::Root(root)) => root.children.iter().map(convert_tree).collect(),
        Ok(other) => vec![convert_tree(&other)],
        Err(_) => vec![MdNode { kind: MdKind::Text(text.to_owned()), children: Vec::new(), pos: None }],
    }
}

/// Parses GitHub-flavoured markdown into the blocks of the document (see `gfm_blocks`).
pub fn parse_blocks(text: &str) -> (r: Vec<MdNode>)
    ensures
        r@.map_values(|n: MdNode| node_view(n)) == gfm_blocks(text@),
{
    parse_gfm_blocks(text)
}

} // verus!
