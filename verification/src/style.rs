//! Style functions supplied by users (colors, emphasis, backgrounds).

use vstd::prelude::*;

use crate::chars::{chars_of, extend_chars, string_of};

verus! {

/// A text transformation supplied by the user, such as wrapping text in color codes. An
/// implementation is a function of the text alone; `styled` says which.
pub trait StyleFn {
    /// What the style makes of `text`.
    spec fn styled(&self, text: Seq<char>) -> Seq<char>;

    /// Applies the style to `text`.
    fn style(&self, text: &str) -> (r: String)
        ensures
            r@ == self.styled(text@),
    ;
}

/// What an optional style makes of `text`: `text` itself when there is no style.
pub open spec fn styled_by(style: Option<Box<dyn StyleFn>>, text: Seq<char>) -> Seq<char> {
    match style {
        Some(f) => f.styled(text),
        None => text,
    }
}

/// A style that also depends on whether the styled item is selected.
pub trait SelectableStyle {
    /// Applies the style to `text`.
    fn style(&self, text: &str, selected: bool) -> String;
}

/// A style that puts `before` in front of the text and `after` behind it, such as a color
/// code and its reset; with both empty it leaves text as it is.
pub struct WrapStyle {
    pub before: String,
    pub after: String,
}

impl WrapStyle {
    /// The style that changes nothing.
    pub fn plain() -> (r: Self)
        ensures
            r.before@ == Seq::<char>::empty(),
            r.after@ == Seq::<char>::empty(),
    {
        WrapStyle { before: String::new(), after: String::new() }
    }

    pub fn new(before: &str, after: &str) -> (r: Self)
        ensures
            r.before@ == before@,
            r.after@ == after@,
    {
        WrapStyle { before: string_of(chars_of(before).as_slice()), after: string_of(chars_of(after).as_slice()) }
    }
}

impl StyleFn for WrapStyle {
    open spec fn styled(&self, text: Seq<char>) -> Seq<char> {
        self.before@ + text + self.after@
    }

    fn style(&self, text: &str) -> (r: String) {
        let mut v = chars_of(self.before.as_str());
        extend_chars(&mut v, chars_of(text).as_slice());
        extend_chars(&mut v, chars_of(self.after.as_str()).as_slice());
        string_of(v.as_slice())
    }
}

} // verus!
