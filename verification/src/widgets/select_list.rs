//! A scrolling list of items with a highlighted selection and prefix filtering.

use vstd::prelude::*;

use crate::callbacks::{ItemHandler, Notify};
use crate::chars::{chars_of, extend_chars, lowercase, repeat_char, spaces, string_of, to_lowercase, utf8_bytes, utf8_length};
use crate::component::Component;
use crate::digits::decimal_chars;
use crate::keys::{data_bound, default_editor_keybindings_handle, EditorAction, EditorKeybindingsHandle, KeyBinding};
use crate::style::StyleFn;
use crate::text::{is_space_char, is_whitespace_char, truncate_spec, truncate_to_width, sat};

verus! {

/// One entry of a list: the value it stands for, the label shown and an optional description.
#[derive(Clone, Debug, PartialEq, Eq)]
pub struct SelectItem {
    pub value: String,
    pub label: String,
    pub description: Option<String>,
}

/// The characters of an optional string.
pub open spec fn opt_view(o: Option<String>) -> Option<Seq<char>> {
    match o {
        Some(s) => Some(s@),
        None => None,
    }
}

/// The text content of a list item.
pub struct ItemView {
    pub value: Seq<char>,
    pub label: Seq<char>,
    pub description: Option<Seq<char>>,
}

impl View for SelectItem {
    type V = ItemView;

    open spec fn view(&self) -> ItemView {
        ItemView { value: self.value@, label: self.label@, description: opt_view(self.description) }
    }
}

fn copy_opt(o: &Option<String>) -> (r: Option<String>)
    ensures
        opt_view(r) == opt_view(*o),
{
    match o {
        Some(s) => Some(s.clone()),
        None => None,
    }
}

impl SelectItem {
    pub fn new(value: &str, label: &str, description: Option<String>) -> (r: Self)
        ensures
            r@.value == value@,
            r@.label == label@,
            r@.description == opt_view(description),
    {
        SelectItem { value: value.to_owned(), label: label.to_owned(), description }
    }

    /// A field-by-field copy.
    pub fn copy(&self) -> (r: Self)
        ensures
            r@ == self@,
    {
        SelectItem {
            value: self.value.clone(),
            label: self.label.clone(),
            description: copy_opt(&self.description),
        }
    }
}

/// Copies of all items, in order.
pub fn copy_items(v: &[SelectItem]) -> (r: Vec<SelectItem>)
    ensures
        r@.map_values(|i: SelectItem| i@) == v@.map_values(|i: SelectItem| i@),
{
    let mut out: Vec<SelectItem> = Vec::new();
    let mut i: usize = 0;
    while i < v.len()
        invariant
            i <= v@.len(),
            out@.len() == i,
            forall|k: int| 0 <= k < i ==> (#[trigger] out@[k])@ == v@[k]@,
        decreases v@.len() - i,
    {
        out.push(v[i].copy());
        i += 1;
    }
    assert(out@.map_values(|i: SelectItem| i@) =~= v@.map_values(|i: SelectItem| i@));
    out
}

/// `p` is a prefix of `s`.
pub open spec fn has_prefix(s: Seq<char>, p: Seq<char>) -> bool {
    p.len() <= s.len() && s.subrange(0, p.len() as int) == p
}

fn starts_with_chars(s: &[char], p: &[char]) -> (r: bool)
    ensures
        r == has_prefix(s@, p@),
{
    if p.len() > s.len() {
        return false;
    }
    let mut i: usize = 0;
    while i < p.len()
        invariant
            p@.len() <= s@.len(),
            i <= p@.len(),
            forall|k: int| 0 <= k < i ==> s@[k] == p@[k],
        decreases p@.len() - i,
    {
        if s[i] != p[i] {
            assert(s@.subrange(0, p@.len() as int)[i as int] != p@[i as int]);
            return false;
        }
        i += 1;
    }
    assert(s@.subrange(0, p@.len() as int) =~= p@);
    true
}

/// Breaks (`\n`, `\r`) from index `i` on, each run replaced by one space; `after_break`
/// tells whether the character before `i` was a break.
pub open spec fn collapse_from(s: Seq<char>, i: int, after_break: bool) -> Seq<char>
    decreases s.len() - i,
{
    if i < 0 || i >= s.len() {
        Seq::empty()
    } else if s[i] == '\n' || s[i] == '\r' {
        (if after_break {
            Seq::empty()
        } else {
            seq![' ']
        }) + collapse_from(s, i + 1, true)
    } else {
        seq![s[i]] + collapse_from(s, i + 1, false)
    }
}

/// Index of the first non-whitespace character at or after `i` (or the length).
pub open spec fn skip_space(s: Seq<char>, i: int) -> int
    decreases s.len() - i,
{
    if i < 0 || i >= s.len() {
        s.len() as int
    } else if is_space_char(s[i]) {
        skip_space(s, i + 1)
    } else {
        i
    }
}

/// End of `s[..j]` without its trailing whitespace.
pub open spec fn trim_end_at(s: Seq<char>, j: int) -> int
    decreases j,
{
    if j <= 0 || j > s.len() {
        0
    } else if is_space_char(s[j - 1]) {
        trim_end_at(s, j - 1)
    } else {
        j
    }
}

/// `s` without leading and trailing whitespace.
pub open spec fn trim(s: Seq<char>) -> Seq<char> {
    let a = skip_space(s, 0);
    if a >= s.len() {
        Seq::empty()
    } else {
        s.subrange(a, trim_end_at(s, s.len() as int))
    }
}

/// A description on one line: runs of line breaks become one space, then the result is trimmed.
pub open spec fn single_line(s: Seq<char>) -> Seq<char> {
    trim(collapse_from(s, 0, false))
}

pub proof fn lemma_skip_space_bounds(s: Seq<char>, i: int)
    requires
        0 <= i <= s.len(),
    ensures
        i <= skip_space(s, i) <= s.len(),
        skip_space(s, i) < s.len() ==> !is_space_char(s[skip_space(s, i)]),
    decreases s.len() - i,
{
    if i < s.len() && is_space_char(s[i]) {
        lemma_skip_space_bounds(s, i + 1);
    }
}

proof fn lemma_trim_end_bounds(s: Seq<char>, j: int, a: int)
    requires
        0 <= a < j <= s.len(),
        !is_space_char(s[a]),
    ensures
        a < trim_end_at(s, j) <= j,
    decreases j,
{
    if is_space_char(s[j - 1]) {
        lemma_trim_end_bounds(s, j - 1, a);
    }
}

pub(crate) fn trim_chars(v: &[char]) -> (r: Vec<char>)
    ensures
        r@ == trim(v@),
{
    let mut a: usize = 0;
    while a < v.len() && is_whitespace_char(v[a])
        invariant
            a <= v@.len(),
            skip_space(v@, 0) == skip_space(v@, a as int),
        decreases v@.len() - a,
    {
        a += 1;
    }
    if a >= v.len() {
        return Vec::new();
    }
    let mut e: usize = v.len();
    while e > 0 && is_whitespace_char(v[e - 1])
        invariant
            e <= v@.len(),
            trim_end_at(v@, v@.len() as int) == trim_end_at(v@, e as int),
        decreases e,
    {
        e -= 1;
    }
    proof {
        lemma_trim_end_bounds(v@, v@.len() as int, a as int);
    }
    crate::chars::slice_chars(v, a, e)
}

/// `s` without leading and trailing whitespace.
pub fn trim_text(s: &str) -> (r: Vec<char>)
    ensures
        r@ == trim(s@),
{
    trim_chars(chars_of(s).as_slice())
}

fn collapse_breaks(v: &[char]) -> (r: Vec<char>)
    ensures
        r@ == collapse_from(v@, 0, false),
{
    let mut out: Vec<char> = Vec::new();
    let mut after_break = false;
    let mut i: usize = 0;
    while i < v.len()
        invariant
            i <= v@.len(),
            out@ + collapse_from(v@, i as int, after_break) == collapse_from(v@, 0, false),
        decreases v@.len() - i,
    {
        let c = v[i];
        let ghost rest = collapse_from(v@, i + 1, c == '\n' || c == '\r');
        if c == '\n' || c == '\r' {
            if !after_break {
                out.push(' ');
                assert(out@ + rest =~= out@.drop_last() + (seq![' '] + rest));
            } else {
                assert(out@ + rest =~= out@ + (Seq::<char>::empty() + rest));
            }
            after_break = true;
        } else {
            out.push(c);
            assert(out@ + rest =~= out@.drop_last() + (seq![c] + rest));
            after_break = false;
        }
        i += 1;
    }
    assert(out@ + collapse_from(v@, i as int, after_break) =~= out@);
    out
}

/// A description normalised to one line; `None` when nothing is left.
pub open spec fn shown_description(d: Option<Seq<char>>) -> Option<Seq<char>> {
    match d {
        Some(t) => if single_line(t).len() == 0 {
            None
        } else {
            Some(single_line(t))
        },
        None => None,
    }
}

fn normalized_description(d: &Option<String>) -> (r: Option<Vec<char>>)
    ensures
        match r {
            Some(v) => shown_description(opt_view(*d)) == Some(v@),
            None => shown_description(opt_view(*d)) is None,
        },
{
    match d {
        Some(t) => {
            let n = trim_chars(collapse_breaks(chars_of(t.as_str()).as_slice()).as_slice());
            if n.len() == 0 {
                None
            } else {
                Some(n)
            }
        },
        None => None,
    }
}


/// What an item shows: its label, or its value when the label is empty.
pub open spec fn display_value(it: ItemView) -> Seq<char> {
    if it.label.len() == 0 {
        it.value
    } else {
        it.label
    }
}

pub open spec fn min_nat(a: nat, b: nat) -> nat {
    if a <= b {
        a
    } else {
        b
    }
}

pub open spec fn sub_nat(a: nat, b: nat) -> nat {
    if b < a {
        (a - b) as nat
    } else {
        0
    }
}

/// Cells for the value on a line that also shows a description.
pub open spec fn value_room(width: nat) -> nat {
    min_nat(30, sub_nat(width, 6))
}

/// The value cut for a line with a description.
pub open spec fn short_value(width: nat, display: Seq<char>) -> Seq<char> {
    truncate_spec(display, value_room(width), Seq::empty(), false)
}

/// Spaces between the value and the description: up to byte 32, at least one.
pub open spec fn desc_spacing(value: Seq<char>) -> nat {
    let gap = sub_nat(32, utf8_bytes(value));
    if gap >= 1 {
        gap
    } else {
        1
    }
}

/// Cells left for the description after the prefix, value, spacing and a margin of two.
pub open spec fn desc_room(width: nat, value: Seq<char>) -> nat {
    sub_nat(width, 2 + utf8_bytes(value) + desc_spacing(value) + 2)
}

/// A description is shown when there is one, the width exceeds 40 and more than 10 cells
/// remain for it.
pub open spec fn uses_description(width: nat, display: Seq<char>, desc: Option<Seq<char>>) -> bool {
    desc is Some && width > 40 && desc_room(width, short_value(width, display)) > 10
}

/// The description cut to the room it has.
pub open spec fn short_description(width: nat, display: Seq<char>, desc: Seq<char>) -> Seq<char> {
    truncate_spec(desc, desc_room(width, short_value(width, display)), Seq::empty(), false)
}

/// The value cut for a line without a description.
pub open spec fn plain_value(width: nat, display: Seq<char>) -> Seq<char> {
    truncate_spec(display, sub_nat(width, 4), Seq::empty(), false)
}

/// Text of the highlighted line, before the selected-text style is applied.
pub open spec fn selected_text(width: nat, display: Seq<char>, desc: Option<Seq<char>>) -> Seq<char> {
    if uses_description(width, display, desc) {
        let v = short_value(width, display);
        seq!['\u{2192}', ' '] + v + spaces(desc_spacing(v)) + short_description(width, display, desc->0)
    } else {
        seq!['\u{2192}', ' '] + plain_value(width, display)
    }
}

/// An ordinary line: the plain part, and the part to pass through the description style
/// when a description is shown.
pub open spec fn unselected_parts(width: nat, display: Seq<char>, desc: Option<Seq<char>>) -> (
    Seq<char>,
    Option<Seq<char>>,
) {
    if uses_description(width, display, desc) {
        let v = short_value(width, display);
        (
            seq![' ', ' '] + v,
            Some(spaces(desc_spacing(v)) + short_description(width, display, desc->0)),
        )
    } else {
        (seq![' ', ' '] + plain_value(width, display), None)
    }
}

struct DescLayout {
    value: Vec<char>,
    spacing: Vec<char>,
    description: Vec<char>,
}

/// The value, spacing and description of a line that shows a description, when it does.
fn description_layout(width: usize, display: &str, desc: &Option<Vec<char>>) -> (r: Option<DescLayout>)
    ensures
        match r {
            Some(l) => {
                let d = match desc { Some(v) => Some(v@), None => None };
                &&& uses_description(width as nat, display@, d)
                &&& l.value@ == short_value(width as nat, display@)
                &&& l.spacing@ == spaces(desc_spacing(l.value@))
                &&& l.description@ == short_description(width as nat, display@, d->0)
            },
            None => !uses_description(width as nat, display@, match desc { Some(v) => Some(v@), None => None }),
        },
{
    match desc {
        Some(d) => {
            if width <= 40 {
                return None;
            }
            let room = if width - 6 < 30 {
                width - 6
            } else {
                30
            };
            let empty = String::new();
            let value = chars_of(truncate_to_width(display, room, empty.as_str(), false).as_str());
            let bytes = utf8_length(value.as_slice());
            let gap: usize = if bytes < 32 {
                32 - bytes
            } else {
                0
            };
            let spacing_len: usize = if gap >= 1 {
                gap
            } else {
                1
            };
            let start = 2usize.saturating_add(bytes).saturating_add(spacing_len).saturating_add(2);
            let remaining: usize = if start < width {
                width - start
            } else {
                0
            };
            if remaining <= 10 {
                return None;
            }
            let description = chars_of(
                truncate_to_width(string_of(d.as_slice()).as_str(), remaining, empty.as_str(), false).as_str(),
            );
            Some(DescLayout { value, spacing: repeat_char(' ', spacing_len), description })
        },
        None => None,
    }
}

fn plain_value_chars(width: usize, display: &str) -> (r: Vec<char>)
    ensures
        r@ == plain_value(width as nat, display@),
{
    let room = if width > 4 {
        width - 4
    } else {
        0
    };
    let empty = String::new();
    chars_of(truncate_to_width(display, room, empty.as_str(), false).as_str())
}

/// Text of the highlighted line before styling.
pub fn selected_line_text(width: usize, display: &str, desc: &Option<Vec<char>>) -> (r: String)
    ensures
        r@ == selected_text(width as nat, display@, match desc { Some(v) => Some(v@), None => None }),
{
    let mut v = vec!['\u{2192}', ' '];
    match description_layout(width, display, desc) {
        Some(l) => {
            extend_chars(&mut v, l.value.as_slice());
            extend_chars(&mut v, l.spacing.as_slice());
            extend_chars(&mut v, l.description.as_slice());
        },
        None => {
            extend_chars(&mut v, plain_value_chars(width, display).as_slice());
        },
    }
    string_of(v.as_slice())
}

/// The parts of an ordinary line (see `unselected_parts`).
pub fn unselected_line_parts(width: usize, display: &str, desc: &Option<Vec<char>>) -> (r: (String, Option<String>))
    ensures
        ({
            let p = unselected_parts(width as nat, display@, match desc { Some(v) => Some(v@), None => None });
            &&& r.0@ == p.0
            &&& opt_view(r.1) == p.1
        }),
{
    let mut v = vec![' ', ' '];
    match description_layout(width, display, desc) {
        Some(l) => {
            extend_chars(&mut v, l.value.as_slice());
            let mut d = l.spacing;
            extend_chars(&mut d, l.description.as_slice());
            (string_of(v.as_slice()), Some(string_of(d.as_slice())))
        },
        None => {
            extend_chars(&mut v, plain_value_chars(width, display).as_slice());
            (string_of(v.as_slice()), None)
        },
    }
}

/// Styles for the parts of a list.
pub struct SelectListTheme {
    pub selected_prefix: Box<dyn StyleFn>,
    pub selected_text: Box<dyn StyleFn>,
    pub description: Box<dyn StyleFn>,
    pub scroll_info: Box<dyn StyleFn>,
    pub no_match: Box<dyn StyleFn>,
}

/// The visible rows `(start, end)`: at most `max_visible` (at least one) rows, keeping the
/// selection near the middle.
pub open spec fn window(len: nat, selected: nat, max_visible: nat) -> (nat, nat) {
    let mv = min_nat(if max_visible == 0 { 1 } else { max_visible }, len);
    let start = if len <= mv {
        0
    } else {
        min_nat(sub_nat(selected, mv / 2), (len - mv) as nat)
    };
    (start, min_nat(start + mv, len))
}

/// Number of lines a list renders: a single "no match" line when empty; otherwise the
/// visible rows and a scroll line when rows are hidden.
pub open spec fn list_line_count(len: nat, selected: nat, max_visible: nat) -> nat {
    if len == 0 {
        1
    } else {
        let (s, e) = window(len, selected, max_visible);
        ((e - s) + if s > 0 || e < len {
            1int
        } else {
            0int
        }) as nat
    }
}

/// Selection after a key: up and down move by one and wrap around; other input keeps it.
pub open spec fn select_step(kb: Seq<KeyBinding>, len: nat, selected: nat, data: Seq<char>) -> nat {
    if data_bound(kb, data, EditorAction::SelectUp) {
        if len == 0 {
            selected
        } else if selected == 0 {
            (len - 1) as nat
        } else {
            (selected - 1) as nat
        }
    } else if data_bound(kb, data, EditorAction::SelectDown) {
        if len == 0 {
            selected
        } else if selected == len - 1 {
            0
        } else {
            selected + 1
        }
    } else {
        selected
    }
}

/// What a key does to a list, and which handler hears of it: a move of the selection (the
/// selection-change handler gets the newly selected item), a confirmation (the select handler
/// gets the selected item), a cancel (the cancel handler runs), or nothing.
pub enum SelectOutcome {
    Moved(SelectItem),
    Confirmed(SelectItem),
    Cancelled,
    Ignored,
}

/// A call of one of the list's handlers, with the item it was given.
pub enum SelectNotice {
    SelectionChanged(ItemView),
    Selected(ItemView),
    Cancelled,
}

/// The handler call that an outcome of `apply_key` makes, if any (a call is made only when
/// that handler is set).
pub open spec fn outcome_notice(o: SelectOutcome) -> Option<SelectNotice> {
    match o {
        SelectOutcome::Moved(it) => Some(SelectNotice::SelectionChanged(it@)),
        SelectOutcome::Confirmed(it) => Some(SelectNotice::Selected(it@)),
        SelectOutcome::Cancelled => Some(SelectNotice::Cancelled),
        SelectOutcome::Ignored => None,
    }
}

/// The handler call that `data` makes on a list showing `f` with `sel` selected and bindings
/// `kb`: moving reports the newly selected item, confirming the selected one, cancelling
/// nothing; keys that change nothing call nothing.
pub open spec fn key_notice(kb: Seq<KeyBinding>, f: Seq<ItemView>, sel: nat, data: Seq<char>) -> Option<SelectNotice> {
    let up = data_bound(kb, data, EditorAction::SelectUp);
    let down = data_bound(kb, data, EditorAction::SelectDown);
    let confirm = data_bound(kb, data, EditorAction::SelectConfirm);
    let cancel = data_bound(kb, data, EditorAction::SelectCancel);
    if up || down {
        if f.len() > 0 {
            Some(SelectNotice::SelectionChanged(f[select_step(kb, f.len(), sel, data) as int]))
        } else {
            None
        }
    } else if confirm {
        if f.len() > 0 {
            Some(SelectNotice::Selected(f[sel as int]))
        } else {
            None
        }
    } else if cancel {
        Some(SelectNotice::Cancelled)
    } else {
        None
    }
}

/// The selection brought within `len` entries.
pub open spec fn clamped_selection(selected: nat, len: nat) -> nat {
    if len == 0 {
        0
    } else if selected >= len {
        (len - 1) as nat
    } else {
        selected
    }
}

/// A list of items with one highlighted, filtered by a prefix of the value.
pub struct SelectList {
    items: Vec<SelectItem>,
    filtered_items: Vec<SelectItem>,
    selected_index: usize,
    max_visible: usize,
    theme: SelectListTheme,
    keybindings: EditorKeybindingsHandle,
    on_select: Option<Box<dyn ItemHandler>>,
    on_cancel: Option<Box<dyn Notify>>,
    on_selection_change: Option<Box<dyn ItemHandler>>,
    notices: Ghost<Seq<SelectNotice>>,
}

impl SelectList {
    /// The handler calls made so far, in order.
    pub closed spec fn notices_view(&self) -> Seq<SelectNotice> {
        self.notices@
    }

    /// What the description style makes of `text`.
    pub closed spec fn description_styled(&self, text: Seq<char>) -> Seq<char> {
        self.theme.description.styled(text)
    }

    /// What the selected-row style makes of `text`.
    pub closed spec fn selected_styled(&self, text: Seq<char>) -> Seq<char> {
        self.theme.selected_text.styled(text)
    }

    /// Which handlers are set: selection change, select, cancel.
    pub closed spec fn handlers_set(&self) -> (bool, bool, bool) {
        (self.on_selection_change is Some, self.on_select is Some, self.on_cancel is Some)
    }

    /// Whether the handler that `n` calls is set.
    pub open spec fn hears(&self, n: SelectNotice) -> bool {
        match n {
            SelectNotice::SelectionChanged(_) => self.handlers_set().0,
            SelectNotice::Selected(_) => self.handlers_set().1,
            SelectNotice::Cancelled => self.handlers_set().2,
        }
    }

    pub closed spec fn items_view(&self) -> Seq<ItemView> {
        self.items@.map_values(|i: SelectItem| i@)
    }

    pub closed spec fn filtered_view(&self) -> Seq<ItemView> {
        self.filtered_items@.map_values(|i: SelectItem| i@)
    }

    pub closed spec fn selected_view(&self) -> nat {
        self.selected_index as nat
    }

    pub closed spec fn max_visible_view(&self) -> nat {
        self.max_visible as nat
    }

    pub closed spec fn bindings_view(&self) -> Seq<KeyBinding> {
        self.keybindings.bindings@
    }

    /// The selection is a shown item, or 0 when nothing is shown.
    pub open spec fn wf(&self) -> bool {
        if self.filtered_view().len() == 0 {
            self.selected_view() == 0
        } else {
            self.selected_view() < self.filtered_view().len()
        }
    }

    /// All items shown, the first selected, with the default key bindings.
    pub fn new(items: Vec<SelectItem>, max_visible: usize, theme: SelectListTheme) -> (r: Self)
        ensures
            r.items_view() == items@.map_values(|i: SelectItem| i@),
            r.filtered_view() == items@.map_values(|i: SelectItem| i@),
            r.selected_view() == 0,
            r.max_visible_view() == max_visible,
            r.wf(),
            r.notices_view() == Seq::<SelectNotice>::empty(),
            r.handlers_set() == (false, false, false),
    {
        let filtered_items = copy_items(items.as_slice());
        SelectList {
            items,
            filtered_items,
            selected_index: 0,
            max_visible,
            theme,
            keybindings: default_editor_keybindings_handle(),
            on_select: None,
            on_cancel: None,
            on_selection_change: None,
            notices: Ghost(Seq::empty()),
        }
    }

    /// Uses other key bindings for navigation.
    pub fn set_keybindings(&mut self, keybindings: EditorKeybindingsHandle)
        ensures
            final(self).bindings_view() == keybindings.bindings@,
            final(self).items_view() == old(self).items_view(),
            final(self).filtered_view() == old(self).filtered_view(),
            final(self).selected_view() == old(self).selected_view(),
            final(self).max_visible_view() == old(self).max_visible_view(),
    {
        self.keybindings = keybindings;
    }

    /// Shows the items whose value, lowercased, starts with the lowercased filter, and
    /// selects the first of them.
    pub fn set_filter(&mut self, filter: &str)
        ensures
            final(self).filtered_view() == old(self).items_view().filter(
                |it: ItemView| has_prefix(lowercase(it.value), lowercase(filter@)),
            ),
            final(self).selected_view() == 0,
            final(self).items_view() == old(self).items_view(),
            final(self).max_visible_view() == old(self).max_visible_view(),
            final(self).bindings_view() == old(self).bindings_view(),
            final(self).wf(),
    {
        let f = chars_of(to_lowercase(filter).as_str());
        let ghost pred = |it: ItemView| has_prefix(lowercase(it.value), lowercase(filter@));
        let mut out: Vec<SelectItem> = Vec::new();
        let mut i: usize = 0;
        assert(self.items_view().subrange(0, 0).filter(pred) =~= Seq::<ItemView>::empty());
        while i < self.items.len()
            invariant
                i <= self.items@.len(),
                f@ == lowercase(filter@),
                pred == |it: ItemView| has_prefix(lowercase(it.value), lowercase(filter@)),
                out@.map_values(|i: SelectItem| i@) == self.items_view().subrange(0, i as int).filter(pred),
            decreases self.items@.len() - i,
        {
            let it = &self.items[i];
            let v = chars_of(to_lowercase(it.value.as_str()).as_str());
            let ghost pre = self.items_view().subrange(0, i as int);
            proof {
                assert(self.items_view().subrange(0, i + 1 as int) =~= pre.push(it@));
                pre.lemma_filter_push(it@, pred);
            }
            if starts_with_chars(v.as_slice(), f.as_slice()) {
                out.push(it.copy());
                assert(out@.map_values(|i: SelectItem| i@) =~= pre.filter(pred).push(it@));
            }
            i += 1;
        }
        assert(self.items_view().subrange(0, self.items@.len() as int) =~= self.items_view());
        self.filtered_items = out;
        self.selected_index = 0;
    }

    /// Selects `index`, clamped to the shown items (0 when there are none).
    pub fn set_selected_index(&mut self, index: usize)
        ensures
            final(self).selected_view() == (if old(self).filtered_view().len() == 0 {
                0
            } else {
                min_nat(index as nat, (old(self).filtered_view().len() - 1) as nat)
            }),
            final(self).items_view() == old(self).items_view(),
            final(self).filtered_view() == old(self).filtered_view(),
            final(self).max_visible_view() == old(self).max_visible_view(),
            final(self).bindings_view() == old(self).bindings_view(),
            final(self).wf(),
    {
        if self.filtered_items.len() == 0 {
            self.selected_index = 0;
        } else if index < self.filtered_items.len() - 1 {
            self.selected_index = index;
        } else {
            self.selected_index = self.filtered_items.len() - 1;
        }
    }

    pub fn set_on_select(&mut self, handler: Option<Box<dyn ItemHandler>>)
        ensures
            final(self).items_view() == old(self).items_view(),
            final(self).filtered_view() == old(self).filtered_view(),
            final(self).selected_view() == old(self).selected_view(),
            final(self).max_visible_view() == old(self).max_visible_view(),
            final(self).bindings_view() == old(self).bindings_view(),
            final(self).handlers_set() == (old(self).handlers_set().0, handler is Some, old(self).handlers_set().2),
            final(self).notices_view() == old(self).notices_view(),
    {
        self.on_select = handler;
    }

    pub fn set_on_cancel(&mut self, handler: Option<Box<dyn Notify>>)
        ensures
            final(self).items_view() == old(self).items_view(),
            final(self).filtered_view() == old(self).filtered_view(),
            final(self).selected_view() == old(self).selected_view(),
            final(self).max_visible_view() == old(self).max_visible_view(),
            final(self).bindings_view() == old(self).bindings_view(),
            final(self).handlers_set() == (old(self).handlers_set().0, old(self).handlers_set().1, handler is Some),
            final(self).notices_view() == old(self).notices_view(),
    {
        self.on_cancel = handler;
    }

    pub fn set_on_selection_change(&mut self, handler: Option<Box<dyn ItemHandler>>)
        ensures
            final(self).items_view() == old(self).items_view(),
            final(self).filtered_view() == old(self).filtered_view(),
            final(self).selected_view() == old(self).selected_view(),
            final(self).max_visible_view() == old(self).max_visible_view(),
            final(self).bindings_view() == old(self).bindings_view(),
            final(self).handlers_set() == (handler is Some, old(self).handlers_set().1, old(self).handlers_set().2),
            final(self).notices_view() == old(self).notices_view(),
    {
        self.on_selection_change = handler;
    }

    /// The selected item, if any is shown.
    pub fn get_selected_item(&self) -> (r: Option<&SelectItem>)
        ensures
            match r {
                Some(it) => self.selected_view() < self.filtered_view().len() && it@
                    == self.filtered_view()[self.selected_view() as int],
                None => self.selected_view() >= self.filtered_view().len(),
            },
    {
        if self.selected_index < self.filtered_items.len() {
            Some(&self.filtered_items[self.selected_index])
        } else {
            None
        }
    }

    /// Applies a key to the selection (brought within the list first) and says which handler
    /// is to hear of it, with which item.
    pub fn apply_key(&mut self, data: &str) -> (r: SelectOutcome)
        ensures
            ({
                let kb = old(self).bindings_view();
                let f = old(self).filtered_view();
                let sel = clamped_selection(old(self).selected_view(), f.len());
                let up = data_bound(kb, data@, EditorAction::SelectUp);
                let down = data_bound(kb, data@, EditorAction::SelectDown);
                let confirm = data_bound(kb, data@, EditorAction::SelectConfirm);
                let cancel = data_bound(kb, data@, EditorAction::SelectCancel);
                &&& final(self).selected_view() == select_step(kb, f.len(), sel, data@)
                &&& (up || down) && f.len() > 0 ==> (r matches SelectOutcome::Moved(it) && it@ == f[final(self).selected_view() as int])
                &&& (up || down) && f.len() == 0 ==> r is Ignored
                &&& !up && !down && confirm ==> if f.len() > 0 {
                    r matches SelectOutcome::Confirmed(it) && it@ == f[sel as int]
                } else {
                    r is Ignored
                }
                &&& !up && !down && !confirm && cancel ==> r is Cancelled
                &&& !up && !down && !confirm && !cancel ==> r is Ignored
            }),
            final(self).wf(),
            final(self).items_view() == old(self).items_view(),
            final(self).filtered_view() == old(self).filtered_view(),
            final(self).max_visible_view() == old(self).max_visible_view(),
            final(self).bindings_view() == old(self).bindings_view(),
            outcome_notice(r) == key_notice(
                old(self).bindings_view(),
                old(self).filtered_view(),
                clamped_selection(old(self).selected_view(), old(self).filtered_view().len()),
                data@,
            ),
            final(self).notices_view() == old(self).notices_view(),
            final(self).handlers_set() == old(self).handlers_set(),
    {
        let len = self.filtered_items.len();
        if len == 0 {
            self.selected_index = 0;
        } else if self.selected_index >= len {
            self.selected_index = len - 1;
        }
        if self.keybindings.matches_data(data, EditorAction::SelectUp) {
            if len == 0 {
                return SelectOutcome::Ignored;
            }
            if self.selected_index == 0 {
                self.selected_index = len - 1;
            } else {
                self.selected_index = self.selected_index - 1;
            }
            SelectOutcome::Moved(self.filtered_items[self.selected_index].copy())
        } else if self.keybindings.matches_data(data, EditorAction::SelectDown) {
            if len == 0 {
                return SelectOutcome::Ignored;
            }
            if self.selected_index == len - 1 {
                self.selected_index = 0;
            } else {
                self.selected_index = self.selected_index + 1;
            }
            SelectOutcome::Moved(self.filtered_items[self.selected_index].copy())
        } else if self.keybindings.matches_data(data, EditorAction::SelectConfirm) {
            if self.selected_index < len {
                SelectOutcome::Confirmed(self.filtered_items[self.selected_index].copy())
            } else {
                SelectOutcome::Ignored
            }
        } else if self.keybindings.matches_data(data, EditorAction::SelectCancel) {
            SelectOutcome::Cancelled
        } else {
            SelectOutcome::Ignored
        }
    }

}

impl Component for SelectList {
    fn render(&mut self, width: usize) -> (r: Vec<String>)
        ensures
            ({
                let f = old(self).filtered_view();
                let sel = old(self).selected_view();
                let (s, e) = window(f.len(), sel, old(self).max_visible_view());
                &&& r@.len() == list_line_count(f.len(), sel, old(self).max_visible_view())
                &&& forall|k: int|
                    s <= k < e && k != sel && (#[trigger] unselected_parts(
                        width as nat,
                        display_value(f[k]),
                        shown_description(f[k].description),
                    )).1 is None ==> r@[k - s]@ == unselected_parts(
                        width as nat,
                        display_value(f[k]),
                        shown_description(f[k].description),
                    ).0
                &&& forall|k: int|
                    s <= k < e && k != sel && (#[trigger] unselected_parts(
                        width as nat,
                        display_value(f[k]),
                        shown_description(f[k].description),
                    )).1 is Some ==> r@[k - s]@ == unselected_parts(
                        width as nat,
                        display_value(f[k]),
                        shown_description(f[k].description),
                    ).0 + old(self).description_styled(
                        unselected_parts(width as nat, display_value(f[k]), shown_description(f[k].description)).1->0,
                    )
                &&& s <= sel < e ==> r@[sel - s]@ == old(self).selected_styled(
                    selected_text(width as nat, display_value(f[sel as int]), shown_description(f[sel as int].description)),
                )
            }),
    {
        let len = self.filtered_items.len();
        let mut lines: Vec<String> = Vec::new();
        if len == 0 {
            let msg = string_of(
                &[' ', ' ', 'N', 'o', ' ', 'm', 'a', 't', 'c', 'h', 'i', 'n', 'g', ' ', 'c', 'o', 'm', 'm', 'a', 'n', 'd', 's'],
            );
            lines.push(self.theme.no_match.style(msg.as_str()));
            return lines;
        }
        let sel = self.selected_index;
        let mv0 = if self.max_visible == 0 {
            1
        } else {
            self.max_visible
        };
        let mv = if mv0 < len {
            mv0
        } else {
            len
        };
        let start = if len <= mv {
            0
        } else {
            let half = mv / 2;
            let cand = if sel > half {
                sel - half
            } else {
                0
            };
            if cand < len - mv {
                cand
            } else {
                len - mv
            }
        };
        let end = if start + mv < len {
            start + mv
        } else {
            len
        };
        assert((start as nat, end as nat) == window(len as nat, sel as nat, self.max_visible as nat));
        let ghost f = self.filtered_view();
        let mut idx = start;
        while idx < end
            invariant
                start <= idx <= end <= len,
                len == self.filtered_items@.len(),
                f == self.filtered_view(),
                sel == self.selected_index,
                lines@.len() == idx - start,
                forall|k: int|
                    start <= k < idx && k != sel && (#[trigger] unselected_parts(
                        width as nat,
                        display_value(f[k]),
                        shown_description(f[k].description),
                    )).1 is None ==> lines@[k - start]@ == unselected_parts(
                        width as nat,
                        display_value(f[k]),
                        shown_description(f[k].description),
                    ).0,
                forall|k: int|
                    start <= k < idx && k != sel && (#[trigger] unselected_parts(
                        width as nat,
                        display_value(f[k]),
                        shown_description(f[k].description),
                    )).1 is Some ==> lines@[k - start]@ == unselected_parts(
                        width as nat,
                        display_value(f[k]),
                        shown_description(f[k].description),
                    ).0 + self.description_styled(
                        unselected_parts(width as nat, display_value(f[k]), shown_description(f[k].description)).1->0,
                    ),
                start <= sel < idx ==> lines@[sel - start]@ == self.selected_styled(
                    selected_text(width as nat, display_value(f[sel as int]), shown_description(f[sel as int].description)),
                ),
            decreases end - idx,
        {
            let item = &self.filtered_items[idx];
            let desc = normalized_description(&item.description);
            let display = if item.label.as_str().is_empty() {
                item.value.as_str()
            } else {
                item.label.as_str()
            };
            assert(item@ == f[idx as int]);
            assert(display@ == display_value(f[idx as int]));
            if idx == sel {
                let text = selected_line_text(width, display, &desc);
                lines.push(self.theme.selected_text.style(text.as_str()));
            } else {
                let (plain, styled) = unselected_line_parts(width, display, &desc);
                match styled {
                    Some(t) => {
                        let mut v = chars_of(plain.as_str());
                        let d = self.theme.description.style(t.as_str());
                        extend_chars(&mut v, chars_of(d.as_str()).as_slice());
                        let row = string_of(v.as_slice());
                        assert(row@ =~= plain@ + self.description_styled(t@));
                        lines.push(row);
                    },
                    None => {
                        lines.push(plain);
                    },
                }
            }
            idx += 1;
        }
        if start > 0 || end < len {
            let mut v = vec![' ', ' ', '('];
            extend_chars(&mut v, decimal_chars(sel.saturating_add(1)).as_slice());
            v.push('/');
            extend_chars(&mut v, decimal_chars(len).as_slice());
            v.push(')');
            let room = if width > 2 {
                width - 2
            } else {
                0
            };
            let empty = String::new();
            let t = truncate_to_width(string_of(v.as_slice()).as_str(), room, empty.as_str(), false);
            lines.push(self.theme.scroll_info.style(t.as_str()));
        }
        lines
    }

    /// Up and down move the selection (wrapping around) and report it; confirm hands the
    /// selected item to the select handler; cancel calls the cancel handler (see `apply_key`).
    /// The handler concerned is called once, when it is set.
    fn handle_input(&mut self, data: &str)
        ensures
            old(self).wf() ==> final(self).selected_view() == select_step(
                old(self).bindings_view(),
                old(self).filtered_view().len(),
                old(self).selected_view(),
                data@,
            ),
            final(self).notices_view() == old(self).notices_view() + match key_notice(
                old(self).bindings_view(),
                old(self).filtered_view(),
                clamped_selection(old(self).selected_view(), old(self).filtered_view().len()),
                data@,
            ) {
                Some(n) => if old(self).hears(n) {
                    seq![n]
                } else {
                    Seq::empty()
                },
                None => Seq::empty(),
            },
            final(self).handlers_set() == old(self).handlers_set(),
            final(self).wf(),
            final(self).items_view() == old(self).items_view(),
            final(self).filtered_view() == old(self).filtered_view(),
            final(self).max_visible_view() == old(self).max_visible_view(),
            final(self).bindings_view() == old(self).bindings_view(),
    {
        let ghost start = self.notices@;
        match self.apply_key(data) {
            SelectOutcome::Moved(item) => match &mut self.on_selection_change {
                Some(h) => {
                    let ghost n = SelectNotice::SelectionChanged(item@);
                    h.call(item);
                    self.notices = Ghost(start.push(n));
                },
                None => {},
            },
            SelectOutcome::Confirmed(item) => match &mut self.on_select {
                Some(h) => {
                    let ghost n = SelectNotice::Selected(item@);
                    h.call(item);
                    self.notices = Ghost(start.push(n));
                },
                None => {},
            },
            SelectOutcome::Cancelled => match &mut self.on_cancel {
                Some(h) => {
                    h.call();
                    self.notices = Ghost(start.push(SelectNotice::Cancelled));
                },
                None => {},
            },
            SelectOutcome::Ignored => {},
        }
        assert(start + Seq::<SelectNotice>::empty() =~= start);
    }
}

} // verus!
