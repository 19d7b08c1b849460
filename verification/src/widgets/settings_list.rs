//! A list of settings: each shows its label and current value; values cycle through their
//! choices or are picked in a submenu; the list can be filtered by typing.

use vstd::prelude::*;

use crate::callbacks::{ChangeHandler, Notify};
use crate::chars::{chars_of, extend_chars, lowercase, repeat_char, string_of, to_lowercase};
use crate::component::Component;
use crate::digits::decimal_chars;
use crate::keys::{data_bound, default_editor_keybindings_handle, parse_events, str_eq, EditorAction, EditorKeybindingsHandle};
use crate::style::{SelectableStyle, StyleFn};
use crate::text::{truncate_to_width, visible_width, wrap_text_with_ansi};
use crate::widgets::input::{events_step, Input};

verus! {

/// A component shown in place of the list while a value is picked. Once the user has decided,
/// `take_result` returns `Some(Some(value))` for a picked value or `Some(None)` for a cancel.
pub trait Submenu {
    fn render(&mut self, width: usize) -> Vec<String>;

    fn handle_input(&mut self, data: &str);

    fn invalidate(&mut self) {
    }

    fn take_result(&mut self) -> Option<Option<String>>;
}

/// An open submenu.
pub struct OpenSubmenu {
    pub component: Box<dyn Submenu>,
}

/// Opens a submenu for a setting, given its current value.
pub trait SubmenuFactory {
    fn open(&mut self, current_value: String) -> OpenSubmenu;
}

/// One setting.
pub struct SettingItem {
    pub id: String,
    pub label: String,
    pub description: Option<String>,
    pub current_value: String,
    pub values: Option<Vec<String>>,
    pub submenu: Option<Box<dyn SubmenuFactory>>,
}

impl SettingItem {
    pub fn new(id: &str, label: &str, current_value: &str) -> (r: Self)
        ensures
            r.id@ == id@,
            r.label@ == label@,
            r.current_value@ == current_value@,
            r.description is None,
            r.values is None,
            r.submenu is None,
    {
        SettingItem {
            id: id.to_owned(),
            label: label.to_owned(),
            description: None,
            current_value: current_value.to_owned(),
            values: None,
            submenu: None,
        }
    }
}

/// Styles of a settings list.
pub struct SettingsListTheme {
    pub label: Box<dyn SelectableStyle>,
    pub value: Box<dyn SelectableStyle>,
    pub description: Box<dyn StyleFn>,
    pub cursor: String,
    pub hint: Box<dyn StyleFn>,
}

#[derive(Debug, Clone, Copy, Default)]
pub struct SettingsListOptions {
    pub enable_search: bool,
}

/// `p` is a subsequence of `s[j..]` (its first `i` characters already matched).
pub open spec fn subsequence_from(p: Seq<char>, s: Seq<char>, i: int, j: int) -> bool
    decreases s.len() - j,
{
    if i < 0 || i >= p.len() {
        true
    } else if j < 0 || j >= s.len() {
        false
    } else if p[i] == s[j] {
        subsequence_from(p, s, i + 1, j + 1)
    } else {
        subsequence_from(p, s, i, j + 1)
    }
}

/// A label matches a search when the lowercased search is a subsequence of the lowercased
/// label; a blank search matches everything.
pub open spec fn fuzzy_matches(label: Seq<char>, query: Seq<char>) -> bool {
    crate::render::is_blank(query) || subsequence_from(lowercase(query), lowercase(label), 0, 0)
}

/// The indices of the labels that match `query`, in order.
pub open spec fn matching_indices(labels: Seq<Seq<char>>, query: Seq<char>) -> Seq<usize> {
    Seq::new(labels.len(), |i: int| i as usize).filter(|i: usize| fuzzy_matches(labels[i as int], query))
}

/// Typed text with its spaces removed.
pub open spec fn without_spaces(t: Seq<char>) -> Seq<char> {
    t.filter(|ch: char| ch != ' ')
}

/// Index of the first of `values` from `k` on that equals `v` (`values.len()` when none does).
pub open spec fn first_match(values: Seq<Seq<char>>, v: Seq<char>, k: nat) -> nat
    decreases values.len() - k,
{
    if k >= values.len() || values[k as int] == v {
        k
    } else {
        first_match(values, v, k + 1)
    }
}

/// The choice after `current` among `values`, wrapping around; the first choice when `current`
/// is not among them.
pub open spec fn next_choice(values: Seq<Seq<char>>, current: Seq<char>) -> Seq<char> {
    let pos = first_match(values, current, 0);
    if pos >= values.len() {
        values[0]
    } else {
        values[((pos + 1) % values.len()) as int]
    }
}

/// The selection after moving up from `sel` among `len` entries, wrapping to the last.
pub open spec fn wrap_up(sel: nat, len: nat) -> nat {
    if sel == 0 || sel > len {
        (len - 1) as nat
    } else {
        (sel - 1) as nat
    }
}

/// The selection after moving down from `sel` among `len` entries, wrapping to the first.
pub open spec fn wrap_down(sel: nat, len: nat) -> nat {
    if sel >= len - 1 {
        0
    } else {
        sel + 1
    }
}

pub fn fuzzy_match(label: &str, query: &str) -> (r: bool)
    ensures
        r == fuzzy_matches(label@, query@),
{
    if crate::render::blank_text(query) {
        return true;
    }
    let p = chars_of(to_lowercase(query).as_str());
    let s = chars_of(to_lowercase(label).as_str());
    let mut i: usize = 0;
    let mut j: usize = 0;
    while i < p.len() && j < s.len()
        invariant
            i <= p@.len(),
            j <= s@.len(),
            p@ == lowercase(query@),
            s@ == lowercase(label@),
            subsequence_from(p@, s@, 0, 0) == subsequence_from(p@, s@, i as int, j as int),
        decreases s@.len() - j,
    {
        if p[i] == s[j] {
            i += 1;
        }
        j += 1;
    }
    i >= p.len()
}

/// A list of settings with a highlighted one, optionally filtered by a search field.
pub struct SettingsList {
    items: Vec<SettingItem>,
    filtered_indices: Vec<usize>,
    theme: SettingsListTheme,
    selected_index: usize,
    max_visible: usize,
    keybindings: EditorKeybindingsHandle,
    on_change: Box<dyn ChangeHandler>,
    on_cancel: Box<dyn Notify>,
    search_input: Option<Input>,
    search_enabled: bool,
    submenu_component: Option<Box<dyn Submenu>>,
    submenu_display_index: Option<usize>,
    submenu_item_index: Option<usize>,
}

impl SettingsList {
    pub closed spec fn item_count(&self) -> nat {
        self.items@.len()
    }

    pub closed spec fn ids_view(&self) -> Seq<Seq<char>> {
        self.items@.map_values(|it: SettingItem| it.id@)
    }

    /// Each setting's label, description and list of values to cycle through.
    pub closed spec fn texts_view(&self) -> Seq<(Seq<char>, Option<Seq<char>>, Option<Seq<Seq<char>>>)> {
        self.items@.map_values(
            |it: SettingItem|
                (
                    it.label@,
                    match it.description {
                        Some(d) => Some(d@),
                        None => None,
                    },
                    match it.values {
                        Some(v) => Some(v@.map_values(|x: String| x@)),
                        None => None,
                    },
                ),
        )
    }

    /// The labels of the settings.
    pub closed spec fn labels_view(&self) -> Seq<Seq<char>> {
        self.items@.map_values(|it: SettingItem| it.label@)
    }

    /// The search field, when there is one.
    pub closed spec fn search_field(&self) -> Option<Input> {
        self.search_input
    }

    /// The search field's text, when there is a search field.
    pub closed spec fn search_value(&self) -> Option<Seq<char>> {
        match self.search_input {
            Some(i) => Some(i.value_view()),
            None => None,
        }
    }

    pub closed spec fn values_view(&self) -> Seq<Seq<char>> {
        self.items@.map_values(|it: SettingItem| it.current_value@)
    }

    pub closed spec fn filtered_view(&self) -> Seq<usize> {
        self.filtered_indices@
    }

    pub closed spec fn selected_view(&self) -> nat {
        self.selected_index as nat
    }

    pub closed spec fn search_view(&self) -> bool {
        self.search_enabled
    }

    /// How many settings are shown: the filtered ones when searching, else all.
    pub closed spec fn display_count(&self) -> nat {
        if self.search_enabled {
            self.filtered_indices@.len()
        } else {
            self.items@.len()
        }
    }

    /// Whether a submenu is open in place of the list.
    pub closed spec fn submenu_open(&self) -> bool {
        self.submenu_component is Some
    }

    pub closed spec fn bindings_view(&self) -> Seq<crate::keys::KeyBinding> {
        self.keybindings.bindings@
    }

    /// The choices of setting `i`, if it has any.
    pub closed spec fn choices(&self, i: nat) -> Option<Seq<Seq<char>>> {
        match self.items@[i as int].values {
            Some(v) => Some(v@.map_values(|x: String| x@)),
            None => None,
        }
    }

    /// Whether setting `i` opens a submenu.
    pub closed spec fn has_submenu(&self, i: nat) -> bool {
        self.items@[i as int].submenu is Some
    }

    /// The setting whose submenu is open.
    pub closed spec fn submenu_item(&self) -> Option<usize> {
        self.submenu_item_index
    }

    /// The item shown at `display_index`.
    pub open spec fn shown_item(&self, display_index: nat) -> Option<nat> {
        if self.search_view() {
            if display_index < self.filtered_view().len() && self.filtered_view()[display_index as int]
                < self.item_count() {
                Some(self.filtered_view()[display_index as int] as nat)
            } else {
                None
            }
        } else if display_index < self.item_count() {
            Some(display_index)
        } else {
            None
        }
    }

    pub fn new(
        items: Vec<SettingItem>,
        max_visible: usize,
        theme: SettingsListTheme,
        on_change: Box<dyn ChangeHandler>,
        on_cancel: Box<dyn Notify>,
        options: Option<SettingsListOptions>,
    ) -> (r: Self)
        ensures
            r.ids_view() == items@.map_values(|it: SettingItem| it.id@),
            r.values_view() == items@.map_values(|it: SettingItem| it.current_value@),
            r.filtered_view() == Seq::new(items@.len(), |i: int| i as usize),
            r.selected_view() == 0,
            r.search_view() == (options matches Some(o) && o.enable_search),
    {
        let search_enabled = match options {
            Some(o) => o.enable_search,
            None => false,
        };
        let mut filtered_indices: Vec<usize> = Vec::new();
        let mut i: usize = 0;
        while i < items.len()
            invariant
                i <= items@.len(),
                filtered_indices@ == Seq::new(i as nat, |k: int| k as usize),
            decreases items@.len() - i,
        {
            filtered_indices.push(i);
            assert(filtered_indices@ =~= Seq::new((i + 1) as nat, |k: int| k as usize));
            i += 1;
        }
        let search_input = if search_enabled {
            Some(Input::new(default_editor_keybindings_handle()))
        } else {
            None
        };
        SettingsList {
            items,
            filtered_indices,
            theme,
            selected_index: 0,
            max_visible,
            keybindings: default_editor_keybindings_handle(),
            on_change,
            on_cancel,
            search_input,
            search_enabled,
            submenu_component: None,
            submenu_display_index: None,
            submenu_item_index: None,
        }
    }

    /// Sets the value of the first setting with `id`; nothing happens when there is none.
    pub fn update_value(&mut self, id: &str, new_value: &str)
        ensures
            final(self).ids_view() == old(self).ids_view(),
            final(self).values_view() == (if exists|i: int| 0 <= i < old(self).item_count() && old(self).ids_view()[i] == id@ {
                old(self).values_view().update(
                    choose|i: int| 0 <= i < old(self).item_count() && old(self).ids_view()[i] == id@
                        && forall|j: int| 0 <= j < i ==> old(self).ids_view()[j] != id@,
                    new_value@,
                )
            } else {
                old(self).values_view()
            }),
            final(self).texts_view() == old(self).texts_view(),
            final(self).filtered_view() == old(self).filtered_view(),
            final(self).selected_view() == old(self).selected_view(),
            final(self).search_view() == old(self).search_view(),
    {
        let ghost ids = self.ids_view();
        let mut i: usize = 0;
        while i < self.items.len()
            invariant
                i <= self.items@.len(),
                self.items == old(self).items,
                self.filtered_indices == old(self).filtered_indices,
                self.selected_index == old(self).selected_index,
                self.search_enabled == old(self).search_enabled,
                ids == old(self).ids_view(),
                forall|j: int| 0 <= j < i ==> ids[j] != id@,
            decreases self.items@.len() - i,
        {
            assert(ids[i as int] == self.items@[i as int].id@);
            if str_eq(self.items[i].id.as_str(), id) {
                proof {
                    let k = choose|k: int| 0 <= k < old(self).item_count() && old(self).ids_view()[k] == id@
                        && forall|j: int| 0 <= j < k ==> old(self).ids_view()[j] != id@;
                    if k < i {
                    } else if k > i {
                        assert(ids[i as int] == id@);
                    }
                }
                self.set_value_at(i, new_value.to_owned());
                return;
            }
            i += 1;
        }
    }

    fn set_value_at(&mut self, index: usize, value: String)
        requires
            index < old(self).items@.len(),
        ensures
            final(self).ids_view() == old(self).ids_view(),
            final(self).values_view() == old(self).values_view().update(index as int, value@),
            final(self).texts_view() == old(self).texts_view(),
            final(self).items@.len() == old(self).items@.len(),
            final(self).filtered_indices == old(self).filtered_indices,
            final(self).selected_index == old(self).selected_index,
            final(self).search_enabled == old(self).search_enabled,
            final(self).submenu_item_index == old(self).submenu_item_index,
            final(self).submenu_display_index == old(self).submenu_display_index,
            final(self).submenu_component == old(self).submenu_component,
    {
        let ghost before = self.items@;
        let item = &mut self.items[index];
        item.current_value = value;
        proof {
            assert(self.items@.map_values(|it: SettingItem| it.id@) =~= before.map_values(|it: SettingItem| it.id@));
            assert(self.texts_view() =~= old(self).texts_view());
            assert(self.items@.map_values(|it: SettingItem| it.current_value@) =~= before.map_values(
                |it: SettingItem| it.current_value@,
            ).update(index as int, value@));
        }
    }

    /// Indices of the settings that the search shows.
    pub fn filtered_indices(&self) -> (r: &Vec<usize>)
        ensures
            r@ == self.filtered_view(),
    {
        &self.filtered_indices
    }

    pub fn selected_index(&self) -> (r: usize)
        ensures
            r == self.selected_view(),
    {
        self.selected_index
    }

    fn display_len(&self) -> (r: usize)
        ensures
            r == (if self.search_view() { self.filtered_view().len() } else { self.item_count() }),
    {
        if self.search_enabled {
            self.filtered_indices.len()
        } else {
            self.items.len()
        }
    }

    /// The setting shown at `display_index`, if any.
    pub fn display_item_index(&self, display_index: usize) -> (r: Option<usize>)
        ensures
            match self.shown_item(display_index as nat) {
                Some(i) => r == Some(i as usize),
                None => r is None,
            },
            r matches Some(i) ==> i < self.item_count(),
    {
        if self.search_enabled {
            if display_index < self.filtered_indices.len() && self.filtered_indices[display_index]
                < self.items.len() {
                Some(self.filtered_indices[display_index])
            } else {
                None
            }
        } else if display_index < self.items.len() {
            Some(display_index)
        } else {
            None
        }
    }

    fn clamp_selected_index(&mut self)
        ensures
            final(self).items == old(self).items,
            final(self).filtered_indices == old(self).filtered_indices,
            final(self).search_enabled == old(self).search_enabled,
            final(self).submenu_component == old(self).submenu_component,
            final(self).submenu_display_index == old(self).submenu_display_index,
            final(self).submenu_item_index == old(self).submenu_item_index,
            final(self).selected_view() == if old(self).display_count() == 0 {
                0
            } else if old(self).selected_view() >= old(self).display_count() {
                (old(self).display_count() - 1) as nat
            } else {
                old(self).selected_view()
            },
    {
        let len = self.display_len();
        if len == 0 {
            self.selected_index = 0;
        } else if self.selected_index >= len {
            self.selected_index = len - 1;
        }
    }

    /// Shows the settings whose label matches `query` (see `fuzzy_matches`), in order, and
    /// selects the first.
    fn apply_filter(&mut self, query: &str)
        ensures
            final(self).filtered_view() == Seq::new(old(self).item_count(), |i: int| i as usize).filter(
                |i: usize| fuzzy_matches(old(self).items@[i as int].label@, query@),
            ),
            final(self).selected_view() == 0,
            final(self).items == old(self).items,
            final(self).search_enabled == old(self).search_enabled,
            final(self).search_input == old(self).search_input,
            final(self).filtered_view() == matching_indices(old(self).labels_view(), query@),
    {
        let ghost all = Seq::new(self.items@.len(), |i: int| i as usize);
        let ghost pred = |i: usize| fuzzy_matches(self.items@[i as int].label@, query@);
        let ghost labels = self.labels_view();
        let ghost pred2 = |i: usize| fuzzy_matches(labels[i as int], query@);
        let mut out: Vec<usize> = Vec::new();
        let mut i: usize = 0;
        assert(all.subrange(0, 0).filter(pred) =~= Seq::<usize>::empty());
        while i < self.items.len()
            invariant
                i <= self.items@.len(),
                all == Seq::new(self.items@.len(), |i: int| i as usize),
                pred == |i: usize| fuzzy_matches(self.items@[i as int].label@, query@),
                out@ == all.subrange(0, i as int).filter(pred),
                labels == self.labels_view(),
                pred2 == |i: usize| fuzzy_matches(labels[i as int], query@),
                out@ == all.subrange(0, i as int).filter(pred2),
            decreases self.items@.len() - i,
        {
            proof {
                assert(all.subrange(0, i + 1 as int) =~= all.subrange(0, i as int).push(i));
                all.subrange(0, i as int).lemma_filter_push(i, pred);
                all.subrange(0, i as int).lemma_filter_push(i, pred2);
                assert(labels[i as int] == self.items@[i as int].label@);
            }
            if fuzzy_match(self.items[i].label.as_str(), query) {
                out.push(i);
            }
            i += 1;
        }
        assert(all.subrange(0, self.items@.len() as int) =~= all);
        self.filtered_indices = out;
        self.selected_index = 0;
    }

    /// Appends a blank line and the styled key hint.
    fn add_hint_line(&self, lines: &mut Vec<String>, width: usize)
        ensures
            final(lines)@.len() == old(lines)@.len() + 2,
            final(lines)@.subrange(0, old(lines)@.len() as int) == old(lines)@,
            final(lines)@[old(lines)@.len() as int]@ == Seq::<char>::empty(),
    {
        lines.push(String::new());
        let text = if self.search_enabled {
            string_of(
                &[' ', ' ', 'T', 'y', 'p', 'e', ' ', 't', 'o', ' ', 's', 'e', 'a', 'r', 'c', 'h', ' ', '\u{b7}', ' ', 'E', 'n', 't', 'e', 'r', '/', 'S', 'p', 'a', 'c', 'e', ' ', 't', 'o', ' ', 'c', 'h', 'a', 'n', 'g', 'e', ' ', '\u{b7}', ' ', 'E', 's', 'c', ' ', 't', 'o', ' ', 'c', 'a', 'n', 'c', 'e', 'l'],
            )
        } else {
            string_of(
                &[' ', ' ', 'E', 'n', 't', 'e', 'r', '/', 'S', 'p', 'a', 'c', 'e', ' ', 't', 'o', ' ', 'c', 'h', 'a', 'n', 'g', 'e', ' ', '\u{b7}', ' ', 'E', 's', 'c', ' ', 't', 'o', ' ', 'c', 'a', 'n', 'c', 'e', 'l'],
            )
        };
        let hint = self.theme.hint.style(text.as_str());
        lines.push(truncate_to_width(hint.as_str(), width, string_of(&['.', '.', '.']).as_str(), false));
    }

    /// The search field (when searching), the visible rows, a scroll position when not all
    /// fit, the selected setting's description and the key hint (a blank line, then the hint).
    fn render_main_list(&mut self, width: usize) -> (r: Vec<String>)
        ensures
            final(self).items == old(self).items,
            final(self).filtered_indices == old(self).filtered_indices,
            final(self).search_enabled == old(self).search_enabled,
            final(self).submenu_component == old(self).submenu_component,
            final(self).submenu_item_index == old(self).submenu_item_index,
            final(self).submenu_display_index == old(self).submenu_display_index,
            old(self).items@.len() == 0 && !old(self).search_enabled ==> r@.len() == 1,
            old(self).items@.len() > 0 || old(self).search_enabled ==> r@.len() >= 2 && r@[r@.len() - 2]@
                == Seq::<char>::empty(),
            final(self).selected_view() == if old(self).items@.len() == 0 || old(self).display_count() == 0 {
                old(self).selected_view()
            } else if old(self).selected_view() >= old(self).display_count() {
                (old(self).display_count() - 1) as nat
            } else {
                old(self).selected_view()
            },
    {
        let mut lines: Vec<String> = Vec::new();
        if self.search_enabled {
            match &mut self.search_input {
                Some(input) => {
                    let rendered = input.render(width);
                    let mut k: usize = 0;
                    while k < rendered.len()
                        invariant
                            k <= rendered@.len(),
                        decreases rendered@.len() - k,
                    {
                        lines.push(rendered[k].clone());
                        k += 1;
                    }
                    lines.push(String::new());
                },
                None => {},
            }
        }
        if self.items.len() == 0 {
            let msg = string_of(
                &[' ', ' ', 'N', 'o', ' ', 's', 'e', 't', 't', 'i', 'n', 'g', 's', ' ', 'a', 'v', 'a', 'i', 'l', 'a', 'b', 'l', 'e'],
            );
            lines.push(self.theme.hint.style(msg.as_str()));
            if self.search_enabled {
                self.add_hint_line(&mut lines, width);
            }
            return lines;
        }
        let display_len = self.display_len();
        if display_len == 0 {
            let msg = string_of(
                &[' ', ' ', 'N', 'o', ' ', 'm', 'a', 't', 'c', 'h', 'i', 'n', 'g', ' ', 's', 'e', 't', 't', 'i', 'n', 'g', 's'],
            );
            let hint = self.theme.hint.style(msg.as_str());
            lines.push(truncate_to_width(hint.as_str(), width, string_of(&['.', '.', '.']).as_str(), false));
            self.add_hint_line(&mut lines, width);
            return lines;
        }
        self.clamp_selected_index();
        let sel = self.selected_index;
        let mv0 = if self.max_visible == 0 {
            1
        } else {
            self.max_visible
        };
        let mv = if mv0 < display_len {
            mv0
        } else {
            display_len
        };
        let start = if display_len <= mv {
            0
        } else {
            let half = mv / 2;
            let cand = if sel > half {
                sel - half
            } else {
                0
            };
            if cand < display_len - mv {
                cand
            } else {
                display_len - mv
            }
        };
        let end = if start + mv < display_len {
            start + mv
        } else {
            display_len
        };
        let mut max_label: usize = 0;
        let mut q: usize = 0;
        while q < self.items.len()
            invariant
                q <= self.items@.len(),
            decreases self.items@.len() - q,
        {
            let w = visible_width(self.items[q].label.as_str());
            if w > max_label {
                max_label = w;
            }
            q += 1;
        }
        if max_label > 30 {
            max_label = 30;
        }
        let dots = string_of(&['.', '.', '.']);
        let empty = String::new();
        let mut d = start;
        while d < end
            invariant
                start <= d <= end,
            decreases end - d,
        {
            match self.display_item_index(d) {
                Some(ii) => {
                    let item = &self.items[ii];
                    let is_selected = d == sel;
                    let prefix = if is_selected {
                        self.theme.cursor.clone()
                    } else {
                        string_of(&[' ', ' '])
                    };
                    let prefix_width = visible_width(prefix.as_str());
                    let label_w = visible_width(item.label.as_str());
                    let pad = if max_label > label_w {
                        max_label - label_w
                    } else {
                        0
                    };
                    let mut label_padded = chars_of(item.label.as_str());
                    extend_chars(&mut label_padded, repeat_char(' ', pad).as_slice());
                    let label_text = self.theme.label.style(string_of(label_padded.as_slice()).as_str(), is_selected);
                    let used = prefix_width.saturating_add(max_label).saturating_add(2);
                    let value_max = width.saturating_sub(used.saturating_add(2));
                    let tv = truncate_to_width(item.current_value.as_str(), value_max, empty.as_str(), false);
                    let value_text = self.theme.value.style(tv.as_str(), is_selected);
                    let mut combined = chars_of(prefix.as_str());
                    extend_chars(&mut combined, chars_of(label_text.as_str()).as_slice());
                    combined.push(' ');
                    combined.push(' ');
                    extend_chars(&mut combined, chars_of(value_text.as_str()).as_slice());
                    lines.push(truncate_to_width(string_of(combined.as_slice()).as_str(), width, dots.as_str(), false));
                },
                None => {},
            }
            d += 1;
        }
        if start > 0 || end < display_len {
            let mut v = vec![' ', ' ', '('];
            extend_chars(&mut v, decimal_chars(sel.saturating_add(1)).as_slice());
            v.push('/');
            extend_chars(&mut v, decimal_chars(display_len).as_slice());
            v.push(')');
            let t = truncate_to_width(string_of(v.as_slice()).as_str(), width.saturating_sub(2), empty.as_str(), false);
            lines.push(self.theme.hint.style(t.as_str()));
        }
        match self.display_item_index(sel) {
            Some(ii) => match &self.items[ii].description {
                Some(desc) => {
                    lines.push(String::new());
                    let wrapped = wrap_text_with_ansi(desc.as_str(), width.saturating_sub(4));
                    let mut k: usize = 0;
                    while k < wrapped.len()
                        invariant
                            k <= wrapped@.len(),
                        decreases wrapped@.len() - k,
                    {
                        let mut v = vec![' ', ' '];
                        extend_chars(&mut v, chars_of(wrapped[k].as_str()).as_slice());
                        lines.push(self.theme.description.style(string_of(v.as_slice()).as_str()));
                        k += 1;
                    }
                },
                None => {},
            },
            None => {},
        }
        self.add_hint_line(&mut lines, width);
        lines
    }

    /// Confirms the selected setting: opens its submenu, or moves its value to the next of its
    /// choices (the first when the current value is not among them) and reports the change.
    fn activate_item(&mut self)
        ensures
            final(self).items@.len() == old(self).items@.len(),
            final(self).ids_view() == old(self).ids_view(),
            final(self).filtered_indices == old(self).filtered_indices,
            final(self).selected_index == old(self).selected_index,
            final(self).search_enabled == old(self).search_enabled,
            match old(self).shown_item(old(self).selected_view()) {
                None => final(self).values_view() == old(self).values_view() && final(self).submenu_component
                    == old(self).submenu_component && final(self).submenu_item_index == old(self).submenu_item_index
                    && final(self).submenu_display_index == old(self).submenu_display_index,
                Some(i) => if old(self).has_submenu(i) {
                    &&& final(self).submenu_open()
                    &&& final(self).submenu_item_index == Some(i as usize)
                    &&& final(self).submenu_display_index == Some(old(self).selected_index)
                    &&& final(self).values_view() == old(self).values_view()
                } else {
                    &&& final(self).submenu_component == old(self).submenu_component
                    &&& final(self).submenu_item_index == old(self).submenu_item_index
                    &&& final(self).submenu_display_index == old(self).submenu_display_index
                    &&& final(self).values_view() == match old(self).choices(i) {
                        Some(vs) => if vs.len() > 0 {
                            old(self).values_view().update(i as int, next_choice(vs, old(self).values_view()[i as int]))
                        } else {
                            old(self).values_view()
                        },
                        None => old(self).values_view(),
                    }
                },
            },
    {
        let display_index = self.selected_index;
        let item_index = match self.display_item_index(display_index) {
            Some(i) => i,
            None => {
                return;
            },
        };
        let ghost ids0 = self.ids_view();
        let ghost vals0 = self.values_view();
        let ghost before = self.items@;
        let current = self.items[item_index].current_value.clone();
        let opened = match &mut self.items[item_index].submenu {
            Some(factory) => Some(factory.open(current)),
            None => None,
        };
        proof {
            assert(self.items@.len() == before.len());
            assert forall|k: int| 0 <= k < before.len() implies self.items@[k].id == before[k].id
                && self.items@[k].current_value == before[k].current_value && self.items@[k].values == before[k].values by {
            }
            assert(self.ids_view() =~= ids0);
            assert(self.values_view() =~= vals0);
        }
        match opened {
            Some(sub) => {
                self.submenu_component = Some(sub.component);
                self.submenu_display_index = Some(display_index);
                self.submenu_item_index = Some(item_index);
                return;
            },
            None => {},
        }
        assert(self.items@[item_index as int] == before[item_index as int]);
        let next = match &self.items[item_index].values {
            None => {
                return;
            },
            Some(values) => {
                if values.len() == 0 {
                    assert(values@.map_values(|x: String| x@).len() == 0);
                    return;
                }
                let ghost vs = values@.map_values(|x: String| x@);
                let ghost cur = self.items@[item_index as int].current_value@;
                assert(cur == vals0[item_index as int]);
                let mut pos: usize = 0;
                while pos < values.len() && values[pos] != self.items[item_index].current_value
                    invariant
                        pos <= values@.len(),
                        item_index < self.items@.len(),
                        vs == values@.map_values(|x: String| x@),
                        cur == self.items@[item_index as int].current_value@,
                        first_match(vs, cur, 0) == first_match(vs, cur, pos as nat),
                    decreases values@.len() - pos,
                {
                    assert(vs[pos as int] == values@[pos as int]@);
                    pos += 1;
                }
                proof {
                    if pos < values@.len() {
                        assert(vs[pos as int] == values@[pos as int]@);
                    }
                }
                let next_index = if pos >= values.len() {
                    0
                } else {
                    (pos + 1) % values.len()
                };
                assert(vs[next_index as int] == values@[next_index as int]@);
                assert(first_match(vs, cur, 0) == pos as nat);
                assert(vs[next_index as int] == next_choice(vs, cur));
                assert(old(self).choices(item_index as nat) == Some(vs));
                values[next_index].clone()
            },
        };
        let id = self.items[item_index].id.clone();
        self.set_value_at(item_index, next.clone());
        assert(!old(self).has_submenu(item_index as nat));
        self.on_change.call(id, next);
    }

    /// Closes the submenu; the selection returns to the row it was opened from.
    fn close_submenu(&mut self)
        ensures
            final(self).items == old(self).items,
            final(self).filtered_indices == old(self).filtered_indices,
            final(self).search_enabled == old(self).search_enabled,
            final(self).submenu_component is None,
            final(self).submenu_display_index is None,
            final(self).submenu_item_index is None,
            final(self).selected_index == match old(self).submenu_display_index {
                Some(d) => d,
                None => old(self).selected_index,
            },
    {
        self.submenu_component = None;
        match self.submenu_display_index {
            Some(d) => {
                self.selected_index = d;
            },
            None => {},
        }
        self.submenu_display_index = None;
        self.submenu_item_index = None;
    }

    /// Takes the submenu's decision, if it has one: a picked value becomes the setting's value
    /// and is reported; either way the submenu closes.
    fn apply_submenu_result(&mut self)
        ensures
            final(self).items@.len() == old(self).items@.len(),
            final(self).ids_view() == old(self).ids_view(),
            final(self).filtered_indices == old(self).filtered_indices,
            final(self).search_enabled == old(self).search_enabled,
            !old(self).submenu_open() ==> final(self).values_view() == old(self).values_view()
                && final(self).selected_index == old(self).selected_index && !final(self).submenu_open()
                && final(self).submenu_item_index == old(self).submenu_item_index
                && final(self).submenu_display_index == old(self).submenu_display_index,
            old(self).submenu_open() ==> {
                ||| (final(self).submenu_open() && final(self).values_view() == old(self).values_view()
                    && final(self).selected_index == old(self).selected_index
                    && final(self).submenu_item_index == old(self).submenu_item_index
                    && final(self).submenu_display_index == old(self).submenu_display_index)
                ||| (!final(self).submenu_open() && final(self).submenu_item_index is None
                    && final(self).submenu_display_index is None
                    && final(self).selected_index == match old(self).submenu_display_index {
                        Some(d) => d,
                        None => old(self).selected_index,
                    }
                    && (final(self).values_view() == old(self).values_view() || (old(self).submenu_item_index matches Some(ii)
                        && ii < old(self).items@.len() && exists|v: Seq<char>| final(self).values_view()
                        == old(self).values_view().update(ii as int, v))))
            },
    {
        let result = match &mut self.submenu_component {
            Some(c) => c.take_result(),
            None => {
                return;
            },
        };
        match result {
            None => {},
            Some(picked) => {
                let ghost vals0 = self.values_view();
                match (picked, self.submenu_item_index) {
                    (Some(value), Some(ii)) => {
                        if ii < self.items.len() {
                            let id = self.items[ii].id.clone();
                            self.set_value_at(ii, value.clone());
                            assert(self.values_view() == vals0.update(ii as int, value@));
                            self.on_change.call(id, value);
                        }
                    },
                    _ => {},
                }
                self.close_submenu();
            },
        }
    }
}

impl Component for SettingsList {
    /// The open submenu's lines, or the list (see `render_main_list`): one line when there are
    /// no settings and no search, else ending in a blank line and the key hint.
    fn render(&mut self, width: usize) -> (r: Vec<String>)
        ensures
            final(self).ids_view() == old(self).ids_view(),
            final(self).values_view() == old(self).values_view(),
            final(self).filtered_view() == old(self).filtered_view(),
            final(self).search_view() == old(self).search_view(),
            final(self).submenu_open() == old(self).submenu_open(),
            !old(self).submenu_open() && old(self).item_count() == 0 && !old(self).search_view() ==> r@.len() == 1,
            !old(self).submenu_open() && (old(self).item_count() > 0 || old(self).search_view()) ==> r@.len() >= 2
                && r@[r@.len() - 2]@ == Seq::<char>::empty(),
    {
        match &mut self.submenu_component {
            Some(c) => {
                return c.render(width);
            },
            None => {},
        }
        self.render_main_list(width)
    }

    /// In a submenu, input goes to it. Otherwise up and down move the selection (wrapping),
    /// confirm or a space activates the selected setting, cancel calls the cancel handler, and
    /// with search enabled other input (spaces removed) is typed into the search field, which
    /// filters the list.
    fn handle_input(&mut self, data: &str)
        ensures
            final(self).ids_view() == old(self).ids_view(),
            final(self).search_view() == old(self).search_view(),
            !old(self).submenu_open() && data_bound(old(self).bindings_view(), data@, EditorAction::SelectUp) ==> {
                &&& final(self).values_view() == old(self).values_view()
                &&& final(self).filtered_view() == old(self).filtered_view()
                &&& final(self).selected_view() == if old(self).display_count() == 0 {
                    old(self).selected_view()
                } else {
                    wrap_up(old(self).selected_view(), old(self).display_count())
                }
            },
            !old(self).submenu_open() && !data_bound(old(self).bindings_view(), data@, EditorAction::SelectUp)
                && data_bound(old(self).bindings_view(), data@, EditorAction::SelectDown) ==> {
                &&& final(self).values_view() == old(self).values_view()
                &&& final(self).filtered_view() == old(self).filtered_view()
                &&& final(self).selected_view() == if old(self).display_count() == 0 {
                    old(self).selected_view()
                } else {
                    wrap_down(old(self).selected_view(), old(self).display_count())
                }
            },
            !old(self).submenu_open() && !data_bound(old(self).bindings_view(), data@, EditorAction::SelectUp)
                && !data_bound(old(self).bindings_view(), data@, EditorAction::SelectDown)
                && (data_bound(old(self).bindings_view(), data@, EditorAction::SelectConfirm) || data@ == seq![' '])
                ==> final(self).selected_view() == old(self).selected_view() && final(self).filtered_view()
                == old(self).filtered_view(),
            !old(self).submenu_open() && !data_bound(old(self).bindings_view(), data@, EditorAction::SelectUp)
                && !data_bound(old(self).bindings_view(), data@, EditorAction::SelectDown)
                && !data_bound(old(self).bindings_view(), data@, EditorAction::SelectConfirm) && data@ != seq![' ']
                && data_bound(old(self).bindings_view(), data@, EditorAction::SelectCancel) ==> {
                &&& final(self).values_view() == old(self).values_view()
                &&& final(self).filtered_view() == old(self).filtered_view()
                &&& final(self).selected_view() == old(self).selected_view()
            },
            !old(self).submenu_open() && !old(self).search_view() ==> final(self).filtered_view()
                == old(self).filtered_view(),
            ({
                let kb = old(self).bindings_view();
                &&& !old(self).submenu_open() && old(self).search_view() && old(self).search_value() is Some
                &&& !data_bound(kb, data@, EditorAction::SelectUp) && !data_bound(kb, data@, EditorAction::SelectDown)
                &&& !data_bound(kb, data@, EditorAction::SelectConfirm) && data@ != seq![' ']
                &&& !data_bound(kb, data@, EditorAction::SelectCancel)
            }) ==> if without_spaces(data@).len() == 0 {
                final(self).filtered_view() == old(self).filtered_view() && final(self).search_value()
                    == old(self).search_value()
            } else {
                &&& final(self).search_value() is Some && final(self).filtered_view() == matching_indices(
                    old(self).labels_view(),
                    final(self).search_value()->0,
                )
                &&& old(self).search_field() matches Some(field) && final(self).search_value() == Some(
                    events_step(
                        field.bindings_view(),
                        field.value_view(),
                        field.clamped_cursor(),
                        parse_events(without_spaces(data@)),
                    ).0,
                )
            },
    {
        let has_submenu = match &mut self.submenu_component {
            Some(c) => {
                c.handle_input(data);
                true
            },
            None => false,
        };
        if has_submenu {
            self.apply_submenu_result();
            return;
        }
        let up = self.keybindings.matches_data(data, EditorAction::SelectUp);
        let down = self.keybindings.matches_data(data, EditorAction::SelectDown);
        let confirm = self.keybindings.matches_data(data, EditorAction::SelectConfirm);
        let cancel = self.keybindings.matches_data(data, EditorAction::SelectCancel);
        let len = self.display_len();
        let space_chars = [' '];
        let space = string_of(&space_chars);
        assert(space@ =~= seq![' ']);
        if up {
            if len == 0 {
                return;
            }
            self.selected_index = if self.selected_index == 0 || self.selected_index > len {
                len - 1
            } else {
                self.selected_index - 1
            };
        } else if down {
            if len == 0 {
                return;
            }
            self.selected_index = if self.selected_index >= len - 1 {
                0
            } else {
                self.selected_index + 1
            };
        } else if confirm || str_eq(data, space.as_str()) {
            self.activate_item();
        } else if cancel {
            self.on_cancel.call();
        } else if self.search_enabled {
            let query = match &mut self.search_input {
                Some(input) => {
                    let v = chars_of(data);
                    let mut kept: Vec<char> = Vec::new();
                    let mut i: usize = 0;
                    let ghost keep = |ch: char| ch != ' ';
                    assert(v@.subrange(0, 0).filter(keep) =~= Seq::<char>::empty());
                    while i < v.len()
                        invariant
                            i <= v@.len(),
                            keep == |ch: char| ch != ' ',
                            kept@ == v@.subrange(0, i as int).filter(keep),
                        decreases v@.len() - i,
                    {
                        proof {
                            assert(v@.subrange(0, i + 1 as int) =~= v@.subrange(0, i as int).push(v@[i as int]));
                            v@.subrange(0, i as int).lemma_filter_push(v@[i as int], keep);
                        }
                        if v[i] != ' ' {
                            kept.push(v[i]);
                        }
                        i += 1;
                    }
                    assert(v@.subrange(0, v@.len() as int) =~= v@);
                    if kept.len() == 0 {
                        return;
                    }
                    input.handle_input(string_of(kept.as_slice()).as_str());
                    Some(input.get_value().to_owned())
                },
                None => None,
            };
            match query {
                Some(q) => self.apply_filter(q.as_str()),
                None => {},
            }
        }
    }

    fn invalidate(&mut self) {
        match &mut self.submenu_component {
            Some(c) => c.invalidate(),
            None => {},
        }
    }
}

} // verus!
