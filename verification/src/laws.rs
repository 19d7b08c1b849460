//! Properties that relate several operations of the library.

use vstd::prelude::*;

use crate::keys::{data_bound, EditorAction, KeyBinding};
use crate::runtime::commands::{apply_all, apply_one, BatchState, Command};
use crate::runtime::component_registry::ComponentId;
use crate::runtime::surface::{
    eligible, entry_policy, entry_visible, index_of_spec, move_to_end, move_to_start, swap_entries, topmost_candidate,
    topmost_eligible, SurfaceEntry, SurfaceId, SurfaceInputPolicy, SurfaceRouting,
};
use crate::runtime::surface_host::{
    hide_step, host_wf, lemma_focus_step_registered, lemma_restore_step_registered,
    lemma_topmost_eligible_entry, reconcile_step, registered, set_hidden_step, show_step, update_options_step,
    with_hidden, last_with_component,
};
use crate::text::split_lines;
use crate::widgets::editor_model::{
    backspace, clean_paste, cur, delete_to_line_end, delete_to_line_start, delete_word_backward, delete_word_forward,
    forward_delete, insert_text, leave_history, model_wf, new_line, paste, push_undo, snapshot_of, spaced_paste,
    type_all, type_char, undo, with_action, yank, EdModel, LastAction,
};
use crate::component::texts;
use crate::widgets::markdown::{item_block, item_rest_line, list_bullet_text, list_compose, Markdown, MarkdownTheme};
use crate::widgets::md_tree::MdNode;
use crate::widgets::settings_list::{fuzzy_matches, matching_indices};
use crate::widgets::select_list::{select_step, selected_text, unselected_parts};
use crate::keys::bound;
use crate::widgets::editor_model::{join_with_next, line_end, line_start, move_cursor_by, move_left, word_back, word_forward};
use crate::widgets::input::{insert_at, key_step, shift_enter};

verus! {

/// No two entries of the stack share an identifier.
pub open spec fn unique_ids(s: Seq<SurfaceEntry>) -> bool {
    forall|i: int, j: int| 0 <= i < j < s.len() ==> s[i].id != s[j].id
}

proof fn lemma_index_of_unique(s: Seq<SurfaceEntry>, id: SurfaceId, k: int)
    requires
        unique_ids(s),
        0 <= k < s.len(),
        s[k].id == id,
    ensures
        index_of_spec(s, id) == Some(k),
{
    assert(exists|i: int| 0 <= i < s.len() && s[i].id == id);
    let c = choose|i: int| 0 <= i < s.len() && s[i].id == id && forall|j: int| 0 <= j < i ==> s[j].id != id;
    if c != k {
        if c < k {
            assert(s[c].id != s[k].id);
        } else {
            assert(s[k].id != id);
        }
    }
}

/// Raising a surface that is not on top and then lowering it restores the stack.
pub proof fn law_raise_then_lower_restores(s: Seq<SurfaceEntry>, id: SurfaceId, i: int)
    requires
        unique_ids(s),
        index_of_spec(s, id) == Some(i),
        i + 1 < s.len(),
    ensures
        ({
            let raised = swap_entries(s, i, i + 1);
            &&& index_of_spec(raised, id) == Some(i + 1)
            &&& swap_entries(raised, i + 1, i + 1 - 1) == s
        }),
{
    let c = choose|k: int| 0 <= k < s.len() && s[k].id == id && forall|j: int| 0 <= j < k ==> s[j].id != id;
    assert(exists|k: int| 0 <= k < s.len() && s[k].id == id) by {
        assert(s[c].id == id);
    }
    let raised = swap_entries(s, i, i + 1);
    assert(unique_ids(raised)) by {
        assert forall|a: int, b: int| 0 <= a < b < raised.len() implies raised[a].id != raised[b].id by {
            let pa = if a == i { i + 1 } else if a == i + 1 { i } else { a };
            let pb = if b == i { i + 1 } else if b == i + 1 { i } else { b };
            assert(raised[a] == s[pa]);
            assert(raised[b] == s[pb]);
            if pa < pb {
            } else {
                assert(s[pb].id != s[pa].id);
            }
        }
    }
    assert(raised[i + 1].id == id);
    lemma_index_of_unique(raised, id, i + 1);
    assert(swap_entries(raised, i + 1, i) =~= s);
}

/// After a surface is brought to the front it is the top entry, so bringing it to the front
/// again changes nothing; the stack holds the same entries as before.
pub proof fn law_bring_to_front_settles(s: Seq<SurfaceEntry>, id: SurfaceId, i: int)
    requires
        unique_ids(s),
        index_of_spec(s, id) == Some(i),
    ensures
        ({
            let moved = move_to_end(s, i);
            &&& moved.len() == s.len()
            &&& index_of_spec(moved, id) == Some(moved.len() - 1)
            &&& moved.to_multiset() == s.to_multiset()
        }),
{
    let c = choose|k: int| 0 <= k < s.len() && s[k].id == id && forall|j: int| 0 <= j < k ==> s[j].id != id;
    assert(exists|k: int| 0 <= k < s.len() && s[k].id == id) by {
        assert(s[c].id == id);
    }
    let moved = move_to_end(s, i);
    assert(moved.len() == s.len());
    assert(unique_ids(moved)) by {
        assert forall|a: int, b: int| 0 <= a < b < moved.len() implies moved[a].id != moved[b].id by {
            let pa = if a < i { a } else if a < moved.len() - 1 { a + 1 } else { i };
            let pb = if b < i { b } else if b < moved.len() - 1 { b + 1 } else { i };
            assert(moved[a] == s[pa]);
            assert(moved[b] == s[pb]);
            assert(pa != pb);
            if pa < pb {
            } else {
                assert(s[pb].id != s[pa].id);
            }
        }
    }
    lemma_index_of_unique(moved, id, moved.len() - 1);
    broadcast use vstd::seq_lib::group_to_multiset_ensures, vstd::multiset::group_multiset_axioms;
    assert(s.to_multiset().count(s[i]) > 0);
    assert(moved.to_multiset() =~= s.to_multiset());
}

/// Sending a surface to the back makes it the bottom entry; the stack holds the same entries.
pub proof fn law_send_to_back_settles(s: Seq<SurfaceEntry>, id: SurfaceId, i: int)
    requires
        unique_ids(s),
        index_of_spec(s, id) == Some(i),
    ensures
        ({
            let moved = move_to_start(s, i);
            &&& moved.len() == s.len()
            &&& index_of_spec(moved, id) == Some(0int)
            &&& moved.to_multiset() == s.to_multiset()
        }),
{
    let c = choose|k: int| 0 <= k < s.len() && s[k].id == id && forall|j: int| 0 <= j < k ==> s[j].id != id;
    assert(exists|k: int| 0 <= k < s.len() && s[k].id == id) by {
        assert(s[c].id == id);
    }
    let moved = move_to_start(s, i);
    assert(moved[0].id == id);
    assert(exists|k: int| 0 <= k < moved.len() && moved[k].id == id);
    let d = choose|k: int| 0 <= k < moved.len() && moved[k].id == id && forall|j: int| 0 <= j < k ==> moved[j].id != id;
    assert(d == 0) by {
        if d > 0 {
            assert(moved[0].id != id);
        }
    }
    broadcast use vstd::seq_lib::group_to_multiset_ensures, vstd::multiset::group_multiset_axioms;
    assert(moved =~= s.remove(i).insert(0, s[i]));
    assert(s.to_multiset().count(s[i]) > 0);
    assert(moved.to_multiset() =~= s.to_multiset());
}

/// Bringing a surface that cannot take input to the front does not change which surface is
/// the topmost one that can (the candidate keeps its entry; only its position may shift).
pub proof fn law_hidden_reorder_keeps_winner(
    s: Seq<SurfaceEntry>,
    i: int,
    k: int,
    columns: nat,
    rows: nat,
    capture_only: bool,
)
    requires
        0 <= i < s.len(),
        0 <= k < s.len(),
        !eligible(s[i], columns, rows, capture_only),
        topmost_candidate(s, k, columns, rows, capture_only),
    ensures
        ({
            let moved = move_to_end(s, i);
            let k2 = if k > i { k - 1 } else { k };
            &&& topmost_candidate(moved, k2, columns, rows, capture_only)
            &&& moved[k2] == s[k]
        }),
{
    let moved = move_to_end(s, i);
    let k2 = if k > i { k - 1 } else { k };
    assert(k != i);
    assert(moved[k2] == s[k]);
    assert forall|j: int| k2 < j < moved.len() implies !eligible(moved[j], columns, rows, capture_only) by {
        if j == moved.len() - 1 {
            assert(moved[j] == s[i]);
        } else if j < i {
            assert(moved[j] == s[j]);
        } else {
            assert(moved[j] == s[j + 1]);
        }
    }
}

/// With a key bound to "down" (and not to "up") and one bound to "up", moving down and then
/// up returns to the same selection in a non-empty list, wrapping included.
pub proof fn law_select_down_then_up(kb: Seq<KeyBinding>, len: nat, sel: nat, down: Seq<char>, up: Seq<char>)
    requires
        len > 0,
        sel < len,
        data_bound(kb, down, EditorAction::SelectDown),
        !data_bound(kb, down, EditorAction::SelectUp),
        data_bound(kb, up, EditorAction::SelectUp),
    ensures
        select_step(kb, len, select_step(kb, len, sel, down), up) == sel,
{
}


/// Same text and cursor.
pub open spec fn same_text(a: EdModel, b: EdModel) -> bool {
    a.lines == b.lines && a.line == b.line && a.col == b.col
}

proof fn lemma_type_all_keeps_undo(m: EdModel, t: Seq<char>)
    ensures
        type_all(m, t).undo == m.undo,
    decreases t.len(),
{
    if t.len() > 0 {
        lemma_type_all_keeps_undo(type_char(m, t[0], true), t.drop_first());
    }
}

/// Undo right after an edit brings back the text and cursor from before it: for a line break,
/// a deletion that removed something, a kill, a yank, a paste and an insertion.
pub proof fn law_undo_reverts_edit(m: EdModel, t: Seq<char>)
    requires
        model_wf(m),
    ensures
        same_text(undo(new_line(m)), m),
        m.col > 0 || m.line > 0 ==> same_text(undo(backspace(m)), m),
        m.col < cur(m).len() || m.line + 1 < m.lines.len() ==> same_text(undo(forward_delete(m)), m),
        m.col > 0 || m.line > 0 ==> same_text(undo(delete_to_line_start(m)), m),
        m.col < cur(m).len() || m.line + 1 < m.lines.len() ==> same_text(undo(delete_to_line_end(m)), m),
        m.col > 0 || m.line > 0 ==> same_text(undo(delete_word_backward(m)), m),
        m.col < cur(m).len() || m.line + 1 < m.lines.len() ==> same_text(undo(delete_word_forward(m)), m),
        m.kill_ring.len() > 0 ==> same_text(undo(yank(m)), m),
        same_text(undo(paste(m, t)), m),
        t.len() > 0 ==> same_text(undo(insert_text(leave_history(with_action(push_undo(m), None)), t)), m),
{
    let s = snapshot_of(m);
    let m1 = push_undo(with_action(leave_history(m), None));
    assert(m1.undo.last() == s);
    let f = spaced_paste(m1, clean_paste(t));
    lemma_type_all_keeps_undo(m1, f);
}

/// Killing the rest of a line (right after something other than a kill) and yanking it back
/// restores the line, with the cursor at its end.
pub proof fn law_kill_then_yank_restores_line(m: EdModel)
    requires
        model_wf(m),
        m.last_action != Some(LastAction::Kill),
        m.col < cur(m).len(),
        forall|i: int| m.col <= i < cur(m).len() ==> cur(m)[i] != '\n',
    ensures
        yank(delete_to_line_end(m)).lines == m.lines,
        yank(delete_to_line_end(m)).col == cur(m).len(),
{
    let c = cur(m);
    let tail = c.subrange(m.col, c.len() as int);
    let k = delete_to_line_end(m);
    assert(k.kill_ring.last() == tail);
    lemma_split_single(tail);
    assert(cur(k) == c.subrange(0, m.col));
    assert(cur(k).subrange(0, k.col) =~= c.subrange(0, m.col));
    assert(cur(k).subrange(k.col, cur(k).len() as int) =~= Seq::<char>::empty());
    assert(c.subrange(0, m.col) + tail + Seq::<char>::empty() =~= c);
    assert(k.lines.update(k.line, c) =~= m.lines);
}

/// A text without line breaks is one line.
proof fn lemma_split_single(s: Seq<char>)
    requires
        forall|i: int| 0 <= i < s.len() ==> s[i] != '\n',
    ensures
        split_lines(s) == seq![s],
    decreases s.len(),
{
    if s.len() > 0 {
        lemma_split_single(s.drop_last());
        assert(s.drop_last().push(s.last()) =~= s);
        assert(s.last() != '\n');
        assert(seq![s.drop_last()].update(0, s.drop_last().push(s.last())) =~= seq![s]);
    } else {
        assert(s =~= Seq::<char>::empty());
    }
}

/// Entry `i` is the first with identifier `id`.
proof fn lemma_index_of_is(s: Seq<SurfaceEntry>, id: SurfaceId, i: int)
    requires
        0 <= i < s.len(),
        s[i].id == id,
        forall|j: int| 0 <= j < i ==> s[j].id != id,
    ensures
        index_of_spec(s, id) == Some(i),
{
    assert(exists|k: int| 0 <= k < s.len() && s[k].id == id);
    let c = choose|k: int| 0 <= k < s.len() && s[k].id == id && forall|j: int| 0 <= j < k ==> s[j].id != id;
    if c < i {
        assert(s[c].id != id);
    } else if c > i {
        assert(s[i].id != id);
    }
}

/// Some entry with identifier `id` comes first among them.
proof fn lemma_first_index_exists(s: Seq<SurfaceEntry>, id: SurfaceId, k: int)
    requires
        0 <= k < s.len(),
        s[k].id == id,
    ensures
        exists|m: int| 0 <= m < s.len() && s[m].id == id && forall|j: int| 0 <= j < m ==> s[j].id != id,
    decreases k,
{
    if exists|j: int| 0 <= j < k && s[j].id == id {
        let j = choose|j: int| 0 <= j < k && s[j].id == id;
        lemma_first_index_exists(s, id, j);
    } else {
        assert(forall|j: int| 0 <= j < k ==> s[j].id != id);
    }
}

/// What `index_of_spec` finds is the first entry with that identifier.
proof fn lemma_index_of_found(s: Seq<SurfaceEntry>, id: SurfaceId, i: int)
    requires
        index_of_spec(s, id) == Some(i),
    ensures
        0 <= i < s.len(),
        s[i].id == id,
        forall|j: int| 0 <= j < i ==> s[j].id != id,
{
    let k = choose|k: int| 0 <= k < s.len() && s[k].id == id;
    lemma_first_index_exists(s, id, k);
}

/// Replacing or reordering entries without changing their components keeps the host
/// well-formed.
proof fn lemma_same_components_wf(before: Seq<SurfaceEntry>, after: Seq<SurfaceEntry>, focused: Option<ComponentId>, n: nat)
    requires
        host_wf(before, focused, n),
        forall|k: int| 0 <= k < after.len() ==> exists|j: int| 0 <= j < before.len() && before[j].component_id == #[trigger] after[k].component_id,
    ensures
        host_wf(after, focused, n),
{
    assert forall|k: int| 0 <= k < after.len() implies registered(#[trigger] after[k].component_id, n) by {
        let j = choose|j: int| 0 <= j < before.len() && before[j].component_id == after[k].component_id;
        assert(registered(before[j].component_id, n));
    }
}

/// Showing a surface keeps every surface on a registered component and focus on a registered
/// component (or none).
pub proof fn law_show_keeps_host_wf(entries: Seq<SurfaceEntry>, focused: Option<ComponentId>, n: nat, columns: nat, rows: nat, surface_id: SurfaceId, component: ComponentId, options: Option<SurfaceRouting>, hidden: bool, code: Seq<char>, label: Seq<char>)
    requires
        host_wf(entries, focused, n),
    ensures
        ({
            let s = show_step(entries, focused, n, columns, rows, surface_id, component, options, hidden, code, label);
            host_wf(s.entries, s.focus, n)
        }),
{
    if registered(component, n) {
        lemma_focus_step_registered(focused, Some(component), n);
        let e = SurfaceEntry {
            id: surface_id,
            component_id: component,
            options,
            pre_focus: if focused == Some(component) { None } else { focused },
            hidden,
        };
        let after = entries.push(e);
        assert forall|k: int| 0 <= k < after.len() implies registered(#[trigger] after[k].component_id, n) by {
            if k < entries.len() {
                assert(after[k] == entries[k]);
            }
        }
    }
}

/// Hiding a surface keeps the host well-formed, and reports nothing when the surface exists.
pub proof fn law_hide_keeps_host_wf(entries: Seq<SurfaceEntry>, focused: Option<ComponentId>, n: nat, columns: nat, rows: nat, surface_id: SurfaceId, code: Seq<char>, label: Seq<char>)
    requires
        host_wf(entries, focused, n),
    ensures
        ({
            let s = hide_step(entries, focused, n, columns, rows, surface_id, code, label);
            &&& host_wf(s.entries, s.focus, n)
            &&& (index_of_spec(entries, surface_id) is Some ==> s.diagnostics.len() == 0)
        }),
{
    match index_of_spec(entries, surface_id) {
        None => {},
        Some(i) => {
            lemma_index_of_found(entries, surface_id, i);
            let rest = entries.remove(i);
            assert forall|k: int| 0 <= k < rest.len() implies exists|j: int| 0 <= j < entries.len() && entries[j].component_id == #[trigger] rest[k].component_id by {
                if k < i {
                    assert(rest[k] == entries[k]);
                } else {
                    assert(rest[k] == entries[k + 1]);
                }
            }
            lemma_same_components_wf(entries, rest, focused, n);
            lemma_restore_step_registered(rest, focused, n, columns, rows, entries[i].pre_focus);
            let top = topmost_eligible(rest, rest.len() as int, columns, rows, true);
            lemma_topmost_eligible_entry(rest, rest.len() as int, columns, rows, true);
            if top is Some {
                let j = choose|j: int| 0 <= j < rest.len() && #[trigger] rest[j].component_id == top->0
                    && eligible(rest[j], columns, rows, true);
                assert(registered(rest[j].component_id, n));
            }
        },
    }
}

/// Hiding or showing again a surface keeps the host well-formed, and reports nothing when
/// the surface exists.
pub proof fn law_set_hidden_keeps_host_wf(entries: Seq<SurfaceEntry>, focused: Option<ComponentId>, n: nat, columns: nat, rows: nat, surface_id: SurfaceId, hidden: bool, code: Seq<char>, label: Seq<char>)
    requires
        host_wf(entries, focused, n),
    ensures
        ({
            let s = set_hidden_step(entries, focused, n, columns, rows, surface_id, hidden, code, label);
            &&& host_wf(s.entries, s.focus, n)
            &&& (index_of_spec(entries, surface_id) is Some ==> s.diagnostics.len() == 0)
        }),
{
    match index_of_spec(entries, surface_id) {
        None => {},
        Some(i) => {
            lemma_index_of_found(entries, surface_id, i);
            let e = entries[i];
            if e.hidden != hidden {
                if hidden {
                    let rest = entries.update(i, with_hidden(e, true, e.pre_focus));
                    assert forall|k: int| 0 <= k < rest.len() implies exists|j: int| 0 <= j < entries.len() && entries[j].component_id == #[trigger] rest[k].component_id by {
                        assert(rest[k].component_id == entries[k].component_id);
                    }
                    lemma_same_components_wf(entries, rest, focused, n);
                    lemma_restore_step_registered(rest, focused, n, columns, rows, e.pre_focus);
                    let top = topmost_eligible(rest, rest.len() as int, columns, rows, true);
                    lemma_topmost_eligible_entry(rest, rest.len() as int, columns, rows, true);
                    if top is Some {
                        let j = choose|j: int| 0 <= j < rest.len() && #[trigger] rest[j].component_id == top->0
                            && eligible(rest[j], columns, rows, true);
                        assert(registered(rest[j].component_id, n));
                    }
                } else {
                    let shown = with_hidden(e, false, if focused != Some(e.component_id) { focused } else { e.pre_focus });
                    let rest = entries.remove(i).push(shown);
                    assert forall|k: int| 0 <= k < rest.len() implies exists|j: int| 0 <= j < entries.len() && entries[j].component_id == #[trigger] rest[k].component_id by {
                        if k < i {
                            assert(rest[k] == entries[k]);
                        } else if k < rest.len() - 1 {
                            assert(rest[k] == entries[k + 1]);
                        } else {
                            assert(rest[k].component_id == entries[i].component_id);
                        }
                    }
                    lemma_same_components_wf(entries, rest, focused, n);
                    lemma_focus_step_registered(focused, Some(e.component_id), n);
                }
            }
        },
    }
}

/// Replacing a surface's options keeps the host well-formed and leaves focus alone.
pub proof fn law_update_options_keeps_host_wf(entries: Seq<SurfaceEntry>, focused: Option<ComponentId>, n: nat, surface_id: SurfaceId, options: Option<SurfaceRouting>)
    requires
        host_wf(entries, focused, n),
    ensures
        ({
            let s = update_options_step(entries, focused, surface_id, options);
            &&& host_wf(s.entries, s.focus, n)
            &&& s.focus == focused
        }),
{
    match index_of_spec(entries, surface_id) {
        None => {},
        Some(i) => {
            lemma_index_of_found(entries, surface_id, i);
            let s = update_options_step(entries, focused, surface_id, options);
            assert forall|k: int| 0 <= k < s.entries.len() implies exists|j: int| 0 <= j < entries.len() && entries[j].component_id == #[trigger] s.entries[k].component_id by {
                assert(s.entries[k].component_id == entries[k].component_id);
            }
            lemma_same_components_wf(entries, s.entries, focused, n);
        },
    }
}

/// Settling focus keeps it on a registered component (or none), reports nothing, and hands it
/// to the topmost visible capturing surface when there is one.
pub proof fn law_reconcile_keeps_host_wf(entries: Seq<SurfaceEntry>, focused: Option<ComponentId>, n: nat, columns: nat, rows: nat)
    requires
        host_wf(entries, focused, n),
    ensures
        ({
            let r = reconcile_step(entries, focused, n, columns, rows);
            let top = topmost_eligible(entries, entries.len() as int, columns, rows, true);
            &&& host_wf(entries, r.0, n)
            &&& r.1.len() == 0
            &&& (top is Some ==> r.0 == top)
        }),
{
    let top = topmost_eligible(entries, entries.len() as int, columns, rows, true);
    lemma_topmost_eligible_entry(entries, entries.len() as int, columns, rows, true);
    if top is Some {
        let j = choose|j: int| 0 <= j < entries.len() && #[trigger] entries[j].component_id == top->0
            && eligible(entries[j], columns, rows, true);
        assert(registered(entries[j].component_id, n));
        lemma_focus_step_registered(focused, top, n);
    } else {
        match focused {
            None => {},
            Some(c) => match last_with_component(entries, entries.len() as int, c) {
                Some(k) => {
                    lemma_restore_step_registered(entries, focused, n, columns, rows, entries[k].pre_focus);
                },
                None => {},
            },
        }
    }
}

/// Showing a visible capturing surface over focused component `a` and hiding it again gives
/// focus back to `a` and leaves the stack as it was, with nothing reported.
pub proof fn law_capture_show_then_hide_restores_focus(entries: Seq<SurfaceEntry>, a: ComponentId, b: ComponentId, n: nat, columns: nat, rows: nat, surface_id: SurfaceId, options: Option<SurfaceRouting>, show_code: Seq<char>, show_label: Seq<char>, hide_code: Seq<char>, hide_label: Seq<char>)
    requires
        host_wf(entries, Some(a), n),
        registered(b, n),
        a != b,
        forall|k: int| 0 <= k < entries.len() ==> (#[trigger] entries[k]).id != surface_id,
        options matches Some(o) ==> o.input_policy == SurfaceInputPolicy::Capture,
        entry_visible(SurfaceEntry { id: surface_id, component_id: b, options, pre_focus: Some(a), hidden: false }, columns, rows),
    ensures
        ({
            let shown = show_step(entries, Some(a), n, columns, rows, surface_id, b, options, false, show_code, show_label);
            let hidden = hide_step(shown.entries, shown.focus, n, columns, rows, surface_id, hide_code, hide_label);
            &&& shown.done && shown.focus == Some(b) && shown.diagnostics.len() == 0
            &&& hidden.done && hidden.focus == Some(a) && hidden.diagnostics.len() == 0
            &&& hidden.entries == entries
        }),
{
    let e = SurfaceEntry { id: surface_id, component_id: b, options, pre_focus: Some(a), hidden: false };
    lemma_focus_step_registered(Some(a), Some(b), n);
    let pushed = entries.push(e);
    assert forall|j: int| 0 <= j < entries.len() implies pushed[j].id != surface_id by {
        assert(pushed[j] == entries[j]);
    }
    lemma_index_of_is(pushed, surface_id, entries.len() as int);
    assert(pushed.remove(entries.len() as int) =~= entries);
    assert(host_wf(entries, Some(b), n));
    lemma_restore_step_registered(entries, Some(b), n, columns, rows, Some(a));
}

/// Hiding the focused, visible, capturing surface and showing it again puts it on top and
/// gives it focus back, with nothing reported.
pub proof fn law_hide_then_show_again_refocuses(entries: Seq<SurfaceEntry>, n: nat, columns: nat, rows: nat, surface_id: SurfaceId, i: int, code: Seq<char>, label: Seq<char>)
    requires
        index_of_spec(entries, surface_id) == Some(i),
        host_wf(entries, Some(entries[i].component_id), n),
        entry_policy(entries[i]) == SurfaceInputPolicy::Capture,
        entry_visible(entries[i], columns, rows),
    ensures
        ({
            let c = entries[i].component_id;
            let h = set_hidden_step(entries, Some(c), n, columns, rows, surface_id, true, code, label);
            let s = set_hidden_step(h.entries, h.focus, n, columns, rows, surface_id, false, code, label);
            &&& h.done && s.done
            &&& s.focus == Some(c)
            &&& h.diagnostics.len() == 0 && s.diagnostics.len() == 0
            &&& s.entries.len() == entries.len()
            &&& s.entries.last().id == surface_id && !s.entries.last().hidden
        }),
{
    lemma_index_of_found(entries, surface_id, i);
    let e = entries[i];
    let c = e.component_id;
    let rest = entries.update(i, with_hidden(e, true, e.pre_focus));
    assert forall|k: int| 0 <= k < rest.len() implies exists|j: int| 0 <= j < entries.len() && entries[j].component_id == #[trigger] rest[k].component_id by {
        assert(rest[k].component_id == entries[k].component_id);
    }
    lemma_same_components_wf(entries, rest, Some(c), n);
    lemma_restore_step_registered(rest, Some(c), n, columns, rows, e.pre_focus);
    let top = topmost_eligible(rest, rest.len() as int, columns, rows, true);
    lemma_topmost_eligible_entry(rest, rest.len() as int, columns, rows, true);
    if top is Some {
        let j = choose|j: int| 0 <= j < rest.len() && #[trigger] rest[j].component_id == top->0
            && eligible(rest[j], columns, rows, true);
        assert(registered(rest[j].component_id, n));
    }
    let h = set_hidden_step(entries, Some(c), n, columns, rows, surface_id, true, code, label);
    assert(h.entries == rest);
    assert(h.focus is Some ==> registered(h.focus->0, n));
    lemma_index_of_is(rest, surface_id, i);
    lemma_focus_step_registered(h.focus, Some(c), n);
}

/// A surface that is hidden, not visible at this size, or lets input pass through never owns
/// input: the surface component that input goes to belongs to a visible, capturing surface.
pub proof fn law_only_visible_capture_surfaces_own_input(entries: Seq<SurfaceEntry>, columns: nat, rows: nat)
    ensures
        topmost_eligible(entries, entries.len() as int, columns, rows, true) matches Some(c) ==> exists|k: int|
            0 <= k < entries.len() && #[trigger] entries[k].component_id == c && !entries[k].hidden
                && entry_visible(entries[k], columns, rows) && entry_policy(entries[k]) == SurfaceInputPolicy::Capture,
{
    lemma_topmost_eligible_entry(entries, entries.len() as int, columns, rows, true);
}

/// A command on a surface that is not in the stack changes nothing and only reports it, so
/// the commands after it in a batch apply as if it were not there.
pub proof fn law_missing_surface_commands_only_report(s: BatchState, surface_id: SurfaceId, hidden: bool, options: Option<SurfaceRouting>, n: nat, columns: nat, rows: nat)
    requires
        forall|k: int| 0 <= k < s.entries.len() ==> (#[trigger] s.entries[k]).id != surface_id,
    ensures
        ({
            let h = apply_one(s, Command::HideSurface(surface_id), n, columns, rows);
            let v = apply_one(s, Command::SetSurfaceHidden { surface_id, hidden }, n, columns, rows);
            let u = apply_one(s, Command::UpdateSurfaceOptions { surface_id, options }, n, columns, rows);
            &&& h.root == s.root && h.entries == s.entries && h.focus == s.focus && h.render == s.render
            &&& h.diagnostics.len() == s.diagnostics.len() + 1
            &&& v.root == s.root && v.entries == s.entries && v.focus == s.focus && v.render == s.render
            &&& v.diagnostics.len() == s.diagnostics.len() + 1
            &&& u.root == s.root && u.entries == s.entries && u.focus == s.focus && u.render == s.render
            &&& u.diagnostics.len() == s.diagnostics.len() + 1
        }),
{
    assert(index_of_spec(s.entries, surface_id) is None);
}

/// Commands apply strictly in order: applying a batch `a + b` is applying `a`, then `b`.
pub proof fn law_batches_compose(s: BatchState, a: Seq<Command>, b: Seq<Command>, n: nat, columns: nat, rows: nat)
    ensures
        apply_all(s, a + b, n, columns, rows) == apply_all(apply_all(s, a, n, columns, rows), b, n, columns, rows),
    decreases b.len(),
{
    if b.len() == 0 {
        assert(a + b =~= a);
    } else {
        assert((a + b).drop_last() =~= a + b.drop_last());
        assert((a + b).last() == b.last());
        law_batches_compose(s, a, b.drop_last(), n, columns, rows);
    }
}

/// Rendering markdown twice at the same width with nothing changed in between gives the same
/// lines, except that text whose rendering comes out empty gives one empty line the first
/// time and no line the second.
pub proof fn law_markdown_render_repeats(
    m0: Markdown,
    m1: Markdown,
    m2: Markdown,
    width: nat,
    r1: Seq<String>,
    r2: Seq<String>,
)
    requires
        m0.cache_wf(),
        Markdown::render_step(m0, width, r1, m1),
        Markdown::render_step(m1, width, r2, m2),
    ensures
        texts(r1) == texts(r2) || (texts(r1) == seq![Seq::<char>::empty()] && r2.len() == 0),
{
    let (t, lines) = m1.cache_view()->0;
    assert(texts(r2) == texts(lines));
    assert(texts(r2).len() == r2.len());
}

/// A key that deletes to the line end in the single-line input (and is bound to none of the
/// actions that come before it) keeps the text before the cursor and the cursor, and removes
/// everything after it: typing the removed text back gives the old value.
pub proof fn law_input_delete_to_line_end_keeps_head(kb: Seq<KeyBinding>, v: Seq<char>, c: int, k: Seq<char>)
    requires
        0 <= c <= v.len(),
        bound(kb, k, EditorAction::DeleteToLineEnd),
        !bound(kb, k, EditorAction::SelectCancel),
        !bound(kb, k, EditorAction::Submit),
        k != shift_enter(),
        !bound(kb, k, EditorAction::DeleteCharBackward),
        !bound(kb, k, EditorAction::DeleteCharForward),
        !bound(kb, k, EditorAction::DeleteWordBackward),
        !bound(kb, k, EditorAction::DeleteToLineStart),
    ensures
        ({
            let (nv, nc) = key_step(kb, v, c, k);
            &&& nc == c
            &&& nv.len() == c
            &&& forall|i: int| 0 <= i < c ==> nv[i] == v[i]
            &&& insert_at(nv, nc, v.subrange(c, v.len() as int)).0 == v
        }),
{
    let (nv, nc) = key_step(kb, v, c, k);
    assert(nv.subrange(0, nc) + v.subrange(c, v.len() as int) + nv.subrange(nc, nv.len() as int) =~= v);
}

/// Deleting a word forward in the editor removes exactly the text between the cursor and
/// where moving one word forward puts it; the cursor stays, other lines stay, and the removed
/// text is killed (a fresh kill when the previous action was no kill). At the end of a line
/// with a line after it, both join that line, and moving forward goes to its start.
pub proof fn law_delete_word_forward_removes_next_word(m: EdModel)
    requires
        0 <= m.line < m.lines.len(),
        0 <= m.col <= cur(m).len(),
    ensures
        ({
            let d = delete_word_forward(m);
            let w = word_forward(m);
            let c = cur(m);
            &&& m.col < c.len() ==> {
                &&& w.line == m.line
                &&& d.lines == m.lines.update(m.line, c.subrange(0, m.col) + c.subrange(w.col, c.len() as int))
                &&& d.line == m.line && d.col == m.col
                &&& m.last_action != Some(LastAction::Kill) ==> d.kill_ring == if c.subrange(m.col, w.col).len() == 0 {
                    m.kill_ring
                } else {
                    m.kill_ring.push(c.subrange(m.col, w.col))
                }
            }
            &&& m.col == c.len() && m.line + 1 < m.lines.len() ==> {
                &&& w.line == m.line + 1 && w.col == 0
                &&& d.lines == join_with_next(m.lines, m.line)
                &&& d.line == m.line && d.col == m.col
            }
        }),
{
}

/// The selected row of a select list shows what an unselected row shows, value and
/// description alike, with the arrow in place of the two leading spaces.
pub proof fn law_selected_row_shows_what_unselected_row_shows(width: nat, display: Seq<char>, desc: Option<Seq<char>>)
    ensures
        ({
            let (plain, styled) = unselected_parts(width, display, desc);
            &&& plain.subrange(0, 2) == seq![' ', ' ']
            &&& selected_text(width, display, desc) == seq!['\u{2192}', ' '] + plain.subrange(2, plain.len() as int)
                + match styled {
                Some(t) => t,
                None => Seq::empty(),
            }
        }),
{
    let (plain, styled) = unselected_parts(width, display, desc);
    assert(plain.subrange(0, 2) =~= seq![' ', ' ']);
    assert(selected_text(width, display, desc) =~= seq!['\u{2192}', ' '] + plain.subrange(2, plain.len() as int)
        + match styled {
        Some(t) => t,
        None => Seq::empty(),
    });
}

/// `b` is how `a` ends.
pub open spec fn ends_with(a: Seq<char>, b: Seq<char>) -> bool {
    a.len() >= b.len() && a.subrange(a.len() - b.len(), a.len() as int) == b
}

/// How many lines the items among `kids` take: each item as many as it renders to, and one
/// when it renders to none.
pub open spec fn list_line_total(kids: Seq<MdNode>, parts: Seq<Seq<Seq<char>>>) -> nat
    decreases kids.len(),
{
    if kids.len() == 0 {
        0
    } else {
        list_line_total(kids.drop_last(), parts.drop_last()) + if kids.last().kind is ListItem {
            if parts.last().len() == 0 {
                1nat
            } else {
                parts.last().len()
            }
        } else {
            0nat
        }
    }
}

/// The lines of the first `m` children come first.
proof fn lemma_list_compose_prefix(
    theme: MarkdownTheme,
    ordered: bool,
    start: Option<u32>,
    indent: Seq<char>,
    kids: Seq<MdNode>,
    parts: Seq<Seq<Seq<char>>>,
    m: int,
)
    requires
        parts.len() == kids.len(),
        0 <= m <= kids.len(),
    ensures
        ({
            let pre = list_compose(theme, ordered, start, indent, kids.take(m), parts.take(m));
            let all = list_compose(theme, ordered, start, indent, kids, parts);
            pre.len() <= all.len() && all.subrange(0, pre.len() as int) == pre
        }),
    decreases kids.len(),
{
    if m == kids.len() {
        assert(kids.take(m) =~= kids);
        assert(parts.take(m) =~= parts);
        let all = list_compose(theme, ordered, start, indent, kids, parts);
        assert(all.subrange(0, all.len() as int) =~= all);
    } else {
        lemma_list_compose_prefix(theme, ordered, start, indent, kids.drop_last(), parts.drop_last(), m);
        assert(kids.drop_last().take(m) =~= kids.take(m));
        assert(parts.drop_last().take(m) =~= parts.take(m));
        let pre = list_compose(theme, ordered, start, indent, kids.take(m), parts.take(m));
        let inner = list_compose(theme, ordered, start, indent, kids.drop_last(), parts.drop_last());
        let all = list_compose(theme, ordered, start, indent, kids, parts);
        assert(all.subrange(0, pre.len() as int) =~= inner.subrange(0, pre.len() as int));
    }
}

/// A list keeps every line its items render to, in order: the lines of child `j` follow
/// those of the children before it; an item takes as many lines as it renders to (one, its
/// bullet, when it renders to none), each of which ends with the item's own line; and the
/// list has exactly as many lines as its items take.
pub proof fn law_list_keeps_every_item_line(
    theme: MarkdownTheme,
    ordered: bool,
    start: Option<u32>,
    indent: Seq<char>,
    kids: Seq<MdNode>,
    parts: Seq<Seq<Seq<char>>>,
    j: int,
)
    requires
        parts.len() == kids.len(),
        0 <= j < kids.len(),
    ensures
        ({
            let all = list_compose(theme, ordered, start, indent, kids, parts);
            let pre = list_compose(theme, ordered, start, indent, kids.take(j), parts.take(j));
            let upto = list_compose(theme, ordered, start, indent, kids.take(j + 1), parts.take(j + 1));
            let p = parts[j];
            &&& all.len() == list_line_total(kids, parts)
            &&& all.subrange(0, pre.len() as int) == pre
            &&& upto.len() == pre.len() + if kids[j].kind is ListItem {
                if p.len() == 0 { 1nat } else { p.len() }
            } else {
                0nat
            }
            &&& kids[j].kind is ListItem ==> forall|k: int| 0 <= k < p.len() ==> ends_with(#[trigger] all[pre.len() + k], p[k])
            &&& kids[j].kind is ListItem && p.len() == 0 ==> all[pre.len() as int] == indent + theme.list_bullet.styled(
                list_bullet_text(ordered, start, j),
            )
        }),
{
    lemma_list_total(theme, ordered, start, indent, kids, parts);
    lemma_list_compose_prefix(theme, ordered, start, indent, kids, parts, j);
    lemma_list_compose_prefix(theme, ordered, start, indent, kids, parts, j + 1);
    let t = kids.take(j + 1);
    let pt = parts.take(j + 1);
    assert(t.drop_last() =~= kids.take(j));
    assert(pt.drop_last() =~= parts.take(j));
    assert(t.last() == kids[j]);
    assert(pt.last() == parts[j]);
    let all = list_compose(theme, ordered, start, indent, kids, parts);
    let pre = list_compose(theme, ordered, start, indent, kids.take(j), parts.take(j));
    let upto = list_compose(theme, ordered, start, indent, t, pt);
    let p = parts[j];
    if kids[j].kind is ListItem {
        let head = indent + theme.list_bullet.styled(list_bullet_text(ordered, start, j));
        let blk = item_block(indent, head, p);
        assert(upto == pre + blk);
        assert forall|k: int| 0 <= k < p.len() implies ends_with(#[trigger] all[pre.len() + k], p[k]) by {
            assert(all[pre.len() + k] == upto[pre.len() + k]);
            assert(upto[pre.len() + k] == blk[k]);
            if k == 0 {
                if !crate::widgets::md_layout::nested_list_line(p[0]) {
                    assert((head + p[0]).subrange(head.len() as int, (head + p[0]).len() as int) =~= p[0]);
                } else {
                    assert(p[0].subrange(0, p[0].len() as int) =~= p[0]);
                }
            } else {
                assert(blk[k] == item_rest_line(indent, p[k]));
                let l = p[k];
                if !crate::widgets::md_layout::nested_list_line(l) {
                    let full = indent + seq![' ', ' '] + l;
                    assert(full.subrange(full.len() - l.len(), full.len() as int) =~= l);
                } else {
                    assert(l.subrange(0, l.len() as int) =~= l);
                }
            }
        }
        if p.len() == 0 {
            assert(all[pre.len() as int] == upto[pre.len() as int]);
        }
    }
}

/// The list's length is the total of its items' lines.
proof fn lemma_list_total(
    theme: MarkdownTheme,
    ordered: bool,
    start: Option<u32>,
    indent: Seq<char>,
    kids: Seq<MdNode>,
    parts: Seq<Seq<Seq<char>>>,
)
    requires
        parts.len() == kids.len(),
    ensures
        list_compose(theme, ordered, start, indent, kids, parts).len() == list_line_total(kids, parts),
    decreases kids.len(),
{
    if kids.len() > 0 {
        lemma_list_total(theme, ordered, start, indent, kids.drop_last(), parts.drop_last());
    }
}

/// The settings list a search shows is exactly the settings whose label matches the whole
/// search text: a setting is listed if and only if its label matches, and nothing else is.
pub proof fn law_search_lists_exactly_matching(labels: Seq<Seq<char>>, query: Seq<char>)
    requires
        labels.len() <= usize::MAX,
    ensures
        forall|i: int| 0 <= i < labels.len() ==> (matching_indices(labels, query).contains(i as usize)
            <==> fuzzy_matches(labels[i], query)),
        forall|k: int| 0 <= k < matching_indices(labels, query).len() ==> {
            let i = #[trigger] matching_indices(labels, query)[k];
            i < labels.len() && fuzzy_matches(labels[i as int], query)
        },
{
    let all = Seq::new(labels.len(), |i: int| i as usize);
    let pred = |i: usize| fuzzy_matches(labels[i as int], query);
    let m = all.filter(pred);
    assert(m == matching_indices(labels, query));
    assert forall|k: int| 0 <= k < m.len() implies {
        let i = #[trigger] m[k];
        i < labels.len() && fuzzy_matches(labels[i as int], query)
    } by {
        all.lemma_filter_pred(pred, k);
        all.lemma_filter_contains_rev(pred, m[k]);
    }
    assert forall|i: int| 0 <= i < labels.len() implies (m.contains(i as usize) <==> fuzzy_matches(labels[i], query)) by {
        assert(all[i] == i as usize);
        if fuzzy_matches(labels[i], query) {
            all.lemma_filter_contains(pred, i);
        }
        if m.contains(i as usize) {
            let k = choose|k: int| 0 <= k < m.len() && m[k] == i as usize;
            all.lemma_filter_pred(pred, k);
        }
    }
}

/// What key `k` does in the single-line input with bindings `kb`: the first of the actions
/// the input knows that it is bound to, in the input's order of precedence (`None` for submit,
/// cancel and `shift+enter`, which leave value and cursor alone, and for unbound keys).
pub open spec fn input_key_action(kb: Seq<KeyBinding>, k: Seq<char>) -> Option<EditorAction> {
    if bound(kb, k, EditorAction::SelectCancel) || bound(kb, k, EditorAction::Submit) || k == shift_enter() {
        None
    } else if bound(kb, k, EditorAction::DeleteCharBackward) {
        Some(EditorAction::DeleteCharBackward)
    } else if bound(kb, k, EditorAction::DeleteCharForward) {
        Some(EditorAction::DeleteCharForward)
    } else if bound(kb, k, EditorAction::DeleteWordBackward) {
        Some(EditorAction::DeleteWordBackward)
    } else if bound(kb, k, EditorAction::DeleteToLineStart) {
        Some(EditorAction::DeleteToLineStart)
    } else if bound(kb, k, EditorAction::DeleteToLineEnd) {
        Some(EditorAction::DeleteToLineEnd)
    } else if bound(kb, k, EditorAction::CursorLeft) {
        Some(EditorAction::CursorLeft)
    } else if bound(kb, k, EditorAction::CursorRight) {
        Some(EditorAction::CursorRight)
    } else if bound(kb, k, EditorAction::CursorLineStart) {
        Some(EditorAction::CursorLineStart)
    } else if bound(kb, k, EditorAction::CursorLineEnd) {
        Some(EditorAction::CursorLineEnd)
    } else if bound(kb, k, EditorAction::CursorWordLeft) {
        Some(EditorAction::CursorWordLeft)
    } else if bound(kb, k, EditorAction::CursorWordRight) {
        Some(EditorAction::CursorWordRight)
    } else {
        None
    }
}

/// Each deletion of the single-line input removes exactly the text between the cursor and
/// where the matching move puts it: deleting backward (a character, a word, to the line
/// start) removes what lies between the move's target and the cursor and leaves the cursor
/// at the target; deleting a character forward removes what lies between the cursor and the
/// move's target and leaves the cursor. Moves leave the value alone.
pub proof fn law_input_deletions_follow_moves(
    kb: Seq<KeyBinding>,
    v: Seq<char>,
    c: int,
    del: Seq<char>,
    mv: Seq<char>,
)
    requires
        0 <= c <= v.len(),
    ensures
        input_key_action(kb, mv) matches Some(a) && (a == EditorAction::CursorLeft || a == EditorAction::CursorRight
            || a == EditorAction::CursorLineStart || a == EditorAction::CursorLineEnd || a == EditorAction::CursorWordLeft
            || a == EditorAction::CursorWordRight) ==> key_step(kb, v, c, mv).0 == v,
        input_key_action(kb, del) == Some(EditorAction::DeleteCharBackward) && input_key_action(kb, mv) == Some(
            EditorAction::CursorLeft,
        ) ==> ({
            let t = key_step(kb, v, c, mv).1;
            key_step(kb, v, c, del) == if c > 0 {
                (v.subrange(0, t) + v.subrange(c, v.len() as int), t)
            } else {
                (v, c)
            }
        }),
        input_key_action(kb, del) == Some(EditorAction::DeleteCharForward) && input_key_action(kb, mv) == Some(
            EditorAction::CursorRight,
        ) ==> ({
            let t = key_step(kb, v, c, mv).1;
            key_step(kb, v, c, del) == if c < v.len() {
                (v.subrange(0, c) + v.subrange(t, v.len() as int), c)
            } else {
                (v, c)
            }
        }),
        input_key_action(kb, del) == Some(EditorAction::DeleteWordBackward) && input_key_action(kb, mv) == Some(
            EditorAction::CursorWordLeft,
        ) ==> ({
            let t = key_step(kb, v, c, mv).1;
            key_step(kb, v, c, del) == if c > 0 {
                (v.subrange(0, t) + v.subrange(c, v.len() as int), t)
            } else {
                (v, c)
            }
        }),
        input_key_action(kb, del) == Some(EditorAction::DeleteToLineStart) && input_key_action(kb, mv) == Some(
            EditorAction::CursorLineStart,
        ) ==> ({
            let t = key_step(kb, v, c, mv).1;
            let (nv, nc) = key_step(kb, v, c, del);
            &&& nc == t
            &&& nv == v.subrange(c, v.len() as int)
            &&& insert_at(nv, nc, v.subrange(t, c)) == (v, c)
        }),
{
    if input_key_action(kb, del) == Some(EditorAction::DeleteToLineStart) && input_key_action(kb, mv) == Some(
        EditorAction::CursorLineStart,
    ) {
        let (nv, nc) = key_step(kb, v, c, del);
        assert(nv.subrange(0, 0) + v.subrange(0, c) + nv.subrange(0, nv.len() as int) =~= v);
    }
}

/// Each deletion of the editor removes exactly the text between the cursor and where the
/// matching move puts it, and the cursor ends where a backward move would have put it (or
/// stays, deleting forward): a character back (`move_left`), a character forward (a move one
/// to the right), a word back (`word_back`), to the line start and to the line end. At the
/// start of a line with a line before it, deleting a character back joins the two lines and
/// leaves the cursor where moving left would.
pub proof fn law_editor_deletions_follow_moves(m: EdModel)
    requires
        0 <= m.line < m.lines.len(),
        0 <= m.col <= cur(m).len(),
    ensures
        ({
            let c = cur(m);
            let upd = |l: Seq<char>| m.lines.update(m.line, l);
            &&& m.col > 0 ==> {
                let t = move_left(m).col;
                &&& move_left(m).line == m.line
                &&& backspace(m).lines == upd(c.subrange(0, t) + c.subrange(m.col, c.len() as int))
                &&& backspace(m).line == m.line && backspace(m).col == t
            }
            &&& m.col == 0 && m.line > 0 ==> {
                &&& backspace(m).lines == join_with_next(m.lines, m.line - 1)
                &&& backspace(m).line == move_left(m).line && backspace(m).col == move_left(m).col
            }
            &&& m.col < c.len() ==> {
                let t = move_cursor_by(m, 0, 1).col;
                &&& forward_delete(m).lines == upd(c.subrange(0, m.col) + c.subrange(t, c.len() as int))
                &&& forward_delete(m).line == m.line && forward_delete(m).col == m.col
            }
            &&& m.col > 0 ==> {
                let t = word_back(m).col;
                &&& word_back(m).line == m.line
                &&& delete_word_backward(m).lines == upd(c.subrange(0, t) + c.subrange(m.col, c.len() as int))
                &&& delete_word_backward(m).line == m.line && delete_word_backward(m).col == t
            }
            &&& m.col > 0 ==> {
                &&& line_start(m).col == 0
                &&& delete_to_line_start(m).lines == upd(c.subrange(m.col, c.len() as int))
                &&& delete_to_line_start(m).line == m.line && delete_to_line_start(m).col == line_start(m).col
            }
            &&& m.col < c.len() ==> {
                &&& delete_to_line_end(m).lines == upd(c.subrange(0, m.col))
                &&& delete_to_line_end(m).line == m.line && delete_to_line_end(m).col == m.col
                &&& line_end(m).col == c.len()
            }
        }),
{
    let c = cur(m);
    assert(c.subrange(0, c.len() as int) =~= c);
}

} // verus!
