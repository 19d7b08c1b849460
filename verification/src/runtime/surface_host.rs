//! The runtime's surface stack together with keyboard focus: showing, hiding and re-showing
//! surfaces, handing focus to capturing surfaces and back, and routing input.

use vstd::prelude::*;

use crate::chars::{chars_of, extend_chars, string_of};
use crate::digits::{decimal, decimal_chars_u64};
use crate::keys::{parse_events, parse_input_events, str_eq, EventView, InputEvent};
use crate::runtime::component_registry::{ComponentId, ComponentRegistry};
use crate::runtime::focus::FocusState;
use crate::runtime::overlay::OverlayId;
use crate::runtime::surface::{
    eligible, entry_policy, entry_visible, index_of_spec, topmost_eligible, SurfaceEntry, SurfaceId, SurfaceInputPolicy,
    SurfaceRouting, SurfaceState,
};
use crate::runtime::tui::{diagnostic_text, format_runtime_diagnostic};

verus! {

/// An `error` diagnostic line with `code` and `message`.
pub open spec fn error_diagnostic(code: Seq<char>, message: Seq<char>) -> Seq<char> {
    diagnostic_text("error"@, code, message)
}

/// The text of each diagnostic line.
pub open spec fn lines(v: Seq<String>) -> Seq<Seq<char>> {
    v.map_values(|s: String| s@)
}

/// Whether `c` names a registered component of a registry that has handed out `n` identifiers.
pub open spec fn registered(c: ComponentId, n: nat) -> bool {
    c.id() < n
}

/// Focus after asking to focus `target` while `focused` holds it: the new focus and the
/// diagnostics reported. A missing previous or target component leaves nothing focused.
pub open spec fn focus_step(focused: Option<ComponentId>, target: Option<ComponentId>, n: nat) -> (Option<ComponentId>, Seq<Seq<char>>) {
    if focused == target {
        (focused, seq![])
    } else if focused is Some && !registered(focused->0, n) {
        (None, seq![error_diagnostic("focus.missing_previous_component_id"@,
            "focused component id "@ + decimal(focused->0.id()) + " is missing"@)])
    } else {
        match target {
            None => (None, seq![]),
            Some(next) => if registered(next, n) {
                (Some(next), seq![])
            } else {
                (None, seq![error_diagnostic("focus.missing_target_component_id"@,
                    "focus target component id "@ + decimal(next.id()) + " is missing"@)])
            },
        }
    }
}

/// What moving focus from `focused` to `target` tells the components, with `n` registered:
/// nothing when focus stays or the focused component is missing; otherwise the focused one
/// hears it lost focus, then a registered target that it has it.
pub open spec fn focus_notices_step(focused: Option<ComponentId>, target: Option<ComponentId>, n: nat) -> Seq<(ComponentId, bool)> {
    if focused == target || (focused is Some && !registered(focused->0, n)) {
        seq![]
    } else {
        (match focused {
            Some(p) => seq![(p, false)],
            None => seq![],
        }) + (match target {
            Some(t) => if registered(t, n) {
                seq![(t, true)]
            } else {
                seq![]
            },
            None => seq![],
        })
    }
}

/// Focus after a capturing surface that held it went away: back to the component focused
/// before it when that is still registered, else to the topmost visible capturing surface,
/// else nowhere.
pub open spec fn restore_step(entries: Seq<SurfaceEntry>, focused: Option<ComponentId>, n: nat, columns: nat, rows: nat, pre_focus: Option<ComponentId>) -> (Option<ComponentId>, Seq<Seq<char>>) {
    if pre_focus is Some && registered(pre_focus->0, n) {
        focus_step(focused, pre_focus, n)
    } else {
        focus_step(focused, topmost_eligible(entries, entries.len() as int, columns, rows, true), n)
    }
}

/// The outcome of a surface command: the stack, the focus, the diagnostics reported and the
/// command's result.
pub struct HostStep {
    pub entries: Seq<SurfaceEntry>,
    pub focus: Option<ComponentId>,
    pub diagnostics: Seq<Seq<char>>,
    pub done: bool,
}

/// Showing `component` on a new top surface `surface_id`. A capturing surface that is visible
/// right away takes focus; it remembers what was focused before (unless that was itself).
pub open spec fn show_step(entries: Seq<SurfaceEntry>, focused: Option<ComponentId>, n: nat, columns: nat, rows: nat, surface_id: SurfaceId, component: ComponentId, options: Option<SurfaceRouting>, hidden: bool, code: Seq<char>, label: Seq<char>) -> HostStep {
    if !registered(component, n) {
        HostStep {
            entries,
            focus: focused,
            diagnostics: seq![error_diagnostic(code, label + " references missing component id "@ + decimal(component.id()))],
            done: false,
        }
    } else {
        let e = SurfaceEntry {
            id: surface_id,
            component_id: component,
            options,
            pre_focus: if focused == Some(component) { None } else { focused },
            hidden,
        };
        if !hidden && entry_policy(e) == SurfaceInputPolicy::Capture && entry_visible(e, columns, rows) {
            let f = focus_step(focused, Some(component), n);
            HostStep { entries: entries.push(e), focus: f.0, diagnostics: f.1, done: true }
        } else {
            HostStep { entries: entries.push(e), focus: focused, diagnostics: seq![], done: true }
        }
    }
}

/// The diagnostic for a command on a surface id that is not in the stack.
pub open spec fn missing_id_step(entries: Seq<SurfaceEntry>, focused: Option<ComponentId>, surface_id: SurfaceId, code: Seq<char>, label: Seq<char>) -> HostStep {
    HostStep {
        entries,
        focus: focused,
        diagnostics: seq![error_diagnostic(code, label + " references missing id "@ + decimal(surface_id.id()))],
        done: false,
    }
}

/// Removing surface `surface_id`; when it captured input and held focus, focus is restored.
pub open spec fn hide_step(entries: Seq<SurfaceEntry>, focused: Option<ComponentId>, n: nat, columns: nat, rows: nat, surface_id: SurfaceId, code: Seq<char>, label: Seq<char>) -> HostStep {
    match index_of_spec(entries, surface_id) {
        None => missing_id_step(entries, focused, surface_id, code, label),
        Some(i) => {
            let removed = entries[i];
            let rest = entries.remove(i);
            if entry_policy(removed) == SurfaceInputPolicy::Capture && focused == Some(removed.component_id) {
                let f = restore_step(rest, focused, n, columns, rows, removed.pre_focus);
                HostStep { entries: rest, focus: f.0, diagnostics: f.1, done: true }
            } else {
                HostStep { entries: rest, focus: focused, diagnostics: seq![], done: true }
            }
        },
    }
}

/// `e` with its hidden flag and remembered focus replaced.
pub open spec fn with_hidden(e: SurfaceEntry, hidden: bool, pre_focus: Option<ComponentId>) -> SurfaceEntry {
    SurfaceEntry { id: e.id, component_id: e.component_id, options: e.options, pre_focus, hidden }
}

/// Hiding or showing again surface `surface_id`. Hiding a focused capturing surface restores
/// focus; showing one again moves it to the top, remembers the current focus (unless that is
/// itself) and focuses it when it captures input and is visible. Asking for the state it is
/// already in changes nothing and answers `false`.
pub open spec fn set_hidden_step(entries: Seq<SurfaceEntry>, focused: Option<ComponentId>, n: nat, columns: nat, rows: nat, surface_id: SurfaceId, hidden: bool, code: Seq<char>, label: Seq<char>) -> HostStep {
    match index_of_spec(entries, surface_id) {
        None => missing_id_step(entries, focused, surface_id, code, label),
        Some(i) => {
            let e = entries[i];
            if e.hidden == hidden {
                HostStep { entries, focus: focused, diagnostics: seq![], done: false }
            } else if hidden {
                let rest = entries.update(i, with_hidden(e, true, e.pre_focus));
                if entry_policy(e) == SurfaceInputPolicy::Capture && focused == Some(e.component_id) {
                    let f = restore_step(rest, focused, n, columns, rows, e.pre_focus);
                    HostStep { entries: rest, focus: f.0, diagnostics: f.1, done: true }
                } else {
                    HostStep { entries: rest, focus: focused, diagnostics: seq![], done: true }
                }
            } else {
                let shown = with_hidden(e, false, if focused != Some(e.component_id) { focused } else { e.pre_focus });
                let rest = entries.remove(i).push(shown);
                if entry_policy(shown) == SurfaceInputPolicy::Capture && entry_visible(shown, columns, rows) {
                    let f = focus_step(focused, Some(e.component_id), n);
                    HostStep { entries: rest, focus: f.0, diagnostics: f.1, done: true }
                } else {
                    HostStep { entries: rest, focus: focused, diagnostics: seq![], done: true }
                }
            }
        },
    }
}

/// Replacing the options of surface `surface_id`.
pub open spec fn update_options_step(entries: Seq<SurfaceEntry>, focused: Option<ComponentId>, surface_id: SurfaceId, options: Option<SurfaceRouting>) -> HostStep {
    match index_of_spec(entries, surface_id) {
        None => HostStep {
            entries,
            focus: focused,
            diagnostics: seq![error_diagnostic("command.update_surface_options.missing_surface_id"@,
                "update surface options references missing surface id "@ + decimal(surface_id.id()))],
            done: false,
        },
        Some(i) => {
            let e = entries[i];
            HostStep {
                entries: entries.update(i, SurfaceEntry { id: e.id, component_id: e.component_id, options, pre_focus: e.pre_focus, hidden: e.hidden }),
                focus: focused,
                diagnostics: seq![],
                done: true,
            }
        },
    }
}

/// Index of the topmost of the first `k` entries whose component is `c`.
pub open spec fn last_with_component(s: Seq<SurfaceEntry>, k: int, c: ComponentId) -> Option<int>
    decreases k,
{
    if k <= 0 || k > s.len() {
        None
    } else if s[k - 1].component_id == c {
        Some(k - 1)
    } else {
        last_with_component(s, k - 1, c)
    }
}

/// Focus after the stack or the terminal size changed: the topmost visible capturing surface
/// takes it; else a focused surface component gives it back as if it were hidden; a focused
/// component that is no longer registered loses it.
pub open spec fn reconcile_step(entries: Seq<SurfaceEntry>, focused: Option<ComponentId>, n: nat, columns: nat, rows: nat) -> (Option<ComponentId>, Seq<Seq<char>>) {
    let top = topmost_eligible(entries, entries.len() as int, columns, rows, true);
    if top is Some {
        focus_step(focused, top, n)
    } else {
        match focused {
            None => (None, seq![]),
            Some(c) => match last_with_component(entries, entries.len() as int, c) {
                Some(k) => restore_step(entries, focused, n, columns, rows, entries[k].pre_focus),
                None => if registered(c, n) { (focused, seq![]) } else { (None, seq![]) },
            },
        }
    }
}

/// Every surface shows a registered component, and the focused component is registered.
pub open spec fn host_wf(entries: Seq<SurfaceEntry>, focused: Option<ComponentId>, n: nat) -> bool {
    &&& forall|k: int| 0 <= k < entries.len() ==> registered(#[trigger] entries[k].component_id, n)
    &&& (focused is Some ==> registered(focused->0, n))
}

/// What `topmost_eligible` picks is the component of an eligible entry among the first `k`.
pub proof fn lemma_topmost_eligible_entry(s: Seq<SurfaceEntry>, k: int, columns: nat, rows: nat, capture_only: bool)
    ensures
        topmost_eligible(s, k, columns, rows, capture_only) matches Some(c) ==> exists|j: int|
            0 <= j < k && j < s.len() && #[trigger] s[j].component_id == c && eligible(s[j], columns, rows, capture_only),
    decreases k,
{
    if k > 0 && k <= s.len() && !eligible(s[k - 1], columns, rows, capture_only) {
        lemma_topmost_eligible_entry(s, k - 1, columns, rows, capture_only);
    }
}

/// Between registered components, focus moves exactly as asked and nothing is reported.
pub proof fn lemma_focus_step_registered(focused: Option<ComponentId>, target: Option<ComponentId>, n: nat)
    requires
        focused is Some ==> registered(focused->0, n),
        target is Some ==> registered(target->0, n),
    ensures
        focus_step(focused, target, n) == (target, Seq::<Seq<char>>::empty()),
{
    assert(seq![] =~= Seq::<Seq<char>>::empty());
}

/// In a well-formed host, focus goes back to the remembered component when it is registered,
/// else to the topmost visible capturing surface, and nothing is reported.
pub proof fn lemma_restore_step_registered(entries: Seq<SurfaceEntry>, focused: Option<ComponentId>, n: nat, columns: nat, rows: nat, pre_focus: Option<ComponentId>)
    requires
        host_wf(entries, focused, n),
    ensures
        restore_step(entries, focused, n, columns, rows, pre_focus) == (
            if pre_focus is Some && registered(pre_focus->0, n) {
                pre_focus
            } else {
                topmost_eligible(entries, entries.len() as int, columns, rows, true)
            },
            Seq::<Seq<char>>::empty(),
        ),
{
    if pre_focus is Some && registered(pre_focus->0, n) {
        lemma_focus_step_registered(focused, pre_focus, n);
    } else {
        let top = topmost_eligible(entries, entries.len() as int, columns, rows, true);
        lemma_topmost_eligible_entry(entries, entries.len() as int, columns, rows, true);
        if top is Some {
            let j = choose|j: int| 0 <= j < entries.len() && #[trigger] entries[j].component_id == top->0
                && eligible(entries[j], columns, rows, true);
            assert(registered(entries[j].component_id, n));
        }
        lemma_focus_step_registered(focused, top, n);
    }
}

/// The key chord that the runtime keeps for its debug hook instead of routing it.
pub open spec fn is_debug_chord(e: EventView) -> bool {
    e == EventView::Key("ctrl+shift+d"@)
}

/// How many debug chords `evs` holds.
pub open spec fn debug_chords(evs: Seq<EventView>) -> nat
    decreases evs.len(),
{
    if evs.len() == 0 {
        0
    } else {
        debug_chords(evs.drop_last()) + if is_debug_chord(evs.last()) { 1nat } else { 0nat }
    }
}

/// The events of `evs` that reach `target`, in order: all but the debug chords, and of the
/// key releases those for which `wants` (one answer per event) holds.
pub open spec fn deliveries(target: ComponentId, evs: Seq<EventView>, wants: Seq<bool>) -> Seq<(ComponentId, EventView)>
    decreases evs.len(),
{
    if evs.len() == 0 {
        Seq::empty()
    } else {
        let e = evs.last();
        deliveries(target, evs.drop_last(), wants) + if !is_debug_chord(e) && (!(e is Release) || wants[evs.len() - 1]) {
            seq![(target, e)]
        } else {
            Seq::empty()
        }
    }
}

/// Only the answers for the events of `evs` count.
pub proof fn lemma_deliveries_prefix(target: ComponentId, evs: Seq<EventView>, a: Seq<bool>, b: Seq<bool>)
    requires
        evs.len() <= a.len(),
        evs.len() <= b.len(),
        forall|i: int| 0 <= i < evs.len() ==> a[i] == b[i],
    ensures
        deliveries(target, evs, a) == deliveries(target, evs, b),
    decreases evs.len(),
{
    if evs.len() > 0 {
        lemma_deliveries_prefix(target, evs.drop_last(), a, b);
    }
}

/// What routing a piece of raw input did: the component that received its events, whether
/// any event was handed to it, and how many debug chords the runtime kept for itself.
pub struct InputDispatch {
    pub target: Option<ComponentId>,
    pub consumed: bool,
    pub debug_chords: usize,
}

/// `prefix`, the decimal digits of `n`, then `suffix`, as a `String`.
fn message_with_number(prefix: &str, n: u64, suffix: &str) -> (r: String)
    ensures
        r@ == prefix@ + decimal(n as nat) + suffix@,
{
    let mut v = chars_of(prefix);
    extend_chars(&mut v, decimal_chars_u64(n).as_slice());
    extend_chars(&mut v, chars_of(suffix).as_slice());
    string_of(v.as_slice())
}

/// `label`, then `middle`, then the decimal digits of `n`, as a `String`.
fn labelled_message(label: &str, middle: &str, n: u64) -> (r: String)
    ensures
        r@ == label@ + middle@ + decimal(n as nat),
{
    let mut v = chars_of(label);
    extend_chars(&mut v, chars_of(middle).as_slice());
    extend_chars(&mut v, decimal_chars_u64(n).as_slice());
    string_of(v.as_slice())
}

/// Surfaces in z-order and the focused component, kept together so that focus follows
/// capturing surfaces as they come and go.
pub struct SurfaceHost {
    stack: SurfaceState,
    focused: Option<ComponentId>,
}

impl SurfaceHost {
    pub closed spec fn focus(&self) -> Option<ComponentId> {
        self.focused
    }

    /// The surfaces, bottom to top.
    pub closed spec fn entries(&self) -> Seq<SurfaceEntry> {
        self.stack.entries@
    }

    pub fn new() -> (r: Self)
        ensures
            r.focus() is None,
            r.entries() == Seq::<SurfaceEntry>::empty(),
    {
        SurfaceHost { stack: SurfaceState::new(), focused: None }
    }

    /// The focused component, if any.
    pub fn focused(&self) -> (r: Option<ComponentId>)
        ensures
            r == self.focus(),
    {
        self.focused
    }

    /// The surface stack.
    pub fn surfaces(&self) -> (r: &SurfaceState)
        ensures
            r.entries@ == self.entries(),
    {
        &self.stack
    }

    /// Shows `component` on a new top surface; a capturing surface that is visible takes focus.
    pub fn show_surface(&mut self, registry: &mut ComponentRegistry, surface_id: SurfaceId, component: ComponentId, options: Option<SurfaceRouting>, hidden: bool, columns: usize, rows: usize, diagnostics: &mut Vec<String>) -> (r: bool)
        requires
            old(registry).wf(),
        ensures
            ({
                let s = show_step(old(self).entries(), old(self).focus(), old(registry).count(), columns as nat, rows as nat,
                    surface_id, component, options, hidden, "command.show_surface.missing_component_id"@, "show surface"@);
                &&& r == s.done
                &&& final(self).entries() == s.entries
                &&& final(self).focus() == s.focus
                &&& lines(final(diagnostics)@) == lines(old(diagnostics)@) + s.diagnostics
            }),
            final(registry).wf(),
            final(registry).count() == old(registry).count(),
    {
        self.show_surface_internal(registry, surface_id, component, options, hidden, columns, rows, "command.show_surface.missing_component_id", "show surface", diagnostics)
    }

    /// Shows `component` as overlay `overlay_id`, the surface with the same number.
    pub fn show_overlay(&mut self, registry: &mut ComponentRegistry, overlay_id: OverlayId, component: ComponentId, options: Option<SurfaceRouting>, hidden: bool, columns: usize, rows: usize, diagnostics: &mut Vec<String>) -> (r: bool)
        requires
            old(registry).wf(),
        ensures
            ({
                let s = show_step(old(self).entries(), old(self).focus(), old(registry).count(), columns as nat, rows as nat,
                    SurfaceId::with_id(overlay_id.id()), component, options, hidden, "command.show_overlay.missing_component_id"@, "show overlay"@);
                &&& r == s.done
                &&& final(self).entries() == s.entries
                &&& final(self).focus() == s.focus
                &&& lines(final(diagnostics)@) == lines(old(diagnostics)@) + s.diagnostics
            }),
            final(registry).wf(),
            final(registry).count() == old(registry).count(),
    {
        self.show_surface_internal(registry, SurfaceId::from_raw(overlay_id.raw()), component, options, hidden, columns, rows, "command.show_overlay.missing_component_id", "show overlay", diagnostics)
    }

    /// Removes surface `surface_id`, restoring focus when it held it.
    pub fn hide_surface(&mut self, registry: &mut ComponentRegistry, surface_id: SurfaceId, columns: usize, rows: usize, diagnostics: &mut Vec<String>) -> (r: bool)
        requires
            old(registry).wf(),
        ensures
            ({
                let s = hide_step(old(self).entries(), old(self).focus(), old(registry).count(), columns as nat, rows as nat,
                    surface_id, "command.hide_surface.missing_surface_id"@, "hide surface"@);
                &&& r == s.done
                &&& final(self).entries() == s.entries
                &&& final(self).focus() == s.focus
                &&& lines(final(diagnostics)@) == lines(old(diagnostics)@) + s.diagnostics
            }),
            final(registry).wf(),
            final(registry).count() == old(registry).count(),
    {
        self.hide_surface_internal(registry, surface_id, columns, rows, "command.hide_surface.missing_surface_id", "hide surface", diagnostics)
    }

    /// Removes overlay `overlay_id`, restoring focus when it held it.
    pub fn hide_overlay(&mut self, registry: &mut ComponentRegistry, overlay_id: OverlayId, columns: usize, rows: usize, diagnostics: &mut Vec<String>) -> (r: bool)
        requires
            old(registry).wf(),
        ensures
            ({
                let s = hide_step(old(self).entries(), old(self).focus(), old(registry).count(), columns as nat, rows as nat,
                    SurfaceId::with_id(overlay_id.id()), "command.hide_overlay.missing_overlay_id"@, "hide overlay"@);
                &&& r == s.done
                &&& final(self).entries() == s.entries
                &&& final(self).focus() == s.focus
                &&& lines(final(diagnostics)@) == lines(old(diagnostics)@) + s.diagnostics
            }),
            final(registry).wf(),
            final(registry).count() == old(registry).count(),
    {
        self.hide_surface_internal(registry, SurfaceId::from_raw(overlay_id.raw()), columns, rows, "command.hide_overlay.missing_overlay_id", "hide overlay", diagnostics)
    }

    /// Hides surface `surface_id` or shows it again on top.
    pub fn set_surface_hidden(&mut self, registry: &mut ComponentRegistry, surface_id: SurfaceId, hidden: bool, columns: usize, rows: usize, diagnostics: &mut Vec<String>) -> (r: bool)
        requires
            old(registry).wf(),
        ensures
            ({
                let s = set_hidden_step(old(self).entries(), old(self).focus(), old(registry).count(), columns as nat, rows as nat,
                    surface_id, hidden, "command.set_surface_hidden.missing_surface_id"@, "set surface hidden"@);
                &&& r == s.done
                &&& final(self).entries() == s.entries
                &&& final(self).focus() == s.focus
                &&& lines(final(diagnostics)@) == lines(old(diagnostics)@) + s.diagnostics
            }),
            final(registry).wf(),
            final(registry).count() == old(registry).count(),
    {
        self.set_surface_hidden_internal(registry, surface_id, hidden, columns, rows, "command.set_surface_hidden.missing_surface_id", "set surface hidden", diagnostics)
    }

    /// Hides overlay `overlay_id` or shows it again on top.
    pub fn set_overlay_hidden(&mut self, registry: &mut ComponentRegistry, overlay_id: OverlayId, hidden: bool, columns: usize, rows: usize, diagnostics: &mut Vec<String>) -> (r: bool)
        requires
            old(registry).wf(),
        ensures
            ({
                let s = set_hidden_step(old(self).entries(), old(self).focus(), old(registry).count(), columns as nat, rows as nat,
                    SurfaceId::with_id(overlay_id.id()), hidden, "command.set_overlay_hidden.missing_overlay_id"@, "set overlay hidden"@);
                &&& r == s.done
                &&& final(self).entries() == s.entries
                &&& final(self).focus() == s.focus
                &&& lines(final(diagnostics)@) == lines(old(diagnostics)@) + s.diagnostics
            }),
            final(registry).wf(),
            final(registry).count() == old(registry).count(),
    {
        self.set_surface_hidden_internal(registry, SurfaceId::from_raw(overlay_id.raw()), hidden, columns, rows, "command.set_overlay_hidden.missing_overlay_id", "set overlay hidden", diagnostics)
    }

    /// Focuses `target` (reporting it when it is not registered).
    pub fn set_focus(&mut self, registry: &mut ComponentRegistry, target: ComponentId, diagnostics: &mut Vec<String>)
        requires
            old(registry).wf(),
        ensures
            final(self).focus() == focus_step(old(self).focus(), Some(target), old(registry).count()).0,
            lines(final(diagnostics)@) == lines(old(diagnostics)@) + focus_step(old(self).focus(), Some(target), old(registry).count()).1,
            final(self).entries() == old(self).entries(),
            final(registry).focus_notices() == old(registry).focus_notices() + focus_notices_step(
                old(self).focus(),
                Some(target),
                old(registry).count(),
            ),
            final(registry).handed_events() == old(registry).handed_events(),
            final(registry).wf(),
            final(registry).count() == old(registry).count(),
    {
        self.set_focused(registry, Some(target), diagnostics);
    }

    /// Removes focus.
    pub fn clear_focus(&mut self, registry: &mut ComponentRegistry, diagnostics: &mut Vec<String>)
        requires
            old(registry).wf(),
        ensures
            final(self).focus() == focus_step(old(self).focus(), None, old(registry).count()).0,
            lines(final(diagnostics)@) == lines(old(diagnostics)@) + focus_step(old(self).focus(), None, old(registry).count()).1,
            final(self).entries() == old(self).entries(),
            final(registry).focus_notices() == old(registry).focus_notices() + focus_notices_step(
                old(self).focus(),
                None,
                old(registry).count(),
            ),
            final(registry).handed_events() == old(registry).handed_events(),
            final(registry).wf(),
            final(registry).count() == old(registry).count(),
    {
        self.set_focused(registry, None, diagnostics);
    }

    /// Parses raw terminal input and hands each event to the active input target, keeping the
    /// debug chord back; key releases go only to a target that asks for them. A target that is no longer registered receives nothing and loses focus.
    pub fn dispatch_input(&mut self, registry: &mut ComponentRegistry, data: &str, columns: usize, rows: usize, kitty_protocol_active: bool) -> (r: InputDispatch)
        requires
            old(registry).wf(),
        ensures
            ({
                let evs = parse_events(data@);
                let t = match topmost_eligible(old(self).entries(), old(self).entries().len() as int, columns as nat, rows as nat, true) {
                    Some(c) => Some(c),
                    None => old(self).focus(),
                };
                if evs.len() == 0 || t is None {
                    &&& r.target is None && !r.consumed && r.debug_chords == 0 && final(self).focus() == old(self).focus()
                } else if !registered(t->0, old(registry).count()) {
                    &&& r.target is None && !r.consumed && r.debug_chords == 0
                    &&& final(self).focus() == if old(self).focus() == t { None } else { old(self).focus() }
                } else {
                    &&& r.target == t
                    &&& r.consumed ==> exists|i: int| 0 <= i < evs.len() && !is_debug_chord(#[trigger] evs[i])
                &&& (exists|i: int| 0 <= i < evs.len() && !is_debug_chord(#[trigger] evs[i]) && !(evs[i] is Release))
                    ==> r.consumed
                    &&& r.debug_chords == debug_chords(evs)
                    &&& final(self).focus() == old(self).focus()
                }
            }),
            r.target is None ==> final(registry).handed_events() == old(registry).handed_events(),
            r.target matches Some(t) ==> exists|wants: Seq<bool>|
                #![trigger deliveries(t, parse_events(data@), wants)]
                wants.len() == parse_events(data@).len() && final(registry).handed_events()
                    == old(registry).handed_events() + deliveries(t, parse_events(data@), wants),
            final(self).entries() == old(self).entries(),
            final(registry).focus_notices() == old(registry).focus_notices(),
            final(registry).wf(),
            final(registry).count() == old(registry).count(),
    {
        let events = parse_input_events(data, kitty_protocol_active);
        let ghost evs = parse_events(data@);
        if events.len() == 0 {
            return InputDispatch { target: None, consumed: false, debug_chords: 0 };
        }
        let target = match self.active_input_target(columns, rows) {
            Some(t) => t,
            None => return InputDispatch { target: None, consumed: false, debug_chords: 0 },
        };
        if !registry.contains(target) {
            if self.focused == Some(target) {
                self.focused = None;
            }
            return InputDispatch { target: None, consumed: false, debug_chords: 0 };
        }
        let mut consumed = false;
        let mut debug: usize = 0;
        let mut i: usize = 0;
        let ghost start = registry.handed_events();
        let ghost notices = registry.focus_notices();
        let ghost mut wants: Seq<bool> = Seq::empty();
        assert(evs.take(0) =~= Seq::<EventView>::empty());
        while i < events.len()
            invariant
                registry.wf(),
                registry.count() == old(registry).count(),
                target.id() < registry.count(),
                registry.focus_notices() == notices,
                events@.map_values(|e: InputEvent| e@) == evs,
                i <= events@.len(),
                wants.len() == i,
                registry.handed_events() == start + deliveries(target, evs.take(i as int), wants),
                debug <= i,
                debug == debug_chords(evs.take(i as int)),
                consumed ==> exists|j: int| 0 <= j < i && !is_debug_chord(#[trigger] evs[j]),
                (exists|j: int| 0 <= j < i && !is_debug_chord(#[trigger] evs[j]) && !(evs[j] is Release)) ==> consumed,
            decreases events@.len() - i,
        {
            let is_debug = match &events[i] {
                InputEvent::Key { key_id } => str_eq(key_id.as_str(), "ctrl+shift+d"),
                _ => false,
            };
            assert(evs[i as int] == events@[i as int]@);
            assert(evs.take(i + 1 as int).drop_last() =~= evs.take(i as int));
            let ghost before = registry.handed_events();
            let ghost prev_wants = wants;
            if is_debug {
                debug += 1;
                proof {
                    wants = wants.push(false);
                }
            } else {
                let deliver = match &events[i] {
                    InputEvent::KeyRelease { .. } => registry.wants_key_release(target),
                    _ => true,
                };
                proof {
                    wants = wants.push(deliver);
                }
                if deliver {
                    registry.hand_event(target, &events[i]);
                    consumed = true;
                }
            }
            proof {
                let next = evs.take(i + 1 as int);
                assert(next.last() == evs[i as int]);
                assert(wants[i as int] == wants.last());
                assert(deliveries(target, evs.take(i as int), wants) == deliveries(target, evs.take(i as int), prev_wants)) by {
                    lemma_deliveries_prefix(target, evs.take(i as int), prev_wants, wants);
                }
                assert(registry.handed_events() =~= start + deliveries(target, next, wants));
            }
            i += 1;
        }
        assert(evs.take(events@.len() as int) =~= evs);
        assert(registry.handed_events() == start + deliveries(target, evs, wants));
        InputDispatch { target: Some(target), consumed, debug_chords: debug }
    }

    /// Gives focus back after a capturing surface that held it went away.
    fn restore_focus_after_loss(&mut self, registry: &mut ComponentRegistry, pre_focus: Option<ComponentId>, columns: usize, rows: usize, diagnostics: &mut Vec<String>)
        requires
            old(registry).wf(),
        ensures
            final(self).focus() == restore_step(old(self).entries(), old(self).focus(), old(registry).count(), columns as nat, rows as nat, pre_focus).0,
            lines(final(diagnostics)@) == lines(old(diagnostics)@)
                + restore_step(old(self).entries(), old(self).focus(), old(registry).count(), columns as nat, rows as nat, pre_focus).1,
            final(self).entries() == old(self).entries(),
            final(registry).wf(),
            final(registry).count() == old(registry).count(),
    {
        match pre_focus {
            Some(p) => {
                if registry.contains(p) {
                    self.set_focused(registry, pre_focus, diagnostics);
                    return;
                }
            },
            None => {},
        }
        let top = self.stack.topmost_visible_component(columns, rows, true);
        self.set_focused(registry, top, diagnostics);
    }

    fn show_surface_internal(&mut self, registry: &mut ComponentRegistry, surface_id: SurfaceId, component: ComponentId, options: Option<SurfaceRouting>, hidden: bool, columns: usize, rows: usize, missing_component_code: &str, action_label: &str, diagnostics: &mut Vec<String>) -> (r: bool)
        requires
            old(registry).wf(),
        ensures
            ({
                let s = show_step(old(self).entries(), old(self).focus(), old(registry).count(), columns as nat, rows as nat,
                    surface_id, component, options, hidden, missing_component_code@, action_label@);
                &&& r == s.done
                &&& final(self).entries() == s.entries
                &&& final(self).focus() == s.focus
                &&& lines(final(diagnostics)@) == lines(old(diagnostics)@) + s.diagnostics
            }),
            final(registry).wf(),
            final(registry).count() == old(registry).count(),
    {
        let ghost before = diagnostics@;
        if !registry.contains(component) {
            let line = format_runtime_diagnostic("error", missing_component_code,
                labelled_message(action_label, " references missing component id ", component.raw()).as_str());
            diagnostics.push(line);
            assert(lines(diagnostics@) =~= lines(before).push(line@));
            return false;
        }
        let pre_focus = if self.focused == Some(component) {
            None
        } else {
            self.focused
        };
        let entry = SurfaceEntry { id: surface_id, component_id: component, options, pre_focus, hidden };
        self.stack.entries.push(entry);
        if !hidden && entry.input_policy() == SurfaceInputPolicy::Capture && entry.is_visible(columns, rows) {
            self.set_focused(registry, Some(component), diagnostics);
        } else {
            assert(lines(diagnostics@) =~= lines(before) + seq![]);
        }
        true
    }

    fn hide_surface_internal(&mut self, registry: &mut ComponentRegistry, surface_id: SurfaceId, columns: usize, rows: usize, missing_id_code: &str, action_label: &str, diagnostics: &mut Vec<String>) -> (r: bool)
        requires
            old(registry).wf(),
        ensures
            ({
                let s = hide_step(old(self).entries(), old(self).focus(), old(registry).count(), columns as nat, rows as nat,
                    surface_id, missing_id_code@, action_label@);
                &&& r == s.done
                &&& final(self).entries() == s.entries
                &&& final(self).focus() == s.focus
                &&& lines(final(diagnostics)@) == lines(old(diagnostics)@) + s.diagnostics
            }),
            final(registry).wf(),
            final(registry).count() == old(registry).count(),
    {
        let ghost before = diagnostics@;
        let index = match self.stack.index_of(surface_id) {
            Some(i) => i,
            None => {
                let line = format_runtime_diagnostic("error", missing_id_code,
                    labelled_message(action_label, " references missing id ", surface_id.raw()).as_str());
                diagnostics.push(line);
                assert(lines(diagnostics@) =~= lines(before).push(line@));
                return false;
            },
        };
        let removed = self.stack.entries.remove(index);
        if removed.input_policy() == SurfaceInputPolicy::Capture && self.focused == Some(removed.component_id) {
            self.restore_focus_after_loss(registry, removed.pre_focus, columns, rows, diagnostics);
        } else {
            assert(lines(diagnostics@) =~= lines(before) + seq![]);
        }
        true
    }

    fn set_surface_hidden_internal(&mut self, registry: &mut ComponentRegistry, surface_id: SurfaceId, hidden: bool, columns: usize, rows: usize, missing_id_code: &str, action_label: &str, diagnostics: &mut Vec<String>) -> (r: bool)
        requires
            old(registry).wf(),
        ensures
            ({
                let s = set_hidden_step(old(self).entries(), old(self).focus(), old(registry).count(), columns as nat, rows as nat,
                    surface_id, hidden, missing_id_code@, action_label@);
                &&& r == s.done
                &&& final(self).entries() == s.entries
                &&& final(self).focus() == s.focus
                &&& lines(final(diagnostics)@) == lines(old(diagnostics)@) + s.diagnostics
            }),
            final(registry).wf(),
            final(registry).count() == old(registry).count(),
    {
        let ghost before = diagnostics@;
        let index = match self.stack.index_of(surface_id) {
            Some(i) => i,
            None => {
                let line = format_runtime_diagnostic("error", missing_id_code,
                    labelled_message(action_label, " references missing id ", surface_id.raw()).as_str());
                diagnostics.push(line);
                assert(lines(diagnostics@) =~= lines(before).push(line@));
                return false;
            },
        };
        let e = self.stack.entries[index];
        if e.hidden == hidden {
            assert(lines(diagnostics@) =~= lines(before) + seq![]);
            return false;
        }
        if hidden {
            let mut h = e;
            h.hidden = true;
            self.stack.entries.set(index, h);
            if e.input_policy() == SurfaceInputPolicy::Capture && self.focused == Some(e.component_id) {
                self.restore_focus_after_loss(registry, e.pre_focus, columns, rows, diagnostics);
            } else {
                assert(lines(diagnostics@) =~= lines(before) + seq![]);
            }
            return true;
        }
        let current = self.focused;
        let mut shown = e;
        shown.hidden = false;
        if current != Some(e.component_id) {
            shown.pre_focus = current;
        }
        self.stack.entries.remove(index);
        self.stack.entries.push(shown);
        if shown.input_policy() == SurfaceInputPolicy::Capture && shown.is_visible(columns, rows) {
            self.set_focused(registry, Some(e.component_id), diagnostics);
        } else {
            assert(lines(diagnostics@) =~= lines(before) + seq![]);
        }
        true
    }

    /// Replaces the options of surface `surface_id`; reports a missing surface.
    pub fn update_surface_options(&mut self, surface_id: SurfaceId, options: Option<SurfaceRouting>, diagnostics: &mut Vec<String>) -> (r: bool)
        ensures
            ({
                let s = update_options_step(old(self).entries(), old(self).focus(), surface_id, options);
                &&& r == s.done
                &&& final(self).entries() == s.entries
                &&& final(self).focus() == s.focus
                &&& lines(final(diagnostics)@) == lines(old(diagnostics)@) + s.diagnostics
            }),
    {
        let ghost before = diagnostics@;
        let index = match self.stack.index_of(surface_id) {
            Some(i) => i,
            None => {
                let line = format_runtime_diagnostic("error", "command.update_surface_options.missing_surface_id",
                    message_with_number("update surface options references missing surface id ", surface_id.raw(), "").as_str());
                diagnostics.push(line);
                assert(lines(diagnostics@) =~= lines(before).push(line@));
                proof {
                    assert(("update surface options references missing surface id "@ + decimal(surface_id.id())) + ""@
                        =~= "update surface options references missing surface id "@ + decimal(surface_id.id())) by {
                        reveal_strlit("");
                    }
                }
                return false;
            },
        };
        let mut e = self.stack.entries[index];
        e.options = options;
        self.stack.entries.set(index, e);
        assert(lines(diagnostics@) =~= lines(before) + seq![]);
        true
    }

    /// The component of the topmost visible surface that captures input.
    pub fn topmost_visible_capture_surface(&self, columns: usize, rows: usize) -> (r: Option<ComponentId>)
        ensures
            r == topmost_eligible(self.entries(), self.entries().len() as int, columns as nat, rows as nat, true),
    {
        self.stack.topmost_visible_component(columns, rows, true)
    }

    /// Where input goes: the topmost visible capturing surface, else the focused component.
    pub fn active_input_target(&self, columns: usize, rows: usize) -> (r: Option<ComponentId>)
        ensures
            r == match topmost_eligible(self.entries(), self.entries().len() as int, columns as nat, rows as nat, true) {
                Some(c) => Some(c),
                None => self.focus(),
            },
    {
        match self.topmost_visible_capture_surface(columns, rows) {
            Some(c) => Some(c),
            None => self.focused,
        }
    }

    /// Index of the topmost surface whose component is `c`.
    fn last_index_with_component(&self, c: ComponentId) -> (r: Option<usize>)
        ensures
            match r {
                Some(k) => k < self.entries().len()
                    && last_with_component(self.entries(), self.entries().len() as int, c) == Some(k as int),
                None => last_with_component(self.entries(), self.entries().len() as int, c) is None,
            },
    {
        let mut k = self.stack.entries.len();
        while k > 0
            invariant
                k <= self.stack.entries@.len(),
                last_with_component(self.stack.entries@, self.stack.entries@.len() as int, c)
                    == last_with_component(self.stack.entries@, k as int, c),
            decreases k,
        {
            if self.stack.entries[k - 1].component_id == c {
                return Some(k - 1);
            }
            k -= 1;
        }
        None
    }

    /// Re-settles focus after the stack or the terminal size changed.
    pub fn reconcile_focus(&mut self, registry: &mut ComponentRegistry, columns: usize, rows: usize, diagnostics: &mut Vec<String>)
        requires
            old(registry).wf(),
        ensures
            final(self).focus() == reconcile_step(old(self).entries(), old(self).focus(), old(registry).count(), columns as nat, rows as nat).0,
            lines(final(diagnostics)@) == lines(old(diagnostics)@)
                + reconcile_step(old(self).entries(), old(self).focus(), old(registry).count(), columns as nat, rows as nat).1,
            final(self).entries() == old(self).entries(),
            final(registry).wf(),
            final(registry).count() == old(registry).count(),
    {
        let ghost before = diagnostics@;
        let top = self.topmost_visible_capture_surface(columns, rows);
        match top {
            Some(_) => {
                self.set_focused(registry, top, diagnostics);
                return;
            },
            None => {},
        }
        let focused = match self.focused {
            Some(c) => c,
            None => {
                assert(lines(diagnostics@) =~= lines(before) + seq![]);
                return;
            },
        };
        match self.last_index_with_component(focused) {
            Some(k) => {
                let pre = self.stack.entries[k].pre_focus;
                self.restore_focus_after_loss(registry, pre, columns, rows, diagnostics);
                return;
            },
            None => {},
        }
        if !registry.contains(focused) {
            self.focused = None;
        }
        assert(lines(diagnostics@) =~= lines(before) + seq![]);
    }

    /// Moves focus to `target`, telling the components concerned; reports a missing component.
    fn set_focused(&mut self, registry: &mut ComponentRegistry, target: Option<ComponentId>, diagnostics: &mut Vec<String>)
        requires
            old(registry).wf(),
        ensures
            final(self).focus() == focus_step(old(self).focus(), target, old(registry).count()).0,
            final(self).entries() == old(self).entries(),
            lines(final(diagnostics)@) == lines(old(diagnostics)@) + focus_step(old(self).focus(), target, old(registry).count()).1,
            final(registry).focus_notices() == old(registry).focus_notices() + focus_notices_step(
                old(self).focus(),
                target,
                old(registry).count(),
            ),
            final(registry).handed_events() == old(registry).handed_events(),
            final(registry).wf(),
            final(registry).count() == old(registry).count(),
    {
        let ghost before = diagnostics@;
        let ghost start = registry.focus_notices();
        if self.focused == target {
            assert(lines(diagnostics@) =~= lines(before) + seq![]);
            assert(start + Seq::<(ComponentId, bool)>::empty() =~= start);
            return;
        }
        match self.focused {
            Some(previous) => {
                self.focused = None;
                if !registry.contains(previous) {
                    let line = format_runtime_diagnostic("error", "focus.missing_previous_component_id",
                        message_with_number("focused component id ", previous.raw(), " is missing").as_str());
                    diagnostics.push(line);
                    assert(lines(diagnostics@) =~= lines(before).push(line@));
                    return;
                }
                FocusState::notify(registry, previous, false);
            },
            None => {},
        }
        match target {
            None => {},
            Some(next) => {
                if !registry.contains(next) {
                    let line = format_runtime_diagnostic("error", "focus.missing_target_component_id",
                        message_with_number("focus target component id ", next.raw(), " is missing").as_str());
                    diagnostics.push(line);
                    assert(lines(diagnostics@) =~= lines(before).push(line@));
                    return;
                }
                FocusState::notify(registry, next, true);
                self.focused = Some(next);
            },
        }
    }
}

} // verus!
