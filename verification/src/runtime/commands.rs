//! Runtime commands and how a batch of them changes the root stack, the surfaces and focus,
//! and what it asks of the terminal and the renderer.

use vstd::prelude::*;

use crate::chars::{chars_of, extend_chars, string_of};
use crate::digits::{decimal, decimal_chars_u64};
use crate::runtime::component_registry::{ComponentId, ComponentRegistry};
use crate::runtime::output::TerminalCmd;
use crate::runtime::overlay::OverlayId;
use crate::runtime::surface::{SurfaceEntry, SurfaceId, SurfaceRouting};
use crate::runtime::surface_host::{
    error_diagnostic, focus_step, hide_step, lines, registered, set_hidden_step, show_step, update_options_step,
    SurfaceHost,
};
use crate::runtime::tui::{format_runtime_diagnostic, TerminalOp};

verus! {

/// What the renderer must take into account after a terminal operation.
#[derive(Debug, Clone, Copy, PartialEq, Eq, Structural)]
pub enum RendererNote {
    /// Redraw the whole viewport on the next render.
    FullRedrawNext,
    /// The screen was cleared outside the renderer.
    ExternalClearScreen,
    /// The cursor moved by this many lines outside the renderer.
    OutOfBandMove(i32),
}

/// The terminal command, the renderer note and whether a render is needed after `op`.
pub open spec fn op_effect(op: TerminalOp) -> (Option<TerminalCmd>, Option<RendererNote>, bool) {
    match op {
        TerminalOp::ShowCursor => (Some(TerminalCmd::ShowCursor), None, false),
        TerminalOp::HideCursor => (Some(TerminalCmd::HideCursor), None, false),
        TerminalOp::ClearLine => (Some(TerminalCmd::ClearLine), Some(RendererNote::FullRedrawNext), true),
        TerminalOp::ClearFromCursor => (Some(TerminalCmd::ClearFromCursor), Some(RendererNote::FullRedrawNext), true),
        TerminalOp::ClearScreen => (Some(TerminalCmd::ClearScreen), Some(RendererNote::ExternalClearScreen), true),
        TerminalOp::MoveBy(lines) => if lines == 0 {
            (None, None, false)
        } else if lines > 0 {
            (Some(TerminalCmd::MoveDown(lines as usize)), Some(RendererNote::OutOfBandMove(lines)), false)
        } else {
            (Some(TerminalCmd::MoveUp((-lines) as usize)), Some(RendererNote::OutOfBandMove(lines)), false)
        },
        TerminalOp::RequestFullRedraw => (None, Some(RendererNote::FullRedrawNext), true),
    }
}

/// Carries out the terminal side of `op`.
pub fn terminal_op_effect(op: TerminalOp) -> (r: (Option<TerminalCmd>, Option<RendererNote>, bool))
    ensures
        r == op_effect(op),
{
    match op {
        TerminalOp::ShowCursor => (Some(TerminalCmd::ShowCursor), None, false),
        TerminalOp::HideCursor => (Some(TerminalCmd::HideCursor), None, false),
        TerminalOp::ClearLine => (Some(TerminalCmd::ClearLine), Some(RendererNote::FullRedrawNext), true),
        TerminalOp::ClearFromCursor => (Some(TerminalCmd::ClearFromCursor), Some(RendererNote::FullRedrawNext), true),
        TerminalOp::ClearScreen => (Some(TerminalCmd::ClearScreen), Some(RendererNote::ExternalClearScreen), true),
        TerminalOp::MoveBy(lines) => {
            if lines == 0 {
                (None, None, false)
            } else if lines > 0 {
                (Some(TerminalCmd::MoveDown(lines as usize)), Some(RendererNote::OutOfBandMove(lines)), false)
            } else {
                let up: i64 = -(lines as i64);
                (Some(TerminalCmd::MoveUp(up as usize)), Some(RendererNote::OutOfBandMove(lines)), false)
            }
        },
        TerminalOp::RequestFullRedraw => (None, Some(RendererNote::FullRedrawNext), true),
    }
}

/// A request to the runtime, applied at one point of each tick in the order queued.
#[derive(Debug)]
pub enum Command {
    RequestRender,
    RequestStop,
    /// Update the terminal title without forcing a render.
    SetTitle(String),
    RootSet(Vec<ComponentId>),
    RootPush(ComponentId),
    FocusSet(ComponentId),
    FocusClear,
    ShowOverlay { overlay_id: OverlayId, component: ComponentId, options: Option<SurfaceRouting>, hidden: bool },
    HideOverlay(OverlayId),
    SetOverlayHidden { overlay_id: OverlayId, hidden: bool },
    ShowSurface { surface_id: SurfaceId, component: ComponentId, options: Option<SurfaceRouting>, hidden: bool },
    HideSurface(SurfaceId),
    SetSurfaceHidden { surface_id: SurfaceId, hidden: bool },
    UpdateSurfaceOptions { surface_id: SurfaceId, options: Option<SurfaceRouting> },
    Terminal(TerminalOp),
}

/// The runtime state that commands change, and what a batch of commands has asked for so far.
#[verifier::ext_equal]
pub struct BatchState {
    pub root: Seq<ComponentId>,
    pub entries: Seq<SurfaceEntry>,
    pub focus: Option<ComponentId>,
    pub render: bool,
    pub stop: bool,
    pub title: Option<Seq<char>>,
    pub output: Seq<TerminalCmd>,
    pub renderer: Seq<RendererNote>,
    pub diagnostics: Seq<Seq<char>>,
}

/// The diagnostics for the unregistered components among `ids`, in order.
pub open spec fn root_set_diagnostics(ids: Seq<ComponentId>, n: nat) -> Seq<Seq<char>>
    decreases ids.len(),
{
    if ids.len() == 0 {
        seq![]
    } else {
        root_set_diagnostics(ids.drop_last(), n) + if registered(ids.last(), n) {
            seq![]
        } else {
            seq![error_diagnostic("command.root_set.missing_component_id"@,
                "root set references missing component id "@ + decimal(ids.last().id()))]
        }
    }
}

/// `s` after a surface or focus step.
pub open spec fn with_host(s: BatchState, entries: Seq<SurfaceEntry>, focus: Option<ComponentId>, diagnostics: Seq<Seq<char>>, render: bool) -> BatchState {
    BatchState {
        entries,
        focus,
        diagnostics: s.diagnostics + diagnostics,
        render: s.render || render,
        ..s
    }
}

/// `s` after one command, with `n` registered components and a `columns` x `rows` terminal.
pub open spec fn apply_one(s: BatchState, cmd: Command, n: nat, columns: nat, rows: nat) -> BatchState {
    match cmd {
        Command::RequestRender => BatchState { render: true, ..s },
        Command::RequestStop => BatchState { stop: true, ..s },
        Command::SetTitle(t) => BatchState { title: Some(t@), ..s },
        Command::RootSet(ids) => {
            let d = root_set_diagnostics(ids@, n);
            if d.len() == 0 {
                BatchState { root: ids@, render: true, ..s }
            } else {
                BatchState { diagnostics: s.diagnostics + d, ..s }
            }
        },
        Command::RootPush(c) => if registered(c, n) {
            BatchState { root: s.root.push(c), render: true, ..s }
        } else {
            BatchState {
                diagnostics: s.diagnostics.push(error_diagnostic("command.root_push.missing_component_id"@,
                    "root push references missing component id "@ + decimal(c.id()))),
                ..s
            }
        },
        Command::FocusSet(c) => {
            let f = focus_step(s.focus, Some(c), n);
            with_host(s, s.entries, f.0, f.1, true)
        },
        Command::FocusClear => {
            let f = focus_step(s.focus, None, n);
            with_host(s, s.entries, f.0, f.1, true)
        },
        Command::ShowOverlay { overlay_id, component, options, hidden } => {
            let h = show_step(s.entries, s.focus, n, columns, rows, SurfaceId::with_id(overlay_id.id()), component, options,
                hidden, "command.show_overlay.missing_component_id"@, "show overlay"@);
            with_host(s, h.entries, h.focus, h.diagnostics, h.done)
        },
        Command::HideOverlay(overlay_id) => {
            let h = hide_step(s.entries, s.focus, n, columns, rows, SurfaceId::with_id(overlay_id.id()),
                "command.hide_overlay.missing_overlay_id"@, "hide overlay"@);
            with_host(s, h.entries, h.focus, h.diagnostics, h.done)
        },
        Command::SetOverlayHidden { overlay_id, hidden } => {
            let h = set_hidden_step(s.entries, s.focus, n, columns, rows, SurfaceId::with_id(overlay_id.id()), hidden,
                "command.set_overlay_hidden.missing_overlay_id"@, "set overlay hidden"@);
            with_host(s, h.entries, h.focus, h.diagnostics, h.done)
        },
        Command::ShowSurface { surface_id, component, options, hidden } => {
            let h = show_step(s.entries, s.focus, n, columns, rows, surface_id, component, options, hidden,
                "command.show_surface.missing_component_id"@, "show surface"@);
            with_host(s, h.entries, h.focus, h.diagnostics, h.done)
        },
        Command::HideSurface(surface_id) => {
            let h = hide_step(s.entries, s.focus, n, columns, rows, surface_id,
                "command.hide_surface.missing_surface_id"@, "hide surface"@);
            with_host(s, h.entries, h.focus, h.diagnostics, h.done)
        },
        Command::SetSurfaceHidden { surface_id, hidden } => {
            let h = set_hidden_step(s.entries, s.focus, n, columns, rows, surface_id, hidden,
                "command.set_surface_hidden.missing_surface_id"@, "set surface hidden"@);
            with_host(s, h.entries, h.focus, h.diagnostics, h.done)
        },
        Command::UpdateSurfaceOptions { surface_id, options } => {
            let h = update_options_step(s.entries, s.focus, surface_id, options);
            with_host(s, h.entries, h.focus, h.diagnostics, h.done)
        },
        Command::Terminal(op) => {
            let e = op_effect(op);
            BatchState {
                output: if e.0 is Some { s.output.push(e.0->0) } else { s.output },
                renderer: if e.1 is Some { s.renderer.push(e.1->0) } else { s.renderer },
                render: s.render || e.2,
                ..s
            }
        },
    }
}

/// `s` after `cmds`, in order.
pub open spec fn apply_all(s: BatchState, cmds: Seq<Command>, n: nat, columns: nat, rows: nat) -> BatchState
    decreases cmds.len(),
{
    if cmds.len() == 0 {
        s
    } else {
        apply_one(apply_all(s, cmds.drop_last(), n, columns, rows), cmds.last(), n, columns, rows)
    }
}

/// What a batch of commands asks of the runtime besides changing its state.
#[derive(Debug)]
pub struct CommandEffects {
    pub render_requested: bool,
    pub stop_requested: bool,
    /// The last title set, which the runtime sends once after the batch.
    pub title: Option<String>,
    pub output: Vec<TerminalCmd>,
    pub renderer: Vec<RendererNote>,
}

pub open spec fn title_view(t: Option<String>) -> Option<Seq<char>> {
    match t {
        Some(s) => Some(s@),
        None => None,
    }
}

/// The runtime state that commands change: the root stack, the surfaces and focus.
pub struct RuntimeState {
    pub root: Vec<ComponentId>,
    pub host: SurfaceHost,
}

/// The batch state made of `state`, the effects so far and the diagnostics reported.
pub open spec fn batch_of(state: RuntimeState, fx: CommandEffects, diagnostics: Seq<String>) -> BatchState {
    BatchState {
        root: state.root@,
        entries: state.host.entries(),
        focus: state.host.focus(),
        render: fx.render_requested,
        stop: fx.stop_requested,
        title: title_view(fx.title),
        output: fx.output@,
        renderer: fx.renderer@,
        diagnostics: lines(diagnostics),
    }
}

/// Applying the first `i + 1` commands is applying the first `i`, then command `i`.
pub proof fn lemma_apply_all_step(s: BatchState, cmds: Seq<Command>, i: int, n: nat, columns: nat, rows: nat)
    requires
        0 <= i < cmds.len(),
    ensures
        apply_all(s, cmds.take(i + 1), n, columns, rows) == apply_one(apply_all(s, cmds.take(i), n, columns, rows), cmds[i], n, columns, rows),
{
    assert(cmds.take(i + 1).drop_last() =~= cmds.take(i));
}

/// The batch state before any command of a batch: nothing asked for yet.
pub open spec fn start_of(state: RuntimeState, diagnostics: Seq<String>) -> BatchState {
    BatchState {
        root: state.root@,
        entries: state.host.entries(),
        focus: state.host.focus(),
        render: false,
        stop: false,
        title: None,
        output: seq![],
        renderer: seq![],
        diagnostics: lines(diagnostics),
    }
}

impl CommandEffects {
    /// Nothing asked for.
    pub fn new() -> (r: Self)
        ensures
            !r.render_requested,
            !r.stop_requested,
            r.title is None,
            r.output@.len() == 0,
            r.renderer@.len() == 0,
    {
        CommandEffects { render_requested: false, stop_requested: false, title: None, output: Vec::new(), renderer: Vec::new() }
    }
}

/// `prefix` followed by the decimal digits of `n`, as a `String`.
fn numbered(prefix: &str, n: u64) -> (r: String)
    ensures
        r@ == prefix@ + decimal(n as nat),
{
    let mut v = chars_of(prefix);
    extend_chars(&mut v, decimal_chars_u64(n).as_slice());
    string_of(v.as_slice())
}

impl RuntimeState {
    pub fn new() -> (r: Self)
        ensures
            r.root@ == Seq::<ComponentId>::empty(),
            r.host.entries() == Seq::<SurfaceEntry>::empty(),
            r.host.focus() is None,
    {
        RuntimeState { root: Vec::new(), host: SurfaceHost::new() }
    }

    /// Replaces the root stack with `ids` when all of them are registered; otherwise reports
    /// each missing one and changes nothing.
    fn apply_root_set(&mut self, registry: &ComponentRegistry, ids: &Vec<ComponentId>, diagnostics: &mut Vec<String>) -> (r: bool)
        requires
            registry.wf(),
        ensures
            ({
                let d = root_set_diagnostics(ids@, registry.count());
                &&& r == (d.len() == 0)
                &&& final(self).root@ == if r { ids@ } else { old(self).root@ }
                &&& lines(final(diagnostics)@) == lines(old(diagnostics)@) + d
            }),
            final(self).host == old(self).host,
    {
        let ghost before = diagnostics@;
        let mut resolved: Vec<ComponentId> = Vec::new();
        let mut had_missing = false;
        let mut i: usize = 0;
        assert(ids@.take(0) =~= Seq::<ComponentId>::empty());
        assert(lines(diagnostics@) =~= lines(before) + seq![]);
        while i < ids.len()
            invariant
                registry.wf(),
                i <= ids@.len(),
                lines(diagnostics@) == lines(before) + root_set_diagnostics(ids@.take(i as int), registry.count()),
                had_missing == (root_set_diagnostics(ids@.take(i as int), registry.count()).len() > 0),
                !had_missing ==> resolved@ == ids@.take(i as int),
            decreases ids@.len() - i,
        {
            let c = ids[i];
            let ghost prev = diagnostics@;
            assert(ids@.take(i + 1 as int).drop_last() =~= ids@.take(i as int));
            if registry.contains(c) {
                resolved.push(c);
                assert(lines(diagnostics@) =~= lines(before) + root_set_diagnostics(ids@.take(i + 1 as int), registry.count()));
            } else {
                let line = format_runtime_diagnostic("error", "command.root_set.missing_component_id",
                    numbered("root set references missing component id ", c.raw()).as_str());
                diagnostics.push(line);
                assert(lines(diagnostics@) =~= lines(prev).push(line@));
                assert(lines(diagnostics@) =~= lines(before) + root_set_diagnostics(ids@.take(i + 1 as int), registry.count()));
                had_missing = true;
            }
            assert(!had_missing ==> resolved@ =~= ids@.take(i + 1 as int));
            i += 1;
        }
        assert(ids@.take(ids@.len() as int) =~= ids@);
        if had_missing {
            return false;
        }
        self.root = resolved;
        true
    }

    /// Applies `commands` in order and collects what they ask for. The title that the batch
    /// ends with, if any, is sent once after it.
    pub fn apply_commands(&mut self, registry: &mut ComponentRegistry, commands: Vec<Command>, columns: usize, rows: usize, diagnostics: &mut Vec<String>) -> (fx: CommandEffects)
        requires
            old(registry).wf(),
        ensures
            batch_of(*final(self), fx, final(diagnostics)@) == apply_all(
                start_of(*old(self), old(diagnostics)@), commands@, old(registry).count(), columns as nat, rows as nat),
            final(registry).wf(),
            final(registry).count() == old(registry).count(),
    {
        let mut fx = CommandEffects::new();
        let ghost start = batch_of(*self, fx, diagnostics@);
        assert(start =~= start_of(*self, diagnostics@));
        assert(apply_all(start, commands@.take(0), registry.count(), columns as nat, rows as nat) == start);
        let mut i: usize = 0;
        assert(commands@.take(0) =~= Seq::<Command>::empty());
        while i < commands.len()
            invariant
                registry.wf(),
                registry.count() == old(registry).count(),
                i <= commands@.len(),
                start == start_of(*old(self), old(diagnostics)@),
                batch_of(*self, fx, diagnostics@) == apply_all(start, commands@.take(i as int), registry.count(), columns as nat, rows as nat),
            decreases commands@.len() - i,
        {
            proof {
                lemma_apply_all_step(start, commands@, i as int, registry.count(), columns as nat, rows as nat);
            }
            self.apply_command(registry, &commands[i], columns, rows, &mut fx, diagnostics);
            i += 1;
        }
        assert(commands@.take(commands@.len() as int) =~= commands@);
        fx
    }

    /// Applies one command: changes the state, adds to the effects and reports what it could
    /// not do.
    pub fn apply_command(&mut self, registry: &mut ComponentRegistry, cmd: &Command, columns: usize, rows: usize, fx: &mut CommandEffects, diagnostics: &mut Vec<String>)
        requires
            old(registry).wf(),
        ensures
            batch_of(*final(self), *final(fx), final(diagnostics)@)
                == apply_one(batch_of(*old(self), *old(fx), old(diagnostics)@), *cmd, old(registry).count(), columns as nat, rows as nat),
            final(registry).wf(),
            final(registry).count() == old(registry).count(),
    {
        let ghost before = diagnostics@;
        match cmd {
            Command::RequestRender => {
                fx.render_requested = true;
            },
            Command::RequestStop => {
                fx.stop_requested = true;
            },
            Command::SetTitle(t) => {
                fx.title = Some(t.clone());
            },
            Command::RootSet(ids) => {
                if self.apply_root_set(registry, ids, diagnostics) {
                    fx.render_requested = true;
                }
            },
            Command::RootPush(c) => {
                if registry.contains(*c) {
                    self.root.push(*c);
                    fx.render_requested = true;
                } else {
                    let line = format_runtime_diagnostic("error", "command.root_push.missing_component_id",
                        numbered("root push references missing component id ", c.raw()).as_str());
                    diagnostics.push(line);
                    assert(lines(diagnostics@) =~= lines(before).push(line@));
                }
            },
            Command::FocusSet(c) => {
                self.host.set_focus(registry, *c, diagnostics);
                fx.render_requested = true;
            },
            Command::FocusClear => {
                self.host.clear_focus(registry, diagnostics);
                fx.render_requested = true;
            },
            Command::ShowOverlay { overlay_id, component, options, hidden } => {
                if self.host.show_overlay(registry, *overlay_id, *component, *options, *hidden, columns, rows, diagnostics) {
                    fx.render_requested = true;
                }
            },
            Command::HideOverlay(overlay_id) => {
                if self.host.hide_overlay(registry, *overlay_id, columns, rows, diagnostics) {
                    fx.render_requested = true;
                }
            },
            Command::SetOverlayHidden { overlay_id, hidden } => {
                if self.host.set_overlay_hidden(registry, *overlay_id, *hidden, columns, rows, diagnostics) {
                    fx.render_requested = true;
                }
            },
            Command::ShowSurface { surface_id, component, options, hidden } => {
                if self.host.show_surface(registry, *surface_id, *component, *options, *hidden, columns, rows, diagnostics) {
                    fx.render_requested = true;
                }
            },
            Command::HideSurface(surface_id) => {
                if self.host.hide_surface(registry, *surface_id, columns, rows, diagnostics) {
                    fx.render_requested = true;
                }
            },
            Command::SetSurfaceHidden { surface_id, hidden } => {
                if self.host.set_surface_hidden(registry, *surface_id, *hidden, columns, rows, diagnostics) {
                    fx.render_requested = true;
                }
            },
            Command::UpdateSurfaceOptions { surface_id, options } => {
                if self.host.update_surface_options(*surface_id, *options, diagnostics) {
                    fx.render_requested = true;
                }
            },
            Command::Terminal(op) => {
                let (out, note, render) = terminal_op_effect(*op);
                match out {
                    Some(c) => fx.output.push(c),
                    None => {},
                }
                match note {
                    Some(n) => fx.renderer.push(n),
                    None => {},
                }
                if render {
                    fx.render_requested = true;
                }
            },
        }
    }
}

} // verus!
