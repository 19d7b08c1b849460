use std::cell::RefCell;
use std::rc::Rc;

use tape_tui::keys::InputEvent;
use tape_tui::runtime::component_registry::{ComponentId, ComponentRegistry};
use tape_tui::runtime::overlay::OverlayId;
use tape_tui::runtime::surface::{SurfaceId, SurfaceInputPolicy, SurfaceRouting, SurfaceVisibility};
use tape_tui::runtime::surface_host::SurfaceHost;
use tape_tui::runtime::composite::{clip_surface, overlay_cursor, reserve_lane, surface_viewport, PlacedSurface};
use tape_tui::{Component, CursorPos, Focusable, SurfaceKind};

const COLUMNS: usize = 80;
const ROWS: usize = 24;

struct Probe {
    inputs: Rc<RefCell<Vec<String>>>,
    focused: Rc<RefCell<bool>>,
    wants_release: bool,
}

impl Component for Probe {
    fn render(&mut self, _width: usize) -> Vec<String> {
        Vec::new()
    }

    fn handle_event(&mut self, event: &InputEvent) {
        let raw = match event {
            InputEvent::Text { text } => text.clone(),
            InputEvent::Paste { text } => text.clone(),
            InputEvent::Key { key_id } => key_id.clone(),
            InputEvent::KeyRelease { key_id } => format!("release:{key_id}"),
        };
        self.inputs.borrow_mut().push(raw);
    }

    fn wants_key_release(&self) -> bool {
        self.wants_release
    }

    fn as_focusable(&mut self) -> Option<&mut dyn Focusable> {
        Some(self)
    }
}

impl Focusable for Probe {
    fn set_focused(&mut self, focused: bool) {
        *self.focused.borrow_mut() = focused;
    }

    fn is_focused(&self) -> bool {
        *self.focused.borrow()
    }
}

struct Handles {
    inputs: Rc<RefCell<Vec<String>>>,
    focused: Rc<RefCell<bool>>,
}

fn register(registry: &mut ComponentRegistry) -> (ComponentId, Handles) {
    let inputs = Rc::new(RefCell::new(Vec::new()));
    let focused = Rc::new(RefCell::new(false));
    let id = registry.register_boxed(Box::new(Probe { inputs: Rc::clone(&inputs), focused: Rc::clone(&focused), wants_release: false }));
    (id, Handles { inputs, focused })
}

fn register_wanting_releases(registry: &mut ComponentRegistry) -> (ComponentId, Handles) {
    let inputs = Rc::new(RefCell::new(Vec::new()));
    let focused = Rc::new(RefCell::new(false));
    let id = registry.register_boxed(Box::new(Probe { inputs: Rc::clone(&inputs), focused: Rc::clone(&focused), wants_release: true }));
    (id, Handles { inputs, focused })
}

fn routing(policy: SurfaceInputPolicy) -> Option<SurfaceRouting> {
    Some(SurfaceRouting { visibility: SurfaceVisibility::Always, input_policy: policy })
}

/// A host whose root component is registered and focused.
fn host_with_root() -> (SurfaceHost, ComponentRegistry, ComponentId, Handles, Vec<String>) {
    let mut registry = ComponentRegistry::new();
    let mut host = SurfaceHost::new();
    let mut diagnostics = Vec::new();
    let (root, handles) = register(&mut registry);
    host.set_focus(&mut registry, root, &mut diagnostics);
    host.reconcile_focus(&mut registry, COLUMNS, ROWS, &mut diagnostics);
    (host, registry, root, handles, diagnostics)
}

fn send(host: &mut SurfaceHost, registry: &mut ComponentRegistry, data: &str) {
    host.dispatch_input(registry, data, COLUMNS, ROWS, false);
}

fn clear(handles: &[&Handles]) {
    for h in handles {
        h.inputs.borrow_mut().clear();
    }
}

#[test]
fn overlay_focus_handoff_and_restore() {
    let (mut host, mut registry, _root, root_h, mut diags) = host_with_root();
    assert!(*root_h.focused.borrow());

    let (overlay, overlay_h) = register(&mut registry);
    let overlay_id = OverlayId::from_raw(1);
    assert!(host.show_overlay(&mut registry, overlay_id, overlay, None, false, COLUMNS, ROWS, &mut diags));
    host.reconcile_focus(&mut registry, COLUMNS, ROWS, &mut diags);
    assert!(*overlay_h.focused.borrow());

    assert!(host.hide_overlay(&mut registry, overlay_id, COLUMNS, ROWS, &mut diags));
    host.reconcile_focus(&mut registry, COLUMNS, ROWS, &mut diags);
    assert!(*root_h.focused.borrow());
    assert!(diags.is_empty());
}

#[test]
fn overlay_set_hidden_unhide_focuses_overlay_and_routes_input() {
    let (mut host, mut registry, _root, root_h, mut diags) = host_with_root();
    let (overlay, overlay_h) = register(&mut registry);
    let overlay_id = OverlayId::from_raw(1);
    host.show_overlay(&mut registry, overlay_id, overlay, None, false, COLUMNS, ROWS, &mut diags);
    host.reconcile_focus(&mut registry, COLUMNS, ROWS, &mut diags);

    host.set_overlay_hidden(&mut registry, overlay_id, true, COLUMNS, ROWS, &mut diags);
    host.reconcile_focus(&mut registry, COLUMNS, ROWS, &mut diags);
    assert!(*root_h.focused.borrow());
    assert!(!*overlay_h.focused.borrow());

    clear(&[&root_h, &overlay_h]);

    host.set_overlay_hidden(&mut registry, overlay_id, false, COLUMNS, ROWS, &mut diags);
    host.reconcile_focus(&mut registry, COLUMNS, ROWS, &mut diags);
    assert!(*overlay_h.focused.borrow());

    send(&mut host, &mut registry, "x");
    assert_eq!(overlay_h.inputs.borrow().as_slice(), &["x".to_string()]);
    assert!(root_h.inputs.borrow().is_empty());
}

#[test]
fn overlay_set_hidden_hides_focused_overlay_and_restores_previous_focus() {
    let (mut host, mut registry, _root, root_h, mut diags) = host_with_root();
    let (overlay, overlay_h) = register(&mut registry);
    let overlay_id = OverlayId::from_raw(1);
    host.show_overlay(&mut registry, overlay_id, overlay, None, false, COLUMNS, ROWS, &mut diags);
    host.reconcile_focus(&mut registry, COLUMNS, ROWS, &mut diags);
    assert!(*overlay_h.focused.borrow());

    host.set_overlay_hidden(&mut registry, overlay_id, true, COLUMNS, ROWS, &mut diags);
    host.reconcile_focus(&mut registry, COLUMNS, ROWS, &mut diags);
    assert!(*root_h.focused.borrow());

    clear(&[&root_h, &overlay_h]);

    send(&mut host, &mut registry, "y");
    assert_eq!(root_h.inputs.borrow().as_slice(), &["y".to_string()]);
    assert!(overlay_h.inputs.borrow().is_empty());
}

#[test]
fn overlay_set_hidden_unhide_moves_focus_even_when_another_overlay_is_focused() {
    let (mut host, mut registry, _root, _root_h, mut diags) = host_with_root();

    let (a, a_h) = register(&mut registry);
    host.show_overlay(&mut registry, OverlayId::from_raw(1), a, None, false, COLUMNS, ROWS, &mut diags);
    host.reconcile_focus(&mut registry, COLUMNS, ROWS, &mut diags);
    assert!(*a_h.focused.borrow());

    let (b, b_h) = register(&mut registry);
    let b_id = OverlayId::from_raw(2);
    host.show_overlay(&mut registry, b_id, b, None, false, COLUMNS, ROWS, &mut diags);
    host.reconcile_focus(&mut registry, COLUMNS, ROWS, &mut diags);
    assert!(*b_h.focused.borrow());

    host.set_overlay_hidden(&mut registry, b_id, true, COLUMNS, ROWS, &mut diags);
    host.reconcile_focus(&mut registry, COLUMNS, ROWS, &mut diags);
    assert!(*a_h.focused.borrow());
    assert!(!*b_h.focused.borrow());

    host.set_overlay_hidden(&mut registry, b_id, false, COLUMNS, ROWS, &mut diags);
    host.reconcile_focus(&mut registry, COLUMNS, ROWS, &mut diags);
    assert!(*b_h.focused.borrow());
}

#[test]
fn surface_capture_receives_input_before_root() {
    let (mut host, mut registry, _root, root_h, mut diags) = host_with_root();
    let (surface, surface_h) = register(&mut registry);
    host.show_surface(&mut registry, SurfaceId::from_raw(1), surface, routing(SurfaceInputPolicy::Capture), false, COLUMNS, ROWS, &mut diags);
    host.reconcile_focus(&mut registry, COLUMNS, ROWS, &mut diags);

    clear(&[&root_h, &surface_h]);
    send(&mut host, &mut registry, "x");

    assert_eq!(surface_h.inputs.borrow().as_slice(), &["x".to_string()]);
    assert!(root_h.inputs.borrow().is_empty());
    assert!(*surface_h.focused.borrow());
}

#[test]
fn input_routing_precedence_tracks_topmost_visible_capture_surface() {
    let (mut host, mut registry, _root, root_h, mut diags) = host_with_root();

    let (a, a_h) = register(&mut registry);
    let a_id = SurfaceId::from_raw(1);
    host.show_surface(&mut registry, a_id, a, routing(SurfaceInputPolicy::Capture), false, COLUMNS, ROWS, &mut diags);
    host.reconcile_focus(&mut registry, COLUMNS, ROWS, &mut diags);

    let (b, b_h) = register(&mut registry);
    let b_id = SurfaceId::from_raw(2);
    host.show_surface(&mut registry, b_id, b, routing(SurfaceInputPolicy::Capture), false, COLUMNS, ROWS, &mut diags);
    host.reconcile_focus(&mut registry, COLUMNS, ROWS, &mut diags);

    clear(&[&root_h, &a_h, &b_h]);
    send(&mut host, &mut registry, "1");
    assert_eq!(b_h.inputs.borrow().as_slice(), &["1".to_string()]);
    assert!(a_h.inputs.borrow().is_empty());
    assert!(root_h.inputs.borrow().is_empty());
    assert!(*b_h.focused.borrow());

    host.set_surface_hidden(&mut registry, b_id, true, COLUMNS, ROWS, &mut diags);
    host.reconcile_focus(&mut registry, COLUMNS, ROWS, &mut diags);

    clear(&[&root_h, &a_h, &b_h]);
    send(&mut host, &mut registry, "2");
    assert_eq!(a_h.inputs.borrow().as_slice(), &["2".to_string()]);
    assert!(b_h.inputs.borrow().is_empty());
    assert!(root_h.inputs.borrow().is_empty());
    assert!(*a_h.focused.borrow());

    host.update_surface_options(
        a_id,
        Some(SurfaceRouting { visibility: SurfaceVisibility::MinCols(120), input_policy: SurfaceInputPolicy::Capture }),
        &mut diags,
    );
    host.reconcile_focus(&mut registry, COLUMNS, ROWS, &mut diags);

    clear(&[&root_h, &a_h, &b_h]);
    send(&mut host, &mut registry, "3");
    assert_eq!(root_h.inputs.borrow().as_slice(), &["3".to_string()]);
    assert!(a_h.inputs.borrow().is_empty());
    assert!(b_h.inputs.borrow().is_empty());
    assert!(*root_h.focused.borrow());
}

#[test]
fn surface_passthrough_does_not_steal_input_from_root() {
    let (mut host, mut registry, _root, root_h, mut diags) = host_with_root();
    let (surface, surface_h) = register(&mut registry);
    host.show_surface(&mut registry, SurfaceId::from_raw(1), surface, routing(SurfaceInputPolicy::Passthrough), false, COLUMNS, ROWS, &mut diags);
    host.reconcile_focus(&mut registry, COLUMNS, ROWS, &mut diags);

    clear(&[&root_h, &surface_h]);
    send(&mut host, &mut registry, "y");

    assert_eq!(root_h.inputs.borrow().as_slice(), &["y".to_string()]);
    assert!(surface_h.inputs.borrow().is_empty());
    assert!(*root_h.focused.borrow());
    assert!(!*surface_h.focused.borrow());
}

#[test]
fn surface_handle_update_options_switches_input_policy() {
    let (mut host, mut registry, _root, root_h, mut diags) = host_with_root();
    let (surface, surface_h) = register(&mut registry);
    let id = SurfaceId::from_raw(1);
    host.show_surface(&mut registry, id, surface, routing(SurfaceInputPolicy::Passthrough), false, COLUMNS, ROWS, &mut diags);
    host.reconcile_focus(&mut registry, COLUMNS, ROWS, &mut diags);

    send(&mut host, &mut registry, "a");
    assert_eq!(root_h.inputs.borrow().as_slice(), &["a".to_string()]);
    assert!(surface_h.inputs.borrow().is_empty());

    clear(&[&root_h, &surface_h]);
    host.update_surface_options(id, routing(SurfaceInputPolicy::Capture), &mut diags);
    host.reconcile_focus(&mut registry, COLUMNS, ROWS, &mut diags);
    send(&mut host, &mut registry, "b");

    assert_eq!(surface_h.inputs.borrow().as_slice(), &["b".to_string()]);
    assert!(root_h.inputs.borrow().is_empty());
    assert!(*surface_h.focused.borrow());
}

#[test]
fn surface_commands_with_invalid_ids_report_diagnostics() {
    let mut other = ComponentRegistry::new();
    register(&mut other);
    let (missing, _) = register(&mut other);

    let (mut host, mut registry, root, _root_h, mut diags) = host_with_root();
    assert!(diags.is_empty());

    host.set_focus(&mut registry, missing, &mut diags);
    assert!(!host.show_overlay(&mut registry, OverlayId::from_raw(77), missing, None, false, COLUMNS, ROWS, &mut diags));
    assert!(!host.hide_overlay(&mut registry, OverlayId::from_raw(42), COLUMNS, ROWS, &mut diags));
    assert!(!host.set_overlay_hidden(&mut registry, OverlayId::from_raw(55), true, COLUMNS, ROWS, &mut diags));
    assert!(!host.update_surface_options(SurfaceId::from_raw(9), None, &mut diags));

    assert_eq!(
        diags,
        vec![
            "[tape_tui][error][focus.missing_target_component_id] focus target component id 1 is missing".to_string(),
            "[tape_tui][error][command.show_overlay.missing_component_id] show overlay references missing component id 1"
                .to_string(),
            "[tape_tui][error][command.hide_overlay.missing_overlay_id] hide overlay references missing id 42".to_string(),
            "[tape_tui][error][command.set_overlay_hidden.missing_overlay_id] set overlay hidden references missing id 55"
                .to_string(),
            "[tape_tui][error][command.update_surface_options.missing_surface_id] update surface options references missing surface id 9"
                .to_string(),
        ]
    );
    // Focusing a missing component drops focus from the root.
    assert_eq!(host.focused(), None);
    assert!(host.surfaces().entries.is_empty());
    assert_ne!(root, missing);
}

#[test]
fn showing_a_surface_over_itself_remembers_no_focus() {
    let (mut host, mut registry, root, _root_h, mut diags) = host_with_root();
    host.show_surface(&mut registry, SurfaceId::from_raw(3), root, None, false, COLUMNS, ROWS, &mut diags);
    assert_eq!(host.surfaces().entries[0].pre_focus, None);
    assert_eq!(host.focused(), Some(root));
}

#[test]
fn hidden_surface_is_pushed_without_taking_focus() {
    let (mut host, mut registry, root, root_h, mut diags) = host_with_root();
    let (surface, surface_h) = register(&mut registry);
    let id = SurfaceId::from_raw(4);
    assert!(host.show_surface(&mut registry, id, surface, None, true, COLUMNS, ROWS, &mut diags));
    assert_eq!(host.focused(), Some(root));
    assert!(!*surface_h.focused.borrow());
    assert_eq!(host.surfaces().entries[0].pre_focus, Some(root));
    // Already hidden: nothing to do.
    assert!(!host.set_surface_hidden(&mut registry, id, true, COLUMNS, ROWS, &mut diags));
    send(&mut host, &mut registry, "z");
    assert_eq!(root_h.inputs.borrow().as_slice(), &["z".to_string()]);
    assert!(surface_h.inputs.borrow().is_empty());
}

#[test]
fn surface_too_small_for_the_terminal_does_not_capture() {
    let (mut host, mut registry, root, _root_h, mut diags) = host_with_root();
    let (surface, _surface_h) = register(&mut registry);
    let wide = Some(SurfaceRouting { visibility: SurfaceVisibility::MinCols(120), input_policy: SurfaceInputPolicy::Capture });
    host.show_surface(&mut registry, SurfaceId::from_raw(5), surface, wide, false, COLUMNS, ROWS, &mut diags);
    assert_eq!(host.focused(), Some(root));
    assert_eq!(host.active_input_target(COLUMNS, ROWS), Some(root));
    assert_eq!(host.active_input_target(120, ROWS), Some(surface));
    assert_eq!(host.topmost_visible_capture_surface(120, ROWS), Some(surface));
    host.reconcile_focus(&mut registry, 120, ROWS, &mut diags);
    assert_eq!(host.focused(), Some(surface));
}

#[test]
fn dispatch_reports_target_and_consumption() {
    let (mut host, mut registry, root, root_h, _diags) = host_with_root();
    let report = host.dispatch_input(&mut registry, "ab", COLUMNS, ROWS, false);
    assert_eq!(report.target, Some(root));
    assert!(report.consumed);
    assert_eq!(report.debug_chords, 0);
    assert_eq!(root_h.inputs.borrow().as_slice(), &["a".to_string(), "b".to_string()]);
    let empty = host.dispatch_input(&mut registry, "", COLUMNS, ROWS, false);
    assert_eq!(empty.target, None);
    assert!(!empty.consumed);
}

#[test]
fn input_without_focus_or_surface_goes_nowhere() {
    let mut registry = ComponentRegistry::new();
    let mut host = SurfaceHost::new();
    let (_id, h) = register(&mut registry);
    let report = host.dispatch_input(&mut registry, "q", COLUMNS, ROWS, false);
    assert_eq!(report.target, None);
    assert!(!report.consumed);
    assert_eq!(report.debug_chords, 0);
    assert!(h.inputs.borrow().is_empty());
}

use tape_tui::runtime::commands::{Command, RendererNote, RuntimeState};
use tape_tui::runtime::output::TerminalCmd;
use tape_tui::runtime::tui::TerminalOp;

#[test]
fn raw_command_invalid_ids_emit_runtime_diagnostics_without_panicking() {
    let mut id_source = ComponentRegistry::new();
    register(&mut id_source);
    let (missing_component_id, _) = register(&mut id_source);

    let mut registry = ComponentRegistry::new();
    let (root_id, _root_h) = register(&mut registry);
    let mut state = RuntimeState::new();
    state.root = vec![root_id];
    let mut diagnostics = Vec::new();

    let commands = vec![
        Command::RootSet(vec![missing_component_id]),
        Command::RootPush(missing_component_id),
        Command::FocusSet(missing_component_id),
        Command::ShowOverlay { overlay_id: OverlayId::from_raw(77), component: missing_component_id, options: None, hidden: false },
        Command::HideOverlay(OverlayId::from_raw(42)),
        Command::SetOverlayHidden { overlay_id: OverlayId::from_raw(55), hidden: true },
    ];
    state.apply_commands(&mut registry, commands, COLUMNS, ROWS, &mut diagnostics);

    let diagnostics = diagnostics.join("\n");
    assert!(diagnostics.contains("command.root_set.missing_component_id"));
    assert!(diagnostics.contains("command.root_push.missing_component_id"));
    assert!(diagnostics.contains("focus.missing_target_component_id"));
    assert!(diagnostics.contains("command.show_overlay.missing_component_id"));
    assert!(diagnostics.contains("command.hide_overlay.missing_overlay_id"));
    assert!(diagnostics.contains("command.set_overlay_hidden.missing_overlay_id"));

    assert_eq!(state.root.len(), 1, "invalid root ids must not mutate root stack");
}

#[test]
fn commands_apply_before_input_in_same_tick() {
    let mut registry = ComponentRegistry::new();
    let (root_id, _root_h) = register(&mut registry);
    let (first_id, first_h) = register(&mut registry);
    let (second_id, second_h) = register(&mut registry);
    let mut state = RuntimeState::new();
    state.root = vec![root_id];
    let mut diagnostics = Vec::new();

    state.apply_commands(&mut registry, vec![Command::FocusSet(first_id)], COLUMNS, ROWS, &mut diagnostics);
    assert!(*first_h.focused.borrow());

    state.apply_commands(&mut registry, vec![Command::FocusSet(second_id)], COLUMNS, ROWS, &mut diagnostics);
    state.host.dispatch_input(&mut registry, "x", COLUMNS, ROWS, false);

    assert_eq!(second_h.inputs.borrow().as_slice(), &["x".to_string()]);
    assert!(first_h.inputs.borrow().is_empty());
    assert!(*second_h.focused.borrow());
    assert!(!*first_h.focused.borrow());
    assert!(diagnostics.is_empty());
}

#[test]
fn batch_keeps_the_last_title_without_rendering() {
    let mut registry = ComponentRegistry::new();
    let mut state = RuntimeState::new();
    let mut diagnostics = Vec::new();
    let fx = state.apply_commands(
        &mut registry,
        vec![Command::SetTitle("a".to_string()), Command::SetTitle("b".to_string())],
        COLUMNS,
        ROWS,
        &mut diagnostics,
    );
    assert_eq!(fx.title, Some("b".to_string()));
    assert!(!fx.render_requested);
    assert!(!fx.stop_requested);
}

#[test]
fn terminal_ops_become_output_and_renderer_notes() {
    let mut registry = ComponentRegistry::new();
    let mut state = RuntimeState::new();
    let mut diagnostics = Vec::new();
    let fx = state.apply_commands(
        &mut registry,
        vec![
            Command::Terminal(TerminalOp::HideCursor),
            Command::Terminal(TerminalOp::MoveBy(0)),
            Command::Terminal(TerminalOp::MoveBy(-3)),
            Command::Terminal(TerminalOp::MoveBy(2)),
        ],
        COLUMNS,
        ROWS,
        &mut diagnostics,
    );
    assert_eq!(fx.output, vec![TerminalCmd::HideCursor, TerminalCmd::MoveUp(3), TerminalCmd::MoveDown(2)]);
    assert_eq!(fx.renderer, vec![RendererNote::OutOfBandMove(-3), RendererNote::OutOfBandMove(2)]);
    assert!(!fx.render_requested);

    let fx = state.apply_commands(&mut registry, vec![Command::Terminal(TerminalOp::ClearScreen)], COLUMNS, ROWS, &mut diagnostics);
    assert_eq!(fx.output, vec![TerminalCmd::ClearScreen]);
    assert_eq!(fx.renderer, vec![RendererNote::ExternalClearScreen]);
    assert!(fx.render_requested);

    let fx = state.apply_commands(
        &mut registry,
        vec![Command::Terminal(TerminalOp::RequestFullRedraw), Command::RequestStop],
        COLUMNS,
        ROWS,
        &mut diagnostics,
    );
    assert!(fx.output.is_empty());
    assert_eq!(fx.renderer, vec![RendererNote::FullRedrawNext]);
    assert!(fx.render_requested);
    assert!(fx.stop_requested);
}

#[test]
fn root_commands_replace_and_extend_the_root_stack() {
    let mut registry = ComponentRegistry::new();
    let (a, _) = register(&mut registry);
    let (b, _) = register(&mut registry);
    let mut state = RuntimeState::new();
    let mut diagnostics = Vec::new();
    let fx = state.apply_commands(&mut registry, vec![Command::RootSet(vec![b, a]), Command::RootPush(b)], COLUMNS, ROWS, &mut diagnostics);
    assert_eq!(state.root, vec![b, a, b]);
    assert!(fx.render_requested);
    assert!(diagnostics.is_empty());
}

#[test]
fn one_batch_or_several_give_the_same_state() {
    let build = || {
        let mut registry = ComponentRegistry::new();
        let (root, _) = register(&mut registry);
        let (modal, _) = register(&mut registry);
        (registry, root, modal)
    };
    let commands = |root: ComponentId, modal: ComponentId| {
        vec![
            Command::RootSet(vec![root]),
            Command::FocusSet(root),
            Command::ShowSurface { surface_id: SurfaceId::from_raw(1), component: modal, options: None, hidden: false },
            Command::HideSurface(SurfaceId::from_raw(9)),
            Command::SetSurfaceHidden { surface_id: SurfaceId::from_raw(1), hidden: true },
        ]
    };

    let (mut registry_a, root, modal) = build();
    let mut a = RuntimeState::new();
    let mut diags_a = Vec::new();
    a.apply_commands(&mut registry_a, commands(root, modal), COLUMNS, ROWS, &mut diags_a);

    let (mut registry_b, root_b, modal_b) = build();
    let mut b = RuntimeState::new();
    let mut diags_b = Vec::new();
    for command in commands(root_b, modal_b) {
        b.apply_commands(&mut registry_b, vec![command], COLUMNS, ROWS, &mut diags_b);
    }

    assert_eq!(a.root, b.root);
    assert_eq!(a.host.focused(), b.host.focused());
    assert_eq!(a.host.focused(), Some(root));
    assert_eq!(a.host.surfaces().entries, b.host.surfaces().entries);
    assert_eq!(diags_a, diags_b);
    assert_eq!(diags_a.len(), 1);
}

#[test]
fn lanes_stack_toasts_on_top_and_drawers_below() {
    assert_eq!(reserve_lane(SurfaceKind::Toast, 2, 1, 3), (5, 1));
    assert_eq!(reserve_lane(SurfaceKind::Drawer, 2, 1, 3), (2, 4));
    assert_eq!(reserve_lane(SurfaceKind::AttachmentRow, 0, 0, 2), (0, 2));
    assert_eq!(reserve_lane(SurfaceKind::Modal, 2, 1, 3), (2, 1));
    assert_eq!(reserve_lane(SurfaceKind::Corner, 2, 1, 3), (2, 1));
    assert_eq!(reserve_lane(SurfaceKind::Toast, usize::MAX, 0, 3), (usize::MAX, 0));
}

#[test]
fn clipping_cuts_lines_and_drops_a_cursor_below_them() {
    let lines = vec!["a".to_string(), "b".to_string(), "c".to_string()];
    let (cut, cursor) = clip_surface(lines.clone(), Some(2), Some(CursorPos { row: 2, col: 0 }));
    assert_eq!(cut, vec!["a".to_string(), "b".to_string()]);
    assert_eq!(cursor, None);
    let (kept, cursor) = clip_surface(lines.clone(), None, Some(CursorPos { row: 2, col: 1 }));
    assert_eq!(kept, lines);
    assert_eq!(cursor, Some(CursorPos { row: 2, col: 1 }));
}

fn placed(lines: &[&str], row: usize, col: usize, width: usize, cursor: Option<CursorPos>) -> PlacedSurface {
    PlacedSurface { lines: lines.iter().map(|l| l.to_string()).collect(), row, col, width, cursor }
}

#[test]
fn viewport_covers_the_lowest_surface() {
    let surfaces = vec![placed(&["x", "y"], 8, 0, 4, None)];
    assert_eq!(surface_viewport(5, &surfaces, 3, 4), (10, 6));
    assert_eq!(surface_viewport(5, &surfaces, 12, 4), (12, 8));
    assert_eq!(surface_viewport(2, &Vec::new(), 0, 4), (2, 0));
}

#[test]
fn topmost_qualifying_surface_places_the_cursor() {
    let base = vec!["".to_string(); 10];
    let low = placed(&["ab"], 1, 2, 4, Some(CursorPos { row: 0, col: 1 }));
    let high = placed(&["cd"], 3, 5, 4, Some(CursorPos { row: 0, col: 0 }));
    let outside = placed(&["ef"], 4, 0, 1, Some(CursorPos { row: 0, col: 3 }));
    assert_eq!(overlay_cursor(&base, &vec![low, high], 2), Some(CursorPos { row: 5, col: 5 }));
    let low = placed(&["ab"], 1, 2, 4, Some(CursorPos { row: 0, col: 1 }));
    assert_eq!(overlay_cursor(&base, &vec![low, outside], 2), Some(CursorPos { row: 3, col: 3 }));
    let image = placed(&["\x1b_Gdata"], 0, 0, 4, Some(CursorPos { row: 0, col: 0 }));
    assert_eq!(overlay_cursor(&base, &vec![image], 0), None);
}

#[test]
fn key_release_filtered_unless_requested() {
    let (mut host, mut registry, _root, root_h, mut diags) = host_with_root();
    let report = host.dispatch_input(&mut registry, "\x1b[32;1:3u", COLUMNS, ROWS, false);
    assert!(root_h.inputs.borrow().is_empty());
    assert!(!report.consumed);

    let (wanting, wanting_h) = register_wanting_releases(&mut registry);
    host.set_focus(&mut registry, wanting, &mut diags);
    let report = host.dispatch_input(&mut registry, "\x1b[32;1:3u", COLUMNS, ROWS, false);
    assert_eq!(wanting_h.inputs.borrow().as_slice(), &["release:space".to_string()]);
    assert!(report.consumed);
}
