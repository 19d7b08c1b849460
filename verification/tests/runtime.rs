use tape_tui::runtime::ime::position_hardware_cursor;
use tape_tui::runtime::inline_viewport::InlineViewportState;
use tape_tui::runtime::output::{Terminal, TerminalCmd};
use tape_tui::runtime::tui::{find_cell_size_response, is_partial_cell_size, CrashCleanup};
use std::cell::RefCell;
use std::rc::Rc;

use tape_tui::runtime::component_registry::ComponentRegistry;
use tape_tui::runtime::focus::FocusState;
use tape_tui::widgets::cancellable_loader::AbortSignal;
use tape_tui::{Component, CursorPos, Focusable};

#[derive(Default)]
struct TestTerminal {
    output: String,
}

impl Terminal for TestTerminal {
    fn write(&mut self, data: &str) {
        self.output.push_str(data);
    }
}

#[test]
fn positions_hardware_cursor_with_row_and_col() {
    let pos = CursorPos { row: 2, col: 3 };
    let (new_row, cmds) = position_hardware_cursor(Some(pos), 3, 0, true);
    assert_eq!(new_row, 2);
    assert_eq!(
        cmds,
        vec![TerminalCmd::MoveDown(2), TerminalCmd::ColumnAbs(4), TerminalCmd::ShowCursor],
        "unexpected cursor positioning cmds: {cmds:?}"
    );
}

#[test]
fn follow_tail_anchor_tracks_latest_lines() {
    let mut state = InlineViewportState::default();
    state.note_terminal_height(4);
    state.update_total_lines(10);

    assert!(state.is_following_tail());
    assert_eq!(state.viewport_top(), 6);
}

#[test]
fn scroll_offset_clamps_when_resize_reduces_available_history() {
    let mut state = InlineViewportState::default();
    state.note_terminal_height(5);
    state.update_total_lines(20);
    state.set_scroll_offset_from_tail(6);

    assert_eq!(state.viewport_top(), 9);
    assert_eq!(state.scroll_offset_from_tail(), 6);

    state.note_terminal_height(18);

    assert_eq!(state.scroll_offset_from_tail(), 2);
    assert_eq!(state.viewport_top(), 0);
}

#[test]
fn cursor_clamp_respects_current_viewport_window() {
    let mut state = InlineViewportState::default();
    state.note_terminal_height(4);
    state.update_total_lines(10);

    assert_eq!(state.clamp_cursor(Some(CursorPos { row: 5, col: 0 })), None);
    assert_eq!(
        state.clamp_cursor(Some(CursorPos { row: 7, col: 0 })),
        Some(CursorPos { row: 7, col: 0 })
    );

    state.set_scroll_offset_from_tail(2);
    assert_eq!(state.viewport_top(), 4);
    assert_eq!(
        state.clamp_cursor(Some(CursorPos { row: 5, col: 0 })),
        Some(CursorPos { row: 5, col: 0 })
    );
}

#[test]
fn crash_cleanup_writes_expected_bytes_and_is_idempotent() {
    let mut cleanup = CrashCleanup::default();
    let mut terminal = TestTerminal::default();

    cleanup.run(&mut terminal);
    cleanup.run(&mut terminal);

    assert_eq!(terminal.output, "\x1b[?25h\x1b[?2004l\x1b[<u");
}

#[test]
fn parse_cell_size_response_extracts_dimensions() {
    let data = "\x1b[6;18;9t";
    let parsed = find_cell_size_response(data);
    assert_eq!(parsed, Some((0, data.len(), 18, 9)));
}

#[test]
fn cell_size_response_is_found_after_other_input() {
    let data = "ab\x1b[6;7;99999999999t";
    assert_eq!(find_cell_size_response(data), Some((2, data.len(), 7, u32::MAX)));
    assert_eq!(find_cell_size_response("\x1b[6;;9t"), None);
    assert_eq!(find_cell_size_response("\x1b[6;18;9"), None);
}

#[test]
fn partial_cell_size_reply_is_recognised() {
    assert!(is_partial_cell_size("x\x1b[6;18"));
    assert!(!is_partial_cell_size("x\x1b[6;18;9t"));
    assert!(!is_partial_cell_size("plain"));
    assert!(!is_partial_cell_size("\x1b[6;1x"));
}

struct FocusProbe {
    focused: Rc<RefCell<bool>>,
}

impl Component for FocusProbe {
    fn render(&mut self, _width: usize) -> Vec<String> {
        Vec::new()
    }

    fn as_focusable(&mut self) -> Option<&mut dyn Focusable> {
        Some(self)
    }
}

impl Focusable for FocusProbe {
    fn set_focused(&mut self, focused: bool) {
        *self.focused.borrow_mut() = focused;
    }

    fn is_focused(&self) -> bool {
        *self.focused.borrow()
    }
}

#[test]
fn focus_toggles_flags() {
    let mut registry = ComponentRegistry::new();
    let mut focus = FocusState::new();
    let first_flag = Rc::new(RefCell::new(false));
    let second_flag = Rc::new(RefCell::new(false));
    let first = registry.register_boxed(Box::new(FocusProbe { focused: Rc::clone(&first_flag) }));
    let second = registry.register_boxed(Box::new(FocusProbe { focused: Rc::clone(&second_flag) }));

    focus.set_focus(&mut registry, Some(first));
    assert!(*first_flag.borrow());
    assert!(!*second_flag.borrow());

    focus.set_focus(&mut registry, Some(second));
    assert!(!*first_flag.borrow());
    assert!(*second_flag.borrow());

    focus.clear(&mut registry);
    assert!(!*first_flag.borrow());
    assert!(!*second_flag.borrow());
    assert_eq!(focus.focused(), None);
}

#[test]
fn abort_signal_is_shared_and_reports_first_abort() {
    let signal = AbortSignal::new();
    let copy = signal.clone();
    assert!(!copy.aborted());
    assert!(!signal.abort());
    assert!(copy.aborted());
    assert!(copy.abort());
}

use tape_tui::runtime::component_registry::ComponentId;
use tape_tui::runtime::output::OutputGate;
use tape_tui::runtime::surface::{
    allocate_surface_budgets, SurfaceEntry, SurfaceId, SurfaceInputPolicy, SurfaceKind, SurfaceLane,
    SurfaceMeasurement, SurfaceRouting, SurfaceState, SurfaceVisibility,
};
use tape_tui::runtime::tui::{format_runtime_diagnostic, CustomCommandError};

fn entry(id: u64, hidden: bool, policy: SurfaceInputPolicy) -> SurfaceEntry {
    SurfaceEntry {
        id: SurfaceId::from_raw(id),
        component_id: ComponentId::from_raw(100 + id),
        options: Some(SurfaceRouting { visibility: SurfaceVisibility::Always, input_policy: policy }),
        pre_focus: None,
        hidden,
    }
}

fn stack(ids: &[u64]) -> SurfaceState {
    let mut state = SurfaceState::new();
    for id in ids {
        state.entries.push(entry(*id, false, SurfaceInputPolicy::Capture));
    }
    state
}

fn order(state: &SurfaceState) -> Vec<u64> {
    state.entries.iter().map(|e| e.id.raw()).collect()
}

#[test]
fn z_order_moves_are_absolute_or_adjacent_and_edges_are_no_ops() {
    let mut s = stack(&[1, 2, 3, 4]);
    assert!(s.bring_to_front(SurfaceId::from_raw(2)));
    assert_eq!(order(&s), vec![1, 3, 4, 2]);
    assert!(!s.bring_to_front(SurfaceId::from_raw(2)));
    assert_eq!(order(&s), vec![1, 3, 4, 2]);
    assert!(s.send_to_back(SurfaceId::from_raw(4)));
    assert_eq!(order(&s), vec![4, 1, 3, 2]);
    assert!(!s.send_to_back(SurfaceId::from_raw(4)));
    assert!(s.raise(SurfaceId::from_raw(1)));
    assert_eq!(order(&s), vec![4, 3, 1, 2]);
    assert!(s.lower(SurfaceId::from_raw(1)));
    assert_eq!(order(&s), vec![4, 1, 3, 2]);
    assert!(!s.raise(SurfaceId::from_raw(2)));
    assert!(!s.lower(SurfaceId::from_raw(4)));
    assert!(!s.raise(SurfaceId::from_raw(9)));
    assert_eq!(order(&s), vec![4, 1, 3, 2]);
    assert_eq!(s.index_of(SurfaceId::from_raw(3)), Some(2));
    assert!(s.contains(SurfaceId::from_raw(1)));
    assert!(!s.contains(SurfaceId::from_raw(7)));
}

#[test]
fn hidden_surface_reordering_keeps_topmost_capture_target() {
    let mut s = SurfaceState::new();
    s.entries.push(entry(3, true, SurfaceInputPolicy::Capture));
    s.entries.push(entry(1, false, SurfaceInputPolicy::Capture));
    s.entries.push(entry(2, false, SurfaceInputPolicy::Passthrough));
    assert_eq!(s.topmost_visible_component(80, 24, true), Some(ComponentId::from_raw(101)));
    assert_eq!(s.topmost_visible_component(80, 24, false), Some(ComponentId::from_raw(102)));
    assert!(s.bring_to_front(SurfaceId::from_raw(3)));
    s.send_to_back(SurfaceId::from_raw(3));
    assert_eq!(s.topmost_visible_component(80, 24, true), Some(ComponentId::from_raw(101)));
    assert_eq!(
        s.visible_components(80, 24),
        vec![ComponentId::from_raw(101), ComponentId::from_raw(102)]
    );
    assert!(s.has_visible(80, 24));
    let mut only_hidden = SurfaceState::new();
    only_hidden.entries.push(entry(5, true, SurfaceInputPolicy::Capture));
    assert!(!only_hidden.has_visible(80, 24));
    assert_eq!(only_hidden.topmost_visible_component(80, 24, false), None);
}

#[test]
fn allocation_reserves_lanes_in_order_and_clamps_to_terminal() {
    let m = |id: u64, kind: SurfaceKind, width: usize, height: Option<usize>| SurfaceMeasurement {
        component_id: ComponentId::from_raw(id),
        stack_index: id as usize,
        kind,
        lane: SurfaceLane::from_kind(kind),
        preferred_width: width,
        preferred_max_height: height,
    };
    let ms = vec![
        m(0, SurfaceKind::Toast, 30, Some(3)),
        m(1, SurfaceKind::Drawer, 200, Some(4)),
        m(2, SurfaceKind::Modal, 0, None),
        m(3, SurfaceKind::Drawer, 10, Some(50)),
    ];
    let a = allocate_surface_budgets(&ms, 80, 10);
    assert_eq!(a.len(), 4);
    assert_eq!((a[0].allocated_width, a[0].allocated_rows, a[0].reserved_top), (30, 3, 0));
    assert_eq!((a[1].allocated_width, a[1].allocated_rows, a[1].reserved_top), (80, 4, 3));
    assert_eq!((a[2].allocated_width, a[2].allocated_rows), (1, 3));
    assert_eq!((a[2].reserved_top, a[2].reserved_bottom), (3, 4));
    assert_eq!((a[3].allocated_rows, a[3].reserved_bottom), (3, 4));
    let zero = allocate_surface_budgets(&ms, 0, 0);
    assert_eq!(zero[0].allocated_rows, 1);
    assert_eq!(zero[1].allocated_rows, 0);
    assert_eq!(zero[1].allocated_width, 1);
}

#[test]
fn diagnostics_and_errors_render_as_text() {
    assert_eq!(
        format_runtime_diagnostic("warn", "surface.missing", "no surface 7"),
        "[tape_tui][warn][surface.missing] no surface 7"
    );
    assert_eq!(
        CustomCommandError::MissingComponentId(ComponentId::from_raw(12)).to_message(),
        "missing component id 12"
    );
    assert_eq!(
        CustomCommandError::InvalidState("busy".to_string()).to_message(),
        "invalid state: busy"
    );
    assert_eq!(CustomCommandError::Message("x".to_string()).to_message(), "x");
}

#[test]
fn output_gate_writes_pending_commands_once_in_order() {
    let mut gate = OutputGate::new();
    let mut term = TestTerminal::default();
    gate.flush(&mut term);
    assert_eq!(term.output, "");
    gate.push(TerminalCmd::HideCursor);
    gate.push(TerminalCmd::ShowCursor);
    let expected = gate.encode_all();
    assert_eq!(expected, "\x1b[?25l\x1b[?25h");
    gate.flush(&mut term);
    assert_eq!(term.output, expected);
    gate.flush(&mut term);
    assert_eq!(term.output, expected);
}

fn surface_entry(id: u64, component: u64, hidden: bool, policy: SurfaceInputPolicy) -> SurfaceEntry {
    SurfaceEntry {
        id: SurfaceId::from_raw(id),
        component_id: ComponentId::from_raw(component),
        options: Some(SurfaceRouting { visibility: SurfaceVisibility::Always, input_policy: policy }),
        pre_focus: None,
        hidden,
    }
}

#[test]
fn surface_layout_visibility_matrix_is_deterministic() {
    let visibility = SurfaceVisibility::MinSize { cols: 80, rows: 24 };
    assert!(visibility.allows(80, 24));
    assert!(visibility.allows(120, 40));
    assert!(!visibility.allows(79, 24));
    assert!(!visibility.allows(80, 23));
}

/// The measurement pass resolves these sizes from the surface options; the allocation pass
/// is what this exercises.
fn measured(id: u64, kind: SurfaceKind, width: usize, max_height: Option<usize>) -> SurfaceMeasurement {
    SurfaceMeasurement {
        component_id: ComponentId::from_raw(id),
        stack_index: id as usize,
        kind,
        lane: SurfaceLane::from_kind(kind),
        preferred_width: width,
        preferred_max_height: max_height,
    }
}

#[test]
fn allocation_pass_clamps_lane_budgets_under_tiny_terminal_constraints() {
    // Toast, drawer and modal, each at most 8 rows, measured on a 20 x 3 terminal.
    let measurements = vec![
        measured(0, SurfaceKind::Toast, 20, Some(3)),
        measured(1, SurfaceKind::Drawer, 20, Some(3)),
        measured(2, SurfaceKind::Modal, 20, Some(3)),
    ];
    let allocations = allocate_surface_budgets(&measurements, 20, 3);

    assert_eq!(allocations.len(), 3);

    assert_eq!(allocations[0].lane, SurfaceLane::Top);
    assert_eq!(allocations[0].reserved_top, 0);
    assert_eq!(allocations[0].reserved_bottom, 0);
    assert_eq!(allocations[0].allocated_rows, 3);

    assert_eq!(allocations[1].lane, SurfaceLane::Bottom);
    assert_eq!(allocations[1].reserved_top, 3);
    assert_eq!(allocations[1].reserved_bottom, 0);
    assert_eq!(allocations[1].allocated_rows, 0);

    assert_eq!(allocations[2].lane, SurfaceLane::Floating);
    assert_eq!(allocations[2].reserved_top, 3);
    assert_eq!(allocations[2].reserved_bottom, 0);
    assert_eq!(allocations[2].allocated_rows, 0);
}

#[test]
fn allocation_pass_preserves_lane_interaction_order_and_replay_determinism() {
    // Toast (2 rows), corner (99), drawer (2), attachment row (2), measured on 30 x 4.
    let measurements = vec![
        measured(0, SurfaceKind::Toast, 30, Some(2)),
        measured(1, SurfaceKind::Corner, 30, Some(4)),
        measured(2, SurfaceKind::Drawer, 30, Some(2)),
        measured(3, SurfaceKind::AttachmentRow, 30, Some(2)),
    ];
    let baseline = allocate_surface_budgets(&measurements, 30, 4);
    let rerun = allocate_surface_budgets(&measurements, 30, 4);

    assert_eq!(rerun, baseline);
    assert_eq!(baseline.len(), 4);

    assert_eq!(baseline[0].lane, SurfaceLane::Top);
    assert_eq!(baseline[0].allocated_rows, 2);

    assert_eq!(baseline[1].lane, SurfaceLane::Floating);
    assert_eq!(baseline[1].reserved_top, 2);
    assert_eq!(baseline[1].reserved_bottom, 0);
    assert_eq!(baseline[1].allocated_rows, 2);

    assert_eq!(baseline[2].lane, SurfaceLane::Bottom);
    assert_eq!(baseline[2].reserved_top, 2);
    assert_eq!(baseline[2].reserved_bottom, 0);
    assert_eq!(baseline[2].allocated_rows, 2);

    assert_eq!(baseline[3].lane, SurfaceLane::Bottom);
    assert_eq!(baseline[3].reserved_top, 2);
    assert_eq!(baseline[3].reserved_bottom, 2);
    assert_eq!(baseline[3].allocated_rows, 0);
}

#[test]
fn surface_state_reorder_primitives_follow_noop_and_move_contracts() {
    let mut state = SurfaceState::new();
    state.entries.push(surface_entry(10, 0, false, SurfaceInputPolicy::Capture));
    state.entries.push(surface_entry(11, 1, false, SurfaceInputPolicy::Capture));
    state.entries.push(surface_entry(12, 2, false, SurfaceInputPolicy::Capture));

    assert!(!state.bring_to_front(SurfaceId::from_raw(12)));
    assert!(!state.send_to_back(SurfaceId::from_raw(10)));
    assert!(!state.raise(SurfaceId::from_raw(12)));
    assert!(!state.lower(SurfaceId::from_raw(10)));
    assert!(!state.bring_to_front(SurfaceId::from_raw(99)));

    assert!(state.raise(SurfaceId::from_raw(11)));
    assert_eq!(order(&state), vec![10, 12, 11]);

    assert!(state.lower(SurfaceId::from_raw(12)));
    assert_eq!(order(&state), vec![12, 10, 11]);

    assert!(state.bring_to_front(SurfaceId::from_raw(12)));
    assert_eq!(order(&state), vec![10, 11, 12]);

    assert!(state.send_to_back(SurfaceId::from_raw(11)));
    assert_eq!(order(&state), vec![11, 10, 12]);
}

#[test]
fn hidden_surfaces_can_reorder_without_changing_visible_capture_winner() {
    let c = |i: u64| ComponentId::from_raw(i);
    let mut state = SurfaceState::new();
    state.entries.push(surface_entry(20, 0, false, SurfaceInputPolicy::Capture));
    state.entries.push(surface_entry(21, 1, true, SurfaceInputPolicy::Capture));
    state.entries.push(surface_entry(22, 2, false, SurfaceInputPolicy::Capture));

    assert_eq!(state.topmost_visible_component(80, 24, true), Some(c(2)));

    assert!(state.bring_to_front(SurfaceId::from_raw(20)));
    assert_eq!(order(&state), vec![21, 22, 20]);
    assert_eq!(state.topmost_visible_component(80, 24, true), Some(c(0)));

    assert!(state.bring_to_front(SurfaceId::from_raw(21)));
    assert_eq!(order(&state), vec![22, 20, 21]);
    assert_eq!(state.topmost_visible_component(80, 24, true), Some(c(0)));

    assert!(state.lower(SurfaceId::from_raw(20)));
    assert_eq!(order(&state), vec![20, 22, 21]);
    assert_eq!(state.topmost_visible_component(80, 24, true), Some(c(2)));
}
