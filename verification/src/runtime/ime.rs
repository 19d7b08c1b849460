//! Hardware cursor positioning for IME candidate windows.

use vstd::prelude::*;

use crate::cursor::CursorPos;
use crate::runtime::output::TerminalCmd;

verus! {

/// Commands that move the hardware cursor from `hw_row` to `cursor_pos` (its row clamped to
/// the rendered lines), and the row it ends on. Without a position or lines, it is hidden.
pub open spec fn hardware_cursor_plan(
    cursor_pos: Option<CursorPos>,
    total_lines: nat,
    hw_row: nat,
    show: bool,
) -> (nat, Seq<TerminalCmd>) {
    match cursor_pos {
        None => (hw_row, seq![TerminalCmd::HideCursor]),
        Some(pos) => if total_lines == 0 {
            (hw_row, seq![TerminalCmd::HideCursor])
        } else {
            let target = if pos.row < total_lines - 1 {
                pos.row as nat
            } else {
                (total_lines - 1) as nat
            };
            let moves = if target > hw_row {
                seq![TerminalCmd::MoveDown((target - hw_row) as usize)]
            } else if target < hw_row {
                seq![TerminalCmd::MoveUp((hw_row - target) as usize)]
            } else {
                Seq::empty()
            };
            (target, moves + seq![
                TerminalCmd::ColumnAbs((pos.col + 1) as usize),
                if show {
                    TerminalCmd::ShowCursor
                } else {
                    TerminalCmd::HideCursor
                },
            ])
        },
    }
}

pub fn position_hardware_cursor(
    cursor_pos: Option<CursorPos>,
    total_lines: usize,
    hardware_cursor_row: usize,
    show_hardware_cursor: bool,
) -> (r: (usize, Vec<TerminalCmd>))
    requires
        cursor_pos matches Some(p) ==> p.col < usize::MAX,
    ensures
        (r.0 as nat, r.1@) == hardware_cursor_plan(
            cursor_pos,
            total_lines as nat,
            hardware_cursor_row as nat,
            show_hardware_cursor,
        ),
{
    let mut cmds: Vec<TerminalCmd> = Vec::new();
    let pos = match cursor_pos {
        None => {
            cmds.push(TerminalCmd::HideCursor);
            assert(cmds@ =~= seq![TerminalCmd::HideCursor]);
            return (hardware_cursor_row, cmds);
        },
        Some(p) => p,
    };
    if total_lines == 0 {
        cmds.push(TerminalCmd::HideCursor);
        assert(cmds@ =~= seq![TerminalCmd::HideCursor]);
        return (hardware_cursor_row, cmds);
    }
    let target = if pos.row < total_lines - 1 {
        pos.row
    } else {
        total_lines - 1
    };
    if target > hardware_cursor_row {
        cmds.push(TerminalCmd::MoveDown(target - hardware_cursor_row));
    } else if target < hardware_cursor_row {
        cmds.push(TerminalCmd::MoveUp(hardware_cursor_row - target));
    }
    let ghost moves = cmds@;
    cmds.push(TerminalCmd::ColumnAbs(pos.col + 1));
    if show_hardware_cursor {
        cmds.push(TerminalCmd::ShowCursor);
    } else {
        cmds.push(TerminalCmd::HideCursor);
    }
    assert(cmds@ =~= moves + seq![
        TerminalCmd::ColumnAbs((pos.col + 1) as usize),
        if show_hardware_cursor {
            TerminalCmd::ShowCursor
        } else {
            TerminalCmd::HideCursor
        },
    ]);
    (target, cmds)
}

} // verus!
