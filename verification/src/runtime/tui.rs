//! Runtime support: render coalescing budget, crash cleanup, diagnostics, command errors and
//! detection of terminal cell-size replies in input.

use vstd::prelude::*;
use vstd::string::StringSliceAdditionalSpecFns;

use crate::chars::{chars_of, extend_chars, string_of};
use crate::digits::{decimal, decimal_chars_u64};
use crate::runtime::component_registry::ComponentId;
use crate::runtime::output::{cmds_bytes, OutputGate, Terminal, TerminalCmd};
use crate::runtime::overlay::OverlayId;

verus! {

/// Limits how long and how many times the runtime keeps draining work before it renders.
#[derive(Clone, Copy, Debug)]
pub struct CoalesceBudget {
    pub max_duration_micros: u64,
    pub max_iterations: usize,
}

impl CoalesceBudget {
    /// At most 2 ms and 8 iterations.
    pub fn new() -> (r: Self)
        ensures
            r.max_duration_micros == 2000,
            r.max_iterations == 8,
    {
        CoalesceBudget { max_duration_micros: 2000, max_iterations: 8 }
    }

    /// Whether another iteration may run after `elapsed_micros` and `iterations` so far.
    pub fn allows(&self, elapsed_micros: u64, iterations: usize) -> (r: bool)
        ensures
            r == (elapsed_micros < self.max_duration_micros && iterations < self.max_iterations),
    {
        elapsed_micros < self.max_duration_micros && iterations < self.max_iterations
    }
}

impl Default for CoalesceBudget {
    fn default() -> (r: Self)
        ensures
            r.max_duration_micros == 2000,
            r.max_iterations == 8,
    {
        CoalesceBudget::new()
    }
}

/// Commands that restore the terminal after a crash: show the cursor, disable bracketed paste,
/// leave the Kitty keyboard protocol.
pub open spec fn crash_cleanup_cmds() -> Seq<TerminalCmd> {
    seq![TerminalCmd::ShowCursor, TerminalCmd::BracketedPasteDisable, TerminalCmd::KittyDisable]
}

/// Best-effort terminal restoration that runs at most once.
pub struct CrashCleanup {
    ran: bool,
    sent: Ghost<Seq<char>>,
}

impl CrashCleanup {
    pub closed spec fn has_run(&self) -> bool {
        self.ran
    }

    /// The bytes this cleanup has written to terminals, in order.
    pub closed spec fn sent(&self) -> Seq<char> {
        self.sent@
    }

    pub fn new() -> (r: Self)
        ensures
            !r.has_run(),
            r.sent() == Seq::<char>::empty(),
    {
        CrashCleanup { ran: false, sent: Ghost(Seq::empty()) }
    }

    /// The bytes that cleanup writes.
    pub fn cleanup_bytes() -> (r: String)
        ensures
            r@ == cmds_bytes(crash_cleanup_cmds()),
    {
        let mut output = OutputGate::new();
        output.push(TerminalCmd::ShowCursor);
        output.push(TerminalCmd::BracketedPasteDisable);
        output.push(TerminalCmd::KittyDisable);
        assert(output.pending() =~= crash_cleanup_cmds());
        output.encode_all()
    }

    /// Writes the cleanup bytes in one write the first time; later calls write nothing.
    /// Returns whether it wrote.
    pub fn run<T: Terminal>(&mut self, terminal: &mut T) -> (wrote: bool)
        ensures
            wrote == !old(self).has_run(),
            final(self).has_run(),
            final(self).sent() == old(self).sent() + if wrote {
                cmds_bytes(crash_cleanup_cmds())
            } else {
                Seq::empty()
            },
    {
        if self.ran {
            assert(self.sent@ + Seq::<char>::empty() =~= self.sent@);
            return false;
        }
        self.ran = true;
        let bytes = Self::cleanup_bytes();
        let ghost b = bytes@;
        terminal.write(bytes.as_str());
        self.sent = Ghost(self.sent@ + b);
        true
    }
}

impl Default for CrashCleanup {
    fn default() -> (r: Self)
        ensures
            !r.has_run(),
            r.sent() == Seq::<char>::empty(),
    {
        CrashCleanup::new()
    }
}

/// `[tape_tui][level][code] message`.
pub open spec fn diagnostic_text(level: Seq<char>, code: Seq<char>, message: Seq<char>) -> Seq<char> {
    seq!['[', 't', 'a', 'p', 'e', '_', 't', 'u', 'i', ']', '['] + level + seq![']', '['] + code + seq![']', ' ']
        + message
}

pub fn format_runtime_diagnostic(level: &str, code: &str, message: &str) -> (r: String)
    ensures
        r@ == diagnostic_text(level@, code@, message@),
{
    let mut v = vec!['[', 't', 'a', 'p', 'e', '_', 't', 'u', 'i', ']', '['];
    extend_chars(&mut v, chars_of(level).as_slice());
    extend_chars(&mut v, &[']', '[']);
    extend_chars(&mut v, chars_of(code).as_slice());
    extend_chars(&mut v, &[']', ' ']);
    extend_chars(&mut v, chars_of(message).as_slice());
    assert(v@ =~= diagnostic_text(level@, code@, message@));
    string_of(v.as_slice())
}

/// Errors that custom runtime commands report.
#[derive(Debug, Clone, PartialEq, Eq)]
pub enum CustomCommandError {
    MissingComponentId(ComponentId),
    MissingOverlayId(OverlayId),
    InvalidState(String),
    Message(String),
}

pub open spec fn error_text(e: CustomCommandError) -> Seq<char> {
    match e {
        CustomCommandError::MissingComponentId(id) => seq!['m', 'i', 's', 's', 'i', 'n', 'g', ' ', 'c', 'o', 'm', 'p', 'o', 'n', 'e', 'n', 't', ' ', 'i', 'd', ' '] + decimal(id.id()),
        CustomCommandError::MissingOverlayId(id) => seq!['m', 'i', 's', 's', 'i', 'n', 'g', ' ', 'o', 'v', 'e', 'r', 'l', 'a', 'y', ' ', 'i', 'd', ' '] + decimal(id.id()),
        CustomCommandError::InvalidState(m) => seq!['i', 'n', 'v', 'a', 'l', 'i', 'd', ' ', 's', 't', 'a', 't', 'e', ':', ' '] + m@,
        CustomCommandError::Message(m) => m@,
    }
}

impl CustomCommandError {
    /// Human-readable message: `missing component id N`, `missing overlay id N`,
    /// `invalid state: ...`, or the message itself.
    pub fn to_message(&self) -> (r: String)
        ensures
            r@ == error_text(*self),
    {
        let v: Vec<char> = match self {
            CustomCommandError::MissingComponentId(id) => {
                let mut v = vec!['m', 'i', 's', 's', 'i', 'n', 'g', ' ', 'c', 'o', 'm', 'p', 'o', 'n', 'e', 'n', 't', ' ', 'i', 'd', ' '];
                extend_chars(&mut v, decimal_chars_u64(id.raw()).as_slice());
                v
            },
            CustomCommandError::MissingOverlayId(id) => {
                let mut v = vec!['m', 'i', 's', 's', 'i', 'n', 'g', ' ', 'o', 'v', 'e', 'r', 'l', 'a', 'y', ' ', 'i', 'd', ' '];
                extend_chars(&mut v, decimal_chars_u64(id.raw()).as_slice());
                v
            },
            CustomCommandError::InvalidState(m) => {
                let mut v = vec!['i', 'n', 'v', 'a', 'l', 'i', 'd', ' ', 's', 't', 'a', 't', 'e', ':', ' '];
                extend_chars(&mut v, chars_of(m.as_str()).as_slice());
                v
            },
            CustomCommandError::Message(m) => chars_of(m.as_str()),
        };
        assert(v@ =~= error_text(*self));
        string_of(v.as_slice())
    }
}

/// Terminal operations that commands can request.
#[derive(Debug, Clone, Copy, PartialEq, Eq, Structural)]
pub enum TerminalOp {
    ShowCursor,
    HideCursor,
    ClearLine,
    ClearFromCursor,
    ClearScreen,
    MoveBy(i32),
    /// Request that the next render redraw the full viewport.
    RequestFullRedraw,
}

pub open spec fn is_digit_byte(b: u8) -> bool {
    0x30 <= b && b <= 0x39
}

/// Index of the first non-digit byte at or after `j`.
pub open spec fn digits_end(b: Seq<u8>, j: int) -> int
    decreases b.len() - j,
{
    if j < 0 || j >= b.len() || !is_digit_byte(b[j]) {
        j
    } else {
        digits_end(b, j + 1)
    }
}

pub open spec fn sat_u32(n: nat) -> u32 {
    if n <= u32::MAX {
        n as u32
    } else {
        u32::MAX
    }
}

/// Decimal value of `b[j..e]`, saturating at `u32::MAX` at every step.
pub open spec fn digits_value(b: Seq<u8>, j: int, e: int) -> u32
    decreases e - j,
{
    if e <= j {
        0
    } else {
        sat_u32((sat_u32((digits_value(b, j, e - 1) as nat) * 10) as nat + (b[e - 1] - 0x30) as nat) as nat)
    }
}

/// The reply `ESC [ 6 ; height ; width t` parsed at `i`: its end and the two numbers.
pub open spec fn reply_at(b: Seq<u8>, i: int) -> Option<(int, u32, u32)> {
    if i + 4 >= b.len() || !(b[i] == 0x1b && b[i + 1] == 0x5b && b[i + 2] == 0x36 && b[i + 3] == 0x3b) {
        None
    } else {
        let e1 = digits_end(b, i + 4);
        if e1 == i + 4 || e1 >= b.len() || b[e1] != 0x3b {
            None
        } else {
            let e2 = digits_end(b, e1 + 1);
            if e2 == e1 + 1 || e2 >= b.len() || b[e2] != 0x74 {
                None
            } else {
                Some((e2 + 1, digits_value(b, i + 4, e1), digits_value(b, e1 + 1, e2)))
            }
        }
    }
}

/// The first cell-size reply starting at or after `i`: `(start, end, height, width)`.
pub open spec fn first_reply_from(b: Seq<u8>, i: int) -> Option<(int, int, u32, u32)>
    decreases b.len() - i,
{
    if i < 0 || i + 4 >= b.len() {
        None
    } else {
        match reply_at(b, i) {
            Some((end, h, w)) => Some((i, end, h, w)),
            None => first_reply_from(b, i + 1),
        }
    }
}

pub proof fn lemma_digits_end_bounds(b: Seq<u8>, j: int)
    requires
        0 <= j <= b.len(),
    ensures
        j <= digits_end(b, j) <= b.len(),
        forall|k: int| j <= k < digits_end(b, j) ==> is_digit_byte(#[trigger] b[k]),
        digits_end(b, j) < b.len() ==> !is_digit_byte(b[digits_end(b, j)]),
    decreases b.len() - j,
{
    if j < b.len() && is_digit_byte(b[j]) {
        lemma_digits_end_bounds(b, j + 1);
    }
}

/// Reads the digits at `j` and returns their end and saturated value.
fn read_number(b: &[u8], j: usize) -> (r: (usize, u32))
    requires
        j <= b@.len(),
    ensures
        r.0 as int == digits_end(b@, j as int),
        r.1 == digits_value(b@, j as int, r.0 as int),
{
    proof {
        lemma_digits_end_bounds(b@, j as int);
    }
    let mut k = j;
    let mut value: u32 = 0;
    while k < b.len() && b[k] >= 0x30 && b[k] <= 0x39
        invariant
            j <= k <= b@.len(),
            digits_end(b@, j as int) == digits_end(b@, k as int),
            value == digits_value(b@, j as int, k as int),
        decreases b@.len() - k,
    {
        let times_ten: u32 = if value > 429496729 { 4294967295 } else { value * 10 };
        value = times_ten.saturating_add((b[k] - 0x30) as u32);
        k += 1;
    }
    (k, value)
}

fn reply_at_exec(b: &[u8], i: usize) -> (r: Option<(usize, u32, u32)>)
    requires
        i + 4 < b@.len(),
    ensures
        match reply_at(b@, i as int) {
            Some((e, h, w)) => r == Some((e as usize, h, w)),
            None => r is None,
        },
{
    if !(b[i] == 0x1b && b[i + 1] == 0x5b && b[i + 2] == 0x36 && b[i + 3] == 0x3b) {
        return None;
    }
    let (e1, h) = read_number(b, i + 4);
    if e1 == i + 4 || e1 >= b.len() || b[e1] != 0x3b {
        return None;
    }
    let (e2, w) = read_number(b, e1 + 1);
    if e2 == e1 + 1 || e2 >= b.len() || b[e2] != 0x74 {
        return None;
    }
    Some((e2 + 1, h, w))
}

/// Finds the first terminal reply `ESC [ 6 ; height ; width t` in `buffer` and returns its
/// byte range and the two numbers (each saturating at `u32::MAX`).
pub fn find_cell_size_response(buffer: &str) -> (r: Option<(usize, usize, u32, u32)>)
    ensures
        match first_reply_from(buffer.spec_bytes(), 0) {
            Some((s, e, h, w)) => r == Some((s as usize, e as usize, h, w)),
            None => r is None,
        },
{
    let bytes = buffer.as_bytes();
    let mut i: usize = 0;
    while bytes.len() > 4 && i < bytes.len() - 4
        invariant
            bytes@ == buffer.spec_bytes(),
            i <= bytes@.len(),
            first_reply_from(bytes@, 0) == first_reply_from(bytes@, i as int),
        decreases bytes@.len() - i,
    {
        match reply_at_exec(bytes, i) {
            Some((end, h, w)) => {
                return Some((i, end, h, w));
            },
            None => {},
        }
        i += 1;
    }
    None
}

pub open spec fn partial_byte(b: u8) -> bool {
    b == 0x1b || b == 0x5b || b == 0x36 || b == 0x3b || is_digit_byte(b)
}

/// Whether `ESC [ 6` starts at `i` in `b`.
pub open spec fn query_at(b: Seq<u8>, i: int) -> bool {
    0 <= i && i + 3 <= b.len() && b[i] == 0x1b && b[i + 1] == 0x5b && b[i + 2] == 0x36
}

/// Whether `ESC [ 6` starts at `i` and at no later position of `b`.
pub open spec fn last_query_at(b: Seq<u8>, i: int) -> bool {
    query_at(b, i) && forall|j: int| i < j ==> !#[trigger] query_at(b, j)
}

/// Start of the last occurrence of `ESC [ 6` in `b`.
pub open spec fn last_query_start(b: Seq<u8>) -> Option<int> {
    if exists|i: int| #[trigger] query_at(b, i) {
        Some(choose|i: int| last_query_at(b, i))
    } else {
        None
    }
}

/// Whether `b` ends with the beginning of a cell-size reply that is still incomplete: from its
/// last `ESC [ 6` on, it holds only reply characters and no final `t`.
pub open spec fn partial_reply(b: Seq<u8>) -> bool {
    match last_query_start(b) {
        None => false,
        Some(s) => forall|k: int| s <= k < b.len() ==> partial_byte(#[trigger] b[k]),
    }
}

pub fn is_partial_cell_size(buffer: &str) -> (r: bool)
    ensures
        r == partial_reply(buffer.spec_bytes()),
{
    let b = buffer.as_bytes();
    if b.len() < 3 {
        assert(!exists|k: int| #[trigger] query_at(b@, k));
        return false;
    }
    let mut i = b.len() - 3;
    loop
        invariant
            b@ == buffer.spec_bytes(),
            i + 3 <= b@.len(),
            forall|j: int| i < j ==> !#[trigger] query_at(b@, j),
        ensures
            b@ == buffer.spec_bytes(),
            query_at(b@, i as int),
            forall|j: int| i < j ==> !#[trigger] query_at(b@, j),
        decreases i,
    {
        if b[i] == 0x1b && b[i + 1] == 0x5b && b[i + 2] == 0x36 {
            break;
        }
        if i == 0 {
            assert(!exists|k: int| #[trigger] query_at(b@, k)) by {
                assert forall|k: int| !#[trigger] query_at(b@, k) by {
                    if k == 0 {
                        assert(!query_at(b@, 0));
                    }
                }
            }
            return false;
        }
        i -= 1;
    }
    proof {
        assert(b@ == buffer.spec_bytes());
        assert(query_at(b@, i as int));
        assert(last_query_at(b@, i as int));
        let s = choose|k: int| last_query_at(b@, k);
        assert(last_query_at(b@, s));
        if s < i {
            assert(!query_at(b@, i as int));
        } else if s > i {
            assert(!query_at(b@, s));
        }
        assert(s == i);
        assert(last_query_start(b@) == Some(i as int));
    }
    let mut k = i;
    while k < b.len()
        invariant
            b@ == buffer.spec_bytes(),
            last_query_start(b@) == Some(i as int),
            i <= k <= b@.len(),
            forall|m: int| i <= m < k ==> partial_byte(#[trigger] b@[m]),
        decreases b@.len() - k,
    {
        let c = b[k];
        if !(c == 0x1b || c == 0x5b || c == 0x36 || c == 0x3b || (c >= 0x30 && c <= 0x39)) {
            assert(!partial_byte(b@[k as int]));
            return false;
        }
        k += 1;
    }
    true
}

} // verus!
