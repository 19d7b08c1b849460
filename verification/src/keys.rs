//! Structured input events, parsing of raw terminal input, and editor key bindings.

use vstd::prelude::*;

use crate::chars::{chars_of, slice_chars, string_of};

verus! {

/// A structured input event.
#[derive(Clone, Debug)]
pub enum InputEvent {
    /// Printable text typed by the user.
    Text { text: String },
    /// Text delivered through bracketed paste.
    Paste { text: String },
    /// A key press, identified by names such as `"left"`, `"enter"` or `"ctrl+w"`.
    Key { key_id: String },
    /// A key release reported by the kitty keyboard protocol, with the key's name.
    KeyRelease { key_id: String },
}

/// The mathematical content of an input event.
pub enum EventView {
    Text(Seq<char>),
    Paste(Seq<char>),
    Key(Seq<char>),
    Release(Seq<char>),
}

impl View for InputEvent {
    type V = EventView;

    open spec fn view(&self) -> EventView {
        match self {
            InputEvent::Text { text } => EventView::Text(text@),
            InputEvent::Paste { text } => EventView::Paste(text@),
            InputEvent::Key { key_id } => EventView::Key(key_id@),
            InputEvent::KeyRelease { key_id } => EventView::Release(key_id@),
        }
    }
}

pub open spec fn paste_start() -> Seq<char> {
    seq!['\x1b', '[', '2', '0', '0', '~']
}

pub open spec fn paste_end() -> Seq<char> {
    seq!['\x1b', '[', '2', '0', '1', '~']
}

/// Whether `p` occurs in `s` at index `i`.
pub open spec fn occurs_at(s: Seq<char>, p: Seq<char>, i: int) -> bool {
    0 <= i && i + p.len() <= s.len() && s.subrange(i, i + p.len()) == p
}

/// First index at or after `i` where `p` occurs in `s`, or `s.len()` when it does not.
pub open spec fn find_from(s: Seq<char>, p: Seq<char>, i: int) -> int
    decreases s.len() - i,
{
    if i < 0 || i >= s.len() {
        s.len() as int
    } else if occurs_at(s, p, i) {
        i
    } else {
        find_from(s, p, i + 1)
    }
}

/// Name of the key sent as `ESC [ c` (arrows, home, end), if known.
pub open spec fn csi_key_name(c: char) -> Option<Seq<char>> {
    if c == 'A' {
        Some(seq!['u', 'p'])
    } else if c == 'B' {
        Some(seq!['d', 'o', 'w', 'n'])
    } else if c == 'C' {
        Some(seq!['r', 'i', 'g', 'h', 't'])
    } else if c == 'D' {
        Some(seq!['l', 'e', 'f', 't'])
    } else if c == 'H' {
        Some(seq!['h', 'o', 'm', 'e'])
    } else if c == 'F' {
        Some(seq!['e', 'n', 'd'])
    } else {
        None
    }
}

/// Lower-case letter for a control code `0x01..=0x1a`.
pub open spec fn ctrl_letter(c: char) -> char {
    ((c as u32) + 0x60) as char
}

/// Name of a single control or special character, if it is one.
pub open spec fn control_key_name(c: char) -> Option<Seq<char>> {
    if c == '\r' || c == '\n' {
        Some(seq!['e', 'n', 't', 'e', 'r'])
    } else if c == '\t' {
        Some(seq!['t', 'a', 'b'])
    } else if c == '\x7f' || c == '\x08' {
        Some(seq!['b', 'a', 'c', 'k', 's', 'p', 'a', 'c', 'e'])
    } else if 0x01 <= (c as u32) && (c as u32) <= 0x1a {
        Some(seq!['c', 't', 'r', 'l', '+', ctrl_letter(c)])
    } else if c == '\x1d' {
        Some(seq!['c', 't', 'r', 'l', '+', ']'])
    } else if c == '\x1f' {
        Some(seq!['c', 't', 'r', 'l', '+', '-'])
    } else {
        None
    }
}

pub open spec fn is_digit(c: char) -> bool {
    '0' <= c && c <= '9'
}

/// The end of the run of digits in `s` from `i`.
pub open spec fn digit_end(s: Seq<char>, i: int) -> int
    decreases s.len() - i,
{
    if 0 <= i < s.len() && is_digit(s[i]) {
        digit_end(s, i + 1)
    } else {
        i
    }
}

/// The number that the digits `s[i..e]` write.
pub open spec fn digits_number(s: Seq<char>, i: int, e: int) -> nat
    decreases e - i,
{
    if e <= i {
        0
    } else {
        digits_number(s, i, e - 1) * 10 + ((s[e - 1] as u32) - 0x30) as nat
    }
}

/// A number field at `i`: one to six digits; its value and where it ends.
pub open spec fn field_at(s: Seq<char>, i: int) -> Option<(nat, int)> {
    let e = digit_end(s, i);
    if e > i && e - i <= 6 {
        Some((digits_number(s, i, e), e))
    } else {
        None
    }
}

/// A kitty keyboard-protocol key sequence at the start of `s`, `ESC [ code ; modifiers : kind u`
/// with the modifiers and the kind optional: the code, the modifiers (1 when absent), the kind
/// (1 when absent) and the sequence's length.
pub open spec fn kitty_key(s: Seq<char>) -> Option<(nat, nat, nat, nat)> {
    if s.len() >= 3 && s[0] == '\x1b' && s[1] == '[' {
        match field_at(s, 2) {
            None => None,
            Some((code, e1)) => if e1 < s.len() && s[e1] == 'u' {
                Some((code, 1, 1, (e1 + 1) as nat))
            } else if e1 < s.len() && s[e1] == ';' {
                match field_at(s, e1 + 1) {
                    None => None,
                    Some((mods, e2)) => if e2 < s.len() && s[e2] == 'u' {
                        Some((code, mods, 1, (e2 + 1) as nat))
                    } else if e2 < s.len() && s[e2] == ':' {
                        match field_at(s, e2 + 1) {
                            None => None,
                            Some((kind, e3)) => if e3 < s.len() && s[e3] == 'u' {
                                Some((code, mods, kind, (e3 + 1) as nat))
                            } else {
                                None
                            },
                        }
                    } else {
                        None
                    },
                }
            } else {
                None
            },
        }
    } else {
        None
    }
}

/// The name of the key with kitty code `code`: enter, tab, escape, backspace, space, or the
/// printable ASCII character itself.
pub open spec fn kitty_base_name(code: nat) -> Option<Seq<char>> {
    if code == 13 {
        Some(seq!['e', 'n', 't', 'e', 'r'])
    } else if code == 9 {
        Some(seq!['t', 'a', 'b'])
    } else if code == 27 {
        Some(seq!['e', 's', 'c', 'a', 'p', 'e'])
    } else if code == 127 {
        Some(seq!['b', 'a', 'c', 'k', 's', 'p', 'a', 'c', 'e'])
    } else if code == 32 {
        Some(seq!['s', 'p', 'a', 'c', 'e'])
    } else if 33 <= code <= 126 {
        Some(seq![code as char])
    } else {
        None
    }
}

/// The modifier names before a key's name: `ctrl+`, `alt+`, `shift+` for the bits 4, 2 and 1
/// of the modifiers less one.
pub open spec fn modifier_prefix(mods: nat) -> Seq<char> {
    let m = if mods >= 1 { (mods - 1) as nat } else { 0nat };
    (if (m / 4) % 2 == 1 { seq!['c', 't', 'r', 'l', '+'] } else { Seq::<char>::empty() }) + (if (m / 2) % 2 == 1 {
        seq!['a', 'l', 't', '+']
    } else {
        Seq::<char>::empty()
    }) + (if m % 2 == 1 { seq!['s', 'h', 'i', 'f', 't', '+'] } else { Seq::<char>::empty() })
}

/// The event a kitty key sequence at the start of `s` stands for, and its length: a release
/// for kind 3, a key press otherwise.
pub open spec fn kitty_event(s: Seq<char>) -> Option<(EventView, nat)> {
    match kitty_key(s) {
        Some((code, mods, kind, n)) => match kitty_base_name(code) {
            Some(base) => {
                let name = modifier_prefix(mods) + base;
                Some((if kind == 3 { EventView::Release(name) } else { EventView::Key(name) }, n))
            },
            None => None,
        },
        None => None,
    }
}

/// The first event in `s` (which must not be empty) and how many characters it consumes.
pub open spec fn next_event(s: Seq<char>) -> (EventView, nat) {
    if occurs_at(s, paste_start(), 0) {
        let e = find_from(s, paste_end(), 6);
        let consumed = if e < s.len() {
            e + 6
        } else {
            s.len() as int
        };
        (EventView::Paste(s.subrange(6, e)), consumed as nat)
    } else if s[0] == '\x1b' {
        if kitty_event(s) is Some {
            kitty_event(s)->0
        } else if s.len() >= 4 && s[1] == '[' && s[2] == '3' && s[3] == '~' {
            (EventView::Key(seq!['d', 'e', 'l', 'e', 't', 'e']), 4)
        } else if s.len() >= 4 && s[1] == '[' && s[2] == '5' && s[3] == '~' {
            (EventView::Key(seq!['p', 'a', 'g', 'e', 'U', 'p']), 4)
        } else if s.len() >= 4 && s[1] == '[' && s[2] == '6' && s[3] == '~' {
            (EventView::Key(seq!['p', 'a', 'g', 'e', 'D', 'o', 'w', 'n']), 4)
        } else if s.len() >= 2 && s[1] == '\x1d' {
            (EventView::Key(seq!['c', 't', 'r', 'l', '+', 'a', 'l', 't', '+', ']']), 2)
        } else if s.len() >= 3 && s[1] == '[' && csi_key_name(s[2]) is Some {
            (EventView::Key(csi_key_name(s[2])->0), 3)
        } else if s.len() >= 2 && (s[1] == '\x7f' || s[1] == '\x08') {
            (EventView::Key(seq!['a', 'l', 't', '+', 'b', 'a', 'c', 'k', 's', 'p', 'a', 'c', 'e']), 2)
        } else if s.len() >= 2 && 'a' <= s[1] && s[1] <= 'z' {
            (EventView::Key(seq!['a', 'l', 't', '+', s[1]]), 2)
        } else {
            (EventView::Key(seq!['e', 's', 'c', 'a', 'p', 'e']), 1)
        }
    } else if control_key_name(s[0]) is Some {
        (EventView::Key(control_key_name(s[0])->0), 1)
    } else {
        (EventView::Text(seq![s[0]]), 1)
    }
}

pub proof fn lemma_digit_end(s: Seq<char>, i: int)
    requires
        0 <= i <= s.len(),
    ensures
        i <= digit_end(s, i) <= s.len(),
    decreases s.len() - i,
{
    if i < s.len() && is_digit(s[i]) {
        lemma_digit_end(s, i + 1);
    }
}

pub proof fn lemma_kitty_length(s: Seq<char>)
    ensures
        kitty_key(s) matches Some((_, _, _, n)) ==> 3 <= n <= s.len(),
{
    if s.len() >= 3 {
        lemma_digit_end(s, 2);
        let e1 = digit_end(s, 2);
        if e1 < s.len() {
            lemma_digit_end(s, e1 + 1);
            let e2 = digit_end(s, e1 + 1);
            if e2 < s.len() {
                lemma_digit_end(s, e2 + 1);
            }
        }
    }
}

pub proof fn lemma_next_event_progress(s: Seq<char>)
    requires
        s.len() > 0,
    ensures
        1 <= next_event(s).1 <= s.len(),
{
    lemma_kitty_length(s);
    if occurs_at(s, paste_start(), 0) {
        lemma_find_from_bounds(s, paste_end(), 6);
    }
}

pub proof fn lemma_find_from_bounds(s: Seq<char>, p: Seq<char>, i: int)
    ensures
        i <= s.len() ==> i <= find_from(s, p, i) <= s.len(),
        find_from(s, p, i) < s.len() ==> occurs_at(s, p, find_from(s, p, i)),
    decreases s.len() - i,
{
    if i >= 0 && i < s.len() && !occurs_at(s, p, i) {
        lemma_find_from_bounds(s, p, i + 1);
    }
}

/// All events in raw input `s`, in order.
pub open spec fn parse_events(s: Seq<char>) -> Seq<EventView>
    decreases s.len(),
{
    if s.len() == 0 {
        Seq::empty()
    } else {
        let (ev, n) = next_event(s);
        if 1 <= n <= s.len() {
            seq![ev] + parse_events(s.subrange(n as int, s.len() as int))
        } else {
            seq![ev]
        }
    }
}

fn seq_at(s: &[char], p: &[char], i: usize) -> (r: bool)
    ensures
        r == occurs_at(s@, p@, i as int),
{
    if i > s.len() || p.len() > s.len() - i {
        return false;
    }
    let mut k: usize = 0;
    let n = s.len();
    while k < p.len()
        invariant
            n == s@.len(),
            i + p@.len() <= s@.len(),
            k <= p@.len(),
            forall|j: int| 0 <= j < k ==> s@[i + j] == p@[j],
        decreases p@.len() - k,
    {
        assert(i + k < n);
        if s[i + k] != p[k] {
            assert(s@.subrange(i as int, i + p@.len())[k as int] != p@[k as int]);
            return false;
        }
        k += 1;
    }
    assert(s@.subrange(i as int, i + p@.len()) =~= p@);
    true
}

fn find_chars(s: &[char], p: &[char], start: usize) -> (r: usize)
    requires
        start <= s@.len(),
    ensures
        r as int == find_from(s@, p@, start as int),
{
    let mut i = start;
    while i < s.len()
        invariant
            start <= i <= s@.len(),
            find_from(s@, p@, start as int) == find_from(s@, p@, i as int),
        decreases s@.len() - i,
    {
        if seq_at(s, p, i) {
            return i;
        }
        i += 1;
    }
    i
}

fn key_event(name: Vec<char>) -> (e: InputEvent)
    ensures
        e@ == EventView::Key(name@),
{
    InputEvent::Key { key_id: string_of(name.as_slice()) }
}

fn csi_name(c: char) -> (r: Option<Vec<char>>)
    ensures
        r is Some <==> csi_key_name(c) is Some,
        r matches Some(v) ==> v@ == csi_key_name(c)->0,
{
    if c == 'A' {
        { let v = vec!['u', 'p']; assert(v@ =~= seq!['u', 'p']); Some(v) }
    } else if c == 'B' {
        { let v = vec!['d', 'o', 'w', 'n']; assert(v@ =~= seq!['d', 'o', 'w', 'n']); Some(v) }
    } else if c == 'C' {
        { let v = vec!['r', 'i', 'g', 'h', 't']; assert(v@ =~= seq!['r', 'i', 'g', 'h', 't']); Some(v) }
    } else if c == 'D' {
        { let v = vec!['l', 'e', 'f', 't']; assert(v@ =~= seq!['l', 'e', 'f', 't']); Some(v) }
    } else if c == 'H' {
        { let v = vec!['h', 'o', 'm', 'e']; assert(v@ =~= seq!['h', 'o', 'm', 'e']); Some(v) }
    } else if c == 'F' {
        { let v = vec!['e', 'n', 'd']; assert(v@ =~= seq!['e', 'n', 'd']); Some(v) }
    } else {
        None
    }
}

fn control_name(c: char) -> (r: Option<Vec<char>>)
    ensures
        r is Some <==> control_key_name(c) is Some,
        r matches Some(v) ==> v@ == control_key_name(c)->0,
{
    if c == '\r' || c == '\n' {
        { let v = vec!['e', 'n', 't', 'e', 'r']; assert(v@ =~= seq!['e', 'n', 't', 'e', 'r']); Some(v) }
    } else if c == '\t' {
        { let v = vec!['t', 'a', 'b']; assert(v@ =~= seq!['t', 'a', 'b']); Some(v) }
    } else if c == '\x7f' || c == '\x08' {
        { let v = vec!['b', 'a', 'c', 'k', 's', 'p', 'a', 'c', 'e']; assert(v@ =~= seq!['b', 'a', 'c', 'k', 's', 'p', 'a', 'c', 'e']); Some(v) }
    } else if 0x01 <= (c as u32) && (c as u32) <= 0x1a {
        let code: u32 = (c as u32) + 0x60;
        let letter = code as u8 as char;
        assert(letter == ctrl_letter(c));
        { let v = vec!['c', 't', 'r', 'l', '+', letter]; assert(v@ =~= seq!['c', 't', 'r', 'l', '+', letter]); Some(v) }
    } else if c == '\x1d' {
        { let v = vec!['c', 't', 'r', 'l', '+', ']']; assert(v@ =~= seq!['c', 't', 'r', 'l', '+', ']']); Some(v) }
    } else if c == '\x1f' {
        { let v = vec!['c', 't', 'r', 'l', '+', '-']; assert(v@ =~= seq!['c', 't', 'r', 'l', '+', '-']); Some(v) }
    } else {
        None
    }
}

pub open spec fn pow10(n: nat) -> nat
    decreases n,
{
    if n == 0 {
        1
    } else {
        10 * pow10((n - 1) as nat)
    }
}

proof fn lemma_pow10_small(n: nat)
    requires
        n <= 5,
    ensures
        pow10(n) <= 100000,
{
    reveal_with_fuel(pow10, 7);
}

/// A number field at `i` (see `field_at`).
fn field_exec(s: &[char], i: usize) -> (r: Option<(u32, usize)>)
    requires
        i <= s@.len(),
    ensures
        match r {
            Some((v, e)) => field_at(s@, i as int) == Some((v as nat, e as int)) && e <= s@.len(),
            None => field_at(s@, i as int) is None,
        },
{
    let mut k = i;
    let mut val: u32 = 0;
    proof {
        lemma_digit_end(s@, i as int);
    }
    while k < s.len() && '0' <= s[k] && s[k] <= '9' && k - i < 6
        invariant
            i <= k <= s@.len(),
            k - i <= 6,
            val as nat == digits_number(s@, i as int, k as int),
            val < pow10((k - i) as nat),
            digit_end(s@, i as int) == digit_end(s@, k as int),
        decreases s@.len() - k,
    {
        let d = (s[k] as u32) - 0x30;
        proof {
            lemma_pow10_small((k - i) as nat);
            assert(pow10((k + 1 - i) as nat) == 10 * pow10((k - i) as nat));
            assert(val * 10 + d < pow10((k + 1 - i) as nat)) by (nonlinear_arith)
                requires
                    val < pow10((k - i) as nat),
                    d <= 9,
                    pow10((k + 1 - i) as nat) == 10 * pow10((k - i) as nat),
            ;
        }
        val = val * 10 + d;
        k += 1;
    }
    proof {
        lemma_digit_end(s@, k as int);
    }
    if k == i {
        return None;
    }
    if k < s.len() && '0' <= s[k] && s[k] <= '9' {
        proof {
            lemma_digit_end(s@, k + 1);
        }
        return None;
    }
    Some((val, k))
}

/// The kitty key sequence at the start of `s` (see `kitty_key`).
fn kitty_key_exec(s: &[char]) -> (r: Option<(u32, u32, u32, usize)>)
    ensures
        match r {
            Some((c, m, k, n)) => kitty_key(s@) == Some((c as nat, m as nat, k as nat, n as nat)),
            None => kitty_key(s@) is None,
        },
{
    if !(s.len() >= 3 && s[0] == '\x1b' && s[1] == '[') {
        return None;
    }
    let (code, e1) = match field_exec(s, 2) {
        Some(f) => f,
        None => return None,
    };
    if e1 < s.len() && s[e1] == 'u' {
        return Some((code, 1, 1, e1 + 1));
    }
    if !(e1 < s.len() && s[e1] == ';') {
        return None;
    }
    let (mods, e2) = match field_exec(s, e1 + 1) {
        Some(f) => f,
        None => return None,
    };
    if e2 < s.len() && s[e2] == 'u' {
        return Some((code, mods, 1, e2 + 1));
    }
    if !(e2 < s.len() && s[e2] == ':') {
        return None;
    }
    let (kind, e3) = match field_exec(s, e2 + 1) {
        Some(f) => f,
        None => return None,
    };
    if e3 < s.len() && s[e3] == 'u' {
        return Some((code, mods, kind, e3 + 1));
    }
    None
}

/// The event of a kitty key sequence at the start of `s` (see `kitty_event`).
fn kitty_event_exec(s: &[char]) -> (r: Option<(InputEvent, usize)>)
    ensures
        match kitty_event(s@) {
            Some((ev, n)) => r matches Some((e, m)) && e@ == ev && m as nat == n,
            None => r is None,
        },
{
    let (code, mods, kind, n) = match kitty_key_exec(s) {
        Some(k) => k,
        None => return None,
    };
    let base: Vec<char> = if code == 13 {
        vec!['e', 'n', 't', 'e', 'r']
    } else if code == 9 {
        vec!['t', 'a', 'b']
    } else if code == 27 {
        vec!['e', 's', 'c', 'a', 'p', 'e']
    } else if code == 127 {
        vec!['b', 'a', 'c', 'k', 's', 'p', 'a', 'c', 'e']
    } else if code == 32 {
        vec!['s', 'p', 'a', 'c', 'e']
    } else if 33 <= code && code <= 126 {
        vec![(code as u8) as char]
    } else {
        return None;
    };
    assert(kitty_base_name(code as nat) == Some(base@));
    let m = if mods >= 1 { mods - 1 } else { 0 };
    let mut name: Vec<char> = Vec::new();
    if (m / 4) % 2 == 1 {
        name.push('c');
        name.push('t');
        name.push('r');
        name.push('l');
        name.push('+');
    }
    if (m / 2) % 2 == 1 {
        name.push('a');
        name.push('l');
        name.push('t');
        name.push('+');
    }
    if m % 2 == 1 {
        name.push('s');
        name.push('h');
        name.push('i');
        name.push('f');
        name.push('t');
        name.push('+');
    }
    assert(name@ =~= modifier_prefix(mods as nat));
    crate::chars::extend_chars(&mut name, base.as_slice());
    let id = string_of(name.as_slice());
    if kind == 3 {
        Some((InputEvent::KeyRelease { key_id: id }, n))
    } else {
        Some((InputEvent::Key { key_id: id }, n))
    }
}

fn next_event_exec(s: &[char]) -> (r: (InputEvent, usize))
    requires
        s@.len() > 0,
    ensures
        r.0@ == next_event(s@).0,
        r.1 as nat == next_event(s@).1,
{
    let start = vec!['\x1b', '[', '2', '0', '0', '~'];
    let end = vec!['\x1b', '[', '2', '0', '1', '~'];
    assert(start@ =~= paste_start());
    assert(end@ =~= paste_end());
    if seq_at(s, start.as_slice(), 0) {
        let e = find_chars(s, end.as_slice(), 6);
        proof {
            lemma_find_from_bounds(s@, paste_end(), 6);
        }
        let consumed = if e < s.len() {
            e + 6
        } else {
            s.len()
        };
        let body = slice_chars(s, 6, e);
        return (InputEvent::Paste { text: string_of(body.as_slice()) }, consumed);
    }
    if s[0] == '\x1b' {
        if let Some(k) = kitty_event_exec(s) {
            return k;
        }
        if s.len() >= 4 && s[1] == '[' && s[2] == '3' && s[3] == '~' {
            let name = vec!['d', 'e', 'l', 'e', 't', 'e'];
            assert(name@ =~= seq!['d', 'e', 'l', 'e', 't', 'e']);
            return (key_event(name), 4);
        }
        if s.len() >= 4 && s[1] == '[' && s[2] == '5' && s[3] == '~' {
            let name = vec!['p', 'a', 'g', 'e', 'U', 'p'];
            assert(name@ =~= seq!['p', 'a', 'g', 'e', 'U', 'p']);
            return (key_event(name), 4);
        }
        if s.len() >= 4 && s[1] == '[' && s[2] == '6' && s[3] == '~' {
            let name = vec!['p', 'a', 'g', 'e', 'D', 'o', 'w', 'n'];
            assert(name@ =~= seq!['p', 'a', 'g', 'e', 'D', 'o', 'w', 'n']);
            return (key_event(name), 4);
        }
        if s.len() >= 2 && s[1] == '\x1d' {
            let name = vec!['c', 't', 'r', 'l', '+', 'a', 'l', 't', '+', ']'];
            assert(name@ =~= seq!['c', 't', 'r', 'l', '+', 'a', 'l', 't', '+', ']']);
            return (key_event(name), 2);
        }
        if s.len() >= 3 && s[1] == '[' {
            if let Some(name) = csi_name(s[2]) {
                return (key_event(name), 3);
            }
        }
        if s.len() >= 2 && (s[1] == '\x7f' || s[1] == '\x08') {
            let name = vec!['a', 'l', 't', '+', 'b', 'a', 'c', 'k', 's', 'p', 'a', 'c', 'e'];
            assert(name@ =~= seq!['a', 'l', 't', '+', 'b', 'a', 'c', 'k', 's', 'p', 'a', 'c', 'e']);
            return (key_event(name), 2);
        }
        if s.len() >= 2 && 'a' <= s[1] && s[1] <= 'z' {
            let name = vec!['a', 'l', 't', '+', s[1]];
            assert(name@ =~= seq!['a', 'l', 't', '+', s@[1]]);
            return (key_event(name), 2);
        }
        let name = vec!['e', 's', 'c', 'a', 'p', 'e'];
        assert(name@ =~= seq!['e', 's', 'c', 'a', 'p', 'e']);
        return (key_event(name), 1);
    }
    if let Some(name) = control_name(s[0]) {
        return (key_event(name), 1);
    }
    let one = slice_chars(s, 0, 1);
    assert(one@ =~= seq![s@[0]]);
    (InputEvent::Text { text: string_of(one.as_slice()) }, 1)
}

/// Splits raw terminal input into structured events: bracketed pastes, named keys
/// (arrows, home/end, delete, page up/down, escape, enter, tab, backspace, `ctrl+<letter>`,
/// `ctrl+]`, `ctrl+-`, `ctrl+alt+]`, `alt+<letter>`, `alt+backspace`) and one text event per
/// other character.
pub fn parse_input_events(data: &str, kitty_protocol_active: bool) -> (r: Vec<InputEvent>)
    ensures
        r@.map_values(|e: InputEvent| e@) == parse_events(data@),
{
    let v = chars_of(data);
    let mut out: Vec<InputEvent> = Vec::new();
    let mut pos: usize = 0;
    assert(v@.subrange(0, v@.len() as int) =~= v@);
    while pos < v.len()
        invariant
            pos <= v@.len(),
            v@ == data@,
            parse_events(data@) =~= out@.map_values(|e: InputEvent| e@) + parse_events(
                v@.subrange(pos as int, v@.len() as int),
            ),
        decreases v@.len() - pos,
    {
        let rest = slice_chars(v.as_slice(), pos, v.len());
        proof {
            lemma_next_event_progress(rest@);
        }
        let (ev, n) = next_event_exec(rest.as_slice());
        let ghost old_out = out@;
        out.push(ev);
        assert(out@.map_values(|e: InputEvent| e@) =~= old_out.map_values(|e: InputEvent| e@)
            + seq![ev@]);
        assert(rest@.subrange(n as int, rest@.len() as int) =~= v@.subrange(
            pos + n,
            v@.len() as int,
        ));
        pos = pos + n;
    }
    out
}

/// Editor and list actions that keys can be bound to.
#[derive(Clone, Copy, Debug, PartialEq, Eq, Structural)]
pub enum EditorAction {
    CursorUp,
    CursorDown,
    CursorLeft,
    CursorRight,
    CursorWordLeft,
    CursorWordRight,
    CursorLineStart,
    CursorLineEnd,
    DeleteCharBackward,
    DeleteCharForward,
    DeleteWordBackward,
    DeleteToLineStart,
    DeleteToLineEnd,
    NewLine,
    Submit,
    Tab,
    SelectUp,
    SelectDown,
    SelectConfirm,
    SelectCancel,
    DeleteWordForward,
    Yank,
    YankPop,
    Undo,
    Copy,
    PageUp,
    PageDown,
    JumpForward,
    JumpBackward,
}

/// One key bound to one action.
#[derive(Clone, Debug)]
pub struct KeyBinding {
    pub action: EditorAction,
    pub key_id: String,
}

/// A set of key bindings.
#[derive(Clone, Debug)]
pub struct EditorKeybindingsHandle {
    pub bindings: Vec<KeyBinding>,
}

/// Whether `key` is bound to `action` in `bindings`.
pub open spec fn bound(bindings: Seq<KeyBinding>, key: Seq<char>, action: EditorAction) -> bool {
    exists|i: int| 0 <= i < bindings.len() && bindings[i].action == action && bindings[i].key_id@ == key
}

/// Whether raw input `data` is exactly one key press bound to `action`.
pub open spec fn data_bound(bindings: Seq<KeyBinding>, data: Seq<char>, action: EditorAction) -> bool {
    parse_events(data).len() == 1 && match parse_events(data)[0] {
        EventView::Key(k) => bound(bindings, k, action),
        _ => false,
    }
}

/// Character-wise equality of two strings.
pub fn str_eq(a: &str, b: &str) -> (r: bool)
    ensures
        r == (a@ == b@),
{
    let x = chars_of(a);
    let y = chars_of(b);
    if x.len() != y.len() {
        assert(x@.len() != y@.len());
        return false;
    }
    let mut i: usize = 0;
    while i < x.len()
        invariant
            x@ == a@,
            y@ == b@,
            x@.len() == y@.len(),
            i <= x@.len(),
            forall|j: int| 0 <= j < i ==> x@[j] == y@[j],
        decreases x@.len() - i,
    {
        if x[i] != y[i] {
            assert(x@[i as int] != y@[i as int]);
            return false;
        }
        i += 1;
    }
    assert(x@ =~= y@);
    true
}

impl EditorKeybindingsHandle {
    /// Whether `key_id` is bound to `action`.
    pub fn matches(&self, key_id: &str, action: EditorAction) -> (r: bool)
        ensures
            r == bound(self.bindings@, key_id@, action),
    {
        let mut i: usize = 0;
        while i < self.bindings.len()
            invariant
                i <= self.bindings@.len(),
                forall|j: int|
                    0 <= j < i ==> !(self.bindings@[j].action == action
                        && #[trigger] self.bindings@[j].key_id@ == key_id@),
            decreases self.bindings@.len() - i,
        {
            let b = &self.bindings[i];
            if b.action == action && str_eq(b.key_id.as_str(), key_id) {
                return true;
            }
            i += 1;
        }
        false
    }

    /// Whether raw input `data` is exactly one key press bound to `action`.
    pub fn matches_data(&self, data: &str, action: EditorAction) -> (r: bool)
        ensures
            r == data_bound(self.bindings@, data@, action),
    {
        let events = parse_input_events(data, false);
        if events.len() != 1 {
            return false;
        }
        assert(events@.map_values(|e: InputEvent| e@)[0] == events@[0]@);
        match &events[0] {
            InputEvent::Key { key_id } => self.matches(key_id.as_str(), action),
            _ => false,
        }
    }
}

fn bind(out: &mut Vec<KeyBinding>, action: EditorAction, key: &str)
    ensures
        final(out)@ == old(out)@.push(KeyBinding { action, key_id: final(out)@.last().key_id }),
        final(out)@.last().key_id@ == key@,
{
    out.push(KeyBinding { action, key_id: string_of(chars_of(key).as_slice()) });
}

/// The default key table, in order: each action with a key that triggers it.
pub open spec fn default_binding_table() -> Seq<(EditorAction, Seq<char>)> {
    seq![
        (EditorAction::CursorUp, "up"@),
        (EditorAction::CursorDown, "down"@),
        (EditorAction::CursorLeft, "left"@),
        (EditorAction::CursorRight, "right"@),
        (EditorAction::CursorWordLeft, "alt+left"@),
        (EditorAction::CursorWordLeft, "ctrl+left"@),
        (EditorAction::CursorWordLeft, "alt+b"@),
        (EditorAction::CursorWordRight, "alt+right"@),
        (EditorAction::CursorWordRight, "ctrl+right"@),
        (EditorAction::CursorWordRight, "alt+f"@),
        (EditorAction::CursorLineStart, "home"@),
        (EditorAction::CursorLineStart, "ctrl+a"@),
        (EditorAction::CursorLineEnd, "end"@),
        (EditorAction::CursorLineEnd, "ctrl+e"@),
        (EditorAction::DeleteCharBackward, "backspace"@),
        (EditorAction::DeleteCharForward, "delete"@),
        (EditorAction::DeleteWordBackward, "ctrl+w"@),
        (EditorAction::DeleteWordBackward, "alt+backspace"@),
        (EditorAction::DeleteToLineStart, "ctrl+u"@),
        (EditorAction::DeleteToLineEnd, "ctrl+k"@),
        (EditorAction::NewLine, "shift+enter"@),
        (EditorAction::Submit, "enter"@),
        (EditorAction::Tab, "tab"@),
        (EditorAction::SelectUp, "up"@),
        (EditorAction::SelectDown, "down"@),
        (EditorAction::SelectConfirm, "enter"@),
        (EditorAction::SelectCancel, "escape"@),
        (EditorAction::SelectCancel, "ctrl+c"@),
        (EditorAction::DeleteWordForward, "alt+d"@),
        (EditorAction::DeleteWordForward, "alt+delete"@),
        (EditorAction::Yank, "ctrl+y"@),
        (EditorAction::YankPop, "alt+y"@),
        (EditorAction::Undo, "ctrl+-"@),
        (EditorAction::Copy, "ctrl+c"@),
        (EditorAction::PageUp, "pageUp"@),
        (EditorAction::PageDown, "pageDown"@),
        (EditorAction::JumpForward, "ctrl+]"@),
        (EditorAction::JumpBackward, "ctrl+alt+]"@),
    ]
}

/// The action and key of each binding.
pub open spec fn binding_pairs(b: Seq<KeyBinding>) -> Seq<(EditorAction, Seq<char>)> {
    b.map_values(|x: KeyBinding| (x.action, x.key_id@))
}

/// The default bindings: arrows move and select, `home`/`ctrl+a` and `end`/`ctrl+e` jump to
/// line edges, `alt`/`ctrl` arrows move by word, `backspace`/`delete` delete characters,
/// `ctrl+w`/`alt+backspace` delete a word, `ctrl+u`/`ctrl+k` delete to the line edges,
/// `enter` submits and confirms, `shift+enter` inserts a new line, `escape`/`ctrl+c` cancel,
/// `alt+d` deletes a word forward, `ctrl+y`/`alt+y` yank and cycle the kill ring, `ctrl+-`
/// undoes, `ctrl+c` copies, `pageUp`/`pageDown` page, `ctrl+]`/`ctrl+alt+]` jump to a character.
pub fn default_editor_keybindings_handle() -> (r: EditorKeybindingsHandle)
    ensures
        binding_pairs(r.bindings@) == default_binding_table(),
        bound(r.bindings@, seq!['l', 'e', 'f', 't'], EditorAction::CursorLeft),
        bound(r.bindings@, seq!['r', 'i', 'g', 'h', 't'], EditorAction::CursorRight),
{
    let mut b: Vec<KeyBinding> = Vec::new();
    bind(&mut b, EditorAction::CursorUp, "up");
    bind(&mut b, EditorAction::CursorDown, "down");
    bind(&mut b, EditorAction::CursorLeft, "left");
    let ghost left_at = b@.len() - 1;
    bind(&mut b, EditorAction::CursorRight, "right");
    let ghost right_at = b@.len() - 1;
    bind(&mut b, EditorAction::CursorWordLeft, "alt+left");
    bind(&mut b, EditorAction::CursorWordLeft, "ctrl+left");
    bind(&mut b, EditorAction::CursorWordLeft, "alt+b");
    bind(&mut b, EditorAction::CursorWordRight, "alt+right");
    bind(&mut b, EditorAction::CursorWordRight, "ctrl+right");
    bind(&mut b, EditorAction::CursorWordRight, "alt+f");
    bind(&mut b, EditorAction::CursorLineStart, "home");
    bind(&mut b, EditorAction::CursorLineStart, "ctrl+a");
    bind(&mut b, EditorAction::CursorLineEnd, "end");
    bind(&mut b, EditorAction::CursorLineEnd, "ctrl+e");
    bind(&mut b, EditorAction::DeleteCharBackward, "backspace");
    bind(&mut b, EditorAction::DeleteCharForward, "delete");
    bind(&mut b, EditorAction::DeleteWordBackward, "ctrl+w");
    bind(&mut b, EditorAction::DeleteWordBackward, "alt+backspace");
    bind(&mut b, EditorAction::DeleteToLineStart, "ctrl+u");
    bind(&mut b, EditorAction::DeleteToLineEnd, "ctrl+k");
    bind(&mut b, EditorAction::NewLine, "shift+enter");
    bind(&mut b, EditorAction::Submit, "enter");
    bind(&mut b, EditorAction::Tab, "tab");
    bind(&mut b, EditorAction::SelectUp, "up");
    bind(&mut b, EditorAction::SelectDown, "down");
    bind(&mut b, EditorAction::SelectConfirm, "enter");
    bind(&mut b, EditorAction::SelectCancel, "escape");
    bind(&mut b, EditorAction::SelectCancel, "ctrl+c");
    bind(&mut b, EditorAction::DeleteWordForward, "alt+d");
    bind(&mut b, EditorAction::DeleteWordForward, "alt+delete");
    bind(&mut b, EditorAction::Yank, "ctrl+y");
    bind(&mut b, EditorAction::YankPop, "alt+y");
    bind(&mut b, EditorAction::Undo, "ctrl+-");
    bind(&mut b, EditorAction::Copy, "ctrl+c");
    bind(&mut b, EditorAction::PageUp, "pageUp");
    bind(&mut b, EditorAction::PageDown, "pageDown");
    bind(&mut b, EditorAction::JumpForward, "ctrl+]");
    bind(&mut b, EditorAction::JumpBackward, "ctrl+alt+]");
    proof {
        reveal_strlit("left");
        reveal_strlit("right");
        assert(b@[2].action == EditorAction::CursorLeft);
        assert(b@[2].key_id@ =~= seq!['l', 'e', 'f', 't']);
        assert(b@[3].key_id@ =~= seq!['r', 'i', 'g', 'h', 't']);
        assert(binding_pairs(b@) =~= default_binding_table());
    }
    EditorKeybindingsHandle { bindings: b }
}

} // verus!
