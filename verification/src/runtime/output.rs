//! Typed terminal commands and their escape sequences.

use vstd::prelude::*;

use crate::chars::{chars_of, extend_chars, string_of};
use crate::digits::{decimal, decimal_chars};

verus! {

/// A terminal command staged for output.
#[derive(Clone, Debug, PartialEq, Eq)]
pub enum TerminalCmd {
    ShowCursor,
    HideCursor,
    BracketedPasteEnable,
    BracketedPasteDisable,
    KittyQuery,
    KittyEnable,
    KittyDisable,
    QueryCellSize,
    ClearLine,
    ClearFromCursor,
    ClearScreen,
    MoveUp(usize),
    MoveDown(usize),
    ColumnAbs(usize),
    Bytes(String),
}

/// `ESC [` followed by `body`.
pub open spec fn csi(body: Seq<char>) -> Seq<char> {
    seq!['\x1b', '['] + body
}

/// The bytes a command sends to the terminal.
pub open spec fn cmd_bytes(cmd: TerminalCmd) -> Seq<char> {
    match cmd {
        TerminalCmd::ShowCursor => csi(seq!['?', '2', '5', 'h']),
        TerminalCmd::HideCursor => csi(seq!['?', '2', '5', 'l']),
        TerminalCmd::BracketedPasteEnable => csi(seq!['?', '2', '0', '0', '4', 'h']),
        TerminalCmd::BracketedPasteDisable => csi(seq!['?', '2', '0', '0', '4', 'l']),
        TerminalCmd::KittyQuery => csi(seq!['?', 'u']),
        TerminalCmd::KittyEnable => csi(seq!['>', '7', 'u']),
        TerminalCmd::KittyDisable => csi(seq!['<', 'u']),
        TerminalCmd::QueryCellSize => csi(seq!['1', '6', 't']),
        TerminalCmd::ClearLine => csi(seq!['2', 'K']),
        TerminalCmd::ClearFromCursor => csi(seq!['J']),
        TerminalCmd::ClearScreen => csi(seq!['2', 'J']) + csi(seq!['H']),
        TerminalCmd::MoveUp(n) => csi(decimal(n as nat).push('A')),
        TerminalCmd::MoveDown(n) => csi(decimal(n as nat).push('B')),
        TerminalCmd::ColumnAbs(n) => csi(decimal(n as nat).push('G')),
        TerminalCmd::Bytes(s) => s@,
    }
}

fn csi_of(body: &[char]) -> (r: Vec<char>)
    ensures
        r@ == csi(body@),
{
    let mut v = vec!['\x1b', '['];
    assert(v@ =~= seq!['\x1b', '[']);
    extend_chars(&mut v, body);
    v
}

fn csi_num(n: usize, fin: char) -> (r: Vec<char>)
    ensures
        r@ == csi(decimal(n as nat).push(fin)),
{
    let mut d = decimal_chars(n);
    d.push(fin);
    csi_of(d.as_slice())
}

impl TerminalCmd {
    /// The escape sequence (or raw bytes) for this command.
    pub fn encode(&self) -> (r: String)
        ensures
            r@ == cmd_bytes(*self),
    {
        let v: Vec<char> = match self {
            TerminalCmd::ShowCursor => csi_of(&['?', '2', '5', 'h']),
            TerminalCmd::HideCursor => csi_of(&['?', '2', '5', 'l']),
            TerminalCmd::BracketedPasteEnable => csi_of(&['?', '2', '0', '0', '4', 'h']),
            TerminalCmd::BracketedPasteDisable => csi_of(&['?', '2', '0', '0', '4', 'l']),
            TerminalCmd::KittyQuery => csi_of(&['?', 'u']),
            TerminalCmd::KittyEnable => csi_of(&['>', '7', 'u']),
            TerminalCmd::KittyDisable => csi_of(&['<', 'u']),
            TerminalCmd::QueryCellSize => csi_of(&['1', '6', 't']),
            TerminalCmd::ClearLine => csi_of(&['2', 'K']),
            TerminalCmd::ClearFromCursor => csi_of(&['J']),
            TerminalCmd::ClearScreen => {
                let mut a = csi_of(&['2', 'J']);
                let b = csi_of(&['H']);
                extend_chars(&mut a, b.as_slice());
                a
            },
            TerminalCmd::MoveUp(n) => csi_num(*n, 'A'),
            TerminalCmd::MoveDown(n) => csi_num(*n, 'B'),
            TerminalCmd::ColumnAbs(n) => csi_num(*n, 'G'),
            TerminalCmd::Bytes(s) => chars_of(s.as_str()),
        };
        string_of(v.as_slice())
    }
}

/// A terminal backend: where output goes.
pub trait Terminal {
    fn write(&mut self, data: &str);
}

/// Concatenated bytes of a sequence of commands.
pub open spec fn cmds_bytes(cmds: Seq<TerminalCmd>) -> Seq<char>
    decreases cmds.len(),
{
    if cmds.len() == 0 {
        Seq::empty()
    } else {
        cmds_bytes(cmds.drop_last()) + cmd_bytes(cmds.last())
    }
}

/// Collects commands and writes them to a terminal in one piece.
pub struct OutputGate {
    cmds: Vec<TerminalCmd>,
}

impl OutputGate {
    pub closed spec fn pending(&self) -> Seq<TerminalCmd> {
        self.cmds@
    }

    pub fn new() -> (r: Self)
        ensures
            r.pending() == Seq::<TerminalCmd>::empty(),
    {
        OutputGate { cmds: Vec::new() }
    }

    pub fn push(&mut self, cmd: TerminalCmd)
        ensures
            final(self).pending() == old(self).pending().push(cmd),
    {
        self.cmds.push(cmd);
    }

    /// The bytes of all pending commands, in order.
    pub fn encode_all(&self) -> (r: String)
        ensures
            r@ == cmds_bytes(self.pending()),
    {
        let mut out: Vec<char> = Vec::new();
        let mut i: usize = 0;
        assert(self.cmds@.subrange(0, 0) =~= Seq::<TerminalCmd>::empty());
        while i < self.cmds.len()
            invariant
                i <= self.cmds@.len(),
                out@ == cmds_bytes(self.cmds@.subrange(0, i as int)),
            decreases self.cmds@.len() - i,
        {
            let bytes = self.cmds[i].encode();
            let b = chars_of(bytes.as_str());
            extend_chars(&mut out, b.as_slice());
            assert(self.cmds@.subrange(0, i + 1 as int).drop_last() =~= self.cmds@.subrange(0, i as int));
            i += 1;
        }
        assert(self.cmds@.subrange(0, self.cmds@.len() as int) =~= self.cmds@);
        string_of(out.as_slice())
    }

    /// Writes all pending commands to `terminal` in one write and clears them.
    pub fn flush<T: Terminal>(&mut self, terminal: &mut T)
        ensures
            final(self).pending() == Seq::<TerminalCmd>::empty(),
    {
        if self.cmds.len() == 0 {
            return;
        }
        let data = self.encode_all();
        terminal.write(data.as_str());
        self.cmds.clear();
    }
}

} // verus!
