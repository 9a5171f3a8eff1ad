//! What is told of a failure: the error, the byte at which it struck, and
//! the bytes around it.

use super::{Error, Failure};
use crate::cursor::ByteCursor;
use crate::text::{hex, lemma_numbers_are_plain, numeral, plain, push_hex, push_numeral};
use colored::Colorize;
use vstd::prelude::*;
use vstd::string::StringExecFns;

verus! {

/// The number of bytes shown before the byte at which a failure struck.
pub const BEFORE: u64 = 10;

/// The most bytes that a report shows.
pub const WINDOW: u64 = 20;

/// One byte of the window of a report.
#[derive(Clone, Copy, Debug, PartialEq, Eq)]
pub struct Responsible {
    /// Whether this is the byte at which the failure struck.
    pub source: bool,
    pub addr: usize,
    pub byte: u8,
}

#[derive(Debug, PartialEq, Eq)]
pub struct Report {
    pub err: Error,
    /// The address of the last byte read before the failure.
    pub pos: u64,
    /// The bytes around `pos`, in the order of their addresses.
    pub responsible: Vec<Responsible>,
}

/// What a report says.
pub struct Account {
    pub err: Failure,
    pub pos: nat,
    pub responsible: Seq<Responsible>,
}

impl View for Report {
    type V = Account;

    open spec fn view(&self) -> Account {
        Account { err: self.err@, pos: self.pos as nat, responsible: self.responsible@ }
    }
}

/// The address at which the window round `pos` starts: ten bytes before
/// `pos`, or the start of the buffer where `pos` is nearer to it.
pub open spec fn window_start(pos: nat) -> nat {
    if pos < BEFORE {
        0
    } else {
        (pos - BEFORE) as nat
    }
}

/// The number of bytes in the window round `pos` in a buffer of `len`
/// bytes: twenty, or as many as the buffer has from the start of the
/// window on.
pub open spec fn window_len(len: nat, pos: nat) -> nat {
    if window_start(pos) + WINDOW <= len {
        WINDOW as nat
    } else if window_start(pos) <= len {
        (len - window_start(pos)) as nat
    } else {
        0
    }
}

/// The window round `pos`.
pub open spec fn window(bytes: Seq<u8>, pos: nat) -> Seq<Responsible> {
    Seq::new(
        window_len(bytes.len(), pos),
        |i: int|
            Responsible {
                source: window_start(pos) + i == pos,
                addr: (window_start(pos) + i) as usize,
                byte: bytes[window_start(pos) + i],
            },
    )
}

/// What is reported of `err` when the cursor stands at `cursor`: the
/// failure struck at the byte before.
pub open spec fn account_of(err: Failure, bytes: Seq<u8>, cursor: nat) -> Account {
    Account {
        err,
        pos: (cursor - 1) as nat,
        responsible: window(bytes, (cursor - 1) as nat),
    }
}

/// The window holds at most twenty bytes, in the order of their addresses
/// and without a gap. Where the failure struck inside the buffer, the
/// window marks that byte, and no other, as the source.
pub proof fn window_marks_the_source(bytes: Seq<u8>, pos: nat)
    requires
        bytes.len() <= usize::MAX,
    ensures
        window(bytes, pos).len() <= 20,
        forall|i: int|
            0 <= i < window(bytes, pos).len() ==> {
                let entry = #[trigger] window(bytes, pos)[i];
                &&& entry.addr as nat == window_start(pos) + i
                &&& entry.addr < bytes.len()
                &&& entry.byte == bytes[entry.addr as int]
                &&& entry.source == (entry.addr as nat == pos)
            },
        pos < bytes.len() ==> pos - window_start(pos) < window(bytes, pos).len() && window(
            bytes,
            pos,
        )[pos - window_start(pos)].source,
{
    assert forall|i: int| 0 <= i < window(bytes, pos).len() implies {
        let entry = #[trigger] window(bytes, pos)[i];
        &&& entry.addr as nat == window_start(pos) + i
        &&& entry.addr < bytes.len()
        &&& entry.byte == bytes[entry.addr as int]
        &&& entry.source == (entry.addr as nat == pos)
    } by {
        assert(window_start(pos) + i < bytes.len());
    }
}

impl Report {
    /// The report of `err` for a cursor that has just read the byte at which
    /// the failure struck.
    pub fn new(err: Error, bytes: &ByteCursor) -> (report: Report)
        requires
            bytes.offset() >= 1,
        ensures
            report@ == account_of(err@, bytes.data(), bytes.offset()),
    {
        let start: u64 = bytes.position() - 1;
        let first: u64 = if start < BEFORE {
            0
        } else {
            start - BEFORE
        };
        let len: u64 = bytes.len() as u64;
        let mut blame: Vec<Responsible> = Vec::new();
        let mut at: u64 = first;
        while at < len && at - first < WINDOW
            invariant
                first <= at,
                at <= len || at == first,
                at - first <= WINDOW,
                first == window_start(start as nat),
                len == bytes.data().len(),
                blame@.len() == at - first,
                forall|i: int|
                    0 <= i < blame@.len() ==> #[trigger] blame@[i] == window(
                        bytes.data(),
                        start as nat,
                    )[i],
            decreases len - at,
        {
            let byte: u8 = match bytes.get(at) {
                Some(byte) => byte,
                None => 0,
            };
            blame.push(Responsible { source: at == start, addr: at as usize, byte });
            at += 1;
        }
        assert(blame@ =~= window(bytes.data(), start as nat));
        Report { err, pos: start, responsible: blame }
    }
}

/// The line of one byte of the window: its address and its value in
/// hexadecimal.
pub open spec fn line_text(entry: Responsible) -> Seq<char> {
    hex(entry.addr as nat) + " "@ + hex(entry.byte as nat) + "\n"@
}

/// `line` between the terminal's codes for green and for the end of all
/// colour.
pub open spec fn painted(line: Seq<char>) -> Seq<char> {
    "\x1b[32m"@ + line + "\x1b[0m"@
}

/// The line of `entry` as it is shown: painted if it is the source and the
/// terminal is lit, plain otherwise.
pub open spec fn shown(entry: Responsible, lit: bool) -> Seq<char> {
    if entry.source && lit {
        painted(line_text(entry))
    } else {
        line_text(entry)
    }
}

/// The first `upto` lines of a window, where `lit` says line by line
/// whether colour was to be had.
pub open spec fn lines(window: Seq<Responsible>, lit: Seq<bool>, upto: nat) -> Seq<char>
    decreases upto,
{
    if upto == 0 || upto > window.len() || upto > lit.len() {
        Seq::empty()
    } else {
        lines(window, lit, (upto - 1) as nat) + shown(window[upto - 1], lit[upto - 1])
    }
}

/// What follows the window: where the error struck, and what it was.
pub open spec fn footer(pos: nat, err: Failure) -> Seq<char> {
    "\nerror occured at byte "@ + numeral(pos) + " ("@ + hex(pos) + "):\n\t"@ + err.text()
}

/// The text of a report: one line for each byte of the window, then the
/// footer.
pub open spec fn rendering(account: Account, lit: Seq<bool>) -> Seq<char> {
    lines(account.responsible, lit, account.responsible.len()) + footer(account.pos, account.err)
}

/// The first lines of a window are the same under two accounts of the
/// terminal that agree on them.
proof fn lemma_lines_agree(window: Seq<Responsible>, a: Seq<bool>, b: Seq<bool>, upto: nat)
    requires
        upto <= a.len(),
        upto <= b.len(),
        forall|i: int| 0 <= i < upto ==> a[i] == b[i],
    ensures
        lines(window, a, upto) == lines(window, b, upto),
    decreases upto,
{
    if upto > 0 {
        lemma_lines_agree(window, a, b, (upto - 1) as nat);
    }
}

/// The line of a byte holds no escape character.
proof fn lemma_line_is_plain(entry: Responsible)
    ensures
        plain(line_text(entry)),
{
    reveal_strlit(" ");
    reveal_strlit("\n");
    lemma_numbers_are_plain(entry.addr as nat);
    lemma_numbers_are_plain(entry.byte as nat);
}

/// `colored::Colorize::green` on `line`, written out as a string. Where the
/// crate finds that colour is not to be had, that is `line` itself;
/// otherwise it is `line` behind the code for a green foreground and before
/// the code that ends all colour. A line that holds such a code itself is
/// rewritten by the crate; for it nothing is claimed.
#[verifier::external_body]
fn green(line: &str) -> (r: String)
    ensures
        plain(line@) ==> r@ == line@ || r@ == painted(line@),
{
    line.green().to_string()
}

impl Report {
    /// The report as text: the lines of the window, that of the source in
    /// green where the terminal takes colour, and the footer.
    pub fn render(&self) -> (s: String)
        ensures
            exists|lit: Seq<bool>|
                lit.len() == self@.responsible.len() && s@ == #[trigger] rendering(self@, lit),
    {
        let mut out = String::new();
        let ghost mut lit: Seq<bool> = Seq::empty();
        let mut i: usize = 0;
        while i < self.responsible.len()
            invariant
                i <= self.responsible.len(),
                lit.len() == i,
                out@ == lines(self.responsible@, lit, i as nat),
            decreases self.responsible.len() - i,
        {
            let entry: Responsible = self.responsible[i];
            let mut line = String::new();
            push_hex(&mut line, entry.addr as u64);
            line.append(" ");
            push_hex(&mut line, entry.byte as u64);
            line.append("\n");
            assert(line@ =~= line_text(entry));
            let ghost before = lit;
            if entry.source {
                proof {
                    lemma_line_is_plain(entry);
                }
                let bright: String = green(line.as_str());
                proof {
                    lit = lit.push(bright@ != line@);
                }
                out.append(bright.as_str());
            } else {
                proof {
                    lit = lit.push(false);
                }
                out.append(line.as_str());
            }
            proof {
                lemma_lines_agree(self.responsible@, before, lit, i as nat);
            }
            i += 1;
        }
        out.append("\nerror occured at byte ");
        push_numeral(&mut out, self.pos);
        out.append(" (");
        push_hex(&mut out, self.pos);
        out.append("):\n\t");
        let what: String = self.err.message();
        out.append(what.as_str());
        assert(out@ =~= rendering(self@, lit));
        out
    }
}

} // verus!
