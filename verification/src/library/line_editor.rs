use vstd::prelude::*;
use crate::library::text::{trim, trim_bytes, views};

verus! {

/// Key code of the Enter key.
pub const KEY_ENTER: u8 = 13;

/// Key code of the Backspace key.
pub const KEY_BACKSPACE: u8 = 8;

/// Scan code of the up arrow.
pub const SCAN_UP: u8 = 72;

/// Scan code of the down arrow.
pub const SCAN_DOWN: u8 = 80;

/// What the screen shows and the shell does after a typed character.
#[derive(Debug)]
pub enum EditOutcome {
    /// Enter: end the line; then run `command` (the trimmed line) if it is not
    /// empty, and show the prompt again.
    Submit { command: Option<Vec<u8>> },
    /// Backspace on a non-empty line: erase the last character on the screen.
    Erase,
    /// A printable character was added to the line: show it.
    Echo(u8),
    /// Nothing happens.
    Ignore,
}

/// What the screen shows after moving through the history.
#[derive(Debug)]
pub struct HistoryOutcome {
    /// Characters of the old line to erase on the screen.
    pub erase: usize,
    /// The line loaded from the history, to show; `None` leaves the line empty.
    pub load: Option<Vec<u8>>,
}

/// The line being typed and the history of submitted lines.
pub struct LineEditor {
    buffer: Vec<u8>,
    history: Vec<Vec<u8>>,
    history_index: i32,
}

/// `c` is a printable ASCII character.
pub open spec fn is_printable(c: u8) -> bool {
    32 <= c <= 126
}

/// The history after `command` was submitted: it is appended unless it equals the
/// last entry.
pub open spec fn history_after(history: Seq<Seq<u8>>, command: Seq<u8>) -> Seq<Seq<u8>> {
    if history.len() > 0 && history.last() == command {
        history
    } else {
        history.push(command)
    }
}

/// The history position after moving up (`up`) or down from `index` in a history
/// of `len` entries; -1 is the line being typed, below the last entry.
pub open spec fn history_index_after(index: int, len: int, up: bool) -> int {
    if up {
        if index == -1 {
            len - 1
        } else if index > 0 {
            index - 1
        } else {
            index
        }
    } else if index != -1 {
        if index + 1 >= len {
            -1
        } else {
            index + 1
        }
    } else {
        index
    }
}

/// What the character `asc` of a key does to the line editor `e`: the editor
/// `e2` after it and the outcome `r`. Enter submits the trimmed line (a non-empty
/// one goes to the history unless it repeats the last entry) and starts a new
/// one, Backspace deletes the last character, a printable character is added.
pub open spec fn ascii_effect(e: LineEditor, asc: u8, e2: LineEditor, r: EditOutcome) -> bool {
    let b = e.buffer_spec();
    let cmd = trim(b);
    if asc == KEY_ENTER {
        &&& e2.buffer_spec() == Seq::<u8>::empty()
        &&& e2.index_spec() == -1
        &&& if cmd.len() > 0 {
            &&& e2.history_spec() == history_after(e.history_spec(), cmd)
            &&& r matches EditOutcome::Submit { command: Some(c) } && c@ == cmd
        } else {
            &&& e2.history_spec() == e.history_spec()
            &&& r == EditOutcome::Submit { command: None }
        }
    } else if asc == KEY_BACKSPACE {
        &&& e2.history_spec() == e.history_spec()
        &&& e2.index_spec() == e.index_spec()
        &&& if b.len() > 0 {
            &&& e2.buffer_spec() == b.drop_last()
            &&& r == EditOutcome::Erase
        } else {
            &&& e2.buffer_spec() == b
            &&& r == EditOutcome::Ignore
        }
    } else if is_printable(asc) {
        &&& e2.buffer_spec() == b.push(asc)
        &&& e2.history_spec() == e.history_spec()
        &&& e2.index_spec() == e.index_spec()
        &&& r == EditOutcome::Echo(asc)
    } else {
        &&& e2.buffer_spec() == b
        &&& e2.history_spec() == e.history_spec()
        &&& e2.index_spec() == e.index_spec()
        &&& r == EditOutcome::Ignore
    }
}

impl LineEditor {
    pub closed spec fn buffer_spec(&self) -> Seq<u8> {
        self.buffer@
    }

    pub closed spec fn history_spec(&self) -> Seq<Seq<u8>> {
        views(self.history@)
    }

    pub closed spec fn index_spec(&self) -> int {
        self.history_index as int
    }

    /// The history position is the typed line (-1) or one of the entries, and the
    /// history fits the position's type.
    pub open spec fn wf(&self) -> bool {
        &&& -1 <= self.index_spec() < self.history_spec().len()
        &&& self.history_spec().len() < i32::MAX
    }

    /// An empty line and an empty history.
    pub fn new() -> (r: LineEditor)
        ensures
            r.wf(),
            r.buffer_spec() == Seq::<u8>::empty(),
            r.history_spec() == Seq::<Seq<u8>>::empty(),
            r.index_spec() == -1,
    {
        let r = LineEditor { buffer: Vec::new(), history: Vec::new(), history_index: -1 };
        assert(views(r.history@) == Seq::<Seq<u8>>::empty());
        r
    }

    /// The line typed so far.
    pub fn buffer(&self) -> (r: &Vec<u8>)
        ensures
            r@ == self.buffer_spec(),
    {
        &self.buffer
    }

    /// The submitted lines, oldest first.
    pub fn history(&self) -> (r: &Vec<Vec<u8>>)
        ensures
            views(r@) == self.history_spec(),
    {
        &self.history
    }

    /// Handle the character `asc` of a key: Enter submits the trimmed line (a
    /// non-empty one goes to the history unless it repeats the last entry) and
    /// starts a new one, Backspace deletes the last character, a printable
    /// character is added to the line.
    pub fn handle_ascii(&mut self, asc: u8) -> (r: EditOutcome)
        requires
            old(self).wf(),
            old(self).history_spec().len() + 1 < i32::MAX,
        ensures
            final(self).wf(),
            ascii_effect(*old(self), asc, *final(self), r),
            asc == KEY_ENTER && trim(old(self).buffer_spec()).len() > 0 ==> {
                let c = trim(old(self).buffer_spec());
                let h = old(self).history_spec();
                &&& final(self).history_spec().len() > 0
                &&& final(self).history_spec().last() == c
                &&& (h.len() == 0 || h.last() != c) ==> final(self).history_spec() == h.push(c)
            },
    {
        if asc == KEY_ENTER {
            let command = trim_bytes(self.buffer.as_slice());
            let outcome = if command.len() > 0 {
                let n = self.history.len();
                let repeated = n > 0 && vec_equal(&self.history[n - 1], &command);
                if !repeated {
                    self.history.push(command.clone());
                    proof {
                        assert(views(self.history@) == views(old(self).history@).push(command@));
                    }
                } else {
                    proof {
                        assert(views(self.history@).last() == self.history@[n - 1]@);
                    }
                }
                EditOutcome::Submit { command: Some(command) }
            } else {
                EditOutcome::Submit { command: None }
            };
            self.buffer = Vec::new();
            self.history_index = -1;
            outcome
        } else if asc == KEY_BACKSPACE {
            if self.buffer.len() > 0 {
                self.buffer.pop();
                EditOutcome::Erase
            } else {
                EditOutcome::Ignore
            }
        } else if 32 <= asc && asc <= 126 {
            self.buffer.push(asc);
            EditOutcome::Echo(asc)
        } else {
            EditOutcome::Ignore
        }
    }

    /// Move through the history: up to older entries, down to newer ones and past
    /// the newest back to an empty line. The line on the screen is erased and the
    /// entry reached, if any, loaded. Nothing happens with an empty history.
    pub fn navigate_history(&mut self, up: bool) -> (r: Option<HistoryOutcome>)
        requires
            old(self).wf(),
        ensures
            final(self).wf(),
            final(self).history_spec() == old(self).history_spec(),
            old(self).history_spec().len() == 0 ==> r is None && *final(self) == *old(self),
            old(self).history_spec().len() > 0 ==> {
                let i = history_index_after(
                    old(self).index_spec(),
                    old(self).history_spec().len() as int,
                    up,
                );
                &&& final(self).index_spec() == i
                &&& final(self).buffer_spec() == if i == -1 {
                    Seq::<u8>::empty()
                } else {
                    old(self).history_spec()[i]
                }
                &&& r matches Some(o) && o.erase == old(self).buffer_spec().len() && (if i == -1 {
                    o.load is None
                } else {
                    o.load matches Some(l) && l@ == old(self).history_spec()[i]
                })
            },
    {
        if self.history.len() == 0 {
            return None;
        }
        let erase = self.buffer.len();
        let len = self.history.len() as i32;
        if up {
            if self.history_index == -1 {
                self.history_index = len - 1;
            } else if self.history_index > 0 {
                self.history_index = self.history_index - 1;
            }
        } else {
            if self.history_index != -1 {
                self.history_index = self.history_index + 1;
                if self.history_index >= len {
                    self.history_index = -1;
                }
            }
        }
        if self.history_index != -1 {
            let cmd = self.history[self.history_index as usize].clone();
            proof {
                assert(views(self.history@)[self.history_index as int] == self.history@[self.history_index as int]@);
            }
            self.buffer = cmd.clone();
            Some(HistoryOutcome { erase, load: Some(cmd) })
        } else {
            self.buffer = Vec::new();
            Some(HistoryOutcome { erase, load: None })
        }
    }
}

/// The two byte strings are equal.
pub fn vec_equal(a: &Vec<u8>, b: &Vec<u8>) -> (r: bool)
    ensures
        r == (a@ == b@),
{
    if a.len() != b.len() {
        return false;
    }
    let mut i: usize = 0;
    while i < a.len()
        invariant
            a@.len() == b@.len(),
            i <= a@.len(),
            forall|j: int| 0 <= j < i ==> a@[j] == b@[j],
        decreases a@.len() - i,
    {
        if a[i] != b[i] {
            return false;
        }
        i = i + 1;
    }
    assert(a@ =~= b@);
    true
}

/// Moving up through the history and then down again comes back to where it
/// started, except from the oldest entry, where moving up stays.
pub proof fn law_history_up_then_down(index: int, len: int)
    requires
        -1 <= index < len,
        index != 0,
    ensures
        history_index_after(history_index_after(index, len, true), len, false) == index,
{
}

/// Moving down from any entry and then up again comes back to it, as long as
/// moving down did not leave the history.
pub proof fn law_history_down_then_up(index: int, len: int)
    requires
        0 <= index < len - 1,
    ensures
        history_index_after(history_index_after(index, len, false), len, true) == index,
{
}

/// Enter on a line holding a command makes that command the newest history
/// entry: it is appended to the history, except that a command equal to the
/// newest entry is not stored twice. Older entries stay as they were, even
/// ones equal to the command.
pub proof fn law_enter_records_command(e: LineEditor, e2: LineEditor, r: EditOutcome)
    requires
        ascii_effect(e, KEY_ENTER, e2, r),
        trim(e.buffer_spec()).len() > 0,
    ensures
        ({
            let c = trim(e.buffer_spec());
            let h = e.history_spec();
            &&& e2.history_spec().len() > 0
            &&& e2.history_spec().last() == c
            &&& (h.len() == 0 || h.last() != c) ==> e2.history_spec() == h.push(c)
            &&& (h.len() > 0 && h.last() == c) ==> e2.history_spec() == h
            &&& e2.history_spec().subrange(0, h.len() as int) == h
        }),
{
    let h = e.history_spec();
    let c = trim(e.buffer_spec());
    if !(h.len() > 0 && h.last() == c) {
        assert(h.push(c).subrange(0, h.len() as int) =~= h);
    } else {
        assert(h.subrange(0, h.len() as int) =~= h);
    }
}

/// After Enter on a line holding a command, moving up through the history
/// reaches that command first.
pub proof fn law_up_after_enter_recalls_command(e: LineEditor, e2: LineEditor, r: EditOutcome)
    requires
        ascii_effect(e, KEY_ENTER, e2, r),
        trim(e.buffer_spec()).len() > 0,
    ensures
        e2.history_spec().len() > 0,
        ({
            let i = history_index_after(e2.index_spec(), e2.history_spec().len() as int, true);
            &&& 0 <= i < e2.history_spec().len()
            &&& e2.history_spec()[i] == trim(e.buffer_spec())
        }),
{
    law_enter_records_command(e, e2, r);
}

} // verus!
