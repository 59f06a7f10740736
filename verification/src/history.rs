//! The commands that were entered, for recall with the arrow keys.

use std::collections::VecDeque;
use vstd::prelude::*;
use crate::text::{str_eq, trimmed, trimmed_of};

verus! {

/// The last commands, oldest first, at most `max_size` of them once one has
/// been added, and a cursor for walking back and forth through them.
pub struct History {
    pub commands: VecDeque<String>,
    pub max_size: usize,
    pub current_index: Option<usize>,
    /// Where the commands are kept between runs, if anywhere.
    pub history_file: Option<String>,
}

/// The commands of a history as sequences of characters.
pub open spec fn texts(commands: Seq<String>) -> Seq<Seq<char>> {
    Seq::new(commands.len(), |i: int| commands[i]@)
}

/// The commands after one more has come in: where `max_size` are there or
/// more, the oldest goes first.
pub open spec fn with_command(commands: Seq<Seq<char>>, max_size: int, command: Seq<char>) -> Seq<
    Seq<char>,
> {
    if commands.len() >= max_size && commands.len() > 0 {
        commands.subrange(1, commands.len() as int).push(command)
    } else {
        commands.push(command)
    }
}

/// The commands after the first `k` lines of a file have been taken in;
/// lines that are blank are left out.
pub open spec fn with_lines(
    commands: Seq<Seq<char>>,
    max_size: int,
    lines: Seq<Seq<char>>,
    k: nat,
) -> Seq<Seq<char>>
    decreases k,
{
    if k == 0 {
        commands
    } else if trimmed_of(lines[k - 1]).len() == 0 {
        with_lines(commands, max_size, lines, (k - 1) as nat)
    } else {
        with_command(with_lines(commands, max_size, lines, (k - 1) as nat), max_size, lines[k - 1])
    }
}

impl History {
    /// The commands as sequences of characters, oldest first.
    pub open spec fn view(&self) -> Seq<Seq<char>> {
        texts(self.commands@)
    }

    /// Whether the cursor, where it is set, points at a command.
    pub open spec fn wf(&self) -> bool {
        match self.current_index {
            Some(index) => index < self.commands@.len(),
            None => true,
        }
    }

    /// A history without commands that is kept nowhere.
    pub fn new(max_size: usize) -> (history: History)
        ensures
            history.wf(),
            history@ == Seq::<Seq<char>>::empty(),
            history.max_size == max_size,
            history.current_index is None,
            history.history_file is None,
    {
        let history = History {
            commands: VecDeque::new(),
            max_size,
            current_index: None,
            history_file: None,
        };
        assert(history@ =~= Seq::<Seq<char>>::empty());
        history
    }

    /// A history without commands that is kept in a file; `load` takes in
    /// the lines of the file.
    pub fn with_file(max_size: usize, history_file: String) -> (history: History)
        ensures
            history.wf(),
            history@ == Seq::<Seq<char>>::empty(),
            history.max_size == max_size,
            history.current_index is None,
            history.history_file == Some(history_file),
    {
        let history = History {
            commands: VecDeque::new(),
            max_size,
            current_index: None,
            history_file: Some(history_file),
        };
        assert(history@ =~= Seq::<Seq<char>>::empty());
        history
    }

    /// Takes in one command at the end, the oldest going first where the
    /// history is full.
    fn push(&mut self, command: String)
        ensures
            final(self)@ == with_command(old(self)@, old(self).max_size as int, command@),
            final(self).max_size == old(self).max_size,
            final(self).current_index == old(self).current_index,
            final(self).history_file == old(self).history_file,
            final(self).commands@.len() > 0,
    {
        let ghost before = self@;
        if self.commands.len() >= self.max_size {
            self.commands.pop_front();
        }
        self.commands.push_back(command);
        assert(self@ =~= with_command(before, self.max_size as int, command@));
    }

    /// Takes in the lines of the history file, oldest first; blank lines are
    /// left out.
    pub fn load(&mut self, lines: Vec<String>)
        ensures
            final(self)@ == with_lines(
                old(self)@,
                old(self).max_size as int,
                texts(lines@),
                lines@.len(),
            ),
            final(self).max_size == old(self).max_size,
            final(self).current_index == old(self).current_index,
            final(self).history_file == old(self).history_file,
    {
        let mut i: usize = 0;
        let ghost all = texts(lines@);
        while i < lines.len()
            invariant
                i <= lines@.len(),
                all == texts(lines@),
                self@ == with_lines(old(self)@, old(self).max_size as int, all, i as nat),
                self.max_size == old(self).max_size,
                self.current_index == old(self).current_index,
                self.history_file == old(self).history_file,
            decreases lines@.len() - i,
        {
            assert(all[i as int] == lines@[i as int]@);
            let rest = trimmed(lines[i].as_str());
            if !rest.as_str().is_empty() {
                self.push(lines[i].clone());
            }
            i += 1;
        }
    }

    /// Takes in a command that was entered and says whether the history has
    /// changed, so that it can be written out. A blank command is not taken
    /// in, and the cursor then stays; a command that repeats the last one is
    /// not taken in either. Else the cursor is reset.
    pub fn add(&mut self, command: String) -> (changed: bool)
        ensures
            final(self).max_size == old(self).max_size,
            final(self).history_file == old(self).history_file,
            trimmed_of(command@).len() == 0 ==> !changed && final(self)@ == old(self)@ && final(
                self).current_index == old(self).current_index,
            trimmed_of(command@).len() != 0 ==> final(self).current_index is None && changed == !(
            old(self)@.len() > 0 && old(self)@.last() == command@) && final(self)@ == if changed {
                with_command(old(self)@, old(self).max_size as int, command@)
            } else {
                old(self)@
            },
            old(self).wf() ==> final(self).wf(),
    {
        let rest = trimmed(command.as_str());
        self.add_trimmed(command, rest.as_str())
    }

    /// Takes in a command of which `rest` is what is left without the white
    /// space at its ends: as `add` does, which trims the command itself.
    pub fn add_trimmed(&mut self, command: String, rest: &str) -> (changed: bool)
        ensures
            final(self).max_size == old(self).max_size,
            final(self).history_file == old(self).history_file,
            rest@.len() == 0 ==> !changed && final(self)@ == old(self)@ && final(
                self).current_index == old(self).current_index,
            rest@.len() != 0 ==> final(self).current_index is None && changed == !(old(self)@.len()
                > 0 && old(self)@.last() == command@) && final(self)@ == if changed {
                with_command(old(self)@, old(self).max_size as int, command@)
            } else {
                old(self)@
            },
            old(self).wf() ==> final(self).wf(),
    {
        if rest.is_empty() {
            return false;
        }
        let n = self.commands.len();
        let repeats = n > 0 && str_eq(self.commands[n - 1].as_str(), command.as_str());
        assert(n > 0 ==> self@.last() == self.commands@[n - 1]@);
        let changed = !repeats;
        if changed {
            self.push(command);
        }
        self.reset_position();
        changed
    }

    /// Steps the cursor back to the command before and gives it: the last
    /// command where the cursor was not set, and the first again where it
    /// stood there. Nothing where there are no commands.
    pub fn previous(&mut self) -> (found: Option<&String>)
        requires
            old(self).wf(),
        ensures
            final(self).wf(),
            final(self).commands == old(self).commands,
            final(self).max_size == old(self).max_size,
            final(self).history_file == old(self).history_file,
            old(self).commands@.len() == 0 ==> found is None && final(self).current_index
                == old(self).current_index,
            old(self).commands@.len() > 0 ==> found == Some(
                &old(self).commands@[match old(self).current_index {
                    None => old(self).commands@.len() - 1,
                    Some(index) => if index > 0 {
                        index - 1
                    } else {
                        0
                    },
                }],
            ) && final(self).current_index == match old(self).current_index {
                None => Some((old(self).commands@.len() - 1) as usize),
                Some(index) => if index > 0 {
                    Some((index - 1) as usize)
                } else {
                    Some(0usize)
                },
            },
    {
        let n = self.commands.len();
        if n == 0 {
            return None;
        }
        match self.current_index {
            None => {
                self.current_index = Some(n - 1);
                Some(&self.commands[n - 1])
            },
            Some(index) => {
                if index > 0 {
                    self.current_index = Some(index - 1);
                    Some(&self.commands[index - 1])
                } else {
                    Some(&self.commands[0])
                }
            },
        }
    }

    /// Steps the cursor forward to the command after and gives it; stepping
    /// past the last command resets the cursor and gives nothing.
    pub fn next_command(&mut self) -> (found: Option<&String>)
        requires
            old(self).wf(),
        ensures
            final(self).wf(),
            final(self).commands == old(self).commands,
            final(self).max_size == old(self).max_size,
            final(self).history_file == old(self).history_file,
            match old(self).current_index {
                Some(index) => if index + 1 < old(self).commands@.len() {
                    found == Some(&old(self).commands@[index + 1]) && final(self).current_index
                        == Some((index + 1) as usize)
                } else {
                    found is None && final(self).current_index is None
                },
                None => found is None && final(self).current_index is None,
            },
    {
        match self.current_index {
            Some(index) => {
                if index < self.commands.len() - 1 {
                    self.current_index = Some(index + 1);
                    Some(&self.commands[index + 1])
                } else {
                    self.reset_position();
                    None
                }
            },
            None => None,
        }
    }

    /// Resets the cursor.
    pub fn reset_position(&mut self)
        ensures
            final(self).current_index is None,
            final(self).commands == old(self).commands,
            final(self).max_size == old(self).max_size,
            final(self).history_file == old(self).history_file,
            final(self).wf(),
    {
        self.current_index = None;
    }
}

} // verus!
