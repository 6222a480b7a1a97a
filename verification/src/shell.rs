//! The shell: its variables, its history, and the running of a line.

use crate::console::{lemma_write_bytes_wf, line, try_print, try_print_spec};
use crate::fault::Fault;
use crate::reading::Reader;
use crate::shell::command_runner::CommandRunner;
use crate::shell::commands::World;
use crate::vga_buffer::{fits, wiped_screen, Color, ColorCode, Screen, Writer};
use vstd::prelude::*;
use vstd::string::StrSliceExecFns;
use vstd::string::StringSliceAdditionalSpecFns;

pub mod calculator;
pub mod command_runner;
pub mod commands;

verus! {

/// The version that the kernel reports.
pub const OS_VERSION: &'static str = "1.0";

/// The variables of the shell.
pub struct ShellEnvironment {
    names: Vec<String>,
    values: Vec<String>,
}

impl View for ShellEnvironment {
    type V = Map<Seq<char>, Seq<char>>;

    closed spec fn view(&self) -> Map<Seq<char>, Seq<char>> {
        Map::new(
            |name: Seq<char>| self.slot(name) is Some,
            |name: Seq<char>| self.values@[self.slot(name).unwrap()]@,
        )
    }
}

impl ShellEnvironment {
    /// The place of a name among the names.
    spec fn slot(&self, name: Seq<char>) -> Option<int> {
        if exists|i: int| 0 <= i < self.names@.len() && self.names@[i]@ == name {
            Some(choose|i: int| 0 <= i < self.names@.len() && self.names@[i]@ == name)
        } else {
            None
        }
    }

    /// Each name has its value, and no name stands twice.
    pub closed spec fn wf(&self) -> bool {
        &&& self.names@.len() == self.values@.len()
        &&& forall|i: int, j: int|
            0 <= i < j < self.names@.len() ==> self.names@[i]@ != self.names@[j]@
    }

    /// An environment without variables.
    pub fn new() -> (environment: ShellEnvironment)
        ensures
            environment.wf(),
            environment@ == Map::<Seq<char>, Seq<char>>::empty(),
    {
        let environment = ShellEnvironment { names: Vec::new(), values: Vec::new() };
        assert(environment@ =~= Map::<Seq<char>, Seq<char>>::empty());
        environment
    }

    /// Where `name` stands among the names.
    fn position(&self, name: &str) -> (at: Option<usize>)
        requires
            self.wf(),
        ensures
            match at {
                Some(i) => self.slot(name@) == Some(i as int) && i < self.names@.len(),
                None => self.slot(name@) is None,
            },
    {
        let mut i: usize = 0;
        while i < self.names.len()
            invariant
                self.wf(),
                i <= self.names@.len(),
                forall|k: int| 0 <= k < i ==> self.names@[k]@ != name@,
            decreases self.names@.len() - i,
        {
            if crate::text::same_text(self.names[i].as_str(), name) {
                proof {
                    let found = self.slot(name@).unwrap();
                    assert(self.names@[found]@ == name@);
                    assert(found == i);
                }
                return Some(i);
            }
            i += 1;
        }
        None
    }

    /// The value of the variable `name`.
    pub fn get(&self, name: &str) -> (value: Option<String>)
        requires
            self.wf(),
        ensures
            match value {
                Some(v) => self@.dom().contains(name@) && self@[name@] == v@,
                None => !self@.dom().contains(name@),
            },
    {
        match self.position(name) {
            Some(i) => Some(self.values[i].clone()),
            None => None,
        }
    }

    /// Gives the variable `name` the value `value`.
    pub fn insert(&mut self, name: String, value: String)
        requires
            old(self).wf(),
        ensures
            final(self).wf(),
            final(self)@ == old(self)@.insert(name@, value@),
    {
        match self.position(name.as_str()) {
            Some(i) => {
                self.values.set(i, value);
                proof {
                    assert forall|n: Seq<char>| self.slot(n) == old(self).slot(n) by {}
                    assert(self@ =~= old(self)@.insert(name@, value@));
                }
            },
            None => {
                self.names.push(name);
                self.values.push(value);
                proof {
                    let last = old(self).names@.len() as int;
                    assert(self.names@[last]@ == name@);
                    assert(self.slot(name@) == Some(last));
                    assert forall|n: Seq<char>| n != name@ implies self.slot(n) == old(self).slot(
                        n,
                    ) by {
                        if old(self).slot(n) is Some {
                            let i = old(self).slot(n).unwrap();
                            assert(self.names@[i]@ == n);
                        }
                        if self.slot(n) is Some {
                            let i = self.slot(n).unwrap();
                            assert(old(self).names@[i]@ == n);
                        }
                    }
                    assert(self@ =~= old(self)@.insert(name@, value@));
                }
            },
        }
    }
}

/// The lines that the shell was given, and the one that is shown.
pub struct ShellHistory {
    pub history: Vec<String>,
    pub index: u64,
}

impl ShellHistory {
    pub fn new() -> (history: ShellHistory)
        ensures
            history.history@.len() == 0,
            history.index == 0,
    {
        ShellHistory { history: Vec::new(), index: 0 }
    }
}

/// The console and what the shell keeps between two lines.
pub struct Terminal {
    pub writer: Writer,
    pub reader: Reader,
    pub history: ShellHistory,
    pub environment: ShellEnvironment,
}

/// A terminal as plain values.
pub struct TerminalState {
    pub screen: Screen,
    pub awaits_input: bool,
    pub column_position_start: usize,
    pub history: Seq<Seq<char>>,
    pub index: u64,
    pub variables: Map<Seq<char>, Seq<char>>,
}

impl View for Terminal {
    type V = TerminalState;

    open spec fn view(&self) -> TerminalState {
        TerminalState {
            screen: self.writer@,
            awaits_input: self.reader.awaits_input,
            column_position_start: self.reader.column_position_start,
            history: self.history.history.deep_view(),
            index: self.history.index,
            variables: self.environment@,
        }
    }
}

impl Terminal {
    /// The console is whole and the variables are in order.
    pub open spec fn wf(&self) -> bool {
        self.writer@.wf() && self.environment.wf()
    }

    /// A terminal with a wiped console, no history and no variables,
    /// which waits for nothing yet.
    pub fn new() -> (terminal: Terminal)
        ensures
            terminal.wf(),
            terminal@ == (TerminalState {
                screen: wiped_screen(),
                awaits_input: false,
                column_position_start: 0,
                history: Seq::empty(),
                index: 0,
                variables: Map::empty(),
            }),
    {
        let terminal = Terminal {
            writer: Writer::new(),
            reader: Reader::new(),
            history: ShellHistory::new(),
            environment: ShellEnvironment::new(),
        };
        assert(terminal@.history =~= Seq::<Seq<char>>::empty());
        terminal
    }
}

/// The terminal after the prompt was shown for the first time.
pub open spec fn initial_run_spec(terminal: TerminalState) -> (Result<(), Fault>, TerminalState) {
    match try_print_spec(terminal.screen, "> ".spec_bytes()) {
        Ok(screen) => (
            Ok(()),
            TerminalState { screen, awaits_input: true, column_position_start: 0, ..terminal },
        ),
        Err(fault) => (Err(fault), terminal),
    }
}

/// Shows the prompt and waits for a line.
pub fn initial_run(terminal: &mut Terminal) -> (done: Result<(), Fault>)
    requires
        old(terminal).wf(),
    ensures
        final(terminal).wf(),
        (done, final(terminal)@) == initial_run_spec(old(terminal)@),
{
    try_print(&mut terminal.writer, "> ")?;
    terminal.reader.awaits_input = true;
    terminal.reader.column_position_start = 0;
    Ok(())
}

/// The terminal after the line above the cursor was run: the line
/// without its prompt is the newest of the history, its command has
/// answered, and the prompt is shown again. Nothing happens while a line
/// is still awaited.
pub open spec fn run_spec(terminal: TerminalState) -> (Result<(), Fault>, TerminalState) {
    if terminal.awaits_input {
        (Ok(()), terminal)
    } else if terminal.screen.row == 0 {
        (Err(Fault::RowOutOfBounds), terminal)
    } else {
        let typed = terminal.screen.row_text((terminal.screen.row - 1) as nat);
        if typed.len() < 2 {
            (Err(Fault::PromptMissing), terminal)
        } else {
            let input = typed.skip(2);
            let history = terminal.history.push(input);
            let noted = TerminalState { history, index: history.len() as u64, ..terminal };
            let (ran, world) = crate::shell::command_runner::run_spec(
                input,
                World { variables: terminal.variables, screen: terminal.screen },
            );
            let answered = TerminalState {
                screen: world.screen,
                variables: world.variables,
                ..noted
            };
            match ran {
                Err(fault) => (Err(fault), answered),
                Ok(()) => match try_print_spec(answered.screen, "> ".spec_bytes()) {
                    Ok(screen) => (
                        Ok(()),
                        TerminalState {
                            screen,
                            awaits_input: true,
                            column_position_start: 0,
                            ..answered
                        },
                    ),
                    Err(fault) => (
                        Err(fault),
                        TerminalState { column_position_start: 0, ..answered },
                    ),
                },
            }
        }
    }
}

/// Runs the line above the cursor and shows the prompt again.
pub fn run(terminal: &mut Terminal) -> (done: Result<(), Fault>)
    requires
        old(terminal).wf(),
    ensures
        final(terminal).wf(),
        (done, final(terminal)@) == run_spec(old(terminal)@),
{
    if terminal.reader.awaits_input {
        return Ok(());
    }
    let row = terminal.writer.row_position();
    if row == 0 {
        return Err(Fault::RowOutOfBounds);
    }
    let mut input = terminal.writer.row_into_string(row - 1);
    if input.as_str().unicode_len() < 2 {
        return Err(Fault::PromptMissing);
    }
    // Remove input indicator.
    input.remove(0);
    input.remove(0);
    let ghost typed = old(terminal)@.screen.row_text((row - 1) as nat);
    assert(input@ =~= typed.skip(2));
    let ghost before = terminal.history.history.deep_view();
    terminal.history.history.push(input.clone());
    assert(terminal.history.history.deep_view() =~= before.push(input@));
    let length = terminal.history.history.len() as u64;
    terminal.history.index = length;
    let mut command_runner = CommandRunner::new();
    command_runner.run(input.as_str(), &mut terminal.environment, &mut terminal.writer)?;
    terminal.reader.column_position_start = 0;
    try_print(&mut terminal.writer, "> ")?;
    terminal.reader.awaits_input = true;
    terminal.reader.column_position_start = 0;
    Ok(())
}

/// The screen after the kernel has introduced itself: its name and
/// version in yellow on a line of their own, and white as the colour of
/// what follows.
pub open spec fn print_info_message_spec(screen: Screen) -> Result<Screen, Fault> {
    crate::console::try_warning_spec(screen, "PlatiniumOS ".spec_bytes().add(OS_VERSION.spec_bytes()))
}

/// Introduces the kernel on the console.
pub fn print_info_message(writer: &mut Writer) -> (done: Result<(), Fault>)
    requires
        old(writer)@.wf(),
    ensures
        final(writer)@.wf(),
        match print_info_message_spec(old(writer)@) {
            Ok(screen) => done is Ok && final(writer)@ == screen,
            Err(fault) => done == Err::<(), Fault>(fault) && final(writer)@ == old(writer)@,
        },
{
    let ghost text = "PlatiniumOS ".spec_bytes().add(OS_VERSION.spec_bytes());
    proof {
        crate::console::lemma_fits_concat(
            writer@.col,
            "PlatiniumOS ".spec_bytes(),
            OS_VERSION.spec_bytes(),
        );
    }
    let room = match fits(writer.column_position(), "PlatiniumOS ") {
        Some(col) => fits(col, OS_VERSION).is_some(),
        None => false,
    };
    if !room {
        return Err(Fault::ColumnOutOfBounds);
    }
    writer.change_color_code(ColorCode::new(Color::Yellow, Color::Black));
    let ghost yellow = writer@;
    proof {
        crate::console::lemma_write_bytes_concat(
            yellow,
            "PlatiniumOS ".spec_bytes(),
            line(OS_VERSION.spec_bytes()),
        );
        assert(line(text) =~= "PlatiniumOS ".spec_bytes().add(line(OS_VERSION.spec_bytes())));
        lemma_write_bytes_wf(yellow, "PlatiniumOS ".spec_bytes());
    }
    crate::console::print(writer, "PlatiniumOS ");
    crate::console::println(writer, OS_VERSION);
    writer.change_color_code(ColorCode::new(Color::White, Color::Black));
    Ok(())
}

} // verus!
