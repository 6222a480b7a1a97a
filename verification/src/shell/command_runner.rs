//! The commands of the shell by name, and the reading of their arguments.

use crate::console::{line, try_error};
use crate::fault::Fault;
use crate::shell::commands::{
    echo_text, output_view, CalcCommand, ColorCommand, EchoCommand, SetCommand, VersionCommand,
    World,
};
use crate::shell::ShellEnvironment;
use crate::text::{
    ends_with, same_text, split_whitespace, starts_with, trim_end_matches, trim_end_spec,
    trim_start_matches, trim_start_spec, words,
};
use crate::vga_buffer::{Screen, Writer};
use vstd::prelude::*;
use vstd::string::StringExecFns;
use vstd::utf8::encode_utf8;

verus! {

/// A command of the shell.
pub trait Command {
    /// What the command answers to its arguments, and the world that it
    /// leaves.
    spec fn run_spec(&self, arguments: Seq<Seq<char>>, world: World) -> (
        Result<Seq<char>, Fault>,
        World,
    );

    /// Runs the command at the start of a row of the console.
    fn run(
        &mut self,
        arguments: Vec<String>,
        environment: &mut ShellEnvironment,
        writer: &mut Writer,
    ) -> (output: Result<String, Fault>)
        requires
            old(environment).wf(),
            old(writer)@.wf(),
        ensures
            final(environment).wf(),
            final(writer)@.wf(),
            (output_view(output), World { variables: final(environment)@, screen: final(writer)@ })
                == old(self).run_spec(
                arguments.deep_view(),
                World { variables: old(environment)@, screen: old(writer)@ },
            ),
    ;
}

/// The commands that the shell knows.
pub enum Builtin {
    Version(VersionCommand),
    Echo(EchoCommand),
    Calc(CalcCommand),
    SetVar(SetCommand),
    Color(ColorCommand),
}

impl Builtin {
    /// What the command answers to its arguments, and the world that it
    /// leaves.
    pub open spec fn run_spec(self, arguments: Seq<Seq<char>>, world: World) -> (
        Result<Seq<char>, Fault>,
        World,
    ) {
        match self {
            Builtin::Version(command) => command.run_spec(arguments, world),
            Builtin::Echo(command) => command.run_spec(arguments, world),
            Builtin::Calc(command) => command.run_spec(arguments, world),
            Builtin::SetVar(command) => command.run_spec(arguments, world),
            Builtin::Color(command) => command.run_spec(arguments, world),
        }
    }
}

/// The command of a name.
pub open spec fn builtin_named(name: Seq<char>) -> Option<Builtin> {
    if name == "version"@ {
        Some(Builtin::Version(VersionCommand))
    } else if name == "echo"@ {
        Some(Builtin::Echo(EchoCommand))
    } else if name == "calc"@ {
        Some(Builtin::Calc(CalcCommand))
    } else if name == "set"@ {
        Some(Builtin::SetVar(SetCommand))
    } else if name == "color"@ {
        Some(Builtin::Color(ColorCommand))
    } else {
        None
    }
}

/// How far the arguments of a command have been read.
pub struct Parse {
    /// The arguments that the command will get.
    pub result: Seq<Seq<char>>,
    /// The part of a quoted argument that was read so far.
    pub string: Seq<char>,
    /// Whether a quoted argument was begun.
    pub is_in_string: bool,
    /// The part of a command in brackets that was read so far.
    pub inline_command: Seq<Seq<char>>,
    /// Whether a command in brackets was begun and not ended.
    pub is_in_inline_command: bool,
}

impl Parse {
    /// Nothing read yet.
    pub open spec fn start() -> Parse {
        Parse {
            result: Seq::empty(),
            string: Seq::empty(),
            is_in_string: false,
            inline_command: Seq::empty(),
            is_in_inline_command: false,
        }
    }
}

/// The arguments that a command gets for the `arguments` that were typed,
/// and the world after they were read. A word behind `$` is replaced by
/// the variable of that name; words from `$(` to the next that ends in `)`
/// are run as a command, whose answer takes their place; `\n` stands for
/// a line feed; words between quotes become one argument.
pub open spec fn process_from(arguments: Seq<Seq<char>>, state: Parse, world: World) -> (
    Result<Seq<Seq<char>>, Fault>,
    World,
)
    decreases 2 * (state.inline_command.len() + arguments.len()) + 1, arguments.len(),
{
    if arguments.len() == 0 {
        (Ok(state.result), world)
    } else {
        let argument = arguments[0];
        let rest = arguments.skip(1);
        if "$"@.is_prefix_of(argument) {
            if "$("@.is_prefix_of(argument) {
                process_from(
                    rest,
                    Parse {
                        is_in_inline_command: true,
                        inline_command: state.inline_command.push(
                            trim_start_spec(argument, "$("@),
                        ),
                        ..state
                    },
                    world,
                )
            } else {
                let name = trim_start_spec(argument, "$"@);
                if world.variables.dom().contains(name) {
                    process_from(
                        rest,
                        Parse { result: state.result.push(world.variables[name]), ..state },
                        world,
                    )
                } else {
                    match world.report("Variable not found.") {
                        Ok(after) => (Ok(Seq::empty()), after),
                        Err(fault) => (Err(fault), world),
                    }
                }
            }
        } else if ")"@.is_suffix_of(argument) && state.is_in_inline_command {
            let inline = state.inline_command.push(trim_end_spec(argument, ")"@));
            match run_command_spec(inline, world) {
                (Ok(answer), after) => process_from(
                    rest,
                    Parse {
                        result: state.result.push(answer),
                        inline_command: Seq::empty(),
                        is_in_inline_command: false,
                        ..state
                    },
                    after,
                ),
                (Err(fault), after) => (Err(fault), after),
            }
        } else if state.is_in_inline_command {
            process_from(
                rest,
                Parse { inline_command: state.inline_command.push(argument), ..state },
                world,
            )
        } else if "\\"@.is_prefix_of(argument) {
            if argument == "\\n"@ {
                process_from(rest, Parse { result: state.result.push("\n"@), ..state }, world)
            } else {
                match world.report("unknown escape sequence.") {
                    Ok(after) => process_from(rest, state, after),
                    Err(fault) => (Err(fault), world),
                }
            }
        } else if "\""@.is_prefix_of(argument) && "\""@.is_suffix_of(argument) {
            process_from(
                rest,
                Parse {
                    result: state.result.push(
                        trim_end_spec(trim_start_spec(argument, "\""@), "\""@),
                    ),
                    ..state
                },
                world,
            )
        } else if "\""@.is_prefix_of(argument) {
            process_from(
                rest,
                Parse { string: trim_start_spec(argument, "\""@), is_in_string: true, ..state },
                world,
            )
        } else if "\""@.is_suffix_of(argument) && state.is_in_string {
            process_from(
                rest,
                Parse {
                    result: state.result.push(
                        state.string.add(" "@).add(trim_end_spec(argument, "\""@)),
                    ),
                    string: Seq::empty(),
                    ..state
                },
                world,
            )
        } else if state.is_in_string {
            process_from(
                rest,
                Parse { string: state.string.add(" "@).add(argument), ..state },
                world,
            )
        } else {
            process_from(rest, Parse { result: state.result.push(argument), ..state }, world)
        }
    }
}

/// What the command that `arguments` begin with answers to the rest of
/// them, and the world that it leaves. A name that is no command is
/// reported, and the answer is empty.
pub open spec fn run_command_spec(arguments: Seq<Seq<char>>, world: World) -> (
    Result<Seq<char>, Fault>,
    World,
)
    decreases 2 * arguments.len(), 0nat,
{
    if arguments.len() == 0 {
        (Ok(Seq::empty()), world)
    } else {
        match builtin_named(arguments[0]) {
            None => world.fail("Command not found."),
            Some(command) => match process_from(arguments.skip(1), Parse::start(), world) {
                (Ok(processed), after) => command.run_spec(processed, after),
                (Err(fault), after) => (Err(fault), after),
            },
        }
    }
}

/// The world after a line was run: the answer of its command on a line of
/// its own. An empty line is reported; an answer that the console cannot
/// take is a fault.
pub open spec fn run_spec(command: Seq<char>, world: World) -> (Result<(), Fault>, World) {
    let arguments = words(command);
    if arguments.len() == 0 {
        match world.report("Input is empty.") {
            Ok(after) => (Ok(()), after),
            Err(fault) => (Err(fault), world),
        }
    } else {
        match run_command_spec(arguments, world) {
            (Ok(answer), after) => if after.screen.takes_bytes(encode_utf8(answer)) {
                (
                    Ok(()),
                    World { screen: after.screen.write_bytes(line(encode_utf8(answer))), ..after },
                )
            } else {
                (Err(Fault::ColumnOutOfBounds), after)
            },
            (Err(fault), after) => (Err(fault), after),
        }
    }
}

/// Whether an argument is taken as it stands: it begins with none of the
/// signs for a variable, an escape or a quote.
pub open spec fn plain(argument: Seq<char>) -> bool {
    &&& !"$"@.is_prefix_of(argument)
    &&& !"\\"@.is_prefix_of(argument)
    &&& !"\""@.is_prefix_of(argument)
}

/// Arguments that are taken as they stand are added to the arguments read
/// so far, where no quote and no bracket is open, and change nothing.
proof fn lemma_plain_arguments(arguments: Seq<Seq<char>>, state: Parse, world: World)
    requires
        forall|i: int| 0 <= i < arguments.len() ==> plain(#[trigger] arguments[i]),
        !state.is_in_string,
        !state.is_in_inline_command,
        state.inline_command.len() == 0,
    ensures
        process_from(arguments, state, world) == (
            Ok::<Seq<Seq<char>>, Fault>(state.result.add(arguments)),
            world,
        ),
    decreases arguments.len(),
{
    if arguments.len() == 0 {
        assert(state.result.add(arguments) =~= state.result);
    } else {
        let next = Parse { result: state.result.push(arguments[0]), ..state };
        assert(plain(arguments[0]));
        assert forall|i: int| 0 <= i < arguments.skip(1).len() implies plain(
            #[trigger] arguments.skip(1)[i],
        ) by {
            assert(arguments.skip(1)[i] == arguments[i + 1]);
        }
        lemma_plain_arguments(arguments.skip(1), next, world);
        assert(next.result.add(arguments.skip(1)) =~= state.result.add(arguments));
    }
}

/// Arguments that begin with none of the signs for a variable, an escape
/// or a quote reach their command as they were typed, and reading them
/// changes nothing.
pub proof fn law_plain_arguments_are_passed_on(arguments: Seq<Seq<char>>, world: World)
    requires
        forall|i: int| 0 <= i < arguments.len() ==> plain(#[trigger] arguments[i]),
    ensures
        process_from(arguments, Parse::start(), world) == (
            Ok::<Seq<Seq<char>>, Fault>(arguments),
            world,
        ),
{
    lemma_plain_arguments(arguments, Parse::start(), world);
    assert(Parse::start().result.add(arguments) =~= arguments);
}

/// `echo` answers with its arguments, each followed by a space: a line
/// whose first word is `echo` and whose other words are taken as they
/// stand writes that answer on a line of its own, where the console has
/// room for it, and changes nothing else.
pub proof fn law_echo_repeats_its_arguments(
    command: Seq<char>,
    arguments: Seq<Seq<char>>,
    world: World,
)
    requires
        words(command) == seq!["echo"@].add(arguments),
        forall|i: int| 0 <= i < arguments.len() ==> plain(#[trigger] arguments[i]),
        world.screen.takes_bytes(encode_utf8(echo_text(arguments))),
    ensures
        run_command_spec(words(command), world) == (
            Ok::<Seq<char>, Fault>(echo_text(arguments)),
            world,
        ),
        run_spec(command, world) == (
            Ok::<(), Fault>(()),
            World {
                screen: world.screen.write_bytes(line(encode_utf8(echo_text(arguments)))),
                ..world
            },
        ),
{
    let all = words(command);
    assert(all[0] == "echo"@);
    assert(all.skip(1) =~= arguments);
    assert(builtin_named("echo"@) == Some(Builtin::Echo(EchoCommand))) by {
        reveal_strlit("echo");
        reveal_strlit("version");
    }
    law_plain_arguments_are_passed_on(arguments, world);
}

/// The shell's table of commands.
pub struct CommandRunner {
    names: Vec<String>,
    commands: Vec<Builtin>,
}

impl CommandRunner {
    /// The table holds each command under its name.
    pub closed spec fn wf(&self) -> bool {
        &&& self.names@.len() == self.commands@.len()
        &&& forall|i: int|
            0 <= i < self.names@.len() ==> builtin_named(#[trigger] self.names@[i]@) == Some(
                self.commands@[i],
            )
        &&& forall|name: Seq<char>|
            builtin_named(name) is Some ==> exists|i: int|
                0 <= i < self.names@.len() && #[trigger] self.names@[i]@ == name
    }

    pub fn new() -> (runner: CommandRunner)
        ensures
            runner.wf(),
    {
        let (names, commands) = CommandRunner::default_commands();
        CommandRunner { names, commands }
    }

    /// The commands of the shell, each with its name.
    fn default_commands() -> (table: (Vec<String>, Vec<Builtin>))
        ensures
            table.0@.len() == table.1@.len(),
            forall|i: int|
                0 <= i < table.0@.len() ==> builtin_named(#[trigger] table.0@[i]@) == Some(
                    table.1@[i],
                ),
            forall|name: Seq<char>|
                builtin_named(name) is Some ==> exists|i: int|
                    0 <= i < table.0@.len() && #[trigger] table.0@[i]@ == name,
    {
        let mut names: Vec<String> = Vec::new();
        let mut commands: Vec<Builtin> = Vec::new();
        names.push(String::from_str("version"));
        commands.push(Builtin::Version(VersionCommand {  }));
        names.push(String::from_str("echo"));
        commands.push(Builtin::Echo(EchoCommand {  }));
        names.push(String::from_str("calc"));
        commands.push(Builtin::Calc(CalcCommand {  }));
        names.push(String::from_str("set"));
        commands.push(Builtin::SetVar(SetCommand {  }));
        names.push(String::from_str("color"));
        commands.push(Builtin::Color(ColorCommand {  }));
        proof {
            reveal_strlit("version");
            reveal_strlit("echo");
            reveal_strlit("calc");
            reveal_strlit("set");
            reveal_strlit("color");
            assert("echo"@[0] != "calc"@[0]);
            assert(names@[0]@ == "version"@);
            assert(names@[1]@ == "echo"@);
            assert(names@[2]@ == "calc"@);
            assert(names@[3]@ == "set"@);
            assert(names@[4]@ == "color"@);
        }
        (names, commands)
    }

    /// The place of the command `name` in the table.
    fn find(&self, name: &str) -> (at: Option<usize>)
        requires
            self.wf(),
        ensures
            match at {
                Some(i) => i < self.commands@.len() && builtin_named(name@) == Some(
                    self.commands@[i as int],
                ),
                None => builtin_named(name@) is None,
            },
    {
        let mut i: usize = 0;
        while i < self.names.len()
            invariant
                self.wf(),
                i <= self.names@.len(),
                forall|k: int| 0 <= k < i ==> self.names@[k]@ != name@,
            decreases self.names@.len() - i,
        {
            if same_text(self.names[i].as_str(), name) {
                return Some(i);
            }
            i += 1;
        }
        None
    }

    /// Runs a line of the shell: the answer of its command is written on
    /// a line of its own.
    pub fn run(&mut self, command: &str, environment: &mut ShellEnvironment, writer: &mut Writer) -> (done:
        Result<(), Fault>)
        requires
            old(self).wf(),
            old(environment).wf(),
            old(writer)@.wf(),
        ensures
            final(self).wf(),
            final(environment).wf(),
            final(writer)@.wf(),
            done is Ok ==> final(writer)@.col == 0,
            (done, World { variables: final(environment)@, screen: final(writer)@ }) == run_spec(
                command@,
                World { variables: old(environment)@, screen: old(writer)@ },
            ),
    {
        let arguments: Vec<String> = split_whitespace(command);
        if arguments.len() == 0 {
            try_error(writer, "Input is empty.")?;
            return Ok(());
        }
        let answer = self.run_command(arguments, environment, writer)?;
        if !writer.accepts(answer.as_str()) {
            return Err(Fault::ColumnOutOfBounds);
        }
        crate::console::println(writer, answer.as_str());
        Ok(())
    }

    /// Runs the command that `arguments` begin with on the rest of them.
    pub fn run_command(
        &mut self,
        arguments: Vec<String>,
        environment: &mut ShellEnvironment,
        writer: &mut Writer,
    ) -> (answer: Result<String, Fault>)
        requires
            old(self).wf(),
            arguments@.len() > 0,
            old(environment).wf(),
            old(writer)@.wf(),
        ensures
            final(self).wf(),
            final(environment).wf(),
            final(writer)@.wf(),
            (output_view(answer), World { variables: final(environment)@, screen: final(writer)@ })
                == run_command_spec(
                arguments.deep_view(),
                World { variables: old(environment)@, screen: old(writer)@ },
            ),
        decreases 2 * arguments@.len(),
    {
        let mut arguments: Vec<String> = arguments;
        let ghost all = arguments.deep_view();
        let id = arguments[0].clone();
        arguments.remove(0);
        assert(arguments.deep_view() =~= all.skip(1));
        let at = match self.find(id.as_str()) {
            Some(at) => at,
            None => {
                try_error(writer, "Command not found.")?;
                return Ok(String::new());
            },
        };
        let processed = Self::process_arguments(arguments, environment, writer)?;
        match &mut self.commands[at] {
            Builtin::Version(command) => command.run(processed, environment, writer),
            Builtin::Echo(command) => command.run(processed, environment, writer),
            Builtin::Calc(command) => command.run(processed, environment, writer),
            Builtin::SetVar(command) => command.run(processed, environment, writer),
            Builtin::Color(command) => command.run(processed, environment, writer),
        }
    }

    /// Reads the arguments of a command: replaces variables, runs the
    /// commands in brackets, and joins what stands between quotes.
    fn process_arguments(
        arguments: Vec<String>,
        environment: &mut ShellEnvironment,
        writer: &mut Writer,
    ) -> (processed: Result<Vec<String>, Fault>)
        requires
            old(environment).wf(),
            old(writer)@.wf(),
        ensures
            final(environment).wf(),
            final(writer)@.wf(),
            (
                match processed {
                    Ok(list) => Ok(list.deep_view()),
                    Err(fault) => Err(fault),
                },
                World { variables: final(environment)@, screen: final(writer)@ },
            ) == process_from(
                arguments.deep_view(),
                Parse::start(),
                World { variables: old(environment)@, screen: old(writer)@ },
            ),
        decreases 2 * arguments@.len() + 1,
    {
        let mut result: Vec<String> = Vec::new();
        let mut string: String = String::new();
        let mut is_in_string: bool = false;
        let mut inline_command: Vec<String> = Vec::new();
        let mut is_in_inline_command: bool = false;
        let ghost all = arguments.deep_view();
        let ghost start = World { variables: environment@, screen: writer@ };
        proof {
            reveal_strlit("$");
            reveal_strlit("$(");
            reveal_strlit(")");
            reveal_strlit("\"");
            reveal_strlit(" ");
            assert(all.skip(0) =~= all);
            assert(result.deep_view() =~= Seq::<Seq<char>>::empty());
            assert(inline_command.deep_view() =~= Seq::<Seq<char>>::empty());
        }
        let mut i: usize = 0;
        while i < arguments.len()
            invariant
                i <= arguments@.len(),
                all == arguments.deep_view(),
                start == (World { variables: old(environment)@, screen: old(writer)@ }),
                environment.wf(),
                writer@.wf(),
                inline_command@.len() <= i,
                "$"@.len() == 1,
                "$("@.len() == 2,
                ")"@.len() == 1,
                "\""@.len() == 1,
                process_from(all, Parse::start(), start) == process_from(
                    all.skip(i as int),
                    Parse {
                        result: result.deep_view(),
                        string: string@,
                        is_in_string,
                        inline_command: inline_command.deep_view(),
                        is_in_inline_command,
                    },
                    World { variables: environment@, screen: writer@ },
                ),
            decreases arguments@.len() - i,
        {
            let argument = arguments[i].clone();
            let ghost rest = all.skip(i as int);
            let ghost results = result.deep_view();
            let ghost inlines = inline_command.deep_view();
            proof {
                assert(rest[0] == argument@);
                assert(rest.skip(1) =~= all.skip(i + 1));
            }
            if starts_with(argument.as_str(), "$") {
                if starts_with(argument.as_str(), "$(") {
                    is_in_inline_command = true;
                    inline_command.push(
                        String::from_str(trim_start_matches(argument.as_str(), "$(")),
                    );
                    assert(inline_command.deep_view() =~= inlines.push(
                        trim_start_spec(argument@, "$("@),
                    ));
                } else {
                    let variable_name = trim_start_matches(argument.as_str(), "$");
                    let variable_value = environment.get(variable_name);
                    match variable_value {
                        None => {
                            try_error(writer, "Variable not found.")?;
                            let none: Vec<String> = Vec::new();
                            assert(none.deep_view() =~= Seq::<Seq<char>>::empty());
                            return Ok(none);
                        },
                        Some(value) => {
                            result.push(value);
                            assert(result.deep_view() =~= results.push(value@));
                        },
                    }
                }
            } else if ends_with(argument.as_str(), ")") && is_in_inline_command {
                inline_command.push(String::from_str(trim_end_matches(argument.as_str(), ")")));
                is_in_inline_command = false;
                assert(inline_command.deep_view() =~= inlines.push(
                    trim_end_spec(argument@, ")"@),
                ));
                let mut command_runner = CommandRunner::new();
                let answer = command_runner.run_command(inline_command.clone(), environment, writer)?;
                result.push(answer);
                inline_command.clear();
                proof {
                    assert(result.deep_view() =~= results.push(answer@));
                    assert(inline_command.deep_view() =~= Seq::<Seq<char>>::empty());
                }
            } else if is_in_inline_command {
                inline_command.push(argument);
                assert(inline_command.deep_view() =~= inlines.push(argument@));
            } else if starts_with(argument.as_str(), "\\") {
                if same_text(argument.as_str(), "\\n") {
                    result.push(String::from_str("\n"));
                    assert(result.deep_view() =~= results.push("\n"@));
                } else {
                    try_error(writer, "unknown escape sequence.")?;
                }
            } else if starts_with(argument.as_str(), "\"") && ends_with(argument.as_str(), "\"") {
                let unquoted = String::from_str(
                    trim_end_matches(trim_start_matches(argument.as_str(), "\""), "\""),
                );
                result.push(unquoted);
                assert(result.deep_view() =~= results.push(
                    trim_end_spec(trim_start_spec(argument@, "\""@), "\""@),
                ));
            } else if starts_with(argument.as_str(), "\"") {
                string = String::from_str(trim_start_matches(argument.as_str(), "\""));
                is_in_string = true;
            } else if ends_with(argument.as_str(), "\"") && is_in_string {
                string.append(" ");
                string.append(trim_end_matches(argument.as_str(), "\""));
                let ghost joined = string@;
                result.push(string);
                string = String::new();
                assert(result.deep_view() =~= results.push(joined));
            } else if is_in_string {
                string.append(" ");
                string.append(argument.as_str());
            } else {
                result.push(argument);
                assert(result.deep_view() =~= results.push(argument@));
            }
            i += 1;
        }
        Ok(result)
    }
}

} // verus!
