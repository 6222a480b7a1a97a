//! The commands of the shell.

use crate::console::{try_error, try_error_spec};
use crate::fault::Fault;
use crate::shell::calculator::{calculate_spec, Calculator};
use crate::shell::command_runner::Command;
use crate::shell::{ShellEnvironment, OS_VERSION};
use crate::text::{decimal, i64_to_string, same_text};
use crate::vga_buffer::{Color, ColorCode, Screen, Writer};
use vstd::prelude::*;
use vstd::string::StringExecFns;
use vstd::string::StringSliceAdditionalSpecFns;

verus! {

/// What a command can change: the variables of the shell and the console.
pub struct World {
    pub variables: Map<Seq<char>, Seq<char>>,
    pub screen: Screen,
}

impl World {
    /// The world after an error was reported, or a fault where the
    /// console has no room for the report.
    pub open spec fn report(self, message: &str) -> Result<World, Fault> {
        match try_error_spec(self.screen, message.spec_bytes()) {
            Ok(screen) => Ok(World { screen, ..self }),
            Err(fault) => Err(fault),
        }
    }

    /// What a command answers that has nothing to say but an error.
    pub open spec fn fail(self, message: &str) -> (Result<Seq<char>, Fault>, World) {
        match self.report(message) {
            Ok(world) => (Ok(Seq::empty()), world),
            Err(fault) => (Err(fault), self),
        }
    }
}

/// The characters of an output.
pub open spec fn output_view(output: Result<String, Fault>) -> Result<Seq<char>, Fault> {
    match output {
        Ok(text) => Ok(text@),
        Err(fault) => Err(fault),
    }
}

/// Reports the version of the kernel.
pub struct VersionCommand;

impl Command for VersionCommand {
    open spec fn run_spec(&self, arguments: Seq<Seq<char>>, world: World) -> (
        Result<Seq<char>, Fault>,
        World,
    ) {
        if arguments.len() == 0 {
            (Ok(OS_VERSION@), world)
        } else {
            world.fail("version expects 0 arguments.")
        }
    }

    fn run(
        &mut self,
        arguments: Vec<String>,
        environment: &mut ShellEnvironment,
        writer: &mut Writer,
    ) -> (output: Result<String, Fault>) {
        if arguments.len() == 0 {
            Ok(String::from_str(OS_VERSION))
        } else {
            try_error(writer, "version expects 0 arguments.")?;
            Ok(String::new())
        }
    }
}

/// The text that `echo` makes of its arguments: each followed by a space.
pub open spec fn echo_text(arguments: Seq<Seq<char>>) -> Seq<char>
    decreases arguments.len(),
{
    if arguments.len() == 0 {
        Seq::empty()
    } else {
        echo_text(arguments.drop_last()).add(arguments.last()).push(' ')
    }
}

/// Repeats its arguments.
pub struct EchoCommand;

impl Command for EchoCommand {
    open spec fn run_spec(&self, arguments: Seq<Seq<char>>, world: World) -> (
        Result<Seq<char>, Fault>,
        World,
    ) {
        (Ok(echo_text(arguments)), world)
    }

    fn run(
        &mut self,
        arguments: Vec<String>,
        environment: &mut ShellEnvironment,
        writer: &mut Writer,
    ) -> (output: Result<String, Fault>) {
        let mut string = String::new();
        let mut i: usize = 0;
        assert(arguments.deep_view().take(0) =~= Seq::<Seq<char>>::empty());
        while i < arguments.len()
            invariant
                i <= arguments@.len(),
                string@ == echo_text(arguments.deep_view().take(i as int)),
            decreases arguments@.len() - i,
        {
            proof {
                let next = arguments.deep_view().take(i + 1);
                assert(next.drop_last() =~= arguments.deep_view().take(i as int));
                assert(next.last() == arguments@[i as int]@);
            }
            string.append(arguments[i].as_str());
            string.push(' ');
            i += 1;
        }
        assert(arguments.deep_view().take(i as int) =~= arguments.deep_view());
        Ok(string)
    }
}

/// Calculates.
pub struct CalcCommand;

impl Command for CalcCommand {
    open spec fn run_spec(&self, arguments: Seq<Seq<char>>, world: World) -> (
        Result<Seq<char>, Fault>,
        World,
    ) {
        match calculate_spec(arguments) {
            Ok(value) => (Ok(decimal(value as int)), world),
            Err(fault) => (Err(fault), world),
        }
    }

    fn run(
        &mut self,
        arguments: Vec<String>,
        environment: &mut ShellEnvironment,
        writer: &mut Writer,
    ) -> (output: Result<String, Fault>) {
        let calculator = Calculator::new(arguments);
        match calculator.checked_calculate() {
            Ok(value) => Ok(i64_to_string(value)),
            Err(fault) => Err(fault),
        }
    }
}

/// Gives a variable a value.
pub struct SetCommand;

impl Command for SetCommand {
    open spec fn run_spec(&self, arguments: Seq<Seq<char>>, world: World) -> (
        Result<Seq<char>, Fault>,
        World,
    ) {
        if arguments.len() != 2 {
            world.fail("set expects 2 arguments.")
        } else {
            (
                Ok(arguments[1]),
                World { variables: world.variables.insert(arguments[0], arguments[1]), ..world },
            )
        }
    }

    fn run(
        &mut self,
        arguments: Vec<String>,
        environment: &mut ShellEnvironment,
        writer: &mut Writer,
    ) -> (output: Result<String, Fault>) {
        if arguments.len() != 2 {
            try_error(writer, "set expects 2 arguments.")?;
            return Ok(String::new());
        }
        environment.insert(arguments[0].clone(), arguments[1].clone());
        Ok(arguments[1].clone())
    }
}

/// The colour that a name stands for.
pub open spec fn color_named(name: Seq<char>) -> Option<Color> {
    if name == "red"@ {
        Some(Color::Red)
    } else if name == "green"@ {
        Some(Color::Green)
    } else if name == "blue"@ {
        Some(Color::Blue)
    } else if name == "yellow"@ {
        Some(Color::Yellow)
    } else if name == "cyan"@ {
        Some(Color::Cyan)
    } else if name == "magenta"@ {
        Some(Color::Magenta)
    } else if name == "white"@ {
        Some(Color::White)
    } else if name == "black"@ {
        Some(Color::Black)
    } else {
        None
    }
}

/// Changes the colour of what is written.
pub struct ColorCommand;

impl ColorCommand {
    /// The colour that `name` stands for.
    fn color(name: &str) -> (color: Option<Color>)
        ensures
            color == color_named(name@),
    {
        if same_text(name, "red") {
            Some(Color::Red)
        } else if same_text(name, "green") {
            Some(Color::Green)
        } else if same_text(name, "blue") {
            Some(Color::Blue)
        } else if same_text(name, "yellow") {
            Some(Color::Yellow)
        } else if same_text(name, "cyan") {
            Some(Color::Cyan)
        } else if same_text(name, "magenta") {
            Some(Color::Magenta)
        } else if same_text(name, "white") {
            Some(Color::White)
        } else if same_text(name, "black") {
            Some(Color::Black)
        } else {
            None
        }
    }
}

impl Command for ColorCommand {
    open spec fn run_spec(&self, arguments: Seq<Seq<char>>, world: World) -> (
        Result<Seq<char>, Fault>,
        World,
    ) {
        if arguments.len() != 1 {
            world.fail("color expects 1 arguments.")
        } else {
            match color_named(arguments[0]) {
                Some(color) => (
                    Ok(Seq::empty()),
                    World { screen: Screen { color: ColorCode(color.code()), ..world.screen }, ..world },
                ),
                None => world.fail("invalid color."),
            }
        }
    }

    fn run(
        &mut self,
        arguments: Vec<String>,
        environment: &mut ShellEnvironment,
        writer: &mut Writer,
    ) -> (output: Result<String, Fault>) {
        if arguments.len() != 1 {
            try_error(writer, "color expects 1 arguments.")?;
            return Ok(String::new());
        }
        match Self::color(arguments[0].as_str()) {
            Some(color) => writer.change_color_code(ColorCode::new(color, Color::Black)),
            None => {
                try_error(writer, "invalid color.")?;
            },
        }
        Ok(String::new())
    }
}

/// The help for a command, if there is a command of that name.
pub open spec fn help_for(name: Seq<char>) -> Option<Seq<char>> {
    if name == "version"@ {
        Some("version - (0 arguments) prints the version of the operating system."@)
    } else if name == "echo"@ {
        Some("echo - (many arguments; any type) prints the arguments."@)
    } else if name == "calc"@ {
        Some("calc - (many arguments; + - * / numbers) calculates the arguments."@)
    } else if name == "set"@ {
        Some("set - (2 arguments; key value) sets a variable."@)
    } else if name == "color"@ {
        Some(
            "color - (1 argument; red green blue yellow cyan magenta white black) changes the color of the text."@,
        )
    } else if name == "help"@ {
        Some("help - (1 argument; command) prints the help for the command."@)
    } else {
        None
    }
}

/// Explains the commands.
pub struct HelpCommand;

impl HelpCommand {
    /// The help for the command `name`.
    fn help(name: &str) -> (help: Option<&'static str>)
        ensures
            match help {
                Some(text) => help_for(name@) == Some(text@),
                None => help_for(name@) is None,
            },
    {
        if same_text(name, "version") {
            Some("version - (0 arguments) prints the version of the operating system.")
        } else if same_text(name, "echo") {
            Some("echo - (many arguments; any type) prints the arguments.")
        } else if same_text(name, "calc") {
            Some("calc - (many arguments; + - * / numbers) calculates the arguments.")
        } else if same_text(name, "set") {
            Some("set - (2 arguments; key value) sets a variable.")
        } else if same_text(name, "color") {
            Some(
                "color - (1 argument; red green blue yellow cyan magenta white black) changes the color of the text.",
            )
        } else if same_text(name, "help") {
            Some("help - (1 argument; command) prints the help for the command.")
        } else {
            None
        }
    }
}

impl Command for HelpCommand {
    open spec fn run_spec(&self, arguments: Seq<Seq<char>>, world: World) -> (
        Result<Seq<char>, Fault>,
        World,
    ) {
        if arguments.len() == 0 {
            (Ok("available commands: version, echo, calc, set, color, help"@), world)
        } else if arguments.len() != 1 {
            world.fail("help expects 1 arguments.")
        } else {
            match help_for(arguments[0]) {
                Some(text) => (Ok(text), world),
                None => world.fail("invalid command."),
            }
        }
    }

    fn run(
        &mut self,
        arguments: Vec<String>,
        environment: &mut ShellEnvironment,
        writer: &mut Writer,
    ) -> (output: Result<String, Fault>) {
        if arguments.len() == 0 {
            return Ok(
                String::from_str("available commands: version, echo, calc, set, color, help"),
            );
        } else if arguments.len() != 1 {
            try_error(writer, "help expects 1 arguments.")?;
            return Ok(String::new());
        }
        match Self::help(arguments[0].as_str()) {
            Some(text) => Ok(String::from_str(text)),
            None => {
                try_error(writer, "invalid command.")?;
                Ok(String::new())
            },
        }
    }
}

} // verus!
