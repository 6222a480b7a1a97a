use platinium_os::fault::Fault;
use platinium_os::reading::Reader;
use platinium_os::shell::calculator::Calculator;
use platinium_os::shell::command_runner::{Command, CommandRunner};
use platinium_os::shell::commands::{
    CalcCommand, ColorCommand, EchoCommand, HelpCommand, SetCommand, VersionCommand,
};
use platinium_os::shell::{
    initial_run, print_info_message, run, ShellEnvironment, ShellHistory, Terminal, OS_VERSION,
};
use platinium_os::vga_buffer::{ColorCode, Writer};

fn strings(words: &[&str]) -> Vec<String> {
    words.iter().map(|w| w.to_string()).collect()
}

fn calculate(words: &[&str]) -> Result<i64, Fault> {
    Calculator::new(strings(words)).checked_calculate()
}

fn run_command(words: &[&str]) -> (Result<String, Fault>, ShellEnvironment, Writer) {
    let mut environment = ShellEnvironment::new();
    let mut writer = Writer::new();
    let answer = CommandRunner::new().run_command(strings(words), &mut environment, &mut writer);
    (answer, environment, writer)
}

#[test]
fn calculator_goes_from_left_to_right() {
    assert_eq!(calculate(&["1", "+", "2"]), Ok(3));
    assert_eq!(calculate(&["2", "+", "3", "*", "4"]), Ok(20));
    assert_eq!(calculate(&["10", "-", "4", "/", "3"]), Ok(2));
    assert_eq!(calculate(&["7"]), Ok(7));
    assert_eq!(calculate(&["-7", "/", "2"]), Ok(-3));
    assert_eq!(calculate(&["7", "/", "-2"]), Ok(-3));
    assert_eq!(calculate(&["+5", "-", "-5"]), Ok(10));
}

#[test]
fn calculator_joins_the_parts_of_a_number() {
    assert_eq!(calculate(&["1", "2", "+", "3"]), Ok(15));
    assert_eq!(calculate(&["-", "5"]), Err(Fault::InvalidNumber));
    assert_eq!(calculate(&["1", "+", "-", "5"]), Err(Fault::InvalidNumber));
}

#[test]
fn calculator_faults() {
    assert_eq!(calculate(&[]), Err(Fault::InvalidNumber));
    assert_eq!(calculate(&["a"]), Err(Fault::InvalidNumber));
    assert_eq!(calculate(&["1", "+"]), Err(Fault::InvalidNumber));
    assert_eq!(calculate(&["1.5"]), Err(Fault::InvalidNumber));
    assert_eq!(calculate(&["9223372036854775808"]), Err(Fault::InvalidNumber));
    assert_eq!(calculate(&["1", "/", "0"]), Err(Fault::DivisionByZero));
    assert_eq!(calculate(&["9223372036854775807", "+", "1"]), Err(Fault::ArithmeticOverflow));
    assert_eq!(calculate(&["-9223372036854775808", "-", "1"]), Err(Fault::ArithmeticOverflow));
    assert_eq!(calculate(&["-9223372036854775808", "/", "-1"]), Err(Fault::ArithmeticOverflow));
    assert_eq!(calculate(&["4611686018427387904", "*", "2"]), Err(Fault::ArithmeticOverflow));
}

#[test]
fn calculator_limits() {
    assert_eq!(calculate(&["9223372036854775807"]), Ok(i64::MAX));
    assert_eq!(calculate(&["-9223372036854775808"]), Ok(i64::MIN));
    assert_eq!(calculate(&["-9223372036854775808", "/", "1"]), Ok(i64::MIN));
    assert_eq!(calculate(&["0007", "*", "-0"]), Ok(0));
}

#[test]
fn calculate_gives_the_value() {
    assert_eq!(Calculator::new(strings(&["6", "*", "7"])).calculate(), 42);
}

#[test]
fn environment_keeps_the_last_value() {
    let mut environment = ShellEnvironment::new();
    assert_eq!(environment.get("a"), None);
    environment.insert("a".to_string(), "1".to_string());
    environment.insert("b".to_string(), "2".to_string());
    environment.insert("a".to_string(), "3".to_string());
    assert_eq!(environment.get("a"), Some("3".to_string()));
    assert_eq!(environment.get("b"), Some("2".to_string()));
    assert_eq!(environment.get("c"), None);
}

#[test]
fn history_and_reader_start_empty() {
    let history = ShellHistory::new();
    assert!(history.history.is_empty());
    assert_eq!(history.index, 0);
    let reader = Reader::new();
    assert!(!reader.awaits_input);
    assert_eq!(reader.column_position_start, 0);
}

#[test]
fn version_command() {
    let mut environment = ShellEnvironment::new();
    let mut writer = Writer::new();
    let mut command = VersionCommand;
    assert_eq!(command.run(vec![], &mut environment, &mut writer), Ok("1.0".to_string()));
    assert_eq!(OS_VERSION, "1.0");
    assert_eq!(command.run(strings(&["x"]), &mut environment, &mut writer), Ok(String::new()));
    assert_eq!(writer.row_into_string(0), "ERROR: version expects 0 arguments.");
}

#[test]
fn echo_command() {
    let mut environment = ShellEnvironment::new();
    let mut writer = Writer::new();
    let mut command = EchoCommand;
    assert_eq!(command.run(vec![], &mut environment, &mut writer), Ok(String::new()));
    assert_eq!(
        command.run(strings(&["a", "b c"]), &mut environment, &mut writer),
        Ok("a b c ".to_string())
    );
    assert_eq!(writer.row_into_string(0), "");
}

#[test]
fn calc_command() {
    let mut environment = ShellEnvironment::new();
    let mut writer = Writer::new();
    let mut command = CalcCommand;
    assert_eq!(
        command.run(strings(&["2", "-", "5"]), &mut environment, &mut writer),
        Ok("-3".to_string())
    );
    assert_eq!(
        command.run(strings(&["100", "*", "100"]), &mut environment, &mut writer),
        Ok("10000".to_string())
    );
    assert_eq!(
        command.run(strings(&["x"]), &mut environment, &mut writer),
        Err(Fault::InvalidNumber)
    );
}

#[test]
fn set_command() {
    let mut environment = ShellEnvironment::new();
    let mut writer = Writer::new();
    let mut command = SetCommand;
    assert_eq!(
        command.run(strings(&["name", "value"]), &mut environment, &mut writer),
        Ok("value".to_string())
    );
    assert_eq!(environment.get("name"), Some("value".to_string()));
    assert_eq!(command.run(strings(&["name"]), &mut environment, &mut writer), Ok(String::new()));
    assert_eq!(writer.row_into_string(0), "ERROR: set expects 2 arguments.");
}

#[test]
fn color_command() {
    let mut environment = ShellEnvironment::new();
    let mut writer = Writer::new();
    let mut command = ColorCommand;
    assert_eq!(command.run(strings(&["green"]), &mut environment, &mut writer), Ok(String::new()));
    assert_eq!(writer.color_code(), ColorCode(0x02));
    assert_eq!(command.run(strings(&["yellow"]), &mut environment, &mut writer), Ok(String::new()));
    assert_eq!(writer.color_code(), ColorCode(0x0e));
    assert_eq!(command.run(strings(&["pink"]), &mut environment, &mut writer), Ok(String::new()));
    assert_eq!(writer.row_into_string(0), "ERROR: invalid color.");
    assert_eq!(writer.color_code(), ColorCode(0x0f));
    assert_eq!(command.run(vec![], &mut environment, &mut writer), Ok(String::new()));
    assert_eq!(writer.row_into_string(1), "ERROR: color expects 1 arguments.");
}

#[test]
fn help_command() {
    let mut environment = ShellEnvironment::new();
    let mut writer = Writer::new();
    let mut command = HelpCommand;
    assert_eq!(
        command.run(vec![], &mut environment, &mut writer),
        Ok("available commands: version, echo, calc, set, color, help".to_string())
    );
    assert_eq!(
        command.run(strings(&["set"]), &mut environment, &mut writer),
        Ok("set - (2 arguments; key value) sets a variable.".to_string())
    );
    assert_eq!(command.run(strings(&["nope"]), &mut environment, &mut writer), Ok(String::new()));
    assert_eq!(writer.row_into_string(0), "ERROR: invalid command.");
    assert_eq!(command.run(strings(&["a", "b"]), &mut environment, &mut writer), Ok(String::new()));
    assert_eq!(writer.row_into_string(1), "ERROR: help expects 1 arguments.");
}

#[test]
fn errors_are_faults_where_the_row_is_full() {
    let mut environment = ShellEnvironment::new();
    let mut writer = Writer::new();
    writer.write_string(&"x".repeat(60));
    let mut command = VersionCommand;
    assert_eq!(
        command.run(strings(&["x"]), &mut environment, &mut writer),
        Err(Fault::ColumnOutOfBounds)
    );
}

#[test]
fn run_command_dispatches() {
    assert_eq!(run_command(&["version"]).0, Ok("1.0".to_string()));
    assert_eq!(run_command(&["echo", "a", "b"]).0, Ok("a b ".to_string()));
    assert_eq!(run_command(&["calc", "1", "+", "1"]).0, Ok("2".to_string()));
    let (answer, environment, _) = run_command(&["set", "x", "5"]);
    assert_eq!(answer, Ok("5".to_string()));
    assert_eq!(environment.get("x"), Some("5".to_string()));
}

#[test]
fn unknown_command_is_reported() {
    let (answer, _, writer) = run_command(&["help"]);
    assert_eq!(answer, Ok(String::new()));
    assert_eq!(writer.row_into_string(0), "ERROR: Command not found.");
    let (answer, _, writer) = run_command(&["nothing", "$undefined"]);
    assert_eq!(answer, Ok(String::new()));
    assert_eq!(writer.row_into_string(0), "ERROR: Command not found.");
    assert_eq!(writer.row_into_string(1), "");
}

#[test]
fn variables_are_replaced() {
    let mut environment = ShellEnvironment::new();
    let mut writer = Writer::new();
    environment.insert("who".to_string(), "world".to_string());
    let mut runner = CommandRunner::new();
    assert_eq!(
        runner.run_command(strings(&["echo", "hello", "$who"]), &mut environment, &mut writer),
        Ok("hello world ".to_string())
    );
    assert_eq!(
        runner.run_command(strings(&["echo", "$$who"]), &mut environment, &mut writer),
        Ok("world ".to_string())
    );
    // an unknown variable leaves the command without arguments
    assert_eq!(
        runner.run_command(strings(&["echo", "a", "$none", "b"]), &mut environment, &mut writer),
        Ok(String::new())
    );
    assert_eq!(writer.row_into_string(0), "ERROR: Variable not found.");
}

#[test]
fn commands_in_brackets_are_run() {
    assert_eq!(
        run_command(&["echo", "$(calc", "1", "+", "2)", "x"]).0,
        Ok("3 x ".to_string())
    );
    assert_eq!(
        run_command(&["calc", "$(calc", "2", "*", "3)", "+", "1"]).0,
        Ok("7".to_string())
    );
    // the closing bracket is looked for in later words only
    assert_eq!(run_command(&["echo", "$(version)"]).0, Ok(String::new()));
    assert_eq!(run_command(&["echo", "$(version", ")"]).0, Ok(" ".to_string()));
    assert_eq!(
        run_command(&["echo", "$(calc", "x)"]).0,
        Err(Fault::InvalidNumber)
    );
}

#[test]
fn set_in_brackets_is_seen_by_what_follows() {
    let (answer, environment, _) = run_command(&["echo", "$(set", "a", "1)", "$a"]);
    assert_eq!(answer, Ok("1 1 ".to_string()));
    assert_eq!(environment.get("a"), Some("1".to_string()));
}

#[test]
fn escapes_and_quotes() {
    assert_eq!(run_command(&["echo", "\\n"]).0, Ok("\n ".to_string()));
    let (answer, _, writer) = run_command(&["echo", "\\t", "a"]);
    assert_eq!(answer, Ok("a ".to_string()));
    assert_eq!(writer.row_into_string(0), "ERROR: unknown escape sequence.");
    assert_eq!(run_command(&["echo", "\"one\""]).0, Ok("one ".to_string()));
    assert_eq!(
        run_command(&["echo", "\"one", "two", "three\"", "four"]).0,
        Ok("one two three ".to_string())
    );
    // the open quote is never forgotten: what follows is joined as well
    assert_eq!(run_command(&["echo", "\"a", "b\"", "c", "d\""]).0, Ok("a b  c d ".to_string()));
    assert_eq!(run_command(&["echo", "\"a", "b\"", "c"]).0, Ok("a b ".to_string()));
    assert_eq!(run_command(&["echo", "\""]).0, Ok(" ".to_string()));
}

#[test]
fn run_writes_the_answer_on_a_line() {
    let mut environment = ShellEnvironment::new();
    let mut writer = Writer::new();
    let mut runner = CommandRunner::new();
    assert_eq!(runner.run("echo hi", &mut environment, &mut writer), Ok(()));
    assert_eq!(writer.row_into_string(0), "hi ");
    assert_eq!((writer.row_position(), writer.column_position()), (1, 0));
    assert_eq!(runner.run("   ", &mut environment, &mut writer), Ok(()));
    assert_eq!(writer.row_into_string(1), "ERROR: Input is empty.");
    assert_eq!(runner.run("calc 1 / 0", &mut environment, &mut writer), Err(Fault::DivisionByZero));
    assert_eq!(runner.run("echo \\n", &mut environment, &mut writer), Ok(()));
    assert_eq!(writer.row_position(), 4);
}

#[test]
fn run_faults_on_an_answer_that_is_too_long() {
    let mut environment = ShellEnvironment::new();
    let mut writer = Writer::new();
    environment.insert("a".to_string(), "x".repeat(40));
    let mut runner = CommandRunner::new();
    assert_eq!(runner.run("echo $a", &mut environment, &mut writer), Ok(()));
    assert_eq!(
        runner.run("echo $a $a", &mut environment, &mut writer),
        Err(Fault::ColumnOutOfBounds)
    );
}

#[test]
fn info_message_is_yellow() {
    let mut writer = Writer::new();
    assert_eq!(print_info_message(&mut writer), Ok(()));
    assert_eq!(writer.row_into_string(0), "PlatiniumOS 1.0");
    assert_eq!(writer.read(0, 0).color_code, ColorCode(0x0e));
    assert_eq!(writer.color_code(), ColorCode(0x0f));
    assert_eq!(writer.row_position(), 1);
}

#[test]
fn initial_run_shows_the_prompt() {
    let mut terminal = Terminal::new();
    assert_eq!(initial_run(&mut terminal), Ok(()));
    assert_eq!(terminal.writer.row_into_string(0), "> ");
    assert!(terminal.reader.awaits_input);
    assert_eq!(terminal.reader.column_position_start, 0);
}

#[test]
fn shell_run_runs_the_row_above() {
    let mut terminal = Terminal::new();
    terminal.writer.write_string("> calc 6 * 7\n");
    assert_eq!(run(&mut terminal), Ok(()));
    assert_eq!(terminal.writer.row_into_string(1), "42");
    assert_eq!(terminal.writer.row_into_string(2), "> ");
    assert_eq!(terminal.history.history, vec!["calc 6 * 7".to_string()]);
    assert_eq!(terminal.history.index, 1);
    assert!(terminal.reader.awaits_input);
    // while a line is awaited nothing is run
    terminal.writer.write_string("echo again\n");
    assert_eq!(run(&mut terminal), Ok(()));
    assert_eq!(terminal.history.history.len(), 1);
}

#[test]
fn shell_run_faults() {
    let mut terminal = Terminal::new();
    assert_eq!(run(&mut terminal), Err(Fault::RowOutOfBounds));
    terminal.writer.write_string(">\n");
    assert_eq!(run(&mut terminal), Err(Fault::PromptMissing));
    let mut terminal = Terminal::new();
    terminal.writer.write_string("> calc a\n");
    assert_eq!(run(&mut terminal), Err(Fault::InvalidNumber));
    assert_eq!(terminal.history.history, vec!["calc a".to_string()]);
}

#[test]
fn new_terminal_is_wiped_and_waits_for_nothing() {
    let terminal = Terminal::new();
    assert_eq!((terminal.writer.row_position(), terminal.writer.column_position()), (0, 0));
    assert_eq!(terminal.writer.color_code(), ColorCode(0x0f));
    for row in 0..25 {
        assert_eq!(terminal.writer.row_into_string(row), "");
        assert_eq!(terminal.writer.read(row, 79).color_code, ColorCode(0x0f));
    }
    assert!(!terminal.reader.awaits_input);
    assert_eq!(terminal.reader.column_position_start, 0);
    assert!(terminal.history.history.is_empty());
    assert_eq!(terminal.history.index, 0);
    assert_eq!(terminal.environment.get("a"), None);
}
