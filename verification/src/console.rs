//! Printing on the console: plain text, errors and warnings in their
//! colours, each also in a form that finds out first whether the row has
//! room.

use crate::fault::Fault;
use crate::vga_buffer::{
    column_after, fits, fits_from, Color, ColorCode, Screen, Writer, BUFFER_WIDTH,
};
use vstd::prelude::*;
use vstd::string::StringSliceAdditionalSpecFns;

verus! {

/// Writing one string after another writes their bytes in a row.
pub proof fn lemma_write_bytes_concat(screen: Screen, first: Seq<u8>, second: Seq<u8>)
    ensures
        screen.write_bytes(first.add(second)) == screen.write_bytes(first).write_bytes(second),
    decreases first.len(),
{
    if first.len() == 0 {
        assert(first.add(second) =~= second);
    } else {
        let both = first.add(second);
        assert(both[0] == first[0]);
        assert(both.skip(1) =~= first.skip(1).add(second));
        lemma_write_bytes_concat(screen.write_byte(Screen::shown(first[0])), first.skip(1), second);
    }
}

/// Bytes in a row fit where the first of them fit and the rest fit behind
/// them.
pub proof fn lemma_fits_concat(col: nat, first: Seq<u8>, second: Seq<u8>)
    ensures
        fits_from(col, first.add(second)) == (fits_from(col, first) && fits_from(
            column_after(col, first),
            second,
        )),
        column_after(col, first.add(second)) == column_after(column_after(col, first), second),
    decreases first.len(),
{
    if first.len() == 0 {
        assert(first.add(second) =~= second);
    } else {
        let both = first.add(second);
        assert(both[0] == first[0]);
        assert(both.skip(1) =~= first.skip(1).add(second));
        let next = if first[0] == 0x0a {
            0
        } else {
            col + 1
        };
        lemma_fits_concat(next, first.skip(1), second);
    }
}

/// Writing bytes that the screen takes leaves the cursor on the grid, in
/// the column that the bytes lead to, and the colours as they were.
pub proof fn lemma_write_bytes_wf(screen: Screen, bytes: Seq<u8>)
    requires
        screen.wf(),
        screen.takes_bytes(bytes),
    ensures
        screen.write_bytes(bytes).wf(),
        screen.write_bytes(bytes).color == screen.color,
        screen.write_bytes(bytes).col == column_after(screen.col, bytes),
    decreases bytes.len(),
{
    if bytes.len() > 0 {
        crate::vga_buffer::lemma_write_byte_wf(screen, Screen::shown(bytes[0]));
        lemma_write_bytes_wf(screen.write_byte(Screen::shown(bytes[0])), bytes.skip(1));
    }
}

/// A line fits where its text fits, and leads to the first column.
pub proof fn lemma_line_fits(col: nat, text: Seq<u8>)
    ensures
        fits_from(col, line(text)) == fits_from(col, text),
        column_after(col, line(text)) == 0,
{
    assert(line(text) =~= text.add(seq![0x0au8]));
    lemma_fits_concat(col, text, seq![0x0au8]);
    let feed = seq![0x0au8];
    assert(feed.skip(1).len() == 0);
    assert(fits_from(column_after(col, text), feed) == fits_from(0, feed.skip(1)));
    assert(column_after(column_after(col, text), feed) == column_after(0, feed.skip(1)));
}

/// Writes `s` at the cursor.
pub fn print(writer: &mut Writer, s: &str)
    requires
        old(writer)@.wf(),
        old(writer)@.takes_bytes(s.spec_bytes()),
    ensures
        final(writer)@ == old(writer)@.write_bytes(s.spec_bytes()),
        final(writer)@.wf(),
{
    writer.write_string(s);
}

/// The bytes of a line: those of its text and a line feed.
pub open spec fn line(text: Seq<u8>) -> Seq<u8> {
    text.push(0x0a)
}

/// Writes `s` and starts a new line.
pub fn println(writer: &mut Writer, s: &str)
    requires
        old(writer)@.wf(),
        old(writer)@.takes_bytes(s.spec_bytes()),
    ensures
        final(writer)@ == old(writer)@.write_bytes(line(s.spec_bytes())),
        final(writer)@.wf(),
        final(writer)@.col == 0,
        final(writer)@.color == old(writer)@.color,
{
    proof {
        lemma_line_feed();
        assert(line(s.spec_bytes()) =~= s.spec_bytes().add("\n".spec_bytes()));
        lemma_write_bytes_concat(writer@, s.spec_bytes(), "\n".spec_bytes());
        lemma_write_bytes_wf(writer@, s.spec_bytes());
        lemma_line_fits(writer@.col, s.spec_bytes());
        lemma_fits_concat(writer@.col, s.spec_bytes(), "\n".spec_bytes());
        lemma_write_bytes_wf(writer@, line(s.spec_bytes()));
    }
    writer.write_string(s);
    writer.write_string("\n");
}

/// The bytes of the string that holds one line feed.
pub proof fn lemma_line_feed()
    ensures
        "\n".spec_bytes() == seq![0x0au8],
{
    reveal_strlit("\n");
    assert("\n"@ =~= seq!['\n']);
    assert(vstd::string::is_ascii("\n"));
    vstd::string::is_ascii_spec_bytes("\n");
    assert("\n".spec_bytes() =~= seq![0x0au8]);
}

/// The screen after an error was reported: the message in light red on a
/// line of its own, behind the word ERROR, and white as the colour of what
/// follows.
pub open spec fn error_spec(screen: Screen, message: Seq<u8>) -> Screen {
    Screen {
        color: ColorCode(0x0f),
        ..(Screen { color: ColorCode(0x0c), ..screen }).write_bytes(
            line("ERROR: ".spec_bytes().add(message)),
        )
    }
}

/// Whether an error with this message can be reported.
pub open spec fn takes_error(screen: Screen, message: Seq<u8>) -> bool {
    screen.takes_bytes("ERROR: ".spec_bytes().add(message))
}

/// Reports an error on the console.
pub fn error(writer: &mut Writer, message: &str)
    requires
        old(writer)@.wf(),
        takes_error(old(writer)@, message.spec_bytes()),
    ensures
        final(writer)@ == error_spec(old(writer)@, message.spec_bytes()),
        final(writer)@.wf(),
        final(writer)@.col == 0,
{
    writer.change_color_code(ColorCode::new(Color::LightRed, Color::Black));
    let ghost red = writer@;
    proof {
        let head = "ERROR: ".spec_bytes();
        let tail = line(message.spec_bytes());
        assert(line(head.add(message.spec_bytes())) =~= head.add(tail));
        lemma_write_bytes_concat(red, head, tail);
        lemma_fits_concat(red.col, head, message.spec_bytes());
        lemma_write_bytes_wf(red, head);
    }
    print(writer, "ERROR: ");
    println(writer, message);
    writer.change_color_code(ColorCode::new(Color::White, Color::Black));
}

/// The screen after an attempt to report an error: the error shown, or a
/// fault where the row has no room for it.
pub open spec fn try_error_spec(screen: Screen, message: Seq<u8>) -> Result<Screen, Fault> {
    if takes_error(screen, message) {
        Ok(error_spec(screen, message))
    } else {
        Err(Fault::ColumnOutOfBounds)
    }
}

/// Reports an error on the console if the row has room for it.
pub fn try_error(writer: &mut Writer, message: &str) -> (done: Result<(), Fault>)
    requires
        old(writer)@.wf(),
    ensures
        final(writer)@.wf(),
        match try_error_spec(old(writer)@, message.spec_bytes()) {
            Ok(screen) => done is Ok && final(writer)@ == screen && screen.col == 0,
            Err(fault) => done == Err::<(), Fault>(fault) && final(writer)@ == old(writer)@,
        },
{
    proof {
        lemma_fits_concat(writer@.col, "ERROR: ".spec_bytes(), message.spec_bytes());
    }
    let room = match fits(writer.column_position(), "ERROR: ") {
        Some(col) => fits(col, message).is_some(),
        None => false,
    };
    if !room {
        return Err(Fault::ColumnOutOfBounds);
    }
    error(writer, message);
    Ok(())
}

/// The screen after a warning: the message in yellow on a line of its
/// own, and white as the colour of what follows.
pub open spec fn warning_spec(screen: Screen, message: Seq<u8>) -> Screen {
    Screen {
        color: ColorCode(0x0f),
        ..(Screen { color: ColorCode(0x0e), ..screen }).write_bytes(line(message))
    }
}

/// The screen after an attempt to show a warning: the warning shown, or
/// a fault where the row has no room for it.
pub open spec fn try_warning_spec(screen: Screen, message: Seq<u8>) -> Result<Screen, Fault> {
    if screen.takes_bytes(message) {
        Ok(warning_spec(screen, message))
    } else {
        Err(Fault::ColumnOutOfBounds)
    }
}

/// Shows a warning on the console if the row has room for it.
pub fn try_warning(writer: &mut Writer, message: &str) -> (done: Result<(), Fault>)
    requires
        old(writer)@.wf(),
    ensures
        final(writer)@.wf(),
        match try_warning_spec(old(writer)@, message.spec_bytes()) {
            Ok(screen) => done is Ok && final(writer)@ == screen && screen.col == 0,
            Err(fault) => done == Err::<(), Fault>(fault) && final(writer)@ == old(writer)@,
        },
{
    if !writer.accepts(message) {
        return Err(Fault::ColumnOutOfBounds);
    }
    warning(writer, message);
    Ok(())
}

/// Shows a warning on the console.
pub fn warning(writer: &mut Writer, message: &str)
    requires
        old(writer)@.wf(),
        old(writer)@.takes_bytes(message.spec_bytes()),
    ensures
        final(writer)@ == warning_spec(old(writer)@, message.spec_bytes()),
        final(writer)@.wf(),
        final(writer)@.col == 0,
{
    writer.change_color_code(ColorCode::new(Color::Yellow, Color::Black));
    println(writer, message);
    writer.change_color_code(ColorCode::new(Color::White, Color::Black));
}

/// The screen after `text` was written, or a fault where a row has no
/// room for it.
pub open spec fn try_print_spec(screen: Screen, text: Seq<u8>) -> Result<Screen, Fault> {
    if screen.takes_bytes(text) {
        Ok(screen.write_bytes(text))
    } else {
        Err(Fault::ColumnOutOfBounds)
    }
}

/// Writes `text` at the cursor if the console has room for it.
pub fn try_print(writer: &mut Writer, text: &str) -> (done: Result<(), Fault>)
    requires
        old(writer)@.wf(),
    ensures
        final(writer)@.wf(),
        match try_print_spec(old(writer)@, text.spec_bytes()) {
            Ok(screen) => done is Ok && final(writer)@ == screen,
            Err(fault) => done == Err::<(), Fault>(fault) && final(writer)@ == old(writer)@,
        },
{
    if !writer.accepts(text) {
        return Err(Fault::ColumnOutOfBounds);
    }
    print(writer, text);
    Ok(())
}

/// Writes `first` and then `second` if the console has room for both.
pub fn try_print_both(writer: &mut Writer, first: &str, second: &str) -> (done: Result<(), Fault>)
    requires
        old(writer)@.wf(),
    ensures
        final(writer)@.wf(),
        match try_print_spec(old(writer)@, first.spec_bytes().add(second.spec_bytes())) {
            Ok(screen) => done is Ok && final(writer)@ == screen,
            Err(fault) => done == Err::<(), Fault>(fault) && final(writer)@ == old(writer)@,
        },
{
    proof {
        lemma_fits_concat(writer@.col, first.spec_bytes(), second.spec_bytes());
        lemma_write_bytes_concat(writer@, first.spec_bytes(), second.spec_bytes());
    }
    let room = match fits(writer.column_position(), first) {
        Some(col) => fits(col, second).is_some(),
        None => false,
    };
    if !room {
        return Err(Fault::ColumnOutOfBounds);
    }
    proof {
        lemma_write_bytes_wf(writer@, first.spec_bytes());
    }
    print(writer, first);
    print(writer, second);
    Ok(())
}

/// The screen after `text` was written on a line of its own, or a fault
/// where a row has no room for it.
pub open spec fn try_println_spec(screen: Screen, text: Seq<u8>) -> Result<Screen, Fault> {
    if screen.takes_bytes(text) {
        Ok(screen.write_bytes(line(text)))
    } else {
        Err(Fault::ColumnOutOfBounds)
    }
}

/// Writes `first` and `second` and starts a new line, if the console has
/// room for them.
pub fn try_println_both(writer: &mut Writer, first: &str, second: &str) -> (done: Result<(), Fault>)
    requires
        old(writer)@.wf(),
    ensures
        final(writer)@.wf(),
        match try_println_spec(old(writer)@, first.spec_bytes().add(second.spec_bytes())) {
            Ok(screen) => done is Ok && final(writer)@ == screen && screen.col == 0,
            Err(fault) => done == Err::<(), Fault>(fault) && final(writer)@ == old(writer)@,
        },
{
    proof {
        lemma_fits_concat(writer@.col, first.spec_bytes(), second.spec_bytes());
        lemma_write_bytes_concat(writer@, first.spec_bytes(), line(second.spec_bytes()));
        assert(line(first.spec_bytes().add(second.spec_bytes())) =~= first.spec_bytes().add(
            line(second.spec_bytes()),
        ));
    }
    let room = match fits(writer.column_position(), first) {
        Some(col) => fits(col, second).is_some(),
        None => false,
    };
    if !room {
        return Err(Fault::ColumnOutOfBounds);
    }
    proof {
        lemma_write_bytes_wf(writer@, first.spec_bytes());
    }
    print(writer, first);
    println(writer, second);
    Ok(())
}

/// Writes `text` on a line of its own if the console has room for it.
pub fn try_println(writer: &mut Writer, text: &str) -> (done: Result<(), Fault>)
    requires
        old(writer)@.wf(),
    ensures
        final(writer)@.wf(),
        match try_println_spec(old(writer)@, text.spec_bytes()) {
            Ok(screen) => done is Ok && final(writer)@ == screen && screen.col == 0,
            Err(fault) => done == Err::<(), Fault>(fault) && final(writer)@ == old(writer)@,
        },
{
    if !writer.accepts(text) {
        return Err(Fault::ColumnOutOfBounds);
    }
    println(writer, text);
    Ok(())
}

/// The screen after lines were written one after the other, up to the
/// first that a row has no room for.
pub open spec fn try_println_all_spec(screen: Screen, lines: Seq<Seq<u8>>) -> (
    Result<(), Fault>,
    Screen,
)
    decreases lines.len(),
{
    if lines.len() == 0 {
        (Ok(()), screen)
    } else {
        match try_println_spec(screen, lines[0]) {
            Ok(next) => try_println_all_spec(next, lines.skip(1)),
            Err(fault) => (Err(fault), screen),
        }
    }
}

/// The bytes of each of some texts.
pub open spec fn bytes_of(lines: Seq<String>) -> Seq<Seq<u8>> {
    Seq::new(lines.len(), |i: int| vstd::utf8::encode_utf8(lines[i]@))
}

/// Writes lines one after the other, up to the first that the console
/// has no room for.
pub fn try_println_all(writer: &mut Writer, lines: &Vec<String>) -> (done: Result<(), Fault>)
    requires
        old(writer)@.wf(),
    ensures
        final(writer)@.wf(),
        (done, final(writer)@) == try_println_all_spec(old(writer)@, bytes_of(lines@)),
{
    let mut i: usize = 0;
    assert(bytes_of(lines@).skip(0) =~= bytes_of(lines@));
    while i < lines.len()
        invariant
            i <= lines@.len(),
            writer@.wf(),
            try_println_all_spec(old(writer)@, bytes_of(lines@)) == try_println_all_spec(
                writer@,
                bytes_of(lines@).skip(i as int),
            ),
        decreases lines@.len() - i,
    {
        let ghost rest = bytes_of(lines@).skip(i as int);
        proof {
            assert(rest[0] == vstd::utf8::encode_utf8(lines@[i as int]@));
            assert(rest.skip(1) =~= bytes_of(lines@).skip(i + 1));
        }
        try_println(writer, lines[i].as_str())?;
        i += 1;
    }
    Ok(())
}

/// The screen after a panic was reported: the report in light red on a
/// line of its own, if a row has room for it, and light red as the
/// colour from then on.
pub open spec fn report_panic_spec(screen: Screen, info: Seq<u8>) -> Screen {
    let red = Screen { color: ColorCode(0x0c), ..screen };
    match try_println_spec(red, info) {
        Ok(reported) => reported,
        Err(_) => red,
    }
}

/// Reports a panic on the console. The kernel halts after this.
pub fn report_panic(writer: &mut Writer, info: &str)
    requires
        old(writer)@.wf(),
    ensures
        final(writer)@.wf(),
        final(writer)@ == report_panic_spec(old(writer)@, info.spec_bytes()),
{
    writer.change_color_code(ColorCode::new(Color::LightRed, Color::Black));
    let _ = try_println(writer, info);
}

} // verus!
