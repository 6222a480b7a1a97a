use platinium_os::fault::Fault;
use platinium_os::interrupts::{
    init, Handler, InterruptController, InterruptIndex, PIC_1_OFFSET, PIC_2_OFFSET,
};
use platinium_os::kernel::{Kernel, Response, Trap};
use platinium_os::shell::initial_run;
use platinium_os::task::keyboard::{
    handle_key, input_handler, Flow, KeyboardTask, SCANCODE_QUEUE_CAPACITY,
};
use platinium_os::task::TaskState;
use platinium_os::shell::Terminal;
use platinium_os::vga_buffer::ColorCode;

fn booted() -> Kernel<KeyboardTask> {
    let mut kernel = Kernel::new();
    init(&mut kernel.interrupts).unwrap();
    kernel.interrupts.remap().unwrap();
    kernel.interrupts.enable().unwrap();
    kernel.system.channel.try_init_once(SCANCODE_QUEUE_CAPACITY).unwrap();
    initial_run(&mut kernel.system.terminal).unwrap();
    kernel.executor.spawn(input_handler());
    kernel
}

fn press(kernel: &mut Kernel<KeyboardTask>, scancodes: &[u8]) {
    for scancode in scancodes {
        match kernel.handle(Trap::Keyboard { scancode: *scancode }) {
            Response::Acknowledge(vector) => assert_eq!(vector, 33),
            _ => panic!("the keyboard is acknowledged"),
        }
    }
}

fn is_ack(response: &Response, vector: u8) -> bool {
    matches!(response, Response::Acknowledge(v) if *v == vector)
}

#[test]
fn interrupt_vectors() {
    assert_eq!(PIC_1_OFFSET, 32);
    assert_eq!(PIC_2_OFFSET, 40);
    assert_eq!(InterruptIndex::Timer.as_u8(), 32);
    assert_eq!(InterruptIndex::Keyboard.as_u8(), 33);
    assert_eq!(InterruptIndex::Timer.as_usize(), 32);
    assert_eq!(InterruptIndex::Keyboard.as_usize(), 33);
}

#[test]
fn table_is_empty_until_init() {
    let mut controller = InterruptController::new();
    assert!(!controller.is_loaded());
    assert_eq!(controller.handler(3), None);
    assert_eq!(controller.handler(33), None);
    assert_eq!(init(&mut controller), Ok(()));
    assert!(controller.is_loaded());
    assert_eq!(controller.handler(3), Some(Handler::Breakpoint));
    assert_eq!(controller.handler(8), Some(Handler::DoubleFault { stack_index: 0 }));
    assert_eq!(controller.handler(14), Some(Handler::PageFault));
    assert_eq!(controller.handler(32), Some(Handler::Timer));
    assert_eq!(controller.handler(33), Some(Handler::Keyboard));
    assert_eq!(controller.handler(0), None);
    assert_eq!(controller.handler(34), None);
    assert_eq!(controller.handler(255), None);
}

#[test]
fn table_is_loaded_once() {
    let mut controller = InterruptController::new();
    assert_eq!(init(&mut controller), Ok(()));
    assert_eq!(init(&mut controller), Err(Fault::InterruptOrder));
    assert!(controller.is_loaded());
}

#[test]
fn interrupts_are_set_up_in_order() {
    let mut controller = InterruptController::new();
    assert_eq!(controller.enable(), Err(Fault::InterruptOrder));
    assert_eq!(controller.remap(), Err(Fault::InterruptOrder));
    assert!(!controller.is_remapped());
    init(&mut controller).unwrap();
    assert_eq!(controller.enable(), Err(Fault::InterruptOrder));
    assert!(!controller.is_enabled());
    assert_eq!(controller.remap(), Ok((32, 40)));
    assert!(controller.is_remapped());
    assert_eq!(controller.enable(), Ok(()));
    assert!(controller.is_enabled());
    assert_eq!(controller.remap(), Err(Fault::InterruptOrder));
}

#[test]
fn timer_is_acknowledged_on_its_own_vector() {
    let mut kernel = booted();
    assert!(is_ack(&kernel.handle(Trap::Timer), 32));
}

#[test]
fn breakpoint_is_reported_and_left_behind() {
    let mut kernel = booted();
    kernel.system.terminal.writer.write_string("\n");
    let response = kernel.handle(Trap::Breakpoint { stack_frame: "frame".to_string() });
    assert!(matches!(response, Response::Resume));
    let writer = &kernel.system.terminal.writer;
    assert_eq!(writer.row_into_string(1), "EXCEPTION: BREAKPOINT");
    assert_eq!(writer.row_into_string(2), "frame");
    assert_eq!(writer.read(1, 0).color_code, ColorCode(0x0c));
    assert_eq!(writer.color_code(), ColorCode(0x0f));
}

#[test]
fn page_fault_is_reported_and_halts() {
    let mut kernel = booted();
    kernel.system.terminal.writer.write_string("\n");
    let response = kernel.handle(Trap::PageFault {
        accessed_address: "VirtAddr(0xdeadbeaf)".to_string(),
        error_code: "CAUSED_BY_WRITE".to_string(),
        stack_frame: "frame".to_string(),
    });
    assert!(matches!(response, Response::Halt));
    let writer = &kernel.system.terminal.writer;
    assert_eq!(writer.row_into_string(1), "EXCEPTION: PAGE FAULT");
    assert_eq!(writer.row_into_string(2), "ACCESED ADDRESS: VirtAddr(0xdeadbeaf)");
    assert_eq!(writer.row_into_string(3), "ERRROR CODE: CAUSED_BY_WRITE");
    assert_eq!(writer.row_into_string(4), "frame");
    assert_eq!(writer.color_code(), ColorCode(0x0c));
}

#[test]
fn double_fault_is_a_panic() {
    let mut kernel = booted();
    let response = kernel.handle(Trap::DoubleFault { code: 17, stack_frame: "frame".to_string() });
    match response {
        Response::Panic(report) => {
            assert_eq!(report, "EXCEPTION: DOUBLE FAULT\nCODE:17\nframe")
        },
        _ => panic!("a double fault is a panic"),
    }
}

#[test]
fn scancode_before_the_queue_is_made_is_warned_about() {
    let mut kernel: Kernel<KeyboardTask> = Kernel::new();
    let response = kernel.handle(Trap::Keyboard { scancode: 0x1e });
    assert!(is_ack(&response, 33));
    let writer = &kernel.system.terminal.writer;
    assert_eq!(writer.row_into_string(0), "WARNING: Scancode queue uninitialized.");
    assert_eq!(writer.read(0, 0).color_code, ColorCode(0x0e));
}

#[test]
fn scancode_for_a_full_queue_is_dropped_with_a_warning() {
    let mut kernel: Kernel<KeyboardTask> = Kernel::new();
    kernel.system.channel.try_init_once(1).unwrap();
    assert!(is_ack(&kernel.handle(Trap::Keyboard { scancode: 0x1e }), 33));
    assert!(is_ack(&kernel.handle(Trap::Keyboard { scancode: 0x1f }), 33));
    assert_eq!(
        kernel.system.terminal.writer.row_into_string(0),
        "WARNING: Scancode queue full. Dropping keyboard input."
    );
    assert_eq!(kernel.system.channel.pop(), Some(0x1e));
    assert_eq!(kernel.system.channel.pop(), None);
}

#[test]
fn warning_without_room_is_a_panic() {
    let mut kernel: Kernel<KeyboardTask> = Kernel::new();
    kernel.system.terminal.writer.write_string(&"x".repeat(60));
    assert!(matches!(kernel.handle(Trap::Keyboard { scancode: 1 }), Response::Panic(_)));
}

#[test]
fn scenario_echo_hi() {
    let mut kernel = booted();
    // e c h o space h i enter
    press(&mut kernel, &[0x12, 0x2e, 0x23, 0x18, 0x39, 0x23, 0x17, 0x1c]);
    assert_eq!(kernel.run_ready_tasks(), Ok(()));
    let terminal = &kernel.system.terminal;
    assert_eq!(terminal.writer.row_into_string(0), "> echo hi");
    assert_eq!(terminal.writer.row_into_string(1), "hi ");
    assert_eq!(terminal.writer.row_into_string(2), "> ");
    assert_eq!(terminal.history.history, vec!["echo hi".to_string()]);
    assert!(terminal.reader.awaits_input);
    assert!(kernel.executor.is_idle());
    assert_eq!(kernel.executor.state_of(platinium_os::task::TaskId(0)), Some(TaskState::Suspended));
}

#[test]
fn keys_wake_the_suspended_task() {
    let mut kernel = booted();
    assert_eq!(kernel.run_ready_tasks(), Ok(()));
    assert!(kernel.executor.is_idle());
    press(&mut kernel, &[0x1e]);
    // the push has made the task ready again
    assert!(!kernel.executor.is_idle());
    press(&mut kernel, &[0x30, 0x9e, 0xb0]);
    assert_eq!(kernel.run_ready_tasks(), Ok(()));
    assert_eq!(kernel.system.terminal.writer.row_into_string(0), "> ab");
    assert!(kernel.executor.is_idle());
}

#[test]
fn shift_gives_capitals() {
    let mut kernel = booted();
    press(&mut kernel, &[0x2a, 0x1e, 0xaa, 0x1e]);
    assert_eq!(kernel.run_ready_tasks(), Ok(()));
    assert_eq!(kernel.system.terminal.writer.row_into_string(0), "> Aa");
}

#[test]
fn keys_without_a_character_are_written_by_name() {
    let mut kernel = booted();
    // F1
    press(&mut kernel, &[0x3b]);
    assert_eq!(kernel.run_ready_tasks(), Ok(()));
    assert_eq!(kernel.system.terminal.writer.row_into_string(0), "> F1");
}

#[test]
fn arrows_move_the_cursor() {
    let mut kernel = booted();
    press(&mut kernel, &[0x1e, 0x30, 0xe0, 0x4b, 0xe0, 0x4b, 0xe0, 0x4d]);
    assert_eq!(kernel.run_ready_tasks(), Ok(()));
    assert_eq!(kernel.system.terminal.writer.column_position(), 3);
    assert_eq!(kernel.system.terminal.writer.row_into_string(0), "> ab");
}

#[test]
fn backspace_wipes_the_last_key() {
    let mut kernel = booted();
    press(&mut kernel, &[0x1e, 0x30, 0x0e]);
    assert_eq!(kernel.run_ready_tasks(), Ok(()));
    assert_eq!(kernel.system.terminal.writer.row_into_string(0), "> a");
}

#[test]
fn a_line_that_fills_its_row_is_a_fault() {
    let mut kernel = booted();
    for _ in 0..77 {
        press(&mut kernel, &[0x1e]);
        assert_eq!(kernel.run_ready_tasks(), Ok(()));
    }
    assert_eq!(kernel.system.terminal.writer.column_position(), 79);
    press(&mut kernel, &[0x1e]);
    assert_eq!(kernel.run_ready_tasks(), Err(Fault::ColumnOutOfBounds));
}

fn terminal_with_history(lines: &[&str]) -> Terminal {
    let mut terminal = Terminal::new();
    for line in lines {
        terminal.history.history.push(line.to_string());
    }
    terminal.history.index = lines.len() as u64;
    terminal.writer.write_string("> ");
    terminal.reader.awaits_input = true;
    terminal
}

#[test]
fn arrow_up_shows_the_entry_before() {
    let mut terminal = terminal_with_history(&["first", "second"]);
    assert_eq!(handle_key(&mut terminal, 0x48, "ArrowUp"), Ok(Flow::Continue));
    assert_eq!(terminal.writer.row_into_string(0), "> second");
    assert_eq!(terminal.history.index, 1);
    assert_eq!(terminal.reader.column_position_start, 2);
    assert_eq!(handle_key(&mut terminal, 0x48, "ArrowUp"), Ok(Flow::Continue));
    assert_eq!(terminal.writer.row_into_string(0), "> first");
    assert_eq!(terminal.history.index, 0);
    // at the first entry the task ends
    assert_eq!(handle_key(&mut terminal, 0x48, "ArrowUp"), Ok(Flow::Return));
    assert_eq!(terminal.history.index, 0);
}

#[test]
fn arrow_down_shows_the_entry_after() {
    let mut terminal = terminal_with_history(&["first", "second", "third"]);
    terminal.history.index = 0;
    assert_eq!(handle_key(&mut terminal, 0x50, "ArrowDown"), Ok(Flow::Continue));
    assert_eq!(terminal.writer.row_into_string(0), "> second");
    assert_eq!(terminal.history.index, 1);
    assert_eq!(handle_key(&mut terminal, 0x50, "ArrowDown"), Ok(Flow::Continue));
    assert_eq!(terminal.writer.row_into_string(0), "> third");
    // at the last entry the task ends
    assert_eq!(handle_key(&mut terminal, 0x50, "ArrowDown"), Ok(Flow::Return));
    assert_eq!(terminal.history.index, 2);
}

#[test]
fn arrow_down_behind_the_last_entry_is_a_fault() {
    let mut terminal = terminal_with_history(&["only"]);
    assert_eq!(terminal.history.index, 1);
    assert_eq!(handle_key(&mut terminal, 0x50, "ArrowDown"), Err(Fault::HistoryOutOfBounds));
    assert_eq!(terminal.history.index, 2);
}

#[test]
fn arrows_without_history_do_nothing() {
    let mut terminal = terminal_with_history(&[]);
    assert_eq!(handle_key(&mut terminal, 0x48, "ArrowUp"), Ok(Flow::Continue));
    assert_eq!(handle_key(&mut terminal, 0x50, "ArrowDown"), Ok(Flow::Continue));
    assert_eq!(terminal.writer.row_into_string(0), "> ");
}

#[test]
fn arrow_right_in_the_first_column_is_a_fault() {
    let mut terminal = Terminal::new();
    assert_eq!(handle_key(&mut terminal, 0x4d, "ArrowRight"), Err(Fault::ColumnOutOfBounds));
}

#[test]
fn enter_runs_the_line() {
    let mut terminal = terminal_with_history(&[]);
    terminal.writer.write_string("version");
    assert_eq!(handle_key(&mut terminal, 0x1c, "\n"), Ok(Flow::Continue));
    assert_eq!(terminal.writer.row_into_string(1), "1.0");
    assert_eq!(terminal.writer.row_into_string(2), "> ");
    assert_eq!(terminal.history.history, vec!["version".to_string()]);
    assert_eq!(terminal.history.index, 1);
}

#[test]
fn the_up_arrow_at_the_top_of_the_history_ends_the_task() {
    let mut kernel = booted();
    // v enter, then arrow up twice
    press(&mut kernel, &[0x2f, 0x1c, 0xe0, 0x48, 0xe0, 0x48, 0x1e]);
    assert_eq!(kernel.run_ready_tasks(), Ok(()));
    assert_eq!(kernel.executor.state_of(platinium_os::task::TaskId(0)), None);
    // the key behind the second arrow was left in the queue
    assert_eq!(kernel.system.channel.pop(), Some(0x1e));
}
