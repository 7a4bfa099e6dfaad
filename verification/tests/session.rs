use mzdbg::debugger::Ast;
use mzdbg::debugger::PrintTarget;
use mzdbg::driver::{Directive, Executor};
use mzdbg::engine::{
    boot_layout, vector_slot_pointer, Cpu, EngineData, FarPointer, HookAction, Reg, reg_of_bytes,
    ShimAction,
};
use mzdbg::program::Program;

/// A minimal loadable image: a 28-byte header region and no payload.
fn tiny_program(start: u64) -> Program {
    let mut data = vec![0u8; 32];
    data[0] = 0x4D;
    data[1] = 0x5A;
    data[8] = 2; // header_size: 2 * 16 = 32 bytes, the whole input
    data[20] = 0x10; // initial IP
    data[22] = 0x02; // initial CS
    data[14] = 0x03; // initial SS
    data[16] = 0x80; // initial SP
    Program::new(data, start).unwrap()
}

fn zero_cpu() -> Cpu {
    Cpu {
        ax: 0,
        bx: 0,
        cx: 0,
        dx: 0,
        si: 0,
        di: 0,
        sp: 0,
        bp: 0,
        ip: 0,
        cs: 0,
        ds: 0,
        es: 0,
        ss: 0,
        fs: 0,
        gs: 0,
    }
}

#[test]
fn far_pointer_resolves_linear() {
    let fp = FarPointer::from_segment_offset(0x10, 0x20);
    assert_eq!(fp.address(), 0x120);
}

#[test]
fn register_lookup() {
    let mut cpu = zero_cpu();
    cpu.ax = 5;
    cpu.ds = 0x40;
    assert_eq!(cpu.register("ax"), 5);
    assert_eq!(cpu.register("ds"), 0x40);
    assert_eq!(cpu.get(Reg::Ax), 5);
    assert_eq!(reg_of_bytes(b"si"), Some(Reg::Si));
    assert_eq!(reg_of_bytes(b"zz"), None);
    assert_eq!(reg_of_bytes(b"axe"), None);
}

#[test]
fn boot_layout_places_image_and_startup_block() {
    let program = tiny_program(0x400);
    let layout = boot_layout(&program);
    assert_eq!(layout.load_addr, 0x4000);
    assert_eq!(layout.psp_addr, 0x4000 - 256);
    assert_eq!(layout.ip, 0x10);
    assert_eq!(layout.sp, 0x80);
    assert_eq!(layout.cs, 0x02 + 0x400);
    assert_eq!(layout.ss, 0x03 + 0x400);
    assert_eq!(layout.ds, 0x400 - 256);
    assert_eq!(layout.es, 0x400 - 256);
}

#[test]
fn sense_bit_halts_on_odd_visits() {
    let mut data = EngineData::new(tiny_program(0x400));
    data.add_break(0x100);
    let mut halted = Vec::new();
    for _ in 0..6 {
        halted.push(data.on_instruction(0x100) == HookAction::HaltAtBreak);
    }
    // visits 1, 3, 5 halt; visits 2, 4, 6 never do
    assert_eq!(halted, vec![true, false, true, false, true, false]);
}

#[test]
fn hook_ignores_addresses_without_breakpoints() {
    let mut data = EngineData::new(tiny_program(0x400));
    data.add_break(0x100);
    assert_eq!(data.on_instruction(0x101), HookAction::Proceed);
    assert_eq!(data.on_instruction(0x100), HookAction::HaltAtBreak);
    assert_eq!(data.on_instruction(0x101), HookAction::Proceed);
}

#[test]
fn loop_session_halts_once_and_clears() {
    let mut data = EngineData::new(tiny_program(0x400));
    data.add_while_break(0x100);
    // the target fires
    assert_eq!(data.on_instruction(0x100), HookAction::HaltAtBreak);
    // the next instruction away from any breakpoint is the natural stop
    assert_eq!(data.on_instruction(0x200), HookAction::HaltLoopDone);
    // the session is gone: no further loop halt
    assert_eq!(data.on_instruction(0x200), HookAction::Proceed);
    // a new identical session starts fresh, not from stale state
    data.add_while_break(0x100);
    assert_eq!(data.on_instruction(0x200), HookAction::Proceed);
    assert_eq!(data.on_instruction(0x100), HookAction::HaltAtBreak);
    assert_eq!(data.on_instruction(0x200), HookAction::HaltLoopDone);
}

#[test]
fn crossing_a_breakpoint_after_resume_makes_progress() {
    let mut data = EngineData::new(tiny_program(0x400));
    data.add_while_break(0x100);
    assert_eq!(data.on_instruction(0x100), HookAction::HaltAtBreak);
    // resuming re-invokes the hook at the same address: it must not halt
    assert_eq!(data.on_instruction(0x100), HookAction::Proceed);
}

#[test]
fn shim_set_vector() {
    let mut data = EngineData::new(tiny_program(0x400));
    let mut cpu = zero_cpu();
    cpu.ax = 0x2508; // selector 0x25, vector 8
    cpu.ds = 0x10;
    cpu.dx = 0x20;
    let action = data.on_interrupt(0x21, &cpu);
    assert_eq!(action, ShimAction::SetVector { slot: 32, handler: 0x120 });
    assert!(!data.exited());
}

#[test]
fn shim_get_vector() {
    let mut data = EngineData::new(tiny_program(0x400));
    let mut cpu = zero_cpu();
    cpu.ax = 0x3508; // selector 0x35, vector 8
    let action = data.on_interrupt(0x21, &cpu);
    assert_eq!(action, ShimAction::GetVector { slot: 32 });
    assert!(!data.exited());
}

#[test]
fn vector_set_then_get_round_trips() {
    // a set followed by a get of the same vector returns the stored handler
    let mut memory = vec![0u8; 0x100];
    let mut data = EngineData::new(tiny_program(0x400));

    // set vector 8 to the handler at ds:dx = 1234:0005
    let mut cpu = zero_cpu();
    cpu.ax = 0x2508;
    cpu.ds = 0x1234;
    cpu.dx = 0x0005;
    match data.on_interrupt(0x21, &cpu) {
        ShimAction::SetVector { slot, handler } => {
            let s = slot as usize;
            memory[s..s + 4].copy_from_slice(&handler.to_le_bytes());
        }
        other => panic!("expected a vector store, got {:?}", other),
    }

    // get vector 8: the same slot is read, and the stored vector comes back
    let mut cpu = zero_cpu();
    cpu.ax = 0x3508;
    match data.on_interrupt(0x21, &cpu) {
        ShimAction::GetVector { slot } => {
            assert_eq!(slot, 32);
            let s = slot as usize;
            let mut buf = [0u8; 4];
            buf.copy_from_slice(&memory[s..s + 4]);
            let stored = vector_slot_pointer(u32::from_le_bytes(buf));
            // the stored handler is the linear address 0x1234 * 16 + 5
            assert_eq!(stored.ip, (0x1234 * 16 + 5) % 0x10000);
            assert_eq!(stored.cs, (0x1234 * 16 + 5) / 0x10000);
        }
        other => panic!("expected a vector read, got {:?}", other),
    }
    assert!(!data.exited());
}

#[test]
fn shim_dos_version() {
    let mut data = EngineData::new(tiny_program(0x400));
    let mut cpu = zero_cpu();
    cpu.ax = 0x3000;
    assert_eq!(data.on_interrupt(0x21, &cpu), ShimAction::DosVersion { al: 2 });
    assert!(!data.exited());
}

#[test]
fn shim_free_memory_query() {
    let mut data = EngineData::new(tiny_program(0x400));
    let mut cpu = zero_cpu();
    cpu.ax = 0x4a01;
    assert_eq!(
        data.on_interrupt(0x21, &cpu),
        ShimAction::FreeMemory { bx: 0, es: 0xFFFF, di: 0xFFFF }
    );
    cpu.ax = 0x4a02;
    assert_eq!(
        data.on_interrupt(0x21, &cpu),
        ShimAction::FreeMemory { bx: 0, es: 0xFFFF, di: 0xFFFF }
    );
    assert!(!data.exited());
}

#[test]
fn shim_unknown_selector_is_fatal() {
    let mut data = EngineData::new(tiny_program(0x400));
    let mut cpu = zero_cpu();
    cpu.ax = 0x4a03; // unsupported request under the allocation selector
    let action = data.on_interrupt(0x21, &cpu);
    assert_eq!(action, ShimAction::Unsupported { interrupt: 0x21, selector: Some(0x4a) });
    assert!(data.exited());
}

#[test]
fn shim_unknown_interrupt_is_fatal() {
    let mut data = EngineData::new(tiny_program(0x400));
    let cpu = zero_cpu();
    let action = data.on_interrupt(0x10, &cpu);
    assert_eq!(action, ShimAction::Unsupported { interrupt: 0x10, selector: None });
    assert!(data.exited());
}

#[test]
fn executor_runs_a_loop_block() {
    let ast = Ast::new("while break 100 {\nn\n}\nr\n").unwrap();
    let mut exec = Executor::new(&ast);
    assert_eq!(exec.next(false), Directive::LoopEnter(0x100));
    // halted at the target: the body runs
    exec.report_halt(0x100);
    assert_eq!(exec.next(false), Directive::DoStep);
    assert_eq!(exec.next(false), Directive::LoopResume(0x100));
    // halted at the target again: the body runs again
    exec.report_halt(0x100);
    assert_eq!(exec.next(false), Directive::DoStep);
    assert_eq!(exec.next(false), Directive::LoopResume(0x100));
    // halted elsewhere: the block ends, the script goes on
    exec.report_halt(0x50);
    assert_eq!(exec.next(false), Directive::DoRun);
    assert_eq!(exec.next(false), Directive::Done);
}

#[test]
fn executor_skips_a_loop_block_that_never_fires() {
    let ast = Ast::new("while break 100 {\nn\n}\nr\n").unwrap();
    let mut exec = Executor::new(&ast);
    assert_eq!(exec.next(false), Directive::LoopEnter(0x100));
    // halted away from the target: the body runs zero times
    exec.report_halt(0x50);
    assert_eq!(exec.next(false), Directive::DoRun);
    assert_eq!(exec.next(false), Directive::Done);
}

#[test]
fn executor_quit_ends_the_script() {
    let ast = Ast::new("q\nr\n").unwrap();
    let mut exec = Executor::new(&ast);
    assert_eq!(exec.next(false), Directive::Quit);
    assert_eq!(exec.next(false), Directive::Done);
}

#[test]
fn console_write_then_terminate_end_to_end() {
    // The program writes a known string via the console-write service, then
    // terminates with code 0; the script runs it and quits.
    let message = b"Hello, world!";
    let mut memory = vec![0u8; 0x2000];
    let ds: u64 = 0x100;
    let dx: u64 = 0x20;
    let addr = (ds * 16 + dx) as usize;
    memory[addr..addr + message.len()].copy_from_slice(message);

    let mut data = EngineData::new(tiny_program(0x400));
    let ast = Ast::new("r\nq\n").unwrap();
    let mut exec = Executor::new(&ast);

    // the run command enters the engine
    assert_eq!(exec.next(data.exited()), Directive::DoRun);

    // during the run the program raises the console-write interrupt
    let mut cpu = zero_cpu();
    cpu.ax = 0x4000;
    cpu.bx = 1; // handle
    cpu.cx = message.len() as u64;
    cpu.ds = ds;
    cpu.dx = dx;
    match data.on_interrupt(0x21, &cpu) {
        ShimAction::ConsoleWrite { handle, addr, count } => {
            assert_eq!(handle, 1);
            let echoed = &memory[addr as usize..(addr + count) as usize];
            assert_eq!(echoed, message);
        }
        other => panic!("expected a console write, got {:?}", other),
    }
    assert!(!data.exited());

    // then it terminates with code 0
    let mut cpu = zero_cpu();
    cpu.ax = 0x4c00;
    assert_eq!(data.on_interrupt(0x21, &cpu), ShimAction::Terminate { code: 0 });
    assert!(data.exited());
    assert_eq!(data.exit_code(), Some(0));

    // the quit command ends the session without re-entering the engine
    assert_eq!(exec.next(data.exited()), Directive::Quit);
}

#[test]
fn commands_after_exit_are_no_ops() {
    let mut data = EngineData::new(tiny_program(0x400));
    let mut cpu = zero_cpu();
    cpu.ax = 0x4c07;
    assert_eq!(data.on_interrupt(0x21, &cpu), ShimAction::Terminate { code: 7 });
    assert!(data.exited());

    // every execution command is now a no-op that ends the session
    let ast = Ast::new("r\n").unwrap();
    let mut exec = Executor::new(&ast);
    assert_eq!(exec.next(data.exited()), Directive::Quit);

    let ast = Ast::new("c\n").unwrap();
    let mut exec = Executor::new(&ast);
    assert_eq!(exec.next(data.exited()), Directive::Quit);

    let ast = Ast::new("while break 100 {\nn\n}\n").unwrap();
    let mut exec = Executor::new(&ast);
    assert_eq!(exec.next(data.exited()), Directive::Quit);

    // the exited flag is permanent
    assert!(data.exited());
    assert_eq!(data.exit_code(), Some(7));
}

#[test]
fn verbose_flag_toggles() {
    let mut data = EngineData::new(tiny_program(0x400));
    assert!(!data.verbose());
    data.set_verbose(true);
    assert!(data.verbose());
    data.set_verbose(false);
    assert!(!data.verbose());
}

#[test]
fn get_break_reports_registered_breakpoints() {
    let mut data = EngineData::new(tiny_program(0x400));
    assert!(data.get_break(0x100).is_none());
    data.add_break(0x100);
    let b = data.get_break(0x100).unwrap();
    assert_eq!(b.addr, 0x100);
    assert!(!b.intr);
    assert!(data.get_break(0x101).is_none());
}

#[test]
fn executor_runs_nested_loop_blocks() {
    let ast = Ast::new("while break 100 {\nwhile break 200 {\nn\n}\n}\n").unwrap();
    let mut exec = Executor::new(&ast);
    assert_eq!(exec.next(false), Directive::LoopEnter(0x100));
    exec.report_halt(0x100);
    // the body is the inner block
    assert_eq!(exec.next(false), Directive::LoopEnter(0x200));
    exec.report_halt(0x200);
    assert_eq!(exec.next(false), Directive::DoStep);
    assert_eq!(exec.next(false), Directive::LoopResume(0x200));
    // inner block ends; outer block re-checks
    exec.report_halt(0x100);
    assert_eq!(exec.next(false), Directive::LoopResume(0x100));
    // outer block ends
    exec.report_halt(0x50);
    assert_eq!(exec.next(false), Directive::Done);
}

#[test]
fn print_still_works_after_exit() {
    // inspection commands are not execution commands: they stay available
    let ast = Ast::new("p\np 10\n").unwrap();
    let mut exec = Executor::new(&ast);
    assert_eq!(exec.next(true), Directive::DoPrint(None));
    assert_eq!(
        exec.next(true),
        Directive::DoPrint(Some(PrintTarget::Linear(0x10)))
    );
    assert_eq!(exec.next(true), Directive::Done);
}

#[test]
fn re_registering_a_breakpoint_resets_its_sense_bit() {
    // at most one breakpoint per address: a later insert replaces
    let mut data = EngineData::new(tiny_program(0x400));
    data.add_break(0x100);
    assert_eq!(data.on_instruction(0x100), HookAction::HaltAtBreak);
    // the bit is now set; a fresh registration clears it again
    data.add_break(0x100);
    assert_eq!(data.on_instruction(0x100), HookAction::HaltAtBreak);
}

#[test]
fn program_image_is_shared_with_the_session() {
    let data = EngineData::new(tiny_program(0x400));
    // the 32-byte input is all header region, so the image is empty
    assert_eq!(data.program_image().len(), 0);
}
