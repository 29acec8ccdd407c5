use std::collections::HashSet;

use malde::architecture::memory::DATA_SEGMENT_START;
use malde::parsers::assembly::keyword_map::KeywordMap;
use malde::parsers::assembly::parser::binary16;
use malde::parsers::source_map::SourceMap;
use malde::virtual_machine::format::{decimal_string, hex4_string, signed_decimal_string};
use malde::virtual_machine::{
    VM, VMError, VMExecutionInfo, VMExecutionType, VMInputError, VMInputRequestType,
    VMInputResponse, VMState, MAX_INT, MIN_INT,
};

const HALT_TEXT: &str = "\n\n----- programa encerrado (0) -----\n\n";
const RESTART_TEXT: &str = "\n\n----- programa reiniciado -----\n\n";

/// a := 2; print a as an integer; halt.
const PRINT_TWO: &str = "a := 1 + 1;
ac := 1; syscall;
ac := lshift(1 + 1);
ac := ac + 1;
ac := lshift(ac + 0); syscall;
";

/// Reads an integer into AC, copies it to A, prints it and halts.
const ECHO_INT: &str = "ac := lshift(1 + 1);
ac := ac + 1;
ac := ac + 1;
ac := ac + 1; syscall;
a := ac + 0;
ac := 1; syscall;
ac := lshift(1 + 1);
ac := ac + 1;
ac := lshift(ac + 0); syscall;
";

fn info(max_steps: usize) -> VMExecutionInfo {
    VMExecutionInfo {
        breaks_mic: HashSet::new(),
        breaks_mac: HashSet::new(),
        max_steps,
    }
}

fn loaded(program: &str, info_print: bool) -> VM {
    let mut vm = VM::new();
    vm.set_info_print(info_print);
    let sm = SourceMap::from_content(program);
    let mics = vm.assemble_mic(&sm).unwrap();
    assert_eq!(*vm.state(), VMState::Active);
    assert!(!mics.is_empty());
    vm
}

#[test]
fn vm_new_is_uninitialized() {
    let vm = VM::new();
    assert_eq!(*vm.state(), VMState::Uninitialized);
    assert_eq!(vm.stdout(), "");
    assert!(vm.memory().iter().all(|w| *w == 0));
    assert_eq!(vm.memory().len(), 4096);
    let regs = vm.registers();
    assert_eq!(regs.0, 0);
    assert_eq!(regs.1, 0);
    assert_eq!(regs.2[6], 1);
    assert_eq!(regs.2[7], 0xffff);
    assert_eq!(regs.2[8], 0x0fff);
    assert_eq!(regs.2[9], 0x00ff);
}

#[test]
fn vm_runs_microprogram_to_halt() {
    let mut vm = loaded(PRINT_TWO, false);
    let res = vm.execute(VMExecutionType::Run, info(1000));
    let resp = match *res {
        Ok(resp) => resp,
        Err(_) => panic!("execution failed"),
    };
    assert_eq!(resp.state, VMState::Halted);
    assert_eq!(resp.mpc, 0);
    assert_eq!(resp.prev_mpc, 4);
    assert_eq!(resp.registers.2[10], 2);
    assert_eq!(resp.registers.2[1], 10);
    assert_eq!(vm.stdout(), "2");
    assert_eq!(*vm.state(), VMState::Halted);
}

#[test]
fn vm_announces_halt_and_restart() {
    let mut vm = loaded(PRINT_TWO, true);
    let _ = vm.execute(VMExecutionType::Run, info(1000));
    assert_eq!(*vm.stdout(), format!("2{}", HALT_TEXT));
    vm.reset();
    assert_eq!(*vm.state(), VMState::Active);
    assert_eq!(*vm.stdout(), format!("2{}{}", HALT_TEXT, RESTART_TEXT));
    assert_eq!(vm.registers().2[10], 0);
}

#[test]
fn vm_halted_machine_does_nothing() {
    let mut vm = loaded(PRINT_TWO, false);
    let _ = vm.execute(VMExecutionType::Run, info(1000));
    let res = vm.execute(VMExecutionType::Microinstruction, info(1000));
    match *res {
        Ok(resp) => {
            assert_eq!(resp.mpc, 0);
            assert_eq!(resp.prev_mpc, 0);
            assert_eq!(resp.state, VMState::Halted);
        },
        Err(_) => panic!("a halted machine fails nothing"),
    }
    assert_eq!(vm.stdout(), "2");
}

#[test]
fn vm_micro_steps() {
    let mut vm = loaded(PRINT_TWO, false);
    let res = vm.execute(VMExecutionType::Microinstruction, info(0));
    let resp = match *res {
        Ok(resp) => resp,
        Err(_) => panic!("step failed"),
    };
    assert_eq!((resp.mpc, resp.prev_mpc), (1, 0));
    assert_eq!(resp.registers.2[10], 2);
    assert_eq!(resp.state, VMState::Active);
    assert_eq!(resp.events.register_writes.get(&10).map(|e| (e.before, e.after)), Some((0, 2)));
    let res = vm.execute(VMExecutionType::Microinstruction, info(0));
    let resp = match *res {
        Ok(resp) => resp,
        Err(_) => panic!("step failed"),
    };
    assert_eq!((resp.mpc, resp.prev_mpc), (2, 1));
    assert_eq!(vm.stdout(), "2");
}

#[test]
fn vm_stops_at_micro_breakpoint() {
    let mut vm = loaded(PRINT_TWO, false);
    let mut i = info(1000);
    i.breaks_mic.insert(2);
    let res = vm.execute(VMExecutionType::Run, i);
    let resp = match *res {
        Ok(resp) => resp,
        Err(_) => panic!("execution failed"),
    };
    assert_eq!(resp.mpc, 2);
    assert_eq!(resp.state, VMState::Active);
    assert_eq!(vm.stdout(), "2");
}

#[test]
fn vm_stops_after_max_steps() {
    let mut vm = loaded(PRINT_TWO, false);
    let res = vm.execute(VMExecutionType::Run, info(1));
    let resp = match *res {
        Ok(resp) => resp,
        Err(_) => panic!("execution failed"),
    };
    assert_eq!((resp.mpc, resp.prev_mpc), (1, 0));
    assert_eq!(resp.state, VMState::Active);
    let res = vm.execute(VMExecutionType::Run, info(0));
    match *res {
        Ok(resp) => assert_eq!((resp.mpc, resp.prev_mpc), (0, 0)),
        Err(_) => panic!("execution failed"),
    }
}

#[test]
fn vm_waits_for_integer_input() {
    let mut vm = loaded(ECHO_INT, false);
    let res = vm.execute(VMExecutionType::Run, info(1000));
    match *res {
        Ok(resp) => assert_eq!(resp.state, VMState::Waiting(VMInputRequestType::Int)),
        Err(_) => panic!("execution failed"),
    }
    assert_eq!(
        vm.handle_input(VMInputResponse::Int(70000)),
        Err(VMInputError::InvalidNumber(70000, MIN_INT, MAX_INT))
    );
    assert_eq!(
        vm.handle_input(VMInputResponse::Char('x')),
        Err(VMInputError::WrongType)
    );
    assert_eq!(*vm.state(), VMState::Waiting(VMInputRequestType::Int));
    assert_eq!(vm.handle_input(VMInputResponse::Int(42)), Ok(()));
    assert_eq!(*vm.state(), VMState::Active);
    assert_eq!(vm.registers().2[1], 42);
    let _ = vm.execute(VMExecutionType::Run, info(1000));
    assert_eq!(vm.stdout(), "42");
    assert_eq!(*vm.state(), VMState::Halted);
    assert_eq!(
        vm.handle_input(VMInputResponse::Int(1)),
        Err(VMInputError::Unexpected)
    );
}

#[test]
fn vm_negative_input_prints_signed() {
    let mut vm = loaded(ECHO_INT, false);
    let _ = vm.execute(VMExecutionType::Run, info(1000));
    assert_eq!(vm.handle_input(VMInputResponse::Int(-5)), Ok(()));
    assert_eq!(vm.registers().2[1], 0xfffb);
    let _ = vm.execute(VMExecutionType::Run, info(1000));
    assert_eq!(vm.stdout(), "-5");
}

#[test]
fn vm_mar_change_during_read_is_an_error() {
    let mut vm = loaded("mar := pc; rd;\nmar := 1; rd;\n", false);
    let res = vm.execute(VMExecutionType::Run, info(1000));
    match *res {
        Err((resp, VMError::MarChanged)) => assert_eq!(resp.state, VMState::Halted),
        _ => panic!("expected a MAR conflict"),
    }
    assert_eq!(*vm.state(), VMState::Halted);
}

#[test]
fn vm_macro_step_stops_at_instruction_read() {
    let mut vm = loaded("mar := pc; rd;\nrd;\npc := pc + 1;\n", false);
    let res = vm.execute(VMExecutionType::Macroinstruction, info(1000));
    let resp = match *res {
        Ok(resp) => resp,
        Err(_) => panic!("execution failed"),
    };
    assert_eq!((resp.mpc, resp.prev_mpc), (1, 0));
    assert!(resp.events.instruction_reads.contains(&0));
    assert_eq!(resp.pc, 0);
}

#[test]
fn vm_assemble_mic_errors() {
    let mut vm = VM::new();
    let sm = SourceMap::from_content("pc := alu");
    match vm.assemble_mic(&sm) {
        Err(VMError::MALParsingError(_)) => {},
        _ => panic!("expected a parse error"),
    }
    assert_eq!(*vm.state(), VMState::Uninitialized);
    let long = "pc := pc + 1;\n".repeat(1025);
    let sm = SourceMap::from_content(&long);
    match vm.assemble_mic(&sm) {
        Err(VMError::MicroMemOverflow(n)) => assert_eq!(n, 1025),
        _ => panic!("expected an overflow"),
    }
    assert_eq!(*vm.state(), VMState::Uninitialized);
}

#[test]
fn vm_assemble_mac_loads_memory() {
    let mut vm = VM::new();
    let sm = SourceMap::from_content(".data\nX: .word 5\n.text\nMAIN: LODD X\n");
    let ins = vm.assemble_mac(&sm, KeywordMap::default()).unwrap();
    assert_eq!(ins.len(), 1);
    assert_eq!(ins[0].content, "MAIN: LODD X");
    assert_eq!(ins[0].bin, "0000011000000000");
    let mem = vm.memory();
    assert_eq!(mem[0], DATA_SEGMENT_START as u16);
    assert_eq!(mem[DATA_SEGMENT_START], 5);
    assert_eq!(*vm.state(), VMState::Uninitialized);
    assert_eq!(vm.stdout(), "");
}

#[test]
fn vm_assemble_mac_errors() {
    let mut vm = VM::new();
    let sm = SourceMap::from_content(".data\nX: .space 6000\n.text\n");
    match vm.assemble_mac(&sm, KeywordMap::default()) {
        Err(VMError::DataSegmentOverflow(n)) => assert_eq!(n, 3000),
        _ => panic!("expected a data overflow"),
    }
    let text = format!(".text\n{}", "HALT\n".repeat(1537));
    let sm = SourceMap::from_content(&text);
    match vm.assemble_mac(&sm, KeywordMap::default()) {
        Err(VMError::InstructionSegmentOverflow(n)) => assert_eq!(n, 1537),
        _ => panic!("expected an instruction overflow"),
    }
    let sm = SourceMap::from_content(".text LODD LABEL");
    match vm.assemble_mac(&sm, KeywordMap::default()) {
        Err(VMError::ASMParsingError(_)) => {},
        _ => panic!("expected a parse error"),
    }
    assert!(vm.memory().iter().all(|w| *w == 0));
}

#[test]
fn vm_reset_memory_reloads_program() {
    let mut vm = VM::new();
    vm.set_initial_memory(vec![7, 8], vec![9]);
    vm.reset_memory();
    let mem = vm.memory();
    assert_eq!((mem[0], mem[1], mem[2]), (7, 8, 0));
    assert_eq!(mem[DATA_SEGMENT_START], 9);
}

#[test]
fn format_numbers() {
    assert_eq!(decimal_string(0), "0");
    assert_eq!(decimal_string(65535), "65535");
    assert_eq!(signed_decimal_string(-32768), "-32768");
    assert_eq!(signed_decimal_string(42), "42");
    assert_eq!(hex4_string(0xab), "00AB");
    assert_eq!(hex4_string(0xffff), "FFFF");
    assert_eq!(binary16(5), "0000000000000101");
}

#[test]
fn vm_reset_twice_changes_only_the_announcement() {
    let mut vm = loaded(PRINT_TWO, true);
    let _ = vm.execute(VMExecutionType::Run, info(3));
    vm.reset();
    let mem1 = vm.memory();
    let regs1 = vm.registers();
    let out1 = vm.stdout().clone();
    vm.reset();
    assert_eq!(vm.memory(), mem1);
    assert_eq!(vm.registers().2, regs1.2);
    assert_eq!(*vm.stdout(), format!("{}{}", out1, RESTART_TEXT));
}

#[test]
fn vm_mbr_change_during_write_is_an_error() {
    let mut vm = loaded("mar := pc; mbr := 1; wr;\nmbr := 0; wr;\n", false);
    let res = vm.execute(VMExecutionType::Run, info(1000));
    match *res {
        Err((resp, VMError::MbrChanged)) => assert_eq!((resp.mpc, resp.prev_mpc), (0, 1)),
        _ => panic!("expected an MBR conflict"),
    }
    assert_eq!(*vm.state(), VMState::Halted);
}

#[test]
fn vm_instruction_write_checked_only_when_asked() {
    let program = "mar := pc; mbr := 1; wr;\nwr;\n";
    let mut vm = loaded(program, false);
    let res = vm.execute(VMExecutionType::Run, info(2));
    match *res {
        Ok(resp) => assert!(resp.events.instruction_writes.contains(&0)),
        Err(_) => panic!("unchecked writes are allowed"),
    }
    assert_eq!(vm.memory()[0], 1);

    let mut vm = loaded(program, false);
    vm.set_err_on_instruction_write(true);
    let res = vm.execute(VMExecutionType::Run, info(1000));
    match *res {
        Err((_, VMError::InstructionWrite(a))) => assert_eq!(a, 0),
        _ => panic!("expected a write to the instruction segment"),
    }
    assert_eq!(*vm.state(), VMState::Halted);
}

#[test]
fn vm_stops_at_instruction_breakpoint() {
    let program = "mar := pc; rd;\nrd;\npc := pc + 1;\n";
    let mut vm = loaded(program, false);
    let mut i = info(1000);
    i.breaks_mac.insert(0);
    let res = vm.execute(VMExecutionType::Run, i);
    match *res {
        Ok(resp) => {
            assert_eq!((resp.mpc, resp.prev_mpc), (1, 0));
            assert_eq!(resp.state, VMState::Active);
        },
        Err(_) => panic!("execution failed"),
    }
    let mut vm = loaded(program, false);
    let mut i = info(7);
    i.breaks_mac.insert(5);
    let res = vm.execute(VMExecutionType::Run, i);
    match *res {
        Ok(resp) => {
            assert_eq!((resp.mpc, resp.prev_mpc), (1, 0));
            assert_eq!(resp.pc, 2);
            assert_eq!(resp.prev_pc, 1);
        },
        Err(_) => panic!("execution failed"),
    }
}
