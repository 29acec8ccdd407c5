use malde::architecture::datapath::{Datapath, Register};
use malde::architecture::events::EventHandler;
use malde::architecture::memory::Memory;
use malde::architecture::signals::ControlSignals;

#[test]
fn load_test() {
    let mut mem = Memory::new();
    mem.load(5, &[1, 2, 3, 4, 5]);
    assert_eq!(mem.get_ref()[5], 1);
    assert_eq!(mem.get_ref()[6], 2);
    assert_eq!(mem.get_ref()[7], 3);
    assert_eq!(mem.get_ref()[8], 4);
    assert_eq!(mem.get_ref()[9], 5);
}

#[test]
fn signal_converting() {
    let sigs = ControlSignals {
        amux: true,
        cond: 0b01,
        alu: 0b10,
        sh: 0b00,
        mbr: true,
        mar: false,
        rd: true,
        wr: false,
        enc: false,
        c: 0b1001,
        b: 0b0110,
        a: 0b1111,
        addr: 0b10101001,
        syscall: false,
    };
    let n: u64 = sigs.clone().into();
    let expected: u64 =
        0b1_01_10_00_10100_1001_0110_1111_0010101001_000000000000000000000000000000;
    println!("expected: {:b}", expected);
    println!("result  : {:b}", n);
    assert_eq!(n, expected);
    assert_eq!(ControlSignals::from(&n), sigs);
    let back = ControlSignals::from(&expected);
    assert_eq!(back, sigs);

    let sigs = ControlSignals {
        amux: false,
        cond: 0b11,
        alu: 0b01,
        sh: 0b11,
        mbr: false,
        mar: true,
        rd: true,
        wr: false,
        enc: true,
        c: 0b0101,
        b: 0b0000,
        a: 0b0001,
        addr: 0b01111110,
        syscall: false,
    };
    let n: u64 = sigs.clone().into();
    let expected = 0b0_11_01_11_01101_0101_0000_0001_0001111110_000000000000000000000000000000;
    println!("expected: {:b}", expected);
    println!("result  : {:b}", n);
    assert_eq!(n, expected);
    assert_eq!(ControlSignals::from(&n), sigs);
    let back = ControlSignals::from(&expected);
    assert_eq!(back, sigs);
}

#[test]
fn word_leaves_out_syscall_and_low_bits() {
    let sigs = ControlSignals {
        syscall: true,
        addr: 1023,
        ..Default::default()
    };
    let n: u64 = sigs.clone().into();
    assert_eq!(n, 1023u64 << 30);
    assert_eq!(
        ControlSignals::from(&n),
        ControlSignals {
            syscall: false,
            ..sigs
        }
    );
    let low: u64 = 1u64 << 29;
    assert_eq!(ControlSignals::from(&low), ControlSignals::default());
    let word: u64 = 0x8123_4567_89ab_cdef;
    let back: u64 = ControlSignals::from(&word).into();
    assert_eq!(back, word & !((1u64 << 30) - 1));
}

#[test]
fn memory_reads_back_what_two_write_cycles_wrote() {
    let mut mem = Memory::new();
    let mut events = EventHandler::new();
    let write = ControlSignals {
        wr: true,
        ..Default::default()
    };
    let read = ControlSignals {
        rd: true,
        ..Default::default()
    };
    let idle = ControlSignals::default();
    let mut mbr: u16 = 77;
    mem.clock(&write, &10, &mut mbr, &mut events);
    assert_eq!(mem.get_ref()[10], 0);
    mem.clock(&write, &10, &mut mbr, &mut events);
    assert_eq!(mem.get_ref()[10], 77);
    mem.clock(&idle, &10, &mut mbr, &mut events);
    let mut mbr: u16 = 1;
    mem.clock(&read, &10, &mut mbr, &mut events);
    assert_eq!(mbr, 1);
    mem.clock(&read, &10, &mut mbr, &mut events);
    assert_eq!(mbr, 77);
    assert_eq!(events.memory_writes.get(&10).map(|e| (e.before, e.after)), Some((0, 77)));
}

#[test]
fn memory_set_addr_outside_is_ignored() {
    let mut mem = Memory::new();
    let mut events = EventHandler::new();
    mem.set_addr(4095, 3, &mut events);
    mem.set_addr(4096, 4, &mut events);
    assert_eq!(mem.get_ref()[4095], 3);
    assert_eq!(mem.get_ref().len(), 4096);
    mem.clear();
    assert_eq!(mem.get_ref()[4095], 0);
}

#[test]
fn datapath_keeps_constant_registers() {
    let mut dp = Datapath::new();
    let mut events = EventHandler::new();
    let sigs = ControlSignals {
        enc: true,
        c: 6,
        a: 5,
        alu: 2,
        ..Default::default()
    };
    dp.clock(&sigs, &mut events);
    let regs = dp.registers();
    assert_eq!(regs.one(), 1);
    assert_eq!(regs.minus_one(), 0xffff);
    assert_eq!(regs.amask(), 0x0fff);
    assert_eq!(regs.smask(), 0x00ff);
    assert_eq!(regs.sp(), 4096);
    dp.registers_mut()[3] = 9;
    assert_eq!(dp.registers().ir(), 9);
    dp.set_register(1, 5);
    assert_eq!(dp.registers().ac(), 5);
    dp.reset();
    assert_eq!(dp.registers().ac(), 0);
    assert_eq!(dp.registers().ir(), 0);
}

#[test]
fn register_names_and_indices() {
    assert_eq!(Register::from_name(&['a', 'm', 'a', 's', 'k']), Some(Register::Amask));
    assert_eq!(Register::from_name(&['(', '-', '1', ')']), Some(Register::MinusOne));
    assert_eq!(Register::from_name(&['x']), None);
    assert_eq!(Register::Smask.index(), Some(9));
    assert_eq!(Register::Mar.index(), None);
    assert_eq!(Register::Tir.name(), "tir");
    assert_eq!(Register::Alu.name(), "(nenhum)");
}

#[test]
fn memory_accepts_outside_address_until_a_word_moves() {
    let mut mem = Memory::new();
    let mut events = EventHandler::new();
    let write = ControlSignals {
        wr: true,
        ..Default::default()
    };
    let idle = ControlSignals::default();
    let mut mbr: u16 = 5;
    mem.clock(&idle, &5000, &mut mbr, &mut events);
    mem.clock(&write, &5000, &mut mbr, &mut events);
    assert_eq!(mbr, 5);
    assert!(mem.get_ref().iter().all(|w| *w == 0));
}

#[test]
fn datapath_passes_unknown_shift_and_keeps_alu_output() {
    let mut dp = Datapath::new();
    let mut events = EventHandler::new();
    let sigs = ControlSignals {
        enc: true,
        c: 1,
        a: 6,
        alu: 2,
        sh: 3,
        ..Default::default()
    };
    dp.clock(&sigs, &mut events);
    assert_eq!(dp.registers().ac(), 1);
    let keep = ControlSignals {
        enc: true,
        c: 10,
        alu: 7,
        sh: 1,
        ..Default::default()
    };
    dp.clock(&keep, &mut events);
    assert_eq!(dp.registers().a(), 2);
}
