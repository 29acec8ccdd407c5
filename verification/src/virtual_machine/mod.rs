pub mod format;
pub mod input;

use crate::architecture::Cpu;
use crate::architecture::control::{MICROMEM_MAX_SIZE, MicroMem};
use crate::architecture::datapath::{DataRegisters, default_registers};
use crate::architecture::events::{EventHandler, EventsModel};
use crate::architecture::memory::{DATA_SEGMENT_START, MEMORY_SIZE, Memory, TEXT_SEGMENT_START};
use crate::architecture::signals::ControlSignals;
use crate::parsers::assembly::keyword_map::KeywordMap;
use crate::parsers::assembly::parser::{ASMParser, ASMParsingError, Instruction, ParserResult, asm_program, bits16, binary16, line_of_map};
use crate::parsers::mal::ranges::lemma_parsed_signals_fit;
use crate::architecture::signals::lemma_decode_encode;
use crate::parsers::mal::parser::{MALParser, MALParsingError, Microinstruction, line_content, parse_program};
use crate::parsers::source_map::SourceMap;
use crate::parsers::text::{push_char, push_str};
use crate::parsers::assembly::tokenizer::{binary_value, hex_digit_value, hex_value, is_hex_digit};
use format::{decimal, decimal_string, hex4, hex4_string, signed_decimal, signed_decimal_string};
use std::collections::HashSet;
use vstd::prelude::*;
use vstd::std_specs::iter::IteratorSpec;

verus! {

broadcast use vstd::std_specs::hash::group_hash_axioms;

/// The system calls, by the value of AC when a microinstruction with the
/// `syscall` signal runs.
pub struct Syscalls;

impl Syscalls {
    pub const PRINT_INT: u16 = 1;
    pub const PRINT_CHAR: u16 = 2;
    pub const PRINT_STRING: u16 = 3;
    pub const PRINT_INT_HEX: u16 = 4;
    pub const PRINT_INT_BINARY: u16 = 5;
    pub const PRINT_INT_UNSIGNED: u16 = 6;
    pub const READ_INT: u16 = 7;
    pub const READ_CHAR: u16 = 8;
    pub const READ_STRING: u16 = 9;
    pub const HALT: u16 = 10;
}

/// The kind of input that a read system call waits for.
#[derive(Debug, Clone, Copy, PartialEq, Eq, Structural)]
pub enum VMInputRequestType {
    Int,
    Char,
    String,
}

/// The input given to a waiting machine.
#[derive(Debug, Clone)]
pub enum VMInputResponse {
    Int(isize),
    Char(char),
    String(String),
}

/// Where the machine is: without a microprogram, running, waiting for input, or
/// halted.
#[derive(Debug, Clone, Copy, PartialEq, Eq, Structural)]
pub enum VMState {
    Uninitialized,
    Active,
    Waiting(VMInputRequestType),
    Halted,
}

impl Default for VMState {
    fn default() -> (s: VMState)
        ensures
            s == VMState::Uninitialized,
    {
        VMState::Uninitialized
    }
}

/// How far one execution goes: to the end (or a breakpoint), to the next
/// instruction, or one microinstruction.
#[derive(Debug, Clone, Copy, PartialEq, Eq, Structural)]
pub enum VMExecutionType {
    Run,
    Macroinstruction,
    Microinstruction,
}

/// The breakpoints of an execution (micro addresses and instruction addresses)
/// and the most microinstructions it may execute.
#[derive(Debug)]
pub struct VMExecutionInfo {
    pub breaks_mic: HashSet<usize>,
    pub breaks_mac: HashSet<usize>,
    pub max_steps: usize,
}

/// The machine after an execution: micro addresses, instruction addresses, what
/// changed, its state and its registers.
#[derive(Debug)]
pub struct VMResponse {
    pub mpc: usize,
    pub prev_mpc: usize,
    pub pc: usize,
    pub prev_pc: usize,
    pub events: EventHandler,
    pub state: VMState,
    pub registers: DataRegisters,
}

/// Why an input was refused.
#[derive(Debug, Clone, Copy, PartialEq, Eq, Structural)]
pub enum VMInputError {
    InvalidNumber(isize, isize, isize),
    WrongType,
    Unexpected,
}

/// Why assembling or executing failed.
#[derive(Debug)]
pub enum VMError {
    ASMParsingError(Box<ASMParsingError>),
    MALParsingError(Box<MALParsingError>),
    MarChanged,
    MbrChanged,
    InstructionWrite(u16),
    InstructionSegmentOverflow(usize),
    DataSegmentOverflow(usize),
    MicroMemOverflow(usize),
}

/// The smallest number a read integer may be.
pub const MIN_INT: isize = -32768;

/// The largest number a read integer may be.
pub const MAX_INT: isize = 65535;

/// The characters of the string stored from address `i` of `cells` up to (not
/// including) a zero word or the end of memory, each word taken as a byte.
pub open spec fn string_at(cells: Seq<u16>, i: int) -> Seq<char>
    decreases cells.len() - i,
{
    if i < 0 || i >= cells.len() || cells[i] == 0 {
        Seq::empty()
    } else {
        seq![((cells[i] as u8) as char)] + string_at(cells, i + 1)
    }
}

/// What the system call `code` prints, with `a` in register A, memory `cells`,
/// and the halt message when `info_print` is set.
pub open spec fn syscall_output(code: u16, a: u16, cells: Seq<u16>, info_print: bool) -> Seq<char> {
    if code == 1 {
        signed_decimal((a as i16) as int)
    } else if code == 2 {
        seq![((a as u8) as char)]
    } else if code == 3 {
        string_at(cells, a as int)
    } else if code == 4 {
        hex4(a)
    } else if code == 5 {
        bits16(a)
    } else if code == 6 {
        decimal(a as nat)
    } else if code == 10 && info_print {
        halt_message()
    } else {
        Seq::empty()
    }
}

/// The state after the system call `code` from `state`.
pub open spec fn syscall_state(code: u16, state: VMState) -> VMState {
    if code == 7 {
        VMState::Waiting(VMInputRequestType::Int)
    } else if code == 8 {
        VMState::Waiting(VMInputRequestType::Char)
    } else if code == 9 {
        VMState::Waiting(VMInputRequestType::String)
    } else if code == 10 {
        VMState::Halted
    } else {
        state
    }
}

/// What is printed when the program halts.
pub open spec fn halt_message() -> Seq<char> {
    "\n\n----- programa encerrado (0) -----\n\n"@
}

proof fn lemma_decimal_reads_back(n: nat)
    ensures
        decimal(n).len() > 0,
        forall|i: int| 0 <= i < decimal(n).len() ==> input::is_digit(#[trigger] decimal(n)[i]),
        input::digits_value(decimal(n)) == n,
    decreases n,
{
    let c = format::digit_char(n % 10);
    assert(c as u32 == 48 + n % 10);
    if n < 10 {
        assert(decimal(n) =~= seq![c]);
        assert(decimal(n).drop_last() =~= Seq::<char>::empty());
        assert(input::digits_value(seq![c]) == input::digits_value(Seq::<char>::empty()) * 10 + (c as u32 - 48));
    } else {
        lemma_decimal_reads_back(n / 10);
        let h = decimal(n / 10);
        assert(decimal(n) == h.push(c));
        assert(h.push(c).drop_last() =~= h);
        assert(input::digits_value(h.push(c)) == input::digits_value(h) * 10 + (c as u32 - 48));
        assert(n == (n / 10) * 10 + n % 10);
        assert forall|i: int| 0 <= i < h.push(c).len() implies input::is_digit(#[trigger] h.push(c)[i]) by {
            if i < h.len() {
                assert(h.push(c)[i] == h[i]);
            }
        }
    }
}

/// System call 6 prints register A as an unsigned decimal number: only
/// digits, no sign, and those digits read back as A, from 0 to 65535.
pub proof fn lemma_print_unsigned_reads_back(a: u16, cells: Seq<u16>, info_print: bool)
    ensures
        ({
            let out = syscall_output(6, a, cells, info_print);
            &&& out.len() > 0
            &&& forall|i: int| 0 <= i < out.len() ==> input::is_digit(#[trigger] out[i])
            &&& input::digits_value(out) == a as int
            &&& input::isize_text(out) == Some(a as int)
        }),
{
    let out = syscall_output(6, a, cells, info_print);
    lemma_decimal_reads_back(a as nat);
    assert(out.len() > 0 && out[0] != '+' && out[0] != '-') by {
        assert(input::is_digit(out[0]));
    }
}

/// System call 1 prints register A as a signed 16-bit decimal number, which
/// reads back as that number: a minus sign before the digits exactly when A is
/// 32768 or more.
pub proof fn lemma_print_signed_reads_back(a: u16, cells: Seq<u16>, info_print: bool)
    ensures
        ({
            let out = syscall_output(1, a, cells, info_print);
            &&& input::isize_text(out) == Some(if a < 0x8000 { a as int } else { a as int - 65536 })
            &&& (out[0] == '-' <==> a >= 0x8000)
        }),
{
    let out = syscall_output(1, a, cells, info_print);
    let v = (a as i16) as int;
    assert(a < 0x8000u16 ==> (a as i16) as i32 == a as i32) by (bit_vector);
    assert(a >= 0x8000u16 ==> (a as i16) as i32 == (a as i32) - 65536i32) by (bit_vector);
    if v < 0 {
        let m = (-v) as nat;
        lemma_decimal_reads_back(m);
        assert(out == seq!['-'] + decimal(m));
        assert(out.drop_first() =~= decimal(m));
    } else {
        lemma_decimal_reads_back(v as nat);
        assert(input::is_digit(out[0]));
    }
}

proof fn lemma_bits16_prefix(v: u16, k: int)
    requires
        0 <= k <= 16,
    ensures
        binary_value(bits16(v).take(k)) == (v >> ((16 - k) as u16)) as int,
    decreases k,
{
    if k == 0 {
        assert(bits16(v).take(0) =~= Seq::<char>::empty());
        assert(v >> 16u16 == 0u16) by (bit_vector);
    } else {
        lemma_bits16_prefix(v, k - 1);
        let t = bits16(v).take(k);
        assert(t.drop_last() =~= bits16(v).take(k - 1));
        let j: u16 = (16 - k) as u16;
        assert(j < 16);
        assert(t.last() == bits16(v)[k - 1]);
        assert(bits16(v)[k - 1] == (if (v >> j) & 1u16 == 1u16 { '1' } else { '0' }));
        assert(j < 16 ==> (v >> ((j + 1) as u16)) * 2 + ((v >> j) & 1u16) == v >> j) by (bit_vector);
        assert(((v >> j) & 1u16) == 1u16 || ((v >> j) & 1u16) == 0u16) by (bit_vector);
    }
}

proof fn lemma_hex4_prefix(v: u16, k: int)
    requires
        0 <= k <= 4,
    ensures
        hex_value(hex4(v).take(k)) == (v >> ((16 - 4 * k) as u16)) as int,
        forall|i: int| 0 <= i < k ==> is_hex_digit(#[trigger] hex4(v)[i]),
    decreases k,
{
    if k == 0 {
        assert(hex4(v).take(0) =~= Seq::<char>::empty());
        assert(v >> 16u16 == 0u16) by (bit_vector);
    } else {
        lemma_hex4_prefix(v, k - 1);
        let t = hex4(v).take(k);
        assert(t.drop_last() =~= hex4(v).take(k - 1));
        let j: u16 = (16 - 4 * k) as u16;
        let nib: u16 = (v >> j) & 0xFu16;
        assert(j <= 12);
        assert(hex4(v)[k - 1] == format::digit_char(nib as nat));
        assert(nib < 16) by (bit_vector)
            requires
                nib == (v >> j) & 0xFu16,
        ;
        assert(j <= 12 ==> (v >> ((j + 4) as u16)) * 16 + ((v >> j) & 0xFu16) == v >> j) by (bit_vector);
        let c = format::digit_char(nib as nat);
        if nib < 10 {
            assert(c as u32 == 48 + nib);
        } else {
            assert(c as u32 == 65 + nib - 10);
        }
        assert(is_hex_digit(c) && hex_digit_value(c) == nib);
    }
}

/// System calls 4 and 5 print register A in hexadecimal (four digits) and in
/// binary (sixteen digits), most significant first; the digits read back as A.
pub proof fn lemma_print_hex_binary_reads_back(a: u16, cells: Seq<u16>, info_print: bool)
    ensures
        ({
            let h = syscall_output(4, a, cells, info_print);
            &&& h.len() == 4
            &&& forall|i: int| 0 <= i < 4 ==> is_hex_digit(#[trigger] h[i])
            &&& hex_value(h) == a as int
        }),
        ({
            let b = syscall_output(5, a, cells, info_print);
            &&& b.len() == 16
            &&& forall|i: int| 0 <= i < 16 ==> (#[trigger] b[i] == '0' || b[i] == '1')
            &&& binary_value(b) == a as int
        }),
{
    lemma_hex4_prefix(a, 4);
    assert(hex4(a).take(4) =~= hex4(a));
    assert(a >> 0u16 == a) by (bit_vector);
    lemma_bits16_prefix(a, 16);
    assert(bits16(a).take(16) =~= bits16(a));
}

/// System call 2 prints one character, whose code is the low 8 bits of A.
pub proof fn lemma_print_char(a: u16, cells: Seq<u16>, info_print: bool)
    ensures
        ({
            let c = syscall_output(2, a, cells, info_print);
            c.len() == 1 && c[0] as u32 == a % 256
        }),
{
    assert(a as u8 == a % 256) by (bit_vector);
}

/// What is printed when the program is restarted.
pub open spec fn restart_message() -> Seq<char> {
    "\n\n----- programa reiniciado -----\n\n"@
}

/// The memory words after loading instructions `ins` at the start of memory
/// and data `data` at the data segment, over zeros.
pub open spec fn loaded_cells(ins: Seq<u16>, data: Seq<u16>) -> Seq<u16> {
    Seq::new(
        MEMORY_SIZE as nat,
        |k: int|
            if DATA_SEGMENT_START <= k < DATA_SEGMENT_START + data.len() {
                data[k - DATA_SEGMENT_START]
            } else if k < ins.len() {
                ins[k]
            } else {
                0u16
            },
    )
}

/// The memory words after reading the bytes `bytes` of a string into memory
/// at `addr` with room for `max` words: at most `max - 1` bytes, one per word,
/// then a zero.
pub open spec fn string_input_cells(cells: Seq<u16>, addr: int, bytes: Seq<u8>, max: int) -> Seq<u16> {
    let written = if bytes.len() < max - 1 {
        bytes.len() as int
    } else {
        max - 1
    };
    Seq::new(
        cells.len(),
        |k: int|
            if addr <= k < addr + written {
                bytes[k - addr] as u16
            } else if k == addr + written {
                0u16
            } else {
                cells[k]
            },
    )
}

/// The value of AC after reading a string of `len` bytes with room for `max`
/// words: the words written, the zero included.
pub open spec fn string_input_count(len: int, max: int) -> int {
    if len + 1 < max {
        len + 1
    } else {
        max
    }
}

/// The machine `post` is the machine `pre` restarted: instruction addresses at
/// 0, no events, the initial instructions and data of `post` loaded into a
/// zeroed memory (memory kept when there are none), registers at their reset values, micro
/// address 0, and the restart announced when `pre` had a microprogram and
/// announces.
pub open spec fn restarted(pre: VM, post: VM) -> bool {
    &&& post.pc_of() == 0
    &&& post.prev_pc_of() == 0
    &&& post.events_of().is_clear()
    &&& match post.initial() {
        Some((ins, data)) => post.cells() == loaded_cells(ins, data),
        None => post.processor().memory == pre.processor().memory,
    }
    &&& post.bank() == default_registers()
    &&& post.processor().datapath.mar_value() == 0
    &&& post.processor().datapath.mbr_value() == 0
    &&& post.processor().control_unit.mpc == 0
    &&& post.output() == (if pre.machine_state() != VMState::Uninitialized && pre.info_print_on() {
        pre.output() + restart_message()
    } else {
        pre.output()
    })
    &&& post.info_print_on() == pre.info_print_on()
    &&& post.write_check_on() == pre.write_check_on()
}

/// Restarting a restarted machine (with the same initial memory) gives the
/// same memory, registers, micro address and instruction addresses: only the
/// announcement of the restart is added again.
pub proof fn lemma_restart_twice(a: VM, b: VM, c: VM)
    requires
        restarted(a, b),
        restarted(b, c),
        c.initial() == b.initial(),
    ensures
        c.cells() == b.cells(),
        c.bank() == b.bank(),
        c.processor().datapath.mar_value() == b.processor().datapath.mar_value(),
        c.processor().datapath.mbr_value() == b.processor().datapath.mbr_value(),
        c.processor().control_unit.mpc == b.processor().control_unit.mpc,
        c.pc_of() == b.pc_of(),
        c.prev_pc_of() == b.prev_pc_of(),
        c.events_of().is_clear(),
{
}

/// A MIC-1 machine that runs a microprogram over an assembled program, with
/// system calls for printing and reading.
#[derive(Debug)]
pub struct VM {
    state: VMState,
    execution_type: Option<VMExecutionType>,
    initial_memory: Option<(Vec<u16>, Vec<u16>)>,
    cpu: Cpu,
    instructions: Vec<Instruction>,
    microinstructions: Vec<Microinstruction>,
    events: EventHandler,
    pc: usize,
    prev_pc: usize,
    stdout: String,
    info_print: bool,
    err_on_instruction_write: bool,
}

impl VM {
    /// The processor is well formed.
    pub closed spec fn wf(&self) -> bool {
        &&& self.cpu.wf()
        &&& self.microinstructions@.len() == self.cpu.control_unit.micro_mem.len
    }

    /// For each microinstruction of the microprogram, whether it makes a system
    /// call (a flag kept beside the micro-memory words).
    pub closed spec fn syscall_flags(&self) -> Seq<bool> {
        Seq::new(self.microinstructions@.len(), |i: int| self.microinstructions@[i].mir.syscall)
    }

    /// Where the machine is.
    pub closed spec fn machine_state(&self) -> VMState {
        self.state
    }

    /// Everything printed so far.
    pub closed spec fn output(&self) -> Seq<char> {
        self.stdout@
    }

    /// The processor.
    pub closed spec fn processor(&self) -> Cpu {
        self.cpu
    }

    /// The address of the instruction being executed.
    pub closed spec fn pc_of(&self) -> usize {
        self.pc
    }

    /// The address of the instruction executed before.
    pub closed spec fn prev_pc_of(&self) -> usize {
        self.prev_pc
    }

    /// What the current execution changed.
    pub closed spec fn events_of(&self) -> EventHandler {
        self.events
    }

    /// Whether halts and restarts are announced in the output.
    pub closed spec fn info_print_on(&self) -> bool {
        self.info_print
    }

    /// Whether a write to the instruction segment stops the execution.
    pub closed spec fn write_check_on(&self) -> bool {
        self.err_on_instruction_write
    }

    /// The instructions and data that a reset loads into memory.
    pub closed spec fn initial(&self) -> Option<(Seq<u16>, Seq<u16>)> {
        match self.initial_memory {
            Some((i, d)) => Some((i@, d@)),
            None => None,
        }
    }

    /// The memory words.
    pub open spec fn cells(&self) -> Seq<u16> {
        self.processor().memory.model().cells
    }

    /// The register bank.
    pub open spec fn bank(&self) -> Seq<u16> {
        self.processor().datapath.bank()
    }

    /// A machine without a microprogram, with zeroed memory and registers at
    /// their reset values; halts and restarts are announced.
    pub fn new() -> (vm: VM)
        ensures
            vm.wf(),
            vm.machine_state() == VMState::Uninitialized,
            vm.output() == Seq::<char>::empty(),
            vm.info_print_on(),
            !vm.write_check_on(),
            vm.pc_of() == 0,
            vm.prev_pc_of() == 0,
            vm.initial() is None,
            vm.bank() == default_registers(),
            vm.cells() == Seq::new(MEMORY_SIZE as nat, |i: int| 0u16),
            vm.processor().control_unit.micro_mem.len == 0,
    {
        let memory = Memory::new();
        let micro_mem = MicroMem::new(Vec::new());
        VM {
            state: VMState::Uninitialized,
            execution_type: None,
            initial_memory: None,
            cpu: Cpu::new(memory, micro_mem),
            instructions: Vec::new(),
            microinstructions: Vec::new(),
            events: EventHandler::new(),
            pc: 0,
            prev_pc: 0,
            stdout: String::new(),
            info_print: true,
            err_on_instruction_write: false,
        }
    }

    /// Where the machine is.
    pub fn state(&self) -> (r: &VMState)
        ensures
            *r == self.machine_state(),
    {
        &self.state
    }

    /// Everything printed so far.
    pub fn stdout(&self) -> (r: &String)
        ensures
            r@ == self.output(),
    {
        &self.stdout
    }

    /// Sets whether a write to the instruction segment stops the execution.
    pub fn set_err_on_instruction_write(&mut self, err_on_instruction_write: bool)
        requires
            old(self).wf(),
        ensures
            final(self).wf(),
            final(self).syscall_flags() == old(self).syscall_flags(),
            final(self).write_check_on() == err_on_instruction_write,
            final(self).machine_state() == old(self).machine_state(),
            final(self).output() == old(self).output(),
            final(self).processor() == old(self).processor(),
            final(self).info_print_on() == old(self).info_print_on(),
            final(self).initial() == old(self).initial(),
            final(self).pc_of() == old(self).pc_of(),
    {
        self.err_on_instruction_write = err_on_instruction_write;
    }

    /// Sets whether halts and restarts are announced in the output.
    pub fn set_info_print(&mut self, info_print: bool)
        requires
            old(self).wf(),
        ensures
            final(self).wf(),
            final(self).syscall_flags() == old(self).syscall_flags(),
            final(self).info_print_on() == info_print,
            final(self).machine_state() == old(self).machine_state(),
            final(self).output() == old(self).output(),
            final(self).processor() == old(self).processor(),
            final(self).write_check_on() == old(self).write_check_on(),
            final(self).initial() == old(self).initial(),
            final(self).pc_of() == old(self).pc_of(),
    {
        self.info_print = info_print;
    }

    fn print_to_stdout(&mut self, s: &str)
        requires
            old(self).wf(),
        ensures
            final(self).wf(),
            final(self).syscall_flags() == old(self).syscall_flags(),
            final(self).output() == old(self).output() + s@,
            final(self).machine_state() == old(self).machine_state(),
            final(self).processor() == old(self).processor(),
            final(self).info_print_on() == old(self).info_print_on(),
            final(self).write_check_on() == old(self).write_check_on(),
            final(self).initial() == old(self).initial(),
            final(self).pc_of() == old(self).pc_of(),
            final(self).prev_pc_of() == old(self).prev_pc_of(),
            final(self).events_of() == old(self).events_of(),
    {
        push_str(&mut self.stdout, s);
    }

    /// Sets the instructions and data that a reset loads into memory.
    pub fn set_initial_memory(&mut self, initial_instructions: Vec<u16>, initial_data: Vec<u16>)
        requires
            old(self).wf(),
        ensures
            final(self).wf(),
            final(self).syscall_flags() == old(self).syscall_flags(),
            final(self).initial() == Some((initial_instructions@, initial_data@)),
            final(self).machine_state() == old(self).machine_state(),
            final(self).output() == old(self).output(),
            final(self).processor() == old(self).processor(),
            final(self).info_print_on() == old(self).info_print_on(),
            final(self).write_check_on() == old(self).write_check_on(),
            final(self).pc_of() == old(self).pc_of(),
    {
        self.initial_memory = Some((initial_instructions, initial_data));
    }

    /// Puts the initial instructions and data back into a zeroed memory (when
    /// they were set).
    pub fn reset_memory(&mut self)
        requires
            old(self).wf(),
        ensures
            final(self).wf(),
            final(self).syscall_flags() == old(self).syscall_flags(),
            match old(self).initial() {
                Some((ins, data)) => final(self).cells() == loaded_cells(ins, data),
                None => final(self).processor() == old(self).processor(),
            },
            final(self).bank() == old(self).bank(),
            final(self).processor().control_unit == old(self).processor().control_unit,
            final(self).processor().datapath == old(self).processor().datapath,
            final(self).machine_state() == old(self).machine_state(),
            final(self).output() == old(self).output(),
            final(self).info_print_on() == old(self).info_print_on(),
            final(self).write_check_on() == old(self).write_check_on(),
            final(self).initial() == old(self).initial(),
            final(self).pc_of() == old(self).pc_of(),
            final(self).prev_pc_of() == old(self).prev_pc_of(),
            final(self).events_of() == old(self).events_of(),
    {
        match &self.initial_memory {
            Some((ins, data)) => {
                self.cpu.memory.clear();
                self.cpu.memory.load(TEXT_SEGMENT_START, ins.as_slice());
                self.cpu.memory.load(DATA_SEGMENT_START, data.as_slice());
                proof {
                    assert(self.cpu.memory.model().cells =~= loaded_cells(ins@, data@));
                }
            },
            None => {},
        }
    }

    /// A copy of the memory words.
    pub fn memory(&self) -> (r: Vec<u16>)
        requires
            self.wf(),
        ensures
            r@ == self.cells(),
    {
        self.cpu.memory.get_ref().clone()
    }

    /// MAR, MBR and the register bank.
    pub fn registers(&self) -> (r: DataRegisters)
        ensures
            r.0 == self.processor().datapath.mar_value(),
            r.1 == self.processor().datapath.mbr_value(),
            r.2@ == self.bank(),
    {
        self.cpu.get_registers()
    }

    /// Restarts the program: instruction addresses at 0, no events, memory
    /// reloaded, registers and micro address reset (`restarted`); a halted
    /// machine becomes active again.
    pub fn reset(&mut self)
        requires
            old(self).wf(),
        ensures
            final(self).wf(),
            restarted(*old(self), *final(self)),
            final(self).initial() == old(self).initial(),
            final(self).syscall_flags() == old(self).syscall_flags(),
            final(self).processor().control_unit.micro_mem == old(self).processor().control_unit.micro_mem,
            final(self).machine_state() == (if old(self).machine_state() == VMState::Halted {
                VMState::Active
            } else {
                old(self).machine_state()
            }),
    {
        self.pc = 0;
        self.prev_pc = 0;
        self.events.clear();
        self.reset_memory();
        self.cpu.reset();
        if self.state != VMState::Uninitialized {
            if self.state == VMState::Halted {
                self.state = VMState::Active;
            }
            if self.info_print {
                self.print_to_stdout("\n\n----- programa reiniciado -----\n\n");
            }
        }
    }
}

impl VM {
    /// The text of the string at `start` of memory (see `string_at`).
    fn read_string(&self, start: u16) -> (r: String)
        requires
            self.wf(),
        ensures
            r@ == string_at(self.cells(), start as int),
    {
        let m = self.cpu.memory.get_ref();
        let mut out = String::new();
        let mut i: usize = start as usize;
        while i < m.len() && m[i] != 0
            invariant
                m@ == self.cells(),
                start <= i,
                i <= m@.len() || i == start,
                out@ + string_at(m@, i as int) == string_at(m@, start as int),
            decreases m.len() - i,
        {
            let c = (#[verifier::truncate] (m[i] as u8)) as char;
            let ghost before = out@;
            push_char(&mut out, c);
            proof {
                assert(string_at(m@, i as int) == seq![c] + string_at(m@, i + 1));
                assert(before + (seq![c] + string_at(m@, i + 1)) =~= out@ + string_at(m@, i + 1));
            }
            i = i + 1;
        }
        proof {
            assert(out@ + string_at(m@, i as int) =~= out@);
        }
        out
    }

    /// Runs the system call selected by AC: prints (a number from A in decimal,
    /// as a character, in hexadecimal, in binary or unsigned, or the string at A),
    /// waits for an input, or halts. Returns the kind of input waited for.
    fn execute_syscall(&mut self) -> (r: Option<VMInputRequestType>)
        requires
            old(self).wf(),
        ensures
            final(self).wf(),
            final(self).syscall_flags() == old(self).syscall_flags(),
            ({
                let ac = old(self).bank()[1];
                let a = old(self).bank()[10];
                &&& final(self).output() == old(self).output() + syscall_output(
                    ac,
                    a,
                    old(self).cells(),
                    old(self).info_print_on(),
                )
                &&& final(self).machine_state() == syscall_state(ac, old(self).machine_state())
                &&& r == (if ac == 7 {
                    Some(VMInputRequestType::Int)
                } else if ac == 8 {
                    Some(VMInputRequestType::Char)
                } else if ac == 9 {
                    Some(VMInputRequestType::String)
                } else {
                    None
                })
            }),
            final(self).processor() == old(self).processor(),
            final(self).info_print_on() == old(self).info_print_on(),
            final(self).write_check_on() == old(self).write_check_on(),
            final(self).initial() == old(self).initial(),
            final(self).pc_of() == old(self).pc_of(),
            final(self).prev_pc_of() == old(self).prev_pc_of(),
            final(self).events_of() == old(self).events_of(),
    {
        let registers = self.cpu.get_registers();
        let ac = registers.ac();
        let a = registers.a();
        if ac == Syscalls::PRINT_INT {
            let s = signed_decimal_string(a as i16);
            self.print_to_stdout(s.as_str());
            None
        } else if ac == Syscalls::PRINT_CHAR {
            let mut s = String::new();
            push_char(&mut s, (#[verifier::truncate] (a as u8)) as char);
            proof {
                assert(s@ =~= seq![((a as u8) as char)]);
            }
            self.print_to_stdout(s.as_str());
            None
        } else if ac == Syscalls::PRINT_STRING {
            let s = self.read_string(a);
            self.print_to_stdout(s.as_str());
            None
        } else if ac == Syscalls::PRINT_INT_HEX {
            let s = hex4_string(a);
            self.print_to_stdout(s.as_str());
            None
        } else if ac == Syscalls::PRINT_INT_BINARY {
            let s = binary16(a);
            self.print_to_stdout(s.as_str());
            None
        } else if ac == Syscalls::PRINT_INT_UNSIGNED {
            let s = decimal_string(a);
            self.print_to_stdout(s.as_str());
            None
        } else if ac == Syscalls::READ_INT {
            self.state = VMState::Waiting(VMInputRequestType::Int);
            Some(VMInputRequestType::Int)
        } else if ac == Syscalls::READ_CHAR {
            self.state = VMState::Waiting(VMInputRequestType::Char);
            Some(VMInputRequestType::Char)
        } else if ac == Syscalls::READ_STRING {
            self.state = VMState::Waiting(VMInputRequestType::String);
            Some(VMInputRequestType::String)
        } else if ac == Syscalls::HALT {
            if self.info_print {
                self.print_to_stdout("\n\n----- programa encerrado (0) -----\n\n");
            } else {
                proof {
                    assert(old(self).output() + Seq::<char>::empty() =~= old(self).output());
                }
            }
            self.state = VMState::Halted;
            None
        } else {
            proof {
                assert(old(self).output() + Seq::<char>::empty() =~= old(self).output());
            }
            None
        }
    }
}

impl VM {
    fn store(&mut self, addr: usize, value: u16)
        requires
            old(self).wf(),
        ensures
            final(self).wf(),
            final(self).syscall_flags() == old(self).syscall_flags(),
            final(self).cells() == (if addr < MEMORY_SIZE {
                old(self).cells().update(addr as int, value)
            } else {
                old(self).cells()
            }),
            final(self).bank() == old(self).bank(),
            final(self).processor().datapath == old(self).processor().datapath,
            final(self).processor().control_unit == old(self).processor().control_unit,
            final(self).machine_state() == old(self).machine_state(),
            final(self).output() == old(self).output(),
            final(self).info_print_on() == old(self).info_print_on(),
            final(self).write_check_on() == old(self).write_check_on(),
            final(self).initial() == old(self).initial(),
            final(self).pc_of() == old(self).pc_of(),
            final(self).prev_pc_of() == old(self).prev_pc_of(),
    {
        self.cpu.memory.set_addr(addr, value, &mut self.events);
    }

    fn set_ac(&mut self, value: u16)
        requires
            old(self).wf(),
        ensures
            final(self).wf(),
            final(self).syscall_flags() == old(self).syscall_flags(),
            final(self).bank() == old(self).bank().update(1, value),
            final(self).cells() == old(self).cells(),
            final(self).processor().control_unit == old(self).processor().control_unit,
            final(self).machine_state() == old(self).machine_state(),
            final(self).output() == old(self).output(),
            final(self).info_print_on() == old(self).info_print_on(),
            final(self).write_check_on() == old(self).write_check_on(),
            final(self).initial() == old(self).initial(),
            final(self).pc_of() == old(self).pc_of(),
            final(self).prev_pc_of() == old(self).prev_pc_of(),
    {
        self.cpu.set_register(1, value);
    }

    /// Gives a waiting machine its input: a number (from `MIN_INT` to
    /// `MAX_INT`, stored in AC), a character (its low byte in AC), or a string
    /// (its bytes stored from the address in A, at most B - 1 of them, then a
    /// zero; AC holds the words written). The machine is then active again.
    pub fn handle_input(&mut self, input: VMInputResponse) -> (r: Result<(), VMInputError>)
        requires
            old(self).wf(),
            !(old(self).machine_state() == VMState::Waiting(VMInputRequestType::String)
                && input is String && old(self).bank()[11] == 0),
        ensures
            final(self).wf(),
            final(self).syscall_flags() == old(self).syscall_flags(),
            match (old(self).machine_state(), input) {
                (VMState::Waiting(VMInputRequestType::Int), VMInputResponse::Int(n)) => if MIN_INT <= n
                    <= MAX_INT {
                    r is Ok && final(self).bank() == old(self).bank().update(1, n as u16) && final(self).cells() == old(self).cells() && final(self).machine_state() == VMState::Active
                } else {
                    r == Err::<(), VMInputError>(VMInputError::InvalidNumber(n, MIN_INT, MAX_INT))
                        && final(self).bank() == old(self).bank() && final(self).cells() == old(self).cells() && final(self).machine_state() == old(self).machine_state()
                },
                (VMState::Waiting(VMInputRequestType::Char), VMInputResponse::Char(c)) => r is Ok
                    && final(self).bank() == old(self).bank().update(1, (((c as u32) as u8) as u16))
                    && final(self).cells() == old(self).cells() && final(self).machine_state()
                    == VMState::Active,
                (VMState::Waiting(VMInputRequestType::String), VMInputResponse::String(t)) => {
                    let bytes = vstd::utf8::encode_utf8(t@);
                    let max = old(self).bank()[11] as int;
                    &&& r is Ok
                    &&& final(self).cells() == string_input_cells(
                        old(self).cells(),
                        old(self).bank()[10] as int,
                        bytes,
                        max,
                    )
                    &&& final(self).bank() == old(self).bank().update(
                        1,
                        string_input_count(bytes.len() as int, max) as u16,
                    )
                    &&& final(self).machine_state() == VMState::Active
                },
                (VMState::Waiting(_), _) => r == Err::<(), VMInputError>(VMInputError::WrongType)
                    && final(self).bank() == old(self).bank() && final(self).cells() == old(self).cells() && final(self).machine_state() == old(self).machine_state(),
                _ => r == Err::<(), VMInputError>(VMInputError::Unexpected) && final(self).bank()
                    == old(self).bank() && final(self).cells() == old(self).cells() && final(self).machine_state() == old(self).machine_state(),
            },
            final(self).output() == old(self).output(),
            final(self).processor().control_unit == old(self).processor().control_unit,
            final(self).info_print_on() == old(self).info_print_on(),
            final(self).write_check_on() == old(self).write_check_on(),
            final(self).initial() == old(self).initial(),
            final(self).pc_of() == old(self).pc_of(),
            final(self).prev_pc_of() == old(self).prev_pc_of(),
    {
        let request = match self.state {
            VMState::Waiting(t) => t,
            _ => {
                return Err(VMInputError::Unexpected);
            },
        };
        match (input, request) {
            (VMInputResponse::Int(n), VMInputRequestType::Int) => {
                if MIN_INT <= n && n <= MAX_INT {
                    self.set_ac(n as u16);
                } else {
                    return Err(VMInputError::InvalidNumber(n, MIN_INT, MAX_INT));
                }
            },
            (VMInputResponse::Char(c), VMInputRequestType::Char) => {
                self.set_ac(((c as u32) as u8) as u16);
            },
            (VMInputResponse::String(t), VMInputRequestType::String) => {
                let registers = self.cpu.get_registers();
                let addr = registers.a() as usize;
                let max_size = registers.b() as usize;
                let bytes = t.as_str().as_bytes();
                let ghost cells0 = self.cells();
                let ghost bank0 = self.bank();
                let mut size: usize = 0;
                let mut i: usize = 0;
                while i < bytes.len()
                    invariant_except_break
                        self.wf(),
                        size == i,
                        i <= bytes@.len(),
                        i < max_size,
                        1 <= max_size <= 65535,
                        addr <= 65535,
                        self.bank() == bank0,
                        self.machine_state() == old(self).machine_state(),
                        self.output() == old(self).output(),
                        self.processor().control_unit == old(self).processor().control_unit,
                        self.info_print_on() == old(self).info_print_on(),
                        self.write_check_on() == old(self).write_check_on(),
                        self.initial() == old(self).initial(),
                        self.pc_of() == old(self).pc_of(),
                        self.prev_pc_of() == old(self).prev_pc_of(),
                        self.syscall_flags() == old(self).syscall_flags(),
                        self.cells() == Seq::new(
                            cells0.len(),
                            |k: int|
                                if addr <= k < addr + i {
                                    bytes@[k - addr] as u16
                                } else {
                                    cells0[k]
                                },
                        ),
                    ensures
                        self.wf(),
                        1 <= max_size <= 65535,
                        addr <= 65535,
                        size == (if bytes@.len() < max_size { bytes@.len() as int } else { max_size as int }),
                        self.bank() == bank0,
                        self.machine_state() == old(self).machine_state(),
                        self.output() == old(self).output(),
                        self.processor().control_unit == old(self).processor().control_unit,
                        self.info_print_on() == old(self).info_print_on(),
                        self.write_check_on() == old(self).write_check_on(),
                        self.initial() == old(self).initial(),
                        self.pc_of() == old(self).pc_of(),
                        self.prev_pc_of() == old(self).prev_pc_of(),
                        self.syscall_flags() == old(self).syscall_flags(),
                        self.cells() == Seq::new(
                            cells0.len(),
                            |k: int|
                                if addr <= k < addr + (if bytes@.len() < max_size {
                                    bytes@.len() as int
                                } else {
                                    max_size - 1
                                }) {
                                    bytes@[k - addr] as u16
                                } else {
                                    cells0[k]
                                },
                        ),
                    decreases bytes.len() - i,
                {
                    size = size + 1;
                    if size >= max_size {
                        break;
                    }
                    self.store(addr + i, bytes[i] as u16);
                    i = i + 1;
                    proof {
                        assert(self.cells() =~= Seq::new(
                            cells0.len(),
                            |k: int|
                                if addr <= k < addr + i {
                                    bytes@[k - addr] as u16
                                } else {
                                    cells0[k]
                                },
                        ));
                    }
                }
                let last = if size < max_size - 1 {
                    size
                } else {
                    max_size - 1
                };
                self.store(addr + last, 0);
                proof {
                    assert(self.cells() =~= string_input_cells(cells0, addr as int, bytes@, max_size as int));
                }
                let count = if size + 1 < max_size {
                    size + 1
                } else {
                    max_size
                };
                self.set_ac(count as u16);
            },
            (_, _) => {
                return Err(VMInputError::WrongType);
            },
        }
        self.state = VMState::Active;
        Ok(())
    }
}

/// One microinstruction executed by the active machine `pre`, giving
/// `post_vm`, with the micro addresses `mpcs` (new and previous) and the
/// outcome `outcome`: the processor takes one cycle and records its events; a
/// change of MAR or MBR
/// during a memory operation, or (when checked) a write to the instruction
/// segment, is an error; otherwise a `syscall` microinstruction runs the system
/// call of AC, and when an instruction was read, its address becomes the
/// current one.
pub open spec fn one_step(pre: VM, post_vm: VM, mpcs: (usize, usize), outcome: Result<(), VMError>) -> bool {
    step_from(pre, pre.events_of()@, post_vm, mpcs, outcome)
}

/// One microinstruction executed by the active machine `pre` whose events
/// before the step are `base` (see `one_step`).
pub open spec fn step_from(
    pre: VM,
    base: EventsModel,
    post_vm: VM,
    mpcs: (usize, usize),
    outcome: Result<(), VMError>,
) -> bool {
    let ev = post_vm.events_of();
    let post = post_vm.processor();
    &&& pre.processor().steps_to(&post)
    &&& pre.processor().cycle_events(base, ev@)
    &&& post_vm.syscall_flags() == pre.syscall_flags()
    &&& mpcs == (post.control_unit.mpc, pre.processor().control_unit.mpc)
    &&& if ev.mar_conflicting is Some {
        &&& outcome == Err::<(), VMError>(VMError::MarChanged)
        &&& post_vm.output() == pre.output()
        &&& post_vm.machine_state() == pre.machine_state()
        &&& post_vm.pc_of() == pre.pc_of()
    } else if ev.mbr_conflicting is Some {
        &&& outcome == Err::<(), VMError>(VMError::MbrChanged)
        &&& post_vm.output() == pre.output()
        &&& post_vm.machine_state() == pre.machine_state()
        &&& post_vm.pc_of() == pre.pc_of()
    } else if pre.write_check_on() && exists|a: u16| ev.instruction_writes@.contains(a) {
        &&& outcome matches Err(VMError::InstructionWrite(a)) && ev.instruction_writes@.contains(a)
        &&& post_vm.output() == pre.output()
        &&& post_vm.machine_state() == pre.machine_state()
        &&& post_vm.pc_of() == pre.pc_of()
    } else {
        &&& outcome is Ok
        &&& if pre.syscall_flags()[pre.processor().control_unit.mpc as int] {
            &&& post_vm.output() == pre.output() + syscall_output(
                post.datapath.bank()[1],
                post.datapath.bank()[10],
                post.memory.model().cells,
                pre.info_print_on(),
            )
            &&& post_vm.machine_state() == syscall_state(
                post.datapath.bank()[1],
                pre.machine_state(),
            )
        } else {
            &&& post_vm.output() == pre.output()
            &&& post_vm.machine_state() == pre.machine_state()
        }
        &&& if exists|a: u16| ev.instruction_reads@.contains(a) {
            &&& post_vm.prev_pc_of() == pre.pc_of()
            &&& post_vm.pc_of() == post.datapath.bank()[0] as usize
        } else {
            &&& post_vm.prev_pc_of() == pre.prev_pc_of()
            &&& post_vm.pc_of() == pre.pc_of()
        }
    }
}

/// The machine `a` and the machine `b` agree on everything that one
/// microinstruction reads and writes, but the events.
pub open spec fn same_machine(a: VM, b: VM) -> bool {
    &&& a.processor() == b.processor()
    &&& a.output() == b.output()
    &&& a.machine_state() == b.machine_state()
    &&& a.pc_of() == b.pc_of()
    &&& a.prev_pc_of() == b.prev_pc_of()
    &&& a.info_print_on() == b.info_print_on()
    &&& a.write_check_on() == b.write_check_on()
    &&& a.initial() == b.initial()
    &&& a.syscall_flags() == b.syscall_flags()
}

/// An execution that stops stops here: after microinstruction `mpcs` of the
/// machine `v`, an instruction at a breakpoint of `breaks_mac` was read (only
/// when `check_mac`), or the micro address is a breakpoint of `breaks_mic`.
pub open spec fn at_break(v: VM, mpcs: (usize, usize), breaks_mic: Set<usize>, breaks_mac: Set<usize>, check_mac: bool) -> bool {
    ||| check_mac && exists|a: u16| v.events_of().instruction_reads@.contains(a) && breaks_mac.contains(a as usize)
    ||| breaks_mic.contains(mpcs.0)
}

/// Step `i` of `trace` succeeded, left the machine active and reached no
/// breakpoint (nor, for a macroinstruction, read an instruction).
pub open spec fn goes_on(
    trace: Seq<VM>,
    mpcs: Seq<(usize, usize)>,
    i: int,
    info: VMExecutionInfo,
    macro_step: bool,
) -> bool {
    &&& step_from(trace[i], trace[i].events_of()@.without_reads(), trace[i + 1], mpcs[i], Ok(()))
    &&& trace[i + 1].machine_state() == VMState::Active
    &&& !at_break(trace[i + 1], mpcs[i], info.breaks_mic@, info.breaks_mac@, !macro_step)
    &&& (macro_step ==> trace[i + 1].events_of().instruction_reads@.is_empty())
}

/// `trace` is a run from the machine `start` of the microinstructions with
/// addresses `mpcs`, each one step from the machine before it; all but the last
/// succeeded without leaving the active state or reaching a breakpoint (or, for
/// a macroinstruction, reading an instruction), and the last ended with
/// `last`.
pub open spec fn is_run(
    start: VM,
    trace: Seq<VM>,
    mpcs: Seq<(usize, usize)>,
    last: Result<(), VMError>,
    info: VMExecutionInfo,
    macro_step: bool,
) -> bool {
    &&& trace.len() == mpcs.len() + 1
    &&& same_machine(trace[0], start)
    &&& trace[0].events_of().is_clear()
    &&& mpcs.len() <= info.max_steps
    &&& forall|i: int| 0 <= i < mpcs.len() - 1 ==> #[trigger] goes_on(trace, mpcs, i, info, macro_step)
    &&& mpcs.len() > 0 ==> step_from(
        trace[mpcs.len() - 1],
        trace[mpcs.len() - 1].events_of()@.without_reads(),
        trace[mpcs.len() as int],
        mpcs[mpcs.len() - 1],
        last,
    )
    &&& mpcs.len() == 0 ==> last is Ok
}

/// A finished run stopped for a reason: an error, the machine left the active
/// state, a breakpoint (or, for a macroinstruction, an instruction read), or
/// the most steps were taken.
pub open spec fn run_stopped(
    trace: Seq<VM>,
    mpcs: Seq<(usize, usize)>,
    last: Result<(), VMError>,
    info: VMExecutionInfo,
    macro_step: bool,
) -> bool {
    ||| last is Err
    ||| trace.last().machine_state() != VMState::Active
    ||| mpcs.len() == info.max_steps
    ||| mpcs.len() > 0 && at_break(trace.last(), mpcs.last(), info.breaks_mic@, info.breaks_mac@, !macro_step)
    ||| macro_step && mpcs.len() > 0 && !trace.last().events_of().instruction_reads@.is_empty()
}

/// `trace` with the micro addresses `mpcs` is a finished run from `start`
/// that returned `r` and left the machine `end`.
pub open spec fn run_result(
    start: VM,
    trace: Seq<VM>,
    mpcs: Seq<(usize, usize)>,
    r: ((usize, usize), Result<(), VMError>),
    info: VMExecutionInfo,
    macro_step: bool,
    end: VM,
) -> bool {
    &&& is_run(start, trace, mpcs, r.1, info, macro_step)
    &&& run_stopped(trace, mpcs, r.1, info, macro_step)
    &&& same_machine(end, trace.last())
    &&& r.0 == (if mpcs.len() > 0 {
        mpcs.last()
    } else {
        (0usize, 0usize)
    })
}

/// A run that ended well, in the active state and at no breakpoint, goes on by
/// one more step.
proof fn lemma_run_extend(
    start: VM,
    trace: Seq<VM>,
    mpcs: Seq<(usize, usize)>,
    info: VMExecutionInfo,
    macro_step: bool,
    next: VM,
    m: (usize, usize),
    last: Result<(), VMError>,
)
    requires
        is_run(start, trace, mpcs, Ok(()), info, macro_step),
        mpcs.len() < info.max_steps,
        mpcs.len() > 0 ==> trace.last().machine_state() == VMState::Active,
        mpcs.len() > 0 ==> !at_break(trace.last(), mpcs.last(), info.breaks_mic@, info.breaks_mac@, !macro_step),
        mpcs.len() > 0 && macro_step ==> trace.last().events_of().instruction_reads@.is_empty(),
        step_from(trace.last(), trace.last().events_of()@.without_reads(), next, m, last),
    ensures
        is_run(start, trace.push(next), mpcs.push(m), last, info, macro_step),
{
    let t2 = trace.push(next);
    let m2 = mpcs.push(m);
    assert(t2[0] == trace[0]);
    assert(t2[m2.len() - 1] == trace.last());
    assert(t2[m2.len() as int] == next);
    assert(m2[m2.len() - 1] == m);
    assert forall|i: int| 0 <= i < m2.len() - 1 implies #[trigger] goes_on(t2, m2, i, info, macro_step) by {
        assert(t2[i] == trace[i]);
        assert(t2[i + 1] == trace[i + 1]);
        assert(m2[i] == mpcs[i]);
        if i < mpcs.len() - 1 {
            assert(goes_on(trace, mpcs, i, info, macro_step));
        } else {
            assert(trace[i + 1] == trace.last());
            assert(mpcs[i] == mpcs.last());
        }
    }
}

/// An address written in the instruction segment, if any.
fn first_instruction_write(events: &EventHandler) -> (r: Option<u16>)
    ensures
        r matches Some(a) ==> events.instruction_writes@.contains(a),
        r is None ==> forall|a: u16| !events.instruction_writes@.contains(a),
{
    broadcast use vstd::std_specs::hash::axiom_spec_hash_keys_iter;
    let ghost keys = vstd::std_specs::hash::spec_hash_keys_iter(&events.instruction_writes).remaining();
    for a in it: events.instruction_writes.iter()
        invariant
            it.seq() == keys,
            it.index() == 0,
    {
        proof {
            assert(keys.unref().to_set().contains(*a));
        }
        return Some(*a);
    }
    proof {
        assert forall|a: u16| !events.instruction_writes@.contains(a) by {
            if events.instruction_writes@.contains(a) {
                assert(keys.unref().to_set().contains(a));
                assert(keys.unref().contains(a));
            }
        }
    }
    None
}

/// Whether an instruction address that was read is a breakpoint.
fn read_hits_break(reads: &HashSet<u16>, breaks: &HashSet<usize>) -> (r: bool)
    ensures
        r == exists|a: u16| reads@.contains(a) && breaks@.contains(a as usize),
{
    broadcast use vstd::std_specs::hash::axiom_spec_hash_keys_iter;
    let ghost keys = vstd::std_specs::hash::spec_hash_keys_iter(reads).remaining();
    let ghost mut n: int = 0;
    for a in it: reads.iter()
        invariant
            it.seq() == keys,
            n == it.index(),
            forall|j: int| 0 <= j < n ==> !breaks@.contains(*keys[j] as usize),
    {
        if breaks.contains(&(*a as usize)) {
            proof {
                assert(reads@.contains(*a));
            }
            return true;
        }
        proof {
            n = n + 1;
        }
    }
    proof {
        assert forall|a: u16| !(reads@.contains(a) && breaks@.contains(a as usize)) by {
            if reads@.contains(a) {
                assert(keys.unref().to_set().contains(a));
                let j = choose|j: int| 0 <= j < keys.len() && keys.unref()[j] == a;
                assert(!breaks@.contains(*keys[j] as usize));
            }
        }
    }
    false
}

impl VM {
    /// Executes one microinstruction of an active machine: the processor takes
    /// one cycle; a change of MAR or MBR during a memory operation, or (when
    /// checked) a write to the instruction segment, is an error; otherwise a
    /// `syscall` microinstruction runs the system call of AC, and when an
    /// instruction was read, its address becomes the current one. Returns the
    /// new and the previous micro address. A machine that is not active does
    /// nothing.
    pub fn step(&mut self) -> (r: ((usize, usize), Result<(), VMError>))
        requires
            old(self).wf(),
            old(self).machine_state() == VMState::Active ==> old(self).processor().control_unit.micro_mem.len > 0,
        ensures
            final(self).wf(),
            old(self).machine_state() != VMState::Active ==> r == ((0usize, 0usize), Ok::<(), VMError>(()))
                && final(self).processor() == old(self).processor() && final(self).output() == old(
            self).output() && final(self).machine_state() == old(self).machine_state() && final(
            self).pc_of() == old(self).pc_of(),
            old(self).machine_state() == VMState::Active ==> one_step(*old(self), *final(self), r.0, r.1),
            final(self).info_print_on() == old(self).info_print_on(),
            final(self).write_check_on() == old(self).write_check_on(),
            final(self).initial() == old(self).initial(),
            final(self).syscall_flags() == old(self).syscall_flags(),
    {
        if self.state != VMState::Active {
            return ((0, 0), Ok(()));
        }
        let (mpc, prev_mpc) = self.cpu.advance_microinstruction(&mut self.events);
        if self.events.mar_conflicting.is_some() {
            return ((mpc, prev_mpc), Err(VMError::MarChanged));
        }
        if self.events.mbr_conflicting.is_some() {
            return ((mpc, prev_mpc), Err(VMError::MbrChanged));
        }
        if self.err_on_instruction_write {
            match first_instruction_write(&self.events) {
                Some(addr) => {
                    return ((mpc, prev_mpc), Err(VMError::InstructionWrite(addr)));
                },
                None => {},
            }
        }
        if self.microinstructions[prev_mpc].mir.syscall {
            let _ = self.execute_syscall();
        }
        if !self.events.instruction_reads.is_empty() {
            self.prev_pc = self.pc;
            self.pc = self.cpu.get_registers().pc() as usize;
            proof {
                let reads = self.events.instruction_reads@;
                assert(!reads.is_empty());
                let a = choose|a: u16| reads.contains(a);
                assert(reads.contains(a));
            }
        }
        ((mpc, prev_mpc), Ok(()))
    }
}

impl VM {
    /// Runs microinstructions until an error, until the machine leaves the
    /// active state, until a breakpoint or (for a macroinstruction) the read of
    /// an instruction, or until `info.max_steps` were run.
    fn run_steps(&mut self, info: &VMExecutionInfo, macro_step: bool) -> (r: ((usize, usize), Result<(), VMError>))
        requires
            old(self).wf(),
            old(self).machine_state() == VMState::Active,
            old(self).processor().control_unit.micro_mem.len > 0,
            old(self).events_of().is_clear(),
        ensures
            final(self).wf(),
            final(self).syscall_flags() == old(self).syscall_flags(),
            exists|trace: Seq<VM>, mpcs: Seq<(usize, usize)>|
                #[trigger] run_result(*old(self), trace, mpcs, r, *info, macro_step, *final(self)),
            final(self).info_print_on() == old(self).info_print_on(),
            final(self).write_check_on() == old(self).write_check_on(),
            final(self).initial() == old(self).initial(),
    {
        let mut res: (usize, usize) = (0, 0);
        let mut steps: usize = 0;
        let ghost mut trace: Seq<VM> = seq![*self];
        let ghost mut mpcs: Seq<(usize, usize)> = Seq::empty();
        loop
            invariant
                self.wf(),
                steps == mpcs.len(),
                steps <= info.max_steps,
                is_run(*old(self), trace, mpcs, Ok(()), *info, macro_step),
                same_machine(*self, trace.last()),
                self.events_of() == trace.last().events_of(),
                res == (if mpcs.len() > 0 {
                    mpcs.last()
                } else {
                    (0usize, 0usize)
                }),
                steps > 0 ==> !at_break(trace.last(), mpcs.last(), info.breaks_mic@, info.breaks_mac@, !macro_step),
                steps > 0 && macro_step ==> trace.last().events_of().instruction_reads@.is_empty(),
                self.info_print_on() == old(self).info_print_on(),
                self.write_check_on() == old(self).write_check_on(),
                self.initial() == old(self).initial(),
                self.processor().control_unit.micro_mem == old(self).processor().control_unit.micro_mem,
                self.processor().control_unit.micro_mem.len > 0,
                self.syscall_flags() == old(self).syscall_flags(),
            decreases info.max_steps - steps,
        {
            if self.state != VMState::Active || steps >= info.max_steps {
                proof {
                    assert(run_stopped(trace, mpcs, Ok(()), *info, macro_step));
                    assert(run_result(*old(self), trace, mpcs, (res, Ok(())), *info, macro_step, *self));
                }
                return (res, Ok(()));
            }
            self.events.instruction_reads.clear();
            let ghost before = *self;
            let ghost old_trace = trace;
            let ghost old_mpcs = mpcs;
            proof {
                assert(before.events_of()@ == old_trace.last().events_of()@.without_reads());
            }
            let (r0, r1) = self.step();
            res = r0;
            steps = steps + 1;
            proof {
                trace = trace.push(*self);
                mpcs = mpcs.push(r0);
                assert(step_from(old_trace.last(), old_trace.last().events_of()@.without_reads(), *self, r0, r1));
                lemma_run_extend(*old(self), old_trace, old_mpcs, *info, macro_step, *self, r0, r1);
                assert(is_run(*old(self), trace, mpcs, r1, *info, macro_step));
            }
            match r1 {
                Err(e) => {
                    proof {
                        assert(run_stopped(trace, mpcs, r1, *info, macro_step));
                        assert(run_result(*old(self), trace, mpcs, (res, r1), *info, macro_step, *self));
                    }
                    return (res, Err(e));
                },
                Ok(()) => {},
            }
            if !macro_step && read_hits_break(&self.events.instruction_reads, &info.breaks_mac) {
                proof {
                    assert(run_stopped(trace, mpcs, Ok(()), *info, macro_step));
                    assert(run_result(*old(self), trace, mpcs, (res, Ok(())), *info, macro_step, *self));
                }
                return (res, Ok(()));
            }
            if macro_step && !self.events.instruction_reads.is_empty() {
                proof {
                    assert(run_stopped(trace, mpcs, Ok(()), *info, macro_step));
                    assert(run_result(*old(self), trace, mpcs, (res, Ok(())), *info, macro_step, *self));
                }
                return (res, Ok(()));
            }
            if info.breaks_mic.contains(&res.0) {
                proof {
                    assert(run_stopped(trace, mpcs, Ok(()), *info, macro_step));
                    assert(run_result(*old(self), trace, mpcs, (res, Ok(())), *info, macro_step, *self));
                }
                return (res, Ok(()));
            }
        }
    }
}

/// What an execution of kind `et` does to the machine `pre`: nothing unless
/// it is active; else a run to the end or a breakpoint, a run to the next
/// instruction, or one microinstruction, which leaves the machine `post` and
/// gives the micro addresses and outcome `r`.
pub open spec fn execution(
    pre: VM,
    et: VMExecutionType,
    info: VMExecutionInfo,
    r: ((usize, usize), Result<(), VMError>),
    post: VM,
) -> bool {
    if pre.machine_state() != VMState::Active {
        &&& r == ((0usize, 0usize), Ok::<(), VMError>(()))
        &&& same_machine(post, pre)
    } else {
        match et {
            VMExecutionType::Run => exists|trace: Seq<VM>, mpcs: Seq<(usize, usize)>|
                #[trigger] run_result(pre, trace, mpcs, r, info, false, post),
            VMExecutionType::Macroinstruction => exists|trace: Seq<VM>, mpcs: Seq<(usize, usize)>|
                #[trigger] run_result(pre, trace, mpcs, r, info, true, post),
            VMExecutionType::Microinstruction => step_from(pre, EventsModel::empty(), post, r.0, r.1),
        }
    }
}

/// The micro addresses and the outcome that an execution answered.
pub open spec fn answered(res: Result<VMResponse, (VMResponse, VMError)>) -> ((usize, usize), Result<(), VMError>) {
    match res {
        Ok(resp) => ((resp.mpc, resp.prev_mpc), Ok(())),
        Err((resp, e)) => ((resp.mpc, resp.prev_mpc), Err(e)),
    }
}

/// The machine description that an execution answered.
pub open spec fn response(res: Result<VMResponse, (VMResponse, VMError)>) -> VMResponse {
    match res {
        Ok(resp) => resp,
        Err((resp, _)) => resp,
    }
}

impl VM {
    /// Executes a whole program (to its end, an error, a breakpoint, a read
    /// that waits for input, or `info.max_steps` microinstructions), the
    /// current instruction, or one microinstruction, after forgetting the
    /// events of the last execution. An error halts the machine. The answer
    /// gives the micro addresses, the instruction addresses, the events of this
    /// execution, the state and the registers, with the error if there was
    /// one.
    #[verifier::rlimit(40)]
    pub fn execute(&mut self, execution_type: VMExecutionType, execution_info: VMExecutionInfo) -> (r: Box<
        Result<VMResponse, (VMResponse, VMError)>,
    >)
        requires
            old(self).wf(),
            old(self).machine_state() == VMState::Active ==> old(self).processor().control_unit.micro_mem.len > 0,
        ensures
            final(self).wf(),
            final(self).syscall_flags() == old(self).syscall_flags(),
            exists|mid: VM|
                {
                    &&& #[trigger] execution(*old(self), execution_type, execution_info, answered(*r), mid)
                    &&& final(self).processor() == mid.processor()
                    &&& final(self).output() == mid.output()
                    &&& final(self).pc_of() == mid.pc_of()
                    &&& final(self).prev_pc_of() == mid.prev_pc_of()
                    &&& final(self).machine_state() == (if answered(*r).1 is Err {
                        VMState::Halted
                    } else {
                        mid.machine_state()
                    })
                    &&& response(*r).pc == mid.pc_of()
                    &&& response(*r).prev_pc == mid.prev_pc_of()
                    &&& response(*r).events == mid.events_of()
                },
            response(*r).state == final(self).machine_state(),
            response(*r).registers.0 == final(self).processor().datapath.mar_value(),
            response(*r).registers.1 == final(self).processor().datapath.mbr_value(),
            response(*r).registers.2@ == final(self).bank(),
            final(self).info_print_on() == old(self).info_print_on(),
            final(self).write_check_on() == old(self).write_check_on(),
            final(self).initial() == old(self).initial(),
    {
        self.events.clear();
        self.execution_type = Some(execution_type);
        let ghost pre = *self;
        let (res, r) = if self.state == VMState::Active {
            match execution_type {
                VMExecutionType::Run => self.run_steps(&execution_info, false),
                VMExecutionType::Macroinstruction => self.run_steps(&execution_info, true),
                VMExecutionType::Microinstruction => self.step(),
            }
        } else {
            ((0, 0), Ok(()))
        };
        let ghost mid = *self;
        proof {
            if pre.machine_state() == VMState::Active {
                match execution_type {
                    VMExecutionType::Run => {
                        let (trace, mpcs) = choose|trace: Seq<VM>, mpcs: Seq<(usize, usize)>|
                            #[trigger] run_result(pre, trace, mpcs, (res, r), execution_info, false, mid);
                        assert(run_result(*old(self), trace, mpcs, (res, r), execution_info, false, mid));
                    },
                    VMExecutionType::Macroinstruction => {
                        let (trace, mpcs) = choose|trace: Seq<VM>, mpcs: Seq<(usize, usize)>|
                            #[trigger] run_result(pre, trace, mpcs, (res, r), execution_info, true, mid);
                        assert(run_result(*old(self), trace, mpcs, (res, r), execution_info, true, mid));
                    },
                    VMExecutionType::Microinstruction => {},
                }
            }
        }
        match self.state {
            VMState::Waiting(_) => {},
            _ => {
                self.execution_type = None;
            },
        }
        if r.is_err() {
            self.state = VMState::Halted;
        }
        let mut events = EventHandler::new();
        std::mem::swap(&mut events, &mut self.events);
        let resp = VMResponse {
            mpc: res.0,
            prev_mpc: res.1,
            pc: self.pc,
            prev_pc: self.prev_pc,
            events,
            state: self.state,
            registers: self.registers(),
        };
        let ghost rr = (res, r);
        let out = match r {
            Err(e) => {
                let o = Err((resp, e));
                assert(answered(o).0 == rr.0);
                assert(answered(o).1 == rr.1);
                o
            },
            Ok(u) => {
                assert(u == ());
                let o = Ok(resp);
                assert(answered(o).0 == rr.0);
                assert(answered(o).1 == rr.1);
                o
            },
        };
        proof {
            assert(execution(pre, execution_type, execution_info, rr, mid));
            assert(execution(*old(self), execution_type, execution_info, rr, mid));
        }
        Box::new(out)
    }
}

/// A copy of each microinstruction: its text and its signals.
fn copy_microinstructions(v: &Vec<Microinstruction>) -> (r: Vec<Microinstruction>)
    ensures
        r@.len() == v@.len(),
        forall|i: int|
            0 <= i < v@.len() ==> (#[trigger] r@[i]).mir == v@[i].mir && r@[i].content@ == v@[i].content@,
{
    let mut r: Vec<Microinstruction> = Vec::new();
    let mut i: usize = 0;
    while i < v.len()
        invariant
            i <= v@.len(),
            r@.len() == i,
            forall|j: int| 0 <= j < i ==> (#[trigger] r@[j]).mir == v@[j].mir && r@[j].content@ == v@[j].content@,
        decreases v.len() - i,
    {
        r.push(Microinstruction { content: v[i].content.clone(), mir: v[i].mir });
        i = i + 1;
    }
    r
}

/// A copy of each instruction: its text and its binary word.
fn copy_instructions(v: &Vec<Instruction>) -> (r: Vec<Instruction>)
    ensures
        r@.len() == v@.len(),
        forall|i: int|
            0 <= i < v@.len() ==> (#[trigger] r@[i]).content@ == v@[i].content@ && r@[i].bin@ == v@[i].bin@,
{
    let mut r: Vec<Instruction> = Vec::new();
    let mut i: usize = 0;
    while i < v.len()
        invariant
            i <= v@.len(),
            r@.len() == i,
            forall|j: int| 0 <= j < i ==> (#[trigger] r@[j]).content@ == v@[j].content@ && r@[j].bin@ == v@[j].bin@,
        decreases v.len() - i,
    {
        r.push(Instruction { content: v[i].content.clone(), bin: v[i].bin.clone() });
        i = i + 1;
    }
    r
}

impl VM {
    /// Assembles the microprogram of `source_map` (`parse_program`) into the
    /// micro-memory and restarts the machine, which becomes active; returns the
    /// microinstructions. A parse error, or a microprogram longer than the
    /// micro-memory, is returned and leaves the machine as it was.
    pub fn assemble_mic(&mut self, source_map: &SourceMap) -> (r: Result<Vec<Microinstruction>, VMError>)
        requires
            old(self).wf(),
            source_map.wf(),
        ensures
            final(self).wf(),
            match parse_program(source_map.text()) {
                Err(e) => {
                    &&& r matches Err(VMError::MALParsingError(b)) && b.span == e.span && b.error_type == e.error_type
                    &&& *final(self) == *old(self)
                },
                Ok(v) => if v.len() > MICROMEM_MAX_SIZE {
                    &&& r matches Err(VMError::MicroMemOverflow(n)) && n == v.len()
                    &&& *final(self) == *old(self)
                } else {
                    &&& r is Ok
                    &&& r->Ok_0@.len() == v.len()
                    &&& forall|i: int|
                        0 <= i < v.len() ==> (#[trigger] r->Ok_0@[i]).mir == v[i].0 && r->Ok_0@[i].content@
                            == line_content(*source_map, v[i].1 as int)
                    &&& final(self).processor().control_unit.micro_mem.microinstructions@ == Seq::new(
                        v.len(),
                        |i: int| v[i].0.encoded(),
                    )
                    &&& forall|i: int|
                        0 <= i < v.len() ==> #[trigger] final(self).processor().control_unit.micro_mem.instruction_at(
                            i as usize,
                        ) == (ControlSignals { syscall: false, ..v[i].0 })
                    &&& final(self).syscall_flags() == Seq::new(v.len(), |i: int| v[i].0.syscall)
                    &&& restarted(*old(self), *final(self))
                    &&& final(self).initial() == old(self).initial()
                    &&& final(self).machine_state() == VMState::Active
                },
            },
    {
        let parser = MALParser::new(source_map);
        let microinstructions = match parser.parse() {
            Ok(m) => m,
            Err(e) => {
                return Err(VMError::MALParsingError(e));
            },
        };
        let ghost v = parse_program(source_map.text())->Ok_0;
        if microinstructions.len() > MICROMEM_MAX_SIZE {
            return Err(VMError::MicroMemOverflow(microinstructions.len()));
        }
        let mut words: Vec<u64> = Vec::new();
        let mut i: usize = 0;
        while i < microinstructions.len()
            invariant
                i <= microinstructions@.len(),
                words@.len() == i,
                forall|j: int| 0 <= j < i ==> #[trigger] words@[j] == microinstructions@[j].mir.encoded(),
            decreases microinstructions.len() - i,
        {
            words.push(microinstructions[i].mir.to_word());
            i = i + 1;
        }
        let out = copy_microinstructions(&microinstructions);
        self.microinstructions = microinstructions;
        self.cpu.control_unit.mpc = 0;
        self.cpu.control_unit.micro_mem = MicroMem::new(words);
        proof {
            assert(self.syscall_flags() =~= Seq::new(v.len(), |i: int| v[i].0.syscall));
            assert(self.cpu.control_unit.micro_mem.microinstructions@ =~= Seq::new(
                v.len(),
                |i: int| v[i].0.encoded(),
            ));
        }
        self.reset();
        self.state = VMState::Active;
        proof {
            lemma_parsed_signals_fit(source_map.text());
            assert forall|i: int| 0 <= i < v.len() implies #[trigger] self.cpu.control_unit.micro_mem.instruction_at(
                i as usize,
            ) == (ControlSignals { syscall: false, ..v[i].0 }) by {
                lemma_decode_encode(v[i].0);
            }
        }
        Ok(out)
    }

    /// Assembles the program of `source_map` with the instruction table
    /// `keywords` (`asm_program`, data placed from `DATA_SEGMENT_START`), makes
    /// its instruction words and data the initial memory and restarts the
    /// machine; returns the instructions. A parse error, a data segment that
    /// does not fit above `DATA_SEGMENT_START`, or more instruction words than
    /// fit below it, is returned and leaves the machine as it was.
    pub fn assemble_mac(&mut self, source_map: &SourceMap, keywords: KeywordMap) -> (r: Result<
        Vec<Instruction>,
        VMError,
    >)
        requires
            old(self).wf(),
            source_map.wf(),
        ensures
            final(self).wf(),
            final(self).syscall_flags() == old(self).syscall_flags(),
            match asm_program(source_map.text(), keywords@, DATA_SEGMENT_START) {
                Err(e) => {
                    &&& r matches Err(VMError::ASMParsingError(b)) && b.span == e.span && b.error_type@ == e.error_type
                    &&& *final(self) == *old(self)
                },
                Ok((st, words)) => if st.data.len() > MEMORY_SIZE - DATA_SEGMENT_START {
                    &&& r matches Err(VMError::DataSegmentOverflow(n)) && n == st.data.len()
                    &&& *final(self) == *old(self)
                } else if words.len() > DATA_SEGMENT_START {
                    &&& r matches Err(VMError::InstructionSegmentOverflow(n)) && n == words.len()
                    &&& *final(self) == *old(self)
                } else {
                    &&& r is Ok
                    &&& r->Ok_0@.len() == words.len()
                    &&& final(self).initial() matches Some((ins, data)) && data == st.data && ins.len() == words.len()
                        && forall|i: int|
                        0 <= i < words.len() ==> {
                            &&& ins[i] as int == words[i]
                            &&& (#[trigger] r->Ok_0@[i]).content@ == line_of_map(*source_map, st.pre[i].keyword_span.line as int)
                            &&& r->Ok_0@[i].bin@ == bits16(ins[i])
                        }
                    &&& restarted(*old(self), *final(self))
                    &&& final(self).processor().control_unit.micro_mem == old(self).processor().control_unit.micro_mem
                    &&& final(self).machine_state() == (if old(self).machine_state() == VMState::Halted {
                        VMState::Active
                    } else {
                        old(self).machine_state()
                    })
                },
            },
    {
        let parser = ASMParser::new(source_map, keywords, DATA_SEGMENT_START);
        let result = match parser.parse() {
            Ok(res) => res,
            Err(e) => {
                return Err(VMError::ASMParsingError(Box::new(e)));
            },
        };
        let ParserResult { data_mem, ins_mem, instructions } = result;
        if data_mem.len() > MEMORY_SIZE - DATA_SEGMENT_START {
            return Err(VMError::DataSegmentOverflow(data_mem.len()));
        }
        if ins_mem.len() > DATA_SEGMENT_START {
            return Err(VMError::InstructionSegmentOverflow(ins_mem.len()));
        }
        let ghost (st, words) = asm_program(source_map.text(), keywords@, DATA_SEGMENT_START)->Ok_0;
        let ghost ins = ins_mem@;
        let out = copy_instructions(&instructions);
        proof {
            assert forall|i: int| 0 <= i < words.len() implies {
                &&& ins[i] as int == words[i]
                &&& (#[trigger] out@[i]).content@ == line_of_map(*source_map, st.pre[i].keyword_span.line as int)
                &&& out@[i].bin@ == bits16(ins[i])
            } by {
                assert(ins_mem@[i] as int == words[i]);
            }
        }
        self.set_initial_memory(ins_mem, data_mem);
        self.instructions = instructions;
        self.reset();
        Ok(out)
    }
}

} // verus!
