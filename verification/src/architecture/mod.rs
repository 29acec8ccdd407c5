pub mod control;
pub mod datapath;
pub mod events;
pub mod memory;
pub mod signals;

use control::{ControlUnit, MicroMem, next_mpc};
use datapath::{DataRegisters, Datapath};
use events::{EventHandler, EventsModel, WriteEvent, merged_write};
use memory::{
    Memory, MEMORY_SIZE, clock_mbr, clock_step, cycle_instruction_writes, cycle_mar_conflict, cycle_mbr_conflict,
    cycle_mbr_load, cycle_memory_writes, cycle_reads,
};
use signals::{ALUSignals, ControlSignals};
use vstd::prelude::*;

verus! {

/// The whole processor: datapath, control unit and main memory.
#[derive(Debug)]
pub struct Cpu {
    pub datapath: Datapath,
    pub control_unit: ControlUnit,
    pub memory: Memory,
}

impl Cpu {
    /// The parts are well formed and MAR holds an address of memory.
    pub open spec fn wf(&self) -> bool {
        &&& self.control_unit.wf()
        &&& self.memory.wf()
        &&& self.datapath.mar_value() < MEMORY_SIZE
        &&& self.datapath.bank().len() == 16
    }

    /// The signals of the microinstruction that the next cycle executes.
    pub open spec fn current_signals(&self) -> ControlSignals {
        self.control_unit.micro_mem.instruction_at(self.control_unit.mpc)
    }

    /// A processor over `memory` and `micro_mem`, at micro address 0 with the
    /// registers at their reset values.
    pub fn new(memory: Memory, micro_mem: MicroMem) -> (c: Cpu)
        requires
            memory.wf(),
            micro_mem.wf(),
        ensures
            c.wf(),
            c.memory == memory,
            c.control_unit.micro_mem == micro_mem,
            c.control_unit.mpc == 0,
            c.datapath.bank() == datapath::default_registers(),
            c.datapath.mar_value() == 0,
            c.datapath.mbr_value() == 0,
    {
        Cpu { memory, control_unit: ControlUnit::new(micro_mem), datapath: Datapath::new() }
    }

    /// One cycle of the processor from `self` to `next`: the signals of the
    /// current microinstruction drive the datapath and the memory, and the
    /// control unit moves to the next micro address.
    pub open spec fn steps_to(&self, next: &Cpu) -> bool {
        let s = self.current_signals();
        let d = self.datapath;
        let mem = self.memory.model();
        let out = d.cycle_alu_out(s);
        &&& next.wf()
        &&& next.datapath.bank() == d.cycle_bank(s)
        &&& next.datapath.mar_value() == d.cycle_mar(s)
        &&& next.datapath.mbr_value() == clock_mbr(mem, s.rd, s.wr, d.cycle_mar(s), d.cycle_mbr(s))
        &&& next.memory.model() == clock_step(mem, s.rd, s.wr, d.cycle_mar(s), d.cycle_mbr(s))
        &&& next.control_unit.signals == s
        &&& next.control_unit.mpc == next_mpc(
            s,
            ALUSignals { z: out == 0, n: out >= 0x8000 },
            self.control_unit.mpc,
            self.control_unit.micro_mem.len,
        )
        &&& next.control_unit.micro_mem == self.control_unit.micro_mem
    }

    /// What one cycle of the processor records over the events `ev`, giving
    /// `ev2`: the write of the C bus register, the loads of MAR and MBR, and
    /// what the memory cycle reads, writes or finds changed.
    pub open spec fn cycle_events(&self, ev: EventsModel, ev2: EventsModel) -> bool {
        let s = self.current_signals();
        let d = self.datapath;
        let mem = self.memory.model();
        let mar = d.cycle_mar(s);
        let mbr = d.cycle_mbr(s);
        &&& ev2.register_writes == (if s.enc {
            merged_write(ev.register_writes, s.c, d.bank()[s.c as int], d.cycle_bank(s)[s.c as int])
        } else {
            ev.register_writes
        })
        &&& ev2.mar_written == (if s.mar {
            Some(WriteEvent { before: d.mar_value(), after: mar })
        } else {
            ev.mar_written
        })
        &&& ev2.mbr_written == cycle_mbr_load(
            mem,
            s.rd,
            s.wr,
            mar,
            mbr,
            if s.mbr {
                Some(WriteEvent { before: d.mbr_value(), after: mbr })
            } else {
                ev.mbr_written
            },
        )
        &&& ev2.instruction_reads == cycle_reads(mem, s.rd, s.wr, mar, mbr, ev.instruction_reads)
        &&& ev2.mar_conflicting == cycle_mar_conflict(mem, s.rd, s.wr, mar, mbr, ev.mar_conflicting)
        &&& ev2.mbr_conflicting == cycle_mbr_conflict(mem, s.wr, mar, mbr, ev.mbr_conflicting)
        &&& ev2.memory_writes == cycle_memory_writes(mem, s.wr, mar, mbr, ev.memory_writes)
        &&& ev2.instruction_writes == cycle_instruction_writes(mem, s.wr, mar, mbr, ev.instruction_writes)
    }

    /// Executes one microinstruction: loads its signals, clocks the datapath and
    /// the memory, and moves to the next microinstruction. Returns the new and the
    /// previous micro address.
    pub fn advance_microinstruction(&mut self, events: &mut EventHandler) -> (r: (usize, usize))
        requires
            old(self).wf(),
        ensures
            final(self).wf(),
            old(self).steps_to(final(self)),
            old(self).cycle_events(old(events)@, final(events)@),
            r == (final(self).control_unit.mpc, old(self).control_unit.mpc),
    {
        self.control_unit.load_signals();
        self.datapath.clock(&self.control_unit.signals, events);
        let mar = self.datapath.mar;
        let mut mbr = self.datapath.mbr;
        self.memory.clock(&self.control_unit.signals, &mar, &mut mbr, events);
        self.datapath.mbr = mbr;
        self.control_unit.advance(&self.datapath.alu_sigs)
    }

    /// MAR, MBR and the register bank.
    pub fn get_registers(&self) -> (r: DataRegisters)
        ensures
            r.0 == self.datapath.mar_value(),
            r.1 == self.datapath.mbr_value(),
            r.2@ == self.datapath.bank(),
    {
        self.datapath.registers()
    }

    /// Sets register `register` of the bank to `value`.
    pub fn set_register(&mut self, register: usize, value: u16)
        requires
            old(self).wf(),
            register < 16,
        ensures
            final(self).wf(),
            final(self).datapath.bank() == old(self).datapath.bank().update(register as int, value),
            final(self).datapath.mar_value() == old(self).datapath.mar_value(),
            final(self).datapath.mbr_value() == old(self).datapath.mbr_value(),
            final(self).memory == old(self).memory,
            final(self).control_unit == old(self).control_unit,
    {
        self.datapath.set_register(register, value);
    }

    /// Puts the registers back at their reset values and the micro program
    /// counter at 0; memory is left alone.
    pub fn reset(&mut self)
        requires
            old(self).wf(),
        ensures
            final(self).wf(),
            final(self).datapath.bank() == datapath::default_registers(),
            final(self).datapath.mar_value() == 0,
            final(self).datapath.mbr_value() == 0,
            final(self).control_unit.mpc == 0,
            final(self).control_unit.micro_mem == old(self).control_unit.micro_mem,
            final(self).memory == old(self).memory,
    {
        self.datapath.reset();
        self.control_unit.mpc = 0;
    }
}

/// Where a cycle branches: the next micro address is the jump address of the
/// microinstruction exactly when its condition is 3 (always), or 1 and the ALU
/// output of the cycle is negative (bit 15 set), or 2 and that output is zero;
/// otherwise it is the following address. An address past the microprogram
/// gives 0.
pub proof fn lemma_cycle_branches(pre: &Cpu, post: &Cpu)
    requires
        pre.steps_to(post),
    ensures
        ({
            let s = pre.current_signals();
            let out = pre.datapath.cycle_alu_out(s);
            let jumps = s.cond == 3 || (s.cond == 1 && out & 0x8000u16 == 0x8000u16) || (s.cond == 2
                && out == 0);
            let target: int = if jumps {
                s.addr as int
            } else {
                pre.control_unit.mpc + 1
            };
            &&& target < pre.control_unit.micro_mem.len ==> post.control_unit.mpc == target
            &&& target >= pre.control_unit.micro_mem.len ==> post.control_unit.mpc == 0
        }),
{
    let s = pre.current_signals();
    let out = pre.datapath.cycle_alu_out(s);
    assert(out >= 0x8000 <==> out & 0x8000u16 == 0x8000u16) by (bit_vector);
}

} // verus!
