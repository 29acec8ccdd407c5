use crate::architecture::signals::{ALUSignals, ControlSignals};
use vstd::prelude::*;

verus! {

/// The number of words of the micro-memory.
pub const MICROMEM_MAX_SIZE: usize = 1024;

/// The micro-memory: the encoded microinstructions of the microprogram.
#[derive(Debug)]
pub struct MicroMem {
    pub microinstructions: Vec<u64>,
    pub len: usize,
}

impl MicroMem {
    /// `len` counts the stored microinstructions, and they fit the micro-memory.
    pub open spec fn wf(&self) -> bool {
        &&& self.len == self.microinstructions@.len()
        &&& self.len <= MICROMEM_MAX_SIZE
    }

    /// A micro-memory holding `microinstructions`; those beyond its capacity are
    /// dropped.
    pub fn new(microinstructions: Vec<u64>) -> (m: MicroMem)
        ensures
            m.wf(),
            m.microinstructions@ == (if microinstructions@.len() > MICROMEM_MAX_SIZE {
                microinstructions@.take(MICROMEM_MAX_SIZE as int)
            } else {
                microinstructions@
            }),
    {
        let mut microinstructions = microinstructions;
        if microinstructions.len() > MICROMEM_MAX_SIZE {
            microinstructions.truncate(MICROMEM_MAX_SIZE);
        }
        let len = microinstructions.len();
        MicroMem { microinstructions, len }
    }

    /// The signals at address `mpc`; outside the microprogram those at address 0,
    /// or all signals off when the micro-memory is empty.
    pub open spec fn instruction_at(&self, mpc: usize) -> ControlSignals {
        if mpc < self.len {
            ControlSignals::decoded(self.microinstructions@[mpc as int])
        } else if self.len > 0 {
            ControlSignals::decoded(self.microinstructions@[0])
        } else {
            ControlSignals::default_signals()
        }
    }

    fn get_instruction(&self, mpc: &usize) -> (s: ControlSignals)
        requires
            self.wf(),
        ensures
            s == self.instruction_at(*mpc),
            s.fits(),
    {
        if *mpc < self.len {
            ControlSignals::from_word(&self.microinstructions[*mpc])
        } else if self.len > 0 {
            ControlSignals::from_word(&self.microinstructions[0])
        } else {
            ControlSignals::default()
        }
    }
}

/// The address of the next microinstruction: the jump address when the
/// condition holds (1: the ALU result was negative, 2: it was zero, 3: always),
/// otherwise the next address; an address past the microprogram goes back to 0.
pub open spec fn next_mpc(s: ControlSignals, flags: ALUSignals, mpc: usize, len: usize) -> usize {
    let target: int = if (s.cond == 1 && flags.n) || (s.cond == 2 && flags.z) || s.cond == 3 {
        s.addr as int
    } else {
        mpc + 1
    };
    if target >= len {
        0
    } else {
        target as usize
    }
}

/// The control unit: the micro-memory, the micro program counter and the
/// signals of the current microinstruction.
#[derive(Debug)]
pub struct ControlUnit {
    pub signals: ControlSignals,
    pub micro_mem: MicroMem,
    pub prev_mpc: usize,
    pub mpc: usize,
}

impl ControlUnit {
    /// The micro-memory is well formed, the current signals fit their fields, and
    /// the micro program counter is 0 or an address of the microprogram.
    pub open spec fn wf(&self) -> bool {
        &&& self.micro_mem.wf()
        &&& self.signals.fits()
        &&& (self.mpc == 0 || self.mpc < self.micro_mem.len)
    }

    /// A control unit at address 0 of `micro_mem`, with all signals off.
    pub fn new(micro_mem: MicroMem) -> (c: ControlUnit)
        requires
            micro_mem.wf(),
        ensures
            c.wf(),
            c.signals == ControlSignals::default_signals(),
            c.micro_mem == micro_mem,
            c.mpc == 0,
            c.prev_mpc == 0,
    {
        ControlUnit { signals: ControlSignals::default(), micro_mem, prev_mpc: 0, mpc: 0 }
    }

    /// Loads the signals of the microinstruction at the micro program counter.
    pub fn load_signals(&mut self)
        requires
            old(self).wf(),
        ensures
            final(self).wf(),
            final(self).signals == old(self).micro_mem.instruction_at(old(self).mpc),
            final(self).micro_mem == old(self).micro_mem,
            final(self).mpc == old(self).mpc,
            final(self).prev_mpc == old(self).prev_mpc,
    {
        self.signals = self.micro_mem.get_instruction(&self.mpc);
    }

    /// Moves the micro program counter to the next microinstruction, given the ALU
    /// flags of this cycle; returns the new and the previous address.
    pub fn advance(&mut self, alu_sigs: &ALUSignals) -> (r: (usize, usize))
        requires
            old(self).wf(),
        ensures
            final(self).wf(),
            final(self).mpc == next_mpc(old(self).signals, *alu_sigs, old(self).mpc, old(self).micro_mem.len),
            final(self).prev_mpc == old(self).mpc,
            final(self).signals == old(self).signals,
            final(self).micro_mem == old(self).micro_mem,
            r == (final(self).mpc, old(self).mpc),
    {
        let old_mpc = self.mpc;
        let target: usize = if (self.signals.cond == 1 && alu_sigs.n) || (self.signals.cond == 2
            && alu_sigs.z) || self.signals.cond == 3 {
            self.signals.addr as usize
        } else {
            self.mpc + 1
        };
        self.mpc = if target >= self.micro_mem.len {
            0
        } else {
            target
        };
        self.prev_mpc = old_mpc;
        (self.mpc, old_mpc)
    }
}

} // verus!
