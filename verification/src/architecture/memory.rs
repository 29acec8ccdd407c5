use crate::architecture::events::{EventHandler, WriteEvent, merged_write};
use crate::architecture::signals::ControlSignals;
use vstd::prelude::*;

verus! {

broadcast use vstd::std_specs::hash::group_hash_axioms;

/// Where the data segment starts in main memory.
pub const DATA_SEGMENT_START: usize = 1536;

/// Where the text (instruction) segment starts in main memory.
pub const TEXT_SEGMENT_START: usize = 0;

/// The number of 16-bit words of main memory.
pub const MEMORY_SIZE: usize = 4096;

/// The state of main memory as a mathematical value: the cycles that the
/// current read and write have lasted, MAR and MBR as the memory saw them in the
/// last cycle, and the words.
pub struct MemoryModel {
    pub rd_count: u8,
    pub wr_count: u8,
    pub previous_mar: u16,
    pub previous_mbr: u16,
    pub cells: Seq<u16>,
}

/// A counter of cycles that stops at its maximum.
pub open spec fn tick(n: u8) -> u8 {
    if n < 255 {
        (n + 1) as u8
    } else {
        255
    }
}

/// The memory after a write cycle with `mar` and `mbr`: the second cycle of a
/// write stores MBR at MAR, provided MAR and MBR did not change since the first.
pub open spec fn write_step(m: MemoryModel, mar: u16, mbr: u16) -> MemoryModel {
    let count = tick(m.wr_count);
    let cells = if count >= 2 && m.previous_mar == mar && m.previous_mbr == mbr {
        m.cells.update(mar as int, mbr)
    } else {
        m.cells
    };
    MemoryModel { wr_count: count, previous_mar: mar, previous_mbr: mbr, cells, ..m }
}

/// The memory after a read cycle with `mar`.
pub open spec fn read_step(m: MemoryModel, mar: u16) -> MemoryModel {
    MemoryModel { rd_count: tick(m.rd_count), previous_mar: mar, ..m }
}

/// MBR after a read cycle with `mar`: the second cycle of a read loads the word
/// at MAR, provided MAR did not change since the first.
pub open spec fn read_result(m: MemoryModel, mar: u16, mbr: u16) -> u16 {
    if tick(m.rd_count) >= 2 && m.previous_mar == mar {
        m.cells[mar as int]
    } else {
        mbr
    }
}

/// The memory after a clock cycle with signals `rd` and `wr`: without either the
/// pending operations are forgotten; a write is handled before a read.
pub open spec fn clock_step(m: MemoryModel, rd: bool, wr: bool, mar: u16, mbr: u16) -> MemoryModel {
    if !rd && !wr {
        MemoryModel { rd_count: 0, wr_count: 0, ..m }
    } else {
        let m1 = if wr { write_step(m, mar, mbr) } else { m };
        if rd { read_step(m1, mar) } else { m1 }
    }
}

/// MBR after a clock cycle with signals `rd` and `wr`.
pub open spec fn clock_mbr(m: MemoryModel, rd: bool, wr: bool, mar: u16, mbr: u16) -> u16 {
    if rd {
        let m1 = if wr { write_step(m, mar, mbr) } else { m };
        read_result(m1, mar, mbr)
    } else {
        mbr
    }
}

/// A write cycle completes: it is the second (or a later) one and MAR and MBR
/// did not change since the first.
pub open spec fn write_completes(m: MemoryModel, wr: bool, mar: u16, mbr: u16) -> bool {
    wr && tick(m.wr_count) >= 2 && m.previous_mar == mar && m.previous_mbr == mbr
}

/// The memory as the read part of a cycle sees it: after the write part.
pub open spec fn before_read(m: MemoryModel, wr: bool, mar: u16, mbr: u16) -> MemoryModel {
    if wr {
        write_step(m, mar, mbr)
    } else {
        m
    }
}

/// The read part of a cycle loads a word: it is the second (or a later) cycle
/// of a read and MAR did not change since the first.
pub open spec fn read_loads(m: MemoryModel, rd: bool, wr: bool, mar: u16, mbr: u16) -> bool {
    let m1 = before_read(m, wr, mar, mbr);
    rd && tick(m1.rd_count) >= 2 && m1.previous_mar == mar
}

/// The instruction addresses read after a cycle that had read `reads`: the
/// first cycle of a read below the data segment reads an instruction.
pub open spec fn cycle_reads(m: MemoryModel, rd: bool, wr: bool, mar: u16, mbr: u16, reads: Set<u16>) -> Set<u16> {
    if rd && tick(before_read(m, wr, mar, mbr).rd_count) < 2 && mar < DATA_SEGMENT_START {
        reads.insert(mar)
    } else {
        reads
    }
}

/// The last change of MAR during an operation, after a cycle: a write or a read
/// in its second cycle whose MAR is not the one of the first.
pub open spec fn cycle_mar_conflict(
    m: MemoryModel,
    rd: bool,
    wr: bool,
    mar: u16,
    mbr: u16,
    c: Option<WriteEvent>,
) -> Option<WriteEvent> {
    let c1 = if wr && tick(m.wr_count) >= 2 && m.previous_mar != mar {
        Some(WriteEvent { before: m.previous_mar, after: mar })
    } else {
        c
    };
    let m1 = before_read(m, wr, mar, mbr);
    if rd && tick(m1.rd_count) >= 2 && m1.previous_mar != mar {
        Some(WriteEvent { before: m1.previous_mar, after: mar })
    } else {
        c1
    }
}

/// The last change of MBR during a write, after a cycle.
pub open spec fn cycle_mbr_conflict(m: MemoryModel, wr: bool, mar: u16, mbr: u16, c: Option<WriteEvent>) -> Option<
    WriteEvent,
> {
    if wr && tick(m.wr_count) >= 2 && m.previous_mar == mar && m.previous_mbr != mbr {
        Some(WriteEvent { before: m.previous_mbr, after: mbr })
    } else {
        c
    }
}

/// The memory writes recorded after a cycle.
pub open spec fn cycle_memory_writes(m: MemoryModel, wr: bool, mar: u16, mbr: u16, w: Map<u16, WriteEvent>) -> Map<
    u16,
    WriteEvent,
> {
    if write_completes(m, wr, mar, mbr) {
        merged_write(w, mar, m.cells[mar as int], mbr)
    } else {
        w
    }
}

/// The instruction addresses written after a cycle: a completed write below the
/// data segment.
pub open spec fn cycle_instruction_writes(m: MemoryModel, wr: bool, mar: u16, mbr: u16, w: Set<u16>) -> Set<u16> {
    if write_completes(m, wr, mar, mbr) && mar < DATA_SEGMENT_START {
        w.insert(mar)
    } else {
        w
    }
}

/// The last load of MBR by a read, after a cycle.
pub open spec fn cycle_mbr_load(m: MemoryModel, rd: bool, wr: bool, mar: u16, mbr: u16, c: Option<WriteEvent>) -> Option<
    WriteEvent,
> {
    let m1 = before_read(m, wr, mar, mbr);
    if rd && tick(m1.rd_count) >= 2 && m1.previous_mar == mar {
        Some(WriteEvent { before: mbr, after: m1.cells[mar as int] })
    } else {
        c
    }
}

/// The main memory of the machine, with the two-cycle protocol of the MIC-1
/// for reads and writes.
#[derive(Debug)]
pub struct Memory {
    rd_clock_count: u8,
    wr_clock_count: u8,
    previous_mar: u16,
    previous_mbr: u16,
    memory: Vec<u16>,
}

impl Memory {
    /// The state of the memory.
    pub closed spec fn model(&self) -> MemoryModel {
        MemoryModel {
            rd_count: self.rd_clock_count,
            wr_count: self.wr_clock_count,
            previous_mar: self.previous_mar,
            previous_mbr: self.previous_mbr,
            cells: self.memory@,
        }
    }

    /// The memory holds exactly `MEMORY_SIZE` words.
    pub open spec fn wf(&self) -> bool {
        self.model().cells.len() == MEMORY_SIZE
    }

    /// A memory of zeros with no operation pending.
    pub fn new() -> (m: Memory)
        ensures
            m.wf(),
            m.model().cells == Seq::new(MEMORY_SIZE as nat, |i: int| 0u16),
            m.model().rd_count == 0,
            m.model().wr_count == 0,
            m.model().previous_mar == 0,
            m.model().previous_mbr == 0,
    {
        let mut memory: Vec<u16> = Vec::new();
        while memory.len() < MEMORY_SIZE
            invariant
                memory.len() <= MEMORY_SIZE,
                forall|i: int| 0 <= i < memory.len() ==> memory@[i] == 0,
            decreases MEMORY_SIZE - memory.len(),
        {
            memory.push(0);
        }
        let m = Memory {
            rd_clock_count: 0,
            wr_clock_count: 0,
            previous_mar: 0,
            previous_mbr: 0,
            memory,
        };
        assert(m.model().cells =~= Seq::new(MEMORY_SIZE as nat, |i: int| 0u16));
        m
    }

    /// Sets every word to zero and forgets pending operations (MBR as last seen is
    /// kept).
    pub fn clear(&mut self)
        requires
            old(self).wf(),
        ensures
            final(self).wf(),
            final(self).model().cells == Seq::new(MEMORY_SIZE as nat, |i: int| 0u16),
            final(self).model().rd_count == 0,
            final(self).model().wr_count == 0,
            final(self).model().previous_mar == 0,
            final(self).model().previous_mbr == old(self).model().previous_mbr,
    {
        let mut i: usize = 0;
        while i < self.memory.len()
            invariant
                self.memory.len() == MEMORY_SIZE,
                i <= MEMORY_SIZE,
                forall|k: int| 0 <= k < i ==> self.memory@[k] == 0,
                self.rd_clock_count == old(self).rd_clock_count,
                self.wr_clock_count == old(self).wr_clock_count,
                self.previous_mar == old(self).previous_mar,
                self.previous_mbr == old(self).previous_mbr,
            decreases MEMORY_SIZE - i,
        {
            self.memory.set(i, 0);
            i = i + 1;
        }
        self.rd_clock_count = 0;
        self.wr_clock_count = 0;
        self.previous_mar = 0;
        assert(self.model().cells =~= Seq::new(MEMORY_SIZE as nat, |i: int| 0u16));
    }

    /// Copies `data` into memory from address `start`; what does not fit is
    /// dropped.
    pub fn load(&mut self, start: usize, data: &[u16])
        requires
            old(self).wf(),
            start <= MEMORY_SIZE,
        ensures
            final(self).wf(),
            forall|i: int|
                0 <= i < MEMORY_SIZE ==> #[trigger] final(self).model().cells[i] == if start <= i
                    < start + data@.len() {
                    data@[i - start]
                } else {
                    old(self).model().cells[i]
                },
            final(self).model().rd_count == old(self).model().rd_count,
            final(self).model().wr_count == old(self).model().wr_count,
            final(self).model().previous_mar == old(self).model().previous_mar,
            final(self).model().previous_mbr == old(self).model().previous_mbr,
    {
        let end = if data.len() <= MEMORY_SIZE - start {
            start + data.len()
        } else {
            MEMORY_SIZE
        };
        let len = end - start;
        let mut i: usize = 0;
        while i < len
            invariant
                self.memory.len() == MEMORY_SIZE,
                start + len == end,
                end <= MEMORY_SIZE,
                len <= data.len(),
                i <= len,
                old(self).memory.len() == MEMORY_SIZE,
                self.rd_clock_count == old(self).rd_clock_count,
                self.wr_clock_count == old(self).wr_clock_count,
                self.previous_mar == old(self).previous_mar,
                self.previous_mbr == old(self).previous_mbr,
                forall|k: int|
                    0 <= k < MEMORY_SIZE ==> #[trigger] self.memory@[k] == if start <= k < start + i {
                        data@[k - start]
                    } else {
                        old(self).memory@[k]
                    },
            decreases len - i,
        {
            self.memory.set(start + i, data[i]);
            i = i + 1;
        }
    }

    /// Stores `value` at `addr` (if it is an address of memory) and records the
    /// write in `events`.
    pub fn set_addr(&mut self, addr: usize, value: u16, events: &mut EventHandler)
        requires
            old(self).wf(),
        ensures
            final(self).wf(),
            final(self).model() == (if addr < MEMORY_SIZE {
                (MemoryModel { cells: old(self).model().cells.update(addr as int, value), ..old(self).model() })
            } else {
                old(self).model()
            }),
            final(events).memory_writes@ == (if addr < MEMORY_SIZE {
                merged_write(old(events).memory_writes@, addr as u16, old(self).model().cells[addr as int], value)
            } else {
                old(events).memory_writes@
            }),
            final(events).register_writes@ == old(events).register_writes@,
            final(events).instruction_reads@ == old(events).instruction_reads@,
            final(events).instruction_writes@ == old(events).instruction_writes@,
    {
        if addr < MEMORY_SIZE {
            let before = self.memory[addr];
            self.memory.set(addr, value);
            events.memory_write(addr as u16, before, value);
        }
    }

    /// One cycle of a read with MAR at `mar`: the first cycle only marks the
    /// instruction address as read (when it lies before the data segment); the
    /// second loads the word into `mbr`, unless MAR changed, which is recorded
    /// as a conflict.
    pub fn request_rd(&mut self, mar: &u16, mbr: &mut u16, events: &mut EventHandler)
        requires
            old(self).wf(),
            tick(old(self).model().rd_count) >= 2 && old(self).model().previous_mar == *mar ==> *mar < MEMORY_SIZE,
        ensures
            final(self).wf(),
            final(self).model() == (MemoryModel {
                rd_count: tick(old(self).model().rd_count),
                ..old(self).model()
            }),
            *final(mbr) == read_result(old(self).model(), *mar, *old(mbr)),
            final(events).instruction_reads@ == (if tick(old(self).model().rd_count) < 2
                && *mar < DATA_SEGMENT_START {
                old(events).instruction_reads@.insert(*mar)
            } else {
                old(events).instruction_reads@
            }),
            final(events).mar_conflicting == (if tick(old(self).model().rd_count) >= 2
                && old(self).model().previous_mar != *mar {
                Some(WriteEvent { before: old(self).model().previous_mar, after: *mar })
            } else {
                old(events).mar_conflicting
            }),
            final(events).mbr_written == (if tick(old(self).model().rd_count) >= 2
                && old(self).model().previous_mar == *mar {
                Some(WriteEvent { before: *old(mbr), after: *final(mbr) })
            } else {
                old(events).mbr_written
            }),
            final(events).register_writes@ == old(events).register_writes@,
            final(events).memory_writes@ == old(events).memory_writes@,
            final(events).instruction_writes@ == old(events).instruction_writes@,
            final(events).mbr_conflicting == old(events).mbr_conflicting,
            final(events).mar_written == old(events).mar_written,
    {
        self.rd_clock_count = self.rd_clock_count.saturating_add(1);
        if self.rd_clock_count < 2 {
            if (*mar as usize) < DATA_SEGMENT_START {
                events.instruction_read(*mar);
            }
            return ;
        }
        if self.previous_mar != *mar {
            events.mar_conflict(self.previous_mar, *mar);
        } else {
            let before = *mbr;
            *mbr = self.memory[*mar as usize];
            events.mbr_write(before, *mbr);
        }
    }

    fn request_wr(&mut self, mar: &u16, mbr: &mut u16, events: &mut EventHandler)
        requires
            old(self).wf(),
            write_completes(old(self).model(), true, *mar, *old(mbr)) ==> *mar < MEMORY_SIZE,
        ensures
            final(self).wf(),
            final(self).model() == (MemoryModel {
                wr_count: tick(old(self).model().wr_count),
                cells: write_step(old(self).model(), *mar, *old(mbr)).cells,
                ..old(self).model()
            }),
            *final(mbr) == *old(mbr),
            final(events).mar_conflicting == (if tick(old(self).model().wr_count) >= 2
                && old(self).model().previous_mar != *mar {
                Some(WriteEvent { before: old(self).model().previous_mar, after: *mar })
            } else {
                old(events).mar_conflicting
            }),
            final(events).mbr_conflicting == (if tick(old(self).model().wr_count) >= 2
                && old(self).model().previous_mar == *mar && old(self).model().previous_mbr != *old(mbr) {
                Some(WriteEvent { before: old(self).model().previous_mbr, after: *old(mbr) })
            } else {
                old(events).mbr_conflicting
            }),
            final(events).memory_writes@ == (if tick(old(self).model().wr_count) >= 2
                && old(self).model().previous_mar == *mar && old(self).model().previous_mbr == *old(mbr) {
                merged_write(old(events).memory_writes@, *mar, old(self).model().cells[*mar as int], *old(mbr))
            } else {
                old(events).memory_writes@
            }),
            final(events).instruction_writes@ == (if tick(old(self).model().wr_count) >= 2
                && old(self).model().previous_mar == *mar && old(self).model().previous_mbr == *old(mbr)
                && *mar < DATA_SEGMENT_START {
                old(events).instruction_writes@.insert(*mar)
            } else {
                old(events).instruction_writes@
            }),
            final(events).register_writes@ == old(events).register_writes@,
            final(events).instruction_reads@ == old(events).instruction_reads@,
            final(events).mar_written == old(events).mar_written,
            final(events).mbr_written == old(events).mbr_written,
    {
        self.wr_clock_count = self.wr_clock_count.saturating_add(1);
        if self.wr_clock_count < 2 {
            return ;
        }
        if self.previous_mar != *mar {
            events.mar_conflict(self.previous_mar, *mar);
        } else if self.previous_mbr != *mbr {
            events.mbr_conflict(self.previous_mbr, *mbr);
        } else {
            let before = self.memory[*mar as usize];
            self.memory.set(*mar as usize, *mbr);
            events.memory_write(*mar, before, *mbr);
            if (*mar as usize) < DATA_SEGMENT_START {
                events.instruction_write(*mar);
            }
        }
    }

    /// One clock cycle of memory under `signals`, with MAR at `mar` and MBR in
    /// `mbr`: without `rd` and `wr` pending operations are forgotten; otherwise
    /// the write, then the read, advance by one cycle. MAR may lie outside memory
    /// unless the cycle stores or loads a word.
    pub fn clock(&mut self, signals: &ControlSignals, mar: &u16, mbr: &mut u16, events: &mut EventHandler)
        requires
            old(self).wf(),
            *mar >= MEMORY_SIZE ==> !write_completes(old(self).model(), signals.wr, *mar, *old(mbr))
                && !read_loads(old(self).model(), signals.rd, signals.wr, *mar, *old(mbr)),
        ensures
            final(self).wf(),
            final(self).model() == clock_step(old(self).model(), signals.rd, signals.wr, *mar, *old(mbr)),
            *final(mbr) == clock_mbr(old(self).model(), signals.rd, signals.wr, *mar, *old(mbr)),
            final(events).register_writes@ == old(events).register_writes@,
            final(events).mar_written == old(events).mar_written,
            final(events).instruction_reads@ == cycle_reads(
                old(self).model(),
                signals.rd,
                signals.wr,
                *mar,
                *old(mbr),
                old(events).instruction_reads@,
            ),
            final(events).mar_conflicting == cycle_mar_conflict(
                old(self).model(),
                signals.rd,
                signals.wr,
                *mar,
                *old(mbr),
                old(events).mar_conflicting,
            ),
            final(events).mbr_conflicting == cycle_mbr_conflict(
                old(self).model(),
                signals.wr,
                *mar,
                *old(mbr),
                old(events).mbr_conflicting,
            ),
            final(events).memory_writes@ == cycle_memory_writes(
                old(self).model(),
                signals.wr,
                *mar,
                *old(mbr),
                old(events).memory_writes@,
            ),
            final(events).instruction_writes@ == cycle_instruction_writes(
                old(self).model(),
                signals.wr,
                *mar,
                *old(mbr),
                old(events).instruction_writes@,
            ),
            final(events).mbr_written == cycle_mbr_load(
                old(self).model(),
                signals.rd,
                signals.wr,
                *mar,
                *old(mbr),
                old(events).mbr_written,
            ),
    {
        let rd = signals.rd;
        let wr = signals.wr;
        if !rd && !wr {
            self.rd_clock_count = 0;
            self.wr_clock_count = 0;
            return ;
        }
        if wr {
            self.request_wr(mar, mbr, events);
            self.previous_mar = *mar;
            self.previous_mbr = *mbr;
        }
        if rd {
            self.request_rd(mar, mbr, events);
            self.previous_mar = *mar;
        }
    }

    /// The words of memory.
    pub fn get_ref(&self) -> (r: &Vec<u16>)
        ensures
            r@ == self.model().cells,
    {
        &self.memory
    }
}

/// A word written with two write cycles (MAR and MBR held steady) is read back by
/// two read cycles at the same address.
pub proof fn lemma_read_after_write(m: MemoryModel, mar: u16, value: u16, other: u16)
    requires
        m.cells.len() == MEMORY_SIZE,
        mar < MEMORY_SIZE,
    ensures
        ({
            let idle = clock_step(m, false, false, mar, value);
            let w1 = clock_step(idle, false, true, mar, value);
            let w2 = clock_step(w1, false, true, mar, value);
            let idle2 = clock_step(w2, false, false, mar, other);
            let r1 = clock_step(idle2, true, false, mar, other);
            let mbr1 = clock_mbr(idle2, true, false, mar, other);
            let mbr2 = clock_mbr(r1, true, false, mar, mbr1);
            &&& w2.cells[mar as int] == value
            &&& mbr2 == value
        }),
{
}

} // verus!
