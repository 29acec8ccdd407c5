use std::collections::{HashMap, HashSet};
use vstd::prelude::*;

verus! {

broadcast use vstd::std_specs::hash::group_hash_axioms;

/// A value before and after a change.
#[derive(Clone, Copy, Debug, PartialEq, Eq, Structural)]
pub struct WriteEvent {
    pub before: u16,
    pub after: u16,
}

/// What one execution step of the machine changed or touched: the writes to
/// registers and to memory (the first value before and the last value after),
/// the instruction addresses read, and the last change of MAR and MBR.
#[derive(Debug)]
pub struct EventHandler {
    pub register_writes: HashMap<u8, WriteEvent>,
    pub memory_writes: HashMap<u16, WriteEvent>,
    pub instruction_reads: HashSet<u16>,
    pub instruction_writes: HashSet<u16>,
    pub mar_conflicting: Option<WriteEvent>,
    pub mbr_conflicting: Option<WriteEvent>,
    pub mar_written: Option<WriteEvent>,
    pub mbr_written: Option<WriteEvent>,
}

/// What an event handler holds, as mathematical values.
pub struct EventsModel {
    pub register_writes: Map<u8, WriteEvent>,
    pub memory_writes: Map<u16, WriteEvent>,
    pub instruction_reads: Set<u16>,
    pub instruction_writes: Set<u16>,
    pub mar_conflicting: Option<WriteEvent>,
    pub mbr_conflicting: Option<WriteEvent>,
    pub mar_written: Option<WriteEvent>,
    pub mbr_written: Option<WriteEvent>,
}

impl EventsModel {
    /// No event recorded.
    pub open spec fn empty() -> EventsModel {
        EventsModel {
            register_writes: Map::empty(),
            memory_writes: Map::empty(),
            instruction_reads: Set::empty(),
            instruction_writes: Set::empty(),
            mar_conflicting: None,
            mbr_conflicting: None,
            mar_written: None,
            mbr_written: None,
        }
    }

    /// The same events without the instruction reads.
    pub open spec fn without_reads(self) -> EventsModel {
        EventsModel { instruction_reads: Set::empty(), ..self }
    }
}

impl View for EventHandler {
    type V = EventsModel;

    open spec fn view(&self) -> EventsModel {
        EventsModel {
            register_writes: self.register_writes@,
            memory_writes: self.memory_writes@,
            instruction_reads: self.instruction_reads@,
            instruction_writes: self.instruction_writes@,
            mar_conflicting: self.mar_conflicting,
            mbr_conflicting: self.mbr_conflicting,
            mar_written: self.mar_written,
            mbr_written: self.mbr_written,
        }
    }
}

/// A write record merged into the map of earlier writes: a key written before
/// keeps its first `before` value and takes the new `after`.
pub open spec fn merged_write<K>(m: Map<K, WriteEvent>, k: K, before: u16, after: u16) -> Map<
    K,
    WriteEvent,
> {
    if m.contains_key(k) {
        m.insert(k, WriteEvent { before: m[k].before, after })
    } else {
        m.insert(k, WriteEvent { before, after })
    }
}

impl EventHandler {
    /// No event recorded.
    pub open spec fn is_clear(&self) -> bool {
        &&& self.register_writes@ == Map::<u8, WriteEvent>::empty()
        &&& self.memory_writes@ == Map::<u16, WriteEvent>::empty()
        &&& self.instruction_reads@ == Set::<u16>::empty()
        &&& self.instruction_writes@ == Set::<u16>::empty()
        &&& self.mar_conflicting is None
        &&& self.mbr_conflicting is None
        &&& self.mar_written is None
        &&& self.mbr_written is None
    }

    /// An event handler with nothing recorded.
    pub fn new() -> (e: EventHandler)
        ensures
            e.is_clear(),
    {
        EventHandler {
            register_writes: HashMap::new(),
            memory_writes: HashMap::new(),
            instruction_reads: HashSet::new(),
            instruction_writes: HashSet::new(),
            mar_conflicting: None,
            mbr_conflicting: None,
            mar_written: None,
            mbr_written: None,
        }
    }

    /// Records that memory address `addr` went from `before` to `after`.
    pub fn memory_write(&mut self, addr: u16, before: u16, after: u16)
        ensures
            final(self).memory_writes@ == merged_write(old(self).memory_writes@, addr, before, after),
            final(self).register_writes@ == old(self).register_writes@,
            final(self).instruction_reads@ == old(self).instruction_reads@,
            final(self).instruction_writes@ == old(self).instruction_writes@,
            final(self).mar_conflicting == old(self).mar_conflicting,
            final(self).mbr_conflicting == old(self).mbr_conflicting,
            final(self).mar_written == old(self).mar_written,
            final(self).mbr_written == old(self).mbr_written,
    {
        let first = match self.memory_writes.get(&addr) {
            Some(ev) => ev.before,
            None => before,
        };
        self.memory_writes.insert(addr, WriteEvent { before: first, after });
    }

    /// Records that register `i` went from `before` to `after`.
    pub fn register_write(&mut self, i: u8, before: u16, after: u16)
        ensures
            final(self).register_writes@ == merged_write(old(self).register_writes@, i, before, after),
            final(self).memory_writes@ == old(self).memory_writes@,
            final(self).instruction_reads@ == old(self).instruction_reads@,
            final(self).instruction_writes@ == old(self).instruction_writes@,
            final(self).mar_conflicting == old(self).mar_conflicting,
            final(self).mbr_conflicting == old(self).mbr_conflicting,
            final(self).mar_written == old(self).mar_written,
            final(self).mbr_written == old(self).mbr_written,
    {
        let first = match self.register_writes.get(&i) {
            Some(ev) => ev.before,
            None => before,
        };
        self.register_writes.insert(i, WriteEvent { before: first, after });
    }

    /// Records that the instruction at `addr` was read.
    pub fn instruction_read(&mut self, addr: u16)
        ensures
            final(self).instruction_reads@ == old(self).instruction_reads@.insert(addr),
            final(self).register_writes@ == old(self).register_writes@,
            final(self).memory_writes@ == old(self).memory_writes@,
            final(self).instruction_writes@ == old(self).instruction_writes@,
            final(self).mar_conflicting == old(self).mar_conflicting,
            final(self).mbr_conflicting == old(self).mbr_conflicting,
            final(self).mar_written == old(self).mar_written,
            final(self).mbr_written == old(self).mbr_written,
    {
        self.instruction_reads.insert(addr);
    }

    /// Records that the instruction segment was written at `addr`.
    pub fn instruction_write(&mut self, addr: u16)
        ensures
            final(self).instruction_writes@ == old(self).instruction_writes@.insert(addr),
            final(self).register_writes@ == old(self).register_writes@,
            final(self).memory_writes@ == old(self).memory_writes@,
            final(self).instruction_reads@ == old(self).instruction_reads@,
            final(self).mar_conflicting == old(self).mar_conflicting,
            final(self).mbr_conflicting == old(self).mbr_conflicting,
            final(self).mar_written == old(self).mar_written,
            final(self).mbr_written == old(self).mbr_written,
    {
        self.instruction_writes.insert(addr);
    }

    /// Records that MAR changed from `before` to `after` during a memory operation.
    pub fn mar_conflict(&mut self, before: u16, after: u16)
        ensures
            final(self).mar_conflicting == Some(WriteEvent { before, after }),
            final(self).register_writes@ == old(self).register_writes@,
            final(self).memory_writes@ == old(self).memory_writes@,
            final(self).instruction_reads@ == old(self).instruction_reads@,
            final(self).instruction_writes@ == old(self).instruction_writes@,
            final(self).mbr_conflicting == old(self).mbr_conflicting,
            final(self).mar_written == old(self).mar_written,
            final(self).mbr_written == old(self).mbr_written,
    {
        self.mar_conflicting = Some(WriteEvent { before, after })
    }

    /// Records that MBR changed from `before` to `after` during a memory write.
    pub fn mbr_conflict(&mut self, before: u16, after: u16)
        ensures
            final(self).mbr_conflicting == Some(WriteEvent { before, after }),
            final(self).register_writes@ == old(self).register_writes@,
            final(self).memory_writes@ == old(self).memory_writes@,
            final(self).instruction_reads@ == old(self).instruction_reads@,
            final(self).instruction_writes@ == old(self).instruction_writes@,
            final(self).mar_conflicting == old(self).mar_conflicting,
            final(self).mar_written == old(self).mar_written,
            final(self).mbr_written == old(self).mbr_written,
    {
        self.mbr_conflicting = Some(WriteEvent { before, after })
    }

    /// Records that MAR was written, from `before` to `after`.
    pub fn mar_write(&mut self, before: u16, after: u16)
        ensures
            final(self).mar_written == Some(WriteEvent { before, after }),
            final(self).register_writes@ == old(self).register_writes@,
            final(self).memory_writes@ == old(self).memory_writes@,
            final(self).instruction_reads@ == old(self).instruction_reads@,
            final(self).instruction_writes@ == old(self).instruction_writes@,
            final(self).mar_conflicting == old(self).mar_conflicting,
            final(self).mbr_conflicting == old(self).mbr_conflicting,
            final(self).mbr_written == old(self).mbr_written,
    {
        self.mar_written = Some(WriteEvent { before, after })
    }

    /// Records that MBR was written, from `before` to `after`.
    pub fn mbr_write(&mut self, before: u16, after: u16)
        ensures
            final(self).mbr_written == Some(WriteEvent { before, after }),
            final(self).register_writes@ == old(self).register_writes@,
            final(self).memory_writes@ == old(self).memory_writes@,
            final(self).instruction_reads@ == old(self).instruction_reads@,
            final(self).instruction_writes@ == old(self).instruction_writes@,
            final(self).mar_conflicting == old(self).mar_conflicting,
            final(self).mbr_conflicting == old(self).mbr_conflicting,
            final(self).mar_written == old(self).mar_written,
    {
        self.mbr_written = Some(WriteEvent { before, after })
    }

    /// Forgets every recorded event.
    pub fn clear(&mut self)
        ensures
            final(self).is_clear(),
    {
        self.register_writes.clear();
        self.memory_writes.clear();
        self.instruction_reads.clear();
        self.instruction_writes.clear();
        self.mar_conflicting = None;
        self.mbr_conflicting = None;
        self.mar_written = None;
        self.mbr_written = None;
    }
}

impl Default for EventHandler {
    fn default() -> (e: EventHandler)
        ensures
            e.is_clear(),
    {
        EventHandler::new()
    }
}

} // verus!
