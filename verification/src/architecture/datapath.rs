use crate::architecture::events::{EventHandler, WriteEvent, merged_write};
use crate::architecture::signals::{ALUSignals, ControlSignals};
use vstd::prelude::*;

verus! {

broadcast use vstd::std_specs::hash::group_hash_axioms;

/// The sixteen registers of the register bank.
pub type RegisterBank = [u16; 16];

/// The value that the ALU computes with operation `op` from its inputs `a` and
/// `b`; an unknown operation leaves the previous output `prev`.
pub open spec fn alu_output(op: u8, a: u16, b: u16, prev: u16) -> u16 {
    if op == 0 {
        ((a + b) % 65536) as u16
    } else if op == 1 {
        a & b
    } else if op == 2 {
        a
    } else if op == 3 {
        !a
    } else {
        prev
    }
}

/// The value that the shifter passes on with operation `sh`: one bit to the
/// left, one bit to the right, or unchanged.
pub open spec fn shifter_output(sh: u8, v: u16) -> u16 {
    if sh == 1 {
        ((v as int * 2) % 65536) as u16
    } else if sh == 2 {
        (v / 2) as u16
    } else {
        v
    }
}

/// Registers 5 to 9 hold the constants 0, 1, -1, AMASK and SMASK and cannot be
/// written.
pub open spec fn is_constant_register(i: int) -> bool {
    5 <= i <= 9
}

/// The value of each register after a reset.
pub open spec fn default_register(i: int) -> u16 {
    if i == 2 {
        4096
    } else if i == 6 {
        1
    } else if i == 7 {
        0xffff
    } else if i == 8 {
        4095
    } else if i == 9 {
        255
    } else {
        0
    }
}

/// The register bank after a reset.
pub open spec fn default_registers() -> Seq<u16> {
    Seq::new(16, |i: int| default_register(i))
}

/// A register that microinstructions can name: the sixteen of the bank, the
/// ALU output (as a destination that keeps no value), MAR and MBR.
#[derive(Debug, Clone, Copy, PartialEq, Eq, Structural)]
pub enum Register {
    Pc,
    Ac,
    Sp,
    Ir,
    Tir,
    Zero,
    One,
    MinusOne,
    Amask,
    Smask,
    A,
    B,
    C,
    D,
    E,
    F,
    Alu,
    Mar,
    Mbr,
}

impl Register {
    /// The position in the register bank, none for ALU, MAR and MBR.
    pub open spec fn bank_index(self) -> Option<usize> {
        match self {
            Register::Pc => Some(0usize),
            Register::Ac => Some(1usize),
            Register::Sp => Some(2usize),
            Register::Ir => Some(3usize),
            Register::Tir => Some(4usize),
            Register::Zero => Some(5usize),
            Register::One => Some(6usize),
            Register::MinusOne => Some(7usize),
            Register::Amask => Some(8usize),
            Register::Smask => Some(9usize),
            Register::A => Some(10usize),
            Register::B => Some(11usize),
            Register::C => Some(12usize),
            Register::D => Some(13usize),
            Register::E => Some(14usize),
            Register::F => Some(15usize),
            Register::Alu => None,
            Register::Mar => None,
            Register::Mbr => None,
        }
    }

    /// The name of the register in MAL source.
    pub open spec fn spec_name(self) -> Seq<char> {
        match self {
            Register::Pc => seq!['p', 'c'],
            Register::Ac => seq!['a', 'c'],
            Register::Sp => seq!['s', 'p'],
            Register::Ir => seq!['i', 'r'],
            Register::Tir => seq!['t', 'i', 'r'],
            Register::Zero => seq!['0'],
            Register::One => seq!['1'],
            Register::MinusOne => seq!['(', '-', '1', ')'],
            Register::Amask => seq!['a', 'm', 'a', 's', 'k'],
            Register::Smask => seq!['s', 'm', 'a', 's', 'k'],
            Register::A => seq!['a'],
            Register::B => seq!['b'],
            Register::C => seq!['c'],
            Register::D => seq!['d'],
            Register::E => seq!['e'],
            Register::F => seq!['f'],
            Register::Alu => seq!['a', 'l', 'u'],
            Register::Mar => seq!['m', 'a', 'r'],
            Register::Mbr => seq!['m', 'b', 'r'],
        }
    }

    /// The position in the register bank, none for ALU, MAR and MBR.
    pub fn index(&self) -> (r: Option<usize>)
        ensures
            r == self.bank_index(),
    {
        match self {
            Register::Pc => Some(0),
            Register::Ac => Some(1),
            Register::Sp => Some(2),
            Register::Ir => Some(3),
            Register::Tir => Some(4),
            Register::Zero => Some(5),
            Register::One => Some(6),
            Register::MinusOne => Some(7),
            Register::Amask => Some(8),
            Register::Smask => Some(9),
            Register::A => Some(10),
            Register::B => Some(11),
            Register::C => Some(12),
            Register::D => Some(13),
            Register::E => Some(14),
            Register::F => Some(15),
            Register::Alu => None,
            Register::Mar => None,
            Register::Mbr => None,
        }
    }

    /// The name of the register in MAL source; the ALU is shown as "(nenhum)".
    pub fn name(&self) -> (r: &'static str)
        ensures
            *self != Register::Alu ==> r@ == self.spec_name(),
            *self == Register::Alu ==> r@ == seq!['(', 'n', 'e', 'n', 'h', 'u', 'm', ')'],
    {
        match self {
            Register::Pc => {
                proof {
                    reveal_strlit("pc");
                }
                "pc"
            },
            Register::Ac => {
                proof {
                    reveal_strlit("ac");
                }
                "ac"
            },
            Register::Sp => {
                proof {
                    reveal_strlit("sp");
                }
                "sp"
            },
            Register::Ir => {
                proof {
                    reveal_strlit("ir");
                }
                "ir"
            },
            Register::Tir => {
                proof {
                    reveal_strlit("tir");
                }
                "tir"
            },
            Register::Zero => {
                proof {
                    reveal_strlit("0");
                }
                "0"
            },
            Register::One => {
                proof {
                    reveal_strlit("1");
                }
                "1"
            },
            Register::MinusOne => {
                proof {
                    reveal_strlit("(-1)");
                }
                "(-1)"
            },
            Register::Amask => {
                proof {
                    reveal_strlit("amask");
                }
                "amask"
            },
            Register::Smask => {
                proof {
                    reveal_strlit("smask");
                }
                "smask"
            },
            Register::A => {
                proof {
                    reveal_strlit("a");
                }
                "a"
            },
            Register::B => {
                proof {
                    reveal_strlit("b");
                }
                "b"
            },
            Register::C => {
                proof {
                    reveal_strlit("c");
                }
                "c"
            },
            Register::D => {
                proof {
                    reveal_strlit("d");
                }
                "d"
            },
            Register::E => {
                proof {
                    reveal_strlit("e");
                }
                "e"
            },
            Register::F => {
                proof {
                    reveal_strlit("f");
                }
                "f"
            },
            Register::Alu => {
                proof {
                    reveal_strlit("(nenhum)");
                }
                "(nenhum)"
            },
            Register::Mar => {
                proof {
                    reveal_strlit("mar");
                }
                "mar"
            },
            Register::Mbr => {
                proof {
                    reveal_strlit("mbr");
                }
                "mbr"
            },
        }
    }

    /// The register whose name is `s`, if any.
    pub open spec fn named(s: Seq<char>) -> Option<Register> {
        if s == seq!['p', 'c'] {
            Some(Register::Pc)
        } else if s == seq!['a', 'c'] {
            Some(Register::Ac)
        } else if s == seq!['s', 'p'] {
            Some(Register::Sp)
        } else if s == seq!['i', 'r'] {
            Some(Register::Ir)
        } else if s == seq!['t', 'i', 'r'] {
            Some(Register::Tir)
        } else if s == seq!['0'] {
            Some(Register::Zero)
        } else if s == seq!['1'] {
            Some(Register::One)
        } else if s == seq!['(', '-', '1', ')'] {
            Some(Register::MinusOne)
        } else if s == seq!['a', 'm', 'a', 's', 'k'] {
            Some(Register::Amask)
        } else if s == seq!['s', 'm', 'a', 's', 'k'] {
            Some(Register::Smask)
        } else if s == seq!['a'] {
            Some(Register::A)
        } else if s == seq!['b'] {
            Some(Register::B)
        } else if s == seq!['c'] {
            Some(Register::C)
        } else if s == seq!['d'] {
            Some(Register::D)
        } else if s == seq!['e'] {
            Some(Register::E)
        } else if s == seq!['f'] {
            Some(Register::F)
        } else if s == seq!['a', 'l', 'u'] {
            Some(Register::Alu)
        } else if s == seq!['m', 'a', 'r'] {
            Some(Register::Mar)
        } else if s == seq!['m', 'b', 'r'] {
            Some(Register::Mbr)
        } else {
            None
        }
    }

    /// The register with the given name, if any.
    pub fn from_name(s: &[char]) -> (r: Option<Register>)
        ensures
            r == Register::named(s@),
            r matches Some(reg) ==> reg.spec_name() == s@,
            r is None ==> forall|reg: Register| reg.spec_name() != s@,
    {
        let name: &[char] = &['p', 'c'];
        assert(name@ =~= seq!['p', 'c']);
        if chars_equal(s, name) {
            return Some(Register::Pc);
        }
        assert(s@ != seq!['p', 'c']);
        let name: &[char] = &['a', 'c'];
        assert(name@ =~= seq!['a', 'c']);
        if chars_equal(s, name) {
            return Some(Register::Ac);
        }
        assert(s@ != seq!['a', 'c']);
        let name: &[char] = &['s', 'p'];
        assert(name@ =~= seq!['s', 'p']);
        if chars_equal(s, name) {
            return Some(Register::Sp);
        }
        assert(s@ != seq!['s', 'p']);
        let name: &[char] = &['i', 'r'];
        assert(name@ =~= seq!['i', 'r']);
        if chars_equal(s, name) {
            return Some(Register::Ir);
        }
        assert(s@ != seq!['i', 'r']);
        let name: &[char] = &['t', 'i', 'r'];
        assert(name@ =~= seq!['t', 'i', 'r']);
        if chars_equal(s, name) {
            return Some(Register::Tir);
        }
        assert(s@ != seq!['t', 'i', 'r']);
        let name: &[char] = &['0'];
        assert(name@ =~= seq!['0']);
        if chars_equal(s, name) {
            return Some(Register::Zero);
        }
        assert(s@ != seq!['0']);
        let name: &[char] = &['1'];
        assert(name@ =~= seq!['1']);
        if chars_equal(s, name) {
            return Some(Register::One);
        }
        assert(s@ != seq!['1']);
        let name: &[char] = &['(', '-', '1', ')'];
        assert(name@ =~= seq!['(', '-', '1', ')']);
        if chars_equal(s, name) {
            return Some(Register::MinusOne);
        }
        assert(s@ != seq!['(', '-', '1', ')']);
        let name: &[char] = &['a', 'm', 'a', 's', 'k'];
        assert(name@ =~= seq!['a', 'm', 'a', 's', 'k']);
        if chars_equal(s, name) {
            return Some(Register::Amask);
        }
        assert(s@ != seq!['a', 'm', 'a', 's', 'k']);
        let name: &[char] = &['s', 'm', 'a', 's', 'k'];
        assert(name@ =~= seq!['s', 'm', 'a', 's', 'k']);
        if chars_equal(s, name) {
            return Some(Register::Smask);
        }
        assert(s@ != seq!['s', 'm', 'a', 's', 'k']);
        let name: &[char] = &['a'];
        assert(name@ =~= seq!['a']);
        if chars_equal(s, name) {
            return Some(Register::A);
        }
        assert(s@ != seq!['a']);
        let name: &[char] = &['b'];
        assert(name@ =~= seq!['b']);
        if chars_equal(s, name) {
            return Some(Register::B);
        }
        assert(s@ != seq!['b']);
        let name: &[char] = &['c'];
        assert(name@ =~= seq!['c']);
        if chars_equal(s, name) {
            return Some(Register::C);
        }
        assert(s@ != seq!['c']);
        let name: &[char] = &['d'];
        assert(name@ =~= seq!['d']);
        if chars_equal(s, name) {
            return Some(Register::D);
        }
        assert(s@ != seq!['d']);
        let name: &[char] = &['e'];
        assert(name@ =~= seq!['e']);
        if chars_equal(s, name) {
            return Some(Register::E);
        }
        assert(s@ != seq!['e']);
        let name: &[char] = &['f'];
        assert(name@ =~= seq!['f']);
        if chars_equal(s, name) {
            return Some(Register::F);
        }
        assert(s@ != seq!['f']);
        let name: &[char] = &['a', 'l', 'u'];
        assert(name@ =~= seq!['a', 'l', 'u']);
        if chars_equal(s, name) {
            return Some(Register::Alu);
        }
        assert(s@ != seq!['a', 'l', 'u']);
        let name: &[char] = &['m', 'a', 'r'];
        assert(name@ =~= seq!['m', 'a', 'r']);
        if chars_equal(s, name) {
            return Some(Register::Mar);
        }
        assert(s@ != seq!['m', 'a', 'r']);
        let name: &[char] = &['m', 'b', 'r'];
        assert(name@ =~= seq!['m', 'b', 'r']);
        if chars_equal(s, name) {
            return Some(Register::Mbr);
        }
        assert(s@ != seq!['m', 'b', 'r']);
        proof {
            assert forall|reg: Register| reg.spec_name() != s@ by {
                if reg.spec_name() == s@ {
                    match reg {
                        Register::Pc => assert(s@ != (seq!['p', 'c'])),
                        Register::Ac => assert(s@ != (seq!['a', 'c'])),
                        Register::Sp => assert(s@ != (seq!['s', 'p'])),
                        Register::Ir => assert(s@ != (seq!['i', 'r'])),
                        Register::Tir => assert(s@ != (seq!['t', 'i', 'r'])),
                        Register::Zero => assert(s@ != (seq!['0'])),
                        Register::One => assert(s@ != (seq!['1'])),
                        Register::MinusOne => assert(s@ != (seq!['(', '-', '1', ')'])),
                        Register::Amask => assert(s@ != (seq!['a', 'm', 'a', 's', 'k'])),
                        Register::Smask => assert(s@ != (seq!['s', 'm', 'a', 's', 'k'])),
                        Register::A => assert(s@ != (seq!['a'])),
                        Register::B => assert(s@ != (seq!['b'])),
                        Register::C => assert(s@ != (seq!['c'])),
                        Register::D => assert(s@ != (seq!['d'])),
                        Register::E => assert(s@ != (seq!['e'])),
                        Register::F => assert(s@ != (seq!['f'])),
                        Register::Alu => assert(s@ != (seq!['a', 'l', 'u'])),
                        Register::Mar => assert(s@ != (seq!['m', 'a', 'r'])),
                        Register::Mbr => assert(s@ != (seq!['m', 'b', 'r'])),
                    }
                }
            }
        }
        None
    }
}

/// Whether two character slices hold the same characters.
pub fn chars_equal(a: &[char], b: &[char]) -> (r: bool)
    ensures
        r == (a@ == b@),
{
    if a.len() != b.len() {
        return false;
    }
    let mut i: usize = 0;
    while i < a.len()
        invariant
            a.len() == b.len(),
            i <= a.len(),
            forall|k: int| 0 <= k < i ==> a@[k] == b@[k],
        decreases a.len() - i,
    {
        if a[i] != b[i] {
            return false;
        }
        i = i + 1;
    }
    assert(a@ =~= b@);
    true
}

/// The datapath of the MIC-1: its buses, register bank, ALU, shifter, and the
/// memory address and buffer registers.
#[derive(Debug)]
pub struct Datapath {
    pub bus_a: u16,
    pub bus_b: u16,
    pub bus_c: u16,
    pub registers: RegisterBank,
    pub alu_out: u16,
    pub alu_in_a: u16,
    pub mar: u16,
    pub mbr: u16,
    pub alu_sigs: ALUSignals,
}

fn default_register_bank() -> (r: RegisterBank)
    ensures
        r@ == default_registers(),
{
    let r: RegisterBank = [0, 0, 4096, 0, 0, 0, 1, 0xffff, 4095, 255, 0, 0, 0, 0, 0, 0];
    assert(r@ =~= default_registers());
    r
}

impl Datapath {
    /// The register bank.
    pub open spec fn bank(&self) -> Seq<u16> {
        self.registers@
    }

    /// The memory address register.
    pub open spec fn mar_value(&self) -> u16 {
        self.mar
    }

    /// The memory buffer register.
    pub open spec fn mbr_value(&self) -> u16 {
        self.mbr
    }

    /// The flags of the ALU after the last cycle.
    pub open spec fn flags(&self) -> ALUSignals {
        self.alu_sigs
    }

    /// The output of the ALU in the last cycle.
    pub open spec fn alu_out_value(&self) -> u16 {
        self.alu_out
    }

    /// The ALU output of a cycle under `s`.
    pub open spec fn cycle_alu_out(&self, s: ControlSignals) -> u16 {
        let a_in = if s.amux { self.mbr_value() } else { self.bank()[s.a as int] };
        alu_output(s.alu, a_in, self.bank()[s.b as int], self.alu_out_value())
    }

    /// The value on bus C in a cycle under `s`.
    pub open spec fn cycle_bus_c(&self, s: ControlSignals) -> u16 {
        shifter_output(s.sh, self.cycle_alu_out(s))
    }

    /// MAR after a cycle under `s`.
    pub open spec fn cycle_mar(&self, s: ControlSignals) -> u16 {
        if s.mar {
            (self.bank()[s.b as int] % 4096) as u16
        } else {
            self.mar_value()
        }
    }

    /// MBR after a cycle under `s`.
    pub open spec fn cycle_mbr(&self, s: ControlSignals) -> u16 {
        if s.mbr {
            self.cycle_bus_c(s)
        } else {
            self.mbr_value()
        }
    }

    /// The register bank after a cycle under `s`.
    pub open spec fn cycle_bank(&self, s: ControlSignals) -> Seq<u16> {
        if s.enc && !is_constant_register(s.c as int) {
            self.bank().update(s.c as int, self.cycle_bus_c(s))
        } else {
            self.bank()
        }
    }

    /// A datapath with the registers at their reset values, MAR and MBR zero
    /// and the ALU flags clear.
    pub fn new() -> (d: Datapath)
        ensures
            d.bank() == default_registers(),
            d.mar_value() == 0,
            d.mbr_value() == 0,
            d.flags() == (ALUSignals { z: false, n: false }),
            d.alu_out_value() == 0,
    {
        Datapath {
            bus_a: 0,
            bus_b: 0,
            bus_c: 0,
            mar: 0,
            mbr: 0,
            registers: default_register_bank(),
            alu_in_a: 0,
            alu_out: 0,
            alu_sigs: ALUSignals { z: false, n: false },
        }
    }

    #[inline]
    fn get_register(&self, register: u8) -> (v: u16)
        requires
            register < 16,
        ensures
            v == self.bank()[register as int],
    {
        self.registers[register as usize]
    }

    fn load_to_bus_a(&mut self, register: u8)
        requires
            register < 16,
        ensures
            final(self).bus_a == old(self).registers@[register as int],
            final(self).registers == old(self).registers,
            final(self).bus_b == old(self).bus_b,
            final(self).mar == old(self).mar,
            final(self).mbr == old(self).mbr,
            final(self).alu_out == old(self).alu_out,
    {
        self.bus_a = self.get_register(register);
    }

    fn load_to_bus_b(&mut self, register: u8)
        requires
            register < 16,
        ensures
            final(self).bus_b == old(self).registers@[register as int],
            final(self).registers == old(self).registers,
            final(self).bus_a == old(self).bus_a,
            final(self).mar == old(self).mar,
            final(self).mbr == old(self).mbr,
            final(self).alu_out == old(self).alu_out,
    {
        self.bus_b = self.get_register(register);
    }

    fn alu_add(&mut self)
        ensures
            final(self).alu_out == alu_output(0, old(self).alu_in_a, old(self).bus_b, old(self).alu_out),
            final(self).registers == old(self).registers,
            final(self).bus_b == old(self).bus_b,
            final(self).alu_in_a == old(self).alu_in_a,
            final(self).mar == old(self).mar,
            final(self).mbr == old(self).mbr,
    {
        self.alu_out = self.alu_in_a.wrapping_add(self.bus_b);
    }

    fn alu_and(&mut self)
        ensures
            final(self).alu_out == alu_output(1, old(self).alu_in_a, old(self).bus_b, old(self).alu_out),
            final(self).registers == old(self).registers,
            final(self).bus_b == old(self).bus_b,
            final(self).alu_in_a == old(self).alu_in_a,
            final(self).mar == old(self).mar,
            final(self).mbr == old(self).mbr,
    {
        self.alu_out = self.alu_in_a & self.bus_b;
    }

    fn alu_transparency(&mut self)
        ensures
            final(self).alu_out == alu_output(2, old(self).alu_in_a, old(self).bus_b, old(self).alu_out),
            final(self).registers == old(self).registers,
            final(self).bus_b == old(self).bus_b,
            final(self).alu_in_a == old(self).alu_in_a,
            final(self).mar == old(self).mar,
            final(self).mbr == old(self).mbr,
    {
        self.alu_out = self.alu_in_a;
    }

    fn alu_not(&mut self)
        ensures
            final(self).alu_out == alu_output(3, old(self).alu_in_a, old(self).bus_b, old(self).alu_out),
            final(self).registers == old(self).registers,
            final(self).bus_b == old(self).bus_b,
            final(self).alu_in_a == old(self).alu_in_a,
            final(self).mar == old(self).mar,
            final(self).mbr == old(self).mbr,
    {
        self.alu_out = !self.alu_in_a;
    }

    fn alu_operate(&mut self, op: u8)
        ensures
            final(self).alu_out == alu_output(op, old(self).alu_in_a, old(self).bus_b, old(self).alu_out),
            final(self).alu_sigs.z == (final(self).alu_out == 0),
            final(self).alu_sigs.n == (final(self).alu_out >= 0x8000),
            final(self).registers == old(self).registers,
            final(self).bus_b == old(self).bus_b,
            final(self).alu_in_a == old(self).alu_in_a,
            final(self).mar == old(self).mar,
            final(self).mbr == old(self).mbr,
    {
        match op {
            0 => self.alu_add(),
            1 => self.alu_and(),
            2 => self.alu_transparency(),
            3 => self.alu_not(),
            _ => (),
        }
        self.alu_sigs.z = self.alu_out == 0;
        let out = self.alu_out;
        let neg = out & 0x8000 != 0;
        assert(neg == (out >= 0x8000)) by (bit_vector)
            requires
                neg == (out & 0x8000 != 0),
        ;
        self.alu_sigs.n = neg;
    }

    fn shift(&mut self, op: u8)
        ensures
            final(self).bus_c == shifter_output(op, old(self).alu_out),
            final(self).registers == old(self).registers,
            final(self).alu_out == old(self).alu_out,
            final(self).alu_sigs == old(self).alu_sigs,
            final(self).mar == old(self).mar,
            final(self).mbr == old(self).mbr,
    {
        let v = self.alu_out;
        self.bus_c = match op {
            1 => {
                let r = v << 1u16;
                assert(r == ((v as int * 2) % 65536) as u16) by (bit_vector)
                    requires
                        r == v << 1u16,
                ;
                r
            },
            2 => {
                let r = v >> 1u16;
                assert(r == v / 2) by (bit_vector)
                    requires
                        r == v >> 1u16,
                ;
                r
            },
            _ => v,
        }
    }

    fn load_to_register(&mut self, register: u8)
        requires
            register < 16,
        ensures
            final(self).registers@ == (if is_constant_register(register as int) {
                old(self).registers@
            } else {
                old(self).registers@.update(register as int, old(self).bus_c)
            }),
            final(self).bus_c == old(self).bus_c,
            final(self).alu_out == old(self).alu_out,
            final(self).alu_sigs == old(self).alu_sigs,
            final(self).mar == old(self).mar,
            final(self).mbr == old(self).mbr,
    {
        if !(5 <= register && register <= 9) {
            self.registers[register as usize] = self.bus_c;
        }
    }

    fn load_to_mar(&mut self)
        ensures
            final(self).mar == old(self).bus_b % 4096,
            final(self).registers == old(self).registers,
            final(self).bus_a == old(self).bus_a,
            final(self).bus_b == old(self).bus_b,
            final(self).mbr == old(self).mbr,
            final(self).alu_out == old(self).alu_out,
    {
        let b = self.bus_b;
        let m = b & 4095u16;
        assert(m == b % 4096) by (bit_vector)
            requires
                m == b & 4095u16,
        ;
        self.mar = m;
    }

    fn load_to_mbr(&mut self)
        ensures
            final(self).mbr == old(self).bus_c,
            final(self).registers == old(self).registers,
            final(self).bus_c == old(self).bus_c,
            final(self).mar == old(self).mar,
            final(self).alu_out == old(self).alu_out,
            final(self).alu_sigs == old(self).alu_sigs,
    {
        self.mbr = self.bus_c;
    }

    /// One clock cycle of the datapath under `signals`: registers `a` and `b` go
    /// to the buses, MAR takes the low 12 bits of bus B when `mar` is set, the ALU
    /// works on bus A (or MBR when `amux` is set) and bus B, the shifter moves its
    /// output onto bus C, and bus C goes to MBR when `mbr` is set and to register
    /// `c` when `enc` is set (the constant registers 5 to 9 keep their value).
    /// A shift code other than 1 and 2 passes the ALU output on unchanged, and an
    /// ALU code above 3 leaves the last ALU output; `cond`, `addr`, `rd`, `wr`
    /// and `syscall` are not the datapath's. Each write is recorded in `events`.
    pub fn clock(&mut self, signals: &ControlSignals, events: &mut EventHandler)
        requires
            signals.a < 16,
            signals.b < 16,
            signals.c < 16,
        ensures
            final(self).alu_out_value() == old(self).cycle_alu_out(*signals),
            final(self).flags() == (ALUSignals {
                z: old(self).cycle_alu_out(*signals) == 0,
                n: old(self).cycle_alu_out(*signals) >= 0x8000,
            }),
            final(self).mar_value() == old(self).cycle_mar(*signals),
            final(self).mbr_value() == old(self).cycle_mbr(*signals),
            final(self).bank() == old(self).cycle_bank(*signals),
            old(self).mar_value() < 4096 ==> final(self).mar_value() < 4096,
            final(events).mar_written == (if signals.mar {
                Some(WriteEvent { before: old(self).mar_value(), after: final(self).mar_value() })
            } else {
                old(events).mar_written
            }),
            final(events).mbr_written == (if signals.mbr {
                Some(WriteEvent { before: old(self).mbr_value(), after: final(self).mbr_value() })
            } else {
                old(events).mbr_written
            }),
            final(events).register_writes@ == (if signals.enc {
                merged_write(
                    old(events).register_writes@,
                    signals.c,
                    old(self).bank()[signals.c as int],
                    final(self).bank()[signals.c as int],
                )
            } else {
                old(events).register_writes@
            }),
            final(events).memory_writes@ == old(events).memory_writes@,
            final(events).instruction_reads@ == old(events).instruction_reads@,
            final(events).instruction_writes@ == old(events).instruction_writes@,
            final(events).mar_conflicting == old(events).mar_conflicting,
            final(events).mbr_conflicting == old(events).mbr_conflicting,
    {
        self.load_to_bus_a(signals.a);
        self.load_to_bus_b(signals.b);
        if signals.mar {
            let before = self.mar;
            self.load_to_mar();
            events.mar_write(before, self.mar);
        }
        self.alu_in_a = if signals.amux { self.mbr } else { self.bus_a };
        self.alu_operate(signals.alu);
        self.shift(signals.sh);
        if signals.mbr {
            let before = self.mbr;
            self.load_to_mbr();
            events.mbr_write(before, self.mbr);
        }
        if signals.enc {
            let before = self.get_register(signals.c);
            self.load_to_register(signals.c);
            events.register_write(signals.c, before, self.get_register(signals.c));
        }
    }

    /// Puts the registers back at their reset values and clears MAR and MBR.
    pub fn reset(&mut self)
        ensures
            final(self).bank() == default_registers(),
            final(self).mar_value() == 0,
            final(self).mbr_value() == 0,
            final(self).flags() == old(self).flags(),
            final(self).alu_out_value() == old(self).alu_out_value(),
    {
        self.registers = default_register_bank();
        self.mar = 0;
        self.mbr = 0;
    }

    /// MAR, MBR and the register bank.
    pub fn registers(&self) -> (r: DataRegisters)
        ensures
            r.0 == self.mar_value(),
            r.1 == self.mbr_value(),
            r.2@ == self.bank(),
    {
        DataRegisters(self.mar, self.mbr, self.registers)
    }

    /// Sets register `register` of the bank to `value`.
    pub fn set_register(&mut self, register: usize, value: u16)
        requires
            register < 16,
        ensures
            final(self).bank() == old(self).bank().update(register as int, value),
            final(self).mar_value() == old(self).mar_value(),
            final(self).mbr_value() == old(self).mbr_value(),
            final(self).flags() == old(self).flags(),
            final(self).alu_out_value() == old(self).alu_out_value(),
    {
        self.registers[register] = value;
    }

    /// The register bank, to be changed in place.
    pub fn registers_mut(&mut self) -> (r: &mut RegisterBank)
        ensures
            *r == old(self).registers,
            *final(self) == (Datapath { registers: *final(r), ..*old(self) }),
    {
        &mut self.registers
    }
}

/// A snapshot of MAR, MBR and the register bank.
#[derive(Debug, Clone, Copy)]
pub struct DataRegisters(pub u16, pub u16, pub RegisterBank);

impl DataRegisters {
    pub fn pc(&self) -> (v: u16)
        ensures
            v == self.2@[0],
    {
        self.2[0]
    }

    pub fn ac(&self) -> (v: u16)
        ensures
            v == self.2@[1],
    {
        self.2[1]
    }

    pub fn sp(&self) -> (v: u16)
        ensures
            v == self.2@[2],
    {
        self.2[2]
    }

    pub fn ir(&self) -> (v: u16)
        ensures
            v == self.2@[3],
    {
        self.2[3]
    }

    pub fn tir(&self) -> (v: u16)
        ensures
            v == self.2@[4],
    {
        self.2[4]
    }

    pub fn zero(&self) -> (v: u16)
        ensures
            v == self.2@[5],
    {
        self.2[5]
    }

    pub fn one(&self) -> (v: u16)
        ensures
            v == self.2@[6],
    {
        self.2[6]
    }

    pub fn minus_one(&self) -> (v: u16)
        ensures
            v == self.2@[7],
    {
        self.2[7]
    }

    pub fn amask(&self) -> (v: u16)
        ensures
            v == self.2@[8],
    {
        self.2[8]
    }

    pub fn smask(&self) -> (v: u16)
        ensures
            v == self.2@[9],
    {
        self.2[9]
    }

    pub fn a(&self) -> (v: u16)
        ensures
            v == self.2@[10],
    {
        self.2[10]
    }

    pub fn b(&self) -> (v: u16)
        ensures
            v == self.2@[11],
    {
        self.2[11]
    }

    pub fn c(&self) -> (v: u16)
        ensures
            v == self.2@[12],
    {
        self.2[12]
    }

    pub fn d(&self) -> (v: u16)
        ensures
            v == self.2@[13],
    {
        self.2[13]
    }

    pub fn e(&self) -> (v: u16)
        ensures
            v == self.2@[14],
    {
        self.2[14]
    }

    pub fn f(&self) -> (v: u16)
        ensures
            v == self.2@[15],
    {
        self.2[15]
    }
}

impl Default for DataRegisters {
    fn default() -> (r: DataRegisters)
        ensures
            r.0 == 0,
            r.1 == 0,
            r.2@ == default_registers(),
    {
        DataRegisters(0, 0, default_register_bank())
    }
}

/// A clock cycle never changes the constant registers 5 to 9 (0, 1, -1, AMASK
/// and SMASK): only a write from outside the datapath can.
pub proof fn lemma_cycle_keeps_constants(d: Datapath, s: ControlSignals, i: int)
    requires
        s.fits(),
        d.bank().len() == 16,
        5 <= i <= 9,
    ensures
        d.cycle_bank(s)[i] == d.bank()[i],
        d.cycle_bank(s).len() == 16,
{
}

/// What a clock cycle writes: only register `c` of the bank can change, and
/// it takes the value on bus C when `enc` is set and it is not one of the
/// constants 5 to 9; MAR, when loaded, takes the low 12 bits of bus B.
pub proof fn lemma_cycle_writes(d: Datapath, s: ControlSignals)
    requires
        s.fits(),
        d.bank().len() == 16,
    ensures
        d.cycle_bank(s).len() == 16,
        forall|i: int| 0 <= i < 16 && i != s.c ==> #[trigger] d.cycle_bank(s)[i] == d.bank()[i],
        s.enc && !(5 <= s.c <= 9) ==> d.cycle_bank(s)[s.c as int] == d.cycle_bus_c(s),
        !s.enc ==> d.cycle_bank(s) == d.bank(),
        s.mar ==> d.cycle_mar(s) == d.bank()[s.b as int] & 0x0FFFu16,
        !s.mar ==> d.cycle_mar(s) == d.mar_value(),
{
    let b = d.bank()[s.b as int];
    assert(b & 0x0FFFu16 == b % 4096) by (bit_vector);
}

/// After a reset the constant registers hold 0, 1, -1, AMASK (the low 12 bits)
/// and SMASK (the low 8 bits).
pub proof fn lemma_reset_constants()
    ensures
        default_registers()[5] == 0,
        default_registers()[6] == 1,
        default_registers()[7] == 0xffff,
        default_registers()[8] == 4095,
        default_registers()[9] == 255,
        default_registers()[2] == 4096,
{
}

} // verus!
