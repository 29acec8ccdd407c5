use vstd::prelude::*;

verus! {

/// The bits `start..end` of a 64-bit microinstruction, counted from the most
/// significant bit.
pub open spec fn field_of(n: u64, start: u64, end: u64) -> u64
    recommends
        start < end <= 64,
{
    (n >> ((64 - end) as u64)) & (((1u64 << ((end - start) as u64)) - 1) as u64)
}

/// Whether bit `i` (counted from the most significant bit) of `n` is set.
pub open spec fn bit_of(n: u64, i: u64) -> bool
    recommends
        i < 64,
{
    (n >> ((63 - i) as u64)) & 1 == 1
}

/// `v`, cut to `end - start` bits and moved to the bits `start..end` (counted
/// from the most significant bit).
pub open spec fn placed(v: u64, start: u64, end: u64) -> u64
    recommends
        start < end <= 64,
{
    (v & (((1u64 << ((end - start) as u64)) - 1) as u64)) << ((64 - end) as u64)
}

/// `b` as bit `i` (counted from the most significant bit).
pub open spec fn placed_bit(b: bool, i: u64) -> u64
    recommends
        i < 64,
{
    (if b { 1u64 } else { 0u64 }) << ((63 - i) as u64)
}

proof fn lemma_low_mask(len: u64)
    requires
        1 <= len < 64,
    ensures
        (1u64 << len) >= 1,
{
    assert((1u64 << len) >= 1) by (bit_vector)
        requires
            1 <= len < 64,
    ;
}

#[inline]
fn slice_bits(bits: &u64, start: u64, end: u64) -> (r: u8)
    requires
        start < end <= 64,
        end - start <= 8,
    ensures
        r as u64 == field_of(*bits, start, end),
{
    let len = end - start;
    proof {
        lemma_low_mask(len);
    }
    let mask: u64 = (1u64 << len) - 1;
    let shift = 64 - end;
    let v = (*bits >> shift) & mask;
    assert(v <= mask) by (bit_vector)
        requires
            v == (*bits >> shift) & mask,
    ;
    assert(mask < 256) by (bit_vector)
        requires
            mask == (1u64 << len) - 1,
            len <= 8,
            len >= 1,
    ;
    v as u8
}

#[inline]
fn slice_bits_u16(bits: &u64, start: u64, end: u64) -> (r: u16)
    requires
        start < end <= 64,
        end - start <= 16,
    ensures
        r as u64 == field_of(*bits, start, end),
{
    let len = end - start;
    proof {
        lemma_low_mask(len);
    }
    let mask: u64 = (1u64 << len) - 1;
    let shift = 64 - end;
    let v = (*bits >> shift) & mask;
    assert(v <= mask) by (bit_vector)
        requires
            v == (*bits >> shift) & mask,
    ;
    assert(mask < 65536) by (bit_vector)
        requires
            mask == (1u64 << len) - 1,
            len <= 16,
            len >= 1,
    ;
    v as u16
}

#[inline]
fn get_bit(bits: &u64, i: u64) -> (r: bool)
    requires
        i < 64,
    ensures
        r == bit_of(*bits, i),
{
    ((*bits >> (63 - i)) & 1) == 1
}

#[inline]
fn position_bits(n: u64, start: u64, end: u64) -> (r: u64)
    requires
        start < end <= 64,
        end - start < 64,
    ensures
        r == placed(n, start, end),
{
    let len = end - start;
    proof {
        lemma_low_mask(len);
    }
    let mask: u64 = (1u64 << len) - 1;
    (n & mask) << (64 - end)
}

#[inline]
fn position_bit(b: bool, i: u64) -> (r: u64)
    requires
        i < 64,
    ensures
        r == placed_bit(b, i),
{
    (if b { 1u64 } else { 0u64 }) << (63 - i)
}

/// The flags that the ALU sets on each operation: `z` when the result is zero,
/// `n` when it is negative.
#[derive(Clone, Copy, Debug, PartialEq, Eq, Structural)]
pub struct ALUSignals {
    pub z: bool,
    pub n: bool,
}

/// The fields of a microinstruction, the signals that the control unit sends to
/// the datapath and the memory in one clock cycle.
#[derive(Clone, Copy, Debug, PartialEq, Eq, Structural)]
pub struct ControlSignals {
    pub amux: bool,
    pub cond: u8,
    pub alu: u8,
    pub sh: u8,
    pub mbr: bool,
    pub mar: bool,
    pub rd: bool,
    pub wr: bool,
    pub enc: bool,
    pub c: u8,
    pub b: u8,
    pub a: u8,
    pub addr: u16,
    pub syscall: bool,
}

impl ControlSignals {
    /// Every field fits the width that it has in the encoded microinstruction.
    pub open spec fn fits(&self) -> bool {
        &&& self.cond < 4
        &&& self.alu < 4
        &&& self.sh < 4
        &&& self.c < 16
        &&& self.b < 16
        &&& self.a < 16
        &&& self.addr < 1024
    }

    /// The microinstruction word that holds these signals: amux at bit 0, cond at
    /// 1..3, alu at 3..5, sh at 5..7, mbr, mar, rd, wr, enc at 7..12, c at 12..16,
    /// b at 16..20, a at 20..24 and addr at 24..34, counted from the most
    /// significant bit; the other 30 bits are clear. The `syscall` flag is not
    /// part of the word: it stays with the parsed microinstruction.
    pub open spec fn encoded(&self) -> u64 {
        placed_bit(self.amux, 0) | placed(self.cond as u64, 1, 3) | placed(self.alu as u64, 3, 5)
            | placed(self.sh as u64, 5, 7) | placed_bit(self.mbr, 7) | placed_bit(self.mar, 8)
            | placed_bit(self.rd, 9) | placed_bit(self.wr, 10) | placed_bit(self.enc, 11)
            | placed(self.c as u64, 12, 16) | placed(self.b as u64, 16, 20) | placed(
            self.a as u64,
            20,
            24,
        ) | placed(self.addr as u64, 24, 34)
    }

    /// The signals that the microinstruction word `n` holds (without `syscall`,
    /// which no word holds); its 30 least significant bits are ignored.
    pub open spec fn decoded(n: u64) -> ControlSignals {
        ControlSignals {
            amux: bit_of(n, 0),
            cond: field_of(n, 1, 3) as u8,
            alu: field_of(n, 3, 5) as u8,
            sh: field_of(n, 5, 7) as u8,
            mbr: bit_of(n, 7),
            mar: bit_of(n, 8),
            rd: bit_of(n, 9),
            wr: bit_of(n, 10),
            enc: bit_of(n, 11),
            c: field_of(n, 12, 16) as u8,
            b: field_of(n, 16, 20) as u8,
            a: field_of(n, 20, 24) as u8,
            addr: field_of(n, 24, 34) as u16,
            syscall: false,
        }
    }

    /// All signals off.
    pub open spec fn default_signals() -> ControlSignals {
        ControlSignals {
            amux: false,
            cond: 0,
            alu: 0,
            sh: 0,
            mbr: false,
            mar: false,
            rd: false,
            wr: false,
            enc: false,
            c: 0,
            b: 0,
            a: 0,
            addr: 0,
            syscall: false,
        }
    }

    /// Decodes a microinstruction word.
    pub fn from_word(n: &u64) -> (s: ControlSignals)
        ensures
            s == Self::decoded(*n),
            s.fits(),
    {
        let s = ControlSignals {
            amux: get_bit(n, 0),
            cond: slice_bits(n, 1, 3),
            alu: slice_bits(n, 3, 5),
            sh: slice_bits(n, 5, 7),
            mbr: get_bit(n, 7),
            mar: get_bit(n, 8),
            rd: get_bit(n, 9),
            wr: get_bit(n, 10),
            enc: get_bit(n, 11),
            c: slice_bits(n, 12, 16),
            b: slice_bits(n, 16, 20),
            a: slice_bits(n, 20, 24),
            addr: slice_bits_u16(n, 24, 34),
            syscall: false,
        };
        proof {
            let x = *n;
            assert(field_of(x, 1, 3) < 4 && field_of(x, 3, 5) < 4 && field_of(x, 5, 7) < 4)
                by (bit_vector);
            assert(field_of(x, 12, 16) < 16 && field_of(x, 16, 20) < 16 && field_of(x, 20, 24)
                < 16 && field_of(x, 24, 34) < 1024) by (bit_vector);
        }
        s
    }

    /// Encodes these signals as a microinstruction word.
    pub fn to_word(&self) -> (n: u64)
        ensures
            n == self.encoded(),
    {
        position_bit(self.amux, 0) | position_bits(self.cond as u64, 1, 3) | position_bits(
            self.alu as u64,
            3,
            5,
        ) | position_bits(self.sh as u64, 5, 7) | position_bit(self.mbr, 7) | position_bit(
            self.mar,
            8,
        ) | position_bit(self.rd, 9) | position_bit(self.wr, 10) | position_bit(self.enc, 11)
            | position_bits(self.c as u64, 12, 16) | position_bits(self.b as u64, 16, 20)
            | position_bits(self.a as u64, 20, 24) | position_bits(self.addr as u64, 24, 34)
    }
}

impl Default for ControlSignals {
    fn default() -> (s: ControlSignals)
        ensures
            s == ControlSignals::default_signals(),
            s.fits(),
    {
        ControlSignals {
            amux: false,
            cond: 0,
            alu: 0,
            sh: 0,
            mbr: false,
            mar: false,
            rd: false,
            wr: false,
            enc: false,
            c: 0,
            b: 0,
            a: 0,
            addr: 0,
            syscall: false,
        }
    }
}

impl From<&u64> for ControlSignals {
    fn from(n: &u64) -> (s: ControlSignals) {
        ControlSignals::from_word(n)
    }
}

impl vstd::std_specs::convert::FromSpecImpl<&u64> for ControlSignals {
    open spec fn obeys_from_spec() -> bool {
        true
    }

    open spec fn from_spec(n: &u64) -> ControlSignals {
        ControlSignals::decoded(*n)
    }
}

impl From<ControlSignals> for u64 {
    fn from(s: ControlSignals) -> (n: u64) {
        s.to_word()
    }
}

impl vstd::std_specs::convert::FromSpecImpl<ControlSignals> for u64 {
    open spec fn obeys_from_spec() -> bool {
        true
    }

    open spec fn from_spec(s: ControlSignals) -> u64 {
        s.encoded()
    }
}

/// Decoding the word that encodes signals whose fields fit their widths gives
/// back the same signals, but for `syscall`, which the word does not hold; the
/// 30 least significant bits of the word are clear.
pub proof fn lemma_decode_encode(s: ControlSignals)
    requires
        s.fits(),
    ensures
        ControlSignals::decoded(s.encoded()) == (ControlSignals { syscall: false, ..s }),
        s.encoded() & !signal_bits_mask() == 0,
{
    let (amux, mbr, mar, rd, wr, enc) = (s.amux, s.mbr, s.mar, s.rd, s.wr, s.enc);
    let (cond, alu, sh, c, b, a, addr) = (
        s.cond as u64,
        s.alu as u64,
        s.sh as u64,
        s.c as u64,
        s.b as u64,
        s.a as u64,
        s.addr as u64,
    );
    let n = s.encoded();
    assert(n == placed_bit(amux, 0) | placed(cond, 1, 3) | placed(alu, 3, 5) | placed(sh, 5, 7)
        | placed_bit(mbr, 7) | placed_bit(mar, 8) | placed_bit(rd, 9) | placed_bit(wr, 10)
        | placed_bit(enc, 11) | placed(c, 12, 16) | placed(b, 16, 20) | placed(a, 20, 24) | placed(
        addr,
        24,
        34,
    ));
    assert(bit_of(n, 0) == amux && bit_of(n, 7) == mbr && bit_of(n, 8) == mar && bit_of(n, 9)
        == rd && bit_of(n, 10) == wr && bit_of(n, 11) == enc)
        by (bit_vector)
        requires
            n == placed_bit(amux, 0) | placed(cond, 1, 3) | placed(alu, 3, 5) | placed(sh, 5, 7)
                | placed_bit(mbr, 7) | placed_bit(mar, 8) | placed_bit(rd, 9) | placed_bit(wr, 10)
                | placed_bit(enc, 11) | placed(c, 12, 16) | placed(b, 16, 20) | placed(a, 20, 24)
                | placed(addr, 24, 34),
    ;
    assert(field_of(n, 1, 3) == cond && field_of(n, 3, 5) == alu && field_of(n, 5, 7) == sh)
        by (bit_vector)
        requires
            cond < 4,
            alu < 4,
            sh < 4,
            n == placed_bit(amux, 0) | placed(cond, 1, 3) | placed(alu, 3, 5) | placed(sh, 5, 7)
                | placed_bit(mbr, 7) | placed_bit(mar, 8) | placed_bit(rd, 9) | placed_bit(wr, 10)
                | placed_bit(enc, 11) | placed(c, 12, 16) | placed(b, 16, 20) | placed(a, 20, 24)
                | placed(addr, 24, 34),
    ;
    assert(field_of(n, 12, 16) == c && field_of(n, 16, 20) == b && field_of(n, 20, 24) == a
        && field_of(n, 24, 34) == addr) by (bit_vector)
        requires
            c < 16,
            b < 16,
            a < 16,
            addr < 1024,
            n == placed_bit(amux, 0) | placed(cond, 1, 3) | placed(alu, 3, 5) | placed(sh, 5, 7)
                | placed_bit(mbr, 7) | placed_bit(mar, 8) | placed_bit(rd, 9) | placed_bit(wr, 10)
                | placed_bit(enc, 11) | placed(c, 12, 16) | placed(b, 16, 20) | placed(a, 20, 24)
                | placed(addr, 24, 34),
    ;
    assert(n & !0xffff_ffff_c000_0000u64 == 0) by (bit_vector)
        requires
            cond < 4,
            alu < 4,
            sh < 4,
            c < 16,
            b < 16,
            a < 16,
            addr < 1024,
            n == placed_bit(amux, 0) | placed(cond, 1, 3) | placed(alu, 3, 5) | placed(sh, 5, 7)
                | placed_bit(mbr, 7) | placed_bit(mar, 8) | placed_bit(rd, 9) | placed_bit(wr, 10)
                | placed_bit(enc, 11) | placed(c, 12, 16) | placed(b, 16, 20) | placed(a, 20, 24)
                | placed(addr, 24, 34),
    ;
}

/// The bits of a microinstruction word that hold signals: the 34 most significant.
pub open spec fn signal_bits_mask() -> u64 {
    0xffff_ffff_c000_0000u64
}

/// Encoding the signals that a word holds gives back the word, with the bits
/// that hold no signal cleared.
pub proof fn lemma_encode_decode(n: u64)
    ensures
        ControlSignals::decoded(n).encoded() == n & signal_bits_mask(),
{
    let s = ControlSignals::decoded(n);
    let (amux, mbr, mar, rd, wr, enc) = (s.amux, s.mbr, s.mar, s.rd, s.wr, s.enc);
    assert(field_of(n, 1, 3) < 4 && field_of(n, 3, 5) < 4 && field_of(n, 5, 7) < 4)
        by (bit_vector);
    assert(field_of(n, 12, 16) < 16 && field_of(n, 16, 20) < 16 && field_of(n, 20, 24) < 16
        && field_of(n, 24, 34) < 1024) by (bit_vector);
    let (cond, alu, sh, c, b, a, addr) = (
        s.cond as u64,
        s.alu as u64,
        s.sh as u64,
        s.c as u64,
        s.b as u64,
        s.a as u64,
        s.addr as u64,
    );
    assert(placed_bit(amux, 0) | placed(cond, 1, 3) | placed(alu, 3, 5) | placed(sh, 5, 7)
        | placed_bit(mbr, 7) | placed_bit(mar, 8) | placed_bit(rd, 9) | placed_bit(wr, 10)
        | placed_bit(enc, 11) | placed(c, 12, 16) | placed(b, 16, 20) | placed(a, 20, 24) | placed(
        addr,
        24,
        34,
    ) == n & 0xffff_ffff_c000_0000u64) by (bit_vector)
        requires
            amux == bit_of(n, 0),
            mbr == bit_of(n, 7),
            mar == bit_of(n, 8),
            rd == bit_of(n, 9),
            wr == bit_of(n, 10),
            enc == bit_of(n, 11),
            cond == field_of(n, 1, 3),
            alu == field_of(n, 3, 5),
            sh == field_of(n, 5, 7),
            c == field_of(n, 12, 16),
            b == field_of(n, 16, 20),
            a == field_of(n, 20, 24),
            addr == field_of(n, 24, 34),
    ;
}

} // verus!
