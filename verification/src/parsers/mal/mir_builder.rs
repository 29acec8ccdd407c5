use crate::architecture::signals::ControlSignals;
use crate::parsers::source_map::Span;
use vstd::prelude::*;

verus! {

/// The control signals of one microinstruction while its statements are read:
/// each signal may be set once, and set again only to the same value. The
/// address is held as the span of the label that names it.
#[derive(Debug, Clone, Copy, PartialEq, Eq, Structural)]
pub struct ControlSignalsBuilder {
    pub amux: Option<bool>,
    pub cond: Option<u8>,
    pub alu: Option<u8>,
    pub sh: Option<u8>,
    pub mbr: Option<bool>,
    pub mar: Option<bool>,
    pub rd: Option<bool>,
    pub wr: Option<bool>,
    pub enc: Option<bool>,
    pub c: Option<u8>,
    pub b: Option<u8>,
    pub a: Option<u8>,
    pub addr_name: Option<Span>,
    pub syscall: Option<bool>,
}

/// A signal was given a value other than the one it already had, at `span`.
#[derive(Debug, PartialEq, Eq)]
pub struct ValueConflict<'a, T> {
    pub name: &'static str,
    pub before: T,
    pub after: T,
    pub span: &'a Span,
}

/// Whether a slot holding `slot` refuses `value`: it holds another value.
pub open spec fn refuses<T>(slot: Option<T>, value: T) -> bool {
    slot matches Some(v) && v != value
}

fn put<'a, T: Copy + PartialEq>(slot: &mut Option<T>, value: T, name: &'static str, span: &'a Span) -> (r:
    Result<T, ValueConflict<'a, T>>)
    where
        T: vstd::std_specs::cmp::PartialEqSpec,
    requires
        T::obeys_eq_spec(),
        forall|x: T, y: T| x.eq_spec(&y) <==> x == y,
    ensures
        refuses(*old(slot), value) ==> (r matches Err(e) && e.name == name && e.before == old(slot)->0
            && e.after == value && e.span == span && *final(slot) == *old(slot)),
        !refuses(*old(slot), value) ==> r == Ok::<T, ValueConflict<'a, T>>(value) && *final(slot) == Some(
            value,
        ),
{
    match *slot {
        Some(v) => {
            if v != value {
                return Err(ValueConflict { name, before: v, after: value, span });
            }
        },
        None => {},
    }
    *slot = Some(value);
    Ok(value)
}

fn put_span<'a>(slot: &mut Option<Span>, value: Span, name: &'static str, span: &'a Span) -> (r: Result<
    Span,
    ValueConflict<'a, Span>,
>)
    ensures
        refuses(*old(slot), value) ==> (r matches Err(e) && e.name == name && e.before == old(slot)->0
            && e.after == value && e.span == span && *final(slot) == *old(slot)),
        !refuses(*old(slot), value) ==> r == Ok::<Span, ValueConflict<'a, Span>>(value) && *final(slot)
            == Some(value),
{
    match *slot {
        Some(v) => {
            if v != value {
                return Err(ValueConflict { name, before: v, after: value, span });
            }
        },
        None => {},
    }
    *slot = Some(value);
    Ok(value)
}

impl Default for ControlSignalsBuilder {
    /// No signal set.
    fn default() -> (s: ControlSignalsBuilder)
        ensures
            s == ControlSignalsBuilder::empty(),
    {
        ControlSignalsBuilder {
            amux: None,
            cond: None,
            alu: None,
            sh: None,
            mbr: None,
            mar: None,
            rd: None,
            wr: None,
            enc: None,
            c: None,
            b: None,
            a: None,
            addr_name: None,
            syscall: None,
        }
    }
}

impl ControlSignalsBuilder {
    /// The builder with no signal set.
    pub open spec fn empty() -> ControlSignalsBuilder {
        ControlSignalsBuilder {
            amux: None,
            cond: None,
            alu: None,
            sh: None,
            mbr: None,
            mar: None,
            rd: None,
            wr: None,
            enc: None,
            c: None,
            b: None,
            a: None,
            addr_name: None,
            syscall: None,
        }
    }

    /// The signals: those that were not set are off or zero, and the address is
    /// `addr`.
    pub open spec fn built(&self, addr: u16) -> ControlSignals {
        ControlSignals {
            amux: self.amux.unwrap_or(false),
            cond: self.cond.unwrap_or(0u8),
            alu: self.alu.unwrap_or(0u8),
            sh: self.sh.unwrap_or(0u8),
            mbr: self.mbr.unwrap_or(false),
            mar: self.mar.unwrap_or(false),
            rd: self.rd.unwrap_or(false),
            wr: self.wr.unwrap_or(false),
            enc: self.enc.unwrap_or(false),
            c: self.c.unwrap_or(0u8),
            b: self.b.unwrap_or(0u8),
            a: self.a.unwrap_or(0u8),
            addr,
            syscall: self.syscall.unwrap_or(false),
        }
    }

    /// A builder with no signal set.
    pub fn new() -> (s: ControlSignalsBuilder)
        ensures
            s == ControlSignalsBuilder::empty(),
    {
        ControlSignalsBuilder::default()
    }

    /// The signals, with `addr` as the address.
    pub fn build(self, addr: u16) -> (s: ControlSignals)
        ensures
            s == self.built(addr),
    {
        ControlSignals {
            amux: self.amux.unwrap_or(false),
            cond: self.cond.unwrap_or(0),
            alu: self.alu.unwrap_or(0),
            sh: self.sh.unwrap_or(0),
            mbr: self.mbr.unwrap_or(false),
            mar: self.mar.unwrap_or(false),
            rd: self.rd.unwrap_or(false),
            wr: self.wr.unwrap_or(false),
            enc: self.enc.unwrap_or(false),
            c: self.c.unwrap_or(0),
            b: self.b.unwrap_or(0),
            a: self.a.unwrap_or(0),
            addr,
            syscall: self.syscall.unwrap_or(false),
        }
    }

    /// Sets `amux` to `value`, unless it already holds another value; the
    /// conflict is reported at `span`.
    pub fn amux<'a>(&mut self, value: bool, span: &'a Span) -> (r: Result<bool, ValueConflict<'a, bool>>)
        ensures
            refuses(old(self).amux, value) ==> (r matches Err(e) && e.name@ == "amux"@ && e.before
                == old(self).amux->0 && e.after == value && e.span == span && *final(self) == *old(self)),
            !refuses(old(self).amux, value) ==> r == Ok::<bool, ValueConflict<'a, bool>>(value) && *final(self)
                == (ControlSignalsBuilder { amux: Some(value), ..*old(self) }),
    {
        put(&mut self.amux, value, "amux", span)
    }

    /// The value of `amux`, if it was set.
    pub fn get_amux(&self) -> (r: Option<&bool>)
        ensures
            r matches Some(v) ==> self.amux == Some(*v),
            r is None ==> self.amux is None,
    {
        self.amux.as_ref()
    }

    /// Sets `amux` to `value`, whatever it held.
    pub fn amux_force(&mut self, value: bool)
        ensures
            *final(self) == (ControlSignalsBuilder { amux: Some(value), ..*old(self) }),
    {
        self.amux = Some(value);
    }

    /// Sets `cond` to `value`, unless it already holds another value; the
    /// conflict is reported at `span`.
    pub fn cond<'a>(&mut self, value: u8, span: &'a Span) -> (r: Result<u8, ValueConflict<'a, u8>>)
        ensures
            refuses(old(self).cond, value) ==> (r matches Err(e) && e.name@ == "cond"@ && e.before
                == old(self).cond->0 && e.after == value && e.span == span && *final(self) == *old(self)),
            !refuses(old(self).cond, value) ==> r == Ok::<u8, ValueConflict<'a, u8>>(value) && *final(self)
                == (ControlSignalsBuilder { cond: Some(value), ..*old(self) }),
    {
        put(&mut self.cond, value, "cond", span)
    }

    /// The value of `cond`, if it was set.
    pub fn get_cond(&self) -> (r: Option<&u8>)
        ensures
            r matches Some(v) ==> self.cond == Some(*v),
            r is None ==> self.cond is None,
    {
        self.cond.as_ref()
    }

    /// Sets `cond` to `value`, whatever it held.
    pub fn cond_force(&mut self, value: u8)
        ensures
            *final(self) == (ControlSignalsBuilder { cond: Some(value), ..*old(self) }),
    {
        self.cond = Some(value);
    }

    /// Sets `alu` to `value`, unless it already holds another value; the
    /// conflict is reported at `span`.
    pub fn alu<'a>(&mut self, value: u8, span: &'a Span) -> (r: Result<u8, ValueConflict<'a, u8>>)
        ensures
            refuses(old(self).alu, value) ==> (r matches Err(e) && e.name@ == "alu"@ && e.before
                == old(self).alu->0 && e.after == value && e.span == span && *final(self) == *old(self)),
            !refuses(old(self).alu, value) ==> r == Ok::<u8, ValueConflict<'a, u8>>(value) && *final(self)
                == (ControlSignalsBuilder { alu: Some(value), ..*old(self) }),
    {
        put(&mut self.alu, value, "alu", span)
    }

    /// The value of `alu`, if it was set.
    pub fn get_alu(&self) -> (r: Option<&u8>)
        ensures
            r matches Some(v) ==> self.alu == Some(*v),
            r is None ==> self.alu is None,
    {
        self.alu.as_ref()
    }

    /// Sets `alu` to `value`, whatever it held.
    pub fn alu_force(&mut self, value: u8)
        ensures
            *final(self) == (ControlSignalsBuilder { alu: Some(value), ..*old(self) }),
    {
        self.alu = Some(value);
    }

    /// Sets `sh` to `value`, unless it already holds another value; the
    /// conflict is reported at `span`.
    pub fn sh<'a>(&mut self, value: u8, span: &'a Span) -> (r: Result<u8, ValueConflict<'a, u8>>)
        ensures
            refuses(old(self).sh, value) ==> (r matches Err(e) && e.name@ == "sh"@ && e.before
                == old(self).sh->0 && e.after == value && e.span == span && *final(self) == *old(self)),
            !refuses(old(self).sh, value) ==> r == Ok::<u8, ValueConflict<'a, u8>>(value) && *final(self)
                == (ControlSignalsBuilder { sh: Some(value), ..*old(self) }),
    {
        put(&mut self.sh, value, "sh", span)
    }

    /// The value of `sh`, if it was set.
    pub fn get_sh(&self) -> (r: Option<&u8>)
        ensures
            r matches Some(v) ==> self.sh == Some(*v),
            r is None ==> self.sh is None,
    {
        self.sh.as_ref()
    }

    /// Sets `sh` to `value`, whatever it held.
    pub fn sh_force(&mut self, value: u8)
        ensures
            *final(self) == (ControlSignalsBuilder { sh: Some(value), ..*old(self) }),
    {
        self.sh = Some(value);
    }

    /// Sets `mbr` to `value`, unless it already holds another value; the
    /// conflict is reported at `span`.
    pub fn mbr<'a>(&mut self, value: bool, span: &'a Span) -> (r: Result<bool, ValueConflict<'a, bool>>)
        ensures
            refuses(old(self).mbr, value) ==> (r matches Err(e) && e.name@ == "mbr"@ && e.before
                == old(self).mbr->0 && e.after == value && e.span == span && *final(self) == *old(self)),
            !refuses(old(self).mbr, value) ==> r == Ok::<bool, ValueConflict<'a, bool>>(value) && *final(self)
                == (ControlSignalsBuilder { mbr: Some(value), ..*old(self) }),
    {
        put(&mut self.mbr, value, "mbr", span)
    }

    /// The value of `mbr`, if it was set.
    pub fn get_mbr(&self) -> (r: Option<&bool>)
        ensures
            r matches Some(v) ==> self.mbr == Some(*v),
            r is None ==> self.mbr is None,
    {
        self.mbr.as_ref()
    }

    /// Sets `mbr` to `value`, whatever it held.
    pub fn mbr_force(&mut self, value: bool)
        ensures
            *final(self) == (ControlSignalsBuilder { mbr: Some(value), ..*old(self) }),
    {
        self.mbr = Some(value);
    }

    /// Sets `mar` to `value`, unless it already holds another value; the
    /// conflict is reported at `span`.
    pub fn mar<'a>(&mut self, value: bool, span: &'a Span) -> (r: Result<bool, ValueConflict<'a, bool>>)
        ensures
            refuses(old(self).mar, value) ==> (r matches Err(e) && e.name@ == "mar"@ && e.before
                == old(self).mar->0 && e.after == value && e.span == span && *final(self) == *old(self)),
            !refuses(old(self).mar, value) ==> r == Ok::<bool, ValueConflict<'a, bool>>(value) && *final(self)
                == (ControlSignalsBuilder { mar: Some(value), ..*old(self) }),
    {
        put(&mut self.mar, value, "mar", span)
    }

    /// The value of `mar`, if it was set.
    pub fn get_mar(&self) -> (r: Option<&bool>)
        ensures
            r matches Some(v) ==> self.mar == Some(*v),
            r is None ==> self.mar is None,
    {
        self.mar.as_ref()
    }

    /// Sets `mar` to `value`, whatever it held.
    pub fn mar_force(&mut self, value: bool)
        ensures
            *final(self) == (ControlSignalsBuilder { mar: Some(value), ..*old(self) }),
    {
        self.mar = Some(value);
    }

    /// Sets `rd` to `value`, unless it already holds another value; the
    /// conflict is reported at `span`.
    pub fn rd<'a>(&mut self, value: bool, span: &'a Span) -> (r: Result<bool, ValueConflict<'a, bool>>)
        ensures
            refuses(old(self).rd, value) ==> (r matches Err(e) && e.name@ == "rd"@ && e.before
                == old(self).rd->0 && e.after == value && e.span == span && *final(self) == *old(self)),
            !refuses(old(self).rd, value) ==> r == Ok::<bool, ValueConflict<'a, bool>>(value) && *final(self)
                == (ControlSignalsBuilder { rd: Some(value), ..*old(self) }),
    {
        put(&mut self.rd, value, "rd", span)
    }

    /// The value of `rd`, if it was set.
    pub fn get_rd(&self) -> (r: Option<&bool>)
        ensures
            r matches Some(v) ==> self.rd == Some(*v),
            r is None ==> self.rd is None,
    {
        self.rd.as_ref()
    }

    /// Sets `rd` to `value`, whatever it held.
    pub fn rd_force(&mut self, value: bool)
        ensures
            *final(self) == (ControlSignalsBuilder { rd: Some(value), ..*old(self) }),
    {
        self.rd = Some(value);
    }

    /// Sets `wr` to `value`, unless it already holds another value; the
    /// conflict is reported at `span`.
    pub fn wr<'a>(&mut self, value: bool, span: &'a Span) -> (r: Result<bool, ValueConflict<'a, bool>>)
        ensures
            refuses(old(self).wr, value) ==> (r matches Err(e) && e.name@ == "wr"@ && e.before
                == old(self).wr->0 && e.after == value && e.span == span && *final(self) == *old(self)),
            !refuses(old(self).wr, value) ==> r == Ok::<bool, ValueConflict<'a, bool>>(value) && *final(self)
                == (ControlSignalsBuilder { wr: Some(value), ..*old(self) }),
    {
        put(&mut self.wr, value, "wr", span)
    }

    /// The value of `wr`, if it was set.
    pub fn get_wr(&self) -> (r: Option<&bool>)
        ensures
            r matches Some(v) ==> self.wr == Some(*v),
            r is None ==> self.wr is None,
    {
        self.wr.as_ref()
    }

    /// Sets `wr` to `value`, whatever it held.
    pub fn wr_force(&mut self, value: bool)
        ensures
            *final(self) == (ControlSignalsBuilder { wr: Some(value), ..*old(self) }),
    {
        self.wr = Some(value);
    }

    /// Sets `enc` to `value`, unless it already holds another value; the
    /// conflict is reported at `span`.
    pub fn enc<'a>(&mut self, value: bool, span: &'a Span) -> (r: Result<bool, ValueConflict<'a, bool>>)
        ensures
            refuses(old(self).enc, value) ==> (r matches Err(e) && e.name@ == "enc"@ && e.before
                == old(self).enc->0 && e.after == value && e.span == span && *final(self) == *old(self)),
            !refuses(old(self).enc, value) ==> r == Ok::<bool, ValueConflict<'a, bool>>(value) && *final(self)
                == (ControlSignalsBuilder { enc: Some(value), ..*old(self) }),
    {
        put(&mut self.enc, value, "enc", span)
    }

    /// The value of `enc`, if it was set.
    pub fn get_enc(&self) -> (r: Option<&bool>)
        ensures
            r matches Some(v) ==> self.enc == Some(*v),
            r is None ==> self.enc is None,
    {
        self.enc.as_ref()
    }

    /// Sets `enc` to `value`, whatever it held.
    pub fn enc_force(&mut self, value: bool)
        ensures
            *final(self) == (ControlSignalsBuilder { enc: Some(value), ..*old(self) }),
    {
        self.enc = Some(value);
    }

    /// Sets `c` to `value`, unless it already holds another value; the
    /// conflict is reported at `span`.
    pub fn c<'a>(&mut self, value: u8, span: &'a Span) -> (r: Result<u8, ValueConflict<'a, u8>>)
        ensures
            refuses(old(self).c, value) ==> (r matches Err(e) && e.name@ == "c"@ && e.before
                == old(self).c->0 && e.after == value && e.span == span && *final(self) == *old(self)),
            !refuses(old(self).c, value) ==> r == Ok::<u8, ValueConflict<'a, u8>>(value) && *final(self)
                == (ControlSignalsBuilder { c: Some(value), ..*old(self) }),
    {
        put(&mut self.c, value, "c", span)
    }

    /// The value of `c`, if it was set.
    pub fn get_c(&self) -> (r: Option<&u8>)
        ensures
            r matches Some(v) ==> self.c == Some(*v),
            r is None ==> self.c is None,
    {
        self.c.as_ref()
    }

    /// Sets `c` to `value`, whatever it held.
    pub fn c_force(&mut self, value: u8)
        ensures
            *final(self) == (ControlSignalsBuilder { c: Some(value), ..*old(self) }),
    {
        self.c = Some(value);
    }

    /// Sets `b` to `value`, unless it already holds another value; the
    /// conflict is reported at `span`.
    pub fn b<'a>(&mut self, value: u8, span: &'a Span) -> (r: Result<u8, ValueConflict<'a, u8>>)
        ensures
            refuses(old(self).b, value) ==> (r matches Err(e) && e.name@ == "b"@ && e.before
                == old(self).b->0 && e.after == value && e.span == span && *final(self) == *old(self)),
            !refuses(old(self).b, value) ==> r == Ok::<u8, ValueConflict<'a, u8>>(value) && *final(self)
                == (ControlSignalsBuilder { b: Some(value), ..*old(self) }),
    {
        put(&mut self.b, value, "b", span)
    }

    /// The value of `b`, if it was set.
    pub fn get_b(&self) -> (r: Option<&u8>)
        ensures
            r matches Some(v) ==> self.b == Some(*v),
            r is None ==> self.b is None,
    {
        self.b.as_ref()
    }

    /// Sets `b` to `value`, whatever it held.
    pub fn b_force(&mut self, value: u8)
        ensures
            *final(self) == (ControlSignalsBuilder { b: Some(value), ..*old(self) }),
    {
        self.b = Some(value);
    }

    /// Sets `a` to `value`, unless it already holds another value; the
    /// conflict is reported at `span`.
    pub fn a<'a>(&mut self, value: u8, span: &'a Span) -> (r: Result<u8, ValueConflict<'a, u8>>)
        ensures
            refuses(old(self).a, value) ==> (r matches Err(e) && e.name@ == "a"@ && e.before
                == old(self).a->0 && e.after == value && e.span == span && *final(self) == *old(self)),
            !refuses(old(self).a, value) ==> r == Ok::<u8, ValueConflict<'a, u8>>(value) && *final(self)
                == (ControlSignalsBuilder { a: Some(value), ..*old(self) }),
    {
        put(&mut self.a, value, "a", span)
    }

    /// The value of `a`, if it was set.
    pub fn get_a(&self) -> (r: Option<&u8>)
        ensures
            r matches Some(v) ==> self.a == Some(*v),
            r is None ==> self.a is None,
    {
        self.a.as_ref()
    }

    /// Sets `a` to `value`, whatever it held.
    pub fn a_force(&mut self, value: u8)
        ensures
            *final(self) == (ControlSignalsBuilder { a: Some(value), ..*old(self) }),
    {
        self.a = Some(value);
    }

    /// Sets `addr_name` to `value`, unless it already holds another value; the
    /// conflict is reported at `span`.
    pub fn addr_name<'a>(&mut self, value: Span, span: &'a Span) -> (r: Result<Span, ValueConflict<'a, Span>>)
        ensures
            refuses(old(self).addr_name, value) ==> (r matches Err(e) && e.name@ == "addr_name"@ && e.before
                == old(self).addr_name->0 && e.after == value && e.span == span && *final(self) == *old(self)),
            !refuses(old(self).addr_name, value) ==> r == Ok::<Span, ValueConflict<'a, Span>>(value) && *final(self)
                == (ControlSignalsBuilder { addr_name: Some(value), ..*old(self) }),
    {
        put_span(&mut self.addr_name, value, "addr_name", span)
    }

    /// The value of `addr_name`, if it was set.
    pub fn get_addr_name(&self) -> (r: Option<&Span>)
        ensures
            r matches Some(v) ==> self.addr_name == Some(*v),
            r is None ==> self.addr_name is None,
    {
        self.addr_name.as_ref()
    }

    /// Sets `addr_name` to `value`, whatever it held.
    pub fn addr_name_force(&mut self, value: Span)
        ensures
            *final(self) == (ControlSignalsBuilder { addr_name: Some(value), ..*old(self) }),
    {
        self.addr_name = Some(value);
    }

    /// Sets `syscall` to `value`, unless it already holds another value; the
    /// conflict is reported at `span`.
    pub fn syscall<'a>(&mut self, value: bool, span: &'a Span) -> (r: Result<bool, ValueConflict<'a, bool>>)
        ensures
            refuses(old(self).syscall, value) ==> (r matches Err(e) && e.name@ == "syscall"@ && e.before
                == old(self).syscall->0 && e.after == value && e.span == span && *final(self) == *old(self)),
            !refuses(old(self).syscall, value) ==> r == Ok::<bool, ValueConflict<'a, bool>>(value) && *final(self)
                == (ControlSignalsBuilder { syscall: Some(value), ..*old(self) }),
    {
        put(&mut self.syscall, value, "syscall", span)
    }

    /// The value of `syscall`, if it was set.
    pub fn get_syscall(&self) -> (r: Option<&bool>)
        ensures
            r matches Some(v) ==> self.syscall == Some(*v),
            r is None ==> self.syscall is None,
    {
        self.syscall.as_ref()
    }

    /// Sets `syscall` to `value`, whatever it held.
    pub fn syscall_force(&mut self, value: bool)
        ensures
            *final(self) == (ControlSignalsBuilder { syscall: Some(value), ..*old(self) }),
    {
        self.syscall = Some(value);
    }
}

} // verus!
