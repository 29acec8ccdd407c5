use vstd::prelude::*;

verus! {

/// Control signals being gathered one by one: each may be set once, and set
/// again only to the same value.
#[derive(Debug, Clone, Copy, PartialEq, Eq, Structural)]
pub struct ControlSignalsLockable {
    pub amux: Option<bool>,
    pub cond: Option<u8>,
    pub alu: Option<u8>,
    pub sh: Option<u8>,
    pub mbr: Option<bool>,
    pub mar: Option<bool>,
    pub rd: Option<bool>,
    pub wr: Option<bool>,
    pub enc: Option<bool>,
    pub c: Option<u8>,
    pub b: Option<u8>,
    pub a: Option<u8>,
    pub addr: Option<u8>,
}

/// A signal was given a value other than the one it already had.
#[derive(Debug, Clone, Copy, PartialEq, Eq)]
pub struct ValueAlreadySet<T> {
    pub name: &'static str,
    pub before: T,
    pub now: T,
}

/// Whether a slot holding `slot` refuses `value`: it holds another value.
pub open spec fn refuses<T>(slot: Option<T>, value: T) -> bool {
    slot matches Some(v) && v != value
}

/// Sets `slot` to `value` unless it holds another value, which is reported
/// under `name`.
fn lock<T: Copy + PartialEq>(slot: &mut Option<T>, value: T, name: &'static str) -> (r: Result<T, ValueAlreadySet<T>>)
    where
        T: vstd::std_specs::cmp::PartialEqSpec,
    requires
        T::obeys_eq_spec(),
        forall|x: T, y: T| x.eq_spec(&y) <==> x == y,
    ensures
        refuses(*old(slot), value) ==> r == Err::<T, _>(
            ValueAlreadySet { name, before: old(slot)->0, now: value },
        ) && *final(slot) == *old(slot),
        !refuses(*old(slot), value) ==> r == Ok::<T, ValueAlreadySet<T>>(value) && *final(slot) == Some(value),
{
    match *slot {
        Some(v) => {
            if v != value {
                return Err(ValueAlreadySet { name, before: v, now: value });
            }
        },
        None => {},
    }
    *slot = Some(value);
    Ok(value)
}

impl Default for ControlSignalsLockable {
    /// No signal set.
    fn default() -> (s: ControlSignalsLockable)
        ensures
            s.is_empty(),
    {
        ControlSignalsLockable {
            amux: None,
            cond: None,
            alu: None,
            sh: None,
            mbr: None,
            mar: None,
            rd: None,
            wr: None,
            enc: None,
            c: None,
            b: None,
            a: None,
            addr: None,
        }
    }
}

impl ControlSignalsLockable {
    /// No signal is set.
    pub open spec fn is_empty(&self) -> bool {
        self.amux is None
        && self.cond is None
        && self.alu is None
        && self.sh is None
        && self.mbr is None
        && self.mar is None
        && self.rd is None
        && self.wr is None
        && self.enc is None
        && self.c is None
        && self.b is None
        && self.a is None
        && self.addr is None
    }

    /// Whether no signal is set.
    pub fn is_all_none(&self) -> (r: bool)
        ensures
            r == self.is_empty(),
    {
        self.amux.is_none()
            && self.cond.is_none()
            && self.alu.is_none()
            && self.sh.is_none()
            && self.mbr.is_none()
            && self.mar.is_none()
            && self.rd.is_none()
            && self.wr.is_none()
            && self.enc.is_none()
            && self.c.is_none()
            && self.b.is_none()
            && self.a.is_none()
            && self.addr.is_none()
    }

    /// Sets `amux` to `value`, unless it already holds another value.
    pub fn set_amux(&mut self, value: bool) -> (r: Result<bool, ValueAlreadySet<bool>>)
        ensures
            refuses(old(self).amux, value) ==> r is Err && r->Err_0.name@ == "amux"@ && r->Err_0.before
                == old(self).amux->0 && r->Err_0.now == value && *final(self) == *old(self),
            !refuses(old(self).amux, value) ==> r == Ok::<bool, ValueAlreadySet<bool>>(value) && *final(self) == (
            ControlSignalsLockable { amux: Some(value), ..*old(self) }),
    {
        lock(&mut self.amux, value, "amux")
    }

    /// Sets `cond` to `value`, unless it already holds another value.
    pub fn set_cond(&mut self, value: u8) -> (r: Result<u8, ValueAlreadySet<u8>>)
        ensures
            refuses(old(self).cond, value) ==> r is Err && r->Err_0.name@ == "cond"@ && r->Err_0.before
                == old(self).cond->0 && r->Err_0.now == value && *final(self) == *old(self),
            !refuses(old(self).cond, value) ==> r == Ok::<u8, ValueAlreadySet<u8>>(value) && *final(self) == (
            ControlSignalsLockable { cond: Some(value), ..*old(self) }),
    {
        lock(&mut self.cond, value, "cond")
    }

    /// Sets `alu` to `value`, unless it already holds another value.
    pub fn set_alu(&mut self, value: u8) -> (r: Result<u8, ValueAlreadySet<u8>>)
        ensures
            refuses(old(self).alu, value) ==> r is Err && r->Err_0.name@ == "alu"@ && r->Err_0.before
                == old(self).alu->0 && r->Err_0.now == value && *final(self) == *old(self),
            !refuses(old(self).alu, value) ==> r == Ok::<u8, ValueAlreadySet<u8>>(value) && *final(self) == (
            ControlSignalsLockable { alu: Some(value), ..*old(self) }),
    {
        lock(&mut self.alu, value, "alu")
    }

    /// Sets `sh` to `value`, unless it already holds another value.
    pub fn set_sh(&mut self, value: u8) -> (r: Result<u8, ValueAlreadySet<u8>>)
        ensures
            refuses(old(self).sh, value) ==> r is Err && r->Err_0.name@ == "sh"@ && r->Err_0.before
                == old(self).sh->0 && r->Err_0.now == value && *final(self) == *old(self),
            !refuses(old(self).sh, value) ==> r == Ok::<u8, ValueAlreadySet<u8>>(value) && *final(self) == (
            ControlSignalsLockable { sh: Some(value), ..*old(self) }),
    {
        lock(&mut self.sh, value, "sh")
    }

    /// Sets `mbr` to `value`, unless it already holds another value.
    pub fn set_mbr(&mut self, value: bool) -> (r: Result<bool, ValueAlreadySet<bool>>)
        ensures
            refuses(old(self).mbr, value) ==> r is Err && r->Err_0.name@ == "mbr"@ && r->Err_0.before
                == old(self).mbr->0 && r->Err_0.now == value && *final(self) == *old(self),
            !refuses(old(self).mbr, value) ==> r == Ok::<bool, ValueAlreadySet<bool>>(value) && *final(self) == (
            ControlSignalsLockable { mbr: Some(value), ..*old(self) }),
    {
        lock(&mut self.mbr, value, "mbr")
    }

    /// Sets `mar` to `value`, unless it already holds another value.
    pub fn set_mar(&mut self, value: bool) -> (r: Result<bool, ValueAlreadySet<bool>>)
        ensures
            refuses(old(self).mar, value) ==> r is Err && r->Err_0.name@ == "mar"@ && r->Err_0.before
                == old(self).mar->0 && r->Err_0.now == value && *final(self) == *old(self),
            !refuses(old(self).mar, value) ==> r == Ok::<bool, ValueAlreadySet<bool>>(value) && *final(self) == (
            ControlSignalsLockable { mar: Some(value), ..*old(self) }),
    {
        lock(&mut self.mar, value, "mar")
    }

    /// Sets `rd` to `value`, unless it already holds another value.
    pub fn set_rd(&mut self, value: bool) -> (r: Result<bool, ValueAlreadySet<bool>>)
        ensures
            refuses(old(self).rd, value) ==> r is Err && r->Err_0.name@ == "rd"@ && r->Err_0.before
                == old(self).rd->0 && r->Err_0.now == value && *final(self) == *old(self),
            !refuses(old(self).rd, value) ==> r == Ok::<bool, ValueAlreadySet<bool>>(value) && *final(self) == (
            ControlSignalsLockable { rd: Some(value), ..*old(self) }),
    {
        lock(&mut self.rd, value, "rd")
    }

    /// Sets `wr` to `value`, unless it already holds another value.
    pub fn set_wr(&mut self, value: bool) -> (r: Result<bool, ValueAlreadySet<bool>>)
        ensures
            refuses(old(self).wr, value) ==> r is Err && r->Err_0.name@ == "wr"@ && r->Err_0.before
                == old(self).wr->0 && r->Err_0.now == value && *final(self) == *old(self),
            !refuses(old(self).wr, value) ==> r == Ok::<bool, ValueAlreadySet<bool>>(value) && *final(self) == (
            ControlSignalsLockable { wr: Some(value), ..*old(self) }),
    {
        lock(&mut self.wr, value, "wr")
    }

    /// Sets `enc` to `value`, unless it already holds another value.
    pub fn set_enc(&mut self, value: bool) -> (r: Result<bool, ValueAlreadySet<bool>>)
        ensures
            refuses(old(self).enc, value) ==> r is Err && r->Err_0.name@ == "enc"@ && r->Err_0.before
                == old(self).enc->0 && r->Err_0.now == value && *final(self) == *old(self),
            !refuses(old(self).enc, value) ==> r == Ok::<bool, ValueAlreadySet<bool>>(value) && *final(self) == (
            ControlSignalsLockable { enc: Some(value), ..*old(self) }),
    {
        lock(&mut self.enc, value, "enc")
    }

    /// Sets `c` to `value`, unless it already holds another value.
    pub fn set_c(&mut self, value: u8) -> (r: Result<u8, ValueAlreadySet<u8>>)
        ensures
            refuses(old(self).c, value) ==> r is Err && r->Err_0.name@ == "c"@ && r->Err_0.before
                == old(self).c->0 && r->Err_0.now == value && *final(self) == *old(self),
            !refuses(old(self).c, value) ==> r == Ok::<u8, ValueAlreadySet<u8>>(value) && *final(self) == (
            ControlSignalsLockable { c: Some(value), ..*old(self) }),
    {
        lock(&mut self.c, value, "c")
    }

    /// Sets `b` to `value`, unless it already holds another value.
    pub fn set_b(&mut self, value: u8) -> (r: Result<u8, ValueAlreadySet<u8>>)
        ensures
            refuses(old(self).b, value) ==> r is Err && r->Err_0.name@ == "b"@ && r->Err_0.before
                == old(self).b->0 && r->Err_0.now == value && *final(self) == *old(self),
            !refuses(old(self).b, value) ==> r == Ok::<u8, ValueAlreadySet<u8>>(value) && *final(self) == (
            ControlSignalsLockable { b: Some(value), ..*old(self) }),
    {
        lock(&mut self.b, value, "b")
    }

    /// Sets `a` to `value`, unless it already holds another value.
    pub fn set_a(&mut self, value: u8) -> (r: Result<u8, ValueAlreadySet<u8>>)
        ensures
            refuses(old(self).a, value) ==> r is Err && r->Err_0.name@ == "a"@ && r->Err_0.before
                == old(self).a->0 && r->Err_0.now == value && *final(self) == *old(self),
            !refuses(old(self).a, value) ==> r == Ok::<u8, ValueAlreadySet<u8>>(value) && *final(self) == (
            ControlSignalsLockable { a: Some(value), ..*old(self) }),
    {
        lock(&mut self.a, value, "a")
    }

    /// Sets `addr` to `value`, unless it already holds another value.
    pub fn set_addr(&mut self, value: u8) -> (r: Result<u8, ValueAlreadySet<u8>>)
        ensures
            refuses(old(self).addr, value) ==> r is Err && r->Err_0.name@ == "addr"@ && r->Err_0.before
                == old(self).addr->0 && r->Err_0.now == value && *final(self) == *old(self),
            !refuses(old(self).addr, value) ==> r == Ok::<u8, ValueAlreadySet<u8>>(value) && *final(self) == (
            ControlSignalsLockable { addr: Some(value), ..*old(self) }),
    {
        lock(&mut self.addr, value, "addr")
    }
}

} // verus!
