//! Access to byte registers of chips on a bus, with a record of every exchange
//! that verified code made.
use vstd::prelude::*;

verus! {

/// Chips on the host's bus.
pub trait Chips {
    /// Reads one register. Nothing comes back where the bus failed.
    fn read(&self, address: u8, register: u8) -> Option<u8>;

    /// Writes one register, and tells whether the bus took it.
    fn write(&self, address: u8, register: u8, value: u8) -> bool;

    fn delay_us(&self, us: u64);
}

#[derive(Clone, Copy, Debug)]
pub enum Exchange {
    Read(u8, u8, Option<u8>),
    Write(u8, u8, u8, bool),
    Delay(u64),
}

/// A write: chip, register, value.
pub type Write = (u8, u8, u8);

/// The writes that were tried, in order.
pub open spec fn writes(log: Seq<Exchange>) -> Seq<Write>
    decreases log.len(),
{
    if log.len() == 0 {
        seq![]
    } else {
        match log.last() {
            Exchange::Write(address, register, value, _) => writes(log.drop_last()).push(
                (address, register, value),
            ),
            _ => writes(log.drop_last()),
        }
    }
}

/// The bus did not do this.
pub open spec fn broke(e: Exchange) -> bool {
    match e {
        Exchange::Read(_, _, None) => true,
        Exchange::Write(_, _, _, false) => true,
        _ => false,
    }
}

/// Something was exchanged, and the bus did not do the last of it.
pub open spec fn broken(before: Seq<Exchange>, after: Seq<Exchange>) -> bool {
    after.len() > before.len() && broke(after.last())
}

/// Something was exchanged, and the bus did not do the last of it: a read or a write, each
/// called by its name.
pub open spec fn broken_as(
    before: Seq<Exchange>,
    after: Seq<Exchange>,
    e: &'static str,
    on_read: &'static str,
    on_write: &'static str,
) -> bool {
    after.len() > before.len() && match after.last() {
        Exchange::Read(_, _, None) => e == on_read,
        Exchange::Write(_, _, _, false) => e == on_write,
        _ => false,
    }
}

/// What an exchange shows is what the host answered when it was called.
pub open spec fn answers<C: Chips>(port: &C, exchange: Exchange) -> bool {
    match exchange {
        Exchange::Read(address, register, value) => call_ensures(
            C::read,
            (port, address, register),
            value,
        ),
        Exchange::Write(address, register, value, done) => call_ensures(
            C::write,
            (port, address, register, value),
            done,
        ),
        Exchange::Delay(us) => call_ensures(C::delay_us, (port, us), ()),
    }
}

/// All of a record is what the host answered.
pub open spec fn answered<C: Chips>(port: &C, log: Seq<Exchange>) -> bool {
    forall|i: int| 0 <= i < log.len() ==> answers(port, #[trigger] log[i])
}

/// The only way by which verified code reaches the chips.
pub struct Wire<'a, C: Chips> {
    port: &'a C,
    log: Ghost<Seq<Exchange>>,
}

impl<'a, C: Chips> Wire<'a, C> {
    /// All exchanges so far.
    pub closed spec fn log(self) -> Seq<Exchange> {
        self.log@
    }

    /// Whose chips they are.
    pub closed spec fn port(self) -> &'a C {
        self.port
    }

    /// The record holds what the host answered, and nothing else.
    #[verifier::type_invariant]
    pub open spec fn genuine(self) -> bool {
        answered(self.port(), self.log())
    }

    pub fn new(port: &'a C) -> (wire: Self)
        ensures
            wire.log() == Seq::<Exchange>::empty(),
            wire.port() == port,
    {
        Wire { port, log: Ghost(Seq::empty()) }
    }

    pub fn read(&mut self, address: u8, register: u8) -> (value: Option<u8>)
        ensures
            final(self).port() == old(self).port(),
            final(self).log() == old(self).log().push(Exchange::Read(address, register, value)),
            writes(final(self).log()) == writes(old(self).log()),
    {
        let value: Option<u8> = self.port.read(address, register);
        proof {
            use_type_invariant(&*self);
            let before = self.log@;
            self.log@ = before.push(Exchange::Read(address, register, value));
            assert(self.log@.drop_last() =~= before);
        }
        value
    }

    pub fn write(&mut self, address: u8, register: u8, value: u8) -> (done: bool)
        ensures
            final(self).port() == old(self).port(),
            final(self).log() == old(self).log().push(
                Exchange::Write(address, register, value, done),
            ),
            writes(final(self).log()) == writes(old(self).log()).push((address, register, value)),
    {
        let done: bool = self.port.write(address, register, value);
        proof {
            use_type_invariant(&*self);
            let before = self.log@;
            self.log@ = before.push(Exchange::Write(address, register, value, done));
            assert(self.log@.drop_last() =~= before);
        }
        done
    }

    pub fn delay_us(&mut self, us: u64)
        ensures
            final(self).port() == old(self).port(),
            final(self).log() == old(self).log().push(Exchange::Delay(us)),
            writes(final(self).log()) == writes(old(self).log()),
    {
        self.port.delay_us(us);
        proof {
            use_type_invariant(&*self);
            let before = self.log@;
            self.log@ = before.push(Exchange::Delay(us));
            assert(self.log@.drop_last() =~= before);
        }
    }
}

} // verus!
