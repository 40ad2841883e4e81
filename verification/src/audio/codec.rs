//! The codec: one stereo path from the link to the speakers, muted unless everything
//! is set up.
use vstd::prelude::*;

verus! {

/// The codec's registers, of sixteen bits each.
pub trait CodecPort {
    fn read(&self, register: u8) -> Result<u16, &'static str>;

    fn write(&self, register: u8, value: u16) -> Result<(), &'static str>;

    fn delay_us(&self, us: u64);
}

/// One exchange with the codec.
#[derive(Clone, Copy, Debug)]
pub enum Step {
    Read(u8, u16),
    ReadFailed(u8, &'static str),
    Write(u8, u16),
    WriteFailed(u8, u16, &'static str),
    Delay(u64),
}

/// The writes that were tried, in order.
pub open spec fn writes(log: Seq<Step>) -> Seq<(u8, u16)>
    decreases log.len(),
{
    if log.len() == 0 {
        seq![]
    } else {
        match log.last() {
            Step::Write(register, value) => writes(log.drop_last()).push((register, value)),
            Step::WriteFailed(register, value, _) => writes(log.drop_last()).push(
                (register, value),
            ),
            _ => writes(log.drop_last()),
        }
    }
}

/// What was read from one register, in order.
pub open spec fn reads(log: Seq<Step>, register: u8) -> Seq<u16>
    decreases log.len(),
{
    if log.len() == 0 {
        seq![]
    } else {
        match log.last() {
            Step::Read(from, value) => if from == register {
                reads(log.drop_last(), register).push(value)
            } else {
                reads(log.drop_last(), register)
            },
            _ => reads(log.drop_last(), register),
        }
    }
}

/// Exchanges are only added.
pub open spec fn extends(before: Seq<Step>, after: Seq<Step>) -> bool {
    &&& before.len() <= after.len()
    &&& forall|i: int| 0 <= i < before.len() ==> #[trigger] after[i] == before[i]
}

/// The mute was changed.
pub open spec fn was_muted(before: Seq<Step>, after: Seq<Step>, muted: bool) -> bool {
    writes(after) == writes(before).push(
        (
            1u8,
            mixed(
                last(after, 1),
                0x8080,
                if muted {
                    0x8080
                } else {
                    0
                },
            ),
        ),
    )
}

/// The last exchange failed with an error of the port.
pub open spec fn failed(log: Seq<Step>, e: &'static str) -> bool {
    match log.last() {
        Step::ReadFailed(_, error) => error == e,
        Step::WriteFailed(_, _, error) => error == e,
        _ => false,
    }
}

/// What was read from one register at last.
pub open spec fn last(log: Seq<Step>, register: u8) -> u16 {
    reads(log, register).last()
}

/// The port took a write, or did not.
pub open spec fn took<C: CodecPort>(
    port: &C,
    register: u8,
    value: u16,
    failure: Option<&'static str>,
) -> bool {
    exists|r: Result<(), &'static str>| #[trigger]
        call_ensures(C::write, (port, register, value), r) && match r {
            Ok(_) => failure is None,
            Err(e) => failure == Some(e),
        }
}

/// What an exchange shows is what the host answered when it was called.
pub open spec fn answers<C: CodecPort>(port: &C, step: Step) -> bool {
    match step {
        Step::Read(register, value) => call_ensures(
            C::read,
            (port, register),
            Ok::<u16, &'static str>(value),
        ),
        Step::ReadFailed(register, e) => call_ensures(
            C::read,
            (port, register),
            Err::<u16, &'static str>(e),
        ),
        Step::Write(register, value) => took(port, register, value, None),
        Step::WriteFailed(register, value, e) => took(port, register, value, Some(e)),
        Step::Delay(us) => call_ensures(C::delay_us, (port, us), ()),
    }
}

/// All of a record is what the host answered.
pub open spec fn answered<C: CodecPort>(port: &C, log: Seq<Step>) -> bool {
    forall|i: int| 0 <= i < log.len() ==> answers(port, #[trigger] log[i])
}

/// The only way by which verified code reaches the codec.
pub struct Codec<'a, C: CodecPort> {
    port: &'a C,
    log: Ghost<Seq<Step>>,
}

/// A register with some bits changed.
pub open spec fn mixed(previous: u16, mask: u16, value: u16) -> u16 {
    (previous & !mask) | (value & mask)
}

/// What sets the codec up, muted.
pub open spec fn setup_writes(log: Seq<Step>) -> Seq<(u8, u16)> {
    bias_writes(log) + route_writes(log)
}

/// Reset, muted, with clocks and biases.
pub open spec fn bias_writes(log: Seq<Step>) -> Seq<(u8, u16)> {
    seq![
        (0u8, 0u16),
        (1, 0x8888),
        (0xfa, mixed(last(log, 0xfa), 0x0801, 0x0801)),
        (0x6a, 0x1d),
        (0x6c, 0x0347),
        (0x6a, 0x3d),
        (0x6c, 0x3600),
        (0x6a, 0x12),
        (0x6c, 0x0aa8),
        (0x6a, 0x14),
        (0x6c, 0x8aaa),
        (0x6a, 0x20),
        (0x6c, 0x6110),
        (0x6a, 0x21),
        (0x6c, 0xe0e0),
        (0x6a, 0x23),
        (0x6c, 0x1804),
    ]
}

/// Format, clocks, levels and the one path.
pub open spec fn route_writes(log: Seq<Step>) -> Seq<(u8, u16)> {
    seq![
        (0x8du8, mixed(last(log, 0x8d), 0x0800, 0x0800)),
        (0x8c, mixed(last(log, 0x8c), 0x0100, 0x0100)),
        (0x4a, 4),
        (0x70, 0x8000),
        (0x73, mixed(last(log, 0x73), 0xf000, 0)),
        (0x80, mixed(last(log, 0x80), 0xc000, 0)),
        (0x19, 0x8787),
        (0x29, 0x8080),
        (0x2a, 0x1414),
        (0x46, 0x0036),
        (0x47, 0x0036),
        (0x48, 0xe800),
        (0x49, 0x2800),
    ]
}

/// What switches the codec on or off, muted.
pub open spec fn power_writes(log: Seq<Step>, on: bool) -> Seq<(u8, u16)> {
    seq![(1u8, mixed(last(log, 1), 0x8080, 0x8080))] + if on {
        seq![
            (0x63u8, 0xa810u16),
            (0x63, 0xe818),
            (0x65, 0x3000),
            (0x66, 0xc000),
            (0xfa, mixed(last(log, 0xfa), 0x0301, 0x0301)),
            (0x61, 0x9800),
        ]
    } else {
        seq![(0x61u8, 0u16), (0x65, 0), (0x66, 0), (0x63, 0)]
    }
}

/// The coefficients of the speakers' equaliser.
pub open spec fn coefficients() -> Seq<(u8, u16)> {
    seq![
        (0xa0u8, 0xed87u16),
        (0xa1, 0x0000),
        (0xa2, 0xc5e9),
        (0xa3, 0x1a98),
        (0xa4, 0x1d2c),
        (0xa5, 0xc882),
        (0xa6, 0x1c10),
        (0xa7, 0x01f4),
        (0xa8, 0xe904),
        (0xa9, 0x1c10),
        (0xaa, 0x01f4),
        (0xab, 0xe904),
        (0xac, 0x1c10),
        (0xad, 0x01f4),
        (0xae, 0x1c10),
        (0xaf, 0x01f4),
        (0xb0, 0x1fb4),
        (0xb1, 0x004b),
        (0xb2, 0x1fb4),
        (0xb3, 0x0800),
        (0xb4, 0x0800),
    ]
}

/// What loading some coefficients writes.
pub open spec fn coefficient_writes(count: int) -> Seq<(u8, u16)>
    decreases count,
{
    if count <= 0 {
        seq![]
    } else {
        coefficient_writes(count - 1) + seq![
            (0x6au8, coefficients()[count - 1].0 as u16),
            (0x6cu8, coefficients()[count - 1].1),
        ]
    }
}

/// What makes the speakers heard: the equaliser, the amplifier, and at last the mute.
pub open spec fn speaker_writes(log: Seq<Step>) -> Seq<(u8, u16)> {
    coefficient_writes(21) + seq![
        (0xb1u8, 0x00c1u16),
        (0xb0, 0x6041),
        (0xb5, 0x1f80),
        (0xb6, 0x0480),
        (0xb4, 0x6b30),
        (0x61, 0x9801),
        (1, mixed(last(log, 1), 0x8080, 0)),
    ]
}

/// Everything that switching the codec on or off does, waits among it, by what is read.
pub open spec fn power_log(outputs: u16, control: u16, on: bool) -> Seq<Step> {
    seq![Step::Read(1, outputs), Step::Write(1, mixed(outputs, 0x8080, 0x8080))] + if on {
        seq![
            Step::Write(0x63, 0xa810),
            Step::Delay(10_000),
            Step::Write(0x63, 0xe818),
            Step::Write(0x65, 0x3000),
            Step::Write(0x66, 0xc000),
            Step::Read(0xfa, control),
            Step::Write(0xfa, mixed(control, 0x0301, 0x0301)),
            Step::Write(0x61, 0x9800),
            Step::Delay(10_000),
        ]
    } else {
        seq![
            Step::Write(0x61, 0),
            Step::Write(0x65, 0),
            Step::Write(0x66, 0),
            Step::Write(0x63, 0),
        ]
    }
}

/// One step of loading the coefficients: a register is chosen, written and read back.
pub open spec fn equaliser_step(i: int) -> Step {
    if i % 3 == 0 {
        Step::Write(0x6a, coefficients()[i / 3].0 as u16)
    } else if i % 3 == 1 {
        Step::Write(0x6c, coefficients()[i / 3].1)
    } else {
        Step::Read(0x6c, coefficients()[i / 3].1)
    }
}

/// Loading all the coefficients, each as it has to read back.
pub open spec fn equaliser_log() -> Seq<Step> {
    Seq::new(63, |i: int| equaliser_step(i))
}

/// Everything that makes the speakers heard, the wait among it.
pub open spec fn speaker_log(outputs: u16) -> Seq<Step> {
    equaliser_log() + amplifier_log(outputs)
}

/// What follows the equaliser.
pub open spec fn amplifier_log(outputs: u16) -> Seq<Step> {
    seq![
        Step::Write(0xb1, 0x00c1),
        Step::Write(0xb0, 0x6041),
        Step::Write(0xb5, 0x1f80),
        Step::Write(0xb6, 0x0480),
        Step::Write(0xb4, 0x6b30),
        Step::Write(0x61, 0x9801),
        Step::Delay(10_000),
        Step::Read(1, outputs),
        Step::Write(1, mixed(outputs, 0x8080, 0)),
    ]
}

/// The exchange, as it looks where the port fails.
pub open spec fn instead(step: Step, e: &'static str) -> Step {
    match step {
        Step::Read(register, _) => Step::ReadFailed(register, e),
        Step::Write(register, value) => Step::WriteFailed(register, value, e),
        other => other,
    }
}

/// Only some of the exchanges were made: the port failed at the next.
pub open spec fn cut_at(
    before: Seq<Step>,
    after: Seq<Step>,
    whole: Seq<Step>,
    n: int,
    e: &'static str,
) -> bool {
    &&& 0 <= n < whole.len()
    &&& !(whole[n] is Delay)
    &&& after == (before + whole.take(n)).push(instead(whole[n], e))
}

/// A coefficient did not read back: nothing more was done.
pub open spec fn mismatched(before: Seq<Step>, after: Seq<Step>, k: int, back: u16) -> bool {
    &&& 0 <= k < 21
    &&& back != coefficients()[k].1
    &&& after == (before + equaliser_log().take(3 * k + 2)).push(Step::Read(0x6c, back))
}

/// The writes begin with some others.
pub open spec fn begins(whole: Seq<(u8, u16)>, start: Seq<(u8, u16)>) -> bool {
    &&& start.len() <= whole.len()
    &&& forall|i: int| 0 <= i < start.len() ==> #[trigger] whole[i] == start[i]
}

fn coefficient_table() -> (r: [(u8, u16); 21])
    ensures
        r@ == coefficients(),
{
    let r: [(u8, u16); 21] = [
        (0xa0, 0xed87),
        (0xa1, 0x0000),
        (0xa2, 0xc5e9),
        (0xa3, 0x1a98),
        (0xa4, 0x1d2c),
        (0xa5, 0xc882),
        (0xa6, 0x1c10),
        (0xa7, 0x01f4),
        (0xa8, 0xe904),
        (0xa9, 0x1c10),
        (0xaa, 0x01f4),
        (0xab, 0xe904),
        (0xac, 0x1c10),
        (0xad, 0x01f4),
        (0xae, 0x1c10),
        (0xaf, 0x01f4),
        (0xb0, 0x1fb4),
        (0xb1, 0x004b),
        (0xb2, 0x1fb4),
        (0xb3, 0x0800),
        (0xb4, 0x0800),
    ];
    assert(r@ =~= coefficients());
    r
}

impl<'a, C: CodecPort> Codec<'a, C> {
    /// All exchanges so far.
    pub closed spec fn log(self) -> Seq<Step> {
        self.log@
    }

    /// Whose codec it is.
    pub closed spec fn port(self) -> &'a C {
        self.port
    }

    /// The record holds what the host answered, and nothing else.
    #[verifier::type_invariant]
    pub open spec fn genuine(self) -> bool {
        answered(self.port(), self.log())
    }

    pub fn new(port: &'a C) -> (codec: Self)
        ensures
            codec.log() == Seq::<Step>::empty(),
            codec.port() == port,
    {
        Codec { port, log: Ghost(Seq::empty()) }
    }

    pub fn read(&mut self, register: u8) -> (r: Result<u16, &'static str>)
        ensures
            final(self).port() == old(self).port(),
            writes(final(self).log()) == writes(old(self).log()),
            r matches Ok(value) ==> final(self).log() == old(self).log().push(
                Step::Read(register, value),
            ),
            r matches Err(e) ==> final(self).log() == old(self).log().push(
                Step::ReadFailed(register, e),
            ),
            forall|o: u8|
                #![trigger reads(final(self).log(), o)]
                reads(final(self).log(), o) == if o == register && r is Ok {
                    reads(old(self).log(), o).push(r->Ok_0)
                } else {
                    reads(old(self).log(), o)
                },
    {
        let r = self.port.read(register);
        proof {
            use_type_invariant(&*self);
            let before = self.log@;
            self.log@ = before.push(
                match r {
                    Ok(value) => Step::Read(register, value),
                    Err(e) => Step::ReadFailed(register, e),
                },
            );
            assert(self.log@.drop_last() =~= before);
        }
        r
    }

    fn write(&mut self, register: u8, value: u16) -> (r: Result<(), &'static str>)
        ensures
            final(self).port() == old(self).port(),
            final(self).log() == old(self).log().push(
                match r {
                    Ok(_) => Step::Write(register, value),
                    Err(e) => Step::WriteFailed(register, value, e),
                },
            ),
            writes(final(self).log()) == writes(old(self).log()).push((register, value)),
            forall|o: u8|
                #![trigger reads(final(self).log(), o)]
                reads(final(self).log(), o) == reads(old(self).log(), o),
    {
        let r = self.port.write(register, value);
        proof {
            use_type_invariant(&*self);
            assert(call_ensures(C::write, (self.port, register, value), r));
            let before = self.log@;
            self.log@ = before.push(
                match r {
                    Ok(_) => Step::Write(register, value),
                    Err(e) => Step::WriteFailed(register, value, e),
                },
            );
            assert(self.log@.drop_last() =~= before);
        }
        r
    }

    fn delay_us(&mut self, us: u64)
        ensures
            final(self).port() == old(self).port(),
            final(self).log() == old(self).log().push(Step::Delay(us)),
            writes(final(self).log()) == writes(old(self).log()),
            forall|o: u8|
                #![trigger reads(final(self).log(), o)]
                reads(final(self).log(), o) == reads(old(self).log(), o),
    {
        self.port.delay_us(us);
        proof {
            use_type_invariant(&*self);
            let before = self.log@;
            self.log@ = before.push(Step::Delay(us));
            assert(self.log@.drop_last() =~= before);
        }
    }

    fn modify(&mut self, register: u8, mask: u16, value: u16) -> (r: Result<(), &'static str>)
        ensures
            final(self).port() == old(self).port(),
            extends(old(self).log(), final(self).log()),
            r is Err ==> final(self).log().len() > old(self).log().len(),
            r matches Err(e) ==> failed(final(self).log(), e),
            begins(writes(final(self).log()), writes(old(self).log())),
            r is Ok ==> writes(final(self).log()) == writes(old(self).log()).push(
                (register, mixed(last(final(self).log(), register), mask, value)),
            ),
            match r {
                Ok(_) => {
                    let previous = last(final(self).log(), register);
                    final(self).log() == old(self).log().push(
                        Step::Read(register, previous),
                    ).push(Step::Write(register, mixed(previous, mask, value)))
                },
                Err(e) => {
                    ||| final(self).log() == old(self).log().push(Step::ReadFailed(register, e))
                    ||| exists|previous: u16|
                        final(self).log() == #[trigger] old(self).log().push(
                            Step::Read(register, previous),
                        ).push(Step::WriteFailed(register, mixed(previous, mask, value), e))
                },
            },
            forall|o: u8|
                #![trigger reads(final(self).log(), o)]
                o != register ==> reads(final(self).log(), o) == reads(old(self).log(), o),
    {
        let previous: u16 = self.read(register)?;
        let ghost asked = old(self).log().push(Step::Read(register, previous));
        assert(self.log() == asked);
        self.write(register, (previous & !mask) | (value & mask))
    }

    fn private(&mut self, register: u8, value: u16) -> (r: Result<(), &'static str>)
        ensures
            final(self).port() == old(self).port(),
            extends(old(self).log(), final(self).log()),
            r is Err ==> final(self).log().len() > old(self).log().len(),
            r matches Err(e) ==> failed(final(self).log(), e),
            begins(writes(final(self).log()), writes(old(self).log())),
            r is Ok ==> writes(final(self).log()) == writes(old(self).log()) + seq![
                (0x6au8, register as u16),
                (0x6cu8, value),
            ],
            match r {
                Ok(_) => final(self).log() == old(self).log().push(
                    Step::Write(0x6a, register as u16),
                ).push(Step::Write(0x6c, value)),
                Err(e) => {
                    ||| final(self).log() == old(self).log().push(
                        Step::WriteFailed(0x6a, register as u16, e),
                    )
                    ||| final(self).log() == old(self).log().push(
                        Step::Write(0x6a, register as u16),
                    ).push(Step::WriteFailed(0x6c, value, e))
                },
            },
            muted_since(writes(old(self).log()).len() as int, writes(final(self).log())),
            forall|o: u8|
                #![trigger reads(final(self).log(), o)]
                reads(final(self).log(), o) == reads(old(self).log(), o),
    {
        self.write(0x6a, register as u16)?;
        let r = self.write(0x6c, value);
        assert(writes(self.log()) =~= writes(old(self).log()) + seq![
            (0x6au8, register as u16),
            (0x6cu8, value),
        ]);
        r
    }

    fn route(&mut self) -> (r: Result<(), &'static str>)
        ensures
            final(self).port() == old(self).port(),
            extends(old(self).log(), final(self).log()),
            r is Err ==> final(self).log().len() > old(self).log().len(),
            r matches Err(e) ==> failed(final(self).log(), e),
            begins(writes(final(self).log()), writes(old(self).log())),
            r is Ok ==> writes(final(self).log()) == writes(old(self).log()) + route_writes(
                final(self).log(),
            ),
            forall|o: u8|
                #![trigger reads(final(self).log(), o)]
                o != 0x8d && o != 0x8c && o != 0x73 && o != 0x80 ==> reads(final(self).log(), o)
                    == reads(old(self).log(), o),
    {
        self.modify(0x8d, 0x0800, 0x0800)?;
        self.modify(0x8c, 0x0100, 0x0100)?;
        self.write(0x4a, 4)?;
        self.write(0x70, 0x8000)?;
        self.modify(0x73, 0xf000, 0)?;
        self.modify(0x80, 0xc000, 0)?;
        self.write(0x19, 0x8787)?;
        self.write(0x29, 0x8080)?;
        self.write(0x2a, 0x1414)?;
        self.write(0x46, 0x0036)?;
        self.write(0x47, 0x0036)?;
        self.write(0x48, 0xe800)?;
        self.write(0x49, 0x2800)?;
        assert(writes(self.log()) =~= writes(old(self).log()) + route_writes(self.log()));
        Ok(())
    }

    /// Sets the codec up, muted, if it is the right one.
    pub fn initialize(&mut self) -> (r: Result<(), &'static str>)
        ensures
            final(self).port() == old(self).port(),
            extends(old(self).log(), final(self).log()),
            r is Err ==> final(self).log().len() > old(self).log().len(),
            r matches Err(e) ==> failed(final(self).log(), e) || (e == "RT5639 unexpected chip ID"
                && last(final(self).log(), 0xff) != 0x6231 && writes(final(self).log()) == writes(
                old(self).log(),
            )),
            begins(writes(final(self).log()), writes(old(self).log())),
            r is Ok ==> last(final(self).log(), 0xff) == 0x6231 && writes(final(self).log())
                == writes(old(self).log()) + setup_writes(final(self).log()),
            writes(final(self).log()) != writes(old(self).log()) ==> reads(
                final(self).log(),
                0xff,
            ).len() > 0,
    {
        let id: u16 = self.read(0xff)?;
        if id != 0x6231 {
            return Err("RT5639 unexpected chip ID");
        }
        self.reset_and_bias()?;
        self.route()?;
        assert(writes(self.log()) =~= writes(old(self).log()) + setup_writes(self.log()));
        Ok(())
    }

    fn reset_and_bias(&mut self) -> (r: Result<(), &'static str>)
        ensures
            final(self).port() == old(self).port(),
            extends(old(self).log(), final(self).log()),
            r is Err ==> final(self).log().len() > old(self).log().len(),
            r matches Err(e) ==> failed(final(self).log(), e),
            begins(writes(final(self).log()), writes(old(self).log())),
            r is Ok ==> writes(final(self).log()) == writes(old(self).log()) + bias_writes(
                final(self).log(),
            ),
            forall|o: u8|
                #![trigger reads(final(self).log(), o)]
                o != 0xfa ==> reads(final(self).log(), o) == reads(old(self).log(), o),
    {
        self.write(0, 0)?;
        self.write(1, 0x8888)?;
        self.modify(0xfa, 0x0801, 0x0801)?;
        self.private(0x1d, 0x0347)?;
        self.private(0x3d, 0x3600)?;
        self.private(0x12, 0x0aa8)?;
        self.private(0x14, 0x8aaa)?;
        self.private(0x20, 0x6110)?;
        self.private(0x21, 0xe0e0)?;
        self.private(0x23, 0x1804)?;
        assert(writes(self.log()) =~= writes(old(self).log()) + bias_writes(self.log()));
        Ok(())
    }

    /// Switches the codec on or off. It is muted first, and stays so; its references get
    /// ten milliseconds to settle, and so does all of it in the end.
    #[verifier::rlimit(80)]
    pub fn power(&mut self, enabled: bool) -> (r: Result<(), &'static str>)
        ensures
            final(self).port() == old(self).port(),
            extends(old(self).log(), final(self).log()),
            r is Err ==> final(self).log().len() > old(self).log().len(),
            r matches Err(e) ==> failed(final(self).log(), e),
            begins(writes(final(self).log()), writes(old(self).log())),
            r is Ok ==> writes(final(self).log()) == writes(old(self).log()) + power_writes(
                final(self).log(),
                enabled,
            ),
            r is Ok ==> exists|outputs: u16, control: u16|
                final(self).log() == old(self).log() + #[trigger] power_log(
                    outputs,
                    control,
                    enabled,
                ),
            r matches Err(e) ==> exists|outputs: u16, control: u16, n: int| #[trigger]
                cut_at(
                    old(self).log(),
                    final(self).log(),
                    power_log(outputs, control, enabled),
                    n,
                    e,
                ),
    {
        let ghost before = self.log();
        let muted = self.modify(1, 0x8080, 0x8080);
        proof {
            if let Err(e) = muted {
                if self.log() == before.push(Step::ReadFailed(1, e)) {
                    let whole = power_log(0, 0, enabled);
                    assert(self.log() =~= (before + whole.take(0)).push(instead(whole[0], e)));
                    assert(cut_at(before, self.log(), whole, 0, e));
                } else {
                    let outputs = choose|previous: u16|
                        self.log() == #[trigger] before.push(Step::Read(1, previous)).push(
                            Step::WriteFailed(1, mixed(previous, 0x8080, 0x8080), e),
                        );
                    let whole = power_log(outputs, 0, enabled);
                    assert(self.log() =~= (before + whole.take(1)).push(instead(whole[1], e)));
                    assert(cut_at(before, self.log(), whole, 1, e));
                }
            }
        }
        muted?;
        let ghost outputs = last(self.log(), 1);
        let ghost mut whole = power_log(outputs, 0, enabled);
        assert(self.log() =~= before + whole.take(2));
        if enabled {
            let first = self.write(0x63, 0xa810);
            proof {
                if let Err(e) = first {
                    assert(self.log() =~= (before + whole.take(2)).push(instead(whole[2], e)));
                    assert(cut_at(before, self.log(), whole, 2, e));
                }
            }
            first?;
            self.delay_us(10_000);
            let second = self.write(0x63, 0xe818);
            proof {
                if let Err(e) = second {
                    assert(self.log() =~= (before + whole.take(4)).push(instead(whole[4], e)));
                    assert(cut_at(before, self.log(), whole, 4, e));
                }
            }
            second?;
            let third = self.write(0x65, 0x3000);
            proof {
                if let Err(e) = third {
                    assert(self.log() =~= (before + whole.take(5)).push(instead(whole[5], e)));
                    assert(cut_at(before, self.log(), whole, 5, e));
                }
            }
            third?;
            let fourth = self.write(0x66, 0xc000);
            proof {
                if let Err(e) = fourth {
                    assert(self.log() =~= (before + whole.take(6)).push(instead(whole[6], e)));
                    assert(cut_at(before, self.log(), whole, 6, e));
                }
            }
            fourth?;
            assert(self.log() =~= before + whole.take(7));
            let ghost here = self.log();
            let changed = self.modify(0xfa, 0x0301, 0x0301);
            proof {
                if let Err(e) = changed {
                    if self.log() == here.push(Step::ReadFailed(0xfa, e)) {
                        assert(self.log() =~= (before + whole.take(7)).push(instead(whole[7], e)));
                        assert(cut_at(before, self.log(), whole, 7, e));
                    } else {
                        let control = choose|previous: u16|
                            self.log() == #[trigger] here.push(Step::Read(0xfa, previous)).push(
                                Step::WriteFailed(0xfa, mixed(previous, 0x0301, 0x0301), e),
                            );
                        let other = power_log(outputs, control, enabled);
                        assert(self.log() =~= (before + other.take(8)).push(instead(other[8], e)));
                        assert(cut_at(before, self.log(), other, 8, e));
                    }
                } else {
                    whole = power_log(outputs, last(self.log(), 0xfa), enabled);
                    assert(self.log() =~= before + whole.take(9));
                }
            }
            changed?;
            let fifth = self.write(0x61, 0x9800);
            proof {
                if let Err(e) = fifth {
                    assert(self.log() =~= (before + whole.take(9)).push(instead(whole[9], e)));
                    assert(cut_at(before, self.log(), whole, 9, e));
                }
            }
            fifth?;
            self.delay_us(10_000);
        } else {
            let first = self.write(0x61, 0);
            proof {
                if let Err(e) = first {
                    assert(self.log() =~= (before + whole.take(2)).push(instead(whole[2], e)));
                    assert(cut_at(before, self.log(), whole, 2, e));
                }
            }
            first?;
            let second = self.write(0x65, 0);
            proof {
                if let Err(e) = second {
                    assert(self.log() =~= (before + whole.take(3)).push(instead(whole[3], e)));
                    assert(cut_at(before, self.log(), whole, 3, e));
                }
            }
            second?;
            let third = self.write(0x66, 0);
            proof {
                if let Err(e) = third {
                    assert(self.log() =~= (before + whole.take(4)).push(instead(whole[4], e)));
                    assert(cut_at(before, self.log(), whole, 4, e));
                }
            }
            third?;
            let fourth = self.write(0x63, 0);
            proof {
                if let Err(e) = fourth {
                    assert(self.log() =~= (before + whole.take(5)).push(instead(whole[5], e)));
                    assert(cut_at(before, self.log(), whole, 5, e));
                }
            }
            fourth?;
        }
        assert(self.log() =~= before + whole);
        assert(writes(self.log()) =~= writes(old(self).log()) + power_writes(self.log(), enabled));
        Ok(())
    }

    /// Loads the coefficients, each read back.
    fn equalise(&mut self) -> (r: Result<(), &'static str>)
        ensures
            final(self).port() == old(self).port(),
            extends(old(self).log(), final(self).log()),
            r is Err ==> final(self).log().len() > old(self).log().len(),
            r is Ok ==> final(self).log() == old(self).log() + equaliser_log(),
            r matches Err(e) ==> {
                ||| exists|n: int| #[trigger]
                    cut_at(old(self).log(), final(self).log(), equaliser_log(), n, e)
                ||| e == "RT5639 EQ coefficient readback mismatch" && exists|k: int, back: u16|
                    #[trigger] mismatched(old(self).log(), final(self).log(), k, back)
            },
            begins(writes(final(self).log()), writes(old(self).log())),
            muted_since(writes(old(self).log()).len() as int, writes(final(self).log())),
            r is Ok ==> writes(final(self).log()) == writes(old(self).log()) + coefficient_writes(
                21,
            ),
            r is Ok ==> reads(final(self).log(), 0x6c).len() == reads(old(self).log(), 0x6c).len()
                + 21,
            r is Ok ==> forall|k: int|
                0 <= k < 21 ==> reads(final(self).log(), 0x6c)[reads(old(self).log(), 0x6c).len()
                    + k] == #[trigger] coefficients()[k].1,
    {
        let table: [(u8, u16); 21] = coefficient_table();
        let ghost m = reads(self.log(), 0x6c).len() as int;
        let ghost before = self.log();
        let ghost whole = equaliser_log();
        let mut i: usize = 0;
        assert(self.log() =~= before + whole.take(0));
        assert(writes(self.log()) =~= writes(old(self).log()) + coefficient_writes(0));
        while i < 21
            invariant
                self.port() == old(self).port(),
                i <= 21,
                table@ == coefficients(),
                before == old(self).log(),
                whole == equaliser_log(),
                self.log() == before + whole.take(3 * i as int),
                extends(old(self).log(), self.log()),
                begins(writes(self.log()), writes(old(self).log())),
                muted_since(writes(old(self).log()).len() as int, writes(self.log())),
                writes(self.log()) =~= writes(old(self).log()) + coefficient_writes(i as int),
                m == reads(old(self).log(), 0x6c).len(),
                reads(self.log(), 0x6c).len() == m + i,
                forall|k: int|
                    0 <= k < i ==> reads(self.log(), 0x6c)[m + k] == #[trigger] coefficients()[k].1,
            decreases 21 - i,
        {
            let register: u8 = table[i].0;
            let value: u16 = table[i].1;
            let ghost n = 3 * i as int;
            let ghost here = self.log();
            proof {
                assert(whole[n] == equaliser_step(n));
                assert(whole[n + 1] == equaliser_step(n + 1));
                assert(whole[n + 2] == equaliser_step(n + 2));
            }
            let chosen = self.private(register, value);
            proof {
                if let Err(e) = chosen {
                    if self.log() == here.push(Step::WriteFailed(0x6a, register as u16, e)) {
                        assert(cut_at(before, self.log(), whole, n, e));
                    } else {
                        assert(self.log() =~= (before + whole.take(n + 1)).push(
                            instead(whole[n + 1], e),
                        ));
                        assert(cut_at(before, self.log(), whole, n + 1, e));
                    }
                }
            }
            chosen?;
            let shown = self.read(0x6c);
            proof {
                if let Err(e) = shown {
                    assert(self.log() =~= (before + whole.take(n + 2)).push(
                        instead(whole[n + 2], e),
                    ));
                    assert(cut_at(before, self.log(), whole, n + 2, e));
                }
            }
            let back: u16 = shown?;
            assert(self.log() =~= (before + whole.take(n + 2)).push(Step::Read(0x6c, back)));
            assert(coefficient_writes(i + 1) == coefficient_writes(i as int) + seq![
                (0x6au8, register as u16),
                (0x6cu8, value),
            ]);
            if back != value {
                assert(mismatched(before, self.log(), i as int, back));
                return Err("RT5639 EQ coefficient readback mismatch");
            }
            assert(self.log() =~= before + whole.take(n + 3));
            i = i + 1;
        }
        assert(whole.take(63) =~= whole);
        Ok(())
    }

    /// Makes the speakers heard, once their equaliser is loaded. Only the last write
    /// unmutes.
    pub fn enable_speakers(&mut self) -> (r: Result<(), &'static str>)
        ensures
            final(self).port() == old(self).port(),
            extends(old(self).log(), final(self).log()),
            r is Err ==> final(self).log().len() > old(self).log().len(),
            r is Ok ==> exists|outputs: u16|
                final(self).log() == old(self).log() + #[trigger] speaker_log(outputs),
            r matches Err(e) ==> {
                ||| exists|outputs: u16, n: int| #[trigger]
                    cut_at(old(self).log(), final(self).log(), speaker_log(outputs), n, e)
                ||| e == "RT5639 EQ coefficient readback mismatch" && exists|k: int, back: u16|
                    #[trigger] mismatched(old(self).log(), final(self).log(), k, back)
            },
            begins(writes(final(self).log()), writes(old(self).log())),
            r is Ok ==> writes(final(self).log()) == writes(old(self).log()) + speaker_writes(
                final(self).log(),
            ),
            forall|i: int|
                writes(old(self).log()).len() <= i < writes(final(self).log()).len() && #[trigger]
                writes(final(self).log())[i].0 == 1 ==> i == writes(old(self).log()).len() + 48,
    {
        let ghost before = self.log();
        let ghost mut whole = speaker_log(0);
        let loaded = self.equalise();
        proof {
            if let Err(e) = loaded {
                if exists|n: int| #[trigger] cut_at(before, self.log(), equaliser_log(), n, e) {
                    let n = choose|n: int| #[trigger]
                        cut_at(before, self.log(), equaliser_log(), n, e);
                    assert(whole.take(n) =~= equaliser_log().take(n));
                    assert(cut_at(before, self.log(), whole, n, e));
                }
            }
        }
        loaded?;
        let ghost n = writes(old(self).log()).len() as int;
        proof {
            lemma_coefficients(21);
            assert(self.log() =~= before + whole.take(63));
        }
        let first = self.write(0xb1, 0x00c1);
        proof {
            if let Err(e) = first {
                assert(self.log() =~= (before + whole.take(63)).push(instead(whole[63], e)));
                assert(cut_at(before, self.log(), whole, 63, e));
            }
        }
        first?;
        let second = self.write(0xb0, 0x6041);
        proof {
            if let Err(e) = second {
                assert(self.log() =~= (before + whole.take(64)).push(instead(whole[64], e)));
                assert(cut_at(before, self.log(), whole, 64, e));
            }
        }
        second?;
        let third = self.write(0xb5, 0x1f80);
        proof {
            if let Err(e) = third {
                assert(self.log() =~= (before + whole.take(65)).push(instead(whole[65], e)));
                assert(cut_at(before, self.log(), whole, 65, e));
            }
        }
        third?;
        let fourth = self.write(0xb6, 0x0480);
        proof {
            if let Err(e) = fourth {
                assert(self.log() =~= (before + whole.take(66)).push(instead(whole[66], e)));
                assert(cut_at(before, self.log(), whole, 66, e));
            }
        }
        fourth?;
        let fifth = self.write(0xb4, 0x6b30);
        proof {
            if let Err(e) = fifth {
                assert(self.log() =~= (before + whole.take(67)).push(instead(whole[67], e)));
                assert(cut_at(before, self.log(), whole, 67, e));
            }
        }
        fifth?;
        let sixth = self.write(0x61, 0x9801);
        proof {
            if let Err(e) = sixth {
                assert(self.log() =~= (before + whole.take(68)).push(instead(whole[68], e)));
                assert(cut_at(before, self.log(), whole, 68, e));
            }
        }
        sixth?;
        self.delay_us(10_000);
        assert(self.log() =~= before + whole.take(70));
        let ghost here = self.log();
        let r = self.unmute();
        proof {
            match r {
                Ok(_) => {
                    whole = speaker_log(last(self.log(), 1));
                    assert(self.log() =~= before + whole);
                },
                Err(e) => {
                    if self.log() == here.push(Step::ReadFailed(1, e)) {
                        assert(self.log() =~= (before + whole.take(70)).push(
                            instead(whole[70], e),
                        ));
                        assert(cut_at(before, self.log(), whole, 70, e));
                    } else {
                        let outputs = choose|previous: u16|
                            self.log() == #[trigger] here.push(Step::Read(1, previous)).push(
                                Step::WriteFailed(1, mixed(previous, 0x8080, 0), e),
                            );
                        let other = speaker_log(outputs);
                        assert(self.log() =~= (before + other.take(71)).push(
                            instead(other[71], e),
                        ));
                        assert(cut_at(before, self.log(), other, 71, e));
                    }
                },
            }
        }
        assert(r is Ok ==> writes(self.log()) =~= writes(old(self).log()) + speaker_writes(
            self.log(),
        ));
        r
    }

    fn unmute(&mut self) -> (r: Result<(), &'static str>)
        ensures
            final(self).port() == old(self).port(),
            extends(old(self).log(), final(self).log()),
            r is Err ==> final(self).log().len() > old(self).log().len(),
            r matches Err(e) ==> failed(final(self).log(), e),
            r is Ok ==> writes(final(self).log()) == writes(old(self).log()).push(
                (1u8, mixed(last(final(self).log(), 1), 0x8080, 0)),
            ),
            r is Err ==> (writes(final(self).log()) == writes(old(self).log()) || exists|v: u16|
                writes(final(self).log()) == #[trigger] writes(old(self).log()).push((1u8, v))),
            match r {
                Ok(_) => {
                    let previous = last(final(self).log(), 1);
                    final(self).log() == old(self).log().push(Step::Read(1, previous)).push(
                        Step::Write(1, mixed(previous, 0x8080, 0)),
                    )
                },
                Err(e) => {
                    ||| final(self).log() == old(self).log().push(Step::ReadFailed(1, e))
                    ||| exists|previous: u16|
                        final(self).log() == #[trigger] old(self).log().push(
                            Step::Read(1, previous),
                        ).push(Step::WriteFailed(1, mixed(previous, 0x8080, 0), e))
                },
            },
    {
        let previous: u16 = self.read(1)?;
        let ghost asked = old(self).log().push(Step::Read(1, previous));
        assert(self.log() == asked);
        self.write(1, (previous & !0x8080) | (0 & 0x8080))
    }

    /// Mutes or unmutes.
    pub fn mute(&mut self, muted: bool) -> (r: Result<(), &'static str>)
        ensures
            final(self).port() == old(self).port(),
            extends(old(self).log(), final(self).log()),
            r is Err ==> final(self).log().len() > old(self).log().len(),
            r matches Err(e) ==> failed(final(self).log(), e),
            begins(writes(final(self).log()), writes(old(self).log())),
            r is Ok ==> was_muted(old(self).log(), final(self).log(), muted),
    {
        let value: u16 = if muted {
            0x8080
        } else {
            0
        };
        self.modify(1, 0x8080, value)
    }
}

/// The mute is not touched from some write on.
pub open spec fn muted_since(from: int, all: Seq<(u8, u16)>) -> bool {
    forall|i: int| from <= i < all.len() ==> #[trigger] all[i].0 != 1
}

proof fn lemma_coefficients(count: int)
    requires
        0 <= count,
    ensures
        coefficient_writes(count).len() == 2 * count,
    decreases count,
{
    if count > 0 {
        lemma_coefficients(count - 1);
    }
}

/// A register keeps the bits that are not changed, and has the others as they were given.
pub proof fn only_masked_bits_change(previous: u16, mask: u16, value: u16)
    by (bit_vector)
    ensures
        mixed(previous, mask, value) & mask == value & mask,
        mixed(previous, mask, value) & !mask == previous & !mask,
{
}

/// The mute of both speakers is its own two bits of the first register, and the volume and
/// everything else in it stays.
pub proof fn the_mute_is_its_own(before: Seq<Step>, after: Seq<Step>, muted: bool)
    requires
        was_muted(before, after, muted),
    ensures
        writes(after).len() == writes(before).len() + 1,
        writes(after).last().0 == 1,
        writes(after).last().1 & 0x8080 == if muted {
            0x8080u16
        } else {
            0
        },
        writes(after).last().1 & 0x7f7f == last(after, 1) & 0x7f7f,
{
    let p = last(after, 1);
    lemma_mute(p);
}

proof fn lemma_mute(p: u16)
    by (bit_vector)
    ensures
        mixed(p, 0x8080, 0x8080) & 0x8080 == 0x8080,
        mixed(p, 0x8080, 0x8080) & 0x7f7f == p & 0x7f7f,
        mixed(p, 0x8080, 0) & 0x8080 == 0,
        mixed(p, 0x8080, 0) & 0x7f7f == p & 0x7f7f,
{
}

/// What a register holds behind some exchanges: the last value that was written to it.
pub open spec fn left(log: Seq<Step>, register: u8) -> Option<u16>
    decreases log.len(),
{
    if log.len() == 0 {
        None
    } else {
        match log.last() {
            Step::Write(r, value) => if r == register {
                Some(value)
            } else {
                left(log.drop_last(), register)
            },
            _ => left(log.drop_last(), register),
        }
    }
}

proof fn lemma_left(log: Seq<Step>, register: u8, i: int)
    requires
        0 <= i < log.len(),
        log[i] matches Step::Write(r, _) && r == register,
        forall|j: int|
            i < j < log.len() ==> !((#[trigger] log[j]) matches Step::Write(r, _) && r == register),
    ensures
        left(log, register) == Some(log[i]->Write_1),
    decreases log.len(),
{
    if i < log.len() - 1 {
        lemma_left(log.drop_last(), register, i);
    }
}

/// The codec is muted before its power changes. Off, its converters, mixers, references and
/// amplifiers all have none; on, the references have settled for ten milliseconds before
/// anything else has power, and it stays muted.
pub proof fn power_changes_under_mute(outputs: u16, control: u16, on: bool)
    ensures
        ({
            let l = power_log(outputs, control, on);
            &&& l[0] == Step::Read(1, outputs)
            &&& l[1] matches Step::Write(r, v) && r == 1 && v & 0x8080 == 0x8080 && v & 0x7f7f
                == outputs & 0x7f7f
            &&& left(l, 1) == Some(l[1]->Write_1)
            &&& !on ==> left(l, 0x61) == Some(0u16) && left(l, 0x63) == Some(0u16) && left(l, 0x65)
                == Some(0u16) && left(l, 0x66) == Some(0u16)
            &&& on ==> left(l, 0x61) == Some(0x9800u16) && left(l, 0x63) == Some(0xe818u16) && left(
                l,
                0x65,
            ) == Some(0x3000u16) && left(l, 0x66) == Some(0xc000u16) && l[2] == Step::Write(
                0x63,
                0xa810,
            ) && l[3] == Step::Delay(10_000) && l.last() == Step::Delay(10_000)
            &&& on ==> (left(l, 0xfa) matches Some(v) && v & 0x301 == 0x301 && v & 0xfcfe == control
                & 0xfcfe)
        }),
{
    lemma_mute(outputs);
    lemma_clocked(control);
    let l = power_log(outputs, control, on);
    lemma_left(l, 1, 1);
    if on {
        lemma_left(l, 0x61, 9);
        lemma_left(l, 0x63, 4);
        lemma_left(l, 0x65, 5);
        lemma_left(l, 0x66, 6);
        lemma_left(l, 0xfa, 8);
    } else {
        lemma_left(l, 0x61, 2);
        lemma_left(l, 0x65, 3);
        lemma_left(l, 0x66, 4);
        lemma_left(l, 0x63, 5);
    }
}

proof fn lemma_clocked(p: u16)
    by (bit_vector)
    ensures
        mixed(p, 0x0301, 0x0301) & 0x301 == 0x301,
        mixed(p, 0x0301, 0x0301) & 0xfcfe == p & 0xfcfe,
{
}

/// The speakers are heard last: the equaliser is loaded and the amplifier has been on for
/// ten milliseconds before the mute is taken off, and the mute is not touched before.
pub proof fn speakers_are_heard_last(outputs: u16, i: int)
    requires
        0 <= i < speaker_log(outputs).len() - 1,
    ensures
        ({
            let l = speaker_log(outputs);
            &&& l.len() == 72
            &&& l.last() matches Step::Write(r, v) && r == 1 && v & 0x8080 == 0 && v & 0x7f7f
                == outputs & 0x7f7f
            &&& !(l[i] matches Step::Write(r, _) && r == 1)
            &&& l[68] == Step::Write(0x61, 0x9801) && l[69] == Step::Delay(10_000)
        }),
{
    lemma_mute(outputs);
    let l = speaker_log(outputs);
    if i < 63 {
        assert(l[i] == equaliser_step(i));
    }
}

/// The equaliser's coefficients stand in successive registers, from 0xa0 on: each is chosen,
/// written, and read back as it was written.
pub proof fn coefficients_are_read_back(i: int)
    requires
        0 <= i < 21,
    ensures
        coefficients().len() == 21,
        coefficients()[i].0 == 0xa0 + i,
        equaliser_log().len() == 63,
        equaliser_log()[3 * i] == Step::Write(0x6a, (0xa0 + i) as u16),
        equaliser_log()[3 * i + 1] == Step::Write(0x6c, coefficients()[i].1),
        equaliser_log()[3 * i + 2] == Step::Read(0x6c, coefficients()[i].1),
{
    assert((3 * i) % 3 == 0 && (3 * i) / 3 == i);
    assert((3 * i + 1) % 3 == 1 && (3 * i + 1) / 3 == i);
    assert((3 * i + 2) % 3 == 2 && (3 * i + 2) / 3 == i);
}

/// The codec is set up muted: it is reset, and nothing takes the mute off.
pub proof fn setups_stay_muted(log: Seq<Step>, i: int)
    requires
        0 <= i < setup_writes(log).len(),
    ensures
        setup_writes(log).len() == 30,
        setup_writes(log)[0] == (0u8, 0u16),
        setup_writes(log)[1] == (1u8, 0x8888u16),
        i > 1 ==> setup_writes(log)[i].0 != 1 && setup_writes(log)[i].0 != 0,
{
}

/// The equaliser has these coefficients.
pub proof fn the_equaliser_is_tuned(i: int)
    requires
        0 <= i < 21,
    ensures
        coefficients()[i].1 == seq![
            0xed87u16,
            0x0000,
            0xc5e9,
            0x1a98,
            0x1d2c,
            0xc882,
            0x1c10,
            0x01f4,
            0xe904,
            0x1c10,
            0x01f4,
            0xe904,
            0x1c10,
            0x01f4,
            0x1c10,
            0x01f4,
            0x1fb4,
            0x004b,
            0x1fb4,
            0x0800,
            0x0800,
        ][i],
{
}

proof fn lemma_routes(a: u16)
    by (bit_vector)
    ensures
        mixed(a, 0x0800, 0x0800) & 0x0800 == 0x0800,
        mixed(a, 0x0100, 0x0100) & 0x0100 == 0x0100,
        mixed(a, 0xf000, 0) & 0xf000 == 0,
        mixed(a, 0xc000, 0) & 0xc000 == 0,
        mixed(a, 0x0801, 0x0801) & 0x0801 == 0x0801,
{
}

/// The codec is set up for one path: its private registers are chosen and written in pairs,
/// then its format, clocks, levels and mixers, each in its register.
pub proof fn setups_make_one_path(log: Seq<Step>)
    ensures
        ({
            let w = setup_writes(log);
            &&& w[2].0 == 0xfa && w[2].1 & 0x0801 == 0x0801
            &&& w[3] == (0x6au8, 0x1du16) && w[4] == (0x6cu8, 0x0347u16)
            &&& w[5] == (0x6au8, 0x3du16) && w[6] == (0x6cu8, 0x3600u16)
            &&& w[7] == (0x6au8, 0x12u16) && w[8] == (0x6cu8, 0x0aa8u16)
            &&& w[9] == (0x6au8, 0x14u16) && w[10] == (0x6cu8, 0x8aaau16)
            &&& w[11] == (0x6au8, 0x20u16) && w[12] == (0x6cu8, 0x6110u16)
            &&& w[13] == (0x6au8, 0x21u16) && w[14] == (0x6cu8, 0xe0e0u16)
            &&& w[15] == (0x6au8, 0x23u16) && w[16] == (0x6cu8, 0x1804u16)
            &&& w[17].0 == 0x8d && w[17].1 & 0x0800 == 0x0800
            &&& w[18].0 == 0x8c && w[18].1 & 0x0100 == 0x0100
            &&& w[19] == (0x4au8, 4u16) && w[20] == (0x70u8, 0x8000u16)
            &&& w[21].0 == 0x73 && w[21].1 & 0xf000 == 0
            &&& w[22].0 == 0x80 && w[22].1 & 0xc000 == 0
            &&& w[23] == (0x19u8, 0x8787u16) && w[24] == (0x29u8, 0x8080u16)
            &&& w[25] == (0x2au8, 0x1414u16) && w[26] == (0x46u8, 0x0036u16)
            &&& w[27] == (0x47u8, 0x0036u16) && w[28] == (0x48u8, 0xe800u16)
            &&& w[29] == (0x49u8, 0x2800u16)
        }),
{
    lemma_routes(last(log, 0xfa));
    lemma_routes(last(log, 0x8d));
    lemma_routes(last(log, 0x8c));
    lemma_routes(last(log, 0x73));
    lemma_routes(last(log, 0x80));
}

} // verus!
