//! Encoding of command packets for the graphics channel.
use vstd::prelude::*;

verus! {

/// Words that one submission may push.
pub const PUSH_WORDS: usize = 0x4_0000;

/// Answer to a packet that has no encoding or no room.
pub const BUDGET_ERROR: &'static str = "trusted graphics packet budget invalid";

/// One packet: a run of data words for a method of the object on a subchannel.
#[derive(Debug)]
pub struct Packet {
    pub opcode: u32,
    pub sub: u32,
    pub method: u32,
    pub data: Vec<u32>,
}

/// What a packet says.
pub struct Command {
    pub opcode: u32,
    pub sub: u32,
    pub method: u32,
    pub data: Seq<u32>,
}

impl View for Packet {
    type V = Command;

    open spec fn view(&self) -> Command {
        Command { opcode: self.opcode, sub: self.sub, method: self.method, data: self.data@ }
    }
}

/// A packet on subchannel `sub` whose data go to successive methods.
pub open spec fn method_spec(sub: u32, method: u32, data: Seq<u32>) -> Command {
    Command { opcode: 1, sub, method, data }
}

/// One word for one method of the graphics object.
pub open spec fn one_spec(method: u32, value: u32) -> Command {
    method_spec(0, method, seq![value])
}

/// A 64-bit address, high word first.
pub open spec fn address_spec(method: u32, address: u64) -> Command {
    method_spec(0, method, seq![(address >> 32) as u32, address as u32])
}

/// An upload into the 256-byte constant buffer at `address`: the buffer is
/// selected, and the data follow their offset without advancing the method.
pub open spec fn cb_spec(
    cb_size: u32,
    cb_pos: u32,
    address: u64,
    offset: u32,
    data: Seq<u32>,
) -> Seq<Command> {
    seq![
        method_spec(0, cb_size, seq![256u32, (address >> 32) as u32, address as u32]),
        Command { opcode: 5, sub: 0, method: cb_pos, data: seq![offset] + data },
    ]
}

impl Command {
    /// The packet has an encoding, and fits after `used` words.
    pub open spec fn fits(self, used: int) -> bool {
        &&& 0 < self.data.len() <= 0x1fff
        &&& self.method & 3 == 0
        &&& self.method < 0x8000
        &&& self.sub <= 7
        &&& used + self.data.len() + 1 <= PUSH_WORDS
    }

    pub open spec fn header(self) -> u32 {
        (self.opcode << 29) | ((self.data.len() as u32) << 16) | (self.sub << 13) | (self.method
            >> 2)
    }

    pub open spec fn words(self) -> Seq<u32> {
        seq![self.header()] + self.data
    }
}

/// The words after the commands were pushed in order, up to the first that does
/// not fit, and whether all of them did.
pub open spec fn run(words: Seq<u32>, commands: Seq<Command>) -> (Seq<u32>, bool)
    decreases commands.len(),
{
    if commands.len() == 0 {
        (words, true)
    } else {
        let (before, fit) = run(words, commands.drop_last());
        if fit && commands.last().fits(before.len() as int) {
            (before + commands.last().words(), true)
        } else {
            (before, false)
        }
    }
}

/// The effect of pushing `commands` with the answer `r`.
pub open spec fn pushed(
    before: Seq<u32>,
    after: Seq<u32>,
    commands: Seq<Command>,
    r: Result<(), &'static str>,
) -> bool {
    let (words, fit) = run(before, commands);
    after == words && r == if fit {
        Ok::<(), &'static str>(())
    } else {
        Err(BUDGET_ERROR)
    }
}

/// Pushing two lists one after the other is pushing their concatenation, where
/// the first list fits.
pub proof fn run_is_sequential(words: Seq<u32>, a: Seq<Command>, b: Seq<Command>)
    ensures
        run(words, a).1 ==> run(words, a + b) == run(run(words, a).0, b),
        !run(words, a).1 ==> run(words, a + b) == run(words, a),
    decreases b.len(),
{
    if b.len() == 0 {
        assert(a + b =~= a);
    } else {
        run_is_sequential(words, a, b.drop_last());
        assert((a + b).drop_last() =~= a + b.drop_last());
    }
}

/// What was pushed stays in front of what is pushed later, and the buffer never
/// exceeds its size.
pub proof fn pushing_only_appends(words: Seq<u32>, commands: Seq<Command>)
    requires
        words.len() <= PUSH_WORDS,
    ensures
        words.len() <= run(words, commands).0.len() <= PUSH_WORDS,
        run(words, commands).0.take(words.len() as int) == words,
    decreases commands.len(),
{
    if commands.len() == 0 {
        assert(words.take(words.len() as int) =~= words);
    } else {
        pushing_only_appends(words, commands.drop_last());
        let before = run(words, commands.drop_last()).0;
        let after = run(words, commands).0;
        if after != before {
            assert((before + commands.last().words()).take(words.len() as int) =~= before.take(
                words.len() as int,
            ));
        }
    }
}

/// The words of one submission.
#[derive(Debug)]
pub struct Push {
    pub words: Vec<u32>,
}

pub open spec fn commands_of(packets: Seq<Packet>) -> Seq<Command> {
    Seq::new(packets.len(), |i: int| packets[i]@)
}

impl Push {
    pub fn new() -> (r: Self)
        ensures
            r.words@ == Seq::<u32>::empty(),
    {
        Push { words: Vec::new() }
    }

    /// Pushes one packet. A packet without an encoding or without room changes
    /// nothing.
    pub fn packet(&mut self, opcode: u32, sub: u32, method: u32, data: &Vec<u32>) -> (r: Result<
        (),
        &'static str,
    >)
        ensures
            pushed(
                old(self).words@,
                final(self).words@,
                seq![(Command { opcode, sub, method, data: data@ })],
                r,
            ),
    {
        let ghost command = Command { opcode, sub, method, data: data@ };
        let ghost before = self.words@;
        proof {
            reveal_with_fuel(run, 2);
            assert(seq![command].drop_last() =~= Seq::<Command>::empty());
        }
        let used: usize = self.words.len();
        if data.len() == 0 || data.len() > 0x1fff || method & 3 != 0 || method >= 0x8000 || sub > 7
            || used > PUSH_WORDS || used + data.len() + 1 > PUSH_WORDS {
            return Err(BUDGET_ERROR);
        }
        self.words.push(
            (opcode << 29) | ((data.len() as u32) << 16) | (sub << 13) | (method >> 2),
        );
        let mut i: usize = 0;
        while i < data.len()
            invariant
                i <= data@.len(),
                self.words@ == before.push(command.header()) + data@.take(i as int),
            decreases data@.len() - i,
        {
            self.words.push(data[i]);
            assert(data@.take(i + 1) =~= data@.take(i as int).push(data@[i as int]));
            i += 1;
        }
        assert(data@.take(i as int) =~= data@);
        assert(self.words@ =~= before + command.words());
        Ok(())
    }

    pub fn method(&mut self, sub: u32, method: u32, data: &Vec<u32>) -> (r: Result<
        (),
        &'static str,
    >)
        ensures
            pushed(
                old(self).words@,
                final(self).words@,
                seq![method_spec(sub, method, data@)],
                r,
            ),
    {
        self.packet(1, sub, method, data)
    }

    pub fn one(&mut self, method: u32, value: u32) -> (r: Result<(), &'static str>)
        ensures
            pushed(old(self).words@, final(self).words@, seq![one_spec(method, value)], r),
    {
        let data: Vec<u32> = vec![value];
        assert(data@ =~= seq![value]);
        self.method(0, method, &data)
    }

    pub fn address(&mut self, method: u32, address: u64) -> (r: Result<(), &'static str>)
        ensures
            pushed(old(self).words@, final(self).words@, seq![address_spec(method, address)], r),
    {
        let data: Vec<u32> = vec![(address >> 32) as u32, address as u32];
        assert(data@ =~= seq![(address >> 32) as u32, address as u32]);
        self.method(0, method, &data)
    }

    /// Uploads `data` at `offset` of the constant buffer at `address`.
    pub fn cb(&mut self, cb_size: u32, cb_pos: u32, address: u64, offset: u32, data: &Vec<u32>) -> (r:
        Result<(), &'static str>)
        ensures
            pushed(
                old(self).words@,
                final(self).words@,
                cb_spec(cb_size, cb_pos, address, offset, data@),
                r,
            ),
    {
        let mut packets = Program::new();
        packets.cb(cb_size, cb_pos, address, offset, data);
        assert(packets@ =~= cb_spec(cb_size, cb_pos, address, offset, data@));
        self.emit(&packets)
    }

    /// Pushes the packets of a program in order, up to the first that does not
    /// fit.
    pub fn emit(&mut self, program: &Program) -> (r: Result<(), &'static str>)
        ensures
            pushed(old(self).words@, final(self).words@, program@, r),
    {
        let ghost before = self.words@;
        let mut i: usize = 0;
        while i < program.packets.len()
            invariant
                i <= program.packets@.len(),
                before == old(self).words@,
                run(before, program@.take(i as int)) == (self.words@, true),
            decreases program.packets@.len() - i,
        {
            let p = &program.packets[i];
            let ghost done = program@.take(i as int);
            let ghost rest = program@.skip(i + 1);
            proof {
                assert(program@.take(i + 1) =~= done + seq![p@]);
                run_is_sequential(before, done, seq![p@]);
                run_is_sequential(before, program@.take(i + 1), rest);
                assert(program@.take(i + 1) + rest =~= program@);
            }
            if let Err(e) = self.packet(p.opcode, p.sub, p.method, &p.data) {
                return Err(e);
            }
            i += 1;
        }
        assert(program@.take(i as int) =~= program@);
        Ok(())
    }
}

/// A list of packets in the making.
#[derive(Debug)]
pub struct Program {
    pub packets: Vec<Packet>,
}

impl View for Program {
    type V = Seq<Command>;

    open spec fn view(&self) -> Seq<Command> {
        commands_of(self.packets@)
    }
}

impl Program {
    pub fn new() -> (r: Self)
        ensures
            r@ == Seq::<Command>::empty(),
    {
        let r = Program { packets: Vec::new() };
        assert(r@ =~= Seq::<Command>::empty());
        r
    }

    pub fn packet(&mut self, opcode: u32, sub: u32, method: u32, data: Vec<u32>)
        ensures
            final(self)@ == old(self)@.push(Command { opcode, sub, method, data: data@ }),
    {
        let ghost before = self.packets@;
        let ghost command = Command { opcode, sub, method, data: data@ };
        self.packets.push(Packet { opcode, sub, method, data });
        assert(self@ =~= commands_of(before).push(command));
    }

    pub fn method(&mut self, sub: u32, method: u32, data: Vec<u32>)
        ensures
            final(self)@ == old(self)@.push(method_spec(sub, method, data@)),
    {
        self.packet(1, sub, method, data);
    }

    pub fn method1(&mut self, sub: u32, method: u32, a0: u32)
        ensures
            final(self)@ == old(self)@.push(method_spec(sub, method, seq![a0])),
    {
        let data: Vec<u32> = vec![a0];
        assert(data@ =~= seq![a0]);
        self.method(sub, method, data);
    }

    pub fn method2(&mut self, sub: u32, method: u32, a0: u32, a1: u32)
        ensures
            final(self)@ == old(self)@.push(method_spec(sub, method, seq![a0, a1])),
    {
        let data: Vec<u32> = vec![a0, a1];
        assert(data@ =~= seq![a0, a1]);
        self.method(sub, method, data);
    }

    pub fn method3(&mut self, sub: u32, method: u32, a0: u32, a1: u32, a2: u32)
        ensures
            final(self)@ == old(self)@.push(method_spec(sub, method, seq![a0, a1, a2])),
    {
        let data: Vec<u32> = vec![a0, a1, a2];
        assert(data@ =~= seq![a0, a1, a2]);
        self.method(sub, method, data);
    }

    pub fn method4(&mut self, sub: u32, method: u32, a0: u32, a1: u32, a2: u32, a3: u32)
        ensures
            final(self)@ == old(self)@.push(method_spec(sub, method, seq![a0, a1, a2, a3])),
    {
        let data: Vec<u32> = vec![a0, a1, a2, a3];
        assert(data@ =~= seq![a0, a1, a2, a3]);
        self.method(sub, method, data);
    }

    pub fn method5(&mut self, sub: u32, method: u32, a0: u32, a1: u32, a2: u32, a3: u32, a4: u32)
        ensures
            final(self)@ == old(self)@.push(method_spec(sub, method, seq![a0, a1, a2, a3, a4])),
    {
        let data: Vec<u32> = vec![a0, a1, a2, a3, a4];
        assert(data@ =~= seq![a0, a1, a2, a3, a4]);
        self.method(sub, method, data);
    }

    pub fn method8(&mut self, sub: u32, method: u32, a0: u32, a1: u32, a2: u32, a3: u32, a4: u32, a5: u32, a6: u32, a7: u32)
        ensures
            final(self)@ == old(self)@.push(method_spec(sub, method, seq![a0, a1, a2, a3, a4, a5, a6, a7])),
    {
        let data: Vec<u32> = vec![a0, a1, a2, a3, a4, a5, a6, a7];
        assert(data@ =~= seq![a0, a1, a2, a3, a4, a5, a6, a7]);
        self.method(sub, method, data);
    }

    pub fn method9(&mut self, sub: u32, method: u32, a0: u32, a1: u32, a2: u32, a3: u32, a4: u32, a5: u32, a6: u32, a7: u32, a8: u32)
        ensures
            final(self)@ == old(self)@.push(method_spec(sub, method, seq![a0, a1, a2, a3, a4, a5, a6, a7, a8])),
    {
        let data: Vec<u32> = vec![a0, a1, a2, a3, a4, a5, a6, a7, a8];
        assert(data@ =~= seq![a0, a1, a2, a3, a4, a5, a6, a7, a8]);
        self.method(sub, method, data);
    }

    pub fn one(&mut self, method: u32, value: u32)
        ensures
            final(self)@ == old(self)@.push(one_spec(method, value)),
    {
        let data: Vec<u32> = vec![value];
        assert(data@ =~= seq![value]);
        self.method(0, method, data);
    }

    pub fn address(&mut self, method: u32, address: u64)
        ensures
            final(self)@ == old(self)@.push(address_spec(method, address)),
    {
        let data: Vec<u32> = vec![(address >> 32) as u32, address as u32];
        assert(data@ =~= seq![(address >> 32) as u32, address as u32]);
        self.method(0, method, data);
    }

    pub fn cb(&mut self, cb_size: u32, cb_pos: u32, address: u64, offset: u32, data: &Vec<u32>)
        ensures
            final(self)@ == old(self)@ + cb_spec(cb_size, cb_pos, address, offset, data@),
    {
        let ghost before = self@;
        let select: Vec<u32> = vec![256, (address >> 32) as u32, address as u32];
        assert(select@ =~= seq![256u32, (address >> 32) as u32, address as u32]);
        self.method(0, cb_size, select);
        let mut payload: Vec<u32> = vec![offset];
        let mut i: usize = 0;
        while i < data.len()
            invariant
                i <= data@.len(),
                payload@ == seq![offset] + data@.take(i as int),
            decreases data@.len() - i,
        {
            payload.push(data[i]);
            assert(data@.take(i + 1) =~= data@.take(i as int).push(data@[i as int]));
            i += 1;
        }
        assert(payload@ =~= seq![offset] + data@);
        self.packet(5, 0, cb_pos, payload);
        assert(self@ =~= before + cb_spec(cb_size, cb_pos, address, offset, data@));
    }
}

/// One word that an engine gets for one of its methods.
pub struct Call {
    pub sub: int,
    pub method: int,
    pub value: u32,
}

/// How far the method of a packet has moved on at a word of its data: by one with each
/// word, by one behind the first word, or not at all.
pub open spec fn moved(opcode: int, i: int) -> int {
    if opcode == 1 {
        4 * i
    } else if opcode == 5 && i > 0 {
        4
    } else {
        0
    }
}

/// The words as the engines read them: a header tells the opcode in its upper three bits,
/// the number of data words in the next thirteen, the subchannel in three, and the method's
/// number in the lower thirteen.
pub open spec fn calls(words: Seq<u32>) -> Seq<Call>
    decreases words.len(),
{
    if words.len() == 0 {
        seq![]
    } else {
        let header = words[0] as int;
        let count = header / 0x1_0000 % 0x2000;
        if count == 0 || words.len() < count + 1 {
            seq![]
        } else {
            Seq::new(
                count as nat,
                |i: int|
                    Call {
                        sub: header / 0x2000 % 8,
                        method: header % 0x2000 * 4 + moved(header / 0x2000_0000, i),
                        value: words[1 + i],
                    },
            ) + calls(words.skip(count + 1))
        }
    }
}

/// The engine gets these words one after the other.
pub open spec fn gets(all: Seq<Call>, list: Seq<Call>) -> bool {
    exists|p: int|
        0 <= p && p + list.len() <= all.len() && #[trigger] all.subrange(p, p + list.len()) == list
}

/// The words of a packet for its methods.
pub open spec fn calls_of(c: Command) -> Seq<Call> {
    Seq::new(
        c.data.len(),
        |i: int|
            Call {
                sub: c.sub as int,
                method: c.method + moved(c.opcode as int % 8, i),
                value: c.data[i],
            },
    )
}

/// The words of some packets for their methods, in order.
pub open spec fn all_calls(commands: Seq<Command>) -> Seq<Call>
    decreases commands.len(),
{
    if commands.len() == 0 {
        seq![]
    } else {
        all_calls(commands.drop_last()) + calls_of(commands.last())
    }
}

spec fn all_words(commands: Seq<Command>) -> Seq<u32>
    decreases commands.len(),
{
    if commands.len() == 0 {
        seq![]
    } else {
        all_words(commands.drop_last()) + commands.last().words()
    }
}

proof fn lemma_header_bits(opcode: u32, count: u32, sub: u32, method: u32)
    by (bit_vector)
    requires
        0 < count <= 0x1fff,
        sub <= 7,
        method & 3 == 0,
        method < 0x8000,
    ensures
        ({
            let header = (opcode << 29) | (count << 16) | (sub << 13) | (method >> 2);
            &&& header / 0x2000_0000 == opcode % 8
            &&& header / 0x1_0000 % 0x2000 == count
            &&& header / 0x2000 % 8 == sub
            &&& header % 0x2000 * 4 == method
        }),
{
}

proof fn lemma_first_packet(c: Command, used: int, rest: Seq<u32>)
    requires
        c.fits(used),
    ensures
        calls(c.words() + rest) == calls_of(c) + calls(rest),
{
    let words = c.words() + rest;
    let count = c.data.len();
    lemma_header_bits(c.opcode, count as u32, c.sub, c.method);
    assert(words[0] == c.header());
    assert(words.skip(count as int + 1) =~= rest);
    let header = words[0] as int;
    let own = Seq::new(
        count as nat,
        |i: int|
            Call {
                sub: header / 0x2000 % 8,
                method: header % 0x2000 * 4 + moved(header / 0x2000_0000, i),
                value: words[1 + i],
            },
    );
    assert(own =~= calls_of(c));
}

/// The packets of a run that fits are its words, behind those that were there.
proof fn lemma_run_words(words: Seq<u32>, commands: Seq<Command>)
    requires
        run(words, commands).1,
    ensures
        run(words, commands).0 == words + all_words(commands),
        forall|rest: Seq<u32>| #[trigger]
            calls(all_words(commands) + rest) == all_calls(commands) + calls(rest),
    decreases commands.len(),
{
    if commands.len() == 0 {
        assert(words + all_words(commands) =~= words);
        assert forall|rest: Seq<u32>| #[trigger]
            calls(all_words(commands) + rest) == all_calls(commands) + calls(rest) by {
            assert(all_words(commands) + rest =~= rest);
            assert(all_calls(commands) + calls(rest) =~= calls(rest));
        }
    } else {
        let first = commands.drop_last();
        let last = commands.last();
        lemma_run_words(words, first);
        assert(words + all_words(commands) =~= words + all_words(first) + last.words());
        assert forall|rest: Seq<u32>| #[trigger]
            calls(all_words(commands) + rest) == all_calls(commands) + calls(rest) by {
            let behind = last.words() + rest;
            assert(all_words(commands) + rest =~= all_words(first) + behind);
            lemma_first_packet(last, run(words, first).0.len() as int, rest);
            assert(all_calls(commands) + calls(rest) =~= all_calls(first) + (calls_of(last) + calls(
                rest,
            )));
        }
    }
}

/// What was pushed is what the engines get: every word of every packet, for its subchannel
/// and method, in order.
pub proof fn engines_get_what_is_pushed(commands: Seq<Command>)
    requires
        run(Seq::empty(), commands).1,
    ensures
        calls(run(Seq::empty(), commands).0) == all_calls(commands),
{
    lemma_run_words(Seq::empty(), commands);
    let none = Seq::<u32>::empty();
    assert(none + all_words(commands) =~= all_words(commands));
    assert(all_words(commands) + none =~= all_words(commands));
    assert(calls(all_words(commands) + none) == all_calls(commands) + calls(none));
    assert(all_calls(commands) + calls(none) =~= all_calls(commands));
}

/// One list of packets after the other.
pub proof fn lemma_calls_add(a: Seq<Command>, b: Seq<Command>)
    ensures
        all_calls(a + b) == all_calls(a) + all_calls(b),
    decreases b.len(),
{
    if b.len() == 0 {
        assert(a + b =~= a);
        assert(all_calls(a) + all_calls(b) =~= all_calls(a));
    } else {
        lemma_calls_add(a, b.drop_last());
        assert((a + b).drop_last() =~= a + b.drop_last());
        assert(all_calls(a + b) =~= all_calls(a) + all_calls(b));
    }
}

/// What stands between other packets is got between their words.
pub proof fn lemma_gets(a: Seq<Command>, b: Seq<Command>, c: Seq<Command>)
    ensures
        gets(all_calls(a + b + c), all_calls(b)),
{
    lemma_calls_add(a, b);
    lemma_calls_add(a + b, c);
    let p = all_calls(a).len() as int;
    assert(all_calls(a + b + c).subrange(p, p + all_calls(b).len()) =~= all_calls(b));
}

/// What is got within a part is got within the whole.
pub proof fn lemma_gets_within(a: Seq<Call>, part: Seq<Call>, b: Seq<Call>, list: Seq<Call>)
    requires
        gets(part, list),
    ensures
        gets(a + part + b, list),
{
    let p = choose|p: int|
        0 <= p && p + list.len() <= part.len() && #[trigger] part.subrange(p, p + list.len())
            == list;
    let q = a.len() + p;
    assert((a + part + b).subrange(q, q + list.len()) =~= list);
}

/// One packet by itself.
pub proof fn lemma_one_packet(c: Command)
    ensures
        all_calls(seq![c]) == calls_of(c),
{
    assert(seq![c].drop_last() =~= Seq::<Command>::empty());
    reveal_with_fuel(all_calls, 2);
    assert(all_calls(seq![c]) =~= calls_of(c));
}

/// A run of data words for successive methods of an object.
pub open spec fn run_of(sub: int, method: int, data: Seq<u32>) -> Seq<Call> {
    Seq::new(data.len(), |i: int| Call { sub, method: method + 4 * i, value: data[i] })
}

/// Packets that follow each other within some are got one after the other.
pub proof fn lemma_gets_some(commands: Seq<Command>, i: int, j: int)
    requires
        0 <= i <= j <= commands.len(),
    ensures
        gets(all_calls(commands), all_calls(commands.subrange(i, j))),
{
    lemma_gets(commands.take(i), commands.subrange(i, j), commands.skip(j));
    assert(commands.take(i) + commands.subrange(i, j) + commands.skip(j) =~= commands);
}

/// A packet within some is got.
pub proof fn lemma_gets_one(commands: Seq<Command>, i: int, sub: u32, method: u32, data: Seq<u32>)
    requires
        0 <= i < commands.len(),
        commands[i] == method_spec(sub, method, data),
    ensures
        gets(all_calls(commands), run_of(sub as int, method as int, data)),
{
    lemma_gets_some(commands, i, i + 1);
    assert(commands.subrange(i, i + 1) =~= seq![commands[i]]);
    lemma_one_packet(commands[i]);
    assert(calls_of(commands[i]) =~= run_of(sub as int, method as int, data));
}

} // verus!
