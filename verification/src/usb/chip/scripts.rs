//! What the scripts that start a chip do to its registers, whatever is in them.

use vstd::prelude::*;

use crate::program::Program;
use crate::usb::chip;
use crate::usb::chip::bits;
use crate::usb::chip::{Access, Instruction, Mii, Outcome};
use crate::usb::dwc2::hardware::Dwc2Registers;
use crate::usb::ethernet::Ethernet;
use crate::usb::lan7800;
use crate::usb::lan7800::{Lan7800, Lan7800State};
use crate::usb::lan9514;
use crate::usb::lan9514::{Lan9514, Lan9514State};

verus! {

/// A value with some bits cleared and some set, and the others as they were.
pub open spec fn changed(before: u32, after: u32, clear: u32, set: u32) -> bool {
    &&& after & set == set
    &&& after & (clear & !set) == 0
    &&& after & !(clear | set) == before & !(clear | set)
}

/// An access that writes a register back, with some bits cleared and some set.
pub open spec fn writes_back(
    access: Access,
    register: u16,
    before: u32,
    clear: u32,
    set: u32,
) -> bool {
    access matches Access::Write(written, after) && written == register && changed(
        before,
        after,
        clear,
        set,
    )
}

proof fn lemma_back(
    script: Seq<Instruction>,
    at: int,
    values: Seq<u32>,
    register: u16,
    clear: u32,
    set: u32,
    value: u32,
    rest: Seq<Outcome>,
)
    requires
        0 <= at,
        at + 1 < script.len(),
        script[at] == (Instruction::Read { register }),
        script[at + 1] == (Instruction::WriteBack { register, clear, set }),
    ensures
        chip::script_program(script, at, values).asked(
            seq![Outcome::Value(value), Outcome::Written] + rest,
        ) == seq![
            Access::Read(register),
            Access::Write(register, chip::adjusted(value, clear, set)),
        ] + chip::script_program(script, at + 2, values.push(value)).asked(rest),
        writes_back(
            Access::Write(register, chip::adjusted(value, clear, set)),
            register,
            value,
            clear,
            set,
        ),
{
    bits::law_adjusted(value, clear, set);
    let a = seq![Outcome::Value(value), Outcome::Written] + rest;
    assert(a.skip(1).skip(1) =~= rest);
    assert(a.skip(1)[0] == Outcome::Written);
    reveal_with_fuel(chip::script_program, 3);
    reveal_with_fuel(Program::asked, 3);
    let program = chip::script_program(script, at, values);
    let second = chip::script_program(script, at + 1, values.push(value));
    assert(program.asked(a) =~= seq![Access::Read(register)] + second.asked(a.skip(1)));
    assert(chip::latest(values.push(value)) == value);
    assert(program.asked(a) =~= seq![
        Access::Read(register),
        Access::Write(register, chip::adjusted(value, clear, set)),
    ] + chip::script_program(script, at + 2, values.push(value)).asked(rest));
}

proof fn lemma_write(
    script: Seq<Instruction>,
    at: int,
    values: Seq<u32>,
    register: u16,
    value: u32,
    rest: Seq<Outcome>,
)
    requires
        0 <= at < script.len(),
        script[at] == (Instruction::Write { register, value }),
    ensures
        chip::script_program(script, at, values).asked(seq![Outcome::Written] + rest) == seq![
            Access::Write(register, value),
        ] + chip::script_program(script, at + 1, values).asked(rest),
{
    let a = seq![Outcome::Written] + rest;
    assert(a.skip(1) =~= rest);
}

proof fn lemma_await(
    script: Seq<Instruction>,
    at: int,
    values: Seq<u32>,
    register: u16,
    clear: u32,
    set: u32,
    time: u64,
    value: u32,
    rest: Seq<Outcome>,
)
    requires
        0 <= at < script.len(),
        script[at] == (Instruction::Await { register, clear, set }),
        value & clear == 0,
        set == 0 || value & set != 0,
    ensures
        chip::script_program(script, at, values).asked(
            seq![Outcome::Time(time), Outcome::Value(value)] + rest,
        ) == seq![Access::Clock, Access::Read(register)] + chip::script_program(
            script,
            at + 1,
            values,
        ).asked(rest),
{
    let a = seq![Outcome::Time(time), Outcome::Value(value)] + rest;
    assert(a.skip(1).skip(1) =~= rest);
    assert(a.skip(1)[0] == Outcome::Value(value));
    reveal_with_fuel(chip::look_program, 2);
    reveal_with_fuel(Program::asked, 3);
    assert(chip::script_program(script, at, values).asked(a) =~= seq![
        Access::Clock,
        Access::Read(register),
    ] + chip::script_program(script, at + 1, values).asked(rest));
}

proof fn lemma_end(script: Seq<Instruction>, values: Seq<u32>)
    ensures
        chip::script_program(script, script.len() as int, values).asked(Seq::empty()) == Seq::<
            Access,
        >::empty(),
{
}

/// Starting a LAN9514: its address goes into its two registers; frames come right behind
/// their status, and an empty packet where there is none, with the rest of that register as
/// it was; the LEDs are lit; and the MAC and the transmitter are enabled.
pub proof fn law_lan9514_start(mac: Seq<u8>, config: u32)
    requires
        mac.len() == 6,
    ensures
        ({
            let written = Outcome::Written;
            let asked = chip::whole_script(lan9514::start_script(mac)).asked(
                seq![
                    written,
                    written,
                    Outcome::Value(config),
                    written,
                    written,
                    written,
                    written,
                ],
            );
            &&& asked.len() == 7
            &&& asked[0] == Access::Write(
                0x108,
                (mac[0] + 256 * (mac[1] + 256 * (mac[2] + 256 * mac[3]))) as u32,
            )
            &&& asked[1] == Access::Write(0x104, (mac[4] + 256 * mac[5]) as u32)
            &&& asked[2] == Access::Read(0x14)
            &&& writes_back(asked[3], 0x14, config, 0x0600, 0x1000)
            &&& asked[4] == Access::Write(0x24, 0x0111_0000)
            &&& asked[5] == Access::Write(0x100, 0x0010_000C)
            &&& asked[6] == Access::Write(0x10, 4)
        }),
{
    let script = lan9514::start_script(mac);
    let none = Seq::<u32>::empty();
    let one = none.push(config);
    let written = Outcome::Written;
    let e = Seq::<Outcome>::empty();
    let low = chip::mac_low(mac);
    let high = chip::mac_high(mac);
    assert(script.len() == 7);
    lemma_end(script, one);
    lemma_write(script, 6, one, 0x10, 4, e);
    lemma_write(script, 5, one, 0x100, 0x0010_000C, seq![written] + e);
    lemma_write(script, 4, one, 0x24, 0x0111_0000, seq![written] + (seq![written] + e));
    let tail = seq![written] + (seq![written] + (seq![written] + e));
    lemma_back(script, 2, none, 0x14, 0x0600, 0x1000, config, tail);
    let middle = seq![Outcome::Value(config), written] + tail;
    lemma_write(script, 1, none, 0x104, high, middle);
    lemma_write(script, 0, none, 0x108, low, seq![written] + middle);
    assert(seq![written] + (seq![written] + middle) =~= seq![
        written,
        written,
        Outcome::Value(config),
        written,
        written,
        written,
        written,
    ]);
}

/// The address of a LAN7800 goes into its two registers, and into the first entry of its
/// filter, which is marked as in use.
pub proof fn law_lan7800_address(mac: Seq<u8>)
    requires
        mac.len() == 6,
    ensures
        ({
            let written = Outcome::Written;
            let low = (mac[0] + 256 * (mac[1] + 256 * (mac[2] + 256 * mac[3]))) as u32;
            let high = mac[4] + 256 * mac[5];
            chip::whole_script(lan7800::mac_script(mac)).asked(
                seq![written, written, written, written],
            ) == seq![
                Access::Write(0x11C, low),
                Access::Write(0x118, high as u32),
                Access::Write(0x404, low),
                Access::Write(0x400, (0x8000_0000 + high) as u32),
            ]
        }),
{
    let script = lan7800::mac_script(mac);
    let none = Seq::<u32>::empty();
    let written = Outcome::Written;
    let e = Seq::<Outcome>::empty();
    let low = chip::mac_low(mac);
    let high = chip::mac_high(mac);
    lemma_end(script, none);
    lemma_write(script, 3, none, 0x400, (0x8000_0000 + high) as u32, e);
    lemma_write(script, 2, none, 0x404, low, seq![written] + e);
    lemma_write(script, 1, none, 0x118, high, seq![written] + (seq![written] + e));
    let tail = seq![written] + (seq![written] + (seq![written] + e));
    lemma_write(script, 0, none, 0x11C, low, tail);
    assert(seq![written] + tail =~= seq![written, written, written, written]);
}

/// A LAN7800 is enabled by a bit in each of four registers, in this order: the receive FIFO
/// and the transmit FIFO, bit 31, and the receiver and the transmitter, bit 0. The rest of
/// each register is as it was.
pub proof fn law_lan7800_enable(a: u32, b: u32, c: u32, d: u32)
    ensures
        ({
            let written = Outcome::Written;
            let asked = chip::whole_script(lan7800::enable_script()).asked(
                seq![
                    Outcome::Value(a),
                    written,
                    Outcome::Value(b),
                    written,
                    Outcome::Value(c),
                    written,
                    Outcome::Value(d),
                    written,
                ],
            );
            &&& asked.len() == 8
            &&& asked[0] == Access::Read(0xC0)
            &&& writes_back(asked[1], 0xC0, a, 0, 0x8000_0000)
            &&& asked[2] == Access::Read(0xC4)
            &&& writes_back(asked[3], 0xC4, b, 0, 0x8000_0000)
            &&& asked[4] == Access::Read(0x104)
            &&& writes_back(asked[5], 0x104, c, 0, 1)
            &&& asked[6] == Access::Read(0x108)
            &&& writes_back(asked[7], 0x108, d, 0, 1)
        }),
{
    let script = lan7800::enable_script();
    let v0 = Seq::<u32>::empty();
    let v1 = v0.push(a);
    let v2 = v1.push(b);
    let v3 = v2.push(c);
    let written = Outcome::Written;
    let e = Seq::<Outcome>::empty();
    lemma_end(script, v3.push(d));
    lemma_back(script, 6, v3, 0x108, 0, 1, d, e);
    let r3 = seq![Outcome::Value(d), written] + e;
    lemma_back(script, 4, v2, 0x104, 0, 1, c, r3);
    let r2 = seq![Outcome::Value(c), written] + r3;
    lemma_back(script, 2, v1, 0xC4, 0, 0x8000_0000, b, r2);
    let r1 = seq![Outcome::Value(b), written] + r2;
    lemma_back(script, 0, v0, 0xC0, 0, 0x8000_0000, a, r1);
    assert(seq![Outcome::Value(a), written] + r1 =~= seq![
        Outcome::Value(a),
        written,
        Outcome::Value(b),
        written,
        Outcome::Value(c),
        written,
        Outcome::Value(d),
        written,
    ]);
}

proof fn lemma_read(
    script: Seq<Instruction>,
    at: int,
    values: Seq<u32>,
    register: u16,
    value: u32,
    rest: Seq<Outcome>,
)
    requires
        0 <= at < script.len(),
        script[at] == (Instruction::Read { register }),
    ensures
        chip::script_program(script, at, values).asked(seq![Outcome::Value(value)] + rest) == seq![
            Access::Read(register),
        ] + chip::script_program(script, at + 1, values.push(value)).asked(rest),
{
    let a = seq![Outcome::Value(value)] + rest;
    assert(a.skip(1) =~= rest);
}

proof fn lemma_later(
    script: Seq<Instruction>,
    at: int,
    values: Seq<u32>,
    register: u16,
    clear: u32,
    set: u32,
    rest: Seq<Outcome>,
)
    requires
        0 <= at < script.len(),
        script[at] == (Instruction::WriteBack { register, clear, set }),
        values.len() > 0,
    ensures
        chip::script_program(script, at, values).asked(seq![Outcome::Written] + rest) == seq![
            Access::Write(register, chip::adjusted(values.last(), clear, set)),
        ] + chip::script_program(script, at + 1, values).asked(rest),
        writes_back(
            Access::Write(register, chip::adjusted(values.last(), clear, set)),
            register,
            values.last(),
            clear,
            set,
        ),
{
    bits::law_adjusted(values.last(), clear, set);
    let a = seq![Outcome::Written] + rest;
    assert(a.skip(1) =~= rest);
}

/// A LAN7800 has its PHY offer no gigabit, register 9, and then negotiate anew, register 0:
/// that register is read, and written back with negotiation on and begun over, power-down
/// and isolation ended, and the rest of it as it was. No access to the PHY begins before the
/// last one is over, as bit 0 of the access register says.
pub proof fn law_lan7800_negotiation(idle: u32, time: u64, control: u32)
    requires
        idle & 1 == 0,
    ensures
        ({
            let written = Outcome::Written;
            let time = Outcome::Time(time);
            let idle = Outcome::Value(idle);
            let answers = seq![
                time,
                idle,
                written,
                written,
                time,
                idle,
                time,
                idle,
                written,
                time,
                idle,
                Outcome::Value(control),
                time,
                idle,
                written,
                written,
                time,
                idle,
            ];
            let asked = chip::whole_script(lan7800::negotiate_script()).asked(answers);
            &&& asked.len() == 18
            &&& asked[0] == Access::Clock && asked[1] == Access::Read(0x120)
            &&& asked[2] == Access::Write(0x124, 0)
            &&& asked[3] == Access::Write(0x120, (2048 + 64 * 9 + 3) as u32)
            &&& asked[4] == Access::Clock && asked[5] == Access::Read(0x120)
            &&& asked[6] == Access::Clock && asked[7] == Access::Read(0x120)
            &&& asked[8] == Access::Write(0x120, (2048 + 1) as u32)
            &&& asked[9] == Access::Clock && asked[10] == Access::Read(0x120)
            &&& asked[11] == Access::Read(0x124)
            &&& asked[12] == Access::Clock && asked[13] == Access::Read(0x120)
            &&& writes_back(asked[14], 0x124, control, 0xFFFF_0C00, 0x1200)
            &&& asked[15] == Access::Write(0x120, (2048 + 3) as u32)
            &&& asked[16] == Access::Clock && asked[17] == Access::Read(0x120)
        }),
{
    bits::law_mii_select(9);
    bits::law_mii_select(0);
    let script = lan7800::negotiate_script();
    let written = Outcome::Written;
    let waited = seq![Outcome::Time(time), Outcome::Value(idle)];
    let none = Seq::<u32>::empty();
    let one = none.push(control);
    let e = Seq::<Outcome>::empty();
    assert(script.len() == 12);
    lemma_end(script, one);
    lemma_await(script, 11, one, 0x120, 1, 0, time, idle, e);
    let r11 = waited + e;
    lemma_write(script, 10, one, 0x120, (2048 + 3) as u32, r11);
    let r10 = seq![written] + r11;
    lemma_later(script, 9, one, 0x124, 0xFFFF_0C00, 0x1200, r10);
    let r9 = seq![written] + r10;
    lemma_await(script, 8, one, 0x120, 1, 0, time, idle, r9);
    let r8 = waited + r9;
    lemma_read(script, 7, none, 0x124, control, r8);
    let r7 = seq![Outcome::Value(control)] + r8;
    lemma_await(script, 6, none, 0x120, 1, 0, time, idle, r7);
    let r6 = waited + r7;
    lemma_write(script, 5, none, 0x120, (2048 + 1) as u32, r6);
    let r5 = seq![written] + r6;
    lemma_await(script, 4, none, 0x120, 1, 0, time, idle, r5);
    let r4 = waited + r5;
    lemma_await(script, 3, none, 0x120, 1, 0, time, idle, r4);
    let r3 = waited + r4;
    lemma_write(script, 2, none, 0x120, (2048 + 64 * 9 + 3) as u32, r3);
    let r2 = seq![written] + r3;
    lemma_write(script, 1, none, 0x124, 0, r2);
    let r1 = seq![written] + r2;
    lemma_await(script, 0, none, 0x120, 1, 0, time, idle, r1);
    assert(waited + r1 =~= seq![
        waited[0],
        waited[1],
        written,
        written,
        waited[0],
        waited[1],
        waited[0],
        waited[1],
        written,
        waited[0],
        waited[1],
        Outcome::Value(control),
        waited[0],
        waited[1],
        written,
        written,
        waited[0],
        waited[1],
    ]);
}

/// Letting every multicast in, or not, is bit 19 of the LAN9514's MAC control and bit 9 of
/// the LAN7800's filter control.
pub proof fn law_multicast<H: Dwc2Registers>(one: Lan9514State, other: Lan7800State, pass: bool)
    ensures
        <Lan9514 as Ethernet<H>>::multicast_program(one, pass) == chip::do_program(
            one.endpoint,
            chip::switch_script(0x100, 0x8_0000, pass),
        ),
        <Lan7800 as Ethernet<H>>::multicast_program(other, pass) == chip::do_program(
            other.endpoint,
            chip::switch_script(0xB0, 0x200, pass),
        ),
{
}

/// The link is what register 1 of the PHY says of it, and its duplex what registers 4 and 5
/// say that this end and the other offer.
pub proof fn law_link<H: Dwc2Registers>(one: Lan9514State, other: Lan7800State)
    ensures
        ({
            let up = |status: u32, unused: u32| status & 4 != 0;
            let full = |ours: u32, theirs: u32| ours & theirs & 0x140 != 0;
            let first = Mii { access: 0x114, data: 0x118 };
            let second = Mii { access: 0x120, data: 0x124 };
            &&& <Lan9514 as Ethernet<H>>::link_program(one) == chip::answer_program(
                one.endpoint,
                chip::phy_read_script(first, 1),
                up,
            )
            &&& <Lan9514 as Ethernet<H>>::duplex_program(one) == chip::answer_program(
                one.endpoint,
                chip::phy_read_script(first, 4) + chip::phy_read_script(first, 5),
                full,
            )
            &&& <Lan7800 as Ethernet<H>>::link_program(other) == chip::answer_program(
                other.endpoint,
                chip::phy_read_script(second, 1),
                up,
            )
            &&& <Lan7800 as Ethernet<H>>::duplex_program(other) == chip::answer_program(
                other.endpoint,
                chip::phy_read_script(second, 4) + chip::phy_read_script(second, 5),
                full,
            )
        }),
{
    let up = |status: u32, unused: u32| status & 4 != 0;
    let full = |ours: u32, theirs: u32| ours & theirs & 0x140 != 0;
    assert(up =~= (|status: u32, unused: u32| chip::status_up(status)));
    assert(full =~= (|ours: u32, theirs: u32| chip::both_full(ours, theirs)));
}

/// What a LAN7800 answers while it is reset, and all goes well.
pub struct Reset {
    pub config: u32,
    pub settled: u32,
    pub usb: u32,
    pub clocks: u32,
    pub power: u32,
    pub ready: u32,
    pub mac: u32,
    pub receiver: u32,
    pub times: (u64, u64),
}

impl Reset {
    /// The resets come to their ends: that of the chip, and that of its PHY, which is ready
    /// then.
    pub open spec fn ends(self) -> bool {
        self.settled & 0x2 == 0 && self.ready & 0x10 == 0 && self.ready & 0x80 != 0
    }

    /// The answers.
    pub open spec fn answers(self) -> Seq<Outcome> {
        let written = Outcome::Written;
        seq![
            Outcome::Value(self.config),
            written,
            Outcome::Time(self.times.0),
            Outcome::Value(self.settled),
            Outcome::Value(self.usb),
            written,
            Outcome::Value(self.clocks),
            written,
            written,
            written,
            written,
            written,
            Outcome::Value(self.power),
            written,
            Outcome::Time(self.times.1),
            Outcome::Value(self.ready),
            Outcome::Value(self.mac),
            written,
            Outcome::Value(self.receiver),
            written,
        ]
    }
}

/// Resetting a LAN7800: a reset of the chip, which is waited for; an answer or a NAK where
/// there is no frame, as is asked; the clocks and the LEDs on and one frame in a transfer;
/// no interrupt pending, no flow control, broadcasts and frames for its own address let in;
/// a reset of the PHY, until it is ready; speed and duplex found out by itself, without
/// saving energy; and frames of up to 1522 bytes. What else is in the registers stays.
pub proof fn law_lan7800_reset(parked: bool, reset: Reset)
    requires
        reset.ends(),
    ensures
        ({
            let asked = chip::whole_script(lan7800::reset_script(parked)).asked(reset.answers());
            &&& asked.len() == 20
            &&& asked[0] == Access::Read(0x10)
            &&& writes_back(asked[1], 0x10, reset.config, 0, 0x2)
            &&& asked[2] == Access::Clock
            &&& asked[3] == Access::Read(0x10)
            &&& asked[4] == Access::Read(0x80)
            &&& parked ==> writes_back(asked[5], 0x80, reset.usb, 0, 0x40)
            &&& !parked ==> writes_back(asked[5], 0x80, reset.usb, 0x40, 0)
            &&& asked[6] == Access::Read(0x10)
            &&& writes_back(asked[7], 0x10, reset.clocks, 0x10, 0x0330_0000)
            &&& asked[8] == Access::Write(0x0C, 0xFFFF_FFFF)
            &&& asked[9] == Access::Write(0x10C, 0)
            &&& asked[10] == Access::Write(0xD0, 0)
            &&& asked[11] == Access::Write(0xB0, 0x402)
            &&& asked[12] == Access::Read(0x14)
            &&& writes_back(asked[13], 0x14, reset.power, 0, 0x10)
            &&& asked[14] == Access::Clock
            &&& asked[15] == Access::Read(0x14)
            &&& asked[16] == Access::Read(0x100)
            &&& writes_back(asked[17], 0x100, reset.mac, 0x2_0000, 0x8_1800)
            &&& asked[18] == Access::Read(0x104)
            &&& writes_back(asked[19], 0x104, reset.receiver, 0x3FFF_0000, 0x05F2_0000)
        }),
{
    let script = lan7800::reset_script(parked);
    let written = Outcome::Written;
    let e = Seq::<Outcome>::empty();
    let v1 = Seq::<u32>::empty().push(reset.config);
    let v2 = v1.push(reset.usb);
    let v3 = v2.push(reset.clocks);
    let v4 = v3.push(reset.power);
    let v5 = v4.push(reset.mac);
    let v6 = v5.push(reset.receiver);
    lemma_end(script, v6);
    lemma_back(script, 16, v5, 0x104, 0x3FFF_0000, 0x05F2_0000, reset.receiver, e);
    let r16 = seq![Outcome::Value(reset.receiver), written] + e;
    lemma_back(script, 14, v4, 0x100, 0x2_0000, 0x8_1800, reset.mac, r16);
    let r14 = seq![Outcome::Value(reset.mac), written] + r16;
    lemma_await(script, 13, v4, 0x14, 0x10, 0x80, reset.times.1, reset.ready, r14);
    let r13 = seq![Outcome::Time(reset.times.1), Outcome::Value(reset.ready)] + r14;
    lemma_back(script, 11, v3, 0x14, 0, 0x10, reset.power, r13);
    let r11 = seq![Outcome::Value(reset.power), written] + r13;
    lemma_write(script, 10, v3, 0xB0, 0x402, r11);
    let r10 = seq![written] + r11;
    lemma_write(script, 9, v3, 0xD0, 0, r10);
    let r9 = seq![written] + r10;
    lemma_write(script, 8, v3, 0x10C, 0, r9);
    let r8 = seq![written] + r9;
    lemma_write(script, 7, v3, 0x0C, 0xFFFF_FFFF, r8);
    let r7 = seq![written] + r8;
    lemma_back(script, 5, v2, 0x10, 0x10, 0x0330_0000, reset.clocks, r7);
    let r5 = seq![Outcome::Value(reset.clocks), written] + r7;
    let clear: u32 = if parked {
        0
    } else {
        0x40
    };
    let set: u32 = if parked {
        0x40
    } else {
        0
    };
    lemma_back(script, 3, v1, 0x80, clear, set, reset.usb, r5);
    let r3 = seq![Outcome::Value(reset.usb), written] + r5;
    lemma_await(script, 2, v1, 0x10, 0x2, 0, reset.times.0, reset.settled, r3);
    let r2 = seq![Outcome::Time(reset.times.0), Outcome::Value(reset.settled)] + r3;
    lemma_back(script, 0, Seq::empty(), 0x10, 0, 0x2, reset.config, r2);
    assert(seq![Outcome::Value(reset.config), written] + r2 =~= reset.answers());
}

} // verus!
