//! What the accesses to a chip are, bit for bit.

use vstd::prelude::*;

use crate::bytes;
use crate::program::Program;
use crate::usb::chip;
use crate::usb::chip::{Access, ChipProgram, Mii, Outcome, Values};
use crate::usb::control;
use crate::usb::control::requests;
use crate::usb::dwc2::{ControlEndpoint, Reply, Transfer, TransferError, UsbProgram};
use crate::usb::lan9514;

verus! {

/// A register is read by vendor request 0xA1 and written by 0xA0, with its number as the
/// index and four bytes of data, which are its value, low byte first.
pub proof fn law_register_transfers(device: ControlEndpoint, register: u16, value: u32)
    ensures
        ({
            let low = (register % 256) as u8;
            let high = (register / 256) as u8;
            let data = seq![
                (value % 256) as u8,
                (value / 256 % 256) as u8,
                (value / 65536 % 256) as u8,
                (value / 0x100_0000) as u8,
            ];
            let read = chip::read_program(device, register);
            let answers = seq![requests::done(), Reply::Bytes(Ok(data)), requests::done()];
            let write = chip::write_program(device, register, value);
            let written = seq![requests::done(), requests::done(), requests::done()];
            &&& read.asked(answers) == seq![
                Transfer::Setup(device, seq![0xC0, 0xA1, 0, 0, low, high, 4, 0]),
                Transfer::DataIn(device, 4),
                Transfer::StatusOut(device),
            ]
            &&& read.given(answers) == UsbProgram::<Result<u32, TransferError>>::Return(Ok(value))
            &&& write.asked(written) == seq![
                Transfer::Setup(device, seq![0x40, 0xA0, 0, 0, low, high, 4, 0]),
                Transfer::DataOut(device, data),
                Transfer::StatusIn(device),
            ]
            &&& write.given(written) == UsbProgram::<Result<(), TransferError>>::Return(Ok(()))
        }),
{
    reveal_with_fuel(Program::asked, 4);
    reveal_with_fuel(Program::given, 4);
    reveal_with_fuel(Program::bind, 4);
    reveal_with_fuel(control::stage_program, 2);
    reveal_with_fuel(control::data_program, 2);
    let low = (register % 256) as u8;
    let high = (register / 256) as u8;
    let data = seq![
        (value % 256) as u8,
        (value / 256 % 256) as u8,
        (value / 65536 % 256) as u8,
        (value / 0x100_0000) as u8,
    ];
    assert(control::vendor_in_setup(0xA1, 0, register, 4).packet() =~= seq![
        0xC0,
        0xA1,
        0,
        0,
        low,
        high,
        4,
        0,
    ]);
    assert(control::vendor_out_setup(0xA0, 0, register, 4).packet() =~= seq![
        0x40,
        0xA0,
        0,
        0,
        low,
        high,
        4,
        0,
    ]);
    assert(bytes::le32_bytes(value) =~= data);
    assert(bytes::le32(data[0], data[1], data[2], data[3]) == value);
    let answers = seq![requests::done(), Reply::Bytes(Ok(data)), requests::done()];
    assert(answers.skip(1) =~= seq![Reply::Bytes(Ok(data)), requests::done()]);
    assert(answers.skip(1).skip(1) =~= seq![requests::done()]);
    assert(answers.skip(1).skip(1).skip(1).len() == 0);
    assert(data + control::zeros(4).skip(4) =~= data);
    let written = seq![requests::done(), requests::done(), requests::done()];
    assert(written.skip(1) =~= seq![requests::done(), requests::done()]);
    assert(written.skip(1).skip(1) =~= seq![requests::done()]);
    assert(written.skip(1).skip(1).skip(1).len() == 0);
}

/// Writing a register back changes what it is to change and nothing else: the bits that are
/// to be set are, those that are to be cleared and not set are clear, and the others are as
/// they were.
pub proof fn law_adjusted(value: u32, clear: u32, set: u32)
    ensures
        chip::adjusted(value, clear, set) & set == set,
        chip::adjusted(value, clear, set) & (clear & !set) == 0,
        chip::adjusted(value, clear, set) & !(clear | set) == value & !(clear | set),
{
    assert(((value & !clear) | set) & set == set && ((value & !clear) | set) & (clear & !set) == 0
        && ((value & !clear) | set) & !(clear | set) == value & !(clear | set)) by (bit_vector);
}

/// Switching bits of a register on or off reads it and writes it back with those bits set,
/// or cleared, and the others as they were.
pub proof fn law_switch(register: u16, bits: u32, on: bool, value: u32)
    ensures
        ({
            let program = chip::whole_script(chip::switch_script(register, bits, on));
            let asked = program.asked(seq![Outcome::Value(value), Outcome::Written]);
            &&& asked.len() == 2
            &&& asked[0] == Access::Read(register)
            &&& asked[1] matches Access::Write(written, new)
            &&& written == register
            &&& new & bits == if on { bits } else { 0 }
            &&& new & !bits == value & !bits
        }),
{
    reveal_with_fuel(Program::asked, 4);
    reveal_with_fuel(chip::script_program, 4);
    let answers = seq![Outcome::Value(value), Outcome::Written];
    assert(answers.skip(1) =~= seq![Outcome::Written]);
    assert(answers.skip(1).skip(1).len() == 0);
    let script = chip::switch_script(register, bits, on);
    let values = Seq::<u32>::empty().push(value);
    assert(chip::latest(values) == value);
    let set: u32 = if on {
        bits
    } else {
        0
    };
    let clear: u32 = if on {
        0
    } else {
        bits
    };
    let new: u32 = chip::adjusted(value, clear, set);
    assert(new == (value & !clear) | set);
    assert(new & bits == set && new & !bits == value & !bits) by (bit_vector)
        requires
            new == (value & !clear) | set,
            (set == bits && clear == 0) || (set == 0 && clear == bits),
    ;
}

/// Full duplex is bit 20 of the MAC's control register, and not hearing oneself bit 23: the
/// one is set and the other cleared, and the rest of the register is as it was.
pub proof fn law_duplex(full: bool, value: u32)
    ensures
        ({
            let program = chip::whole_script(lan9514::duplex_script(full));
            let asked = program.asked(seq![Outcome::Value(value), Outcome::Written]);
            &&& asked.len() == 2
            &&& asked[0] == Access::Read(0x100)
            &&& asked[1] matches Access::Write(register, new)
            &&& register == 0x100
            &&& new / 0x10_0000 % 2 == if full { 1int } else { 0 }
            &&& new / 0x80_0000 % 2 == if full { 0int } else { 1 }
            &&& new & 0xFF6F_FFFF == value & 0xFF6F_FFFF
        }),
{
    reveal_with_fuel(Program::asked, 4);
    reveal_with_fuel(chip::script_program, 4);
    let answers = seq![Outcome::Value(value), Outcome::Written];
    assert(answers.skip(1) =~= seq![Outcome::Written]);
    assert(answers.skip(1).skip(1).len() == 0);
    let script = lan9514::duplex_script(full);
    let values = Seq::<u32>::empty().push(value);
    assert(chip::latest(values) == value);
    let on: u32 = if full {
        0x10_0000
    } else {
        0x80_0000
    };
    let off: u32 = if full {
        0x80_0000
    } else {
        0x10_0000
    };
    let new: u32 = chip::adjusted(value, off, on);
    assert(new == (value & !off) | on);
    assert(new & 0xFF6F_FFFF == value & 0xFF6F_FFFF && (new / 0x10_0000 % 2 == 1) == full && (new
        / 0x80_0000 % 2 == 1) == !full) by (bit_vector)
        requires
            new == (value & !off) | on,
            (full && on == 0x10_0000 && off == 0x80_0000) || (!full && on == 0x80_0000 && off
                == 0x10_0000),
    ;
}

/// The link is up if bit 2 of the status says so.
pub proof fn law_link_bit(status: u32)
    ensures
        chip::status_up(status) <==> status / 4 % 2 == 1,
{
    assert((status & 0x0004 != 0) == (status / 4 % 2 == 1)) by (bit_vector);
}

/// A link is full duplex if both ends offer it at 100 megabits, bit 8, or both at 10, bit 6.
pub proof fn law_duplex_bits(ours: u32, theirs: u32)
    ensures
        chip::both_full(ours, theirs) <==> (ours / 256 % 2 == 1 && theirs / 256 % 2 == 1) || (ours
            / 64 % 2 == 1 && theirs / 64 % 2 == 1),
{
    assert((ours & theirs & 0x0140 != 0) == ((ours / 256 % 2 == 1 && theirs / 256 % 2 == 1) || (
    ours / 64 % 2 == 1 && theirs / 64 % 2 == 1))) by (bit_vector);
}

/// A register of the PHY is selected by its number from bit 6 on, of the PHY inside the
/// chip, which is the first.
pub proof fn law_mii_select(index: u8)
    requires
        index < 32,
    ensures
        chip::mii_select(index) == 2048 + 64 * index,
        chip::mii_select(index) | 1 == 2048 + 64 * index + 1,
        chip::mii_select(index) | 2 | 1 == 2048 + 64 * index + 3,
{
    let wide = index as u32;
    assert(0x0800 | (wide << 6) == 2048 + 64 * wide && 0x0800 | (wide << 6) | 1 == 2048 + 64 * wide
        + 1 && 0x0800 | (wide << 6) | 2 | 1 == 2048 + 64 * wide + 3) by (bit_vector)
        requires
            wide < 32,
    ;
}

/// A register of the PHY is read when no access is going on, as bit 0 says: the access is
/// asked for, and when it is over, the data is read.
pub proof fn law_phy_read(
    mii: Mii,
    index: u8,
    before: u64,
    idle: u32,
    after: u64,
    over: u32,
    value: u32,
)
    requires
        index < 32,
        idle % 2 == 0,
        over % 2 == 0,
    ensures
        ({
            let program = chip::whole_script(chip::phy_read_script(mii, index));
            let answers = seq![
                Outcome::Time(before),
                Outcome::Value(idle),
                Outcome::Written,
                Outcome::Time(after),
                Outcome::Value(over),
                Outcome::Value(value),
            ];
            &&& program.asked(answers) == seq![
                Access::Clock,
                Access::Read(mii.access),
                Access::Write(mii.access, (2048 + 64 * index + 1) as u32),
                Access::Clock,
                Access::Read(mii.access),
                Access::Read(mii.data),
            ]
            &&& program.given(answers) == ChipProgram::<Values>::Return(Ok(seq![value]))
        }),
{
    reveal_with_fuel(Program::asked, 7);
    reveal_with_fuel(Program::given, 7);
    reveal_with_fuel(chip::script_program, 6);
    reveal_with_fuel(chip::look_program, 2);
    law_mii_select(index);
    lemma_even(idle);
    lemma_even(over);
    let a = seq![
        Outcome::Time(before),
        Outcome::Value(idle),
        Outcome::Written,
        Outcome::Time(after),
        Outcome::Value(over),
        Outcome::Value(value),
    ];
    lemma_six(a);
    assert(Seq::<u32>::empty().push(value) =~= seq![value]);
}

proof fn lemma_even(word: u32)
    requires
        word % 2 == 0,
    ensures
        word & 1 == 0,
{
    assert(word & 1 == 0) by (bit_vector)
        requires
            word % 2 == 0,
    ;
}

proof fn lemma_six(a: Seq<Outcome>)
    requires
        a.len() == 6,
    ensures
        a.skip(1).len() == 5,
        a.skip(1)[0] == a[1],
        a.skip(1).skip(1).len() == 4,
        a.skip(1).skip(1)[0] == a[2],
        a.skip(1).skip(1).skip(1).len() == 3,
        a.skip(1).skip(1).skip(1)[0] == a[3],
        a.skip(1).skip(1).skip(1).skip(1).len() == 2,
        a.skip(1).skip(1).skip(1).skip(1)[0] == a[4],
        a.skip(1).skip(1).skip(1).skip(1).skip(1).len() == 1,
        a.skip(1).skip(1).skip(1).skip(1).skip(1)[0] == a[5],
        a.skip(1).skip(1).skip(1).skip(1).skip(1).skip(1).len() == 0,
{
}

/// A register of the PHY is written when no access is going on: its value, then the access,
/// which is over before anything else is done.
pub proof fn law_phy_write(
    mii: Mii,
    index: u8,
    value: u16,
    before: u64,
    idle: u32,
    after: u64,
    over: u32,
)
    requires
        index < 32,
        idle % 2 == 0,
        over % 2 == 0,
    ensures
        ({
            let program = chip::whole_script(chip::phy_write_script(mii, index, value));
            let answers = seq![
                Outcome::Time(before),
                Outcome::Value(idle),
                Outcome::Written,
                Outcome::Written,
                Outcome::Time(after),
                Outcome::Value(over),
            ];
            &&& program.asked(answers) == seq![
                Access::Clock,
                Access::Read(mii.access),
                Access::Write(mii.data, value as u32),
                Access::Write(mii.access, (2048 + 64 * index + 3) as u32),
                Access::Clock,
                Access::Read(mii.access),
            ]
            &&& program.given(answers) == ChipProgram::<Values>::Return(Ok(Seq::empty()))
        }),
{
    reveal_with_fuel(Program::asked, 7);
    reveal_with_fuel(Program::given, 7);
    reveal_with_fuel(chip::script_program, 6);
    reveal_with_fuel(chip::look_program, 2);
    law_mii_select(index);
    lemma_even(idle);
    lemma_even(over);
    let a = seq![
        Outcome::Time(before),
        Outcome::Value(idle),
        Outcome::Written,
        Outcome::Written,
        Outcome::Time(after),
        Outcome::Value(over),
    ];
    lemma_six(a);
}

/// A register that has not settled is looked at again as long as no more than a second has
/// passed since the first look; then the wait has failed.
pub proof fn law_wait(
    register: u16,
    clear: u32,
    set: u32,
    start: u64,
    looks: nat,
    rest: ChipProgram<Values>,
    value: u32,
    now: u64,
)
    requires
        value & clear != 0 || (set != 0 && value & set == 0),
        start <= now,
        looks > 0,
    ensures
        ({
            let program = chip::look_program(register, clear, set, start, looks, rest);
            let answers = seq![Outcome::Value(value), Outcome::Time(now)];
            &&& now - start > 1_000_000 ==> program.given(answers) == ChipProgram::<
                Values,
            >::Return(Err(TransferError::Timeout))
            &&& now - start <= 1_000_000 ==> program.asked(answers) == seq![
                Access::Read(register),
                Access::Clock,
                Access::Read(register),
            ]
        }),
{
    reveal_with_fuel(Program::asked, 4);
    reveal_with_fuel(Program::given, 4);
    reveal_with_fuel(chip::look_program, 3);
    let answers = seq![Outcome::Value(value), Outcome::Time(now)];
    assert(answers.skip(1) =~= seq![Outcome::Time(now)]);
    assert(answers.skip(1).skip(1).len() == 0);
}

} // verus!
