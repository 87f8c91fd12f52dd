//! Calls to a chip whose registers hold what was last written to them, and none of whose
//! transfers fails.

use vstd::prelude::*;

use crate::bytes;
use crate::program::Program;
use crate::usb::chip;
use crate::usb::chip::{
    Access, ChipProgram, Instruction, Outcome, Values, READ_REGISTER, WRITE_REGISTER,
};
use crate::usb::control;
use crate::usb::control::MAX_NAK_RETRIES;
use crate::usb::dwc2::{ControlEndpoint, Reply, Transfer, TransferError, UsbProgram};
use crate::usb::lan7800;
use crate::usb::lan9514;

verus! {

/// What the registers hold.
pub type Registers = spec_fn(u16) -> u32;

/// The chip, in the middle of a control transfer.
pub struct Chip {
    pub registers: Registers,
    /// The last SETUP packet.
    pub setup: Seq<u8>,
}

/// The registers after one was written.
pub open spec fn with_register(registers: Registers, register: u16, value: u32) -> Registers {
    |other: u16|
        if other == register {
            value
        } else {
            registers(other)
        }
}

/// The register that a SETUP packet names.
pub open spec fn named(setup: Seq<u8>) -> u16 {
    bytes::le16(setup[4], setup[5])
}

/// What the chip answers.
pub open spec fn reply(chip: Chip, transfer: Transfer) -> Reply {
    match transfer {
        Transfer::DataIn(..) => Reply::Bytes(
            Ok(
                if chip.setup[1] == READ_REGISTER {
                    bytes::le32_bytes((chip.registers)(named(chip.setup)))
                } else {
                    Seq::empty()
                },
            ),
        ),
        Transfer::Now => Reply::Time(0),
        Transfer::DelayMs(_) => Reply::Done,
        _ => Reply::Unit(Ok(())),
    }
}

/// The chip after a transfer.
pub open spec fn effect(chip: Chip, transfer: Transfer) -> Chip {
    match transfer {
        Transfer::Setup(_, packet) => Chip { setup: packet, ..chip },
        Transfer::DataOut(_, data) => if chip.setup[1] == WRITE_REGISTER {
            Chip {
                registers: with_register(
                    chip.registers,
                    named(chip.setup),
                    bytes::le32(data[0], data[1], data[2], data[3]),
                ),
                ..chip
            }
        } else {
            chip
        },
        _ => chip,
    }
}

/// What a program returns, and the chip that it leaves behind.
pub open spec fn finish<T>(program: UsbProgram<T>, chip: Chip) -> Option<(T, Chip)>
    decreases program,
{
    match program {
        Program::Return(value) => Some((value, chip)),
        Program::Request(transfer, next) => finish(
            next(reply(chip, transfer)),
            effect(chip, transfer),
        ),
        Program::Stuck => None,
    }
}

/// Two programs in turn.
broadcast proof fn lemma_bind<S, T>(
    program: UsbProgram<S>,
    rest: spec_fn(S) -> UsbProgram<T>,
    chip: Chip,
)
    ensures
        #[trigger] finish(program.bind(rest), chip) == match finish(program, chip) {
            Some((value, after)) => finish(rest(value), after),
            None => None,
        },
    decreases program,
{
    match program {
        Program::Return(value) => {
            assert(program.bind(rest) == rest(value));
        },
        Program::Request(transfer, next) => {
            let bound = program.bind(rest)->Request_1;
            let answer = reply(chip, transfer);
            lemma_bind(next(answer), rest, effect(chip, transfer));
            assert(bound(answer) == next(answer).bind(rest));
        },
        Program::Stuck => {},
    }
}

/// A stage without data into this side.
broadcast proof fn lemma_stage(transfer: Transfer, tries: nat, chip: Chip)
    requires
        tries > 0,
        reply(chip, transfer) == Reply::Unit(Ok(())),
    ensures
        #[trigger] finish(control::stage_program(transfer, tries), chip) == Some(
            (Ok::<(), TransferError>(()), effect(chip, transfer)),
        ),
{
    reveal_with_fuel(finish, 2);
    let next = control::stage_program(transfer, tries)->Request_1;
    assert(next(reply(chip, transfer)) == UsbProgram::<Result<(), TransferError>>::Return(Ok(())));
}

/// The packet of a request names its register.
proof fn lemma_named(setup: control::Setup)
    ensures
        setup.packet()[1] == setup.request,
        named(setup.packet()) == setup.index,
{
    bytes::law_le16(setup.index);
    let packet = setup.packet();
    assert(packet[4] == bytes::le16_bytes(setup.index)[0]);
    assert(packet[5] == bytes::le16_bytes(setup.index)[1]);
}

/// A register reads as what it holds, and nothing changes.
proof fn lemma_read(device: ControlEndpoint, register: u16, chip: Chip)
    ensures
        finish(chip::read_program(device, register), chip) matches Some((read, after)) && read
            == Ok::<u32, TransferError>((chip.registers)(register)) && after.registers
            == chip.registers,
{
    broadcast use {lemma_bind, lemma_stage};

    let setup = control::vendor_in_setup(READ_REGISTER, 0, register, 4);
    lemma_named(setup);
    let value = (chip.registers)(register);
    bytes::law_le32(value);
    let asked = Chip { setup: setup.packet(), ..chip };
    assert(effect(chip, Transfer::Setup(device, setup.packet())) == asked);
    let data = control::data_program(device, control::zeros(4), MAX_NAK_RETRIES as nat);
    let come = bytes::le32_bytes(value) + control::zeros(4).skip(4);
    let next = data->Request_1;
    assert(next(reply(asked, Transfer::DataIn(device, 4))) == UsbProgram::<control::Read>::Return(
        (Ok(4), come),
    ));
    assert(finish(data, asked) == Some(
        ((Ok::<usize, TransferError>(4), come), effect(asked, Transfer::DataIn(device, 4))),
    )) by {
        reveal_with_fuel(finish, 2);
    }
    assert(come =~= bytes::le32_bytes(value));
}

/// A register that is written holds what was written.
proof fn lemma_write(device: ControlEndpoint, register: u16, value: u32, chip: Chip)
    ensures
        finish(chip::write_program(device, register, value), chip) matches Some((written, after))
            && written == Ok::<(), TransferError>(()) && after.registers == with_register(
            chip.registers,
            register,
            value,
        ),
{
    broadcast use {lemma_bind, lemma_stage};

    let setup = control::vendor_out_setup(WRITE_REGISTER, 0, register, 4);
    lemma_named(setup);
    bytes::law_le32(value);
    let asked = Chip { setup: setup.packet(), ..chip };
    assert(effect(chip, Transfer::Setup(device, setup.packet())) == asked);
}

/// What a program over accesses returns on such registers, and what it leaves in them.
pub open spec fn told<T>(program: ChipProgram<T>, registers: Registers) -> Option<(T, Registers)>
    decreases program,
{
    match program {
        Program::Return(value) => Some((value, registers)),
        Program::Request(Access::Read(register), next) => told(
            next(Outcome::Value(registers(register))),
            registers,
        ),
        Program::Request(Access::Write(register, value), next) => told(
            next(Outcome::Written),
            with_register(registers, register, value),
        ),
        Program::Request(Access::Clock, next) => told(next(Outcome::Time(0)), registers),
        Program::Stuck => None,
    }
}

/// Made as transfers, it comes to the same.
proof fn lemma_over_usb(device: ControlEndpoint, program: ChipProgram<Values>, chip: Chip)
    ensures
        match told(program, chip.registers) {
            Some((values, registers)) => finish(chip::over_usb(device, program), chip) matches Some(
                (found, after),
            ) && found == values && after.registers == registers,
            None => finish(chip::over_usb(device, program), chip) is None,
        },
    decreases program,
{
    broadcast use lemma_bind;

    match program {
        Program::Request(access, next) => match access {
            Access::Read(register) => {
                let value = (chip.registers)(register);
                lemma_read(device, register, chip);
                let after = (finish(chip::read_program(device, register), chip)->0).1;
                lemma_over_usb(device, next(Outcome::Value(value)), after);
            },
            Access::Write(register, value) => {
                lemma_write(device, register, value, chip);
                let after = (finish(chip::write_program(device, register, value), chip)->0).1;
                lemma_over_usb(device, next(Outcome::Written), after);
            },
            Access::Clock => {
                lemma_over_usb(device, next(Outcome::Time(0)), chip);
                let rest = chip::over_usb(device, program)->Request_1;
                assert(rest(Reply::Time(0)) == chip::over_usb(device, next(Outcome::Time(0))));
            },
        },
        _ => {},
    }
}

/// A register that was written reads back as what was written, and every other register
/// reads as before.
pub proof fn law_register_read_back(
    device: ControlEndpoint,
    register: u16,
    value: u32,
    other: u16,
    chip: Chip,
)
    ensures
        finish(chip::write_program(device, register, value), chip) matches Some((written, after))
            && {
            &&& written == Ok::<(), TransferError>(())
            &&& finish(chip::read_program(device, other), after) matches Some((read, _)) && read
                == Ok::<u32, TransferError>(
                if other == register {
                    value
                } else {
                    (chip.registers)(other)
                },
            )
        },
{
    lemma_write(device, register, value, chip);
    let after = (finish(chip::write_program(device, register, value), chip)->0).1;
    lemma_read(device, other, after);
}

/// A script that is not asked for values.
proof fn lemma_do(
    device: ControlEndpoint,
    script: Seq<Instruction>,
    values: Seq<u32>,
    registers: Registers,
    chip: Chip,
)
    requires
        told(chip::whole_script(script), chip.registers) == Some(
            (Ok::<Seq<u32>, TransferError>(values), registers),
        ),
    ensures
        finish(chip::do_program(device, script), chip) matches Some((done, after)) && done == Ok::<
            (),
            TransferError,
        >(()) && after.registers == registers,
{
    broadcast use lemma_bind;

    lemma_over_usb(device, chip::whole_script(script), chip);
}

/// A script that is asked for two values.
proof fn lemma_answer<T>(
    device: ControlEndpoint,
    script: Seq<Instruction>,
    values: Seq<u32>,
    registers: Registers,
    chip: Chip,
    answer: spec_fn(u32, u32) -> T,
)
    requires
        told(chip::whole_script(script), chip.registers) == Some(
            (Ok::<Seq<u32>, TransferError>(values), registers),
        ),
        values.len() == 2,
    ensures
        finish(chip::answer_program(device, script, answer), chip) matches Some((answered, after))
            && answered == Ok::<T, TransferError>(answer(values[0], values[1]))
            && after.registers == registers,
{
    broadcast use lemma_bind;

    lemma_over_usb(device, chip::whole_script(script), chip);
}

/// Reading two registers.
proof fn lemma_two_reads(first: u16, second: u16, registers: Registers)
    ensures
        told(
            chip::whole_script(
                seq![
                    Instruction::Read { register: first },
                    Instruction::Read { register: second },
                ],
            ),
            registers,
        ) == Some(
            (
                Ok::<Seq<u32>, TransferError>(seq![registers(first), registers(second)]),
                registers,
            ),
        ),
{
    reveal_with_fuel(chip::script_program, 3);
    reveal_with_fuel(told, 3);
    assert(Seq::<u32>::empty().push(registers(first)).push(registers(second)) =~= seq![
        registers(first),
        registers(second),
    ]);
}

/// A LAN7800 gives back the MAC address that it was given, and its first perfect filter
/// lets that address through.
pub proof fn law_lan7800_mac_read_back(device: ControlEndpoint, mac: Seq<u8>, chip: Chip)
    requires
        mac.len() == 6,
    ensures
        finish(chip::do_program(device, lan7800::mac_script(mac)), chip) matches Some((set, after))
            && {
            &&& set == Ok::<(), TransferError>(())
            &&& (after.registers)(lan7800::REG_MAF_LO0) == chip::mac_low(mac)
            &&& (after.registers)(lan7800::REG_MAF_HI0) == chip::mac_high(mac)
                + lan7800::MAF_HI_VALID
            &&& finish(
                chip::answer_program(
                    device,
                    lan7800::read_mac_script(),
                    |low: u32, high: u32| chip::mac_in(low, high),
                ),
                after,
            ) matches Some((read, _)) && read == Ok::<Seq<u8>, TransferError>(mac)
        },
{
    let low = chip::mac_low(mac);
    let high = chip::mac_high(mac);
    let one = with_register(chip.registers, lan7800::REG_RX_ADDRL, low);
    let two = with_register(one, lan7800::REG_RX_ADDRH, high);
    let three = with_register(two, lan7800::REG_MAF_LO0, low);
    let four = with_register(
        three,
        lan7800::REG_MAF_HI0,
        (high + lan7800::MAF_HI_VALID) as u32,
    );
    let script = lan7800::mac_script(mac);
    assert(told(chip::whole_script(script), chip.registers) == Some(
        (Ok::<Seq<u32>, TransferError>(Seq::empty()), four),
    )) by {
        reveal_with_fuel(chip::script_program, 5);
        reveal_with_fuel(told, 5);
    }
    lemma_do(device, script, Seq::empty(), four, chip);
    let after = (finish(chip::do_program(device, script), chip)->0).1;
    lemma_two_reads(lan7800::REG_RX_ADDRL, lan7800::REG_RX_ADDRH, four);
    lemma_answer(
        device,
        lan7800::read_mac_script(),
        seq![low, high],
        four,
        after,
        |low: u32, high: u32| chip::mac_in(low, high),
    );
    chip::law_mac_round_trip(mac);
}

/// A LAN9514 gives back the MAC address that it was given.
pub proof fn law_lan9514_mac_read_back(device: ControlEndpoint, mac: Seq<u8>, chip: Chip)
    requires
        mac.len() == 6,
    ensures
        finish(chip::do_program(device, lan9514::mac_script(mac)), chip) matches Some((set, after))
            && {
            &&& set == Ok::<(), TransferError>(())
            &&& finish(
                chip::answer_program(
                    device,
                    lan9514::read_mac_script(),
                    |low: u32, high: u32| chip::mac_in(low, high),
                ),
                after,
            ) matches Some((read, _)) && read == Ok::<Seq<u8>, TransferError>(mac)
        },
{
    let low = chip::mac_low(mac);
    let high = chip::mac_high(mac);
    let one = with_register(chip.registers, lan9514::REG_ADDRL, low);
    let two = with_register(one, lan9514::REG_ADDRH, high);
    let script = lan9514::mac_script(mac);
    assert(told(chip::whole_script(script), chip.registers) == Some(
        (Ok::<Seq<u32>, TransferError>(Seq::empty()), two),
    )) by {
        reveal_with_fuel(chip::script_program, 3);
        reveal_with_fuel(told, 3);
    }
    lemma_do(device, script, Seq::empty(), two, chip);
    let after = (finish(chip::do_program(device, script), chip)->0).1;
    lemma_two_reads(lan9514::REG_ADDRL, lan9514::REG_ADDRH, two);
    lemma_answer(
        device,
        lan9514::read_mac_script(),
        seq![low, high],
        two,
        after,
        |low: u32, high: u32| chip::mac_in(low, high),
    );
    chip::law_mac_round_trip(mac);
}

} // verus!
