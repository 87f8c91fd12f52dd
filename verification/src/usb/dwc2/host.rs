//! Bring-up of the controller and of its one root port, and the pool of host
//! channels.

use vstd::prelude::*;

use crate::program::Program;
use crate::usb::dwc2::hardware::{
    Change, Dwc2Registers, Field, HwHistory, HwProgram, PortBits, UsbPort,
};
use crate::usb::dwc2::{hardware, Channel, MAX_CHANNELS, MAX_SPINS};

pub mod bringup;

verus! {

broadcast use crate::program::group_program;

/// `GINTMSK`: the root port's and the host channels' interrupts.
pub const GINTMSK_PORT_AND_CHANNELS: u32 = 0x0300_0000;

/// The depth of each of the three FIFOs, in words.
pub const FIFO_DEPTH: u16 = 0x400;

/// `TXFNUM` for every transmit FIFO at once.
pub const ALL_TX_FIFOS: u8 = 0x10;

/// `HFIR` for the 48 MHz clock of a full- or low-speed root port.
pub const FRAME_INTERVAL_48MHZ: u16 = 48_000;

/// Poll a field until it is, or is no longer, zero.
pub open spec fn settle_poll(field: Field, until_set: bool, spins: nat) -> HwProgram<()>
    decreases spins,
{
    hardware::read(
        field,
        |value: u32|
            if (value != 0) == until_set || spins == 0 {
                Program::Return(())
            } else {
                settle_poll(field, until_set, (spins - 1) as nat)
            },
    )
}

/// Poll a field until it is, or is no longer, zero.
pub open spec fn settle(field: Field, until_set: bool) -> HwProgram<()> {
    settle_poll(field, until_set, MAX_SPINS as nat)
}

/// Reset the core once the bus is idle, and let it settle.
pub open spec fn core_reset_program() -> HwProgram<()> {
    settle(Field::AhbIdle, true).bind(
        |idle: ()|
            hardware::apply(
                Change::StartCoreReset,
                settle(Field::CoreReset, false).bind(
                    |reset: ()|
                        hardware::delay(
                            3_000,
                            hardware::apply(Change::UngateClocks, Program::Return(())),
                        ),
                ),
            ),
    )
}

/// Lay the three FIFOs out one after the other, and flush them.
pub open spec fn fifo_program() -> HwProgram<()> {
    hardware::apply(
        Change::RxFifo { depth: FIFO_DEPTH },
        hardware::apply(
            Change::NonPeriodicTxFifo { start: 0x400, depth: FIFO_DEPTH },
            hardware::apply(
                Change::PeriodicTxFifo { start: 0x800, depth: FIFO_DEPTH },
                hardware::apply(
                    Change::FlushRxFifo,
                    settle(Field::RxFlush, false).bind(
                        |rx: ()|
                            hardware::apply(
                                Change::FlushTxFifo { number: ALL_TX_FIFOS },
                                settle(Field::TxFlush, false),
                            ),
                    ),
                ),
            ),
        ),
    )
}

/// The channels of a controller that reports `count`, its number less one.
pub open spec fn channels_from(count: u32) -> u8 {
    if count >= MAX_CHANNELS {
        MAX_CHANNELS
    } else {
        (count + 1) as u8
    }
}

/// Go into host mode with DMA and interrupts on, power the port, and count the
/// channels.
pub open spec fn host_mode_program() -> HwProgram<u8> {
    hardware::apply(
        Change::ForceHostMode,
        hardware::delay(
            25_000,
            hardware::apply(
                Change::EnableDmaAndInterrupts,
                hardware::apply(
                    Change::SofMask { unmasked: false },
                    hardware::apply(
                        Change::UnmaskInterrupts { bits: GINTMSK_PORT_AND_CHANNELS },
                        hardware::apply(
                            Change::NoOtgCapabilities,
                            hardware::apply(
                                Change::Port(powered()),
                                hardware::read(
                                    Field::HostChannelCount,
                                    |count: u32| Program::Return(channels_from(count)),
                                ),
                            ),
                        ),
                    ),
                ),
            ),
        ),
    )
}

/// Bring the controller up; its result is the number of channels.
pub open spec fn init_program() -> HwProgram<u8> {
    core_reset_program().bind(
        |core: ()| fifo_program().bind(|fifos: ()| host_mode_program()),
    )
}

/// `HPRT` with the port powered, and nothing acknowledged.
pub open spec fn powered() -> PortBits {
    PortBits {
        power: true,
        reset: false,
        connect_detected: false,
        enable_changed: false,
        overcurrent_changed: false,
    }
}

/// `HPRT` with the port powered, and every change acknowledged. It leaves the
/// enable bit alone, which would clear itself.
pub open spec fn acknowledged() -> PortBits {
    PortBits {
        power: true,
        reset: false,
        connect_detected: true,
        enable_changed: true,
        overcurrent_changed: true,
    }
}

/// Reset the root port, acknowledge what that changed, and set the clock for a
/// port that did not come up at high speed.
pub open spec fn reset_port_program() -> HwProgram<()> {
    hardware::apply(
        Change::Port(PortBits { reset: true, ..powered() }),
        hardware::delay(
            50_000,
            hardware::apply(
                Change::Port(powered()),
                hardware::delay(
                    10_000,
                    hardware::apply(
                        Change::Port(acknowledged()),
                        port_speed_program().bind(
                            |speed: u8|
                                if speed != 0 {
                                    hardware::apply(
                                        Change::PhyClock { select: 1 },
                                        hardware::apply(
                                            Change::FrameInterval { clocks: FRAME_INTERVAL_48MHZ },
                                            Program::Return(()),
                                        ),
                                    )
                                } else {
                                    Program::Return(())
                                },
                        ),
                    ),
                ),
            ),
        ),
    )
}

/// The host controller.
pub struct Dwc2Host<H> {
    port: UsbPort<H>,
    allocated: u16,
    num_channels: u8,
}

/// Whether bit `index` of a 16-bit map is set.
pub open spec fn map_bit(map: u16, index: int) -> bool {
    0 <= index < 16 && map & (1u16 << (index as u16)) != 0
}

proof fn lemma_map_bits(map: u16, at: u16, other: u16)
    by (bit_vector)
    requires
        at < 16,
        other < 16,
    ensures
        ((map | (1u16 << at)) & (1u16 << other) != 0) == (at == other || map & (1u16 << other)
            != 0),
        ((map & !(1u16 << at)) & (1u16 << other) != 0) == (at != other && map & (1u16 << other)
            != 0),
        0u16 & (1u16 << other) == 0,
{
}

impl<H> Dwc2Host<H> {
    /// The channels that have been handed out and not given back.
    pub closed spec fn in_use(&self) -> Set<int> {
        Set::new(|index: int| map_bit(self.allocated, index))
    }

    /// How many channels the controller has.
    pub closed spec fn channels(&self) -> int {
        self.num_channels as int
    }

    /// What has been done to the controller through this driver itself.
    pub closed spec fn registers(&self) -> HwHistory {
        self.port@
    }

    /// The handle to the controller.
    pub closed spec fn handle(&self) -> H {
        self.port.handle()
    }

    /// No controller has more channels than this driver can manage.
    pub open spec fn wf(&self) -> bool {
        1 <= self.channels() <= MAX_CHANNELS
    }
}

impl<H> Dwc2Host<H> {
    /// Whether a channel is left to hand out.
    pub open spec fn has_free(&self) -> bool {
        exists|index: int| 0 <= index < self.channels() && !#[trigger] self.in_use().contains(index)
    }
}

/// The lowest free channel was handed out, fresh, if one was free; the controller is
/// otherwise as it was.
pub open spec fn handed_out<H>(
    before: Dwc2Host<H>,
    after: Dwc2Host<H>,
    channel: Option<Channel<H>>,
) -> bool {
    &&& after.channels() == before.channels()
    &&& after.registers() == before.registers()
    &&& match channel {
        Some(channel) => {
            &&& channel.number() < before.channels()
            &&& !before.in_use().contains(channel.number() as int)
            &&& forall|lower: int|
                0 <= lower < channel.number() ==> before.in_use().contains(lower)
            &&& after.in_use() == before.in_use().insert(channel.number() as int)
            &&& channel.registers() == HwHistory::empty()
            &&& channel@.len() == 0
            &&& channel.last() == 0
        },
        None => {
            &&& forall|index: int|
                0 <= index < before.channels() ==> before.in_use().contains(index)
            &&& after.in_use() == before.in_use()
        },
    }
}

impl<H: Dwc2Registers> Dwc2Host<H> {
    /// Brings the controller up in host mode with its root port powered.
    pub fn init(hardware: H) -> (host: Self)
        ensures
            host.wf(),
            init_program().ran(HwHistory::empty(), host.registers(), host.channels() as u8),
            host.in_use() == Set::<int>::empty(),
    {
        let mut port = UsbPort::new(hardware);
        Self::reset_core(&mut port);
        Self::lay_out_fifos(&mut port);
        let num_channels: u8 = Self::enter_host_mode(&mut port);
        let host = Dwc2Host { port, allocated: 0, num_channels };
        proof {
            assert forall|index: int| !host.in_use().contains(index) by {
                if 0 <= index < 16 {
                    lemma_map_bits(0, 0, index as u16);
                }
            }
            assert(host.in_use() =~= Set::<int>::empty());
        }
        host
    }

    fn settle(port: &mut UsbPort<H>, field: Field, until_set: bool)
        ensures
            settle(field, until_set).ran(old(port)@, final(port)@, ()),
    {
        proof {
            crate::program::begin(port@, settle(field, until_set));
        }
        let mut spins: u64 = MAX_SPINS;
        loop
            invariant
                settle(field, until_set).leads(
                    old(port)@,
                    port@,
                    settle_poll(field, until_set, spins as nat),
                ),
            decreases spins,
        {
            let value: u32 = port.read(field);
            if (value != 0) == until_set || spins == 0 {
                return;
            }
            spins = spins - 1;
        }
    }

    fn reset_core(port: &mut UsbPort<H>)
        ensures
            core_reset_program().ran(old(port)@, final(port)@, ()),
    {
        Self::settle(port, Field::AhbIdle, true);
        port.apply(Change::StartCoreReset);
        Self::settle(port, Field::CoreReset, false);
        port.delay(3_000);
        port.apply(Change::UngateClocks);
    }

    fn lay_out_fifos(port: &mut UsbPort<H>)
        ensures
            fifo_program().ran(old(port)@, final(port)@, ()),
    {
        port.apply(Change::RxFifo { depth: FIFO_DEPTH });
        port.apply(Change::NonPeriodicTxFifo { start: 0x400, depth: FIFO_DEPTH });
        port.apply(Change::PeriodicTxFifo { start: 0x800, depth: FIFO_DEPTH });
        port.apply(Change::FlushRxFifo);
        Self::settle(port, Field::RxFlush, false);
        port.apply(Change::FlushTxFifo { number: ALL_TX_FIFOS });
        Self::settle(port, Field::TxFlush, false);
    }

    fn enter_host_mode(port: &mut UsbPort<H>) -> (num_channels: u8)
        ensures
            host_mode_program().ran(old(port)@, final(port)@, num_channels),
            1 <= num_channels <= MAX_CHANNELS,
    {
        port.apply(Change::ForceHostMode);
        port.delay(25_000);
        port.apply(Change::EnableDmaAndInterrupts);
        port.apply(Change::SofMask { unmasked: false });
        port.apply(Change::UnmaskInterrupts { bits: GINTMSK_PORT_AND_CHANNELS });
        port.apply(Change::NoOtgCapabilities);
        port.apply(
            Change::Port(
                PortBits {
                    power: true,
                    reset: false,
                    connect_detected: false,
                    enable_changed: false,
                    overcurrent_changed: false,
                },
            ),
        );
        let count: u32 = port.read(Field::HostChannelCount);
        if count >= MAX_CHANNELS as u32 {
            MAX_CHANNELS
        } else {
            (count + 1) as u8
        }
    }

    /// How many host channels the controller has.
    pub fn num_channels(&self) -> (count: usize)
        ensures
            count == self.channels(),
    {
        self.num_channels as usize
    }

    /// Hands out the lowest channel that is free, if any is.
    pub fn alloc_channel(&mut self) -> (channel: Option<Channel<H>>)
        requires
            old(self).wf(),
        ensures
            final(self).wf(),
            handed_out(*old(self), *final(self), channel),
    {
        let mut index: u8 = 0;
        while index < self.num_channels
            invariant
                *self == *old(self),
                index <= self.num_channels <= 12,
                forall|lower: int| 0 <= lower < index ==> self.in_use().contains(lower),
            decreases self.num_channels - index,
        {
            if self.allocated & (1u16 << index) == 0 {
                let ghost before = self.in_use();
                let ghost map = self.allocated;
                self.allocated = self.allocated | (1u16 << index);
                proof {
                    assert forall|other: int|
                        self.in_use().contains(other) == before.insert(index as int).contains(
                            other,
                        ) by {
                        if 0 <= other < 16 {
                            lemma_map_bits(map, index as u16, other as u16);
                        }
                    }
                    assert(self.in_use() =~= before.insert(index as int));
                }
                return Some(Channel::fresh(self.port.another(), index));
            }
            index = index + 1;
        }
        None
    }

    /// Takes a channel back.
    pub fn free_channel(&mut self, channel: Channel<H>)
        requires
            old(self).wf(),
        ensures
            final(self).wf(),
            final(self).channels() == old(self).channels(),
            final(self).registers() == old(self).registers(),
            final(self).in_use() == old(self).in_use().remove(channel.number() as int),
    {
        self.free_index(channel.index() as u8);
    }

    /// Takes back the channel of the given number.
    pub(crate) fn free_index(&mut self, index: u8)
        requires
            old(self).wf(),
        ensures
            final(self).wf(),
            final(self).channels() == old(self).channels(),
            final(self).registers() == old(self).registers(),
            final(self).in_use() == old(self).in_use().remove(index as int),
    {
        if index >= 16 {
            assert(self.in_use().remove(index as int) =~= self.in_use());
            return;
        }
        let ghost before = self.in_use();
        let ghost map = self.allocated;
        self.allocated = self.allocated & !(1u16 << index);
        proof {
            assert forall|other: int|
                self.in_use().contains(other) == before.remove(index as int).contains(other) by {
                if 0 <= other < 16 {
                    lemma_map_bits(map, index as u16, other as u16);
                }
            }
            assert(self.in_use() =~= before.remove(index as int));
        }
    }

    /// Whether a device is connected to the root port.
    pub fn port_connected(&mut self) -> (connected: bool)
        ensures
            connected_program().ran(old(self).registers(), final(self).registers(), connected),
            final(self).in_use() == old(self).in_use(),
            final(self).channels() == old(self).channels(),
    {
        self.port.read(Field::PortConnected) != 0
    }

    /// Resets the root port and whatever is connected to it.
    pub fn reset_port(&mut self)
        ensures
            reset_port_program().ran(old(self).registers(), final(self).registers(), ()),
            final(self).in_use() == old(self).in_use(),
            final(self).channels() == old(self).channels(),
    {
        self.port.apply(
            Change::Port(
                PortBits {
                    power: true,
                    reset: true,
                    connect_detected: false,
                    enable_changed: false,
                    overcurrent_changed: false,
                },
            ),
        );
        self.port.delay(50_000);
        self.port.apply(
            Change::Port(
                PortBits {
                    power: true,
                    reset: false,
                    connect_detected: false,
                    enable_changed: false,
                    overcurrent_changed: false,
                },
            ),
        );
        self.port.delay(10_000);
        self.port.apply(
            Change::Port(
                PortBits {
                    power: true,
                    reset: false,
                    connect_detected: true,
                    enable_changed: true,
                    overcurrent_changed: true,
                },
            ),
        );
        if self.port_speed() != 0 {
            self.port.apply(Change::PhyClock { select: 1 });
            self.port.apply(Change::FrameInterval { clocks: FRAME_INTERVAL_48MHZ });
        }
    }

    /// Whether the root port is enabled.
    pub fn port_enabled(&mut self) -> (enabled: bool)
        ensures
            enabled_program().ran(old(self).registers(), final(self).registers(), enabled),
            final(self).in_use() == old(self).in_use(),
            final(self).channels() == old(self).channels(),
    {
        self.port.read(Field::PortEnabled) != 0
    }

    /// The root port's speed: 0 high, 1 full, 2 low.
    pub fn port_speed(&mut self) -> (speed: u8)
        ensures
            port_speed_program().ran(old(self).registers(), final(self).registers(), speed),
            final(self).in_use() == old(self).in_use(),
            final(self).channels() == old(self).channels(),
    {
        self.port.read(Field::PortSpeed) as u8
    }

    /// The handle to the controller's global registers, for what this driver
    /// does not cover.
    pub fn global(&self) -> (hardware: &H)
        ensures
            *hardware == self.handle(),
    {
        self.port.hardware()
    }

    /// The handle to the controller's host registers, for what this driver does
    /// not cover.
    pub fn host(&self) -> (hardware: &H)
        ensures
            *hardware == self.handle(),
    {
        self.port.hardware()
    }
}

/// Look whether a device is connected to the root port.
pub open spec fn connected_program() -> HwProgram<bool> {
    hardware::read(Field::PortConnected, |value: u32| Program::Return(value != 0))
}

/// Look whether the root port is enabled.
pub open spec fn enabled_program() -> HwProgram<bool> {
    hardware::read(Field::PortEnabled, |value: u32| Program::Return(value != 0))
}

/// Read the root port's speed.
pub open spec fn port_speed_program() -> HwProgram<u8> {
    hardware::read(Field::PortSpeed, |speed: u32| Program::Return(speed as u8))
}

/// A controller has one channel more than it reports, but no more than twelve are used.
pub proof fn law_channels(count: u32)
    ensures
        count < 12 ==> channels_from(count) == count + 1,
        count >= 12 ==> channels_from(count) == 12,
{
}

/// The root port is held in reset for fifty milliseconds and left alone for ten; what has
/// changed is acknowledged, and it stays powered throughout. If the port has not come up at
/// high speed, the clock is set to 48 megahertz, and the frame to a millisecond of it.
pub proof fn law_root_reset(speed: u8)
    ensures
        ({
            let powered = |reset: bool, acknowledged: bool|
                hardware::Op::Apply(
                    Change::Port(
                        PortBits {
                            power: true,
                            reset,
                            connect_detected: acknowledged,
                            enable_changed: acknowledged,
                            overcurrent_changed: acknowledged,
                        },
                    ),
                );
            let done = hardware::Answer::Done;
            let answers = seq![
                done,
                done,
                done,
                done,
                done,
                hardware::Answer::Word(speed as u32),
                done,
                done,
            ];
            let reset = seq![
                powered(true, false),
                hardware::Op::Delay(50_000),
                powered(false, false),
                hardware::Op::Delay(10_000),
                powered(false, true),
                hardware::Op::Read(Field::PortSpeed),
            ];
            reset_port_program().asked(answers) == if speed == 0 {
                reset
            } else {
                reset + seq![
                    hardware::Op::Apply(Change::PhyClock { select: 1 }),
                    hardware::Op::Apply(Change::FrameInterval { clocks: 48_000 }),
                ]
            }
        }),
{
    reveal_with_fuel(Program::asked, 10);
    reveal_with_fuel(Program::bind, 3);
    let done = hardware::Answer::Done;
    let a = seq![
        done,
        done,
        done,
        done,
        done,
        hardware::Answer::Word(speed as u32),
        done,
        done,
    ];
    let six = a.skip(1).skip(1).skip(1).skip(1).skip(1);
    assert(six[0] == hardware::Answer::Word(speed as u32));
    assert(six.skip(1)[0] == done);
    assert(six.skip(1).skip(1)[0] == done);
    assert(six.skip(1).skip(1).skip(1).len() == 0);
}

/// Giving a channel back right after it was handed out leaves the pool as it
/// was.
pub proof fn law_channel_comes_back(in_use: Set<int>, channel: int)
    requires
        !in_use.contains(channel),
    ensures
        in_use.insert(channel).remove(channel) == in_use,
{
    assert(in_use.insert(channel).remove(channel) =~= in_use);
}

} // verus!
