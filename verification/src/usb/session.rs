//! What enumeration does to the outside world, step by step: looking at the root
//! port, at the ports of hubs, giving addresses, and telling the application.
//!
//! A [`Session`] makes these steps on the controller and keeps their history. It
//! holds the controller, and the channel while one is taken.

use vstd::prelude::*;

use core::ops::ControlFlow;

use crate::program::{Exchange, Program};
use crate::usb::control;
use crate::usb::control::{
    port_request, probe_and_address, PORT_FEATURE_C_CONNECTION, REQUEST_CLEAR_FEATURE,
};
use crate::usb::descriptor::DeviceDescriptor;
use crate::usb::dwc2::hardware::{Dwc2Registers, HwHistory, HwProgram};
use crate::usb::dwc2::host;
use crate::usb::dwc2::{
    Channel, ControlEndpoint, Dwc2Host, TransferError, UsbHistory, UsbProgram,
};
use crate::usb::hub;
use crate::usb::hub::{Hub, PortStatus};
use crate::usb::EnumerationError;

verus! {

broadcast use crate::program::group_program;

/// A device that has been found and given its address.
#[derive(Clone, Copy, Debug, PartialEq, Eq, Structural)]
pub struct Device {
    /// The port of the hub that it is connected to.
    pub port: u8,
    /// The address of that hub.
    pub hub_address: u8,
    /// How many hubs are between that hub and the root port.
    pub depth: u8,
    pub endpoint: ControlEndpoint,
    pub descriptor: DeviceDescriptor,
}

/// A change on the bus.
#[derive(Clone, Copy, Debug, PartialEq, Eq, Structural)]
pub enum Event {
    /// A device was found.
    Attached(Device),
    /// A device is gone.
    Detached { hub_address: u8, port: u8, address: u8 },
}

/// An application that hears about changes on the bus. It may use the channel,
/// and it may ask for the walk to stop.
pub trait BusListener<H: Dwc2Registers> {
    /// Hears about a change.
    fn on_event(&mut self, channel: &mut Channel<H>, event: Event) -> ControlFlow<()>;
}

/// A step of enumeration.
pub enum BusOp {
    /// Look whether anything is connected to the root port.
    RootConnected,
    /// Reset the root port.
    ResetRoot,
    /// Look whether the root port is enabled.
    RootEnabled,
    /// Look at the root port's speed.
    RootSpeed,
    /// Take a channel.
    TakeChannel,
    /// Give the channel back.
    ReturnChannel,
    /// Look at a port of a hub.
    LookAt(Hub, u8),
    /// Reset a port of a hub.
    Reset(Hub, u8),
    /// Find out what a new device is, and give it an address.
    Probe(ControlEndpoint, u8),
    /// Configure a hub.
    Configure(ControlEndpoint, bool),
    /// Acknowledge a change of connection on a port of a hub.
    Acknowledge(ControlEndpoint, u8),
    /// Tell the application.
    Tell(Event),
}

/// What a step came to.
pub enum BusAnswer {
    Done,
    Flag(bool),
    Speed(u8),
    Status(Result<PortStatus, EnumerationError>),
    Probed(Result<(ControlEndpoint, DeviceDescriptor), TransferError>),
    Configured(Result<Hub, EnumerationError>),
}

/// A program over steps of enumeration.
pub type BusProgram<T> = Program<BusOp, BusAnswer, T>;

/// Steps of enumeration, oldest first.
pub type BusHistory = Seq<Exchange<BusOp, BusAnswer>>;

/// Make a step with no result, then go on.
pub open spec fn act<T>(op: BusOp, rest: BusProgram<T>) -> BusProgram<T> {
    Program::Request(op, |answer: BusAnswer| rest)
}

/// Make a step that is answered by yes or no, then go on.
pub open spec fn ask<T>(op: BusOp, rest: spec_fn(bool) -> BusProgram<T>) -> BusProgram<T> {
    Program::Request(
        op,
        |answer: BusAnswer|
            match answer {
                BusAnswer::Flag(flag) => rest(flag),
                _ => Program::Stuck,
            },
    )
}

/// Look at the root port's speed, then go on.
pub open spec fn root_speed<T>(rest: spec_fn(u8) -> BusProgram<T>) -> BusProgram<T> {
    Program::Request(
        BusOp::RootSpeed,
        |answer: BusAnswer|
            match answer {
                BusAnswer::Speed(speed) => rest(speed),
                _ => Program::Stuck,
            },
    )
}

/// Look at, or reset, a port of a hub, then go on.
pub open spec fn port_step<T>(
    op: BusOp,
    rest: spec_fn(Result<PortStatus, EnumerationError>) -> BusProgram<T>,
) -> BusProgram<T> {
    Program::Request(
        op,
        |answer: BusAnswer|
            match answer {
                BusAnswer::Status(status) => rest(status),
                _ => Program::Stuck,
            },
    )
}

/// Find out what a new device is and give it an address, then go on; if that
/// succeeds, the device is at that address.
pub open spec fn probe<T>(
    endpoint: ControlEndpoint,
    address: u8,
    rest: spec_fn(Result<(ControlEndpoint, DeviceDescriptor), TransferError>) -> BusProgram<T>,
) -> BusProgram<T> {
    Program::Request(
        BusOp::Probe(endpoint, address),
        |answer: BusAnswer|
            match answer {
                BusAnswer::Probed(probed) => if probed is Ok && probed->Ok_0.0.address != address {
                    Program::Stuck
                } else {
                    rest(probed)
                },
                _ => Program::Stuck,
            },
    )
}

/// Configure a hub, then go on; if that succeeds, it is still reached as it was.
pub open spec fn configure<T>(
    endpoint: ControlEndpoint,
    high_speed: bool,
    rest: spec_fn(Result<Hub, EnumerationError>) -> BusProgram<T>,
) -> BusProgram<T> {
    Program::Request(
        BusOp::Configure(endpoint, high_speed),
        |answer: BusAnswer|
            match answer {
                BusAnswer::Configured(configured) => if configured is Ok
                    && configured->Ok_0.endpoint != endpoint {
                    Program::Stuck
                } else {
                    rest(configured)
                },
                _ => Program::Stuck,
            },
    )
}

/// A step that was made, with what it did to the controller.
pub struct Deed {
    pub op: BusOp,
    pub answer: BusAnswer,
    /// The transfers that it made; of telling the application, all those that have been
    /// made on the channel afterwards.
    pub transfers: UsbHistory,
    /// What it did to the registers that the channels have in common.
    pub registers: HwHistory,
}

impl Deed {
    /// The step with its answer.
    pub open spec fn exchange(self) -> Exchange<BusOp, BusAnswer> {
        Exchange { request: self.op, answer: self.answer }
    }

    /// The step was really made: what was done to the controller is a run of what the
    /// step stands for, and its answer is what that run returned.
    pub open spec fn made(self) -> bool {
        match self.op {
            BusOp::RootConnected => self.transfers.len() == 0 && (self.answer matches BusAnswer::Flag(
                connected,
            ) && host::connected_program().after(self.registers) == HwProgram::<bool>::Return(
                connected,
            )),
            BusOp::ResetRoot => self.transfers.len() == 0 && host::reset_port_program().after(
                self.registers,
            ) == HwProgram::<()>::Return(()),
            BusOp::RootEnabled => self.transfers.len() == 0 && (self.answer matches BusAnswer::Flag(
                enabled,
            ) && host::enabled_program().after(self.registers) == HwProgram::<bool>::Return(
                enabled,
            )),
            BusOp::RootSpeed => self.transfers.len() == 0 && (self.answer matches BusAnswer::Speed(
                speed,
            ) && host::port_speed_program().after(self.registers) == HwProgram::<u8>::Return(
                speed,
            )),
            BusOp::TakeChannel => self.transfers.len() == 0 && self.registers.len() == 0,
            BusOp::ReturnChannel => self.transfers.len() == 0 && self.registers.len() == 0,
            BusOp::LookAt(hub, port) => self.registers.len() == 0
                && (self.answer matches BusAnswer::Status(status) && hub::look_program(
                hub.endpoint,
                port,
            ).after(self.transfers) == UsbProgram::<Result<PortStatus, EnumerationError>>::Return(
                status,
            )),
            BusOp::Reset(hub, port) => self.registers.len() == 0
                && (self.answer matches BusAnswer::Status(status) && hub::reset_program(
                hub.endpoint,
                port,
            ).after(self.transfers) == UsbProgram::<Result<PortStatus, EnumerationError>>::Return(
                status,
            )),
            BusOp::Probe(endpoint, address) => self.registers.len() == 0
                && (self.answer matches BusAnswer::Probed(probed) && control::probe_program(
                endpoint,
                address,
            ).after(self.transfers) == UsbProgram::<
                Result<(ControlEndpoint, DeviceDescriptor), TransferError>,
            >::Return(probed)),
            BusOp::Configure(endpoint, high_speed) => self.registers.len() == 0
                && (self.answer matches BusAnswer::Configured(configured)
                && hub::configure_program(endpoint, high_speed).after(self.transfers)
                == UsbProgram::<Result<Hub, EnumerationError>>::Return(configured)),
            BusOp::Acknowledge(hub, port) => self.registers.len() == 0 && was_acknowledged(
                hub,
                port,
                self.transfers,
            ),
            BusOp::Tell(event) => self.registers.len() == 0 && self.answer is Flag,
        }
    }
}

/// Acknowledging a change of connection came to this.
pub open spec fn acknowledged(
    hub: ControlEndpoint,
    port: u8,
    transfers: UsbHistory,
    result: Result<(), TransferError>,
) -> bool {
    control::no_data_program(
        hub,
        control::port_setup(REQUEST_CLEAR_FEATURE, PORT_FEATURE_C_CONNECTION, port),
    ).after(transfers) == UsbProgram::<Result<(), TransferError>>::Return(result)
}

/// A change of connection was acknowledged; whether that succeeded does not matter.
pub open spec fn was_acknowledged(hub: ControlEndpoint, port: u8, transfers: UsbHistory) -> bool {
    exists|result: Result<(), TransferError>| #[trigger]
        acknowledged(hub, port, transfers, result)
}

/// The transfers that have been made on the channel that was taken last. What the
/// application makes of it is its own business.
pub open spec fn on_channel(deeds: Seq<Deed>) -> UsbHistory
    decreases deeds.len(),
{
    if deeds.len() == 0 {
        Seq::empty()
    } else {
        match deeds.last().op {
            BusOp::TakeChannel => Seq::empty(),
            BusOp::Tell(event) => deeds.last().transfers,
            _ => on_channel(deeds.drop_last()) + deeds.last().transfers,
        }
    }
}

/// What has been done to the registers that the channels have in common.
pub open spec fn on_registers(deeds: Seq<Deed>) -> HwHistory
    decreases deeds.len(),
{
    if deeds.len() == 0 {
        Seq::empty()
    } else {
        on_registers(deeds.drop_last()) + deeds.last().registers
    }
}

/// A history was added to another.
pub open spec fn grew<Q, A>(
    start: Seq<Exchange<Q, A>>,
    end: Seq<Exchange<Q, A>>,
    added: Seq<Exchange<Q, A>>,
) -> bool {
    &&& start.len() <= end.len()
    &&& end.take(start.len() as int) =~= start
    &&& end.skip(start.len() as int) =~= added
}

proof fn lemma_registers_grew(
    deeds: Seq<Deed>,
    before: HwHistory,
    now: HwHistory,
    origin: HwHistory,
)
    requires
        deeds.len() > 0,
        before == origin + on_registers(deeds.drop_last()),
        grew(before, now, deeds.last().registers),
    ensures
        now == origin + on_registers(deeds),
{
    assert(now =~= before + deeds.last().registers);
    assert(now =~= origin + on_registers(deeds));
}

proof fn lemma_channel_grew(deeds: Seq<Deed>, before: UsbHistory, now: UsbHistory)
    requires
        deeds.len() > 0,
        !(deeds.last().op is TakeChannel),
        !(deeds.last().op is Tell),
        before == on_channel(deeds.drop_last()),
        grew(before, now, deeds.last().transfers),
    ensures
        now == on_channel(deeds),
{
    assert(now =~= before + deeds.last().transfers);
}

/// The controller, with the history of the steps that were made on it.
pub struct Session<H> {
    host: Dwc2Host<H>,
    channel: Option<Channel<H>>,
    number: u8,
    deeds: Ghost<Seq<Deed>>,
    origin: Ghost<HwHistory>,
}

impl<H> View for Session<H> {
    type V = BusHistory;

    closed spec fn view(&self) -> BusHistory {
        self.deeds@.map_values(|deed: Deed| deed.exchange())
    }
}

impl<H> Session<H> {
    /// The steps, with what they did to the controller.
    pub closed spec fn deeds(&self) -> Seq<Deed> {
        self.deeds@
    }

    /// Every step was really made, and nothing else was done to the controller, or on
    /// the channel.
    pub closed spec fn faithful(&self) -> bool {
        &&& forall|i: int| 0 <= i < self.deeds@.len() ==> (#[trigger] self.deeds@[i]).made()
        &&& self.channel matches Some(channel) ==> channel@ == on_channel(self.deeds@)
        &&& self.host.registers() == self.origin@ + on_registers(self.deeds@)
    }

    /// What had been done to the registers that the channels have in common before the
    /// first step.
    pub closed spec fn origin(&self) -> HwHistory {
        self.origin@
    }

    /// What it means that a session is faithful.
    pub(crate) proof fn lemma_faithful(&self)
        requires
            self.faithful(),
        ensures
            self@ == self.deeds().map_values(|deed: Deed| deed.exchange()),
            forall|i: int| 0 <= i < self.deeds().len() ==> (#[trigger] self.deeds()[i]).made(),
            self.controller().registers() == self.origin() + on_registers(self.deeds()),
            self.ready() ==> self.transfers() == on_channel(self.deeds()),
    {
    }

    /// The controller.
    pub closed spec fn controller(&self) -> Dwc2Host<H> {
        self.host
    }

    /// Whether a channel is taken.
    pub closed spec fn ready(&self) -> bool {
        self.channel is Some
    }

    /// The transfers that have been made on the channel that is taken.
    pub closed spec fn transfers(&self) -> UsbHistory {
        match self.channel {
            Some(channel) => channel@,
            None => Seq::empty(),
        }
    }

    /// The number of the channel that was taken last.
    pub closed spec fn taken(&self) -> int {
        self.number as int
    }
}

impl<H: Dwc2Registers> Session<H> {
    /// Takes the controller over; no step has been made yet.
    pub fn new(host: Dwc2Host<H>) -> (session: Self)
        ensures
            session.controller() == host,
            !session.ready(),
            session@ == BusHistory::empty(),
            session.origin() == host.registers(),
            session.faithful(),
    {
        let session = Session {
            host,
            channel: None,
            number: 0,
            deeds: Ghost(Seq::empty()),
            origin: Ghost(host.registers()),
        };
        assert(session@ =~= BusHistory::empty());
        assert(session.origin@ + Seq::empty() =~= session.origin@);
        session
    }

    /// The controller.
    pub fn host(&self) -> (host: &Dwc2Host<H>)
        ensures
            *host == self.controller(),
    {
        &self.host
    }

    /// Gives the controller back.
    pub fn into_host(self) -> (host: Dwc2Host<H>)
        ensures
            host == self.controller(),
    {
        self.host
    }

    /// Hands a channel out, apart from the one that the steps use.
    pub fn alloc_channel(&mut self) -> (channel: Option<Channel<H>>)
        requires
            old(self).controller().wf(),
        ensures
            final(self).controller().wf(),
            old(self).faithful() ==> final(self).faithful(),
            final(self)@ == old(self)@,
            final(self).ready() == old(self).ready(),
            final(self).deeds() == old(self).deeds(),
            host::handed_out(old(self).controller(), final(self).controller(), channel),
    {
        self.host.alloc_channel()
    }

    /// Takes such a channel back.
    pub fn free_channel(&mut self, channel: Channel<H>)
        requires
            old(self).controller().wf(),
        ensures
            final(self).controller().wf(),
            old(self).faithful() ==> final(self).faithful(),
            final(self)@ == old(self)@,
            final(self).ready() == old(self).ready(),
            final(self).deeds() == old(self).deeds(),
            final(self).controller().channels() == old(self).controller().channels(),
            final(self).controller().registers() == old(self).controller().registers(),
            final(self).controller().in_use() == old(self).controller().in_use().remove(
                channel.number() as int,
            ),
    {
        self.host.free_channel(channel)
    }

    fn record(
        &mut self,
        op: Ghost<BusOp>,
        answer: Ghost<BusAnswer>,
        before: Ghost<UsbHistory>,
        registers: Ghost<HwHistory>,
    )
        ensures
            final(self)@ == old(self)@.push(Exchange { request: op@, answer: answer@ }),
            final(self).controller() == old(self).controller(),
            final(self).ready() == old(self).ready(),
            final(self).transfers() == old(self).transfers(),
            final(self).taken() == old(self).taken(),
            final(self).origin == old(self).origin,
            final(self).deeds().drop_last() == old(self).deeds(),
            final(self).deeds() == old(self).deeds().push(
                Deed {
                    op: op@,
                    answer: answer@,
                    transfers: old(self).transfers().skip(before@.len() as int),
                    registers: old(self).controller().registers().skip(registers@.len() as int),
                },
            ),
    {
        let ghost deed = Deed {
            op: op@,
            answer: answer@,
            transfers: self.transfers().skip(before@.len() as int),
            registers: self.controller().registers().skip(registers@.len() as int),
        };
        self.deeds = Ghost(self.deeds@.push(deed));
        assert(self@ =~= old(self)@.push(deed.exchange()));
        assert(self.deeds().drop_last() =~= old(self).deeds());
    }

    /// One more step leaves the session faithful, if it was made.
    proof fn lemma_kept(self, before: Session<H>)
        requires
            self.origin == before.origin,
            self.deeds().len() > 0,
            self.deeds().drop_last() == before.deeds(),
            self.deeds().last().made(),
            grew(
                before.host.registers(),
                self.host.registers(),
                self.deeds().last().registers,
            ),
            match self.deeds().last().op {
                BusOp::TakeChannel => self.transfers().len() == 0,
                BusOp::Tell(event) => self.transfers() =~= self.deeds().last().transfers,
                BusOp::ReturnChannel => !self.ready(),
                _ => self.ready() == before.ready() && grew(
                    before.transfers(),
                    self.transfers(),
                    self.deeds().last().transfers,
                ),
            },
        ensures
            before.faithful() ==> self.faithful(),
    {
        let all = self.deeds@;
        if before.faithful() {
            assert forall|i: int| 0 <= i < all.len() implies (#[trigger] all[i]).made() by {
                if i < all.len() - 1 {
                    assert(all[i] == before.deeds@[i]);
                }
            }
            lemma_registers_grew(all, before.host.registers(), self.host.registers(), self.origin@);
            if self.channel is Some {
                match all.last().op {
                    BusOp::TakeChannel | BusOp::Tell(_) => {
                        assert(self.transfers() =~= on_channel(all));
                    },
                    _ => lemma_channel_grew(all, before.transfers(), self.transfers()),
                }
            }
        }
    }

    /// Looks whether anything is connected to the root port.
    pub fn root_connected(&mut self) -> (connected: bool)
        requires
            old(self).controller().wf(),
        ensures
            final(self).controller().wf(),
            final(self).controller().in_use() == old(self).controller().in_use(),
            final(self).controller().channels() == old(self).controller().channels(),
            final(self).ready() == old(self).ready(),
            old(self).faithful() ==> final(self).faithful(),
            final(self)@ == old(self)@.push(
                Exchange { request: BusOp::RootConnected, answer: BusAnswer::Flag(connected) },
            ),
            host::connected_program().ran(
                old(self).controller().registers(),
                final(self).controller().registers(),
                connected,
            ),
    {
        let connected: bool = self.host.port_connected();
        self.record(
            Ghost(BusOp::RootConnected),
            Ghost(BusAnswer::Flag(connected)),
            Ghost(old(self).transfers()),
            Ghost(old(self).controller().registers()),
        );
        proof {
            self.lemma_kept(*old(self));
        }
        connected
    }

    /// Resets the root port.
    pub fn reset_root(&mut self)
        requires
            old(self).controller().wf(),
        ensures
            final(self).controller().wf(),
            final(self).controller().in_use() == old(self).controller().in_use(),
            final(self).controller().channels() == old(self).controller().channels(),
            final(self).ready() == old(self).ready(),
            old(self).faithful() ==> final(self).faithful(),
            final(self)@ == old(self)@.push(
                Exchange { request: BusOp::ResetRoot, answer: BusAnswer::Done },
            ),
            host::reset_port_program().ran(
                old(self).controller().registers(),
                final(self).controller().registers(),
                (),
            ),
    {
        self.host.reset_port();
        self.record(
            Ghost(BusOp::ResetRoot),
            Ghost(BusAnswer::Done),
            Ghost(old(self).transfers()),
            Ghost(old(self).controller().registers()),
        );
        proof {
            self.lemma_kept(*old(self));
        }
    }

    /// Looks whether the root port is enabled.
    pub fn root_enabled(&mut self) -> (enabled: bool)
        requires
            old(self).controller().wf(),
        ensures
            final(self).controller().wf(),
            final(self).controller().in_use() == old(self).controller().in_use(),
            final(self).controller().channels() == old(self).controller().channels(),
            final(self).ready() == old(self).ready(),
            old(self).faithful() ==> final(self).faithful(),
            final(self)@ == old(self)@.push(
                Exchange { request: BusOp::RootEnabled, answer: BusAnswer::Flag(enabled) },
            ),
            host::enabled_program().ran(
                old(self).controller().registers(),
                final(self).controller().registers(),
                enabled,
            ),
    {
        let enabled: bool = self.host.port_enabled();
        self.record(
            Ghost(BusOp::RootEnabled),
            Ghost(BusAnswer::Flag(enabled)),
            Ghost(old(self).transfers()),
            Ghost(old(self).controller().registers()),
        );
        proof {
            self.lemma_kept(*old(self));
        }
        enabled
    }

    /// Looks at the root port's speed.
    pub fn root_speed(&mut self) -> (speed: u8)
        requires
            old(self).controller().wf(),
        ensures
            final(self).controller().wf(),
            final(self).controller().in_use() == old(self).controller().in_use(),
            final(self).ready() == old(self).ready(),
            final(self).taken() == old(self).taken(),
            old(self).faithful() ==> final(self).faithful(),
            final(self)@ == old(self)@.push(
                Exchange { request: BusOp::RootSpeed, answer: BusAnswer::Speed(speed) },
            ),
            host::port_speed_program().ran(
                old(self).controller().registers(),
                final(self).controller().registers(),
                speed,
            ),
    {
        let speed: u8 = self.host.port_speed();
        self.record(
            Ghost(BusOp::RootSpeed),
            Ghost(BusAnswer::Speed(speed)),
            Ghost(old(self).transfers()),
            Ghost(old(self).controller().registers()),
        );
        proof {
            self.lemma_kept(*old(self));
        }
        speed
    }

    /// Takes a channel, if one is free.
    pub fn take_channel(&mut self) -> (taken: bool)
        requires
            old(self).controller().wf(),
        ensures
            final(self).controller().wf(),
            final(self).ready() == taken,
            taken == old(self).controller().has_free(),
            old(self).faithful() ==> final(self).faithful(),
            final(self)@ == old(self)@.push(
                Exchange { request: BusOp::TakeChannel, answer: BusAnswer::Flag(taken) },
            ),
            if taken {
                &&& !old(self).controller().in_use().contains(final(self).taken())
                &&& final(self).controller().in_use() == old(self).controller().in_use().insert(
                    final(self).taken(),
                )
                &&& final(self).transfers() == UsbHistory::empty()
            } else {
                &&& final(self).controller().in_use() == old(self).controller().in_use()
                &&& forall|index: int|
                    0 <= index < old(self).controller().channels() ==> old(
                        self,
                    ).controller().in_use().contains(index)
            },
    {
        self.channel = None;
        match self.host.alloc_channel() {
            Some(channel) => {
                self.number = channel.index() as u8;
                assert(channel@ =~= UsbHistory::empty());
                self.channel = Some(channel);
                self.record(
                    Ghost(BusOp::TakeChannel),
                    Ghost(BusAnswer::Flag(true)),
                    Ghost(Seq::empty()),
                    Ghost(old(self).controller().registers()),
                );
                proof {
                    self.lemma_kept(*old(self));
                }
                true
            },
            None => {
                self.record(
                    Ghost(BusOp::TakeChannel),
                    Ghost(BusAnswer::Flag(false)),
                    Ghost(Seq::empty()),
                    Ghost(old(self).controller().registers()),
                );
                proof {
                    self.lemma_kept(*old(self));
                }
                false
            },
        }
    }

    /// Gives the channel back.
    pub fn return_channel(&mut self)
        requires
            old(self).controller().wf(),
        ensures
            final(self).controller().wf(),
            !final(self).ready(),
            old(self).faithful() ==> final(self).faithful(),
            final(self)@ == old(self)@.push(
                Exchange { request: BusOp::ReturnChannel, answer: BusAnswer::Done },
            ),
            final(self).controller().in_use() == old(self).controller().in_use().remove(
                old(self).taken(),
            ),
            final(self).controller().registers() == old(self).controller().registers(),
    {
        self.channel = None;
        self.host.free_index(self.number);
        self.record(
            Ghost(BusOp::ReturnChannel),
            Ghost(BusAnswer::Done),
            Ghost(Seq::empty()),
            Ghost(old(self).controller().registers()),
        );
        proof {
            self.lemma_kept(*old(self));
        }
    }

    /// Looks at a port of a hub.
    pub fn look_at(&mut self, hub: &Hub, port: u8) -> (status: Result<PortStatus, EnumerationError>)
        requires
            old(self).ready(),
        ensures
            final(self).ready(),
            final(self).taken() == old(self).taken(),
            final(self).controller() == old(self).controller(),
            old(self).faithful() ==> final(self).faithful(),
            final(self)@ == old(self)@.push(
                Exchange {
                    request: BusOp::LookAt(*hub, port),
                    answer: BusAnswer::Status(status),
                },
            ),
            hub::look_program(hub.endpoint, port).ran(
                old(self).transfers(),
                final(self).transfers(),
                status,
            ),
    {
        let mut channel: Channel<H> = self.channel.take().unwrap();
        let status = hub.port_status(&mut channel, port);
        self.channel = Some(channel);
        self.record(
            Ghost(BusOp::LookAt(*hub, port)),
            Ghost(BusAnswer::Status(status)),
            Ghost(old(self).transfers()),
            Ghost(old(self).controller().registers()),
        );
        proof {
            self.lemma_kept(*old(self));
        }
        status
    }

    /// Resets a port of a hub.
    pub fn reset(&mut self, hub: &Hub, port: u8) -> (status: Result<PortStatus, EnumerationError>)
        requires
            old(self).ready(),
        ensures
            final(self).ready(),
            final(self).taken() == old(self).taken(),
            final(self).controller() == old(self).controller(),
            old(self).faithful() ==> final(self).faithful(),
            final(self)@ == old(self)@.push(
                Exchange { request: BusOp::Reset(*hub, port), answer: BusAnswer::Status(status) },
            ),
            hub::reset_program(hub.endpoint, port).ran(
                old(self).transfers(),
                final(self).transfers(),
                status,
            ),
    {
        let mut channel: Channel<H> = self.channel.take().unwrap();
        let status = hub.reset_port(&mut channel, port);
        self.channel = Some(channel);
        self.record(
            Ghost(BusOp::Reset(*hub, port)),
            Ghost(BusAnswer::Status(status)),
            Ghost(old(self).transfers()),
            Ghost(old(self).controller().registers()),
        );
        proof {
            self.lemma_kept(*old(self));
        }
        status
    }

    /// Finds out what a new device is, and gives it `address`.
    pub fn probe(&mut self, endpoint: ControlEndpoint, address: u8) -> (probed: Result<
        (ControlEndpoint, DeviceDescriptor),
        TransferError,
    >)
        requires
            old(self).ready(),
        ensures
            final(self).ready(),
            final(self).taken() == old(self).taken(),
            final(self).controller() == old(self).controller(),
            old(self).faithful() ==> final(self).faithful(),
            final(self)@ == old(self)@.push(
                Exchange {
                    request: BusOp::Probe(endpoint, address),
                    answer: BusAnswer::Probed(probed),
                },
            ),
            probed matches Ok(found) ==> found.0.address == address,
            control::probe_program(endpoint, address).ran(
                old(self).transfers(),
                final(self).transfers(),
                probed,
            ),
    {
        let mut channel: Channel<H> = self.channel.take().unwrap();
        let probed = probe_and_address(&mut channel, endpoint, address);
        self.channel = Some(channel);
        self.record(
            Ghost(BusOp::Probe(endpoint, address)),
            Ghost(BusAnswer::Probed(probed)),
            Ghost(old(self).transfers()),
            Ghost(old(self).controller().registers()),
        );
        proof {
            self.lemma_kept(*old(self));
        }
        probed
    }

    /// Configures a hub.
    pub fn configure(&mut self, endpoint: ControlEndpoint, high_speed: bool) -> (configured: Result<
        Hub,
        EnumerationError,
    >)
        requires
            old(self).ready(),
        ensures
            final(self).ready(),
            final(self).taken() == old(self).taken(),
            final(self).controller() == old(self).controller(),
            old(self).faithful() ==> final(self).faithful(),
            final(self)@ == old(self)@.push(
                Exchange {
                    request: BusOp::Configure(endpoint, high_speed),
                    answer: BusAnswer::Configured(configured),
                },
            ),
            configured matches Ok(hub) ==> hub.endpoint == endpoint,
            hub::configure_program(endpoint, high_speed).ran(
                old(self).transfers(),
                final(self).transfers(),
                configured,
            ),
    {
        let mut channel: Channel<H> = self.channel.take().unwrap();
        let configured = Hub::configure(&mut channel, endpoint, high_speed);
        self.channel = Some(channel);
        self.record(
            Ghost(BusOp::Configure(endpoint, high_speed)),
            Ghost(BusAnswer::Configured(configured)),
            Ghost(old(self).transfers()),
            Ghost(old(self).controller().registers()),
        );
        proof {
            self.lemma_kept(*old(self));
        }
        configured
    }

    /// Acknowledges a change of connection on a port of a hub; whether that
    /// succeeds does not matter.
    pub fn acknowledge(&mut self, hub: ControlEndpoint, port: u8)
        requires
            old(self).ready(),
        ensures
            final(self).ready(),
            final(self).taken() == old(self).taken(),
            final(self).controller() == old(self).controller(),
            old(self).faithful() ==> final(self).faithful(),
            final(self)@ == old(self)@.push(
                Exchange { request: BusOp::Acknowledge(hub, port), answer: BusAnswer::Done },
            ),
            exists|result: Result<(), TransferError>| #[trigger]
                control::no_data_program(
                    hub,
                    control::port_setup(REQUEST_CLEAR_FEATURE, PORT_FEATURE_C_CONNECTION, port),
                ).ran(old(self).transfers(), final(self).transfers(), result),
    {
        let mut channel: Channel<H> = self.channel.take().unwrap();
        let result = port_request(
            &mut channel,
            hub,
            REQUEST_CLEAR_FEATURE,
            PORT_FEATURE_C_CONNECTION,
            port,
        );
        self.channel = Some(channel);
        self.record(
            Ghost(BusOp::Acknowledge(hub, port)),
            Ghost(BusAnswer::Done),
            Ghost(old(self).transfers()),
            Ghost(old(self).controller().registers()),
        );
        assert(control::no_data_program(
            hub,
            control::port_setup(REQUEST_CLEAR_FEATURE, PORT_FEATURE_C_CONNECTION, port),
        ).ran(old(self).transfers(), self.transfers(), result));
        proof {
            let last = self.deeds().last();
            assert(acknowledged(hub, port, last.transfers, result));
            assert(was_acknowledged(hub, port, last.transfers));
            self.lemma_kept(*old(self));
        }
    }

    /// Tells the application about a change, and says whether it wants the walk
    /// to stop. What the application does with the channel meanwhile is its own
    /// business.
    pub fn tell<L: BusListener<H>>(&mut self, listener: &mut L, event: Event) -> (stop: bool)
        requires
            old(self).ready(),
        ensures
            final(self).ready(),
            final(self).taken() == old(self).taken(),
            final(self).controller() == old(self).controller(),
            old(self).faithful() ==> final(self).faithful(),
            final(self)@ == old(self)@.push(
                Exchange { request: BusOp::Tell(event), answer: BusAnswer::Flag(stop) },
            ),
            exists|told: &mut L, channel: &mut Channel<H>, flow: ControlFlow<()>|
                *told == *old(listener) && *final(told) == *final(listener) && channel@
                    == old(self).transfers() && final(channel)@ == final(self).transfers() && stop
                    == (flow is Break) && #[trigger] call_ensures(
                    L::on_event,
                    (told, channel, event),
                    flow,
                ),
    {
        let mut channel: Channel<H> = self.channel.take().unwrap();
        let flow: ControlFlow<()> = listener.on_event(&mut channel, event);
        self.channel = Some(channel);
        let stop: bool = match flow {
            ControlFlow::Break(()) => true,
            ControlFlow::Continue(()) => false,
        };
        self.record(
            Ghost(BusOp::Tell(event)),
            Ghost(BusAnswer::Flag(stop)),
            Ghost(Seq::empty()),
            Ghost(old(self).controller().registers()),
        );
        proof {
            self.lemma_kept(*old(self));
        }
        stop
    }
}

} // verus!
