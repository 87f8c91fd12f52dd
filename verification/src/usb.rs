//! USB host.

use vstd::prelude::*;

use core::ops::ControlFlow;

use crate::usb::dwc2::hardware::Dwc2Registers;
use crate::usb::dwc2::{Channel, Dwc2Host, TransferError};
use crate::usb::session::{BusHistory, BusListener};

pub mod arrival;
pub mod bus;
pub mod chip;
pub mod control;
pub mod departures;
pub mod descriptor;
pub mod dwc2;
pub mod ethernet;
pub mod hid;
pub mod hub;
pub mod lan7800;
pub mod lan9514;
pub mod one_at_a_time;
pub mod port_account;
pub mod pipe;
pub mod power;
pub mod session;
pub mod topology;

pub use crate::usb::bus::Bus;
pub use crate::usb::power::power_on;
pub use crate::usb::session::{Device, Event};

verus! {

/// Why enumeration, or a step of it, failed.
#[derive(Clone, Copy, Debug, PartialEq, Eq, Structural)]
pub enum EnumerationError {
    /// Nothing is connected to the root port.
    NotConnected,
    /// The root port did not come out of its reset enabled.
    PortNotEnabled,
    /// A descriptor is too short, or not what it should be.
    MalformedDescriptor,
    /// No host channel is free.
    OutOfChannels,
    /// Every device address is taken.
    OutOfAddresses,
    /// There are more hubs than can be kept track of.
    TooManyHubs,
    /// A transfer failed.
    Transfer(TransferError),
}

impl From<TransferError> for EnumerationError {
    /// A failed transfer.
    fn from(error: TransferError) -> (wrapped: Self) {
        EnumerationError::Transfer(error)
    }
}

impl vstd::std_specs::convert::FromSpecImpl<TransferError> for EnumerationError {
    open spec fn obeys_from_spec() -> bool {
        true
    }

    open spec fn from_spec(error: TransferError) -> Self {
        EnumerationError::Transfer(error)
    }
}

/// Hears of every device that is found.
pub trait DeviceListener<H: Dwc2Registers> {
    /// Takes note of a device, to which `channel` can be used to talk; says whether to
    /// go on.
    fn on_device(&mut self, channel: &mut Channel<H>, device: Device) -> ControlFlow<()>;
}

struct Found<L> {
    listener: L,
}

impl<L> Found<L> {
    /// Who hears of the devices.
    pub closed spec fn inner(&self) -> L {
        self.listener
    }
}

impl<H: Dwc2Registers, L: DeviceListener<H>> BusListener<H> for Found<L> {
    fn on_event(&mut self, channel: &mut Channel<H>, event: Event) -> (flow: ControlFlow<()>)
        ensures
            event is Detached ==> {
                &&& flow == ControlFlow::<()>::Continue(())
                &&& *final(self) == *old(self)
                &&& *final(channel) == *old(channel)
            },
            event matches Event::Attached(device) ==> exists|told: &mut L, on: &mut Channel<H>|
                *told == old(self).inner() && *final(told) == final(self).inner() && *on == *old(
                    channel,
                ) && *final(on) == *final(channel) && #[trigger] call_ensures(
                    L::on_device,
                    (told, on, device),
                    flow,
                ),
    {
        match event {
            Event::Attached(device) => self.listener.on_device(channel, device),
            Event::Detached { .. } => ControlFlow::Continue(()),
        }
    }
}

/// Resets the root port and walks the whole bus once, telling `listener` of every
/// device. Gives the bus, which holds the controller.
pub fn enumerate<H: Dwc2Registers, L: DeviceListener<H>>(dwc2: Dwc2Host<H>, listener: L) -> (result:
    (Bus<H>, Result<(), EnumerationError>))
    requires
        dwc2.wf(),
    ensures
        result.0.wf(),
        result.0.controller().in_use() == dwc2.in_use(),
        bus::enumerate_program().ran(
            BusHistory::empty(),
            result.0.history(),
            (result.0@, result.1),
        ),
        bus::channel_taken(dwc2, result.0.history(), 3),
{
    let mut bus = Bus::new(dwc2);
    let mut found = Found { listener };
    let result = bus.enumerate(&mut found);
    (bus, result)
}

} // verus!
