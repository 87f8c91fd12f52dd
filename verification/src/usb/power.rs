//! Power for the USB controller, which the firmware switches.

use vstd::prelude::*;

use crate::program::{Exchange, Program};

verus! {

broadcast use crate::program::group_program;

/// What the firmware can switch.
#[derive(Clone, Copy, Debug, PartialEq, Eq, Structural)]
pub enum PowerDeviceId {
    /// The USB host controller.
    UsbHcd,
}

/// The firmware did not answer a request, or refused it.
#[derive(Clone, Copy, Debug, PartialEq, Eq, Structural)]
pub struct MailboxError;

/// A mailbox to the firmware.
pub trait Mailbox {
    /// Switches a device on or off; says whether it is on.
    fn set_power_state(&mut self, device: PowerDeviceId, on: bool) -> Result<bool, MailboxError>;
}

/// A request to switch a device.
pub struct Switch {
    pub device: PowerDeviceId,
    pub on: bool,
}

/// A program over such requests.
pub type PowerProgram<T> = Program<Switch, Result<bool, MailboxError>, T>;

/// Such requests with their answers, oldest first.
pub type PowerHistory = Seq<Exchange<Switch, Result<bool, MailboxError>>>;

/// A mailbox, with the history of what it was asked.
pub struct PowerSwitch<M> {
    mailbox: M,
    history: Ghost<PowerHistory>,
}

impl<M> View for PowerSwitch<M> {
    type V = PowerHistory;

    closed spec fn view(&self) -> PowerHistory {
        self.history@
    }
}

impl<M> PowerSwitch<M> {
    /// The mailbox.
    pub closed spec fn inner(&self) -> M {
        self.mailbox
    }
}

impl<M: Mailbox> PowerSwitch<M> {
    /// Takes a mailbox over; it has been asked nothing yet.
    pub fn new(mailbox: M) -> (switch: Self)
        ensures
            switch.inner() == mailbox,
            switch@ == PowerHistory::empty(),
    {
        PowerSwitch { mailbox, history: Ghost(Seq::empty()) }
    }

    /// Gives the mailbox back.
    pub fn release(self) -> (mailbox: M)
        ensures
            mailbox == self.inner(),
    {
        self.mailbox
    }

    fn set(&mut self, device: PowerDeviceId, on: bool) -> (answer: Result<bool, MailboxError>)
        ensures
            final(self)@ == old(self)@.push(
                Exchange { request: (Switch { device, on }), answer },
            ),
            exists|asked: &mut M|
                *asked == old(self).inner() && *final(asked) == final(self).inner()
                    && #[trigger] call_ensures(M::set_power_state, (asked, device, on), answer),
    {
        let answer = self.mailbox.set_power_state(device, on);
        self.history = Ghost(
            self.history@.push(Exchange { request: Switch { device, on }, answer }),
        );
        answer
    }
}

/// Switch the controller on. It is on only if the firmware says so.
pub open spec fn power_on_program() -> PowerProgram<bool> {
    Program::Request(
        Switch { device: PowerDeviceId::UsbHcd, on: true },
        |answer: Result<bool, MailboxError>| Program::Return(answer == Ok::<bool, MailboxError>(true)),
    )
}

/// The firmware is asked once, to switch the USB controller on. The controller is on if the
/// firmware answers that it is, and off if it answers that it is not or does not answer.
pub proof fn law_power_on(answer: Result<bool, MailboxError>)
    ensures
        power_on_program() matches Program::Request(request, rest) && request.device
            == PowerDeviceId::UsbHcd && request.on && (rest(answer) matches Program::Return(on)
            && on == (answer matches Ok(answered) && answered)),
{
}

/// Switches the USB controller on; says whether it is on.
pub fn power_on<M: Mailbox>(switch: &mut PowerSwitch<M>) -> (powered: bool)
    ensures
        power_on_program().ran(old(switch)@, final(switch)@, powered),
{
    match switch.set(PowerDeviceId::UsbHcd, true) {
        Ok(on) => on,
        Err(_) => false,
    }
}

} // verus!
