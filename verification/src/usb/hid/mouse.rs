//! Boot mice.

use vstd::prelude::*;

use crate::program::Program;
use crate::usb::dwc2::hardware::Dwc2Registers;
use crate::usb::dwc2::{Channel, ControlEndpoint, Reply, Transfer, TransferError, UsbProgram};
use crate::usb::hid;
use crate::usb::hid::{bring_up_boot, pipe_for, HidInterface};
use crate::usb::session::Device;

verus! {

broadcast use crate::program::group_program;

/// The boot protocol of mice.
pub const PROTOCOL_MOUSE: u8 = 2;

/// Buttons whose changes are reported.
pub const BUTTON_COUNT: u8 = 3;

/// A button.
#[derive(Clone, Copy, Debug, PartialEq, Eq, Structural)]
pub enum Button {
    Left,
    Right,
    Middle,
}

/// The button of a given place.
pub open spec fn button_at(place: int) -> Button {
    if place == 0 {
        Button::Left
    } else if place == 1 {
        Button::Right
    } else {
        Button::Middle
    }
}

/// The bit of a button.
pub open spec fn button_mask(place: int) -> u8 {
    if place == 0 {
        0x01
    } else if place == 1 {
        0x02
    } else {
        0x04
    }
}

/// The buttons that are held, one bit each.
#[derive(Clone, Copy, Debug, PartialEq, Eq, Structural)]
pub struct Buttons(pub u8);

impl Buttons {
    /// The left button.
    pub fn left(&self) -> (held: bool)
        ensures
            held == (self.0 & 0x01 != 0),
    {
        self.0 & 0x01 != 0
    }

    /// The right button.
    pub fn right(&self) -> (held: bool)
        ensures
            held == (self.0 & 0x02 != 0),
    {
        self.0 & 0x02 != 0
    }

    /// The middle button.
    pub fn middle(&self) -> (held: bool)
        ensures
            held == (self.0 & 0x04 != 0),
    {
        self.0 & 0x04 != 0
    }
}

/// A boot report: the buttons, and how far the mouse and its wheel moved.
#[derive(Clone, Copy, Debug, PartialEq, Eq, Structural)]
pub struct MouseReport {
    pub buttons: Buttons,
    pub x: i8,
    pub y: i8,
    /// 0 if the mouse reports no wheel.
    pub wheel: i8,
}

/// A byte read as a signed number.
pub open spec fn signed(byte: u8) -> i8 {
    if byte < 128 {
        byte as i8
    } else {
        (byte - 256) as i8
    }
}

fn to_signed(byte: u8) -> (value: i8)
    ensures
        value == signed(byte),
{
    if byte < 128 {
        byte as i8
    } else {
        (byte as i16 - 256) as i8
    }
}

/// What the bytes of a boot report say; three have to be there.
pub open spec fn motion_in(report: Seq<u8>) -> Option<MouseReport> {
    if report.len() < 3 {
        None
    } else {
        Some(
            MouseReport {
                buttons: Buttons(report[0]),
                x: signed(report[1]),
                y: signed(report[2]),
                wheel: if report.len() >= 4 {
                    signed(report[3])
                } else {
                    0
                },
            },
        )
    }
}

impl MouseReport {
    /// Reads a boot report.
    pub fn parse(report: &[u8]) -> (parsed: Option<Self>)
        ensures
            parsed == motion_in(report@),
    {
        if report.len() < 3 {
            return None;
        }
        Some(
            Self {
                buttons: Buttons(report[0]),
                x: to_signed(report[1]),
                y: to_signed(report[2]),
                wheel: if report.len() >= 4 {
                    to_signed(report[3])
                } else {
                    0
                },
            },
        )
    }
}

/// A button that went down or up.
#[derive(Clone, Copy, Debug, PartialEq, Eq, Structural)]
pub enum ButtonEvent {
    Pressed(Button),
    Released(Button),
}

/// What changed among the buttons, from the given place on.
pub open spec fn button_changes(before: Buttons, after: Buttons, place: int) -> Seq<ButtonEvent>
    decreases BUTTON_COUNT - place,
{
    if place >= BUTTON_COUNT {
        Seq::empty()
    } else {
        let before_held = before.0 & button_mask(place) != 0;
        let after_held = after.0 & button_mask(place) != 0;
        if after_held && !before_held {
            seq![ButtonEvent::Pressed(button_at(place))] + button_changes(before, after, place + 1)
        } else if before_held && !after_held {
            seq![ButtonEvent::Released(button_at(place))] + button_changes(before, after, place + 1)
        } else {
            button_changes(before, after, place + 1)
        }
    }
}

/// Between two reports with the same buttons none went down or up.
pub proof fn law_no_change(buttons: Buttons, place: int)
    requires
        0 <= place,
    ensures
        button_changes(buttons, buttons, place) == Seq::<ButtonEvent>::empty(),
    decreases BUTTON_COUNT - place,
{
    if place < BUTTON_COUNT {
        law_no_change(buttons, place + 1);
    }
}

/// A button is reported pressed exactly if it is held and was not, and released
/// exactly if it was held and is not any more.
pub proof fn law_button_events(before: Buttons, after: Buttons, place: int)
    requires
        0 <= place < BUTTON_COUNT,
    ensures
        ({
            let events = button_changes(before, after, 0);
            let was = before.0 & button_mask(place) != 0;
            let now = after.0 & button_mask(place) != 0;
            &&& events.contains(ButtonEvent::Pressed(button_at(place))) <==> now && !was
            &&& events.contains(ButtonEvent::Released(button_at(place))) <==> was && !now
        }),
{
    lemma_changes(before, after, 0, place);
}

proof fn lemma_changes(before: Buttons, after: Buttons, from: int, place: int)
    requires
        0 <= from,
        0 <= place < BUTTON_COUNT,
    ensures
        ({
            let events = button_changes(before, after, from);
            let was = before.0 & button_mask(place) != 0;
            let now = after.0 & button_mask(place) != 0;
            &&& events.contains(ButtonEvent::Pressed(button_at(place))) <==> from <= place && now
                && !was
            &&& events.contains(ButtonEvent::Released(button_at(place))) <==> from <= place && was
                && !now
        }),
    decreases BUTTON_COUNT - from,
{
    let events = button_changes(before, after, from);
    if from < BUTTON_COUNT {
        lemma_changes(before, after, from + 1, place);
        let rest = button_changes(before, after, from + 1);
        if events.len() > rest.len() {
            assert(events =~= seq![events[0]] + rest);
            assert forall|event: ButtonEvent| #[trigger] events.contains(event) <==> event
                == events[0] || rest.contains(event) by {
                if rest.contains(event) {
                    let i = choose|i: int| 0 <= i < rest.len() && rest[i] == event;
                    assert(events[i + 1] == event);
                }
                if events.contains(event) {
                    let i = choose|i: int| 0 <= i < events.len() && events[i] == event;
                    if i > 0 {
                        assert(rest[i - 1] == event);
                    }
                }
            }
        }
    }
}

/// What came with a new report.
#[derive(Clone, Copy, Debug, PartialEq, Eq, Structural)]
pub struct MouseUpdate {
    previous_buttons: Buttons,
    report: MouseReport,
}

impl View for MouseUpdate {
    /// The buttons before, and the new report.
    type V = (Buttons, MouseReport);

    closed spec fn view(&self) -> (Buttons, MouseReport) {
        (self.previous_buttons, self.report)
    }
}

impl MouseUpdate {
    /// The new report.
    pub fn report(&self) -> (report: &MouseReport)
        ensures
            *report == self@.1,
    {
        &self.report
    }

    /// Goes through what changed among the buttons.
    pub fn button_events(&self) -> (iter: ButtonEventIter<'_>)
        ensures
            iter@ == button_changes(self@.0, self@.1.buttons, 0),
    {
        ButtonEventIter { update: self, index: 0 }
    }
}

/// Goes through what changed among the buttons.
pub struct ButtonEventIter<'a> {
    update: &'a MouseUpdate,
    index: u8,
}

impl<'a> View for ButtonEventIter<'a> {
    /// The events still to come.
    type V = Seq<ButtonEvent>;

    closed spec fn view(&self) -> Seq<ButtonEvent> {
        button_changes(
            self.update.previous_buttons,
            self.update.report.buttons,
            self.index as int,
        )
    }
}

impl<'a> ButtonEventIter<'a> {
    /// The next event.
    pub fn next(&mut self) -> (event: Option<ButtonEvent>)
        ensures
            match event {
                Some(event) => {
                    &&& old(self)@.len() > 0
                    &&& event == old(self)@[0]
                    &&& final(self)@ == old(self)@.skip(1)
                },
                None => old(self)@.len() == 0 && final(self)@.len() == 0,
            },
    {
        while self.index < BUTTON_COUNT
            invariant
                self.update == old(self).update,
                self@ == old(self)@,
            decreases BUTTON_COUNT - self.index,
        {
            let (button, mask): (Button, u8) = match self.index {
                0 => (Button::Left, 0x01),
                1 => (Button::Right, 0x02),
                _ => (Button::Middle, 0x04),
            };
            self.index = self.index + 1;
            let was_held: bool = self.update.previous_buttons.0 & mask != 0;
            let is_held: bool = self.update.report.buttons.0 & mask != 0;
            if is_held && !was_held {
                assert(old(self)@ =~= seq![ButtonEvent::Pressed(button)] + self@);
                assert(self@ =~= old(self)@.skip(1));
                return Some(ButtonEvent::Pressed(button));
            }
            if was_held && !is_held {
                assert(old(self)@ =~= seq![ButtonEvent::Released(button)] + self@);
                assert(self@ =~= old(self)@.skip(1));
                return Some(ButtonEvent::Released(button));
            }
        }
        None
    }
}

/// A boot mouse.
pub struct Mouse {
    endpoint: ControlEndpoint,
    interface: u8,
    report_endpoint: u8,
    toggle: bool,
    previous_buttons: Buttons,
}

/// A boot mouse as a value.
pub struct MouseState {
    /// How its reports are reached.
    pub endpoint: ControlEndpoint,
    pub interface: u8,
    pub report_endpoint: u8,
    pub toggle: bool,
    /// The buttons of the last report.
    pub previous_buttons: Buttons,
}

impl View for Mouse {
    type V = MouseState;

    closed spec fn view(&self) -> MouseState {
        MouseState {
            endpoint: self.endpoint,
            interface: self.interface,
            report_endpoint: self.report_endpoint,
            toggle: self.toggle,
            previous_buttons: self.previous_buttons,
        }
    }
}

/// A mouse that has just been brought up: no button is held.
pub open spec fn new_mouse(device: ControlEndpoint, found: HidInterface) -> MouseState {
    MouseState {
        endpoint: hid::report_pipe(device, found),
        interface: found.interface,
        report_endpoint: found.endpoint,
        toggle: false,
        previous_buttons: Buttons(0),
    }
}

/// Bring a device up as a boot mouse, if it is one.
pub open spec fn mouse_program(device: ControlEndpoint) -> UsbProgram<
    Result<Option<MouseState>, TransferError>,
> {
    hid::boot_program(device, PROTOCOL_MOUSE).bind(
        |found: Result<Option<HidInterface>, TransferError>|
            Program::Return(
                match found {
                    Ok(Some(found)) => Ok(Some(new_mouse(device, found))),
                    Ok(None) => Ok(None),
                    Err(error) => Err(error),
                },
            ),
    )
}

/// What came of asking a mouse: its state, and the buttons before with the new
/// report, if a new one came.
pub type Polled = (MouseState, Result<Option<(Buttons, MouseReport)>, TransferError>);

/// Ask a mouse for a report. A NAK means that nothing has changed; a report that
/// is too short is dropped.
pub open spec fn poll_program(state: MouseState) -> UsbProgram<Polled> {
    Program::Request(
        Transfer::InterruptIn(state.endpoint, state.report_endpoint, state.toggle, 8),
        |reply: Reply|
            match reply {
                Reply::Bytes(Ok(bytes)) => {
                    let moved = MouseState { toggle: !state.toggle, ..state };
                    match motion_in(bytes) {
                        Some(report) => Program::Return(
                            (
                                MouseState { previous_buttons: report.buttons, ..moved },
                                Ok(Some((state.previous_buttons, report))),
                            ),
                        ),
                        None => Program::Return((moved, Ok(None))),
                    }
                },
                Reply::Bytes(Err(error)) => if error == TransferError::Nak {
                    Program::Return((state, Ok(None)))
                } else {
                    Program::Return((state, Err(error)))
                },
                _ => Program::Stuck,
            },
    )
}

impl Mouse {
    /// Brings `device` up as a boot mouse, or says that it is none.
    pub fn from_device<H: Dwc2Registers>(channel: &mut Channel<H>, device: Device) -> (result:
        Result<Option<Mouse>, TransferError>)
        ensures
            mouse_program(device.endpoint).ran(
                old(channel)@,
                final(channel)@,
                match result {
                    Ok(Some(mouse)) => Ok(Some(mouse@)),
                    Ok(None) => Ok(None),
                    Err(error) => Err(error),
                },
            ),
    {
        match bring_up_boot(channel, device.endpoint, PROTOCOL_MOUSE) {
            Ok(Some(found)) => Ok(
                Some(
                    Mouse {
                        endpoint: pipe_for(device.endpoint, &found),
                        interface: found.interface,
                        report_endpoint: found.endpoint,
                        toggle: false,
                        previous_buttons: Buttons(0),
                    },
                ),
            ),
            Ok(None) => Ok(None),
            Err(error) => Err(error),
        }
    }

    /// The number of the mouse's interface.
    pub fn interface(&self) -> (interface: u8)
        ensures
            interface == self@.interface,
    {
        self.interface
    }

    /// The number of its endpoint for reports.
    pub fn report_endpoint(&self) -> (endpoint: u8)
        ensures
            endpoint == self@.report_endpoint,
    {
        self.report_endpoint
    }

    /// The largest packet of that endpoint.
    pub fn max_packet_size(&self) -> (size: u16)
        ensures
            size == self@.endpoint.max_packet_size,
    {
        self.endpoint.max_packet_size
    }

    /// Asks the mouse once; gives what came with a new report, if one came.
    pub fn poll<H: Dwc2Registers>(&mut self, channel: &mut Channel<H>) -> (result: Result<
        Option<MouseUpdate>,
        TransferError,
    >)
        ensures
            poll_program(old(self)@).ran(
                old(channel)@,
                final(channel)@,
                (
                    final(self)@,
                    match result {
                        Ok(Some(update)) => Ok(Some(update@)),
                        Ok(None) => Ok(None),
                        Err(error) => Err(error),
                    },
                ),
            ),
    {
        let mut buffer: [u8; 8] = [0;8];
        let received: usize = match channel.interrupt_in(
            self.endpoint,
            self.report_endpoint,
            &mut self.toggle,
            &mut buffer,
        ) {
            Ok(received) => received,
            Err(TransferError::Nak) => return Ok(None),
            Err(error) => return Err(error),
        };
        let bytes = vstd::slice::slice_subrange(buffer.as_slice(), 0, received);
        assert(bytes@ =~= buffer@.take(received as int));
        let report: MouseReport = match MouseReport::parse(bytes) {
            Some(report) => report,
            None => return Ok(None),
        };
        let previous_buttons: Buttons = self.previous_buttons;
        self.previous_buttons = report.buttons;
        Ok(Some(MouseUpdate { previous_buttons, report }))
    }
}

} // verus!
