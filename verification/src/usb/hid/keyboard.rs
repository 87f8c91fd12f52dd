//! Boot keyboards.

use vstd::prelude::*;

use crate::program::Program;
use crate::usb::dwc2::hardware::Dwc2Registers;
use crate::usb::dwc2::{Channel, ControlEndpoint, Reply, Transfer, TransferError, UsbProgram};
use crate::usb::hid;
use crate::usb::hid::{bring_up_boot, pipe_for, HidInterface};
use crate::usb::session::Device;

verus! {

broadcast use crate::program::group_program;

/// The boot protocol of keyboards.
pub const PROTOCOL_KEYBOARD: u8 = 1;

/// The lowest usage that is a key. 0 is an empty slot, and 1 to 3 say that
/// something is wrong, such as that too many keys are held.
pub const FIRST_KEY_USAGE: u8 = 4;

/// Keys in a report.
pub const KEY_SLOTS: usize = 6;

/// The modifier keys that are held, one bit each.
#[derive(Clone, Copy, Debug, PartialEq, Eq, Structural)]
pub struct Modifiers(pub u8);

impl Modifiers {
    /// Left Control.
    pub fn left_ctrl(&self) -> (held: bool)
        ensures
            held == (self.0 & 0x01 != 0),
    {
        self.0 & 0x01 != 0
    }

    /// Left Shift.
    pub fn left_shift(&self) -> (held: bool)
        ensures
            held == (self.0 & 0x02 != 0),
    {
        self.0 & 0x02 != 0
    }

    /// Left Alt.
    pub fn left_alt(&self) -> (held: bool)
        ensures
            held == (self.0 & 0x04 != 0),
    {
        self.0 & 0x04 != 0
    }

    /// Left GUI.
    pub fn left_gui(&self) -> (held: bool)
        ensures
            held == (self.0 & 0x08 != 0),
    {
        self.0 & 0x08 != 0
    }

    /// Right Control.
    pub fn right_ctrl(&self) -> (held: bool)
        ensures
            held == (self.0 & 0x10 != 0),
    {
        self.0 & 0x10 != 0
    }

    /// Right Shift.
    pub fn right_shift(&self) -> (held: bool)
        ensures
            held == (self.0 & 0x20 != 0),
    {
        self.0 & 0x20 != 0
    }

    /// Right Alt.
    pub fn right_alt(&self) -> (held: bool)
        ensures
            held == (self.0 & 0x40 != 0),
    {
        self.0 & 0x40 != 0
    }

    /// Right GUI.
    pub fn right_gui(&self) -> (held: bool)
        ensures
            held == (self.0 & 0x80 != 0),
    {
        self.0 & 0x80 != 0
    }

    /// Either Shift.
    pub fn shift(&self) -> (held: bool)
        ensures
            held == (self.0 & 0x02 != 0 || self.0 & 0x20 != 0),
    {
        self.left_shift() || self.right_shift()
    }

    /// Either Control.
    pub fn ctrl(&self) -> (held: bool)
        ensures
            held == (self.0 & 0x01 != 0 || self.0 & 0x10 != 0),
    {
        self.left_ctrl() || self.right_ctrl()
    }

    /// Either Alt.
    pub fn alt(&self) -> (held: bool)
        ensures
            held == (self.0 & 0x04 != 0 || self.0 & 0x40 != 0),
    {
        self.left_alt() || self.right_alt()
    }

    /// Either GUI.
    pub fn gui(&self) -> (held: bool)
        ensures
            held == (self.0 & 0x08 != 0 || self.0 & 0x80 != 0),
    {
        self.left_gui() || self.right_gui()
    }
}

/// A boot report: the modifiers, and up to six keys that are held.
#[derive(Clone, Copy, Debug, PartialEq, Eq)]
pub struct KeyboardReport {
    pub modifiers: Modifiers,
    /// The usages of the keys; 0 is an empty slot.
    pub keys: [u8; 6],
}

/// A boot report as a value.
#[verifier::ext_equal]
pub struct Held {
    pub modifiers: Modifiers,
    pub keys: Seq<u8>,
}

impl View for KeyboardReport {
    type V = Held;

    open spec fn view(&self) -> Held {
        Held { modifiers: self.modifiers, keys: self.keys@ }
    }
}

/// What the bytes of a boot report say: the modifiers, a byte that is reserved,
/// and six keys.
pub open spec fn held_in(report: Seq<u8>) -> Option<Held> {
    if report.len() < 8 {
        None
    } else {
        Some(Held { modifiers: Modifiers(report[0]), keys: report.subrange(2, 8) })
    }
}

/// The eight bytes of a boot report.
pub open spec fn report_of(held: Held) -> Seq<u8> {
    seq![held.modifiers.0, 0u8] + held.keys
}

/// Reading a report gives back what was written into it.
pub proof fn law_report_round_trip(held: Held)
    requires
        held.keys.len() == KEY_SLOTS,
    ensures
        held_in(report_of(held)) == Some(held),
{
    assert(report_of(held).subrange(2, 8) =~= held.keys);
}

/// Writing what was read gives back the first eight bytes, but for the reserved
/// one.
pub proof fn law_report_rewritten(report: Seq<u8>)
    requires
        report.len() >= 8,
    ensures
        report_of(held_in(report)->0) == report.take(8).update(1, 0),
{
    assert(report_of(held_in(report)->0) =~= report.take(8).update(1, 0));
}

impl KeyboardReport {
    /// No key is held.
    pub open spec fn nothing() -> Held {
        Held { modifiers: Modifiers(0), keys: Seq::new(6, |i: int| 0u8) }
    }

    fn empty() -> (report: Self)
        ensures
            report@ == Self::nothing(),
    {
        let report = Self { modifiers: Modifiers(0), keys: [0;6] };
        assert(report@ =~= Self::nothing());
        report
    }

    /// Reads a boot report, of which eight bytes have to be there.
    pub fn parse(report: &[u8]) -> (parsed: Option<Self>)
        ensures
            match parsed {
                Some(parsed) => held_in(report@) == Some(parsed@),
                None => held_in(report@) is None,
            },
    {
        if report.len() < 8 {
            return None;
        }
        let keys: [u8; 6] = [report[2], report[3], report[4], report[5], report[6], report[7]];
        assert(keys@ =~= report@.subrange(2, 8));
        Some(Self { modifiers: Modifiers(report[0]), keys })
    }

    /// The keys that are held, without empty slots and error codes.
    pub fn pressed_keys(&self) -> (pressed: Vec<u8>)
        ensures
            pressed@ == self.keys@.filter(|key: u8| key >= FIRST_KEY_USAGE),
    {
        let ghost counts = |key: u8| key >= FIRST_KEY_USAGE;
        let mut pressed: Vec<u8> = Vec::new();
        let mut at: usize = 0;
        proof {
            reveal(Seq::filter);
            assert(self.keys@.take(0).filter(counts) =~= Seq::<u8>::empty());
        }
        while at < KEY_SLOTS
            invariant
                at <= KEY_SLOTS,
                counts == |key: u8| key >= FIRST_KEY_USAGE,
                pressed@ == self.keys@.take(at as int).filter(counts),
            decreases KEY_SLOTS - at,
        {
            let key: u8 = self.keys[at];
            proof {
                reveal(Seq::filter);
                assert(self.keys@.take(at + 1).drop_last() =~= self.keys@.take(at as int));
            }
            if key >= FIRST_KEY_USAGE {
                pressed.push(key);
            }
            at = at + 1;
        }
        assert(self.keys@.take(6) =~= self.keys@);
        pressed
    }

    /// The eight bytes of this report.
    pub fn boot_report(&self) -> (report: [u8; 8])
        ensures
            report@ == report_of(self@),
    {
        let report: [u8; 8] = [
            self.modifiers.0,
            0,
            self.keys[0],
            self.keys[1],
            self.keys[2],
            self.keys[3],
            self.keys[4],
            self.keys[5],
        ];
        assert(report@ =~= report_of(self@));
        report
    }

    fn holds(&self, usage: u8) -> (held: bool)
        ensures
            held == self.keys@.contains(usage),
    {
        let mut at: usize = 0;
        while at < KEY_SLOTS
            invariant
                at <= KEY_SLOTS,
                forall|i: int| 0 <= i < at ==> self.keys@[i] != usage,
            decreases KEY_SLOTS - at,
        {
            if self.keys[at] == usage {
                assert(self.keys@[at as int] == usage);
                return true;
            }
            at = at + 1;
        }
        false
    }
}

/// A key that went down or up.
#[derive(Clone, Copy, Debug, PartialEq, Eq, Structural)]
pub enum KeyEvent {
    Pressed(u8),
    Released(u8),
}

/// The keys of `before` from slot `at` on that are not in `after`, released.
pub open spec fn releases(before: Seq<u8>, after: Seq<u8>, at: int) -> Seq<KeyEvent>
    decreases before.len() - at,
{
    if at < 0 || at >= before.len() {
        Seq::empty()
    } else if before[at] >= FIRST_KEY_USAGE && !after.contains(before[at]) {
        seq![KeyEvent::Released(before[at])] + releases(before, after, at + 1)
    } else {
        releases(before, after, at + 1)
    }
}

/// The keys of `after` from slot `at` on that are not in `before`, pressed.
pub open spec fn presses(before: Seq<u8>, after: Seq<u8>, at: int) -> Seq<KeyEvent>
    decreases after.len() - at,
{
    if at < 0 || at >= after.len() {
        Seq::empty()
    } else if after[at] >= FIRST_KEY_USAGE && !before.contains(after[at]) {
        seq![KeyEvent::Pressed(after[at])] + presses(before, after, at + 1)
    } else {
        presses(before, after, at + 1)
    }
}

/// What changed between two reports: releases first, then presses.
pub open spec fn key_events(before: Seq<u8>, after: Seq<u8>) -> Seq<KeyEvent> {
    releases(before, after, 0) + presses(before, after, 0)
}

proof fn lemma_releases(before: Seq<u8>, after: Seq<u8>, at: int, key: u8)
    requires
        0 <= at,
    ensures
        releases(before, after, at).contains(KeyEvent::Released(key)) <==> {
            &&& key >= FIRST_KEY_USAGE
            &&& !after.contains(key)
            &&& exists|i: int| at <= i < before.len() && before[i] == key
        },
        forall|i: int|
            0 <= i < releases(before, after, at).len() ==> (#[trigger] releases(
                before,
                after,
                at,
            )[i]) is Released,
    decreases before.len() - at,
{
    if at < before.len() {
        lemma_releases(before, after, at + 1, key);
        let rest = releases(before, after, at + 1);
        if before[at] >= FIRST_KEY_USAGE && !after.contains(before[at]) {
            let all = seq![KeyEvent::Released(before[at])] + rest;
            assert(all[0] == KeyEvent::Released(before[at]));
            assert(all.skip(1) =~= rest);
            if rest.contains(KeyEvent::Released(key)) {
                let i = choose|i: int| 0 <= i < rest.len() && rest[i] == KeyEvent::Released(key);
                assert(all[i + 1] == KeyEvent::Released(key));
            }
            if all.contains(KeyEvent::Released(key)) {
                let i = choose|i: int| 0 <= i < all.len() && all[i] == KeyEvent::Released(key);
                if i > 0 {
                    assert(rest[i - 1] == KeyEvent::Released(key));
                }
            }
        }
    }
}

proof fn lemma_presses(before: Seq<u8>, after: Seq<u8>, at: int, key: u8)
    requires
        0 <= at,
    ensures
        presses(before, after, at).contains(KeyEvent::Pressed(key)) <==> {
            &&& key >= FIRST_KEY_USAGE
            &&& !before.contains(key)
            &&& exists|i: int| at <= i < after.len() && after[i] == key
        },
        forall|i: int|
            0 <= i < presses(before, after, at).len() ==> (#[trigger] presses(
                before,
                after,
                at,
            )[i]) is Pressed,
    decreases after.len() - at,
{
    if at < after.len() {
        lemma_presses(before, after, at + 1, key);
        let rest = presses(before, after, at + 1);
        if after[at] >= FIRST_KEY_USAGE && !before.contains(after[at]) {
            let all = seq![KeyEvent::Pressed(after[at])] + rest;
            assert(all[0] == KeyEvent::Pressed(after[at]));
            assert(all.skip(1) =~= rest);
            if rest.contains(KeyEvent::Pressed(key)) {
                let i = choose|i: int| 0 <= i < rest.len() && rest[i] == KeyEvent::Pressed(key);
                assert(all[i + 1] == KeyEvent::Pressed(key));
            }
            if all.contains(KeyEvent::Pressed(key)) {
                let i = choose|i: int| 0 <= i < all.len() && all[i] == KeyEvent::Pressed(key);
                if i > 0 {
                    assert(rest[i - 1] == KeyEvent::Pressed(key));
                }
            }
        }
    }
}

/// A key is reported released exactly if it was held and is not any more, and pressed
/// exactly if it is held and was not.
pub proof fn law_key_events(before: Seq<u8>, after: Seq<u8>, key: u8)
    ensures
        key_events(before, after).contains(KeyEvent::Released(key)) <==> key >= FIRST_KEY_USAGE
            && before.contains(key) && !after.contains(key),
        key_events(before, after).contains(KeyEvent::Pressed(key)) <==> key >= FIRST_KEY_USAGE
            && after.contains(key) && !before.contains(key),
{
    lemma_releases(before, after, 0, key);
    lemma_presses(before, after, 0, key);
    let up = releases(before, after, 0);
    let down = presses(before, after, 0);
    let all = key_events(before, after);
    assert forall|event: KeyEvent| #[trigger] all.contains(event) <==> up.contains(event)
        || down.contains(event) by {
        if up.contains(event) {
            let i = choose|i: int| 0 <= i < up.len() && up[i] == event;
            assert(all[i] == event);
        }
        if down.contains(event) {
            let i = choose|i: int| 0 <= i < down.len() && down[i] == event;
            assert(all[up.len() + i] == event);
        }
        if all.contains(event) {
            let i = choose|i: int| 0 <= i < all.len() && all[i] == event;
            if i < up.len() {
                assert(up[i] == event);
            } else {
                assert(down[i - up.len()] == event);
            }
        }
    }
}

/// Between two equal reports nothing has changed.
pub proof fn law_no_change(keys: Seq<u8>)
    ensures
        key_events(keys, keys) == Seq::<KeyEvent>::empty(),
{
    lemma_quiet(keys, 0);
}

proof fn lemma_quiet(keys: Seq<u8>, at: int)
    requires
        0 <= at,
    ensures
        releases(keys, keys, at) == Seq::<KeyEvent>::empty(),
        presses(keys, keys, at) == Seq::<KeyEvent>::empty(),
    decreases keys.len() - at,
{
    if at < keys.len() {
        assert(keys.contains(keys[at]));
        lemma_quiet(keys, at + 1);
    }
}

/// What came with a new report.
#[derive(Clone, Copy, Debug, PartialEq, Eq)]
pub struct KeyEvents {
    previous: KeyboardReport,
    current: KeyboardReport,
}

impl View for KeyEvents {
    /// The report before, and the new one.
    type V = (Held, Held);

    closed spec fn view(&self) -> (Held, Held) {
        (self.previous@, self.current@)
    }
}

impl KeyEvents {
    /// The new report.
    pub fn report(&self) -> (report: &KeyboardReport)
        ensures
            report@ == self@.1,
    {
        &self.current
    }

    /// Goes through what changed.
    pub fn iter(&self) -> (iter: KeyEventIter<'_>)
        ensures
            iter.wf(),
            iter@ == key_events(self@.0.keys, self@.1.keys),
    {
        KeyEventIter { events: self, releases_done: false, index: 0 }
    }
}

/// Goes through what changed between two reports.
pub struct KeyEventIter<'a> {
    events: &'a KeyEvents,
    releases_done: bool,
    index: usize,
}

impl<'a> View for KeyEventIter<'a> {
    /// The events still to come.
    type V = Seq<KeyEvent>;

    closed spec fn view(&self) -> Seq<KeyEvent> {
        let before = self.events.previous.keys@;
        let after = self.events.current.keys@;
        if self.releases_done {
            presses(before, after, self.index as int)
        } else {
            releases(before, after, self.index as int) + presses(before, after, 0)
        }
    }
}

impl<'a> KeyEventIter<'a> {
    /// The place in the reports is one that they have.
    pub closed spec fn wf(&self) -> bool {
        self.index <= KEY_SLOTS
    }

    /// The next event.
    pub fn next(&mut self) -> (event: Option<KeyEvent>)
        requires
            old(self).wf(),
        ensures
            final(self).wf(),
            match event {
                Some(event) => {
                    &&& old(self)@.len() > 0
                    &&& event == old(self)@[0]
                    &&& final(self)@ == old(self)@.skip(1)
                },
                None => old(self)@.len() == 0 && final(self)@.len() == 0,
            },
    {
        if !self.releases_done {
            while self.index < KEY_SLOTS
                invariant
                    self.wf(),
                    !self.releases_done,
                    self.events == old(self).events,
                    self@ == old(self)@,
                decreases KEY_SLOTS - self.index,
            {
                let usage: u8 = self.events.previous.keys[self.index];
                self.index = self.index + 1;
                if usage >= FIRST_KEY_USAGE && !self.events.current.holds(usage) {
                    assert(old(self)@ =~= seq![KeyEvent::Released(usage)] + self@);
                    assert(self@ =~= old(self)@.skip(1));
                    return Some(KeyEvent::Released(usage));
                }
            }
            assert(self@ =~= presses(
                self.events.previous.keys@,
                self.events.current.keys@,
                0,
            ));
            self.releases_done = true;
            self.index = 0;
        }
        while self.index < KEY_SLOTS
            invariant
                self.wf(),
                self.releases_done,
                self.events == old(self).events,
                self@ == old(self)@,
            decreases KEY_SLOTS - self.index,
        {
            let usage: u8 = self.events.current.keys[self.index];
            self.index = self.index + 1;
            if usage >= FIRST_KEY_USAGE && !self.events.previous.holds(usage) {
                assert(old(self)@ =~= seq![KeyEvent::Pressed(usage)] + self@);
                assert(self@ =~= old(self)@.skip(1));
                return Some(KeyEvent::Pressed(usage));
            }
        }
        None
    }
}

/// A boot keyboard.
pub struct Keyboard {
    endpoint: ControlEndpoint,
    interface: u8,
    report_endpoint: u8,
    toggle: bool,
    previous: KeyboardReport,
}

/// A boot keyboard as a value.
#[verifier::ext_equal]
pub struct KeyboardState {
    /// How its reports are reached.
    pub endpoint: ControlEndpoint,
    pub interface: u8,
    pub report_endpoint: u8,
    pub toggle: bool,
    /// The last report.
    pub previous: Held,
}

impl View for Keyboard {
    type V = KeyboardState;

    closed spec fn view(&self) -> KeyboardState {
        KeyboardState {
            endpoint: self.endpoint,
            interface: self.interface,
            report_endpoint: self.report_endpoint,
            toggle: self.toggle,
            previous: self.previous@,
        }
    }
}

/// A keyboard that has just been brought up: no key is held.
pub open spec fn new_keyboard(device: ControlEndpoint, found: HidInterface) -> KeyboardState {
    KeyboardState {
        endpoint: hid::report_pipe(device, found),
        interface: found.interface,
        report_endpoint: found.endpoint,
        toggle: false,
        previous: KeyboardReport::nothing(),
    }
}

/// Bring a device up as a boot keyboard, if it is one.
pub open spec fn keyboard_program(device: ControlEndpoint) -> UsbProgram<
    Result<Option<KeyboardState>, TransferError>,
> {
    hid::boot_program(device, PROTOCOL_KEYBOARD).bind(
        |found: Result<Option<HidInterface>, TransferError>|
            Program::Return(
                match found {
                    Ok(Some(found)) => Ok(Some(new_keyboard(device, found))),
                    Ok(None) => Ok(None),
                    Err(error) => Err(error),
                },
            ),
    )
}

/// What came of asking a keyboard: its state, and the report before with the new
/// one, if a new one came.
pub type Polled = (KeyboardState, Result<Option<(Held, Held)>, TransferError>);

/// Ask a keyboard for a report. A NAK means that nothing has changed; a report
/// that is too short is dropped.
pub open spec fn poll_program(state: KeyboardState) -> UsbProgram<Polled> {
    Program::Request(
        Transfer::InterruptIn(state.endpoint, state.report_endpoint, state.toggle, 8),
        |reply: Reply|
            match reply {
                Reply::Bytes(Ok(bytes)) => {
                    let moved = KeyboardState { toggle: !state.toggle, ..state };
                    match held_in(bytes) {
                        Some(held) => Program::Return(
                            (
                                KeyboardState { previous: held, ..moved },
                                Ok(Some((state.previous, held))),
                            ),
                        ),
                        None => Program::Return((moved, Ok(None))),
                    }
                },
                Reply::Bytes(Err(error)) => if error == TransferError::Nak {
                    Program::Return((state, Ok(None)))
                } else {
                    Program::Return((state, Err(error)))
                },
                _ => Program::Stuck,
            },
    )
}

impl Keyboard {
    /// Brings `device` up as a boot keyboard, or says that it is none.
    pub fn from_device<H: Dwc2Registers>(channel: &mut Channel<H>, device: Device) -> (result:
        Result<Option<Keyboard>, TransferError>)
        ensures
            keyboard_program(device.endpoint).ran(
                old(channel)@,
                final(channel)@,
                match result {
                    Ok(Some(keyboard)) => Ok(Some(keyboard@)),
                    Ok(None) => Ok(None),
                    Err(error) => Err(error),
                },
            ),
    {
        match bring_up_boot(channel, device.endpoint, PROTOCOL_KEYBOARD) {
            Ok(Some(found)) => {
                let keyboard = Keyboard {
                    endpoint: pipe_for(device.endpoint, &found),
                    interface: found.interface,
                    report_endpoint: found.endpoint,
                    toggle: false,
                    previous: KeyboardReport::empty(),
                };
                Ok(Some(keyboard))
            },
            Ok(None) => Ok(None),
            Err(error) => Err(error),
        }
    }

    /// The number of the keyboard's interface.
    pub fn interface(&self) -> (interface: u8)
        ensures
            interface == self@.interface,
    {
        self.interface
    }

    /// The number of its endpoint for reports.
    pub fn report_endpoint(&self) -> (endpoint: u8)
        ensures
            endpoint == self@.report_endpoint,
    {
        self.report_endpoint
    }

    /// The largest packet of that endpoint.
    pub fn max_packet_size(&self) -> (size: u16)
        ensures
            size == self@.endpoint.max_packet_size,
    {
        self.endpoint.max_packet_size
    }

    /// Asks the keyboard once; gives what came with a new report, if one came.
    pub fn poll<H: Dwc2Registers>(&mut self, channel: &mut Channel<H>) -> (result: Result<
        Option<KeyEvents>,
        TransferError,
    >)
        ensures
            poll_program(old(self)@).ran(
                old(channel)@,
                final(channel)@,
                (
                    final(self)@,
                    match result {
                        Ok(Some(events)) => Ok(Some(events@)),
                        Ok(None) => Ok(None),
                        Err(error) => Err(error),
                    },
                ),
            ),
    {
        let mut buffer: [u8; 8] = [0;8];
        let received: usize = match channel.interrupt_in(
            self.endpoint,
            self.report_endpoint,
            &mut self.toggle,
            &mut buffer,
        ) {
            Ok(received) => received,
            Err(TransferError::Nak) => return Ok(None),
            Err(error) => return Err(error),
        };
        let report = vstd::slice::slice_subrange(buffer.as_slice(), 0, received);
        assert(report@ =~= buffer@.take(received as int));
        let current: KeyboardReport = match KeyboardReport::parse(report) {
            Some(current) => current,
            None => return Ok(None),
        };
        let previous: KeyboardReport = self.previous;
        self.previous = current;
        Ok(Some(KeyEvents { previous, current }))
    }
}

/// What the keys from usage 4 on type, on a US keyboard; `'\0'` stands for
/// nothing.
pub open spec fn plain_row() -> Seq<char> {
    seq![
        'a', 'b', 'c', 'd', 'e', 'f', 'g', 'h', 'i', 'j', 'k', 'l', 'm', 'n', 'o', 'p', 'q', 'r',
        's', 't', 'u', 'v', 'w', 'x', 'y', 'z', '1', '2', '3', '4', '5', '6', '7', '8', '9', '0',
        '\n', '\0', '\u{8}', '\t', ' ', '-', '=', '[', ']', '\\', '\0', ';', '\'', '`', ',', '.',
        '/',
    ]
}

/// What they type with Shift.
pub open spec fn shifted_row() -> Seq<char> {
    seq![
        'A', 'B', 'C', 'D', 'E', 'F', 'G', 'H', 'I', 'J', 'K', 'L', 'M', 'N', 'O', 'P', 'Q', 'R',
        'S', 'T', 'U', 'V', 'W', 'X', 'Y', 'Z', '!', '@', '#', '$', '%', '^', '&', '*', '(', ')',
        '\n', '\0', '\u{8}', '\t', ' ', '_', '+', '{', '}', '|', '\0', ':', '"', '~', '<', '>',
        '?',
    ]
}

/// What a key types.
pub open spec fn typed(usage: u8, shift: bool) -> Option<char> {
    let row = if shift {
        shifted_row()
    } else {
        plain_row()
    };
    if 4 <= usage < 4 + row.len() && row[usage - 4] != '\0' {
        Some(row[usage - 4])
    } else {
        None
    }
}

/// What a key types on a US keyboard, if it is a key that types something.
pub fn usage_to_ascii(usage: u8, shift: bool) -> (character: Option<char>)
    ensures
        character == typed(usage, shift),
{
    let plain: [char; 53] = [
        'a', 'b', 'c', 'd', 'e', 'f', 'g', 'h', 'i', 'j', 'k', 'l', 'm', 'n', 'o', 'p', 'q', 'r',
        's', 't', 'u', 'v', 'w', 'x', 'y', 'z', '1', '2', '3', '4', '5', '6', '7', '8', '9', '0',
        '\n', '\0', '\u{8}', '\t', ' ', '-', '=', '[', ']', '\\', '\0', ';', '\'', '`', ',', '.',
        '/',
    ];
    let shifted: [char; 53] = [
        'A', 'B', 'C', 'D', 'E', 'F', 'G', 'H', 'I', 'J', 'K', 'L', 'M', 'N', 'O', 'P', 'Q', 'R',
        'S', 'T', 'U', 'V', 'W', 'X', 'Y', 'Z', '!', '@', '#', '$', '%', '^', '&', '*', '(', ')',
        '\n', '\0', '\u{8}', '\t', ' ', '_', '+', '{', '}', '|', '\0', ':', '"', '~', '<', '>',
        '?',
    ];
    assert(plain@ =~= plain_row());
    assert(shifted@ =~= shifted_row());
    if usage < 4 || usage >= 57 {
        return None;
    }
    let at: usize = (usage - 4) as usize;
    let character: char = if shift {
        shifted[at]
    } else {
        plain[at]
    };
    if character == '\0' {
        None
    } else {
        Some(character)
    }
}

} // verus!
