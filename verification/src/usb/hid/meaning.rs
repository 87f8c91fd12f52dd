//! What the descriptors and reports of a HID device mean.

use vstd::prelude::*;

use crate::program;
use crate::program::Program;
use crate::usb::control;
use crate::usb::control::requests;
use crate::usb::descriptor;
use crate::usb::dwc2::{ControlEndpoint, Reply, Transfer, TransferError, UsbProgram};
use crate::usb::hid;
use crate::usb::hid::gamepad;
use crate::usb::hid::gamepad::{GamepadError, GamepadState};
use crate::usb::hid::keyboard;
use crate::usb::hid::keyboard::{KeyEvent, KeyboardState};
use crate::usb::hid::mouse;
use crate::usb::hid::mouse::{Button, MouseState};
use crate::usb::hid::probe::{ProbeAnswer, ProbeOp, Verdict};
use crate::usb::hid::{Current, HidInterface, Wanted};
use crate::usb::hub;

verus! {

/// The character of a key on a US keyboard: letters from usage 4 on, in their order; the
/// digits from usage 30 on, with the nought behind the nine; and from usage 40 on the keys
/// around them, of which escape and the one beside enter give none. Shift makes a letter a
/// capital, and leaves enter, backspace, tab and space.
pub proof fn law_typed(usage: u8, shift: bool)
    ensures
        ({
            let typed = keyboard::typed(usage, shift);
            if 4 <= usage <= 29 {
                typed matches Some(c) && c as int == if shift {
                    'A' as int + usage - 4
                } else {
                    'a' as int + usage - 4
                }
            } else if 30 <= usage <= 39 && !shift {
                typed matches Some(c) && c as int == '0' as int + (usage - 29) % 10
            } else if 30 <= usage <= 39 {
                typed == Some("!@#$%^&*()"@[usage - 30])
            } else if usage == 41 || usage == 50 || usage < 4 || usage > 56 {
                typed is None
            } else if usage <= 44 {
                typed == keyboard::typed(usage, !shift) && (typed matches Some(c) && c as int == (
                if usage == 40 {
                    10int
                } else if usage == 42 {
                    8
                } else if usage == 43 {
                    9
                } else {
                    32
                }))
            } else {
                typed == Some(
                    if shift {
                        "_+{}| :\"~<>?"@[usage - 45]
                    } else {
                        "-=[]\\ ;'`,./"@[usage - 45]
                    },
                )
            }
        }),
{
    reveal_strlit("!@#$%^&*()");
    reveal_strlit("_+{}| :\"~<>?");
    reveal_strlit("-=[]\\ ;'`,./");
}

/// In what is told of two reports, what was let go comes first and what was pressed after
/// it; usages below 4 are no keys.
pub proof fn law_releases_first(before: Seq<u8>, after: Seq<u8>)
    ensures
        ({
            let events = keyboard::key_events(before, after);
            &&& forall|i: int, j: int|
                0 <= i < j < events.len() && #[trigger] events[i] is Pressed ==> (
                #[trigger] events[j]) is Pressed
            &&& forall|i: int|
                0 <= i < events.len() ==> (match #[trigger] events[i] {
                    KeyEvent::Pressed(key) => key >= 4,
                    KeyEvent::Released(key) => key >= 4,
                })
        }),
{
    lemma_released(before, after, 0);
    lemma_pressed(before, after, 0);
}

proof fn lemma_released(before: Seq<u8>, after: Seq<u8>, at: int)
    ensures
        forall|i: int|
            0 <= i < keyboard::releases(before, after, at).len() ==> (
            #[trigger] keyboard::releases(before, after, at)[i] matches KeyEvent::Released(key)
                && key >= 4),
    decreases before.len() - at,
{
    if 0 <= at < before.len() {
        lemma_released(before, after, at + 1);
    }
}

proof fn lemma_pressed(before: Seq<u8>, after: Seq<u8>, at: int)
    ensures
        forall|i: int|
            0 <= i < keyboard::presses(before, after, at).len() ==> (
            #[trigger] keyboard::presses(before, after, at)[i] matches KeyEvent::Pressed(key)
                && key >= 4),
    decreases after.len() - at,
{
    if 0 <= at < after.len() {
        lemma_pressed(before, after, at + 1);
    }
}

/// A keyboard is asked for a report with the toggle that is due. A report that comes turns
/// the toggle, even one that is too short; with a whole one comes the one before it, and it
/// is kept for the next. A NAK is no report, and neither it nor a failure turns the toggle.
pub proof fn law_keyboard_polled(state: KeyboardState, came: Seq<u8>, error: TransferError)
    ensures
        keyboard::poll_program(state) matches Program::Request(transfer, next) && transfer
            == Transfer::InterruptIn(state.endpoint, state.report_endpoint, state.toggle, 8),
        keyboard::poll_program(state).given(seq![Reply::Bytes(Ok(came))]) matches Program::Return(
            polled,
        ) && polled.0.toggle == !state.toggle && polled.0.endpoint == state.endpoint
            && polled.0.report_endpoint == state.report_endpoint && (came.len() < 8 ==> polled.1
            == Ok::<Option<(keyboard::Held, keyboard::Held)>, TransferError>(None)
            && polled.0.previous == state.previous) && (came.len() >= 8 ==> (polled.1 matches Ok(
            Some(pair),
        ) && pair.0 == state.previous && pair.1 == polled.0.previous && pair.1.modifiers.0
            == came[0] && pair.1.keys == came.subrange(2, 8))),
        keyboard::poll_program(state).given(seq![Reply::Bytes(Err(error))]) matches
            Program::Return(polled) && polled.0 == state && polled.1 == if error
            == TransferError::Nak {
            Ok::<Option<(keyboard::Held, keyboard::Held)>, TransferError>(None)
        } else {
            Err(error)
        },
{
    reveal_with_fuel(Program::given, 2);
    assert(seq![Reply::Bytes(Ok(came))].skip(1).len() == 0);
    assert(seq![Reply::Bytes(Err::<Seq<u8>, TransferError>(error))].skip(1).len() == 0);
}

/// A mouse is asked for a report as a keyboard is. A report has the buttons, and how far the
/// mouse has moved to the right and down, and its wheel if it has one.
pub proof fn law_mouse_polled(state: MouseState, came: Seq<u8>, error: TransferError)
    ensures
        mouse::poll_program(state) matches Program::Request(transfer, next) && transfer
            == Transfer::InterruptIn(state.endpoint, state.report_endpoint, state.toggle, 8),
        mouse::poll_program(state).given(seq![Reply::Bytes(Ok(came))]) matches Program::Return(
            polled,
        ) && polled.0.toggle == !state.toggle && polled.0.endpoint == state.endpoint
            && polled.0.report_endpoint == state.report_endpoint && (came.len() < 3 ==> polled.1
            == Ok::<Option<(mouse::Buttons, mouse::MouseReport)>, TransferError>(None)
            && polled.0.previous_buttons == state.previous_buttons) && (came.len() >= 3 ==> (
        polled.1 matches Ok(Some(pair)) && pair.0 == state.previous_buttons && pair.1.buttons
            == polled.0.previous_buttons && pair.1.buttons.0 == came[0] && two_s(
            pair.1.x as int,
            came[1],
        ) && two_s(pair.1.y as int, came[2]) && if came.len() >= 4 {
            two_s(pair.1.wheel as int, came[3])
        } else {
            pair.1.wheel == 0
        })),
        mouse::poll_program(state).given(seq![Reply::Bytes(Err(error))]) matches Program::Return(
            polled,
        ) && polled.0 == state && polled.1 == if error == TransferError::Nak {
            Ok::<Option<(mouse::Buttons, mouse::MouseReport)>, TransferError>(None)
        } else {
            Err(error)
        },
{
    reveal_with_fuel(Program::given, 2);
    assert(seq![Reply::Bytes(Ok(came))].skip(1).len() == 0);
    assert(seq![Reply::Bytes(Err::<Seq<u8>, TransferError>(error))].skip(1).len() == 0);
}

/// A byte stands for the number from -128 to 127 that it is equal to, but for 256s.
pub open spec fn two_s(number: int, byte: u8) -> bool {
    -128 <= number <= 127 && (number == byte || number + 256 == byte)
}

/// The buttons of a mouse are the low bits of its first byte: the left, the right, and the
/// middle one.
pub proof fn law_button_bits(buttons: u8)
    ensures
        mouse::button_at(0) == Button::Left && mouse::button_at(1) == Button::Right
            && mouse::button_at(2) == Button::Middle,
        buttons & mouse::button_mask(0) != 0 <==> buttons % 2 == 1,
        buttons & mouse::button_mask(1) != 0 <==> buttons / 2 % 2 == 1,
        buttons & mouse::button_mask(2) != 0 <==> buttons / 4 % 2 == 1,
{
    assert((buttons & 0x01 != 0) == (buttons % 2 == 1) && (buttons & 0x02 != 0) == (buttons / 2 % 2
        == 1) && (buttons & 0x04 != 0) == (buttons / 4 % 2 == 1)) by (bit_vector);
}

/// How long to wait between two polls of a gamepad, in milliseconds. A device of low or full
/// speed gives it; one of high speed gives the exponent, one less, of a number of eighths,
/// no less than 1 and no more than 16. It is rounded down, but is never 0.
pub proof fn law_interval(endpoint: ControlEndpoint, interval: u8)
    ensures
        ({
            let ms = gamepad::interval_ms(endpoint, interval);
            let slow = endpoint.split is Some || endpoint.low_speed;
            let step: nat = if interval < 1 {
                1
            } else if interval > 16 {
                16
            } else {
                interval as nat
            };
            let eighths = vstd::arithmetic::power2::pow2((step - 1) as nat);
            &&& ms >= 1
            &&& slow && interval >= 1 ==> ms == interval
            &&& slow && interval == 0 ==> ms == 1
            &&& !slow && eighths >= 8 ==> 8 * ms <= eighths < 8 * (ms + 1)
            &&& !slow && eighths < 8 ==> ms == 1
        }),
{
    let step: nat = if interval < 1 {
        1
    } else if interval > 16 {
        16
    } else {
        interval as nat
    };
    lemma_power((step - 1) as nat);
}

proof fn lemma_power(exponent: nat)
    ensures
        gamepad::power(exponent as int) == vstd::arithmetic::power2::pow2(exponent),
    decreases exponent,
{
    vstd::arithmetic::power2::lemma2_to64();
    if exponent > 0 {
        lemma_power((exponent - 1) as nat);
        vstd::arithmetic::power2::lemma_pow2_unfold(exponent);
    }
}

/// A gamepad is asked for as much as there is room for in a packet and in the buffer, up to
/// the 256 bytes of a transfer. With report ids the first byte of a report is its id, and the
/// report is what is behind it.
pub proof fn law_gamepad_polled<D>(
    state: GamepadState<D>,
    room: nat,
    came: Seq<u8>,
    error: TransferError,
)
    ensures
        gamepad::poll_program(state, room) matches Program::Request(transfer, next) && (
        transfer matches Transfer::InterruptIn(endpoint, number, toggle, len) && endpoint
            == state.endpoint && number == state.report_endpoint && toggle == state.toggle && len
            <= room && len <= state.endpoint.max_packet_size && len <= 256 && (len == room || len
            == state.endpoint.max_packet_size || len == 256)),
        gamepad::poll_program(state, room).given(seq![Reply::Bytes(Ok(came))]) matches
            Program::Return(polled) && polled.0 == (GamepadState { toggle: !state.toggle, ..state })
            && polled.1 == if came.len() == 0 {
            Ok::<Option<(u8, Seq<u8>)>, TransferError>(None)
        } else if state.verdict.uses_report_ids {
            Ok(Some((came[0], came.skip(1))))
        } else {
            Ok(Some((0u8, came)))
        },
        gamepad::poll_program(state, room).given(seq![Reply::Bytes(Err(error))]) matches
            Program::Return(polled) && polled.0 == state && polled.1 == if error
            == TransferError::Nak {
            Ok::<Option<(u8, Seq<u8>)>, TransferError>(None)
        } else {
            Err(error)
        },
{
    reveal_with_fuel(Program::given, 2);
    assert(seq![Reply::Bytes(Ok(came))].skip(1).len() == 0);
    assert(seq![Reply::Bytes(Err::<Seq<u8>, TransferError>(error))].skip(1).len() == 0);
}

/// A report that is put together is taken apart again.
pub proof fn law_report_ids(verdict: Verdict, id: u8, payload: Seq<u8>)
    ensures
        gamepad::report_in(verdict, gamepad::report_bytes(verdict, id, payload)).1 == payload,
        verdict.uses_report_ids ==> gamepad::report_in(
            verdict,
            gamepad::report_bytes(verdict, id, payload),
        ).0 == id && gamepad::report_bytes(verdict, id, payload).len() == payload.len() + 1,
        !verdict.uses_report_ids ==> gamepad::report_bytes(verdict, id, payload) == payload,
{
    if verdict.uses_report_ids {
        assert((seq![id] + payload).skip(1) =~= payload);
    }
}

/// The length of the report descriptor that a class descriptor declares: its sixth byte
/// says how many descriptors it lists, each as a kind and a length in three bytes, and the
/// first of kind 0x22 is the report descriptor.
pub proof fn law_declared_len(class: Seq<u8>, which: int)
    requires
        class.len() >= 6,
        0 <= which < class[5],
        6 + 3 * which + 3 <= class.len(),
        class[6 + 3 * which] == 0x22,
        forall|i: int| 0 <= i < which ==> class[#[trigger] (6 + 3 * i)] != 0x22,
    ensures
        hid::declared_len(class) == class[7 + 3 * which] + 256 * class[8 + 3 * which],
{
    lemma_listed(class, 0, which);
}

proof fn lemma_listed(class: Seq<u8>, from: int, which: int)
    requires
        0 <= from <= which < class[5],
        6 + 3 * which + 3 <= class.len(),
        class[6 + 3 * which] == 0x22,
        forall|i: int| from <= i < which ==> class[#[trigger] (6 + 3 * i)] != 0x22,
    ensures
        hid::report_len(class, 6 + 3 * from, (class[5] - from) as nat) == class[7 + 3 * which] + 256
            * class[8 + 3 * which],
    decreases which - from,
{
    if from < which {
        assert(class[6 + 3 * from] != 0x22);
        lemma_listed(class, from + 1, which);
        assert(6 + 3 * (from + 1) == 6 + 3 * from + 3);
    }
}

/// A class descriptor that lists no report descriptor declares none.
pub proof fn law_none_declared(class: Seq<u8>)
    requires
        class.len() >= 6,
        forall|i: int|
            0 <= i < class[5] && 6 + 3 * i + 3 <= class.len() ==> class[#[trigger] (6 + 3 * i)]
                != 0x22,
    ensures
        hid::declared_len(class) == 0,
{
    lemma_none_listed(class, 0);
}

proof fn lemma_none_listed(class: Seq<u8>, from: int)
    requires
        0 <= from <= class[5],
        forall|i: int|
            from <= i < class[5] && 6 + 3 * i + 3 <= class.len() ==> class[#[trigger] (6 + 3 * i)]
                != 0x22,
    ensures
        hid::report_len(class, 6 + 3 * from, (class[5] - from) as nat) == 0,
    decreases class[5] - from,
{
    if from < class[5] && 6 + 3 * from + 3 <= class.len() {
        assert(class[6 + 3 * from] != 0x22);
        lemma_none_listed(class, from + 1);
        assert(6 + 3 * (from + 1) == 6 + 3 * from + 3);
    }
}

/// An interface of a HID device that is wanted: any, or one with a boot protocol.
pub open spec fn is_wanted(item: Seq<u8>, wanted: Wanted) -> bool {
    &&& descriptor::is_interface(item)
    &&& item[5] == 3
    &&& match wanted {
        Wanted::Any => true,
        Wanted::Boot(protocol) => item[6] == 1 && item[7] == protocol,
    }
}

/// An endpoint that belongs to a wanted interface and interrupts the host: the interface is
/// the last one declared before it. A descriptor of kind 0x21 is the interface's own.
pub open spec fn belongs(all: Seq<Seq<u8>>, wanted: Wanted, interface: int, endpoint: int) -> bool {
    &&& 0 <= interface < endpoint < all.len()
    &&& is_wanted(all[interface], wanted)
    &&& forall|i: int| interface < i < endpoint ==> !descriptor::is_interface(#[trigger] all[i])
    &&& crate::usb::hub::steps::interrupts(all[endpoint])
}

/// The length that the last class descriptor between an interface and one of its endpoints
/// declares; none if there is none.
pub open spec fn length_between(all: Seq<Seq<u8>>, interface: int, endpoint: int) -> u16
    decreases endpoint - interface,
{
    if endpoint - 1 <= interface {
        0
    } else if all[endpoint - 1][1] == 0x21 {
        hid::declared_len(all[endpoint - 1])
    } else {
        length_between(all, interface, endpoint - 1)
    }
}

/// An interface as it is found: its number, the number, the packet size and the interval of
/// its endpoint, and the length of its report descriptor are as they are declared.
pub open spec fn declares(all: Seq<Seq<u8>>, k: int, e: int, found: HidInterface) -> bool {
    &&& found.interface == all[k][2]
    &&& found.endpoint == all[e][2] % 16
    &&& found.max_packet_size == all[e][4] + 256 * all[e][5]
    &&& found.interval == all[e][6]
    &&& found.report_descriptor_len == length_between(all, k, e)
}

/// What is found belongs to a wanted interface, and is as it is declared there.
pub proof fn law_found_belongs(all: Seq<Seq<u8>>, wanted: Wanted)
    requires
        forall|i: int| 0 <= i < all.len() ==> (#[trigger] all[i]).len() >= 2,
    ensures
        hid::find_from(all, wanted, hid::outside(), 0) matches Some(found) ==> exists|
            k: int,
            e: int,
        | #[trigger]
            belongs(all, wanted, k, e) && declares(all, k, e, found),
{
    lemma_found(all, wanted, hid::outside(), 0, -1);
}

/// Every interface that is listed has an endpoint for reports, and is as it is declared.
pub proof fn law_listed_belong(config: Seq<u8>, which: int)
    requires
        0 <= which < hid::hid_interfaces(config).len(),
    ensures
        ({
            let all = descriptor::descriptors(config, 0);
            exists|k: int, e: int| #[trigger]
                belongs(all, Wanted::Any, k, e) && declares(
                    all,
                    k,
                    e,
                    hid::hid_interfaces(config)[which],
                )
        }),
{
    let all = descriptor::descriptors(config, 0);
    lemma_whole(config, 0);
    lemma_collected(all, hid::outside(), 0, -1, Seq::empty());
    assert(is_declared(all, hid::hid_interfaces(config)[which]));
}

spec fn is_declared(all: Seq<Seq<u8>>, found: HidInterface) -> bool {
    exists|k: int, e: int| #[trigger] belongs(all, Wanted::Any, k, e) && declares(all, k, e, found)
}

spec fn all_declared(all: Seq<Seq<u8>>, found: Seq<HidInterface>) -> bool {
    forall|i: int| 0 <= i < found.len() ==> is_declared(all, #[trigger] found[i])
}

proof fn lemma_whole(config: Seq<u8>, at: int)
    ensures
        forall|i: int|
            0 <= i < descriptor::descriptors(config, at).len() ==> (
            #[trigger] descriptor::descriptors(config, at)[i]).len() >= 2,
    decreases config.len() - at,
{
    let all = descriptor::descriptors(config, at);
    if all.len() > 0 {
        lemma_whole(config, at + config[at]);
        let rest = descriptor::descriptors(config, at + config[at]);
        assert forall|i: int| 0 <= i < all.len() implies (#[trigger] all[i]).len() >= 2 by {
            if i > 0 {
                assert(all[i] == rest[i - 1]);
            }
        }
    }
}

proof fn lemma_collected(
    all: Seq<Seq<u8>>,
    current: Current,
    at: int,
    k: int,
    found: Seq<HidInterface>,
)
    requires
        0 <= at <= all.len(),
        forall|i: int| 0 <= i < all.len() ==> (#[trigger] all[i]).len() >= 2,
        stands(all, Wanted::Any, current, at, k),
        all_declared(all, found),
    ensures
        all_declared(all, hid::collect(all, current, at, found)),
    decreases all.len() - at,
{
    if at < all.len() {
        let item = all[at];
        if item.len() >= 7 {
            lemma_bits(item);
        }
        let more = hid::found_at(found, current, item);
        if hid::is_report_endpoint(current, item) {
            assert(belongs(all, Wanted::Any, k, at));
            assert(declares(all, k, at, hid::described(current, item)));
            assert(is_declared(all, hid::described(current, item)));
        }
        assert forall|i: int| 0 <= i < more.len() implies is_declared(all, #[trigger] more[i]) by {
            if i < found.len() {
                assert(more[i] == found[i]);
            }
        }
        let next = hid::walked_past(current, Wanted::Any, item);
        let behind = if descriptor::is_interface(item) {
            at
        } else {
            k
        };
        lemma_collected(all, next, at + 1, behind, more);
    }
}

/// Something is found if an endpoint belongs to a wanted interface.
pub proof fn law_found_if_any(all: Seq<Seq<u8>>, wanted: Wanted, k: int, e: int)
    requires
        forall|i: int| 0 <= i < all.len() ==> (#[trigger] all[i]).len() >= 2,
        belongs(all, wanted, k, e),
    ensures
        hid::find_from(all, wanted, hid::outside(), 0) is Some,
{
    lemma_any(all, wanted, hid::outside(), 0, k, e);
}

/// Where a walk stands: behind the interface descriptor at `k`, or behind none.
spec fn stands(all: Seq<Seq<u8>>, wanted: Wanted, current: Current, at: int, k: int) -> bool {
    &&& -1 <= k < at
    &&& forall|i: int| k < i < at ==> !descriptor::is_interface(#[trigger] all[i])
    &&& k == -1 ==> !current.wanted
    &&& k >= 0 ==> descriptor::is_interface(all[k]) && current.number == all[k][2] && (
    current.wanted <==> is_wanted(all[k], wanted))
    &&& current.wanted ==> current.report_descriptor_len == length_between(all, k, at)
}

proof fn lemma_bits(item: Seq<u8>)
    requires
        item.len() >= 7,
    ensures
        (descriptor::endpoint_in(item) && descriptor::endpoint_kind(item, 3)) <==> (item[2] >= 128
            && item[3] % 4 == 3),
        descriptor::endpoint_number(item) == item[2] % 16,
{
    descriptor::lemma_endpoint_bits(item[2], item[3]);
}

proof fn lemma_found(all: Seq<Seq<u8>>, wanted: Wanted, current: Current, at: int, k: int)
    requires
        0 <= at <= all.len(),
        forall|i: int| 0 <= i < all.len() ==> (#[trigger] all[i]).len() >= 2,
        stands(all, wanted, current, at, k),
    ensures
        hid::find_from(all, wanted, current, at) matches Some(found) ==> exists|k: int, e: int|
            #[trigger] belongs(all, wanted, k, e) && declares(all, k, e, found),
    decreases all.len() - at,
{
    if at < all.len() {
        let item = all[at];
        if item.len() >= 7 {
            lemma_bits(item);
        }
        if hid::is_report_endpoint(current, item) {
            assert(belongs(all, wanted, k, at));
        } else {
            let next = hid::walked_past(current, wanted, item);
            let behind = if descriptor::is_interface(item) {
                at
            } else {
                k
            };
            lemma_found(all, wanted, next, at + 1, behind);
        }
    }
}

proof fn lemma_any(
    all: Seq<Seq<u8>>,
    wanted: Wanted,
    current: Current,
    at: int,
    k: int,
    e: int,
)
    requires
        0 <= at <= e,
        forall|i: int| 0 <= i < all.len() ==> (#[trigger] all[i]).len() >= 2,
        belongs(all, wanted, k, e),
        at > k ==> current.wanted,
    ensures
        hid::find_from(all, wanted, current, at) is Some,
    decreases all.len() - at,
{
    let item = all[at];
    if item.len() >= 7 {
        lemma_bits(item);
    }
    if !hid::is_report_endpoint(current, item) {
        assert(at != e);
        lemma_any(all, wanted, hid::walked_past(current, wanted, item), at + 1, k, e);
    }
}

/// The requests of a HID interface, spelled out: request 0x0B selects the protocol, 0 for
/// boot reports, and request 0x0A has reports come only when something changes.
pub proof fn law_hid_requests(interface: u8, protocol: u8)
    ensures
        hid::protocol_setup(interface, protocol).packet() == seq![
            0x21,
            0x0B,
            protocol,
            0,
            interface,
            0,
            0,
            0,
        ],
        hid::idle_setup(interface).packet() == seq![0x21, 0x0A, 0, 0, interface, 0, 0, 0],
{
    assert(hid::protocol_setup(interface, protocol).packet() =~= seq![
        0x21,
        0x0B,
        protocol,
        0,
        interface,
        0,
        0,
        0,
    ]);
    assert(hid::idle_setup(interface).packet() =~= seq![0x21, 0x0A, 0, 0, interface, 0, 0, 0]);
}

/// A device with a boot protocol: its configuration is selected, its interface is set to boot
/// reports, which come only when something changes, and that interface is the result.
pub proof fn law_booted(
    device: ControlEndpoint,
    protocol: u8,
    header: Seq<u8>,
    came: Seq<u8>,
    found: HidInterface,
)
    requires
        header.len() == 9,
        came.len() <= control::configuration_len(header, 64),
        descriptor::is_configuration(came),
        hid::hid_interface(came, Wanted::Boot(protocol)) == Some(found),
    ensures
        ({
            let program = hid::boot_program(device, protocol);
            let config = requests::read_answers(header) + requests::read_answers(came);
            let six = hub::steps::all_done(6);
            &&& program.asked(config + six) == control::configuration_program(
                device,
                0,
                control::zeros(64),
            ).asked(config) + seq![
                Transfer::Setup(device, seq![0, 9, came[5], 0, 0, 0, 0, 0]),
                Transfer::StatusIn(device),
                Transfer::Setup(device, seq![0x21, 0x0B, 0, 0, found.interface, 0, 0, 0]),
                Transfer::StatusIn(device),
                Transfer::Setup(device, seq![0x21, 0x0A, 0, 0, found.interface, 0, 0, 0]),
                Transfer::StatusIn(device),
            ]
            &&& program.given(config + six) == UsbProgram::<
                Result<Option<HidInterface>, TransferError>,
            >::Return(Ok(Some(found)))
        }),
{
    let buf = control::zeros(64);
    requests::law_configuration_read(device, 0, buf, header, came);
    law_hid_requests(found.interface, 0);
    let whole = came + buf.skip(came.len() as int);
    assert(whole.take(came.len() as int) =~= came);
    let config = requests::read_answers(header) + requests::read_answers(came);
    let two = hub::steps::all_done(2);
    let select = control::set_configuration_program(device, came[5]);
    let chosen = control::Setup {
        request_type: 0,
        request: 9,
        value: came[5] as u16,
        index: 0,
        length: 0,
    };
    assert(chosen.packet() =~= seq![0, 9, came[5], 0, 0, 0, 0, 0]);
    hub::steps::lemma_whole_asked(device, chosen);
    let boot = control::no_data_program(device, hid::protocol_setup(found.interface, 0));
    hub::steps::lemma_whole_asked(device, hid::protocol_setup(found.interface, 0));
    let idle = control::no_data_program(device, hid::idle_setup(found.interface));
    hub::steps::lemma_whole_asked(device, hid::idle_setup(found.interface));
    let end = |idle: Result<(), TransferError>|
        UsbProgram::<Result<Option<HidInterface>, TransferError>>::Return(Ok(Some(found)));
    program::lemma_given_in_turn(idle, end, two, Seq::empty(), Ok(()));
    assert(two + Seq::<Reply>::empty() =~= two);
    let third = |booted: ()| idle.bind(end);
    requests::lemma_then(boot, third, two, two, ());
    let second = |selected: ()| control::and_then(boot, third);
    requests::lemma_then(select, second, two, two + two, ());
    let rest = |read: control::Read|
        match read.0 {
            Err(error) => Program::Return(Err(error)),
            Ok(len) => {
                let config = read.1.take(len as int);
                match hid::hid_interface(config, Wanted::Boot(protocol)) {
                    None => Program::Return(Ok(None)),
                    Some(found) => if !descriptor::is_configuration(config) {
                        Program::Return(Ok(None))
                    } else {
                        control::and_then(
                            control::set_configuration_program(device, config[5]),
                            |selected: ()|
                                control::and_then(
                                    control::no_data_program(
                                        device,
                                        hid::protocol_setup(found.interface, hid::BOOT_PROTOCOL),
                                    ),
                                    |booted: ()|
                                        control::no_data_program(
                                            device,
                                            hid::idle_setup(found.interface),
                                        ).bind(
                                            |idle: Result<(), TransferError>|
                                                Program::Return(Ok(Some(found))),
                                        ),
                                ),
                        )
                    },
                }
            },
        };
    let six = hub::steps::all_done(6);
    let read = (Ok::<usize, TransferError>(came.len() as usize), whole);
    assert(rest(read) == control::and_then(select, second));
    program::lemma_given_in_turn(
        control::configuration_program(device, 0, buf),
        rest,
        config,
        two + (two + two),
        read,
    );
    assert(two + (two + two) =~= six);
    assert(hid::boot_program(device, protocol) == control::configuration_program(
        device,
        0,
        buf,
    ).bind(rest));
    let tail = seq![
        Transfer::Setup(device, seq![0, 9, came[5], 0, 0, 0, 0, 0]),
        Transfer::StatusIn(device),
        Transfer::Setup(device, seq![0x21, 0x0B, 0, 0, found.interface, 0, 0, 0]),
        Transfer::StatusIn(device),
        Transfer::Setup(device, seq![0x21, 0x0A, 0, 0, found.interface, 0, 0, 0]),
        Transfer::StatusIn(device),
    ];
    assert(rest(read).asked(two + (two + two)) =~= tail);
}

/// The report descriptors that are asked for, from one candidate on, each for as much as its
/// interface declares, up to 256 bytes.
pub open spec fn asked_of(device: ControlEndpoint, candidates: Seq<HidInterface>, at: int) -> Seq<
    ProbeOp,
> {
    Seq::new(
        (candidates.len() - at) as nat,
        |i: int|
            {
                let found = candidates[at + i];
                ProbeOp::ReportDescriptor(
                    device,
                    found.interface,
                    if found.report_descriptor_len <= 256 {
                        found.report_descriptor_len as nat
                    } else {
                        256
                    },
                )
            },
    )
}

/// A gamepad is looked for behind every interface that declares a report descriptor, in
/// their order. One that refuses to tell its descriptor is passed over; if all of them do,
/// the first that did is told.
pub proof fn law_all_refuse<D>(
    device: ControlEndpoint,
    candidates: Seq<HidInterface>,
    at: int,
    stalled: Option<u8>,
)
    requires
        0 <= at <= candidates.len(),
        forall|i: int|
            0 <= i < candidates.len() ==> (#[trigger] candidates[i]).report_descriptor_len > 0,
    ensures
        ({
            let program = gamepad::search_program::<D>(device, candidates, at, stalled);
            let answers = Seq::new(
                (candidates.len() - at) as nat,
                |i: int| ProbeAnswer::<D>::Bytes(Err(TransferError::Stall)),
            );
            &&& program.asked(answers) == asked_of(device, candidates, at)
            &&& program.given(answers) matches Program::Return(result)
            &&& stalled matches Some(first) ==> result == Err::<
                Option<GamepadState<D>>,
                GamepadError,
            >(GamepadError::ReportDescriptor(first, TransferError::Stall))
            &&& stalled is None && at < candidates.len() ==> result == Err::<
                Option<GamepadState<D>>,
                GamepadError,
            >(GamepadError::ReportDescriptor(candidates[at].interface, TransferError::Stall))
            &&& stalled is None && at == candidates.len() ==> result == Ok::<
                Option<GamepadState<D>>,
                GamepadError,
            >(None)
        }),
    decreases candidates.len() - at,
{
    let program = gamepad::search_program::<D>(device, candidates, at, stalled);
    let answers = Seq::new(
        (candidates.len() - at) as nat,
        |i: int| ProbeAnswer::<D>::Bytes(Err(TransferError::Stall)),
    );
    let all = asked_of(device, candidates, at);
    if at < candidates.len() {
        let found = candidates[at];
        let first = match stalled {
            Some(first) => Some(first),
            None => Some(found.interface),
        };
        law_all_refuse::<D>(device, candidates, at + 1, first);
        assert(answers.skip(1) =~= Seq::new(
            (candidates.len() - at - 1) as nat,
            |i: int| ProbeAnswer::<D>::Bytes(Err(TransferError::Stall)),
        ));
        assert(program.asked(answers) =~= all);
    } else {
        assert(program.asked(answers) =~= all);
    }
}

/// A keyboard or a mouse that has just been found is asked for reports at the endpoint of its
/// interface, with an even toggle, and has nothing held.
pub proof fn law_new_devices(device: ControlEndpoint, found: HidInterface)
    ensures
        ({
            let keys = keyboard::new_keyboard(device, found);
            let pointer = mouse::new_mouse(device, found);
            let pipe = ControlEndpoint { max_packet_size: found.max_packet_size, ..device };
            &&& keys.endpoint == pipe && pointer.endpoint == pipe
            &&& keys.interface == found.interface && pointer.interface == found.interface
            &&& keys.report_endpoint == found.endpoint && pointer.report_endpoint == found.endpoint
            &&& !keys.toggle && !pointer.toggle
            &&& pointer.previous_buttons.0 == 0 && keys.previous.modifiers.0 == 0
            &&& keys.previous.keys.len() == 6
            &&& forall|i: int| 0 <= i < 6 ==> #[trigger] keys.previous.keys[i] == 0
        }),
{
}

/// The reports of a device come over its own way, in packets of the size that the interface
/// declares.
pub proof fn law_report_pipe(device: ControlEndpoint, found: HidInterface)
    ensures
        hid::report_pipe(device, found) == (ControlEndpoint {
            address: device.address,
            low_speed: device.low_speed,
            max_packet_size: found.max_packet_size,
            split: device.split,
        }),
{
}

/// A gamepad that has just been found is asked for reports at the endpoint of its interface,
/// with an even toggle. Of its report descriptor no more is read than declared, and no more
/// than two hundred and fifty-six bytes.
pub proof fn law_new_gamepad<D>(
    device: ControlEndpoint,
    found: HidInterface,
    layout: D,
    verdict: Verdict,
    bytes: Seq<u8>,
)
    ensures
        ({
            let pad = gamepad::new_gamepad(device, found, layout, verdict, bytes);
            let length = gamepad::descriptor_len(found);
            &&& pad.endpoint == ControlEndpoint {
                max_packet_size: found.max_packet_size,
                ..device
            }
            &&& pad.interface == found.interface && pad.report_endpoint == found.endpoint
            &&& !pad.toggle
            &&& pad.layout == layout && pad.verdict == verdict && pad.descriptor_bytes == bytes
            &&& length <= 256 && length <= found.report_descriptor_len
            &&& length == 256 || length == found.report_descriptor_len
        }),
{
}

} // verus!
