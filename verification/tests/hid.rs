//! Boot reports of keyboards and mice.

use rpi_hal::usb::hid::keyboard::{usage_to_ascii, KeyboardReport, Modifiers};
use rpi_hal::usb::hid::mouse::{Buttons, MouseReport};

#[test]
fn a_keyboard_report_comes_back() {
    let report = [0x12, 0, 4, 0, 29, 0xe0, 1, 0];
    let parsed = KeyboardReport::parse(&report).unwrap();
    assert_eq!(parsed.boot_report(), report);
    assert_eq!(parsed.pressed_keys(), vec![4, 29, 0xe0]);
    assert!(KeyboardReport::parse(&report[..7]).is_none());
    // The second byte is the maker's, and what follows the eighth is not looked at.
    let longer = [0x12, 0x55, 4, 0, 29, 0xe0, 1, 0, 77];
    assert_eq!(KeyboardReport::parse(&longer).unwrap().boot_report(), report);
}

#[test]
fn modifiers_are_told_by_side_and_together() {
    let names = |bits: u8| {
        let held = Modifiers(bits);
        [
            held.left_ctrl(),
            held.left_shift(),
            held.left_alt(),
            held.left_gui(),
            held.right_ctrl(),
            held.right_shift(),
            held.right_alt(),
            held.right_gui(),
        ]
    };
    for bit in 0..8 {
        let mut expected = [false; 8];
        expected[bit] = true;
        assert_eq!(names(1 << bit), expected);
    }
    assert!(Modifiers(0x01).ctrl() && Modifiers(0x10).ctrl() && !Modifiers(0xee).ctrl());
    assert!(Modifiers(0x02).shift() && Modifiers(0x20).shift() && !Modifiers(0xdd).shift());
    assert!(Modifiers(0x04).alt() && Modifiers(0x40).alt() && !Modifiers(0xbb).alt());
    assert!(Modifiers(0x08).gui() && Modifiers(0x80).gui() && !Modifiers(0x77).gui());
}

#[test]
fn usages_are_the_characters_of_a_us_layout() {
    assert_eq!(usage_to_ascii(0x04, false), Some('a'));
    assert_eq!(usage_to_ascii(0x1d, true), Some('Z'));
    assert_eq!(usage_to_ascii(0x1e, false), Some('1'));
    assert_eq!(usage_to_ascii(0x1e, true), Some('!'));
    assert_eq!(usage_to_ascii(0x27, false), Some('0'));
    assert_eq!(usage_to_ascii(0x27, true), Some(')'));
    assert_eq!(usage_to_ascii(0x28, false), Some('\n'));
    assert_eq!(usage_to_ascii(0x2c, true), Some(' '));
    assert_eq!(usage_to_ascii(0x34, true), Some('"'));
    assert_eq!(usage_to_ascii(0x38, true), Some('?'));
    assert_eq!(usage_to_ascii(0x03, false), None);
    assert_eq!(usage_to_ascii(0x39, false), None);
}

#[test]
fn a_mouse_report_is_signed_and_may_have_no_wheel() {
    let report = MouseReport::parse(&[0xff, 0x7f, 0x80]).unwrap();
    assert_eq!((report.x, report.y, report.wheel), (127, -128, 0));
    assert!(report.buttons.left() && report.buttons.right() && report.buttons.middle());
    let report = MouseReport::parse(&[0x02, 0, 0xff, 0xfe, 9]).unwrap();
    assert_eq!((report.y, report.wheel), (-1, -2));
    assert_eq!(report.buttons, Buttons(2));
    assert!(MouseReport::parse(&[1, 2]).is_none());
}
