//! The watchdog against registers in memory.

use std::cell::RefCell;
use std::collections::HashMap;
use std::rc::Rc;

use rpi_hal::registers::{RegisterBlock, Registers};
use rpi_hal::watchdog::{Watchdog, MAX_TIMEOUT_MS, PM_RSTC, PM_WDOG};

#[derive(Clone, Default)]
struct Memory {
    words: Rc<RefCell<HashMap<u32, u32>>>,
    writes: Rc<RefCell<Vec<(u32, u32)>>>,
}

impl Registers for Memory {
    fn read(&mut self, offset: u32) -> u32 {
        *self.words.borrow().get(&offset).unwrap_or(&0)
    }

    fn write(&mut self, offset: u32, value: u32) {
        // A write counts only with the password, which is not kept.
        if value >> 24 == 0x5a {
            self.words.borrow_mut().insert(offset, value & 0x00ff_ffff);
        }
        self.writes.borrow_mut().push((offset, value));
    }
}

#[test]
fn the_longest_timeout_is_the_whole_milliseconds_in_the_countdown() {
    assert_eq!(MAX_TIMEOUT_MS, 15999);
    assert_eq!(u64::from(MAX_TIMEOUT_MS), 0xf_ffffu64 * 1000 / 65536);
}

#[test]
fn starting_loads_the_ticks_and_selects_a_full_reset() {
    let memory = Memory::default();
    memory.words.borrow_mut().insert(PM_RSTC, 0x0000_0112);
    let mut registers = RegisterBlock::new(memory.clone());
    let mut watchdog = Watchdog::new();
    watchdog.start(&mut registers, 1000);
    assert_eq!(
        *memory.writes.borrow(),
        vec![(0x0010_0024, 0x5a01_0000), (0x0010_001c, 0x5a00_0122)]
    );
}

#[test]
fn feeding_repeats_the_last_start() {
    let memory = Memory::default();
    let mut registers = RegisterBlock::new(memory.clone());
    let mut watchdog = Watchdog::default();
    watchdog.start(&mut registers, 250);
    watchdog.start(&mut registers, MAX_TIMEOUT_MS);
    memory.writes.borrow_mut().clear();
    watchdog.feed(&mut registers);
    assert_eq!(memory.writes.borrow()[0], (PM_WDOG, 0x5a00_0000 | 1_048_510));
    assert_eq!(memory.writes.borrow().len(), 2);
}

#[test]
fn disabling_writes_the_disarming_reset_type() {
    let memory = Memory::default();
    let mut registers = RegisterBlock::new(memory.clone());
    let mut watchdog = Watchdog::new();
    watchdog.start(&mut registers, 15);
    watchdog.disable(&mut registers);
    assert_eq!(memory.writes.borrow().last(), Some(&(PM_RSTC, 0x5a00_0102)));
    let released = registers.release();
    assert_eq!(released.writes.borrow().len(), 3);
}

#[test]
fn every_write_carries_the_password() {
    let memory = Memory::default();
    memory.words.borrow_mut().insert(PM_RSTC, 0x00ff_ffff);
    let mut registers = RegisterBlock::new(memory.clone());
    let mut watchdog = Watchdog::new();
    watchdog.start(&mut registers, 3);
    watchdog.feed(&mut registers);
    watchdog.disable(&mut registers);
    for (_, value) in memory.writes.borrow().iter() {
        assert_eq!(value & 0xff00_0000, 0x5a00_0000);
    }
}

#[test]
fn a_disabled_watchdog_stays_so_until_it_is_started() {
    let memory = Memory::default();
    let mut registers = RegisterBlock::new(memory.clone());
    let mut watchdog = Watchdog::new();
    let armed = |memory: &Memory| memory.words.borrow()[&PM_RSTC] & 0x30 == 0x20;
    watchdog.start(&mut registers, 500);
    assert!(armed(&memory));
    watchdog.disable(&mut registers);
    assert!(!armed(&memory));
    let written = memory.writes.borrow().len();
    watchdog.feed(&mut registers);
    assert!(!armed(&memory));
    assert_eq!(memory.writes.borrow().len(), written);
    watchdog.disable(&mut registers);
    watchdog.feed(&mut registers);
    assert!(!armed(&memory));
    watchdog.start(&mut registers, 250);
    assert!(armed(&memory));
    assert_eq!(memory.words.borrow()[&PM_WDOG], 16384);
    memory.words.borrow_mut().insert(PM_WDOG, 7);
    watchdog.feed(&mut registers);
    assert!(armed(&memory));
    assert_eq!(memory.words.borrow()[&PM_WDOG], 16384);
}
