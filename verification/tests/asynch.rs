//! Waiting for channels and microframes, and transactions an errand at a time.

use std::cell::RefCell;
use std::collections::VecDeque;
use std::rc::Rc;

use rpi_hal::usb::chip::{
    phy_read_steps, phy_write_steps, switch_steps, Access, Instruction, Mii, Outcome, Runner, Step,
};
use rpi_hal::usb::control::stages::{ControlRunner, Direction, Next as NextStage, Stage};
use rpi_hal::usb::control::vendor_setup;
use rpi_hal::usb::dwc2::asynch::{
    Errand, Finding, Next, Pause, SlotTable, TransactionRunner, Wait,
};
use rpi_hal::usb::dwc2::hardware::{Change, Dwc2Registers, Field, PortBits, UsbPort};
use rpi_hal::usb::dwc2::{
    ControlEndpoint, DataPid, EndpointType, SplitTarget, Transaction, TransferError, HCINT_ACK,
    HCINT_CHH, HCINT_NAK, HCINT_NYET, HCINT_XFRC,
};
use rpi_hal::usb::lan7800::{enable_steps, mac_steps, negotiate_steps, parked_start_steps, reset_steps};

/// A controller whose registers read as they are told to.
#[derive(Clone, Default)]
struct Script {
    channels: Rc<RefCell<u32>>,
    global: Rc<RefCell<u32>>,
    frame: Rc<RefCell<u32>>,
    hcint: Rc<RefCell<u32>>,
    changes: Rc<RefCell<Vec<Change>>>,
    reads: Rc<RefCell<Vec<Field>>>,
}

impl Dwc2Registers for Script {
    fn handle(&self) -> Self {
        self.clone()
    }

    fn read(&mut self, field: Field) -> u32 {
        self.reads.borrow_mut().push(field);
        match field {
            Field::ChannelInterrupts => *self.channels.borrow(),
            Field::GlobalInterrupts => *self.global.borrow(),
            Field::FrameNumber => *self.frame.borrow(),
            Field::Interrupts(_) => *self.hcint.borrow(),
            _ => 0,
        }
    }

    fn apply(&mut self, change: Change) {
        self.changes.borrow_mut().push(change);
    }

    fn now_micros(&mut self) -> u64 {
        0
    }

    fn delay_micros(&mut self, _micros: u64) {}

    fn stage(&mut self, _data: &[u8]) -> u32 {
        0
    }

    fn landing(&mut self, _len: usize) -> u32 {
        0
    }

    fn fetch(&mut self, len: usize) -> Vec<u8> {
        vec![0; len]
    }
}

#[test]
fn a_halt_wakes_who_waits_for_it_and_nobody_else() {
    let script = Script::default();
    let mut port = UsbPort::new(script.clone());
    let mut table = SlotTable::new();
    table.arm(&mut port, 3, Wait::Halt);
    assert_eq!(
        *script.changes.borrow(),
        vec![
            Change::SofMask { unmasked: false },
            Change::ChannelMask { channel: 3, unmasked: true },
        ]
    );
    script.changes.borrow_mut().clear();
    *script.channels.borrow_mut() = 0b1010;
    *script.hcint.borrow_mut() = HCINT_CHH | HCINT_XFRC;
    let wakes = table.on_irq(&mut port);
    let mut expected = [false; 12];
    expected[3] = true;
    assert_eq!(wakes.channels, expected);
    assert!(!wakes.port);
    assert_eq!(
        *script.changes.borrow(),
        vec![Change::AckInterrupts { channel: 3, bits: 0xffff_ffff }]
    );
    assert!(!script.reads.borrow().contains(&Field::Interrupts(1)));
    assert_eq!(table.take_ready(1), None);
    assert_eq!(table.take_ready(3), Some(HCINT_CHH | HCINT_XFRC));
    assert_eq!(table.take_ready(3), None);
    assert_eq!(table.last_interrupt(3), HCINT_CHH | HCINT_XFRC);
    assert_eq!(table.last_interrupt(12), 0);
}

#[test]
fn an_interrupt_that_is_no_halt_leaves_the_wait_alone() {
    let script = Script::default();
    let mut port = UsbPort::new(script.clone());
    let mut table = SlotTable::new();
    table.arm(&mut port, 0, Wait::Halt);
    *script.channels.borrow_mut() = 1;
    *script.hcint.borrow_mut() = HCINT_NAK;
    assert!(!table.on_irq(&mut port).channels[0]);
    assert_eq!(table.take_ready(0), None);
    *script.hcint.borrow_mut() = HCINT_CHH;
    assert!(table.on_irq(&mut port).channels[0]);
    assert_eq!(table.seen_interrupts(0), HCINT_CHH);
    table.arm(&mut port, 0, Wait::Halt);
    *script.hcint.borrow_mut() = HCINT_CHH | HCINT_NAK;
    assert!(table.on_irq(&mut port).channels[0]);
    assert_eq!(table.seen_interrupts(0), HCINT_CHH | HCINT_NAK);
    assert_eq!(table.seen_interrupts(99), 0);
}

#[test]
fn a_frame_wakes_who_waits_for_its_microframe_and_then_is_masked() {
    let script = Script::default();
    let mut port = UsbPort::new(script.clone());
    let mut table = SlotTable::new();
    table.arm(&mut port, 2, Wait::Frame(5));
    assert_eq!(script.changes.borrow()[0], Change::SofMask { unmasked: true });
    *script.global.borrow_mut() = 0x8;
    *script.frame.borrow_mut() = 0x14;
    script.changes.borrow_mut().clear();
    assert!(!table.on_irq(&mut port).channels[2]);
    assert_eq!(*script.changes.borrow(), vec![Change::AckGlobal { bits: 8 }]);
    *script.frame.borrow_mut() = 0x15;
    assert!(table.on_irq(&mut port).channels[2]);
    assert_eq!(script.changes.borrow().last(), Some(&Change::SofMask { unmasked: false }));
    assert_eq!(table.take_ready(2), Some(0));
}

#[test]
fn a_change_at_the_root_port_is_kept_until_it_is_asked_for() {
    let script = Script::default();
    let mut port = UsbPort::new(script.clone());
    let mut table = SlotTable::new();
    assert!(!table.take_port_change());
    *script.global.borrow_mut() = 0x0100_0000;
    assert!(table.on_irq(&mut port).port);
    assert_eq!(
        *script.changes.borrow(),
        vec![Change::Port(PortBits {
            power: true,
            reset: false,
            connect_detected: true,
            enable_changed: true,
            overcurrent_changed: true,
        })]
    );
    assert!(table.take_port_change());
    assert!(!table.take_port_change());
    assert!(table.on_irq(&mut port).port);
    table.clear_port_change();
    assert!(!table.take_port_change());
}

#[test]
fn giving_up_a_wait_masks_what_it_needed() {
    let script = Script::default();
    let mut port = UsbPort::new(script.clone());
    let mut table = SlotTable::new();
    table.arm(&mut port, 1, Wait::Frame(2));
    script.changes.borrow_mut().clear();
    assert!(table.disarm(&mut port, 1));
    assert_eq!(
        *script.changes.borrow(),
        vec![
            Change::SofMask { unmasked: false },
            Change::ChannelMask { channel: 1, unmasked: false },
        ]
    );
    assert!(!table.disarm(&mut port, 1));
}

#[test]
fn a_long_wait_for_microframes_is_hopped() {
    // Ten microframes from the fifth: seven, to the fourth, then three.
    let mut pause = Pause::new(10);
    assert_eq!(pause.next(), Some(Errand::Look));
    pause.tell(Finding::Microframe(5));
    assert_eq!(pause.next(), Some(Errand::Look));
    pause.tell(Finding::Microframe(5));
    assert_eq!(pause.next(), Some(Errand::Await(4)));
    pause.tell(Finding::Arrived);
    assert_eq!(pause.next(), Some(Errand::Look));
    pause.tell(Finding::Microframe(4));
    // The microframe has come before there was a wait for it.
    assert_eq!(pause.next(), Some(Errand::Look));
    pause.tell(Finding::Microframe(7));
    assert_eq!(pause.next(), None);
    assert_eq!(Pause::new(0).next(), None);
}

fn transaction(endpoint_type: EndpointType, transfer_size: u32) -> Transaction {
    Transaction {
        endpoint_number: 1,
        endpoint_type,
        direction_in: true,
        pid: DataPid::Data1,
        transfer_size,
        dma_address: 0x1000,
    }
}

fn reached(split: bool) -> ControlEndpoint {
    ControlEndpoint {
        address: 5,
        low_speed: split,
        max_packet_size: 8,
        split: if split { Some(SplitTarget { hub_address: 2, port: 3 }) } else { None },
    }
}

/// Runs a transaction: the errands it asked for, and what it came to.
fn run(
    endpoint: ControlEndpoint,
    txn: Transaction,
    findings: Vec<Finding>,
) -> (Vec<Errand>, Option<Result<usize, TransferError>>) {
    let mut runner = TransactionRunner::new(endpoint, txn);
    let mut findings: VecDeque<Finding> = findings.into();
    let mut errands = Vec::new();
    loop {
        match runner.next() {
            Next::Over(verdict) => {
                assert!(findings.is_empty());
                return (errands, Some(verdict));
            }
            Next::Run(errand) => {
                errands.push(errand);
                match findings.pop_front() {
                    Some(finding) => runner.tell(finding),
                    None => return (errands, None),
                }
            }
        }
    }
}

#[test]
fn a_plain_transaction_is_one_launch() {
    let txn = transaction(EndpointType::Bulk, 20);
    let hcint = HCINT_CHH | HCINT_XFRC;
    let (errands, verdict) =
        run(reached(false), txn, vec![Finding::Halted(hcint), Finding::Moved(Ok(13))]);
    assert_eq!(
        errands,
        vec![
            Errand::Launch { packet: txn, complete: false, odd: None },
            Errand::Interpret { hcint, requested: 20 },
        ]
    );
    assert_eq!(verdict, Some(Ok(13)));
}

#[test]
fn a_split_transaction_goes_packet_by_packet() {
    let txn = transaction(EndpointType::Control, 10);
    let ack = Finding::Halted(HCINT_CHH | HCINT_ACK);
    let done = Finding::Halted(HCINT_CHH | HCINT_XFRC);
    let (errands, verdict) = run(
        reached(true),
        txn,
        vec![ack, done, Finding::Moved(Ok(8)), ack, done, Finding::Moved(Ok(2))],
    );
    assert_eq!(verdict, Some(Ok(10)));
    let second = Transaction {
        transfer_size: 2,
        dma_address: 0x1008,
        pid: DataPid::Data0,
        ..txn
    };
    assert_eq!(errands[3], Errand::Launch { packet: second, complete: false, odd: None });
    assert_eq!(errands[4], Errand::Launch { packet: second, complete: true, odd: None });
}

#[test]
fn a_translator_that_is_not_done_is_asked_five_microframes_later() {
    let txn = transaction(EndpointType::Bulk, 8);
    let (errands, verdict) = run(
        reached(true),
        txn,
        vec![
            Finding::Halted(HCINT_CHH | HCINT_ACK),
            Finding::Halted(HCINT_CHH | HCINT_NYET),
            Finding::Microframe(6),
            Finding::Microframe(7),
            Finding::Arrived,
            Finding::Halted(HCINT_CHH | HCINT_XFRC),
            Finding::Moved(Ok(3)),
        ],
    );
    assert_eq!(errands[2..5], [Errand::Look, Errand::Look, Errand::Await(3)]);
    assert_eq!(verdict, Some(Ok(3)));
}

#[test]
fn a_periodic_split_avoids_the_sixth_microframe_and_gives_up_in_the_end() {
    let txn = transaction(EndpointType::Interrupt, 8);
    let nyet = Finding::Halted(HCINT_CHH | HCINT_NYET);
    let (errands, verdict) = run(
        reached(true),
        txn,
        vec![
            Finding::Microframe(5),
            Finding::Microframe(7),
            Finding::Halted(HCINT_CHH | HCINT_ACK),
            Finding::Microframe(1),
            nyet,
            Finding::Microframe(2),
            nyet,
            Finding::Microframe(3),
            nyet,
            Finding::Microframe(4),
            nyet,
        ],
    );
    assert_eq!(verdict, Some(Err(TransferError::Nak)));
    assert_eq!(errands[2], Errand::Launch { packet: txn, complete: false, odd: Some(true) });
    assert_eq!(errands[4], Errand::Launch { packet: txn, complete: true, odd: Some(true) });
    assert_eq!(errands[6], Errand::Launch { packet: txn, complete: true, odd: Some(false) });
}

#[test]
fn no_more_is_moved_than_was_asked_for() {
    let txn = transaction(EndpointType::Bulk, 20);
    let (_, verdict) = run(
        reached(false),
        txn,
        vec![Finding::Halted(HCINT_CHH | HCINT_XFRC), Finding::Moved(Ok(21))],
    );
    assert_eq!(verdict, Some(Ok(20)));
}

/// Runs a register script on registers that take what is written to them. The
/// access register of the PHY loses its busy bit at once, unless it is stuck.
fn perform(
    script: &[Instruction],
    registers: &mut Vec<(u16, u32)>,
    stuck: bool,
) -> Result<Vec<u32>, TransferError> {
    let mut runner = Runner::new(script);
    let mut time = 0;
    loop {
        let access = match runner.step() {
            Step::Finished => return Ok(runner.into_values()),
            Step::Failed(error) => return Err(error),
            Step::Do(access) => access,
        };
        let outcome = match access {
            Access::Read(register) => {
                let mut value = 0;
                for (known, word) in registers.iter() {
                    if *known == register {
                        value = *word;
                    }
                }
                if register == 0x114 && !stuck {
                    value &= !1;
                }
                Outcome::Value(value)
            }
            Access::Write(register, value) => {
                registers.push((register, value));
                Outcome::Written
            }
            Access::Clock => {
                time += 400_000;
                Outcome::Time(time)
            }
        };
        runner.advance(outcome);
    }
}

#[test]
fn a_switch_changes_its_bits_and_no_others() {
    let mut registers = vec![(0x100, 0x0010_000c)];
    perform(&switch_steps(0x100, 0x0008_0000, true), &mut registers, false).unwrap();
    assert_eq!(registers.last(), Some(&(0x100, 0x0018_000c)));
    perform(&switch_steps(0x100, 0x0010_0000, false), &mut registers, false).unwrap();
    assert_eq!(registers.last(), Some(&(0x100, 0x0008_000c)));
}

#[test]
fn a_phy_register_is_reached_through_two_others() {
    let mii = Mii { access: 0x114, data: 0x118 };
    let mut registers = vec![(0x118, 0x1234)];
    let values = perform(&phy_read_steps(mii, 5), &mut registers, false).unwrap();
    assert_eq!(values.last(), Some(&0x1234));
    assert!(registers.contains(&(0x114, 0x0941)));
    let mut registers = Vec::new();
    perform(&phy_write_steps(mii, 4, 0x01e1), &mut registers, false).unwrap();
    assert_eq!(registers, vec![(0x118, 0x01e1), (0x114, 0x0903)]);
}

#[test]
fn a_script_that_waits_too_long_fails() {
    let mii = Mii { access: 0x114, data: 0x118 };
    let mut registers = Vec::new();
    let result = perform(&phy_read_steps(mii, 5), &mut registers, true);
    assert_eq!(result, Err(TransferError::Timeout));
}

#[test]
fn a_chip_whose_receives_are_parked_is_started_alike_but_for_empty_reads() {
    let mac = [0x02, 0x11, 0x22, 0x33, 0x44, 0x55];
    let mut polled = reset_steps(false).to_vec();
    polled.extend_from_slice(&negotiate_steps());
    polled.extend_from_slice(&mac_steps(&mac));
    polled.extend_from_slice(&enable_steps());
    let parked = parked_start_steps(&mac);
    assert_eq!(parked.len(), 42);
    for (place, (one, other)) in parked.iter().zip(polled.iter()).enumerate() {
        assert_eq!(one == other, place != 4);
    }
    assert_eq!(parked[4], Instruction::WriteBack { register: 0x080, clear: 0, set: 0x40 });
    assert_eq!(polled[4], Instruction::WriteBack { register: 0x080, clear: 0x40, set: 0 });
}

#[test]
fn an_awaited_read_has_three_stages_and_tries_again_until_it_is_answered() {
    let mut runner = ControlRunner::new(Direction::Read);
    assert_eq!(runner.next(), NextStage::Run(Stage::Setup));
    runner.tell(Ok(0));
    assert_eq!(runner.next(), NextStage::Run(Stage::DataIn));
    runner.tell(Err(TransferError::Nak));
    assert_eq!(runner.next(), NextStage::Run(Stage::DataIn));
    runner.tell(Ok(4));
    assert_eq!(runner.next(), NextStage::Run(Stage::StatusOut));
    runner.tell(Ok(0));
    assert_eq!(runner.next(), NextStage::Over(Ok(4)));
}

#[test]
fn an_awaited_write_ends_with_an_empty_read_and_stops_at_an_error() {
    let mut runner = ControlRunner::new(Direction::Write);
    runner.tell(Ok(0));
    assert_eq!(runner.next(), NextStage::Run(Stage::DataOut));
    runner.tell(Ok(0));
    assert_eq!(runner.next(), NextStage::Run(Stage::StatusIn));
    runner.tell(Err(TransferError::Stall));
    assert_eq!(runner.next(), NextStage::Over(Err(TransferError::Stall)));
}

#[test]
fn an_awaited_stage_that_is_never_answered_times_out() {
    let mut runner = ControlRunner::new(Direction::Read);
    for _ in 0..9_999 {
        runner.tell(Err(TransferError::Nak));
    }
    assert_eq!(runner.next(), NextStage::Run(Stage::Setup));
    runner.tell(Err(TransferError::Nak));
    assert_eq!(runner.next(), NextStage::Over(Err(TransferError::NakTimeout)));
}

#[test]
fn a_vendor_request_says_which_way_its_data_goes() {
    assert_eq!(vendor_setup(true, 0xa1, 0, 0x18, 4).to_bytes(), [0xc0, 0xa1, 0, 0, 0x18, 0, 4, 0]);
    assert_eq!(vendor_setup(false, 0xa0, 0, 0x118, 4).to_bytes(), [0x40, 0xa0, 0, 0, 0x18, 1, 4, 0]);
}
