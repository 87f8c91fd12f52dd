//! The decoder against a firmware that answers from a script.

use std::cell::RefCell;
use std::collections::VecDeque;
use std::rc::Rc;

use rpi_hal::mmal::{
    Component, Encoding, EsType, Event, FormatChanged, Mmal, MmalClient, MmalError, PortAction,
    PortEvent, PortInfo, PortType, VideoFormat, BUFFER_FLAG_EOS, TIME_UNKNOWN,
};
use rpi_hal::video_decode::{Error, FrameFormat, VideoDecoder};

const INPUT: u32 = 100;
const OUTPUT: u32 = 200;

#[derive(Default)]
struct State {
    calls: Vec<String>,
    /// The call with this text fails.
    fails: Option<&'static str>,
    sent: Vec<(u32, Vec<u8>, usize, u32, i64)>,
    reports: VecDeque<Event>,
    changed: Option<FormatChanged>,
    set: Vec<PortInfo>,
    time: u64,
}

#[derive(Clone, Default)]
struct Client(Rc<RefCell<State>>);

fn video() -> VideoFormat {
    VideoFormat {
        width: 64,
        height: 32,
        crop_width: 60,
        crop_height: -1,
        frame_rate_num: 25,
        frame_rate_den: 1,
    }
}

impl Client {
    fn call(&self, text: String) -> Result<(), MmalError> {
        let mut state = self.0.borrow_mut();
        let fails = state.fails == Some(text.as_str());
        state.calls.push(text);
        if fails {
            Err(MmalError(7))
        } else {
            Ok(())
        }
    }

    fn decoder(&self) -> VideoDecoder<Client> {
        VideoDecoder::new(Mmal::new(self.clone())).ok().unwrap()
    }

    /// A decoder with two buffers for each port, that has been started.
    fn started(&self) -> VideoDecoder<Client> {
        let mut decoder = self.decoder();
        for _ in 0..2 {
            decoder.add_input_buffer(vec![0; 100]).unwrap();
            decoder.add_output_buffer(vec![0; 4000]).unwrap();
        }
        decoder.start().unwrap();
        decoder
    }

    fn report(&self, event: Event) {
        self.0.borrow_mut().reports.push_back(event);
    }

    fn change_format(&self, size_min: u32, size_recommended: u32) {
        self.0.borrow_mut().changed = Some(FormatChanged {
            buffer_num_min: 1,
            buffer_size_min: size_min,
            buffer_size_recommended: size_recommended,
            video: video(),
        });
        self.report(Event::Port(PortEvent::FormatChanged));
    }

    fn give_back(&self, port: u32, length: usize, flags: u32, pts: i64) {
        let mut state = self.0.borrow_mut();
        let place = state.sent.iter().position(|sent| sent.0 == port).unwrap();
        let (_, buffer, _, _, _) = state.sent.remove(place);
        state.reports.push_back(Event::Buffer { port, buffer, length, flags, pts });
    }
}

impl MmalClient for Client {
    fn component_create(&mut self, name: &str) -> Result<Component, MmalError> {
        self.call(format!("create {name}"))?;
        Ok(Component { handle: 5 })
    }

    fn component_enable(&mut self, component: &Component) -> Result<(), MmalError> {
        self.call(format!("enable {}", component.handle))
    }

    fn port_info_get(&mut self, _component: &Component, kind: PortType, index: u32) -> Result<PortInfo, MmalError> {
        assert_eq!(index, 0);
        let (name, handle) = match kind {
            PortType::Input => ("input", INPUT),
            PortType::Output => ("output", OUTPUT),
        };
        self.call(format!("get {name}"))?;
        Ok(PortInfo {
            handle,
            enabled: false,
            buffer_num: 1,
            buffer_num_min: 1,
            buffer_size: 50,
            buffer_size_min: 50,
            es_type: EsType::Other(0),
            encoding: Encoding::Other(9),
            encoding_variant: 9,
            video: video(),
        })
    }

    fn port_info_set(&mut self, port: &mut PortInfo) -> Result<(), MmalError> {
        self.0.borrow_mut().set.push(*port);
        self.call(format!("set {}", port.handle))
    }

    fn port_action(&mut self, port: &PortInfo, action: PortAction) -> Result<(), MmalError> {
        let word = match action {
            PortAction::Enable => "open",
            PortAction::Disable => "close",
        };
        self.call(format!("{word} {}", port.handle))
    }

    fn send_buffer(&mut self, port: &PortInfo, buffer: Vec<u8>, length: usize, flags: u32, pts: i64) -> Result<(), MmalError> {
        self.call(format!("send {}", port.handle))?;
        self.0.borrow_mut().sent.push((port.handle, buffer, length, flags, pts));
        Ok(())
    }

    fn poll(&mut self) -> Result<Option<Event>, MmalError> {
        let mut state = self.0.borrow_mut();
        if state.fails == Some("poll") {
            return Err(MmalError(8));
        }
        Ok(state.reports.pop_front())
    }

    fn format_changed(&mut self) -> Option<FormatChanged> {
        self.0.borrow_mut().changed.take()
    }

    fn now_micros(&mut self) -> u64 {
        let mut state = self.0.borrow_mut();
        state.time += 100_000;
        state.time
    }
}

#[test]
fn a_decoder_is_created_and_started_in_order() {
    let client = Client::default();
    let mut decoder = client.started();
    assert_eq!(
        client.0.borrow().calls,
        vec![
            format!("create ril.video_decode"),
            format!("get input"),
            format!("get output"),
            format!("set 100"),
            format!("set 200"),
            format!("enable 5"),
            format!("open 200"),
            format!("open 100"),
        ]
    );
    let input = client.0.borrow().set[0];
    assert_eq!((input.es_type, input.encoding, input.encoding_variant), (EsType::Video, Encoding::H264, 0));
    assert_eq!((input.buffer_num, input.buffer_size), (2, 100));
    let output = client.0.borrow().set[1];
    assert_eq!((output.encoding, output.buffer_num), (Encoding::I420, 2));
    assert!(decoder.input_port().enabled && decoder.output_port().enabled);
    assert_eq!(decoder.start(), Err(Error::WrongState));
    assert_eq!(decoder.format(), None);
    assert!(!decoder.end_of_stream());
    assert!(decoder.mmal().poll().is_ok());
}

#[test]
fn creating_and_starting_can_fail_at_each_step() {
    for step in ["create ril.video_decode", "get input", "get output"] {
        let client = Client::default();
        client.0.borrow_mut().fails = Some(step);
        let (error, mmal) = VideoDecoder::new(Mmal::new(client.clone())).err().unwrap();
        assert_eq!(error, Error::Mmal(MmalError(7)));
        assert_eq!(client.0.borrow().calls.last().unwrap(), step);
        client.0.borrow_mut().fails = None;
        assert!(VideoDecoder::new(mmal).is_ok());
    }
    for step in ["set 100", "set 200", "enable 5", "open 200", "open 100"] {
        let client = Client::default();
        let mut decoder = client.decoder();
        decoder.add_input_buffer(vec![0; 100]).unwrap();
        decoder.add_output_buffer(vec![0; 100]).unwrap();
        client.0.borrow_mut().fails = Some(step);
        assert_eq!(decoder.start(), Err(Error::from(MmalError(7))));
    }
}

#[test]
fn a_decoder_needs_buffers_that_are_large_enough() {
    let client = Client::default();
    let mut decoder = client.decoder();
    assert_eq!(decoder.start(), Err(Error::NoBuffers));
    decoder.add_input_buffer(vec![0; 49]).unwrap();
    assert_eq!(decoder.start(), Err(Error::NoBuffers));
    decoder.add_output_buffer(vec![0; 10]).unwrap();
    assert_eq!(decoder.start(), Err(Error::BufferTooSmall { provided: 49, required: 50 }));
    for _ in 0..5 {
        decoder.add_input_buffer(vec![0; 100]).unwrap();
    }
    assert_eq!(decoder.add_input_buffer(vec![0; 100]), Err(Error::TooManyBuffers));
}

#[test]
fn data_is_fed_a_buffer_at_a_time() {
    let client = Client::default();
    let mut decoder = client.decoder();
    assert_eq!(decoder.feed(&[1], 0, 0), Err(Error::WrongState));
    assert_eq!(decoder.finish(), Err(Error::WrongState));
    let mut decoder = client.started();
    assert_eq!(decoder.feed(&[], 0, 0), Ok(0));
    assert_eq!(decoder.feed(&[1; 150], 4, 33), Ok(100));
    assert_eq!(decoder.feed(&[2; 50], 4, 34), Ok(50));
    assert_eq!(decoder.feed(&[3; 50], 4, 35), Ok(0));
    assert_eq!(decoder.finish(), Err(Error::WrongState));
    {
        let state = client.0.borrow();
        assert_eq!(state.sent[0], (INPUT, vec![1; 100], 100, 4, 33));
        assert_eq!((state.sent[1].1[49], state.sent[1].1[50], state.sent[1].2), (2, 0, 50));
    }
    client.give_back(INPUT, 0, 0, 0);
    assert!(decoder.poll().unwrap().is_none());
    assert_eq!(decoder.finish(), Ok(()));
    let state = client.0.borrow();
    let last = state.sent.last().unwrap();
    assert_eq!((last.0, last.2, last.3, last.4), (INPUT, 0, BUFFER_FLAG_EOS, TIME_UNKNOWN));
}

#[test]
fn a_format_opens_the_output_and_frames_come_out() {
    let client = Client::default();
    let mut decoder = client.started();
    client.change_format(3072, 3000);
    assert!(decoder.poll().unwrap().is_none());
    let format = FrameFormat {
        width: 64,
        height: 32,
        crop_width: 60,
        crop_height: 0,
        frame_rate_num: 25,
        frame_rate_den: 1,
        frame_size: 3072,
    };
    assert_eq!(decoder.format(), Some(format));
    assert_eq!((format.u_offset(), format.v_offset()), (2048, 2560));
    let calls = client.0.borrow().calls.clone();
    assert_eq!(
        calls[8..],
        [
            format!("close 200"),
            format!("get output"),
            format!("set 200"),
            format!("open 200"),
            format!("send 200"),
            format!("send 200"),
        ]
    );
    assert_eq!(client.0.borrow().set[2].buffer_size, 4000);
    client.give_back(OUTPUT, 3072, 0, 99);
    let frame = decoder.poll().unwrap().unwrap();
    assert_eq!((frame.length, frame.pts, frame.flags, frame.format), (3072, 99, 0, format));
    assert!(decoder.poll().unwrap().is_none());
    // A frame that is done with goes back to the firmware.
    let before = client.0.borrow().sent.len();
    assert_eq!(decoder.recycle(frame), Ok(()));
    assert_eq!(client.0.borrow().sent.len(), before + 1);
    // A buffer that comes back empty goes out again at once.
    client.give_back(OUTPUT, 0, 0, 0);
    assert!(decoder.poll().unwrap().is_none());
    assert_eq!(client.0.borrow().sent.len(), before + 1);
}

#[test]
fn the_end_of_a_stream_is_noticed_either_way() {
    let client = Client::default();
    let mut decoder = client.started();
    client.report(Event::Port(PortEvent::Other(3)));
    client.report(Event::Port(PortEvent::EndOfStream));
    assert!(decoder.poll().unwrap().is_none());
    assert!(decoder.end_of_stream());

    let client = Client::default();
    let mut decoder = client.started();
    client.change_format(3072, 3072);
    assert!(decoder.poll().unwrap().is_none());
    client.give_back(OUTPUT, 3072, BUFFER_FLAG_EOS, 0);
    assert!(decoder.poll().unwrap().is_some());
    assert!(decoder.end_of_stream());
}

#[test]
fn the_end_of_a_stream_is_noticed_while_the_output_is_reconfigured() {
    for by_flag in [true, false] {
        let client = Client::default();
        let mut decoder = client.started();
        client.change_format(3072, 3072);
        assert!(decoder.poll().unwrap().is_none());
        client.change_format(3072, 3072);
        if by_flag {
            client.give_back(OUTPUT, 0, BUFFER_FLAG_EOS, 0);
        } else {
            client.report(Event::Port(PortEvent::EndOfStream));
            client.give_back(OUTPUT, 0, 0, 0);
        }
        client.give_back(OUTPUT, 0, 0, 0);
        assert!(decoder.poll().unwrap().is_none());
        assert!(decoder.end_of_stream());
    }
}

#[test]
fn a_format_that_needs_larger_buffers_is_refused() {
    let client = Client::default();
    let mut decoder = client.started();
    client.change_format(100, 4001);
    assert_eq!(
        decoder.poll().err(),
        Some(Error::BufferTooSmall { provided: 4000, required: 4001 })
    );
}

#[test]
fn a_format_is_taken_while_every_output_buffer_is_held() {
    let client = Client::default();
    let mut decoder = client.started();
    client.change_format(3072, 3072);
    assert!(decoder.poll().unwrap().is_none());
    client.give_back(OUTPUT, 3072, 0, 1);
    client.give_back(OUTPUT, 3072, 0, 2);
    let first = decoder.poll().unwrap().unwrap();
    let second = decoder.poll().unwrap().unwrap();
    client.change_format(3500, 3600);
    assert!(decoder.poll().unwrap().is_none());
    assert_eq!(client.0.borrow().set.last().unwrap().buffer_size, 3600);
    assert_eq!(client.0.borrow().sent.len(), 0);
    assert_eq!(decoder.recycle(first), Ok(()));
    assert_eq!(decoder.recycle(second), Ok(()));
    assert_eq!(client.0.borrow().sent.len(), 2);
}

#[test]
fn a_buffer_too_small_for_the_format_is_told_when_it_comes_back() {
    let client = Client::default();
    let mut decoder = client.started();
    client.change_format(3072, 3072);
    assert!(decoder.poll().unwrap().is_none());
    client.give_back(OUTPUT, 3072, 0, 1);
    client.give_back(OUTPUT, 3072, 0, 2);
    let mut short = decoder.poll().unwrap().unwrap();
    let long = decoder.poll().unwrap().unwrap();
    short.buffer.truncate(3500);
    client.change_format(3600, 3072);
    assert!(decoder.poll().unwrap().is_none());
    let too_small = Err(Error::BufferTooSmall { provided: 3500, required: 3600 });
    assert_eq!(decoder.recycle(short), too_small);
    assert_eq!(client.0.borrow().sent.len(), 0);
    // One that is large enough goes out all the same; the short one still waits.
    assert_eq!(decoder.recycle(long), too_small);
    assert_eq!(client.0.borrow().sent.len(), 1);
    assert_eq!(client.0.borrow().sent[0].1.len(), 4000);
    // For a smaller format it will do.
    client.change_format(3500, 3500);
    client.give_back(OUTPUT, 0, 0, 0);
    assert!(decoder.poll().unwrap().is_none());
    assert_eq!(client.0.borrow().sent.len(), 2);
}

#[test]
fn a_change_of_format_waits_for_the_buffers_that_are_out() {
    let client = Client::default();
    let mut decoder = client.started();
    client.change_format(3072, 3072);
    assert!(decoder.poll().unwrap().is_none());
    client.change_format(3072, 3072);
    client.give_back(OUTPUT, 0, 0, 0);
    client.give_back(OUTPUT, 0, 0, 0);
    assert!(decoder.poll().unwrap().is_none());
    assert_eq!(client.0.borrow().sent.len(), 2);
    // One that never comes back is given up in the end, and the others go out.
    client.change_format(3072, 3072);
    client.give_back(OUTPUT, 0, 0, 0);
    assert!(decoder.poll().unwrap().is_none());
    let state = client.0.borrow();
    assert_eq!(state.sent.len(), 2);
    assert!(state.time > 2_000_000);
}

#[test]
fn errors_of_the_component_and_of_the_way_to_it_are_told() {
    let client = Client::default();
    let mut decoder = client.started();
    client.report(Event::Port(PortEvent::Error));
    assert_eq!(decoder.poll().err(), Some(Error::DecoderError));
    client.0.borrow_mut().fails = Some("poll");
    assert_eq!(decoder.poll().err(), Some(Error::Mmal(MmalError(8))));
    client.0.borrow_mut().fails = Some("send 100");
    assert_eq!(decoder.feed(&[1], 0, 0), Err(Error::Mmal(MmalError(7))));
}
