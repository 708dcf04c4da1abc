use dsp_test::input;
use dsp_test::output::{
    check_device, drain_commands, handle_message, process_frame, publish_state, Channel, Command, ControlMessage,
    DeviceError, OutputBuffer, OutputMap, DEVICE_CHANNELS, EVENT_UPDATE_INTERVAL, SAMPLE_RATE,
};
use dsp_test::scalar::Scalar;
use dsp_test::{Module, BUFFER_SIZE, RINGBUFFER_CAPACITY};
use rtrb::RingBuffer;

fn sc(x: f32) -> Scalar {
    Scalar::from_bits(x.to_bits())
}

fn value(s: Scalar) -> f32 {
    f32::from_bits(s.to_bits())
}

struct Through<const N: usize> {
    values: [Scalar; N],
}

impl<const N: usize> Module<N, N> for Through<N> {
    fn map_inputs(&mut self, input_buffer: &[Scalar; N]) {
        self.values.copy_from_slice(input_buffer);
    }

    fn map_outputs(&mut self, output_buffer: &mut [Scalar; N]) {
        output_buffer.copy_from_slice(&self.values);
    }
}

#[test]
fn constants() {
    assert_eq!(EVENT_UPDATE_INTERVAL, 1024);
    assert_eq!(SAMPLE_RATE, 48_000);
    assert_eq!(BUFFER_SIZE, 8192);
    assert_eq!(RINGBUFFER_CAPACITY, 64);
}

#[test]
fn new_buffer_is_silent() {
    let b: OutputBuffer<2, 4> = OutputBuffer::new();
    assert_eq!(b.index(), 0);
    assert_eq!(b.counter(), 0);
    for c in 0..2 {
        for s in 0..4 {
            assert_eq!(value(b.get(c, s)), 0.0);
        }
    }
}

#[test]
fn record_writes_the_frame_and_moves_on() {
    let mut b: OutputBuffer<2, 4> = OutputBuffer::new();
    b.record(&[sc(0.5), sc(-0.5)]);
    assert_eq!(b.index(), 1);
    assert_eq!(b.counter(), 1);
    assert_eq!(value(b.get(0, 0)), 0.5);
    assert_eq!(value(b.get(1, 0)), -0.5);
    for s in 1..4 {
        assert_eq!(value(b.get(0, s)), 0.0);
        assert_eq!(value(b.get(1, s)), 0.0);
    }
}

#[test]
fn record_wraps_and_overwrites_the_oldest_frame() {
    let mut b: OutputBuffer<1, 3> = OutputBuffer::new();
    for k in 1..=5 {
        b.record(&[sc(k as f32)]);
    }
    assert_eq!(b.index(), 2);
    assert_eq!(b.counter(), 5);
    assert_eq!(value(b.get(0, 0)), 4.0);
    assert_eq!(value(b.get(0, 1)), 5.0);
    assert_eq!(value(b.get(0, 2)), 3.0);
}

#[test]
fn every_slot_holds_a_whole_frame() {
    let mut b: OutputBuffer<3, 5> = OutputBuffer::new();
    for k in 1..=23u32 {
        let x = Scalar::from_bits(k);
        b.record(&[x, x, x]);
        for s in 0..5 {
            assert_eq!(b.get(0, s), b.get(1, s));
            assert_eq!(b.get(1, s), b.get(2, s));
        }
    }
}

#[test]
fn snapshot_copies_one_channel_and_resets_the_count() {
    let mut b: OutputBuffer<2, 4> = OutputBuffer::new();
    for k in 1..=6 {
        b.record(&[sc(k as f32), sc(-(k as f32))]);
    }
    let s = b.snapshot(1);
    assert_eq!(s.write_index, 2);
    assert_eq!(s.elapsed, 6);
    let got: Vec<f32> = s.samples.iter().map(|x| value(*x)).collect();
    assert_eq!(got, vec![-5.0, -6.0, -3.0, -4.0]);
    let oldest_first: Vec<f32> = s.window(s.write_index).iter().map(|x| value(*x)).collect();
    assert_eq!(oldest_first, vec![-3.0, -4.0, -5.0, -6.0]);
    assert_eq!(b.counter(), 0);
    assert_eq!(b.index(), 2);
    assert_eq!(value(b.get(0, 1)), 6.0);

    let again = b.snapshot(0);
    assert_eq!(again.elapsed, 0);
    assert_eq!(again.write_index, 2);
}

#[test]
fn report_is_due_at_multiples_of_the_interval() {
    let mut b: OutputBuffer<1, 2048> = OutputBuffer::new();
    assert!(b.report_due());
    b.record(&[Scalar::zero()]);
    assert!(!b.report_due());
    for _ in 1..1024 {
        b.record(&[Scalar::zero()]);
    }
    assert_eq!(b.index(), 1024);
    assert!(b.report_due());
    for _ in 0..1023 {
        b.record(&[Scalar::zero()]);
    }
    assert_eq!(b.index(), 2047);
    assert!(!b.report_due());
    b.record(&[Scalar::zero()]);
    assert_eq!(b.index(), 0);
    assert!(b.report_due());
}

#[test]
fn output_map_names_and_default() {
    assert!(OutputMap::default() == OutputMap::Both);
    assert_eq!(OutputMap::Both.to_string(), "L+R");
    assert_eq!(OutputMap::Left.to_string(), "L");
    assert_eq!(OutputMap::Right.to_string(), "R");
}

#[test]
fn output_map_feeds() {
    assert!(OutputMap::Both.feeds_left() && OutputMap::Both.feeds_right());
    assert!(OutputMap::Left.feeds_left() && !OutputMap::Left.feeds_right());
    assert!(!OutputMap::Right.feeds_left() && OutputMap::Right.feeds_right());
}

#[test]
fn new_output_channel_has_the_defaults() {
    let c = Channel::new();
    assert!(c.output_map == OutputMap::Both);
    assert_eq!(value(c.volume), 0.5);
    assert!(c.enabled);
}

#[test]
fn output_commands_set_their_own_field() {
    let mut c = Channel::new();
    c.handle_command(Command::SetMap(OutputMap::Left));
    assert!(c.output_map == OutputMap::Left);
    assert_eq!(value(c.volume), 0.5);
    c.handle_command(Command::SetVolume(sc(0.25)));
    assert_eq!(value(c.volume), 0.25);
    assert!(c.output_map == OutputMap::Left);
    c.handle_command(Command::SetDisabled);
    assert!(!c.enabled);
    c.handle_command(Command::SetEnabled);
    assert!(c.enabled);
    assert_eq!(value(c.volume), 0.25);
}

#[test]
fn targets_follow_map_and_enable() {
    let mut c = Channel::new();
    assert_eq!(c.targets(), (true, true));
    c.handle_command(Command::SetMap(OutputMap::Left));
    assert_eq!(c.targets(), (true, false));
    c.handle_command(Command::SetMap(OutputMap::Right));
    assert_eq!(c.targets(), (false, true));
    c.handle_command(Command::SetDisabled);
    assert_eq!(c.targets(), (false, false));
    c.handle_command(Command::SetMap(OutputMap::Both));
    assert_eq!(c.targets(), (false, false));
}

#[test]
fn message_reaches_the_channel_it_names() {
    let mut inputs = [input::Channel::new(); 3];
    let mut outputs = [Channel::new(); 2];
    let applied = handle_message(
        &mut inputs,
        &mut outputs,
        ControlMessage::InputControl { channel: 2, command: input::Command::SetScale(sc(0.25)) },
    );
    assert!(applied);
    assert_eq!(value(inputs[2].scale), 0.25);
    assert_eq!(value(inputs[0].scale), 1.0);
    assert_eq!(value(inputs[1].scale), 1.0);

    let applied = handle_message(
        &mut inputs,
        &mut outputs,
        ControlMessage::OutputControl { channel: 0, command: Command::SetMap(OutputMap::Right) },
    );
    assert!(applied);
    assert!(outputs[0].output_map == OutputMap::Right);
    assert!(outputs[1].output_map == OutputMap::Both);
    assert_eq!(value(inputs[2].scale), 0.25);
}

#[test]
fn message_for_no_channel_changes_nothing() {
    let mut inputs = [input::Channel::new(); 2];
    let mut outputs = [Channel::new(); 1];
    let applied = handle_message(
        &mut inputs,
        &mut outputs,
        ControlMessage::InputControl { channel: 2, command: input::Command::SetDisabled },
    );
    assert!(!applied);
    let applied = handle_message(
        &mut inputs,
        &mut outputs,
        ControlMessage::OutputControl { channel: 1, command: Command::SetDisabled },
    );
    assert!(!applied);
    assert!(inputs[0].enabled && inputs[1].enabled && outputs[0].enabled);
}

#[test]
fn drain_applies_pending_messages_in_order() {
    let (mut tx, mut rx) = RingBuffer::<ControlMessage>::new(8);
    let mut inputs = [input::Channel::new(); 2];
    let mut outputs = [Channel::new(); 2];
    tx.push(ControlMessage::InputControl { channel: 0, command: input::Command::SetFrequency(sc(0.1)) }).unwrap();
    tx.push(ControlMessage::OutputControl { channel: 1, command: Command::SetVolume(sc(1.0)) }).unwrap();
    tx.push(ControlMessage::InputControl { channel: 0, command: input::Command::SetFrequency(sc(0.2)) }).unwrap();
    tx.push(ControlMessage::InputControl { channel: 1, command: input::Command::SetWave(input::Wave::Const) }).unwrap();

    assert!(drain_commands(&mut rx, &mut inputs, &mut outputs).is_none());
    assert_eq!(rx.slots(), 0);
    assert_eq!(value(inputs[0].frequency), 0.2);
    assert!(matches!(inputs[1].wave, input::Wave::Const));
    assert!(matches!(inputs[0].wave, input::Wave::Sine));
    assert_eq!(value(outputs[1].volume), 1.0);
    assert_eq!(value(outputs[0].volume), 0.5);
}

#[test]
fn drain_of_an_empty_queue_changes_nothing() {
    let (_tx, mut rx) = RingBuffer::<ControlMessage>::new(4);
    let mut inputs = [input::Channel::new(); 1];
    let mut outputs = [Channel::new(); 1];
    assert!(drain_commands(&mut rx, &mut inputs, &mut outputs).is_none());
    assert_eq!(value(inputs[0].frequency), 0.0022);
    assert!(outputs[0].enabled);
}

#[test]
fn drain_stops_at_a_message_for_no_channel() {
    let (mut tx, mut rx) = RingBuffer::<ControlMessage>::new(8);
    let mut inputs = [input::Channel::new(); 1];
    let mut outputs = [Channel::new(); 1];
    tx.push(ControlMessage::OutputControl { channel: 0, command: Command::SetDisabled }).unwrap();
    tx.push(ControlMessage::InputControl { channel: 5, command: input::Command::SetDisabled }).unwrap();
    tx.push(ControlMessage::InputControl { channel: 0, command: input::Command::SetDisabled }).unwrap();

    let rejected = drain_commands(&mut rx, &mut inputs, &mut outputs);
    assert!(matches!(rejected, Some(ControlMessage::InputControl { channel: 5, .. })));
    assert!(!outputs[0].enabled);
    assert!(inputs[0].enabled);
    assert_eq!(rx.slots(), 1);

    assert!(drain_commands(&mut rx, &mut inputs, &mut outputs).is_none());
    assert!(!inputs[0].enabled);
}

#[test]
fn full_command_queue_drops_the_push() {
    let (mut tx, mut rx) = RingBuffer::<ControlMessage>::new(RINGBUFFER_CAPACITY);
    for _ in 0..RINGBUFFER_CAPACITY {
        tx.push(ControlMessage::InputControl { channel: 0, command: input::Command::SetDisabled }).unwrap();
    }
    assert!(tx.push(ControlMessage::InputControl { channel: 0, command: input::Command::SetEnabled }).is_err());
    let mut inputs = [input::Channel::new(); 1];
    let mut outputs = [Channel::new(); 1];
    assert!(drain_commands(&mut rx, &mut inputs, &mut outputs).is_none());
    assert!(!inputs[0].enabled);
    assert_eq!(rx.slots(), 0);
}

#[test]
fn state_is_published_when_due() {
    let (mut tx, mut rx) = RingBuffer::<input::Event<2>>::new(2);
    let capture: OutputBuffer<1, 8> = OutputBuffer::new();
    let mut inputs = [input::Channel::new(); 2];
    inputs[1].handle_command(input::Command::SetScale(sc(0.125)));

    assert!(publish_state(&mut tx, &capture, &inputs));
    let input::Event::State(seen) = rx.pop().unwrap();
    assert_eq!(value(seen[0].scale), 1.0);
    assert_eq!(value(seen[1].scale), 0.125);
    assert!(rx.pop().is_err());
}

#[test]
fn state_is_not_published_between_intervals() {
    let (mut tx, mut rx) = RingBuffer::<input::Event<1>>::new(2);
    let mut capture: OutputBuffer<1, 8> = OutputBuffer::new();
    capture.record(&[Scalar::zero()]);
    let inputs = [input::Channel::new(); 1];
    assert!(!publish_state(&mut tx, &capture, &inputs));
    assert!(rx.pop().is_err());
}

#[test]
fn a_full_event_queue_loses_the_report() {
    let (mut tx, mut rx) = RingBuffer::<input::Event<1>>::new(1);
    let capture: OutputBuffer<1, 8> = OutputBuffer::new();
    let mut inputs = [input::Channel::new(); 1];
    assert!(publish_state(&mut tx, &capture, &inputs));
    inputs[0].handle_command(input::Command::SetDisabled);
    assert!(publish_state(&mut tx, &capture, &inputs));
    let input::Event::State(seen) = rx.pop().unwrap();
    assert!(seen[0].enabled);
    assert!(rx.pop().is_err());
}

#[test]
fn frame_goes_through_the_module_into_the_capture() {
    let mut module = Through { values: [Scalar::zero(); 2] };
    let mut capture: OutputBuffer<2, 4> = OutputBuffer::new();
    let out = process_frame(&mut module, &[sc(0.25), sc(-0.75)], &mut capture);
    assert_eq!(value(out[0]), 0.25);
    assert_eq!(value(out[1]), -0.75);
    assert_eq!(value(capture.get(0, 0)), 0.25);
    assert_eq!(value(capture.get(1, 0)), -0.75);
    assert_eq!(capture.index(), 1);
    assert_eq!(capture.counter(), 1);
}

#[test]
fn identity_module_captures_the_sine_sample_for_sample() {
    const SIZE: usize = 256;
    let frequency = 0.0022f32;
    let mut module = Through { values: [Scalar::zero(); 1] };
    let mut capture: OutputBuffer<1, SIZE> = OutputBuffer::new();
    let mut phase = 0.0f32;
    let mut expected = [0.0f32; SIZE];
    let blocks = 5;
    let frames_per_block = 96;
    for n in 0..blocks * frames_per_block {
        phase += frequency;
        if phase >= 1.0 {
            phase -= 1.0;
        }
        let x = (2.0 * std::f32::consts::PI * phase).sin();
        expected[n % SIZE] = x;
        process_frame(&mut module, &[sc(x)], &mut capture);
    }
    assert_eq!(capture.index(), (blocks * frames_per_block) % SIZE);
    assert_eq!(capture.counter(), blocks * frames_per_block);
    for s in 0..SIZE {
        assert_eq!(value(capture.get(0, s)), expected[s]);
    }
    let snapshot = capture.snapshot(0);
    let newest = snapshot.window(snapshot.write_index)[SIZE - 1];
    assert_eq!(value(newest), expected[(blocks * frames_per_block - 1) % SIZE]);
}

#[test]
fn device_needs_two_channels_and_float_samples() {
    assert_eq!(DEVICE_CHANNELS, 2);
    assert_eq!(check_device(2, 1, true), Ok(()));
    assert_eq!(check_device(2, 2, true), Ok(()));
    assert_eq!(check_device(8, 2, true), Ok(()));
    assert_eq!(check_device(2, 0, true), Ok(()));
    assert_eq!(check_device(1, 1, true), Err(DeviceError::TooFewChannels));
    assert_eq!(check_device(0, 0, true), Err(DeviceError::TooFewChannels));
    assert_eq!(check_device(0, 1, false), Err(DeviceError::TooFewChannels));
    assert_eq!(check_device(2, 2, false), Err(DeviceError::SampleFormat));
}

#[test]
fn device_needs_a_channel_for_each_logical_output() {
    assert_eq!(check_device(2, 3, true), Err(DeviceError::TooFewChannels));
    assert_eq!(check_device(4, 5, true), Err(DeviceError::TooFewChannels));
    assert_eq!(check_device(7, 8, true), Err(DeviceError::TooFewChannels));
    assert_eq!(check_device(usize::MAX - 1, usize::MAX, true), Err(DeviceError::TooFewChannels));
    assert_eq!(check_device(3, 3, true), Ok(()));
    assert_eq!(check_device(8, 8, true), Ok(()));
    assert_eq!(check_device(usize::MAX, usize::MAX, true), Ok(()));
}

#[test]
fn channel_count_is_looked_at_before_the_format() {
    assert_eq!(check_device(2, 3, false), Err(DeviceError::TooFewChannels));
    assert_eq!(check_device(1, 0, false), Err(DeviceError::TooFewChannels));
    assert_eq!(check_device(3, 3, false), Err(DeviceError::SampleFormat));
    assert_eq!(check_device(4, 3, false), Err(DeviceError::SampleFormat));
}

#[test]
fn messages_for_different_channels_do_not_interfere() {
    let a = ControlMessage::InputControl { channel: 0, command: input::Command::SetScale(sc(0.25)) };
    let b = ControlMessage::InputControl { channel: 1, command: input::Command::SetScale(sc(0.75)) };
    let c = ControlMessage::OutputControl { channel: 0, command: Command::SetVolume(sc(0.125)) };
    let orders = [[a, b, c], [a, c, b], [b, a, c], [b, c, a], [c, a, b], [c, b, a]];
    for order in orders {
        let mut inputs = [input::Channel::new(); 2];
        let mut outputs = [Channel::new(); 1];
        for message in order {
            assert!(handle_message(&mut inputs, &mut outputs, message));
        }
        assert_eq!(value(inputs[0].scale), 0.25);
        assert_eq!(value(inputs[1].scale), 0.75);
        assert_eq!(value(outputs[0].volume), 0.125);
    }
}

#[test]
fn window_from_the_write_index_lists_the_latest_frames() {
    let mut capture: OutputBuffer<2, 4> = OutputBuffer::new();
    for k in 1..=11u32 {
        capture.record(&[Scalar::from_bits(k), Scalar::from_bits(100 + k)]);
    }
    let left = capture.snapshot(0);
    let seen: Vec<u32> = left.window(left.write_index).iter().map(|s| s.to_bits()).collect();
    assert_eq!(seen, vec![8, 9, 10, 11]);
    let right = capture.snapshot(1);
    let seen: Vec<u32> = right.window(right.write_index).iter().map(|s| s.to_bits()).collect();
    assert_eq!(seen, vec![108, 109, 110, 111]);
    assert_eq!(left.elapsed, 11);
    assert_eq!(right.elapsed, 0);
}

#[test]
fn a_ring_not_yet_full_keeps_zeros_in_unwritten_slots() {
    let mut capture: OutputBuffer<1, 4> = OutputBuffer::new();
    capture.record(&[Scalar::from_bits(7)]);
    capture.record(&[Scalar::from_bits(8)]);
    let s = capture.snapshot(0);
    let seen: Vec<u32> = s.window(s.write_index).iter().map(|x| x.to_bits()).collect();
    assert_eq!(seen, vec![0, 0, 7, 8]);
}

#[test]
fn a_block_moves_index_and_count_by_its_frames() {
    for frames in [0usize, 1, 3, 5, 8, 13] {
        let mut capture: OutputBuffer<2, 8> = OutputBuffer::new();
        for k in 0..5u32 {
            capture.record(&[Scalar::from_bits(900 + k), Scalar::from_bits(950 + k)]);
        }
        capture.snapshot(0);
        let before: Vec<(u32, u32)> = (0..8).map(|s| (capture.get(0, s).to_bits(), capture.get(1, s).to_bits())).collect();
        for k in 0..frames as u32 {
            capture.record(&[Scalar::from_bits(k + 1), Scalar::from_bits(100 + k + 1)]);
        }
        assert_eq!(capture.index(), (5 + frames) % 8);
        assert_eq!(capture.counter(), frames);
        for slot in 0..8usize {
            let latest = (0..frames).rev().find(|k| (5 + k) % 8 == slot);
            let expected = match latest {
                Some(k) => (k as u32 + 1, 100 + k as u32 + 1),
                None => before[slot],
            };
            assert_eq!((capture.get(0, slot).to_bits(), capture.get(1, slot).to_bits()), expected);
        }
    }
}

#[test]
fn the_capture_does_not_depend_on_how_frames_are_cut_into_blocks() {
    let total = 37usize;
    let mut whole: OutputBuffer<1, 16> = OutputBuffer::new();
    for k in 0..total {
        whole.record(&[Scalar::from_bits(k as u32 + 1)]);
    }
    for block in [1usize, 2, 5, 16, 37, 64] {
        let mut cut: OutputBuffer<1, 16> = OutputBuffer::new();
        let mut module = Through { values: [Scalar::zero(); 1] };
        let mut done = 0;
        while done < total {
            let now = block.min(total - done);
            for k in done..done + now {
                process_frame(&mut module, &[Scalar::from_bits(k as u32 + 1)], &mut cut);
            }
            done += now;
        }
        assert_eq!(cut.index(), whole.index());
        assert_eq!(cut.counter(), whole.counter());
        for slot in 0..16 {
            assert_eq!(cut.get(0, slot), whole.get(0, slot));
        }
    }
}
