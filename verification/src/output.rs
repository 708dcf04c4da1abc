//! Output routing, the capture ring, and the steps of the audio callback
//! that decide rather than compute.

use vstd::prelude::*;
use crate::analyze::{lemma_ring_slot_from_slot, lemma_slots_differ, ring_slot, Snapshot};
use crate::input;
use crate::queue::{pop_message, push_event};
use crate::scalar::Scalar;
use crate::Module;

verus! {

/// The audio side reports its oscillator state whenever the write index of
/// the capture ring is a multiple of this many frames.
pub const EVENT_UPDATE_INTERVAL: usize = 1024;

/// Nominal frames per second of the output stream.
pub const SAMPLE_RATE: usize = 48_000;

/// Why an output device cannot carry the stream.
#[derive(Clone, Copy, Debug, PartialEq, Eq, Structural)]
pub enum DeviceError {
    /// The device offers fewer than the two channels of a stereo frame, or
    /// fewer channels than the module has logical outputs.
    TooFewChannels,
    /// The device does not take 32-bit floating-point samples.
    SampleFormat,
}

/// Device channels that a frame is mixed into: left and right.
pub const DEVICE_CHANNELS: usize = 2;

/// Whether a device with `channels` channels per frame can carry the
/// stream of a module with `outputs` logical outputs, given whether the
/// device takes 32-bit floating-point samples. The device must offer both
/// channels of a stereo frame and at least one channel for each logical
/// output. The channel count is looked at first.
pub fn check_device(channels: usize, outputs: usize, float_samples: bool) -> (r: Result<(), DeviceError>)
    ensures
        r == if channels < DEVICE_CHANNELS || channels < outputs {
            Err::<(), DeviceError>(DeviceError::TooFewChannels)
        } else if !float_samples {
            Err::<(), DeviceError>(DeviceError::SampleFormat)
        } else {
            Ok::<(), DeviceError>(())
        },
{
    if channels < DEVICE_CHANNELS || channels < outputs {
        Err(DeviceError::TooFewChannels)
    } else if !float_samples {
        Err(DeviceError::SampleFormat)
    } else {
        Ok(())
    }
}

/// A ring of the most recent `SIZE` output frames, `OUT` samples each, as
/// the module produced them.
pub struct OutputBuffer<const OUT: usize, const SIZE: usize> {
    buffer: [[Scalar; SIZE]; OUT],
    index: usize,
    counter: usize,
}

impl<const OUT: usize, const SIZE: usize> OutputBuffer<OUT, SIZE> {
    /// The sample of `channel` held in `slot`.
    pub closed spec fn sample(self, channel: int, slot: int) -> Scalar {
        self.buffer@[channel]@[slot]
    }

    /// The slot that the next frame overwrites: the oldest frame.
    pub closed spec fn write_index(self) -> usize {
        self.index
    }

    /// Frames recorded since the last snapshot.
    pub closed spec fn frames_since_snapshot(self) -> usize {
        self.counter
    }

    /// The write index names a slot of the ring.
    pub open spec fn wf(self) -> bool {
        self.write_index() < SIZE
    }

    /// The frame held in `slot`: one sample of each channel.
    pub open spec fn frame_at(self, slot: int) -> Seq<Scalar> {
        Seq::new(OUT as nat, |channel: int| self.sample(channel, slot))
    }

    /// Whether two buffers hold the same samples in every slot.
    pub open spec fn same_samples(self, other: Self) -> bool {
        forall|channel: int, slot: int|
            0 <= channel < OUT && 0 <= slot < SIZE ==> #[trigger] self.sample(channel, slot)
                == other.sample(channel, slot)
    }

    /// Whether `after` is this buffer with `frame` recorded: the frame
    /// stands, whole, in the slot the write index named, every other slot
    /// is untouched, the write index has moved on by one around the ring
    /// and one more frame is counted.
    pub open spec fn recorded(self, frame: Seq<Scalar>, after: Self) -> bool {
        &&& after.write_index() == (self.write_index() + 1) % (SIZE as int)
        &&& after.frames_since_snapshot() == self.frames_since_snapshot() + 1
        &&& forall|channel: int, slot: int|
            0 <= channel < OUT && 0 <= slot < SIZE ==> #[trigger] after.sample(channel, slot) == if slot
                == self.write_index() {
                frame[channel]
            } else {
                self.sample(channel, slot)
            }
    }

    /// Whether the buffer is what recording the frames of `history`, first
    /// to last, into an empty ring leaves: the write index has gone around
    /// with the number of frames, each of the latest `SIZE` frames stands
    /// in the slot its number falls in, and slots never written are zero.
    pub open spec fn holds(self, history: Seq<Seq<Scalar>>) -> bool {
        let frames = history.len() as int;
        &&& self.write_index() == frames % (SIZE as int)
        &&& forall|channel: int, number: int|
            0 <= channel < OUT && 0 <= number < frames && frames - number <= SIZE ==> self.sample(
                channel,
                number % (SIZE as int),
            ) == #[trigger] history[number][channel]
        &&& forall|channel: int, slot: int|
            0 <= channel < OUT && frames <= slot < SIZE ==> #[trigger] self.sample(channel, slot)
                == Scalar::zero()
    }

    /// An empty ring: every sample zero, the write index at the first slot,
    /// no frame counted.
    pub fn new() -> (b: Self)
        ensures
            b.write_index() == 0,
            b.frames_since_snapshot() == 0,
            forall|channel: int, slot: int|
                0 <= channel < OUT && 0 <= slot < SIZE ==> #[trigger] b.sample(channel, slot)
                    == Scalar::zero(),
            SIZE > 0 ==> b.holds(Seq::empty()),
    {
        let b = OutputBuffer { buffer: [[Scalar::zero(); SIZE]; OUT], index: 0, counter: 0 };
        proof {
            if SIZE > 0 {
                vstd::arithmetic::div_mod::lemma_small_mod(0, SIZE as nat);
            }
        }
        b
    }

    /// The slot that the next frame overwrites.
    pub fn index(&self) -> (i: usize)
        ensures
            i == self.write_index(),
    {
        self.index
    }

    /// Frames recorded since the last snapshot.
    pub fn counter(&self) -> (n: usize)
        ensures
            n == self.frames_since_snapshot(),
    {
        self.counter
    }

    /// The sample of `channel` held in `slot`.
    pub fn get(&self, channel: usize, slot: usize) -> (s: Scalar)
        requires
            channel < OUT,
            slot < SIZE,
        ensures
            s == self.sample(channel as int, slot as int),
    {
        self.buffer[channel][slot]
    }

    /// Records one frame at the write index and moves the index on.
    pub fn record(&mut self, frame: &[Scalar; OUT])
        requires
            old(self).wf(),
            old(self).frames_since_snapshot() < usize::MAX,
        ensures
            final(self).wf(),
            old(self).recorded(frame@, *final(self)),
    {
        let index = self.index;
        let ghost before = *self;
        let mut i: usize = 0;
        while i < OUT
            invariant
                i <= OUT,
                index < SIZE,
                self.index == index,
                self.counter == before.counter,
                before.index == index,
                forall|channel: int, slot: int|
                    0 <= channel < OUT && 0 <= slot < SIZE ==> #[trigger] self.sample(channel, slot) == if slot
                        == index && channel < i {
                        frame@[channel]
                    } else {
                        before.sample(channel, slot)
                    },
            decreases OUT - i,
        {
            let ghost earlier = *self;
            self.buffer[i][index] = frame[i];
            assert forall|channel: int, slot: int| 0 <= channel < OUT && 0 <= slot < SIZE implies #[trigger] self.sample(
                channel,
                slot,
            ) == if slot == index && channel == i {
                frame@[channel]
            } else {
                earlier.sample(channel, slot)
            } by {
                if channel != i {
                    assert(self.buffer@[channel] == earlier.buffer@[channel]);
                }
            }
            i += 1;
        }
        let ghost filled = *self;
        self.index = (self.index + 1) % SIZE;
        self.counter += 1;
        assert forall|channel: int, slot: int| 0 <= channel < OUT && 0 <= slot < SIZE implies #[trigger] self.sample(
            channel,
            slot,
        ) == if slot == index {
            frame@[channel]
        } else {
            before.sample(channel, slot)
        } by {
            assert(self.sample(channel, slot) == filled.sample(channel, slot));
        }
    }

    /// Copies one channel out for the analyzer and starts counting frames
    /// anew. The samples stay as they are.
    pub fn snapshot(&mut self, channel: usize) -> (s: Snapshot<SIZE>)
        requires
            channel < OUT,
        ensures
            forall|slot: int| 0 <= slot < SIZE ==> s.samples@[slot] == old(self).sample(channel as int, slot),
            s.write_index == old(self).write_index(),
            s.elapsed == old(self).frames_since_snapshot(),
            final(self).frames_since_snapshot() == 0,
            final(self).write_index() == old(self).write_index(),
            final(self).same_samples(*old(self)),
    {
        let s = Snapshot { samples: self.buffer[channel], write_index: self.index, elapsed: self.counter };
        self.counter = 0;
        s
    }

    /// Whether the oscillator state is due to be reported: the write index
    /// is a multiple of the report interval.
    pub fn report_due(&self) -> (due: bool)
        ensures
            due == (self.write_index() % EVENT_UPDATE_INTERVAL == 0),
    {
        self.index % EVENT_UPDATE_INTERVAL == 0
    }
}

/// Recording a frame never leaves a slot half written: afterwards every
/// slot holds either the whole recorded frame or the whole frame it held
/// before.
pub proof fn lemma_record_keeps_frames_whole<const OUT: usize, const SIZE: usize>(
    before: OutputBuffer<OUT, SIZE>,
    frame: Seq<Scalar>,
    after: OutputBuffer<OUT, SIZE>,
)
    requires
        before.wf(),
        frame.len() == OUT,
        before.recorded(frame, after),
    ensures
        after.frame_at(before.write_index() as int) == frame,
        forall|slot: int|
            0 <= slot < SIZE && slot != before.write_index() ==> #[trigger] after.frame_at(slot)
                == before.frame_at(slot),
{
    assert(after.frame_at(before.write_index() as int) =~= frame);
    assert forall|slot: int| 0 <= slot < SIZE && slot != before.write_index() implies #[trigger] after.frame_at(
        slot,
    ) == before.frame_at(slot) by {
        assert(after.frame_at(slot) =~= before.frame_at(slot));
    }
}

/// The ring is a window over the latest frames: a buffer that holds a
/// history holds, after one more frame is recorded, the history with that
/// frame added.
pub proof fn lemma_record_extends_history<const OUT: usize, const SIZE: usize>(
    before: OutputBuffer<OUT, SIZE>,
    history: Seq<Seq<Scalar>>,
    frame: Seq<Scalar>,
    after: OutputBuffer<OUT, SIZE>,
)
    requires
        before.holds(history),
        before.wf(),
        before.recorded(frame, after),
    ensures
        after.holds(history.push(frame)),
{
    let size = SIZE as int;
    let frames = history.len() as int;
    let longer = history.push(frame);
    let written = before.write_index() as int;
    assert(after.write_index() == (frames + 1) % size) by {
        lemma_ring_slot_from_slot(frames, 1, size);
    }
    assert forall|channel: int, number: int|
        0 <= channel < OUT && 0 <= number < frames + 1 && frames + 1 - number <= SIZE implies after.sample(
        channel,
        number % size,
    ) == #[trigger] longer[number][channel] by {
        vstd::arithmetic::div_mod::lemma_mod_bound(number, size);
        if number == frames {
            assert(after.sample(channel, written) == frame[channel]);
        } else {
            lemma_slots_differ(number, frames, size);
            assert(after.sample(channel, number % size) == before.sample(channel, number % size));
            assert(longer[number] == history[number]);
            assert(before.sample(channel, number % size) == history[number][channel]);
        }
    }
    assert forall|channel: int, slot: int| 0 <= channel < OUT && frames + 1 <= slot < SIZE implies #[trigger] after.sample(
        channel,
        slot,
    ) == Scalar::zero() by {
        vstd::arithmetic::div_mod::lemma_small_mod(frames as nat, size as nat);
        assert(after.sample(channel, slot) == before.sample(channel, slot));
    }
}

/// Whether `states` are the buffers that a run of recordings goes through,
/// one block or many: the first is well formed, and each next one is the
/// one before it with the frame of the same number recorded.
pub open spec fn run_recorded<const OUT: usize, const SIZE: usize>(
    states: Seq<OutputBuffer<OUT, SIZE>>,
    frames: Seq<Seq<Scalar>>,
) -> bool {
    &&& states.len() == frames.len() + 1
    &&& states[0].wf()
    &&& forall|k: int| 0 <= k < frames.len() ==> (#[trigger] states[k]).recorded(frames[k], states[k + 1])
}

/// Whether none of the first `count` frames recorded from write index
/// `start` fell in `slot`.
pub open spec fn untouched(start: int, count: int, slot: int, size: int) -> bool {
    forall|k: int| 0 <= k < count ==> #[trigger] ring_slot(start, k, size) != slot
}

/// Whether the frame that `state` holds in `slot` came in one piece: it is
/// one of the first `count` recorded frames, whole, or the frame that
/// `first` held there.
pub open spec fn came_whole<const OUT: usize, const SIZE: usize>(
    state: OutputBuffer<OUT, SIZE>,
    slot: int,
    frames: Seq<Seq<Scalar>>,
    count: int,
    first: OutputBuffer<OUT, SIZE>,
) -> bool {
    ||| state.frame_at(slot) == first.frame_at(slot)
    ||| exists|k: int| 0 <= k < count && #[trigger] frames[k] == state.frame_at(slot)
}

/// What a run of `count` recorded frames leaves, however it is cut into
/// blocks: the write index has moved on by `count` around the ring and
/// `count` more frames are counted; each of the latest `SIZE` frames
/// stands in the slot it was written to, in every channel; and a slot that
/// none of the frames fell in holds what it held before.
pub proof fn lemma_run_recorded<const OUT: usize, const SIZE: usize>(
    states: Seq<OutputBuffer<OUT, SIZE>>,
    frames: Seq<Seq<Scalar>>,
    count: int,
)
    requires
        run_recorded(states, frames),
        0 <= count <= frames.len(),
    ensures
        states[count].wf(),
        states[count].write_index() == ring_slot(states[0].write_index() as int, count, SIZE as int),
        states[count].frames_since_snapshot() == states[0].frames_since_snapshot() + count,
        forall|channel: int, k: int|
            0 <= channel < OUT && 0 <= k < count && count - k <= SIZE ==> states[count].sample(
                channel,
                ring_slot(states[0].write_index() as int, k, SIZE as int),
            ) == #[trigger] frames[k][channel],
        forall|channel: int, slot: int|
            0 <= channel < OUT && 0 <= slot < SIZE && untouched(
                states[0].write_index() as int,
                count,
                slot,
                SIZE as int,
            ) ==> #[trigger] states[count].sample(channel, slot) == states[0].sample(channel, slot),
    decreases count,
{
    let size = SIZE as int;
    let start = states[0].write_index() as int;
    if count == 0 {
        vstd::arithmetic::div_mod::lemma_small_mod(start as nat, size as nat);
    } else {
        lemma_run_recorded(states, frames, count - 1);
        let earlier = states[count - 1];
        let later = states[count];
        let written = earlier.write_index() as int;
        assert(earlier.recorded(frames[count - 1], later));
        lemma_ring_slot_from_slot(start + count - 1, 1, size);
        vstd::arithmetic::div_mod::lemma_mod_bound(start + count, size);
        assert forall|channel: int, k: int|
            0 <= channel < OUT && 0 <= k < count && count - k <= SIZE implies later.sample(
            channel,
            ring_slot(start, k, size),
        ) == #[trigger] frames[k][channel] by {
            vstd::arithmetic::div_mod::lemma_mod_bound(start + k, size);
            if k < count - 1 {
                lemma_slots_differ(start + k, start + count - 1, size);
                assert(later.sample(channel, ring_slot(start, k, size)) == earlier.sample(
                    channel,
                    ring_slot(start, k, size),
                ));
            } else {
                assert(later.sample(channel, written) == frames[count - 1][channel]);
            }
        }
        assert forall|channel: int, slot: int|
            0 <= channel < OUT && 0 <= slot < SIZE && untouched(start, count, slot, size) implies #[trigger] later.sample(
            channel,
            slot,
        ) == states[0].sample(channel, slot) by {
            assert(ring_slot(start, count - 1, size) != slot);
            assert(untouched(start, count - 1, slot, size));
            assert(later.sample(channel, slot) == earlier.sample(channel, slot));
        }
    }
}

/// No state of a run shows a frame written in part: after any number of
/// recorded frames, every slot holds one of the recorded frames, whole, or
/// the whole frame it held when the run began.
pub proof fn lemma_run_keeps_frames_whole<const OUT: usize, const SIZE: usize>(
    states: Seq<OutputBuffer<OUT, SIZE>>,
    frames: Seq<Seq<Scalar>>,
    count: int,
    slot: int,
)
    requires
        run_recorded(states, frames),
        forall|k: int| 0 <= k < frames.len() ==> (#[trigger] frames[k]).len() == OUT,
        0 <= count <= frames.len(),
        0 <= slot < SIZE,
    ensures
        came_whole(states[count], slot, frames, count, states[0]),
    decreases count,
{
    if count > 0 {
        lemma_run_keeps_frames_whole(states, frames, count - 1, slot);
        lemma_run_recorded(states, frames, count - 1);
        let earlier = states[count - 1];
        let later = states[count];
        assert(earlier.recorded(frames[count - 1], later));
        lemma_record_keeps_frames_whole(earlier, frames[count - 1], later);
        if slot == earlier.write_index() {
            assert(frames[count - 1] == later.frame_at(slot));
        } else {
            assert(later.frame_at(slot) == earlier.frame_at(slot));
            if earlier.frame_at(slot) != states[0].frame_at(slot) {
                let k = choose|k: int| 0 <= k < count - 1 && #[trigger] frames[k] == earlier.frame_at(slot);
                assert(frames[k] == later.frame_at(slot));
            }
        }
    }
}

/// A run of recordings adds its frames, in order, to the history that the
/// ring holds: a new ring that has taken `count` frames holds exactly
/// those frames, whatever the blocks they came in.
pub proof fn lemma_run_extends_history<const OUT: usize, const SIZE: usize>(
    states: Seq<OutputBuffer<OUT, SIZE>>,
    frames: Seq<Seq<Scalar>>,
    history: Seq<Seq<Scalar>>,
    count: int,
)
    requires
        run_recorded(states, frames),
        states[0].holds(history),
        0 <= count <= frames.len(),
    ensures
        states[count].holds(history + frames.subrange(0, count)),
    decreases count,
{
    if count == 0 {
        assert(history + frames.subrange(0, 0) =~= history);
    } else {
        lemma_run_extends_history(states, frames, history, count - 1);
        lemma_run_recorded(states, frames, count - 1);
        let earlier = states[count - 1];
        assert(earlier.recorded(frames[count - 1], states[count]));
        lemma_record_extends_history(
            earlier,
            history + frames.subrange(0, count - 1),
            frames[count - 1],
            states[count],
        );
        assert((history + frames.subrange(0, count - 1)).push(frames[count - 1]) =~= history + frames.subrange(
            0,
            count,
        ));
    }
}

/// Cutting a run into blocks changes nothing: two runs, the second
/// starting from the state the first ended in, are one run over the
/// frames of both.
pub proof fn lemma_runs_join<const OUT: usize, const SIZE: usize>(
    first: Seq<OutputBuffer<OUT, SIZE>>,
    first_frames: Seq<Seq<Scalar>>,
    second: Seq<OutputBuffer<OUT, SIZE>>,
    second_frames: Seq<Seq<Scalar>>,
)
    requires
        run_recorded(first, first_frames),
        run_recorded(second, second_frames),
        first.last() == second[0],
    ensures
        run_recorded(first + second.drop_first(), first_frames + second_frames),
{
    let states = first + second.drop_first();
    let frames = first_frames + second_frames;
    let cut = first_frames.len() as int;
    assert forall|k: int| 0 <= k < frames.len() implies (#[trigger] states[k]).recorded(frames[k], states[k + 1]) by {
        if k < cut {
            assert(states[k] == first[k]);
            assert(frames[k] == first_frames[k]);
            if k + 1 <= cut {
                assert(states[k + 1] == first[k + 1]);
            }
        } else {
            assert(frames[k] == second_frames[k - cut]);
            assert(states[k + 1] == second[k - cut + 1]);
            if k == cut {
                assert(states[k] == first.last());
            } else {
                assert(states[k] == second[k - cut]);
            }
            assert(second[k - cut].recorded(second_frames[k - cut], second[k - cut + 1]));
        }
    }
    assert(states[0] == first[0]);
}

/// Once the ring has gone around, reading it once around from the write
/// index gives the latest `SIZE` frames, oldest first.
pub proof fn lemma_window_lists_latest_frames<const OUT: usize, const SIZE: usize>(
    buffer: OutputBuffer<OUT, SIZE>,
    history: Seq<Seq<Scalar>>,
    channel: int,
    step: int,
)
    requires
        buffer.holds(history),
        history.len() >= SIZE,
        0 <= channel < OUT,
        0 <= step < SIZE,
    ensures
        buffer.sample(channel, ring_slot(buffer.write_index() as int, step, SIZE as int)) == history[history.len()
            - SIZE + step][channel],
{
    let size = SIZE as int;
    let frames = history.len() as int;
    let number = frames - size + step;
    lemma_ring_slot_from_slot(frames, step, size);
    vstd::arithmetic::div_mod::lemma_mod_add_multiples_vanish(number, size);
    assert(ring_slot(buffer.write_index() as int, step, size) == number % size);
    assert(buffer.sample(channel, number % size) == history[number][channel]);
}

/// The device slots that a logical output is mixed into.
#[derive(Clone, Copy, Debug, PartialEq, Eq, Structural)]
pub enum OutputMap {
    Both,
    Left,
    Right,
}

impl Default for OutputMap {
    fn default() -> (m: Self)
        ensures
            m == OutputMap::Both,
    {
        OutputMap::Both
    }
}

impl OutputMap {
    /// The name shown for the mapping.
    pub open spec fn label(self) -> Seq<char> {
        match self {
            OutputMap::Both => "L+R"@,
            OutputMap::Left => "L"@,
            OutputMap::Right => "R"@,
        }
    }

    /// Whether the mapping feeds the left device slot.
    pub open spec fn spec_feeds_left(self) -> bool {
        self != OutputMap::Right
    }

    /// Whether the mapping feeds the right device slot.
    pub open spec fn spec_feeds_right(self) -> bool {
        self != OutputMap::Left
    }

    /// The name shown for the mapping.
    pub fn to_string(&self) -> (s: String)
        ensures
            s@ == self.label(),
    {
        match self {
            OutputMap::Both => "L+R".to_owned(),
            OutputMap::Left => "L".to_owned(),
            OutputMap::Right => "R".to_owned(),
        }
    }

    /// Whether the mapping feeds the left device slot.
    #[verifier::when_used_as_spec(spec_feeds_left)]
    pub fn feeds_left(self) -> (b: bool)
        ensures
            b == self.spec_feeds_left(),
    {
        match self {
            OutputMap::Right => false,
            _ => true,
        }
    }

    /// Whether the mapping feeds the right device slot.
    #[verifier::when_used_as_spec(spec_feeds_right)]
    pub fn feeds_right(self) -> (b: bool)
        ensures
            b == self.spec_feeds_right(),
    {
        match self {
            OutputMap::Left => false,
            _ => true,
        }
    }
}

/// A change to one setting of an output channel.
#[derive(Clone, Copy, Debug)]
pub enum Command {
    SetMap(OutputMap),
    SetVolume(Scalar),
    SetEnabled,
    SetDisabled,
}

/// How one logical output of the module reaches the device.
#[derive(Clone, Copy, Debug)]
pub struct Channel {
    pub output_map: OutputMap,
    pub volume: Scalar,
    pub enabled: bool,
}

impl Channel {
    /// The channel as a command leaves it.
    pub open spec fn apply(self, command: Command) -> Channel {
        match command {
            Command::SetMap(output_map) => Channel { output_map, ..self },
            Command::SetVolume(volume) => Channel { volume, ..self },
            Command::SetEnabled => Channel { enabled: true, ..self },
            Command::SetDisabled => Channel { enabled: false, ..self },
        }
    }

    /// The channel after a sequence of commands, applied first to last.
    pub open spec fn apply_all(self, commands: Seq<Command>) -> Channel
        decreases commands.len(),
    {
        if commands.len() == 0 {
            self
        } else {
            self.apply_all(commands.drop_last()).apply(commands.last())
        }
    }

    /// The device slots, left and right, that the channel's sample is added
    /// into: none when the channel is disabled, else those of its mapping.
    pub open spec fn spec_targets(&self) -> (bool, bool) {
        (self.enabled && self.output_map.feeds_left(), self.enabled && self.output_map.feeds_right())
    }

    /// An enabled channel at half volume that feeds both device slots.
    pub fn new() -> (c: Channel)
        ensures
            c == (Channel { output_map: OutputMap::Both, volume: Scalar::half(), enabled: true }),
    {
        Channel { output_map: OutputMap::default(), volume: Scalar::half(), enabled: true }
    }

    /// Applies one command: the last write to a setting wins.
    pub fn handle_command(&mut self, command: Command)
        ensures
            *final(self) == old(self).apply(command),
    {
        match command {
            Command::SetMap(output_map) => self.output_map = output_map,
            Command::SetVolume(volume) => self.volume = volume,
            Command::SetEnabled => self.enabled = true,
            Command::SetDisabled => self.enabled = false,
        }
    }

    /// The device slots, left and right, that the channel's sample is added
    /// into.
    #[verifier::when_used_as_spec(spec_targets)]
    pub fn targets(&self) -> (t: (bool, bool))
        ensures
            t == self.spec_targets(),
    {
        (self.enabled && self.output_map.feeds_left(), self.enabled && self.output_map.feeds_right())
    }
}

/// A command on its way to one channel of the audio side.
#[derive(Clone, Copy, Debug)]
#[allow(inconsistent_fields)]
pub enum ControlMessage {
    OutputControl { channel: usize, command: Command },
    InputControl { channel: usize, command: input::Command },
}

impl ControlMessage {
    /// Whether the message names a channel that exists, among `inputs`
    /// oscillators and `outputs` output channels.
    pub open spec fn addresses(self, inputs: nat, outputs: nat) -> bool {
        match self {
            ControlMessage::OutputControl { channel, .. } => channel < outputs,
            ControlMessage::InputControl { channel, .. } => channel < inputs,
        }
    }

    /// The oscillators after the message: the addressed one takes the
    /// command, the others stay.
    pub open spec fn apply_inputs(self, inputs: Seq<input::Channel>) -> Seq<input::Channel> {
        match self {
            ControlMessage::InputControl { channel, command } if channel < inputs.len() => inputs.update(
                channel as int,
                inputs[channel as int].apply(command),
            ),
            _ => inputs,
        }
    }

    /// The output channels after the message: the addressed one takes the
    /// command, the others stay.
    pub open spec fn apply_outputs(self, outputs: Seq<Channel>) -> Seq<Channel> {
        match self {
            ControlMessage::OutputControl { channel, command } if channel < outputs.len() => outputs.update(
                channel as int,
                outputs[channel as int].apply(command),
            ),
            _ => outputs,
        }
    }
}

/// The oscillators after a sequence of messages, applied first to last.
pub open spec fn inputs_after(inputs: Seq<input::Channel>, messages: Seq<ControlMessage>) -> Seq<input::Channel>
    decreases messages.len(),
{
    if messages.len() == 0 {
        inputs
    } else {
        messages.last().apply_inputs(inputs_after(inputs, messages.drop_last()))
    }
}

/// The output channels after a sequence of messages, applied first to last.
pub open spec fn outputs_after(outputs: Seq<Channel>, messages: Seq<ControlMessage>) -> Seq<Channel>
    decreases messages.len(),
{
    if messages.len() == 0 {
        outputs
    } else {
        messages.last().apply_outputs(outputs_after(outputs, messages.drop_last()))
    }
}

/// The commands that `messages` carry for oscillator `channel`, in order.
pub open spec fn input_commands(messages: Seq<ControlMessage>, channel: int) -> Seq<input::Command>
    decreases messages.len(),
{
    if messages.len() == 0 {
        Seq::empty()
    } else {
        let earlier = input_commands(messages.drop_last(), channel);
        match messages.last() {
            ControlMessage::InputControl { channel: named, command } if named == channel => earlier.push(command),
            _ => earlier,
        }
    }
}

/// The commands that `messages` carry for output `channel`, in order.
pub open spec fn output_commands(messages: Seq<ControlMessage>, channel: int) -> Seq<Command>
    decreases messages.len(),
{
    if messages.len() == 0 {
        Seq::empty()
    } else {
        let earlier = output_commands(messages.drop_last(), channel);
        match messages.last() {
            ControlMessage::OutputControl { channel: named, command } if named == channel => earlier.push(command),
            _ => earlier,
        }
    }
}

/// Messages reach each oscillator in the order they were sent, and no
/// oscillator is touched by a message for another channel: after any
/// sequence of messages an oscillator is what its own commands, in their
/// order, make of it.
pub proof fn lemma_oscillator_follows_its_commands(
    inputs: Seq<input::Channel>,
    messages: Seq<ControlMessage>,
    channel: int,
)
    requires
        0 <= channel < inputs.len(),
    ensures
        inputs_after(inputs, messages).len() == inputs.len(),
        inputs_after(inputs, messages)[channel] == inputs[channel].apply_all(input_commands(messages, channel)),
    decreases messages.len(),
{
    if messages.len() > 0 {
        lemma_oscillator_follows_its_commands(inputs, messages.drop_last(), channel);
        let earlier = input_commands(messages.drop_last(), channel);
        match messages.last() {
            ControlMessage::InputControl { channel: named, command } => {
                if named == channel {
                    assert(earlier.push(command).drop_last() =~= earlier);
                }
            },
            _ => {},
        }
    }
}

/// Messages reach each output channel in the order they were sent, and no
/// output channel is touched by a message for another channel.
pub proof fn lemma_output_follows_its_commands(outputs: Seq<Channel>, messages: Seq<ControlMessage>, channel: int)
    requires
        0 <= channel < outputs.len(),
    ensures
        outputs_after(outputs, messages).len() == outputs.len(),
        outputs_after(outputs, messages)[channel] == outputs[channel].apply_all(output_commands(messages, channel)),
    decreases messages.len(),
{
    if messages.len() > 0 {
        lemma_output_follows_its_commands(outputs, messages.drop_last(), channel);
        let earlier = output_commands(messages.drop_last(), channel);
        match messages.last() {
            ControlMessage::OutputControl { channel: named, command } => {
                if named == channel {
                    assert(earlier.push(command).drop_last() =~= earlier);
                }
            },
            _ => {},
        }
    }
}

/// Whether `messages`, each naming a channel that exists, lead from the
/// first pair of banks to the second.
pub open spec fn drained(
    messages: Seq<ControlMessage>,
    inputs: Seq<input::Channel>,
    outputs: Seq<Channel>,
    inputs_left: Seq<input::Channel>,
    outputs_left: Seq<Channel>,
) -> bool {
    &&& forall|i: int| 0 <= i < messages.len() ==> (#[trigger] messages[i]).addresses(inputs.len(), outputs.len())
    &&& inputs_left == inputs_after(inputs, messages)
    &&& outputs_left == outputs_after(outputs, messages)
}

/// Applies one message to the channel it names. A message that names no
/// channel changes nothing and is answered with `false`.
pub fn handle_message<const IN: usize, const OUT: usize>(
    inputs: &mut [input::Channel; IN],
    outputs: &mut [Channel; OUT],
    message: ControlMessage,
) -> (applied: bool)
    ensures
        applied == message.addresses(IN as nat, OUT as nat),
        final(inputs)@ == message.apply_inputs(old(inputs)@),
        final(outputs)@ == message.apply_outputs(old(outputs)@),
{
    match message {
        ControlMessage::InputControl { channel, command } => {
            if channel < IN {
                let mut target = inputs[channel];
                target.handle_command(command);
                inputs[channel] = target;
                true
            } else {
                false
            }
        },
        ControlMessage::OutputControl { channel, command } => {
            if channel < OUT {
                let mut target = outputs[channel];
                target.handle_command(command);
                outputs[channel] = target;
                true
            } else {
                false
            }
        },
    }
}

/// Takes the messages that are pending on the command queue, oldest first,
/// and applies each to the channel it names. It never waits: it stops when
/// the queue is found empty (or, should that never happen, after
/// `usize::MAX` messages).
///
/// A message that names no channel stops the run and is handed back; the
/// messages before it have been applied.
pub fn drain_commands<const IN: usize, const OUT: usize>(
    receiver: &mut rtrb::Consumer<ControlMessage>,
    inputs: &mut [input::Channel; IN],
    outputs: &mut [Channel; OUT],
) -> (rejected: Option<ControlMessage>)
    ensures
        rejected matches Some(message) ==> !message.addresses(IN as nat, OUT as nat),
        exists|messages: Seq<ControlMessage>| #[trigger]
            drained(messages, old(inputs)@, old(outputs)@, final(inputs)@, final(outputs)@),
{
    let ghost applied: Seq<ControlMessage> = Seq::empty();
    let ghost inputs_before = inputs@;
    let ghost outputs_before = outputs@;
    let mut taken: usize = 0;
    while taken < usize::MAX
        invariant
            inputs_before.len() == IN,
            outputs_before.len() == OUT,
            inputs_before == old(inputs)@,
            outputs_before == old(outputs)@,
            drained(applied, inputs_before, outputs_before, inputs@, outputs@),
        decreases usize::MAX - taken,
    {
        match pop_message(receiver) {
            None => {
                return None;
            },
            Some(message) => {
                if !handle_message(inputs, outputs, message) {
                    return Some(message);
                }
                proof {
                    assert(applied.push(message).drop_last() =~= applied);
                    applied = applied.push(message);
                }
            },
        }
        taken += 1;
    }
    None
}

/// Runs the module for one frame and records what it produced: the inputs
/// go in, then the outputs are drawn, each call made once and in that
/// order, and the outputs are recorded in the capture ring as they came,
/// before any routing.
pub fn process_frame<M: Module<IN, OUT>, const IN: usize, const OUT: usize, const SIZE: usize>(
    module: &mut M,
    inputs: &[Scalar; IN],
    capture: &mut OutputBuffer<OUT, SIZE>,
) -> (outputs: [Scalar; OUT])
    requires
        old(capture).wf(),
        old(capture).frames_since_snapshot() < usize::MAX,
    ensures
        final(capture).wf(),
        old(capture).recorded(outputs@, *final(capture)),
{
    module.map_inputs(inputs);
    let mut outputs = [Scalar::zero(); OUT];
    module.map_outputs(&mut outputs);
    capture.record(&outputs);
    outputs
}

/// Reports the oscillator state to the control side when a report is due,
/// that is when the write index of the capture ring is a multiple of
/// [`EVENT_UPDATE_INTERVAL`]. The report is lost if the event queue is
/// full. Answers whether a report was due.
pub fn publish_state<const IN: usize, const OUT: usize, const SIZE: usize>(
    sender: &mut rtrb::Producer<input::Event<IN>>,
    capture: &OutputBuffer<OUT, SIZE>,
    inputs: &[input::Channel; IN],
) -> (due: bool)
    ensures
        due == (capture.write_index() % EVENT_UPDATE_INTERVAL == 0),
{
    let due = capture.report_due();
    if due {
        let _ = push_event(sender, input::Event::State(*inputs));
    }
    due
}

} // verus!
