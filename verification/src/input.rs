//! Oscillator channels: their settings and the commands that change them.

use vstd::prelude::*;
use crate::scalar::Scalar;

verus! {

/// The shape an oscillator produces over one cycle.
#[derive(Clone, Copy, Debug)]
pub enum Wave {
    Sine,
    RampUp,
    RampDown,
    /// High while the phase is below the pulse width `pw`, low after it.
    Square { pw: Scalar },
    Const,
}

impl Wave {
    /// Whether two waves are of the same shape, whatever their pulse width.
    pub open spec fn same_shape(self, other: Wave) -> bool {
        match (self, other) {
            (Wave::Sine, Wave::Sine) => true,
            (Wave::RampUp, Wave::RampUp) => true,
            (Wave::RampDown, Wave::RampDown) => true,
            (Wave::Square { .. }, Wave::Square { .. }) => true,
            (Wave::Const, Wave::Const) => true,
            _ => false,
        }
    }

    /// The name shown for the shape.
    pub open spec fn label(self) -> Seq<char> {
        match self {
            Wave::Sine => "Sine"@,
            Wave::RampUp => "Ramp Up"@,
            Wave::RampDown => "Ramp Down"@,
            Wave::Square { .. } => "Square"@,
            Wave::Const => "Const"@,
        }
    }

    /// The name shown for the shape.
    pub fn to_string(&self) -> (s: String)
        ensures
            s@ == self.label(),
    {
        match self {
            Wave::Sine => "Sine".to_owned(),
            Wave::RampUp => "Ramp Up".to_owned(),
            Wave::RampDown => "Ramp Down".to_owned(),
            Wave::Square { .. } => "Square".to_owned(),
            Wave::Const => "Const".to_owned(),
        }
    }
}

/// Waves compare by shape alone: two square waves are equal whatever their
/// pulse widths.
impl PartialEq for Wave {
    fn eq(&self, other: &Self) -> (r: bool) {
        match (self, other) {
            (Wave::Sine, Wave::Sine) => true,
            (Wave::RampUp, Wave::RampUp) => true,
            (Wave::RampDown, Wave::RampDown) => true,
            (Wave::Square { .. }, Wave::Square { .. }) => true,
            (Wave::Const, Wave::Const) => true,
            _ => false,
        }
    }
}

impl vstd::std_specs::cmp::PartialEqSpecImpl for Wave {
    open spec fn obeys_eq_spec() -> bool {
        true
    }

    open spec fn eq_spec(&self, other: &Self) -> bool {
        self.same_shape(*other)
    }
}

/// One oscillator: its shape, where it stands in its cycle, and how its
/// samples are scaled and shifted.
#[derive(Clone, Copy, Debug)]
pub struct Channel {
    pub wave: Wave,
    /// Position in the cycle, in cycles.
    pub phase: Scalar,
    /// Cycles per frame.
    pub frequency: Scalar,
    pub scale: Scalar,
    pub offset: Scalar,
    pub enabled: bool,
}

/// A change to one setting of an oscillator channel.
#[derive(Clone, Copy, Debug)]
pub enum Command {
    SetWave(Wave),
    SetFrequency(Scalar),
    SetScale(Scalar),
    SetOffset(Scalar),
    SetEnabled,
    SetDisabled,
}

/// The frequency a new channel starts with: 0.0022 cycles per frame.
pub const DEFAULT_FREQUENCY_BITS: u32 = 0x3B10_2DE0;

impl Channel {
    /// The channel as a command leaves it: the addressed setting takes the
    /// command's value, every other field keeps its own.
    pub open spec fn apply(self, command: Command) -> Channel {
        match command {
            Command::SetWave(wave) => Channel { wave, ..self },
            Command::SetFrequency(frequency) => Channel { frequency, ..self },
            Command::SetScale(scale) => Channel { scale, ..self },
            Command::SetOffset(offset) => Channel { offset, ..self },
            Command::SetEnabled => Channel { enabled: true, ..self },
            Command::SetDisabled => Channel { enabled: false, ..self },
        }
    }

    /// The channel after a sequence of commands, applied first to last.
    pub open spec fn apply_all(self, commands: Seq<Command>) -> Channel
        decreases commands.len(),
    {
        if commands.len() == 0 {
            self
        } else {
            self.apply_all(commands.drop_last()).apply(commands.last())
        }
    }

    /// The channel moved to another place in its cycle.
    pub open spec fn at_phase(self, phase: Scalar) -> Channel {
        Channel { phase, ..self }
    }

    /// Whether two channels agree on every setting, wherever each stands in
    /// its cycle.
    pub open spec fn same_settings(self, other: Channel) -> bool {
        self.at_phase(other.phase) == other
    }

    /// The channel after a sequence of commands where, before each command,
    /// frames were processed that left the phase at the paired value.
    pub open spec fn apply_between_frames(self, commands: Seq<Command>, phases: Seq<Scalar>) -> Channel
        recommends
            commands.len() == phases.len(),
        decreases commands.len(),
    {
        if commands.len() == 0 {
            self
        } else {
            self.apply_between_frames(commands.drop_last(), phases.drop_last())
                .at_phase(phases.last())
                .apply(commands.last())
        }
    }

    /// A sine oscillator at the start of its cycle, enabled, at the default
    /// frequency, with unit scale and no offset.
    pub fn new() -> (c: Channel)
        ensures
            c == (Channel {
                wave: Wave::Sine,
                phase: Scalar::zero(),
                frequency: Scalar { bits: DEFAULT_FREQUENCY_BITS },
                scale: Scalar::one(),
                offset: Scalar::zero(),
                enabled: true,
            }),
    {
        Channel {
            wave: Wave::Sine,
            phase: Scalar::zero(),
            frequency: Scalar::from_bits(DEFAULT_FREQUENCY_BITS),
            scale: Scalar::one(),
            offset: Scalar::zero(),
            enabled: true,
        }
    }

    /// Applies one command: the last write to a setting wins.
    pub fn handle_command(&mut self, command: Command)
        ensures
            *final(self) == old(self).apply(command),
    {
        match command {
            Command::SetWave(wave) => self.wave = wave,
            Command::SetFrequency(frequency) => self.frequency = frequency,
            Command::SetScale(scale) => self.scale = scale,
            Command::SetOffset(offset) => self.offset = offset,
            Command::SetEnabled => self.enabled = true,
            Command::SetDisabled => self.enabled = false,
        }
    }
}

/// A command never moves a channel in its cycle.
pub proof fn lemma_apply_keeps_phase(channel: Channel, command: Command)
    ensures
        channel.apply(command).phase == channel.phase,
{
}

/// Applying a command twice leaves what applying it once leaves.
pub proof fn lemma_apply_idempotent(channel: Channel, command: Command)
    ensures
        channel.apply(command).apply(command) == channel.apply(command),
{
}

/// The settings that a sequence of commands leaves do not depend on the
/// frames processed between the commands: whatever phase the channel had
/// reached before each command, it ends with the settings that the commands
/// alone give.
pub proof fn lemma_commands_decide_settings(channel: Channel, commands: Seq<Command>, phases: Seq<Scalar>)
    requires
        commands.len() == phases.len(),
    ensures
        channel.apply_between_frames(commands, phases).same_settings(channel.apply_all(commands)),
    decreases commands.len(),
{
    if commands.len() > 0 {
        lemma_commands_decide_settings(channel, commands.drop_last(), phases.drop_last());
    }
}

/// What the audio side reports back to the control side.
#[derive(Clone, Copy, Debug)]
pub enum Event<const N: usize> {
    /// The state of every oscillator channel, in channel order.
    State([Channel; N]),
}

} // verus!
