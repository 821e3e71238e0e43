use vstd::prelude::*;

verus! {

/// The identity given to a voice whose note event carried no explicit id:
/// the note number in the low 16 bits and the channel above them.
pub open spec fn fallback_voice_id(note: u8, channel: u8) -> int {
    note as int + channel as int * 65536
}

/// Synthesizes a voice id from a channel/note pair (`note | channel << 16`).
pub fn compute_fallback_voice_id(note: u8, channel: u8) -> (r: i32)
    ensures
        r as int == fallback_voice_id(note, channel),
{
    let n: u32 = note as u32;
    let c: u32 = channel as u32;
    assert(n | (c << 16u32) == n + c * 65536) by (bit_vector)
        requires
            n < 256,
            c < 256,
    ;
    (n | (c << 16u32)) as i32
}

/// The id a new voice carries: the host's id when given, else the fallback.
pub open spec fn assigned_voice_id(voice_id: Option<i32>, note: u8, channel: u8) -> int {
    match voice_id {
        Some(id) => id as int,
        None => fallback_voice_id(note, channel),
    }
}

/// Lifecycle phase of a voice's amplitude envelope.
#[derive(Clone, Copy, PartialEq, Eq, Structural, Debug)]
pub enum VoiceState {
    Attack,
    Decay,
    Sustain,
    Release,
    Deaf,
}

/// The level the amplitude envelope approaches during a phase that ends when
/// that level is reached.
#[derive(Clone, Copy, PartialEq, Eq, Structural, Debug)]
pub enum EnvelopeTarget {
    /// Full level, approached over the attack time.
    Peak,
    /// The sustain level, approached over the decay time.
    SustainLevel,
    /// Zero, approached over the release time.
    Silence,
}

/// A ramp of the amplitude envelope that must begin because of a phase change.
#[derive(Clone, Copy, PartialEq, Eq, Structural, Debug)]
pub enum EnvelopeRamp {
    /// Towards the sustain level over the decay time.
    Decay,
    /// Towards zero over the release time.
    Release,
}

/// What the envelope phase `state` is waiting for, if anything.
pub open spec fn target_of(state: VoiceState) -> Option<EnvelopeTarget> {
    match state {
        VoiceState::Attack => Some(EnvelopeTarget::Peak),
        VoiceState::Decay => Some(EnvelopeTarget::SustainLevel),
        VoiceState::Release => Some(EnvelopeTarget::Silence),
        VoiceState::Sustain => None,
        VoiceState::Deaf => None,
    }
}

/// The phase after a transition check; `reached` tells whether the envelope
/// has arrived (within tolerance) at the phase's target.
pub open spec fn next_state(state: VoiceState, reached: bool) -> VoiceState {
    if !reached {
        state
    } else {
        match state {
            VoiceState::Attack => VoiceState::Decay,
            VoiceState::Decay => VoiceState::Sustain,
            VoiceState::Release => VoiceState::Deaf,
            VoiceState::Sustain => VoiceState::Sustain,
            VoiceState::Deaf => VoiceState::Deaf,
        }
    }
}

/// The logical content of a voice.
pub struct VoiceModel {
    pub voice_id: i32,
    pub age: usize,
    pub channel: u8,
    pub note: u8,
    pub state: VoiceState,
}

/// A voice just started: attack phase, the host's id or the fallback one.
pub open spec fn fresh_voice(voice_id: Option<i32>, channel: u8, note: u8, age: usize) -> VoiceModel {
    VoiceModel {
        voice_id: assigned_voice_id(voice_id, note, channel) as i32,
        age,
        channel,
        note,
        state: VoiceState::Attack,
    }
}

/// Whether an event addressed by `voice_id` or by `(channel, note)` concerns
/// the voice: either match suffices.
pub open spec fn relevant(v: VoiceModel, voice_id: Option<i32>, channel: u8, note: u8) -> bool {
    voice_id == Some(v.voice_id) || (v.channel == channel && v.note == note)
}

/// The voice after a note-off addressed as given: a relevant voice that is not
/// yet silent enters its release phase.
pub open spec fn released(v: VoiceModel, voice_id: Option<i32>, channel: u8, note: u8) -> VoiceModel {
    if relevant(v, voice_id, channel, note) && v.state != VoiceState::Deaf {
        VoiceModel { state: VoiceState::Release, ..v }
    } else {
        v
    }
}

/// Whether a note-off addressed as given starts the voice's release ramp.
pub open spec fn begins_release(v: VoiceModel, voice_id: Option<i32>, channel: u8, note: u8) -> bool {
    relevant(v, voice_id, channel, note) && v.state != VoiceState::Deaf
}

/// The bookkeeping part of one sounding note: its identity, its age in the
/// pool and the phase of its amplitude envelope.
#[derive(Clone, Copy)]
pub struct Voice {
    voice_id: i32,
    age: usize,
    channel: u8,
    note_number: u8,
    state: VoiceState,
}

impl View for Voice {
    type V = VoiceModel;

    closed spec fn view(&self) -> VoiceModel {
        VoiceModel {
            voice_id: self.voice_id,
            age: self.age,
            channel: self.channel,
            note: self.note_number,
            state: self.state,
        }
    }
}

impl Voice {
    /// A voice starting its attack phase.
    pub fn new(voice_id: Option<i32>, channel: u8, note: u8, age: usize) -> (r: Voice)
        ensures
            r@ == fresh_voice(voice_id, channel, note, age),
    {
        let id = match voice_id {
            Some(id) => id,
            None => compute_fallback_voice_id(note, channel),
        };
        Voice { voice_id: id, age, channel, note_number: note, state: VoiceState::Attack }
    }

    pub fn age(&self) -> (r: usize)
        ensures
            r == self@.age,
    {
        self.age
    }

    pub fn voice_id(&self) -> (r: i32)
        ensures
            r == self@.voice_id,
    {
        self.voice_id
    }

    pub fn note(&self) -> (r: u8)
        ensures
            r == self@.note,
    {
        self.note_number
    }

    pub fn channel(&self) -> (r: u8)
        ensures
            r == self@.channel,
    {
        self.channel
    }

    pub fn state(&self) -> (r: VoiceState)
        ensures
            r == self@.state,
    {
        self.state
    }

    pub fn is_deaf(&self) -> (r: bool)
        ensures
            r == (self@.state == VoiceState::Deaf),
    {
        match self.state {
            VoiceState::Deaf => true,
            _ => false,
        }
    }

    pub fn is_relevant_voice(&self, voice_id: Option<i32>, channel: u8, note: u8) -> (r: bool)
        ensures
            r == relevant(self@, voice_id, channel, note),
    {
        let by_id = match voice_id {
            Some(id) => id == self.voice_id,
            None => false,
        };
        by_id || (self.channel == channel && self.note_number == note)
    }

    /// Silences a relevant voice at once, whatever its phase; tells whether it
    /// was relevant.
    pub fn choke(&mut self, voice_id: Option<i32>, channel: u8, note: u8) -> (r: bool)
        ensures
            r == relevant(old(self)@, voice_id, channel, note),
            final(self)@ == (if r {
                VoiceModel { state: VoiceState::Deaf, ..old(self)@ }
            } else {
                old(self)@
            }),
    {
        if !self.is_relevant_voice(voice_id, channel, note) {
            return false;
        }
        self.state = VoiceState::Deaf;
        true
    }

    /// Moves a relevant, still audible voice into its release phase; returns
    /// the release ramp that must then begin.
    pub fn release_note(
        &mut self,
        voice_id: Option<i32>,
        channel: u8,
        note: u8,
    ) -> (r: Option<EnvelopeRamp>)
        ensures
            final(self)@ == released(old(self)@, voice_id, channel, note),
            r == (if begins_release(old(self)@, voice_id, channel, note) {
                Some(EnvelopeRamp::Release)
            } else {
                None
            }),
    {
        if !self.is_relevant_voice(voice_id, channel, note) || self.is_deaf() {
            return None;
        }
        self.state = VoiceState::Release;
        Some(EnvelopeRamp::Release)
    }

    /// The level whose arrival ends the current envelope phase.
    pub fn envelope_target(&self) -> (r: Option<EnvelopeTarget>)
        ensures
            r == target_of(self@.state),
    {
        match self.state {
            VoiceState::Attack => Some(EnvelopeTarget::Peak),
            VoiceState::Decay => Some(EnvelopeTarget::SustainLevel),
            VoiceState::Release => Some(EnvelopeTarget::Silence),
            VoiceState::Sustain => None,
            VoiceState::Deaf => None,
        }
    }

    /// One transition check of the envelope state machine. `reached` tells
    /// whether the envelope's previous value lies within tolerance of the
    /// current phase's target; the result is the ramp that must then begin.
    pub fn update_envelope(&mut self, reached: bool) -> (r: Option<EnvelopeRamp>)
        ensures
            final(self)@ == (VoiceModel { state: next_state(old(self)@.state, reached), ..old(self)@ }),
            r == (if reached && old(self)@.state == VoiceState::Attack {
                Some(EnvelopeRamp::Decay)
            } else {
                None
            }),
    {
        if !reached {
            return None;
        }
        match self.state {
            VoiceState::Attack => {
                self.state = VoiceState::Decay;
                Some(EnvelopeRamp::Decay)
            },
            VoiceState::Decay => {
                self.state = VoiceState::Sustain;
                None
            },
            VoiceState::Release => {
                self.state = VoiceState::Deaf;
                None
            },
            _ => None,
        }
    }
}

} // verus!
