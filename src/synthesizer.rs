use vstd::prelude::*;

use crate::voice::{
    begins_release, fresh_voice, next_state, relevant, released, EnvelopeRamp, Voice, VoiceModel,
    VoiceState,
};

verus! {

/// Number of slots in the voice pool.
pub const MAX_VOICES: usize = 16;

/// Notification to the host that a voice has ended, at a sample offset of the
/// current buffer.
#[derive(Clone, Copy, PartialEq, Eq, Structural, Debug)]
pub struct VoiceTerminated {
    pub timing: u32,
    pub voice_id: i32,
    pub channel: u8,
    pub note: u8,
}

/// The notification sent when voice `v` ends at `timing`.
pub open spec fn notice_of(v: VoiceModel, timing: u32) -> VoiceTerminated {
    VoiceTerminated { timing, voice_id: v.voice_id, channel: v.channel, note: v.note }
}

pub open spec fn slot_model(o: Option<Voice>) -> Option<VoiceModel> {
    match o {
        Some(v) => Some(v@),
        None => None,
    }
}

pub open spec fn slots_model(v: Seq<Option<Voice>>) -> Seq<Option<VoiceModel>> {
    v.map_values(|o: Option<Voice>| slot_model(o))
}

/// The logical content of the pool: one optional voice per slot, and the age
/// the next started voice will get.
pub struct SynthesizerModel {
    pub slots: Seq<Option<VoiceModel>>,
    pub next_age: nat,
}

/// Pool invariant: exactly `MAX_VOICES` slots, every voice younger than the
/// age counter, and no two voices of the same age.
pub open spec fn well_formed(m: SynthesizerModel) -> bool {
    &&& m.slots.len() == MAX_VOICES
    &&& m.next_age <= usize::MAX
    &&& forall|i: int|
        0 <= i < m.slots.len() && (#[trigger] m.slots[i]) is Some ==> m.slots[i].unwrap().age
            < m.next_age
    &&& forall|i: int, j: int|
        0 <= i < m.slots.len() && 0 <= j < m.slots.len() && i != j && (#[trigger] m.slots[i]) is Some
            && (#[trigger] m.slots[j]) is Some ==> m.slots[i].unwrap().age != m.slots[j].unwrap().age
}

/// Whether some slot is empty.
pub open spec fn has_free_slot(slots: Seq<Option<VoiceModel>>) -> bool {
    exists|k: int| 0 <= k < slots.len() && (#[trigger] slots[k]) is None
}

/// `k` is the lowest-numbered empty slot.
pub open spec fn is_first_free(slots: Seq<Option<VoiceModel>>, k: int) -> bool {
    &&& 0 <= k < slots.len()
    &&& slots[k] is None
    &&& forall|j: int| 0 <= j < k ==> (#[trigger] slots[j]) is Some
}

/// `k` holds the oldest voice (smallest age), and is the lowest-numbered slot
/// holding a voice of that age.
pub open spec fn is_oldest(slots: Seq<Option<VoiceModel>>, k: int) -> bool {
    &&& 0 <= k < slots.len()
    &&& slots[k] is Some
    &&& forall|j: int|
        0 <= j < slots.len() && (#[trigger] slots[j]) is Some ==> slots[k].unwrap().age
            <= slots[j].unwrap().age
    &&& forall|j: int|
        0 <= j < k && (#[trigger] slots[j]) is Some ==> slots[k].unwrap().age
            < slots[j].unwrap().age
}

/// Whether the voice in slot content `before` is gone in `after`: the slot
/// was emptied or now holds another voice.
pub open spec fn departed(before: Option<VoiceModel>, after: Option<VoiceModel>) -> bool {
    before is Some && (after is None || after.unwrap().age != before.unwrap().age)
}

/// The notifications owed, in slot order over the first `n` slots, for the
/// voices that left the pool between `before` and `after`.
pub open spec fn departures(
    before: Seq<Option<VoiceModel>>,
    after: Seq<Option<VoiceModel>>,
    timing: u32,
    n: nat,
) -> Seq<VoiceTerminated>
    decreases n,
{
    if n == 0 {
        seq![]
    } else {
        departures(before, after, timing, (n - 1) as nat) + if departed(
            before[n - 1],
            after[n - 1],
        ) {
            seq![notice_of(before[n - 1].unwrap(), timing)]
        } else {
            seq![]
        }
    }
}

/// The notifications owed for all slots.
pub open spec fn terminations(
    before: Seq<Option<VoiceModel>>,
    after: Seq<Option<VoiceModel>>,
    timing: u32,
) -> Seq<VoiceTerminated> {
    departures(before, after, timing, before.len())
}

/// Slot content after a choke addressed as given: a relevant voice is gone.
pub open spec fn after_choke(
    o: Option<VoiceModel>,
    voice_id: Option<i32>,
    channel: u8,
    note: u8,
) -> Option<VoiceModel> {
    match o {
        Some(v) => if relevant(v, voice_id, channel, note) {
            None
        } else {
            o
        },
        None => None,
    }
}

/// Slot content after a note-off addressed as given.
pub open spec fn after_release(
    o: Option<VoiceModel>,
    voice_id: Option<i32>,
    channel: u8,
    note: u8,
) -> Option<VoiceModel> {
    match o {
        Some(v) => Some(released(v, voice_id, channel, note)),
        None => None,
    }
}

/// Whether slot content `o` starts a release ramp on a note-off addressed as given.
pub open spec fn slot_begins_release(
    o: Option<VoiceModel>,
    voice_id: Option<i32>,
    channel: u8,
    note: u8,
) -> bool {
    o is Some && begins_release(o.unwrap(), voice_id, channel, note)
}

/// Whether slot `i`'s envelope was reported as having reached its target;
/// slots missing from the report count as not reached.
pub open spec fn reached_at(reached: Seq<bool>, i: int) -> bool {
    0 <= i < reached.len() && reached[i]
}

/// Slot content after one envelope transition check.
pub open spec fn after_update(o: Option<VoiceModel>, reached: bool) -> Option<VoiceModel> {
    match o {
        Some(v) => Some(VoiceModel { state: next_state(v.state, reached), ..v }),
        None => None,
    }
}

/// Whether the transition check moves slot content `o` from attack to decay.
pub open spec fn slot_begins_decay(o: Option<VoiceModel>, reached: bool) -> bool {
    o is Some && reached && o.unwrap().state == VoiceState::Attack
}

/// Slot content after reclamation: a silent voice is gone.
pub open spec fn after_reclaim(o: Option<VoiceModel>) -> Option<VoiceModel> {
    match o {
        Some(v) => if v.state == VoiceState::Deaf {
            None
        } else {
            o
        },
        None => None,
    }
}

/// Departures over a prefix depend on that prefix only.
proof fn lemma_departures_prefix(
    before: Seq<Option<VoiceModel>>,
    a: Seq<Option<VoiceModel>>,
    b: Seq<Option<VoiceModel>>,
    timing: u32,
    n: nat,
)
    requires
        forall|j: int| 0 <= j < n ==> a[j] == b[j],
    ensures
        departures(before, a, timing, n) == departures(before, b, timing, n),
    decreases n,
{
    if n > 0 {
        lemma_departures_prefix(before, a, b, timing, (n - 1) as nat);
    }
}

/// Where every voice stays in its slot, nothing is owed.
proof fn lemma_no_departures(
    before: Seq<Option<VoiceModel>>,
    after: Seq<Option<VoiceModel>>,
    timing: u32,
    n: nat,
)
    requires
        n <= before.len(),
        n <= after.len(),
        forall|j: int| 0 <= j < n ==> !departed(before[j], after[j]),
    ensures
        departures(before, after, timing, n) == Seq::<VoiceTerminated>::empty(),
    decreases n,
{
    if n > 0 {
        lemma_no_departures(before, after, timing, (n - 1) as nat);
    }
}

/// Where a single slot `k` changed, only that slot can owe a notification.
proof fn lemma_departures_single(
    before: Seq<Option<VoiceModel>>,
    after: Seq<Option<VoiceModel>>,
    k: int,
    timing: u32,
    n: nat,
)
    requires
        before.len() == after.len(),
        n <= before.len(),
        0 <= k < before.len(),
        forall|j: int| 0 <= j < before.len() && j != k ==> after[j] == before[j],
    ensures
        departures(before, after, timing, n) == (if k < n && departed(before[k], after[k]) {
            seq![notice_of(before[k].unwrap(), timing)]
        } else {
            seq![]
        }),
    decreases n,
{
    if n > 0 {
        lemma_departures_single(before, after, k, timing, (n - 1) as nat);
        if n - 1 != k {
            assert(!departed(before[n - 1], after[n - 1]));
        }
    }
}

/// A pool whose voices all come from the same slots of a well-formed pool,
/// with the same ages, is well formed.
proof fn lemma_wf_kept(m0: SynthesizerModel, m1: SynthesizerModel)
    requires
        well_formed(m0),
        m1.slots.len() == m0.slots.len(),
        m1.next_age == m0.next_age,
        forall|i: int|
            0 <= i < m1.slots.len() && (#[trigger] m1.slots[i]) is Some ==> m0.slots[i] is Some
                && m1.slots[i].unwrap().age == m0.slots[i].unwrap().age,
    ensures
        well_formed(m1),
{
    assert forall|a: int, b: int|
        0 <= a < m1.slots.len() && 0 <= b < m1.slots.len() && a != b && (#[trigger] m1.slots[a]) is Some
            && (#[trigger] m1.slots[b]) is Some implies m1.slots[a].unwrap().age
        != m1.slots[b].unwrap().age by {
        assert(m0.slots[a] is Some && m0.slots[b] is Some);
    }
}

/// Effect of a note-on at `timing` on the pool: the new voice, with the
/// current age, goes to the lowest-numbered empty slot; in a full pool it
/// replaces the oldest voice, whose termination is then the one notification.
pub open spec fn starts_voice(
    before: SynthesizerModel,
    after: SynthesizerModel,
    slot: int,
    timing: u32,
    voice_id: Option<i32>,
    note: u8,
    channel: u8,
) -> bool {
    &&& 0 <= slot < MAX_VOICES
    &&& after.next_age == before.next_age + 1
    &&& after.slots == before.slots.update(
        slot,
        Some(fresh_voice(voice_id, channel, note, before.next_age as usize)),
    )
    &&& has_free_slot(before.slots) ==> is_first_free(before.slots, slot) && terminations(
        before.slots,
        after.slots,
        timing,
    ) == Seq::<VoiceTerminated>::empty()
    &&& !has_free_slot(before.slots) ==> is_oldest(before.slots, slot) && terminations(
        before.slots,
        after.slots,
        timing,
    ) == seq![notice_of(before.slots[slot].unwrap(), timing)]
}

/// Effect of a choke on the pool: every relevant voice is removed.
pub open spec fn chokes(
    before: SynthesizerModel,
    after: SynthesizerModel,
    voice_id: Option<i32>,
    channel: u8,
    note: u8,
) -> bool {
    &&& after.next_age == before.next_age
    &&& after.slots.len() == MAX_VOICES
    &&& forall|i: int|
        0 <= i < MAX_VOICES ==> (#[trigger] after.slots[i]) == after_choke(
            before.slots[i],
            voice_id,
            channel,
            note,
        )
}

/// Effect of a note-off on the pool, and the per-slot release ramps it starts.
pub open spec fn releases(
    before: SynthesizerModel,
    after: SynthesizerModel,
    ramps: Seq<bool>,
    voice_id: Option<i32>,
    channel: u8,
    note: u8,
) -> bool {
    &&& after.next_age == before.next_age
    &&& after.slots.len() == MAX_VOICES
    &&& ramps.len() == MAX_VOICES
    &&& forall|i: int|
        0 <= i < MAX_VOICES ==> (#[trigger] after.slots[i]) == after_release(
            before.slots[i],
            voice_id,
            channel,
            note,
        )
    &&& forall|i: int|
        0 <= i < MAX_VOICES ==> (#[trigger] ramps[i]) == slot_begins_release(
            before.slots[i],
            voice_id,
            channel,
            note,
        )
}

/// Effect of one envelope transition check on the pool, and the per-slot
/// decay ramps it starts.
pub open spec fn updates(
    before: SynthesizerModel,
    after: SynthesizerModel,
    ramps: Seq<bool>,
    reached: Seq<bool>,
) -> bool {
    &&& after.next_age == before.next_age
    &&& after.slots.len() == MAX_VOICES
    &&& ramps.len() == MAX_VOICES
    &&& forall|i: int|
        0 <= i < MAX_VOICES ==> (#[trigger] after.slots[i]) == after_update(
            before.slots[i],
            reached_at(reached, i),
        )
    &&& forall|i: int|
        0 <= i < MAX_VOICES ==> (#[trigger] ramps[i]) == slot_begins_decay(
            before.slots[i],
            reached_at(reached, i),
        )
}

/// Effect of reclamation on the pool: every silent voice is removed.
pub open spec fn reclaims(before: SynthesizerModel, after: SynthesizerModel) -> bool {
    &&& after.next_age == before.next_age
    &&& after.slots.len() == MAX_VOICES
    &&& forall|i: int|
        0 <= i < MAX_VOICES ==> (#[trigger] after.slots[i]) == after_reclaim(before.slots[i])
}

/// A note event addressed to the voice engine. `timing` is a sample offset
/// within the current buffer. (A note-on's velocity only scales the sound, so
/// it is not part of the engine's decisions.)
#[derive(Clone, Copy, PartialEq, Eq, Debug)]
pub enum NoteEvent {
    NoteOn { timing: u32, voice_id: Option<i32>, channel: u8, note: u8 },
    NoteOff { timing: u32, voice_id: Option<i32>, channel: u8, note: u8 },
    Choke { timing: u32, voice_id: Option<i32>, channel: u8, note: u8 },
}

impl NoteEvent {
    pub open spec fn timing_spec(&self) -> u32 {
        match *self {
            NoteEvent::NoteOn { timing, .. } => timing,
            NoteEvent::NoteOff { timing, .. } => timing,
            NoteEvent::Choke { timing, .. } => timing,
        }
    }

    pub fn timing(&self) -> (r: u32)
        ensures
            r == self.timing_spec(),
    {
        match *self {
            NoteEvent::NoteOn { timing, .. } => timing,
            NoteEvent::NoteOff { timing, .. } => timing,
            NoteEvent::Choke { timing, .. } => timing,
        }
    }
}

/// What applying an event did, as far as the sound of the voices is concerned.
pub enum EventOutcome {
    /// A voice was started in `slot`.
    Started { slot: usize },
    /// A note-off was sent; `ramps[i]` tells whether slot `i` began its release.
    Released { ramps: Vec<bool> },
    /// A choke was sent.
    Choked,
}

/// The fixed-capacity pool of voices and its age counter.
pub struct Synthesizer {
    voices: Vec<Option<Voice>>,
    next_voice_age: usize,
}

impl View for Synthesizer {
    type V = SynthesizerModel;

    closed spec fn view(&self) -> SynthesizerModel {
        SynthesizerModel {
            slots: slots_model(self.voices@),
            next_age: self.next_voice_age as nat,
        }
    }
}

/// A pool with every slot empty and the age counter at zero.
pub open spec fn is_cleared(m: SynthesizerModel) -> bool {
    &&& m.slots.len() == MAX_VOICES
    &&& forall|i: int| 0 <= i < m.slots.len() ==> (#[trigger] m.slots[i]) is None
    &&& m.next_age == 0
}

impl Synthesizer {
    pub open spec fn wf(&self) -> bool {
        well_formed(self@)
    }

    fn empty_slots() -> (r: Vec<Option<Voice>>)
        ensures
            r@.len() == MAX_VOICES,
            forall|i: int| 0 <= i < r@.len() ==> (#[trigger] r@[i]) is None,
    {
        let mut v: Vec<Option<Voice>> = Vec::new();
        while v.len() < MAX_VOICES
            invariant
                v@.len() <= MAX_VOICES,
                forall|i: int| 0 <= i < v@.len() ==> (#[trigger] v@[i]) is None,
            decreases MAX_VOICES - v@.len(),
        {
            v.push(None);
        }
        v
    }

    /// An empty pool.
    pub fn new() -> (r: Synthesizer)
        ensures
            r.wf(),
            is_cleared(r@),
    {
        Synthesizer { voices: Self::empty_slots(), next_voice_age: 0 }
    }

    /// Hard reset: every voice is dropped without notification and the age
    /// counter goes back to zero.
    pub fn reset(&mut self)
        ensures
            final(self).wf(),
            is_cleared(final(self)@),
    {
        self.voices = Self::empty_slots();
        self.next_voice_age = 0;
    }

    /// The voice in `slot`, if any.
    pub fn voice(&self, slot: usize) -> (r: Option<Voice>)
        requires
            self.wf(),
            slot < MAX_VOICES,
        ensures
            slot_model(r) == self@.slots[slot as int],
    {
        self.voices[slot]
    }

    /// The age the next started voice will get.
    pub fn next_voice_age(&self) -> (r: usize)
        ensures
            r == self@.next_age,
    {
        self.next_voice_age
    }

    fn next_age(&mut self) -> (r: usize)
        requires
            old(self).next_voice_age < usize::MAX,
        ensures
            r == old(self).next_voice_age,
            final(self).next_voice_age == old(self).next_voice_age + 1,
            final(self).voices == old(self).voices,
    {
        let age = self.next_voice_age;
        self.next_voice_age = self.next_voice_age + 1;
        age
    }

    proof fn lemma_view_at(&self, k: int)
        requires
            0 <= k < self.voices@.len(),
        ensures
            self@.slots.len() == self.voices@.len(),
            self@.slots[k] == slot_model(self.voices@[k]),
    {
    }

    proof fn lemma_view_set(&self, before: Seq<Option<Voice>>, k: int, x: Option<Voice>)
        requires
            0 <= k < before.len(),
            self.voices@ == before.update(k, x),
        ensures
            self@.slots == slots_model(before).update(
                k,
                slot_model(x),
            ),
    {
        assert(self@.slots =~= slots_model(before).update(
            k,
            slot_model(x),
        ));
    }

    /// The slot of the oldest voice of a full pool.
    fn oldest_slot(&self) -> (r: usize)
        requires
            self.wf(),
            !has_free_slot(self@.slots),
        ensures
            is_oldest(self@.slots, r as int),
    {
        let ghost m = self@;
        assert forall|j: int| 0 <= j < MAX_VOICES implies (#[trigger] m.slots[j]) is Some by {
            if m.slots[j] is None {
                assert(has_free_slot(m.slots));
            }
        }
        let mut oldest: usize = 0;
        let mut oldest_age: usize = match self.voices[0] {
            Some(v) => v.age(),
            None => 0,
        };
        let mut i: usize = 1;
        while i < MAX_VOICES
            invariant
                m == self@,
                self.wf(),
                forall|j: int| 0 <= j < MAX_VOICES ==> (#[trigger] m.slots[j]) is Some,
                1 <= i <= MAX_VOICES,
                oldest < i,
                oldest_age == m.slots[oldest as int].unwrap().age,
                forall|j: int| 0 <= j < i ==> oldest_age <= (#[trigger] m.slots[j]).unwrap().age,
                forall|j: int| 0 <= j < oldest ==> oldest_age < (#[trigger] m.slots[j]).unwrap().age,
            decreases MAX_VOICES - i,
        {
            match self.voices[i] {
                Some(v) => {
                    if v.age() < oldest_age {
                        oldest = i;
                        oldest_age = v.age();
                    }
                },
                None => {},
            }
            i += 1;
        }
        oldest
    }

    /// Starts a voice for a note-on at `timing`. The voice goes to the
    /// lowest-numbered empty slot; when none is empty, the oldest voice is
    /// stolen and its termination is appended to `notices`. Returns the slot.
    pub fn start_voice(
        &mut self,
        timing: u32,
        voice_id: Option<i32>,
        note: u8,
        channel: u8,
        notices: &mut Vec<VoiceTerminated>,
    ) -> (slot: usize)
        requires
            old(self).wf(),
            old(self)@.next_age < usize::MAX,
        ensures
            final(self).wf(),
            slot < MAX_VOICES,
            starts_voice(old(self)@, final(self)@, slot as int, timing, voice_id, note, channel),
            final(notices)@ == old(notices)@ + terminations(
                old(self)@.slots,
                final(self)@.slots,
                timing,
            ),
    {
        let ghost before = self.voices@;
        let ghost m0 = self@;
        let age = self.next_age();
        let voice = Voice::new(voice_id, channel, note, age);
        let ghost fresh = fresh_voice(voice_id, channel, note, age);
        // find an empty slot
        let mut i: usize = 0;
        while i < MAX_VOICES && self.voices[i].is_some()
            invariant
                self.voices@ == before,
                before.len() == MAX_VOICES,
                m0.slots == slots_model(before),
                i <= MAX_VOICES,
                forall|j: int| 0 <= j < i ==> (#[trigger] m0.slots[j]) is Some,
            decreases MAX_VOICES - i,
        {
            i += 1;
        }
        let slot = if i < MAX_VOICES {
            i
        } else {
            // every slot is taken: steal the oldest voice
            assert(!has_free_slot(m0.slots));
            let oldest = self.oldest_slot();
            match self.voices[oldest] {
                Some(v) => {
                    notices.push(VoiceTerminated {
                        timing,
                        voice_id: v.voice_id(),
                        channel: v.channel(),
                        note: v.note(),
                    });
                },
                None => {},
            }
            oldest
        };
        self.voices.set(slot, Some(voice));
        proof {
            self.lemma_view_set(before, slot as int, Some(voice));
            lemma_departures_single(m0.slots, self@.slots, slot as int, timing, MAX_VOICES as nat);
            assert(m0.slots.update(slot as int, Some(fresh)) == self@.slots);
            crate::pool_laws::lemma_note_on_keeps_capacity(m0, self@, slot as int, timing, voice_id, note, channel);
        }
        slot
    }
    /// Chokes every voice relevant to the addressed note: each is removed at
    /// once and its termination at `timing` appended to `notices`, in slot order.
    pub fn choke(
        &mut self,
        timing: u32,
        voice_id: Option<i32>,
        channel: u8,
        note: u8,
        notices: &mut Vec<VoiceTerminated>,
    )
        requires
            old(self).wf(),
        ensures
            final(self).wf(),
            chokes(old(self)@, final(self)@, voice_id, channel, note),
            final(notices)@ == old(notices)@ + terminations(
                old(self)@.slots,
                final(self)@.slots,
                timing,
            ),
    {
        let ghost m0 = self@;
        let ghost n0 = notices@;
        let mut i: usize = 0;
        while i < MAX_VOICES
            invariant
                well_formed(m0),
                self.voices@.len() == MAX_VOICES,
                self.next_voice_age == m0.next_age,
                i <= MAX_VOICES,
                forall|j: int| 0 <= j < i ==> (#[trigger] self@.slots[j]) == after_choke(
                    m0.slots[j],
                    voice_id,
                    channel,
                    note,
                ),
                forall|j: int| i <= j < MAX_VOICES ==> (#[trigger] self@.slots[j]) == m0.slots[j],
                notices@ == n0 + departures(m0.slots, self@.slots, timing, i as nat),
            decreases MAX_VOICES - i,
        {
            let ghost before = self.voices@;
            proof {
                self.lemma_view_at(i as int);
            }
            let ghost prev = self@.slots;
            match self.voices[i] {
                Some(v) => {
                    let mut v = v;
                    if v.choke(voice_id, channel, note) {
                        notices.push(
                            VoiceTerminated {
                                timing,
                                voice_id: v.voice_id(),
                                channel: v.channel(),
                                note: v.note(),
                            },
                        );
                        self.voices.set(i, None);
                        proof {
                            self.lemma_view_set(before, i as int, None);
                        }
                    }
                },
                None => {},
            }
            proof {
                lemma_departures_prefix(m0.slots, prev, self@.slots, timing, i as nat);
                assert(notices@ =~= n0 + departures(m0.slots, self@.slots, timing, (i + 1) as nat));
            }
            i += 1;
        }
        proof {
            lemma_wf_kept(m0, self@);
        }
    }

    /// Sends a note-off to every voice: each relevant voice that is still
    /// audible enters its release phase. The result tells, per slot, whether a
    /// release ramp must begin there.
    pub fn release_voice(&mut self, voice_id: Option<i32>, note: u8, channel: u8) -> (r: Vec<bool>)
        requires
            old(self).wf(),
        ensures
            final(self).wf(),
            releases(old(self)@, final(self)@, r@, voice_id, channel, note),
    {
        let ghost m0 = self@;
        let mut ramps: Vec<bool> = Vec::new();
        let mut i: usize = 0;
        while i < MAX_VOICES
            invariant
                well_formed(m0),
                self.voices@.len() == MAX_VOICES,
                self.next_voice_age == m0.next_age,
                i <= MAX_VOICES,
                ramps@.len() == i,
                forall|j: int| 0 <= j < i ==> (#[trigger] self@.slots[j]) == after_release(
                    m0.slots[j],
                    voice_id,
                    channel,
                    note,
                ),
                forall|j: int| 0 <= j < i ==> (#[trigger] ramps@[j]) == slot_begins_release(
                    m0.slots[j],
                    voice_id,
                    channel,
                    note,
                ),
                forall|j: int| i <= j < MAX_VOICES ==> (#[trigger] self@.slots[j]) == m0.slots[j],
            decreases MAX_VOICES - i,
        {
            let ghost before = self.voices@;
            proof {
                self.lemma_view_at(i as int);
            }
            match self.voices[i] {
                Some(v) => {
                    let mut v = v;
                    let ramp = v.release_note(voice_id, channel, note);
                    self.voices.set(i, Some(v));
                    proof {
                        self.lemma_view_set(before, i as int, Some(v));
                    }
                    ramps.push(ramp.is_some());
                },
                None => {
                    ramps.push(false);
                },
            }
            i += 1;
        }
        proof {
            lemma_wf_kept(m0, self@);
        }
        ramps
    }

    /// Runs one transition check of every voice's envelope; `reached[i]` tells
    /// whether slot `i`'s envelope has arrived at its current target. The
    /// result tells, per slot, whether a decay ramp must begin there.
    pub fn update_envelopes(&mut self, reached: &Vec<bool>) -> (r: Vec<bool>)
        requires
            old(self).wf(),
        ensures
            final(self).wf(),
            updates(old(self)@, final(self)@, r@, reached@),
    {
        let ghost m0 = self@;
        let mut ramps: Vec<bool> = Vec::new();
        let mut i: usize = 0;
        while i < MAX_VOICES
            invariant
                well_formed(m0),
                self.voices@.len() == MAX_VOICES,
                self.next_voice_age == m0.next_age,
                i <= MAX_VOICES,
                ramps@.len() == i,
                forall|j: int| 0 <= j < i ==> (#[trigger] self@.slots[j]) == after_update(
                    m0.slots[j],
                    reached_at(reached@, j),
                ),
                forall|j: int| 0 <= j < i ==> (#[trigger] ramps@[j]) == slot_begins_decay(
                    m0.slots[j],
                    reached_at(reached@, j),
                ),
                forall|j: int| i <= j < MAX_VOICES ==> (#[trigger] self@.slots[j]) == m0.slots[j],
            decreases MAX_VOICES - i,
        {
            let ghost before = self.voices@;
            proof {
                self.lemma_view_at(i as int);
            }
            let arrived = i < reached.len() && reached[i];
            match self.voices[i] {
                Some(v) => {
                    let mut v = v;
                    let ramp = v.update_envelope(arrived);
                    self.voices.set(i, Some(v));
                    proof {
                        self.lemma_view_set(before, i as int, Some(v));
                    }
                    ramps.push(ramp.is_some());
                },
                None => {
                    ramps.push(false);
                },
            }
            i += 1;
        }
        proof {
            lemma_wf_kept(m0, self@);
        }
        ramps
    }

    /// Removes every silent voice, appending its termination at `timing` to
    /// `notices`, in slot order.
    pub fn clean_released_voices(&mut self, timing: u32, notices: &mut Vec<VoiceTerminated>)
        requires
            old(self).wf(),
        ensures
            final(self).wf(),
            reclaims(old(self)@, final(self)@),
            final(notices)@ == old(notices)@ + terminations(
                old(self)@.slots,
                final(self)@.slots,
                timing,
            ),
    {
        let ghost m0 = self@;
        let ghost n0 = notices@;
        let mut i: usize = 0;
        while i < MAX_VOICES
            invariant
                well_formed(m0),
                self.voices@.len() == MAX_VOICES,
                self.next_voice_age == m0.next_age,
                i <= MAX_VOICES,
                forall|j: int| 0 <= j < i ==> (#[trigger] self@.slots[j]) == after_reclaim(m0.slots[j]),
                forall|j: int| i <= j < MAX_VOICES ==> (#[trigger] self@.slots[j]) == m0.slots[j],
                notices@ == n0 + departures(m0.slots, self@.slots, timing, i as nat),
            decreases MAX_VOICES - i,
        {
            let ghost before = self.voices@;
            proof {
                self.lemma_view_at(i as int);
            }
            let ghost prev = self@.slots;
            match self.voices[i] {
                Some(v) => {
                    if v.is_deaf() {
                        notices.push(
                            VoiceTerminated {
                                timing,
                                voice_id: v.voice_id(),
                                channel: v.channel(),
                                note: v.note(),
                            },
                        );
                        self.voices.set(i, None);
                        proof {
                            self.lemma_view_set(before, i as int, None);
                        }
                    }
                },
                None => {},
            }
            proof {
                lemma_departures_prefix(m0.slots, prev, self@.slots, timing, i as nat);
                assert(notices@ =~= n0 + departures(m0.slots, self@.slots, timing, (i + 1) as nat));
            }
            i += 1;
        }
        proof {
            lemma_wf_kept(m0, self@);
        }
    }
    /// Applies one note event to the pool; terminations it causes are
    /// appended to `notices` with the event's timing.
    pub fn process_event(
        &mut self,
        event: NoteEvent,
        notices: &mut Vec<VoiceTerminated>,
    ) -> (r: EventOutcome)
        requires
            old(self).wf(),
            event is NoteOn ==> old(self)@.next_age < usize::MAX,
        ensures
            final(self).wf(),
            final(notices)@ == old(notices)@ + terminations(
                old(self)@.slots,
                final(self)@.slots,
                event.timing_spec(),
            ),
            match event {
                NoteEvent::NoteOn { timing, voice_id, channel, note } => match r {
                    EventOutcome::Started { slot } => starts_voice(
                        old(self)@,
                        final(self)@,
                        slot as int,
                        timing,
                        voice_id,
                        note,
                        channel,
                    ),
                    _ => false,
                },
                NoteEvent::NoteOff { timing, voice_id, channel, note } => match r {
                    EventOutcome::Released { ramps } => releases(
                        old(self)@,
                        final(self)@,
                        ramps@,
                        voice_id,
                        channel,
                        note,
                    ),
                    _ => false,
                },
                NoteEvent::Choke { timing, voice_id, channel, note } => match r {
                    EventOutcome::Choked => chokes(old(self)@, final(self)@, voice_id, channel, note),
                    _ => false,
                },
            },
    {
        match event {
            NoteEvent::NoteOn { timing, voice_id, channel, note } => {
                let slot = self.start_voice(timing, voice_id, note, channel, notices);
                EventOutcome::Started { slot }
            },
            NoteEvent::NoteOff { timing, voice_id, channel, note } => {
                let ghost m0 = self@;
                let ramps = self.release_voice(voice_id, note, channel);
                proof {
                    lemma_no_departures(m0.slots, self@.slots, timing, MAX_VOICES as nat);
                }
                EventOutcome::Released { ramps }
            },
            NoteEvent::Choke { timing, voice_id, channel, note } => {
                self.choke(timing, voice_id, channel, note, notices);
                EventOutcome::Choked
            },
        }
    }
}

impl Default for Synthesizer {
    fn default() -> (r: Synthesizer)
        ensures
            r.wf(),
            is_cleared(r@),
    {
        Synthesizer::new()
    }
}

} // verus!
