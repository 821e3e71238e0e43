//! Properties of the voice pool that span its operations: capacity,
//! stealing, reset, and that every voice is announced exactly once when it
//! ends.
use vstd::prelude::*;

use crate::synthesizer::{
    chokes, departed, departures, has_free_slot, is_cleared, notice_of, reclaims, releases,
    starts_voice, terminations, updates, well_formed, SynthesizerModel, VoiceTerminated, MAX_VOICES,
};
use crate::voice::{fresh_voice, VoiceModel};

verus! {

/// The slots that hold a voice.
pub open spec fn occupied(slots: Seq<Option<VoiceModel>>) -> Set<int> {
    Set::new(|i: int| 0 <= i < slots.len() && slots[i] is Some)
}

/// Whether some voice of the pool has age `x`.
pub open spec fn holds_age(m: SynthesizerModel, x: nat) -> bool {
    exists|i: int| 0 <= i < m.slots.len() && m.slots[i] is Some && m.slots[i].unwrap().age == x
}

/// Every voice of `after` either sat in the same slot of `before` with the
/// same age, or is newer than every voice `before` ever held.
pub open spec fn evolves(before: SynthesizerModel, after: SynthesizerModel) -> bool {
    &&& after.slots.len() == before.slots.len()
    &&& after.next_age >= before.next_age
    &&& forall|i: int|
        0 <= i < after.slots.len() && (#[trigger] after.slots[i]) is Some ==> (before.slots[i] is Some
            && after.slots[i].unwrap().age == before.slots[i].unwrap().age)
            || after.slots[i].unwrap().age >= before.next_age
}

/// The voices that left the pool between `before` and `after`, in slot order
/// over the first `n` slots.
pub open spec fn leavers(
    before: Seq<Option<VoiceModel>>,
    after: Seq<Option<VoiceModel>>,
    n: nat,
) -> Seq<VoiceModel>
    decreases n,
{
    if n == 0 {
        seq![]
    } else {
        leavers(before, after, (n - 1) as nat) + if departed(before[n - 1], after[n - 1]) {
            seq![before[n - 1].unwrap()]
        } else {
            seq![]
        }
    }
}

/// Capacity: a well-formed pool holds at most `MAX_VOICES` voices.
pub proof fn lemma_capacity(m: SynthesizerModel)
    requires
        well_formed(m),
    ensures
        occupied(m.slots).finite(),
        occupied(m.slots).len() <= MAX_VOICES,
{
    let range = vstd::set_lib::set_int_range(0, MAX_VOICES as int);
    vstd::set_lib::lemma_int_range(0, MAX_VOICES as int);
    assert(occupied(m.slots).subset_of(range));
    vstd::set_lib::lemma_len_subset(occupied(m.slots), range);
}

/// Capacity under note-ons: a note-on on a well-formed pool always places the
/// new voice and leaves a well-formed pool, which holds at most `MAX_VOICES`
/// voices; so no sequence of note-ons ever exceeds the capacity.
pub proof fn lemma_note_on_keeps_capacity(
    before: SynthesizerModel,
    after: SynthesizerModel,
    slot: int,
    timing: u32,
    voice_id: Option<i32>,
    note: u8,
    channel: u8,
)
    requires
        well_formed(before),
        before.next_age < usize::MAX,
        starts_voice(before, after, slot, timing, voice_id, note, channel),
    ensures
        well_formed(after),
        after.slots[slot] == Some(fresh_voice(voice_id, channel, note, before.next_age as usize)),
        occupied(after.slots).len() <= MAX_VOICES,
{
    assert forall|j: int| 0 <= j < after.slots.len() && (#[trigger] after.slots[j]) is Some implies after.slots[j].unwrap().age
        < after.next_age by {
        if j != slot {
            assert(before.slots[j] is Some);
        }
    }
    assert forall|a: int, b: int|
        0 <= a < after.slots.len() && 0 <= b < after.slots.len() && a != b && (#[trigger] after.slots[a]) is Some
            && (#[trigger] after.slots[b]) is Some implies after.slots[a].unwrap().age
        != after.slots[b].unwrap().age by {
        if a != slot && b != slot {
            assert(before.slots[a] is Some && before.slots[b] is Some);
        } else if a == slot {
            assert(before.slots[b] is Some);
        } else {
            assert(before.slots[a] is Some);
        }
    }
    lemma_capacity(after);
}

/// Stealing: when every slot holds a voice, a note-on evicts the voice whose
/// age is below that of every other voice, puts the new voice in its place,
/// and owes exactly one notification, for the evicted voice.
pub proof fn lemma_steal_evicts_oldest(
    before: SynthesizerModel,
    after: SynthesizerModel,
    slot: int,
    timing: u32,
    voice_id: Option<i32>,
    note: u8,
    channel: u8,
)
    requires
        well_formed(before),
        forall|i: int| 0 <= i < MAX_VOICES ==> (#[trigger] before.slots[i]) is Some,
        starts_voice(before, after, slot, timing, voice_id, note, channel),
    ensures
        forall|j: int|
            0 <= j < MAX_VOICES && j != slot ==> before.slots[slot].unwrap().age < (#[trigger] before.slots[j]).unwrap().age,
        after.slots[slot] == Some(fresh_voice(voice_id, channel, note, before.next_age as usize)),
        terminations(before.slots, after.slots, timing) == seq![notice_of(before.slots[slot].unwrap(), timing)],
{
    if has_free_slot(before.slots) {
        let k = choose|k: int| 0 <= k < before.slots.len() && (#[trigger] before.slots[k]) is None;
        assert(before.slots[k] is Some);
    }
    assert forall|j: int| 0 <= j < MAX_VOICES && j != slot implies before.slots[slot].unwrap().age < (#[trigger] before.slots[j]).unwrap().age by {
        assert(before.slots[j] is Some);
        assert(before.slots[slot] is Some);
    }
}

/// Reset: every cleared pool is the same pool, so a second reset right after
/// a first yields what the first did.
pub proof fn lemma_reset_idempotent(first: SynthesizerModel, second: SynthesizerModel)
    requires
        is_cleared(first),
        is_cleared(second),
    ensures
        first == second,
{
    assert(first.slots =~= second.slots);
}

/// After a reset, the first note-on gets age 0 and slot 0, and owes no
/// notification.
pub proof fn lemma_first_voice_after_reset(
    before: SynthesizerModel,
    after: SynthesizerModel,
    slot: int,
    timing: u32,
    voice_id: Option<i32>,
    note: u8,
    channel: u8,
)
    requires
        is_cleared(before),
        starts_voice(before, after, slot, timing, voice_id, note, channel),
    ensures
        slot == 0,
        after.slots[0] == Some(fresh_voice(voice_id, channel, note, 0)),
        terminations(before.slots, after.slots, timing) == Seq::<VoiceTerminated>::empty(),
{
    assert(before.slots[0] is None);
    assert(has_free_slot(before.slots));
}

/// Whether some voice of `l` has age `x`.
pub open spec fn announces(l: Seq<VoiceModel>, x: nat) -> bool {
    exists|k: int| 0 <= k < l.len() && (#[trigger] l[k]).age == x
}

/// Whether a voice of age `x` left one of the first `n` slots.
pub open spec fn departs_with_age(
    before: Seq<Option<VoiceModel>>,
    after: Seq<Option<VoiceModel>>,
    n: nat,
    x: nat,
) -> bool {
    exists|i: int|
        0 <= i < n && #[trigger] departed(before[i], after[i]) && before[i].unwrap().age == x
}

/// Departures and leavers agree, leavers are the departed voices, and no two
/// leavers share an age.
proof fn lemma_leavers(before: SynthesizerModel, after: SynthesizerModel, timing: u32, n: nat)
    requires
        well_formed(before),
        evolves(before, after),
        n <= MAX_VOICES,
    ensures
        departures(before.slots, after.slots, timing, n) == leavers(before.slots, after.slots, n).map_values(
            |v: VoiceModel| notice_of(v, timing),
        ),
        forall|x: nat|
            #[trigger] announces(leavers(before.slots, after.slots, n), x) <==> departs_with_age(
                before.slots,
                after.slots,
                n,
                x,
            ),
        forall|k1: int, k2: int|
            0 <= k1 < k2 < leavers(before.slots, after.slots, n).len() ==> (#[trigger] leavers(
                before.slots,
                after.slots,
                n,
            )[k1]).age != (#[trigger] leavers(before.slots, after.slots, n)[k2]).age,
    decreases n,
{
    if n > 0 {
        let m = (n - 1) as nat;
        lemma_leavers(before, after, timing, m);
        let l0 = leavers(before.slots, after.slots, m);
        let l1 = leavers(before.slots, after.slots, n);
        let f = |v: VoiceModel| notice_of(v, timing);
        if departed(before.slots[m as int], after.slots[m as int]) {
            let v = before.slots[m as int].unwrap();
            assert(l1 == l0 + seq![v]);
            assert(l1.map_values(f) =~= l0.map_values(f) + seq![f(v)]);
            assert forall|x: nat| #[trigger] announces(l1, x) <==> departs_with_age(
                before.slots,
                after.slots,
                n,
                x,
            ) by {
                if announces(l1, x) {
                    let k = choose|k: int| 0 <= k < l1.len() && (#[trigger] l1[k]).age == x;
                    if k < l0.len() {
                        assert(l0[k] == l1[k]);
                        assert(announces(l0, x));
                        let i = choose|i: int|
                            0 <= i < m && #[trigger] departed(before.slots[i], after.slots[i])
                                && before.slots[i].unwrap().age == x;
                        assert(departed(before.slots[i], after.slots[i]));
                    } else {
                        assert(departed(before.slots[m as int], after.slots[m as int]));
                    }
                }
                if departs_with_age(before.slots, after.slots, n, x) {
                    let i = choose|i: int|
                        0 <= i < n && #[trigger] departed(before.slots[i], after.slots[i])
                            && before.slots[i].unwrap().age == x;
                    if i < m {
                        assert(departs_with_age(before.slots, after.slots, m, x));
                        assert(announces(l0, x));
                        let k = choose|k: int| 0 <= k < l0.len() && (#[trigger] l0[k]).age == x;
                        assert(l1[k] == l0[k]);
                    } else {
                        assert(l1[l0.len() as int] == v);
                    }
                }
            }
            assert forall|k1: int, k2: int| 0 <= k1 < k2 < l1.len() implies (#[trigger] l1[k1]).age
                != (#[trigger] l1[k2]).age by {
                if k2 == l0.len() {
                    assert(l1[k1] == l0[k1]);
                    let x = l0[k1].age as nat;
                    assert(announces(l0, x));
                    let i = choose|i: int|
                        0 <= i < m && #[trigger] departed(before.slots[i], after.slots[i])
                            && before.slots[i].unwrap().age == x;
                    assert(before.slots[i] is Some && before.slots[m as int] is Some);
                } else {
                    assert(l1[k1] == l0[k1] && l1[k2] == l0[k2]);
                }
            }
        } else {
            assert(l1 =~= l0);
            assert(departures(before.slots, after.slots, timing, n) =~= departures(
                before.slots,
                after.slots,
                timing,
                m,
            ));
            assert forall|x: nat| #[trigger] announces(l1, x) <==> departs_with_age(
                before.slots,
                after.slots,
                n,
                x,
            ) by {
                assert(announces(l1, x) == announces(l0, x));
                if departs_with_age(before.slots, after.slots, n, x) {
                    let i = choose|i: int|
                        0 <= i < n && #[trigger] departed(before.slots[i], after.slots[i])
                            && before.slots[i].unwrap().age == x;
                    assert(i < m);
                    assert(departs_with_age(before.slots, after.slots, m, x));
                }
                if departs_with_age(before.slots, after.slots, m, x) {
                    let i = choose|i: int|
                        0 <= i < m && #[trigger] departed(before.slots[i], after.slots[i])
                            && before.slots[i].unwrap().age == x;
                    assert(departed(before.slots[i], after.slots[i]));
                }
            }
        }
    }
}

/// Termination uniqueness, for one step of the pool: the notifications owed
/// are exactly one per voice that left, in slot order; the voices announced
/// are precisely those whose age the pool no longer holds, and no voice is
/// announced twice.
pub proof fn lemma_terminated_exactly_once(before: SynthesizerModel, after: SynthesizerModel, timing: u32)
    requires
        well_formed(before),
        evolves(before, after),
    ensures
        terminations(before.slots, after.slots, timing) == leavers(
            before.slots,
            after.slots,
            MAX_VOICES as nat,
        ).map_values(|v: VoiceModel| notice_of(v, timing)),
        forall|x: nat|
            #[trigger] announces(leavers(before.slots, after.slots, MAX_VOICES as nat), x) <==> (
            holds_age(before, x) && !holds_age(after, x)),
        forall|k1: int, k2: int|
            0 <= k1 < k2 < leavers(before.slots, after.slots, MAX_VOICES as nat).len() ==> (#[trigger] leavers(
                before.slots,
                after.slots,
                MAX_VOICES as nat,
            )[k1]).age != (#[trigger] leavers(before.slots, after.slots, MAX_VOICES as nat)[k2]).age,
{
    let n = MAX_VOICES as nat;
    lemma_leavers(before, after, timing, n);
    assert forall|x: nat| #[trigger] departs_with_age(before.slots, after.slots, n, x) <==> (holds_age(
        before,
        x,
    ) && !holds_age(after, x)) by {
        if exists|i: int|
            0 <= i < n && #[trigger] departed(before.slots[i], after.slots[i])
                && before.slots[i].unwrap().age == x {
            let i = choose|i: int|
                0 <= i < n && #[trigger] departed(before.slots[i], after.slots[i])
                    && before.slots[i].unwrap().age == x;
            assert(holds_age(before, x));
            if holds_age(after, x) {
                let j = choose|j: int|
                    0 <= j < after.slots.len() && after.slots[j] is Some && after.slots[j].unwrap().age == x;
                assert(after.slots[j] is Some);
                if j != i {
                    if before.slots[j] is Some && after.slots[j].unwrap().age == before.slots[j].unwrap().age {
                        assert(before.slots[i] is Some && before.slots[j] is Some);
                    } else {
                        assert(before.slots[i] is Some);
                    }
                } else {
                    assert(before.slots[i] is Some);
                }
            }
        }
        if holds_age(before, x) && !holds_age(after, x) {
            let i = choose|i: int|
                0 <= i < before.slots.len() && before.slots[i] is Some && before.slots[i].unwrap().age == x;
            if !departed(before.slots[i], after.slots[i]) {
                assert(after.slots[i] is Some && after.slots[i].unwrap().age == x);
            }
            assert(departed(before.slots[i], after.slots[i]));
        }
    }
}

/// A voice that has left the pool never returns: once its age is gone, no
/// later step brings it back, so it is never announced a second time.
pub proof fn lemma_departed_never_returns(before: SynthesizerModel, after: SynthesizerModel, x: nat)
    requires
        evolves(before, after),
        x < before.next_age,
        !holds_age(before, x),
    ensures
        !holds_age(after, x),
        x < after.next_age,
{
    if holds_age(after, x) {
        let j = choose|j: int|
            0 <= j < after.slots.len() && after.slots[j] is Some && after.slots[j].unwrap().age == x;
        assert(after.slots[j] is Some);
        if before.slots[j] is Some && after.slots[j].unwrap().age == before.slots[j].unwrap().age {
            assert(holds_age(before, x));
        }
    }
}

/// A note-on only adds a voice newer than all others.
pub proof fn lemma_note_on_evolves(
    before: SynthesizerModel,
    after: SynthesizerModel,
    slot: int,
    timing: u32,
    voice_id: Option<i32>,
    note: u8,
    channel: u8,
)
    requires
        well_formed(before),
        starts_voice(before, after, slot, timing, voice_id, note, channel),
    ensures
        evolves(before, after),
{
}

/// A choke only removes voices.
pub proof fn lemma_choke_evolves(
    before: SynthesizerModel,
    after: SynthesizerModel,
    voice_id: Option<i32>,
    channel: u8,
    note: u8,
)
    requires
        well_formed(before),
        chokes(before, after, voice_id, channel, note),
    ensures
        evolves(before, after),
{
}

/// A note-off keeps every voice in place.
pub proof fn lemma_release_evolves(
    before: SynthesizerModel,
    after: SynthesizerModel,
    ramps: Seq<bool>,
    voice_id: Option<i32>,
    channel: u8,
    note: u8,
)
    requires
        well_formed(before),
        releases(before, after, ramps, voice_id, channel, note),
    ensures
        evolves(before, after),
{
}

/// An envelope transition check keeps every voice in place.
pub proof fn lemma_update_evolves(
    before: SynthesizerModel,
    after: SynthesizerModel,
    ramps: Seq<bool>,
    reached: Seq<bool>,
)
    requires
        well_formed(before),
        updates(before, after, ramps, reached),
    ensures
        evolves(before, after),
{
}

/// Reclamation only removes voices.
pub proof fn lemma_reclaim_evolves(before: SynthesizerModel, after: SynthesizerModel)
    requires
        well_formed(before),
        reclaims(before, after),
    ensures
        evolves(before, after),
{
}

} // verus!
