use harmonicity::synthesizer::{
    EventOutcome, NoteEvent, Synthesizer, VoiceTerminated, MAX_VOICES,
};
use harmonicity::voice::VoiceState;

fn occupied(s: &Synthesizer) -> usize {
    (0..MAX_VOICES).filter(|&i| s.voice(i).is_some()).count()
}

fn ages(s: &Synthesizer) -> Vec<Option<usize>> {
    (0..MAX_VOICES).map(|i| s.voice(i).map(|v| v.age())).collect()
}

#[test]
fn new_pool_is_empty() {
    let s = Synthesizer::new();
    assert_eq!(occupied(&s), 0);
    assert_eq!(s.next_voice_age(), 0);
    let d = Synthesizer::default();
    assert_eq!(occupied(&d), 0);
}

#[test]
fn voices_fill_lowest_free_slots() {
    let mut s = Synthesizer::new();
    let mut notices: Vec<VoiceTerminated> = Vec::new();
    for n in 0..MAX_VOICES {
        let slot = s.start_voice(0, None, 40 + n as u8, 0, &mut notices);
        assert_eq!(slot, n);
        assert_eq!(s.voice(slot).unwrap().age(), n);
        assert_eq!(s.voice(slot).unwrap().state(), VoiceState::Attack);
    }
    assert!(notices.is_empty());
    assert_eq!(occupied(&s), MAX_VOICES);
    assert_eq!(s.next_voice_age(), MAX_VOICES);
}

#[test]
fn never_more_than_max_voices() {
    let mut s = Synthesizer::new();
    let mut notices: Vec<VoiceTerminated> = Vec::new();
    for n in 0..100u32 {
        s.start_voice(n, Some(n as i32), (n % 128) as u8, 0, &mut notices);
        assert!(occupied(&s) <= MAX_VOICES);
    }
    assert_eq!(occupied(&s), MAX_VOICES);
    // every note-on beyond the capacity stole exactly one voice
    assert_eq!(notices.len(), 100 - MAX_VOICES);
}

#[test]
fn full_pool_steals_oldest_voice() {
    let mut s = Synthesizer::new();
    let mut notices: Vec<VoiceTerminated> = Vec::new();
    for n in 0..MAX_VOICES {
        s.start_voice(0, Some(100 + n as i32), 40 + n as u8, 2, &mut notices);
    }
    let slot = s.start_voice(17, None, 90, 1, &mut notices);
    assert_eq!(slot, 0);
    assert_eq!(
        notices,
        vec![VoiceTerminated { timing: 17, voice_id: 100, channel: 2, note: 40 }]
    );
    let v = s.voice(0).unwrap();
    assert_eq!(v.age(), MAX_VOICES);
    assert_eq!(v.note(), 90);
    assert_eq!(v.voice_id(), 90 | (1 << 16));
    // the next one takes the voice of age 1
    let slot = s.start_voice(18, None, 91, 1, &mut notices);
    assert_eq!(slot, 1);
    assert_eq!(notices.len(), 2);
    assert_eq!(notices[1].voice_id, 101);
}

#[test]
fn steal_follows_age_not_slot_order() {
    let mut s = Synthesizer::new();
    let mut notices: Vec<VoiceTerminated> = Vec::new();
    for n in 0..MAX_VOICES {
        s.start_voice(0, None, n as u8, 0, &mut notices);
    }
    // free slot 0 and refill it: slot 0 now holds the youngest voice
    s.choke(0, None, 0, 0, &mut notices);
    assert_eq!(notices.len(), 1);
    let slot = s.start_voice(0, None, 100, 0, &mut notices);
    assert_eq!(slot, 0);
    assert_eq!(s.voice(0).unwrap().age(), MAX_VOICES);
    let slot = s.start_voice(5, None, 101, 0, &mut notices);
    assert_eq!(slot, 1);
    assert_eq!(notices.last().unwrap().note, 1);
}

#[test]
fn choke_removes_every_match_in_slot_order() {
    let mut s = Synthesizer::new();
    let mut notices: Vec<VoiceTerminated> = Vec::new();
    s.start_voice(0, Some(1), 60, 0, &mut notices);
    s.start_voice(0, Some(2), 61, 0, &mut notices);
    s.start_voice(0, Some(3), 60, 0, &mut notices);
    s.choke(9, None, 0, 60, &mut notices);
    assert_eq!(
        notices,
        vec![
            VoiceTerminated { timing: 9, voice_id: 1, channel: 0, note: 60 },
            VoiceTerminated { timing: 9, voice_id: 3, channel: 0, note: 60 },
        ]
    );
    assert_eq!(ages(&s)[0], None);
    assert_eq!(ages(&s)[1], Some(1));
    assert_eq!(ages(&s)[2], None);
    // a choke that matches nothing does nothing
    s.choke(10, Some(77), 5, 5, &mut notices);
    assert_eq!(notices.len(), 2);
    assert_eq!(occupied(&s), 1);
}

#[test]
fn note_off_releases_matching_voices() {
    let mut s = Synthesizer::new();
    let mut notices: Vec<VoiceTerminated> = Vec::new();
    s.start_voice(0, None, 60, 0, &mut notices);
    s.start_voice(0, Some(8), 62, 0, &mut notices);
    let ramps = s.release_voice(Some(8), 60, 0);
    assert_eq!(ramps.len(), MAX_VOICES);
    assert!(ramps[0] && ramps[1]);
    assert!(ramps[2..].iter().all(|r| !r));
    assert_eq!(s.voice(0).unwrap().state(), VoiceState::Release);
    assert_eq!(s.voice(1).unwrap().state(), VoiceState::Release);
    // stray note-off
    let ramps = s.release_voice(None, 1, 1);
    assert!(ramps.iter().all(|r| !r));
    assert!(notices.is_empty());
}

#[test]
fn envelope_checks_follow_reports() {
    let mut s = Synthesizer::new();
    let mut notices: Vec<VoiceTerminated> = Vec::new();
    s.start_voice(0, None, 60, 0, &mut notices);
    s.start_voice(0, None, 61, 0, &mut notices);
    let mut reached = vec![false; MAX_VOICES];
    reached[1] = true;
    let ramps = s.update_envelopes(&reached);
    assert!(!ramps[0] && ramps[1]);
    assert_eq!(s.voice(0).unwrap().state(), VoiceState::Attack);
    assert_eq!(s.voice(1).unwrap().state(), VoiceState::Decay);
    // a short report counts missing slots as not reached
    let ramps = s.update_envelopes(&vec![true]);
    assert!(ramps[0] && !ramps[1]);
    assert_eq!(s.voice(0).unwrap().state(), VoiceState::Decay);
    assert_eq!(s.voice(1).unwrap().state(), VoiceState::Decay);
}

#[test]
fn natural_death_is_announced_once() {
    let mut s = Synthesizer::new();
    let mut notices: Vec<VoiceTerminated> = Vec::new();
    s.start_voice(0, Some(4), 60, 3, &mut notices);
    s.release_voice(None, 60, 3);
    let all = vec![true; MAX_VOICES];
    s.clean_released_voices(10, &mut notices);
    assert!(notices.is_empty());
    s.update_envelopes(&all);
    assert!(s.voice(0).unwrap().is_deaf());
    s.clean_released_voices(20, &mut notices);
    assert_eq!(notices, vec![VoiceTerminated { timing: 20, voice_id: 4, channel: 3, note: 60 }]);
    assert_eq!(occupied(&s), 0);
    s.update_envelopes(&all);
    s.clean_released_voices(30, &mut notices);
    s.choke(31, Some(4), 3, 60, &mut notices);
    assert_eq!(notices.len(), 1);
}

#[test]
fn every_started_voice_terminated_exactly_once() {
    let mut s = Synthesizer::new();
    let mut notices: Vec<VoiceTerminated> = Vec::new();
    let all = vec![true; MAX_VOICES];
    for n in 0..40u32 {
        s.start_voice(n, Some(n as i32), 0, 0, &mut notices);
        if n % 3 == 0 {
            s.choke(n, Some(n as i32), 9, 9, &mut notices);
        }
        if n % 5 == 0 {
            s.release_voice(Some(n as i32 - 1), 9, 9);
        }
        s.update_envelopes(&all);
        s.update_envelopes(&all);
        s.clean_released_voices(n, &mut notices);
    }
    // what is still sounding has not been announced yet
    let mut ids: Vec<i32> = notices.iter().map(|t| t.voice_id).collect();
    for i in 0..MAX_VOICES {
        if let Some(v) = s.voice(i) {
            ids.push(v.voice_id());
        }
    }
    ids.sort();
    assert_eq!(ids, (0..40).collect::<Vec<i32>>());
}

#[test]
fn reset_twice_leaves_empty_pool_and_age_zero() {
    let mut s = Synthesizer::new();
    let mut notices: Vec<VoiceTerminated> = Vec::new();
    for n in 0..20u8 {
        s.start_voice(0, None, n, 0, &mut notices);
    }
    let sent = notices.len();
    s.reset();
    assert_eq!(occupied(&s), 0);
    assert_eq!(s.next_voice_age(), 0);
    s.reset();
    assert_eq!(occupied(&s), 0);
    assert_eq!(s.next_voice_age(), 0);
    assert_eq!(notices.len(), sent);
    let slot = s.start_voice(0, None, 60, 0, &mut notices);
    assert_eq!(slot, 0);
    assert_eq!(s.voice(0).unwrap().age(), 0);
    assert_eq!(notices.len(), sent);
}

#[test]
fn events_dispatch_to_pool() {
    let mut s = Synthesizer::new();
    let mut notices: Vec<VoiceTerminated> = Vec::new();
    let on = NoteEvent::NoteOn { timing: 5, voice_id: None, channel: 0, note: 60 };
    assert_eq!(on.timing(), 5);
    match s.process_event(on, &mut notices) {
        EventOutcome::Started { slot } => assert_eq!(slot, 0),
        _ => panic!("note-on must start a voice"),
    }
    let off = NoteEvent::NoteOff { timing: 6, voice_id: None, channel: 0, note: 60 };
    match s.process_event(off, &mut notices) {
        EventOutcome::Released { ramps } => assert!(ramps[0]),
        _ => panic!("note-off must release"),
    }
    let choke = NoteEvent::Choke { timing: 7, voice_id: None, channel: 0, note: 60 };
    match s.process_event(choke, &mut notices) {
        EventOutcome::Choked => {}
        _ => panic!("choke must choke"),
    }
    assert_eq!(notices, vec![VoiceTerminated { timing: 7, voice_id: 60, channel: 0, note: 60 }]);
}
