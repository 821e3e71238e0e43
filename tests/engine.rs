use harmonicity::scheduler::{BlockScheduler, Step};
use harmonicity::synthesizer::{NoteEvent, Synthesizer, VoiceTerminated, MAX_VOICES};

fn occupied(s: &Synthesizer) -> usize {
    (0..MAX_VOICES).filter(|&i| s.voice(i).is_some()).count()
}

#[test]
fn note_on_sounds_from_its_sample_on() {
    let mut pool = Synthesizer::new();
    let mut notices: Vec<VoiceTerminated> = Vec::new();
    let events = vec![NoteEvent::NoteOn { timing: 50, voice_id: None, channel: 0, note: 69 }];
    let mut next = 0usize;
    let mut scheduler = BlockScheduler::new(128);
    // (start, end, voices sounding while the sub-block is rendered)
    let mut rendered: Vec<(usize, usize, usize)> = Vec::new();
    loop {
        match scheduler.step(events.get(next).map(|e| e.timing())) {
            Step::ApplyEvent => {
                pool.process_event(events[next], &mut notices);
                next += 1;
            }
            Step::Render { start, end } => {
                rendered.push((start, end, occupied(&pool)));
                pool.clean_released_voices(end as u32, &mut notices);
            }
            Step::Finished => break,
        }
    }
    assert_eq!(rendered, vec![(0, 50, 0), (50, 114, 1), (114, 128, 1)]);
    assert!(notices.is_empty());
}
