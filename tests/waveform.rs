use harmonicity::waveform::{Waveform, IDX_SAWTOOTH, IDX_SINE, IDX_SQUARE, IDX_TRIANGLE};

#[test]
fn indices_of_waveforms() {
    assert_eq!(Waveform::Sine.to_index(), IDX_SINE);
    assert_eq!(Waveform::Sawtooth.to_index(), IDX_SAWTOOTH);
    assert_eq!(Waveform::Square.to_index(), IDX_SQUARE);
    assert_eq!(Waveform::Triangle.to_index(), IDX_TRIANGLE);
    assert_eq!(Waveform::Sawtooth.to_index(), 1);
}

#[test]
fn index_round_trip() {
    for w in [Waveform::Sine, Waveform::Square, Waveform::Triangle, Waveform::Sawtooth] {
        assert_eq!(Waveform::from_index(w.to_index()), w);
    }
    for i in 0..4 {
        assert_eq!(Waveform::from_index(i).to_index(), i);
    }
}
