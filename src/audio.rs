use vstd::prelude::*;

verus! {

/// A note of a jingle: a semitone within an octave, held for some beats.
#[derive(Clone, Copy, PartialEq, Eq, Structural, Debug)]
pub struct Note {
    semitone: u8,
    octave: u8,
    beats: u8,
}

impl Note {
    pub closed spec fn spec_semitone(&self) -> u8 {
        self.semitone
    }

    pub closed spec fn spec_octave(&self) -> u8 {
        self.octave
    }

    pub closed spec fn spec_beats(&self) -> u8 {
        self.beats
    }

    pub fn new(semitone: u8, octave: u8, beats: u8) -> (n: Self)
        ensures
            n.spec_semitone() == semitone,
            n.spec_octave() == octave,
            n.spec_beats() == beats,
    {
        Note { semitone, octave, beats }
    }

    pub fn semitone(&self) -> (s: u8)
        ensures
            s == self.spec_semitone(),
    {
        self.semitone
    }

    pub fn octave(&self) -> (o: u8)
        ensures
            o == self.spec_octave(),
    {
        self.octave
    }

    pub fn beats(&self) -> (b: u8)
        ensures
            b == self.spec_beats(),
    {
        self.beats
    }
}

} // verus!
