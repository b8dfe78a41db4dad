//! The decoded MIDI events the transcoder understands, and the file-level
//! time division. An external MIDI decoder hands these to the library as
//! plain values; everything the translator reads is a field here.

use vstd::prelude::*;

verus! {

/// One decoded MIDI event. Channel messages carry their channel (0-15);
/// seven-bit MIDI data fields are stored in a `u8` each. Events the
/// transcoder does not recognize arrive as `Unsupported` and are skipped.
#[derive(Clone, Copy, Debug, PartialEq, Eq)]
pub enum MidiEvent {
    NoteOn { channel: u8, key: u8, velocity: u8 },
    NoteOff { channel: u8, key: u8 },
    Controller { channel: u8, controller: u8, value: u8 },
    ProgramChange { channel: u8, program: u8 },
    /// `bend` is the bend amount relative to center, in -8192..=8191;
    /// normalized full-scale bend is `bend / 8192`.
    PitchBend { channel: u8, bend: i16 },
    /// Tempo meta-event: microseconds per quarter note.
    Tempo { microseconds_per_quarter_note: u32 },
    /// Time-signature meta-event; the denominator is transmitted as a
    /// power-of-two exponent.
    TimeSignature { numerator: u8, denominator_exponent: u8 },
    Unsupported,
}

impl MidiEvent {
    /// Field ranges the MIDI protocol guarantees: channels are four bits,
    /// data values seven bits, bends fourteen bits centered on zero, tempos
    /// twenty-four bits, and a time-signature denominator exponent small
    /// enough that `1 << exponent` fits in a byte.
    pub open spec fn wf(self) -> bool {
        match self {
            MidiEvent::NoteOn { channel, key, velocity } => channel < 16 && key < 128 && velocity < 128,
            MidiEvent::NoteOff { channel, key } => channel < 16 && key < 128,
            MidiEvent::Controller { channel, controller, value } => channel < 16 && controller < 128 && value < 128,
            MidiEvent::ProgramChange { channel, program } => channel < 16 && program < 128,
            MidiEvent::PitchBend { channel, bend } => channel < 16 && -8192 <= bend < 8192,
            MidiEvent::Tempo { microseconds_per_quarter_note } => microseconds_per_quarter_note < 0x1000000,
            MidiEvent::TimeSignature { numerator: _, denominator_exponent } => denominator_exponent < 8,
            MidiEvent::Unsupported => true,
        }
    }
}

/// The MIDI file's time division. Tempo conversion is defined only for the
/// metrical (ticks-per-quarter-note) form.
#[derive(Clone, Copy, Debug, PartialEq, Eq, Structural)]
pub enum Timing {
    /// Ticks per quarter note (a fifteen-bit value in the file).
    Metrical { ticks_per_quarter_note: u16 },
    /// SMPTE timecode (frames per second and subframes); tempo events
    /// cannot be translated under this division.
    Timecode,
}

} // verus!
