//! Tests of gap quantization, event mapping, RPN scoping, the tempo and
//! pitch formulas, and the whole pipeline.

use midi2psx::commands::FlanSeqCommand;
use midi2psx::events::MidiEvent;
use midi2psx::events::Timing;
use midi2psx::gaps::make_gap_commands;
use midi2psx::gaps::wait_lut_entry;
use midi2psx::timeline::DeltaEvent;
use midi2psx::timeline::merge_tracks;
use midi2psx::transcode;
use midi2psx::translate::TranslateError;
use midi2psx::translate::compute_pitch;
use midi2psx::translate::tempo_raw;
use midi2psx::translate::translate;

fn metrical_48() -> Timing {
    Timing::Metrical { ticks_per_quarter_note: 48 }
}

fn run(tracks: Vec<Vec<DeltaEvent>>, timing: Timing) -> Vec<FlanSeqCommand> {
    let timeline = merge_tracks(&tracks);
    translate(&timeline, timing).expect("translation should succeed")
}

fn wait_indices(cmds: &[FlanSeqCommand]) -> Vec<usize> {
    let mut out = Vec::new();
    for cmd in cmds {
        match cmd {
            FlanSeqCommand::WaitTicks { index_into_lut } => out.push(*index_into_lut),
            _ => panic!("expected only WaitTicks, got {:?}", cmd),
        }
    }
    out
}

#[test]
fn gap_zero_emits_nothing() {
    assert!(make_gap_commands(0).is_empty());
}

#[test]
fn gap_exact_denomination_is_one_command() {
    assert_eq!(wait_indices(&make_gap_commands(1024)), vec![31]);
    assert_eq!(wait_indices(&make_gap_commands(1)), vec![0]);
}

#[test]
fn gap_ten_decomposes_greedily() {
    // 10 = 8 + 2: the greedy scan takes index 5 (8 ticks) then index 1 (2).
    assert_eq!(wait_indices(&make_gap_commands(10)), vec![5, 1]);
}

#[test]
fn gap_seven_decomposes_greedily() {
    // 7 = 6 + 1: index 4 (6 ticks) then index 0 (1).
    assert_eq!(wait_indices(&make_gap_commands(7)), vec![4, 0]);
}

#[test]
fn gap_sum_matches_gap() {
    for gap in [1u16, 5, 17, 100, 1000, 1025, 4095, 65535] {
        let mut total: u32 = 0;
        for index in wait_indices(&make_gap_commands(gap)) {
            total += wait_lut_entry(index) as u32;
        }
        assert_eq!(total, gap as u32);
    }
}

#[test]
fn pitch_default_range_full_bend() {
    // Default range 2 semitones = 200 cents; maximal positive bend:
    // round(200 * 10 * 8191/8192) = 2000 tenths of a cent.
    assert_eq!(compute_pitch(2, 0, 8191), 2000);
}

#[test]
fn pitch_full_negative_bend() {
    assert_eq!(compute_pitch(2, 0, -8192), -2000);
}

#[test]
fn pitch_center_is_zero() {
    assert_eq!(compute_pitch(2, 0, 0), 0);
}

#[test]
fn pitch_saturates_to_i16() {
    // 200 semitones = 20000 cents; 200000 tenths exceeds i16.
    assert_eq!(compute_pitch(200, 0, 8191), 32767);
    assert_eq!(compute_pitch(200, 0, -8192), -32768);
}

#[test]
fn tempo_500000_at_48_tpqn_is_512() {
    // 500000 / 48 / 1e6 * 49152 = 512.
    assert_eq!(tempo_raw(500_000, 48), 512);
}

#[test]
fn tempo_clamps_at_4095() {
    assert_eq!(tempo_raw(60_000_000, 48), 4095);
    assert_eq!(tempo_raw(16_777_215, 1), 4095);
}

#[test]
fn tempo_clamps_at_zero() {
    assert_eq!(tempo_raw(1, 48), 0);
    assert_eq!(tempo_raw(0, 48), 0);
}

#[test]
fn tempo_zero_division_clamps_high() {
    assert_eq!(tempo_raw(500_000, 0), 4095);
}

#[test]
fn note_events_map_to_play_and_release() {
    let track = vec![
        DeltaEvent { delta: 0, event: MidiEvent::NoteOn { channel: 4, key: 72, velocity: 90 } },
        DeltaEvent { delta: 0, event: MidiEvent::NoteOff { channel: 4, key: 72 } },
    ];
    let cmds = run(vec![track], metrical_48());
    assert_eq!(
        cmds,
        vec![
            FlanSeqCommand::PlayNote { channel: 4, key: 72, velocity: 90 },
            FlanSeqCommand::ReleaseNote { channel: 4, key: 72 },
        ]
    );
}

#[test]
fn percussion_channel_program_offsets_by_128() {
    let track = vec![
        DeltaEvent { delta: 0, event: MidiEvent::ProgramChange { channel: 9, program: 5 } },
        DeltaEvent { delta: 0, event: MidiEvent::ProgramChange { channel: 8, program: 5 } },
    ];
    let cmds = run(vec![track], metrical_48());
    assert_eq!(
        cmds,
        vec![
            FlanSeqCommand::SetChannelInstrument { channel: 9, index: 133 },
            FlanSeqCommand::SetChannelInstrument { channel: 8, index: 5 },
        ]
    );
}

#[test]
fn volume_and_panning_controllers() {
    let track = vec![
        DeltaEvent {
            delta: 0,
            event: MidiEvent::Controller { channel: 2, controller: 7, value: 100 },
        },
        DeltaEvent {
            delta: 0,
            event: MidiEvent::Controller { channel: 2, controller: 10, value: 127 },
        },
    ];
    let cmds = run(vec![track], metrical_48());
    assert_eq!(
        cmds,
        vec![
            FlanSeqCommand::SetChannelVolume { channel: 2, volume: 100 },
            FlanSeqCommand::SetChannelPanning { channel: 2, panning: 254 },
        ]
    );
}

#[test]
fn unrecognized_events_are_skipped() {
    let track = vec![
        DeltaEvent {
            delta: 0,
            event: MidiEvent::Controller { channel: 0, controller: 20, value: 1 },
        },
        DeltaEvent { delta: 0, event: MidiEvent::Unsupported },
    ];
    let cmds = run(vec![track], metrical_48());
    assert!(cmds.is_empty());
}

#[test]
fn time_signature_reconstructs_denominator() {
    let track = vec![
        DeltaEvent {
            delta: 0,
            event: MidiEvent::TimeSignature { numerator: 6, denominator_exponent: 3 },
        },
    ];
    let cmds = run(vec![track], metrical_48());
    assert_eq!(cmds, vec![FlanSeqCommand::SetTimeSignature { numerator: 6, denominator: 8 }]);
}

#[test]
fn rpn_zero_selection_updates_range() {
    // Selectors 100/101 both 0, then data entry 6/38: the range becomes
    // 5 semitones, 50 cents; a later maximal bend reflects it:
    // round((500 + 50) * 10 * 8191/8192) = round(5499.67) = 5500.
    let track = vec![
        DeltaEvent {
            delta: 0,
            event: MidiEvent::Controller { channel: 0, controller: 100, value: 0 },
        },
        DeltaEvent {
            delta: 0,
            event: MidiEvent::Controller { channel: 0, controller: 101, value: 0 },
        },
        DeltaEvent {
            delta: 0,
            event: MidiEvent::Controller { channel: 0, controller: 6, value: 5 },
        },
        DeltaEvent {
            delta: 0,
            event: MidiEvent::Controller { channel: 0, controller: 38, value: 50 },
        },
        DeltaEvent { delta: 1, event: MidiEvent::PitchBend { channel: 0, bend: 8191 } },
    ];
    let cmds = run(vec![track], metrical_48());
    assert_eq!(
        cmds,
        vec![
            FlanSeqCommand::WaitTicks { index_into_lut: 0 },
            FlanSeqCommand::SetChannelPitch { channel: 0, pitch: 5499 },
        ]
    );
}

#[test]
fn rpn_nonzero_selector_leaves_range_alone() {
    let track = vec![
        DeltaEvent {
            delta: 0,
            event: MidiEvent::Controller { channel: 0, controller: 100, value: 1 },
        },
        DeltaEvent {
            delta: 0,
            event: MidiEvent::Controller { channel: 0, controller: 101, value: 0 },
        },
        DeltaEvent {
            delta: 0,
            event: MidiEvent::Controller { channel: 0, controller: 6, value: 5 },
        },
        DeltaEvent { delta: 1, event: MidiEvent::PitchBend { channel: 0, bend: 8191 } },
    ];
    let cmds = run(vec![track], metrical_48());
    // The default 2-semitone range still applies.
    assert_eq!(
        cmds,
        vec![
            FlanSeqCommand::WaitTicks { index_into_lut: 0 },
            FlanSeqCommand::SetChannelPitch { channel: 0, pitch: 2000 },
        ]
    );
}

#[test]
fn rpn_selectors_reset_between_tick_groups() {
    // The selector pair is set at tick 0, but the data entry arrives in the
    // next tick group, where the selectors are unset again: no update.
    let track = vec![
        DeltaEvent {
            delta: 0,
            event: MidiEvent::Controller { channel: 0, controller: 100, value: 0 },
        },
        DeltaEvent {
            delta: 0,
            event: MidiEvent::Controller { channel: 0, controller: 101, value: 0 },
        },
        DeltaEvent {
            delta: 1,
            event: MidiEvent::Controller { channel: 0, controller: 6, value: 5 },
        },
        DeltaEvent { delta: 1, event: MidiEvent::PitchBend { channel: 0, bend: 8191 } },
    ];
    let cmds = run(vec![track], metrical_48());
    assert_eq!(
        cmds,
        vec![
            FlanSeqCommand::WaitTicks { index_into_lut: 0 },
            FlanSeqCommand::WaitTicks { index_into_lut: 0 },
            FlanSeqCommand::SetChannelPitch { channel: 0, pitch: 2000 },
        ]
    );
}

#[test]
fn data_entry_fine_alone_updates_fine_half() {
    // Range becomes 2 semitones + 50 cents = 250 cents:
    // round(2500 * 8191/8192) = 2500.
    let track = vec![
        DeltaEvent {
            delta: 0,
            event: MidiEvent::Controller { channel: 0, controller: 100, value: 0 },
        },
        DeltaEvent {
            delta: 0,
            event: MidiEvent::Controller { channel: 0, controller: 101, value: 0 },
        },
        DeltaEvent {
            delta: 0,
            event: MidiEvent::Controller { channel: 0, controller: 38, value: 50 },
        },
        DeltaEvent { delta: 1, event: MidiEvent::PitchBend { channel: 0, bend: 8191 } },
    ];
    let cmds = run(vec![track], metrical_48());
    assert_eq!(
        cmds,
        vec![
            FlanSeqCommand::WaitTicks { index_into_lut: 0 },
            FlanSeqCommand::SetChannelPitch { channel: 0, pitch: 2500 },
        ]
    );
}

#[test]
fn tempo_under_timecode_division_is_an_error() {
    let track = vec![
        DeltaEvent { delta: 0, event: MidiEvent::Tempo { microseconds_per_quarter_note: 500_000 } },
    ];
    let timeline = merge_tracks(&vec![track]);
    let result = translate(&timeline, Timing::Timecode);
    assert_eq!(result, Err(TranslateError::TempoWithTimecodeDivision));
}

#[test]
fn timecode_without_tempo_translates() {
    let track = vec![
        DeltaEvent { delta: 0, event: MidiEvent::NoteOn { channel: 0, key: 60, velocity: 100 } },
    ];
    let cmds = run(vec![track], Timing::Timecode);
    assert_eq!(cmds, vec![FlanSeqCommand::PlayNote { channel: 0, key: 60, velocity: 100 }]);
}

#[test]
fn same_tick_keeps_track_order() {
    let first = vec![
        DeltaEvent { delta: 0, event: MidiEvent::NoteOn { channel: 0, key: 60, velocity: 100 } },
    ];
    let second = vec![
        DeltaEvent { delta: 0, event: MidiEvent::NoteOn { channel: 1, key: 62, velocity: 50 } },
    ];
    let cmds = run(vec![first, second], metrical_48());
    assert_eq!(
        cmds,
        vec![
            FlanSeqCommand::PlayNote { channel: 0, key: 60, velocity: 100 },
            FlanSeqCommand::PlayNote { channel: 1, key: 62, velocity: 50 },
        ]
    );
}

#[test]
fn gap_beyond_field_width_truncates() {
    // The gap field is 16 bits wide: a 65536-tick gap truncates to 0 and
    // synthesizes no waits at all.
    let track = vec![
        DeltaEvent { delta: 0, event: MidiEvent::NoteOn { channel: 0, key: 60, velocity: 100 } },
        DeltaEvent { delta: 65536, event: MidiEvent::NoteOff { channel: 0, key: 60 } },
    ];
    let cmds = run(vec![track], metrical_48());
    assert_eq!(
        cmds,
        vec![
            FlanSeqCommand::PlayNote { channel: 0, key: 60, velocity: 100 },
            FlanSeqCommand::ReleaseNote { channel: 0, key: 60 },
        ]
    );
}

#[test]
fn prev_tick_advances_on_silent_groups() {
    // The tick group at tick 5 emits nothing, but still counts as emitted
    // time: the next gap is 3 ticks, not 8.
    let track = vec![
        DeltaEvent { delta: 5, event: MidiEvent::Unsupported },
        DeltaEvent { delta: 3, event: MidiEvent::NoteOn { channel: 0, key: 60, velocity: 100 } },
    ];
    let cmds = run(vec![track], metrical_48());
    assert_eq!(
        cmds,
        vec![
            FlanSeqCommand::WaitTicks { index_into_lut: 3 },
            FlanSeqCommand::WaitTicks { index_into_lut: 0 },
            FlanSeqCommand::WaitTicks { index_into_lut: 2 },
            FlanSeqCommand::PlayNote { channel: 0, key: 60, velocity: 100 },
        ]
    );
}

#[test]
fn transcode_is_deterministic() {
    let tempo_track = vec![
        DeltaEvent { delta: 0, event: MidiEvent::Tempo { microseconds_per_quarter_note: 500_000 } },
    ];
    let note_track = vec![
        DeltaEvent { delta: 0, event: MidiEvent::NoteOn { channel: 0, key: 60, velocity: 100 } },
        DeltaEvent { delta: 10, event: MidiEvent::NoteOff { channel: 0, key: 60 } },
    ];
    let tracks = vec![tempo_track, note_track];
    let once = transcode(&tracks, metrical_48()).unwrap();
    let twice = transcode(&tracks, metrical_48()).unwrap();
    assert_eq!(once, twice);
}

#[test]
fn end_to_end_two_tracks() {
    let tempo_track = vec![
        DeltaEvent { delta: 0, event: MidiEvent::Tempo { microseconds_per_quarter_note: 500_000 } },
    ];
    let note_track = vec![
        DeltaEvent { delta: 0, event: MidiEvent::NoteOn { channel: 0, key: 60, velocity: 100 } },
        DeltaEvent { delta: 10, event: MidiEvent::NoteOff { channel: 0, key: 60 } },
    ];
    let bytes = transcode(&vec![tempo_track, note_track], metrical_48()).unwrap();
    let mut expected: Vec<u8> = vec![
        0x46, 0x44, 0x53, 0x53, 0x01, 0x00, 0x00, 0x00, 0x00, 0x00, 0x00, 0x00, 0x04, 0x00,
        0x00, 0x00, 0x00, 0x00, 0x00, 0x00,
    ];
    // SetTempo{512}, PlayNote{0,60,100}, waits summing to 10 (8 + 2),
    // ReleaseNote{0,60}.
    expected.extend([0x82, 0x00]);
    expected.extend([0x10, 60, 100]);
    expected.extend([0xA5, 0xA1]);
    expected.extend([0x00, 60]);
    assert_eq!(bytes, expected);
}

#[test]
fn empty_input_yields_header_only() {
    let bytes = transcode(&Vec::new(), metrical_48()).unwrap();
    assert_eq!(bytes.len(), 20);
}
