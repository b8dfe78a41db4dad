//! The command translator: walks the timeline in ascending tick order and,
//! for each tick group, first synthesizes `WaitTicks` commands for the gap
//! since the previously emitted tick, then emits one command per recognized
//! event. Controllers 100/101 form a per-tick-group RPN selector; data-entry
//! controllers 6/38 update the persistent pitch-bend range only while RPN 0
//! is selected.

use vstd::prelude::*;

use crate::commands::FlanSeqCommand;
use crate::events::MidiEvent;
use crate::events::Timing;
use crate::gaps::gap_commands;
use crate::gaps::lemma_gap_commands_wf;
use crate::gaps::make_gap_commands;
use crate::timeline::Timeline;
use crate::timeline::TimelineView;
use crate::timeline::events_wf;
use crate::timeline::ticks_sorted;

verus! {

/// Why a timeline cannot be translated.
#[derive(Clone, Copy, Debug, PartialEq, Eq, Structural)]
pub enum TranslateError {
    /// A tempo meta-event was found while the file's time division is
    /// timecode-based; the tempo formula is undefined in that mode.
    TempoWithTimecodeDivision,
}

/// The persistent pitch-bend range: semitones (coarse) and cents (fine).
/// MIDI's default range is two semitones.
#[derive(Clone, Copy, Debug, PartialEq, Eq, Structural)]
pub struct PitchBendRange {
    pub coarse: u8,
    pub fine: u8,
}

/// The translator state within one tick group: the persistent pitch-bend
/// range plus the transient RPN selector pair, which starts unset at every
/// tick group.
pub struct GroupState {
    pub range: PitchBendRange,
    pub cc100: Option<u8>,
    pub cc101: Option<u8>,
}

/// The selector state at the start of a tick group: both selectors unset.
pub open spec fn fresh_group(range: PitchBendRange) -> GroupState {
    GroupState { range, cc100: None, cc101: None }
}

/// RPN 0 (pitch-bend range) is selected: both selectors were set to 0
/// within the current tick group.
pub open spec fn rpn_zero_selected(s: GroupState) -> bool {
    s.cc100 == Some(0u8) && s.cc101 == Some(0u8)
}

/// Round `n / 8192` to the nearest integer, halves away from zero.
pub open spec fn round_div_8192(n: int) -> int {
    if n >= 0 {
        (n + 4096) / 8192
    } else {
        -(((-n) + 4096) / 8192)
    }
}

/// Saturate an integer into the signed 16-bit range.
pub open spec fn sat_i16(v: int) -> i16 {
    if v < -32768 {
        -32768i16
    } else if v > 32767 {
        32767i16
    } else {
        v as i16
    }
}

/// The emitted pitch, in tenths of a cent: the configured bend range in
/// cents, times ten, times the normalized bend `bend / 8192`, rounded to
/// the nearest integer and saturated to 16 bits.
pub open spec fn spec_pitch(range: PitchBendRange, bend: i16) -> i16 {
    sat_i16(round_div_8192((range.coarse * 100 + range.fine) * 10 * bend))
}

/// Compute the pitch command value for a bend under the given range.
pub fn compute_pitch(coarse: u8, fine: u8, bend: i16) -> (r: i16)
    requires
        -8192 <= bend <= 8191,
    ensures
        r == spec_pitch((PitchBendRange { coarse, fine }), bend),
{
    let cents10: i64 = ((coarse as i64) * 100 + (fine as i64)) * 10;
    proof {
        assert(0 <= cents10 <= 257550);
        assert(-257550 * 8192 <= cents10 * (bend as i64) <= 257550 * 8191) by (nonlinear_arith)
            requires
                0 <= cents10 <= 257550,
                -8192 <= bend <= 8191,
        ;
    }
    let num: i64 = cents10 * (bend as i64);
    let mag: u64 = if num >= 0 {
        num as u64
    } else {
        (-num) as u64
    };
    let q: u64 = (mag + 4096) / 8192;
    let v: i64 = if num >= 0 {
        q as i64
    } else {
        -(q as i64)
    };
    proof {
        assert(v == round_div_8192(num as int));
    }
    if v < -32768 {
        -32768
    } else if v > 32767 {
        32767
    } else {
        v as i16
    }
}

/// The raw 12-bit tempo field: seconds per tick times the playback engine's
/// tick-rate constant 49152, rounded to the nearest integer and clamped to
/// 0..=4095. A zero ticks-per-quarter-note makes seconds-per-tick unbounded,
/// so the value clamps to the maximum.
pub open spec fn spec_tempo_raw(us_per_qn: u32, tpqn: u16) -> u16 {
    if tpqn == 0 {
        4095
    } else {
        let num = us_per_qn * 49152;
        let den = tpqn * 1000000;
        let rounded = (num + den / 2) / den;
        if rounded > 4095 {
            4095
        } else {
            rounded as u16
        }
    }
}

/// Compute the raw tempo field from a tempo meta-event value and the
/// metrical time division.
pub fn tempo_raw(us_per_qn: u32, tpqn: u16) -> (r: u16)
    ensures
        r == spec_tempo_raw(us_per_qn, tpqn),
        r <= 4095,
{
    if tpqn == 0 {
        4095
    } else {
        let num: u64 = (us_per_qn as u64) * 49152;
        let den: u64 = (tpqn as u64) * 1000000;
        let rounded: u64 = (num + den / 2) / den;
        if rounded > 4095 {
            4095
        } else {
            rounded as u16
        }
    }
}

/// The translator state after one event: controllers 100/101 record the
/// selector pair; 6/38 update the pitch-bend range while RPN 0 is selected;
/// every other event leaves the state unchanged.
pub open spec fn step_state(e: MidiEvent, s: GroupState) -> GroupState {
    match e {
        MidiEvent::Controller { channel: _, controller, value } => {
            if controller == 100 {
                GroupState { range: s.range, cc100: Some(value), cc101: s.cc101 }
            } else if controller == 101 {
                GroupState { range: s.range, cc100: s.cc100, cc101: Some(value) }
            } else if controller == 6 && rpn_zero_selected(s) {
                GroupState {
                    range: PitchBendRange { coarse: value, fine: s.range.fine },
                    cc100: s.cc100,
                    cc101: s.cc101,
                }
            } else if controller == 38 && rpn_zero_selected(s) {
                GroupState {
                    range: PitchBendRange { coarse: s.range.coarse, fine: value },
                    cc100: s.cc100,
                    cc101: s.cc101,
                }
            } else {
                s
            }
        },
        _ => s,
    }
}

/// The commands one event emits under the current state. Events outside the
/// recognized set emit nothing and are skipped. A tempo event under a
/// timecode division emits nothing here; translation refuses such a
/// timeline before any command is used.
pub open spec fn event_commands(e: MidiEvent, s: GroupState, timing: Timing) -> Seq<
    FlanSeqCommand,
> {
    match e {
        MidiEvent::NoteOn { channel, key, velocity } => seq![
            FlanSeqCommand::PlayNote { channel, key, velocity },
        ],
        MidiEvent::NoteOff { channel, key } => seq![FlanSeqCommand::ReleaseNote { channel, key }],
        MidiEvent::ProgramChange { channel, program } => seq![
            FlanSeqCommand::SetChannelInstrument {
                channel,
                index: if channel == 9 {
                    (program + 128) as u8
                } else {
                    program
                },
            },
        ],
        MidiEvent::PitchBend { channel, bend } => seq![
            FlanSeqCommand::SetChannelPitch { channel, pitch: spec_pitch(s.range, bend) },
        ],
        MidiEvent::Controller { channel, controller, value } => {
            if controller == 7 {
                seq![FlanSeqCommand::SetChannelVolume { channel, volume: value }]
            } else if controller == 10 {
                seq![FlanSeqCommand::SetChannelPanning { channel, panning: (value * 2) as u8 }]
            } else {
                Seq::empty()
            }
        },
        MidiEvent::Tempo { microseconds_per_quarter_note } => {
            match timing {
                Timing::Metrical { ticks_per_quarter_note } => seq![
                    FlanSeqCommand::SetTempo {
                        tempo: spec_tempo_raw(
                            microseconds_per_quarter_note,
                            ticks_per_quarter_note,
                        ),
                    },
                ],
                Timing::Timecode => Seq::empty(),
            }
        },
        MidiEvent::TimeSignature { numerator, denominator_exponent } => seq![
            FlanSeqCommand::SetTimeSignature {
                numerator,
                denominator: (1u8 << denominator_exponent) as u8,
            },
        ],
        MidiEvent::Unsupported => Seq::empty(),
    }
}

/// The commands a tick group emits, threading the state left to right.
pub open spec fn group_commands(events: Seq<MidiEvent>, s: GroupState, timing: Timing) -> Seq<
    FlanSeqCommand,
>
    decreases events.len(),
{
    if events.len() == 0 {
        Seq::empty()
    } else {
        event_commands(events[0], s, timing) + group_commands(
            events.drop_first(),
            step_state(events[0], s),
            timing,
        )
    }
}

/// The state a tick group leaves behind.
pub open spec fn group_final(events: Seq<MidiEvent>, s: GroupState) -> GroupState
    decreases events.len(),
{
    if events.len() == 0 {
        s
    } else {
        group_final(events.drop_first(), step_state(events[0], s))
    }
}

/// The gap the wait synthesis covers between two ticks: the tick delta,
/// truncated to the translator's 16-bit gap width.
pub open spec fn gap_of(prev: u64, t: u64) -> u16 {
    (t - prev) as u16
}

/// The commands the rest of the timeline emits: for each tick group, the
/// waits for the gap since the previously emitted tick, then the group's
/// own commands; the pitch-bend range persists from group to group while
/// the RPN selectors start unset at each group.
pub open spec fn translate_from(
    tl: TimelineView,
    prev: u64,
    range: PitchBendRange,
    timing: Timing,
) -> Seq<FlanSeqCommand>
    decreases tl.len(),
{
    if tl.len() == 0 {
        Seq::empty()
    } else {
        let tick = tl[0].0;
        let evs = tl[0].1;
        let start = fresh_group(range);
        gap_commands(gap_of(prev, tick)) + group_commands(evs, start, timing) + translate_from(
            tl.drop_first(),
            tick,
            group_final(evs, start).range,
            timing,
        )
    }
}

/// The full translation of a timeline: from tick 0, with the default
/// pitch-bend range of 2 semitones, 0 cents.
pub open spec fn spec_translate(tl: TimelineView, timing: Timing) -> Seq<FlanSeqCommand> {
    translate_from(tl, 0, PitchBendRange { coarse: 2, fine: 0 }, timing)
}

/// Whether a tick group holds a tempo meta-event.
pub open spec fn group_has_tempo(evs: Seq<MidiEvent>) -> bool {
    exists|j: int| 0 <= j < evs.len() && (#[trigger] evs[j]) is Tempo
}

/// Whether the timeline holds any tempo meta-event.
pub open spec fn has_tempo(tl: TimelineView) -> bool {
    exists|i: int| 0 <= i < tl.len() && group_has_tempo(#[trigger] tl[i].1)
}

/// Translate the timeline into the ordered command sequence. Fails exactly
/// when a tempo event must be translated under a timecode time division.
pub fn translate(timeline: &Timeline, timing: Timing) -> (r: Result<
    Vec<FlanSeqCommand>,
    TranslateError,
>)
    requires
        timeline.wf(),
    ensures
        (r matches Ok(out) ==> {
            &&& out@ == spec_translate(timeline@, timing)
            &&& !(timing is Timecode && has_tempo(timeline@))
            &&& forall|k: int| 0 <= k < out@.len() ==> (#[trigger] out@[k]).wf()
        }),
        (r matches Err(e) ==> {
            &&& e == TranslateError::TempoWithTimecodeDivision
            &&& timing is Timecode
            &&& has_tempo(timeline@)
        }),
{
    let ghost tlv = timeline@;
    let mut cmds: Vec<FlanSeqCommand> = Vec::new();
    let mut prev: u64 = 0;
    let mut coarse: u8 = 2;
    let mut fine: u8 = 0;
    let n = timeline.entries.len();
    proof {
        assert(tlv.skip(0) =~= tlv);
        assert(tlv.take(0) =~= Seq::<(u64, Seq<MidiEvent>)>::empty());
    }
    for i in 0..n
        invariant
            timeline.wf(),
            tlv == timeline@,
            n == timeline.entries@.len(),
            cmds@ + translate_from(
                tlv.skip(i as int),
                prev,
                (PitchBendRange { coarse, fine }),
                timing,
            ) == spec_translate(tlv, timing),
            i == 0 ==> prev == 0,
            i > 0 ==> prev == tlv[i as int - 1].0,
            forall|k: int| 0 <= k < cmds@.len() ==> (#[trigger] cmds@[k]).wf(),
            timing is Timecode ==> !has_tempo(tlv.take(i as int)),
    {
        let entry = &timeline.entries[i];
        let tick: u64 = entry.tick;
        let ghost prevold = prev;
        proof {
            assert(tlv[i as int] == (entry.tick, entry.events@));
            if i > 0 {
                assert(tlv[i as int - 1].0 < tlv[i as int].0);
            }
            assert(tlv.skip(i as int)[0] == tlv[i as int]);
            assert(tlv.skip(i as int).drop_first() =~= tlv.skip(i as int + 1));
        }
        let gap: u16 = (tick - prev) as u16;
        let mut gapcmds = make_gap_commands(gap);
        proof {
            lemma_gap_commands_wf(gap);
        }
        cmds.append(&mut gapcmds);
        prev = tick;
        let ghost gs0 = fresh_group(PitchBendRange { coarse, fine });
        let ghost gs = gs0;
        proof {
            assert(gap == gap_of(prevold, tick));
            assert(entry.events@.skip(0) =~= entry.events@);
            assert(cmds@ + group_commands(entry.events@, gs0, timing) + translate_from(
                tlv.skip(i as int + 1),
                tick,
                group_final(entry.events@, gs0).range,
                timing,
            ) =~= spec_translate(tlv, timing));
        }
        let mut cc100: Option<u8> = None;
        let mut cc101: Option<u8> = None;
        let m = entry.events.len();
        for j in 0..m
            invariant
                timeline.wf(),
                tlv == timeline@,
                n == timeline.entries@.len(),
                i < n,
                *entry == timeline.entries@[i as int],
                m == entry.events@.len(),
                tick == tlv[i as int].0,
                entry.events@ == tlv[i as int].1,
                gs == (GroupState { range: (PitchBendRange { coarse, fine }), cc100, cc101 }),
                cmds@ + group_commands(entry.events@.skip(j as int), gs, timing) + translate_from(
                    tlv.skip(i as int + 1),
                    tick,
                    group_final(entry.events@.skip(j as int), gs).range,
                    timing,
                ) == spec_translate(tlv, timing),
                forall|k: int| 0 <= k < cmds@.len() ==> (#[trigger] cmds@[k]).wf(),
                timing is Timecode ==> !has_tempo(tlv.take(i as int)) && !group_has_tempo(
                    entry.events@.take(j as int),
                ),
        {
            let ev = entry.events[j];
            let ghost gs_old = gs;
            let ghost cmds_old = cmds@;
            let ghost sfx = entry.events@.skip(j as int);
            proof {
                assert(sfx[0] == ev);
                assert(sfx.drop_first() =~= entry.events@.skip(j as int + 1));
                assert(tlv[i as int].1[j as int].wf());
            }
            match ev {
                MidiEvent::NoteOn { channel, key, velocity } => {
                    cmds.push(FlanSeqCommand::PlayNote { channel, key, velocity });
                },
                MidiEvent::NoteOff { channel, key } => {
                    cmds.push(FlanSeqCommand::ReleaseNote { channel, key });
                },
                MidiEvent::ProgramChange { channel, program } => {
                    let index: u8 = if channel == 9 {
                        program + 128
                    } else {
                        program
                    };
                    cmds.push(FlanSeqCommand::SetChannelInstrument { channel, index });
                },
                MidiEvent::PitchBend { channel, bend } => {
                    let pitch: i16 = compute_pitch(coarse, fine, bend);
                    cmds.push(FlanSeqCommand::SetChannelPitch { channel, pitch });
                },
                MidiEvent::Controller { channel, controller, value } => {
                    if controller == 7 {
                        cmds.push(FlanSeqCommand::SetChannelVolume { channel, volume: value });
                    } else if controller == 10 {
                        cmds.push(
                            FlanSeqCommand::SetChannelPanning { channel, panning: value * 2 },
                        );
                    } else if controller == 100 {
                        cc100 = Some(value);
                    } else if controller == 101 {
                        cc101 = Some(value);
                    } else if controller == 6 {
                        let zero_sel = match (cc100, cc101) {
                            (Some(0u8), Some(0u8)) => true,
                            _ => false,
                        };
                        if zero_sel {
                            coarse = value;
                        }
                    } else if controller == 38 {
                        let zero_sel = match (cc100, cc101) {
                            (Some(0u8), Some(0u8)) => true,
                            _ => false,
                        };
                        if zero_sel {
                            fine = value;
                        }
                    }
                },
                MidiEvent::Tempo { microseconds_per_quarter_note } => {
                    match timing {
                        Timing::Metrical { ticks_per_quarter_note } => {
                            let t: u16 = tempo_raw(
                                microseconds_per_quarter_note,
                                ticks_per_quarter_note,
                            );
                            cmds.push(FlanSeqCommand::SetTempo { tempo: t });
                        },
                        Timing::Timecode => {
                            proof {
                                assert(tlv[i as int].1[j as int] is Tempo);
                                assert(group_has_tempo(tlv[i as int].1));
                            }
                            return Err(TranslateError::TempoWithTimecodeDivision);
                        },
                    }
                },
                MidiEvent::TimeSignature { numerator, denominator_exponent } => {
                    cmds.push(
                        FlanSeqCommand::SetTimeSignature {
                            numerator,
                            denominator: 1u8 << denominator_exponent,
                        },
                    );
                },
                MidiEvent::Unsupported => {},
            }
            proof {
                gs = step_state(ev, gs_old);
                assert(cmds@ =~= cmds_old + event_commands(ev, gs_old, timing));
                assert(cmds@ + group_commands(entry.events@.skip(j as int + 1), gs, timing)
                    + translate_from(
                    tlv.skip(i as int + 1),
                    tick,
                    group_final(entry.events@.skip(j as int + 1), gs).range,
                    timing,
                ) =~= cmds_old + group_commands(sfx, gs_old, timing) + translate_from(
                    tlv.skip(i as int + 1),
                    tick,
                    group_final(sfx, gs_old).range,
                    timing,
                ));
                if timing is Timecode {
                    assert(entry.events@.take(j as int + 1).drop_last() =~= entry.events@.take(
                        j as int,
                    ));
                    assert(!group_has_tempo(entry.events@.take(j as int + 1))) by {
                        if group_has_tempo(entry.events@.take(j as int + 1)) {
                            let w = choose|k: int|
                                0 <= k < entry.events@.take(j as int + 1).len() && (
                                #[trigger] entry.events@.take(j as int + 1)[k]) is Tempo;
                            if w < j {
                                assert(entry.events@.take(j as int)[w] is Tempo);
                            } else {
                                assert(entry.events@.take(j as int + 1)[j as int] == ev);
                            }
                        }
                    }
                }
            }
        }
        proof {
            assert(entry.events@.skip(m as int) =~= Seq::<MidiEvent>::empty());
            if timing is Timecode {
                assert(entry.events@.take(m as int) =~= entry.events@);
                assert(!has_tempo(tlv.take(i as int + 1))) by {
                    if has_tempo(tlv.take(i as int + 1)) {
                        let w = choose|k: int|
                            0 <= k < tlv.take(i as int + 1).len() && group_has_tempo(
                                #[trigger] tlv.take(i as int + 1)[k].1,
                            );
                        if w < i {
                            assert(group_has_tempo(tlv.take(i as int)[w].1));
                        } else {
                            assert(tlv.take(i as int + 1)[w].1 == entry.events@);
                        }
                    }
                }
            }
        }
    }
    proof {
        assert(tlv.skip(n as int) =~= Seq::<(u64, Seq<MidiEvent>)>::empty());
        assert(tlv.take(n as int) =~= tlv);
    }
    Ok(cmds)
}

/// One of the two loop-point commands, reachable in the format but
/// reserved: the translator never produces them.
pub open spec fn is_loop_command(c: FlanSeqCommand) -> bool {
    c is SetLoopStart || c is JumpToLoopStart
}

proof fn lemma_event_commands_no_loop(e: MidiEvent, s: GroupState, timing: Timing)
    ensures
        forall|k: int|
            0 <= k < event_commands(e, s, timing).len() ==> !is_loop_command(
                #[trigger] event_commands(e, s, timing)[k],
            ),
{
}

proof fn lemma_group_commands_no_loop(evs: Seq<MidiEvent>, s: GroupState, timing: Timing)
    ensures
        forall|k: int|
            0 <= k < group_commands(evs, s, timing).len() ==> !is_loop_command(
                #[trigger] group_commands(evs, s, timing)[k],
            ),
    decreases evs.len(),
{
    if evs.len() > 0 {
        let head = event_commands(evs[0], s, timing);
        let tail = group_commands(evs.drop_first(), step_state(evs[0], s), timing);
        lemma_event_commands_no_loop(evs[0], s, timing);
        lemma_group_commands_no_loop(evs.drop_first(), step_state(evs[0], s), timing);
        assert forall|k: int|
            0 <= k < group_commands(evs, s, timing).len() implies !is_loop_command(
            group_commands(evs, s, timing)[k],
        ) by {
            if k < head.len() {
                assert(group_commands(evs, s, timing)[k] == head[k]);
            } else {
                assert(group_commands(evs, s, timing)[k] == tail[k - head.len()]);
            }
        }
    }
}

proof fn lemma_gap_commands_no_loop(g: u16)
    ensures
        forall|k: int|
            0 <= k < gap_commands(g).len() ==> !is_loop_command(#[trigger] gap_commands(g)[k]),
{
    crate::gaps::lemma_gap_decomposition(g);
    assert forall|k: int| 0 <= k < gap_commands(g).len() implies !is_loop_command(
        gap_commands(g)[k],
    ) by {
        assert(crate::gaps::greedy_entry_ok(g, gap_commands(g), k));
    }
}

proof fn lemma_translate_from_no_loop(
    tl: TimelineView,
    prev: u64,
    range: PitchBendRange,
    timing: Timing,
)
    ensures
        forall|k: int|
            0 <= k < translate_from(tl, prev, range, timing).len() ==> !is_loop_command(
                #[trigger] translate_from(tl, prev, range, timing)[k],
            ),
    decreases tl.len(),
{
    if tl.len() > 0 {
        let tick = tl[0].0;
        let evs = tl[0].1;
        let start = fresh_group(range);
        let gap = gap_commands(gap_of(prev, tick));
        let group = group_commands(evs, start, timing);
        let rest = translate_from(tl.drop_first(), tick, group_final(evs, start).range, timing);
        lemma_gap_commands_no_loop(gap_of(prev, tick));
        lemma_group_commands_no_loop(evs, start, timing);
        lemma_translate_from_no_loop(tl.drop_first(), tick, group_final(evs, start).range, timing);
        assert forall|k: int|
            0 <= k < translate_from(tl, prev, range, timing).len() implies !is_loop_command(
            translate_from(tl, prev, range, timing)[k],
        ) by {
            if k < gap.len() {
                assert(translate_from(tl, prev, range, timing)[k] == gap[k]);
            } else if k < gap.len() + group.len() {
                assert(translate_from(tl, prev, range, timing)[k] == group[k - gap.len()]);
            } else {
                assert(translate_from(tl, prev, range, timing)[k] == rest[k - gap.len()
                    - group.len()]);
            }
        }
    }
}

/// Law: the translator never emits the reserved loop-point commands; they
/// exist in the format for future loop support only.
pub proof fn lemma_translate_never_emits_loops(tl: TimelineView, timing: Timing)
    ensures
        forall|k: int|
            0 <= k < spec_translate(tl, timing).len() ==> !is_loop_command(
                #[trigger] spec_translate(tl, timing)[k],
            ),
{
    lemma_translate_from_no_loop(tl, 0, PitchBendRange { coarse: 2, fine: 0 }, timing);
}

/// Law (RPN scoping, one step): a data-entry controller (6 or 38) leaves
/// the stored pitch-bend range unchanged unless both selectors were set to
/// 0 in the same tick group, and updates exactly its half of the range when
/// they were.
pub proof fn lemma_rpn_step(e: MidiEvent, s: GroupState)
    ensures
        ((e matches MidiEvent::Controller { controller, .. } && (controller == 6 || controller
            == 38)) && !rpn_zero_selected(s)) ==> step_state(e, s).range == s.range,
        ((e matches MidiEvent::Controller { controller, .. } && controller == 6)
            && rpn_zero_selected(s)) ==> step_state(e, s).range == (PitchBendRange {
            coarse: e->Controller_value,
            fine: s.range.fine,
        }),
        ((e matches MidiEvent::Controller { controller, .. } && controller == 38)
            && rpn_zero_selected(s)) ==> step_state(e, s).range == (PitchBendRange {
            coarse: s.range.coarse,
            fine: e->Controller_value,
        }),
{
}

/// Law (RPN scoping, whole group): a selector pair followed by data entry
/// in one tick group updates the stored range exactly when both selectors
/// are 0; with any other selector pair the range survives untouched.
pub proof fn lemma_rpn_group(ch: u8, sel100: u8, sel101: u8, c: u8, f: u8, range: PitchBendRange)
    ensures
        sel100 == 0 && sel101 == 0 ==> group_final(
            seq![
                MidiEvent::Controller { channel: ch, controller: 100, value: sel100 },
                MidiEvent::Controller { channel: ch, controller: 101, value: sel101 },
                MidiEvent::Controller { channel: ch, controller: 6, value: c },
                MidiEvent::Controller { channel: ch, controller: 38, value: f },
            ],
            fresh_group(range),
        ).range == (PitchBendRange { coarse: c, fine: f }),
        !(sel100 == 0 && sel101 == 0) ==> group_final(
            seq![
                MidiEvent::Controller { channel: ch, controller: 100, value: sel100 },
                MidiEvent::Controller { channel: ch, controller: 101, value: sel101 },
                MidiEvent::Controller { channel: ch, controller: 6, value: c },
                MidiEvent::Controller { channel: ch, controller: 38, value: f },
            ],
            fresh_group(range),
        ).range == range,
{
    let e1 = MidiEvent::Controller { channel: ch, controller: 100, value: sel100 };
    let e2 = MidiEvent::Controller { channel: ch, controller: 101, value: sel101 };
    let e3 = MidiEvent::Controller { channel: ch, controller: 6, value: c };
    let e4 = MidiEvent::Controller { channel: ch, controller: 38, value: f };
    let evs = seq![e1, e2, e3, e4];
    let s0 = fresh_group(range);
    let s1 = step_state(e1, s0);
    let s2 = step_state(e2, s1);
    let s3 = step_state(e3, s2);
    assert(evs.drop_first() =~= seq![e2, e3, e4]);
    assert(seq![e2, e3, e4].drop_first() =~= seq![e3, e4]);
    assert(seq![e3, e4].drop_first() =~= seq![e4]);
    assert(seq![e4].drop_first() =~= Seq::<MidiEvent>::empty());
    assert(group_final(evs, s0) == group_final(seq![e2, e3, e4], s1));
    assert(group_final(seq![e2, e3, e4], s1) == group_final(seq![e3, e4], s2));
    assert(group_final(seq![e3, e4], s2) == group_final(seq![e4], s3));
    assert(group_final(seq![e4], s3) == group_final(
        Seq::<MidiEvent>::empty(),
        step_state(e4, s3),
    ));
    assert(group_final(Seq::<MidiEvent>::empty(), step_state(e4, s3)) == step_state(e4, s3));
}

} // verus!
