//! Transcoder from decoded MIDI event tracks to the FDSS binary sequence
//! format: tracks are merged into one time-ordered timeline, the timeline is
//! translated into fixed-shape playback commands (with synthesized waits for
//! the gaps between ticks), and the commands are serialized behind a fixed
//! container header.

pub mod commands;
pub mod encode;
pub mod events;
pub mod gaps;
pub mod timeline;
pub mod translate;

use vstd::prelude::*;

use crate::encode::encode;
use crate::encode::spec_encode;
use crate::events::Timing;
use crate::timeline::DeltaEvent;
use crate::timeline::TimelineView;
use crate::timeline::delta_sum;
use crate::timeline::merge_tracks;
use crate::timeline::merged_timeline;
use crate::timeline::tracks_events_wf;
use crate::timeline::tracks_view;
use crate::translate::TranslateError;
use crate::translate::has_tempo;
use crate::translate::spec_translate;
use crate::translate::translate;

verus! {

/// Run the whole pipeline: merge the decoded tracks into one timeline,
/// translate it into commands, and encode the output buffer. Fails exactly
/// when a tempo event must be translated under a timecode time division.
pub fn transcode(tracks: &Vec<Vec<DeltaEvent>>, timing: Timing) -> (r: Result<
    Vec<u8>,
    TranslateError,
>)
    requires
        forall|i: int|
            0 <= i < tracks@.len() ==> delta_sum(#[trigger] tracks@[i]@) <= u64::MAX,
        tracks_events_wf(tracks_view(tracks@)),
    ensures
        (r matches Ok(bytes) ==> {
            &&& bytes@ == spec_encode(
                spec_translate(merged_timeline(tracks_view(tracks@)), timing),
            )
            &&& !(timing is Timecode && has_tempo(merged_timeline(tracks_view(tracks@))))
        }),
        (r matches Err(e) ==> {
            &&& e == TranslateError::TempoWithTimecodeDivision
            &&& timing is Timecode
            &&& has_tempo(merged_timeline(tracks_view(tracks@)))
        }),
{
    let tl = merge_tracks(tracks);
    match translate(&tl, timing) {
        Ok(cmds) => Ok(encode(cmds)),
        Err(e) => Err(e),
    }
}

/// Law (determinism): the output bytes are a function of the timeline and
/// the time division alone — translating the same timeline twice yields
/// byte-identical output.
pub proof fn lemma_transcode_deterministic(a: TimelineView, b: TimelineView, timing: Timing)
    requires
        a == b,
    ensures
        spec_encode(spec_translate(a, timing)) == spec_encode(spec_translate(b, timing)),
{
}

} // verus!
