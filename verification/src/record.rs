//! Records of a session, for analysis.
use vstd::prelude::*;

use crate::clock::{elapsed, Duration, Instant};
use crate::episode::EpisodeSummary;
use crate::session::Report;

verus! {

/// All JSONL record types. Timestamps are the time since the session started.
#[derive(Debug)]
pub enum Record {
    SessionStart {
        timestamp: Duration,
        label: Option<String>,
        motion_threshold: u16,
        activation_window_ms: u64,
        activation_ratio: u16,
        device: String,
        keyboard_device: Option<String>,
    },
    FingerDown { timestamp: Duration, episode_id: u64 },
    FingerUp { timestamp: Duration, episode_id: u64, was_active: bool },
    Sample {
        timestamp: Duration,
        episode_id: u64,
        x: i32,
        y: i32,
        dx: i32,
        dy: i32,
        /// The square of the displacement.
        displacement_sq: i32,
        is_motion: bool,
        glide_state: String,
        /// The number of samples with motion in the rolling window, and of all samples in it.
        window_motion_ratio: Option<(usize, usize)>,
        kb_presses_last_500ms: Option<u32>,
        kb_presses_last_1000ms: Option<u32>,
    },
    EpisodeSummary { label: Option<String>, start: Duration, end: Duration, summary: EpisodeSummary },
}

/// Whether two optional texts are the same.
pub open spec fn same_label(a: Option<String>, b: Option<String>) -> bool {
    match a {
        Some(a) => b matches Some(b) && a@ == b@,
        None => b is None,
    }
}

/// What a state of activity is called.
pub open spec fn state_name(active: bool) -> Seq<char> {
    if active {
        "active"@
    } else {
        "inactive"@
    }
}

/// Whether `records` are what is written of `report` in a session that started at `start`. A
/// finger that comes down makes one record. One that is lifted makes a record and then the summary
/// of the episode that it ends, a sample one record; both make none without an episode.
pub open spec fn records_of(
    records: Seq<Record>,
    report: Report,
    start: Instant,
    label: Option<String>,
    presses: Option<(u32, u32)>,
) -> bool {
    match report {
        Report::FingerDown { at, episode_id } => {
            &&& records.len() == 1
            &&& records[0] matches Record::FingerDown { timestamp, episode_id: id } && timestamp@
                == elapsed(at@, start@) && id == episode_id
        },
        Report::FingerUp { at, was_active, summary, .. } => match summary {
            Some(summary) => {
                &&& records.len() == 2
                &&& records[0] matches Record::FingerUp {
                    timestamp,
                    episode_id,
                    was_active: active,
                } && timestamp@ == elapsed(at@, start@) && episode_id == summary.id && active
                    == was_active
                &&& records[1] matches Record::EpisodeSummary {
                    label: l,
                    start: s,
                    end: e,
                    summary: written,
                } && same_label(l, label) && s@ == elapsed(summary.start@, start@) && e@ == elapsed(
                    summary.end@,
                    start@,
                ) && written == summary
            },
            None => records.len() == 0,
        },
        Report::Sample { sample, episode_id, is_motion, active, motion_ratio, .. } => {
            match episode_id {
                Some(id) => {
                    &&& records.len() == 1
                    &&& records[0] is Sample
                    &&& records[0]->Sample_timestamp@ == elapsed(sample.timestamp@, start@)
                    &&& records[0]->Sample_episode_id == id
                    &&& records[0]->x == sample.x
                    &&& records[0]->y == sample.y
                    &&& records[0]->dx == sample.dx
                    &&& records[0]->dy == sample.dy
                    &&& records[0]->displacement_sq == sample.displacement_sq
                    &&& records[0]->is_motion == is_motion
                    &&& records[0]->glide_state@ == state_name(active)
                    &&& records[0]->window_motion_ratio == motion_ratio
                    &&& match presses {
                        Some((half, full)) => records[0]->kb_presses_last_500ms == Some(half)
                            && records[0]->kb_presses_last_1000ms == Some(full),
                        None => records[0]->kb_presses_last_500ms is None
                            && records[0]->kb_presses_last_1000ms is None,
                    }
                },
                None => records.len() == 0,
            }
        },
    }
}

/// Makes the records of a session.
pub struct RecordWriter {
    start: Instant,
}

impl View for RecordWriter {
    type V = Instant;

    closed spec fn view(&self) -> Instant {
        self.start
    }
}

impl RecordWriter {
    /// A writer for a session that started at `start`.
    pub fn new(start: Instant) -> (r: Self)
        ensures
            r@ == start,
    {
        RecordWriter { start }
    }

    /// The time from the start of the session to `now`.
    pub fn ts(&self, now: Instant) -> (span: Duration)
        ensures
            span@ == elapsed(now@, self@@),
    {
        now.duration_since(self.start)
    }

    /// What is written of a report. The label is the one that the session has, and the presses are
    /// those of the last half second and the last second, if a keyboard is observed.
    pub fn records(
        &self,
        report: Report,
        label: &Option<String>,
        presses: Option<(u32, u32)>,
    ) -> (records: Vec<Record>)
        ensures
            records_of(records@, report, self@, *label, presses),
    {
        let mut records: Vec<Record> = Vec::new();
        match report {
            Report::FingerDown { at, episode_id } => {
                records.push(Record::FingerDown { timestamp: self.ts(at), episode_id });
            },
            Report::FingerUp { at, was_active, change: _, summary } => {
                if let Some(summary) = summary {
                    records.push(
                        Record::FingerUp {
                            timestamp: self.ts(at),
                            episode_id: summary.id,
                            was_active,
                        },
                    );
                    let start = self.ts(summary.start);
                    let end = self.ts(summary.end);
                    let label = match label {
                        Some(text) => Some(text.clone()),
                        None => None,
                    };
                    records.push(Record::EpisodeSummary { label, start, end, summary });
                }
            },
            Report::Sample { sample, episode_id, is_motion, active, change: _, motion_ratio } => {
                if let Some(episode_id) = episode_id {
                    let (half, full) = match presses {
                        Some((half, full)) => (Some(half), Some(full)),
                        None => (None, None),
                    };
                    records.push(
                        Record::Sample {
                            timestamp: self.ts(sample.timestamp),
                            episode_id,
                            x: sample.x,
                            y: sample.y,
                            dx: sample.dx,
                            dy: sample.dy,
                            displacement_sq: sample.displacement_sq,
                            is_motion,
                            glide_state: if active {
                                "active".to_owned()
                            } else {
                                "inactive".to_owned()
                            },
                            window_motion_ratio: motion_ratio,
                            kb_presses_last_500ms: half,
                            kb_presses_last_1000ms: full,
                        },
                    );
                }
            },
        }
        records
    }
}

/// A finger that comes down makes one record, with its time and its episode.
pub proof fn law_record_of_finger_down(
    records: Seq<Record>,
    at: Instant,
    episode_id: u64,
    start: Instant,
    label: Option<String>,
    presses: Option<(u32, u32)>,
)
    requires
        records_of(records, Report::FingerDown { at, episode_id }, start, label, presses),
    ensures
        records.len() == 1,
        records[0] is FingerDown,
        records[0]->FingerDown_episode_id == episode_id,
        at@ >= start@ ==> start@ + records[0]->FingerDown_timestamp@ == at@,
        at@ < start@ ==> records[0]->FingerDown_timestamp@ == 0,
{
}

/// A finger that is lifted makes two records, of itself and of the episode that it ends, which
/// agree on the episode; the second has the summary as it is, and the label of the session. Without
/// an episode there are none.
pub proof fn law_records_of_finger_up(
    records: Seq<Record>,
    report: Report,
    start: Instant,
    label: Option<String>,
    presses: Option<(u32, u32)>,
)
    requires
        report is FingerUp,
        records_of(records, report, start, label, presses),
    ensures
        report->summary is None ==> records.len() == 0,
        report->summary matches Some(summary) ==> {
            &&& records.len() == 2
            &&& records[0] is FingerUp
            &&& records[0]->FingerUp_episode_id == summary.id
            &&& records[0]->was_active == report->was_active
            &&& report->FingerUp_at@ >= start@ ==> start@ + records[0]->FingerUp_timestamp@
                == report->FingerUp_at@
            &&& report->FingerUp_at@ < start@ ==> records[0]->FingerUp_timestamp@ == 0
            &&& records[1] is EpisodeSummary
            &&& records[1]->summary == summary
            &&& summary.start@ >= start@ ==> start@ + records[1]->start@ == summary.start@
            &&& summary.start@ < start@ ==> records[1]->start@ == 0
            &&& summary.end@ >= start@ ==> start@ + records[1]->end@ == summary.end@
            &&& summary.end@ < start@ ==> records[1]->end@ == 0
            &&& label is Some <==> records[1]->EpisodeSummary_label is Some
            &&& label is Some ==> records[1]->EpisodeSummary_label->0@ == label->0@
        },
{
}

/// A sample makes one record, with its own figures, what it was classified as, the state of
/// activity by name, the window and the key presses as they are. Without an episode there is none.
pub proof fn law_record_of_sample(
    records: Seq<Record>,
    report: Report,
    start: Instant,
    label: Option<String>,
    presses: Option<(u32, u32)>,
)
    requires
        report is Sample,
        records_of(records, report, start, label, presses),
    ensures
        report->Sample_episode_id is None ==> records.len() == 0,
        report->Sample_episode_id matches Some(id) ==> {
            let s = report->sample;
            &&& records.len() == 1
            &&& records[0] is Sample
            &&& records[0]->Sample_episode_id == id
            &&& s.timestamp@ >= start@ ==> start@ + records[0]->Sample_timestamp@ == s.timestamp@
            &&& s.timestamp@ < start@ ==> records[0]->Sample_timestamp@ == 0
            &&& records[0]->x == s.x && records[0]->y == s.y
            &&& records[0]->dx == s.dx && records[0]->dy == s.dy
            &&& records[0]->displacement_sq == s.displacement_sq
            &&& records[0]->is_motion == report->is_motion
            &&& report->active ==> records[0]->glide_state@ == "active"@
            &&& !report->active ==> records[0]->glide_state@ == "inactive"@
            &&& records[0]->window_motion_ratio == report->motion_ratio
            &&& presses is None ==> records[0]->kb_presses_last_500ms is None
                && records[0]->kb_presses_last_1000ms is None
            &&& presses matches Some((half, full)) ==> records[0]->kb_presses_last_500ms == Some(
                half,
            ) && records[0]->kb_presses_last_1000ms == Some(full)
        },
{
}

} // verus!
