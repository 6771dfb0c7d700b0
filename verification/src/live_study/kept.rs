//! What a session keeps of each item that reaches it, and what it leaves alone.

use vstd::prelude::*;
use vstd::string::*;
use crate::live_study::axis::TraceFrame;
use crate::live_study::console::{newlines, one_line_per_newline, ConsoleState, Line, Stamp};
use crate::live_study::follow::{FollowOutcome, RecordRead};
use crate::live_study::lane::{LaneState, MarkState, MAX_LIVE_MARKS};
use crate::live_study::series::{Point, SeriesState};
use crate::live_study::session::{
    after_samples, held, kept_samples, marks_change_only_lanes, FeedCounts, FeedRow, FollowItem,
    FollowMode, Frame, GattEntry, LiveSample, Reply, Session, StatusView, StepResult, StudyEvent, MARK_LABEL_CHARS,
    MAX_FEED_EVENTS, MAX_STEPS,
};

verus! {

// ---- steps -------------------------------------------------------------------

/// A step whose two ends are known is kept under the name of its own outcome, with the
/// reason only where it failed, between the ends it ran between: no outcome is told as
/// another.
pub proof fn a_step_is_kept_as_it_ended(
    s: Session,
    step_index: u32,
    result: StepResult,
    from: u64,
    to: u64,
    delay_before_ms: Option<u32>,
)
    requires
        s.step_stamps.len() < MAX_STEPS,
    ensures
        ({
            let after = s.after(
                FollowItem::Event(
                    StudyEvent::StepCompleted {
                        step_index,
                        result,
                        started_utc_ms: Some(from),
                        ended_utc_ms: Some(to),
                        delay_before_ms,
                    },
                ),
            );
            let stamp = after.step_stamps.last();
            &&& after.step_stamps.len() == s.step_stamps.len() + 1
            &&& after.step_stamps.drop_last() == s.step_stamps
            &&& stamp.index == step_index
            &&& stamp.name == result.step_name@
            &&& stamp.outcome == "Pass"@ <==> result.outcome is Pass
            &&& stamp.outcome == "TimedOut"@ <==> result.outcome is TimedOut
            &&& stamp.outcome == "Fail"@ <==> result.outcome is Fail
            &&& stamp.reason is Some <==> result.outcome is Fail
            &&& result.outcome is Fail ==> stamp.reason == Some(result.outcome->reason@)
            &&& stamp.started_utc_ms == from
            &&& stamp.ended_utc_ms == to
            &&& delay_before_ms is Some ==> stamp.delay_before_ms == delay_before_ms->0
            &&& delay_before_ms is None ==> stamp.delay_before_ms == 0
            &&& after.current_step == Some(step_index)
        }),
{
    reveal_strlit("Pass");
    reveal_strlit("TimedOut");
    reveal_strlit("Fail");
    assert("Pass"@[0] != "Fail"@[0]);
    assert("Pass"@[0] != "TimedOut"@[0]);
    assert("Fail"@[0] != "TimedOut"@[0]);
    let after = s.after(
        FollowItem::Event(
            StudyEvent::StepCompleted {
                step_index,
                result,
                started_utc_ms: Some(from),
                ended_utc_ms: Some(to),
                delay_before_ms,
            },
        ),
    );
    assert(after.step_stamps.drop_last() =~= s.step_stamps);
}

/// Every finished step is shown as long as there is room for it, and moves the study to
/// it; one whose ends are not both known is stamped nowhere.
pub proof fn a_step_is_shown_with_or_without_its_ends(
    s: Session,
    step_index: u32,
    result: StepResult,
    started_utc_ms: Option<u64>,
    ended_utc_ms: Option<u64>,
    delay_before_ms: Option<u32>,
)
    ensures
        ({
            let after = s.after(
                FollowItem::Event(
                    StudyEvent::StepCompleted {
                        step_index,
                        result,
                        started_utc_ms,
                        ended_utc_ms,
                        delay_before_ms,
                    },
                ),
            );
            &&& s.steps.len() < MAX_STEPS ==> after.steps.len() == s.steps.len() + 1
                && after.steps.last() == (step_index, result.record@)
            &&& s.steps.is_prefix_of(after.steps)
            &&& s.step_stamps.is_prefix_of(after.step_stamps)
            &&& started_utc_ms is None || ended_utc_ms is None ==> after.step_stamps
                == s.step_stamps
            &&& after.current_step == Some(step_index)
            &&& after.status == s.status
            &&& after.lanes == s.lanes
            &&& after.series == s.series
            &&& after.consoles == s.consoles
            &&& after.axis == s.axis
        }),
{
}

// ---- the feed ----------------------------------------------------------------

/// A row that is fed is the last one, with the next number and what was said. Of the rows
/// before it at most the oldest is gone, and only from a full feed; what went is counted.
pub proof fn a_row_is_fed_last(s: Session, kind: Seq<char>, text: Seq<char>)
    requires
        s.feed.len() <= MAX_FEED_EVENTS,
        s.feed_dropped + s.feed.len() == s.feed_total,
    ensures
        ({
            let after = s.fed(kind, text);
            &&& after.feed.len() > 0
            &&& after.feed.last().kind == kind
            &&& after.feed.last().text == text
            &&& after.feed.last().seq == s.seq + 1
            &&& after.seq == s.seq + 1
            &&& after.feed.len() <= MAX_FEED_EVENTS
            &&& after.feed_total == s.feed_total + 1
            &&& after.feed_dropped + after.feed.len() == after.feed_total
            &&& after.feed_dropped <= s.feed_dropped + 1
            &&& after.feed_dropped > s.feed_dropped ==> s.feed.len() == MAX_FEED_EVENTS
            &&& after.feed.drop_last() == s.feed.skip(after.feed_dropped - s.feed_dropped)
            &&& after == (Session {
                seq: after.seq,
                feed: after.feed,
                feed_total: after.feed_total,
                feed_dropped: after.feed_dropped,
                ..s
            })
        }),
{
    let after = s.fed(kind, text);
    assert(after.feed.drop_last() =~= s.feed.skip(after.feed_dropped - s.feed_dropped));
}

/// What the feed is filtered on says which item a row is of.
pub proof fn a_row_says_what_it_is_of(s: Session, item: FollowItem)
    requires
        s.feed.len() <= MAX_FEED_EVENTS,
        !(item is Event && (item->Event_0 is StreamText || item->Event_0 is OutpostRows)),
    ensures
        ({
            let row = s.after(item).feed.last();
            &&& s.after(item).feed_total == s.feed_total + 1
            &&& row.seq == s.seq + 1
            &&& row.kind == "transport"@ <==> item is Transport
            &&& row.kind == "lagged"@ <==> item is Lagged
            &&& row.kind == "unrecognized"@ <==> item is Unrecognized
            &&& row.kind == "polled"@ <==> item is Polled
            &&& row.kind == "status"@ <==> item is Event && item->Event_0 is StatusChanged
            &&& row.kind == "step"@ <==> item is Event && item->Event_0 is StepCompleted
            &&& row.kind == "samples"@ <==> item is Event && item->Event_0 is SampleBatch
            &&& row.kind == "gatt"@ <==> item is Event && item->Event_0 is GattTranscript
        }),
{
    reveal_strlit("transport");
    reveal_strlit("lagged");
    reveal_strlit("unrecognized");
    reveal_strlit("polled");
    reveal_strlit("status");
    reveal_strlit("step");
    reveal_strlit("samples");
    reveal_strlit("gatt");
    assert("status"@[1] != "samples"@[1]);
    assert("status"@.len() != "step"@.len());
    assert("step"@.len() != "samples"@.len());
    assert("step"@[0] != "gatt"@[0]);
    assert("polled"@[0] != "status"@[0]);
    assert("polled"@[0] != "lagged"@[0]);
    assert("status"@[0] != "lagged"@[0]);
    assert("transport"@.len() == 9);
    assert("unrecognized"@.len() == 12);
}

// ---- the status --------------------------------------------------------------

/// A change of transport says which mode is in force, in the words that came with it, and
/// touches nothing of the study.
pub proof fn a_transport_change_says_its_mode(s: Session, mode: FollowMode, detail: String)
    ensures
        ({
            let after = s.after(FollowItem::Transport { mode, detail });
            &&& after.mode == "live"@ <==> mode is Live
            &&& after.mode == "polling"@ <==> mode is Polling
            &&& after.mode_detail == Some(detail@)
            &&& after.status == s.status
            &&& after.reason == s.reason
            &&& after.current_step == s.current_step
            &&& after.total_steps == s.total_steps
            &&& after.lagged == s.lagged
        }),
{
    reveal_strlit("live");
    reveal_strlit("polling");
    assert("live"@.len() != "polling"@.len());
}

/// A status that was polled replaces the whole card; one that changed replaces what it
/// says, and its reason only where it gives one.
pub proof fn a_status_is_what_was_last_said(
    s: Session,
    status: String,
    current_step: Option<u32>,
    total_steps: Option<u32>,
    reason: Option<String>,
)
    ensures
        ({
            let polled = s.after(
                FollowItem::Polled { status, current_step, total_steps, reason },
            );
            &&& polled.status == status@
            &&& polled.current_step == current_step
            &&& polled.total_steps == total_steps
            &&& polled.reason is Some <==> reason is Some
            &&& reason is Some ==> polled.reason == Some(reason->0@)
            &&& polled.mode == s.mode
            &&& polled.lagged == s.lagged
        }),
        ({
            let changed = s.after(
                FollowItem::Event(StudyEvent::StatusChanged { status, reason }),
            );
            &&& changed.status == status@
            &&& reason is Some ==> changed.reason == Some(reason->0@)
            &&& reason is None ==> changed.reason == s.reason
            &&& changed.current_step == s.current_step
            &&& changed.total_steps == s.total_steps
        }),
{
}

/// The end of a follow finishes the session. What it says of the study stands, and what it
/// does not say stays; a follow that failed says nothing of the study but that it is no
/// longer watched.
pub proof fn an_end_finishes_a_session(s: Session, outcome: FollowOutcome, record: RecordRead)
    ensures
        ({
            let after = s.closed(outcome, record);
            &&& after.finished
            &&& after.feed == s.feed
            &&& after.steps == s.steps
            &&& after.lanes == s.lanes
            &&& outcome matches FollowOutcome::Failed { error } ==> {
                &&& after.status == s.status
                &&& after.reason == s.reason
                &&& after.record_note is Some
                &&& after.provenance == s.provenance
                &&& after.streams == s.streams
            }
            &&& outcome matches FollowOutcome::Ended { terminal_status, reason } ==> {
                &&& terminal_status is Some ==> after.status == terminal_status->0@
                &&& terminal_status is None ==> after.status == s.status && after.provenance
                    == s.provenance && after.record_note == s.record_note
                &&& reason is Some ==> after.reason == Some(reason->0@)
                &&& reason is None ==> after.reason == s.reason
                &&& terminal_status is Some && record is Read && record->result is Some ==> {
                    &&& after.provenance == Some(record->result->0.provenance@)
                    &&& record->result->0.streams is Some ==> after.streams == Some(
                        record->result->0.streams->0@,
                    )
                    &&& after.record_note == s.record_note
                }
                &&& terminal_status is Some && record is Failed ==> after.record_note is Some
                    && after.provenance == s.provenance
            }
        }),
{
}

// ---- marks -------------------------------------------------------------------

/// A mark is the last one on its lane, and of those before it at most the oldest is gone.
pub proof fn a_mark_is_put_last(lane: LaneState, mark: MarkState)
    requires
        lane.wf(),
    ensures
        ({
            let after = lane.after(mark);
            &&& after.wf()
            &&& after.marks.last() == mark
            &&& after.total == lane.total + 1
            &&& after.dropped <= lane.dropped + 1
            &&& after.dropped > lane.dropped ==> lane.marks.len() == MAX_LIVE_MARKS
            &&& after.marks.drop_last() == lane.marks.skip(after.dropped - lane.dropped)
            &&& after.label == lane.label
            &&& after.kind == lane.kind
            &&& after.marks.len() - after.emitted >= lane.marks.len() - lane.emitted
        }),
{
    let after = lane.after(mark);
    assert(after.marks.drop_last() =~= lane.marks.skip(after.dropped - lane.dropped));
}

/// A GATT entry is marked once, on the transcript's lane, at the instant it was received;
/// one that Core did not stamp is marked nowhere.
pub proof fn a_gatt_entry_is_marked_where_it_was_received(
    s: Session,
    step_index: u32,
    entry: GattEntry,
    core_rx_utc_ms: Option<u64>,
)
    ensures
        ({
            let after = s.after(
                FollowItem::Event(
                    StudyEvent::GattTranscript { step_index, entry, core_rx_utc_ms },
                ),
            );
            let key = "gatt:gatt"@;
            let empty = LaneState::empty();
            &&& core_rx_utc_ms is None ==> after.lanes == s.lanes
            &&& core_rx_utc_ms matches Some(at) ==> {
                &&& after.lanes.contains_key(key)
                &&& after.lanes[key].total == held(s.lanes, key, empty).total + 1
                &&& after.lanes[key].marks.last().core_rx_utc_ms == at
                &&& after.lanes[key].marks.last().sub == entry.direction@ + " "@ + entry.kind@
                &&& held(s.lanes, key, empty).label.len() == 0 ==> after.lanes[key].kind == "gatt"@
            }
            &&& after.consoles == s.consoles
            &&& after.series == s.series
            &&& after.steps == s.steps
        }),
{
}

proof fn lines_are_marked(s: Session, key: Seq<char>, label: Seq<char>, at: u64, list: Seq<Line>)
    ensures
        ({
            let after = s.marked_lines(key, label, at, list);
            let empty = LaneState::empty();
            &&& held(after.lanes, key, empty).total == held(s.lanes, key, empty).total + list.len()
            &&& list.len() > 0 ==> {
                let mark = after.lanes[key].marks.last();
                &&& after.lanes.contains_key(key)
                &&& mark.core_rx_utc_ms == at
                &&& mark.label.is_prefix_of(list.last().text)
                &&& list.last().text.len() <= MARK_LABEL_CHARS ==> mark.label == list.last().text
                &&& list.last().text.len() > MARK_LABEL_CHARS ==> mark.label.len()
                    == MARK_LABEL_CHARS
            }
        }),
    decreases list.len(),
{
    if list.len() > 0 {
        lines_are_marked(s, key, label, at, list.drop_last());
    }
}

/// Console text makes a mark for each line it completes, all at the instant the chunk was
/// received; text that Core did not stamp makes none. No other console is touched.
pub proof fn each_completed_line_is_marked(
    s: Session,
    stream_name: String,
    step_index: u32,
    rx_utc_ms: u64,
    core_rx_utc_ms: Option<u64>,
    text: String,
    other: Seq<char>,
)
    ensures
        ({
            let after = s.after(
                FollowItem::Event(
                    StudyEvent::StreamText {
                        stream_name,
                        step_index,
                        rx_utc_ms,
                        core_rx_utc_ms,
                        text,
                    },
                ),
            );
            let key = "console:"@ + stream_name@;
            let empty = LaneState::empty();
            &&& core_rx_utc_ms is None ==> after.lanes == s.lanes
            &&& core_rx_utc_ms matches Some(at) ==> {
                &&& held(after.lanes, key, empty).total == held(s.lanes, key, empty).total
                    + newlines(text@)
                &&& newlines(text@) > 0 ==> after.lanes[key].marks.last().core_rx_utc_ms == at
            }
            &&& after.seq == s.seq + newlines(text@)
            &&& other != stream_name@ ==> after.consoles.contains_key(other)
                == s.consoles.contains_key(other) && after.consoles[other] == s.consoles[other]
            &&& after.series == s.series
            &&& after.status == s.status
        }),
{
    let stamp = Stamp { step_index, rx_utc_ms };
    let taken = s.chunked(stream_name@, stamp, text@);
    let done = s.chunk_lines(stream_name@, stamp, text@);
    one_line_per_newline(
        held(s.consoles, stream_name@, ConsoleState::empty()),
        s.seq,
        stamp,
        text@,
    );
    if let Some(at) = core_rx_utc_ms {
        let key = "console:"@ + stream_name@;
        lines_are_marked(taken, key, stream_name@, at, done);
        marks_change_only_lanes(taken, key, stream_name@, at, done);
    }
}

/// Where a batch goes: to the series of its own tap, every sample of it counted, and
/// nowhere else.
pub proof fn a_batch_goes_to_its_own_series(
    s: Session,
    stream_name: String,
    samples: Vec<LiveSample>,
    other: Seq<char>,
)
    requires
        other != stream_name@,
    ensures
        ({
            let after = s.after(
                FollowItem::Event(StudyEvent::SampleBatch { stream_name, samples }),
            );
            &&& after.series.contains_key(stream_name@)
            &&& after.series[stream_name@].total == held(
                s.series,
                stream_name@,
                SeriesState::empty(),
            ).total + samples@.len()
            &&& after.series.contains_key(other) == s.series.contains_key(other)
            &&& after.series[other] == s.series[other]
            &&& after.lanes == s.lanes
            &&& after.consoles == s.consoles
        }),
{
    samples_are_counted(held(s.series, stream_name@, SeriesState::empty()), samples@);
}

proof fn samples_are_counted(series: SeriesState, samples: Seq<LiveSample>)
    ensures
        crate::live_study::session::after_samples(series, samples).total == series.total
            + samples.len(),
    decreases samples.len(),
{
    if samples.len() > 0 {
        samples_are_counted(series, samples.drop_last());
    }
}

/// A frame of a trace moves the axis and nothing else.
pub proof fn a_trace_frame_moves_only_the_axis(s: Session, frame: TraceFrame)
    ensures
        ({
            let after = s.after(FollowItem::Event(StudyEvent::OutpostRows { frame }));
            after == (Session { axis: after.axis, ..s })
        }),
{
}

// ---- what is told ------------------------------------------------------------

/// A status card says what its session holds, each under its own name.
pub proof fn a_status_card_is_its_sessions(card: StatusView, s: Session)
    requires
        card.tells(s),
    ensures
        card.status@ == s.status,
        card.reason is Some <==> s.reason is Some,
        card.reason is Some ==> card.reason->0@ == s.reason->0,
        card.current_step == s.current_step,
        card.total_steps == s.total_steps,
        card.study_name is Some <==> s.study_name is Some,
        card.study_name is Some ==> card.study_name->0@ == s.study_name->0,
        card.mode@ == s.mode,
        card.mode_detail is Some <==> s.mode_detail is Some,
        card.mode_detail is Some ==> card.mode_detail->0@ == s.mode_detail->0,
        card.lagged == s.lagged,
        card.finished == s.finished,
        card.record_note is Some <==> s.record_note is Some,
        card.record_note is Some ==> card.record_note->0@ == s.record_note->0,
{
}

/// Each item is told as what it is: a step as a step, under its own number and record; a
/// transcript entry as one; a frame of a trace as a chart to redraw; and whatever changes the
/// session as a whole with its status.
pub proof fn each_item_is_told_as_what_it_is(s: Session, item: FollowItem, told: Reply)
    requires
        told.tells(s, item, s.after(item)),
    ensures
        item is Unrecognized ==> told is Send && told->Send_0 is Event,
        item is Transport || item is Lagged || item is Polled ==> told is Send
            && told->Send_0 is Status,
        item is Event && item->Event_0 is StatusChanged ==> told is Send && told->Send_0 is Status,
        item is Event && item->Event_0 is StepCompleted ==> told is Send && told->Send_0 is Step
            && told->Send_0->Step_index == item->Event_0->StepCompleted_step_index
            && told->Send_0->Step_record@ == item->Event_0->result.record@,
        item is Event && item->Event_0 is SampleBatch ==> told is Send && told->Send_0 is Samples
            && told->Send_0->Samples_tap@ == item->Event_0->SampleBatch_stream_name@,
        item is Event && item->Event_0 is GattTranscript ==> told is Send && told->Send_0 is Gatt
            && told->Send_0->Gatt_step_index == item->Event_0->GattTranscript_step_index
            && told->Send_0->Gatt_record@ == item->Event_0->entry.record@,
        item is Event && item->Event_0 is OutpostRows ==> told is Chart && (told->moved <==> s.after(
            item,
        ).axis.epoch != s.axis.epoch),
        item is Event && item->Event_0 is StreamText ==> told is Send && told->Send_0 is Console
            && told->Send_0->Console_tap@ == item->Event_0->StreamText_stream_name@,
{
}

/// The row that a frame carries, with the counts of its feed; none where it carries lines of
/// a console.
pub open spec fn row_told(frame: Frame) -> Option<(FeedRow, FeedCounts)> {
    match frame {
        Frame::Status { status, row, feed } => Some((row, feed)),
        Frame::Event { row, feed } => Some((row, feed)),
        Frame::Step { index, record, status, row, feed } => Some((row, feed)),
        Frame::Samples { tap, points, stride, total, row, feed } => Some((row, feed)),
        Frame::Gatt { step_index, record, row, feed } => Some((row, feed)),
        Frame::Console { .. } => None,
    }
}

/// Whatever leaves a row in the feed tells that row, with the counts of the feed that it is
/// in.
pub proof fn a_told_row_is_the_feeds_last(s: Session, item: FollowItem, told: Reply)
    requires
        told.tells(s, item, s.after(item)),
        told is Send,
        row_told(told->Send_0) is Some,
    ensures
        ({
            let after = s.after(item);
            let (row, feed) = row_told(told->Send_0)->0;
            &&& row@.seq == s.seq + 1
            &&& row@ == after.feed[after.feed.len() - 1]
            &&& feed.total == s.feed_total + 1
            &&& feed.dropped == after.feed_dropped
        }),
{
}

/// Every sample that a batch tells of is one of the batch; and while the series keeps every
/// sample it tells of all of them, in order.
pub proof fn a_batch_tells_what_it_kept(series: SeriesState, samples: Seq<LiveSample>)
    ensures
        kept_samples(series, samples).len() <= samples.len(),
        forall|k: int|
            0 <= k < kept_samples(series, samples).len() ==> exists|i: int|
                0 <= i < samples.len() && (#[trigger] samples[i]).rx_utc_ms == (
                #[trigger] kept_samples(series, samples)[k]).rx_utc_ms && samples[i].value_bits
                    == kept_samples(series, samples)[k].value_bits,
        series.stride <= 1 && series.points.len() + samples.len() <= 50_000 ==> kept_samples(
            series,
            samples,
        ) == Seq::new(
            samples.len(),
            |i: int|
                Point { rx_utc_ms: samples[i].rx_utc_ms, value_bits: samples[i].value_bits },
        ) && after_samples(series, samples).stride <= 1 && after_samples(
            series,
            samples,
        ).points.len() == series.points.len() + samples.len(),
    decreases samples.len(),
{
    if samples.len() > 0 {
        let rest = samples.drop_last();
        a_batch_tells_what_it_kept(series, rest);
        let before = kept_samples(series, rest);
        let now = kept_samples(series, samples);
        assert forall|i: int| 0 <= i < rest.len() implies #[trigger] rest[i] == samples[i] by {}
        assert forall|k: int| 0 <= k < now.len() implies exists|i: int|
            0 <= i < samples.len() && (#[trigger] samples[i]).rx_utc_ms == (
            #[trigger] now[k]).rx_utc_ms && samples[i].value_bits == now[k].value_bits by {
            if k < before.len() {
                assert(now[k] == before[k]);
                let i = choose|i: int|
                    0 <= i < rest.len() && (#[trigger] rest[i]).rx_utc_ms == before[k].rx_utc_ms
                        && rest[i].value_bits == before[k].value_bits;
                assert(samples[i].rx_utc_ms == now[k].rx_utc_ms);
            } else {
                assert(samples[samples.len() - 1].rx_utc_ms == now[k].rx_utc_ms);
            }
        }
    }
}

} // verus!
