use miditone::event::{Event, EventKind};
use miditone::render::{render_all, render_events, segments, RenderConfig};
use miditone::timeline::reduce;

fn on(delta: u32, pitch: u8) -> Event {
    Event { delta_time: delta, kind: EventKind::NoteOn(pitch) }
}

fn off(delta: u32, pitch: u8) -> Event {
    Event { delta_time: delta, kind: EventKind::NoteOff(pitch) }
}

fn other(delta: u32) -> Event {
    Event { delta_time: delta, kind: EventKind::Other }
}

fn plain_config() -> RenderConfig {
    RenderConfig { unit_ms_num: 1, unit_ms_den: 1, from_note: None, until_note: None }
}

#[test]
fn reduce_empty_stream() {
    let changes = reduce(&Vec::new());
    assert_eq!(changes.len(), 0);
}

#[test]
fn reduce_without_note_events() {
    let events = vec![other(5), other(0), other(100)];
    let changes = reduce(&events);
    assert_eq!(changes.len(), 0);
}

#[test]
fn end_to_end_single_note() {
    // One note struck at time 0 and released 480 units later renders as one
    // 480 ms segment of that pitch.
    let events = vec![on(0, 60), off(480, 60)];
    let changes = reduce(&events);
    assert_eq!(changes.len(), 2);
    assert_eq!(changes[0].timestamp, 0);
    assert_eq!(changes[0].notes.len(), 1);
    assert!(changes[0].notes.contains(60));
    assert_eq!(changes[1].timestamp, 480);
    assert!(changes[1].notes.is_empty());

    let (plan, summary) = render_all(&changes, &plain_config());
    assert_eq!(plan.len(), 1);
    assert_eq!(plan[0].duration_ms, 480);
    assert_eq!(plan[0].pitch, Some(60));
    assert_eq!(summary.notes, 1);
    assert_eq!(summary.total_ms, 480);
}

#[test]
fn zero_delta_burst_coalesces() {
    // A chord struck as three simultaneous note-ons leaves exactly one
    // change point at its time, holding the union of the pitches.
    let events = vec![on(0, 60), on(0, 64), on(0, 67), off(100, 60)];
    let changes = reduce(&events);
    assert_eq!(changes.len(), 2);
    assert_eq!(changes[0].timestamp, 0);
    assert_eq!(changes[0].notes.len(), 3);
    assert!(changes[0].notes.contains(60));
    assert!(changes[0].notes.contains(64));
    assert!(changes[0].notes.contains(67));
    assert_eq!(changes[1].timestamp, 100);
    assert_eq!(changes[1].notes.len(), 2);
    assert!(!changes[1].notes.contains(60));
}

#[test]
fn burst_after_leading_silence() {
    // The first note event records the leading silence; a simultaneous
    // second note-on retracts and replaces only the record at its own time.
    let events = vec![on(10, 50), on(0, 55)];
    let changes = reduce(&events);
    assert_eq!(changes.len(), 2);
    assert_eq!(changes[0].timestamp, 0);
    assert!(changes[0].notes.is_empty());
    assert_eq!(changes[1].timestamp, 10);
    assert_eq!(changes[1].notes.len(), 2);
    assert!(changes[1].notes.contains(50));
    assert!(changes[1].notes.contains(55));
}

#[test]
fn redundant_note_off_is_noop() {
    // Releasing a pitch that never sounded changes no set; the event still
    // records its own change point.
    let events = vec![on(0, 60), off(5, 99)];
    let changes = reduce(&events);
    assert_eq!(changes.len(), 2);
    assert_eq!(changes[1].timestamp, 5);
    assert_eq!(changes[1].notes.len(), 1);
    assert!(changes[1].notes.contains(60));
    assert!(!changes[1].notes.contains(99));
}

#[test]
fn other_events_advance_time_only() {
    let events = vec![other(7), on(3, 40), other(10), off(0, 40)];
    let changes = reduce(&events);
    // The leading silence is recorded at the time the first note event was
    // reached, 7 units in. The zero-delta note-off retracts the latest
    // record (the note-on at 10) before recording the release at 20.
    assert_eq!(changes.len(), 2);
    assert_eq!(changes[0].timestamp, 7);
    assert!(changes[0].notes.is_empty());
    assert_eq!(changes[1].timestamp, 20);
    assert!(changes[1].notes.is_empty());
}

#[test]
fn window_selects_exactly_the_named_segments() {
    // Five segments; the window [2, 3] forwards exactly segments 2 and 3.
    let events = vec![on(0, 10), on(10, 11), on(10, 12), on(10, 13), on(10, 14), off(10, 14)];
    let changes = reduce(&events);
    assert_eq!(changes.len(), 6);
    let cfg = RenderConfig {
        unit_ms_num: 1,
        unit_ms_den: 1,
        from_note: Some(2),
        until_note: Some(3),
    };
    let (plan, summary) = render_all(&changes, &cfg);
    assert_eq!(plan.len(), 2);
    assert_eq!(plan[0].duration_ms, 10);
    assert_eq!(plan[0].pitch, Some(12));
    assert_eq!(plan[1].duration_ms, 10);
    assert_eq!(plan[1].pitch, Some(13));
    assert_eq!(summary.notes, 2);
    assert_eq!(summary.total_ms, 20);
}

#[test]
fn empty_window_renders_nothing() {
    let events = vec![on(0, 10), off(10, 10), on(10, 11), off(10, 11)];
    let changes = reduce(&events);
    let cfg = RenderConfig {
        unit_ms_num: 1,
        unit_ms_den: 1,
        from_note: Some(7),
        until_note: Some(3),
    };
    let (plan, summary) = render_all(&changes, &cfg);
    assert_eq!(plan.len(), 0);
    assert_eq!(summary.notes, 0);
    assert_eq!(summary.total_ms, 0);
}

#[test]
fn sub_threshold_segment_is_counted_but_not_emitted() {
    // A one-unit segment lasts exactly 1 ms at the unit scale: not above the
    // 1 ms threshold, so it is computed but never forwarded.
    let events = vec![on(0, 60), off(1, 60)];
    let changes = reduce(&events);
    let (plan, summary) = render_all(&changes, &plain_config());
    assert_eq!(plan.len(), 0);
    assert_eq!(summary.notes, 0);
    assert_eq!(summary.total_ms, 1);
}

#[test]
fn silent_gaps_render_as_silence() {
    let events = vec![on(10, 60), off(5, 60), on(5, 62), off(5, 62)];
    let changes = reduce(&events);
    assert_eq!(changes.len(), 5);
    let (plan, _) = render_all(&changes, &plain_config());
    assert_eq!(plan.len(), 4);
    assert_eq!(plan[0].duration_ms, 10);
    assert_eq!(plan[0].pitch, None);
    assert_eq!(plan[1].duration_ms, 5);
    assert_eq!(plan[1].pitch, Some(60));
    assert_eq!(plan[2].duration_ms, 5);
    assert_eq!(plan[2].pitch, None);
    assert_eq!(plan[3].duration_ms, 5);
    assert_eq!(plan[3].pitch, Some(62));
}

#[test]
fn highest_pitch_wins_in_a_chord() {
    let events = vec![on(0, 72), on(0, 60), on(0, 67), off(50, 72), off(50, 60)];
    let changes = reduce(&events);
    let (plan, _) = render_all(&changes, &plain_config());
    assert_eq!(plan.len(), 2);
    assert_eq!(plan[0].pitch, Some(72));
    assert_eq!(plan[1].pitch, Some(67));
}

#[test]
fn speed_and_unit_scale_durations() {
    let events = vec![on(0, 60), off(480, 60)];
    // A unit of 1 ms played at double speed: 480 units last 240 ms.
    let cfg = RenderConfig { unit_ms_num: 1, unit_ms_den: 2, from_note: None, until_note: None };
    let (plan, summary) = render_events(&events, &cfg);
    assert_eq!(plan.len(), 1);
    assert_eq!(plan[0].duration_ms, 240);
    assert_eq!(summary.total_ms, 240);
    // A unit of 3 ms played at double speed: 480 units last 720 ms.
    let cfg = RenderConfig { unit_ms_num: 3, unit_ms_den: 2, from_note: None, until_note: None };
    let (plan, _) = render_events(&events, &cfg);
    assert_eq!(plan[0].duration_ms, 720);
}

#[test]
fn segments_pair_consecutive_change_points() {
    let events = vec![on(0, 60), on(10, 62), off(25, 62)];
    let changes = reduce(&events);
    let segs = segments(&changes);
    assert_eq!(segs.len(), 2);
    assert_eq!(segs[0].start, 0);
    assert_eq!(segs[0].duration_units, 10);
    assert!(segs[0].notes.contains(60));
    assert_eq!(segs[1].start, 10);
    assert_eq!(segs[1].duration_units, 25);
    assert!(segs[1].notes.contains(62));
    assert_eq!(segs[1].notes.len(), 2);
}

#[test]
fn timestamps_never_decrease() {
    let events = vec![
        on(0, 60),
        other(3),
        off(0, 60),
        on(1, 61),
        other(0),
        off(200, 61),
        on(0, 62),
        off(0, 62),
    ];
    let changes = reduce(&events);
    for pair in changes.windows(2) {
        assert!(pair[0].timestamp < pair[1].timestamp);
    }
}

#[test]
fn large_total_time_is_accepted() {
    let events = vec![on(u32::MAX - 1, 5), off(1, 5)];
    let changes = reduce(&events);
    assert_eq!(changes.len(), 3);
    assert_eq!(changes[0].timestamp, 0);
    assert_eq!(changes[1].timestamp, u32::MAX - 1);
    assert_eq!(changes[2].timestamp, u32::MAX);
}
