use vstd::prelude::*;

use crate::event::{apply_kind, is_note, Event, EventKind};
use crate::notes::NoteSet;

verus! {

/// One point of the reduced timeline: from `timestamp` (absolute, in time
/// units) on, exactly the pitches of `notes` sound, until the next change
/// point.
#[derive(Debug)]
pub struct ChangePoint {
    pub timestamp: u32,
    pub notes: NoteSet,
}

/// The mathematical image of a change point: its time and its note set.
pub open spec fn cp_view(c: ChangePoint) -> (int, Set<u8>) {
    (c.timestamp as int, c.notes@)
}

pub open spec fn view_changes(s: Seq<ChangePoint>) -> Seq<(int, Set<u8>)> {
    s.map_values(|c: ChangePoint| cp_view(c))
}

/// The time elapsed after all of `events`, in time units.
pub open spec fn time_after(events: Seq<Event>) -> int
    decreases events.len(),
{
    if events.len() == 0 {
        0
    } else {
        time_after(events.drop_last()) + events.last().delta_time
    }
}

/// The set of pitches sounding after all of `events`.
pub open spec fn active_after(events: Seq<Event>) -> Set<u8>
    decreases events.len(),
{
    if events.len() == 0 {
        Set::empty()
    } else {
        apply_kind(active_after(events.drop_last()), events.last().kind)
    }
}

/// Whether `events` holds at least one note event.
pub open spec fn has_note(events: Seq<Event>) -> bool
    decreases events.len(),
{
    if events.len() == 0 {
        false
    } else {
        has_note(events.drop_last()) || is_note(events.last().kind)
    }
}

/// One step of the reducer: how the recorded change list `cs` grows when `e`
/// arrives after a history that ended at `prev_time` with `active` sounding,
/// `seen` telling whether a note event was seen before.
///
/// A non-note event records nothing. The first note event first records the
/// leading state at `prev_time`. A note event with a zero delta retracts the
/// latest record before recording, so that a burst of simultaneous events
/// leaves a single change point carrying their net effect.
pub open spec fn step_changes(
    cs: Seq<(int, Set<u8>)>,
    prev_time: int,
    active: Set<u8>,
    seen: bool,
    e: Event,
) -> Seq<(int, Set<u8>)> {
    if !is_note(e.kind) {
        cs
    } else {
        let cs0 = if !seen {
            cs.push((prev_time, active))
        } else {
            cs
        };
        let cs1 = if e.delta_time == 0 && cs0.len() > 0 {
            cs0.drop_last()
        } else {
            cs0
        };
        cs1.push((prev_time + e.delta_time, apply_kind(active, e.kind)))
    }
}

/// The ordered list of (time, note set) changes that reducing `events`
/// records.
pub open spec fn changes_after(events: Seq<Event>) -> Seq<(int, Set<u8>)>
    decreases events.len(),
{
    if events.len() == 0 {
        Seq::empty()
    } else {
        let prefix = events.drop_last();
        step_changes(
            changes_after(prefix),
            time_after(prefix),
            active_after(prefix),
            has_note(prefix),
            events.last(),
        )
    }
}

/// Unfolds the reduction of `s.push(e)` one step.
pub proof fn lemma_unfold_push(s: Seq<Event>, e: Event)
    ensures
        time_after(s.push(e)) == time_after(s) + e.delta_time,
        active_after(s.push(e)) == apply_kind(active_after(s), e.kind),
        has_note(s.push(e)) == (has_note(s) || is_note(e.kind)),
        changes_after(s.push(e)) == step_changes(
            changes_after(s),
            time_after(s),
            active_after(s),
            has_note(s),
            e,
        ),
{
    assert(s.push(e).drop_last() =~= s);
    assert(s.push(e).last() == e);
}

/// The recorded times grow strictly from entry to entry.
pub open spec fn strictly_increasing(cs: Seq<(int, Set<u8>)>) -> bool {
    forall|i: int, j: int| 0 <= i < j < cs.len() ==> cs[i].0 < cs[j].0
}

/// Every recorded time is at most `t`.
pub open spec fn all_at_most(cs: Seq<(int, Set<u8>)>, t: int) -> bool {
    forall|i: int| 0 <= i < cs.len() ==> cs[i].0 <= t
}

/// The running facts the reducer maintains: time never runs backwards, the
/// recorded times are strictly increasing and never ahead of the clock, a
/// record exists exactly when a note event was seen, and before the first
/// note event nothing sounds.
pub proof fn lemma_reduce_state(events: Seq<Event>)
    ensures
        0 <= time_after(events),
        strictly_increasing(changes_after(events)),
        all_at_most(changes_after(events), time_after(events)),
        has_note(events) <==> changes_after(events).len() > 0,
        !has_note(events) ==> active_after(events) == Set::<u8>::empty(),
    decreases events.len(),
{
    if events.len() > 0 {
        let prefix = events.drop_last();
        let e = events.last();
        lemma_reduce_state(prefix);
        let cs = changes_after(prefix);
        let tp = time_after(prefix);
        let t = tp + e.delta_time;
        if is_note(e.kind) {
            let seen = has_note(prefix);
            let cs0 = if !seen {
                cs.push((tp, active_after(prefix)))
            } else {
                cs
            };
            assert(strictly_increasing(cs0));
            assert(all_at_most(cs0, tp));
            let cs1 = if e.delta_time == 0 && cs0.len() > 0 {
                cs0.drop_last()
            } else {
                cs0
            };
            assert(strictly_increasing(cs1));
            assert forall|k: int| 0 <= k < cs1.len() implies cs1[k].0 < t by {
                if e.delta_time == 0 {
                    assert(cs1[k] == cs0[k]);
                    assert(cs0[k].0 < cs0[cs0.len() - 1].0);
                } else {
                    assert(cs1[k].0 <= tp);
                }
            }
            assert(changes_after(events) == cs1.push((t, apply_kind(active_after(prefix), e.kind))));
        }
    }
}

/// The time elapsed over a prefix never exceeds the time elapsed over the
/// whole stream, since deltas are non-negative.
pub proof fn lemma_time_take_bound(events: Seq<Event>, j: int)
    requires
        0 <= j <= events.len(),
    ensures
        time_after(events.take(j)) <= time_after(events),
    decreases events.len() - j,
{
    if j == events.len() {
        assert(events.take(j) =~= events);
    } else {
        lemma_time_take_bound(events, j + 1);
        assert(events.take(j + 1).drop_last() =~= events.take(j));
        assert(events.take(j + 1).last() == events[j]);
    }
}

/// Monotonicity law: for every input stream the recorded change-point times
/// are non-decreasing — in fact strictly increasing, since simultaneous
/// events coalesce into one record.
pub proof fn lemma_timestamps_monotonic(events: Seq<Event>)
    ensures
        strictly_increasing(changes_after(events)),
        forall|i: int, j: int|
            0 <= i <= j < changes_after(events).len() ==> #[trigger] changes_after(events)[i].0
                <= #[trigger] changes_after(events)[j].0,
{
    lemma_reduce_state(events);
}

/// A note-on of pitch `p` simultaneous with the previous event.
pub open spec fn zero_delta_on(p: u8) -> Event {
    Event { delta_time: 0, kind: EventKind::NoteOn(p) }
}

/// A burst of simultaneous note-ons, one per pitch of `ps`.
pub open spec fn zero_burst(ps: Seq<u8>) -> Seq<Event> {
    ps.map_values(|p: u8| zero_delta_on(p))
}

/// `cs` with its most recent record retracted, if it has one.
pub open spec fn drop_last_record(cs: Seq<(int, Set<u8>)>) -> Seq<(int, Set<u8>)> {
    if cs.len() > 0 {
        cs.drop_last()
    } else {
        cs
    }
}

/// Zero-delta coalescing law: appending a burst of simultaneous note-ons to
/// any event stream leaves exactly one change point at the burst's time. The
/// latest record is retracted and replaced by a single record whose set is
/// the union of the notes already sounding and all the burst's pitches, so
/// no time value is recorded twice and no zero-length segment arises.
pub proof fn lemma_zero_delta_coalescing(events: Seq<Event>, ps: Seq<u8>)
    requires
        ps.len() > 0,
    ensures
        time_after(events + zero_burst(ps)) == time_after(events),
        active_after(events + zero_burst(ps)) == active_after(events).union(ps.to_set()),
        has_note(events + zero_burst(ps)),
        changes_after(events + zero_burst(ps)) == drop_last_record(changes_after(events)).push(
            (time_after(events), active_after(events).union(ps.to_set())),
        ),
    decreases ps.len(),
{
    lemma_reduce_state(events);
    let cs = changes_after(events);
    let head = drop_last_record(cs);
    let tp = time_after(events);
    let a = active_after(events);
    if ps.len() == 1 {
        let p = ps[0];
        assert(zero_burst(ps) =~= seq![zero_delta_on(p)]);
        assert(events + zero_burst(ps) =~= events.push(zero_delta_on(p)));
        lemma_unfold_push(events, zero_delta_on(p));
        assert(ps.contains(p));
        assert(a.insert(p) =~= a.union(ps.to_set()));
        if has_note(events) {
            assert(cs.len() > 0);
        } else {
            assert(cs.len() == 0);
            assert(cs.push((tp, a)).drop_last() =~= cs);
        }
        assert(changes_after(events + zero_burst(ps)) == head.push((tp, a.union(ps.to_set()))));
    } else {
        let ps0 = ps.drop_last();
        let p = ps.last();
        lemma_zero_delta_coalescing(events, ps0);
        let mid = events + zero_burst(ps0);
        assert(zero_burst(ps) =~= zero_burst(ps0).push(zero_delta_on(p)));
        assert(events + zero_burst(ps) =~= mid.push(zero_delta_on(p)));
        lemma_unfold_push(mid, zero_delta_on(p));
        let a0 = a.union(ps0.to_set());
        assert(changes_after(mid) == head.push((tp, a0)));
        assert(head.push((tp, a0)).drop_last() =~= head);
        assert(ps =~= ps0.push(p));
        ps0.lemma_push_to_set_commute(p);
        assert(a0.insert(p) =~= a.union(ps.to_set()));
        assert(changes_after(events + zero_burst(ps)) == head.push((tp, a.union(ps.to_set()))));
    }
}

/// No-op removal law: a note-off for a pitch that is not sounding leaves the
/// active set exactly as it was, and the change list changes only by the
/// event's own contribution: one new record holding the unchanged set, after
/// the retraction that any zero-delta note event performs.
pub proof fn lemma_noop_removal(events: Seq<Event>, e: Event)
    requires
        e.kind matches EventKind::NoteOff(p) && !active_after(events).contains(p),
    ensures
        active_after(events.push(e)) == active_after(events),
        changes_after(events.push(e)).len() == changes_after(events).len() + (
        if has_note(events) {
            0int
        } else {
            1int
        }) - (
        if e.delta_time == 0 {
            1int
        } else {
            0int
        }) + 1,
        changes_after(events.push(e)).last() == (
            time_after(events) + e.delta_time,
            active_after(events),
        ),
{
    lemma_unfold_push(events, e);
    lemma_reduce_state(events);
    let p = e.kind->NoteOff_0;
    assert(active_after(events).remove(p) =~= active_after(events));
}

/// Reduces the raw event stream to the ordered list of change points: it
/// walks the events in order, keeps the running set of sounding pitches, and
/// records a change point at the time of every note event, retracting the
/// previous record when the event is simultaneous with it.
pub fn reduce(events: &Vec<Event>) -> (changes: Vec<ChangePoint>)
    requires
        time_after(events@) <= u32::MAX,
    ensures
        view_changes(changes@) == changes_after(events@),
{
    let ghost evs = events@;
    let mut changes: Vec<ChangePoint> = Vec::new();
    let mut active = NoteSet::new();
    let mut time: u32 = 0;
    let mut seen_note = false;
    let mut i: usize = 0;
    proof {
        assert(evs.take(0) =~= Seq::<Event>::empty());
    }
    while i < events.len()
        invariant
            i <= evs.len(),
            evs == events@,
            time_after(evs) <= u32::MAX,
            time == time_after(evs.take(i as int)),
            active@ == active_after(evs.take(i as int)),
            seen_note == has_note(evs.take(i as int)),
            view_changes(changes@) == changes_after(evs.take(i as int)),
        decreases evs.len() - i,
    {
        let ghost pre = evs.take(i as int);
        proof {
            assert(evs.take(i + 1).drop_last() =~= pre);
            assert(evs.take(i + 1).last() == evs[i as int]);
            lemma_time_take_bound(evs, i + 1);
            lemma_reduce_state(pre);
        }
        let e = events[i];
        let t = time + e.delta_time;
        let ghost cs_pre = view_changes(changes@);
        let ghost target = changes_after(evs.take(i + 1));
        proof {
            assert(target == step_changes(
                cs_pre,
                time as int,
                active_after(pre),
                has_note(pre),
                evs[i as int],
            ));
        }
        match e.kind {
            EventKind::Other => {
                proof {
                    assert(target == cs_pre);
                }
            },
            _ => {
                if !seen_note {
                    let snap = active.snapshot();
                    changes.push(ChangePoint { timestamp: time, notes: snap });
                    seen_note = true;
                    proof {
                        assert(view_changes(changes@) =~= cs_pre.push(
                            (time as int, active_after(pre)),
                        ));
                    }
                }
                let ghost cs0 = view_changes(changes@);
                proof {
                    assert(cs0 == if !has_note(pre) {
                        cs_pre.push((time as int, active_after(pre)))
                    } else {
                        cs_pre
                    });
                }
                if e.delta_time == 0 && changes.len() > 0 {
                    let ghost before_pop = changes@;
                    let _ = changes.pop();
                    proof {
                        assert(changes@ == before_pop.drop_last());
                        assert(view_changes(changes@) =~= cs0.drop_last());
                    }
                }
                let ghost cs1 = view_changes(changes@);
                proof {
                    assert(cs1 == if e.delta_time == 0 && cs0.len() > 0 {
                        cs0.drop_last()
                    } else {
                        cs0
                    });
                }
                match e.kind {
                    EventKind::NoteOn(p) => active.insert(p),
                    EventKind::NoteOff(p) => active.remove(p),
                    EventKind::Other => {},
                }
                proof {
                    assert(active@ == apply_kind(active_after(pre), evs[i as int].kind));
                }
                let snap = active.snapshot();
                changes.push(ChangePoint { timestamp: t, notes: snap });
                proof {
                    assert(view_changes(changes@) =~= cs1.push((t as int, active@)));
                    assert(view_changes(changes@) == target);
                }
            },
        }
        time = t;
        i += 1;
    }
    proof {
        assert(evs.take(evs.len() as int) =~= evs);
    }
    changes
}

} // verus!
