use vstd::prelude::*;

use crate::event::Event;
use crate::notes::{max_pitch, NoteSet};
use crate::timeline::{
    changes_after, cp_view, lemma_reduce_state, reduce, time_after, view_changes, ChangePoint,
};

verus! {

/// One derived tone segment: from `start` (in time units) the pitches of
/// `notes` sound for `duration_units` time units.
#[derive(Debug)]
pub struct Segment {
    pub start: u32,
    pub duration_units: u32,
    pub notes: NoteSet,
}

/// The mathematical image of a segment: start, duration and note set.
pub open spec fn seg_view(s: Segment) -> (int, int, Set<u8>) {
    (s.start as int, s.duration_units as int, s.notes@)
}

pub open spec fn view_segments(s: Seq<Segment>) -> Seq<(int, int, Set<u8>)> {
    s.map_values(|x: Segment| seg_view(x))
}

/// The segments between consecutive change points: segment `i` starts at
/// `cs[i]`'s time, sounds `cs[i]`'s notes, and lasts until `cs[i + 1]`'s
/// time. A list of at most one change point yields no segment.
pub open spec fn segments_of(cs: Seq<(int, Set<u8>)>) -> Seq<(int, int, Set<u8>)> {
    if cs.len() == 0 {
        Seq::empty()
    } else {
        Seq::new((cs.len() - 1) as nat, |i: int| (cs[i].0, cs[i + 1].0 - cs[i].0, cs[i].1))
    }
}

/// Derives the tone segments from the ordered change-point list.
pub fn segments(changes: &Vec<ChangePoint>) -> (segs: Vec<Segment>)
    requires
        forall|i: int|
            0 <= i < changes@.len() - 1 ==> (#[trigger] changes@[i].timestamp) <= changes@[i
                + 1].timestamp,
    ensures
        view_segments(segs@) == segments_of(view_changes(changes@)),
{
    let mut segs: Vec<Segment> = Vec::new();
    let ghost target = segments_of(view_changes(changes@));
    if changes.len() == 0 {
        proof {
            assert(view_segments(segs@) =~= target);
        }
        return segs;
    }
    let n = changes.len() - 1;
    let mut i: usize = 0;
    proof {
        assert(view_segments(segs@) =~= target.take(0));
    }
    while i < n
        invariant
            n == changes@.len() - 1,
            i <= n,
            forall|j: int|
                0 <= j < changes@.len() - 1 ==> (#[trigger] changes@[j].timestamp) <= changes@[j
                    + 1].timestamp,
            target == segments_of(view_changes(changes@)),
            view_segments(segs@) == target.take(i as int),
        decreases n - i,
    {
        let start = changes[i].timestamp;
        let d = changes[i + 1].timestamp - start;
        let snap = changes[i].notes.snapshot();
        let ghost pre_segs = segs@;
        segs.push(Segment { start, duration_units: d, notes: snap });
        proof {
            let cs = view_changes(changes@);
            assert(view_segments(pre_segs).len() == pre_segs.len());
            assert(target.take(i as int).len() == i as int);
            assert(pre_segs.len() == i as int);
            assert(segs@.drop_last() =~= pre_segs);
            assert(cs[i as int] == cp_view(changes@[i as int]));
            assert(cs[i + 1] == cp_view(changes@[i + 1]));
            assert(seg_view(segs@.last()) == target[i as int]);
            assert forall|k: int| 0 <= k < i implies seg_view(segs@[k]) == target.take(
                i + 1,
            )[k] by {
                assert(segs@[k] == pre_segs[k]);
                assert(view_segments(pre_segs)[k] == seg_view(pre_segs[k]));
                assert(view_segments(pre_segs)[k] == target.take(i as int)[k]);
            }
            assert(view_segments(segs@) =~= target.take(i + 1));
        }
        i += 1;
    }
    proof {
        assert(target.take(n as int) =~= target);
    }
    segs
}

/// How rendered segments are planned: each time unit lasts
/// `unit_ms_num / unit_ms_den` milliseconds (the caller folds the unit
/// length and the playback speed into this ratio), and only segments whose
/// index lies in the inclusive window `from_note ..= until_note` are
/// considered.
#[derive(Clone, Copy, Debug)]
pub struct RenderConfig {
    pub unit_ms_num: u32,
    pub unit_ms_den: u32,
    pub from_note: Option<usize>,
    pub until_note: Option<usize>,
}

/// One planned melody note: the chosen pitch (`None` for silence) held for
/// `duration_ms` whole milliseconds.
#[derive(Clone, Copy, Debug)]
pub struct PlannedNote {
    pub duration_ms: u64,
    pub pitch: Option<u8>,
}

pub open spec fn note_view(n: PlannedNote) -> (int, Option<u8>) {
    (n.duration_ms as int, n.pitch)
}

pub open spec fn view_plan(s: Seq<PlannedNote>) -> Seq<(int, Option<u8>)> {
    s.map_values(|n: PlannedNote| note_view(n))
}

/// Whether segment index `i` lies inside the configured window.
pub open spec fn in_window(cfg: RenderConfig, i: int) -> bool {
    &&& (cfg.from_note matches Some(f) ==> i >= f)
    &&& (cfg.until_note matches Some(u) ==> i <= u)
}

/// The whole milliseconds a considered segment of `units` time units lasts:
/// units * num / den, rounded towards zero.
pub open spec fn duration_ms_of(units: int, cfg: RenderConfig) -> int {
    (units * cfg.unit_ms_num) / (cfg.unit_ms_den as int)
}

/// Whether a considered segment is forwarded to the sink: only when its
/// exact rational duration, units * num / den milliseconds, exceeds one
/// millisecond, so that meaningless micro-segments stay silent.
pub open spec fn emitted(units: int, cfg: RenderConfig) -> bool {
    units * cfg.unit_ms_num > cfg.unit_ms_den
}

/// The planned melody for `segs` under `cfg`: the emitted segments in
/// order, each as its duration and its highest pitch.
pub open spec fn plan_of(segs: Seq<(int, int, Set<u8>)>, cfg: RenderConfig) -> Seq<
    (int, Option<u8>),
>
    decreases segs.len(),
{
    if segs.len() == 0 {
        Seq::empty()
    } else {
        let i = segs.len() - 1;
        let prefix = plan_of(segs.drop_last(), cfg);
        if in_window(cfg, i) && emitted(segs[i].1, cfg) {
            prefix.push((duration_ms_of(segs[i].1, cfg), max_pitch(segs[i].2)))
        } else {
            prefix
        }
    }
}

/// The milliseconds of every considered (windowed) segment, whether or not
/// it is emitted.
pub open spec fn considered_ms(segs: Seq<(int, int, Set<u8>)>, cfg: RenderConfig) -> int
    decreases segs.len(),
{
    if segs.len() == 0 {
        0
    } else {
        let i = segs.len() - 1;
        considered_ms(segs.drop_last(), cfg) + if in_window(cfg, i) {
            duration_ms_of(segs[i].1, cfg)
        } else {
            0
        }
    }
}

/// What one run renders: the milliseconds of every considered segment and
/// how many notes were emitted.
#[derive(Clone, Copy, Debug)]
pub struct Summary {
    pub total_ms: u128,
    pub notes: usize,
}

/// Plans the rendering of the derived segments: walks them in order, skips
/// those before the window, stops after it, converts time units to
/// milliseconds by the configured ratio, picks the highest pitch of each
/// non-empty set (silence otherwise), and emits exactly those considered
/// segments that last longer than one millisecond.
pub fn render_plan(segs: &Vec<Segment>, cfg: &RenderConfig) -> (r: (Vec<PlannedNote>, Summary))
    requires
        cfg.unit_ms_num > 0,
        cfg.unit_ms_den > 0,
    ensures
        view_plan(r.0@) == plan_of(view_segments(segs@), *cfg),
        r.1.total_ms == considered_ms(view_segments(segs@), *cfg),
        r.1.notes == r.0@.len(),
{
    let ghost sv = view_segments(segs@);
    let mut plan: Vec<PlannedNote> = Vec::new();
    let mut total: u128 = 0;
    let mut i: usize = 0;
    proof {
        assert(sv.take(0) =~= Seq::<(int, int, Set<u8>)>::empty());
    }
    while i < segs.len()
        invariant
            i <= segs@.len(),
            sv == view_segments(segs@),
            cfg.unit_ms_num > 0,
            cfg.unit_ms_den > 0,
            view_plan(plan@) == plan_of(sv.take(i as int), *cfg),
            total == considered_ms(sv.take(i as int), *cfg),
            total <= i * 0xffff_ffff_ffff_ffffu128,
        decreases segs@.len() - i,
    {
        proof {
            assert(sv.take(i + 1).drop_last() =~= sv.take(i as int));
            assert(sv.take(i + 1).last() == sv[i as int]);
        }
        let in_lo = match cfg.from_note {
            Some(f) => i >= f,
            None => true,
        };
        let in_hi = match cfg.until_note {
            Some(u) => i <= u,
            None => true,
        };
        if in_lo && in_hi {
            let units = segs[i].duration_units;
            proof {
                assert((units as int) * (cfg.unit_ms_num as int) <= 0xffff_ffff * 0xffff_ffff)
                    by (nonlinear_arith)
                    requires
                        0 <= units as int <= 0xffff_ffff,
                        0 <= cfg.unit_ms_num as int <= 0xffff_ffff,
                ;
            }
            let prod: u64 = (units as u64) * (cfg.unit_ms_num as u64);
            let dur: u64 = prod / (cfg.unit_ms_den as u64);
            total = total + (dur as u128);
            if prod > cfg.unit_ms_den as u64 {
                let pitch = segs[i].notes.max_note();
                plan.push(PlannedNote { duration_ms: dur, pitch });
                proof {
                    assert(view_plan(plan@) =~= plan_of(sv.take(i + 1), *cfg));
                }
            }
        }
        proof {
            assert(view_plan(plan@) == plan_of(sv.take(i + 1), *cfg));
            assert(total == considered_ms(sv.take(i + 1), *cfg));
        }
        i += 1;
    }
    proof {
        assert(sv.take(sv.len() as int) =~= sv);
    }
    let summary = Summary { total_ms: total, notes: plan.len() };
    (plan, summary)
}

/// Runs the orchestrator on an ordered change-point list: derives the
/// segments and plans their rendering.
pub fn render_all(changes: &Vec<ChangePoint>, cfg: &RenderConfig) -> (r: (
    Vec<PlannedNote>,
    Summary,
))
    requires
        cfg.unit_ms_num > 0,
        cfg.unit_ms_den > 0,
        forall|i: int|
            0 <= i < changes@.len() - 1 ==> (#[trigger] changes@[i].timestamp) <= changes@[i
                + 1].timestamp,
    ensures
        view_plan(r.0@) == plan_of(segments_of(view_changes(changes@)), *cfg),
        r.1.total_ms == considered_ms(segments_of(view_changes(changes@)), *cfg),
        r.1.notes == r.0@.len(),
{
    let segs = segments(changes);
    render_plan(&segs, cfg)
}

/// Runs the whole pipeline on a raw event stream: reduces it to change
/// points, derives the segments, and plans the melody.
pub fn render_events(events: &Vec<Event>, cfg: &RenderConfig) -> (r: (Vec<PlannedNote>, Summary))
    requires
        time_after(events@) <= u32::MAX,
        cfg.unit_ms_num > 0,
        cfg.unit_ms_den > 0,
    ensures
        view_plan(r.0@) == plan_of(segments_of(changes_after(events@)), *cfg),
        r.1.total_ms == considered_ms(segments_of(changes_after(events@)), *cfg),
        r.1.notes == r.0@.len(),
{
    let changes = reduce(events);
    proof {
        lemma_reduce_state(events@);
        assert forall|i: int|
            0 <= i < changes@.len() - 1 implies (#[trigger] changes@[i].timestamp) <= changes@[i
            + 1].timestamp by {
            let cs = view_changes(changes@);
            assert(cs[i].0 < cs[i + 1].0);
        }
    }
    render_all(&changes, cfg)
}

} // verus!
