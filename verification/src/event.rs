use vstd::prelude::*;

verus! {

/// What an input record does to the sounding notes. Anything that is neither
/// a note-on nor a note-off only contributes elapsed time.
#[derive(Clone, Copy, Debug)]
pub enum EventKind {
    NoteOn(u8),
    NoteOff(u8),
    Other,
}

/// One record of the input stream: the time elapsed since the previous
/// record, in abstract time units, and what happened.
#[derive(Clone, Copy, Debug)]
pub struct Event {
    pub delta_time: u32,
    pub kind: EventKind,
}

/// Whether the event kind is a note event (note-on or note-off).
pub open spec fn is_note(k: EventKind) -> bool {
    !(k is Other)
}

/// The set of sounding pitches after an event of kind `k` hits `s`:
/// a note-on inserts its pitch, a note-off removes it (a no-op when the
/// pitch is absent), and anything else leaves the set alone.
pub open spec fn apply_kind(s: Set<u8>, k: EventKind) -> Set<u8> {
    match k {
        EventKind::NoteOn(p) => s.insert(p),
        EventKind::NoteOff(p) => s.remove(p),
        EventKind::Other => s,
    }
}

} // verus!
