use vstd::prelude::*;

verus! {

/// `m` is the largest pitch of `s`.
pub open spec fn is_max_pitch(s: Set<u8>, m: u8) -> bool {
    &&& s.contains(m)
    &&& forall|p: u8| s.contains(p) ==> p <= m
}

/// The largest pitch of `s`, or `None` when `s` is empty. A set of `u8` has
/// at most one largest element, so the choice is determined.
pub open spec fn max_pitch(s: Set<u8>) -> Option<u8> {
    if exists|m: u8| is_max_pitch(s, m) {
        Some(choose|m: u8| is_max_pitch(s, m))
    } else {
        None
    }
}

pub proof fn lemma_max_pitch_is(s: Set<u8>, m: u8)
    requires
        is_max_pitch(s, m),
    ensures
        max_pitch(s) == Some(m),
{
    let c = choose|x: u8| is_max_pitch(s, x);
    assert(is_max_pitch(s, c));
    assert(c <= m && m <= c);
}

/// The set of pitches sounding at one instant.
///
/// Stored as a vector free of duplicates; its mathematical view is the set
/// of its elements.
#[derive(Debug)]
pub struct NoteSet {
    elems: Vec<u8>,
}

impl View for NoteSet {
    type V = Set<u8>;

    closed spec fn view(&self) -> Set<u8> {
        self.elems@.to_set()
    }
}

impl NoteSet {
    #[verifier::type_invariant]
    spec fn distinct(self) -> bool {
        self.elems@.no_duplicates()
    }

    /// The empty set.
    pub fn new() -> (s: NoteSet)
        ensures
            s@ == Set::<u8>::empty(),
    {
        let s = NoteSet { elems: Vec::new() };
        proof {
            assert(s.elems@.to_set() =~= Set::<u8>::empty());
        }
        s
    }

    /// Whether pitch `p` is sounding.
    pub fn contains(&self, p: u8) -> (r: bool)
        ensures
            r == self@.contains(p),
    {
        let mut i: usize = 0;
        while i < self.elems.len()
            invariant
                i <= self.elems@.len(),
                forall|j: int| 0 <= j < i ==> self.elems@[j] != p,
            decreases self.elems@.len() - i,
        {
            if self.elems[i] == p {
                assert(self.elems@.contains(p));
                return true;
            }
            i += 1;
        }
        assert(!self.elems@.contains(p));
        false
    }

    /// Inserts pitch `p`; a no-op when `p` already sounds.
    pub fn insert(&mut self, p: u8)
        ensures
            final(self)@ == old(self)@.insert(p),
    {
        proof {
            use_type_invariant(&*self);
        }
        if !self.contains(p) {
            let mut v: Vec<u8> = Vec::new();
            core::mem::swap(&mut v, &mut self.elems);
            v.push(p);
            self.elems = v;
            proof {
                old(self).elems@.lemma_push_to_set_commute(p);
            }
        } else {
            proof {
                assert(self@ =~= old(self)@.insert(p));
            }
        }
    }

    /// Removes pitch `p`; a no-op when `p` is not sounding.
    pub fn remove(&mut self, p: u8)
        ensures
            final(self)@ == old(self)@.remove(p),
    {
        proof {
            use_type_invariant(&*self);
        }
        let n = self.elems.len();
        let mut i: usize = 0;
        while i < n
            invariant
                i <= n,
                *self == *old(self),
                n == self.elems@.len(),
                self.elems@.no_duplicates(),
                forall|j: int| 0 <= j < i ==> self.elems@[j] != p,
            decreases n - i,
        {
            if self.elems[i] == p {
                let mut v: Vec<u8> = Vec::new();
                core::mem::swap(&mut v, &mut self.elems);
                v.remove(i);
                proof {
                    let s = old(self).elems@;
                    s.remove_ensures(i as int);
                    assert forall|k1: int, k2: int|
                        0 <= k1 < v@.len() && 0 <= k2 < v@.len() && k1 != k2 implies v@[k1]
                        != v@[k2] by {
                        let m1: int = if k1 < i { k1 } else { k1 + 1 };
                        let m2: int = if k2 < i { k2 } else { k2 + 1 };
                        assert(v@[k1] == s[m1] && v@[k2] == s[m2]);
                    }
                }
                self.elems = v;
                proof {
                    let s = old(self).elems@;
                    let s2 = self.elems@;
                    s.remove_ensures(i as int);
                    assert forall|x: u8| s2.contains(x) implies s.contains(x) && x != p by {
                        let k = choose|k: int| 0 <= k < s2.len() && s2[k] == x;
                        if k < i {
                            assert(s[k] == x);
                        } else {
                            assert(s[k + 1] == x);
                            assert(s[k + 1] != s[i as int]);
                        }
                    }
                    assert forall|x: u8| s.contains(x) && x != p implies s2.contains(x) by {
                        let j = choose|j: int| 0 <= j < s.len() && s[j] == x;
                        if j < i {
                            assert(s2[j] == x);
                        } else {
                            assert(s2[j - 1] == x);
                        }
                    }
                    assert(s2.to_set() =~= old(self)@.remove(p));
                }
                return ;
            }
            i += 1;
        }
        proof {
            assert(!old(self).elems@.contains(p));
            assert(self@ =~= old(self)@.remove(p));
        }
    }

    /// Whether no pitch is sounding.
    pub fn is_empty(&self) -> (r: bool)
        ensures
            r == self@.is_empty(),
    {
        let r = self.elems.len() == 0;
        proof {
            if r {
                assert(self@ =~= Set::<u8>::empty());
            } else {
                assert(self.elems@.contains(self.elems@[0]));
                assert(self@.contains(self.elems@[0]));
            }
        }
        r
    }

    /// How many pitches are sounding.
    pub fn len(&self) -> (n: usize)
        ensures
            self@.finite(),
            n == self@.len(),
    {
        proof {
            use_type_invariant(&*self);
            self.elems@.unique_seq_to_set();
        }
        self.elems.len()
    }

    /// The highest sounding pitch, or `None` when the set is empty.
    pub fn max_note(&self) -> (r: Option<u8>)
        ensures
            r == max_pitch(self@),
    {
        if self.elems.len() == 0 {
            proof {
                assert forall|m: u8| !is_max_pitch(self@, m) by {
                    if self@.contains(m) {
                        assert(self.elems@.contains(m));
                    }
                }
            }
            return None;
        }
        let mut best = self.elems[0];
        let mut i: usize = 1;
        while i < self.elems.len()
            invariant
                1 <= i <= self.elems@.len(),
                self.elems@.contains(best),
                forall|j: int| 0 <= j < i ==> self.elems@[j] <= best,
            decreases self.elems@.len() - i,
        {
            if self.elems[i] > best {
                best = self.elems[i];
                assert(self.elems@.contains(best));
            }
            i += 1;
        }
        proof {
            assert forall|p: u8| self@.contains(p) implies p <= best by {
                let j = choose|j: int| 0 <= j < self.elems@.len() && self.elems@[j] == p;
            }
            assert(is_max_pitch(self@, best));
            lemma_max_pitch_is(self@, best);
        }
        Some(best)
    }

    /// An independent copy holding the same pitches.
    pub fn snapshot(&self) -> (r: NoteSet)
        ensures
            r@ == self@,
    {
        proof {
            use_type_invariant(&*self);
        }
        let mut v: Vec<u8> = Vec::new();
        let mut i: usize = 0;
        while i < self.elems.len()
            invariant
                i <= self.elems@.len(),
                v@ == self.elems@.take(i as int),
            decreases self.elems@.len() - i,
        {
            v.push(self.elems[i]);
            proof {
                assert(self.elems@.take(i + 1) =~= self.elems@.take(i as int).push(
                    self.elems@[i as int],
                ));
            }
            i += 1;
        }
        proof {
            assert(v@ =~= self.elems@);
        }
        NoteSet { elems: v }
    }
}

} // verus!
