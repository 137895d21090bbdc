//! Feedback handlers of one marker, by event type.

use vstd::prelude::*;
use crate::keyed::{keys_unique, pairs_to_map, lemma_map_at, lemma_map_domain, lemma_push, lemma_update, lemma_remove};

verus! {

/// A handler, as the caller's identifier for a callback that the caller keeps.
pub type HandlerId = u64;

/// The event type under which `set_callback` sets the default handler.
pub const DEFAULT_FEEDBACK_CB: u8 = 255;

/// The event type of feedback that moves a marker.
pub const POSE_UPDATE: u8 = 1;

/// Handlers keyed by event type, at most one per type.
pub struct HandlerTable {
    entries: Vec<(u8, HandlerId)>,
}

impl View for HandlerTable {
    type V = Map<u8, HandlerId>;

    closed spec fn view(&self) -> Map<u8, HandlerId> {
        pairs_to_map(self.entries@)
    }
}

impl HandlerTable {
    #[verifier::type_invariant]
    spec fn inv(&self) -> bool {
        keys_unique(self.entries@)
    }

    pub fn new() -> (r: Self)
        ensures
            r@ == Map::<u8, HandlerId>::empty(),
    {
        HandlerTable { entries: Vec::new() }
    }

    /// The handler for event type `t`.
    pub fn get(&self, t: u8) -> (r: Option<HandlerId>)
        ensures
            r == self@.get(t),
    {
        proof {
            use_type_invariant(self);
        }
        match index_of(&self.entries, t) {
            Some(i) => Some(self.entries[i].1),
            None => None,
        }
    }

    /// Sets the handler for `t` where `h` is given, removes it where not.
    pub fn assign(&mut self, t: u8, h: Option<HandlerId>)
        ensures
            final(self)@ == assigned(old(self)@, t, h),
    {
        proof {
            use_type_invariant(&*self);
        }
        let mut entries: Vec<(u8, HandlerId)> = Vec::new();
        std::mem::swap(&mut entries, &mut self.entries);
        let found = index_of(&entries, t);
        match h {
            Some(h) => match found {
                Some(i) => {
                    proof {
                        lemma_update(entries@, i as int, h);
                    }
                    entries.set(i, (t, h));
                },
                None => {
                    proof {
                        lemma_push(entries@, t, h);
                    }
                    entries.push((t, h));
                },
            },
            None => match found {
                Some(i) => {
                    proof {
                        lemma_remove(entries@, i as int);
                    }
                    entries.remove(i);
                },
                None => {
                    assert(pairs_to_map(entries@) =~= pairs_to_map(entries@).remove(t));
                },
            },
        }
        self.entries = entries;
    }

    pub fn duplicate(&self) -> (r: Self)
        ensures
            r@ == self@,
    {
        proof {
            use_type_invariant(self);
        }
        let mut entries: Vec<(u8, HandlerId)> = Vec::new();
        let mut i: usize = 0;
        while i < self.entries.len()
            invariant
                i <= self.entries@.len(),
                entries@ == self.entries@.subrange(0, i as int),
            decreases self.entries@.len() - i,
        {
            let e = self.entries[i];
            entries.push(e);
            i = i + 1;
        }
        assert(entries@ =~= self.entries@);
        HandlerTable { entries }
    }
}

/// The position of the entry for event type `t`, if there is one.
fn index_of(entries: &Vec<(u8, HandlerId)>, t: u8) -> (r: Option<usize>)
    requires
        keys_unique(entries@),
    ensures
        match r {
            Some(i) => i < entries@.len() && entries@[i as int].0 == t
                && pairs_to_map(entries@).contains_key(t) && pairs_to_map(entries@)[t] == entries@[i as int].1,
            None => !pairs_to_map(entries@).contains_key(t),
        },
{
    let mut i: usize = 0;
    while i < entries.len()
        invariant
            keys_unique(entries@),
            i <= entries@.len(),
            forall|j: int| 0 <= j < i ==> #[trigger] entries@[j].0 != t,
        decreases entries@.len() - i,
    {
        if entries[i].0 == t {
            proof {
                lemma_map_at(entries@, i as int);
            }
            return Some(i);
        }
        i = i + 1;
    }
    proof {
        lemma_map_domain(entries@, t);
    }
    None
}

/// The handlers after setting `t` to `h`, or removing it where `h` is `None`.
pub open spec fn assigned(m: Map<u8, HandlerId>, t: u8, h: Option<HandlerId>) -> Map<u8, HandlerId> {
    match h {
        Some(h) => m.insert(t, h),
        None => m.remove(t),
    }
}

} // verus!
