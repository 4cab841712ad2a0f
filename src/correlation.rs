use vstd::prelude::*;

use crate::text::same_text;

verus! {

/// Whether a request `id` is outstanding in `pending`.
pub open spec fn is_pending(pending: Seq<(Seq<char>, u64)>, id: Seq<char>) -> bool {
    exists|i: int| 0 <= i < pending.len() && #[trigger] pending[i].0 == id
}

/// No request identifier is outstanding twice.
pub open spec fn distinct_requests(pending: Seq<(Seq<char>, u64)>) -> bool {
    forall|i: int, j: int|
        0 <= i < pending.len() && 0 <= j < pending.len() && i != j ==> #[trigger] pending[i].0
            != #[trigger] pending[j].0
}

/// The requests still owed a reply: each correlation identifier with the
/// window that sent it.
pub struct PendingTable {
    entries: Vec<(String, u64)>,
}

impl View for PendingTable {
    type V = Seq<(Seq<char>, u64)>;

    closed spec fn view(&self) -> Seq<(Seq<char>, u64)> {
        pending_view(self.entries@)
    }
}

pub open spec fn pending_view(v: Seq<(String, u64)>) -> Seq<(Seq<char>, u64)> {
    Seq::new(v.len(), |i: int| (v[i].0@, v[i].1))
}

/// Holds of the requests that some other window than `window` sent.
pub open spec fn not_from(window: u64) -> spec_fn((Seq<char>, u64)) -> bool {
    |p: (Seq<char>, u64)| p.1 != window
}

impl PendingTable {
    pub open spec fn wf(&self) -> bool {
        distinct_requests(self@)
    }

    /// No request outstanding.
    pub fn new() -> (r: PendingTable)
        ensures
            r@ == Seq::<(Seq<char>, u64)>::empty(),
            r.wf(),
    {
        let r = PendingTable { entries: Vec::new() };
        proof {
            assert(r@ =~= Seq::<(Seq<char>, u64)>::empty());
        }
        r
    }

    /// The position of request `id`.
    pub fn position(&self, id: &str) -> (r: Option<usize>)
        ensures
            match r {
                Some(i) => i < self@.len() && self@[i as int].0 == id@,
                None => !is_pending(self@, id@),
            },
    {
        let mut i: usize = 0;
        while i < self.entries.len()
            invariant
                i <= self@.len(),
                self@.len() == self.entries@.len(),
                forall|j: int| 0 <= j < i ==> self@[j].0 != id@,
            decreases self@.len() - i,
        {
            if same_text(self.entries[i].0.as_str(), id) {
                return Some(i);
            }
            i = i + 1;
        }
        None
    }

    /// Records that request `id` from `window` awaits its reply.
    pub fn insert(&mut self, id: String, window: u64)
        requires
            old(self).wf(),
            !is_pending(old(self)@, id@),
        ensures
            final(self).wf(),
            final(self)@ == old(self)@.push((id@, window)),
    {
        let ghost before = self@;
        self.entries.push((id, window));
        proof {
            assert(self@ =~= before.push((id@, window)));
        }
    }

    /// Removes request `id` and returns the window that sent it.
    pub fn take(&mut self, id: &str) -> (r: Option<u64>)
        requires
            old(self).wf(),
        ensures
            final(self).wf(),
            match r {
                Some(w) => exists|i: int|
                    0 <= i < old(self)@.len() && old(self)@[i] == (id@, w) && final(self)@ == old(
                        self,
                    )@.remove(i),
                None => !is_pending(old(self)@, id@) && final(self)@ == old(self)@,
            },
    {
        match self.position(id) {
            Some(i) => {
                let ghost before = self@;
                let (_, w) = self.entries.remove(i);
                proof {
                    assert(self@ =~= before.remove(i as int));
                }
                Some(w)
            },
            None => None,
        }
    }

    /// Drops every request that `window` sent.
    pub fn discard_window(&mut self, window: u64)
        requires
            old(self).wf(),
        ensures
            final(self).wf(),
            final(self)@ == old(self)@.filter(not_from(window)),
    {
        let ghost all = self@;
        let ghost keep = not_from(window);
        let old_entries = &self.entries;
        let mut kept: Vec<(String, u64)> = Vec::new();
        let mut i: usize = 0;
        assert(all == pending_view(old_entries@));
        while i < old_entries.len()
            invariant
                i <= old_entries@.len(),
                keep == not_from(window),
                all == pending_view(old_entries@),
                distinct_requests(all),
                ({
                    let kv = pending_view(kept@);
                    &&& kv == all.subrange(0, i as int).filter(keep)
                    &&& distinct_requests(kv)
                    &&& forall|k: int|
                        0 <= k < kv.len() ==> exists|j: int| 0 <= j < i && #[trigger] all[j] == #[trigger] kv[k]
                }),
            decreases old_entries@.len() - i,
        {
            let ghost kv0 = pending_view(kept@);
            let ghost next = all.subrange(0, i + 1);
            proof {
                assert(next.drop_last() =~= all.subrange(0, i as int));
                assert(next.last() == all[i as int]);
                assert(next.len() > 0);
                reveal(Seq::filter);
                assert(all.subrange(0, i as int).filter(keep) == kv0);
                assert(next.filter(keep) == if keep(next.last()) {
                    next.drop_last().filter(keep).push(next.last())
                } else {
                    next.drop_last().filter(keep)
                });
            }
            if old_entries[i].1 != window {
                let e = (old_entries[i].0.clone(), old_entries[i].1);
                kept.push(e);
                proof {
                    let kv = pending_view(kept@);
                    assert(kv =~= kv0.push(all[i as int]));
                    assert(keep(all[i as int]));
                    assert(next.filter(keep) == kv0.push(all[i as int]));
                    assert forall|k: int| 0 <= k < kv.len() implies exists|j: int|
                        0 <= j < i + 1 && #[trigger] all[j] == #[trigger] kv[k] by {
                        if k < kv0.len() {
                            let j = choose|j: int| 0 <= j < i && all[j] == kv0[k];
                            assert(all[j] == kv[k]);
                        } else {
                            assert(all[i as int] == kv[k]);
                        }
                    }
                    assert forall|a: int, b: int|
                        0 <= a < kv.len() && 0 <= b < kv.len() && a != b implies #[trigger] kv[a].0
                        != #[trigger] kv[b].0 by {
                        if a < kv0.len() && b < kv0.len() {
                        } else if a < kv0.len() {
                            let j = choose|j: int| 0 <= j < i && all[j] == kv0[a];
                            assert(all[j].0 != all[i as int].0);
                        } else if b < kv0.len() {
                            let j = choose|j: int| 0 <= j < i && all[j] == kv0[b];
                            assert(all[j].0 != all[i as int].0);
                        }
                    }
                }
            } else {
                proof {
                    let kv = pending_view(kept@);
                    assert(kv =~= kv0);
                    assert(!keep(all[i as int]));
                    assert(next.filter(keep) == kv0);
                }
            }
            i = i + 1;
        }
        self.entries = kept;
        proof {
            reveal(Seq::filter);
            assert(all.subrange(0, all.len() as int) =~= all);
            assert(self@ =~= all.filter(keep));
        }
    }
}

} // verus!
