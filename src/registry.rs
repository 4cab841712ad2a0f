use vstd::prelude::*;

use crate::text::same_text;

verus! {

/// A window known to the bridge: its identity and its label.
pub struct WindowEntry {
    pub id: u64,
    pub label: String,
}

/// Why a window could not be registered.
#[derive(Clone, Copy, PartialEq, Eq, Structural, Debug)]
pub enum RegistryError {
    /// Another open window already has this label.
    DuplicateLabel,
}

/// The open windows, in the order they were registered; labels are unique.
pub struct Registry {
    entries: Vec<WindowEntry>,
}

/// Whether some window in `windows` has `label`.
pub open spec fn has_label(windows: Seq<(u64, Seq<char>)>, label: Seq<char>) -> bool {
    exists|i: int| 0 <= i < windows.len() && #[trigger] windows[i].1 == label
}

/// Whether some window in `windows` has identity `id`.
pub open spec fn has_id(windows: Seq<(u64, Seq<char>)>, id: u64) -> bool {
    exists|i: int| 0 <= i < windows.len() && #[trigger] windows[i].0 == id
}

/// No two windows share a label, and no two share an identity.
pub open spec fn distinct_windows(windows: Seq<(u64, Seq<char>)>) -> bool {
    &&& forall|i: int, j: int|
        0 <= i < windows.len() && 0 <= j < windows.len() && i != j ==> #[trigger] windows[i].1
            != #[trigger] windows[j].1
    &&& forall|i: int, j: int|
        0 <= i < windows.len() && 0 <= j < windows.len() && i != j ==> #[trigger] windows[i].0
            != #[trigger] windows[j].0
}

impl View for Registry {
    type V = Seq<(u64, Seq<char>)>;

    closed spec fn view(&self) -> Seq<(u64, Seq<char>)> {
        Seq::new(self.entries@.len(), |i: int| (self.entries@[i].id, self.entries@[i].label@))
    }
}

impl Registry {
    pub open spec fn wf(&self) -> bool {
        distinct_windows(self@)
    }

    /// An empty registry.
    pub fn new() -> (r: Registry)
        ensures
            r@ == Seq::<(u64, Seq<char>)>::empty(),
            r.wf(),
    {
        let r = Registry { entries: Vec::new() };
        proof {
            assert(r@ =~= Seq::<(u64, Seq<char>)>::empty());
        }
        r
    }

    /// How many windows are open.
    pub fn count(&self) -> (r: usize)
        ensures
            r == self@.len(),
    {
        self.entries.len()
    }

    /// The window at position `i`.
    pub fn entry(&self, i: usize) -> (r: &WindowEntry)
        requires
            i < self@.len(),
        ensures
            (r.id, r.label@) == self@[i as int],
    {
        &self.entries[i]
    }

    /// The position of the window labelled `label`.
    pub fn position(&self, label: &str) -> (r: Option<usize>)
        ensures
            match r {
                Some(i) => i < self@.len() && self@[i as int].1 == label@,
                None => !has_label(self@, label@),
            },
    {
        let mut i: usize = 0;
        while i < self.entries.len()
            invariant
                i <= self@.len(),
                self@.len() == self.entries@.len(),
                forall|j: int| 0 <= j < i ==> self@[j].1 != label@,
            decreases self@.len() - i,
        {
            if same_text(self.entries[i].label.as_str(), label) {
                return Some(i);
            }
            i = i + 1;
        }
        None
    }

    /// The position of the window with identity `id`.
    pub fn position_of_id(&self, id: u64) -> (r: Option<usize>)
        ensures
            match r {
                Some(i) => i < self@.len() && self@[i as int].0 == id,
                None => !has_id(self@, id),
            },
    {
        let mut i: usize = 0;
        while i < self.entries.len()
            invariant
                i <= self@.len(),
                self@.len() == self.entries@.len(),
                forall|j: int| 0 <= j < i ==> self@[j].0 != id,
            decreases self@.len() - i,
        {
            if self.entries[i].id == id {
                return Some(i);
            }
            i = i + 1;
        }
        None
    }

    /// The window labelled `label`, if one is open.
    pub fn find(&self, label: &str) -> (r: Option<&WindowEntry>)
        ensures
            match r {
                Some(e) => exists|i: int|
                    0 <= i < self@.len() && self@[i] == (e.id, e.label@) && e.label@ == label@,
                None => !has_label(self@, label@),
            },
    {
        match self.position(label) {
            Some(i) => Some(&self.entries[i]),
            None => None,
        }
    }

    /// Adds a window; refused when its label is taken, which leaves the
    /// registry as it was.
    pub fn register(&mut self, id: u64, label: String) -> (r: Result<(), RegistryError>)
        requires
            old(self).wf(),
            !has_id(old(self)@, id),
        ensures
            final(self).wf(),
            r is Err <==> has_label(old(self)@, label@),
            r is Ok ==> final(self)@ == old(self)@.push((id, label@)),
            r is Err ==> r == Err::<(), RegistryError>(RegistryError::DuplicateLabel) && final(self)@
                == old(self)@,
    {
        if self.position(label.as_str()).is_some() {
            return Err(RegistryError::DuplicateLabel);
        }
        let ghost before = self@;
        self.entries.push(WindowEntry { id, label });
        proof {
            assert(self@ =~= before.push((id, label@)));
        }
        Ok(())
    }

    /// Removes and returns the window at position `i`.
    pub fn remove_at(&mut self, i: usize) -> (r: WindowEntry)
        requires
            old(self).wf(),
            i < old(self)@.len(),
        ensures
            final(self).wf(),
            (r.id, r.label@) == old(self)@[i as int],
            final(self)@ == old(self)@.remove(i as int),
    {
        let ghost before = self@;
        let r = self.entries.remove(i);
        proof {
            assert(self@ =~= before.remove(i as int));
        }
        r
    }

    /// Removes and returns the window labelled `label`, if one is open.
    pub fn remove(&mut self, label: &str) -> (r: Option<WindowEntry>)
        requires
            old(self).wf(),
        ensures
            final(self).wf(),
            match r {
                Some(e) => exists|i: int|
                    0 <= i < old(self)@.len() && old(self)@[i] == (e.id, e.label@) && e.label@
                        == label@ && final(self)@ == old(self)@.remove(i),
                None => !has_label(old(self)@, label@) && final(self)@ == old(self)@,
            },
    {
        match self.position(label) {
            Some(i) => Some(self.remove_at(i)),
            None => None,
        }
    }
}

} // verus!
