use vstd::prelude::*;

use crate::text::same_text;

verus! {

/// The handlers that the names in `entries` lead to; a later entry for a name
/// replaces an earlier one.
pub open spec fn handler_map(entries: Seq<(Seq<char>, u64)>) -> Map<Seq<char>, u64>
    decreases entries.len(),
{
    if entries.len() == 0 {
        Map::empty()
    } else {
        let last = entries[entries.len() - 1];
        handler_map(entries.subrange(0, entries.len() - 1)).insert(last.0, last.1)
    }
}

/// The handler registered under `name` in `m`.
pub open spec fn lookup(m: Map<Seq<char>, u64>, name: Seq<char>) -> Option<u64> {
    if m.contains_key(name) {
        Some(m[name])
    } else {
        None
    }
}

/// Two independent tables from a name to a host handler, identified by a
/// number that the host chose: commands (request and reply) and listeners
/// (fire and forget). Registering a name again replaces its handler.
pub struct DispatchTable {
    commands: Vec<(String, u64)>,
    listeners: Vec<(String, u64)>,
}

pub open spec fn entries_view(v: Seq<(String, u64)>) -> Seq<(Seq<char>, u64)> {
    Seq::new(v.len(), |i: int| (v[i].0@, v[i].1))
}

fn find_handler(entries: &Vec<(String, u64)>, name: &str) -> (r: Option<u64>)
    ensures
        r == lookup(handler_map(entries_view(entries@)), name@),
{
    let ghost all = entries_view(entries@);
    let mut i: usize = entries.len();
    proof {
        assert(all.subrange(0, i as int) =~= all);
    }
    while i > 0
        invariant
            i <= entries@.len(),
            all == entries_view(entries@),
            lookup(handler_map(all), name@) == lookup(
                handler_map(all.subrange(0, i as int)),
                name@,
            ),
        decreases i,
    {
        let ghost prefix = all.subrange(0, i as int);
        proof {
            assert(prefix.subrange(0, i - 1) =~= all.subrange(0, i - 1));
        }
        if same_text(entries[i - 1].0.as_str(), name) {
            return Some(entries[i - 1].1);
        }
        i = i - 1;
    }
    proof {
        assert(all.subrange(0, 0) =~= Seq::<(Seq<char>, u64)>::empty());
    }
    None
}

impl DispatchTable {
    pub closed spec fn commands(&self) -> Map<Seq<char>, u64> {
        handler_map(entries_view(self.commands@))
    }

    pub closed spec fn listeners(&self) -> Map<Seq<char>, u64> {
        handler_map(entries_view(self.listeners@))
    }

    /// A table with no handlers.
    pub fn new() -> (r: DispatchTable)
        ensures
            r.commands() == Map::<Seq<char>, u64>::empty(),
            r.listeners() == Map::<Seq<char>, u64>::empty(),
    {
        DispatchTable { commands: Vec::new(), listeners: Vec::new() }
    }

    /// Registers `handler` for the command `name`, replacing any earlier one.
    pub fn register_command(&mut self, name: String, handler: u64)
        ensures
            final(self).commands() == old(self).commands().insert(name@, handler),
            final(self).listeners() == old(self).listeners(),
    {
        let ghost before = entries_view(self.commands@);
        self.commands.push((name, handler));
        proof {
            let after = entries_view(self.commands@);
            assert(after.subrange(0, after.len() - 1) =~= before);
        }
    }

    /// Registers `handler` for the event `name`, replacing any earlier one.
    pub fn register_listener(&mut self, name: String, handler: u64)
        ensures
            final(self).listeners() == old(self).listeners().insert(name@, handler),
            final(self).commands() == old(self).commands(),
    {
        let ghost before = entries_view(self.listeners@);
        self.listeners.push((name, handler));
        proof {
            let after = entries_view(self.listeners@);
            assert(after.subrange(0, after.len() - 1) =~= before);
        }
    }

    /// The handler of the command `name`.
    pub fn command(&self, name: &str) -> (r: Option<u64>)
        ensures
            r == lookup(self.commands(), name@),
    {
        find_handler(&self.commands, name)
    }

    /// The handler of the event `name`.
    pub fn listener(&self, name: &str) -> (r: Option<u64>)
        ensures
            r == lookup(self.listeners(), name@),
    {
        find_handler(&self.listeners, name)
    }
}

} // verus!
