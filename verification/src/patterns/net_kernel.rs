//! The node table of a cluster kernel in the style of Erlang's `net_kernel`:
//! connected nodes by name, each with its address and connection handle.
use vstd::prelude::*;
use crate::collections::{StrMap, lemma_entry_in_map, string_views};

verus! {

/// A connected node.
pub struct NodeInfo<C> {
    pub name: String,
    pub address: String,
    pub conn: C,
}

/// Connected nodes by name; connecting a name again replaces its entry.
pub struct NodeTable<C> {
    pub nodes: StrMap<NodeInfo<C>>,
}

/// The names of the nodes, in table order.
pub open spec fn node_names<C>(entries: Seq<(String, NodeInfo<C>)>) -> Seq<Seq<char>> {
    entries.map_values(|e: (String, NodeInfo<C>)| e.0@)
}

impl<C> NodeTable<C> {
    /// Every entry sits under its node's name.
    pub open spec fn wf(&self) -> bool {
        &&& self.nodes.wf()
        &&& forall|k: Seq<char>| #[trigger] self.nodes@.contains_key(k) ==> self.nodes@[k].name@ == k
    }

    /// A table with no nodes.
    pub fn new() -> (t: Self)
        ensures
            t.wf(),
            t.nodes@ == Map::<Seq<char>, NodeInfo<C>>::empty(),
    {
        NodeTable { nodes: StrMap::new() }
    }

    /// Records node `name` at `addr`, reached through `conn`, replacing any earlier entry.
    pub fn connect_node(&mut self, name: &str, addr: &str, conn: C)
        requires
            old(self).wf(),
        ensures
            final(self).wf(),
            final(self).nodes@.dom() == old(self).nodes@.dom().insert(name@),
            final(self).nodes@[name@].name@ == name@,
            final(self).nodes@[name@].address@ == addr@,
            final(self).nodes@[name@].conn == conn,
            forall|k: Seq<char>|
                #[trigger] old(self).nodes@.contains_key(k) && k != name@ ==> final(self).nodes@[k]
                    == old(self).nodes@[k],
    {
        let info = NodeInfo { name: name.to_owned(), address: addr.to_owned(), conn };
        let ghost pre = self.nodes@;
        self.nodes.insert(name.to_owned(), info);
        proof {
            assert(self.nodes@.dom() =~= pre.dom().insert(name@));
        }
    }

    /// The connection of node `name`, if it is connected.
    pub fn get_node(&self, name: &str) -> (r: Option<&C>)
        requires
            self.wf(),
        ensures
            match r {
                Some(c) => self.nodes@.contains_key(name@) && *c == self.nodes@[name@].conn,
                None => !self.nodes@.contains_key(name@),
            },
    {
        let key = name.to_owned();
        match self.nodes.get(&key) {
            Some(info) => Some(&info.conn),
            None => None,
        }
    }

    /// The names of all connected nodes, each once.
    pub fn get_all_nodes(&self) -> (r: Vec<String>)
        requires
            self.wf(),
        ensures
            string_views(r@) == node_names(self.nodes.entries@),
            forall|i: int| 0 <= i < r@.len() ==> self.nodes@.contains_key(#[trigger] r@[i]@),
            r@.len() == self.nodes@.dom().len(),
    {
        let ghost s = self.nodes.entries@;
        let mut r: Vec<String> = Vec::new();
        let mut i: usize = 0;
        while i < self.nodes.entries.len()
            invariant
                i <= s.len(),
                s == self.nodes.entries@,
                string_views(r@) == node_names(s).take(i as int),
            decreases s.len() - i,
        {
            let ghost before = r@;
            r.push(self.nodes.entries[i].0.clone());
            proof {
                assert(string_views(r@) =~= string_views(before).push(s[i as int].0@));
                assert(node_names(s).take(i + 1) =~= node_names(s).take(i as int).push(s[i as int].0@));
                assert(string_views(r@) =~= node_names(s).take(i + 1));
            }
            i = i + 1;
        }
        proof {
            assert(node_names(s).take(s.len() as int) =~= node_names(s));
            self.nodes.lemma_len();
            assert forall|i: int| 0 <= i < r@.len() implies self.nodes@.contains_key(#[trigger] r@[i]@) by {
                assert(string_views(r@)[i] == r@[i]@);
                lemma_entry_in_map(s, i);
            }
        }
        r
    }
}

} // verus!
