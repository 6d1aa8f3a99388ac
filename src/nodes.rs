//! The node registry: names, addresses and heartbeats.

use vstd::prelude::*;

use crate::error::{NodeErrorView, NodeManagerError};
use crate::names::{distinct_names, name_set, push_name};
use crate::uds::{is_socket_path_in, UdsGenerator};

verus! {

/// What the registry holds of a node: its socket address and the time of
/// its last heartbeat.
pub struct NodeView {
    pub uds: Seq<char>,
    pub last_hb: u64,
}

/// All registered nodes, keyed by name.
pub type NodeMap = Map<Seq<char>, NodeView>;

/// A registered node. Times are milliseconds of a monotonic clock.
#[derive(Debug)]
pub struct Node {
    pub name: String,
    pub uds: String,
    pub last_hb: u64,
}

impl View for Node {
    type V = NodeView;

    open spec fn view(&self) -> NodeView {
        NodeView { uds: self.uds@, last_hb: self.last_hb }
    }
}

impl Node {
    /// A copy of the node.
    pub fn duplicate(&self) -> (r: Node)
        ensures
            r == *self,
    {
        Node { name: self.name.clone(), uds: self.uds.clone(), last_hb: self.last_hb }
    }
}

/// The nodes of a list, keyed by name.
pub open spec fn node_map(v: Seq<Node>) -> NodeMap {
    Map::new(
        |k: Seq<char>| exists|i: int| 0 <= i < v.len() && v[i].name@ == k,
        |k: Seq<char>| v[choose|i: int| 0 <= i < v.len() && v[i].name@ == k]@,
    )
}

/// No two nodes of the list share their name.
pub open spec fn distinct_nodes(v: Seq<Node>) -> bool {
    forall|i: int, j: int| 0 <= i < v.len() && 0 <= j < v.len() && i != j ==> v[i].name@ != v[j].name@
}

/// No two registered nodes share an address.
pub open spec fn addresses_unique(m: NodeMap) -> bool {
    forall|a: Seq<char>, b: Seq<char>|
        #![trigger m[a], m[b]]
        m.contains_key(a) && m.contains_key(b) && a != b ==> m[a].uds != m[b].uds
}

/// Every registered node has a non-empty name.
pub open spec fn names_nonempty(m: NodeMap) -> bool {
    forall|k: Seq<char>| #[trigger] m.contains_key(k) ==> k.len() > 0
}

/// No registered node has an address that lies in `dir` with a drawn name,
/// so that no drawn address can be taken.
pub open spec fn no_address_in(m: NodeMap, dir: Seq<char>) -> bool {
    forall|k: Seq<char>| #[trigger] m.contains_key(k) ==> !is_socket_path_in(dir, m[k].uds)
}

/// Some registered node has address `uds`.
pub open spec fn address_taken(m: NodeMap, uds: Seq<char>) -> bool {
    exists|k: Seq<char>| m.contains_key(k) && #[trigger] m[k].uds == uds
}

/// The node has gone more than `threshold` milliseconds without a heartbeat at time `now`.
pub open spec fn is_stale(v: NodeView, now: u64, threshold: u64) -> bool {
    now as int - v.last_hb as int > threshold as int
}

/// The names of the nodes that are stale at time `now`.
pub open spec fn stale_names(m: NodeMap, now: u64, threshold: u64) -> Set<Seq<char>> {
    Set::new(|k: Seq<char>| m.contains_key(k) && is_stale(m[k], now, threshold))
}

/// The later of two times.
pub open spec fn later(a: u64, b: u64) -> u64 {
    if a >= b {
        a
    } else {
        b
    }
}

/// The registry after a heartbeat of `name` at time `now`: the timestamp
/// never moves back.
pub open spec fn with_heartbeat(m: NodeMap, name: Seq<char>, now: u64) -> NodeMap {
    m.insert(name, NodeView { uds: m[name].uds, last_hb: later(m[name].last_hb, now) })
}

pub proof fn lemma_node_map_at(v: Seq<Node>, i: int)
    requires
        distinct_nodes(v),
        0 <= i < v.len(),
    ensures
        node_map(v).contains_key(v[i].name@),
        node_map(v)[v[i].name@] == v[i]@,
{
    let k = v[i].name@;
    assert(node_map(v).contains_key(k));
    let j = choose|j: int| 0 <= j < v.len() && v[j].name@ == k;
    assert(j == i);
}

pub proof fn lemma_node_map_push(v: Seq<Node>, t: Node)
    requires
        distinct_nodes(v),
        !node_map(v).contains_key(t.name@),
    ensures
        distinct_nodes(v.push(t)),
        node_map(v.push(t)) == node_map(v).insert(t.name@, t@),
{
    let w = v.push(t);
    assert forall|i: int, j: int| 0 <= i < w.len() && 0 <= j < w.len() && i != j implies w[i].name@
        != w[j].name@ by {
        if i == v.len() {
            assert(!(0 <= j < v.len() && v[j].name@ == t.name@));
        } else if j == v.len() {
            assert(!(0 <= i < v.len() && v[i].name@ == t.name@));
        }
    }
    let m = node_map(v).insert(t.name@, t@);
    assert forall|k: Seq<char>| #[trigger] m.contains_key(k) implies node_map(w).contains_key(k)
        && node_map(w)[k] == m[k] by {
        if k == t.name@ {
            lemma_node_map_at(w, v.len() as int);
        } else {
            let i = choose|i: int| 0 <= i < v.len() && v[i].name@ == k;
            lemma_node_map_at(v, i);
            assert(w[i] == v[i]);
            lemma_node_map_at(w, i);
        }
    }
    assert forall|k: Seq<char>| #[trigger] node_map(w).contains_key(k) implies m.contains_key(k) by {
        let i = choose|i: int| 0 <= i < w.len() && w[i].name@ == k;
        if i < v.len() {
            assert(v[i] == w[i]);
        }
    }
    assert(node_map(w) =~= m);
}

pub proof fn lemma_node_map_update(v: Seq<Node>, i: int, t: Node)
    requires
        distinct_nodes(v),
        0 <= i < v.len(),
        t.name@ == v[i].name@,
    ensures
        distinct_nodes(v.update(i, t)),
        node_map(v.update(i, t)) == node_map(v).insert(t.name@, t@),
{
    let w = v.update(i, t);
    assert(distinct_nodes(w)) by {
        assert forall|a: int, b: int| 0 <= a < w.len() && 0 <= b < w.len() && a != b implies w[a].name@
            != w[b].name@ by {
            assert(w[a].name@ == v[a].name@);
            assert(w[b].name@ == v[b].name@);
        }
    }
    let m = node_map(v).insert(t.name@, t@);
    assert forall|k: Seq<char>| #[trigger] m.contains_key(k) implies node_map(w).contains_key(k)
        && node_map(w)[k] == m[k] by {
        if k == t.name@ {
            lemma_node_map_at(w, i);
        } else {
            let j = choose|j: int| 0 <= j < v.len() && v[j].name@ == k;
            lemma_node_map_at(v, j);
            assert(w[j] == v[j]);
            lemma_node_map_at(w, j);
        }
    }
    assert forall|k: Seq<char>| #[trigger] node_map(w).contains_key(k) implies m.contains_key(k) by {
        let j = choose|j: int| 0 <= j < w.len() && w[j].name@ == k;
        if j != i {
            assert(v[j] == w[j]);
        }
    }
    assert(node_map(w) =~= m);
}

pub proof fn lemma_node_map_remove(v: Seq<Node>, i: int)
    requires
        distinct_nodes(v),
        0 <= i < v.len(),
    ensures
        distinct_nodes(v.remove(i)),
        node_map(v.remove(i)) == node_map(v).remove(v[i].name@),
{
    let w = v.remove(i);
    assert(distinct_nodes(w)) by {
        assert forall|a: int, b: int| 0 <= a < w.len() && 0 <= b < w.len() && a != b implies w[a].name@
            != w[b].name@ by {
            let a0 = if a < i { a } else { a + 1 };
            let b0 = if b < i { b } else { b + 1 };
            assert(w[a] == v[a0] && w[b] == v[b0]);
        }
    }
    let m = node_map(v).remove(v[i].name@);
    assert forall|k: Seq<char>| #[trigger] m.contains_key(k) implies node_map(w).contains_key(k)
        && node_map(w)[k] == m[k] by {
        let j = choose|j: int| 0 <= j < v.len() && v[j].name@ == k;
        lemma_node_map_at(v, j);
        assert(j != i);
        let j0 = if j < i { j } else { j - 1 };
        assert(w[j0] == v[j]);
        lemma_node_map_at(w, j0);
    }
    assert forall|k: Seq<char>| #[trigger] node_map(w).contains_key(k) implies m.contains_key(k) by {
        let j = choose|j: int| 0 <= j < w.len() && w[j].name@ == k;
        let j0 = if j < i { j } else { j + 1 };
        assert(w[j] == v[j0]);
        assert(j0 != i);
    }
    assert(node_map(w) =~= m);
}

/// How many addresses `register_node` draws before it gives up.
pub const MAX_DRAWS: usize = 8;

/// The node registry: names, addresses and heartbeats.
#[derive(Debug)]
pub struct NodeManager {
    nodes: Vec<Node>,
    uds_generator: UdsGenerator,
}

impl View for NodeManager {
    type V = NodeMap;

    closed spec fn view(&self) -> NodeMap {
        node_map(self.nodes@)
    }
}

impl NodeManager {
    pub closed spec fn layout_ok(&self) -> bool {
        distinct_nodes(self.nodes@)
    }

    /// The registry is well formed: no address is held by two nodes, and
    /// no name is empty.
    pub open spec fn wf(&self) -> bool {
        &&& self.layout_ok()
        &&& addresses_unique(self@)
        &&& names_nonempty(self@)
    }

    /// The directory under which addresses are minted.
    pub closed spec fn scratch_dir(&self) -> Seq<char> {
        self.uds_generator.dir()
    }

    /// An empty registry that mints addresses with `uds_generator`.
    pub fn new(uds_generator: UdsGenerator) -> (r: NodeManager)
        ensures
            r.wf(),
            r@ == Map::<Seq<char>, NodeView>::empty(),
            r.scratch_dir() == uds_generator.dir(),
    {
        let r = NodeManager { nodes: Vec::new(), uds_generator };
        assert(r@ =~= Map::<Seq<char>, NodeView>::empty());
        r
    }

    /// Where node `name` stands, if it is registered.
    fn find(&self, name: &str) -> (r: Option<usize>)
        requires
            self.layout_ok(),
        ensures
            match r {
                Some(i) => {
                    &&& i < self.nodes@.len()
                    &&& self.nodes@[i as int].name@ == name@
                    &&& self@.contains_key(name@)
                    &&& self@[name@] == self.nodes@[i as int]@
                },
                None => !self@.contains_key(name@),
            },
    {
        let n = name.to_owned();
        let mut i: usize = 0;
        while i < self.nodes.len()
            invariant
                self.layout_ok(),
                n@ == name@,
                i <= self.nodes@.len(),
                forall|j: int| 0 <= j < i ==> self.nodes@[j].name@ != name@,
            decreases self.nodes@.len() - i,
        {
            if self.nodes[i].name == n {
                proof {
                    lemma_node_map_at(self.nodes@, i as int);
                }
                return Some(i);
            }
            i = i + 1;
        }
        None
    }

    /// Whether some registered node has address `uds`.
    fn address_in_use(&self, uds: &String) -> (r: bool)
        requires
            self.layout_ok(),
        ensures
            r == address_taken(self@, uds@),
    {
        let mut i: usize = 0;
        while i < self.nodes.len()
            invariant
                self.layout_ok(),
                i <= self.nodes@.len(),
                forall|j: int| 0 <= j < i ==> self.nodes@[j].uds@ != uds@,
            decreases self.nodes@.len() - i,
        {
            if self.nodes[i].uds == *uds {
                proof {
                    lemma_node_map_at(self.nodes@, i as int);
                    assert(self@[self.nodes@[i as int].name@].uds == uds@);
                }
                return true;
            }
            i = i + 1;
        }
        proof {
            assert forall|k: Seq<char>| self@.contains_key(k) implies #[trigger] self@[k].uds != uds@ by {
                let j = choose|j: int| 0 <= j < self.nodes@.len() && self.nodes@[j].name@ == k;
                lemma_node_map_at(self.nodes@, j);
            }
        }
        false
    }

    /// Whether node `name` is registered.
    pub fn contains_node(&self, name: &str) -> (r: bool)
        requires
            self.wf(),
        ensures
            r == self@.contains_key(name@),
    {
        self.find(name).is_some()
    }

    /// Registers `name` at address `uds`, with its heartbeat at `now`.
    pub fn register_node_with_address(&mut self, name: &str, uds: &str, now: u64) -> (r: Result<
        Node,
        NodeManagerError,
    >)
        requires
            old(self).wf(),
        ensures
            final(self).wf(),
            final(self).scratch_dir() == old(self).scratch_dir(),
            r is Err ==> final(self)@ == old(self)@,
            name@.len() == 0 ==> r is Err && r->Err_0@ == NodeErrorView::EmptyName,
            name@.len() > 0 && old(self)@.contains_key(name@) ==> {
                &&& r is Err
                &&& r->Err_0@ == NodeErrorView::NodeAlreadyExists(name@)
            },
            name@.len() > 0 && !old(self)@.contains_key(name@) && address_taken(old(self)@, uds@) ==> {
                &&& r is Err
                &&& r->Err_0@ == NodeErrorView::AddressUnavailable
            },
            name@.len() > 0 && !old(self)@.contains_key(name@) && !address_taken(old(self)@, uds@) ==> {
                &&& r is Ok
                &&& r->Ok_0.name@ == name@
                &&& r->Ok_0@ == (NodeView { uds: uds@, last_hb: now })
                &&& final(self)@ == old(self)@.insert(name@, NodeView { uds: uds@, last_hb: now })
            },
    {
        if name.is_empty() {
            return Err(NodeManagerError::EmptyName);
        }
        if self.find(name).is_some() {
            return Err(NodeManagerError::NodeAlreadyExists(name.to_owned()));
        }
        let address = uds.to_owned();
        if self.address_in_use(&address) {
            return Err(NodeManagerError::AddressUnavailable);
        }
        let node = Node { name: name.to_owned(), uds: address, last_hb: now };
        let copy = node.duplicate();
        proof {
            lemma_node_map_push(self.nodes@, node);
        }
        self.nodes.push(node);
        proof {
            let m = self@;
            assert forall|a: Seq<char>, b: Seq<char>|
                m.contains_key(a) && m.contains_key(b) && a != b implies #[trigger] m[a].uds != #[trigger] m[b].uds by {
                if a != name@ && b != name@ {
                    assert(old(self)@.contains_key(a) && old(self)@.contains_key(b));
                } else if a == name@ {
                    assert(old(self)@.contains_key(b) && old(self)@[b].uds == m[b].uds);
                } else {
                    assert(old(self)@.contains_key(a) && old(self)@[a].uds == m[a].uds);
                }
            }
        }
        Ok(copy)
    }

    /// Registers `name` with a freshly minted address and its heartbeat at
    /// `now`. Draws up to `MAX_DRAWS` addresses until one is unused.
    pub fn register_node(&mut self, name: &str, now: u64) -> (r: Result<Node, NodeManagerError>)
        requires
            old(self).wf(),
        ensures
            final(self).wf(),
            final(self).scratch_dir() == old(self).scratch_dir(),
            r is Err ==> final(self)@ == old(self)@,
            name@.len() == 0 ==> r is Err && r->Err_0@ == NodeErrorView::EmptyName,
            name@.len() > 0 && old(self)@.contains_key(name@) ==> {
                &&& r is Err
                &&& r->Err_0@ == NodeErrorView::NodeAlreadyExists(name@)
            },
            name@.len() > 0 && !old(self)@.contains_key(name@) ==> {
                ||| r is Err && r->Err_0@ == NodeErrorView::AddressUnavailable
                ||| {
                    &&& r is Ok
                    &&& r->Ok_0.name@ == name@
                    &&& r->Ok_0.last_hb == now
                    &&& is_socket_path_in(old(self).scratch_dir(), r->Ok_0.uds@)
                    &&& !address_taken(old(self)@, r->Ok_0.uds@)
                    &&& final(self)@ == old(self)@.insert(name@, r->Ok_0@)
                }
            },
            name@.len() > 0 && !old(self)@.contains_key(name@) && no_address_in(
                old(self)@,
                old(self).scratch_dir(),
            ) ==> r is Ok,
    {
        if name.is_empty() {
            return Err(NodeManagerError::EmptyName);
        }
        if self.find(name).is_some() {
            return Err(NodeManagerError::NodeAlreadyExists(name.to_owned()));
        }
        let mut draws: usize = 0;
        while draws < MAX_DRAWS
            invariant
                *self == *old(self),
                self.wf(),
                name@.len() > 0,
                !self@.contains_key(name@),
                draws > 0 ==> exists|k: Seq<char>|
                    #[trigger] self@.contains_key(k) && is_socket_path_in(
                        self.scratch_dir(),
                        self@[k].uds,
                    ),
            decreases MAX_DRAWS - draws,
        {
            let uds = self.uds_generator.generate_uds();
            if !self.address_in_use(&uds) {
                return self.register_node_with_address(name, uds.as_str(), now);
            }
            proof {
                let k = choose|k: Seq<char>| self@.contains_key(k) && #[trigger] self@[k].uds == uds@;
                assert(is_socket_path_in(self.scratch_dir(), self@[k].uds));
            }
            draws = draws + 1;
        }
        Err(NodeManagerError::AddressUnavailable)
    }

    /// Records a heartbeat of `name` at time `now`.
    pub fn update_heartbeat(&mut self, name: &str, now: u64) -> (r: Result<(), NodeManagerError>)
        requires
            old(self).wf(),
        ensures
            final(self).wf(),
            final(self).scratch_dir() == old(self).scratch_dir(),
            !old(self)@.contains_key(name@) ==> {
                &&& r is Err
                &&& r->Err_0@ == NodeErrorView::NodeDoesNotExist(name@)
                &&& final(self)@ == old(self)@
            },
            old(self)@.contains_key(name@) ==> {
                &&& r is Ok
                &&& final(self)@ == with_heartbeat(old(self)@, name@, now)
            },
    {
        let i = match self.find(name) {
            Some(i) => i,
            None => {
                return Err(NodeManagerError::NodeDoesNotExist(name.to_owned()));
            },
        };
        let ghost pre = self.nodes@;
        if now > self.nodes[i].last_hb {
            self.nodes[i].last_hb = now;
        }
        proof {
            lemma_node_map_update(pre, i as int, self.nodes@[i as int]);
            assert(self@ =~= with_heartbeat(old(self)@, name@, now));
            let m = self@;
            assert forall|a: Seq<char>, b: Seq<char>|
                m.contains_key(a) && m.contains_key(b) && a != b implies #[trigger] m[a].uds != #[trigger] m[b].uds by {
                assert(old(self)@[a].uds == m[a].uds);
                assert(old(self)@[b].uds == m[b].uds);
            }
        }
        Ok(())
    }

    /// Takes node `name` out of the registry.
    pub fn remove_node(&mut self, name: &str) -> (r: Result<(), NodeManagerError>)
        requires
            old(self).wf(),
        ensures
            final(self).wf(),
            final(self).scratch_dir() == old(self).scratch_dir(),
            !old(self)@.contains_key(name@) ==> {
                &&& r is Err
                &&& r->Err_0@ == NodeErrorView::NodeDoesNotExist(name@)
                &&& final(self)@ == old(self)@
            },
            old(self)@.contains_key(name@) ==> {
                &&& r is Ok
                &&& final(self)@ == old(self)@.remove(name@)
            },
    {
        let i = match self.find(name) {
            Some(i) => i,
            None => {
                return Err(NodeManagerError::NodeDoesNotExist(name.to_owned()));
            },
        };
        let ghost pre = self.nodes@;
        self.nodes.remove(i);
        proof {
            lemma_node_map_remove(pre, i as int);
            let m = self@;
            assert forall|a: Seq<char>, b: Seq<char>|
                m.contains_key(a) && m.contains_key(b) && a != b implies #[trigger] m[a].uds != #[trigger] m[b].uds by {
                assert(old(self)@[a].uds == m[a].uds);
                assert(old(self)@[b].uds == m[b].uds);
            }
        }
        Ok(())
    }

    /// The address of node `name`, which is registered.
    pub fn address_of(&self, name: &str) -> (r: String)
        requires
            self.wf(),
            self@.contains_key(name@),
        ensures
            r@ == self@[name@].uds,
    {
        match self.find(name) {
            Some(i) => self.nodes[i].uds.clone(),
            None => String::new(),
        }
    }

    /// The address of node `name`.
    pub fn get_address(&self, name: &str) -> (r: Result<String, NodeManagerError>)
        requires
            self.wf(),
        ensures
            !self@.contains_key(name@) ==> {
                &&& r is Err
                &&& r->Err_0@ == NodeErrorView::NodeDoesNotExist(name@)
            },
            self@.contains_key(name@) ==> r is Ok && r->Ok_0@ == self@[name@].uds,
    {
        match self.find(name) {
            Some(i) => Ok(self.nodes[i].uds.clone()),
            None => Err(NodeManagerError::NodeDoesNotExist(name.to_owned())),
        }
    }

    /// A copy of every registered node, each once.
    pub fn list_nodes(&self) -> (r: Result<Vec<Node>, NodeManagerError>)
        requires
            self.wf(),
        ensures
            r is Ok,
            distinct_nodes(r->Ok_0@),
            node_map(r->Ok_0@) == self@,
    {
        let mut r: Vec<Node> = Vec::new();
        let mut i: usize = 0;
        while i < self.nodes.len()
            invariant
                i <= self.nodes@.len(),
                r@ == self.nodes@.take(i as int),
            decreases self.nodes@.len() - i,
        {
            r.push(self.nodes[i].duplicate());
            assert(self.nodes@.take(i as int + 1) =~= self.nodes@.take(i as int).push(self.nodes@[i as int]));
            i = i + 1;
        }
        assert(self.nodes@.take(self.nodes@.len() as int) =~= self.nodes@);
        Ok(r)
    }

    /// The names of the nodes that at time `now` have gone more than
    /// `threshold` milliseconds without a heartbeat, each once.
    pub fn stale_nodes(&self, now: u64, threshold: u64) -> (r: Vec<String>)
        requires
            self.wf(),
        ensures
            distinct_names(r@),
            name_set(r@) == stale_names(self@, now, threshold),
    {
        let mut r: Vec<String> = Vec::new();
        let mut i: usize = 0;
        proof {
            assert(name_set(r@) =~= Set::empty());
        }
        while i < self.nodes.len()
            invariant
                self.wf(),
                i <= self.nodes@.len(),
                distinct_names(r@),
                name_set(r@) == Set::new(
                    |k: Seq<char>|
                        exists|j: int|
                            0 <= j < i && #[trigger] self.nodes@[j].name@ == k && is_stale(
                                self.nodes@[j]@,
                                now,
                                threshold,
                            ),
                ),
            decreases self.nodes@.len() - i,
        {
            let ghost before = name_set(r@);
            let ghost k = self.nodes@[i as int].name@;
            let hb = self.nodes[i].last_hb;
            if now > hb && now - hb > threshold {
                proof {
                    assert(!before.contains(k)) by {
                        if before.contains(k) {
                            let j = choose|j: int|
                                0 <= j < i && #[trigger] self.nodes@[j].name@ == k && is_stale(
                                    self.nodes@[j]@,
                                    now,
                                    threshold,
                                );
                            assert(j != i);
                        }
                    }
                }
                push_name(&mut r, self.nodes[i].name.clone());
            }
            proof {
                assert(name_set(r@) =~= Set::new(
                    |k: Seq<char>|
                        exists|j: int|
                            0 <= j < i + 1 && #[trigger] self.nodes@[j].name@ == k && is_stale(
                                self.nodes@[j]@,
                                now,
                                threshold,
                            ),
                )) by {
                    assert forall|k2: Seq<char>| name_set(r@).contains(k2) implies exists|j: int|
                        0 <= j < i + 1 && #[trigger] self.nodes@[j].name@ == k2 && is_stale(
                            self.nodes@[j]@,
                            now,
                            threshold,
                        ) by {
                        if k2 == k && !before.contains(k2) {
                            assert(self.nodes@[i as int].name@ == k2);
                        }
                    }
                }
            }
            i = i + 1;
        }
        proof {
            assert forall|k: Seq<char>| #[trigger] stale_names(self@, now, threshold).contains(k)
                <==> name_set(r@).contains(k) by {
                if self@.contains_key(k) {
                    let j = choose|j: int| 0 <= j < self.nodes@.len() && self.nodes@[j].name@ == k;
                    lemma_node_map_at(self.nodes@, j);
                    if name_set(r@).contains(k) {
                        let j2 = choose|j2: int|
                            0 <= j2 < self.nodes@.len() && #[trigger] self.nodes@[j2].name@ == k && is_stale(
                                self.nodes@[j2]@,
                                now,
                                threshold,
                            );
                        assert(j2 == j);
                    }
                }
                if name_set(r@).contains(k) {
                    let j2 = choose|j2: int|
                        0 <= j2 < self.nodes@.len() && #[trigger] self.nodes@[j2].name@ == k && is_stale(
                            self.nodes@[j2]@,
                            now,
                            threshold,
                        );
                    lemma_node_map_at(self.nodes@, j2);
                }
            }
            assert(name_set(r@) =~= stale_names(self@, now, threshold));
        }
        r
    }
}

} // verus!
