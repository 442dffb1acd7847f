//! The node graph as plain data: which output drives each input, and which nodes feed which.

use vstd::prelude::*;
use vstd::seq_lib::*;
use vstd::set_lib::*;

verus! {

/// An output pin of a node.
#[derive(Clone, Copy, Debug, PartialEq, Eq, Structural)]
pub struct OutPort {
    pub node: usize,
    pub port: usize,
}

/// A node with the output that drives each of its inputs.
pub struct GraphNode {
    pub id: usize,
    /// Whether the node generates a signal rather than passing one on.
    pub source: bool,
    pub drivers: Vec<Option<OutPort>>,
}

/// A snapshot of the node graph's wiring.
pub struct ChainGraph {
    pub nodes: Vec<GraphNode>,
}

impl ChainGraph {
    /// There is a node with this identifier.
    pub open spec fn has(&self, id: usize) -> bool {
        exists|i: int| 0 <= i < self.nodes.len() && (#[trigger] self.nodes[i]).id == id
    }

    /// The node with this identifier.
    pub open spec fn node(&self, id: usize) -> GraphNode
        recommends
            self.has(id),
    {
        self.nodes[choose|i: int| 0 <= i < self.nodes.len() && (#[trigger] self.nodes[i]).id == id]
    }

    /// What drives each input of a node.
    pub open spec fn drivers(&self, id: usize) -> Seq<Option<OutPort>> {
        self.node(id).drivers@
    }

    /// The identifiers, in order.
    pub open spec fn ids(&self) -> Seq<usize> {
        Seq::new(self.nodes.len() as nat, |i: int| self.nodes[i].id)
    }

    /// Identifiers are unique and every driver is a node of the graph.
    pub open spec fn wf(&self) -> bool {
        &&& forall|i: int, j: int|
            0 <= i < j < self.nodes.len() ==> (#[trigger] self.nodes[i]).id != (
            #[trigger] self.nodes[j]).id
        &&& forall|i: int, k: int|
            #![trigger self.nodes[i].drivers[k]]
            0 <= i < self.nodes.len() && 0 <= k < self.nodes[i].drivers.len() && (
            self.nodes[i].drivers[k] is Some) ==> self.has(self.nodes[i].drivers[k]->0.node)
    }

    /// Input `k` of `to` is driven by `from`.
    pub open spec fn feeds_at(&self, from: usize, to: usize, k: int) -> bool {
        &&& self.has(to)
        &&& 0 <= k < self.drivers(to).len()
        &&& self.drivers(to)[k] is Some
        &&& self.drivers(to)[k]->0.node == from
    }

    /// Some input of `to` is driven by `from`.
    pub open spec fn feeds(&self, from: usize, to: usize) -> bool {
        exists|k: int| #[trigger] self.feeds_at(from, to, k)
    }

    /// Each node of the walk feeds the next.
    pub open spec fn is_walk(&self, walk: Seq<usize>) -> bool {
        forall|i: int|
            0 <= i < walk.len() - 1 ==> self.feeds(#[trigger] walk[i], walk[i + 1])
    }

    /// A signal leaving `from` arrives at `to`, possibly through other nodes; a node reaches
    /// itself.
    pub open spec fn reaches(&self, from: usize, to: usize) -> bool {
        exists|walk: Seq<usize>|
            {
                &&& walk.len() > 0
                &&& #[trigger] self.is_walk(walk)
                &&& walk[0] == from
                &&& walk.last() == to
            }
    }

    /// The node takes part in a feedback loop.
    pub open spec fn on_loop(&self, id: usize) -> bool {
        exists|next: usize| #[trigger] self.feeds(id, next) && self.reaches(next, id)
    }

    /// There is no feedback loop.
    pub open spec fn acyclic(&self) -> bool {
        forall|id: usize| !#[trigger] self.on_loop(id)
    }

    pub(crate) proof fn node_is_unique(&self, i: int)
        requires
            self.wf(),
            0 <= i < self.nodes.len(),
        ensures
            self.has(self.nodes[i].id),
            self.node(self.nodes[i].id) == self.nodes[i],
    {
        let id = self.nodes[i].id;
        assert(self.nodes[i].id == id);
        let j = choose|j: int| 0 <= j < self.nodes.len() && (#[trigger] self.nodes[j]).id == id;
        assert(0 <= j < self.nodes.len() && self.nodes[j].id == id);
        if i < j {
            assert(self.nodes[i].id != self.nodes[j].id);
        } else if j < i {
            assert(self.nodes[j].id != self.nodes[i].id);
        }
    }

    pub(crate) proof fn driver_exists(&self, id: usize, k: int)
        requires
            self.wf(),
            self.has(id),
            0 <= k < self.drivers(id).len(),
            self.drivers(id)[k] is Some,
        ensures
            self.has(self.drivers(id)[k]->0.node),
            self.feeds_at(self.drivers(id)[k]->0.node, id, k),
            self.feeds(self.drivers(id)[k]->0.node, id),
    {
        let i = choose|i: int| 0 <= i < self.nodes.len() && (#[trigger] self.nodes[i]).id == id;
        assert(self.nodes[i].drivers[k] is Some);
        assert(self.feeds_at(self.drivers(id)[k]->0.node, id, k));
    }

    pub(crate) proof fn reaches_itself(&self, id: usize)
        ensures
            self.reaches(id, id),
    {
        let walk = seq![id];
        assert(self.is_walk(walk));
        assert(walk[0] == id && walk.last() == id);
    }

    pub(crate) proof fn reaches_through(&self, from: usize, via: usize, to: usize)
        requires
            self.feeds(from, via),
            self.reaches(via, to),
        ensures
            self.reaches(from, to),
    {
        let rest = choose|walk: Seq<usize>|
            walk.len() > 0 && #[trigger] self.is_walk(walk) && walk[0] == via && walk.last() == to;
        let walk = seq![from] + rest;
        assert forall|i: int| 0 <= i < walk.len() - 1 implies self.feeds(
            #[trigger] walk[i],
            walk[i + 1],
        ) by {
            if i > 0 {
                assert(walk[i] == rest[i - 1]);
                assert(walk[i + 1] == rest[i]);
            } else {
                assert(walk[1] == rest[0]);
            }
        }
        assert(self.is_walk(walk));
        assert(walk[0] == from && walk.last() == to);
    }

    pub(crate) proof fn reaches_then_feeds(&self, from: usize, via: usize, to: usize)
        requires
            self.reaches(from, via),
            self.feeds(via, to),
        ensures
            self.reaches(from, to),
    {
        let start = choose|walk: Seq<usize>|
            walk.len() > 0 && #[trigger] self.is_walk(walk) && walk[0] == from && walk.last() == via;
        let walk = start.push(to);
        assert forall|i: int| 0 <= i < walk.len() - 1 implies self.feeds(
            #[trigger] walk[i],
            walk[i + 1],
        ) by {
            assert(walk[i] == start[i]);
            if i + 1 < start.len() {
                assert(walk[i + 1] == start[i + 1]);
            }
        }
        assert(self.is_walk(walk));
        assert(walk[0] == from && walk.last() == to);
    }

    /// A list of distinct nodes of the graph is no longer than the graph.
    pub(crate) proof fn distinct_nodes_fit(&self, list: Seq<usize>)
        requires
            list.no_duplicates(),
            forall|i: int| 0 <= i < list.len() ==> self.has(#[trigger] list[i]),
        ensures
            list.len() <= self.nodes.len(),
    {
        let ids = self.ids();
        list.unique_seq_to_set();
        seq_to_set_is_finite(ids);
        assert(list.to_set().subset_of(ids.to_set())) by {
            assert forall|id: usize| list.to_set().contains(id) implies ids.to_set().contains(
                id,
            ) by {
                let i = choose|i: int| 0 <= i < list.len() && list[i] == id;
                assert(self.has(list[i]));
                let j = choose|j: int|
                    0 <= j < self.nodes.len() && (#[trigger] self.nodes[j]).id == id;
                assert(ids[j] == id);
            }
        }
        lemma_len_subset(list.to_set(), ids.to_set());
        ids.lemma_cardinality_of_set();
    }

    /// Where the node with an identifier stands.
    pub fn index_of(&self, id: usize) -> (index: Option<usize>)
        requires
            self.wf(),
        ensures
            index is Some <==> self.has(id),
            index is Some ==> index->0 < self.nodes.len() && self.nodes[index->0 as int].id == id
                && self.node(id) == self.nodes[index->0 as int],
    {
        let mut i: usize = 0;
        while i < self.nodes.len()
            invariant
                self.wf(),
                i <= self.nodes.len(),
                forall|j: int| 0 <= j < i ==> (#[trigger] self.nodes[j]).id != id,
            decreases self.nodes.len() - i,
        {
            if self.nodes[i].id == id {
                proof {
                    self.node_is_unique(i as int);
                }
                return Some(i);
            }
            i += 1;
        }
        None
    }
}

/// Whether a list holds an identifier.
pub fn holds(list: &Vec<usize>, id: usize) -> (found: bool)
    ensures
        found == list@.contains(id),
{
    let mut i: usize = 0;
    while i < list.len()
        invariant
            i <= list.len(),
            forall|j: int| 0 <= j < i ==> list@[j] != id,
        decreases list.len() - i,
    {
        if list[i] == id {
            assert(list@[i as int] == id);
            return true;
        }
        i += 1;
    }
    false
}

// ---------------------------------------------------------------------------
// Loop detection
// ---------------------------------------------------------------------------

/// Everything that feeds a node on the list is on it too.
spec fn closed_backwards(graph: ChainGraph, list: Seq<usize>) -> bool {
    forall|from: usize, to: usize|
        list.contains(to) && #[trigger] graph.feeds(from, to) ==> list.contains(from)
}

proof fn closed_list_holds_all_ancestors(graph: ChainGraph, list: Seq<usize>, walk: Seq<usize>)
    requires
        closed_backwards(graph, list),
        walk.len() > 0,
        graph.is_walk(walk),
        list.contains(walk.last()),
    ensures
        list.contains(walk[0]),
    decreases walk.len(),
{
    if walk.len() > 1 {
        let shorter = walk.drop_first();
        assert forall|i: int| 0 <= i < shorter.len() - 1 implies graph.feeds(
            #[trigger] shorter[i],
            shorter[i + 1],
        ) by {
            assert(shorter[i] == walk[i + 1]);
            assert(shorter[i + 1] == walk[i + 2]);
        }
        assert(shorter.last() == walk.last());
        closed_list_holds_all_ancestors(graph, list, shorter);
        assert(shorter[0] == walk[1]);
        assert(graph.feeds(walk[0], walk[1]));
    }
}

/// Whether wiring an output of `from` to an input of `to` would close a feedback loop: it does
/// exactly when a signal leaving `to` already arrives at `from`.
pub fn closes_loop(graph: &ChainGraph, from: usize, to: usize) -> (closes: bool)
    requires
        graph.wf(),
        graph.has(from) || from == to,
    ensures
        closes == graph.reaches(to, from),
{
    if from == to {
        proof {
            graph.reaches_itself(from);
        }
        return true;
    }
    let mut stack: Vec<usize> = Vec::new();
    stack.push(from);
    let mut seen: Vec<usize> = Vec::new();
    proof {
        graph.reaches_itself(from);
        assert(stack@.contains(from)) by {
            assert(stack@[0] == from);
        }
    }
    while stack.len() > 0
        invariant
            graph.wf(),
            forall|i: int|
                0 <= i < stack.len() ==> graph.has(#[trigger] stack@[i]) && graph.reaches(
                    stack@[i],
                    from,
                ),
            forall|i: int| 0 <= i < seen.len() ==> graph.has(#[trigger] seen@[i]),
            seen@.no_duplicates(),
            stack@.contains(from) || seen@.contains(from),
            !seen@.contains(to),
            forall|a: usize, b: usize|
                seen@.contains(b) && #[trigger] graph.feeds(a, b) ==> seen@.contains(a)
                    || stack@.contains(a),
        decreases graph.nodes.len() - seen.len(), stack.len(),
    {
        let ghost old_stack = stack@;
        proof {
            graph.distinct_nodes_fit(seen@);
        }
        let top: usize = stack.pop().unwrap();
        assert(old_stack =~= stack@.push(top));
        assert(old_stack[old_stack.len() - 1] == top);
        assert forall|a: usize| old_stack.contains(a) implies a == top || stack@.contains(a) by {
            let i = choose|i: int| 0 <= i < old_stack.len() && old_stack[i] == a;
            if i < stack@.len() {
                assert(stack@[i] == a);
            }
        }
        assert forall|i: int| 0 <= i < stack.len() implies graph.has(#[trigger] stack@[i])
            && graph.reaches(stack@[i], from) by {
            assert(stack@[i] == old_stack[i]);
        }
        if top == to {
            return true;
        }
        if holds(&seen, top) {
            continue;
        }
        let ghost old_seen = seen@;
        seen.push(top);
        proof {
            assert(seen@[old_seen.len() as int] == top);
            assert forall|a: usize| seen@.contains(a) implies a == top || old_seen.contains(a) by {
                let i = choose|i: int| 0 <= i < seen@.len() && seen@[i] == a;
                if i < old_seen.len() {
                    assert(old_seen[i] == a);
                }
            }
            assert forall|a: usize| old_seen.contains(a) implies seen@.contains(a) by {
                let i = choose|i: int| 0 <= i < old_seen.len() && old_seen[i] == a;
                assert(seen@[i] == a);
            }
            assert(seen@.contains(top));
            graph.distinct_nodes_fit(seen@);
        }
        let at: usize = graph.index_of(top).unwrap();
        let inputs: usize = graph.nodes[at].drivers.len();
        let mut k: usize = 0;
        while k < inputs
            invariant
                graph.wf(),
                graph.has(top),
                at < graph.nodes.len(),
                graph.node(top) == graph.nodes[at as int],
                inputs == graph.nodes[at as int].drivers.len(),
                k <= inputs,
                graph.reaches(top, from),
                forall|i: int|
                    0 <= i < stack.len() ==> graph.has(#[trigger] stack@[i]) && graph.reaches(
                        stack@[i],
                        from,
                    ),
                forall|a: usize|
                    #![trigger old_stack.contains(a)]
                    old_stack.contains(a) && a != top ==> stack@.contains(a),
                forall|a: usize, j: int|
                    0 <= j < k && #[trigger] graph.feeds_at(a, top, j) ==> stack@.contains(a),
            decreases inputs - k,
        {
            let ghost before = stack@;
            if let Some(pin) = graph.nodes[at].drivers[k] {
                proof {
                    graph.driver_exists(top, k as int);
                    graph.reaches_through(pin.node, top, from);
                }
                stack.push(pin.node);
                assert(stack@[before.len() as int] == pin.node);
            }
            proof {
                assert forall|a: usize| before.contains(a) implies stack@.contains(a) by {
                    let i = choose|i: int| 0 <= i < before.len() && before[i] == a;
                    assert(stack@[i] == a);
                }
                assert forall|i: int| 0 <= i < stack.len() implies graph.has(#[trigger] stack@[i])
                    && graph.reaches(stack@[i], from) by {
                    if i < before.len() {
                        assert(stack@[i] == before[i]);
                    }
                }
            }
            k += 1;
        }
        proof {
            assert forall|a: usize, b: usize|
                seen@.contains(b) && #[trigger] graph.feeds(a, b) implies seen@.contains(a)
                || stack@.contains(a) by {
                if b == top {
                    let j = choose|j: int| #[trigger] graph.feeds_at(a, top, j);
                    assert(graph.feeds_at(a, top, j));
                } else {
                    assert(old_seen.contains(a) || old_stack.contains(a));
                }
            }
        }
    }
    proof {
        assert(stack@ =~= Seq::empty());
        assert(closed_backwards(*graph, seen@));
        if graph.reaches(to, from) {
            let walk = choose|walk: Seq<usize>|
                walk.len() > 0 && #[trigger] graph.is_walk(walk) && walk[0] == to && walk.last()
                    == from;
            closed_list_holds_all_ancestors(*graph, seen@, walk);
        }
    }
    false
}

/// A signal arrives where it is, and otherwise where one of the nodes it feeds sends it on to, so
/// it arrives beyond whatever it arrives at.
pub proof fn signals_arrive_step_by_step(graph: ChainGraph, from: usize, via: usize, to: usize)
    ensures
        graph.reaches(from, to) <==> from == to || exists|next: usize|
            #[trigger] graph.feeds(from, next) && graph.reaches(next, to),
        graph.reaches(from, via) && graph.reaches(via, to) ==> graph.reaches(from, to),
{
    graph.reaches_itself(from);
    if graph.reaches(from, to) && from != to {
        let walk = choose|walk: Seq<usize>|
            walk.len() > 0 && #[trigger] graph.is_walk(walk) && walk[0] == from && walk.last()
                == to;
        one_step_taken(graph, walk);
    }
    if from != to && exists|next: usize| #[trigger] graph.feeds(from, next) && graph.reaches(next, to) {
        let next = choose|next: usize| #[trigger] graph.feeds(from, next) && graph.reaches(next, to);
        graph.reaches_through(from, next, to);
    }
    if graph.reaches(from, via) && graph.reaches(via, to) {
        let walk = choose|walk: Seq<usize>|
            walk.len() > 0 && #[trigger] graph.is_walk(walk) && walk[0] == from && walk.last()
                == via;
        walks_lead_on(graph, walk, to);
    }
}

proof fn one_step_taken(graph: ChainGraph, walk: Seq<usize>)
    requires
        walk.len() > 1,
        graph.is_walk(walk),
    ensures
        graph.feeds(walk[0], walk[1]),
        graph.reaches(walk[1], walk.last()),
{
    let rest = walk.drop_first();
    assert(graph.feeds(walk[0], walk[0int + 1]));
    assert forall|i: int| 0 <= i < rest.len() - 1 implies graph.feeds(
        #[trigger] rest[i],
        rest[i + 1],
    ) by {
        assert(rest[i] == walk[i + 1]);
        assert(rest[i + 1] == walk[i + 1 + 1]);
    }
    assert(graph.is_walk(rest));
    assert(rest[0] == walk[1] && rest.last() == walk.last());
}

proof fn walks_lead_on(graph: ChainGraph, walk: Seq<usize>, to: usize)
    requires
        walk.len() > 0,
        graph.is_walk(walk),
        graph.reaches(walk.last(), to),
    ensures
        graph.reaches(walk[0], to),
    decreases walk.len(),
{
    if walk.len() > 1 {
        let rest = walk.drop_first();
        one_step_taken(graph, walk);
        assert forall|i: int| 0 <= i < rest.len() - 1 implies graph.feeds(
            #[trigger] rest[i],
            rest[i + 1],
        ) by {
            assert(rest[i] == walk[i + 1]);
            assert(rest[i + 1] == walk[i + 1 + 1]);
        }
        walks_lead_on(graph, rest, to);
        graph.reaches_through(walk[0], walk[1], to);
    }
}

} // verus!
