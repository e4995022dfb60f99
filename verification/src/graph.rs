use vstd::prelude::*;
use vstd::string::{StrSliceExecFns, StringExecFns};
use crate::cfa::str_eq;
use crate::node::NodeID;
use crate::text::{decimal, decimal_string};

verus! {

/// The inputs of each node, as sequences of node indices.
pub open spec fn node_inputs(inputs: Seq<Vec<usize>>) -> Seq<Seq<usize>> {
    inputs.map_values(|v: Vec<usize>| v@)
}

/// Every input of every node names one of the nodes.
pub open spec fn inputs_in_range(inputs: Seq<Seq<usize>>) -> bool {
    forall|i: int, k: int|
        0 <= i < inputs.len() && 0 <= k < inputs[i].len() ==> #[trigger] inputs[i][k]
            < inputs.len()
}

/// An order in which the nodes can be built: every node exactly once, each
/// after all of its inputs.
pub open spec fn is_build_order(inputs: Seq<Seq<usize>>, order: Seq<usize>) -> bool {
    &&& order.len() == inputs.len()
    &&& order.no_duplicates()
    &&& forall|i: int| 0 <= i < inputs.len() ==> #[trigger] order.contains(i as usize)
    &&& forall|p: int| 0 <= p < order.len() ==> #[trigger] order[p] < inputs.len()
    &&& forall|p: int, k: int|
        0 <= p < order.len() && 0 <= k < inputs[order[p] as int].len() ==> order.take(p).contains(
            #[trigger] inputs[order[p] as int][k],
        )
}

/// How many entries are set.
pub open spec fn count_set(s: Seq<bool>) -> nat
    decreases s.len(),
{
    if s.len() == 0 {
        0
    } else {
        count_set(s.drop_last()) + if s.last() {
            1nat
        } else {
            0nat
        }
    }
}

proof fn lemma_count_set_bound(s: Seq<bool>)
    ensures
        count_set(s) <= s.len(),
    decreases s.len(),
{
    if s.len() > 0 {
        lemma_count_set_bound(s.drop_last());
    }
}

proof fn lemma_count_set_update(s: Seq<bool>, i: int)
    requires
        0 <= i < s.len(),
        !s[i],
    ensures
        count_set(s.update(i, true)) == count_set(s) + 1,
    decreases s.len(),
{
    let t = s.update(i, true);
    if i == s.len() - 1 {
        assert(t.drop_last() =~= s.drop_last());
    } else {
        assert(t.drop_last() =~= s.drop_last().update(i, true));
        lemma_count_set_update(s.drop_last(), i);
    }
}

/// The first position of `order` holding a node that is not built, given one
/// at `p`.
proof fn lemma_first_unbuilt(order: Seq<usize>, built: Seq<bool>, p: int) -> (q: int)
    requires
        0 <= p < order.len(),
        forall|r: int| 0 <= r < order.len() ==> #[trigger] order[r] < built.len(),
        !built[order[p] as int],
    ensures
        0 <= q <= p,
        !built[order[q] as int],
        forall|r: int| 0 <= r < q ==> built[#[trigger] order[r] as int],
    decreases p,
{
    if exists|r: int| 0 <= r < p && !built[#[trigger] order[r] as int] {
        let r = choose|r: int| 0 <= r < p && !built[#[trigger] order[r] as int];
        lemma_first_unbuilt(order, built, r)
    } else {
        p
    }
}

/// When some node is not built and every node that is not built waits for an
/// input that is not built either, the inputs form a cycle: no build order
/// exists.
proof fn lemma_stuck_means_cycle(inputs: Seq<Seq<usize>>, built: Seq<bool>, unbuilt: int)
    requires
        built.len() == inputs.len(),
        inputs_in_range(inputs),
        0 <= unbuilt < inputs.len(),
        inputs.len() <= usize::MAX,
        !built[unbuilt],
        forall|i: int|
            0 <= i < inputs.len() && !#[trigger] built[i] ==> exists|k: int|
                0 <= k < inputs[i].len() && !built[#[trigger] inputs[i][k] as int],
    ensures
        forall|order: Seq<usize>| !#[trigger] is_build_order(inputs, order),
{
    assert forall|order: Seq<usize>| !#[trigger] is_build_order(inputs, order) by {
        if is_build_order(inputs, order) {
            assert(order.contains(unbuilt as usize));
            let p = choose|p: int| 0 <= p < order.len() && order[p] == unbuilt as usize;
            assert(order[p] as int == unbuilt);
            let q = lemma_first_unbuilt(order, built, p);
            let i = order[q] as int;
            assert(!built[i]);
            let k = choose|k: int| 0 <= k < inputs[i].len() && !built[#[trigger] inputs[i][k] as int];
            assert(order.take(q).contains(inputs[i][k]));
            let r = choose|r: int| 0 <= r < q && order.take(q)[r] == inputs[i][k];
            assert(order[r] == inputs[i][k]);
            assert(built[order[r] as int]);
        }
    }
}

/// Whether every input of node `i` is built.
fn inputs_built(inputs: &Vec<Vec<usize>>, built: &Vec<bool>, i: usize) -> (r: bool)
    requires
        i < inputs@.len(),
        built@.len() == inputs@.len(),
        inputs_in_range(node_inputs(inputs@)),
    ensures
        r == inputs_ready(node_inputs(inputs@), built@, i as int),
{
    let ghost all = node_inputs(inputs@);
    let node = &inputs[i];
    let mut k: usize = 0;
    while k < node.len()
        invariant
            k <= node@.len(),
            node@ == inputs@[i as int]@,
            all == node_inputs(inputs@),
            all[i as int] == node@,
            i < inputs@.len(),
            built@.len() == inputs@.len(),
            inputs_in_range(all),
            forall|m: int| 0 <= m < k ==> built@[#[trigger] node@[m] as int],
        decreases node@.len() - k,
    {
        assert(all[i as int][k as int] < inputs@.len());
        if !built[node[k]] {
            return false;
        }
        k = k + 1;
    }
    true
}

/// The nodes that read from node `j`, in node order, once per input: those
/// listed before input `k` of node `i`.
pub open spec fn users_before(all: Seq<Seq<usize>>, j: usize, i: int, k: int) -> Seq<usize>
    decreases i, k,
{
    if i <= 0 && k <= 0 {
        Seq::empty()
    } else if k > 0 {
        users_before(all, j, i, k - 1) + if 0 <= i < all.len() && k - 1 < all[i].len() && all[i][k
            - 1] == j {
            seq![i as usize]
        } else {
            Seq::empty()
        }
    } else {
        users_before(all, j, i - 1, all[i - 1].len() as int)
    }
}

/// The nodes that read from node `j`, in node order, once per input.
pub open spec fn users(all: Seq<Seq<usize>>, j: usize) -> Seq<usize> {
    users_before(all, j, all.len() as int, 0)
}

/// For each node, the nodes that read from it (see `users`).
pub fn input_users(inputs: &Vec<Vec<usize>>) -> (u: Vec<Vec<usize>>)
    ensures
        u@.len() == inputs@.len(),
        forall|j: int| 0 <= j < inputs@.len() ==> (#[trigger] u@[j])@ == users(
            node_inputs(inputs@),
            j as usize,
        ),
{
    let ghost all = node_inputs(inputs@);
    let n = inputs.len();
    let mut u: Vec<Vec<usize>> = Vec::new();
    let mut j: usize = 0;
    while j < n
        invariant
            j <= n,
            n == inputs@.len(),
            all == node_inputs(inputs@),
            u@.len() == j,
            forall|m: int| 0 <= m < j ==> (#[trigger] u@[m])@ == users(all, m as usize),
        decreases n - j,
    {
        let mut v: Vec<usize> = Vec::new();
        let mut i: usize = 0;
        while i < n
            invariant
                i <= n,
                n == inputs@.len(),
                all == node_inputs(inputs@),
                v@ == users_before(all, j, i as int, 0),
            decreases n - i,
        {
            let node = &inputs[i];
            let mut k: usize = 0;
            while k < node.len()
                invariant
                    i < n,
                    n == inputs@.len(),
                    all == node_inputs(inputs@),
                    node@ == all[i as int],
                    k <= node@.len(),
                    v@ == users_before(all, j, i as int, k as int),
                decreases node@.len() - k,
            {
                let ghost before = v@;
                if node[k] == j {
                    v.push(i);
                }
                proof {
                    assert(v@ =~= users_before(all, j, i as int, k + 1));
                }
                k = k + 1;
            }
            proof {
                assert(users_before(all, j, i + 1, 0) == users_before(all, j, i as int, all[i as int].len() as int));
            }
            i = i + 1;
        }
        u.push(v);
        j = j + 1;
    }
    u
}

/// The errors of planning the build of a graph.
#[derive(Clone, Debug, PartialEq, Eq)]
pub enum GraphError {
    /// A node with this name was already added.
    DuplicateNode,
    /// The inputs of the nodes form a cycle.
    Cycle,
    /// The node at position `node` reads from `missing`, a name that no node
    /// was added under.
    UnknownInput { node: usize, missing: String },
}

impl GraphError {
    /// The error as text.
    pub fn message(&self) -> (m: String)
        ensures
            m@ == match self {
                GraphError::DuplicateNode => "a node with this name already exists"@,
                GraphError::Cycle => "the inputs of the nodes form a cycle"@,
                GraphError::UnknownInput { node, missing } => "node "@ + decimal(*node as nat)
                    + " reads from "@ + missing@ + ", which is not a node of the graph"@,
            },
    {
        match self {
            GraphError::DuplicateNode => String::from_str("a node with this name already exists"),
            GraphError::Cycle => String::from_str("the inputs of the nodes form a cycle"),
            GraphError::UnknownInput { node, missing } => {
                let mut m = String::from_str("node ");
                let n = decimal_string(*node as u64);
                m.append(n.as_str());
                m.append(" reads from ");
                m.append(missing.as_str());
                m.append(", which is not a node of the graph");
                m
            },
        }
    }
}

/// A node to be built: its type name, its parameters, and its inputs, each
/// an input slot and the name of the node it reads from.
pub struct ProcessingNodeConfig<P> {
    pub name: String,
    pub parameters: P,
    pub inputs: Vec<(String, String)>,
}

impl<P> ProcessingNodeConfig<P> {
    /// A node with at most one input, in the slot `input`.
    pub fn single_input_node(name: String, parameters: P, input: Option<String>) -> (c: Self)
        ensures
            c.name@ == name@,
            c.parameters == parameters,
            match input {
                Some(id) => c.inputs@.len() == 1 && c.inputs@[0].0@ == "input"@ && c.inputs@[0].1@
                    == id@,
                None => c.inputs@.len() == 0,
            },
    {
        let mut inputs: Vec<(String, String)> = Vec::new();
        match input {
            Some(id) => {
                let slot = String::from_str("input");
                proof {
                    reveal_strlit("input");
                }
                inputs.push((slot, id));
            },
            None => {},
        }
        ProcessingNodeConfig { name, parameters, inputs }
    }
}

/// The order and the wiring in which to build a graph.
pub struct BuildPlan {
    /// The node indices in the order to build them.
    pub order: Vec<usize>,
    /// For each node, the indices of the nodes its inputs read from, in the
    /// order of its inputs.
    pub inputs: Vec<Vec<usize>>,
    /// For each node, the nodes that read from it, once per input.
    pub is_input_to: Vec<Vec<usize>>,
}

/// `resolved` names, for each input of each node, the position of the node
/// it reads from among `ids`.
pub open spec fn resolves<P>(
    ids: Seq<Seq<char>>,
    nodes: Seq<ProcessingNodeConfig<P>>,
    resolved: Seq<Seq<usize>>,
) -> bool {
    &&& resolved.len() == nodes.len()
    &&& forall|i: int| 0 <= i < nodes.len() ==> (#[trigger] resolved[i]).len() == nodes[i].inputs@.len()
    &&& forall|i: int, k: int|
        0 <= i < nodes.len() && 0 <= k < nodes[i].inputs@.len() ==> #[trigger] resolved[i][k]
            < ids.len() && ids[resolved[i][k] as int] == nodes[i].inputs@[k].1@
}

/// Some node reads from a name that no node was added under.
pub open spec fn has_unknown_input<P>(ids: Seq<Seq<char>>, nodes: Seq<ProcessingNodeConfig<P>>) -> bool {
    exists|i: int, k: int|
        0 <= i < nodes.len() && 0 <= k < nodes[i].inputs@.len() && !ids.contains(
            #[trigger] nodes[i].inputs@[k].1@,
        )
}

/// Nodes added under distinct names; a node's id is the number of nodes added
/// before it.
pub struct ProcessingGraphBuilder<P> {
    ids: Vec<String>,
    nodes: Vec<ProcessingNodeConfig<P>>,
}

/// The position of `name` in `ids`, if it is there.
fn position_of(ids: &Vec<String>, name: &str) -> (r: Option<usize>)
    ensures
        r matches Some(i) ==> i < ids@.len() && ids@[i as int]@ == name@,
        r is None ==> forall|i: int| 0 <= i < ids@.len() ==> ids@[i]@ != name@,
{
    let mut i: usize = 0;
    while i < ids.len()
        invariant
            i <= ids@.len(),
            forall|m: int| 0 <= m < i ==> ids@[m]@ != name@,
        decreases ids@.len() - i,
    {
        if str_eq(ids[i].as_str(), name) {
            return Some(i);
        }
        i = i + 1;
    }
    None
}

impl<P> ProcessingGraphBuilder<P> {
    #[verifier::type_invariant]
    spec fn inv(self) -> bool {
        &&& self.ids@.len() == self.nodes@.len()
        &&& forall|i: int, j: int|
            0 <= i < j < self.ids@.len() ==> #[trigger] self.ids@[i]@ != #[trigger] self.ids@[j]@
    }

    /// The names of the nodes, in the order they were added.
    pub closed spec fn spec_ids(&self) -> Seq<Seq<char>> {
        self.ids@.map_values(|s: String| s@)
    }

    /// The nodes, in the order they were added.
    pub closed spec fn spec_nodes(&self) -> Seq<ProcessingNodeConfig<P>> {
        self.nodes@
    }

    pub fn new() -> (b: Self)
        ensures
            b.spec_ids().len() == 0,
            b.spec_nodes().len() == 0,
    {
        ProcessingGraphBuilder { ids: Vec::new(), nodes: Vec::new() }
    }

    /// The nodes, in the order they were added.
    pub fn nodes(&self) -> (n: &Vec<ProcessingNodeConfig<P>>)
        ensures
            n@ == self.spec_nodes(),
    {
        &self.nodes
    }

    /// Resolves the inputs of every node to node positions, then orders the
    /// nodes so that each comes after its inputs and lists who reads from
    /// whom. Fails when an input names no node, or when the inputs form a
    /// cycle.
    pub fn plan(&self) -> (r: Result<BuildPlan, GraphError>)
        ensures
            r matches Ok(plan) ==> {
                &&& resolves(self.spec_ids(), self.spec_nodes(), node_inputs(plan.inputs@))
                &&& is_build_order(node_inputs(plan.inputs@), plan.order@)
                &&& plan.is_input_to@.len() == plan.inputs@.len()
                &&& forall|j: int|
                    0 <= j < plan.inputs@.len() ==> (#[trigger] plan.is_input_to@[j])@ == users(
                        node_inputs(plan.inputs@),
                        j as usize,
                    )
            },
            (r matches Err(e) && e is UnknownInput) <==> has_unknown_input(
                self.spec_ids(),
                self.spec_nodes(),
            ),
            r matches Err(GraphError::UnknownInput { node, missing }) ==> {
                &&& node < self.spec_nodes().len()
                &&& !self.spec_ids().contains(missing@)
                &&& exists|k: int|
                    0 <= k < self.spec_nodes()[node as int].inputs@.len()
                        && #[trigger] self.spec_nodes()[node as int].inputs@[k].1@ == missing@
                &&& forall|m: int, k: int|
                    0 <= m < node && 0 <= k < self.spec_nodes()[m].inputs@.len() ==> self.spec_ids().contains(
                        #[trigger] self.spec_nodes()[m].inputs@[k].1@,
                    )
            },
            r == Err::<BuildPlan, GraphError>(GraphError::Cycle) ==> exists|resolved: Seq<Seq<usize>>|
                resolves(self.spec_ids(), self.spec_nodes(), resolved) && forall|order: Seq<usize>|
                    !#[trigger] is_build_order(resolved, order),
            !(r == Err::<BuildPlan, GraphError>(GraphError::DuplicateNode)),
    {
        proof {
            use_type_invariant(self);
        }
        let ghost ids = self.spec_ids();
        let ghost nodes = self.spec_nodes();
        let mut resolved: Vec<Vec<usize>> = Vec::new();
        let mut i: usize = 0;
        while i < self.nodes.len()
            invariant
                i <= nodes.len(),
                ids == self.spec_ids(),
                nodes == self.spec_nodes(),
                ids.len() == nodes.len(),
                nodes.len() == self.nodes@.len(),
                resolved@.len() == i,
                forall|m: int| 0 <= m < i ==> (#[trigger] resolved@[m])@.len() == nodes[m].inputs@.len(),
                forall|m: int, k: int|
                    0 <= m < i && 0 <= k < nodes[m].inputs@.len() ==> #[trigger] resolved@[m]@[k]
                        < ids.len() && ids[resolved@[m]@[k] as int] == nodes[m].inputs@[k].1@,
            decreases nodes.len() - i,
        {
            let node = &self.nodes[i];
            let mut row: Vec<usize> = Vec::new();
            let mut k: usize = 0;
            while k < node.inputs.len()
                invariant
                    i < nodes.len(),
                    ids == self.spec_ids(),
                    nodes == self.spec_nodes(),
                    *node == nodes[i as int],
                    k <= node.inputs@.len(),
                    row@.len() == k,
                    resolved@.len() == i,
                    forall|m: int| 0 <= m < i ==> (#[trigger] resolved@[m])@.len() == nodes[m].inputs@.len(),
                    forall|m: int, q: int|
                        0 <= m < i && 0 <= q < nodes[m].inputs@.len() ==> #[trigger] resolved@[m]@[q]
                            < ids.len() && ids[resolved@[m]@[q] as int] == nodes[m].inputs@[q].1@,
                    forall|m: int| 0 <= m < k ==> #[trigger] row@[m] < ids.len() && ids[row@[m] as int]
                        == node.inputs@[m].1@,
                decreases node.inputs@.len() - k,
            {
                match position_of(&self.ids, node.inputs[k].1.as_str()) {
                    Some(p) => {
                        row.push(p);
                    },
                    None => {
                        proof {
                            assert(!ids.contains(nodes[i as int].inputs@[k as int].1@)) by {
                                if ids.contains(nodes[i as int].inputs@[k as int].1@) {
                                    let m = choose|m: int| 0 <= m < ids.len() && ids[m] == nodes[i as int].inputs@[k as int].1@;
                                    assert(self.ids@[m]@ == ids[m]);
                                }
                            }
                        }
                        let missing = node.inputs[k].1.clone();
                        proof {
                            assert(nodes[i as int].inputs@[k as int].1@ == missing@);
                            assert forall|m: int, q: int|
                                0 <= m < i && 0 <= q < nodes[m].inputs@.len() implies ids.contains(
                                    #[trigger] nodes[m].inputs@[q].1@,
                                ) by {
                                assert(ids[resolved@[m]@[q] as int] == nodes[m].inputs@[q].1@);
                            }
                        }
                        return Err(GraphError::UnknownInput { node: i, missing });
                    },
                }
                k = k + 1;
            }
            resolved.push(row);
            i = i + 1;
        }
        proof {
            assert(resolves(ids, nodes, node_inputs(resolved@)));
            assert(!has_unknown_input(ids, nodes)) by {
                assert forall|m: int, k: int|
                    0 <= m < nodes.len() && 0 <= k < nodes[m].inputs@.len() implies ids.contains(
                        #[trigger] nodes[m].inputs@[k].1@,
                    ) by {
                    assert(ids[resolved@[m]@[k] as int] == nodes[m].inputs@[k].1@);
                }
            }
            assert(inputs_in_range(node_inputs(resolved@)));
        }
        let is_input_to = input_users(&resolved);
        match build_order(&resolved) {
            Ok(order) => Ok(BuildPlan { order, inputs: resolved, is_input_to }),
            Err(e) => Err(e),
        }
    }

    /// Adds a node under `name`, refused when a node of that name exists.
    pub fn add(&mut self, name: String, config: ProcessingNodeConfig<P>) -> (r: Result<
        NodeID,
        GraphError,
    >)
        ensures
            old(self).spec_ids().contains(name@) ==> r == Err::<NodeID, GraphError>(
                GraphError::DuplicateNode,
            ) && final(self).spec_ids() == old(self).spec_ids() && final(self).spec_nodes()
                == old(self).spec_nodes(),
            !old(self).spec_ids().contains(name@) ==> r == Ok::<NodeID, GraphError>(
                NodeID(old(self).spec_ids().len() as u16),
            ) && final(self).spec_ids() == old(self).spec_ids().push(name@)
                && final(self).spec_nodes() == old(self).spec_nodes().push(config),
    {
        proof {
            use_type_invariant(&*self);
        }
        match position_of(&self.ids, name.as_str()) {
            Some(i) => {
                proof {
                    assert(self.spec_ids()[i as int] == name@);
                }
                Err(GraphError::DuplicateNode)
            },
            None => {
                let id = NodeID::from_index(self.ids.len());
                let ghost old_ids = self.spec_ids();
                let mut taken = ProcessingGraphBuilder { ids: Vec::new(), nodes: Vec::new() };
                std::mem::swap(&mut taken, self);
                let ProcessingGraphBuilder { mut ids, mut nodes } = taken;
                ids.push(name);
                nodes.push(config);
                proof {
                    assert forall|x: Seq<char>| #[trigger] old_ids.contains(x) implies x != name@ by {
                        let m = choose|m: int| 0 <= m < old_ids.len() && old_ids[m] == x;
                        assert(ids@[m]@ == x);
                    }
                    assert forall|i: int, j: int|
                        0 <= i < j < ids@.len() implies #[trigger] ids@[i]@ != #[trigger] ids@[j]@ by {
                        if j == ids@.len() - 1 {
                            assert(old_ids[i] == ids@[i]@);
                        }
                    }
                }
                *self = ProcessingGraphBuilder { ids, nodes };
                proof {
                    assert(self.spec_ids() =~= old_ids.push(name@));
                }
                Ok(id)
            },
        }
    }
}

/// An order in which to build the nodes whose inputs are `inputs` (the
/// indices of the nodes each one reads from): each node after its inputs.
/// Fails exactly when the inputs form a cycle.
pub fn build_order(inputs: &Vec<Vec<usize>>) -> (r: Result<Vec<usize>, GraphError>)
    requires
        inputs_in_range(node_inputs(inputs@)),
    ensures
        r matches Ok(order) ==> is_build_order(node_inputs(inputs@), order@),
        r matches Err(e) ==> e == GraphError::Cycle && forall|order: Seq<usize>|
            !#[trigger] is_build_order(node_inputs(inputs@), order),
{
    let ghost all = node_inputs(inputs@);
    let n = inputs.len();
    let mut built: Vec<bool> = Vec::new();
    let mut j: usize = 0;
    while j < n
        invariant
            j <= n,
            built@.len() == j,
            forall|m: int| 0 <= m < j ==> !built@[m],
        decreases n - j,
    {
        built.push(false);
        j = j + 1;
    }
    let mut order: Vec<usize> = Vec::new();
    proof {
        reveal(order_state);
        lemma_none_set_count(built@);
        assert forall|m: int| 0 <= m < n implies (#[trigger] built@[m] <==> order@.contains(
            m as usize,
        )) by {
            assert(!built@[m]);
        }
    }
    loop
        invariant
            n == inputs@.len(),
            all == node_inputs(inputs@),
            inputs_in_range(all),
            order_state(all, order@, built@),
        decreases n - order@.len(),
    {
        proof {
            lemma_order_state_basics(all, order@, built@);
        }
        let mut any_unbuilt = false;
        let mut unbuilt: usize = 0;
        let mut chosen: Option<usize> = None;
        let mut i: usize = 0;
        while i < n && chosen.is_none()
            invariant
                i <= n,
                n == inputs@.len(),
                all == node_inputs(inputs@),
                inputs_in_range(all),
                built@.len() == n,
                any_unbuilt ==> unbuilt < n && !built@[unbuilt as int],
                chosen matches Some(c) ==> c < n && !built@[c as int] && inputs_ready(
                    all,
                    built@,
                    c as int,
                ),
                chosen is None && !any_unbuilt ==> forall|m: int| 0 <= m < i ==> #[trigger] built@[m],
                chosen is None ==> forall|m: int|
                    0 <= m < i ==> built@[m] || !#[trigger] inputs_ready(all, built@, m),
            decreases n - i,
        {
            if !built[i] {
                any_unbuilt = true;
                unbuilt = i;
                if inputs_built(inputs, &built, i) {
                    chosen = Some(i);
                }
            }
            i = i + 1;
        }
        match chosen {
            None => {
                if !any_unbuilt {
                    proof {
                        lemma_order_complete(all, order@, built@);
                    }
                    return Ok(order);
                } else {
                    proof {
                        lemma_order_stuck(all, order@, built@, unbuilt as int);
                    }
                    return Err(GraphError::Cycle);
                }
            },
            Some(c) => {
                proof {
                    lemma_add_to_order(all, order@, built@, c);
                }
                built.set(c, true);
                order.push(c);
            },
        }
    }
}

/// Whether every input of node `m` is built.
pub open spec fn inputs_ready(all: Seq<Seq<usize>>, built: Seq<bool>, m: int) -> bool {
    forall|k: int| 0 <= k < all[m].len() ==> built[#[trigger] all[m][k] as int]
}

proof fn lemma_order_state_basics(all: Seq<Seq<usize>>, order: Seq<usize>, built: Seq<bool>)
    requires
        order_state(all, order, built),
    ensures
        built.len() == all.len(),
        order.len() <= all.len(),
{
    reveal(order_state);
    lemma_count_set_bound(built);
}

proof fn lemma_order_complete(all: Seq<Seq<usize>>, order: Seq<usize>, built: Seq<bool>)
    requires
        order_state(all, order, built),
        forall|m: int| 0 <= m < all.len() ==> #[trigger] built[m],
    ensures
        is_build_order(all, order),
{
    reveal(order_state);
    assert forall|m: int| 0 <= m < all.len() implies #[trigger] order.contains(m as usize) by {
        assert(built[m]);
    }
    lemma_all_set_count(built);
}

proof fn lemma_order_stuck(all: Seq<Seq<usize>>, order: Seq<usize>, built: Seq<bool>, unbuilt: int)
    requires
        order_state(all, order, built),
        inputs_in_range(all),
        0 <= unbuilt < all.len(),
        !built[unbuilt],
        forall|m: int| 0 <= m < all.len() ==> built[m] || !#[trigger] inputs_ready(all, built, m),
    ensures
        forall|order: Seq<usize>| !#[trigger] is_build_order(all, order),
{
    reveal(order_state);
    assert forall|m: int|
        0 <= m < all.len() && !#[trigger] built[m] implies exists|k: int|
            0 <= k < all[m].len() && !built[#[trigger] all[m][k] as int] by {
        assert(!inputs_ready(all, built, m));
    }
    lemma_stuck_means_cycle(all, built, unbuilt);
}

/// The bookkeeping of `build_order`: `built` marks the nodes in `order`, which
/// holds each of them once, after all of its inputs.
#[verifier::opaque]
pub open spec fn order_state(all: Seq<Seq<usize>>, order: Seq<usize>, built: Seq<bool>) -> bool {
    &&& all.len() <= usize::MAX
    &&& built.len() == all.len()
    &&& order.len() == count_set(built)
    &&& order.no_duplicates()
    &&& forall|m: int| 0 <= m < all.len() ==> (#[trigger] built[m] <==> order.contains(m as usize))
    &&& forall|p: int| 0 <= p < order.len() ==> #[trigger] order[p] < all.len()
    &&& forall|p: int, k: int|
        0 <= p < order.len() && 0 <= k < all[order[p] as int].len() ==> order.take(p).contains(
            #[trigger] all[order[p] as int][k],
        )
}

proof fn lemma_add_to_order(all: Seq<Seq<usize>>, order: Seq<usize>, built: Seq<bool>, c: usize)
    requires
        order_state(all, order, built),
        inputs_in_range(all),
        c < all.len(),
        !built[c as int],
        inputs_ready(all, built, c as int),
    ensures
        order_state(all, order.push(c), built.update(c as int, true)),
        order.len() < all.len(),
{
    reveal(order_state);
    lemma_count_set_update(built, c as int);
    lemma_count_set_bound(built.update(c as int, true));
    let new_order = order.push(c);
    let new_built = built.update(c as int, true);
    assert(!order.contains(c));
    assert forall|m: int| 0 <= m < all.len() implies (#[trigger] new_built[m]
        <==> new_order.contains(m as usize)) by {
        if m == c {
            assert(new_order[order.len() as int] == c);
        } else {
            if new_order.contains(m as usize) {
                let p = choose|p: int| 0 <= p < new_order.len() && new_order[p] == m as usize;
                assert(order[p] == m as usize);
            }
            if order.contains(m as usize) {
                let p = choose|p: int| 0 <= p < order.len() && order[p] == m as usize;
                assert(new_order[p] == m as usize);
            }
        }
    }
    assert forall|p: int, k: int|
        0 <= p < new_order.len() && 0 <= k < all[new_order[p] as int].len() implies new_order.take(
            p,
        ).contains(#[trigger] all[new_order[p] as int][k]) by {
        if p < order.len() {
            assert(new_order.take(p) =~= order.take(p));
        } else {
            assert(new_order.take(p) =~= order);
            assert(built[all[c as int][k] as int]);
            assert(order.contains(all[c as int][k]));
        }
    }
}

proof fn lemma_none_set_count(s: Seq<bool>)
    requires
        forall|m: int| 0 <= m < s.len() ==> !#[trigger] s[m],
    ensures
        count_set(s) == 0,
    decreases s.len(),
{
    if s.len() > 0 {
        lemma_none_set_count(s.drop_last());
    }
}

proof fn lemma_all_set_count(s: Seq<bool>)
    requires
        forall|m: int| 0 <= m < s.len() ==> #[trigger] s[m],
    ensures
        count_set(s) == s.len(),
    decreases s.len(),
{
    if s.len() > 0 {
        lemma_all_set_count(s.drop_last());
    }
}

/// In a configuration file a string value that starts with `<` names the
/// node an input reads from (the name follows the `<`); any other string is
/// a plain parameter.
pub open spec fn spec_input_reference(value: Seq<char>) -> Option<Seq<char>> {
    if value.len() > 0 && value[0] == '<' {
        Some(value.drop_first())
    } else {
        None
    }
}

/// See `spec_input_reference`.
pub fn input_reference(value: &str) -> (r: Option<String>)
    ensures
        match r {
            Some(name) => spec_input_reference(value@) == Some(name@),
            None => spec_input_reference(value@) is None,
        },
{
    let n = value.unicode_len();
    if n > 0 && value.get_char(0) == '<' {
        let rest = value.substring_char(1, n);
        proof {
            assert(rest@ =~= value@.drop_first());
        }
        Some(String::from_str(rest))
    } else {
        None
    }
}

} // verus!
