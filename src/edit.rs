//! Operator edits of a built graph: renaming and deleting nodes.
use vstd::prelude::*;
use crate::catalog::NodeTypeLight;
use crate::config::Inputs;
use crate::graph::{input_ok, is_control_id, placed, AppGraph};
use crate::hardware::Hardware;
use crate::catalog::may_depend;
use crate::id::Id;
use crate::node::{name_available, validate_name, Node, NodeType};
use crate::eval::{find_id, first_id, lemma_first_id_from};

verus! {

impl NodeType {
    /// This payload with its name replaced.
    pub open spec fn renamed(self, name: String) -> NodeType {
        match self {
            NodeType::Control(i) => NodeType::Control(crate::config::Control { name, ..i }),
            NodeType::Fan(i) => NodeType::Fan(crate::config::Fan { name, ..i }),
            NodeType::Temp(i) => NodeType::Temp(crate::config::Temp { name, ..i }),
            NodeType::CustomTemp(i) => NodeType::CustomTemp(crate::config::CustomTemp { name, ..i }),
            NodeType::Graph(i) => NodeType::Graph(crate::config::Graph { name, ..i }),
            NodeType::Flat(i) => NodeType::Flat(crate::config::Flat { name, ..i }),
            NodeType::Linear(i) => NodeType::Linear(crate::config::Linear { name, ..i }),
            NodeType::Target(i) => NodeType::Target(crate::config::Target { name, ..i }),
        }
    }

    pub proof fn lemma_renamed(self, name: String)
        ensures
            self.renamed(name).light() == self.light(),
            self.renamed(name).name_view() == name@,
            self.binding_ok() ==> self.renamed(name).binding_ok(),
    {
    }

    pub fn set_name(&mut self, name: String)
        ensures
            *final(self) == old(self).renamed(name),
    {
        match self {
            NodeType::Control(i) => i.name = name,
            NodeType::Fan(i) => i.name = name,
            NodeType::Temp(i) => i.name = name,
            NodeType::CustomTemp(i) => i.name = name,
            NodeType::Graph(i) => i.name = name,
            NodeType::Flat(i) => i.name = name,
            NodeType::Linear(i) => i.name = name,
            NodeType::Target(i) => i.name = name,
        }
    }

    /// Whether this payload is `before` with its declared inputs removed.
    pub open spec fn cleared_from(self, before: NodeType) -> bool {
        match (self, before) {
            (NodeType::Control(a), NodeType::Control(b)) => a.cleared_from(b),
            (NodeType::CustomTemp(a), NodeType::CustomTemp(b)) => a.cleared_from(b),
            (NodeType::Graph(a), NodeType::Graph(b)) => a.cleared_from(b),
            (NodeType::Linear(a), NodeType::Linear(b)) => a.cleared_from(b),
            (NodeType::Target(a), NodeType::Target(b)) => a.cleared_from(b),
            (NodeType::Fan(_), NodeType::Fan(_)) | (NodeType::Temp(_), NodeType::Temp(_)) | (
                NodeType::Flat(_),
                NodeType::Flat(_),
            ) => self == before,
            _ => false,
        }
    }

    /// Removes the declared inputs of the payload.
    pub fn clear_inputs(&mut self)
        ensures
            final(self).cleared_from(*old(self)),
            final(self).light() == old(self).light(),
            final(self).name_view() == old(self).name_view(),
            old(self).binding_ok() ==> final(self).binding_ok(),
    {
        match self {
            NodeType::Control(i) => i.clear_inputs(),
            NodeType::CustomTemp(i) => i.clear_inputs(),
            NodeType::Graph(i) => i.clear_inputs(),
            NodeType::Linear(i) => i.clear_inputs(),
            NodeType::Target(i) => i.clear_inputs(),
            _ => {},
        }
    }
}

/// Whether no two distinct nodes share a non-empty name.
pub open spec fn names_unique(nodes: Seq<Node>) -> bool {
    forall|i: int, j: int|
        0 <= i < nodes.len() && 0 <= j < nodes.len() && i != j && nodes[i].name_view().len() > 0
            ==> #[trigger] nodes[i].name_view() != #[trigger] nodes[j].name_view()
}

/// Whether the node has an input with identifier `id`.
pub open spec fn refers_to(n: Node, id: Id) -> bool {
    exists|k: int| 0 <= k < n.inputs@.len() && n.inputs@[k].0 == id
}

/// `b` is what deleting the node `id` leaves of the surviving node `a`: a
/// node that read from it loses all of its inputs, any other is unchanged.
pub open spec fn survives(a: Node, b: Node, id: Id) -> bool {
    &&& b.id == a.id && b.value == a.value && b.name_cached == a.name_cached
    &&& b.is_error_name == a.is_error_name
    &&& b.light() == a.light() && b.name_view() == a.name_view()
    &&& if refers_to(a, id) {
        b.inputs@.len() == 0 && b.node_type.cleared_from(a.node_type)
    } else {
        b.inputs == a.inputs && b.node_type == a.node_type
    }
}

/// `s` without the occurrences of `id`.
pub open spec fn without(s: Seq<Id>, id: Id) -> Seq<Id>
    decreases s.len(),
{
    if s.len() == 0 {
        s
    } else if s.last() == id {
        without(s.drop_last(), id)
    } else {
        without(s.drop_last(), id).push(s.last())
    }
}

proof fn lemma_without(s: Seq<Id>, id: Id)
    ensures
        forall|k: int|
            0 <= k < without(s, id).len() ==> (#[trigger] without(s, id)[k] != id && s.contains(
                without(s, id)[k],
            )),
    decreases s.len(),
{
    if s.len() > 0 {
        lemma_without(s.drop_last(), id);
        let w = without(s.drop_last(), id);
        assert forall|k: int| 0 <= k < w.len() implies s.contains(#[trigger] w[k]) by {
            assert(s.drop_last().contains(w[k]));
            let j = choose|j: int| 0 <= j < s.drop_last().len() && s.drop_last()[j] == w[k];
            assert(s[j] == w[k]);
        }
        if s.last() != id {
            assert(s[s.len() - 1] == s.last());
        }
    }
}

fn find_node(nodes: &Vec<Node>, id: Id) -> (r: Option<usize>)
    ensures
        r matches Some(p) ==> p < nodes@.len() && nodes@[p as int].id == id,
        r is None ==> forall|k: int| 0 <= k < nodes@.len() ==> nodes@[k].id != id,
{
    let mut i: usize = 0;
    while i < nodes.len()
        invariant
            i <= nodes@.len(),
            forall|k: int| 0 <= k < i ==> nodes@[k].id != id,
        decreases nodes@.len() - i,
    {
        if nodes[i].id == id {
            return Some(i);
        }
        i = i + 1;
    }
    None
}

fn has_input(n: &Node, id: Id) -> (r: bool)
    ensures
        r == refers_to(*n, id),
{
    let mut k: usize = 0;
    while k < n.inputs.len()
        invariant
            k <= n.inputs@.len(),
            forall|j: int| 0 <= j < k ==> n.inputs@[j].0 != id,
        decreases n.inputs@.len() - k,
    {
        if n.inputs[k].0 == id {
            return true;
        }
        k = k + 1;
    }
    false
}

impl AppGraph {
    /// Renames the node `id` to `name` when the name is non-empty and no
    /// other node bears it. Otherwise the rename is refused: every name stays
    /// as it was and the node is flagged as holding a name conflict.
    pub fn rename_node(&mut self, id: Id, name: String) -> (r: bool)
        requires
            old(self).wf(),
        ensures
            final(self).wf(),
            final(self).root_nodes == old(self).root_nodes,
            final(self).id_generator == old(self).id_generator,
            final(self).nodes@.len() == old(self).nodes@.len(),
            r <==> (exists|p: int| 0 <= p < old(self).nodes@.len() && old(self).nodes@[p].id == id)
                && name_available(old(self).nodes@, id, name@),
            forall|p: int|
                0 <= p < old(self).nodes@.len() ==> {
                    let (a, b) = (old(self).nodes@[p], #[trigger] final(self).nodes@[p]);
                    &&& b.id == a.id && b.inputs == a.inputs && b.value == a.value
                    &&& if r && a.id == id {
                        b.node_type == a.node_type.renamed(name) && b.name_cached@ == name@
                            && !b.is_error_name
                    } else {
                        b.node_type == a.node_type && b.name_cached == a.name_cached
                            && b.is_error_name == (a.is_error_name || a.id == id)
                    }
                },
            names_unique(old(self).nodes@) ==> names_unique(final(self).nodes@),
    {
        let ghost before = self.nodes@;
        match find_node(&self.nodes, id) {
            None => false,
            Some(p) => {
                if validate_name(&self.nodes, &id, &name) {
                    let cached = name.clone();
                    proof {
                        before[p as int].node_type.lemma_renamed(name);
                        assert(before[p as int].local_ok());
                    }
                    self.nodes[p].node_type.set_name(name);
                    self.nodes[p].name_cached = cached;
                    self.nodes[p].is_error_name = false;
                    proof {
                        let ns = self.nodes@;
                        assert forall|i: int| 0 <= i < ns.len() && i != p implies ns[i] == before[i] by {}
                        assert forall|i: int, j: int|
                            0 <= i < ns.len() && 0 <= j < ns.len() && i != j && before[i].id == before[j].id
                            implies false by {}
                        assert forall|i: int, k: int|
                            0 <= i < ns.len() && 0 <= k < ns[i].inputs@.len() implies input_ok(
                            ns,
                            i,
                            #[trigger] ns[i].inputs@[k].0,
                        ) by {
                            assert(input_ok(before, i, before[i].inputs@[k].0));
                            let q = choose|q: int|
                                0 <= q < i && before[q].id == before[i].inputs@[k].0
                                    && may_depend(before[i].light(), before[q].light());
                            assert(ns[q].id == before[q].id && ns[q].light() == before[q].light());
                        }
                        assert forall|r: int| 0 <= r < self.root_nodes@.len() implies is_control_id(
                            ns,
                            #[trigger] self.root_nodes@[r],
                        ) by {
                            assert(is_control_id(before, self.root_nodes@[r]));
                            let q = choose|q: int|
                                0 <= q < before.len() && before[q].id == self.root_nodes@[r]
                                    && before[q].light() == NodeTypeLight::Control;
                            assert(ns[q].id == before[q].id && ns[q].light() == before[q].light());
                        }
                        assert forall|i: int| 0 <= i < ns.len() implies #[trigger] ns[i].local_ok() by {
                            if i != p {
                                assert(ns[i] == before[i]);
                            }
                        }
                        if names_unique(before) {
                            assert forall|i: int, j: int|
                                0 <= i < ns.len() && 0 <= j < ns.len() && i != j
                                    && ns[i].name_view().len() > 0 implies #[trigger] ns[i].name_view()
                                != #[trigger] ns[j].name_view() by {
                                if i == p {
                                    assert(before[j].id != id);
                                    assert(before[j].name_view() != name@);
                                } else if j == p {
                                    assert(before[i].id != id);
                                    assert(before[i].name_view() != name@);
                                } else {
                                    assert(ns[i] == before[i] && ns[j] == before[j]);
                                }
                            }
                        }
                    }
                    true
                } else {
                    self.nodes[p].is_error_name = true;
                    proof {
                        let ns = self.nodes@;
                        assert forall|i: int| 0 <= i < ns.len() implies #[trigger] ns[i].local_ok() by {
                            assert(before[i].local_ok());
                        }
                        assert forall|i: int, k: int|
                            0 <= i < ns.len() && 0 <= k < ns[i].inputs@.len() implies input_ok(
                            ns,
                            i,
                            #[trigger] ns[i].inputs@[k].0,
                        ) by {
                            assert(input_ok(before, i, before[i].inputs@[k].0));
                            let q = choose|q: int|
                                0 <= q < i && before[q].id == before[i].inputs@[k].0
                                    && may_depend(before[i].light(), before[q].light());
                            assert(ns[q].id == before[q].id && ns[q].light() == before[q].light());
                        }
                        assert forall|r: int| 0 <= r < self.root_nodes@.len() implies is_control_id(
                            ns,
                            #[trigger] self.root_nodes@[r],
                        ) by {
                            assert(is_control_id(before, self.root_nodes@[r]));
                            let q = choose|q: int|
                                0 <= q < before.len() && before[q].id == self.root_nodes@[r]
                                    && before[q].light() == NodeTypeLight::Control;
                            assert(ns[q].id == before[q].id && ns[q].light() == before[q].light());
                        }
                        if names_unique(before) {
                            assert forall|i: int, j: int|
                                0 <= i < ns.len() && 0 <= j < ns.len() && i != j
                                    && ns[i].name_view().len() > 0 implies #[trigger] ns[i].name_view()
                                != #[trigger] ns[j].name_view() by {
                                assert(ns[i].node_type == before[i].node_type);
                                assert(ns[j].node_type == before[j].node_type);
                                assert(before[i].name_view() != before[j].name_view());
                            }
                        }
                    }
                    false
                }
            },
        }
    }
}

impl AppGraph {
    /// Deletes the node `id`. Every node that read from it loses all of its
    /// inputs, as sanitization would have it, so no reference dangles; the
    /// node leaves the root set. Returns whether the node existed.
    pub fn delete_node(&mut self, id: Id) -> (r: bool)
        requires
            old(self).wf(),
        ensures
            final(self).wf(),
            final(self).id_generator == old(self).id_generator,
            r <==> exists|p: int| 0 <= p < old(self).nodes@.len() && old(self).nodes@[p].id == id,
            !r ==> *final(self) == *old(self),
            r ==> final(self).nodes@.len() == old(self).nodes@.len() - 1,
            r ==> forall|i: int|
                0 <= i < final(self).nodes@.len() ==> survives(
                    old(self).nodes@.remove(first_id(old(self).nodes@, id, 0))[i],
                    #[trigger] final(self).nodes@[i],
                    id,
                ),
            r ==> final(self).root_nodes@ == without(old(self).root_nodes@, id),
            forall|i: int|
                0 <= i < final(self).nodes@.len() ==> #[trigger] final(self).nodes@[i].id != id
                    && !refers_to(final(self).nodes@[i], id),
    {
        let ghost old_nodes = self.nodes@;
        let n = self.nodes.len();
        let p = match find_id(&self.nodes, id, n) {
            Some(p) => p,
            None => {
                proof {
                    lemma_first_id_from(old_nodes, id, 0);
                    if exists|q: int| 0 <= q < old_nodes.len() && old_nodes[q].id == id {
                        let q = choose|q: int| 0 <= q < old_nodes.len() && old_nodes[q].id == id;
                        lemma_first_id_hit(old_nodes, id, 0, q);
                    }
                }
                return false;
            },
        };
        proof {
            lemma_first_id_from(old_nodes, id, 0);
        }
        let _gone = self.nodes.remove(p);
        let ghost mid = self.nodes@;
        assert(mid == old_nodes.remove(p as int));
        let m = self.nodes.len();
        let mut j: usize = 0;
        while j < m
            invariant
                self.id_generator == old(self).id_generator,
                self.root_nodes == old(self).root_nodes,
                old_nodes == old(self).nodes@,
                old(self).wf(),
                p < old_nodes.len(),
                old_nodes[p as int].id == id,
                first_id(old_nodes, id, 0) == p,
                mid == old_nodes.remove(p as int),
                m == self.nodes@.len(),
                mid.len() == m,
                j <= m,
                forall|i: int| 0 <= i < j ==> survives(mid[i], #[trigger] self.nodes@[i], id),
                forall|i: int| 0 <= i < j ==> (#[trigger] mid[i]).node_type.binding_ok()
                    ==> self.nodes@[i].node_type.binding_ok(),
                forall|i: int| j <= i < m ==> #[trigger] self.nodes@[i] == mid[i],
            decreases m - j,
        {
            if has_input(&self.nodes[j], id) {
                self.nodes[j].inputs = Vec::new();
                self.nodes[j].node_type.clear_inputs();
            }
            j = j + 1;
        }
        let mut roots: Vec<Id> = Vec::new();
        let mut k: usize = 0;
        while k < self.root_nodes.len()
            invariant
                self.id_generator == old(self).id_generator,
                self.root_nodes == old(self).root_nodes,
                m == self.nodes@.len(),
                mid.len() == m,
                forall|i: int| 0 <= i < m ==> survives(mid[i], #[trigger] self.nodes@[i], id),
                forall|i: int| 0 <= i < m ==> (#[trigger] mid[i]).node_type.binding_ok()
                    ==> self.nodes@[i].node_type.binding_ok(),
                old_nodes == old(self).nodes@,
                old(self).wf(),
                p < old_nodes.len(),
                old_nodes[p as int].id == id,
                first_id(old_nodes, id, 0) == p,
                mid == old_nodes.remove(p as int),
                k <= self.root_nodes@.len(),
                roots@ == without(self.root_nodes@.subrange(0, k as int), id),
            decreases self.root_nodes@.len() - k,
        {
            let ghost rs = self.root_nodes@;
            assert(rs.subrange(0, k + 1).drop_last() =~= rs.subrange(0, k as int));
            if self.root_nodes[k] != id {
                roots.push(self.root_nodes[k]);
            }
            k = k + 1;
        }
        assert(self.root_nodes@.subrange(0, k as int) =~= self.root_nodes@);
        let ghost old_roots = self.root_nodes@;
        self.root_nodes = roots;
        proof {
            let ns = self.nodes@;
            let pp = p as int;
            assert forall|i: int| 0 <= i < ns.len() implies (#[trigger] ns[i]).id != id && !refers_to(
                ns[i],
                id,
            ) by {
                let o = if i < pp { i } else { i + 1 };
                assert(mid[i] == old_nodes[o]);
                assert(old_nodes[o].id != id);
            }
            assert forall|i: int| 0 <= i < ns.len() implies #[trigger] ns[i].local_ok() by {
                let o = if i < pp { i } else { i + 1 };
                assert(mid[i] == old_nodes[o]);
                assert(old_nodes[o].local_ok());
                assert(survives(mid[i], ns[i], id));
            }
            assert forall|i: int, k2: int|
                0 <= i < ns.len() && 0 <= k2 < ns[i].inputs@.len() implies input_ok(
                ns,
                i,
                #[trigger] ns[i].inputs@[k2].0,
            ) by {
                let o = if i < pp { i } else { i + 1 };
                assert(mid[i] == old_nodes[o]);
                assert(survives(mid[i], ns[i], id));
                assert(!refers_to(mid[i], id));
                let x = ns[i].inputs@[k2].0;
                assert(x == old_nodes[o].inputs@[k2].0);
                assert(x != id);
                assert(input_ok(old_nodes, o, x));
                let q = choose|q: int|
                    0 <= q < o && old_nodes[q].id == x && may_depend(
                        old_nodes[o].light(),
                        old_nodes[q].light(),
                    );
                let q2 = if q < pp { q } else { q - 1 };
                assert(q != pp);
                assert(mid[q2] == old_nodes[q]);
                assert(survives(mid[q2], ns[q2], id));
            }
            assert forall|a: int, b: int| 0 <= a < b < ns.len() implies ns[a].id != ns[b].id by {
                let oa = if a < pp { a } else { a + 1 };
                let ob = if b < pp { b } else { b + 1 };
                assert(mid[a] == old_nodes[oa] && mid[b] == old_nodes[ob]);
                assert(survives(mid[a], ns[a], id) && survives(mid[b], ns[b], id));
            }
            assert forall|i: int| 0 <= i < ns.len() implies #[trigger] ns[i].id
                < self.id_generator.next by {
                let o = if i < pp { i } else { i + 1 };
                assert(mid[i] == old_nodes[o]);
                assert(survives(mid[i], ns[i], id));
            }
            lemma_without(old_roots, id);
            assert forall|r: int| 0 <= r < self.root_nodes@.len() implies is_control_id(
                ns,
                #[trigger] self.root_nodes@[r],
            ) by {
                let x = self.root_nodes@[r];
                assert(x != id && old_roots.contains(x));
                let t = choose|t: int| 0 <= t < old_roots.len() && old_roots[t] == x;
                assert(is_control_id(old_nodes, old_roots[t]));
                let q = choose|q: int|
                    0 <= q < old_nodes.len() && old_nodes[q].id == x && old_nodes[q].light()
                        == NodeTypeLight::Control;
                let q2 = if q < pp { q } else { q - 1 };
                assert(q != pp);
                assert(mid[q2] == old_nodes[q]);
                assert(survives(mid[q2], ns[q2], id));
            }
        }
        true
    }
}

impl AppGraph {
    /// Adds a node built from `entry` after all others, as the builder would
    /// place it: bound to the snapshot, inputs sanitized against the whole
    /// table; a Control joins the root set. Refused, changing nothing, when
    /// the entry's name is empty or already taken. Returns the new node's
    /// identifier.
    pub fn add_node(&mut self, entry: NodeType, hardware: &Hardware) -> (r: Option<Id>)
        requires
            old(self).wf(),
            old(self).id_generator.next < u64::MAX,
        ensures
            final(self).wf(),
            r is Some <==> name_available(
                old(self).nodes@,
                old(self).id_generator.next,
                entry.name_view(),
            ),
            r is None ==> *final(self) == *old(self),
            r matches Some(id) ==> {
                &&& id == old(self).id_generator.next
                &&& final(self).nodes@.drop_last() == old(self).nodes@
                &&& final(self).nodes@.len() == old(self).nodes@.len() + 1
                &&& final(self).nodes@.last().id == id
                &&& placed(final(self).nodes@, entry, *hardware)
                &&& final(self).root_nodes@ == if entry.light() == NodeTypeLight::Control {
                    old(self).root_nodes@.push(id)
                } else {
                    old(self).root_nodes@
                }
            },
            names_unique(old(self).nodes@) ==> names_unique(final(self).nodes@),
    {
        let id = self.id_generator.next;
        if !validate_name(&self.nodes, &id, entry.name()) {
            return None;
        }
        let ghost before = self.nodes@;
        self.place(entry, hardware);
        proof {
            let ns = self.nodes@;
            let n = before.len() as int;
            if names_unique(before) {
                assert forall|i: int, j: int|
                    0 <= i < ns.len() && 0 <= j < ns.len() && i != j && ns[i].name_view().len()
                        > 0 implies #[trigger] ns[i].name_view() != #[trigger] ns[j].name_view() by {
                    if i == n {
                        assert(ns[j] == before[j]);
                        assert(before[j].id != id);
                    } else if j == n {
                        assert(ns[i] == before[i]);
                        assert(before[i].id != id);
                    } else {
                        assert(ns[i] == before[i] && ns[j] == before[j]);
                    }
                }
            }
        }
        Some(id)
    }
}

proof fn lemma_first_id_hit(nodes: Seq<Node>, id: Id, from: int, q: int)
    requires
        0 <= from <= q < nodes.len(),
        nodes[q].id == id,
    ensures
        0 <= first_id(nodes, id, from) <= q,
    decreases q - from,
{
    if nodes[from].id != id {
        lemma_first_id_hit(nodes, id, from + 1, q);
    }
}

} // verus!
