//! The node table, its well-formedness, and building it from a configuration
//! and a hardware snapshot.
use vstd::prelude::*;
use crate::catalog::{arity_of, may_depend, within_arity, NodeTypeLight};
use crate::config::{
    Config, Control, CustomTemp, Fan, Flat, Graph, Inputs, Linear, Target, Temp,
};
use crate::hardware::{ControlH, FanH, Hardware, TempH};
use crate::id::{Id, IdGenerator};
use crate::node::{
    inputs_view, lemma_sanitized_inputs_ok, refers_allowed, sanitized, sanitized_inputs, Node,
    NodeType,
};

verus! {

/// Whether the input `id` of the node at position `i` names a node placed
/// before it, of a kind that node may depend on.
pub open spec fn input_ok(nodes: Seq<Node>, i: int, id: Id) -> bool {
    exists|p: int| 0 <= p < i && nodes[p].id == id && may_depend(nodes[i].light(), nodes[p].light())
}

impl Node {
    /// What holds of a node on its own: its inputs fit its arity, the cached
    /// name is the payload's, and no hardware binding lacks an identifier.
    pub open spec fn local_ok(&self) -> bool {
        &&& within_arity(arity_of(self.light()), self.inputs@.len() as int)
        &&& self.name_cached@ == self.name_view()
        &&& self.node_type.binding_ok()
    }
}

impl NodeType {
    /// No hardware binding without a stored identifier.
    pub open spec fn binding_ok(&self) -> bool {
        match self {
            NodeType::Control(c) => c.control_h.is_some() ==> c.hardware_id.is_some(),
            NodeType::Fan(f) => f.hardware_index.is_some() ==> f.hardware_id.is_some(),
            NodeType::Temp(t) => t.hardware_index.is_some() ==> t.hardware_id.is_some(),
            _ => true,
        }
    }
}

/// The dependency graph: a table of nodes, the identifier generator, and the
/// root set (the Control nodes, in order of creation).
#[derive(Debug)]
pub struct AppGraph {
    pub nodes: Vec<Node>,
    pub id_generator: IdGenerator,
    pub root_nodes: Vec<Id>,
}

/// Whether `id` is the identifier of a Control node of `nodes`.
pub open spec fn is_control_id(nodes: Seq<Node>, id: Id) -> bool {
    exists|p: int| 0 <= p < nodes.len() && nodes[p].id == id && nodes[p].light() == NodeTypeLight::Control
}

impl AppGraph {
    /// Global consistency of the graph: unique identifiers below the
    /// generator's next one, every node locally sound, every input resolved
    /// to an allowed node placed earlier (so the table order is a topological
    /// order and there are no cycles), and roots that are Control nodes.
    pub open spec fn wf(&self) -> bool {
        let ns = self.nodes@;
        &&& forall|i: int, j: int| 0 <= i < j < ns.len() ==> ns[i].id != ns[j].id
        &&& forall|i: int| 0 <= i < ns.len() ==> #[trigger] ns[i].id < self.id_generator.next
        &&& forall|i: int| 0 <= i < ns.len() ==> #[trigger] ns[i].local_ok()
        &&& forall|i: int, k: int|
            0 <= i < ns.len() && 0 <= k < ns[i].inputs@.len() ==> input_ok(
                ns,
                i,
                #[trigger] ns[i].inputs@[k].0,
            )
        &&& forall|r: int| 0 <= r < self.root_nodes@.len() ==> is_control_id(ns, #[trigger] self.root_nodes@[r])
    }

    pub fn new() -> (r: AppGraph)
        ensures
            r.wf(),
            r.nodes@.len() == 0,
            r.root_nodes@.len() == 0,
            r.id_generator.next == 0,
    {
        AppGraph { nodes: Vec::new(), id_generator: IdGenerator::new(), root_nodes: Vec::new() }
    }

    /// Appends a node created by the graph's own generator after every node
    /// of the table, whose inputs resolve within the table.
    pub(crate) fn push_node(&mut self, node: Node)
        requires
            old(self).wf(),
            node.local_ok(),
            node.id < old(self).id_generator.next,
            forall|i: int| 0 <= i < old(self).nodes@.len() ==> #[trigger] old(self).nodes@[i].id < node.id,
            forall|k: int|
                0 <= k < node.inputs@.len() ==> refers_allowed(
                    old(self).nodes@,
                    #[trigger] node.inputs@[k].0,
                    node.light(),
                ),
        ensures
            final(self).wf(),
            final(self).nodes@ == old(self).nodes@.push(node),
            final(self).id_generator == old(self).id_generator,
            final(self).root_nodes == old(self).root_nodes,
    {
        let ghost before = self.nodes@;
        self.nodes.push(node);
        proof {
            let ns = self.nodes@;
            let n = before.len() as int;
            assert forall|i: int, k: int|
                0 <= i < ns.len() && 0 <= k < ns[i].inputs@.len() implies input_ok(
                ns,
                i,
                #[trigger] ns[i].inputs@[k].0,
            ) by {
                if i < n {
                    assert(ns[i] == before[i]);
                    assert(input_ok(before, i, before[i].inputs@[k].0));
                    let p = choose|p: int|
                        0 <= p < i && before[p].id == before[i].inputs@[k].0 && may_depend(
                            before[i].light(),
                            before[p].light(),
                        );
                    assert(ns[p] == before[p]);
                } else {
                    assert(ns[i] == node);
                    assert(refers_allowed(before, node.inputs@[k].0, node.light()));
                    let p = choose|p: int|
                        0 <= p < before.len() && before[p].id == node.inputs@[k].0 && may_depend(
                            node.light(),
                            before[p].light(),
                        );
                    assert(ns[p] == before[p]);
                }
            }
            assert forall|r: int| 0 <= r < self.root_nodes@.len() implies is_control_id(
                ns,
                #[trigger] self.root_nodes@[r],
            ) by {
                assert(is_control_id(before, self.root_nodes@[r]));
                let p = choose|p: int|
                    0 <= p < before.len() && before[p].id == self.root_nodes@[r] && before[p].light()
                        == NodeTypeLight::Control;
                assert(ns[p] == before[p]);
            }
            assert forall|i: int| 0 <= i < ns.len() implies #[trigger] ns[i].local_ok() by {
                if i < n {
                    assert(ns[i] == before[i]);
                }
            }
        }
    }
}

} // verus!

verus! {

/// The entries of a configuration in construction order: fans, temperatures,
/// custom temperatures, flats, linears, targets, graphs, then controls.
pub open spec fn config_entries(c: Config) -> Seq<NodeType> {
    c.fans@.map_values(|x: Fan| NodeType::Fan(x)) + c.temps@.map_values(|x: Temp| NodeType::Temp(x))
        + c.custom_temps@.map_values(|x: CustomTemp| NodeType::CustomTemp(x))
        + c.flats@.map_values(|x: Flat| NodeType::Flat(x))
        + c.linears@.map_values(|x: Linear| NodeType::Linear(x))
        + c.targets@.map_values(|x: Target| NodeType::Target(x))
        + c.graphs@.map_values(|x: Graph| NodeType::Graph(x))
        + c.controls@.map_values(|x: Control| NodeType::Control(x))
}

/// Whether the last node of `built` is what the configuration entry `entry`
/// becomes when placed after the nodes before it, against snapshot `hw`.
pub open spec fn placed(built: Seq<Node>, entry: NodeType, hw: Hardware) -> bool {
    let pre = built.drop_last();
    let n = built.last();
    match entry {
        NodeType::Fan(e) => n.node_type == NodeType::Fan(e.bound(hw.fans@)) && n.inputs@.len() == 0,
        NodeType::Temp(e) => n.node_type == NodeType::Temp(e.bound(hw.temps@)) && n.inputs@.len()
            == 0,
        NodeType::Flat(e) => n.node_type == NodeType::Flat(e) && n.inputs@.len() == 0,
        NodeType::Control(e) => {
            &&& n.node_type matches NodeType::Control(c) && sanitized(
                pre,
                e.bound(hw.controls@),
                c,
                NodeTypeLight::Control,
            )
            &&& inputs_view(n.inputs@) == sanitized_inputs(
                pre,
                e.input_names(),
                NodeTypeLight::Control,
            )
        },
        NodeType::CustomTemp(e) => {
            &&& n.node_type matches NodeType::CustomTemp(c) && sanitized(
                pre,
                e,
                c,
                NodeTypeLight::CustomTemp,
            )
            &&& inputs_view(n.inputs@) == sanitized_inputs(
                pre,
                e.input_names(),
                NodeTypeLight::CustomTemp,
            )
        },
        NodeType::Linear(e) => {
            &&& n.node_type matches NodeType::Linear(c) && sanitized(
                pre,
                e,
                c,
                NodeTypeLight::Linear,
            )
            &&& inputs_view(n.inputs@) == sanitized_inputs(
                pre,
                e.input_names(),
                NodeTypeLight::Linear,
            )
        },
        NodeType::Target(e) => {
            &&& n.node_type matches NodeType::Target(c) && sanitized(
                pre,
                e,
                c,
                NodeTypeLight::Target,
            )
            &&& inputs_view(n.inputs@) == sanitized_inputs(
                pre,
                e.input_names(),
                NodeTypeLight::Target,
            )
        },
        NodeType::Graph(e) => {
            &&& n.node_type matches NodeType::Graph(c) && sanitized(
                pre,
                e,
                c,
                NodeTypeLight::Graph,
            )
            &&& inputs_view(n.inputs@) == sanitized_inputs(
                pre,
                e.input_names(),
                NodeTypeLight::Graph,
            )
        },
    }
}

/// The identifiers of the Control nodes of `nodes`, in table order.
pub open spec fn control_ids(nodes: Seq<Node>) -> Seq<Id>
    decreases nodes.len(),
{
    if nodes.len() == 0 {
        Seq::empty()
    } else {
        let r = control_ids(nodes.drop_last());
        if nodes.last().light() == NodeTypeLight::Control {
            r.push(nodes.last().id)
        } else {
            r
        }
    }
}

/// `v` in reverse order, so that popping yields the original order.
fn reversed<T>(v: Vec<T>) -> (r: Vec<T>)
    ensures
        r@.len() == v@.len(),
        forall|k: int| 0 <= k < v@.len() ==> r@[k] == v@[v@.len() - 1 - k],
{
    let ghost orig = v@;
    let mut v = v;
    let mut r: Vec<T> = Vec::new();
    while v.len() > 0
        invariant
            v@ == orig.subrange(0, v@.len() as int),
            r@.len() + v@.len() == orig.len(),
            forall|k: int| 0 <= k < r@.len() ==> r@[k] == orig[orig.len() - 1 - k],
        decreases v@.len(),
    {
        let x = v.pop().unwrap();
        r.push(x);
    }
    r
}

impl AppGraph {
    /// Turns one configuration entry into a node placed after all others;
    /// a Control node also joins the root set.
    pub(crate) fn place(&mut self, entry: NodeType, hardware: &Hardware)
        requires
            old(self).wf(),
            old(self).id_generator.next < u64::MAX,
        ensures
            final(self).wf(),
            final(self).nodes@.len() == old(self).nodes@.len() + 1,
            final(self).nodes@.drop_last() == old(self).nodes@,
            final(self).nodes@.last().id == old(self).id_generator.next,
            final(self).nodes@.last().light() == entry.light(),
            final(self).nodes@.last().name_view() == entry.name_view(),
            placed(final(self).nodes@, entry, *hardware),
            final(self).id_generator.next == old(self).id_generator.next + 1,
            final(self).root_nodes@ == if entry.light() == NodeTypeLight::Control {
                old(self).root_nodes@.push(old(self).id_generator.next)
            } else {
                old(self).root_nodes@
            },
    {
        let ghost before = self.nodes@;
        let node = match entry {
            NodeType::Fan(e) => e.to_node(&mut self.id_generator, hardware),
            NodeType::Temp(e) => e.to_node(&mut self.id_generator, hardware),
            NodeType::Flat(e) => e.to_node(&mut self.id_generator),
            NodeType::Control(e) => {
                proof {
                    lemma_sanitized_inputs_ok(before, e.input_names(), NodeTypeLight::Control);
                }
                e.to_node(&mut self.id_generator, &self.nodes, hardware)
            },
            NodeType::CustomTemp(e) => {
                proof {
                    lemma_sanitized_inputs_ok(before, e.input_names(), NodeTypeLight::CustomTemp);
                }
                e.to_node(&mut self.id_generator, &self.nodes)
            },
            NodeType::Linear(e) => {
                proof {
                    lemma_sanitized_inputs_ok(before, e.input_names(), NodeTypeLight::Linear);
                }
                e.to_node(&mut self.id_generator, &self.nodes)
            },
            NodeType::Target(e) => {
                proof {
                    lemma_sanitized_inputs_ok(before, e.input_names(), NodeTypeLight::Target);
                }
                e.to_node(&mut self.id_generator, &self.nodes)
            },
            NodeType::Graph(e) => {
                proof {
                    lemma_sanitized_inputs_ok(before, e.input_names(), NodeTypeLight::Graph);
                }
                e.to_node(&mut self.id_generator, &self.nodes)
            },
        };
        proof {
            assert forall|k: int| 0 <= k < node.inputs@.len() implies refers_allowed(
                before,
                #[trigger] node.inputs@[k].0,
                node.light(),
            ) by {
                assert(inputs_view(node.inputs@)[k].0 == node.inputs@[k].0);
            }
            assert(inputs_view(node.inputs@).len() == node.inputs@.len());
        }
        let id = node.id;
        let is_root = node.node_type.to_light() == NodeTypeLight::Control;
        self.push_node(node);
        if is_root {
            self.root_nodes.push(id);
            proof {
                let ns = self.nodes@;
                assert(ns[ns.len() - 1].id == id);
                assert forall|r: int| 0 <= r < self.root_nodes@.len() implies is_control_id(
                    ns,
                    #[trigger] self.root_nodes@[r],
                ) by {
                    if r == self.root_nodes@.len() - 1 {
                        assert(ns[ns.len() - 1].light() == NodeTypeLight::Control);
                    }
                }
            }
        }
        assert(self.nodes@.drop_last() =~= before);
    }
}

} // verus!

verus! {

/// The entries of `config` in construction order.
fn entries_of(config: Config) -> (r: Vec<NodeType>)
    ensures
        r@ == config_entries(config),
{
    let ghost all = config_entries(config);
    let mut v: Vec<NodeType> = Vec::new();
        let ghost pre = v@;
        let ghost orig = config.fans@;
        let mut rest = reversed(config.fans);
        while rest.len() > 0
            invariant
                rest@.len() <= orig.len(),
                forall|k: int| 0 <= k < rest@.len() ==> rest@[k] == orig[orig.len() - 1 - k],
                v@ == pre + orig.subrange(0, orig.len() - rest@.len()).map_values(
                    |x: Fan| NodeType::Fan(x),
                ),
            decreases rest@.len(),
        {
            let ghost done = orig.len() - rest@.len();
            let x = rest.pop().unwrap();
            v.push(NodeType::Fan(x));
            assert(orig.subrange(0, done + 1).map_values(|x: Fan| NodeType::Fan(x)) =~= orig.subrange(
                0,
                done,
            ).map_values(|x: Fan| NodeType::Fan(x)).push(NodeType::Fan(x)));
        }
        assert(orig.subrange(0, orig.len() as int) =~= orig);
        let ghost pre = v@;
        let ghost orig = config.temps@;
        let mut rest = reversed(config.temps);
        while rest.len() > 0
            invariant
                rest@.len() <= orig.len(),
                forall|k: int| 0 <= k < rest@.len() ==> rest@[k] == orig[orig.len() - 1 - k],
                v@ == pre + orig.subrange(0, orig.len() - rest@.len()).map_values(
                    |x: Temp| NodeType::Temp(x),
                ),
            decreases rest@.len(),
        {
            let ghost done = orig.len() - rest@.len();
            let x = rest.pop().unwrap();
            v.push(NodeType::Temp(x));
            assert(orig.subrange(0, done + 1).map_values(|x: Temp| NodeType::Temp(x)) =~= orig.subrange(
                0,
                done,
            ).map_values(|x: Temp| NodeType::Temp(x)).push(NodeType::Temp(x)));
        }
        assert(orig.subrange(0, orig.len() as int) =~= orig);
        let ghost pre = v@;
        let ghost orig = config.custom_temps@;
        let mut rest = reversed(config.custom_temps);
        while rest.len() > 0
            invariant
                rest@.len() <= orig.len(),
                forall|k: int| 0 <= k < rest@.len() ==> rest@[k] == orig[orig.len() - 1 - k],
                v@ == pre + orig.subrange(0, orig.len() - rest@.len()).map_values(
                    |x: CustomTemp| NodeType::CustomTemp(x),
                ),
            decreases rest@.len(),
        {
            let ghost done = orig.len() - rest@.len();
            let x = rest.pop().unwrap();
            v.push(NodeType::CustomTemp(x));
            assert(orig.subrange(0, done + 1).map_values(|x: CustomTemp| NodeType::CustomTemp(x)) =~= orig.subrange(
                0,
                done,
            ).map_values(|x: CustomTemp| NodeType::CustomTemp(x)).push(NodeType::CustomTemp(x)));
        }
        assert(orig.subrange(0, orig.len() as int) =~= orig);
        let ghost pre = v@;
        let ghost orig = config.flats@;
        let mut rest = reversed(config.flats);
        while rest.len() > 0
            invariant
                rest@.len() <= orig.len(),
                forall|k: int| 0 <= k < rest@.len() ==> rest@[k] == orig[orig.len() - 1 - k],
                v@ == pre + orig.subrange(0, orig.len() - rest@.len()).map_values(
                    |x: Flat| NodeType::Flat(x),
                ),
            decreases rest@.len(),
        {
            let ghost done = orig.len() - rest@.len();
            let x = rest.pop().unwrap();
            v.push(NodeType::Flat(x));
            assert(orig.subrange(0, done + 1).map_values(|x: Flat| NodeType::Flat(x)) =~= orig.subrange(
                0,
                done,
            ).map_values(|x: Flat| NodeType::Flat(x)).push(NodeType::Flat(x)));
        }
        assert(orig.subrange(0, orig.len() as int) =~= orig);
        let ghost pre = v@;
        let ghost orig = config.linears@;
        let mut rest = reversed(config.linears);
        while rest.len() > 0
            invariant
                rest@.len() <= orig.len(),
                forall|k: int| 0 <= k < rest@.len() ==> rest@[k] == orig[orig.len() - 1 - k],
                v@ == pre + orig.subrange(0, orig.len() - rest@.len()).map_values(
                    |x: Linear| NodeType::Linear(x),
                ),
            decreases rest@.len(),
        {
            let ghost done = orig.len() - rest@.len();
            let x = rest.pop().unwrap();
            v.push(NodeType::Linear(x));
            assert(orig.subrange(0, done + 1).map_values(|x: Linear| NodeType::Linear(x)) =~= orig.subrange(
                0,
                done,
            ).map_values(|x: Linear| NodeType::Linear(x)).push(NodeType::Linear(x)));
        }
        assert(orig.subrange(0, orig.len() as int) =~= orig);
        let ghost pre = v@;
        let ghost orig = config.targets@;
        let mut rest = reversed(config.targets);
        while rest.len() > 0
            invariant
                rest@.len() <= orig.len(),
                forall|k: int| 0 <= k < rest@.len() ==> rest@[k] == orig[orig.len() - 1 - k],
                v@ == pre + orig.subrange(0, orig.len() - rest@.len()).map_values(
                    |x: Target| NodeType::Target(x),
                ),
            decreases rest@.len(),
        {
            let ghost done = orig.len() - rest@.len();
            let x = rest.pop().unwrap();
            v.push(NodeType::Target(x));
            assert(orig.subrange(0, done + 1).map_values(|x: Target| NodeType::Target(x)) =~= orig.subrange(
                0,
                done,
            ).map_values(|x: Target| NodeType::Target(x)).push(NodeType::Target(x)));
        }
        assert(orig.subrange(0, orig.len() as int) =~= orig);
        let ghost pre = v@;
        let ghost orig = config.graphs@;
        let mut rest = reversed(config.graphs);
        while rest.len() > 0
            invariant
                rest@.len() <= orig.len(),
                forall|k: int| 0 <= k < rest@.len() ==> rest@[k] == orig[orig.len() - 1 - k],
                v@ == pre + orig.subrange(0, orig.len() - rest@.len()).map_values(
                    |x: Graph| NodeType::Graph(x),
                ),
            decreases rest@.len(),
        {
            let ghost done = orig.len() - rest@.len();
            let x = rest.pop().unwrap();
            v.push(NodeType::Graph(x));
            assert(orig.subrange(0, done + 1).map_values(|x: Graph| NodeType::Graph(x)) =~= orig.subrange(
                0,
                done,
            ).map_values(|x: Graph| NodeType::Graph(x)).push(NodeType::Graph(x)));
        }
        assert(orig.subrange(0, orig.len() as int) =~= orig);
        let ghost pre = v@;
        let ghost orig = config.controls@;
        let mut rest = reversed(config.controls);
        while rest.len() > 0
            invariant
                rest@.len() <= orig.len(),
                forall|k: int| 0 <= k < rest@.len() ==> rest@[k] == orig[orig.len() - 1 - k],
                v@ == pre + orig.subrange(0, orig.len() - rest@.len()).map_values(
                    |x: Control| NodeType::Control(x),
                ),
            decreases rest@.len(),
        {
            let ghost done = orig.len() - rest@.len();
            let x = rest.pop().unwrap();
            v.push(NodeType::Control(x));
            assert(orig.subrange(0, done + 1).map_values(|x: Control| NodeType::Control(x)) =~= orig.subrange(
                0,
                done,
            ).map_values(|x: Control| NodeType::Control(x)).push(NodeType::Control(x)));
        }
        assert(orig.subrange(0, orig.len() as int) =~= orig);
        assert(v@ =~= all);
        v
}

impl AppGraph {
    /// Builds the graph of a configuration against a hardware snapshot.
    ///
    /// Entries are placed in the fixed order fan, temperature, custom
    /// temperature, flat, linear, target, graph, control, each in declaration
    /// order: each is bound to the snapshot, then its inputs are sanitized
    /// against the nodes placed before it. Node `k` gets identifier `k`.
    pub fn from_config(config: Config, hardware: &Hardware) -> (r: AppGraph)
        requires
            config_entries(config).len() < u64::MAX,
        ensures
            r.wf(),
            r.nodes@.len() == config_entries(config).len(),
            forall|k: int| 0 <= k < r.nodes@.len() ==> #[trigger] r.nodes@[k].id == k,
            forall|k: int|
                0 <= k < r.nodes@.len() ==> placed(
                    #[trigger] r.nodes@.subrange(0, k + 1),
                    config_entries(config)[k],
                    *hardware,
                ),
            r.root_nodes@ == control_ids(r.nodes@),
    {
        let ghost all = config_entries(config);
        let entries = entries_of(config);
        let mut graph = AppGraph::new();
        let mut rest = reversed(entries);
        assert(control_ids(graph.nodes@) == Seq::<Id>::empty());
        while rest.len() > 0
            invariant
                rest@.len() <= all.len(),
                all.len() < u64::MAX,
                forall|k: int| 0 <= k < rest@.len() ==> rest@[k] == all[all.len() - 1 - k],
                graph.wf(),
                graph.nodes@.len() == all.len() - rest@.len(),
                graph.id_generator.next == graph.nodes@.len(),
                forall|k: int| 0 <= k < graph.nodes@.len() ==> #[trigger] graph.nodes@[k].id == k,
                forall|k: int|
                    0 <= k < graph.nodes@.len() ==> placed(
                        #[trigger] graph.nodes@.subrange(0, k + 1),
                        all[k],
                        *hardware,
                    ),
                graph.root_nodes@ == control_ids(graph.nodes@),
            decreases rest@.len(),
        {
            let ghost before = graph.nodes@;
            let entry = rest.pop().unwrap();
            graph.place(entry, hardware);
            proof {
                let ns = graph.nodes@;
                assert forall|k: int| 0 <= k < ns.len() implies placed(
                    #[trigger] ns.subrange(0, k + 1),
                    all[k],
                    *hardware,
                ) by {
                    if k < before.len() {
                        assert(ns.subrange(0, k + 1) =~= before.subrange(0, k + 1));
                    } else {
                        assert(ns.subrange(0, k + 1) =~= ns);
                    }
                }
                assert forall|k: int| 0 <= k < ns.len() implies #[trigger] ns[k].id == k by {
                    if k < before.len() {
                        assert(ns[k] == ns.drop_last()[k]);
                    }
                }
            }
        }
        graph
    }
}

} // verus!

verus! {

/// The Control node payload that a live control gets by default: bound,
/// in automatic mode, with no input.
pub open spec fn default_control(h: ControlH) -> Control {
    Control {
        name: h.name,
        hardware_id: Some(h.hardware_id),
        input: None,
        auto: true,
        active: false,
        control_h: Some(h.internal_index),
    }
}

pub open spec fn default_fan(h: FanH) -> Fan {
    Fan { name: h.name, hardware_id: Some(h.hardware_id), hardware_index: Some(h.internal_index) }
}

pub open spec fn default_temp(h: TempH) -> Temp {
    Temp { name: h.name, hardware_id: Some(h.hardware_id), hardware_index: Some(h.internal_index) }
}

/// The kinds of the default graph of a snapshot: its controls, fans, then
/// temperature sensors, each bound to its handle.
pub open spec fn default_entries(hw: Hardware) -> Seq<NodeType> {
    hw.controls@.map_values(|h: ControlH| NodeType::Control(default_control(h)))
        + hw.fans@.map_values(|h: FanH| NodeType::Fan(default_fan(h)))
        + hw.temps@.map_values(|h: TempH| NodeType::Temp(default_temp(h)))
}

impl AppGraph {
    /// Appends a node without inputs.
    fn push_leaf(&mut self, node_type: NodeType)
        requires
            old(self).wf(),
            old(self).id_generator.next < u64::MAX,
            node_type.binding_ok(),
        ensures
            final(self).wf(),
            final(self).nodes@.len() == old(self).nodes@.len() + 1,
            final(self).nodes@.drop_last() == old(self).nodes@,
            final(self).nodes@.last().node_type == node_type,
            final(self).nodes@.last().fresh(old(self).id_generator.next),
            final(self).nodes@.last().inputs@.len() == 0,
            final(self).id_generator.next == old(self).id_generator.next + 1,
            final(self).root_nodes@ == if node_type.light() == NodeTypeLight::Control {
                old(self).root_nodes@.push(old(self).id_generator.next)
            } else {
                old(self).root_nodes@
            },
    {
        let is_root = node_type.to_light() == NodeTypeLight::Control;
        let node = Node::new(&mut self.id_generator, node_type, Vec::new());
        let id = node.id;
        self.push_node(node);
        if is_root {
            self.root_nodes.push(id);
            proof {
                let ns = self.nodes@;
                assert(ns[ns.len() - 1].id == id);
                assert forall|r: int| 0 <= r < self.root_nodes@.len() implies is_control_id(
                    ns,
                    #[trigger] self.root_nodes@[r],
                ) by {
                    if r == self.root_nodes@.len() - 1 {
                        assert(ns[ns.len() - 1].light() == NodeTypeLight::Control);
                    }
                }
            }
        }
    }

    /// The graph of a snapshot with no configuration: one bound node per
    /// control (in automatic mode, no input), fan and temperature sensor.
    pub fn default(hardware: &Hardware) -> (r: AppGraph)
        requires
            default_entries(*hardware).len() < u64::MAX,
            default_entries(*hardware).len() <= usize::MAX,
        ensures
            r.wf(),
            r.nodes@.len() == default_entries(*hardware).len(),
            forall|k: int|
                0 <= k < r.nodes@.len() ==> (#[trigger] r.nodes@[k]).fresh(k as Id)
                    && r.nodes@[k].node_type == default_entries(*hardware)[k]
                    && r.nodes@[k].inputs@.len() == 0,
            r.root_nodes@ == control_ids(r.nodes@),
    {
        let ghost all = default_entries(*hardware);
        let mut graph = AppGraph::new();
        let mut i: usize = 0;
        let nc = hardware.controls.len();
        let nf = hardware.fans.len();
        let nt = hardware.temps.len();
        let total = nc + nf + nt;
        assert(control_ids(graph.nodes@) == Seq::<Id>::empty());
        while i < total
            invariant
                total == nc + nf + nt,
                total == all.len(),
                total < u64::MAX,
                nc == hardware.controls@.len(),
                nf == hardware.fans@.len(),
                nt == hardware.temps@.len(),
                all == default_entries(*hardware),
                i <= total,
                graph.wf(),
                graph.nodes@.len() == i,
                graph.id_generator.next == i,
                forall|k: int|
                    0 <= k < i ==> (#[trigger] graph.nodes@[k]).fresh(k as Id)
                        && graph.nodes@[k].node_type == all[k] && graph.nodes@[k].inputs@.len()
                        == 0,
                graph.root_nodes@ == control_ids(graph.nodes@),
            decreases total - i,
        {
            let ghost before = graph.nodes@;
            let node_type = if i < nc {
                let h = &hardware.controls[i];
                NodeType::Control(
                    Control {
                        name: h.name.clone(),
                        hardware_id: Some(h.hardware_id.clone()),
                        input: None,
                        auto: true,
                        active: false,
                        control_h: Some(h.internal_index),
                    },
                )
            } else if i < nc + nf {
                let h = &hardware.fans[i - nc];
                NodeType::Fan(
                    Fan {
                        name: h.name.clone(),
                        hardware_id: Some(h.hardware_id.clone()),
                        hardware_index: Some(h.internal_index),
                    },
                )
            } else {
                let h = &hardware.temps[i - nc - nf];
                NodeType::Temp(
                    Temp {
                        name: h.name.clone(),
                        hardware_id: Some(h.hardware_id.clone()),
                        hardware_index: Some(h.internal_index),
                    },
                )
            };
            assert(node_type == all[i as int]);
            graph.push_leaf(node_type);
            proof {
                let ns = graph.nodes@;
                assert forall|k: int| 0 <= k < i + 1 implies (#[trigger] ns[k]).fresh(k as Id)
                    && ns[k].node_type == all[k] && ns[k].inputs@.len() == 0 by {
                    if k < i {
                        assert(ns[k] == ns.drop_last()[k]);
                    }
                }
            }
            i = i + 1;
        }
        graph
    }
}

} // verus!
