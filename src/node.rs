//! Nodes of the graph, name lookup and input sanitization.
use vstd::prelude::*;
use crate::catalog::{arity_of, may_depend, within_arity, NbInput, NodeTypeLight};
use crate::config::{
    strings_view, Control, CustomTemp, Fan, Flat, Graph, Inputs, IsValid, Linear, Target, Temp,
};
use crate::id::{Id, IdGenerator};

verus! {

/// A reading or a computed output.
pub type Value = i32;

/// A node kind with its configuration payload.
#[derive(Debug)]
pub enum NodeType {
    Control(Control),
    Fan(Fan),
    Temp(Temp),
    CustomTemp(CustomTemp),
    Graph(Graph),
    Flat(Flat),
    Linear(Linear),
    Target(Target),
}

/// A unit of computation in the graph.
#[derive(Debug)]
pub struct Node {
    pub id: Id,
    pub node_type: NodeType,
    /// Resolved inputs: the identifier of each input node and the name it was
    /// declared by.
    pub inputs: Vec<(Id, String)>,
    pub value: Option<Value>,
    pub name_cached: String,
    pub is_error_name: bool,
}

impl NodeType {
    /// The tag of this kind.
    pub open spec fn light(&self) -> NodeTypeLight {
        match self {
            NodeType::Control(_) => NodeTypeLight::Control,
            NodeType::Fan(_) => NodeTypeLight::Fan,
            NodeType::Temp(_) => NodeTypeLight::Temp,
            NodeType::CustomTemp(_) => NodeTypeLight::CustomTemp,
            NodeType::Graph(_) => NodeTypeLight::Graph,
            NodeType::Flat(_) => NodeTypeLight::Flat,
            NodeType::Linear(_) => NodeTypeLight::Linear,
            NodeType::Target(_) => NodeTypeLight::Target,
        }
    }

    /// The payload's name.
    pub open spec fn name_view(&self) -> Seq<char> {
        match self {
            NodeType::Control(i) => i.name@,
            NodeType::Fan(i) => i.name@,
            NodeType::Temp(i) => i.name@,
            NodeType::CustomTemp(i) => i.name@,
            NodeType::Graph(i) => i.name@,
            NodeType::Flat(i) => i.name@,
            NodeType::Linear(i) => i.name@,
            NodeType::Target(i) => i.name@,
        }
    }

    pub fn to_light(&self) -> (r: NodeTypeLight)
        ensures
            r == self.light(),
    {
        match self {
            NodeType::Control(_) => NodeTypeLight::Control,
            NodeType::Fan(_) => NodeTypeLight::Fan,
            NodeType::Temp(_) => NodeTypeLight::Temp,
            NodeType::CustomTemp(_) => NodeTypeLight::CustomTemp,
            NodeType::Graph(_) => NodeTypeLight::Graph,
            NodeType::Flat(_) => NodeTypeLight::Flat,
            NodeType::Linear(_) => NodeTypeLight::Linear,
            NodeType::Target(_) => NodeTypeLight::Target,
        }
    }

    pub fn name(&self) -> (r: &String)
        ensures
            r@ == self.name_view(),
    {
        match self {
            NodeType::Control(i) => &i.name,
            NodeType::Fan(i) => &i.name,
            NodeType::Temp(i) => &i.name,
            NodeType::CustomTemp(i) => &i.name,
            NodeType::Graph(i) => &i.name,
            NodeType::Flat(i) => &i.name,
            NodeType::Linear(i) => &i.name,
            NodeType::Target(i) => &i.name,
        }
    }
}

/// The views of resolved inputs.
pub open spec fn inputs_view(s: Seq<(Id, String)>) -> Seq<(Id, Seq<char>)> {
    s.map_values(|p: (Id, String)| (p.0, p.1@))
}

impl Node {
    pub open spec fn light(&self) -> NodeTypeLight {
        self.node_type.light()
    }

    pub open spec fn name_view(&self) -> Seq<char> {
        self.node_type.name_view()
    }

    /// A node as creation leaves it: identifier `id`, no value yet, the cached
    /// name in step with the payload, no name conflict flagged.
    pub open spec fn fresh(&self, id: Id) -> bool {
        &&& self.id == id
        &&& self.value is None
        &&& self.name_cached@ == self.name_view()
        &&& !self.is_error_name
    }

    /// Creates a node with the next identifier.
    pub fn new(id_generator: &mut IdGenerator, node_type: NodeType, inputs: Vec<(Id, String)>) -> (r:
        Node)
        requires
            old(id_generator).next < u64::MAX,
        ensures
            final(id_generator).next == old(id_generator).next + 1,
            r.fresh(old(id_generator).next),
            r.node_type == node_type,
            r.inputs == inputs,
    {
        let name_cached = node_type.name().clone();
        Node {
            id: id_generator.new_id(),
            node_type,
            inputs,
            value: None,
            name_cached,
            is_error_name: false,
        }
    }

    pub fn name(&self) -> (r: &String)
        ensures
            r@ == self.name_view(),
    {
        self.node_type.name()
    }

    /// The stored hardware identifier, for the kinds bound to hardware.
    pub fn hardware_id(&self) -> (r: Result<&Option<String>, ()>)
        ensures
            match self.node_type {
                NodeType::Control(i) => r == Ok::<&Option<String>, ()>(&i.hardware_id),
                NodeType::Fan(i) => r == Ok::<&Option<String>, ()>(&i.hardware_id),
                NodeType::Temp(i) => r == Ok::<&Option<String>, ()>(&i.hardware_id),
                _ => r is Err,
            },
    {
        match &self.node_type {
            NodeType::Control(i) => Ok(&i.hardware_id),
            NodeType::Fan(i) => Ok(&i.hardware_id),
            NodeType::Temp(i) => Ok(&i.hardware_id),
            _ => Err(()),
        }
    }
}

impl IsValid for Node {
    open spec fn valid(&self) -> bool {
        match self.node_type {
            NodeType::Control(i) => i.valid(),
            NodeType::Fan(i) => i.valid(),
            NodeType::Temp(i) => i.valid(),
            NodeType::CustomTemp(i) => i.valid(),
            NodeType::Graph(i) => i.valid(),
            NodeType::Flat(i) => i.valid(),
            NodeType::Linear(i) => i.valid(),
            NodeType::Target(i) => i.valid(),
        }
    }

    fn is_valid(&self) -> (r: bool) {
        match &self.node_type {
            NodeType::Control(i) => i.is_valid(),
            NodeType::Fan(i) => i.is_valid(),
            NodeType::Temp(i) => i.is_valid(),
            NodeType::CustomTemp(i) => i.is_valid(),
            NodeType::Graph(i) => i.is_valid(),
            NodeType::Flat(i) => i.is_valid(),
            NodeType::Linear(i) => i.is_valid(),
            NodeType::Target(i) => i.is_valid(),
        }
    }
}

/// Position of the first node at or after `from` whose name is `name`, or -1.
pub open spec fn first_named(nodes: Seq<Node>, name: Seq<char>, from: int) -> int
    decreases nodes.len() - from,
{
    if from < 0 || from >= nodes.len() {
        -1
    } else if nodes[from].name_view() == name {
        from
    } else {
        first_named(nodes, name, from + 1)
    }
}

pub proof fn lemma_first_named(nodes: Seq<Node>, name: Seq<char>, from: int)
    requires
        0 <= from,
    ensures
        first_named(nodes, name, from) == -1 || (from <= first_named(nodes, name, from)
            < nodes.len() && nodes[first_named(nodes, name, from)].name_view() == name),
    decreases nodes.len() - from,
{
    if from < nodes.len() && nodes[from].name_view() != name {
        lemma_first_named(nodes, name, from + 1);
    }
}

/// Whether `name` names a node of `nodes` that a node of kind `kind` may
/// depend on (the first node so named decides).
pub open spec fn resolvable(nodes: Seq<Node>, name: Seq<char>, kind: NodeTypeLight) -> bool {
    let p = first_named(nodes, name, 0);
    p >= 0 && may_depend(kind, nodes[p].light())
}

/// Whether the declared `names` of a node of kind `kind` survive
/// sanitization against `nodes`: they fit the arity and all resolve to
/// allowed kinds.
pub open spec fn accepted(nodes: Seq<Node>, names: Seq<Seq<char>>, kind: NodeTypeLight) -> bool {
    &&& within_arity(arity_of(kind), names.len() as int)
    &&& forall|k: int| 0 <= k < names.len() ==> resolvable(nodes, #[trigger] names[k], kind)
}

/// The resolution of each name to the first node bearing it.
pub open spec fn resolved(nodes: Seq<Node>, names: Seq<Seq<char>>) -> Seq<(Id, Seq<char>)> {
    Seq::new(names.len(), |k: int| (nodes[first_named(nodes, names[k], 0)].id, names[k]))
}

/// The resolved inputs that sanitization yields.
pub open spec fn sanitized_inputs(
    nodes: Seq<Node>,
    names: Seq<Seq<char>>,
    kind: NodeTypeLight,
) -> Seq<(Id, Seq<char>)> {
    if accepted(nodes, names, kind) {
        resolved(nodes, names)
    } else {
        Seq::empty()
    }
}

/// Whether `after` is what sanitization leaves of the payload `before`: the
/// payload itself when its inputs are accepted, else the payload with all of
/// its inputs removed.
pub open spec fn sanitized<I: Inputs>(
    nodes: Seq<Node>,
    before: I,
    after: I,
    kind: NodeTypeLight,
) -> bool {
    if accepted(nodes, before.input_names(), kind) {
        after == before
    } else {
        after.cleared_from(before)
    }
}

/// Whether some node of `nodes` has identifier `id` and a kind that a node of
/// kind `kind` may depend on.
pub open spec fn refers_allowed(nodes: Seq<Node>, id: Id, kind: NodeTypeLight) -> bool {
    exists|p: int| 0 <= p < nodes.len() && nodes[p].id == id && may_depend(kind, nodes[p].light())
}

/// Finds the first node of `nodes` whose name is `name`.
fn find_by_name(nodes: &Vec<Node>, name: &String) -> (r: Option<usize>)
    ensures
        r is Some <==> first_named(nodes@, name@, 0) >= 0,
        r matches Some(p) ==> p == first_named(nodes@, name@, 0) && p < nodes@.len(),
{
    let mut i: usize = 0;
    while i < nodes.len()
        invariant
            0 <= i <= nodes@.len(),
            first_named(nodes@, name@, 0) == first_named(nodes@, name@, i as int),
        decreases nodes@.len() - i,
    {
        if nodes[i].name().eq(name) {
            return Some(i);
        }
        i = i + 1;
    }
    None
}

/// Validates the declared inputs of `item`, a payload of kind `node_type`,
/// and resolves them against `nodes`.
///
/// All or nothing: on an arity violation, a name that no node bears, or a
/// name whose node is of a kind that `node_type` may not depend on, every
/// declared input is removed from `item` and nothing is resolved.
pub fn sanitize_inputs<I: Inputs>(item: &mut I, nodes: &Vec<Node>, node_type: NodeTypeLight) -> (r:
    Vec<(Id, String)>)
    ensures
        sanitized(nodes@, *old(item), *final(item), node_type),
        inputs_view(r@) == sanitized_inputs(nodes@, old(item).input_names(), node_type),
        within_arity(arity_of(node_type), r@.len() as int),
        within_arity(arity_of(node_type), final(item).input_names().len() as int),
        forall|k: int| 0 <= k < r@.len() ==> refers_allowed(nodes@, #[trigger] r@[k].0, node_type),
{
    let ghost names = old(item).input_names();
    let ghost before = *old(item);
    let mut inputs: Vec<(Id, String)> = Vec::new();
    let declared = item.get_inputs();
    match node_type.max_input() {
        NbInput::Zero => {
            if declared.len() != 0 {
                item.clear_inputs();
                proof {
                    item.lemma_cleared(before);
                }
            }
            assert(inputs_view(inputs@) =~= sanitized_inputs(nodes@, names, node_type));
            return inputs;
        },
        NbInput::One => {
            if declared.len() > 1 {
                item.clear_inputs();
                proof {
                    item.lemma_cleared(before);
                }
                assert(inputs_view(inputs@) =~= sanitized_inputs(nodes@, names, node_type));
                return inputs;
            }
        },
        NbInput::Infinity => {},
    }
    let mut i: usize = 0;
    while i < declared.len()
        invariant
            strings_view(declared@) == names,
            names == before.input_names(),
            before == *old(item),
            *item == before,
            within_arity(arity_of(node_type), names.len() as int),
            i <= declared@.len(),
            inputs@.len() == i,
            inputs_view(inputs@) =~= resolved(nodes@, names.subrange(0, i as int)),
            forall|k: int| 0 <= k < i ==> resolvable(nodes@, #[trigger] names[k], node_type),
        decreases declared@.len() - i,
    {
        let ghost old_inputs = inputs@;
        let name = &declared[i];
        assert(names[i as int] == name@);
        match find_by_name(nodes, name) {
            Some(p) => {
                let dep = nodes[p].node_type.to_light();
                if !node_type.allows(dep) {
                    assert(!resolvable(nodes@, names[i as int], node_type));
                    assert(!accepted(nodes@, names, node_type));
                    item.clear_inputs();
                    proof {
                        item.lemma_cleared(before);
                    }
                    let empty: Vec<(Id, String)> = Vec::new();
                    assert(inputs_view(empty@) =~= sanitized_inputs(nodes@, names, node_type));
                    return empty;
                }
                inputs.push((nodes[p].id, name.clone()));
                assert(inputs@ == old_inputs.push((nodes@[p as int].id, *name)));
            },
            None => {
                assert(!resolvable(nodes@, names[i as int], node_type));
                assert(!accepted(nodes@, names, node_type));
                item.clear_inputs();
                proof {
                    item.lemma_cleared(before);
                }
                let empty: Vec<(Id, String)> = Vec::new();
                assert(inputs_view(empty@) =~= sanitized_inputs(nodes@, names, node_type));
                return empty;
            },
        }
        i = i + 1;
        proof {
            let cur = names.subrange(0, i as int);
            let prev = names.subrange(0, i - 1);
            assert forall|k: int| 0 <= k < i implies inputs_view(inputs@)[k] == resolved(
                nodes@,
                cur,
            )[k] by {
                if k < i - 1 {
                    assert(cur[k] == prev[k]);
                    assert(inputs@[k] == old_inputs[k]);
                    assert(inputs_view(old_inputs)[k] == resolved(nodes@, prev)[k]);
                }
            }
        }
        assert(inputs_view(inputs@) =~= resolved(nodes@, names.subrange(0, i as int)));
    }
    assert(names.subrange(0, i as int) =~= names);
    assert(accepted(nodes@, names, node_type));
    proof {
        assert forall|k: int| 0 <= k < inputs@.len() implies refers_allowed(
            nodes@,
            #[trigger] inputs@[k].0,
            node_type,
        ) by {
            let p = first_named(nodes@, names[k], 0);
            lemma_first_named(nodes@, names[k], 0);
            assert(resolvable(nodes@, names[k], node_type));
            assert(inputs_view(inputs@)[k] == resolved(nodes@, names)[k]);
            assert(nodes@[p].id == inputs@[k].0);
        }
    }
    inputs
}

/// Sanitizing a payload that sanitization already produced changes nothing:
/// its inputs are accepted as they stand, the payload stays as it is, and
/// they resolve to what the first pass returned.
pub proof fn lemma_sanitize_idempotent<I: Inputs>(
    nodes: Seq<Node>,
    before: I,
    after: I,
    kind: NodeTypeLight,
)
    requires
        sanitized(nodes, before, after, kind),
    ensures
        accepted(nodes, after.input_names(), kind),
        forall|again: I| #[trigger] sanitized(nodes, after, again, kind) ==> again == after,
        sanitized_inputs(nodes, after.input_names(), kind) == sanitized_inputs(
            nodes,
            before.input_names(),
            kind,
        ),
{
    if !accepted(nodes, before.input_names(), kind) {
        after.lemma_cleared(before);
        assert(within_arity(arity_of(kind), 0));
        assert(resolved(nodes, after.input_names()) =~= Seq::empty());
    }
}

/// What sanitization resolves fits the arity and names only nodes of kinds
/// the depending kind allows.
pub proof fn lemma_sanitized_inputs_ok(nodes: Seq<Node>, names: Seq<Seq<char>>, kind: NodeTypeLight)
    ensures
        within_arity(arity_of(kind), sanitized_inputs(nodes, names, kind).len() as int),
        forall|k: int|
            0 <= k < sanitized_inputs(nodes, names, kind).len() ==> refers_allowed(
                nodes,
                #[trigger] sanitized_inputs(nodes, names, kind)[k].0,
                kind,
            ),
{
    if accepted(nodes, names, kind) {
        assert forall|k: int|
            0 <= k < sanitized_inputs(nodes, names, kind).len() implies refers_allowed(
            nodes,
            #[trigger] sanitized_inputs(nodes, names, kind)[k].0,
            kind,
        ) by {
            assert(resolvable(nodes, names[k], kind));
            lemma_first_named(nodes, names[k], 0);
        }
    } else {
        assert(within_arity(arity_of(kind), 0));
    }
}

/// Whether `name` may be given to the node `id`: it is non-empty and no
/// other node bears it.
pub open spec fn name_available(nodes: Seq<Node>, id: Id, name: Seq<char>) -> bool {
    name.len() > 0 && forall|k: int|
        0 <= k < nodes.len() && #[trigger] nodes[k].id != id ==> nodes[k].name_view() != name
}

pub fn validate_name(nodes: &Vec<Node>, id: &Id, name: &String) -> (r: bool)
    ensures
        r == name_available(nodes@, *id, name@),
{
    if name.as_str().is_empty() {
        return false;
    }
    let mut i: usize = 0;
    while i < nodes.len()
        invariant
            i <= nodes@.len(),
            name@.len() > 0,
            forall|k: int|
                0 <= k < i && #[trigger] nodes@[k].id != *id ==> nodes@[k].name_view() != name@,
        decreases nodes@.len() - i,
    {
        if nodes[i].name().eq(name) && nodes[i].id != *id {
            return false;
        }
        i = i + 1;
    }
    true
}

} // verus!
