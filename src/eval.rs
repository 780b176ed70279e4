//! One evaluation pass: node values bottom-up in table order, then the
//! commands for the hardware bridge.
use vstd::prelude::*;
use crate::config::{Control, IsValid};
use crate::curve::{aggregate, aggregate_values, curve, curve_value, ramp, ramp_value};
use crate::config::CustomTempKind;
use crate::graph::AppGraph;
use crate::id::Id;
use crate::node::{Node, NodeType, Value};

verus! {

/// Sensor readings of one cycle, by hardware index; `None` where a read
/// failed.
#[derive(Debug)]
pub struct Readings {
    pub temps: Vec<Option<Value>>,
    pub fans: Vec<Option<Value>>,
}

/// A write for the hardware bridge.
#[derive(Debug, Clone, Copy, PartialEq, Eq, Structural)]
pub enum HardwareCommand {
    /// Write `value` to the register at `index`.
    SetValue { index: usize, value: Value },
    /// Switch manual control at `index` on or off.
    SetEnabled { index: usize, enabled: bool },
}

/// Why a control produced no command.
#[derive(Debug, Clone, Copy, PartialEq, Eq, Structural)]
pub enum UpdateError {
    NodeIsInvalid,
}

impl Control {
    /// The command that drives this control to `value`.
    pub open spec fn command(self, value: Value) -> Option<HardwareCommand> {
        if self.valid() {
            Some(HardwareCommand::SetValue { index: self.control_h->0.io, value })
        } else {
            None
        }
    }

    /// The write that drives this control to `value`; refused when the
    /// control is not valid.
    pub fn update(&self, value: Value) -> (r: Result<HardwareCommand, UpdateError>)
        ensures
            self.valid() ==> r == Ok::<HardwareCommand, UpdateError>(self.command(value)->0),
            !self.valid() ==> r == Err::<HardwareCommand, UpdateError>(UpdateError::NodeIsInvalid),
    {
        if !self.is_valid() {
            return Err(UpdateError::NodeIsInvalid);
        }
        match self.control_h {
            Some(h) => Ok(HardwareCommand::SetValue { index: h.io, value }),
            None => Err(UpdateError::NodeIsInvalid),
        }
    }

    /// The write that hands this control to the hardware (`auto`) or takes
    /// it over; refused when no hardware is bound.
    pub fn enable(&self, auto: bool) -> (r: Result<HardwareCommand, UpdateError>)
        ensures
            match self.control_h {
                Some(h) => r == Ok::<HardwareCommand, UpdateError>(
                    HardwareCommand::SetEnabled { index: h.enable, enabled: !auto },
                ),
                None => r == Err::<HardwareCommand, UpdateError>(UpdateError::NodeIsInvalid),
            },
    {
        match self.control_h {
            Some(h) => Ok(HardwareCommand::SetEnabled { index: h.enable, enabled: !auto }),
            None => Err(UpdateError::NodeIsInvalid),
        }
    }
}

/// The reading at a bound hardware index; `None` when unbound or unread.
pub open spec fn reading(s: Seq<Option<Value>>, h: Option<usize>) -> Option<Value> {
    match h {
        Some(i) => if i < s.len() {
            s[i as int]
        } else {
            None
        },
        None => None,
    }
}

/// Position of the first node at or after `from` with identifier `id`, or -1.
pub open spec fn first_id(nodes: Seq<Node>, id: Id, from: int) -> int
    decreases nodes.len() - from,
{
    if from < 0 || from >= nodes.len() {
        -1
    } else if nodes[from].id == id {
        from
    } else {
        first_id(nodes, id, from + 1)
    }
}

/// The value that the node at position `i` reads from its input `id`, given
/// the values `vals` of the nodes before it.
pub open spec fn input_value(nodes: Seq<Node>, vals: Seq<Option<Value>>, i: int, id: Id) -> Option<
    Value,
> {
    let p = first_id(nodes, id, 0);
    if 0 <= p < i && p < vals.len() {
        vals[p]
    } else {
        None
    }
}

/// The values of all inputs of the node at position `i`.
pub open spec fn input_values(nodes: Seq<Node>, vals: Seq<Option<Value>>, i: int) -> Seq<
    Option<Value>,
> {
    Seq::new(nodes[i].inputs@.len(), |k: int| input_value(nodes, vals, i, nodes[i].inputs@[k].0))
}

/// The value of the single input of the node at position `i`.
pub open spec fn single_value(nodes: Seq<Node>, vals: Seq<Option<Value>>, i: int) -> Option<Value> {
    if nodes[i].inputs@.len() == 1 {
        input_value(nodes, vals, i, nodes[i].inputs@[0].0)
    } else {
        None
    }
}

/// An aggregate over input values: `None` when there is none or one is
/// missing.
pub open spec fn custom_value(kind: CustomTempKind, ins: Seq<Option<Value>>) -> Option<Value> {
    if ins.len() > 0 && forall|k: int| 0 <= k < ins.len() ==> (#[trigger] ins[k]) is Some {
        Some(aggregate(kind, Seq::new(ins.len(), |k: int| ins[k]->0)) as Value)
    } else {
        None
    }
}

/// The value of the node at position `i` of `nodes`, given the values `vals`
/// of the nodes before it and this cycle's readings.
pub open spec fn node_value(nodes: Seq<Node>, vals: Seq<Option<Value>>, i: int, r: Readings) -> Option<
    Value,
> {
    match nodes[i].node_type {
        NodeType::Temp(t) => reading(r.temps@, t.hardware_index),
        NodeType::Fan(f) => reading(r.fans@, f.hardware_index),
        NodeType::Flat(f) => Some(f.value as Value),
        NodeType::CustomTemp(c) => custom_value(c.kind, input_values(nodes, vals, i)),
        NodeType::Linear(l) => match single_value(nodes, vals, i) {
            Some(x) => Some(ramp(l.min, l.max, x as int) as Value),
            None => None,
        },
        NodeType::Target(t) => match single_value(nodes, vals, i) {
            Some(x) => Some(ramp(t.idle, t.load, x as int) as Value),
            None => None,
        },
        NodeType::Graph(g) => match single_value(nodes, vals, i) {
            Some(x) => if g.coords@.len() > 0 {
                Some(curve(g.coords@, x as int) as Value)
            } else {
                None
            },
            None => None,
        },
        NodeType::Control(_) => single_value(nodes, vals, i),
    }
}

/// The values of the first `n` nodes, each computed after all before it.
pub open spec fn eval_all(nodes: Seq<Node>, r: Readings, n: int) -> Seq<Option<Value>>
    decreases n,
{
    if n <= 0 {
        Seq::empty()
    } else {
        let prev = eval_all(nodes, r, n - 1);
        prev.push(node_value(nodes, prev, n - 1, r))
    }
}

/// The command for the root `id`: its control driven to its value, when the
/// control is valid and has a value.
pub open spec fn command_for(nodes: Seq<Node>, vals: Seq<Option<Value>>, id: Id) -> Option<
    HardwareCommand,
> {
    let p = first_id(nodes, id, 0);
    if 0 <= p < nodes.len() && p < vals.len() {
        match (nodes[p].node_type, vals[p]) {
            (NodeType::Control(c), Some(v)) => c.command(v),
            _ => None,
        }
    } else {
        None
    }
}

/// The commands for `roots`, in order, skipping those that have none.
pub open spec fn commands(nodes: Seq<Node>, vals: Seq<Option<Value>>, roots: Seq<Id>) -> Seq<
    HardwareCommand,
>
    decreases roots.len(),
{
    if roots.len() == 0 {
        Seq::empty()
    } else {
        let prev = commands(nodes, vals, roots.drop_last());
        match command_for(nodes, vals, roots.last()) {
            Some(c) => prev.push(c),
            None => prev,
        }
    }
}

/// The commands that one evaluation pass of `g` issues.
pub open spec fn graph_commands(g: AppGraph, r: Readings) -> Seq<HardwareCommand> {
    commands(g.nodes@, eval_all(g.nodes@, r, g.nodes@.len() as int), g.root_nodes@)
}

/// Whether two tables differ at most in the nodes' stored values and names'
/// display state.
pub open spec fn same_shape(a: Seq<Node>, b: Seq<Node>) -> bool {
    &&& a.len() == b.len()
    &&& forall|i: int|
        0 <= i < a.len() ==> (#[trigger] a[i]).id == b[i].id && a[i].node_type == b[i].node_type
            && a[i].inputs == b[i].inputs
}

/// Finds the first node before position `bound` with identifier `id`.
pub(crate) fn find_id(nodes: &Vec<Node>, id: Id, bound: usize) -> (r: Option<usize>)
    requires
        bound <= nodes@.len(),
    ensures
        r is Some <==> 0 <= first_id(nodes@, id, 0) < bound,
        r matches Some(p) ==> p == first_id(nodes@, id, 0),
{
    let mut j: usize = 0;
    while j < bound
        invariant
            j <= bound <= nodes@.len(),
            first_id(nodes@, id, 0) == first_id(nodes@, id, j as int),
        decreases bound - j,
    {
        if nodes[j].id == id {
            return Some(j);
        }
        j = j + 1;
    }
    proof {
        lemma_first_id_from(nodes@, id, j as int);
    }
    None
}

pub(crate) proof fn lemma_first_id_from(nodes: Seq<Node>, id: Id, from: int)
    requires
        0 <= from,
    ensures
        first_id(nodes, id, from) == -1 || (from <= first_id(nodes, id, from) < nodes.len()
            && nodes[first_id(nodes, id, from)].id == id),
    decreases nodes.len() - from,
{
    if from < nodes.len() && nodes[from].id != id {
        lemma_first_id_from(nodes, id, from + 1);
    }
}

fn input_value_of(nodes: &Vec<Node>, vals: &Vec<Option<Value>>, i: usize, id: Id) -> (r: Option<
    Value,
>)
    requires
        i < nodes@.len(),
        vals@.len() == i,
    ensures
        r == input_value(nodes@, vals@, i as int, id),
{
    match find_id(nodes, id, i) {
        Some(p) => vals[p],
        None => None,
    }
}

fn single_value_of(nodes: &Vec<Node>, vals: &Vec<Option<Value>>, i: usize) -> (r: Option<Value>)
    requires
        i < nodes@.len(),
        vals@.len() == i,
    ensures
        r == single_value(nodes@, vals@, i as int),
{
    if nodes[i].inputs.len() == 1 {
        input_value_of(nodes, vals, i, nodes[i].inputs[0].0)
    } else {
        None
    }
}

fn custom_value_of(
    nodes: &Vec<Node>,
    vals: &Vec<Option<Value>>,
    i: usize,
    kind: CustomTempKind,
) -> (r: Option<Value>)
    requires
        i < nodes@.len(),
        vals@.len() == i,
    ensures
        r == custom_value(kind, input_values(nodes@, vals@, i as int)),
{
    let ghost ins = input_values(nodes@, vals@, i as int);
    let n = nodes[i].inputs.len();
    if n == 0 {
        return None;
    }
    let mut got: Vec<Value> = Vec::new();
    let mut k: usize = 0;
    while k < n
        invariant
            i < nodes@.len(),
            vals@.len() == i,
            n == nodes@[i as int].inputs@.len(),
            ins == input_values(nodes@, vals@, i as int),
            k <= n,
            got@.len() == k,
            forall|j: int| 0 <= j < k ==> ins[j] == Some(#[trigger] got@[j]),
        decreases n - k,
    {
        match input_value_of(nodes, vals, i, nodes[i].inputs[k].0) {
            Some(v) => got.push(v),
            None => {
                assert(ins[k as int] is None);
                return None;
            },
        }
        k = k + 1;
    }
    assert(got@ =~= Seq::new(ins.len(), |j: int| ins[j]->0));
    assert forall|j: int| 0 <= j < ins.len() implies (#[trigger] ins[j]) is Some by {
        assert(ins[j] == Some(got@[j]));
    }
    let a = aggregate_values(kind, &got);
    assert(aggregate(kind, got@) as Value == a);
    Some(a)
}

/// The value of the node at position `i`, given the values of those before.
fn node_value_of(nodes: &Vec<Node>, vals: &Vec<Option<Value>>, i: usize, readings: &Readings) -> (r:
    Option<Value>)
    requires
        i < nodes@.len(),
        vals@.len() == i,
    ensures
        r == node_value(nodes@, vals@, i as int, *readings),
{
    match &nodes[i].node_type {
        NodeType::Temp(t) => match t.hardware_index {
            Some(h) => if h < readings.temps.len() {
                readings.temps[h]
            } else {
                None
            },
            None => None,
        },
        NodeType::Fan(f) => match f.hardware_index {
            Some(h) => if h < readings.fans.len() {
                readings.fans[h]
            } else {
                None
            },
            None => None,
        },
        NodeType::Flat(f) => Some(f.value as Value),
        NodeType::CustomTemp(c) => custom_value_of(nodes, vals, i, c.kind),
        NodeType::Linear(l) => match single_value_of(nodes, vals, i) {
            Some(x) => Some(ramp_value(l.min, l.max, x)),
            None => None,
        },
        NodeType::Target(t) => match single_value_of(nodes, vals, i) {
            Some(x) => Some(ramp_value(t.idle, t.load, x)),
            None => None,
        },
        NodeType::Graph(g) => match single_value_of(nodes, vals, i) {
            Some(x) => curve_value(&g.coords, x),
            None => None,
        },
        NodeType::Control(_) => single_value_of(nodes, vals, i),
    }
}

} // verus!

verus! {

proof fn lemma_eval_all_len(nodes: Seq<Node>, r: Readings, n: int)
    requires
        0 <= n,
    ensures
        eval_all(nodes, r, n).len() == n,
    decreases n,
{
    if n > 0 {
        lemma_eval_all_len(nodes, r, n - 1);
    }
}

impl AppGraph {
    /// One evaluation pass: computes every node's value from this cycle's
    /// readings, in table order (inputs always come earlier), stores them,
    /// and returns the writes for the roots whose control is valid and has a
    /// value, in root order. A missing value propagates as `None`.
    pub fn evaluate(&mut self, readings: &Readings) -> (r: Vec<HardwareCommand>)
        ensures
            same_shape(old(self).nodes@, final(self).nodes@),
            final(self).root_nodes == old(self).root_nodes,
            final(self).id_generator == old(self).id_generator,
            forall|i: int|
                0 <= i < final(self).nodes@.len() ==> (#[trigger] final(self).nodes@[i]).value
                    == eval_all(old(self).nodes@, *readings, old(self).nodes@.len() as int)[i],
            r@ == graph_commands(*old(self), *readings),
    {
        let n = self.nodes.len();
        let mut vals: Vec<Option<Value>> = Vec::new();
        let mut i: usize = 0;
        while i < n
            invariant
                n == self.nodes@.len(),
                *self == *old(self),
                i <= n,
                vals@ == eval_all(self.nodes@, *readings, i as int),
                vals@.len() == i,
            decreases n - i,
        {
            let v = node_value_of(&self.nodes, &vals, i, readings);
            vals.push(v);
            i = i + 1;
        }
        let mut out: Vec<HardwareCommand> = Vec::new();
        let mut k: usize = 0;
        while k < self.root_nodes.len()
            invariant
                n == self.nodes@.len(),
                *self == *old(self),
                vals@ == eval_all(self.nodes@, *readings, n as int),
                vals@.len() == n,
                k <= self.root_nodes@.len(),
                out@ == commands(self.nodes@, vals@, self.root_nodes@.subrange(0, k as int)),
            decreases self.root_nodes@.len() - k,
        {
            let id = self.root_nodes[k];
            let ghost roots = self.root_nodes@;
            assert(roots.subrange(0, k + 1).drop_last() =~= roots.subrange(0, k as int));
            match find_id(&self.nodes, id, n) {
                Some(p) => {
                    match &self.nodes[p].node_type {
                        NodeType::Control(c) => {
                            match vals[p] {
                                Some(v) => {
                                    match c.update(v) {
                                        Ok(cmd) => {
                                            out.push(cmd);
                                        },
                                        Err(_) => {},
                                    }
                                },
                                None => {},
                            }
                        },
                        _ => {},
                    }
                },
                None => {
                    proof {
                        lemma_first_id_from(self.nodes@, id, 0);
                    }
                },
            }
            k = k + 1;
        }
        assert(self.root_nodes@.subrange(0, k as int) =~= self.root_nodes@);
        let ghost before = self.nodes@;
        let mut j: usize = 0;
        while j < n
            invariant
                n == self.nodes@.len(),
                self.root_nodes == old(self).root_nodes,
                self.id_generator == old(self).id_generator,
                before == old(self).nodes@,
                vals@ == eval_all(before, *readings, n as int),
                out@ == graph_commands(*old(self), *readings),
                vals@.len() == n,
                j <= n,
                same_shape(before, self.nodes@),
                forall|i: int| 0 <= i < j ==> (#[trigger] self.nodes@[i]).value == vals@[i],
            decreases n - j,
        {
            self.nodes[j].value = vals[j];
            j = j + 1;
        }
        out
    }
}

proof fn lemma_first_id_shape(a: Seq<Node>, b: Seq<Node>, id: Id, from: int)
    requires
        same_shape(a, b),
    ensures
        first_id(a, id, from) == first_id(b, id, from),
    decreases a.len() - from,
{
    if 0 <= from < a.len() {
        assert(a[from].id == b[from].id);
        lemma_first_id_shape(a, b, id, from + 1);
    }
}

proof fn lemma_eval_all_shape(a: Seq<Node>, b: Seq<Node>, r: Readings, n: int)
    requires
        same_shape(a, b),
        n <= a.len(),
    ensures
        eval_all(a, r, n) == eval_all(b, r, n),
    decreases n,
{
    if n > 0 {
        lemma_eval_all_shape(a, b, r, n - 1);
        let vals = eval_all(a, r, n - 1);
        let i = n - 1;
        assert(a[i].node_type == b[i].node_type && a[i].inputs == b[i].inputs);
        assert forall|id: Id| input_value(a, vals, i, id) == input_value(b, vals, i, id) by {
            lemma_first_id_shape(a, b, id, 0);
        }
        assert(input_values(a, vals, i) =~= input_values(b, vals, i));
        assert(node_value(a, vals, i, r) == node_value(b, vals, i, r));
    }
}

proof fn lemma_commands_shape(a: Seq<Node>, b: Seq<Node>, vals: Seq<Option<Value>>, roots: Seq<Id>)
    requires
        same_shape(a, b),
    ensures
        commands(a, vals, roots) == commands(b, vals, roots),
    decreases roots.len(),
{
    if roots.len() > 0 {
        lemma_commands_shape(a, b, vals, roots.drop_last());
        lemma_first_id_shape(a, b, roots.last(), 0);
        let p = first_id(a, roots.last(), 0);
        if 0 <= p < a.len() {
            assert(a[p].node_type == b[p].node_type);
        }
    }
}

/// Evaluation is deterministic: two graphs that differ only in stored values
/// and name display state (as a graph before and after an evaluation pass
/// does) issue the same commands for the same readings, so two passes over
/// one graph with fixed sensor inputs produce identical control outputs.
pub proof fn lemma_evaluation_deterministic(g1: AppGraph, g2: AppGraph, r: Readings)
    requires
        same_shape(g1.nodes@, g2.nodes@),
        g1.root_nodes@ == g2.root_nodes@,
    ensures
        graph_commands(g1, r) == graph_commands(g2, r),
        eval_all(g1.nodes@, r, g1.nodes@.len() as int) == eval_all(
            g2.nodes@,
            r,
            g2.nodes@.len() as int,
        ),
{
    lemma_eval_all_shape(g1.nodes@, g2.nodes@, r, g1.nodes@.len() as int);
    lemma_commands_shape(
        g1.nodes@,
        g2.nodes@,
        eval_all(g1.nodes@, r, g1.nodes@.len() as int),
        g1.root_nodes@,
    );
}

} // verus!
