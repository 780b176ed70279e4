//! Turning configuration entries into nodes: hardware binding, then input
//! sanitization against the nodes built so far.
use vstd::prelude::*;
use crate::catalog::NodeTypeLight;
use crate::config::{Control, CustomTemp, Fan, Flat, Graph, Inputs, Linear, Target, Temp};
use crate::hardware::{
    kept_id, lemma_reconcile_round_trip, opt_view, present, reconcile, reconciled, ControlH, FanH,
    Hardware, TempH,
};
use crate::id::IdGenerator;
use crate::node::{inputs_view, sanitize_inputs, sanitized, sanitized_inputs, Node, NodeType};

verus! {

impl Control {
    /// This payload bound to the controls of a snapshot.
    pub open spec fn bound(self, hs: Seq<ControlH>) -> Control {
        Control {
            hardware_id: kept_id(hs, self.hardware_id),
            control_h: reconciled(hs, opt_view(self.hardware_id)).1,
            ..self
        }
    }

    pub fn to_node(self, id_generator: &mut IdGenerator, nodes: &Vec<Node>, hardware: &Hardware) -> (r:
        Node)
        requires
            old(id_generator).next < u64::MAX,
        ensures
            final(id_generator).next == old(id_generator).next + 1,
            r.fresh(old(id_generator).next),
            r.node_type matches NodeType::Control(c) && sanitized(
                nodes@,
                self.bound(hardware.controls@),
                c,
                NodeTypeLight::Control,
            ),
            inputs_view(r.inputs@) == sanitized_inputs(
                nodes@,
                self.input_names(),
                NodeTypeLight::Control,
            ),
    {
        let mut item = self;
        reconcile(&hardware.controls, &mut item.hardware_id, &mut item.control_h);
        let inputs = sanitize_inputs(&mut item, nodes, NodeTypeLight::Control);
        Node::new(id_generator, NodeType::Control(item), inputs)
    }
}

impl Fan {
    /// This payload bound to the fans of a snapshot.
    pub open spec fn bound(self, hs: Seq<FanH>) -> Fan {
        Fan {
            hardware_id: kept_id(hs, self.hardware_id),
            hardware_index: reconciled(hs, opt_view(self.hardware_id)).1,
            ..self
        }
    }

    pub fn to_node(self, id_generator: &mut IdGenerator, hardware: &Hardware) -> (r: Node)
        requires
            old(id_generator).next < u64::MAX,
        ensures
            final(id_generator).next == old(id_generator).next + 1,
            r.fresh(old(id_generator).next),
            r.node_type == NodeType::Fan(self.bound(hardware.fans@)),
            r.inputs@.len() == 0,
    {
        let mut item = self;
        reconcile(&hardware.fans, &mut item.hardware_id, &mut item.hardware_index);
        Node::new(id_generator, NodeType::Fan(item), Vec::new())
    }
}

impl Temp {
    /// This payload bound to the temperature sensors of a snapshot.
    pub open spec fn bound(self, hs: Seq<TempH>) -> Temp {
        Temp {
            hardware_id: kept_id(hs, self.hardware_id),
            hardware_index: reconciled(hs, opt_view(self.hardware_id)).1,
            ..self
        }
    }

    pub fn to_node(self, id_generator: &mut IdGenerator, hardware: &Hardware) -> (r: Node)
        requires
            old(id_generator).next < u64::MAX,
        ensures
            final(id_generator).next == old(id_generator).next + 1,
            r.fresh(old(id_generator).next),
            r.node_type == NodeType::Temp(self.bound(hardware.temps@)),
            r.inputs@.len() == 0,
    {
        let mut item = self;
        reconcile(&hardware.temps, &mut item.hardware_id, &mut item.hardware_index);
        Node::new(id_generator, NodeType::Temp(item), Vec::new())
    }
}

impl CustomTemp {
    pub fn to_node(self, id_generator: &mut IdGenerator, nodes: &Vec<Node>) -> (r: Node)
        requires
            old(id_generator).next < u64::MAX,
        ensures
            final(id_generator).next == old(id_generator).next + 1,
            r.fresh(old(id_generator).next),
            r.node_type matches NodeType::CustomTemp(c) && sanitized(
                nodes@,
                self,
                c,
                NodeTypeLight::CustomTemp,
            ),
            inputs_view(r.inputs@) == sanitized_inputs(
                nodes@,
                self.input_names(),
                NodeTypeLight::CustomTemp,
            ),
    {
        let mut item = self;
        let inputs = sanitize_inputs(&mut item, nodes, NodeTypeLight::CustomTemp);
        Node::new(id_generator, NodeType::CustomTemp(item), inputs)
    }
}

impl Flat {
    pub fn to_node(self, id_generator: &mut IdGenerator) -> (r: Node)
        requires
            old(id_generator).next < u64::MAX,
        ensures
            final(id_generator).next == old(id_generator).next + 1,
            r.fresh(old(id_generator).next),
            r.node_type == NodeType::Flat(self),
            r.inputs@.len() == 0,
    {
        Node::new(id_generator, NodeType::Flat(self), Vec::new())
    }
}

impl Linear {
    pub fn to_node(self, id_generator: &mut IdGenerator, nodes: &Vec<Node>) -> (r: Node)
        requires
            old(id_generator).next < u64::MAX,
        ensures
            final(id_generator).next == old(id_generator).next + 1,
            r.fresh(old(id_generator).next),
            r.node_type matches NodeType::Linear(c) && sanitized(
                nodes@,
                self,
                c,
                NodeTypeLight::Linear,
            ),
            inputs_view(r.inputs@) == sanitized_inputs(
                nodes@,
                self.input_names(),
                NodeTypeLight::Linear,
            ),
    {
        let mut item = self;
        let inputs = sanitize_inputs(&mut item, nodes, NodeTypeLight::Linear);
        Node::new(id_generator, NodeType::Linear(item), inputs)
    }
}

impl Target {
    pub fn to_node(self, id_generator: &mut IdGenerator, nodes: &Vec<Node>) -> (r: Node)
        requires
            old(id_generator).next < u64::MAX,
        ensures
            final(id_generator).next == old(id_generator).next + 1,
            r.fresh(old(id_generator).next),
            r.node_type matches NodeType::Target(c) && sanitized(
                nodes@,
                self,
                c,
                NodeTypeLight::Target,
            ),
            inputs_view(r.inputs@) == sanitized_inputs(
                nodes@,
                self.input_names(),
                NodeTypeLight::Target,
            ),
    {
        let mut item = self;
        let inputs = sanitize_inputs(&mut item, nodes, NodeTypeLight::Target);
        Node::new(id_generator, NodeType::Target(item), inputs)
    }
}

impl Graph {
    pub fn to_node(self, id_generator: &mut IdGenerator, nodes: &Vec<Node>) -> (r: Node)
        requires
            old(id_generator).next < u64::MAX,
        ensures
            final(id_generator).next == old(id_generator).next + 1,
            r.fresh(old(id_generator).next),
            r.node_type matches NodeType::Graph(c) && sanitized(
                nodes@,
                self,
                c,
                NodeTypeLight::Graph,
            ),
            inputs_view(r.inputs@) == sanitized_inputs(
                nodes@,
                self.input_names(),
                NodeTypeLight::Graph,
            ),
    {
        let mut item = self;
        let inputs = sanitize_inputs(&mut item, nodes, NodeTypeLight::Graph);
        Node::new(id_generator, NodeType::Graph(item), inputs)
    }
}

/// A control bound against a snapshot holding its device keeps its
/// identifier and gets a handle; rebuilt against a later snapshot without
/// the device, it is left unbound with the identifier cleared.
pub proof fn lemma_control_unplugged(e: Control, before: Seq<ControlH>, after: Seq<ControlH>)
    requires
        e.hardware_id is Some,
        present(before, e.hardware_id->0@),
        !present(after, e.hardware_id->0@),
    ensures
        e.bound(before).hardware_id == e.hardware_id,
        e.bound(before).control_h is Some,
        e.bound(before).bound(after).hardware_id is None,
        e.bound(before).bound(after).control_h is None,
{
    lemma_reconcile_round_trip(before, after, e.hardware_id->0@);
}

/// A fan bound against a snapshot holding its device keeps its identifier
/// and gets an index; rebuilt against a later snapshot without the device, it
/// is left unbound with the identifier cleared.
pub proof fn lemma_fan_unplugged(e: Fan, before: Seq<FanH>, after: Seq<FanH>)
    requires
        e.hardware_id is Some,
        present(before, e.hardware_id->0@),
        !present(after, e.hardware_id->0@),
    ensures
        e.bound(before).hardware_id == e.hardware_id,
        e.bound(before).hardware_index is Some,
        e.bound(before).bound(after).hardware_id is None,
        e.bound(before).bound(after).hardware_index is None,
{
    lemma_reconcile_round_trip(before, after, e.hardware_id->0@);
}

/// A temperature sensor bound against a snapshot holding its device keeps
/// its identifier and gets an index; rebuilt against a later snapshot without
/// the device, it is left unbound with the identifier cleared.
pub proof fn lemma_temp_unplugged(e: Temp, before: Seq<TempH>, after: Seq<TempH>)
    requires
        e.hardware_id is Some,
        present(before, e.hardware_id->0@),
        !present(after, e.hardware_id->0@),
    ensures
        e.bound(before).hardware_id == e.hardware_id,
        e.bound(before).hardware_index is Some,
        e.bound(before).bound(after).hardware_id is None,
        e.bound(before).bound(after).hardware_index is None,
{
    lemma_reconcile_round_trip(before, after, e.hardware_id->0@);
}

} // verus!
