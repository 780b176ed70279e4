//! The closed set of node kinds and the static contract of each kind.
use vstd::prelude::*;

verus! {

/// Input-arity class of a node kind.
#[derive(Debug, Clone, Copy, PartialEq, Eq, Structural)]
pub enum NbInput {
    Zero,
    One,
    Infinity,
}

/// The tag of a node kind, without its payload.
#[derive(Debug, Clone, Copy, PartialEq, Eq, Structural)]
pub enum NodeTypeLight {
    Control,
    Fan,
    Temp,
    CustomTemp,
    Graph,
    Flat,
    Linear,
    Target,
}

/// The arity class of each kind.
pub open spec fn arity_of(kind: NodeTypeLight) -> NbInput {
    match kind {
        NodeTypeLight::Control => NbInput::One,
        NodeTypeLight::Fan => NbInput::Zero,
        NodeTypeLight::Temp => NbInput::Zero,
        NodeTypeLight::CustomTemp => NbInput::Infinity,
        NodeTypeLight::Graph => NbInput::One,
        NodeTypeLight::Flat => NbInput::Zero,
        NodeTypeLight::Linear => NbInput::One,
        NodeTypeLight::Target => NbInput::One,
    }
}

/// Whether a node of kind `kind` may take a node of kind `dep` as input.
pub open spec fn may_depend(kind: NodeTypeLight, dep: NodeTypeLight) -> bool {
    match kind {
        NodeTypeLight::Control => dep == NodeTypeLight::Flat || dep == NodeTypeLight::Graph
            || dep == NodeTypeLight::Target || dep == NodeTypeLight::Linear,
        NodeTypeLight::CustomTemp | NodeTypeLight::Graph | NodeTypeLight::Linear
        | NodeTypeLight::Target => dep == NodeTypeLight::Temp || dep == NodeTypeLight::CustomTemp,
        _ => false,
    }
}

/// Whether `n` inputs fit the arity class `a`.
pub open spec fn within_arity(a: NbInput, n: int) -> bool {
    match a {
        NbInput::Zero => n == 0,
        NbInput::One => n <= 1,
        NbInput::Infinity => true,
    }
}

impl NodeTypeLight {
    /// The kinds this kind may depend on.
    pub fn allowed_dep(&self) -> (r: Vec<NodeTypeLight>)
        ensures
            forall|d: NodeTypeLight| r@.contains(d) <==> may_depend(*self, d),
            r@.no_duplicates(),
    {
        let r = match self {
            NodeTypeLight::Control => vec![
                NodeTypeLight::Flat,
                NodeTypeLight::Graph,
                NodeTypeLight::Target,
                NodeTypeLight::Linear,
            ],
            NodeTypeLight::CustomTemp | NodeTypeLight::Graph | NodeTypeLight::Linear
            | NodeTypeLight::Target => vec![NodeTypeLight::Temp, NodeTypeLight::CustomTemp],
            _ => Vec::new(),
        };
        proof {
            assert forall|d: NodeTypeLight| r@.contains(d) <==> may_depend(*self, d) by {
                if may_depend(*self, d) {
                    match *self {
                        NodeTypeLight::Control => {
                            match d {
                                NodeTypeLight::Flat => assert(r@[0] == d),
                                NodeTypeLight::Graph => assert(r@[1] == d),
                                NodeTypeLight::Target => assert(r@[2] == d),
                                _ => assert(r@[3] == d),
                            }
                        },
                        _ => {
                            if d == NodeTypeLight::Temp {
                                assert(r@[0] == d);
                            } else {
                                assert(r@[1] == d);
                            }
                        },
                    }
                }
            }
        }
        r
    }

    /// Whether this kind may take a node of kind `dep` as input.
    pub fn allows(&self, dep: NodeTypeLight) -> (r: bool)
        ensures
            r == may_depend(*self, dep),
    {
        match self {
            NodeTypeLight::Control => dep == NodeTypeLight::Flat || dep == NodeTypeLight::Graph
                || dep == NodeTypeLight::Target || dep == NodeTypeLight::Linear,
            NodeTypeLight::CustomTemp | NodeTypeLight::Graph | NodeTypeLight::Linear
            | NodeTypeLight::Target => dep == NodeTypeLight::Temp || dep
                == NodeTypeLight::CustomTemp,
            _ => false,
        }
    }

    /// The arity class of this kind.
    pub fn max_input(&self) -> (r: NbInput)
        ensures
            r == arity_of(*self),
    {
        match self {
            NodeTypeLight::Control => NbInput::One,
            NodeTypeLight::Fan => NbInput::Zero,
            NodeTypeLight::Temp => NbInput::Zero,
            NodeTypeLight::CustomTemp => NbInput::Infinity,
            NodeTypeLight::Graph => NbInput::One,
            NodeTypeLight::Flat => NbInput::Zero,
            NodeTypeLight::Linear => NbInput::One,
            NodeTypeLight::Target => NbInput::One,
        }
    }
}

} // verus!
