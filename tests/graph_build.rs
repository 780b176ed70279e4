use fan_control::catalog::NodeTypeLight;
use fan_control::config::{
    Config, Control, Coord, CustomTemp, CustomTempKind, Fan, Flat, Graph, Inputs, IsValid, Linear,
    Target, Temp,
};
use fan_control::eval::{HardwareCommand, Readings, UpdateError};
use fan_control::graph::AppGraph;
use fan_control::hardware::{ControlH, FanH, Hardware, InternalControlIndex, TempH};
use fan_control::node::{sanitize_inputs, validate_name, Node, NodeType};

fn s(x: &str) -> String {
    x.to_string()
}

fn empty_config() -> Config {
    Config {
        fans: Vec::new(),
        temps: Vec::new(),
        custom_temps: Vec::new(),
        flats: Vec::new(),
        linears: Vec::new(),
        targets: Vec::new(),
        graphs: Vec::new(),
        controls: Vec::new(),
    }
}

fn temp(name: &str, hw: &str) -> Temp {
    Temp { name: s(name), hardware_id: Some(s(hw)), hardware_index: None }
}

fn control(name: &str, hw: &str, input: Option<&str>) -> Control {
    Control {
        name: s(name),
        hardware_id: Some(s(hw)),
        input: input.map(s),
        auto: false,
        active: true,
        control_h: None,
    }
}

fn hardware() -> Hardware {
    Hardware {
        controls: vec![ControlH {
            name: s("pwm1"),
            hardware_id: s("hw-pwm1"),
            internal_index: InternalControlIndex { io: 7, enable: 8 },
        }],
        fans: vec![FanH { name: s("fan1"), hardware_id: s("hw-fan1"), internal_index: 3 }],
        temps: vec![
            TempH { name: s("cpu"), hardware_id: s("hw-cpu"), internal_index: 0 },
            TempH { name: s("gpu"), hardware_id: s("hw-gpu"), internal_index: 1 },
        ],
    }
}

fn node_named<'a>(g: &'a AppGraph, name: &str) -> &'a Node {
    g.nodes.iter().find(|n| n.name() == name).expect("node present")
}

fn readings(temps: Vec<Option<i32>>) -> Readings {
    Readings { temps, fans: vec![None, None, None, Some(1200)] }
}

#[test]
fn average_of_two_temps_reading_40_and_60_is_50() {
    let mut c = empty_config();
    c.temps = vec![temp("t1", "hw-cpu"), temp("t2", "hw-gpu")];
    c.custom_temps = vec![CustomTemp {
        name: s("avg"),
        kind: CustomTempKind::Average,
        inputs: vec![s("t1"), s("t2")],
    }];
    let mut g = AppGraph::from_config(c, &hardware());
    assert_eq!(node_named(&g, "avg").inputs.len(), 2);
    g.evaluate(&readings(vec![Some(40), Some(60)]));
    assert_eq!(node_named(&g, "avg").value, Some(50));
    assert_eq!(node_named(&g, "t1").value, Some(40));
}

#[test]
fn custom_temp_min_max_and_truncated_mean() {
    let mut c = empty_config();
    c.temps = vec![temp("t1", "hw-cpu"), temp("t2", "hw-gpu")];
    c.custom_temps = vec![
        CustomTemp { name: s("lo"), kind: CustomTempKind::Min, inputs: vec![s("t1"), s("t2")] },
        CustomTemp { name: s("hi"), kind: CustomTempKind::Max, inputs: vec![s("t1"), s("t2")] },
        CustomTemp { name: s("mean"), kind: CustomTempKind::Average, inputs: vec![s("t1"), s("t2")] },
        CustomTemp { name: s("none"), kind: CustomTempKind::Max, inputs: Vec::new() },
    ];
    let mut g = AppGraph::from_config(c, &hardware());
    g.evaluate(&readings(vec![Some(-3), Some(-4)]));
    assert_eq!(node_named(&g, "lo").value, Some(-4));
    assert_eq!(node_named(&g, "hi").value, Some(-3));
    assert_eq!(node_named(&g, "mean").value, Some(-3));
    assert_eq!(node_named(&g, "none").value, None);
}

#[test]
fn missing_reading_propagates_as_none() {
    let mut c = empty_config();
    c.temps = vec![temp("t1", "hw-cpu"), temp("t2", "hw-gpu")];
    c.custom_temps = vec![CustomTemp {
        name: s("avg"),
        kind: CustomTempKind::Average,
        inputs: vec![s("t1"), s("t2")],
    }];
    c.linears = vec![Linear {
        name: s("lin"),
        input: Some(s("avg")),
        min: Coord { temp: 30, percent: 20 },
        max: Coord { temp: 70, percent: 100 },
    }];
    c.controls = vec![control("c1", "hw-pwm1", Some("lin"))];
    let mut g = AppGraph::from_config(c, &hardware());
    let out = g.evaluate(&readings(vec![Some(40), None]));
    assert_eq!(node_named(&g, "avg").value, None);
    assert_eq!(node_named(&g, "lin").value, None);
    assert_eq!(node_named(&g, "c1").value, None);
    assert!(out.is_empty());
}

#[test]
fn linear_midpoint_evaluates_to_60() {
    let mut c = empty_config();
    c.temps = vec![temp("t1", "hw-cpu")];
    c.linears = vec![Linear {
        name: s("lin"),
        input: Some(s("t1")),
        min: Coord { temp: 30, percent: 20 },
        max: Coord { temp: 70, percent: 100 },
    }];
    c.controls = vec![control("c1", "hw-pwm1", Some("lin"))];
    let mut g = AppGraph::from_config(c, &hardware());
    let out = g.evaluate(&readings(vec![Some(50)]));
    assert_eq!(node_named(&g, "lin").value, Some(60));
    assert_eq!(out, vec![HardwareCommand::SetValue { index: 7, value: 60 }]);
}

#[test]
fn control_declaring_two_inputs_gets_none() {
    let mut c = empty_config();
    c.flats = vec![Flat { name: s("f1"), value: 30 }, Flat { name: s("f2"), value: 40 }];
    let g = AppGraph::from_config(c, &hardware());
    // Declared inputs under the Control contract: two names, both valid kinds.
    let mut declared = CustomTemp {
        name: s("c1"),
        kind: CustomTempKind::Max,
        inputs: vec![s("f1"), s("f2")],
    };
    let resolved = sanitize_inputs(&mut declared, &g.nodes, NodeTypeLight::Control);
    assert!(resolved.is_empty());
    assert!(declared.get_inputs().is_empty());
    // One of them alone is accepted.
    let mut one = control("c1", "hw-pwm1", Some("f2"));
    let resolved = sanitize_inputs(&mut one, &g.nodes, NodeTypeLight::Control);
    assert_eq!(resolved.len(), 1);
    assert_eq!(resolved[0].0, node_named(&g, "f2").id);
    assert_eq!(one.input, Some(s("f2")));
}

#[test]
fn control_with_unknown_input_is_unbound() {
    let mut c = empty_config();
    c.flats = vec![Flat { name: s("f1"), value: 30 }];
    c.controls = vec![control("c1", "hw-pwm1", Some("missing"))];
    let g = AppGraph::from_config(c, &hardware());
    let n = node_named(&g, "c1");
    assert!(n.inputs.is_empty());
    match &n.node_type {
        NodeType::Control(ctl) => {
            assert_eq!(ctl.input, None);
            assert!(!ctl.is_valid());
        }
        _ => panic!("not a control"),
    }
}

#[test]
fn deleting_temp_clears_linear_input() {
    let mut c = empty_config();
    c.temps = vec![temp("t1", "hw-cpu")];
    c.linears = vec![Linear {
        name: s("lin"),
        input: Some(s("t1")),
        min: Coord { temp: 30, percent: 20 },
        max: Coord { temp: 70, percent: 100 },
    }];
    let mut g = AppGraph::from_config(c, &hardware());
    assert_eq!(node_named(&g, "lin").inputs.len(), 1);
    let t1 = node_named(&g, "t1").id;
    assert!(g.delete_node(t1));
    assert_eq!(g.nodes.len(), 1);
    let lin = node_named(&g, "lin");
    assert!(lin.inputs.is_empty());
    match &lin.node_type {
        NodeType::Linear(l) => assert_eq!(l.input, None),
        _ => panic!("not a linear"),
    }
    assert!(!g.delete_node(t1));
}

#[test]
fn rebuilding_without_temp_clears_linear_input() {
    let mut c = empty_config();
    c.linears = vec![Linear {
        name: s("lin"),
        input: Some(s("t1")),
        min: Coord { temp: 30, percent: 20 },
        max: Coord { temp: 70, percent: 100 },
    }];
    let g = AppGraph::from_config(c, &hardware());
    let lin = node_named(&g, "lin");
    assert!(lin.inputs.is_empty());
    match &lin.node_type {
        NodeType::Linear(l) => assert_eq!(l.input, None),
        _ => panic!("not a linear"),
    }
}

#[test]
fn deleting_control_removes_root() {
    let mut c = empty_config();
    c.controls = vec![control("c1", "hw-pwm1", None), control("c2", "hw-none", None)];
    let mut g = AppGraph::from_config(c, &hardware());
    assert_eq!(g.root_nodes.len(), 2);
    let c1 = node_named(&g, "c1").id;
    let c2 = node_named(&g, "c2").id;
    assert!(g.delete_node(c1));
    assert_eq!(g.root_nodes, vec![c2]);
}

#[test]
fn unplugged_hardware_leaves_node_unbound() {
    let mut first = empty_config();
    first.temps = vec![temp("t1", "hw-gpu")];
    first.controls = vec![control("c1", "hw-pwm1", None)];
    let g = AppGraph::from_config(first, &hardware());
    match &node_named(&g, "t1").node_type {
        NodeType::Temp(t) => {
            assert_eq!(t.hardware_id, Some(s("hw-gpu")));
            assert_eq!(t.hardware_index, Some(1));
        }
        _ => panic!("not a temp"),
    }
    match &node_named(&g, "c1").node_type {
        NodeType::Control(ctl) => {
            assert_eq!(ctl.control_h, Some(InternalControlIndex { io: 7, enable: 8 }))
        }
        _ => panic!("not a control"),
    }
    let unplugged = Hardware { controls: Vec::new(), fans: Vec::new(), temps: Vec::new() };
    let mut second = empty_config();
    second.temps = vec![temp("t1", "hw-gpu")];
    second.controls = vec![control("c1", "hw-pwm1", None)];
    let g = AppGraph::from_config(second, &unplugged);
    match &node_named(&g, "t1").node_type {
        NodeType::Temp(t) => {
            assert_eq!(t.hardware_id, None);
            assert_eq!(t.hardware_index, None);
            assert!(!t.is_valid());
        }
        _ => panic!("not a temp"),
    }
    match &node_named(&g, "c1").node_type {
        NodeType::Control(ctl) => {
            assert_eq!(ctl.hardware_id, None);
            assert_eq!(ctl.control_h, None);
        }
        _ => panic!("not a control"),
    }
}

#[test]
fn stale_binding_without_identifier_is_cleared() {
    let mut c = empty_config();
    c.fans = vec![Fan { name: s("fan"), hardware_id: None, hardware_index: Some(3) }];
    let g = AppGraph::from_config(c, &hardware());
    match &node_named(&g, "fan").node_type {
        NodeType::Fan(f) => assert_eq!(f.hardware_index, None),
        _ => panic!("not a fan"),
    }
}

#[test]
fn input_of_disallowed_kind_is_cleared() {
    let mut c = empty_config();
    c.fans = vec![Fan { name: s("fan"), hardware_id: Some(s("hw-fan1")), hardware_index: None }];
    c.temps = vec![temp("t1", "hw-cpu")];
    c.linears = vec![Linear {
        name: s("lin"),
        input: Some(s("fan")),
        min: Coord { temp: 30, percent: 20 },
        max: Coord { temp: 70, percent: 100 },
    }];
    c.custom_temps = vec![CustomTemp {
        name: s("ct"),
        kind: CustomTempKind::Max,
        inputs: vec![s("t1"), s("fan")],
    }];
    let g = AppGraph::from_config(c, &hardware());
    assert!(node_named(&g, "lin").inputs.is_empty());
    assert!(node_named(&g, "ct").inputs.is_empty());
    match &node_named(&g, "ct").node_type {
        NodeType::CustomTemp(ct) => assert!(ct.inputs.is_empty()),
        _ => panic!("not a custom temp"),
    }
    match &node_named(&g, "fan").node_type {
        NodeType::Fan(f) => assert_eq!(f.hardware_index, Some(3)),
        _ => panic!("not a fan"),
    }
}

#[test]
fn dependency_declared_later_is_not_visible() {
    let mut c = empty_config();
    c.custom_temps = vec![CustomTemp {
        name: s("ct"),
        kind: CustomTempKind::Max,
        inputs: vec![s("ct2")],
    }];
    let g = AppGraph::from_config(c, &hardware());
    assert!(node_named(&g, "ct").inputs.is_empty());
}

#[test]
fn zero_arity_payload_keeps_no_inputs() {
    let g = AppGraph::from_config(empty_config(), &hardware());
    let mut declared = CustomTemp { name: s("x"), kind: CustomTempKind::Max, inputs: vec![s("a")] };
    assert!(sanitize_inputs(&mut declared, &g.nodes, NodeTypeLight::Flat).is_empty());
    assert!(declared.inputs.is_empty());
    let mut none = CustomTemp { name: s("x"), kind: CustomTempKind::Max, inputs: Vec::new() };
    assert!(sanitize_inputs(&mut none, &g.nodes, NodeTypeLight::Fan).is_empty());
}

#[test]
fn sanitizing_twice_changes_nothing() {
    let mut c = empty_config();
    c.temps = vec![temp("t1", "hw-cpu")];
    let g = AppGraph::from_config(c, &hardware());
    let mut ok = CustomTemp { name: s("x"), kind: CustomTempKind::Max, inputs: vec![s("t1")] };
    let first = sanitize_inputs(&mut ok, &g.nodes, NodeTypeLight::CustomTemp);
    let second = sanitize_inputs(&mut ok, &g.nodes, NodeTypeLight::CustomTemp);
    assert_eq!(first, second);
    assert_eq!(ok.inputs, vec![s("t1")]);
    let mut bad = CustomTemp { name: s("x"), kind: CustomTempKind::Max, inputs: vec![s("zz")] };
    assert!(sanitize_inputs(&mut bad, &g.nodes, NodeTypeLight::CustomTemp).is_empty());
    assert!(sanitize_inputs(&mut bad, &g.nodes, NodeTypeLight::CustomTemp).is_empty());
    assert!(bad.inputs.is_empty());
}

#[test]
fn build_order_and_identifiers() {
    let mut c = empty_config();
    c.controls = vec![control("c1", "hw-pwm1", Some("f1"))];
    c.flats = vec![Flat { name: s("f1"), value: 55 }];
    c.temps = vec![temp("t1", "hw-cpu")];
    c.fans = vec![Fan { name: s("fan"), hardware_id: None, hardware_index: None }];
    let g = AppGraph::from_config(c, &hardware());
    let names: Vec<&str> = g.nodes.iter().map(|n| n.name().as_str()).collect();
    assert_eq!(names, vec!["fan", "t1", "f1", "c1"]);
    let ids: Vec<u64> = g.nodes.iter().map(|n| n.id).collect();
    assert_eq!(ids, vec![0, 1, 2, 3]);
    assert_eq!(g.root_nodes, vec![3]);
    assert_eq!(node_named(&g, "c1").inputs, vec![(2, s("f1"))]);
    assert_eq!(node_named(&g, "c1").name_cached, s("c1"));
}
