use fan_control::catalog::{NbInput, NodeTypeLight};
use fan_control::config::{Config, Control, Coord, CustomTempKind, Flat, Graph, Linear, Target, Temp};
use fan_control::curve::{aggregate_values, curve_value, ramp_value};
use fan_control::eval::{HardwareCommand, Readings, UpdateError};
use fan_control::graph::AppGraph;
use fan_control::hardware::{ControlH, FanH, Hardware, InternalControlIndex, TempH};
use fan_control::node::{validate_name, NodeType};

fn s(x: &str) -> String {
    x.to_string()
}

fn c(temp: u8, percent: u8) -> Coord {
    Coord { temp, percent }
}

fn empty_config() -> Config {
    Config {
        fans: Vec::new(),
        temps: Vec::new(),
        custom_temps: Vec::new(),
        flats: Vec::new(),
        linears: Vec::new(),
        targets: Vec::new(),
        graphs: Vec::new(),
        controls: Vec::new(),
    }
}

fn hardware() -> Hardware {
    Hardware {
        controls: vec![
            ControlH {
                name: s("pwm1"),
                hardware_id: s("hw-pwm1"),
                internal_index: InternalControlIndex { io: 7, enable: 8 },
            },
            ControlH {
                name: s("pwm2"),
                hardware_id: s("hw-pwm2"),
                internal_index: InternalControlIndex { io: 9, enable: 10 },
            },
        ],
        fans: vec![FanH { name: s("fan1"), hardware_id: s("hw-fan1"), internal_index: 0 }],
        temps: vec![TempH { name: s("cpu"), hardware_id: s("hw-cpu"), internal_index: 0 }],
    }
}

fn manual(name: &str, hw: &str, input: &str) -> Control {
    Control {
        name: s(name),
        hardware_id: Some(s(hw)),
        input: Some(s(input)),
        auto: false,
        active: true,
        control_h: None,
    }
}

fn pipeline() -> AppGraph {
    let mut cfg = empty_config();
    cfg.temps = vec![Temp { name: s("t"), hardware_id: Some(s("hw-cpu")), hardware_index: None }];
    cfg.targets = vec![Target { name: s("tg"), input: Some(s("t")), idle: c(40, 10), load: c(80, 90) }];
    cfg.graphs = vec![Graph {
        name: s("gr"),
        input: Some(s("t")),
        coords: vec![c(20, 0), c(40, 50), c(60, 100)],
    }];
    cfg.controls = vec![manual("c1", "hw-pwm1", "tg"), manual("c2", "hw-pwm2", "gr")];
    AppGraph::from_config(cfg, &hardware())
}

fn temp_reading(t: i32) -> Readings {
    Readings { temps: vec![Some(t)], fans: vec![Some(900)] }
}

#[test]
fn two_passes_give_identical_outputs() {
    let mut g = pipeline();
    let r = temp_reading(50);
    let first = g.evaluate(&r);
    let second = g.evaluate(&r);
    assert_eq!(first, second);
    assert_eq!(
        first,
        vec![
            HardwareCommand::SetValue { index: 7, value: 30 },
            HardwareCommand::SetValue { index: 9, value: 75 },
        ]
    );
}

#[test]
fn evaluation_below_and_above_bounds_clamps() {
    let mut g = pipeline();
    assert_eq!(
        g.evaluate(&temp_reading(-5)),
        vec![
            HardwareCommand::SetValue { index: 7, value: 10 },
            HardwareCommand::SetValue { index: 9, value: 0 },
        ]
    );
    assert_eq!(
        g.evaluate(&temp_reading(200)),
        vec![
            HardwareCommand::SetValue { index: 7, value: 90 },
            HardwareCommand::SetValue { index: 9, value: 100 },
        ]
    );
}

#[test]
fn automatic_control_is_not_written() {
    let mut cfg = empty_config();
    cfg.flats = vec![Flat { name: s("f"), value: 42 }];
    let mut auto = manual("c1", "hw-pwm1", "f");
    auto.auto = true;
    cfg.controls = vec![auto, manual("c2", "hw-pwm2", "f")];
    let mut g = AppGraph::from_config(cfg, &hardware());
    assert_eq!(g.evaluate(&temp_reading(0)), vec![HardwareCommand::SetValue { index: 9, value: 42 }]);
}

#[test]
fn unbound_temp_reads_none() {
    let mut cfg = empty_config();
    cfg.temps = vec![Temp { name: s("t"), hardware_id: Some(s("gone")), hardware_index: None }];
    let mut g = AppGraph::from_config(cfg, &hardware());
    g.evaluate(&temp_reading(33));
    assert_eq!(g.nodes[0].value, None);
}

#[test]
fn fan_reading_is_its_value() {
    let mut g = AppGraph::default(&hardware());
    g.evaluate(&temp_reading(33));
    let fan = g.nodes.iter().find(|n| n.name() == "fan1").unwrap();
    assert_eq!(fan.value, Some(900));
    let cpu = g.nodes.iter().find(|n| n.name() == "cpu").unwrap();
    assert_eq!(cpu.value, Some(33));
}

#[test]
fn ramp_clamps_and_hits_coordinates() {
    let lo = c(30, 20);
    let hi = c(70, 100);
    assert_eq!(ramp_value(lo, hi, 50), 60);
    assert_eq!(ramp_value(lo, hi, 10), 20);
    assert_eq!(ramp_value(lo, hi, 30), 20);
    assert_eq!(ramp_value(lo, hi, 70), 100);
    assert_eq!(ramp_value(lo, hi, 90), 100);
    assert_eq!(ramp_value(c(50, 10), c(50, 80), 10), 80);
    assert_eq!(ramp_value(c(50, 10), c(50, 80), 90), 80);
    assert_eq!(ramp_value(c(20, 100), c(60, 0), 30), 75);
    assert_eq!(ramp_value(lo, hi, 31), 22);
}

#[test]
fn curve_clamps_and_interpolates() {
    let coords = vec![c(20, 0), c(40, 50), c(60, 100)];
    assert_eq!(curve_value(&coords, 0), Some(0));
    assert_eq!(curve_value(&coords, 20), Some(0));
    assert_eq!(curve_value(&coords, 30), Some(25));
    assert_eq!(curve_value(&coords, 40), Some(50));
    assert_eq!(curve_value(&coords, 55), Some(87));
    assert_eq!(curve_value(&coords, 60), Some(100));
    assert_eq!(curve_value(&coords, 99), Some(100));
    assert_eq!(curve_value(&Vec::new(), 10), None);
    assert_eq!(curve_value(&vec![c(10, 33)], 99), Some(33));
}

#[test]
fn aggregates() {
    let v = vec![40, 60, 35];
    assert_eq!(aggregate_values(CustomTempKind::Min, &v), 35);
    assert_eq!(aggregate_values(CustomTempKind::Max, &v), 60);
    assert_eq!(aggregate_values(CustomTempKind::Average, &v), 45);
    let extreme = vec![i32::MAX, i32::MAX];
    assert_eq!(aggregate_values(CustomTempKind::Average, &extreme), i32::MAX);
    let low = vec![i32::MIN, i32::MIN, i32::MIN];
    assert_eq!(aggregate_values(CustomTempKind::Average, &low), i32::MIN);
}

#[test]
fn control_update_and_enable() {
    let mut ctl = manual("c", "hw-pwm1", "x");
    assert_eq!(ctl.update(50), Err(UpdateError::NodeIsInvalid));
    assert_eq!(ctl.enable(true), Err(UpdateError::NodeIsInvalid));
    ctl.control_h = Some(InternalControlIndex { io: 4, enable: 5 });
    assert_eq!(ctl.update(50), Ok(HardwareCommand::SetValue { index: 4, value: 50 }));
    assert_eq!(ctl.enable(true), Ok(HardwareCommand::SetEnabled { index: 5, enabled: false }));
    assert_eq!(ctl.enable(false), Ok(HardwareCommand::SetEnabled { index: 5, enabled: true }));
    ctl.auto = true;
    assert_eq!(ctl.update(50), Err(UpdateError::NodeIsInvalid));
}

#[test]
fn rename_to_taken_name_is_refused() {
    let mut g = pipeline();
    let tg = g.nodes.iter().find(|n| n.name() == "tg").unwrap().id;
    assert!(!g.rename_node(tg, s("gr")));
    let n = g.nodes.iter().find(|n| n.id == tg).unwrap();
    assert_eq!(n.name(), "tg");
    assert_eq!(n.name_cached, s("tg"));
    assert!(n.is_error_name);
    assert!(!g.rename_node(tg, s("")));
    assert!(g.rename_node(tg, s("target")));
    let n = g.nodes.iter().find(|n| n.id == tg).unwrap();
    assert_eq!(n.name(), "target");
    assert_eq!(n.name_cached, s("target"));
    assert!(!n.is_error_name);
    assert!(g.rename_node(tg, s("target")));
    assert!(!g.rename_node(999, s("fresh")));
}

#[test]
fn validate_name_cases() {
    let g = pipeline();
    let t = g.nodes[0].id;
    assert!(validate_name(&g.nodes, &t, &s("t")));
    assert!(!validate_name(&g.nodes, &t, &s("gr")));
    assert!(!validate_name(&g.nodes, &t, &s("")));
    assert!(validate_name(&g.nodes, &t, &s("other")));
}

#[test]
fn add_node_checks_name_and_resolves() {
    let mut g = pipeline();
    let hw = hardware();
    let dup = NodeType::Flat(Flat { name: s("tg"), value: 1 });
    assert_eq!(g.add_node(dup, &hw), None);
    assert_eq!(g.nodes.len(), 5);
    let lin = NodeType::Linear(Linear { name: s("lin"), input: Some(s("t")), min: c(0, 0), max: c(100, 100) });
    let id = g.add_node(lin, &hw).unwrap();
    assert_eq!(id, 5);
    let n = g.nodes.last().unwrap();
    assert_eq!(n.inputs, vec![(0, s("t"))]);
    let ctl = NodeType::Control(manual("c3", "hw-pwm1", "lin"));
    assert_eq!(g.add_node(ctl, &hw), Some(6));
    assert_eq!(g.root_nodes, vec![3, 4, 6]);
}

#[test]
fn default_graph_binds_every_handle() {
    let g = AppGraph::default(&hardware());
    let names: Vec<&str> = g.nodes.iter().map(|n| n.name().as_str()).collect();
    assert_eq!(names, vec!["pwm1", "pwm2", "fan1", "cpu"]);
    assert_eq!(g.root_nodes, vec![0, 1]);
    match &g.nodes[0].node_type {
        NodeType::Control(ctl) => {
            assert!(ctl.auto);
            assert_eq!(ctl.hardware_id, Some(s("hw-pwm1")));
            assert_eq!(ctl.control_h, Some(InternalControlIndex { io: 7, enable: 8 }));
        }
        _ => panic!("not a control"),
    }
    assert_eq!(g.nodes[3].hardware_id(), Ok(&Some(s("hw-cpu"))));
}

#[test]
fn catalog_contracts() {
    assert_eq!(NodeTypeLight::Control.max_input(), NbInput::One);
    assert_eq!(NodeTypeLight::CustomTemp.max_input(), NbInput::Infinity);
    assert_eq!(NodeTypeLight::Flat.max_input(), NbInput::Zero);
    assert_eq!(
        NodeTypeLight::Control.allowed_dep(),
        vec![NodeTypeLight::Flat, NodeTypeLight::Graph, NodeTypeLight::Target, NodeTypeLight::Linear]
    );
    assert_eq!(
        NodeTypeLight::CustomTemp.allowed_dep(),
        vec![NodeTypeLight::Temp, NodeTypeLight::CustomTemp]
    );
    assert!(NodeTypeLight::Fan.allowed_dep().is_empty());
    assert!(NodeTypeLight::Linear.allows(NodeTypeLight::CustomTemp));
    assert!(!NodeTypeLight::Linear.allows(NodeTypeLight::Fan));
}
