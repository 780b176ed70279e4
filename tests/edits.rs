use fan_control::config::{Control, Coord, CustomTemp, CustomTempKind, Flat, Linear, Target};
use fan_control::messages::{ControlMsg, CustomTempMsg, FlatMsg, LinearMsg, TargetMsg};

fn s(x: &str) -> String {
    x.to_string()
}

#[test]
fn payload_messages_apply() {
    let mut ctl = Control {
        name: s("c"),
        hardware_id: None,
        input: None,
        auto: false,
        active: false,
        control_h: None,
    };
    ctl.apply(ControlMsg::Active(true));
    assert!(ctl.active);
    let mut ct = CustomTemp { name: s("ct"), kind: CustomTempKind::Min, inputs: Vec::new() };
    ct.apply(CustomTempMsg::Kind(CustomTempKind::Average));
    assert_eq!(ct.kind, CustomTempKind::Average);
    let mut f = Flat { name: s("f"), value: 3 };
    f.apply(FlatMsg::Value(70));
    assert_eq!(f.value, 70);
    let mut l = Linear {
        name: s("l"),
        input: None,
        min: Coord { temp: 1, percent: 2 },
        max: Coord { temp: 3, percent: 4 },
    };
    l.apply(LinearMsg::MinTemp(10, s("10")));
    l.apply(LinearMsg::MaxSpeed(90, s("90")));
    assert_eq!(l.min, Coord { temp: 10, percent: 2 });
    assert_eq!(l.max, Coord { temp: 3, percent: 90 });
    let mut t = Target {
        name: s("t"),
        input: None,
        idle: Coord { temp: 1, percent: 2 },
        load: Coord { temp: 3, percent: 4 },
    };
    t.apply(TargetMsg::IdleSpeed(15, s("15")));
    t.apply(TargetMsg::LoadTemp(85, s("85")));
    assert_eq!(t.idle, Coord { temp: 1, percent: 15 });
    assert_eq!(t.load, Coord { temp: 85, percent: 4 });
}
