//! Edits of a node's payload, as an editor sends them.
use vstd::prelude::*;
use crate::config::{Control, Coord, CustomTemp, CustomTempKind, Flat, Linear, Target};

verus! {

pub enum ControlMsg {
    Active(bool),
}

pub enum CustomTempMsg {
    Kind(CustomTempKind),
}

pub enum FlatMsg {
    Value(u16),
}

/// A new coordinate component for a Linear node; the text is what the
/// editor shows for it and is not stored.
pub enum LinearMsg {
    MinTemp(u8, String),
    MinSpeed(u8, String),
    MaxTemp(u8, String),
    MaxSpeed(u8, String),
}

/// A new coordinate component for a Target node; the text is what the
/// editor shows for it and is not stored.
pub enum TargetMsg {
    IdleTemp(u8, String),
    IdleSpeed(u8, String),
    LoadTemp(u8, String),
    LoadSpeed(u8, String),
}

/// `c` with its temperature replaced.
pub open spec fn with_temp(c: Coord, t: u8) -> Coord {
    Coord { temp: t, ..c }
}

/// `c` with its percent replaced.
pub open spec fn with_percent(c: Coord, p: u8) -> Coord {
    Coord { percent: p, ..c }
}

impl Control {
    pub fn apply(&mut self, msg: ControlMsg)
        ensures
            match msg {
                ControlMsg::Active(a) => *final(self) == (Control { active: a, ..*old(self) }),
            },
    {
        match msg {
            ControlMsg::Active(a) => self.active = a,
        }
    }
}

impl CustomTemp {
    pub fn apply(&mut self, msg: CustomTempMsg)
        ensures
            match msg {
                CustomTempMsg::Kind(k) => *final(self) == (CustomTemp { kind: k, ..*old(self) }),
            },
    {
        match msg {
            CustomTempMsg::Kind(k) => self.kind = k,
        }
    }
}

impl Flat {
    pub fn apply(&mut self, msg: FlatMsg)
        ensures
            match msg {
                FlatMsg::Value(v) => *final(self) == (Flat { value: v, ..*old(self) }),
            },
    {
        match msg {
            FlatMsg::Value(v) => self.value = v,
        }
    }
}

impl Linear {
    pub fn apply(&mut self, msg: LinearMsg)
        ensures
            final(self).name == old(self).name,
            final(self).input == old(self).input,
            match msg {
                LinearMsg::MinTemp(v, _) => final(self).min == with_temp(old(self).min, v)
                    && final(self).max == old(self).max,
                LinearMsg::MinSpeed(v, _) => final(self).min == with_percent(old(self).min, v)
                    && final(self).max == old(self).max,
                LinearMsg::MaxTemp(v, _) => final(self).max == with_temp(old(self).max, v)
                    && final(self).min == old(self).min,
                LinearMsg::MaxSpeed(v, _) => final(self).max == with_percent(old(self).max, v)
                    && final(self).min == old(self).min,
            },
    {
        match msg {
            LinearMsg::MinTemp(v, _) => self.min.temp = v,
            LinearMsg::MinSpeed(v, _) => self.min.percent = v,
            LinearMsg::MaxTemp(v, _) => self.max.temp = v,
            LinearMsg::MaxSpeed(v, _) => self.max.percent = v,
        }
    }
}

impl Target {
    pub fn apply(&mut self, msg: TargetMsg)
        ensures
            final(self).name == old(self).name,
            final(self).input == old(self).input,
            match msg {
                TargetMsg::IdleTemp(v, _) => final(self).idle == with_temp(old(self).idle, v)
                    && final(self).load == old(self).load,
                TargetMsg::IdleSpeed(v, _) => final(self).idle == with_percent(old(self).idle, v)
                    && final(self).load == old(self).load,
                TargetMsg::LoadTemp(v, _) => final(self).load == with_temp(old(self).load, v)
                    && final(self).idle == old(self).idle,
                TargetMsg::LoadSpeed(v, _) => final(self).load == with_percent(old(self).load, v)
                    && final(self).idle == old(self).idle,
            },
    {
        match msg {
            TargetMsg::IdleTemp(v, _) => self.idle.temp = v,
            TargetMsg::IdleSpeed(v, _) => self.idle.percent = v,
            TargetMsg::LoadTemp(v, _) => self.load.temp = v,
            TargetMsg::LoadSpeed(v, _) => self.load.percent = v,
        }
    }
}

} // verus!
