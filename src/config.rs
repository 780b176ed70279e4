//! Configuration payloads of each node kind, as the operator writes them,
//! plus what binding to hardware stores in them.
use vstd::prelude::*;
use crate::hardware::InternalControlIndex;

verus! {

/// A (temperature, percent) point of a curve.
#[derive(Debug, Clone, Copy, PartialEq, Eq, Structural)]
pub struct Coord {
    pub temp: u8,
    pub percent: u8,
}

/// How a custom temperature aggregates its inputs.
#[derive(Debug, Clone, Copy, PartialEq, Eq, Structural)]
pub enum CustomTempKind {
    Min,
    Max,
    Average,
}

/// An actuator output.
#[derive(Debug)]
pub struct Control {
    pub name: String,
    pub hardware_id: Option<String>,
    pub input: Option<String>,
    /// Automatic pass-through mode: the hardware drives itself.
    pub auto: bool,
    pub active: bool,
    pub control_h: Option<InternalControlIndex>,
}

/// A fan speed sensor.
#[derive(Debug)]
pub struct Fan {
    pub name: String,
    pub hardware_id: Option<String>,
    pub hardware_index: Option<usize>,
}

/// A temperature sensor.
#[derive(Debug)]
pub struct Temp {
    pub name: String,
    pub hardware_id: Option<String>,
    pub hardware_index: Option<usize>,
}

/// An aggregation over temperatures.
#[derive(Debug)]
pub struct CustomTemp {
    pub name: String,
    pub kind: CustomTempKind,
    pub inputs: Vec<String>,
}

/// A constant percentage.
#[derive(Debug)]
pub struct Flat {
    pub name: String,
    pub value: u16,
}

/// Linear ramp between two points, clamped outside them.
#[derive(Debug)]
pub struct Linear {
    pub name: String,
    pub input: Option<String>,
    pub min: Coord,
    pub max: Coord,
}

/// Ramp from an idle point to a load point.
#[derive(Debug)]
pub struct Target {
    pub name: String,
    pub input: Option<String>,
    pub idle: Coord,
    pub load: Coord,
}

/// Piecewise-linear curve over points sorted by temperature.
#[derive(Debug)]
pub struct Graph {
    pub name: String,
    pub input: Option<String>,
    pub coords: Vec<Coord>,
}

/// A configuration document: ordered entries per node kind.
#[derive(Debug)]
pub struct Config {
    pub fans: Vec<Fan>,
    pub temps: Vec<Temp>,
    pub custom_temps: Vec<CustomTemp>,
    pub flats: Vec<Flat>,
    pub linears: Vec<Linear>,
    pub targets: Vec<Target>,
    pub graphs: Vec<Graph>,
    pub controls: Vec<Control>,
}

/// Whether a payload is eligible to be evaluated and to drive hardware.
pub trait IsValid {
    spec fn valid(&self) -> bool;

    fn is_valid(&self) -> (r: bool)
        ensures
            r == self.valid(),
    ;
}

/// A payload that declares its inputs by name.
pub trait Inputs: Sized {
    /// The declared input names.
    spec fn input_names(&self) -> Seq<Seq<char>>;

    /// Whether this payload is `before` with its declared inputs removed and
    /// nothing else changed.
    spec fn cleared_from(self, before: Self) -> bool;

    proof fn lemma_cleared(self, before: Self)
        requires
            self.cleared_from(before),
        ensures
            self.input_names().len() == 0,
    ;

    fn clear_inputs(&mut self)
        ensures
            final(self).cleared_from(*old(self)),
    ;

    fn get_inputs(&self) -> (r: Vec<String>)
        ensures
            strings_view(r@) == self.input_names(),
    ;
}

/// The views of a sequence of strings.
pub open spec fn strings_view(s: Seq<String>) -> Seq<Seq<char>> {
    s.map_values(|x: String| x@)
}

/// The names held by an optional single input.
pub open spec fn single_input(i: Option<String>) -> Seq<Seq<char>> {
    match i {
        Some(s) => seq![s@],
        None => Seq::empty(),
    }
}

fn single_input_vec(i: &Option<String>) -> (r: Vec<String>)
    ensures
        strings_view(r@) == single_input(*i),
{
    match i {
        Some(s) => {
            let r = vec![s.clone()];
            assert(strings_view(r@) =~= single_input(*i));
            r
        },
        None => {
            let r = Vec::new();
            assert(strings_view(r@) =~= single_input(*i));
            r
        },
    }
}

impl Inputs for Control {
    open spec fn input_names(&self) -> Seq<Seq<char>> {
        single_input(self.input)
    }

    open spec fn cleared_from(self, before: Control) -> bool {
        self == (Control { input: None, ..before })
    }

    proof fn lemma_cleared(self, before: Control) {
    }

    fn clear_inputs(&mut self) {
        self.input = None;
    }

    fn get_inputs(&self) -> (r: Vec<String>) {
        single_input_vec(&self.input)
    }
}

impl Inputs for Linear {
    open spec fn input_names(&self) -> Seq<Seq<char>> {
        single_input(self.input)
    }

    open spec fn cleared_from(self, before: Linear) -> bool {
        self == (Linear { input: None, ..before })
    }

    proof fn lemma_cleared(self, before: Linear) {
    }

    fn clear_inputs(&mut self) {
        self.input = None;
    }

    fn get_inputs(&self) -> (r: Vec<String>) {
        single_input_vec(&self.input)
    }
}

impl Inputs for Target {
    open spec fn input_names(&self) -> Seq<Seq<char>> {
        single_input(self.input)
    }

    open spec fn cleared_from(self, before: Target) -> bool {
        self == (Target { input: None, ..before })
    }

    proof fn lemma_cleared(self, before: Target) {
    }

    fn clear_inputs(&mut self) {
        self.input = None;
    }

    fn get_inputs(&self) -> (r: Vec<String>) {
        single_input_vec(&self.input)
    }
}

impl Inputs for Graph {
    open spec fn input_names(&self) -> Seq<Seq<char>> {
        single_input(self.input)
    }

    open spec fn cleared_from(self, before: Graph) -> bool {
        self == (Graph { input: None, ..before })
    }

    proof fn lemma_cleared(self, before: Graph) {
    }

    fn clear_inputs(&mut self) {
        self.input = None;
    }

    fn get_inputs(&self) -> (r: Vec<String>) {
        single_input_vec(&self.input)
    }
}

impl Inputs for CustomTemp {
    open spec fn input_names(&self) -> Seq<Seq<char>> {
        strings_view(self.inputs@)
    }

    open spec fn cleared_from(self, before: CustomTemp) -> bool {
        self.name == before.name && self.kind == before.kind && self.inputs@.len() == 0
    }

    proof fn lemma_cleared(self, before: CustomTemp) {
        assert(strings_view(self.inputs@) =~= Seq::empty());
    }

    fn clear_inputs(&mut self) {
        self.inputs = Vec::new();
    }

    fn get_inputs(&self) -> (r: Vec<String>) {
        let mut r: Vec<String> = Vec::new();
        let mut i: usize = 0;
        while i < self.inputs.len()
            invariant
                i <= self.inputs@.len(),
                r@.len() == i,
                forall|j: int| 0 <= j < i ==> r@[j]@ == self.inputs@[j]@,
            decreases self.inputs@.len() - i,
        {
            r.push(self.inputs[i].clone());
            i = i + 1;
        }
        assert(strings_view(r@) =~= strings_view(self.inputs@));
        r
    }
}

impl IsValid for Control {
    open spec fn valid(&self) -> bool {
        !self.auto && self.hardware_id.is_some() && self.control_h.is_some() && self.input.is_some()
    }

    fn is_valid(&self) -> (r: bool) {
        !self.auto && self.hardware_id.is_some() && self.control_h.is_some() && self.input.is_some()
    }
}

impl IsValid for Fan {
    open spec fn valid(&self) -> bool {
        self.hardware_id.is_some() && self.hardware_index.is_some()
    }

    fn is_valid(&self) -> (r: bool) {
        self.hardware_id.is_some() && self.hardware_index.is_some()
    }
}

impl IsValid for Temp {
    open spec fn valid(&self) -> bool {
        self.hardware_id.is_some() && self.hardware_index.is_some()
    }

    fn is_valid(&self) -> (r: bool) {
        self.hardware_id.is_some() && self.hardware_index.is_some()
    }
}

impl IsValid for CustomTemp {
    open spec fn valid(&self) -> bool {
        self.inputs@.len() > 0
    }

    fn is_valid(&self) -> (r: bool) {
        self.inputs.len() > 0
    }
}

impl IsValid for Flat {
    open spec fn valid(&self) -> bool {
        true
    }

    fn is_valid(&self) -> (r: bool) {
        true
    }
}

impl IsValid for Linear {
    open spec fn valid(&self) -> bool {
        self.input.is_some()
    }

    fn is_valid(&self) -> (r: bool) {
        self.input.is_some()
    }
}

impl IsValid for Target {
    open spec fn valid(&self) -> bool {
        self.input.is_some()
    }

    fn is_valid(&self) -> (r: bool) {
        self.input.is_some()
    }
}

impl IsValid for Graph {
    open spec fn valid(&self) -> bool {
        self.input.is_some() && self.coords@.len() > 0
    }

    fn is_valid(&self) -> (r: bool) {
        self.input.is_some() && self.coords.len() > 0
    }
}

} // verus!
