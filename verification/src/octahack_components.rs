//! A small library of node kinds, and the set that a rack of them is built
//! from.

use crate::components::{
    AnyOutputSpec, AnyUiElement, Component, ContextForComponent, CtxView, RuntimeSpecifier,
    SpecId, Types, TypesView, UiElement,
};
use crate::value::{AnyIter, Signal, Value, ValueType};
use vstd::prelude::*;

pub mod amplifier;
pub mod synth;

use amplifier::{Amplifier, AMPLIFIER_IO_COUNT};
use synth::Synth;

verus! {

/// The inputs of a rack with four channels of audio.
#[derive(Clone, Copy, Debug, PartialEq, Eq, Hash)]
pub enum OctahackInput {
    AudioA,
    AudioB,
    AudioC,
    AudioD,
}

/// The outputs of a rack with a main and a cue pair.
#[derive(Clone, Copy, Debug, PartialEq, Eq, Hash)]
pub enum OctahackOutput {
    MainL,
    MainR,
    CueL,
    CueR,
}

impl RuntimeSpecifier for OctahackInput {
    open spec fn spec_count() -> nat {
        4
    }

    open spec fn spec_id(&self) -> nat {
        match self {
            OctahackInput::AudioA => 0,
            OctahackInput::AudioB => 1,
            OctahackInput::AudioC => 2,
            OctahackInput::AudioD => 3,
        }
    }

    open spec fn spec_from_id(id: nat) -> Self {
        if id == 0 {
            OctahackInput::AudioA
        } else if id == 1 {
            OctahackInput::AudioB
        } else if id == 2 {
            OctahackInput::AudioC
        } else {
            OctahackInput::AudioD
        }
    }

    open spec fn spec_value_type(id: nat) -> ValueType {
        ValueType::spec_mono()
    }

    fn id(&self) -> (id: SpecId) {
        match self {
            OctahackInput::AudioA => 0,
            OctahackInput::AudioB => 1,
            OctahackInput::AudioC => 2,
            OctahackInput::AudioD => 3,
        }
    }

    fn from_id(id: SpecId) -> (spec: Self) {
        if id == 0 {
            OctahackInput::AudioA
        } else if id == 1 {
            OctahackInput::AudioB
        } else if id == 2 {
            OctahackInput::AudioC
        } else {
            OctahackInput::AudioD
        }
    }

    fn value_type(&self) -> (ty: ValueType) {
        ValueType::mono()
    }

    fn has_id(id: SpecId) -> (has: bool) {
        id < 4
    }
}

impl RuntimeSpecifier for OctahackOutput {
    open spec fn spec_count() -> nat {
        4
    }

    open spec fn spec_id(&self) -> nat {
        match self {
            OctahackOutput::MainL => 0,
            OctahackOutput::MainR => 1,
            OctahackOutput::CueL => 2,
            OctahackOutput::CueR => 3,
        }
    }

    open spec fn spec_from_id(id: nat) -> Self {
        if id == 0 {
            OctahackOutput::MainL
        } else if id == 1 {
            OctahackOutput::MainR
        } else if id == 2 {
            OctahackOutput::CueL
        } else {
            OctahackOutput::CueR
        }
    }

    open spec fn spec_value_type(id: nat) -> ValueType {
        ValueType::spec_mono()
    }

    fn id(&self) -> (id: SpecId) {
        match self {
            OctahackOutput::MainL => 0,
            OctahackOutput::MainR => 1,
            OctahackOutput::CueL => 2,
            OctahackOutput::CueR => 3,
        }
    }

    fn from_id(id: SpecId) -> (spec: Self) {
        if id == 0 {
            OctahackOutput::MainL
        } else if id == 1 {
            OctahackOutput::MainR
        } else if id == 2 {
            OctahackOutput::CueL
        } else {
            OctahackOutput::CueR
        }
    }

    fn value_type(&self) -> (ty: ValueType) {
        ValueType::mono()
    }

    fn has_id(id: SpecId) -> (has: bool) {
        id < 4
    }
}

/// A node of one of the kinds of this library.
#[derive(Clone, Copy, Debug)]
pub enum OctahackComponent {
    Amplifier(Amplifier),
    Synth(Synth),
}

impl OctahackComponent {
    /// The largest number of outputs that a node of this set declares.
    pub open spec fn spec_max_output_count() -> nat {
        8
    }

    pub fn max_output_count() -> (count: usize)
        ensures
            count == Self::spec_max_output_count(),
    {
        8
    }

}

/// A list of `count` names, all `name`.
fn repeated(name: &'static str, count: usize) -> (names: Vec<&'static str>)
    ensures
        names@.len() == count,
        forall|i: int| 0 <= i < count ==> names@[i] == name,
{
    let mut names: Vec<&'static str> = Vec::new();
    let mut i: usize = 0;
    while i < count
        invariant
            i <= count,
            names@.len() == i,
            forall|k: int| 0 <= k < i ==> names@[k] == name,
        decreases count - i,
    {
        names.push(name);
        i += 1;
    }
    names
}

impl AnyUiElement for OctahackComponent {
    open spec fn spec_kind_name(&self) -> Seq<char> {
        match self {
            OctahackComponent::Amplifier(_) => Amplifier::spec_name(),
            OctahackComponent::Synth(_) => Synth::spec_name(),
        }
    }

    open spec fn spec_input_name(&self, id: int) -> Seq<char> {
        "Input"@
    }

    open spec fn spec_output_name(&self, id: int) -> Seq<char> {
        match self {
            OctahackComponent::Amplifier(_) => "Output"@,
            OctahackComponent::Synth(_) => if id == 0 {
                "Saw"@
            } else {
                "Square"@
            },
        }
    }

    open spec fn spec_param_name(&self, id: int) -> Seq<char> {
        match self {
            OctahackComponent::Amplifier(_) => "Amount"@,
            OctahackComponent::Synth(_) => "Freq"@,
        }
    }

    fn name(&self) -> (name: &'static str) {
        match self {
            OctahackComponent::Amplifier(_) => Amplifier::name(),
            OctahackComponent::Synth(_) => Synth::name(),
        }
    }

    fn input_names(&self) -> (names: Vec<&'static str>) {
        match self {
            OctahackComponent::Amplifier(_) => repeated("Input", AMPLIFIER_IO_COUNT),
            OctahackComponent::Synth(_) => Vec::new(),
        }
    }

    fn output_names(&self) -> (names: Vec<&'static str>) {
        match self {
            OctahackComponent::Amplifier(_) => repeated("Output", AMPLIFIER_IO_COUNT),
            OctahackComponent::Synth(_) => {
                let mut names: Vec<&'static str> = Vec::new();
                names.push("Saw");
                names.push("Square");
                names
            },
        }
    }

    fn param_names(&self) -> (names: Vec<&'static str>) {
        match self {
            OctahackComponent::Amplifier(_) => repeated("Amount", AMPLIFIER_IO_COUNT),
            OctahackComponent::Synth(_) => repeated("Freq", 1),
        }
    }
}

/// No node of the set declares more outputs than `spec_max_output_count()`, and
/// an amplifier declares that many.
pub proof fn lemma_max_output_count(c: OctahackComponent)
    ensures
        c.spec_types().output.len() <= OctahackComponent::spec_max_output_count(),
        c is Amplifier ==> c.spec_types().output.len()
            == OctahackComponent::spec_max_output_count(),
{
}

impl Component for OctahackComponent {
    open spec fn spec_types(&self) -> TypesView {
        match self {
            OctahackComponent::Amplifier(c) => c.spec_types(),
            OctahackComponent::Synth(c) => c.spec_types(),
        }
    }

    open spec fn spec_param_default(&self) -> Seq<Value> {
        match self {
            OctahackComponent::Amplifier(c) => c.spec_param_default(),
            OctahackComponent::Synth(c) => c.spec_param_default(),
        }
    }

    open spec fn spec_update(&self, ctx: CtxView) -> Self {
        match self {
            OctahackComponent::Amplifier(c) => OctahackComponent::Amplifier(c.spec_update(ctx)),
            OctahackComponent::Synth(c) => OctahackComponent::Synth(c.spec_update(ctx)),
        }
    }

    open spec fn spec_output(&self, id: int, ctx: CtxView) -> Signal {
        match self {
            OctahackComponent::Amplifier(c) => c.spec_output(id, ctx),
            OctahackComponent::Synth(c) => c.spec_output(id, ctx),
        }
    }

    fn types(&self) -> (types: Types) {
        match self {
            OctahackComponent::Amplifier(c) => c.types(),
            OctahackComponent::Synth(c) => c.types(),
        }
    }

    fn param_default(&self) -> (params: Vec<Value>) {
        match self {
            OctahackComponent::Amplifier(c) => c.param_default(),
            OctahackComponent::Synth(c) => c.param_default(),
        }
    }

    fn update(&self, ctx: &ContextForComponent) -> (next: Self) {
        match self {
            OctahackComponent::Amplifier(c) => OctahackComponent::Amplifier(c.update(ctx)),
            OctahackComponent::Synth(c) => OctahackComponent::Synth(c.update(ctx)),
        }
    }

    fn output(&self, id: AnyOutputSpec, ctx: &ContextForComponent) -> (out: AnyIter) {
        match self {
            OctahackComponent::Amplifier(c) => c.output(id, ctx),
            OctahackComponent::Synth(c) => c.output(id, ctx),
        }
    }

    fn duplicate(&self) -> (copy: Self) {
        match self {
            OctahackComponent::Amplifier(c) => OctahackComponent::Amplifier(c.duplicate()),
            OctahackComponent::Synth(c) => OctahackComponent::Synth(c.duplicate()),
        }
    }
}

} // verus!
