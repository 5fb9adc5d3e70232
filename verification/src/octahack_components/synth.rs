//! An oscillator: a phase that goes round once per cycle, and the waves that
//! are read off it.

use crate::components::{
    AnyOutputSpec, Component, ContextForComponent, ContextMeta, CtxView, RuntimeSpecifier,
    SpecId, Types, TypesView, UiElement,
};
use crate::value::{AnyIter, Signal, Value, ValueType};
use vstd::prelude::*;

verus! {

/// The parameters of an oscillator.
#[derive(Clone, Copy, Debug, PartialEq, Eq)]
pub enum Params {
    /// The frequency in Hertz, with 16 fractional bits, counted from the
    /// smallest value of a parameter.
    Freq,
}

/// The outputs of an oscillator.
#[derive(Clone, Copy, Debug, PartialEq, Eq)]
pub enum Output {
    Saw,
    Square,
}

/// An oscillator. Its state is its phase: the fraction of the running cycle
/// that has passed, with 32 fractional bits.
#[derive(Clone, Copy, Debug)]
pub struct Synth {
    pub tick: u32,
}

impl RuntimeSpecifier for Params {
    open spec fn spec_count() -> nat {
        1
    }

    open spec fn spec_id(&self) -> nat {
        0
    }

    open spec fn spec_from_id(id: nat) -> Self {
        Params::Freq
    }

    open spec fn spec_value_type(id: nat) -> ValueType {
        ValueType::spec_mono()
    }

    fn id(&self) -> (id: SpecId) {
        0
    }

    fn from_id(id: SpecId) -> (spec: Self) {
        Params::Freq
    }

    fn value_type(&self) -> (ty: ValueType) {
        ValueType::mono()
    }

    fn has_id(id: SpecId) -> (has: bool) {
        id < 1
    }
}

impl RuntimeSpecifier for Output {
    open spec fn spec_count() -> nat {
        2
    }

    open spec fn spec_id(&self) -> nat {
        match self {
            Output::Saw => 0,
            Output::Square => 1,
        }
    }

    open spec fn spec_from_id(id: nat) -> Self {
        if id == 0 {
            Output::Saw
        } else {
            Output::Square
        }
    }

    open spec fn spec_value_type(id: nat) -> ValueType {
        ValueType::spec_mono()
    }

    fn id(&self) -> (id: SpecId) {
        match self {
            Output::Saw => 0,
            Output::Square => 1,
        }
    }

    fn from_id(id: SpecId) -> (spec: Self) {
        if id == 0 {
            Output::Saw
        } else {
            Output::Square
        }
    }

    fn value_type(&self) -> (ty: ValueType) {
        ValueType::mono()
    }

    fn has_id(id: SpecId) -> (has: bool) {
        id < 2
    }
}

/// The part of a cycle that passes in one tick, with 32 fractional bits: the
/// frequency divided by the sample rate, less whole cycles. Nothing passes at
/// a sample rate of zero.
pub open spec fn spec_phase_step(freq: Value, sample_rate: u32) -> u32 {
    if sample_rate == 0 {
        0
    } else {
        ((((freq.bits - i32::MIN) * 0x1_0000) / (sample_rate as int)) % 0x1_0000_0000) as u32
    }
}

/// The phase one tick after `tick`.
pub open spec fn spec_advance(tick: u32, step: u32) -> u32 {
    ((tick + step) % 0x1_0000_0000) as u32
}

/// A wave that falls from the largest sample at the start of the cycle to the
/// smallest at its end.
pub open spec fn spec_saw(tick: u32) -> Value {
    Value {
        bits: if tick == 0 {
            i32::MAX
        } else {
            (0x8000_0000 - tick) as i32
        },
    }
}

/// A wave that holds the largest sample in the first half of the cycle and the
/// smallest in the second.
pub open spec fn spec_square(tick: u32) -> Value {
    if tick < 0x8000_0000 {
        Value::spec_max()
    } else {
        Value::spec_min()
    }
}

pub open spec fn spec_synth_types() -> TypesView {
    TypesView {
        input: Seq::empty(),
        output: seq![ValueType::spec_mono(), ValueType::spec_mono()],
        parameters: seq![ValueType::spec_mono()],
    }
}

pub fn phase_step(freq: Value, sample_rate: u32) -> (step: u32)
    ensures
        step == spec_phase_step(freq, sample_rate),
{
    if sample_rate == 0 {
        0
    } else {
        let hertz: u64 = (freq.bits as i64 - (i32::MIN as i64)) as u64;
        let wide: u64 = (hertz * 0x1_0000u64) / (sample_rate as u64);
        (wide % 0x1_0000_0000u64) as u32
    }
}

impl Synth {
    pub fn new() -> (synth: Synth)
        ensures
            synth.tick == 0,
    {
        Synth { tick: 0 }
    }
}

impl UiElement for Synth {
    open spec fn spec_name() -> Seq<char> {
        "Synth"@
    }

    fn name() -> (name: &'static str) {
        "Synth"
    }
}

impl Component for Synth {
    open spec fn spec_types(&self) -> TypesView {
        spec_synth_types()
    }

    open spec fn spec_param_default(&self) -> Seq<Value> {
        seq![Value::spec_zero()]
    }

    /// The phase moves on by the part of a cycle that passes in one tick at
    /// the frequency that the parameter gives.
    open spec fn spec_update(&self, ctx: CtxView) -> Self {
        Synth { tick: spec_advance(self.tick, spec_phase_step(ctx.param(0), ctx.sample_rate)) }
    }

    open spec fn spec_output(&self, id: int, ctx: CtxView) -> Signal {
        if id == 0 {
            Signal::Analog(seq![spec_saw(self.tick)])
        } else if id == 1 {
            Signal::Analog(seq![spec_square(self.tick)])
        } else {
            Signal::Analog(Seq::empty())
        }
    }

    fn types(&self) -> (types: Types) {
        let input: Vec<ValueType> = Vec::new();
        let mut output: Vec<ValueType> = Vec::new();
        output.push(ValueType::mono());
        output.push(ValueType::mono());
        let mut parameters: Vec<ValueType> = Vec::new();
        parameters.push(ValueType::mono());
        let types = Types { input, output, parameters };
        assert(types@.input =~= spec_synth_types().input);
        assert(types@.output =~= spec_synth_types().output);
        assert(types@.parameters =~= spec_synth_types().parameters);
        types
    }

    fn param_default(&self) -> (params: Vec<Value>) {
        let mut params: Vec<Value> = Vec::new();
        params.push(Value::zero());
        assert(params@ =~= seq![Value::spec_zero()]);
        params
    }

    fn update(&self, ctx: &ContextForComponent) -> (next: Self) {
        proof {
            crate::components::lemma_context_rate(*ctx);
        }
        let step = phase_step(ctx.param(0), ctx.sample_rate());
        Synth { tick: self.tick.wrapping_add(step) }
    }

    fn output(&self, id: AnyOutputSpec, ctx: &ContextForComponent) -> (out: AnyIter) {
        let mut out: Vec<Value> = Vec::new();
        if id.0 == 0 {
            let bits: i32 = if self.tick == 0 {
                i32::MAX
            } else {
                (0x8000_0000i64 - self.tick as i64) as i32
            };
            out.push(Value::from_bits(bits));
            assert(out@ =~= seq![spec_saw(self.tick)]);
        } else if id.0 == 1 {
            let v = if self.tick < 0x8000_0000u32 {
                Value::max_value()
            } else {
                Value::min_value()
            };
            out.push(v);
            assert(out@ =~= seq![spec_square(self.tick)]);
        }
        AnyIter::Analog(out)
    }

    fn duplicate(&self) -> (copy: Self) {
        *self
    }
}

} // verus!
