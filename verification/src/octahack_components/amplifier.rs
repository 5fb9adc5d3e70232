//! An amplifier of eight channels: each output carries the input of the same
//! channel, multiplied by the parameter of that channel.

use crate::components::{
    AnyOutputSpec, Component, ContextForComponent, CtxView, RuntimeSpecifier, SpecId, Types,
    TypesView, UiElement,
};
use crate::value::{AnyIter, Signal, Value, ValueType};
use vstd::prelude::*;

verus! {

pub const AMPLIFIER_IO_COUNT: usize = 8;

#[derive(Clone, Copy, Debug)]
pub struct Amplifier;

/// A channel of the amplifier: its input, its output, or its amount.
#[derive(Clone, Copy, Debug)]
pub struct AmplifierIO(u8);

impl AmplifierIO {
    #[verifier::type_invariant]
    spec fn in_range(self) -> bool {
        self.0 < AMPLIFIER_IO_COUNT
    }

    pub closed spec fn channel(self) -> nat {
        self.0 as nat
    }

    /// The channel `channel`, where the amplifier has one.
    pub fn new(channel: u8) -> (io: Option<AmplifierIO>)
        ensures
            io.is_some() <==> channel < AMPLIFIER_IO_COUNT,
            io matches Some(io) ==> io.channel() == channel,
    {
        if (channel as usize) < AMPLIFIER_IO_COUNT {
            Some(AmplifierIO(channel))
        } else {
            None
        }
    }
}

impl RuntimeSpecifier for AmplifierIO {
    open spec fn spec_count() -> nat {
        AMPLIFIER_IO_COUNT as nat
    }

    closed spec fn spec_id(&self) -> nat {
        self.0 as nat
    }

    closed spec fn spec_from_id(id: nat) -> Self {
        AmplifierIO(id as u8)
    }

    open spec fn spec_value_type(id: nat) -> ValueType {
        ValueType::spec_mono()
    }

    fn id(&self) -> (id: SpecId) {
        proof {
            use_type_invariant(self);
        }
        self.0 as usize
    }

    fn from_id(id: SpecId) -> (spec: Self) {
        AmplifierIO(id as u8)
    }

    fn value_type(&self) -> (ty: ValueType) {
        ValueType::mono()
    }

    fn has_id(id: SpecId) -> (has: bool) {
        id < AMPLIFIER_IO_COUNT
    }
}

/// The index of a channel is the channel.
pub proof fn lemma_amplifier_io_id(io: AmplifierIO)
    ensures
        io.spec_id() == io.channel(),
{
}

/// The samples of a channel, each multiplied by the amount.
pub open spec fn spec_amplify(samples: Seq<Value>, amount: Value) -> Seq<Value> {
    Seq::new(samples.len(), |i: int| samples[i].spec_mul(amount))
}

pub open spec fn spec_amplifier_types() -> TypesView {
    TypesView {
        input: Seq::new(AMPLIFIER_IO_COUNT as nat, |i: int| ValueType::spec_mono()),
        output: Seq::new(AMPLIFIER_IO_COUNT as nat, |i: int| ValueType::spec_mono()),
        parameters: Seq::new(AMPLIFIER_IO_COUNT as nat, |i: int| ValueType::spec_mono()),
    }
}

fn eight<T: Copy>(item: T) -> (items: Vec<T>)
    ensures
        items@ == Seq::new(AMPLIFIER_IO_COUNT as nat, |i: int| item),
{
    let mut items: Vec<T> = Vec::new();
    let mut i: usize = 0;
    while i < AMPLIFIER_IO_COUNT
        invariant
            i <= AMPLIFIER_IO_COUNT,
            items@ == Seq::new(i as nat, |j: int| item),
        decreases AMPLIFIER_IO_COUNT - i,
    {
        items.push(item);
        assert(items@ =~= Seq::new((i + 1) as nat, |j: int| item));
        i += 1;
    }
    items
}

impl UiElement for Amplifier {
    open spec fn spec_name() -> Seq<char> {
        "Amplifier"@
    }

    fn name() -> (name: &'static str) {
        "Amplifier"
    }
}

impl Component for Amplifier {
    open spec fn spec_types(&self) -> TypesView {
        spec_amplifier_types()
    }

    open spec fn spec_param_default(&self) -> Seq<Value> {
        Seq::new(AMPLIFIER_IO_COUNT as nat, |i: int| Value::spec_zero())
    }

    open spec fn spec_update(&self, ctx: CtxView) -> Self {
        *self
    }

    /// An output carries the samples on the input of its channel, each
    /// multiplied by the amount of the channel; and nothing where that input
    /// has no samples, or where the amplifier has no such output.
    open spec fn spec_output(&self, id: int, ctx: CtxView) -> Signal {
        if 0 <= id < AMPLIFIER_IO_COUNT {
            match ctx.input(id) {
                Some(Signal::Analog(samples)) => Signal::Analog(
                    spec_amplify(samples, ctx.param(id)),
                ),
                _ => Signal::Analog(Seq::empty()),
            }
        } else {
            Signal::Analog(Seq::empty())
        }
    }

    fn types(&self) -> (types: Types) {
        Types {
            input: eight(ValueType::mono()),
            output: eight(ValueType::mono()),
            parameters: eight(ValueType::mono()),
        }
    }

    fn param_default(&self) -> (params: Vec<Value>) {
        eight(Value::zero())
    }

    fn update(&self, ctx: &ContextForComponent) -> (next: Self) {
        *self
    }

    fn output(&self, id: AnyOutputSpec, ctx: &ContextForComponent) -> (out: AnyIter) {
        let mut out: Vec<Value> = Vec::new();
        if id.0 < AMPLIFIER_IO_COUNT {
            match ctx.input(id.0) {
                Some(AnyIter::Analog(samples)) => {
                    let amount = ctx.param(id.0);
                    let mut i: usize = 0;
                    while i < samples.len()
                        invariant
                            i <= samples.len(),
                            out@ == spec_amplify(samples@.take(i as int), amount),
                        decreases samples.len() - i,
                    {
                        out.push(samples[i].saturating_mul(amount));
                        assert(out@ =~= spec_amplify(samples@.take(i + 1), amount));
                        i += 1;
                    }
                    assert(samples@.take(samples.len() as int) =~= samples@);
                },
                _ => {},
            }
        }
        AnyIter::Analog(out)
    }

    fn duplicate(&self) -> (copy: Self) {
        *self
    }
}

} // verus!
