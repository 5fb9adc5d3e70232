//! Port specifications and the contract that every kind of node fulfils.

use crate::value::{opt_signal, AnyIter, Signal, Value, ValueType};
use vstd::prelude::*;

verus! {

/// The index of a port among the ports of its specification.
pub type SpecId = usize;

/// A finite set of named ports, each of which has an index of its own below
/// `spec_count()` and carries values of one type.
pub trait RuntimeSpecifier: Sized {
    spec fn spec_count() -> nat;

    spec fn spec_id(&self) -> nat;

    spec fn spec_from_id(id: nat) -> Self;

    spec fn spec_value_type(id: nat) -> ValueType;

    /// The port's index. The port is found again from it.
    fn id(&self) -> (id: SpecId)
        ensures
            id == self.spec_id(),
            id < Self::spec_count(),
            Self::spec_from_id(id as nat) == *self,
    ;

    /// The port at an index. Its index is that index.
    fn from_id(id: SpecId) -> (spec: Self)
        requires
            id < Self::spec_count(),
        ensures
            spec == Self::spec_from_id(id as nat),
            spec.spec_id() == id,
    ;

    fn value_type(&self) -> (ty: ValueType)
        ensures
            ty == Self::spec_value_type(self.spec_id()),
    ;

    /// Whether the specification has a port at the index.
    fn has_id(id: SpecId) -> (has: bool)
        ensures
            has == (id < Self::spec_count()),
    ;
}

/// An output port of some node, by its index alone.
#[derive(Clone, Copy, Debug, PartialEq, Eq, Hash)]
pub struct AnyOutputSpec(pub SpecId);

/// An input port of some node, by its index alone.
#[derive(Clone, Copy, Debug, PartialEq, Eq, Hash)]
pub struct AnyInputSpec(pub SpecId);

/// A parameter of some node, by its index alone.
#[derive(Clone, Copy, Debug, PartialEq, Eq, Hash)]
pub struct AnyParamSpec(pub SpecId);

impl RuntimeSpecifier for AnyOutputSpec {
    open spec fn spec_count() -> nat {
        (usize::MAX + 1) as nat
    }

    open spec fn spec_id(&self) -> nat {
        self.0 as nat
    }

    open spec fn spec_from_id(id: nat) -> Self {
        AnyOutputSpec(id as usize)
    }

    open spec fn spec_value_type(id: nat) -> ValueType {
        ValueType::spec_continuous()
    }

    fn id(&self) -> (id: SpecId) {
        self.0
    }

    fn from_id(id: SpecId) -> (spec: Self) {
        AnyOutputSpec(id)
    }

    fn value_type(&self) -> (ty: ValueType) {
        ValueType::continuous()
    }

    fn has_id(id: SpecId) -> (has: bool) {
        true
    }
}

impl RuntimeSpecifier for AnyInputSpec {
    open spec fn spec_count() -> nat {
        (usize::MAX + 1) as nat
    }

    open spec fn spec_id(&self) -> nat {
        self.0 as nat
    }

    open spec fn spec_from_id(id: nat) -> Self {
        AnyInputSpec(id as usize)
    }

    open spec fn spec_value_type(id: nat) -> ValueType {
        ValueType::spec_continuous()
    }

    fn id(&self) -> (id: SpecId) {
        self.0
    }

    fn from_id(id: SpecId) -> (spec: Self) {
        AnyInputSpec(id)
    }

    fn value_type(&self) -> (ty: ValueType) {
        ValueType::continuous()
    }

    fn has_id(id: SpecId) -> (has: bool) {
        true
    }
}

impl RuntimeSpecifier for AnyParamSpec {
    open spec fn spec_count() -> nat {
        (usize::MAX + 1) as nat
    }

    open spec fn spec_id(&self) -> nat {
        self.0 as nat
    }

    open spec fn spec_from_id(id: nat) -> Self {
        AnyParamSpec(id as usize)
    }

    open spec fn spec_value_type(id: nat) -> ValueType {
        ValueType::spec_continuous()
    }

    fn id(&self) -> (id: SpecId) {
        self.0
    }

    fn from_id(id: SpecId) -> (spec: Self) {
        AnyParamSpec(id)
    }

    fn value_type(&self) -> (ty: ValueType) {
        ValueType::continuous()
    }

    fn has_id(id: SpecId) -> (has: bool) {
        true
    }
}

/// The types of a node's ports, as sequences indexed by port.
pub struct TypesView {
    pub input: Seq<ValueType>,
    pub output: Seq<ValueType>,
    pub parameters: Seq<ValueType>,
}

/// The types of a node's ports, indexed by port.
pub struct Types {
    pub input: Vec<ValueType>,
    pub output: Vec<ValueType>,
    pub parameters: Vec<ValueType>,
}

impl View for Types {
    type V = TypesView;

    open spec fn view(&self) -> TypesView {
        TypesView { input: self.input@, output: self.output@, parameters: self.parameters@ }
    }
}

/// What a node can read while it works: the signal on each of its inputs, where
/// there is one, the value of each of its parameters, and the sample rate.
pub struct CtxView {
    pub inputs: Seq<Option<Signal>>,
    pub params: Seq<Value>,
    pub sample_rate: u32,
}

impl CtxView {
    /// The signal on an input: none where nothing is wired to it, or where the
    /// node has no such input.
    pub open spec fn input(self, spec: int) -> Option<Signal> {
        if 0 <= spec < self.inputs.len() {
            self.inputs[spec]
        } else {
            None
        }
    }

    /// The value of a parameter: zero where the node has no such parameter.
    pub open spec fn param(self, spec: int) -> Value {
        if 0 <= spec < self.params.len() {
            self.params[spec]
        } else {
            Value::spec_zero()
        }
    }
}

/// The signals of a table of inputs.
pub open spec fn signals_view(inputs: Seq<Option<AnyIter>>) -> Seq<Option<Signal>> {
    Seq::new(inputs.len(), |i: int| opt_signal(inputs[i]))
}

/// Something that knows the rate at which ticks follow each other.
pub trait ContextMeta {
    spec fn spec_sample_rate(&self) -> u32;

    /// Samples per second.
    fn sample_rate(&self) -> (rate: u32)
        ensures
            rate == self.spec_sample_rate(),
    ;
}

/// The resolved surroundings of one node during one tick.
pub struct ContextForComponent {
    inputs: Vec<Option<AnyIter>>,
    params: Vec<Value>,
    sample_rate: u32,
}

impl View for ContextForComponent {
    type V = CtxView;

    closed spec fn view(&self) -> CtxView {
        CtxView {
            inputs: signals_view(self.inputs@),
            params: self.params@,
            sample_rate: self.sample_rate,
        }
    }
}

impl ContextForComponent {
    pub fn new(inputs: Vec<Option<AnyIter>>, params: Vec<Value>, sample_rate: u32) -> (ctx: Self)
        ensures
            ctx@ == (CtxView {
                inputs: signals_view(inputs@),
                params: params@,
                sample_rate,
            }),
    {
        ContextForComponent { inputs, params, sample_rate }
    }

    /// The signal on an input. `None` means that this input is not wired.
    pub fn input(&self, spec: SpecId) -> (signal: Option<&AnyIter>)
        ensures
            match signal {
                Some(s) => self@.input(spec as int) == Some(s@),
                None => self@.input(spec as int).is_none(),
            },
    {
        if spec < self.inputs.len() {
            match &self.inputs[spec] {
                Some(s) => Some(s),
                None => None,
            }
        } else {
            None
        }
    }

    pub fn param(&self, spec: SpecId) -> (value: Value)
        ensures
            value == self@.param(spec as int),
    {
        if spec < self.params.len() {
            self.params[spec]
        } else {
            Value::zero()
        }
    }
}

impl ContextMeta for ContextForComponent {
    closed spec fn spec_sample_rate(&self) -> u32 {
        self.sample_rate
    }

    fn sample_rate(&self) -> (rate: u32) {
        self.sample_rate
    }
}

/// The rate that a node's context gives is the rate of its view.
pub proof fn lemma_context_rate(ctx: ContextForComponent)
    ensures
        ctx.spec_sample_rate() == ctx@.sample_rate,
{
}

/// Something that is shown to a user under a name.
pub trait UiElement {
    spec fn spec_name() -> Seq<char>;

    fn name() -> (name: &'static str)
        ensures
            name@ == Self::spec_name(),
    ;
}

/// A node that is shown to a user: the name of its kind, and the names of its
/// ports in the order of their indices.
pub trait AnyUiElement: Component {
    spec fn spec_kind_name(&self) -> Seq<char>;

    spec fn spec_input_name(&self, id: int) -> Seq<char>;

    spec fn spec_output_name(&self, id: int) -> Seq<char>;

    spec fn spec_param_name(&self, id: int) -> Seq<char>;

    fn name(&self) -> (name: &'static str)
        ensures
            name@ == self.spec_kind_name(),
    ;

    fn input_names(&self) -> (names: Vec<&'static str>)
        ensures
            names@.len() == self.spec_types().input.len(),
            forall|i: int| 0 <= i < names@.len() ==> names@[i]@ == self.spec_input_name(i),
    ;

    fn output_names(&self) -> (names: Vec<&'static str>)
        ensures
            names@.len() == self.spec_types().output.len(),
            forall|i: int| 0 <= i < names@.len() ==> names@[i]@ == self.spec_output_name(i),
    ;

    fn param_names(&self) -> (names: Vec<&'static str>)
        ensures
            names@.len() == self.spec_types().parameters.len(),
            forall|i: int| 0 <= i < names@.len() ==> names@[i]@ == self.spec_param_name(i),
    ;
}

/// The contract of a kind of node. A node declares its ports, computes its next
/// state from what it can read, and computes what each output carries. Both
/// computations are functions of the node's state and of what it reads, so
/// that asking twice in one tick gives the same answer.
pub trait Component: Sized {
    spec fn spec_types(&self) -> TypesView;

    spec fn spec_param_default(&self) -> Seq<Value>;

    spec fn spec_update(&self, ctx: CtxView) -> Self;

    spec fn spec_output(&self, id: int, ctx: CtxView) -> Signal;

    /// The types of the node's ports.
    fn types(&self) -> (types: Types)
        ensures
            types@ == self.spec_types(),
    ;

    /// The natural value of each parameter of a new node of this kind.
    fn param_default(&self) -> (params: Vec<Value>)
        ensures
            params@ == self.spec_param_default(),
            params@.len() == self.spec_types().parameters.len(),
    ;

    /// The node's state after this tick. The ports stay as they are.
    fn update(&self, ctx: &ContextForComponent) -> (next: Self)
        ensures
            next == self.spec_update(ctx@),
            next.spec_types() == self.spec_types(),
    ;

    /// What the output `id` carries during this tick.
    fn output(&self, id: AnyOutputSpec, ctx: &ContextForComponent) -> (out: AnyIter)
        ensures
            out@ == self.spec_output(id.0 as int, ctx@),
    ;

    /// A node in the same state.
    fn duplicate(&self) -> (copy: Self)
        ensures
            copy == *self,
    ;
}

} // verus!
