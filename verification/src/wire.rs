//! Wires: references to the port that a signal is read from, and to the port
//! that it drives.

use crate::components::{AnyInputSpec, AnyOutputSpec, AnyParamSpec, RuntimeSpecifier, SpecId};
use crate::uid::ComponentId;
use crate::value::Value;
use vstd::prelude::*;

verus! {

/// Whose port a wire refers to: a node's, or the enclosing definition's own.
#[derive(Clone, Copy, Debug, PartialEq, Eq, Hash)]
pub enum ElementSpecifier {
    Component { id: ComponentId },
    FuncInputs,
}

/// A reference to one port: the element that has it, and the port's index there.
#[derive(Clone, Copy, Debug, PartialEq, Eq, Hash)]
pub struct Wire {
    pub io_index: SpecId,
    pub element: ElementSpecifier,
}

/// Where a signal is read from: an output of a node, or an input of the
/// enclosing definition.
#[derive(Clone, Copy, Debug, PartialEq, Eq, Hash)]
pub struct WireSrc(pub Wire);

#[derive(Clone, Copy, Debug, PartialEq, Eq, Hash)]
pub enum WireDstInner {
    /// A parameter, with the amount by which the signal moves it.
    Param(Value, Wire),
    Input(Wire),
}

/// What a signal drives: an input or a parameter of a node, or an output of the
/// enclosing definition.
#[derive(Clone, Copy, Debug, PartialEq, Eq, Hash)]
pub struct WireDst(pub WireDstInner);

/// A wire into a parameter: where the signal comes from, and the amount by
/// which it moves the parameter away from its natural value.
#[derive(Clone, Copy, Debug, PartialEq, Eq, Hash)]
pub struct ParamWire {
    pub src: WireSrc,
    pub value: Value,
}

impl Wire {
    pub fn element(&self) -> (element: ElementSpecifier)
        ensures
            element == self.element,
    {
        self.element
    }

    pub fn input_id(&self) -> (id: AnyInputSpec)
        ensures
            id.0 == self.io_index,
    {
        AnyInputSpec(self.io_index)
    }

    pub fn param_id(&self) -> (id: AnyParamSpec)
        ensures
            id.0 == self.io_index,
    {
        AnyParamSpec(self.io_index)
    }

    pub fn output_id(&self) -> (id: AnyOutputSpec)
        ensures
            id.0 == self.io_index,
    {
        AnyOutputSpec(self.io_index)
    }
}

impl WireDst {
    pub open spec fn spec_rack_output(index: nat) -> WireDst {
        WireDst(
            WireDstInner::Input(
                Wire { io_index: index as usize, element: ElementSpecifier::FuncInputs },
            ),
        )
    }

    pub open spec fn spec_component_input(id: ComponentId, index: nat) -> WireDst {
        WireDst(
            WireDstInner::Input(
                Wire { io_index: index as usize, element: ElementSpecifier::Component { id } },
            ),
        )
    }

    pub open spec fn spec_component_param(id: ComponentId, index: nat, value: Value) -> WireDst {
        WireDst(
            WireDstInner::Param(
                value,
                Wire { io_index: index as usize, element: ElementSpecifier::Component { id } },
            ),
        )
    }

    /// The output `output` of the enclosing definition.
    pub fn rack_output<S: RuntimeSpecifier>(output: S) -> (dst: WireDst)
        ensures
            dst == WireDst::spec_rack_output(output.spec_id()),
    {
        WireDst(
            WireDstInner::Input(
                Wire { io_index: output.id(), element: ElementSpecifier::FuncInputs },
            ),
        )
    }

    /// The input `input` of the node `id`.
    pub fn component_input<S: RuntimeSpecifier>(id: ComponentId, input: S) -> (dst: WireDst)
        ensures
            dst == WireDst::spec_component_input(id, input.spec_id()),
    {
        WireDst(
            WireDstInner::Input(
                Wire { io_index: input.id(), element: ElementSpecifier::Component { id } },
            ),
        )
    }

    /// The parameter `param` of the node `id`, moved by the amount `value`.
    pub fn component_param<S: RuntimeSpecifier>(id: ComponentId, param: S, value: Value) -> (dst:
        WireDst)
        ensures
            dst == WireDst::spec_component_param(id, param.spec_id(), value),
    {
        WireDst(
            WireDstInner::Param(
                value,
                Wire { io_index: param.id(), element: ElementSpecifier::Component { id } },
            ),
        )
    }
}

impl WireSrc {
    pub open spec fn spec_rack_input(index: nat) -> WireSrc {
        WireSrc(Wire { io_index: index as usize, element: ElementSpecifier::FuncInputs })
    }

    pub open spec fn spec_component_output(id: ComponentId, index: nat) -> WireSrc {
        WireSrc(Wire { io_index: index as usize, element: ElementSpecifier::Component { id } })
    }

    /// The input `input` of the enclosing definition: what the host supplies
    /// for the top-level definition, and what the call site wires for another.
    pub fn rack_input<S: RuntimeSpecifier>(input: S) -> (src: WireSrc)
        ensures
            src == WireSrc::spec_rack_input(input.spec_id()),
    {
        WireSrc(Wire { io_index: input.id(), element: ElementSpecifier::FuncInputs })
    }

    /// The output `output` of the node `id`.
    pub fn component_output<S: RuntimeSpecifier>(id: ComponentId, output: S) -> (src: WireSrc)
        ensures
            src == WireSrc::spec_component_output(id, output.spec_id()),
    {
        WireSrc(Wire { io_index: output.id(), element: ElementSpecifier::Component { id } })
    }
}

} // verus!
