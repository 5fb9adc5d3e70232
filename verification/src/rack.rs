//! The definition store: nodes, their wiring, and the definitions that hold them.

use crate::components::{Component, RuntimeSpecifier, SpecId};
use crate::context::Context;
use crate::eval::{
    add_statement_state, advance_statements, cache_view, count_instances_in, eval_wire,
    instances_in, instantiate_one, read_wire, state_of, update_statements, Frame, HostView, Slot,
    SlotView,
};
use crate::params::{spec_get, spec_set, AnyOptStorage, ParamValue};
use crate::uid::{
    node_key, spec_instance_of, spec_node_key, ComponentId, FuncId, Uid, UidGen, ROOT,
};
use crate::value::{opt_signal, AnyIter, Signal, Value};
use crate::wire::{ElementSpecifier, ParamWire, WireDst, WireDstInner, WireSrc};
use std::collections::HashMap;
use std::marker::PhantomData;
use vstd::prelude::*;

verus! {

broadcast use vstd::std_specs::hash::group_hash_axioms;

/// The wiring of a node of some kind: its parameters, and the wire into each
/// of its inputs.
pub struct ComponentMeta {
    pub params: Vec<ParamValue>,
    pub inputs: AnyOptStorage<WireSrc>,
}

/// The wiring of a statement: that of a node, or that of a call of another
/// definition.
pub enum Meta {
    Component(ComponentMeta),
    Function { func_id: FuncId, inputs: AnyOptStorage<WireSrc> },
}

/// A definition: its statements in the order in which they were pushed, and the
/// wire into each of its outputs.
pub struct FuncDef {
    pub statements: Vec<ComponentId>,
    pub out_wires: AnyOptStorage<WireSrc>,
}

/// The definitions that can be called, and the wiring of every statement.
pub struct Wiring {
    pub funcs: HashMap<u32, FuncDef>,
    pub meta_storage: HashMap<u32, Meta>,
}

pub struct ComponentMetaView {
    pub params: Seq<ParamValue>,
    pub inputs: Seq<Option<WireSrc>>,
}

pub enum MetaView {
    Component(ComponentMetaView),
    Function { func_id: FuncId, inputs: Seq<Option<WireSrc>> },
}

pub struct FuncDefView {
    pub statements: Seq<ComponentId>,
    pub out_wires: Seq<Option<WireSrc>>,
}

impl View for ComponentMeta {
    type V = ComponentMetaView;

    open spec fn view(&self) -> ComponentMetaView {
        ComponentMetaView { params: self.params@, inputs: self.inputs@ }
    }
}

impl View for Meta {
    type V = MetaView;

    open spec fn view(&self) -> MetaView {
        match self {
            Meta::Component(cm) => MetaView::Component(cm@),
            Meta::Function { func_id, inputs } => MetaView::Function {
                func_id: *func_id,
                inputs: inputs@,
            },
        }
    }
}

impl View for FuncDef {
    type V = FuncDefView;

    open spec fn view(&self) -> FuncDefView {
        FuncDefView { statements: self.statements@, out_wires: self.out_wires@ }
    }
}

/// The instances that the calls have made: the state of each node instance at
/// its address, the instance that each call made, at the call's address, and
/// the next number that no instance has.
pub struct Instances<C> {
    pub state: HashMap<u64, C>,
    pub children: HashMap<u64, u32>,
    pub next: u32,
}

/// The graph as the evaluation reads it: the definitions, the wiring of the
/// statements, the state of each node instance at its address, the instance
/// that each call made, at the call's address, and the next number that no
/// instance has.
pub struct GraphView<C> {
    pub funcs: Map<u32, FuncDefView>,
    pub meta: Map<u32, MetaView>,
    pub state: Map<u64, C>,
    pub children: Map<u64, u32>,
    pub next: u32,
}

/// Whether no statement stands twice in the list.
pub open spec fn distinct(statements: Seq<ComponentId>) -> bool {
    forall|i: int, j: int| 0 <= i < j < statements.len() ==> statements[i] != statements[j]
}

/// Whether every statement of the list has wiring.
pub open spec fn all_wired(meta: Map<u32, MetaView>, statements: Seq<ComponentId>) -> bool {
    forall|k: int| 0 <= k < statements.len() ==> meta.contains_key(#[trigger] statements[k].0.0)
}

impl<C> GraphView<C> {
    /// Whether the graph is in order. There are finitely many definitions; no
    /// statement stands twice in a definition, and each has wiring. Every call
    /// that made an instance made one of its own, with a number above that of
    /// the instance that the call stands in and below the next number to be
    /// given; and every state belongs to the top level or to an instance with
    /// such a number.
    pub open spec fn wf(self) -> bool {
        &&& self.funcs.dom().finite()
        &&& forall|f: u32| #[trigger]
            self.funcs.contains_key(f) ==> distinct(self.funcs[f].statements) && all_wired(
                self.meta,
                self.funcs[f].statements,
            )
        &&& 0 < self.next
        &&& forall|addr: u64| #[trigger]
            self.state.contains_key(addr) ==> spec_instance_of(addr) < self.next
        &&& forall|k: u64| #[trigger]
            self.children.contains_key(k) ==> spec_instance_of(k) < self.children[k] < self.next
        &&& forall|k: u64, l: u64|
            #![trigger self.children[k], self.children[l]]
            self.children.contains_key(k) && self.children.contains_key(l) && self.children[k]
                == self.children[l] ==> k == l
    }
}

impl MetaView {
    /// The wire into each input.
    pub open spec fn inputs(self) -> Seq<Option<WireSrc>> {
        match self {
            MetaView::Component(cm) => cm.inputs,
            MetaView::Function { inputs, .. } => inputs,
        }
    }
}

impl FuncDef {
    pub fn new() -> (def: FuncDef)
        ensures
            def@ == (FuncDefView { statements: Seq::empty(), out_wires: Seq::empty() }),
    {
        FuncDef { statements: Vec::new(), out_wires: AnyOptStorage::new() }
    }
}

/// The content of a table of definitions.
pub open spec fn funcs_view(funcs: Map<u32, FuncDef>) -> Map<u32, FuncDefView> {
    Map::new(|k: u32| funcs.contains_key(k), |k: u32| funcs[k]@)
}

/// The content of a table of wirings.
pub open spec fn meta_view(meta: Map<u32, Meta>) -> Map<u32, MetaView> {
    Map::new(|k: u32| meta.contains_key(k), |k: u32| meta[k]@)
}

/// The graph that holds these parts.
pub open spec fn graph_view<C>(wiring: Wiring, instances: Instances<C>) -> GraphView<C> {
    GraphView {
        funcs: funcs_view(wiring.funcs@),
        meta: meta_view(wiring.meta_storage@),
        state: instances.state@,
        children: instances.children@,
        next: instances.next,
    }
}

/// The tokens that are in use: those of the statements and of the definitions.
pub open spec fn used_uids(wiring: Wiring) -> Set<u32> {
    wiring.meta_storage@.dom().union(wiring.funcs@.dom())
}

/// The token at `steps` steps after `first`, going round after the last token.
pub open spec fn probe(first: u32, steps: int) -> u32 {
    ((first + steps) % 0x1_0000_0000) as u32
}

/// The first token, going up from `first` and round, that is not in use.
pub fn first_free(wiring: &Wiring, first: Uid) -> (uid: Uid)
    requires
        used_uids(*wiring).len() < u32::MAX,
    ensures
        !used_uids(*wiring).contains(uid.0),
        exists|steps: int|
            0 <= steps <= used_uids(*wiring).len() && uid.0 == probe(first.0, steps) && (forall|
                j: int,
            |
                0 <= j < steps ==> used_uids(*wiring).contains(#[trigger] probe(first.0, j))),
{
    let ghost used = used_uids(*wiring);
    let ghost mut probed: Set<u32> = Set::empty();
    let mut cand: u32 = first.0;
    let mut steps: u64 = 0;
    assert(used.finite());
    while wiring.meta_storage.contains_key(&cand) || wiring.funcs.contains_key(&cand)
        invariant
            used == used_uids(*wiring),
            used.finite(),
            used.len() < u32::MAX,
            probed.finite(),
            probed.len() == steps,
            probed.subset_of(used),
            steps <= used.len(),
            cand == probe(first.0, steps as int),
            forall|u: u32| probed.contains(u) <==> (u - first.0) % 0x1_0000_0000 < steps,
            forall|j: int| 0 <= j < steps ==> used.contains(#[trigger] probe(first.0, j)),
        decreases used.len() - steps,
    {
        assert(used.contains(cand));
        assert(!probed.contains(cand));
        proof {
            let next = probed.insert(cand);
            vstd::set_lib::lemma_len_subset(next, used);
            assert forall|u: u32| next.contains(u) <==> (u - first.0) % 0x1_0000_0000 < steps
                + 1 by {
                if u != cand {
                    assert((u - first.0) % 0x1_0000_0000 != steps);
                }
            }
            probed = next;
        }
        cand = cand.wrapping_add(1);
        steps = steps + 1;
    }
    Uid(cand)
}


/// A rack: the top-level definition, whose inputs and outputs are those of
/// `InputSpec` and `OutputSpec`, the definitions that it can call, the state of
/// every node instance, and what was computed in this tick and in the one
/// before.
pub struct Rack<C: Component, InputSpec: RuntimeSpecifier, OutputSpec: RuntimeSpecifier> {
    _marker: PhantomData<(InputSpec, OutputSpec)>,
    uid_gen: UidGen,
    main: FuncDef,
    wiring: Wiring,
    instances: Instances<C>,
    cur: HashMap<u128, Slot>,
    prev: HashMap<u128, Slot>,
}

/// What a rack holds.
pub struct RackView<C> {
    /// How many inputs the top-level definition declares.
    pub inputs: nat,
    /// How many outputs the top-level definition declares.
    pub outputs: nat,
    pub main: FuncDefView,
    pub graph: GraphView<C>,
    /// What was computed in the running tick.
    pub cur: Map<u128, SlotView>,
    /// What was computed in the tick before.
    pub prev: Map<u128, SlotView>,
}

impl<C: Component, InputSpec: RuntimeSpecifier, OutputSpec: RuntimeSpecifier> View for Rack<C, InputSpec, OutputSpec> {
    type V = RackView<C>;

    closed spec fn view(&self) -> RackView<C> {
        RackView {
            inputs: InputSpec::spec_count(),
            outputs: OutputSpec::spec_count(),
            main: self.main@,
            graph: graph_view(self.wiring, self.instances),
            cur: cache_view(self.cur@),
            prev: cache_view(self.prev@),
        }
    }
}

/// The caches of a rack hold finitely many entries.
pub proof fn lemma_rack_caches_are_finite<C: Component, InputSpec: RuntimeSpecifier, OutputSpec: RuntimeSpecifier>(
    rack: &Rack<C, InputSpec, OutputSpec>,
)
    ensures
        rack@.cur.dom().finite(),
        rack@.prev.dom().finite(),
{
    assert(rack@.cur.dom() =~= rack.cur@.dom());
    assert(rack@.prev.dom() =~= rack.prev@.dom());
}

/// The parameters of a new node: each at its natural value, without a wire.
pub open spec fn default_params(natural: Seq<Value>) -> Seq<ParamValue> {
    Seq::new(natural.len(), |j: int| ParamValue { natural_value: natural[j], wire: None })
}

/// The wiring of a new node of the kind of `c`.
pub open spec fn default_meta<C: Component>(c: C) -> MetaView {
    MetaView::Component(
        ComponentMetaView {
            params: default_params(c.spec_param_default()),
            inputs: Seq::new(c.spec_types().input.len(), |i: int| None),
        },
    )
}

impl<C: Component> RackView<C> {
    /// A rack without nodes, definitions or wires, whose top-level definition
    /// declares so many inputs and outputs.
    pub open spec fn empty(inputs: nat, outputs: nat) -> RackView<C> {
        RackView {
            inputs,
            outputs,
            main: FuncDefView { statements: Seq::empty(), out_wires: Seq::empty() },
            graph: GraphView {
                funcs: Map::empty(),
                meta: Map::empty(),
                state: Map::empty(),
                children: Map::empty(),
                next: 1,
            },
            cur: Map::empty(),
            prev: Map::empty(),
        }
    }

    /// Whether the rack is in order: its graph is, no statement stands twice in
    /// the top-level definition, each of them has wiring, and the caches hold
    /// finitely many entries.
    pub open spec fn wf(self) -> bool {
        &&& self.graph.wf()
        &&& distinct(self.main.statements)
        &&& all_wired(self.graph.meta, self.main.statements)
        &&& self.cur.dom().finite()
        &&& self.prev.dom().finite()
    }

    /// Whether the rack holds the definition: the top-level one, which `None`
    /// stands for, is always there.
    pub open spec fn has_def(self, def: Option<FuncId>) -> bool {
        match def {
            None => true,
            Some(f) => self.graph.funcs.contains_key(f.0.0),
        }
    }

    pub open spec fn def(self, def: Option<FuncId>) -> FuncDefView {
        match def {
            None => self.main,
            Some(f) => self.graph.funcs[f.0.0],
        }
    }

    /// The rack with the definition replaced.
    pub open spec fn with_def(self, def: Option<FuncId>, d: FuncDefView) -> RackView<C> {
        match def {
            None => RackView { main: d, ..self },
            Some(f) => RackView {
                graph: GraphView { funcs: self.graph.funcs.insert(f.0.0, d), ..self.graph },
                ..self
            },
        }
    }

    /// The rack with the wiring of a statement replaced.
    pub open spec fn with_meta(self, id: Uid, m: MetaView) -> RackView<C> {
        RackView { graph: GraphView { meta: self.graph.meta.insert(id.0, m), ..self.graph }, ..self }
    }

    /// The tokens that are in use.
    pub open spec fn used(self) -> Set<u32> {
        self.graph.meta.dom().union(self.graph.funcs.dom())
    }

    /// The rack with a new, empty definition under `id`.
    pub open spec fn new_func(self, id: Uid) -> RackView<C> {
        self.with_def(
            Some(FuncId(id)),
            FuncDefView { statements: Seq::empty(), out_wires: Seq::empty() },
        )
    }

    /// The rack with the node `c` pushed under `id` as the last statement of the
    /// definition: with the wiring of a new node, and with its state at the top
    /// level.
    pub open spec fn push_component(self, def: Option<FuncId>, id: Uid, c: C) -> RackView<C> {
        let v = self.with_meta(id, default_meta(c));
        let v = RackView {
            graph: GraphView {
                state: v.graph.state.insert(spec_node_key(ROOT, id.0), c),
                ..v.graph
            },
            ..v
        };
        v.with_def(
            def,
            FuncDefView { statements: v.def(def).statements.push(ComponentId(id)), ..v.def(def) },
        )
    }

    /// How many instances a call of `callee` makes: its own, and one for each
    /// call among the statements of the callee and of what the callee calls.
    pub open spec fn instances_for_call(self, callee: FuncId) -> nat {
        1 + instances_in(
            self.graph.meta,
            self.graph.funcs,
            self.graph.funcs[callee.0.0].statements,
            0,
            (self.graph.funcs.dom().len() - 1) as nat,
        )
    }

    /// Whether the rack holds the definition `callee` and has an instance number
    /// left for every instance that a call of it makes.
    pub open spec fn call_fits(self, callee: FuncId) -> bool {
        self.has_def(Some(callee)) && self.graph.next + self.instances_for_call(callee)
            <= u32::MAX
    }

    /// The rack with the wiring of a call of `callee` under `id`, and with the
    /// instance that the call makes of the callee as it stands: in it every node
    /// of the callee, and of what the callee calls, has state of its own.
    pub open spec fn with_call(self, id: Uid, callee: FuncId) -> RackView<C> {
        let v = self.with_meta(id, MetaView::Function { func_id: callee, inputs: Seq::empty() });
        RackView { graph: instantiate_one(v.graph, ROOT, id, v.graph.funcs.dom().len()), ..v }
    }

    /// The rack with a call of `callee` pushed under `id` as the last statement
    /// of the definition: without wires, and with an instance of its own, which
    /// is made of the callee as it stands before the call is pushed.
    pub open spec fn push_function_call(self, def: Option<FuncId>, id: Uid, callee: FuncId)
        -> RackView<C> {
        let v = self.with_call(id, callee);
        v.with_def(
            def,
            FuncDefView { statements: v.def(def).statements.push(ComponentId(id)), ..v.def(def) },
        )
    }

    /// Whether `src` is a place that a wire can read from: an input of the
    /// definition, which for the top-level definition has to be one that it
    /// declares, or an output of a statement, which for a node that exists has
    /// to be one that the node declares.
    pub open spec fn src_ok(self, def: Option<FuncId>, src: WireSrc) -> bool {
        match src.0.element {
            ElementSpecifier::FuncInputs => def.is_none() ==> src.0.io_index < self.inputs,
            ElementSpecifier::Component { id } => self.graph.meta.contains_key(id.0.0)
                && self.graph.meta[id.0.0] is Component && self.graph.state.contains_key(
                spec_node_key(ROOT, id.0.0),
            ) ==> src.0.io_index < self.graph.state[spec_node_key(
                ROOT,
                id.0.0,
            )].spec_types().output.len(),
        }
    }

    /// Whether `dst` is a place that a wire can be installed at: an output of
    /// the definition, which for the top-level definition has to be one that it
    /// declares, an input of a statement that exists, or a parameter of a node
    /// that exists; with a port that the node has.
    pub open spec fn wire_ok(self, def: Option<FuncId>, dst: WireDst) -> bool {
        &&& self.has_def(def)
        &&& match dst.0 {
            WireDstInner::Input(w) => w.io_index < usize::MAX && match w.element {
                ElementSpecifier::Component { id } => self.graph.meta.contains_key(id.0.0) && (
                self.graph.meta[id.0.0] is Component ==> w.io_index
                    < self.graph.meta[id.0.0].inputs().len()),
                ElementSpecifier::FuncInputs => def.is_none() ==> w.io_index < self.outputs,
            },
            WireDstInner::Param(_, w) => match w.element {
                ElementSpecifier::Component { id } => self.graph.meta.contains_key(id.0.0) && (
                match self.graph.meta[id.0.0] {
                    MetaView::Component(cm) => w.io_index < cm.params.len(),
                    MetaView::Function { .. } => false,
                }),
                ElementSpecifier::FuncInputs => false,
            },
        }
    }

    /// The rack with the wire from `src` installed at `dst`, in place of what
    /// was installed there.
    pub open spec fn wire(self, def: Option<FuncId>, src: WireSrc, dst: WireDst) -> RackView<C> {
        match dst.0 {
            WireDstInner::Input(w) => match w.element {
                ElementSpecifier::Component { id } => self.with_meta(
                    id.0,
                    match self.graph.meta[id.0.0] {
                        MetaView::Component(cm) => MetaView::Component(
                            ComponentMetaView {
                                inputs: spec_set(cm.inputs, w.io_index as int, Some(src)),
                                ..cm
                            },
                        ),
                        MetaView::Function { func_id, inputs } => MetaView::Function {
                            func_id,
                            inputs: spec_set(inputs, w.io_index as int, Some(src)),
                        },
                    },
                ),
                ElementSpecifier::FuncInputs => self.with_def(
                    def,
                    FuncDefView {
                        out_wires: spec_set(self.def(def).out_wires, w.io_index as int, Some(src)),
                        ..self.def(def)
                    },
                ),
            },
            WireDstInner::Param(value, w) => match w.element {
                ElementSpecifier::Component { id } => match self.graph.meta[id.0.0] {
                    MetaView::Component(cm) => self.with_meta(
                        id.0,
                        MetaView::Component(
                            ComponentMetaView {
                                params: cm.params.update(
                                    w.io_index as int,
                                    ParamValue {
                                        wire: Some(ParamWire { src, value }),
                                        ..cm.params[w.io_index as int]
                                    },
                                ),
                                ..cm
                            },
                        ),
                    ),
                    MetaView::Function { .. } => self,
                },
                ElementSpecifier::FuncInputs => self,
            },
        }
    }

    /// Whether the node exists and has the parameter.
    pub open spec fn param_ok(self, component: ComponentId, param: SpecId) -> bool {
        self.graph.meta.contains_key(component.0.0) && match self.graph.meta[component.0.0] {
            MetaView::Component(cm) => param < cm.params.len(),
            MetaView::Function { .. } => false,
        }
    }

    /// The rack with the natural value of a parameter replaced.
    pub open spec fn set_param(self, component: ComponentId, param: SpecId, value: Value)
        -> RackView<C> {
        match self.graph.meta[component.0.0] {
            MetaView::Component(cm) => self.with_meta(
                component.0,
                MetaView::Component(
                    ComponentMetaView {
                        params: cm.params.update(
                            param as int,
                            ParamValue { natural_value: value, ..cm.params[param as int] },
                        ),
                        ..cm
                    },
                ),
            ),
            MetaView::Function { .. } => self,
        }
    }

    /// The rack after a tick has begun: what was computed in the tick before is
    /// what the cache now answers cycles from, nothing is computed yet, and the
    /// statements of the definition have moved on, in their order.
    pub open spec fn update(self, def: Option<FuncId>, host: HostView) -> RackView<C> {
        RackView {
            inputs: self.inputs,
            outputs: self.outputs,
            main: self.main,
            graph: update_statements(
                self.graph,
                host,
                self.cur,
                Seq::empty(),
                self.def(def).statements,
                0,
                self.graph.funcs.dom().len(),
            ),
            cur: Map::empty(),
            prev: self.cur,
        }
    }

    /// What the output `port` of the definition carries, and the rack with
    /// what was computed on the way: nothing where the output is unwired, else
    /// what the wire into it brings.
    pub open spec fn output(self, def: Option<FuncId>, port: SpecId, host: HostView) -> (
        Option<Signal>,
        RackView<C>,
    ) {
        match spec_get(self.def(def).out_wires, port as int) {
            None => (None, self),
            Some(src) => {
                let (v, st) = eval_wire(
                    self.graph,
                    host,
                    self.prev,
                    state_of(self.cur),
                    Seq::empty(),
                    src.0,
                );
                (v, RackView { cur: st.cache, ..self })
            },
        }
    }
}

impl<C: Component, InputSpec: RuntimeSpecifier, OutputSpec: RuntimeSpecifier> Rack<C, InputSpec, OutputSpec> {
    pub fn new() -> (rack: Self)
        ensures
            rack@ == RackView::<C>::empty(InputSpec::spec_count(), OutputSpec::spec_count()),
            rack@.wf(),
    {
        let rack = Rack {
            _marker: PhantomData,
            uid_gen: UidGen::new(),
            main: FuncDef::new(),
            wiring: Wiring { funcs: HashMap::new(), meta_storage: HashMap::new() },
            instances: Instances { state: HashMap::new(), children: HashMap::new(), next: 1 },
            cur: HashMap::new(),
            prev: HashMap::new(),
        };
        assert(rack@.graph.funcs =~= Map::<u32, FuncDefView>::empty());
        assert(rack@.graph.meta =~= Map::<u32, MetaView>::empty());
        assert(rack@.cur =~= Map::<u128, SlotView>::empty());
        assert(rack@.prev =~= Map::<u128, SlotView>::empty());
        assert(rack@.graph.state =~= Map::<u64, C>::empty());
        assert(rack@.graph.children =~= Map::<u64, u32>::empty());
        rack
    }

    /// A token that is not in use.
    fn fresh_uid(&mut self) -> (uid: Uid)
        requires
            old(self)@.used().len() < u32::MAX,
        ensures
            final(self)@ == old(self)@,
            !old(self)@.used().contains(uid.0),
    {
        assert(self@.used() =~= used_uids(self.wiring));
        let first = self.uid_gen.next();
        first_free(&self.wiring, first)
    }

    /// Adds a definition without statements, under a token that was not in use.
    pub fn new_func(&mut self) -> (id: FuncId)
        requires
            old(self)@.used().len() < u32::MAX,
        ensures
            !old(self)@.used().contains(id.0.0),
            final(self)@ == old(self)@.new_func(id.0),
            old(self)@.wf() ==> final(self)@.wf(),
    {
        let uid = self.fresh_uid();
        self.wiring.funcs.insert(uid.0, FuncDef::new());
        assert(self@.graph.funcs =~= old(self)@.new_func(uid).graph.funcs);
        proof {
            if old(self)@.wf() {
                crate::laws::lemma_rack_stays_in_order(
                    old(self)@,
                    arbitrary(),
                    uid,
                    arbitrary(),
                    arbitrary(),
                    arbitrary(),
                    arbitrary(),
                    arbitrary(),
                    arbitrary(),
                    arbitrary(),
                    arbitrary(),
                );
            }
        }
        FuncId(uid)
    }
}


impl<C: Component, InputSpec: RuntimeSpecifier, OutputSpec: RuntimeSpecifier> Rack<C, InputSpec, OutputSpec> {
    /// Appends a statement to a definition.
    fn push_statement(&mut self, def: Option<FuncId>, id: ComponentId)
        requires
            old(self)@.has_def(def),
        ensures
            final(self)@ == old(self)@.with_def(
                def,
                FuncDefView {
                    statements: old(self)@.def(def).statements.push(id),
                    ..old(self)@.def(def)
                },
            ),
    {
        match def {
            None => {
                self.main.statements.push(id);
            },
            Some(f) => {
                let taken = self.wiring.funcs.remove(&f.0.0);
                match taken {
                    Some(d) => {
                        let mut d = d;
                        d.statements.push(id);
                        self.wiring.funcs.insert(f.0.0, d);
                    },
                    None => {},
                }
                assert(self@.graph.funcs =~= old(self)@.graph.funcs.insert(
                    f.0.0,
                    FuncDefView {
                        statements: old(self)@.def(def).statements.push(id),
                        ..old(self)@.def(def)
                    },
                ));
                assert(self@.graph.meta =~= old(self)@.graph.meta);
            },
        }
    }

    /// Replaces the wiring of a statement.
    fn put_meta(&mut self, id: Uid, meta: Meta)
        ensures
            final(self)@ == old(self)@.with_meta(id, meta@),
    {
        self.wiring.meta_storage.insert(id.0, meta);
        assert(self@.graph.meta =~= old(self)@.graph.meta.insert(id.0, meta@));
        assert(self@.graph.funcs =~= old(self)@.graph.funcs);
    }

    /// Pushes a node as the last statement of a definition, under a token that
    /// was not in use.
    pub fn push_component_in(&mut self, def: Option<FuncId>, component: C) -> (id: ComponentId)
        requires
            old(self)@.has_def(def),
            old(self)@.used().len() < u32::MAX,
        ensures
            !old(self)@.used().contains(id.0.0),
            final(self)@ == old(self)@.push_component(def, id.0, component),
            old(self)@.wf() ==> final(self)@.wf(),
    {
        let uid = self.fresh_uid();
        proof {
            if old(self)@.wf() {
                crate::laws::lemma_rack_stays_in_order(
                    old(self)@,
                    def,
                    uid,
                    arbitrary(),
                    component,
                    arbitrary(),
                    arbitrary(),
                    arbitrary(),
                    arbitrary(),
                    arbitrary(),
                    arbitrary(),
                );
            }
        }
        let natural = component.param_default();
        let types = component.types();
        let mut params: Vec<ParamValue> = Vec::new();
        let mut j: usize = 0;
        while j < natural.len()
            invariant
                j <= natural.len(),
                params@ == default_params(natural@.take(j as int)),
            decreases natural.len() - j,
        {
            params.push(ParamValue { natural_value: natural[j], wire: None });
            assert(params@ =~= default_params(natural@.take(j + 1)));
            j += 1;
        }
        assert(natural@.take(natural.len() as int) =~= natural@);
        let inputs: AnyOptStorage<WireSrc> = AnyOptStorage::with_len(types.input.len());
        let meta = Meta::Component(ComponentMeta { params, inputs });
        assert(meta@ == default_meta(component));
        self.put_meta(uid, meta);
        self.instances.state.insert(node_key(ROOT, uid), component);
        assert(self@.graph.funcs =~= old(self)@.graph.funcs);
        self.push_statement(def, ComponentId(uid));
        ComponentId(uid)
    }

    /// Pushes a call of `callee` as the last statement of a definition, under a
    /// token that was not in use, and gives the callee's statements state inside
    /// the call. The rack has to have an instance number left for every instance
    /// that the call makes.
    pub fn push_function_call_in(&mut self, def: Option<FuncId>, callee: FuncId) -> (id:
        ComponentId)
        requires
            old(self)@.has_def(def),
            old(self)@.call_fits(callee),
            old(self)@.used().len() < u32::MAX,
        ensures
            !old(self)@.used().contains(id.0.0),
            final(self)@ == old(self)@.push_function_call(def, id.0, callee),
            old(self)@.wf() ==> final(self)@.wf(),
    {
        let uid = self.fresh_uid();
        proof {
            if old(self)@.wf() {
                crate::laws::lemma_rack_stays_in_order(
                    old(self)@,
                    def,
                    uid,
                    callee,
                    arbitrary(),
                    arbitrary(),
                    arbitrary(),
                    arbitrary(),
                    arbitrary(),
                    arbitrary(),
                    arbitrary(),
                );
            }
        }
        self.put_meta(uid, Meta::Function { func_id: callee, inputs: AnyOptStorage::new() });
        let depth = self.wiring.funcs.len();
        assert(self@.graph.funcs.dom() =~= self.wiring.funcs@.dom());
        add_statement_state(&self.wiring, &mut self.instances, ROOT, uid, depth);
        assert(self@ == old(self)@.with_call(uid, callee));
        proof {
            crate::laws::lemma_call_keeps_definitions(old(self)@, uid, callee);
        }
        self.push_statement(def, ComponentId(uid));
        ComponentId(uid)
    }

    /// Installs a wire from `src` at `dst`, in place of what was installed
    /// there.
    pub fn wire_in(&mut self, def: Option<FuncId>, src: WireSrc, dst: WireDst)
        requires
            old(self)@.src_ok(def, src),
            old(self)@.wire_ok(def, dst),
        ensures
            final(self)@ == old(self)@.wire(def, src, dst),
            old(self)@.wf() ==> final(self)@.wf(),
    {
        proof {
            if old(self)@.wf() {
                crate::laws::lemma_rack_stays_in_order(
                    old(self)@,
                    def,
                    arbitrary(),
                    arbitrary(),
                    arbitrary(),
                    src,
                    dst,
                    arbitrary(),
                    arbitrary(),
                    arbitrary(),
                    arbitrary(),
                );
            }
        }
        match dst.0 {
            WireDstInner::Input(w) => match w.element {
                ElementSpecifier::Component { id } => {
                    let taken = self.wiring.meta_storage.remove(&id.0.0);
                    match taken {
                        Some(Meta::Component(cm)) => {
                            let mut cm = cm;
                            cm.inputs.set(w.io_index, Some(src));
                            self.wiring.meta_storage.insert(id.0.0, Meta::Component(cm));
                        },
                        Some(Meta::Function { func_id, inputs }) => {
                            let mut inputs = inputs;
                            inputs.set(w.io_index, Some(src));
                            self.wiring.meta_storage.insert(
                                id.0.0,
                                Meta::Function { func_id, inputs },
                            );
                        },
                        None => {},
                    }
                    assert(self@.graph.meta =~= old(self)@.wire(def, src, dst).graph.meta);
                    assert(self@.graph.funcs =~= old(self)@.graph.funcs);
                },
                ElementSpecifier::FuncInputs => match def {
                    None => {
                        self.main.out_wires.set(w.io_index, Some(src));
                    },
                    Some(f) => {
                        let taken = self.wiring.funcs.remove(&f.0.0);
                        match taken {
                            Some(d) => {
                                let mut d = d;
                                d.out_wires.set(w.io_index, Some(src));
                                self.wiring.funcs.insert(f.0.0, d);
                            },
                            None => {},
                        }
                        assert(self@.graph.funcs =~= old(self)@.wire(def, src, dst).graph.funcs);
                        assert(self@.graph.meta =~= old(self)@.graph.meta);
                    },
                },
            },
            WireDstInner::Param(value, w) => match w.element {
                ElementSpecifier::Component { id } => {
                    let taken = self.wiring.meta_storage.remove(&id.0.0);
                    match taken {
                        Some(Meta::Component(cm)) => {
                            let mut cm = cm;
                            let p = cm.params[w.io_index];
                            cm.params.set(
                                w.io_index,
                                ParamValue {
                                    natural_value: p.natural_value,
                                    wire: Some(ParamWire { src, value }),
                                },
                            );
                            self.wiring.meta_storage.insert(id.0.0, Meta::Component(cm));
                        },
                        _ => {},
                    }
                    assert(self@.graph.meta =~= old(self)@.wire(def, src, dst).graph.meta);
                    assert(self@.graph.funcs =~= old(self)@.graph.funcs);
                },
                ElementSpecifier::FuncInputs => {},
            },
        }
    }

    /// Replaces the natural value of a parameter of a node.
    pub fn set_param_in(&mut self, component: ComponentId, param: SpecId, value: Value)
        requires
            old(self)@.param_ok(component, param),
        ensures
            final(self)@ == old(self)@.set_param(component, param, value),
            old(self)@.wf() ==> final(self)@.wf(),
    {
        proof {
            if old(self)@.wf() {
                crate::laws::lemma_rack_stays_in_order(
                    old(self)@,
                    arbitrary(),
                    arbitrary(),
                    arbitrary(),
                    arbitrary(),
                    arbitrary(),
                    arbitrary(),
                    component,
                    param,
                    value,
                    arbitrary(),
                );
            }
        }
        let taken = self.wiring.meta_storage.remove(&component.0.0);
        match taken {
            Some(Meta::Component(cm)) => {
                let mut cm = cm;
                let p = cm.params[param];
                cm.params.set(param, ParamValue { natural_value: value, wire: p.wire });
                self.wiring.meta_storage.insert(component.0.0, Meta::Component(cm));
            },
            _ => {},
        }
        assert(self@.graph.meta =~= old(self)@.set_param(component, param, value).graph.meta);
        assert(self@.graph.funcs =~= old(self)@.graph.funcs);
    }

    /// Begins a tick and moves the statements of a definition on.
    pub fn update_in(&mut self, def: Option<FuncId>, ctx: &Context)
        requires
            old(self)@.has_def(def),
        ensures
            final(self)@ == old(self)@.update(def, ctx@),
            old(self)@.wf() ==> final(self)@.wf(),
    {
        proof {
            if old(self)@.wf() {
                crate::laws::lemma_rack_stays_in_order(
                    old(self)@,
                    def,
                    arbitrary(),
                    arbitrary(),
                    arbitrary(),
                    arbitrary(),
                    arbitrary(),
                    arbitrary(),
                    arbitrary(),
                    arbitrary(),
                    ctx@,
                );
            }
        }
        std::mem::swap(&mut self.prev, &mut self.cur);
        self.cur = HashMap::new();
        assert(self@.cur =~= Map::<u128, SlotView>::empty());
        let depth = self.wiring.funcs.len();
        assert(self@.graph.funcs.dom() =~= self.wiring.funcs@.dom());
        let mut frames: Vec<Frame> = Vec::new();
        match def {
            None => {
                advance_statements(
                    &self.wiring,
                    &mut self.instances,
                    ctx,
                    &self.prev,
                    &mut frames,
                    &self.main.statements,
                    depth,
                );
            },
            Some(f) => match self.wiring.funcs.get(&f.0.0) {
                Some(d) => {
                    advance_statements(
                        &self.wiring,
                        &mut self.instances,
                        ctx,
                        &self.prev,
                        &mut frames,
                        &d.statements,
                        depth,
                    );
                },
                None => {},
            },
        }
    }

    /// Resolves an output of a definition for the running tick.
    pub fn output_in(&mut self, def: Option<FuncId>, port: SpecId, ctx: &Context) -> (signal:
        Option<AnyIter>)
        requires
            old(self)@.has_def(def),
        ensures
            (opt_signal(signal), final(self)@) == old(self)@.output(def, port, ctx@),
            old(self)@.wf() ==> final(self)@.wf(),
    {
        proof {
            if old(self)@.wf() {
                crate::laws::lemma_rack_stays_in_order(
                    old(self)@,
                    def,
                    arbitrary(),
                    arbitrary(),
                    arbitrary(),
                    arbitrary(),
                    arbitrary(),
                    arbitrary(),
                    port,
                    arbitrary(),
                    ctx@,
                );
            }
        }
        let src = match def {
            None => self.main.out_wires.get(port),
            Some(f) => match self.wiring.funcs.get(&f.0.0) {
                Some(d) => d.out_wires.get(port),
                None => None,
            },
        };
        match src {
            None => None,
            Some(src) => {
                let mut frames: Vec<Frame> = Vec::new();
                read_wire(
                    &self.wiring,
                    &self.instances,
                    ctx,
                    &self.prev,
                    &mut self.cur,
                    &mut frames,
                    src.0,
                )
            },
        }
    }
}


/// One definition of a rack, picked out to be built or run: the top-level
/// definition, or one that can be called.
pub struct FuncInstanceGen<
    'a,
    C: Component,
    InputSpec: RuntimeSpecifier,
    OutputSpec: RuntimeSpecifier,
> {
    pub rack: &'a mut Rack<C, InputSpec, OutputSpec>,
    pub def: Option<FuncId>,
}

impl<C: Component, InputSpec: RuntimeSpecifier, OutputSpec: RuntimeSpecifier> Rack<C, InputSpec, OutputSpec> {
    /// The top-level definition.
    pub fn main_mut(&mut self) -> (func: FuncInstanceGen<'_, C, InputSpec, OutputSpec>)
        ensures
            func.rack@ == old(self)@,
            func.def.is_none(),
            *final(self) == *final(func.rack),
    {
        FuncInstanceGen { rack: self, def: None }
    }

    /// The definition `id`.
    pub fn func_mut(&mut self, id: FuncId) -> (func: FuncInstanceGen<'_, C, InputSpec, OutputSpec>)
        ensures
            func.rack@ == old(self)@,
            func.def == Some(id),
            *final(self) == *final(func.rack),
    {
        FuncInstanceGen { rack: self, def: Some(id) }
    }

    /// Pushes a node as the last statement of the top-level definition. The node
    /// gets a token that was not in use.
    pub fn new_component(&mut self, component: C) -> (id: ComponentId)
        requires
            old(self)@.used().len() < u32::MAX,
        ensures
            !old(self)@.used().contains(id.0.0),
            final(self)@ == old(self)@.push_component(None, id.0, component),
            old(self)@.wf() ==> final(self)@.wf(),
    {
        self.push_component_in(None, component)
    }

    /// Installs a wire from `src` at `dst` in the top-level definition. A wire
    /// that was installed at `dst` before is replaced.
    pub fn wire(&mut self, src: WireSrc, dst: WireDst)
        requires
            old(self)@.src_ok(None, src),
            old(self)@.wire_ok(None, dst),
        ensures
            final(self)@ == old(self)@.wire(None, src, dst),
            old(self)@.wf() ==> final(self)@.wf(),
    {
        self.wire_in(None, src, dst)
    }

    /// Replaces the natural value of a parameter of a node.
    pub fn set_param<S: RuntimeSpecifier>(&mut self, component: ComponentId, param: S, value: Value)
        requires
            old(self)@.param_ok(component, param.spec_id() as usize),
        ensures
            final(self)@ == old(self)@.set_param(component, param.spec_id() as usize, value),
            old(self)@.wf() ==> final(self)@.wf(),
    {
        self.set_param_in(component, param.id(), value)
    }

    /// Begins a tick and moves every statement of the top-level definition on.
    pub fn update(&mut self, ctx: &Context)
        ensures
            final(self)@ == old(self)@.update(None, ctx@),
            old(self)@.wf() ==> final(self)@.wf(),
    {
        self.update_in(None, ctx)
    }

    /// Get a specific output of this rack.
    pub fn output(&mut self, spec: OutputSpec, ctx: &Context) -> (signal: Option<AnyIter>)
        ensures
            (opt_signal(signal), final(self)@) == old(self)@.output(
                None,
                spec.spec_id() as usize,
                ctx@,
            ),
            old(self)@.wf() ==> final(self)@.wf(),
    {
        self.output_in(None, spec.id(), ctx)
    }
}

impl<C: Component, InputSpec: RuntimeSpecifier, OutputSpec: RuntimeSpecifier> Rack<C, InputSpec, OutputSpec> {
    /// The top-level definition as it stands.
    pub fn main(&self) -> (def: &FuncDef)
        ensures
            def@ == self@.main,
    {
        &self.main
    }

    /// The definition `id` as it stands, where the rack has it.
    pub fn func(&self, id: FuncId) -> (def: Option<&FuncDef>)
        ensures
            def.is_some() <==> self@.has_def(Some(id)),
            def matches Some(d) ==> d@ == self@.def(Some(id)),
    {
        self.wiring.funcs.get(&id.0.0)
    }

    /// The wiring of a statement, where the rack has the statement.
    pub fn meta(&self, id: ComponentId) -> (meta: Option<&Meta>)
        ensures
            meta.is_some() <==> self@.graph.meta.contains_key(id.0.0),
            meta matches Some(m) ==> m@ == self@.graph.meta[id.0.0],
    {
        self.wiring.meta_storage.get(&id.0.0)
    }

    /// The state that a node has at the top level, where the rack has the node.
    pub fn component(&self, id: ComponentId) -> (component: Option<&C>)
        ensures
            component.is_some() <==> self@.graph.state.contains_key(spec_node_key(ROOT, id.0.0)),
            component matches Some(c) ==> *c == self@.graph.state[spec_node_key(ROOT, id.0.0)],
    {
        self.instances.state.get(&node_key(ROOT, id.0))
    }

    /// Whether the rack holds the definition.
    pub fn has_def(&self, def: Option<FuncId>) -> (has: bool)
        ensures
            has == self@.has_def(def),
    {
        match def {
            None => true,
            Some(f) => self.wiring.funcs.contains_key(&f.0.0),
        }
    }

    /// Whether the rack holds the definition `callee` and has an instance number
    /// left for every instance that a call of it makes.
    pub fn can_call(&self, callee: FuncId) -> (ok: bool)
        ensures
            ok == self@.call_fits(callee),
    {
        assert(self@.graph.funcs.dom() =~= self.wiring.funcs@.dom());
        match self.wiring.funcs.get(&callee.0.0) {
            Some(def) => {
                let depth = self.wiring.funcs.len();
                assert(depth > 0) by {
                    if self.wiring.funcs@.dom().len() == 0 {
                        vstd::set_lib::lemma_set_empty_equivalency_len(self.wiring.funcs@.dom());
                        assert(self.wiring.funcs@.dom().contains(callee.0.0));
                    }
                }
                let inner = count_instances_in(&self.wiring, &def.statements, depth - 1);
                self.instances.next as u64 + 1 + inner <= 0xffff_ffffu64
            },
            None => false,
        }
    }

    /// Whether a wire can read from `src` in the definition.
    pub fn can_read(&self, def: Option<FuncId>, src: &WireSrc) -> (ok: bool)
        ensures
            ok == self@.src_ok(def, *src),
    {
        match src.0.element {
            ElementSpecifier::FuncInputs => match def {
                None => InputSpec::has_id(src.0.io_index),
                Some(_) => true,
            },
            ElementSpecifier::Component { id } => match self.wiring.meta_storage.get(&id.0.0) {
                Some(Meta::Component(_)) => match self.instances.state.get(&node_key(ROOT, id.0)) {
                    Some(node) => {
                        let types = node.types();
                        src.0.io_index < types.output.len()
                    },
                    None => true,
                },
                _ => true,
            },
        }
    }

    /// Whether a wire can be installed at `dst` in the definition.
    pub fn can_wire(&self, def: Option<FuncId>, dst: &WireDst) -> (ok: bool)
        ensures
            ok == self@.wire_ok(def, *dst),
    {
        if !self.has_def(def) {
            return false;
        }
        match dst.0 {
            WireDstInner::Input(w) => {
                if w.io_index == usize::MAX {
                    return false;
                }
                match w.element {
                    ElementSpecifier::Component { id } => match self.wiring.meta_storage.get(
                        &id.0.0,
                    ) {
                        Some(Meta::Component(cm)) => w.io_index < cm.inputs.len(),
                        Some(Meta::Function { .. }) => true,
                        None => false,
                    },
                    ElementSpecifier::FuncInputs => match def {
                        None => OutputSpec::has_id(w.io_index),
                        Some(_) => true,
                    },
                }
            },
            WireDstInner::Param(_, w) => match w.element {
                ElementSpecifier::Component { id } => match self.wiring.meta_storage.get(&id.0.0) {
                    Some(Meta::Component(cm)) => w.io_index < cm.params.len(),
                    _ => false,
                },
                ElementSpecifier::FuncInputs => false,
            },
        }
    }

    /// Whether the node exists and has the parameter.
    pub fn has_param(&self, component: ComponentId, param: SpecId) -> (has: bool)
        ensures
            has == self@.param_ok(component, param),
    {
        match self.wiring.meta_storage.get(&component.0.0) {
            Some(Meta::Component(cm)) => param < cm.params.len(),
            _ => false,
        }
    }

    /// How many statements and definitions the rack holds, as far as the number
    /// can be held. No more tokens than that are in use.
    pub fn len(&self) -> (len: usize)
        ensures
            len == if self@.graph.meta.dom().len() + self@.graph.funcs.dom().len() <= usize::MAX {
                self@.graph.meta.dom().len() + self@.graph.funcs.dom().len()
            } else {
                usize::MAX as nat
            },
            self@.used().len() <= self@.graph.meta.dom().len() + self@.graph.funcs.dom().len(),
    {
        proof {
            vstd::set_lib::lemma_len_union(self@.graph.meta.dom(), self@.graph.funcs.dom());
            assert(self@.graph.meta.dom() =~= self.wiring.meta_storage@.dom());
            assert(self@.graph.funcs.dom() =~= self.wiring.funcs@.dom());
        }
        self.wiring.meta_storage.len().saturating_add(self.wiring.funcs.len())
    }
}

impl<'a, C: Component, InputSpec: RuntimeSpecifier, OutputSpec: RuntimeSpecifier> FuncInstanceGen<
    'a,
    C,
    InputSpec,
    OutputSpec,
> {
    /// What the rack holds.
    pub open spec fn rack_view(&self) -> RackView<C> {
        self.rack@
    }

    /// The definition as it stands.
    pub fn def(&self) -> (def: &FuncDef)
        requires
            self.rack_view().has_def(self.def),
        ensures
            def@ == self.rack_view().def(self.def),
    {
        match self.def {
            None => &self.rack.main,
            Some(f) => match self.rack.wiring.funcs.get(&f.0.0) {
                Some(d) => d,
                None => &self.rack.main,
            },
        }
    }

    /// Installs a wire from `src` at `dst`. A wire that was installed at `dst`
    /// before is replaced.
    pub fn wire(&mut self, src: WireSrc, dst: WireDst)
        requires
            old(self).rack@.src_ok(old(self).def, src),
            old(self).rack@.wire_ok(old(self).def, dst),
        ensures
            final(self).rack@ == old(self).rack@.wire(old(self).def, src, dst),
            final(self).def == old(self).def,
            old(self).rack@.wf() ==> final(self).rack@.wf(),
            *final(final(self).rack) == *final(old(self).rack),
    {
        self.rack.wire_in(self.def, src, dst)
    }

    /// Begins a tick and moves every statement of this definition on.
    pub fn update(&mut self, ctx: &Context)
        requires
            old(self).rack@.has_def(old(self).def),
        ensures
            final(self).rack@ == old(self).rack@.update(old(self).def, ctx@),
            final(self).def == old(self).def,
            old(self).rack@.wf() ==> final(self).rack@.wf(),
            *final(final(self).rack) == *final(old(self).rack),
    {
        self.rack.update_in(self.def, ctx)
    }

    /// Replaces the natural value of a parameter of a node.
    pub fn set_param<S: RuntimeSpecifier>(&mut self, component: ComponentId, param: S, value: Value)
        requires
            old(self).rack@.param_ok(component, param.spec_id() as usize),
        ensures
            final(self).rack@ == old(self).rack@.set_param(
                component,
                param.spec_id() as usize,
                value,
            ),
            final(self).def == old(self).def,
            old(self).rack@.wf() ==> final(self).rack@.wf(),
            *final(final(self).rack) == *final(old(self).rack),
    {
        self.rack.set_param_in(component, param.id(), value)
    }

    /// Pushes a node as the last statement of this definition. The node gets a
    /// token that was not in use.
    pub fn push_component(&mut self, component: C) -> (id: ComponentId)
        requires
            old(self).rack@.has_def(old(self).def),
            old(self).rack@.used().len() < u32::MAX,
        ensures
            !old(self).rack@.used().contains(id.0.0),
            final(self).rack@ == old(self).rack@.push_component(old(self).def, id.0, component),
            final(self).def == old(self).def,
            old(self).rack@.wf() ==> final(self).rack@.wf(),
            *final(final(self).rack) == *final(old(self).rack),
    {
        self.rack.push_component_in(self.def, component)
    }

    /// Pushes a call of the definition `fid` as the last statement of this
    /// definition. The call gets a token that was not in use, and every node
    /// inside the callee gets state of its own inside the call.
    pub fn push_function_call(&mut self, fid: FuncId) -> (id: ComponentId)
        requires
            old(self).rack@.has_def(old(self).def),
            old(self).rack@.call_fits(fid),
            old(self).rack@.used().len() < u32::MAX,
        ensures
            !old(self).rack@.used().contains(id.0.0),
            final(self).rack@ == old(self).rack@.push_function_call(old(self).def, id.0, fid),
            final(self).def == old(self).def,
            old(self).rack@.wf() ==> final(self).rack@.wf(),
            *final(final(self).rack) == *final(old(self).rack),
    {
        self.rack.push_function_call_in(self.def, fid)
    }

    /// Get a specific output of this function.
    pub fn output<S: RuntimeSpecifier>(&mut self, spec: S, ctx: &Context) -> (signal: Option<
        AnyIter,
    >)
        requires
            old(self).rack@.has_def(old(self).def),
        ensures
            (opt_signal(signal), final(self).rack@) == old(self).rack@.output(
                old(self).def,
                spec.spec_id() as usize,
                ctx@,
            ),
            final(self).def == old(self).def,
            old(self).rack@.wf() ==> final(self).rack@.wf(),
            *final(final(self).rack) == *final(old(self).rack),
    {
        self.rack.output_in(self.def, spec.id(), ctx)
    }
}

} // verus!
