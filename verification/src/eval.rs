//! The evaluation engine: resolves wires to signals on demand, remembers within
//! a tick what it has computed, and answers from the tick before where a node
//! asks for its own output.

use crate::components::{
    signals_view, AnyOutputSpec, Component, ContextForComponent, CtxView, SpecId,
};
use crate::context::Context;
use crate::params::{access_value, spec_access_value, spec_get};
use crate::rack::{
    funcs_view, graph_view, meta_view, ComponentMeta, ComponentMetaView, FuncDefView, GraphView,
    Instances, Meta, MetaView, Wiring,
};
use crate::uid::{
    key_space, lemma_key_space, node_key, slot_key, spec_node_key, spec_slot_key, ComponentId, Uid,
    ROOT,
};
use crate::value::{
    duplicate_opt, opt_signal, spec_default_signal, AnyIter, Signal, Value, ValueType,
};
use crate::wire::{ElementSpecifier, Wire};
use std::collections::HashMap;
use vstd::prelude::*;

verus! {

broadcast use vstd::std_specs::hash::group_hash_axioms;

/// What the engine remembers of one output during a tick, once it has been asked
/// for: that it is being computed, or what it carries.
pub enum Slot {
    InProgress,
    Computed(Option<AnyIter>),
}

pub enum SlotView {
    InProgress,
    Computed(Option<Signal>),
}

impl View for Slot {
    type V = SlotView;

    open spec fn view(&self) -> SlotView {
        match self {
            Slot::InProgress => SlotView::InProgress,
            Slot::Computed(s) => SlotView::Computed(opt_signal(*s)),
        }
    }
}

/// The content of a cache: an output that was not asked for has no entry.
pub open spec fn cache_view(cache: Map<u128, Slot>) -> Map<u128, SlotView> {
    Map::new(|k: u128| cache.contains_key(k), |k: u128| cache[k]@)
}

/// One level of nesting: the call through which a definition was entered, and
/// the instance that the call made.
#[derive(Clone, Copy, Debug)]
pub struct Frame {
    pub call: Uid,
    pub inst: u32,
}

/// What the host supplies for a tick: a signal for each input of the top-level
/// definition, where it has one, and the sample rate.
pub struct HostView {
    pub inputs: Seq<Option<Signal>>,
    pub sample_rate: u32,
}

/// The cache of the running tick, and how many outputs can still be entered
/// into it.
pub struct EvalState {
    pub cache: Map<u128, SlotView>,
    pub budget: nat,
}

/// The state in which a cache with these entries leaves the evaluation.
pub open spec fn state_of(cache: Map<u128, SlotView>) -> EvalState {
    EvalState { cache, budget: (key_space() - cache.dom().len()) as nat }
}

/// The instance that the innermost frame stands for.
pub open spec fn frames_inst(frames: Seq<Frame>) -> u32 {
    if frames.len() == 0 {
        ROOT
    } else {
        frames.last().inst
    }
}

/// The wires that a node reads: those into its inputs, then those into its
/// parameters.
pub open spec fn node_sources(cm: ComponentMetaView) -> Seq<Option<Wire>> {
    Seq::new(
        cm.inputs.len() + cm.params.len(),
        |i: int|
            if i < cm.inputs.len() {
                match cm.inputs[i] {
                    Some(src) => Some(src.0),
                    None => None,
                }
            } else {
                match cm.params[i - cm.inputs.len()].wire {
                    Some(w) => Some(w.src.0),
                    None => None,
                }
            },
    )
}

/// What a node reads during a tick, given what its wires brought: the signals
/// on its inputs, and each parameter resolved from its natural value and its
/// wire.
pub open spec fn node_ctx(cm: ComponentMetaView, results: Seq<Option<Signal>>, sample_rate: u32)
    -> CtxView {
    CtxView {
        inputs: results.take(cm.inputs.len() as int),
        params: Seq::new(
            cm.params.len(),
            |j: int|
                spec_access_value(
                    cm.params[j].natural_value,
                    cm.params[j].wire,
                    results[cm.inputs.len() + j],
                ),
        ),
        sample_rate,
    }
}

/// The type of the output `port` of the statement `id` in the instance at
/// `addr`: what the node declares, and a continuous signal for a call or an
/// output that is not declared.
pub open spec fn port_type<C: Component>(g: GraphView<C>, id: Uid, addr: u64, port: SpecId)
    -> ValueType {
    if g.meta.contains_key(id.0) && g.meta[id.0] is Component && g.state.contains_key(addr)
        && port < g.state[addr].spec_types().output.len() {
        g.state[addr].spec_types().output[port as int]
    } else {
        ValueType::spec_continuous()
    }
}

/// What an output that is being computed gives to a node that asks for it: what
/// it carried in the tick before, or the default of its type where it carried
/// nothing then.
pub open spec fn fallback(prev: Map<u128, SlotView>, key: u128, ty: ValueType) -> Signal {
    if prev.contains_key(key) {
        match prev[key] {
            SlotView::Computed(Some(s)) => s,
            _ => spec_default_signal(ty),
        }
    } else {
        spec_default_signal(ty)
    }
}

/// The state after the output under `key` was entered as being computed.
pub open spec fn mark(st: EvalState, key: u128) -> EvalState {
    EvalState { cache: st.cache.insert(key, SlotView::InProgress), budget: (st.budget - 1) as nat }
}

/// The state after the output under `key` was computed.
pub open spec fn store(st: EvalState, key: u128, v: Option<Signal>) -> EvalState {
    EvalState { cache: st.cache.insert(key, SlotView::Computed(v)), budget: st.budget }
}

/// The state `after`, which followed `before`, with no more budget than `before`.
pub open spec fn carry(before: EvalState, after: EvalState) -> EvalState {
    EvalState {
        cache: after.cache,
        budget: if after.budget <= before.budget {
            after.budget
        } else {
            before.budget
        },
    }
}

/// What a wire brings, and the cache afterwards: what the input of the
/// definition brings, or what the output of the statement brings.
pub open spec fn eval_wire<C: Component>(
    g: GraphView<C>,
    host: HostView,
    prev: Map<u128, SlotView>,
    st: EvalState,
    frames: Seq<Frame>,
    wire: Wire,
) -> (Option<Signal>, EvalState)
    decreases st.budget, frames.len(), 4nat, 0nat,
{
    match wire.element {
        ElementSpecifier::FuncInputs => eval_func_input(g, host, prev, st, frames, wire.io_index),
        ElementSpecifier::Component { id } => eval_output(
            g,
            host,
            prev,
            st,
            frames,
            id.0,
            wire.io_index,
        ),
    }
}

/// What an input of the enclosing definition brings. At the top level the host
/// answers. Inside a call it is what the call site wires to that input, read in
/// the caller; an input that the call site leaves unwired brings nothing.
pub open spec fn eval_func_input<C: Component>(
    g: GraphView<C>,
    host: HostView,
    prev: Map<u128, SlotView>,
    st: EvalState,
    frames: Seq<Frame>,
    port: SpecId,
) -> (Option<Signal>, EvalState)
    decreases st.budget, frames.len(), 3nat, 0nat,
{
    if frames.len() == 0 {
        (spec_get(host.inputs, port as int), st)
    } else {
        let call = frames.last().call;
        if g.meta.contains_key(call.0) {
            match g.meta[call.0] {
                MetaView::Function { inputs, .. } => match spec_get(inputs, port as int) {
                    Some(src) => eval_wire(g, host, prev, st, frames.drop_last(), src.0),
                    None => (None, st),
                },
                MetaView::Component(_) => (None, st),
            }
        } else {
            (None, st)
        }
    }
}

/// What an output of a statement brings. Where the output was asked for before
/// in this tick the cache answers: with its signal where it is computed, and
/// with `fallback` where it is being computed, which is how a cycle ends. Else
/// it is computed and entered. A statement that does not exist brings nothing.
pub open spec fn eval_output<C: Component>(
    g: GraphView<C>,
    host: HostView,
    prev: Map<u128, SlotView>,
    st: EvalState,
    frames: Seq<Frame>,
    id: Uid,
    port: SpecId,
) -> (Option<Signal>, EvalState)
    decreases st.budget, frames.len(), 3nat, 0nat,
{
    let addr = spec_node_key(frames_inst(frames), id.0);
    let key = spec_slot_key(addr, port);
    if !g.meta.contains_key(id.0) {
        (None, st)
    } else if st.cache.contains_key(key) {
        match st.cache[key] {
            SlotView::Computed(v) => (v, st),
            SlotView::InProgress => (Some(fallback(prev, key, port_type(g, id, addr, port))), st),
        }
    } else {
        match g.meta[id.0] {
            MetaView::Component(cm) => compute_node(g, host, prev, st, frames, cm, addr, port),
            MetaView::Function { func_id, .. } => compute_call(
                g,
                host,
                prev,
                st,
                frames,
                id,
                func_id.0,
                port,
            ),
        }
    }
}

/// The output `port` of the node with wiring `cm` and its state at `addr`,
/// computed afresh: the output is entered as being computed, the node's wires
/// are read, the node computes the output from what they brought, and the
/// result is entered. A node without state at this address brings nothing.
pub open spec fn compute_node<C: Component>(
    g: GraphView<C>,
    host: HostView,
    prev: Map<u128, SlotView>,
    st: EvalState,
    frames: Seq<Frame>,
    cm: ComponentMetaView,
    addr: u64,
    port: SpecId,
) -> (Option<Signal>, EvalState)
    decreases st.budget, frames.len(), 2nat, 0nat,
{
    let key = spec_slot_key(addr, port);
    if st.budget == 0 || !g.state.contains_key(addr) {
        (None, st)
    } else {
        let (results, st2) = eval_sources(
            g,
            host,
            prev,
            mark(st, key),
            frames,
            node_sources(cm),
            0,
            Seq::empty(),
        );
        let v = Some(
            g.state[addr].spec_output(port as int, node_ctx(cm, results, host.sample_rate)),
        );
        (v, store(st2, key, v))
    }
}

/// The output `port` of the call `id` of the definition `func`, computed
/// afresh: the output is entered as being computed, the wire into that output
/// of the definition is read inside the instance that the call made, and the
/// result is entered. A definition that does not exist, or whose output is
/// unwired, brings nothing; and so does a call that made no instance.
pub open spec fn compute_call<C: Component>(
    g: GraphView<C>,
    host: HostView,
    prev: Map<u128, SlotView>,
    st: EvalState,
    frames: Seq<Frame>,
    id: Uid,
    func: Uid,
    port: SpecId,
) -> (Option<Signal>, EvalState)
    decreases st.budget, frames.len(), 2nat, 0nat,
{
    let addr = spec_node_key(frames_inst(frames), id.0);
    let key = spec_slot_key(addr, port);
    if st.budget == 0 || !g.funcs.contains_key(func.0) || !g.children.contains_key(addr) {
        (None, st)
    } else {
        match spec_get(g.funcs[func.0].out_wires, port as int) {
            Some(src) => {
                let (v, st2) = eval_wire(
                    g,
                    host,
                    prev,
                    mark(st, key),
                    frames.push(Frame { call: id, inst: g.children[addr] }),
                    src.0,
                );
                (v, store(st2, key, v))
            },
            None => (None, st),
        }
    }
}

/// What the wires `sources` bring from the `i`th on, read one after the other,
/// after `acc`; and the cache afterwards. An absent wire brings nothing.
pub open spec fn eval_sources<C: Component>(
    g: GraphView<C>,
    host: HostView,
    prev: Map<u128, SlotView>,
    st: EvalState,
    frames: Seq<Frame>,
    sources: Seq<Option<Wire>>,
    i: nat,
    acc: Seq<Option<Signal>>,
) -> (Seq<Option<Signal>>, EvalState)
    decreases st.budget, frames.len(), 5nat, sources.len() - i,
{
    if i >= sources.len() {
        (acc, st)
    } else {
        let (r, st1) = match sources[i as int] {
            Some(w) => eval_wire(g, host, prev, st, frames, w),
            None => (None, st),
        };
        eval_sources(g, host, prev, carry(st, st1), frames, sources, i + 1, acc.push(r))
    }
}

/// The wires that a node reads, in the order in which it reads them.
pub fn sources_of(cm: &ComponentMeta) -> (sources: Vec<Option<Wire>>)
    ensures
        sources@ == node_sources(cm@),
{
    let mut sources: Vec<Option<Wire>> = Vec::new();
    let n_in = cm.inputs.len();
    let mut i: usize = 0;
    while i < n_in
        invariant
            i <= n_in,
            n_in == cm.inputs@.len(),
            sources@.len() == i,
            forall|k: int| 0 <= k < i ==> sources@[k] == node_sources(cm@)[k],
        decreases n_in - i,
    {
        let w = match cm.inputs.get(i) {
            Some(src) => Some(src.0),
            None => None,
        };
        sources.push(w);
        i += 1;
    }
    let mut j: usize = 0;
    while j < cm.params.len()
        invariant
            j <= cm.params.len(),
            n_in == cm.inputs@.len(),
            sources@.len() == n_in + j,
            forall|k: int| 0 <= k < n_in + j ==> sources@[k] == node_sources(cm@)[k],
        decreases cm.params.len() - j,
    {
        let w = match cm.params[j].wire {
            Some(w) => Some(w.src.0),
            None => None,
        };
        sources.push(w);
        j += 1;
    }
    assert(sources@ =~= node_sources(cm@));
    sources
}

/// What a node reads during a tick, from what its wires brought.
pub fn make_ctx(cm: &ComponentMeta, results: Vec<Option<AnyIter>>, sample_rate: u32) -> (ctx:
    ContextForComponent)
    requires
        results@.len() == cm.inputs@.len() + cm.params@.len(),
    ensures
        ctx@ == node_ctx(cm@, signals_view(results@), sample_rate),
{
    let ghost all = signals_view(results@);
    let n_in = cm.inputs.len();
    let mut inputs = results;
    let tail = inputs.split_off(n_in);
    let mut params: Vec<Value> = Vec::new();
    let mut j: usize = 0;
    while j < cm.params.len()
        invariant
            j <= cm.params.len(),
            n_in == cm.inputs@.len(),
            tail@.len() == cm.params@.len(),
            params@.len() == j,
            forall|k: int| 0 <= k < tail@.len() ==> opt_signal(tail@[k]) == all[n_in + k],
            forall|k: int|
                0 <= k < j ==> params@[k] == spec_access_value(
                    cm.params@[k].natural_value,
                    cm.params@[k].wire,
                    all[n_in + k],
                ),
        decreases cm.params.len() - j,
    {
        let p = cm.params[j];
        params.push(access_value(p.natural_value, p.wire, &tail[j]));
        j += 1;
    }
    assert(signals_view(inputs@) =~= all.take(n_in as int));
    assert(params@ =~= node_ctx(cm@, all, sample_rate).params);
    ContextForComponent::new(inputs, params, sample_rate)
}

/// The type of an output of a statement, as `port_type` gives it.
fn port_type_of<C: Component>(
    wiring: &Wiring,
    inst: &Instances<C>,
    id: Uid,
    addr: u64,
    port: SpecId,
) -> (ty: ValueType)
    ensures
        ty == port_type(graph_view(*wiring, *inst), id, addr, port),
{
    match wiring.meta_storage.get(&id.0) {
        Some(Meta::Component(_)) => match inst.state.get(&addr) {
            Some(comp) => {
                let types = comp.types();
                if port < types.output.len() {
                    types.output[port]
                } else {
                    ValueType::continuous()
                }
            },
            None => ValueType::continuous(),
        },
        _ => ValueType::continuous(),
    }
}

/// What an output that is being computed gives to a node that asks for it.
fn fallback_of(prev: &HashMap<u128, Slot>, key: u128, ty: ValueType) -> (signal: AnyIter)
    ensures
        signal@ == fallback(cache_view(prev@), key, ty),
{
    match prev.get(&key) {
        Some(Slot::Computed(Some(s))) => s.duplicate(),
        _ => AnyIter::default_for(ty),
    }
}

/// Entering a new key into a cache takes one from the budget.
proof fn lemma_mark(cache: Map<u128, Slot>, key: u128)
    requires
        cache.dom().finite(),
        !cache.contains_key(key),
    ensures
        state_of(cache_view(cache)).budget > 0,
        state_of(cache_view(cache.insert(key, Slot::InProgress))) == mark(
            state_of(cache_view(cache)),
            key,
        ),
{
    lemma_key_space(cache.dom().insert(key));
    assert(cache_view(cache).dom() =~= cache.dom());
    assert(cache_view(cache.insert(key, Slot::InProgress)).dom() =~= cache.dom().insert(key));
    assert(cache_view(cache.insert(key, Slot::InProgress)) =~= cache_view(cache).insert(
        key,
        SlotView::InProgress,
    ));
}

/// Entering a result under a key that the cache holds leaves the budget.
proof fn lemma_store(cache: Map<u128, Slot>, key: u128, slot: Slot)
    requires
        cache.dom().finite(),
        cache.contains_key(key),
        slot is Computed,
    ensures
        state_of(cache_view(cache.insert(key, slot))) == store(
            state_of(cache_view(cache)),
            key,
            slot@->Computed_0,
        ),
{
    assert(cache_view(cache).dom() =~= cache.dom());
    assert(cache.dom().insert(key) =~= cache.dom());
    assert(cache_view(cache.insert(key, slot)).dom() =~= cache.dom());
    assert(cache_view(cache.insert(key, slot)) =~= cache_view(cache).insert(key, slot@));
}

/// A cache that has grown has no more budget than before.
proof fn lemma_carry(before: Map<u128, Slot>, after: Map<u128, Slot>)
    requires
        before.dom().finite(),
        after.dom().finite(),
        before.dom().subset_of(after.dom()),
    ensures
        carry(state_of(cache_view(before)), state_of(cache_view(after))) == state_of(
            cache_view(after),
        ),
{
    assert(cache_view(before).dom() =~= before.dom());
    assert(cache_view(after).dom() =~= after.dom());
    vstd::set_lib::lemma_len_subset(before.dom(), after.dom());
    lemma_key_space(after.dom());
}

/// Resolves a wire to what it brings during this tick, as `eval_wire` says, and
/// enters into the cache what was computed on the way.
pub fn read_wire<C: Component>(
    wiring: &Wiring,
    inst: &Instances<C>,
    host: &Context,
    prev: &HashMap<u128, Slot>,
    cache: &mut HashMap<u128, Slot>,
    frames: &mut Vec<Frame>,
    wire: Wire,
) -> (signal: Option<AnyIter>)
    ensures
        eval_wire(
            graph_view(*wiring, *inst),
            host@,
            cache_view(prev@),
            state_of(cache_view(old(cache)@)),
            old(frames)@,
            wire,
        ) == (opt_signal(signal), state_of(cache_view(final(cache)@))),
        old(cache)@.dom().subset_of(final(cache)@.dom()),
        final(frames)@ == old(frames)@,
    decreases key_space() - old(cache)@.dom().len(), old(frames)@.len(), 4nat, 0nat,
{
    proof {
        lemma_key_space(cache@.dom());
    }
    match wire.element {
        ElementSpecifier::FuncInputs => read_func_input(
            wiring,
            inst,
            host,
            prev,
            cache,
            frames,
            wire.io_index,
        ),
        ElementSpecifier::Component { id } => read_output(
            wiring,
            inst,
            host,
            prev,
            cache,
            frames,
            id.0,
            wire.io_index,
        ),
    }
}

/// Resolves an input of the enclosing definition, as `eval_func_input` says.
pub fn read_func_input<C: Component>(
    wiring: &Wiring,
    inst: &Instances<C>,
    host: &Context,
    prev: &HashMap<u128, Slot>,
    cache: &mut HashMap<u128, Slot>,
    frames: &mut Vec<Frame>,
    port: SpecId,
) -> (signal: Option<AnyIter>)
    ensures
        eval_func_input(
            graph_view(*wiring, *inst),
            host@,
            cache_view(prev@),
            state_of(cache_view(old(cache)@)),
            old(frames)@,
            port,
        ) == (opt_signal(signal), state_of(cache_view(final(cache)@))),
        old(cache)@.dom().subset_of(final(cache)@.dom()),
        final(frames)@ == old(frames)@,
    decreases key_space() - old(cache)@.dom().len(), old(frames)@.len(), 3nat, 0nat,
{
    let ghost frames0 = frames@;
    proof {
        lemma_key_space(cache@.dom());
    }
    if frames.len() == 0 {
        host.input(port)
    } else {
        let frame = frames[frames.len() - 1];
        match wiring.meta_storage.get(&frame.call.0) {
            Some(Meta::Function { inputs, .. }) => match inputs.get(port) {
                Some(src) => {
                    frames.pop();
                    assert(frames@ =~= frames0.drop_last());
                    let signal = read_wire(wiring, inst, host, prev, cache, frames, src.0);
                    frames.push(frame);
                    assert(frames@ =~= frames0);
                    signal
                },
                None => None,
            },
            _ => None,
        }
    }
}

/// Resolves an output of a statement, as `eval_output` says.
pub fn read_output<C: Component>(
    wiring: &Wiring,
    inst: &Instances<C>,
    host: &Context,
    prev: &HashMap<u128, Slot>,
    cache: &mut HashMap<u128, Slot>,
    frames: &mut Vec<Frame>,
    id: Uid,
    port: SpecId,
) -> (signal: Option<AnyIter>)
    ensures
        eval_output(
            graph_view(*wiring, *inst),
            host@,
            cache_view(prev@),
            state_of(cache_view(old(cache)@)),
            old(frames)@,
            id,
            port,
        ) == (opt_signal(signal), state_of(cache_view(final(cache)@))),
        old(cache)@.dom().subset_of(final(cache)@.dom()),
        final(frames)@ == old(frames)@,
    decreases key_space() - old(cache)@.dom().len(), old(frames)@.len(), 3nat, 0nat,
{
    proof {
        lemma_key_space(cache@.dom());
    }
    let base = if frames.len() == 0 {
        ROOT
    } else {
        frames[frames.len() - 1].inst
    };
    let addr = node_key(base, id);
    let key = slot_key(addr, port);
    match wiring.meta_storage.get(&id.0) {
        None => None,
        Some(meta) => {
            match cache.get(&key) {
                Some(Slot::Computed(v)) => duplicate_opt(v),
                Some(Slot::InProgress) => {
                    let ty = port_type_of(wiring, inst, id, addr, port);
                    Some(fallback_of(prev, key, ty))
                },
                None => {
                    match meta {
                        Meta::Component(cm) => run_node(
                            wiring,
                            inst,
                            host,
                            prev,
                            cache,
                            frames,
                            cm,
                            addr,
                            port,
                        ),
                        Meta::Function { func_id, .. } => run_call(
                            wiring,
                            inst,
                            host,
                            prev,
                            cache,
                            frames,
                            id,
                            func_id.0,
                            port,
                        ),
                    }
                },
            }
        },
    }
}

/// Computes an output of a node afresh, as `compute_node` says.
pub fn run_node<C: Component>(
    wiring: &Wiring,
    inst: &Instances<C>,
    host: &Context,
    prev: &HashMap<u128, Slot>,
    cache: &mut HashMap<u128, Slot>,
    frames: &mut Vec<Frame>,
    cm: &ComponentMeta,
    addr: u64,
    port: SpecId,
) -> (signal: Option<AnyIter>)
    requires
        !old(cache)@.contains_key(spec_slot_key(addr, port)),
    ensures
        compute_node(
            graph_view(*wiring, *inst),
            host@,
            cache_view(prev@),
            state_of(cache_view(old(cache)@)),
            old(frames)@,
            cm@,
            addr,
            port,
        ) == (opt_signal(signal), state_of(cache_view(final(cache)@))),
        old(cache)@.dom().subset_of(final(cache)@.dom()),
        final(frames)@ == old(frames)@,
    decreases key_space() - old(cache)@.dom().len(), old(frames)@.len(), 2nat, 0nat,
{
    let key = slot_key(addr, port);
    proof {
        lemma_mark(cache@, key);
    }
    match inst.state.get(&addr) {
        None => None,
        Some(comp) => {
            cache.insert(key, Slot::InProgress);
            proof {
                assert(cache@.dom() =~= old(cache)@.dom().insert(key));
                lemma_key_space(cache@.dom());
            }
            let sources = sources_of(cm);
            let results = resolve_sources(wiring, inst, host, prev, cache, frames, &sources);
            let ctx = make_ctx(cm, results, host.rate());
            let out = comp.output(AnyOutputSpec(port), &ctx);
            let copy = out.duplicate();
            proof {
                lemma_store(cache@, key, Slot::Computed(Some(out)));
            }
            cache.insert(key, Slot::Computed(Some(out)));
            Some(copy)
        },
    }
}

/// Computes an output of a call afresh, as `compute_call` says.
pub fn run_call<C: Component>(
    wiring: &Wiring,
    inst: &Instances<C>,
    host: &Context,
    prev: &HashMap<u128, Slot>,
    cache: &mut HashMap<u128, Slot>,
    frames: &mut Vec<Frame>,
    id: Uid,
    func: Uid,
    port: SpecId,
) -> (signal: Option<AnyIter>)
    requires
        !old(cache)@.contains_key(
            spec_slot_key(spec_node_key(frames_inst(old(frames)@), id.0), port),
        ),
    ensures
        compute_call(
            graph_view(*wiring, *inst),
            host@,
            cache_view(prev@),
            state_of(cache_view(old(cache)@)),
            old(frames)@,
            id,
            func,
            port,
        ) == (opt_signal(signal), state_of(cache_view(final(cache)@))),
        old(cache)@.dom().subset_of(final(cache)@.dom()),
        final(frames)@ == old(frames)@,
    decreases key_space() - old(cache)@.dom().len(), old(frames)@.len(), 2nat, 0nat,
{
    let ghost frames0 = frames@;
    let base = if frames.len() == 0 {
        ROOT
    } else {
        frames[frames.len() - 1].inst
    };
    let addr = node_key(base, id);
    let key = slot_key(addr, port);
    proof {
        lemma_mark(cache@, key);
    }
    let child = match inst.children.get(&addr) {
        Some(child) => *child,
        None => {
            return None;
        },
    };
    match wiring.funcs.get(&func.0) {
        None => None,
        Some(def) => match def.out_wires.get(port) {
            None => None,
            Some(src) => {
                cache.insert(key, Slot::InProgress);
                proof {
                    assert(cache@.dom() =~= old(cache)@.dom().insert(key));
                    lemma_key_space(cache@.dom());
                }
                frames.push(Frame { call: id, inst: child });
                let signal = read_wire(wiring, inst, host, prev, cache, frames, src.0);
                frames.pop();
                assert(frames@ =~= frames0);
                let kept = duplicate_opt(&signal);
                proof {
                    lemma_store(cache@, key, Slot::Computed(kept));
                }
                cache.insert(key, Slot::Computed(kept));
                signal
            },
        },
    }
}

/// Resolves the wires of a node one after the other, as `eval_sources` says.
pub fn resolve_sources<C: Component>(
    wiring: &Wiring,
    inst: &Instances<C>,
    host: &Context,
    prev: &HashMap<u128, Slot>,
    cache: &mut HashMap<u128, Slot>,
    frames: &mut Vec<Frame>,
    sources: &Vec<Option<Wire>>,
) -> (results: Vec<Option<AnyIter>>)
    ensures
        eval_sources(
            graph_view(*wiring, *inst),
            host@,
            cache_view(prev@),
            state_of(cache_view(old(cache)@)),
            old(frames)@,
            sources@,
            0,
            Seq::empty(),
        ) == (signals_view(results@), state_of(cache_view(final(cache)@))),
        results@.len() == sources@.len(),
        old(cache)@.dom().subset_of(final(cache)@.dom()),
        final(frames)@ == old(frames)@,
    decreases key_space() - old(cache)@.dom().len(), old(frames)@.len(), 5nat, sources@.len(),
{
    let ghost g = graph_view(*wiring, *inst);
    let ghost pv = cache_view(prev@);
    let ghost st0 = state_of(cache_view(cache@));
    let ghost frames0 = frames@;
    let ghost dom0 = cache@.dom();
    let mut results: Vec<Option<AnyIter>> = Vec::new();
    let mut i: usize = 0;
    assert(signals_view(results@) =~= Seq::<Option<Signal>>::empty());
    while i < sources.len()
        invariant
            i <= sources.len(),
            results@.len() == i,
            frames@ == frames0,
            frames0 == old(frames)@,
            dom0 == old(cache)@.dom(),
            dom0.finite(),
            dom0.subset_of(cache@.dom()),
            g == graph_view(*wiring, *inst),
            pv == cache_view(prev@),
            eval_sources(g, host@, pv, st0, frames0, sources@, 0, Seq::empty()) == eval_sources(
                g,
                host@,
                pv,
                state_of(cache_view(cache@)),
                frames0,
                sources@,
                i as nat,
                signals_view(results@),
            ),
        decreases sources.len() - i,
    {
        let ghost before = cache@;
        let ghost acc = signals_view(results@);
        proof {
            vstd::set_lib::lemma_len_subset(dom0, cache@.dom());
            lemma_key_space(cache@.dom());
        }
        let r = match sources[i] {
            Some(w) => read_wire(wiring, inst, host, prev, cache, frames, w),
            None => None,
        };
        proof {
            lemma_carry(before, cache@);
            assert(signals_view(results@.push(r)) =~= acc.push(opt_signal(r)));
        }
        results.push(r);
        i += 1;
    }
    results
}


/// The state of an evaluation that has not asked for anything yet.
pub open spec fn fresh_state() -> EvalState {
    state_of(Map::empty())
}

/// The graph with the state `next` at `addr`.
pub open spec fn with_state<C>(g: GraphView<C>, addr: u64, next: C) -> GraphView<C> {
    GraphView { state: g.state.insert(addr, next), ..g }
}

/// The graph after the node with wiring `cm` and its state at `addr` has moved
/// on by one tick: the node's wires are read, with nothing remembered from
/// other nodes, and the node's state is replaced by the state that it computes
/// from what they brought. A node without state at this address is left out.
pub open spec fn update_node<C: Component>(
    g: GraphView<C>,
    host: HostView,
    prev: Map<u128, SlotView>,
    frames: Seq<Frame>,
    cm: ComponentMetaView,
    addr: u64,
) -> GraphView<C> {
    if g.state.contains_key(addr) {
        let (results, _) = eval_sources(
            g,
            host,
            prev,
            fresh_state(),
            frames,
            node_sources(cm),
            0,
            Seq::empty(),
        );
        with_state(
            g,
            addr,
            g.state[addr].spec_update(node_ctx(cm, results, host.sample_rate)),
        )
    } else {
        g
    }
}

/// The graph after the statement `id` has moved on by one tick: a node is
/// updated, and a call updates the statements of its definition, in their
/// order, inside the instance that it made. Calls nested deeper than `depth`
/// are left as they are, as is a call that made no instance and a statement
/// that does not exist.
pub open spec fn update_one<C: Component>(
    g: GraphView<C>,
    host: HostView,
    prev: Map<u128, SlotView>,
    frames: Seq<Frame>,
    id: Uid,
    depth: nat,
) -> GraphView<C>
    decreases depth, 0nat, 0nat,
{
    let addr = spec_node_key(frames_inst(frames), id.0);
    if !g.meta.contains_key(id.0) {
        g
    } else {
        match g.meta[id.0] {
            MetaView::Component(cm) => update_node(g, host, prev, frames, cm, addr),
            MetaView::Function { func_id, .. } => {
                if depth > 0 && g.funcs.contains_key(func_id.0.0) && g.children.contains_key(
                    addr,
                ) {
                    update_statements(
                        g,
                        host,
                        prev,
                        frames.push(Frame { call: id, inst: g.children[addr] }),
                        g.funcs[func_id.0.0].statements,
                        0,
                        (depth - 1) as nat,
                    )
                } else {
                    g
                }
            },
        }
    }
}

/// The graph after the statements from the `i`th on have moved on by one tick,
/// one after the other: each sees the new state of those before it.
pub open spec fn update_statements<C: Component>(
    g: GraphView<C>,
    host: HostView,
    prev: Map<u128, SlotView>,
    frames: Seq<Frame>,
    statements: Seq<ComponentId>,
    i: nat,
    depth: nat,
) -> GraphView<C>
    decreases depth, 1nat, statements.len() - i,
{
    if i >= statements.len() {
        g
    } else {
        update_statements(
            update_one(g, host, prev, frames, statements[i as int].0, depth),
            host,
            prev,
            frames,
            statements,
            i + 1,
            depth,
        )
    }
}

/// The graph after the statement `id` was given a place inside the instance
/// `base`: a node gets the state that it has at the top level, and a call makes
/// an instance with the next number that no instance has, and gives the
/// statements of its definition a place inside it. A call nested deeper than
/// `depth`, or one for which no number is left, makes no instance.
pub open spec fn instantiate_one<C: Component>(g: GraphView<C>, base: u32, id: Uid, depth: nat)
    -> GraphView<C>
    decreases depth, 0nat, 0nat,
{
    let addr = spec_node_key(base, id.0);
    let proto = spec_node_key(ROOT, id.0);
    if !g.meta.contains_key(id.0) {
        g
    } else {
        match g.meta[id.0] {
            MetaView::Component(_) => {
                if g.state.contains_key(proto) {
                    with_state(g, addr, g.state[proto])
                } else {
                    g
                }
            },
            MetaView::Function { func_id, .. } => {
                if depth > 0 && g.funcs.contains_key(func_id.0.0) && g.next < u32::MAX {
                    instantiate_all(
                        GraphView {
                            children: g.children.insert(addr, g.next),
                            next: (g.next + 1) as u32,
                            ..g
                        },
                        g.next,
                        g.funcs[func_id.0.0].statements,
                        0,
                        (depth - 1) as nat,
                    )
                } else {
                    g
                }
            },
        }
    }
}

/// The graph after the statements from the `i`th on were given a place inside
/// the instance `base`.
pub open spec fn instantiate_all<C: Component>(
    g: GraphView<C>,
    base: u32,
    statements: Seq<ComponentId>,
    i: nat,
    depth: nat,
) -> GraphView<C>
    decreases depth, 1nat, statements.len() - i,
{
    if i >= statements.len() {
        g
    } else {
        instantiate_all(
            instantiate_one(g, base, statements[i as int].0, depth),
            base,
            statements,
            i + 1,
            depth,
        )
    }
}

/// How many instances the statement `id` makes when it is given a place inside
/// an instance, where the numbers do not run out: none for a node, and for a
/// call one and those that the statements of its definition make.
pub open spec fn instances_for(
    meta: Map<u32, MetaView>,
    funcs: Map<u32, FuncDefView>,
    id: Uid,
    depth: nat,
) -> nat
    decreases depth, 0nat, 0nat,
{
    if !meta.contains_key(id.0) {
        0
    } else {
        match meta[id.0] {
            MetaView::Component(_) => 0,
            MetaView::Function { func_id, .. } => {
                if depth > 0 && funcs.contains_key(func_id.0.0) {
                    1 + instances_in(
                        meta,
                        funcs,
                        funcs[func_id.0.0].statements,
                        0,
                        (depth - 1) as nat,
                    )
                } else {
                    0
                }
            },
        }
    }
}

/// How many instances the statements from the `i`th on make when they are given
/// a place inside an instance, where the numbers do not run out.
pub open spec fn instances_in(
    meta: Map<u32, MetaView>,
    funcs: Map<u32, FuncDefView>,
    statements: Seq<ComponentId>,
    i: nat,
    depth: nat,
) -> nat
    decreases depth, 1nat, statements.len() - i,
{
    if i >= statements.len() {
        0
    } else {
        instances_for(meta, funcs, statements[i as int].0, depth) + instances_in(
            meta,
            funcs,
            statements,
            i + 1,
            depth,
        )
    }
}

/// A count, as far as it matters: every count above the number of instance
/// numbers stands for too many.
pub open spec fn capped(count: nat) -> nat {
    if count <= u32::MAX {
        count
    } else {
        u32::MAX as nat
    }
}

/// Counts the instances that a statement makes, as `instances_for` says, up to
/// the number of instance numbers.
pub fn count_instances_for(wiring: &Wiring, id: Uid, depth: usize) -> (count: u64)
    ensures
        count == capped(
            instances_for(
                meta_view(wiring.meta_storage@),
                funcs_view(wiring.funcs@),
                id,
                depth as nat,
            ),
        ),
    decreases depth, 0nat, 0nat,
{
    match wiring.meta_storage.get(&id.0) {
        Some(Meta::Function { func_id, .. }) => {
            if depth > 0 {
                match wiring.funcs.get(&func_id.0.0) {
                    Some(def) => {
                        let inner = count_instances_in(wiring, &def.statements, depth - 1);
                        if inner >= 0xffff_ffffu64 {
                            0xffff_ffffu64
                        } else {
                            inner + 1
                        }
                    },
                    None => 0,
                }
            } else {
                0
            }
        },
        _ => 0,
    }
}

/// Counts the instances that statements make, as `instances_in` says, up to the
/// number of instance numbers.
pub fn count_instances_in(wiring: &Wiring, statements: &Vec<ComponentId>, depth: usize) -> (count:
    u64)
    ensures
        count == capped(
            instances_in(
                meta_view(wiring.meta_storage@),
                funcs_view(wiring.funcs@),
                statements@,
                0,
                depth as nat,
            ),
        ),
    decreases depth, 1nat, statements@.len(),
{
    let ghost meta = meta_view(wiring.meta_storage@);
    let ghost funcs = funcs_view(wiring.funcs@);
    let mut count: u64 = 0;
    let mut i: usize = statements.len();
    while i > 0
        invariant
            i <= statements.len(),
            meta == meta_view(wiring.meta_storage@),
            funcs == funcs_view(wiring.funcs@),
            count == capped(instances_in(meta, funcs, statements@, i as nat, depth as nat)),
        decreases i,
    {
        i -= 1;
        let one = count_instances_for(wiring, statements[i].0, depth);
        let sum = count + one;
        count = if sum >= 0xffff_ffffu64 {
            0xffff_ffffu64
        } else {
            sum
        };
    }
    count
}

/// Moves a node on by one tick, as `update_node` says.
pub fn advance_node<C: Component>(
    wiring: &Wiring,
    inst: &mut Instances<C>,
    host: &Context,
    prev: &HashMap<u128, Slot>,
    frames: &mut Vec<Frame>,
    cm: &ComponentMeta,
    addr: u64,
)
    ensures
        graph_view(*wiring, *final(inst)) == update_node(
            graph_view(*wiring, *old(inst)),
            host@,
            cache_view(prev@),
            old(frames)@,
            cm@,
            addr,
        ),
        final(frames)@ == old(frames)@,
{
    if inst.state.contains_key(&addr) {
        let mut scratch: HashMap<u128, Slot> = HashMap::new();
        assert(cache_view(scratch@) =~= Map::<u128, SlotView>::empty());
        let sources = sources_of(cm);
        let results = resolve_sources(wiring, inst, host, prev, &mut scratch, frames, &sources);
        let ctx = make_ctx(cm, results, host.rate());
        let next = match inst.state.get(&addr) {
            Some(comp) => comp.update(&ctx),
            None => {
                return ;
            },
        };
        inst.state.insert(addr, next);
    }
}

/// Moves a statement on by one tick, as `update_one` says.
pub fn advance_one<C: Component>(
    wiring: &Wiring,
    inst: &mut Instances<C>,
    host: &Context,
    prev: &HashMap<u128, Slot>,
    frames: &mut Vec<Frame>,
    id: Uid,
    depth: usize,
)
    ensures
        graph_view(*wiring, *final(inst)) == update_one(
            graph_view(*wiring, *old(inst)),
            host@,
            cache_view(prev@),
            old(frames)@,
            id,
            depth as nat,
        ),
        final(frames)@ == old(frames)@,
    decreases depth, 0nat, 0nat,
{
    let ghost frames0 = frames@;
    let base = if frames.len() == 0 {
        ROOT
    } else {
        frames[frames.len() - 1].inst
    };
    let addr = node_key(base, id);
    match wiring.meta_storage.get(&id.0) {
        None => {},
        Some(Meta::Component(cm)) => {
            advance_node(wiring, inst, host, prev, frames, cm, addr);
        },
        Some(Meta::Function { func_id, .. }) => {
            let child = match inst.children.get(&addr) {
                Some(child) => *child,
                None => {
                    return ;
                },
            };
            if depth > 0 {
                match wiring.funcs.get(&func_id.0.0) {
                    Some(def) => {
                        frames.push(Frame { call: id, inst: child });
                        advance_statements(
                            wiring,
                            inst,
                            host,
                            prev,
                            frames,
                            &def.statements,
                            depth - 1,
                        );
                        frames.pop();
                        assert(frames@ =~= frames0);
                    },
                    None => {},
                }
            }
        },
    }
}

/// Moves statements on by one tick, in their order, as `update_statements`
/// says.
pub fn advance_statements<C: Component>(
    wiring: &Wiring,
    inst: &mut Instances<C>,
    host: &Context,
    prev: &HashMap<u128, Slot>,
    frames: &mut Vec<Frame>,
    statements: &Vec<ComponentId>,
    depth: usize,
)
    ensures
        graph_view(*wiring, *final(inst)) == update_statements(
            graph_view(*wiring, *old(inst)),
            host@,
            cache_view(prev@),
            old(frames)@,
            statements@,
            0,
            depth as nat,
        ),
        final(frames)@ == old(frames)@,
    decreases depth, 1nat, statements@.len(),
{
    let ghost g0 = graph_view(*wiring, *inst);
    let ghost frames0 = frames@;
    let mut i: usize = 0;
    while i < statements.len()
        invariant
            i <= statements.len(),
            frames@ == frames0,
            update_statements(
                g0,
                host@,
                cache_view(prev@),
                frames0,
                statements@,
                0,
                depth as nat,
            ) == update_statements(
                graph_view(*wiring, *inst),
                host@,
                cache_view(prev@),
                frames0,
                statements@,
                i as nat,
                depth as nat,
            ),
        decreases statements.len() - i,
    {
        advance_one(wiring, inst, host, prev, frames, statements[i].0, depth);
        i += 1;
    }
}

/// Gives a statement a place inside an instance, as `instantiate_one` says.
pub fn add_statement_state<C: Component>(
    wiring: &Wiring,
    inst: &mut Instances<C>,
    base: u32,
    id: Uid,
    depth: usize,
)
    ensures
        graph_view(*wiring, *final(inst)) == instantiate_one(
            graph_view(*wiring, *old(inst)),
            base,
            id,
            depth as nat,
        ),
    decreases depth, 0nat, 0nat,
{
    let addr = node_key(base, id);
    let proto = node_key(ROOT, id);
    match wiring.meta_storage.get(&id.0) {
        None => {},
        Some(Meta::Component(_)) => {
            let copy = match inst.state.get(&proto) {
                Some(comp) => comp.duplicate(),
                None => {
                    return ;
                },
            };
            inst.state.insert(addr, copy);
        },
        Some(Meta::Function { func_id, .. }) => {
            if depth > 0 && inst.next < u32::MAX {
                match wiring.funcs.get(&func_id.0.0) {
                    Some(def) => {
                        let child = inst.next;
                        inst.children.insert(addr, child);
                        inst.next = child + 1;
                        add_function_state(wiring, inst, child, &def.statements, depth - 1);
                    },
                    None => {},
                }
            }
        },
    }
}

/// Gives the statements of a definition a place inside an instance, as
/// `instantiate_all` says.
pub fn add_function_state<C: Component>(
    wiring: &Wiring,
    inst: &mut Instances<C>,
    base: u32,
    statements: &Vec<ComponentId>,
    depth: usize,
)
    ensures
        graph_view(*wiring, *final(inst)) == instantiate_all(
            graph_view(*wiring, *old(inst)),
            base,
            statements@,
            0,
            depth as nat,
        ),
    decreases depth, 1nat, statements@.len(),
{
    let ghost g0 = graph_view(*wiring, *inst);
    let mut i: usize = 0;
    while i < statements.len()
        invariant
            i <= statements.len(),
            instantiate_all(g0, base, statements@, 0, depth as nat) == instantiate_all(
                graph_view(*wiring, *inst),
                base,
                statements@,
                i as nat,
                depth as nat,
            ),
        decreases statements.len() - i,
    {
        add_statement_state(wiring, inst, base, statements[i].0, depth);
        i += 1;
    }
}

} // verus!
