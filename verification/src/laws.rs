//! What holds of every rack: laws of wiring and of evaluation.

use crate::components::{Component, CtxView, SpecId};
use crate::eval::{
    carry, compute_call, compute_node, eval_func_input, eval_output, eval_sources, eval_wire,
    fallback, frames_inst, fresh_state, mark, node_ctx, node_sources, port_type, state_of, store,
    instances_for, instances_in, instantiate_all, instantiate_one, update_one,
    update_statements, EvalState, Frame, HostView,
    SlotView,
};
use crate::octahack_components::amplifier::{spec_amplify, AMPLIFIER_IO_COUNT};
use crate::octahack_components::OctahackComponent;
use crate::params::{lemma_set_overwrites, spec_get, ParamValue};
use crate::rack::{
    all_wired, default_meta, distinct, ComponentMetaView, FuncDefView, GraphView, MetaView,
    RackView,
};
use crate::uid::{
    lemma_key_space, lemma_node_key_injective, spec_instance_of, spec_node_key, spec_slot_key,
    ComponentId, FuncId, Uid, ROOT,
};
use crate::value::{lemma_mul_by_max, spec_default_signal, Signal, Value, ValueType};
use crate::wire::{ElementSpecifier, Wire, WireDst, WireDstInner, WireSrc};
use vstd::prelude::*;

verus! {

/// A rack without nodes and wires has no value on any output, whichever the
/// host's inputs are, and a tick leaves it as it is.
pub proof fn lemma_empty_rack_is_silent<C: Component>(
    inputs: nat,
    outputs: nat,
    port: SpecId,
    host: HostView,
)
    ensures
        RackView::<C>::empty(inputs, outputs).output(None, port, host) == (
            None::<Signal>,
            RackView::<C>::empty(inputs, outputs),
        ),
        RackView::<C>::empty(inputs, outputs).update(None, host) == RackView::<C>::empty(
            inputs,
            outputs,
        ),
{
}

/// An output that no wire leads into has no value, and asking for it leaves
/// the rack as it is.
pub proof fn lemma_unwired_output_is_silent<C: Component>(
    rack: RackView<C>,
    def: Option<FuncId>,
    port: SpecId,
    host: HostView,
)
    requires
        spec_get(rack.def(def).out_wires, port as int).is_none(),
    ensures
        rack.output(def, port, host) == (None::<Signal>, rack),
{
}

/// Installing a wire leaves every place where a wire can be installed.
pub proof fn lemma_wire_keeps_places<C: Component>(
    rack: RackView<C>,
    def: Option<FuncId>,
    src: WireSrc,
    dst: WireDst,
    other: WireDst,
)
    requires
        rack.wire_ok(def, dst),
        rack.wire_ok(def, other),
    ensures
        rack.wire(def, src, dst).wire_ok(def, other),
{
}

/// Wiring the same destination twice leaves the second wire alone in effect:
/// the rack is the one that the second wire alone would have made.
pub proof fn lemma_wire_overwrites<C: Component>(
    rack: RackView<C>,
    def: Option<FuncId>,
    first: WireSrc,
    second: WireSrc,
    dst: WireDst,
)
    requires
        rack.wire_ok(def, dst),
    ensures
        rack.wire(def, first, dst).wire_ok(def, dst),
        rack.wire(def, first, dst).wire(def, second, dst) == rack.wire(def, second, dst),
{
    let once = rack.wire(def, first, dst);
    let twice = once.wire(def, second, dst);
    let direct = rack.wire(def, second, dst);
    match dst.0 {
        WireDstInner::Input(w) => {
            match w.element {
                ElementSpecifier::Component { id } => {
                    lemma_set_overwrites(
                        rack.graph.meta[id.0.0].inputs(),
                        w.io_index as int,
                        Some(first),
                        Some(second),
                    );
                    assert(twice.graph.meta =~= direct.graph.meta);
                },
                ElementSpecifier::FuncInputs => {
                    lemma_set_overwrites(
                        rack.def(def).out_wires,
                        w.io_index as int,
                        Some(first),
                        Some(second),
                    );
                    assert(twice.graph.funcs =~= direct.graph.funcs);
                },
            }
        },
        WireDstInner::Param(value, w) => {
            match w.element {
                ElementSpecifier::Component { id } => {
                    let cm = rack.graph.meta[id.0.0]->Component_0;
                    let once_cm = once.graph.meta[id.0.0]->Component_0;
                    let twice_cm = twice.graph.meta[id.0.0]->Component_0;
                    let direct_cm = direct.graph.meta[id.0.0]->Component_0;
                    assert(twice_cm.params =~= direct_cm.params);
                    assert(twice.graph.meta =~= direct.graph.meta);
                },
                ElementSpecifier::FuncInputs => {},
            }
        },
    }
}

/// An output of a statement that was asked for either left the cache as it
/// was, or stands in the cache afterwards with the signal that was given.
pub proof fn lemma_output_is_entered<C: Component>(
    g: GraphView<C>,
    host: HostView,
    prev: Map<u128, SlotView>,
    st: EvalState,
    frames: Seq<Frame>,
    id: Uid,
    port: SpecId,
)
    ensures
        ({
            let key = spec_slot_key(spec_node_key(frames_inst(frames), id.0), port);
            let (v, st1) = eval_output(g, host, prev, st, frames, id, port);
            st1 == st || (g.meta.contains_key(id.0) && st1.cache.contains_key(key)
                && st1.cache[key] == SlotView::Computed(v))
        }),
{
}

/// Asking twice for an output within one tick gives the same signal both
/// times, and the second answer leaves the rack as the first left it: it is
/// read from what the first entered, and no node computes anything for it.
pub proof fn lemma_output_is_memoized<C: Component>(
    rack: RackView<C>,
    def: Option<FuncId>,
    port: SpecId,
    host: HostView,
)
    ensures
        ({
            let (first, after) = rack.output(def, port, host);
            after.output(def, port, host) == (first, after)
        }),
{
    let (first, after) = rack.output(def, port, host);
    match spec_get(rack.def(def).out_wires, port as int) {
        None => {},
        Some(src) => {
            let st = state_of(rack.cur);
            let frames = Seq::<Frame>::empty();
            match src.0.element {
                ElementSpecifier::FuncInputs => {},
                ElementSpecifier::Component { id } => {
                    lemma_output_is_entered(
                        rack.graph,
                        host,
                        rack.prev,
                        st,
                        frames,
                        id.0,
                        src.0.io_index,
                    );
                    let (v, st1) = eval_output(
                        rack.graph,
                        host,
                        rack.prev,
                        st,
                        frames,
                        id.0,
                        src.0.io_index,
                    );
                    if st1 == st {
                        assert(after == rack);
                    }
                },
            }
        },
    }
}


/// Whether the cache of `after` holds everything that the cache of `before`
/// holds, unchanged, and finitely many entries if that of `before` does.
pub open spec fn extends(before: EvalState, after: EvalState) -> bool {
    &&& forall|k: u128| #[trigger]
        before.cache.contains_key(k) ==> after.cache.contains_key(k) && after.cache[k]
            == before.cache[k]
    &&& before.cache.dom().finite() ==> after.cache.dom().finite()
}

/// Resolving a wire takes nothing from the cache and changes no entry of it.
pub proof fn lemma_wire_extends<C: Component>(
    g: GraphView<C>,
    host: HostView,
    prev: Map<u128, SlotView>,
    st: EvalState,
    frames: Seq<Frame>,
    wire: Wire,
)
    ensures
        extends(st, eval_wire(g, host, prev, st, frames, wire).1),
    decreases st.budget, frames.len(), 4nat, 0nat,
{
    match wire.element {
        ElementSpecifier::FuncInputs => {
            lemma_func_input_extends(g, host, prev, st, frames, wire.io_index);
        },
        ElementSpecifier::Component { id } => {
            lemma_output_extends(g, host, prev, st, frames, id.0, wire.io_index);
        },
    }
}

proof fn lemma_func_input_extends<C: Component>(
    g: GraphView<C>,
    host: HostView,
    prev: Map<u128, SlotView>,
    st: EvalState,
    frames: Seq<Frame>,
    port: SpecId,
)
    ensures
        extends(st, eval_func_input(g, host, prev, st, frames, port).1),
    decreases st.budget, frames.len(), 3nat, 0nat,
{
    if frames.len() > 0 {
        let call = frames.last().call;
        if g.meta.contains_key(call.0) {
            match g.meta[call.0] {
                MetaView::Function { inputs, .. } => match spec_get(inputs, port as int) {
                    Some(src) => {
                        lemma_wire_extends(g, host, prev, st, frames.drop_last(), src.0);
                    },
                    None => {},
                },
                MetaView::Component(_) => {},
            }
        }
    }
}

proof fn lemma_output_extends<C: Component>(
    g: GraphView<C>,
    host: HostView,
    prev: Map<u128, SlotView>,
    st: EvalState,
    frames: Seq<Frame>,
    id: Uid,
    port: SpecId,
)
    ensures
        extends(st, eval_output(g, host, prev, st, frames, id, port).1),
    decreases st.budget, frames.len(), 3nat, 0nat,
{
    let addr = spec_node_key(frames_inst(frames), id.0);
    let key = spec_slot_key(addr, port);
    if g.meta.contains_key(id.0) && !st.cache.contains_key(key) {
        match g.meta[id.0] {
            MetaView::Component(cm) => {
                lemma_node_extends(g, host, prev, st, frames, cm, addr, port);
            },
            MetaView::Function { func_id, .. } => {
                lemma_call_extends(g, host, prev, st, frames, id, func_id.0, port);
            },
        }
    }
}

proof fn lemma_node_extends<C: Component>(
    g: GraphView<C>,
    host: HostView,
    prev: Map<u128, SlotView>,
    st: EvalState,
    frames: Seq<Frame>,
    cm: ComponentMetaView,
    addr: u64,
    port: SpecId,
)
    requires
        !st.cache.contains_key(spec_slot_key(addr, port)),
    ensures
        extends(st, compute_node(g, host, prev, st, frames, cm, addr, port).1),
    decreases st.budget, frames.len(), 2nat, 0nat,
{
    let key = spec_slot_key(addr, port);
    if !(st.budget == 0 || !g.state.contains_key(addr)) {
        lemma_sources_extends(
            g,
            host,
            prev,
            mark(st, key),
            frames,
            node_sources(cm),
            0,
            Seq::empty(),
        );
        let st2 = eval_sources(
            g,
            host,
            prev,
            mark(st, key),
            frames,
            node_sources(cm),
            0,
            Seq::empty(),
        ).1;
        let last = compute_node(g, host, prev, st, frames, cm, addr, port).1;
        assert forall|k: u128| #[trigger] st.cache.contains_key(k) implies last.cache.contains_key(
            k,
        ) && last.cache[k] == st.cache[k] by {
            assert(mark(st, key).cache.contains_key(k));
            assert(st2.cache.contains_key(k));
        }
    }
}

proof fn lemma_call_extends<C: Component>(
    g: GraphView<C>,
    host: HostView,
    prev: Map<u128, SlotView>,
    st: EvalState,
    frames: Seq<Frame>,
    id: Uid,
    func: Uid,
    port: SpecId,
)
    requires
        !st.cache.contains_key(
            spec_slot_key(spec_node_key(frames_inst(frames), id.0), port),
        ),
    ensures
        extends(st, compute_call(g, host, prev, st, frames, id, func, port).1),
    decreases st.budget, frames.len(), 2nat, 0nat,
{
    let addr = spec_node_key(frames_inst(frames), id.0);
    let key = spec_slot_key(addr, port);
    if !(st.budget == 0 || !g.funcs.contains_key(func.0) || !g.children.contains_key(addr)) {
        match spec_get(g.funcs[func.0].out_wires, port as int) {
            Some(src) => {
                lemma_wire_extends(
                    g,
                    host,
                    prev,
                    mark(st, key),
                    frames.push(Frame { call: id, inst: g.children[addr] }),
                    src.0,
                );
                let st2 = eval_wire(
                    g,
                    host,
                    prev,
                    mark(st, key),
                    frames.push(Frame { call: id, inst: g.children[addr] }),
                    src.0,
                ).1;
                let last = compute_call(g, host, prev, st, frames, id, func, port).1;
                assert forall|k: u128| #[trigger]
                    st.cache.contains_key(k) implies last.cache.contains_key(k) && last.cache[k]
                    == st.cache[k] by {
                    assert(mark(st, key).cache.contains_key(k));
                    assert(st2.cache.contains_key(k));
                }
            },
            None => {},
        }
    }
}

/// Resolving the wires of a node takes nothing from the cache and changes no
/// entry of it.
pub proof fn lemma_sources_extends<C: Component>(
    g: GraphView<C>,
    host: HostView,
    prev: Map<u128, SlotView>,
    st: EvalState,
    frames: Seq<Frame>,
    sources: Seq<Option<Wire>>,
    i: nat,
    acc: Seq<Option<Signal>>,
)
    ensures
        extends(st, eval_sources(g, host, prev, st, frames, sources, i, acc).1),
    decreases st.budget, frames.len(), 5nat, sources.len() - i,
{
    if i < sources.len() {
        let (r, st1) = match sources[i as int] {
            Some(w) => eval_wire(g, host, prev, st, frames, w),
            None => (None, st),
        };
        match sources[i as int] {
            Some(w) => {
                lemma_wire_extends(g, host, prev, st, frames, w);
            },
            None => {},
        }
        lemma_sources_extends(g, host, prev, carry(st, st1), frames, sources, i + 1, acc.push(r));
    }
}

/// What a wire brings where the answer needs no computation: nothing where
/// there is no wire, the host's signal for an input of the top-level
/// definition, and the answer of the cache for an output of a statement that
/// the cache holds.
pub open spec fn settled<C: Component>(
    g: GraphView<C>,
    host: HostView,
    prev: Map<u128, SlotView>,
    st: EvalState,
    frames: Seq<Frame>,
    source: Option<Wire>,
) -> Option<Option<Signal>> {
    match source {
        None => Some(None),
        Some(w) => match w.element {
            ElementSpecifier::FuncInputs => if frames.len() == 0 {
                Some(spec_get(host.inputs, w.io_index as int))
            } else {
                None
            },
            ElementSpecifier::Component { id } => {
                let addr = spec_node_key(frames_inst(frames), id.0.0);
                let key = spec_slot_key(addr, w.io_index);
                if g.meta.contains_key(id.0.0) && st.cache.contains_key(key) {
                    Some(
                        match st.cache[key] {
                            SlotView::Computed(v) => v,
                            SlotView::InProgress => Some(
                                fallback(prev, key, port_type(g, id.0, addr, w.io_index)),
                            ),
                        },
                    )
                } else {
                    None
                }
            },
        },
    }
}

/// The wires of a node bring one result each, in their order; and a wire whose
/// answer is settled before the first of them is read brings that answer,
/// whatever the wires before it make the engine compute.
pub proof fn lemma_sources_results<C: Component>(
    g: GraphView<C>,
    host: HostView,
    prev: Map<u128, SlotView>,
    st: EvalState,
    frames: Seq<Frame>,
    sources: Seq<Option<Wire>>,
    i: nat,
    acc: Seq<Option<Signal>>,
)
    requires
        i <= sources.len(),
    ensures
        ({
            let results = eval_sources(g, host, prev, st, frames, sources, i, acc).0;
            &&& results.len() == acc.len() + sources.len() - i
            &&& forall|j: int| 0 <= j < acc.len() ==> results[j] == acc[j]
            &&& forall|k: int|
                i <= k < sources.len() && (#[trigger] settled(
                    g,
                    host,
                    prev,
                    st,
                    frames,
                    sources[k],
                )).is_some() ==> results[acc.len() + k - i] == settled(
                    g,
                    host,
                    prev,
                    st,
                    frames,
                    sources[k],
                ).unwrap()
        }),
    decreases sources.len() - i,
{
    if i < sources.len() {
        let (r, st1) = match sources[i as int] {
            Some(w) => eval_wire(g, host, prev, st, frames, w),
            None => (None, st),
        };
        match sources[i as int] {
            Some(w) => {
                lemma_wire_extends(g, host, prev, st, frames, w);
            },
            None => {},
        }
        let st2 = carry(st, st1);
        let acc2 = acc.push(r);
        lemma_sources_results(g, host, prev, st2, frames, sources, i + 1, acc2);
        let results = eval_sources(g, host, prev, st, frames, sources, i, acc).0;
        assert forall|k: int|
            i <= k < sources.len() && (#[trigger] settled(
                g,
                host,
                prev,
                st,
                frames,
                sources[k],
            )).is_some() implies results[acc.len() + k - i] == settled(
            g,
            host,
            prev,
            st,
            frames,
            sources[k],
        ).unwrap() by {
            if k == i {
                assert(results[acc.len() as int] == acc2[acc.len() as int]);
            } else {
                assert(settled(g, host, prev, st2, frames, sources[k]) == settled(
                    g,
                    host,
                    prev,
                    st,
                    frames,
                    sources[k],
                ));
            }
        }
        assert forall|j: int| 0 <= j < acc.len() implies results[j] == acc[j] by {
            assert(acc2[j] == acc[j]);
        }
    }
}


/// A cache that does not hold a key has room for it.
pub proof fn lemma_room(cache: Map<u128, SlotView>, key: u128)
    requires
        cache.dom().finite(),
        !cache.contains_key(key),
    ensures
        state_of(cache).budget > 0,
{
    lemma_key_space(cache.dom().insert(key));
}

/// What an output that is being computed gives: the default of its type in a
/// first tick, when nothing was computed before, and later what was computed
/// for it in the tick before.
pub proof fn lemma_fallback_values(prev: Map<u128, SlotView>, key: u128, ty: ValueType, s: Signal)
    ensures
        !prev.contains_key(key) ==> fallback(prev, key, ty) == spec_default_signal(ty),
        prev.contains_key(key) && prev[key] == SlotView::Computed(Some(s)) ==> fallback(
            prev,
            key,
            ty,
        ) == s,
{
}

/// When a tick begins, what was computed in the tick before is what cycles
/// are answered from, and nothing is computed yet.
pub proof fn lemma_tick_rotates<C: Component>(
    rack: RackView<C>,
    def: Option<FuncId>,
    host: HostView,
)
    ensures
        rack.update(def, host).prev == rack.cur,
        rack.update(def, host).cur == Map::<u128, SlotView>::empty(),
        rack.update(def, host).main == rack.main,
{
}

/// A node whose input is wired to its own output reads, while that output is
/// computed, what `fallback` gives for the output: the output's signal of the
/// tick before, or the default in a first tick. The node's output is computed
/// from that.
pub proof fn lemma_self_feedback<C: Component>(
    g: GraphView<C>,
    host: HostView,
    prev: Map<u128, SlotView>,
    st: EvalState,
    frames: Seq<Frame>,
    id: Uid,
    cm: ComponentMetaView,
    out_port: SpecId,
    in_port: SpecId,
)
    requires
        g.meta.contains_key(id.0),
        g.meta[id.0] == MetaView::Component(cm),
        in_port < cm.inputs.len(),
        cm.inputs[in_port as int] == Some(
            WireSrc::spec_component_output(ComponentId(id), out_port as nat),
        ),
        g.state.contains_key(spec_node_key(frames_inst(frames), id.0)),
        !st.cache.contains_key(
            spec_slot_key(spec_node_key(frames_inst(frames), id.0), out_port),
        ),
        st.budget > 0,
    ensures
        ({
            let addr = spec_node_key(frames_inst(frames), id.0);
            let key = spec_slot_key(addr, out_port);
            let results = eval_sources(
                g,
                host,
                prev,
                mark(st, key),
                frames,
                node_sources(cm),
                0,
                Seq::empty(),
            ).0;
            let ctx = node_ctx(cm, results, host.sample_rate);
            &&& ctx.input(in_port as int) == Some(
                fallback(prev, key, port_type(g, id, addr, out_port)),
            )
            &&& eval_output(g, host, prev, st, frames, id, out_port).0 == Some(
                g.state[addr].spec_output(out_port as int, ctx),
            )
        }),
{
    let addr = spec_node_key(frames_inst(frames), id.0);
    let key = spec_slot_key(addr, out_port);
    let marked = mark(st, key);
    lemma_sources_results(g, host, prev, marked, frames, node_sources(cm), 0, Seq::empty());
    assert(settled(g, host, prev, marked, frames, node_sources(cm)[in_port as int]).is_some());
}

/// An output of a node that is asked for the first time in a tick is computed
/// by the node from what its wires bring, and entered into the cache.
pub proof fn lemma_fresh_output<C: Component>(
    g: GraphView<C>,
    host: HostView,
    prev: Map<u128, SlotView>,
    st: EvalState,
    frames: Seq<Frame>,
    id: Uid,
    cm: ComponentMetaView,
    port: SpecId,
)
    requires
        g.meta.contains_key(id.0),
        g.meta[id.0] == MetaView::Component(cm),
        g.state.contains_key(spec_node_key(frames_inst(frames), id.0)),
        !st.cache.contains_key(spec_slot_key(spec_node_key(frames_inst(frames), id.0), port)),
        st.budget > 0,
    ensures
        ({
            let addr = spec_node_key(frames_inst(frames), id.0);
            let key = spec_slot_key(addr, port);
            let (results, st2) = eval_sources(
                g,
                host,
                prev,
                mark(st, key),
                frames,
                node_sources(cm),
                0,
                Seq::empty(),
            );
            let v = Some(
                g.state[addr].spec_output(port as int, node_ctx(cm, results, host.sample_rate)),
            );
            &&& eval_output(g, host, prev, st, frames, id, port) == (v, store(st2, key, v))
            &&& eval_wire(
                g,
                host,
                prev,
                st,
                frames,
                Wire { io_index: port, element: ElementSpecifier::Component { id: ComponentId(id) } },
            ) == (v, store(st2, key, v))
        }),
{
    let addr = spec_node_key(frames_inst(frames), id.0);
    assert(eval_output(g, host, prev, st, frames, id, port) == compute_node(
        g,
        host,
        prev,
        st,
        frames,
        cm,
        addr,
        port,
    ));
}

/// A tick moves the states of nodes on and leaves the definitions and the
/// wiring as they are; and it neither makes nor removes a node instance.
pub proof fn lemma_update_keeps_wiring<C: Component>(
    g: GraphView<C>,
    host: HostView,
    prev: Map<u128, SlotView>,
    frames: Seq<Frame>,
    statements: Seq<ComponentId>,
    i: nat,
    depth: nat,
)
    ensures
        update_statements(g, host, prev, frames, statements, i, depth).funcs == g.funcs,
        update_statements(g, host, prev, frames, statements, i, depth).meta == g.meta,
        update_statements(g, host, prev, frames, statements, i, depth).state.dom()
            == g.state.dom(),
        update_statements(g, host, prev, frames, statements, i, depth).children == g.children,
        update_statements(g, host, prev, frames, statements, i, depth).next == g.next,
    decreases depth, 1nat, statements.len() - i,
{
    if i < statements.len() {
        lemma_update_one_keeps_wiring(g, host, prev, frames, statements[i as int].0, depth);
        lemma_update_keeps_wiring(
            update_one(g, host, prev, frames, statements[i as int].0, depth),
            host,
            prev,
            frames,
            statements,
            i + 1,
            depth,
        );
    }
}

proof fn lemma_update_one_keeps_wiring<C: Component>(
    g: GraphView<C>,
    host: HostView,
    prev: Map<u128, SlotView>,
    frames: Seq<Frame>,
    id: Uid,
    depth: nat,
)
    ensures
        update_one(g, host, prev, frames, id, depth).funcs == g.funcs,
        update_one(g, host, prev, frames, id, depth).meta == g.meta,
        update_one(g, host, prev, frames, id, depth).state.dom() == g.state.dom(),
        update_one(g, host, prev, frames, id, depth).children == g.children,
        update_one(g, host, prev, frames, id, depth).next == g.next,
    decreases depth, 0nat, 0nat,
{
    let addr = spec_node_key(frames_inst(frames), id.0);
    if g.meta.contains_key(id.0) {
        match g.meta[id.0] {
            MetaView::Component(cm) => {
                assert(update_one(g, host, prev, frames, id, depth).state.dom() =~= g.state.dom());
            },
            MetaView::Function { func_id, .. } => {
                if depth > 0 && g.funcs.contains_key(func_id.0.0) && g.children.contains_key(addr) {
                    lemma_update_keeps_wiring(
                        g,
                        host,
                        prev,
                        frames.push(Frame { call: id, inst: g.children[addr] }),
                        g.funcs[func_id.0.0].statements,
                        0,
                        (depth - 1) as nat,
                    );
                }
            },
        }
    }
}

/// A tick changes the state of a node instance only by the node's own update:
/// whatever holds of a state and is kept by every update of a node still holds
/// of the state after the tick.
pub proof fn lemma_update_steps_nodes<C: Component>(
    g: GraphView<C>,
    host: HostView,
    prev: Map<u128, SlotView>,
    frames: Seq<Frame>,
    statements: Seq<ComponentId>,
    i: nat,
    depth: nat,
    kept: spec_fn(C) -> bool,
)
    requires
        forall|c: C, ctx: CtxView| kept(c) ==> #[trigger] kept(c.spec_update(ctx)),
    ensures
        forall|addr: u64|
            g.state.contains_key(addr) && kept(g.state[addr]) ==> kept(
                #[trigger] update_statements(g, host, prev, frames, statements, i, depth).state[addr],
            ),
    decreases depth, 1nat, statements.len() - i,
{
    if i < statements.len() {
        let g1 = update_one(g, host, prev, frames, statements[i as int].0, depth);
        lemma_update_one_steps_nodes(g, host, prev, frames, statements[i as int].0, depth, kept);
        lemma_update_one_keeps_wiring(g, host, prev, frames, statements[i as int].0, depth);
        lemma_update_steps_nodes(g1, host, prev, frames, statements, i + 1, depth, kept);
        let last = update_statements(g, host, prev, frames, statements, i, depth);
        assert forall|addr: u64| g.state.contains_key(addr) && kept(g.state[addr]) implies kept(
            #[trigger] last.state[addr],
        ) by {
            assert(g1.state.dom().contains(addr));
            assert(kept(g1.state[addr]));
            assert(last == update_statements(g1, host, prev, frames, statements, i + 1, depth));
        }
    }
}

proof fn lemma_update_one_steps_nodes<C: Component>(
    g: GraphView<C>,
    host: HostView,
    prev: Map<u128, SlotView>,
    frames: Seq<Frame>,
    id: Uid,
    depth: nat,
    kept: spec_fn(C) -> bool,
)
    requires
        forall|c: C, ctx: CtxView| kept(c) ==> #[trigger] kept(c.spec_update(ctx)),
    ensures
        forall|addr: u64|
            g.state.contains_key(addr) && kept(g.state[addr]) ==> kept(
                #[trigger] update_one(g, host, prev, frames, id, depth).state[addr],
            ),
    decreases depth, 0nat, 0nat,
{
    let addr = spec_node_key(frames_inst(frames), id.0);
    if g.meta.contains_key(id.0) {
        match g.meta[id.0] {
            MetaView::Component(cm) => {
                let next = update_one(g, host, prev, frames, id, depth);
                assert forall|a: u64| g.state.contains_key(a) && kept(g.state[a]) implies kept(
                    #[trigger] next.state[a],
                ) by {
                    if g.state.contains_key(addr) {
                        let results = eval_sources(
                            g,
                            host,
                            prev,
                            fresh_state(),
                            frames,
                            node_sources(cm),
                            0,
                            Seq::empty(),
                        ).0;
                        let ctx = node_ctx(cm, results, host.sample_rate);
                        if a == addr {
                            assert(next.state[a] == g.state[addr].spec_update(ctx));
                        } else {
                            assert(next.state[a] == g.state[a]);
                        }
                    }
                }
            },
            MetaView::Function { func_id, .. } => {
                if depth > 0 && g.funcs.contains_key(func_id.0.0) && g.children.contains_key(addr) {
                    lemma_update_steps_nodes(
                        g,
                        host,
                        prev,
                        frames.push(Frame { call: id, inst: g.children[addr] }),
                        g.funcs[func_id.0.0].statements,
                        0,
                        (depth - 1) as nat,
                        kept,
                    );
                    assert(update_one(g, host, prev, frames, id, depth) == update_statements(
                        g,
                        host,
                        prev,
                        frames.push(Frame { call: id, inst: g.children[addr] }),
                        g.funcs[func_id.0.0].statements,
                        0,
                        (depth - 1) as nat,
                    ));
                } else {
                    assert(update_one(g, host, prev, frames, id, depth) == g);
                }
            },
        }
    } else {
        assert(update_one(g, host, prev, frames, id, depth) == g);
    }
}

/// Feedback is one tick late. Where an output of the rack is wired to an output
/// of a node, and an input of that node to the same output, the signal that the
/// rack's output carries in one tick is what that input of the node reads in
/// the next tick.
pub proof fn lemma_feedback_is_one_tick_late<C: Component>(
    rack: RackView<C>,
    before: HostView,
    after: HostView,
    rack_out: SpecId,
    id: Uid,
    cm: ComponentMetaView,
    out_port: SpecId,
    in_port: SpecId,
)
    requires
        rack.wf(),
        spec_get(rack.main.out_wires, rack_out as int) == Some(
            WireSrc::spec_component_output(ComponentId(id), out_port as nat),
        ),
        rack.graph.meta.contains_key(id.0),
        rack.graph.meta[id.0] == MetaView::Component(cm),
        in_port < cm.inputs.len(),
        cm.inputs[in_port as int] == Some(
            WireSrc::spec_component_output(ComponentId(id), out_port as nat),
        ),
        rack.graph.state.contains_key(spec_node_key(ROOT, id.0)),
        !rack.cur.contains_key(spec_slot_key(spec_node_key(ROOT, id.0), out_port)),
    ensures
        ({
            let key = spec_slot_key(spec_node_key(ROOT, id.0), out_port);
            let (carried, ticked) = rack.output(None, rack_out, before);
            let next = ticked.update(None, after);
            let results = eval_sources(
                next.graph,
                after,
                next.prev,
                mark(state_of(next.cur), key),
                Seq::empty(),
                node_sources(cm),
                0,
                Seq::empty(),
            ).0;
            &&& carried.is_some()
            &&& node_ctx(cm, results, after.sample_rate).input(in_port as int) == carried
        }),
{
    let addr = spec_node_key(ROOT, id.0);
    let key = spec_slot_key(addr, out_port);
    let frames = Seq::<Frame>::empty();
    lemma_room(rack.cur, key);
    assert(frames_inst(frames) == ROOT);
    lemma_fresh_output(rack.graph, before, rack.prev, state_of(rack.cur), frames, id, cm, out_port);
    let (carried, ticked) = rack.output(None, rack_out, before);
    assert(ticked.cur.contains_key(key) && ticked.cur[key] == SlotView::Computed(carried));
    let next = ticked.update(None, after);
    lemma_update_keeps_wiring(
        ticked.graph,
        after,
        ticked.cur,
        frames,
        ticked.main.statements,
        0,
        ticked.graph.funcs.dom().len(),
    );
    let marked = mark(state_of(next.cur), key);
    assert(next.prev == ticked.cur);
    assert(next.graph.meta.contains_key(id.0));
    assert(marked.cache.contains_key(key) && marked.cache[key] is InProgress);
    assert(node_sources(cm)[in_port as int] == Some(
        Wire { io_index: out_port, element: ElementSpecifier::Component { id: ComponentId(id) } },
    ));
    lemma_sources_results(
        next.graph,
        after,
        next.prev,
        marked,
        frames,
        node_sources(cm),
        0,
        Seq::empty(),
    );
    assert(settled(next.graph, after, next.prev, marked, frames, node_sources(cm)[in_port as int])
        == Some(carried));
}

/// Direct passthrough. Where an output of the rack is wired to an output of a
/// node, and an input of that node to an input of the rack, then in a tick in
/// which the node's output was not asked for yet the rack's output carries what
/// the node computes from the host's signal on that input of the rack, at the
/// host's sample rate, with every parameter that has no wire at its natural
/// value.
pub proof fn lemma_passthrough<C: Component>(
    rack: RackView<C>,
    host: HostView,
    rack_out: SpecId,
    rack_in: SpecId,
    id: Uid,
    cm: ComponentMetaView,
    out_port: SpecId,
    in_port: SpecId,
)
    requires
        rack.wf(),
        spec_get(rack.main.out_wires, rack_out as int) == Some(
            WireSrc::spec_component_output(ComponentId(id), out_port as nat),
        ),
        rack.graph.meta.contains_key(id.0),
        rack.graph.meta[id.0] == MetaView::Component(cm),
        in_port < cm.inputs.len(),
        cm.inputs[in_port as int] == Some(WireSrc::spec_rack_input(rack_in as nat)),
        rack.graph.state.contains_key(spec_node_key(ROOT, id.0)),
        !rack.cur.contains_key(spec_slot_key(spec_node_key(ROOT, id.0), out_port)),
    ensures
        ({
            let addr = spec_node_key(ROOT, id.0);
            let ctx = node_ctx(
                cm,
                eval_sources(
                    rack.graph,
                    host,
                    rack.prev,
                    mark(state_of(rack.cur), spec_slot_key(addr, out_port)),
                    Seq::empty(),
                    node_sources(cm),
                    0,
                    Seq::empty(),
                ).0,
                host.sample_rate,
            );
            &&& rack.output(None, rack_out, host).0 == Some(
                rack.graph.state[addr].spec_output(out_port as int, ctx),
            )
            &&& ctx.input(in_port as int) == spec_get(host.inputs, rack_in as int)
            &&& ctx.sample_rate == host.sample_rate
            &&& forall|j: int|
                0 <= j < cm.params.len() && (#[trigger] cm.params[j]).wire.is_none()
                    ==> ctx.param(j) == cm.params[j].natural_value
        }),
{
    let addr = spec_node_key(ROOT, id.0);
    let key = spec_slot_key(addr, out_port);
    let frames = Seq::<Frame>::empty();
    lemma_room(rack.cur, key);
    assert(frames_inst(frames) == ROOT);
    lemma_fresh_output(rack.graph, host, rack.prev, state_of(rack.cur), frames, id, cm, out_port);
    let marked = mark(state_of(rack.cur), key);
    lemma_sources_results(
        rack.graph,
        host,
        rack.prev,
        marked,
        frames,
        node_sources(cm),
        0,
        Seq::empty(),
    );
    let results = eval_sources(
        rack.graph,
        host,
        rack.prev,
        marked,
        frames,
        node_sources(cm),
        0,
        Seq::empty(),
    ).0;
    let ctx = node_ctx(cm, results, host.sample_rate);
    assert(settled(
        rack.graph,
        host,
        rack.prev,
        marked,
        frames,
        node_sources(cm)[in_port as int],
    ).is_some());
    assert forall|j: int|
        0 <= j < cm.params.len() && (#[trigger] cm.params[j]).wire.is_none() implies ctx.param(j)
        == cm.params[j].natural_value by {
        assert(settled(
            rack.graph,
            host,
            rack.prev,
            marked,
            frames,
            node_sources(cm)[cm.inputs.len() + j],
        ).is_some());
    }
}


/// Direct passthrough through an amplifier. Where an output of the rack is
/// wired to a channel of an amplifier whose amount is the largest and has no
/// wire, and the input of that channel to an input of the rack, the sample
/// that the host feeds comes back in the same tick, off by at most one unit in
/// the last place, and silence comes back as silence.
pub proof fn lemma_amplifier_passthrough(
    rack: RackView<OctahackComponent>,
    host: HostView,
    rack_out: SpecId,
    rack_in: SpecId,
    id: Uid,
    cm: ComponentMetaView,
    channel: SpecId,
    sample: Value,
)
    requires
        rack.wf(),
        spec_get(rack.main.out_wires, rack_out as int) == Some(
            WireSrc::spec_component_output(ComponentId(id), channel as nat),
        ),
        rack.graph.meta.contains_key(id.0),
        rack.graph.meta[id.0] == MetaView::Component(cm),
        channel < cm.inputs.len(),
        channel < cm.params.len(),
        channel < AMPLIFIER_IO_COUNT,
        cm.inputs[channel as int] == Some(WireSrc::spec_rack_input(rack_in as nat)),
        cm.params[channel as int] == (ParamValue { natural_value: Value::spec_max(), wire: None }),
        rack.graph.state.contains_key(spec_node_key(ROOT, id.0)),
        rack.graph.state[spec_node_key(ROOT, id.0)] is Amplifier,
        !rack.cur.contains_key(spec_slot_key(spec_node_key(ROOT, id.0), channel)),
        spec_get(host.inputs, rack_in as int) == Some(Signal::Analog(seq![sample])),
    ensures
        rack.output(None, rack_out, host).0 == Some(
            Signal::Analog(seq![sample.spec_mul(Value::spec_max())]),
        ),
        sample.bits - 1 <= sample.spec_mul(Value::spec_max()).bits <= sample.bits + 1,
        sample == Value::spec_zero() ==> sample.spec_mul(Value::spec_max()) == sample,
{
    lemma_passthrough(rack, host, rack_out, rack_in, id, cm, channel, channel);
    lemma_mul_by_max(sample.bits as int);
    let ctx = node_ctx(
        cm,
        eval_sources(
            rack.graph,
            host,
            rack.prev,
            mark(state_of(rack.cur), spec_slot_key(spec_node_key(ROOT, id.0), channel)),
            Seq::empty(),
            node_sources(cm),
            0,
            Seq::empty(),
        ).0,
        host.sample_rate,
    );
    assert(ctx.param(channel as int) == Value::spec_max());
    assert(spec_amplify(seq![sample], Value::spec_max()) =~= seq![
        sample.spec_mul(Value::spec_max()),
    ]);
}


/// A call that makes an instance with the next number keeps the instances in
/// order.
proof fn lemma_make_instance<C: Component>(g: GraphView<C>, addr: u64)
    requires
        g.wf(),
        g.next < u32::MAX,
        spec_instance_of(addr) < g.next,
    ensures
        (GraphView {
            children: g.children.insert(addr, g.next),
            next: (g.next + 1) as u32,
            ..g
        }).wf(),
{
    let made = GraphView {
        children: g.children.insert(addr, g.next),
        next: (g.next + 1) as u32,
        ..g
    };
    assert forall|k: u64| #[trigger] made.children.contains_key(k) implies spec_instance_of(k)
        < made.children[k] < made.next by {
        if k != addr {
            assert(g.children.contains_key(k));
        }
    }
    assert forall|k: u64, l: u64|
        #![trigger made.children[k], made.children[l]]
        made.children.contains_key(k) && made.children.contains_key(l) && made.children[k]
            == made.children[l] implies k == l by {
        if k != addr {
            assert(g.children.contains_key(k));
        }
        if l != addr {
            assert(g.children.contains_key(l));
        }
    }
}

/// Giving statements a place inside an instance keeps the instances in order,
/// takes no number back, and leaves the definitions and the wiring.
pub proof fn lemma_instantiate_keeps_order<C: Component>(
    g: GraphView<C>,
    base: u32,
    statements: Seq<ComponentId>,
    i: nat,
    depth: nat,
)
    requires
        g.wf(),
        base < g.next,
    ensures
        instantiate_all(g, base, statements, i, depth).wf(),
        instantiate_all(g, base, statements, i, depth).next >= g.next,
        instantiate_all(g, base, statements, i, depth).funcs == g.funcs,
        instantiate_all(g, base, statements, i, depth).meta == g.meta,
    decreases depth, 1nat, statements.len() - i,
{
    if i < statements.len() {
        lemma_instantiate_one_keeps_order(g, base, statements[i as int].0, depth);
        lemma_instantiate_keeps_order(
            instantiate_one(g, base, statements[i as int].0, depth),
            base,
            statements,
            i + 1,
            depth,
        );
    }
}

/// Giving a statement a place inside an instance keeps the instances in order,
/// takes no number back, and leaves the definitions and the wiring.
pub proof fn lemma_instantiate_one_keeps_order<C: Component>(
    g: GraphView<C>,
    base: u32,
    id: Uid,
    depth: nat,
)
    requires
        g.wf(),
        base < g.next,
    ensures
        instantiate_one(g, base, id, depth).wf(),
        instantiate_one(g, base, id, depth).next >= g.next,
        instantiate_one(g, base, id, depth).funcs == g.funcs,
        instantiate_one(g, base, id, depth).meta == g.meta,
    decreases depth, 0nat, 0nat,
{
    let addr = spec_node_key(base, id.0);
    assert(spec_instance_of(addr) == base);
    if g.meta.contains_key(id.0) {
        match g.meta[id.0] {
            MetaView::Component(_) => {},
            MetaView::Function { func_id, .. } => {
                if depth > 0 && g.funcs.contains_key(func_id.0.0) && g.next < u32::MAX {
                    let made = GraphView {
                        children: g.children.insert(addr, g.next),
                        next: (g.next + 1) as u32,
                        ..g
                    };
                    lemma_make_instance(g, addr);
                    lemma_instantiate_keeps_order(
                        made,
                        g.next,
                        g.funcs[func_id.0.0].statements,
                        0,
                        (depth - 1) as nat,
                    );
                }
            },
        }
    }
}

/// A list of wired statements with one more statement, which had no wiring
/// before, holds no statement twice.
proof fn lemma_push_statement(
    meta: Map<u32, MetaView>,
    statements: Seq<ComponentId>,
    id: Uid,
    wiring: MetaView,
)
    requires
        distinct(statements),
        all_wired(meta, statements),
        !meta.contains_key(id.0),
    ensures
        distinct(statements.push(ComponentId(id))),
        all_wired(meta.insert(id.0, wiring), statements.push(ComponentId(id))),
{
    let pushed = statements.push(ComponentId(id));
    assert forall|i: int, j: int| 0 <= i < j < pushed.len() implies pushed[i] != pushed[j] by {
        if j == statements.len() {
            assert(meta.contains_key(statements[i].0.0));
        }
    }
    assert forall|k: int| 0 <= k < pushed.len() implies meta.insert(id.0, wiring).contains_key(
        #[trigger] pushed[k].0.0,
    ) by {
        if k < statements.len() {
            assert(meta.contains_key(statements[k].0.0));
        }
    }
}

/// Statements that have wiring have wiring in every table that holds more.
proof fn lemma_still_wired(
    meta: Map<u32, MetaView>,
    more: Map<u32, MetaView>,
    statements: Seq<ComponentId>,
)
    requires
        all_wired(meta, statements),
        meta.dom().subset_of(more.dom()),
    ensures
        all_wired(more, statements),
{
    assert forall|k: int| 0 <= k < statements.len() implies more.contains_key(
        #[trigger] statements[k].0.0,
    ) by {
        assert(meta.contains_key(statements[k].0.0));
    }
}

/// The rack with wiring for a token that was not in use is in order.
proof fn lemma_wired_is_in_order<C: Component>(rack: RackView<C>, id: Uid, wiring: MetaView)
    requires
        rack.wf(),
    ensures
        rack.with_meta(id, wiring).wf(),
{
    let v = rack.with_meta(id, wiring);
    lemma_still_wired(rack.graph.meta, v.graph.meta, rack.main.statements);
    assert forall|f: u32| #[trigger] v.graph.funcs.contains_key(f) implies distinct(
        v.graph.funcs[f].statements,
    ) && all_wired(v.graph.meta, v.graph.funcs[f].statements) by {
        assert(rack.graph.funcs.contains_key(f));
        lemma_still_wired(rack.graph.meta, v.graph.meta, rack.graph.funcs[f].statements);
    }
}

/// The rack with a statement pushed that has wiring and stands in no
/// definition is in order.
proof fn lemma_pushed_is_in_order<C: Component>(
    rack: RackView<C>,
    before: Map<u32, MetaView>,
    def: Option<FuncId>,
    id: Uid,
)
    requires
        rack.wf(),
        rack.has_def(def),
        rack.graph.meta.contains_key(id.0),
        !before.contains_key(id.0),
        all_wired(before, rack.def(def).statements),
    ensures
        rack.with_def(
            def,
            FuncDefView {
                statements: rack.def(def).statements.push(ComponentId(id)),
                ..rack.def(def)
            },
        ).wf(),
{
    let statements = rack.def(def).statements;
    let pushed = statements.push(ComponentId(id));
    let v = rack.with_def(def, FuncDefView { statements: pushed, ..rack.def(def) });
    assert(distinct(statements));
    assert(all_wired(rack.graph.meta, statements));
    assert forall|i: int, j: int| 0 <= i < j < pushed.len() implies pushed[i] != pushed[j] by {
        if j == statements.len() {
            assert(before.contains_key(statements[i].0.0));
        }
    }
    assert forall|k: int| 0 <= k < pushed.len() implies rack.graph.meta.contains_key(
        #[trigger] pushed[k].0.0,
    ) by {
        if k < statements.len() {
            assert(rack.graph.meta.contains_key(statements[k].0.0));
        }
    }
    assert forall|f: u32| #[trigger] v.graph.funcs.contains_key(f) implies distinct(
        v.graph.funcs[f].statements,
    ) && all_wired(v.graph.meta, v.graph.funcs[f].statements) by {
        if def == Some(FuncId(Uid(f))) {
        } else {
            assert(rack.graph.funcs.contains_key(f));
        }
    }
}

/// The call that is given wiring and an instance leaves the definitions and
/// the caches as they are, and the wiring of every other statement.
pub proof fn lemma_call_keeps_definitions<C: Component>(
    rack: RackView<C>,
    id: Uid,
    callee: FuncId,
)
    ensures
        rack.with_call(id, callee).main == rack.main,
        rack.with_call(id, callee).graph.funcs == rack.graph.funcs,
        rack.with_call(id, callee).graph.meta == rack.graph.meta.insert(
            id.0,
            MetaView::Function { func_id: callee, inputs: Seq::empty() },
        ),
        rack.with_call(id, callee).cur == rack.cur,
        rack.with_call(id, callee).prev == rack.prev,
        rack.wf() ==> rack.with_call(id, callee).wf(),
{
    let called = MetaView::Function { func_id: callee, inputs: Seq::empty() };
    let v = rack.with_meta(id, called);
    lemma_instantiate_one_keeps_wiring(v.graph, ROOT, id, v.graph.funcs.dom().len());
    if rack.wf() {
        lemma_wired_is_in_order(rack, id, called);
        lemma_instantiate_one_keeps_order(v.graph, ROOT, id, v.graph.funcs.dom().len());
    }
}

/// Giving statements a place inside an instance leaves the definitions and the
/// wiring.
pub proof fn lemma_instantiate_keeps_wiring<C: Component>(
    g: GraphView<C>,
    base: u32,
    statements: Seq<ComponentId>,
    i: nat,
    depth: nat,
)
    ensures
        instantiate_all(g, base, statements, i, depth).funcs == g.funcs,
        instantiate_all(g, base, statements, i, depth).meta == g.meta,
    decreases depth, 1nat, statements.len() - i,
{
    if i < statements.len() {
        lemma_instantiate_one_keeps_wiring(g, base, statements[i as int].0, depth);
        lemma_instantiate_keeps_wiring(
            instantiate_one(g, base, statements[i as int].0, depth),
            base,
            statements,
            i + 1,
            depth,
        );
    }
}

proof fn lemma_instantiate_one_keeps_wiring<C: Component>(
    g: GraphView<C>,
    base: u32,
    id: Uid,
    depth: nat,
)
    ensures
        instantiate_one(g, base, id, depth).funcs == g.funcs,
        instantiate_one(g, base, id, depth).meta == g.meta,
    decreases depth, 0nat, 0nat,
{
    let addr = spec_node_key(base, id.0);
    if g.meta.contains_key(id.0) {
        match g.meta[id.0] {
            MetaView::Component(_) => {},
            MetaView::Function { func_id, .. } => {
                if depth > 0 && g.funcs.contains_key(func_id.0.0) && g.next < u32::MAX {
                    lemma_instantiate_keeps_wiring(
                        GraphView {
                            children: g.children.insert(addr, g.next),
                            next: (g.next + 1) as u32,
                            ..g
                        },
                        g.next,
                        g.funcs[func_id.0.0].statements,
                        0,
                        (depth - 1) as nat,
                    );
                }
            },
        }
    }
}

/// A rack without nodes is in order, and building and running a rack in order
/// leaves it in order, where what is pushed gets a token that was not in use.
pub proof fn lemma_rack_stays_in_order<C: Component>(
    rack: RackView<C>,
    def: Option<FuncId>,
    id: Uid,
    callee: FuncId,
    component: C,
    src: WireSrc,
    dst: WireDst,
    node: ComponentId,
    port: SpecId,
    value: Value,
    host: HostView,
)
    requires
        rack.wf(),
    ensures
        RackView::<C>::empty(rack.inputs, rack.outputs).wf(),
        rack.new_func(id).wf(),
        rack.has_def(def) && !rack.used().contains(id.0) ==> rack.push_component(
            def,
            id,
            component,
        ).wf(),
        rack.has_def(def) && !rack.used().contains(id.0) ==> rack.push_function_call(
            def,
            id,
            callee,
        ).wf(),
        rack.has_def(def) ==> rack.wire(def, src, dst).wf(),
        rack.set_param(node, port, value).wf(),
        rack.update(def, host).wf(),
        rack.output(def, port, host).1.wf(),
{
    // a new definition
    assert(rack.new_func(id).wf()) by {
        let v = rack.new_func(id);
        assert forall|f: u32| #[trigger] v.graph.funcs.contains_key(f) implies distinct(
            v.graph.funcs[f].statements,
        ) && all_wired(v.graph.meta, v.graph.funcs[f].statements) by {
            if f != id.0 {
                assert(rack.graph.funcs.contains_key(f));
            }
        }
    }
    // a new statement
    if rack.has_def(def) && !rack.used().contains(id.0) {
        lemma_wired_is_in_order(rack, id, default_meta(component));
        let v = rack.with_meta(id, default_meta(component));
        let with_state = RackView {
            graph: GraphView {
                state: v.graph.state.insert(spec_node_key(ROOT, id.0), component),
                ..v.graph
            },
            ..v
        };
        assert(spec_instance_of(spec_node_key(ROOT, id.0)) == ROOT);
        assert(with_state.wf());
        lemma_pushed_is_in_order(with_state, rack.graph.meta, def, id);

        lemma_call_keeps_definitions(rack, id, callee);
        lemma_pushed_is_in_order(rack.with_call(id, callee), rack.graph.meta, def, id);
    }
    // wires and parameters
    if rack.has_def(def) {
        let v = rack.wire(def, src, dst);
        lemma_still_wired(rack.graph.meta, v.graph.meta, rack.main.statements);
        assert forall|f: u32| #[trigger] v.graph.funcs.contains_key(f) implies distinct(
            v.graph.funcs[f].statements,
        ) && all_wired(v.graph.meta, v.graph.funcs[f].statements) by {
            assert(rack.graph.funcs.contains_key(f));
            lemma_still_wired(rack.graph.meta, v.graph.meta, rack.graph.funcs[f].statements);
        }
    }
    assert(rack.set_param(node, port, value).wf()) by {
        let v = rack.set_param(node, port, value);
        lemma_still_wired(rack.graph.meta, v.graph.meta, rack.main.statements);
        assert forall|f: u32| #[trigger] v.graph.funcs.contains_key(f) implies distinct(
            v.graph.funcs[f].statements,
        ) && all_wired(v.graph.meta, v.graph.funcs[f].statements) by {
            assert(rack.graph.funcs.contains_key(f));
            lemma_still_wired(rack.graph.meta, v.graph.meta, rack.graph.funcs[f].statements);
        }
    }
    // ticks
    lemma_update_keeps_wiring(
        rack.graph,
        host,
        rack.cur,
        Seq::empty(),
        rack.def(def).statements,
        0,
        rack.graph.funcs.dom().len(),
    );
    match spec_get(rack.def(def).out_wires, port as int) {
        None => {},
        Some(src) => {
            lemma_wire_extends(
                rack.graph,
                host,
                rack.prev,
                state_of(rack.cur),
                Seq::empty(),
                src.0,
            );
        },
    }
}

/// Whether `after` has every definition, every statement, every node instance
/// and every instance of a call that `before` has.
pub open spec fn keeps_all<C: Component>(before: RackView<C>, after: RackView<C>) -> bool {
    &&& before.graph.funcs.dom().subset_of(after.graph.funcs.dom())
    &&& before.graph.meta.dom().subset_of(after.graph.meta.dom())
    &&& before.graph.state.dom().subset_of(after.graph.state.dom())
    &&& before.graph.children.dom().subset_of(after.graph.children.dom())
    &&& forall|def: Option<FuncId>, k: int|
        #![trigger after.def(def).statements[k]]
        before.has_def(def) && 0 <= k < before.def(def).statements.len() ==> k < after.def(
            def,
        ).statements.len() && after.def(def).statements[k] == before.def(def).statements[k]
}

/// Nothing is ever removed from a rack: no definition, no statement of a
/// definition, no node instance and no instance of a call. What is new gets a
/// token that was not in use.
pub proof fn lemma_nothing_is_removed<C: Component>(
    rack: RackView<C>,
    def: Option<FuncId>,
    id: Uid,
    callee: FuncId,
    component: C,
    src: WireSrc,
    dst: WireDst,
    node: ComponentId,
    port: SpecId,
    value: Value,
    host: HostView,
)
    requires
        rack.wf(),
        rack.has_def(def),
    ensures
        !rack.used().contains(id.0) ==> keeps_all(rack, rack.new_func(id)),
        !rack.used().contains(id.0) ==> keeps_all(rack, rack.push_component(def, id, component)),
        !rack.used().contains(id.0) ==> keeps_all(
            rack,
            rack.push_function_call(def, id, callee),
        ),
        keeps_all(rack, rack.wire(def, src, dst)),
        keeps_all(rack, rack.set_param(node, port, value)),
        keeps_all(rack, rack.update(def, host)),
        keeps_all(rack, rack.output(def, port, host).1),
{
    let called = MetaView::Function { func_id: callee, inputs: Seq::empty() };
    if !rack.used().contains(id.0) {
        let v = rack.with_meta(id, called);
        lemma_wired_is_in_order(rack, id, called);
        lemma_instantiate_one_frame(v.graph, ROOT, id, v.graph.funcs.dom().len());
        lemma_call_keeps_definitions(rack, id, callee);
    }
    lemma_update_keeps_wiring(
        rack.graph,
        host,
        rack.cur,
        Seq::empty(),
        rack.def(def).statements,
        0,
        rack.graph.funcs.dom().len(),
    );
}

/// Two calls that made instances made different ones, and no node has the same
/// address in both, nor an output the same key in the cache; and neither
/// instance is the top level, where the definitions' own nodes have their
/// state.
pub proof fn lemma_instances_do_not_share<C: Component>(
    g: GraphView<C>,
    call: u64,
    other: u64,
    node: u32,
    other_node: u32,
    port: SpecId,
    other_port: SpecId,
)
    requires
        g.wf(),
        g.children.contains_key(call),
        g.children.contains_key(other),
        call != other,
    ensures
        g.children[call] != g.children[other],
        g.children[call] != ROOT,
        spec_node_key(g.children[call], node) != spec_node_key(g.children[other], other_node),
        spec_node_key(g.children[call], node) != spec_node_key(ROOT, other_node),
        spec_slot_key(spec_node_key(g.children[call], node), port) != spec_slot_key(
            spec_node_key(g.children[other], other_node),
            other_port,
        ),
        spec_slot_key(spec_node_key(g.children[call], node), port) != spec_slot_key(
            spec_node_key(ROOT, other_node),
            other_port,
        ),
{
}


/// The address at the top level of the node that `addr` is an instance of.
pub open spec fn top_of(addr: u64) -> u64 {
    spec_node_key(ROOT, (addr % 0x1_0000_0000) as u32)
}

/// Whether `after` came from `before` by giving statements a place inside the
/// instance `base`: it holds the state of every node instance that `before`
/// holds, and an instance for every call that had made one; outside `base`, the
/// instances that `before` knows hold what they held, and their calls made the
/// instances that they had made; and inside `base`, each node instance holds
/// what it held, or what `before` holds for the same node at the top level.
pub open spec fn instantiated<C>(before: GraphView<C>, after: GraphView<C>, base: u32) -> bool {
    &&& forall|addr: u64| #[trigger]
        before.state.contains_key(addr) ==> after.state.contains_key(addr)
    &&& forall|addr: u64| #[trigger]
        after.state.contains_key(addr) && spec_instance_of(addr) < before.next
            && spec_instance_of(addr) != base ==> before.state.contains_key(addr)
            && after.state[addr] == before.state[addr]
    &&& forall|addr: u64| #[trigger]
        after.state.contains_key(addr) && spec_instance_of(addr) == base ==> (
        before.state.contains_key(addr) && after.state[addr] == before.state[addr]) || (
        before.state.contains_key(top_of(addr)) && after.state[addr] == before.state[top_of(addr)])
    &&& forall|call: u64| #[trigger]
        before.children.contains_key(call) ==> after.children.contains_key(call)
    &&& forall|call: u64| #[trigger]
        after.children.contains_key(call) && spec_instance_of(call) < before.next
            && spec_instance_of(call) != base ==> before.children.contains_key(call)
            && after.children[call] == before.children[call]
}

/// Giving statements a place inside an instance removes no node instance and
/// changes no state outside that instance and the instances that it makes;
/// inside the instance, each state that it sets is the state that the node has
/// at the top level.
pub proof fn lemma_instantiate_frame<C: Component>(
    g: GraphView<C>,
    base: u32,
    statements: Seq<ComponentId>,
    i: nat,
    depth: nat,
)
    requires
        g.wf(),
        base < g.next,
    ensures
        instantiated(g, instantiate_all(g, base, statements, i, depth), base),
    decreases depth, 1nat, statements.len() - i,
{
    if i < statements.len() {
        let g1 = instantiate_one(g, base, statements[i as int].0, depth);
        lemma_instantiate_one_frame(g, base, statements[i as int].0, depth);
        lemma_instantiate_one_keeps_order(g, base, statements[i as int].0, depth);
        lemma_instantiate_frame(g1, base, statements, i + 1, depth);
        let last = instantiate_all(g, base, statements, i, depth);
        assert(last == instantiate_all(g1, base, statements, i + 1, depth));
        assert forall|addr: u64| #[trigger] g.state.contains_key(addr) implies last.state.contains_key(
            addr,
        ) by {
            assert(g1.state.contains_key(addr));
        }
        assert forall|addr: u64|
            #[trigger] last.state.contains_key(addr) && spec_instance_of(addr) < g.next
                && spec_instance_of(addr) != base implies g.state.contains_key(addr)
            && last.state[addr] == g.state[addr] by {
            assert(g1.state.contains_key(addr));
        }
        assert forall|call: u64| #[trigger] g.children.contains_key(call) implies last.children.contains_key(
            call,
        ) by {
            assert(g1.children.contains_key(call));
        }
        assert forall|call: u64|
            #[trigger] last.children.contains_key(call) && spec_instance_of(call) < g.next
                && spec_instance_of(call) != base implies g.children.contains_key(call)
            && last.children[call] == g.children[call] by {
            assert(g1.children.contains_key(call));
        }
        assert forall|addr: u64|
            #[trigger] last.state.contains_key(addr) && spec_instance_of(addr) == base implies (
        g.state.contains_key(addr) && last.state[addr] == g.state[addr]) || (g.state.contains_key(
            top_of(addr),
        ) && last.state[addr] == g.state[top_of(addr)]) by {
            let top = top_of(addr);
            if g1.state.contains_key(addr) && last.state[addr] == g1.state[addr] {
            } else {
                assert(g1.state.contains_key(top) && last.state[addr] == g1.state[top]);
                assert(spec_instance_of(top) == ROOT);
                if base == ROOT {
                    assert(top == addr);
                } else {
                    assert(g.state.contains_key(top) && g1.state[top] == g.state[top]);
                }
            }
        }
    }
}

proof fn lemma_instantiate_one_frame<C: Component>(
    g: GraphView<C>,
    base: u32,
    id: Uid,
    depth: nat,
)
    requires
        g.wf(),
        base < g.next,
    ensures
        instantiated(g, instantiate_one(g, base, id, depth), base),
    decreases depth, 0nat, 0nat,
{
    let addr = spec_node_key(base, id.0);
    let last = instantiate_one(g, base, id, depth);
    assert(spec_instance_of(addr) == base);
    assert(top_of(addr) == spec_node_key(ROOT, id.0));
    if g.meta.contains_key(id.0) {
        match g.meta[id.0] {
            MetaView::Component(_) => {},
            MetaView::Function { func_id, .. } => {
                if depth > 0 && g.funcs.contains_key(func_id.0.0) && g.next < u32::MAX {
                    let made = GraphView {
                        children: g.children.insert(addr, g.next),
                        next: (g.next + 1) as u32,
                        ..g
                    };
                    lemma_make_instance(g, addr);
                    lemma_instantiate_frame(
                        made,
                        g.next,
                        g.funcs[func_id.0.0].statements,
                        0,
                        (depth - 1) as nat,
                    );
                    assert(last == instantiate_all(
                        made,
                        g.next,
                        g.funcs[func_id.0.0].statements,
                        0,
                        (depth - 1) as nat,
                    ));
                    assert forall|a: u64| #[trigger] g.state.contains_key(a) implies last.state.contains_key(
                        a,
                    ) by {
                        assert(made.state.contains_key(a));
                    }
                    assert forall|call: u64| #[trigger] g.children.contains_key(call) implies last.children.contains_key(
                        call,
                    ) by {
                        assert(made.children.contains_key(call));
                    }
                    assert forall|call: u64|
                        #[trigger] last.children.contains_key(call) && spec_instance_of(call)
                            < g.next && spec_instance_of(call) != base implies g.children.contains_key(
                        call,
                    ) && last.children[call] == g.children[call] by {
                        assert(made.children.contains_key(call));
                    }
                }
            },
        }
    }
}


/// Every node among the statements that has state at the top level has state
/// inside the instance that the statements were given a place in.
pub proof fn lemma_instantiate_covers<C: Component>(
    g: GraphView<C>,
    base: u32,
    statements: Seq<ComponentId>,
    i: nat,
    depth: nat,
    k: int,
)
    requires
        g.wf(),
        base < g.next,
        i <= k < statements.len(),
        g.meta.contains_key(statements[k].0.0),
        g.meta[statements[k].0.0] is Component,
        g.state.contains_key(spec_node_key(ROOT, statements[k].0.0)),
    ensures
        instantiate_all(g, base, statements, i, depth).state.contains_key(
            spec_node_key(base, statements[k].0.0),
        ),
    decreases statements.len() - i,
{
    let g1 = instantiate_one(g, base, statements[i as int].0, depth);
    lemma_instantiate_one_frame(g, base, statements[i as int].0, depth);
    lemma_instantiate_one_keeps_order(g, base, statements[i as int].0, depth);
    lemma_instantiate_frame(g1, base, statements, i + 1, depth);
    assert(instantiate_all(g, base, statements, i, depth) == instantiate_all(
        g1,
        base,
        statements,
        i + 1,
        depth,
    ));
    if k == i {
        assert(g1.state.contains_key(spec_node_key(base, statements[k].0.0)));
    } else {
        assert(g1.state.contains_key(spec_node_key(ROOT, statements[k].0.0)));
        lemma_instantiate_covers(g1, base, statements, i + 1, depth, k);
    }
}

/// A call has state of its own. Where a call of a definition is pushed under a
/// new token, the call makes an instance that no call had made, and every node
/// among the definition's statements gets, inside that instance, the state that
/// it has at the top level, at an address that is neither the node's own nor
/// the node's address in the instance of any earlier call; and no state that
/// the rack held before is changed.
pub proof fn lemma_call_has_state_of_its_own<C: Component>(
    rack: RackView<C>,
    def: Option<FuncId>,
    id: Uid,
    callee: FuncId,
    k: int,
    earlier: Uid,
)
    requires
        rack.wf(),
        rack.has_def(def),
        rack.call_fits(callee),
        !rack.used().contains(id.0),
        0 <= k < rack.def(Some(callee)).statements.len(),
        rack.graph.meta.contains_key(rack.def(Some(callee)).statements[k].0.0),
        rack.graph.meta[rack.def(Some(callee)).statements[k].0.0] is Component,
        rack.graph.state.contains_key(
            spec_node_key(ROOT, rack.def(Some(callee)).statements[k].0.0),
        ),
    ensures
        ({
            let after = rack.push_function_call(def, id, callee);
            let node = rack.def(Some(callee)).statements[k].0.0;
            let made = rack.graph.next;
            &&& after.graph.children.contains_key(spec_node_key(ROOT, id.0))
            &&& after.graph.children[spec_node_key(ROOT, id.0)] == made
            &&& forall|call: u64| #[trigger]
                rack.graph.children.contains_key(call) ==> rack.graph.children[call] != made
            &&& after.graph.state.contains_key(spec_node_key(made, node))
            &&& after.graph.state[spec_node_key(made, node)] == rack.graph.state[spec_node_key(
                ROOT,
                node,
            )]
            &&& spec_node_key(made, node) != spec_node_key(ROOT, node)
            &&& rack.graph.meta.contains_key(earlier.0) ==> id != earlier
            &&& rack.graph.meta.contains_key(earlier.0) && rack.graph.children.contains_key(
                spec_node_key(ROOT, earlier.0),
            ) ==> spec_node_key(made, node) != spec_node_key(
                rack.graph.children[spec_node_key(ROOT, earlier.0)],
                node,
            ) && after.graph.children[spec_node_key(ROOT, earlier.0)]
                == rack.graph.children[spec_node_key(ROOT, earlier.0)]
            &&& forall|addr: u64| #[trigger]
                rack.graph.state.contains_key(addr) ==> after.graph.state.contains_key(addr)
                    && after.graph.state[addr] == rack.graph.state[addr]
        }),
{
    let called = MetaView::Function { func_id: callee, inputs: Seq::empty() };
    let v = rack.with_meta(id, called);
    let g = v.graph;
    let addr = spec_node_key(ROOT, id.0);
    let statements = g.funcs[callee.0.0].statements;
    let node = rack.def(Some(callee)).statements[k].0.0;
    let after = rack.push_function_call(def, id, callee);
    lemma_wired_is_in_order(rack, id, called);
    assert(g.funcs.dom().len() > 0) by {
        if g.funcs.dom().len() == 0 {
            vstd::set_lib::lemma_set_empty_equivalency_len(g.funcs.dom());
            assert(g.funcs.dom().contains(callee.0.0));
        }
    }
    let depth = g.funcs.dom().len();
    let made = GraphView {
        children: g.children.insert(addr, g.next),
        next: (g.next + 1) as u32,
        ..g
    };
    lemma_make_instance(g, addr);
    let placed = instantiate_all(made, g.next, statements, 0, (depth - 1) as nat);
    assert(rack.with_call(id, callee).graph == placed);
    assert(after.graph.state == placed.state);
    assert(after.graph.children == placed.children);
    lemma_instantiate_frame(made, g.next, statements, 0, (depth - 1) as nat);
    lemma_instantiate_covers(made, g.next, statements, 0, (depth - 1) as nat, k);
    assert(spec_instance_of(addr) == ROOT);
    assert(spec_instance_of(spec_node_key(g.next, node)) == g.next);
    assert(top_of(spec_node_key(g.next, node)) == spec_node_key(ROOT, node));
    assert(!made.state.contains_key(spec_node_key(g.next, node)));
    assert forall|a: u64| #[trigger] rack.graph.state.contains_key(a) implies after.graph.state.contains_key(
        a,
    ) && after.graph.state[a] == rack.graph.state[a] by {
        assert(made.state.contains_key(a));
        assert(after.graph.state.contains_key(a));
    }
    assert(made.children.contains_key(addr));
    assert(after.graph.children.contains_key(addr));
    assert(after.graph.children[addr] == g.next);
    assert(after.graph.state.contains_key(spec_node_key(g.next, node)));
    assert(after.graph.state[spec_node_key(g.next, node)] == rack.graph.state[spec_node_key(
        ROOT,
        node,
    )]);
    assert forall|call: u64| #[trigger] rack.graph.children.contains_key(call) implies
        rack.graph.children[call] != g.next by {}
    let before = spec_node_key(ROOT, earlier.0);
    if rack.graph.meta.contains_key(earlier.0) {
        assert(rack.used().contains(earlier.0));
        if rack.graph.children.contains_key(before) {
            assert(spec_instance_of(before) == ROOT);
            assert(before != addr);
            assert(made.children.contains_key(before));
            assert(after.graph.children.contains_key(before));
        }
    }
}


/// Where the instance numbers do not run out, giving statements a place inside
/// an instance makes as many instances as `instances_in` counts: every call
/// among them, and among the statements of what they call, makes its own.
pub proof fn lemma_instances_made<C: Component>(
    g: GraphView<C>,
    base: u32,
    statements: Seq<ComponentId>,
    i: nat,
    depth: nat,
)
    requires
        g.wf(),
        base < g.next,
        g.next + instances_in(g.meta, g.funcs, statements, i, depth) <= u32::MAX,
    ensures
        instantiate_all(g, base, statements, i, depth).next == g.next + instances_in(
            g.meta,
            g.funcs,
            statements,
            i,
            depth,
        ),
    decreases depth, 1nat, statements.len() - i,
{
    if i < statements.len() {
        let id = statements[i as int].0;
        lemma_instances_made_one(g, base, id, depth);
        lemma_instantiate_one_keeps_order(g, base, id, depth);
        lemma_instances_made(instantiate_one(g, base, id, depth), base, statements, i + 1, depth);
    }
}

/// Where the instance numbers do not run out, a statement that is given a
/// place inside an instance makes as many instances as `instances_for` counts.
pub proof fn lemma_instances_made_one<C: Component>(
    g: GraphView<C>,
    base: u32,
    id: Uid,
    depth: nat,
)
    requires
        g.wf(),
        base < g.next,
        g.next + instances_for(g.meta, g.funcs, id, depth) <= u32::MAX,
    ensures
        instantiate_one(g, base, id, depth).next == g.next + instances_for(
            g.meta,
            g.funcs,
            id,
            depth,
        ),
        instances_for(g.meta, g.funcs, id, depth) > 0 ==> instantiate_one(
            g,
            base,
            id,
            depth,
        ).children.contains_key(spec_node_key(base, id.0)),
    decreases depth, 0nat, 0nat,
{
    let addr = spec_node_key(base, id.0);
    assert(spec_instance_of(addr) == base);
    if g.meta.contains_key(id.0) {
        match g.meta[id.0] {
            MetaView::Component(_) => {},
            MetaView::Function { func_id, .. } => {
                if depth > 0 && g.funcs.contains_key(func_id.0.0) {
                    let made = GraphView {
                        children: g.children.insert(addr, g.next),
                        next: (g.next + 1) as u32,
                        ..g
                    };
                    lemma_make_instance(g, addr);
                    lemma_instances_made(
                        made,
                        g.next,
                        g.funcs[func_id.0.0].statements,
                        0,
                        (depth - 1) as nat,
                    );
                    lemma_instantiate_frame(
                        made,
                        g.next,
                        g.funcs[func_id.0.0].statements,
                        0,
                        (depth - 1) as nat,
                    );
                    assert(made.children.contains_key(addr));
                }
            },
        }
    }
}

/// A token without wiring stands in no list of wired statements, so wiring for
/// it changes nothing in how many instances the statements make.
pub proof fn lemma_new_wiring_counts_nothing(
    meta: Map<u32, MetaView>,
    funcs: Map<u32, FuncDefView>,
    statements: Seq<ComponentId>,
    i: nat,
    depth: nat,
    id: Uid,
    wiring: MetaView,
)
    requires
        !meta.contains_key(id.0),
        all_wired(meta, statements),
        forall|f: u32| #[trigger] funcs.contains_key(f) ==> all_wired(meta, funcs[f].statements),
    ensures
        instances_in(meta.insert(id.0, wiring), funcs, statements, i, depth) == instances_in(
            meta,
            funcs,
            statements,
            i,
            depth,
        ),
    decreases depth, 1nat, statements.len() - i,
{
    if i < statements.len() {
        let s = statements[i as int].0;
        let more = meta.insert(id.0, wiring);
        assert(meta.contains_key(statements[i as int].0.0));
        assert(s.0 != id.0);
        assert(more.contains_key(s.0) && more[s.0] == meta[s.0]);
        match meta[s.0] {
            MetaView::Component(_) => {},
            MetaView::Function { func_id, .. } => {
                if depth > 0 && funcs.contains_key(func_id.0.0) {
                    lemma_new_wiring_counts_nothing(
                        meta,
                        funcs,
                        funcs[func_id.0.0].statements,
                        0,
                        (depth - 1) as nat,
                        id,
                        wiring,
                    );
                }
            },
        }
        assert(instances_for(more, funcs, s, depth) == instances_for(meta, funcs, s, depth));
        lemma_new_wiring_counts_nothing(meta, funcs, statements, i + 1, depth, id, wiring);
    }
}

/// A call that fits makes every instance. Where a call of a definition is
/// pushed under a new token into a rack that has the instance numbers for it,
/// the call makes an instance of its own, and so does every call among the
/// statements of the callee and of what it calls: as many numbers are given as
/// the call has instances to make.
pub proof fn lemma_call_makes_every_instance<C: Component>(
    rack: RackView<C>,
    def: Option<FuncId>,
    id: Uid,
    callee: FuncId,
)
    requires
        rack.wf(),
        rack.has_def(def),
        rack.call_fits(callee),
        !rack.used().contains(id.0),
    ensures
        rack.push_function_call(def, id, callee).graph.next == rack.graph.next
            + rack.instances_for_call(callee),
        rack.push_function_call(def, id, callee).graph.children.contains_key(
            spec_node_key(ROOT, id.0),
        ),
        rack.graph.next < u32::MAX,
{
    let called = MetaView::Function { func_id: callee, inputs: Seq::empty() };
    let v = rack.with_meta(id, called);
    lemma_wired_is_in_order(rack, id, called);
    assert(rack.graph.funcs.dom().len() > 0) by {
        if rack.graph.funcs.dom().len() == 0 {
            vstd::set_lib::lemma_set_empty_equivalency_len(rack.graph.funcs.dom());
            assert(rack.graph.funcs.dom().contains(callee.0.0));
        }
    }
    let depth = rack.graph.funcs.dom().len();
    lemma_new_wiring_counts_nothing(
        rack.graph.meta,
        rack.graph.funcs,
        rack.graph.funcs[callee.0.0].statements,
        0,
        (depth - 1) as nat,
        id,
        called,
    );
    assert(instances_for(v.graph.meta, v.graph.funcs, id, depth) == rack.instances_for_call(
        callee,
    ));
    lemma_instances_made_one(v.graph, ROOT, id, depth);
}

} // verus!
