//! What a tick does to the states of the node instances: each moves on at most
//! once.

use crate::components::{Component, CtxView};
use crate::eval::{
    eval_sources, frames_inst, fresh_state, node_ctx, node_sources, update_one, update_statements,
    Frame, HostView, SlotView,
};
use crate::laws::lemma_update_keeps_wiring;
use crate::rack::{distinct, GraphView, MetaView, RackView};
use crate::uid::{spec_instance_of, spec_node_key, ComponentId, FuncId, Uid};
use vstd::prelude::*;

verus! {

/// Whether some call made the instance.
pub open spec fn is_made(children: Map<u64, u32>, inst: u32) -> bool {
    exists|k: u64| children.contains_key(k) && #[trigger] children[k] == inst
}

/// The address of the call that made the instance.
pub open spec fn made_by(children: Map<u64, u32>, inst: u32) -> u64 {
    choose|k: u64| children.contains_key(k) && #[trigger] children[k] == inst
}

/// Whether the instance `inst` is `outer`, or was made by a call that stands
/// inside `outer`.
pub open spec fn inside(children: Map<u64, u32>, outer: u32, inst: u32) -> bool
    decreases inst,
{
    inst == outer || (is_made(children, inst) && spec_instance_of(made_by(children, inst)) < inst
        && inside(children, outer, spec_instance_of(made_by(children, inst))))
}

/// Whether the statement `id`, as it stands in the instance `inst`, is what a
/// tick may move the state at `addr` for: the node itself, or a call inside
/// whose instance the address lies.
pub open spec fn touched_by(
    meta: Map<u32, MetaView>,
    children: Map<u64, u32>,
    inst: u32,
    id: Uid,
    addr: u64,
) -> bool {
    meta.contains_key(id.0) && match meta[id.0] {
        MetaView::Component(_) => addr == spec_node_key(inst, id.0),
        MetaView::Function { .. } => children.contains_key(spec_node_key(inst, id.0)) && inside(
            children,
            children[spec_node_key(inst, id.0)],
            spec_instance_of(addr),
        ),
    }
}

/// Whether one of the statements from the `i`th on is what a tick may move the
/// state at `addr` for.
pub open spec fn touched(
    meta: Map<u32, MetaView>,
    children: Map<u64, u32>,
    inst: u32,
    statements: Seq<ComponentId>,
    i: nat,
    addr: u64,
) -> bool {
    exists|k: int|
        i <= k < statements.len() && #[trigger] touched_by(
            meta,
            children,
            inst,
            statements[k].0,
            addr,
        )
}

/// Whether a state is what another state was, or what it became by one update.
pub open spec fn stepped<C: Component>(before: C, after: C) -> bool {
    after == before || exists|ctx: CtxView| after == #[trigger] before.spec_update(ctx)
}

/// A call that made an instance is the one call that made it.
pub proof fn lemma_made_by<C>(g: GraphView<C>, call: u64)
    requires
        g.wf(),
        g.children.contains_key(call),
    ensures
        is_made(g.children, g.children[call]),
        made_by(g.children, g.children[call]) == call,
        spec_instance_of(call) < g.children[call],
{
    let inst = g.children[call];
    assert(g.children.contains_key(call) && g.children[call] == inst);
    let k = made_by(g.children, inst);
    assert(g.children.contains_key(k) && g.children[k] == inst);
    assert(g.children[k] == g.children[call]);
}

/// An instance inside another has no smaller number.
pub proof fn lemma_inside_is_above(children: Map<u64, u32>, outer: u32, inst: u32)
    requires
        inside(children, outer, inst),
    ensures
        outer <= inst,
    decreases inst,
{
    if inst != outer {
        lemma_inside_is_above(children, outer, spec_instance_of(made_by(children, inst)));
    }
}

/// What lies inside the instance that a call made lies inside the instance that
/// the call stands in.
pub proof fn lemma_inside_goes_up<C>(g: GraphView<C>, call: u64, inst: u32)
    requires
        g.wf(),
        g.children.contains_key(call),
        inside(g.children, g.children[call], inst),
    ensures
        inside(g.children, spec_instance_of(call), inst),
    decreases inst,
{
    lemma_made_by(g, call);
    if inst == g.children[call] {
        assert(inside(g.children, spec_instance_of(call), spec_instance_of(call)));
    } else {
        lemma_inside_goes_up(g, call, spec_instance_of(made_by(g.children, inst)));
    }
}

/// Nothing lies inside the instances of two different calls that stand in one
/// instance.
pub proof fn lemma_siblings_are_apart<C>(g: GraphView<C>, call: u64, other: u64, inst: u32)
    requires
        g.wf(),
        g.children.contains_key(call),
        g.children.contains_key(other),
        call != other,
        spec_instance_of(call) == spec_instance_of(other),
    ensures
        !(inside(g.children, g.children[call], inst) && inside(g.children, g.children[other], inst)),
    decreases inst,
{
    lemma_made_by(g, call);
    lemma_made_by(g, other);
    let one = g.children[call];
    let two = g.children[other];
    if inside(g.children, one, inst) && inside(g.children, two, inst) {
        if inst == one {
            lemma_inside_is_above(g.children, two, spec_instance_of(call));
        } else if inst == two {
            lemma_inside_is_above(g.children, one, spec_instance_of(other));
        } else {
            lemma_siblings_are_apart(g, call, other, spec_instance_of(made_by(g.children, inst)));
        }
    }
}

/// What the statements of an instance may move lies inside the instance.
pub proof fn lemma_touched_is_inside<C>(
    g: GraphView<C>,
    inst: u32,
    statements: Seq<ComponentId>,
    i: nat,
    addr: u64,
)
    requires
        g.wf(),
        touched(g.meta, g.children, inst, statements, i, addr),
    ensures
        inside(g.children, inst, spec_instance_of(addr)),
{
    let k = choose|k: int|
        i <= k < statements.len() && #[trigger] touched_by(
            g.meta,
            g.children,
            inst,
            statements[k].0,
            addr,
        );
    let id = statements[k].0;
    let here = spec_node_key(inst, id.0);
    assert(spec_instance_of(here) == inst);
    match g.meta[id.0] {
        MetaView::Component(_) => {},
        MetaView::Function { .. } => {
            lemma_inside_goes_up(g, here, spec_instance_of(addr));
        },
    }
}

/// No state is what two different statements of one list may move.
pub proof fn lemma_statements_are_apart<C>(
    g: GraphView<C>,
    inst: u32,
    statements: Seq<ComponentId>,
    i: nat,
    addr: u64,
)
    requires
        g.wf(),
        distinct(statements),
        i < statements.len(),
    ensures
        !(touched_by(g.meta, g.children, inst, statements[i as int].0, addr) && touched(
            g.meta,
            g.children,
            inst,
            statements,
            i + 1,
            addr,
        )),
{
    if touched_by(g.meta, g.children, inst, statements[i as int].0, addr) && touched(
        g.meta,
        g.children,
        inst,
        statements,
        i + 1,
        addr,
    ) {
        let k = choose|k: int|
            i + 1 <= k < statements.len() && #[trigger] touched_by(
                g.meta,
                g.children,
                inst,
                statements[k].0,
                addr,
            );
        let a = statements[i as int].0;
        let b = statements[k].0;
        assert(statements[i as int] != statements[k]);
        assert(a.0 != b.0);
        let at_a = spec_node_key(inst, a.0);
        let at_b = spec_node_key(inst, b.0);
        assert(spec_instance_of(at_a) == inst && spec_instance_of(at_b) == inst);
        assert(at_a != at_b);
        match (g.meta[a.0], g.meta[b.0]) {
            (MetaView::Component(_), MetaView::Component(_)) => {},
            (MetaView::Component(_), MetaView::Function { .. }) => {
                lemma_made_by(g, at_b);
                lemma_inside_is_above(g.children, g.children[at_b], spec_instance_of(addr));
            },
            (MetaView::Function { .. }, MetaView::Component(_)) => {
                lemma_made_by(g, at_a);
                lemma_inside_is_above(g.children, g.children[at_a], spec_instance_of(addr));
            },
            (MetaView::Function { .. }, MetaView::Function { .. }) => {
                lemma_siblings_are_apart(g, at_a, at_b, spec_instance_of(addr));
            },
        }
    }
}


/// A tick leaves the graph in order.
pub proof fn lemma_tick_keeps_order<C: Component>(
    g: GraphView<C>,
    host: HostView,
    prev: Map<u128, SlotView>,
    frames: Seq<Frame>,
    statements: Seq<ComponentId>,
    i: nat,
    depth: nat,
)
    requires
        g.wf(),
    ensures
        update_statements(g, host, prev, frames, statements, i, depth).wf(),
        update_statements(g, host, prev, frames, statements, i, depth).meta == g.meta,
        update_statements(g, host, prev, frames, statements, i, depth).children == g.children,
        update_statements(g, host, prev, frames, statements, i, depth).funcs == g.funcs,
        update_statements(g, host, prev, frames, statements, i, depth).state.dom()
            == g.state.dom(),
{
    lemma_update_keeps_wiring(g, host, prev, frames, statements, i, depth);
    let after = update_statements(g, host, prev, frames, statements, i, depth);
    assert forall|addr: u64| #[trigger] after.state.contains_key(addr) implies spec_instance_of(
        addr,
    ) < after.next by {
        assert(g.state.dom().contains(addr));
    }
}

/// A tick leaves the state of every node instance that none of the statements
/// may move.
pub proof fn lemma_tick_leaves_the_rest<C: Component>(
    g: GraphView<C>,
    host: HostView,
    prev: Map<u128, SlotView>,
    frames: Seq<Frame>,
    statements: Seq<ComponentId>,
    i: nat,
    depth: nat,
    addr: u64,
)
    requires
        g.wf(),
        g.state.contains_key(addr),
        !touched(g.meta, g.children, frames_inst(frames), statements, i, addr),
    ensures
        update_statements(g, host, prev, frames, statements, i, depth).state[addr]
            == g.state[addr],
    decreases depth, 1nat, statements.len() - i,
{
    if i < statements.len() {
        let id = statements[i as int].0;
        let g1 = update_one(g, host, prev, frames, id, depth);
        assert(!touched_by(g.meta, g.children, frames_inst(frames), statements[i as int].0, addr));
        lemma_statement_leaves_the_rest(g, host, prev, frames, id, depth, addr);
        lemma_tick_keeps_order(g, host, prev, frames, seq![statements[i as int]], 0, depth);
        lemma_one_is_a_list(g, host, prev, frames, id, depth);
        assert(g1.state.dom().contains(addr));
        assert forall|k: int| i + 1 <= k < statements.len() implies !#[trigger] touched_by(
            g1.meta,
            g1.children,
            frames_inst(frames),
            statements[k].0,
            addr,
        ) by {}
        lemma_tick_leaves_the_rest(g1, host, prev, frames, statements, i + 1, depth, addr);
    }
}

/// Moving one statement on is moving on the list that holds it alone.
proof fn lemma_one_is_a_list<C: Component>(
    g: GraphView<C>,
    host: HostView,
    prev: Map<u128, SlotView>,
    frames: Seq<Frame>,
    id: Uid,
    depth: nat,
)
    ensures
        update_statements(g, host, prev, frames, seq![ComponentId(id)], 0, depth) == update_one(
            g,
            host,
            prev,
            frames,
            id,
            depth,
        ),
{
    let list = seq![ComponentId(id)];
    let g1 = update_one(g, host, prev, frames, list[0].0, depth);
    assert(update_statements(g, host, prev, frames, list, 0, depth) == update_statements(
        g1,
        host,
        prev,
        frames,
        list,
        1,
        depth,
    ));
    assert(update_statements(g1, host, prev, frames, list, 1, depth) == g1);
}

proof fn lemma_statement_leaves_the_rest<C: Component>(
    g: GraphView<C>,
    host: HostView,
    prev: Map<u128, SlotView>,
    frames: Seq<Frame>,
    id: Uid,
    depth: nat,
    addr: u64,
)
    requires
        g.wf(),
        g.state.contains_key(addr),
        !touched_by(g.meta, g.children, frames_inst(frames), id, addr),
    ensures
        update_one(g, host, prev, frames, id, depth).state[addr] == g.state[addr],
    decreases depth, 0nat, 0nat,
{
    let here = spec_node_key(frames_inst(frames), id.0);
    if g.meta.contains_key(id.0) {
        match g.meta[id.0] {
            MetaView::Component(cm) => {},
            MetaView::Function { func_id, .. } => {
                if depth > 0 && g.funcs.contains_key(func_id.0.0) && g.children.contains_key(
                    here,
                ) {
                    let inner = frames.push(Frame { call: id, inst: g.children[here] });
                    assert(frames_inst(inner) == g.children[here]);
                    if touched(
                        g.meta,
                        g.children,
                        g.children[here],
                        g.funcs[func_id.0.0].statements,
                        0,
                        addr,
                    ) {
                        lemma_touched_is_inside(
                            g,
                            g.children[here],
                            g.funcs[func_id.0.0].statements,
                            0,
                            addr,
                        );
                    }
                    lemma_tick_leaves_the_rest(
                        g,
                        host,
                        prev,
                        inner,
                        g.funcs[func_id.0.0].statements,
                        0,
                        (depth - 1) as nat,
                        addr,
                    );
                }
            },
        }
    }
}

/// A tick moves the state of each node instance on at most once: afterwards
/// the state is what it was, or what one update of the node made of it.
pub proof fn lemma_tick_moves_each_node_once<C: Component>(
    g: GraphView<C>,
    host: HostView,
    prev: Map<u128, SlotView>,
    frames: Seq<Frame>,
    statements: Seq<ComponentId>,
    i: nat,
    depth: nat,
    addr: u64,
)
    requires
        g.wf(),
        distinct(statements),
        g.state.contains_key(addr),
    ensures
        stepped(
            g.state[addr],
            update_statements(g, host, prev, frames, statements, i, depth).state[addr],
        ),
    decreases depth, 1nat, statements.len() - i,
{
    if i < statements.len() {
        let id = statements[i as int].0;
        let inst = frames_inst(frames);
        let g1 = update_one(g, host, prev, frames, id, depth);
        let last = update_statements(g, host, prev, frames, statements, i, depth);
        assert(last == update_statements(g1, host, prev, frames, statements, i + 1, depth));
        lemma_tick_keeps_order(g, host, prev, frames, seq![statements[i as int]], 0, depth);
        lemma_one_is_a_list(g, host, prev, frames, id, depth);
        assert(g1.state.dom().contains(addr));
        if touched_by(g.meta, g.children, inst, id, addr) {
            lemma_statement_moves_each_node_once(g, host, prev, frames, id, depth, addr);
            lemma_statements_are_apart(g, inst, statements, i, addr);
            lemma_tick_leaves_the_rest(g1, host, prev, frames, statements, i + 1, depth, addr);
        } else {
            lemma_statement_leaves_the_rest(g, host, prev, frames, id, depth, addr);
            lemma_tick_moves_each_node_once(g1, host, prev, frames, statements, i + 1, depth, addr);
        }
    }
}

proof fn lemma_statement_moves_each_node_once<C: Component>(
    g: GraphView<C>,
    host: HostView,
    prev: Map<u128, SlotView>,
    frames: Seq<Frame>,
    id: Uid,
    depth: nat,
    addr: u64,
)
    requires
        g.wf(),
        g.state.contains_key(addr),
    ensures
        stepped(g.state[addr], update_one(g, host, prev, frames, id, depth).state[addr]),
    decreases depth, 0nat, 0nat,
{
    let here = spec_node_key(frames_inst(frames), id.0);
    if g.meta.contains_key(id.0) {
        match g.meta[id.0] {
            MetaView::Component(cm) => {
                if g.state.contains_key(here) && addr == here {
                    let results = eval_sources(
                        g,
                        host,
                        prev,
                        fresh_state(),
                        frames,
                        node_sources(cm),
                        0,
                        Seq::empty(),
                    ).0;
                    let ctx = node_ctx(cm, results, host.sample_rate);
                    assert(update_one(g, host, prev, frames, id, depth).state[addr]
                        == g.state[addr].spec_update(ctx));
                }
            },
            MetaView::Function { func_id, .. } => {
                if depth > 0 && g.funcs.contains_key(func_id.0.0) && g.children.contains_key(
                    here,
                ) {
                    lemma_tick_moves_each_node_once(
                        g,
                        host,
                        prev,
                        frames.push(Frame { call: id, inst: g.children[here] }),
                        g.funcs[func_id.0.0].statements,
                        0,
                        (depth - 1) as nat,
                        addr,
                    );
                }
            },
        }
    }
}

/// In one tick every node is updated at most once: after `update`, the state
/// of each node instance is what it was, or what one update of the node made
/// of it.
pub proof fn lemma_update_moves_each_node_once<C: Component>(
    rack: RackView<C>,
    def: Option<FuncId>,
    host: HostView,
    addr: u64,
)
    requires
        rack.wf(),
        rack.has_def(def),
        rack.graph.state.contains_key(addr),
    ensures
        rack.update(def, host).graph.state.contains_key(addr),
        stepped(rack.graph.state[addr], rack.update(def, host).graph.state[addr]),
{
    lemma_tick_keeps_order(
        rack.graph,
        host,
        rack.cur,
        Seq::empty(),
        rack.def(def).statements,
        0,
        rack.graph.funcs.dom().len(),
    );
    lemma_tick_moves_each_node_once(
        rack.graph,
        host,
        rack.cur,
        Seq::empty(),
        rack.def(def).statements,
        0,
        rack.graph.funcs.dom().len(),
        addr,
    );
    assert(rack.graph.state.dom().contains(addr));
}


/// The graph when the turn of the `i`th statement comes: after the statements
/// from the `j`th up to it have moved on.
pub open spec fn graph_before<C: Component>(
    g: GraphView<C>,
    host: HostView,
    prev: Map<u128, SlotView>,
    frames: Seq<Frame>,
    statements: Seq<ComponentId>,
    j: nat,
    i: nat,
    depth: nat,
) -> GraphView<C>
    decreases i - j,
{
    if j >= i || j >= statements.len() {
        g
    } else {
        graph_before(
            update_one(g, host, prev, frames, statements[j as int].0, depth),
            host,
            prev,
            frames,
            statements,
            j + 1,
            i,
            depth,
        )
    }
}

/// What a statement alone may move is moved by that statement alone: after the
/// tick its state is what the statement made of it when its turn came, and
/// until then the statements before it had left it.
pub proof fn lemma_turn_of_a_statement<C: Component>(
    g: GraphView<C>,
    host: HostView,
    prev: Map<u128, SlotView>,
    frames: Seq<Frame>,
    statements: Seq<ComponentId>,
    j: nat,
    i: nat,
    depth: nat,
    addr: u64,
)
    requires
        g.wf(),
        distinct(statements),
        j <= i < statements.len(),
        g.state.contains_key(addr),
        touched_by(g.meta, g.children, frames_inst(frames), statements[i as int].0, addr),
    ensures
        ({
            let at = graph_before(g, host, prev, frames, statements, j, i, depth);
            &&& at.wf()
            &&& at.meta == g.meta
            &&& at.funcs == g.funcs
            &&& at.children == g.children
            &&& at.state.contains_key(addr)
            &&& at.state[addr] == g.state[addr]
            &&& update_statements(g, host, prev, frames, statements, j, depth).state[addr]
                == update_one(at, host, prev, frames, statements[i as int].0, depth).state[addr]
        }),
    decreases i - j,
{
    let inst = frames_inst(frames);
    let id = statements[j as int].0;
    let g1 = update_one(g, host, prev, frames, id, depth);
    lemma_tick_keeps_order(g, host, prev, frames, seq![statements[j as int]], 0, depth);
    lemma_one_is_a_list(g, host, prev, frames, id, depth);
    assert(g1.state.dom().contains(addr));
    assert(update_statements(g, host, prev, frames, statements, j, depth) == update_statements(
        g1,
        host,
        prev,
        frames,
        statements,
        j + 1,
        depth,
    ));
    if j == i {
        lemma_statements_are_apart(g, inst, statements, i, addr);
        lemma_tick_leaves_the_rest(g1, host, prev, frames, statements, i + 1, depth, addr);
    } else {
        assert(touched(g.meta, g.children, inst, statements, j + 1, addr));
        lemma_statements_are_apart(g, inst, statements, j, addr);
        lemma_statement_leaves_the_rest(g, host, prev, frames, id, depth, addr);
        lemma_turn_of_a_statement(g1, host, prev, frames, statements, j + 1, i, depth, addr);
    }
}

/// The graph when the turn of a node inside a call comes: after the statements
/// before the call in the top-level list, and the statements before the node
/// inside the call, have moved on.
pub open spec fn graph_at_turn<C: Component>(
    g: GraphView<C>,
    host: HostView,
    prev: Map<u128, SlotView>,
    statements: Seq<ComponentId>,
    i: nat,
    call: Uid,
    list: Seq<ComponentId>,
    k: nat,
    depth: nat,
) -> GraphView<C> {
    graph_before(
        graph_before(g, host, prev, Seq::empty(), statements, 0, i, depth),
        host,
        prev,
        seq![Frame { call, inst: g.children[spec_node_key(crate::uid::ROOT, call.0)] }],
        list,
        0,
        k,
        (depth - 1) as nat,
    )
}

/// A tick moves a node inside a call on by the node's own update, with what the
/// node reads inside that call: its wires are read in the instance that the
/// call made, so that an input of the definition is what the call site wires to
/// it. The node's state was left until its turn came.
pub proof fn lemma_call_updates_its_node<C: Component>(
    g: GraphView<C>,
    host: HostView,
    prev: Map<u128, SlotView>,
    statements: Seq<ComponentId>,
    i: nat,
    call: Uid,
    callee: FuncId,
    k: nat,
    depth: nat,
)
    requires
        g.wf(),
        distinct(statements),
        depth > 0,
        i < statements.len(),
        statements[i as int] == ComponentId(call),
        g.meta.contains_key(call.0),
        g.meta[call.0] is Function,
        g.meta[call.0]->func_id == callee,
        g.funcs.contains_key(callee.0.0),
        k < g.funcs[callee.0.0].statements.len(),
        g.meta.contains_key(g.funcs[callee.0.0].statements[k as int].0.0),
        g.meta[g.funcs[callee.0.0].statements[k as int].0.0] is Component,
        g.children.contains_key(spec_node_key(crate::uid::ROOT, call.0)),
        g.state.contains_key(
            spec_node_key(
                g.children[spec_node_key(crate::uid::ROOT, call.0)],
                g.funcs[callee.0.0].statements[k as int].0.0,
            ),
        ),
    ensures
        ({
            let list = g.funcs[callee.0.0].statements;
            let node = list[k as int].0;
            let cm = g.meta[node.0]->Component_0;
            let inst = g.children[spec_node_key(crate::uid::ROOT, call.0)];
            let addr = spec_node_key(inst, node.0);
            let frames = seq![Frame { call, inst }];
            let at = graph_at_turn(g, host, prev, statements, i, call, list, k, depth);
            let read = eval_sources(
                at,
                host,
                prev,
                fresh_state(),
                frames,
                node_sources(cm),
                0,
                Seq::empty(),
            ).0;
            &&& at.meta == g.meta
            &&& at.funcs == g.funcs
            &&& at.children == g.children
            &&& at.state[addr] == g.state[addr]
            &&& update_statements(g, host, prev, Seq::empty(), statements, 0, depth).state[addr]
                == g.state[addr].spec_update(node_ctx(cm, read, host.sample_rate))
        }),
{
    let list = g.funcs[callee.0.0].statements;
    let node = list[k as int].0;
    let cm = g.meta[node.0]->Component_0;
    let here = spec_node_key(crate::uid::ROOT, call.0);
    let inst = g.children[here];
    let addr = spec_node_key(inst, node.0);
    let top = Seq::<Frame>::empty();
    let frames = seq![Frame { call, inst }];
    assert(frames_inst(top) == crate::uid::ROOT);
    assert(frames_inst(frames) == inst);
    assert(top.push(Frame { call, inst }) =~= frames);
    assert(spec_instance_of(addr) == inst);
    assert(inside(g.children, inst, inst));
    assert(touched_by(g.meta, g.children, crate::uid::ROOT, statements[i as int].0, addr));
    lemma_turn_of_a_statement(g, host, prev, top, statements, 0, i, depth, addr);
    let at1 = graph_before(g, host, prev, top, statements, 0, i, depth);
    assert(update_one(at1, host, prev, top, call, depth) == update_statements(
        at1,
        host,
        prev,
        frames,
        list,
        0,
        (depth - 1) as nat,
    ));
    assert(touched_by(at1.meta, at1.children, inst, list[k as int].0, addr));
    lemma_turn_of_a_statement(at1, host, prev, frames, list, 0, k, (depth - 1) as nat, addr);
    let at2 = graph_before(at1, host, prev, frames, list, 0, k, (depth - 1) as nat);
    assert(at2 == graph_at_turn(g, host, prev, statements, i, call, list, k, depth));
}

/// Two calls of one definition move apart. Where the top-level definition
/// holds two calls of a definition, a tick moves the node's state inside each
/// call on by the node's own update with what the node reads inside that call,
/// and leaves the node's own state at the top level where the node is no
/// statement of the top-level definition; and it leaves all wiring.
pub proof fn lemma_two_calls_update_apart<C: Component>(
    rack: RackView<C>,
    host: HostView,
    i: nat,
    j: nat,
    one: Uid,
    two: Uid,
    callee: FuncId,
    k: nat,
)
    requires
        rack.wf(),
        i < rack.main.statements.len(),
        j < rack.main.statements.len(),
        i != j,
        rack.main.statements[i as int] == ComponentId(one),
        rack.main.statements[j as int] == ComponentId(two),
        rack.graph.meta.contains_key(one.0),
        rack.graph.meta[one.0] is Function,
        rack.graph.meta[one.0]->func_id == callee,
        rack.graph.meta.contains_key(two.0),
        rack.graph.meta[two.0] is Function,
        rack.graph.meta[two.0]->func_id == callee,
        rack.graph.funcs.contains_key(callee.0.0),
        k < rack.graph.funcs[callee.0.0].statements.len(),
        rack.graph.meta.contains_key(rack.graph.funcs[callee.0.0].statements[k as int].0.0),
        rack.graph.meta[rack.graph.funcs[callee.0.0].statements[k as int].0.0] is Component,
        rack.graph.children.contains_key(spec_node_key(crate::uid::ROOT, one.0)),
        rack.graph.children.contains_key(spec_node_key(crate::uid::ROOT, two.0)),
        rack.graph.state.contains_key(
            spec_node_key(
                rack.graph.children[spec_node_key(crate::uid::ROOT, one.0)],
                rack.graph.funcs[callee.0.0].statements[k as int].0.0,
            ),
        ),
        rack.graph.state.contains_key(
            spec_node_key(
                rack.graph.children[spec_node_key(crate::uid::ROOT, two.0)],
                rack.graph.funcs[callee.0.0].statements[k as int].0.0,
            ),
        ),
        rack.graph.state.contains_key(
            spec_node_key(crate::uid::ROOT, rack.graph.funcs[callee.0.0].statements[k as int].0.0),
        ),
        forall|n: int|
            0 <= n < rack.main.statements.len() ==> rack.main.statements[n]
                != rack.graph.funcs[callee.0.0].statements[k as int],
    ensures
        ({
            let g = rack.graph;
            let depth = g.funcs.dom().len();
            let list = g.funcs[callee.0.0].statements;
            let node = list[k as int].0;
            let cm = g.meta[node.0]->Component_0;
            let after = rack.update(None, host).graph;
            let first = g.children[spec_node_key(crate::uid::ROOT, one.0)];
            let second = g.children[spec_node_key(crate::uid::ROOT, two.0)];
            let at_first = graph_at_turn(g, host, rack.cur, rack.main.statements, i, one, list, k, depth);
            let at_second = graph_at_turn(
                g,
                host,
                rack.cur,
                rack.main.statements,
                j,
                two,
                list,
                k,
                depth,
            );
            &&& first != second
            &&& spec_node_key(first, node.0) != spec_node_key(second, node.0)
            &&& after.state[spec_node_key(first, node.0)] == g.state[spec_node_key(
                first,
                node.0,
            )].spec_update(
                node_ctx(
                    cm,
                    eval_sources(
                        at_first,
                        host,
                        rack.cur,
                        fresh_state(),
                        seq![Frame { call: one, inst: first }],
                        node_sources(cm),
                        0,
                        Seq::empty(),
                    ).0,
                    host.sample_rate,
                ),
            )
            &&& after.state[spec_node_key(second, node.0)] == g.state[spec_node_key(
                second,
                node.0,
            )].spec_update(
                node_ctx(
                    cm,
                    eval_sources(
                        at_second,
                        host,
                        rack.cur,
                        fresh_state(),
                        seq![Frame { call: two, inst: second }],
                        node_sources(cm),
                        0,
                        Seq::empty(),
                    ).0,
                    host.sample_rate,
                ),
            )
            &&& at_first.meta == g.meta && at_first.funcs == g.funcs && at_first.children
                == g.children
            &&& at_second.meta == g.meta && at_second.funcs == g.funcs && at_second.children
                == g.children
            &&& after.state[spec_node_key(crate::uid::ROOT, node.0)] == g.state[spec_node_key(
                crate::uid::ROOT,
                node.0,
            )]
            &&& after.meta == g.meta
            &&& after.funcs == g.funcs
            &&& after.children == g.children
            &&& rack.update(None, host).main == rack.main
        }),
{
    let g = rack.graph;
    let depth = g.funcs.dom().len();
    let list = g.funcs[callee.0.0].statements;
    let node = list[k as int].0;
    let own = spec_node_key(crate::uid::ROOT, node.0);
    let top = Seq::<Frame>::empty();
    assert(depth > 0) by {
        if g.funcs.dom().len() == 0 {
            vstd::set_lib::lemma_set_empty_equivalency_len(g.funcs.dom());
            assert(g.funcs.dom().contains(callee.0.0));
        }
    }
    assert(one != two) by {
        if i < j {
            assert(rack.main.statements[i as int] != rack.main.statements[j as int]);
        } else {
            assert(rack.main.statements[j as int] != rack.main.statements[i as int]);
        }
    }
    let at_one = spec_node_key(crate::uid::ROOT, one.0);
    let at_two = spec_node_key(crate::uid::ROOT, two.0);
    assert(at_one != at_two);
    assert(g.children[at_one] != g.children[at_two]);
    lemma_call_updates_its_node(g, host, rack.cur, rack.main.statements, i, one, callee, k, depth);
    lemma_call_updates_its_node(g, host, rack.cur, rack.main.statements, j, two, callee, k, depth);
    lemma_tick_keeps_order(g, host, rack.cur, top, rack.main.statements, 0, depth);
    // the node's own state
    assert(frames_inst(top) == crate::uid::ROOT);
    assert(spec_instance_of(own) == crate::uid::ROOT);
    assert forall|n: int| 0 <= n < rack.main.statements.len() implies !#[trigger] touched_by(
        g.meta,
        g.children,
        crate::uid::ROOT,
        rack.main.statements[n].0,
        own,
    ) by {
        let id = rack.main.statements[n].0;
        if g.meta.contains_key(id.0) {
            match g.meta[id.0] {
                MetaView::Component(_) => {
                    assert(rack.main.statements[n] != list[k as int]);
                    assert(id.0 != node.0);
                },
                MetaView::Function { .. } => {
                    let there = spec_node_key(crate::uid::ROOT, id.0);
                    if g.children.contains_key(there) {
                        lemma_made_by(g, there);
                        if inside(g.children, g.children[there], crate::uid::ROOT) {
                            lemma_inside_is_above(g.children, g.children[there], crate::uid::ROOT);
                        }
                    }
                },
            }
        }
    }
    lemma_tick_leaves_the_rest(g, host, rack.cur, top, rack.main.statements, 0, depth, own);
}

} // verus!
