//! The propagation engine: the connection table, the closed set of block
//! kinds, programs composed of blocks, and the event-driven propagation pass.
//!
//! A program owns its blocks and its immutable connection table. One
//! propagation pass drains a bounded event queue: each event names an output
//! whose value must be delivered to every connected destination, in
//! connection-table declaration order. Delivery goes through the destination
//! block's firing rule and may signal fresh outputs, which are queued in
//! turn. The pass is pinned down, step for step, by the spec-level `run`
//! functions below; it ends when the queue is empty or when a fixed step
//! budget is exhausted, so every pass terminates even on a graph whose
//! feedback never quiesces.
use vstd::prelude::*;

use crate::block_library::{
    arduino_uno, counter, counter_wf, do_wf, toggle, toggle_wf, uno_wf, CounterV, DOV, ToggleV,
    UnoV, DO,
};
use crate::hal_mock::OutputPin;
use crate::ports::{
    cleared_outputs, set_indices, set_output_indices, InputPort, OutputPort, PortValue,
};
use crate::vecdeque::{AVecDeque, VecDeque};

verus! {

/// Block ids 0 to 254 address a program's own blocks; this reserved id
/// addresses the program's boundary ports when the program is nested inside
/// an enclosing program.
pub const SUBPROCESS_WRAPPER_ID: u8 = 255;

/// The capacity of every event queue. A push onto a full queue is silently
/// dropped; the queue never grows.
pub const QUEUE_CAPACITY: usize = 100;

/// The number of events one propagation pass processes at most. A graph
/// whose feedback keeps firing past this budget is cut off: the pass returns
/// with the remaining events still queued, which `process_events` reports.
pub const EVENT_BUDGET: usize = 4096;

/// A directed edge of the connection table:
/// `Connection((source block, source channel), (dest block, dest channel))`.
#[derive(Clone, Copy, Debug)]
pub struct Connection(pub (u8, u8), pub (u8, u8));

/// The closed set of block kinds a program can own. A whole program can
/// itself stand as a block inside an enclosing program.
pub enum Block<Pin> {
    Uno(arduino_uno),
    Counter(counter),
    Toggle(toggle),
    Do(DO<Pin>),
    Sub(SubProgram<Pin>),
}

/// A program: its blocks, its boundary ports, and its connection table.
/// Used at top level the boundary ports stay empty; used as a nested block
/// they are the ports the enclosing program sees.
pub struct SubProgram<Pin> {
    pub blocks: Vec<Block<Pin>>,
    pub inputs: Vec<InputPort>,
    pub outputs: Vec<OutputPort>,
    pub connections: Vec<Connection>,
}

/// The value of a block.
#[verifier::ext_equal]
pub enum BlockV<Pin> {
    Uno(UnoV),
    Counter(CounterV),
    Toggle(ToggleV),
    Do(DOV<Pin>),
    Sub(SubProgramV<Pin>),
}

/// The value of a program.
#[verifier::ext_equal]
pub struct SubProgramV<Pin> {
    pub blocks: Seq<BlockV<Pin>>,
    pub inputs: Seq<InputPort>,
    pub outputs: Seq<OutputPort>,
    pub connections: Seq<Connection>,
}

pub open spec fn block_view<Pin: OutputPin>(b: Block<Pin>) -> BlockV<Pin>
    decreases b,
{
    match b {
        Block::Uno(u) => BlockV::Uno(u@),
        Block::Counter(c) => BlockV::Counter(c@),
        Block::Toggle(t) => BlockV::Toggle(t@),
        Block::Do(d) => BlockV::Do(d@),
        Block::Sub(s) => BlockV::Sub(sub_view(s)),
    }
}

pub open spec fn blocks_view<Pin: OutputPin>(bs: Seq<Block<Pin>>) -> Seq<BlockV<Pin>>
    decreases bs,
{
    if bs.len() == 0 {
        Seq::empty()
    } else {
        seq![block_view(bs[0])] + blocks_view(bs.drop_first())
    }
}

pub open spec fn sub_view<Pin: OutputPin>(p: SubProgram<Pin>) -> SubProgramV<Pin>
    decreases p,
{
    SubProgramV {
        blocks: blocks_view(p.blocks@),
        inputs: p.inputs@,
        outputs: p.outputs@,
        connections: p.connections@,
    }
}

/// Each block's value stands at the block's own index.
pub proof fn lemma_blocks_view<Pin: OutputPin>(bs: Seq<Block<Pin>>)
    ensures
        (#[trigger] blocks_view(bs)).len() == bs.len(),
        forall|i: int| 0 <= i < bs.len() ==> blocks_view(bs)[i] == block_view(#[trigger] bs[i]),
    decreases bs,
{
    if bs.len() > 0 {
        lemma_blocks_view(bs.drop_first());
        assert forall|i: int| 0 <= i < bs.len() implies blocks_view(bs)[i] == block_view(
            #[trigger] bs[i],
        ) by {
            if i > 0 {
                assert(bs.drop_first()[i - 1] == bs[i]);
                assert(blocks_view(bs)[i] == blocks_view(bs.drop_first())[i - 1]);
            }
        }
    }
}

impl<Pin: OutputPin> View for Block<Pin> {
    type V = BlockV<Pin>;

    open spec fn view(&self) -> BlockV<Pin> {
        block_view(*self)
    }
}

impl<Pin: OutputPin> View for SubProgram<Pin> {
    type V = SubProgramV<Pin>;

    open spec fn view(&self) -> SubProgramV<Pin> {
        sub_view(*self)
    }
}

/// The number of input ports a block exposes.
pub open spec fn block_arity_in<Pin: OutputPin>(b: BlockV<Pin>) -> int {
    match b {
        BlockV::Uno(u) => u.io.inputs.len() as int,
        BlockV::Counter(c) => c.io.inputs.len() as int,
        BlockV::Toggle(t) => t.io.inputs.len() as int,
        BlockV::Do(d) => d.io.inputs.len() as int,
        BlockV::Sub(s) => s.inputs.len() as int,
    }
}

/// The number of output ports a block exposes.
pub open spec fn block_arity_out<Pin: OutputPin>(b: BlockV<Pin>) -> int {
    match b {
        BlockV::Uno(u) => u.io.outputs.len() as int,
        BlockV::Counter(c) => c.io.outputs.len() as int,
        BlockV::Toggle(t) => t.io.outputs.len() as int,
        BlockV::Do(d) => d.io.outputs.len() as int,
        BlockV::Sub(s) => s.outputs.len() as int,
    }
}

/// The value currently held by a block's output port.
pub open spec fn block_output_value<Pin: OutputPin>(b: BlockV<Pin>, ch: int) -> PortValue {
    match b {
        BlockV::Uno(u) => u.io.outputs[ch].value,
        BlockV::Counter(c) => c.io.outputs[ch].value,
        BlockV::Toggle(t) => t.io.outputs[ch].value,
        BlockV::Do(d) => d.io.outputs[ch].value,
        BlockV::Sub(s) => s.outputs[ch].value,
    }
}

/// No block of this program is itself a nested program.
pub open spec fn all_leaf<Pin: OutputPin>(s: SubProgramV<Pin>) -> bool {
    forall|i: int| 0 <= i < s.blocks.len() ==> !((#[trigger] s.blocks[i]) is Sub)
}

/// One connection endpoint pair is in range for this program: its blocks
/// exist and its channels are within the addressed block's arity; the
/// reserved id addresses the program's boundary ports instead.
pub open spec fn conn_ok<Pin: OutputPin>(c: Connection, s: SubProgramV<Pin>) -> bool {
    &&& if c.0.0 == SUBPROCESS_WRAPPER_ID {
        (c.0.1 as int) < s.inputs.len()
    } else {
        (c.0.0 as int) < s.blocks.len() && (c.0.1 as int) < block_arity_out(s.blocks[c.0.0 as int])
    }
    &&& if c.1.0 == SUBPROCESS_WRAPPER_ID {
        (c.1.1 as int) < s.outputs.len()
    } else {
        (c.1.0 as int) < s.blocks.len() && (c.1.1 as int) < block_arity_in(s.blocks[c.1.0 as int])
    }
}

/// Every edge of the connection table is in range (the construction-time
/// validity check).
pub open spec fn conns_wf<Pin: OutputPin>(s: SubProgramV<Pin>) -> bool {
    forall|k: int| 0 <= k < s.connections.len() ==> conn_ok(#[trigger] s.connections[k], s)
}

/// A well-formed block: its ports have the arity of its kind, its private
/// state is in range, and a nested program is itself well formed and holds
/// only leaf blocks (a program nests programs one level deep).
pub open spec fn block_wf<Pin: OutputPin>(b: BlockV<Pin>) -> bool
    decreases b,
{
    match b {
        BlockV::Uno(u) => uno_wf(u),
        BlockV::Counter(c) => counter_wf(c),
        BlockV::Toggle(t) => toggle_wf(t),
        BlockV::Do(d) => do_wf(d),
        BlockV::Sub(s) => sub_wf(s) && all_leaf(s),
    }
}

/// A well-formed program: at most 255 blocks so that the reserved boundary
/// id stays free, boundary arities that fit a channel byte, well-formed
/// blocks, and a connection table that is in range everywhere.
pub open spec fn sub_wf<Pin: OutputPin>(s: SubProgramV<Pin>) -> bool
    decreases s,
{
    &&& s.blocks.len() <= 255
    &&& s.inputs.len() < 256
    &&& s.outputs.len() < 256
    &&& forall|i: int| 0 <= i < s.blocks.len() ==> block_wf(#[trigger] s.blocks[i])
    &&& conns_wf(s)
}

// ---------------------------------------------------------------------------
// connection lookup
/// The destinations connected to `(block, channel)` among the connections
/// from index `k` on, in declaration order.
pub open spec fn find_connected_from(
    conns: Seq<Connection>,
    block: u8,
    channel: u8,
    k: int,
) -> Seq<(u8, u8)>
    decreases conns.len() - k,
{
    if k < 0 || k >= conns.len() {
        Seq::empty()
    } else {
        let rest = find_connected_from(conns, block, channel, k + 1);
        if conns[k].0.0 == block && conns[k].0.1 == channel {
            seq![conns[k].1] + rest
        } else {
            rest
        }
    }
}

/// The ordered subsequence of the connection table whose source matches:
/// fan-out destinations are visited in declaration order.
pub open spec fn find_connected_spec(conns: Seq<Connection>, block: u8, channel: u8) -> Seq<
    (u8, u8),
> {
    find_connected_from(conns, block, channel, 0)
}

/// The table index of the `t`-th edge at or after `k` whose source matches
/// `(block, channel)`; the table's length when there is no such edge.
pub open spec fn nth_match(
    conns: Seq<Connection>,
    block: u8,
    channel: u8,
    k: int,
    t: int,
) -> int
    decreases conns.len() - k,
{
    if k < 0 || k >= conns.len() {
        conns.len() as int
    } else if conns[k].0.0 == block && conns[k].0.1 == channel {
        if t == 0 {
            k
        } else {
            nth_match(conns, block, channel, k + 1, t - 1)
        }
    } else {
        nth_match(conns, block, channel, k + 1, t)
    }
}

/// The number of edges at or after `k` whose source matches.
pub open spec fn count_matches(conns: Seq<Connection>, block: u8, channel: u8, k: int) -> int
    decreases conns.len() - k,
{
    if k < 0 || k >= conns.len() {
        0
    } else if conns[k].0.0 == block && conns[k].0.1 == channel {
        1 + count_matches(conns, block, channel, k + 1)
    } else {
        count_matches(conns, block, channel, k + 1)
    }
}

/// Law: fan-out destinations are staged in connection-table declaration
/// order. The `t`-th staged destination is the destination of the `t`-th
/// matching edge of the table, and those edges' table indices grow
/// strictly with `t`.
pub proof fn lemma_fanout_declaration_order(
    conns: Seq<Connection>,
    block: u8,
    channel: u8,
    k: int,
    t: int,
)
    requires
        0 <= k,
        0 <= t < find_connected_from(conns, block, channel, k).len(),
    ensures
        k <= nth_match(conns, block, channel, k, t) < conns.len(),
        conns[nth_match(conns, block, channel, k, t)].0.0 == block,
        conns[nth_match(conns, block, channel, k, t)].0.1 == channel,
        find_connected_from(conns, block, channel, k)[t] == conns[nth_match(
            conns,
            block,
            channel,
            k,
            t,
        )].1,
        t > 0 ==> nth_match(conns, block, channel, k, t - 1) < nth_match(
            conns,
            block,
            channel,
            k,
            t,
        ),
    decreases conns.len() - k,
{
    let found = find_connected_from(conns, block, channel, k);
    let rest = find_connected_from(conns, block, channel, k + 1);
    if conns[k].0.0 == block && conns[k].0.1 == channel {
        assert(found == seq![conns[k].1] + rest);
        if t > 0 {
            lemma_fanout_declaration_order(conns, block, channel, k + 1, t - 1);
            assert(found[t] == rest[t - 1]);
            if t == 1 {
                assert(nth_match(conns, block, channel, k, 0) == k);
                assert(nth_match(conns, block, channel, k, 1) >= k + 1);
            }
        } else {
            assert(found[0] == conns[k].1);
        }
    } else {
        lemma_fanout_declaration_order(conns, block, channel, k + 1, t);
        assert(found[t] == rest[t]);
    }
}

/// Law: fan-out staging is complete: one destination is staged for every
/// matching edge of the table, none is dropped and none is added.
pub proof fn lemma_fanout_complete(conns: Seq<Connection>, block: u8, channel: u8, k: int)
    ensures
        find_connected_from(conns, block, channel, k).len() == count_matches(
            conns,
            block,
            channel,
            k,
        ),
    decreases conns.len() - k,
{
    if 0 <= k < conns.len() {
        lemma_fanout_complete(conns, block, channel, k + 1);
    }
}

/// Collects the destinations wired to source `(block, channel)`, preserving
/// connection-table declaration order.
pub fn find_connected(connections: &Vec<Connection>, block: u8, channel: u8) -> (r: Vec<(u8, u8)>)
    ensures
        r@ == find_connected_spec(connections@, block, channel),
{
    let mut r: Vec<(u8, u8)> = Vec::new();
    let mut k: usize = 0;
    while k < connections.len()
        invariant
            k <= connections@.len(),
            find_connected_spec(connections@, block, channel) == r@ + find_connected_from(
                connections@,
                block,
                channel,
                k as int,
            ),
        decreases connections@.len() - k,
    {
        let c = connections[k];
        if c.0.0 == block && c.0.1 == channel {
            r.push(c.1);
            proof {
                assert(find_connected_spec(connections@, block, channel) =~= r@
                    + find_connected_from(connections@, block, channel, k + 1));
            }
        }
        k = k + 1;
    }
    r
}

impl<Pin: OutputPin> Block<Pin> {
    /// The number of input ports this block exposes.
    pub fn num_inputs(&self) -> (r: usize)
        ensures
            r as int == block_arity_in(self@),
    {
        match self {
            Block::Uno(u) => u.channels.inputs.len(),
            Block::Counter(c) => c.channels.inputs.len(),
            Block::Toggle(t) => t.channels.inputs.len(),
            Block::Do(d) => d.channels.inputs.len(),
            Block::Sub(s) => s.inputs.len(),
        }
    }

    /// The number of output ports this block exposes.
    pub fn num_outputs(&self) -> (r: usize)
        ensures
            r as int == block_arity_out(self@),
    {
        match self {
            Block::Uno(u) => u.channels.outputs.len(),
            Block::Counter(c) => c.channels.outputs.len(),
            Block::Toggle(t) => t.channels.outputs.len(),
            Block::Do(d) => d.channels.outputs.len(),
            Block::Sub(s) => s.outputs.len(),
        }
    }

    /// Reads the value currently held by output `channel`.
    pub fn output_value(&self, channel: usize) -> (r: PortValue)
        requires
            (channel as int) < block_arity_out(self@),
        ensures
            r == block_output_value(self@, channel as int),
    {
        match self {
            Block::Uno(u) => u.channels.outputs[channel].value,
            Block::Counter(c) => c.channels.outputs[channel].value,
            Block::Toggle(t) => t.channels.outputs[channel].value,
            Block::Do(d) => d.channels.outputs[channel].value,
            Block::Sub(s) => s.outputs[channel].value,
        }
    }
}


// ---------------------------------------------------------------------------
// one-event semantics (leaf blocks)
/// The state one propagation pass works on: the program's blocks and
/// boundary outputs, and the pending events. The connection table and the
/// boundary inputs never change during a pass and stand apart.
#[verifier::ext_equal]
pub struct EngineState<Pin> {
    pub blocks: Seq<BlockV<Pin>>,
    pub outputs: Seq<OutputPort>,
    pub queue: Seq<(u8, u8)>,
}

pub open spec fn state_of<Pin: OutputPin>(p: SubProgramV<Pin>, q: Seq<(u8, u8)>) -> EngineState<
    Pin,
> {
    EngineState { blocks: p.blocks, outputs: p.outputs, queue: q }
}

/// The program made of a pass's final state.
pub open spec fn program_of<Pin: OutputPin>(
    s: EngineState<Pin>,
    inputs: Seq<InputPort>,
    connections: Seq<Connection>,
) -> SubProgramV<Pin> {
    SubProgramV { blocks: s.blocks, inputs, outputs: s.outputs, connections }
}

/// Enqueueing on the bounded event queue: a push onto a full queue is
/// silently dropped.
pub open spec fn enqueue(queue: Seq<(u8, u8)>, ev: (u8, u8)) -> Seq<(u8, u8)> {
    if queue.len() < QUEUE_CAPACITY {
        queue.push(ev)
    } else {
        queue
    }
}

/// Enqueue one event per freshly signaled output of block `block`, from
/// index `k` of the signal list on.
pub open spec fn enqueue_outs(
    queue: Seq<(u8, u8)>,
    block: u8,
    outs: Seq<u8>,
    k: int,
) -> Seq<(u8, u8)>
    decreases outs.len() - k,
{
    if k < 0 || k >= outs.len() {
        queue
    } else {
        enqueue_outs(enqueue(queue, (block, outs[k])), block, outs, k + 1)
    }
}

/// A leaf block after a value is delivered to one of its inputs: the firing
/// rule admits it only once all inputs are set, and the freshly signaled outputs
/// are reported. A source has no inputs and a nested program is handled by
/// the enclosing pass, so both are left untouched here.
pub open spec fn block_update_leaf<Pin: OutputPin>(
    b: BlockV<Pin>,
    index: int,
    value: PortValue,
) -> (BlockV<Pin>, Seq<u8>) {
    match b {
        BlockV::Uno(u) => (BlockV::Uno(u), Seq::empty()),
        BlockV::Counter(c) => {
            let r = crate::block_library::counter_update(c, index, value);
            (BlockV::Counter(r.0), r.1)
        },
        BlockV::Toggle(t) => {
            let r = crate::block_library::toggle_update(t, index, value);
            (BlockV::Toggle(r.0), r.1)
        },
        BlockV::Do(d) => {
            let r = crate::block_library::do_update(d, index, value);
            (BlockV::Do(r.0), r.1)
        },
        BlockV::Sub(s) => (BlockV::Sub(s), Seq::empty()),
    }
}

/// The value an event's source holds: a boundary event reads the program's
/// own input port, any other event reads the named block's output port.
pub open spec fn source_value<Pin: OutputPin>(
    s: EngineState<Pin>,
    inputs: Seq<InputPort>,
    ev: (u8, u8),
) -> PortValue {
    if ev.0 == SUBPROCESS_WRAPPER_ID {
        inputs[ev.1 as int].value
    } else {
        block_output_value(s.blocks[ev.0 as int], ev.1 as int)
    }
}

/// Deliver a value to one staged destination: a boundary destination writes
/// the program's own output port directly; any other destination goes
/// through the named block's firing rule, and the outputs it freshly
/// signals are queued.
pub open spec fn apply_dst_leaf<Pin: OutputPin>(
    s: EngineState<Pin>,
    dst: (u8, u8),
    value: PortValue,
) -> EngineState<Pin> {
    if dst.0 == SUBPROCESS_WRAPPER_ID {
        EngineState {
            blocks: s.blocks,
            outputs: s.outputs.update(dst.1 as int, OutputPort { value, is_set: true }),
            queue: s.queue,
        }
    } else {
        let r = block_update_leaf(s.blocks[dst.0 as int], dst.1 as int, value);
        EngineState {
            blocks: s.blocks.update(dst.0 as int, r.0),
            outputs: s.outputs,
            queue: enqueue_outs(s.queue, dst.0, r.1, 0),
        }
    }
}

/// Deliver a value to the staged destinations from index `j` on, in order.
pub open spec fn apply_dsts_leaf<Pin: OutputPin>(
    s: EngineState<Pin>,
    dsts: Seq<(u8, u8)>,
    value: PortValue,
    j: int,
) -> EngineState<Pin>
    decreases dsts.len() - j,
{
    if j < 0 || j >= dsts.len() {
        s
    } else {
        apply_dsts_leaf(apply_dst_leaf(s, dsts[j], value), dsts, value, j + 1)
    }
}

/// Process the front event completely: snapshot its source value, stage the
/// full destination list from the unmutated connection table, then deliver
/// to each destination in declaration order.
pub open spec fn step_leaf<Pin: OutputPin>(
    conns: Seq<Connection>,
    inputs: Seq<InputPort>,
    s: EngineState<Pin>,
) -> EngineState<Pin> {
    if s.queue.len() == 0 {
        s
    } else {
        let ev = s.queue[0];
        let value = source_value(s, inputs, ev);
        let dsts = find_connected_spec(conns, ev.0, ev.1);
        let popped = EngineState { blocks: s.blocks, outputs: s.outputs, queue: s.queue.drop_first() };
        apply_dsts_leaf(popped, dsts, value, 0)
    }
}

/// Process up to `fuel` events; the pass is over when the queue is empty.
pub open spec fn run_leaf<Pin: OutputPin>(
    conns: Seq<Connection>,
    inputs: Seq<InputPort>,
    s: EngineState<Pin>,
    fuel: nat,
) -> EngineState<Pin>
    decreases fuel,
{
    if fuel == 0 || s.queue.len() == 0 {
        s
    } else {
        run_leaf(conns, inputs, step_leaf(conns, inputs, s), (fuel - 1) as nat)
    }
}

// ---------------------------------------------------------------------------
// event validity and preservation
/// The event addresses an existing output (or boundary input) of the
/// program.
pub open spec fn event_valid<Pin: OutputPin>(ev: (u8, u8), s: SubProgramV<Pin>) -> bool {
    if ev.0 == SUBPROCESS_WRAPPER_ID {
        (ev.1 as int) < s.inputs.len()
    } else {
        (ev.0 as int) < s.blocks.len() && (ev.1 as int) < block_arity_out(s.blocks[ev.0 as int])
    }
}

pub open spec fn events_valid<Pin: OutputPin>(q: Seq<(u8, u8)>, s: SubProgramV<Pin>) -> bool {
    forall|i: int| 0 <= i < q.len() ==> event_valid(#[trigger] q[i], s)
}

/// Delivering a value to a leaf block preserves its well-formedness, its
/// kind and its arities, and signals only outputs the block has.
pub proof fn lemma_block_update_leaf_wf<Pin: OutputPin>(
    b: BlockV<Pin>,
    index: int,
    value: PortValue,
)
    requires
        block_wf(b),
        0 <= index < block_arity_in(b),
    ensures
        block_wf(block_update_leaf(b, index, value).0),
        block_arity_in(block_update_leaf(b, index, value).0) == block_arity_in(b),
        block_arity_out(block_update_leaf(b, index, value).0) == block_arity_out(b),
        block_update_leaf(b, index, value).0 is Sub <==> b is Sub,
        forall|k: int|
            0 <= k < block_update_leaf(b, index, value).1.len() ==> {
                let e = (#[trigger] block_update_leaf(b, index, value).1[k]) as int;
                0 <= e && e < block_arity_out(b)
            },
{
    match b {
        BlockV::Uno(_) => {},
        BlockV::Counter(c) => {
            crate::ports::lemma_set_indices_bounds(
                crate::block_library::counter_update(c, index, value).0.io.outputs,
                0,
            );
        },
        BlockV::Toggle(t) => {
            crate::ports::lemma_set_indices_bounds(
                crate::block_library::toggle_update(t, index, value).0.io.outputs,
                0,
            );
        },
        BlockV::Do(d) => {
            crate::ports::lemma_set_indices_bounds(
                crate::block_library::do_update(d, index, value).0.io.outputs,
                0,
            );
        },
        BlockV::Sub(_) => {},
    }
}

/// A staged destination is in range for the program: a boundary destination
/// addresses an existing boundary output, any other addresses an existing
/// input of an existing block.
pub open spec fn dst_ok<Pin: OutputPin>(d: (u8, u8), s: SubProgramV<Pin>) -> bool {
    if d.0 == SUBPROCESS_WRAPPER_ID {
        (d.1 as int) < s.outputs.len()
    } else {
        (d.0 as int) < s.blocks.len() && (d.1 as int) < block_arity_in(s.blocks[d.0 as int])
    }
}

/// Two block banks expose the same arities, block for block.
pub open spec fn arities_eq<Pin: OutputPin>(a: Seq<BlockV<Pin>>, b: Seq<BlockV<Pin>>) -> bool {
    &&& a.len() == b.len()
    &&& forall|t: int|
        0 <= t < a.len() ==> block_arity_in(#[trigger] a[t]) == block_arity_in(b[t])
            && block_arity_out(a[t]) == block_arity_out(b[t])
}

/// Every destination staged for a valid source is itself in range for the
/// program.
pub proof fn lemma_find_connected_valid<Pin: OutputPin>(
    s: SubProgramV<Pin>,
    block: u8,
    channel: u8,
    k: int,
)
    requires
        conns_wf(s),
    ensures
        forall|j: int|
            0 <= j < find_connected_from(s.connections, block, channel, k).len() ==> dst_ok(
                #[trigger] find_connected_from(s.connections, block, channel, k)[j],
                s,
            ),
    decreases s.connections.len() - k,
{
    if 0 <= k < s.connections.len() {
        lemma_find_connected_valid(s, block, channel, k + 1);
        assert(conn_ok(s.connections[k], s));
        let d0 = find_connected_from(s.connections, block, channel, k);
        let rest = find_connected_from(s.connections, block, channel, k + 1);
        assert forall|j: int| 0 <= j < d0.len() implies dst_ok(#[trigger] d0[j], s) by {
            if s.connections[k].0.0 == block && s.connections[k].0.1 == channel {
                if j == 0 {
                    assert(d0[0] == s.connections[k].1);
                } else {
                    assert(d0[j] == rest[j - 1]);
                }
            } else {
                assert(d0[j] == rest[j]);
            }
        }
    }
}

/// Updating one block in place at the view level.
pub proof fn lemma_blocks_view_update<Pin: OutputPin>(bs: Seq<Block<Pin>>, i: int, b: Block<Pin>)
    requires
        0 <= i < bs.len(),
    ensures
        blocks_view(bs.update(i, b)) == blocks_view(bs).update(i, block_view(b)),
{
    lemma_blocks_view(bs);
    lemma_blocks_view(bs.update(i, b));
    assert forall|k: int| 0 <= k < bs.len() implies blocks_view(bs.update(i, b))[k] == blocks_view(
        bs,
    ).update(i, block_view(b))[k] by {
        assert(blocks_view(bs.update(i, b))[k] == block_view(bs.update(i, b)[k]));
        assert(blocks_view(bs)[k] == block_view(bs[k]));
    }
    assert(blocks_view(bs.update(i, b)) =~= blocks_view(bs).update(i, block_view(b)));
}

impl<Pin: OutputPin> Block<Pin> {
    /// Deliver a value to a leaf block's input through its firing rule; a
    /// tick source has no inputs, and a nested program is the enclosing
    /// pass's business, so both are left untouched.
    pub fn update_input_basic(&mut self, index: u8, value: PortValue) -> (r: Vec<u8>)
        requires
            block_wf(old(self)@),
            (index as int) < block_arity_in(old(self)@),
        ensures
            final(self)@ == block_update_leaf(old(self)@, index as int, value).0,
            r@ == block_update_leaf(old(self)@, index as int, value).1,
    {
        match self {
            Block::Uno(_) => Vec::new(),
            Block::Counter(c) => c.update_input(index, value),
            Block::Toggle(t) => t.update_input(index, value),
            Block::Do(d) => d.update_input(index, value),
            Block::Sub(_) => Vec::new(),
        }
    }
}


impl<Pin: OutputPin> SubProgram<Pin> {
    /// One propagation pass over a program of leaf blocks: pop the front
    /// event, snapshot its source value, stage the full destination list
    /// from the unmutated connection table, deliver to each staged
    /// destination in declaration order, and queue whatever outputs those
    /// deliveries freshly signal; repeat until the queue is empty or the
    /// step budget runs out. The final state is exactly `run_leaf` of the
    /// initial one.
    pub fn process_events(&mut self, events: &mut VecDeque<QUEUE_CAPACITY, (u8, u8)>)
        requires
            sub_wf(old(self)@),
            all_leaf(old(self)@),
            old(events).wf(),
            events_valid(old(events).contents(), old(self)@),
        ensures
            final(events).wf(),
            sub_wf(final(self)@),
            all_leaf(final(self)@),
            final(self)@.inputs == old(self)@.inputs,
            final(self)@.connections == old(self)@.connections,
            events_valid(final(events).contents(), final(self)@),
            final(self)@.blocks.len() == old(self)@.blocks.len(),
            final(self)@.outputs.len() == old(self)@.outputs.len(),
            arities_eq(final(self)@.blocks, old(self)@.blocks),
            state_of(final(self)@, final(events).contents()) == run_leaf(
                old(self)@.connections,
                old(self)@.inputs,
                state_of(old(self)@, old(events).contents()),
                EVENT_BUDGET as nat,
            ),
    {
        let ghost conns0 = self@.connections;
        let ghost inputs0 = self@.inputs;
        let ghost target = run_leaf(
            conns0,
            inputs0,
            state_of(self@, events.contents()),
            EVENT_BUDGET as nat,
        );
        let mut budget: usize = EVENT_BUDGET;
        while budget > 0 && events.len() > 0
            invariant
                budget <= EVENT_BUDGET,
                events.wf(),
                sub_wf(self@),
                all_leaf(self@),
                self@.connections == conns0,
                self@.inputs == inputs0,
                self@.blocks.len() == old(self)@.blocks.len(),
                self@.outputs.len() == old(self)@.outputs.len(),
                arities_eq(self@.blocks, old(self)@.blocks),
                events_valid(events.contents(), self@),
                run_leaf(conns0, inputs0, state_of(self@, events.contents()), budget as nat)
                    == target,
            decreases budget,
        {
            let ghost s_pre = state_of(self@, events.contents());
            budget = budget - 1;
            let ev = events.pop_front().unwrap();
            proof {
                assert(ev == s_pre.queue[0]);
                assert(event_valid(ev, self@));
            }
            let value: PortValue = if ev.0 == SUBPROCESS_WRAPPER_ID {
                self.inputs[ev.1 as usize].value
            } else {
                proof {
                    lemma_blocks_view(self.blocks@);
                }
                self.blocks[ev.0 as usize].output_value(ev.1 as usize)
            };
            let dsts = find_connected(&self.connections, ev.0, ev.1);
            let ghost s_popped = state_of(self@, events.contents());
            proof {
                lemma_find_connected_valid(self@, ev.0, ev.1, 0);
                assert(value == source_value(s_pre, inputs0, ev));
                assert(step_leaf(conns0, inputs0, s_pre) == apply_dsts_leaf(
                    s_popped,
                    dsts@,
                    value,
                    0,
                ));
            }
            let mut j: usize = 0;
            while j < dsts.len()
                invariant
                    j <= dsts@.len(),
                    events.wf(),
                    sub_wf(self@),
                    all_leaf(self@),
                    self@.connections == conns0,
                    self@.inputs == inputs0,
                    self@.blocks.len() == old(self)@.blocks.len(),
                    self@.outputs.len() == old(self)@.outputs.len(),
                    arities_eq(self@.blocks, old(self)@.blocks),
                    events_valid(events.contents(), self@),
                    forall|t: int| 0 <= t < dsts@.len() ==> dst_ok(#[trigger] dsts@[t], self@),
                    apply_dsts_leaf(state_of(self@, events.contents()), dsts@, value, j as int)
                        == apply_dsts_leaf(s_popped, dsts@, value, 0),
                decreases dsts@.len() - j,
            {
                let ghost s_cur = state_of(self@, events.contents());
                let ghost self_cur = self@;
                let d = dsts[j];
                if d.0 == SUBPROCESS_WRAPPER_ID {
                    self.outputs[d.1 as usize].set_value(&value);
                    proof {
                        assert(state_of(self@, events.contents()) =~= apply_dst_leaf(
                            s_cur,
                            d,
                            value,
                        ));
                    }
                } else {
                    let i = d.0 as usize;
                    proof {
                        lemma_blocks_view(self.blocks@);
                    }
                    let ghost bs_before = self.blocks@;
                    let blk = &mut self.blocks[i];
                    let ghost b_old = blk@;
                    let outs = blk.update_input_basic(d.1, value);
                    let ghost b_new = block_update_leaf(b_old, d.1 as int, value).0;
                    proof {
                        lemma_block_update_leaf_wf(b_old, d.1 as int, value);
                        lemma_blocks_view_update(bs_before, i as int, self.blocks@[i as int]);
                        assert(self@.blocks =~= self_cur.blocks.update(i as int, b_new));
                        assert(self@.blocks[i as int] == b_new);
                        // arities are preserved, so the table, the staged
                        // destinations and the queued events stay in range
                        assert forall|t: int|
                            0 <= t < self@.blocks.len() implies block_wf(
                            #[trigger] self@.blocks[t],
                        ) by {
                            assert(self_cur.blocks[t] == self@.blocks[t] || t == i as int);
                        }
                        assert forall|t: int|
                            0 <= t < conns0.len() implies conn_ok(#[trigger] conns0[t], self@) by {
                            assert(conn_ok(conns0[t], self_cur));
                        }
                        assert forall|t: int|
                            0 <= t < events.contents().len() implies event_valid(
                            #[trigger] events.contents()[t],
                            self@,
                        ) by {
                            assert(event_valid(events.contents()[t], self_cur));
                        }
                        assert forall|t: int|
                            0 <= t < dsts@.len() implies dst_ok(#[trigger] dsts@[t], self@) by {
                            assert(dst_ok(dsts@[t], self_cur));
                        }
                        assert(all_leaf(self@));
                        assert(sub_wf(self@));
                        assert forall|t: int|
                            0 <= t < self@.blocks.len() implies block_arity_in(
                            #[trigger] self@.blocks[t],
                        ) == block_arity_in(old(self)@.blocks[t]) && block_arity_out(
                            self@.blocks[t],
                        ) == block_arity_out(old(self)@.blocks[t]) by {
                            assert(self_cur.blocks[t] == self@.blocks[t] || t == i as int);
                            assert(block_arity_in(self_cur.blocks[t]) == block_arity_in(
                                old(self)@.blocks[t],
                            ));
                            assert(block_arity_out(self_cur.blocks[t]) == block_arity_out(
                                old(self)@.blocks[t],
                            ));
                        }
                    }
                    let ghost q_mid = events.contents();
                    let mut k2: usize = 0;
                    while k2 < outs.len()
                        invariant
                            k2 <= outs@.len(),
                            events.wf(),
                            sub_wf(self@),
                            all_leaf(self@),
                            self@.connections == conns0,
                            self@.inputs == inputs0,
                            self@.blocks.len() == old(self)@.blocks.len(),
                            self@.outputs.len() == old(self)@.outputs.len(),
                            arities_eq(self@.blocks, old(self)@.blocks),
                            self@ == program_of(
                                apply_dst_leaf(s_cur, d, value),
                                inputs0,
                                conns0,
                            ),
                            (d.0 as int) < self@.blocks.len(),
                            forall|t: int|
                                0 <= t < outs@.len() ==> {
                                    let e = (#[trigger] outs@[t]) as int;
                                    0 <= e && e < block_arity_out(self@.blocks[d.0 as int])
                                },
                            events_valid(events.contents(), self@),
                            forall|t: int|
                                0 <= t < dsts@.len() ==> dst_ok(#[trigger] dsts@[t], self@),
                            enqueue_outs(events.contents(), d.0, outs@, k2 as int) == enqueue_outs(
                                q_mid,
                                d.0,
                                outs@,
                                0,
                            ),
                        decreases outs@.len() - k2,
                    {
                        let ghost q_now = events.contents();
                        events.push_back((d.0, outs[k2]));
                        proof {
                            assert(events.contents() == enqueue(q_now, (d.0, outs@[k2 as int])));
                            assert(event_valid((d.0, outs@[k2 as int]), self@));
                            assert forall|t: int|
                                0 <= t < events.contents().len() implies event_valid(
                                #[trigger] events.contents()[t],
                                self@,
                            ) by {
                                assert(t < q_now.len() ==> events.contents()[t] == q_now[t]);
                            }
                        }
                        k2 = k2 + 1;
                    }
                    proof {
                        assert(state_of(self@, events.contents()) =~= apply_dst_leaf(
                            s_cur,
                            d,
                            value,
                        ));
                    }
                }
                j = j + 1;
            }
            proof {
                assert(state_of(self@, events.contents()) == step_leaf(conns0, inputs0, s_pre));
            }
        }
    }
}


/// A program driven as a block of an enclosing one: the boundary output
/// flags are cleared, the arriving value is recorded on boundary input
/// `index` with its flag already consumed, the internal queue is seeded
/// with the boundary event, and one internal pass runs; the freshly
/// signaled boundary outputs are reported. Events the pass left queued are
/// discarded with the pass's own queue.
pub open spec fn sub_update_spec<Pin: OutputPin>(
    s: SubProgramV<Pin>,
    index: int,
    value: PortValue,
) -> (SubProgramV<Pin>, Seq<u8>) {
    let seeded_inputs = s.inputs.update(index, InputPort { value, is_set: false });
    let seeded = EngineState {
        blocks: s.blocks,
        outputs: cleared_outputs(s.outputs),
        queue: seq![(SUBPROCESS_WRAPPER_ID, index as u8)],
    };
    let done = run_leaf(s.connections, seeded_inputs, seeded, EVENT_BUDGET as nat);
    (
        SubProgramV {
            blocks: done.blocks,
            inputs: seeded_inputs,
            outputs: done.outputs,
            connections: s.connections,
        },
        set_indices(done.outputs),
    )
}

impl<Pin: OutputPin> SubProgram<Pin> {
    /// Drive this program as a block of an enclosing program; see
    /// `sub_update_spec` for the exact effect.
    pub fn update_input(&mut self, index: u8, value: PortValue) -> (r: Vec<u8>)
        requires
            sub_wf(old(self)@),
            all_leaf(old(self)@),
            (index as int) < old(self)@.inputs.len(),
        ensures
            sub_wf(final(self)@),
            all_leaf(final(self)@),
            final(self)@.connections == old(self)@.connections,
            final(self)@.blocks.len() == old(self)@.blocks.len(),
            final(self)@.inputs.len() == old(self)@.inputs.len(),
            final(self)@.outputs.len() == old(self)@.outputs.len(),
            final(self)@ == sub_update_spec(old(self)@, index as int, value).0,
            r@ == sub_update_spec(old(self)@, index as int, value).1,
            forall|k: int|
                0 <= k < r@.len() ==> {
                    let e = (#[trigger] r@[k]) as int;
                    0 <= e && e < final(self)@.outputs.len()
                },
    {
        let ghost outs0 = self.outputs@;
        let mut m: usize = 0;
        while m < self.outputs.len()
            invariant
                m <= self.outputs@.len(),
                self.outputs@.len() == outs0.len(),
                self.blocks@ == old(self).blocks@,
                self.inputs@ == old(self).inputs@,
                self.connections@ == old(self).connections@,
                forall|k: int|
                    0 <= k < m ==> self.outputs@[k] == (OutputPort {
                        value: outs0[k].value,
                        is_set: false,
                    }),
                forall|k: int| m <= k < outs0.len() ==> self.outputs@[k] == outs0[k],
            decreases self.outputs@.len() - m,
        {
            let kept = self.outputs[m].value;
            self.outputs[m] = OutputPort { value: kept, is_set: false };
            m = m + 1;
        }
        proof {
            assert(self.outputs@ =~= cleared_outputs(old(self)@.outputs));
        }
        self.inputs[index as usize] = InputPort { value, is_set: false };
        let ghost seeded_self = self@;
        proof {
            assert(seeded_self.blocks =~= old(self)@.blocks);
            assert forall|t: int|
                0 <= t < seeded_self.connections.len() implies conn_ok(
                #[trigger] seeded_self.connections[t],
                seeded_self,
            ) by {
                assert(conn_ok(old(self)@.connections[t], old(self)@));
            }
            assert(sub_wf(seeded_self));
        }
        let mut events: VecDeque<QUEUE_CAPACITY, (u8, u8)> = VecDeque::new();
        events.push_back((SUBPROCESS_WRAPPER_ID, index));
        proof {
            assert(events.contents() =~= seq![(SUBPROCESS_WRAPPER_ID, index)]);
            assert(event_valid((SUBPROCESS_WRAPPER_ID, index), seeded_self));
        }
        self.process_events(&mut events);
        let r = set_output_indices(&self.outputs);
        proof {
            let spec_r = sub_update_spec(old(self)@, index as int, value);
            assert(state_of(seeded_self, seq![(SUBPROCESS_WRAPPER_ID, index)]) =~= (EngineState {
                blocks: old(self)@.blocks,
                outputs: cleared_outputs(old(self)@.outputs),
                queue: seq![(SUBPROCESS_WRAPPER_ID, index as u8)],
            }));
            assert(self@ =~= spec_r.0);
            crate::ports::lemma_set_indices_bounds(self@.outputs, 0);
        }
        r
    }
}


// ---------------------------------------------------------------------------
// one-event semantics (any block, nested programs included)
/// A block after a value is delivered to one of its inputs: a nested
/// program runs a whole internal pass of its own; every other kind goes
/// through its firing rule as in the leaf semantics.
pub open spec fn block_update_top<Pin: OutputPin>(
    b: BlockV<Pin>,
    index: int,
    value: PortValue,
) -> (BlockV<Pin>, Seq<u8>) {
    match b {
        BlockV::Sub(s) => {
            let r = sub_update_spec(s, index, value);
            (BlockV::Sub(r.0), r.1)
        },
        _ => block_update_leaf(b, index, value),
    }
}

/// As `apply_dst_leaf`, with nested programs handled.
pub open spec fn apply_dst_top<Pin: OutputPin>(
    s: EngineState<Pin>,
    dst: (u8, u8),
    value: PortValue,
) -> EngineState<Pin> {
    if dst.0 == SUBPROCESS_WRAPPER_ID {
        EngineState {
            blocks: s.blocks,
            outputs: s.outputs.update(dst.1 as int, OutputPort { value, is_set: true }),
            queue: s.queue,
        }
    } else {
        let r = block_update_top(s.blocks[dst.0 as int], dst.1 as int, value);
        EngineState {
            blocks: s.blocks.update(dst.0 as int, r.0),
            outputs: s.outputs,
            queue: enqueue_outs(s.queue, dst.0, r.1, 0),
        }
    }
}

/// As `apply_dsts_leaf`, with nested programs handled.
pub open spec fn apply_dsts_top<Pin: OutputPin>(
    s: EngineState<Pin>,
    dsts: Seq<(u8, u8)>,
    value: PortValue,
    j: int,
) -> EngineState<Pin>
    decreases dsts.len() - j,
{
    if j < 0 || j >= dsts.len() {
        s
    } else {
        apply_dsts_top(apply_dst_top(s, dsts[j], value), dsts, value, j + 1)
    }
}

/// As `step_leaf`, with nested programs handled.
pub open spec fn step_top<Pin: OutputPin>(
    conns: Seq<Connection>,
    inputs: Seq<InputPort>,
    s: EngineState<Pin>,
) -> EngineState<Pin> {
    if s.queue.len() == 0 {
        s
    } else {
        let ev = s.queue[0];
        let value = source_value(s, inputs, ev);
        let dsts = find_connected_spec(conns, ev.0, ev.1);
        let popped = EngineState { blocks: s.blocks, outputs: s.outputs, queue: s.queue.drop_first() };
        apply_dsts_top(popped, dsts, value, 0)
    }
}

/// As `run_leaf`, with nested programs handled.
pub open spec fn run_top<Pin: OutputPin>(
    conns: Seq<Connection>,
    inputs: Seq<InputPort>,
    s: EngineState<Pin>,
    fuel: nat,
) -> EngineState<Pin>
    decreases fuel,
{
    if fuel == 0 || s.queue.len() == 0 {
        s
    } else {
        run_top(conns, inputs, step_top(conns, inputs, s), (fuel - 1) as nat)
    }
}

impl<Pin: OutputPin> Block<Pin> {
    /// Deliver a value to any block's input: a nested program runs a whole
    /// internal pass, every other kind goes through its firing rule.
    pub fn update_input(&mut self, index: u8, value: PortValue) -> (r: Vec<u8>)
        requires
            block_wf(old(self)@),
            (index as int) < block_arity_in(old(self)@),
        ensures
            block_wf(final(self)@),
            block_arity_in(final(self)@) == block_arity_in(old(self)@),
            block_arity_out(final(self)@) == block_arity_out(old(self)@),
            final(self)@ is Sub <==> old(self)@ is Sub,
            final(self)@ == block_update_top(old(self)@, index as int, value).0,
            r@ == block_update_top(old(self)@, index as int, value).1,
            forall|k: int|
                0 <= k < r@.len() ==> {
                    let e = (#[trigger] r@[k]) as int;
                    0 <= e && e < block_arity_out(old(self)@)
                },
    {
        if let Block::Sub(sp) = self {
            sp.update_input(index, value)
        } else {
            proof {
                lemma_block_update_leaf_wf(old(self)@, index as int, value);
            }
            self.update_input_basic(index, value)
        }
    }
}


/// One top-level propagation pass. The same two-phase algorithm as
/// `SubProgram::process_events`, but a destination block that is itself a
/// program runs its own internal pass when its firing is due. The final
/// state is exactly `run_top` of the initial one.
pub fn process_events<Pin: OutputPin>(
    program: &mut SubProgram<Pin>,
    events: &mut VecDeque<QUEUE_CAPACITY, (u8, u8)>,
)
    requires
        sub_wf(old(program)@),
        old(events).wf(),
        events_valid(old(events).contents(), old(program)@),
    ensures
        final(events).wf(),
        sub_wf(final(program)@),
        final(program)@.inputs == old(program)@.inputs,
        final(program)@.connections == old(program)@.connections,
        final(program)@.blocks.len() == old(program)@.blocks.len(),
        final(program)@.outputs.len() == old(program)@.outputs.len(),
        arities_eq(final(program)@.blocks, old(program)@.blocks),
        events_valid(final(events).contents(), final(program)@),
        state_of(final(program)@, final(events).contents()) == run_top(
            old(program)@.connections,
            old(program)@.inputs,
            state_of(old(program)@, old(events).contents()),
            EVENT_BUDGET as nat,
        ),
{
    let ghost conns0 = program@.connections;
    let ghost inputs0 = program@.inputs;
    let ghost target = run_top(
        conns0,
        inputs0,
        state_of(program@, events.contents()),
        EVENT_BUDGET as nat,
    );
    let mut budget: usize = EVENT_BUDGET;
    while budget > 0 && events.len() > 0
        invariant
            budget <= EVENT_BUDGET,
            events.wf(),
            sub_wf(program@),
            program@.connections == conns0,
            program@.inputs == inputs0,
            program@.blocks.len() == old(program)@.blocks.len(),
            program@.outputs.len() == old(program)@.outputs.len(),
            arities_eq(program@.blocks, old(program)@.blocks),
            events_valid(events.contents(), program@),
            run_top(conns0, inputs0, state_of(program@, events.contents()), budget as nat)
                == target,
        decreases budget,
    {
        let ghost s_pre = state_of(program@, events.contents());
        budget = budget - 1;
        let ev = events.pop_front().unwrap();
        proof {
            assert(ev == s_pre.queue[0]);
            assert(event_valid(ev, program@));
        }
        let value: PortValue = if ev.0 == SUBPROCESS_WRAPPER_ID {
            program.inputs[ev.1 as usize].value
        } else {
            proof {
                lemma_blocks_view(program.blocks@);
            }
            program.blocks[ev.0 as usize].output_value(ev.1 as usize)
        };
        let dsts = find_connected(&program.connections, ev.0, ev.1);
        let ghost s_popped = state_of(program@, events.contents());
        proof {
            lemma_find_connected_valid(program@, ev.0, ev.1, 0);
            assert(value == source_value(s_pre, inputs0, ev));
            assert(step_top(conns0, inputs0, s_pre) == apply_dsts_top(s_popped, dsts@, value, 0));
        }
        let mut j: usize = 0;
        while j < dsts.len()
            invariant
                j <= dsts@.len(),
                events.wf(),
                sub_wf(program@),
                program@.connections == conns0,
                program@.inputs == inputs0,
                program@.blocks.len() == old(program)@.blocks.len(),
                program@.outputs.len() == old(program)@.outputs.len(),
                arities_eq(program@.blocks, old(program)@.blocks),
                events_valid(events.contents(), program@),
                forall|t: int| 0 <= t < dsts@.len() ==> dst_ok(#[trigger] dsts@[t], program@),
                apply_dsts_top(state_of(program@, events.contents()), dsts@, value, j as int)
                    == apply_dsts_top(s_popped, dsts@, value, 0),
            decreases dsts@.len() - j,
        {
            let ghost s_cur = state_of(program@, events.contents());
            let ghost self_cur = program@;
            let d = dsts[j];
            if d.0 == SUBPROCESS_WRAPPER_ID {
                program.outputs[d.1 as usize].set_value(&value);
                proof {
                    assert(state_of(program@, events.contents()) =~= apply_dst_top(
                        s_cur,
                        d,
                        value,
                    ));
                }
            } else {
                let i = d.0 as usize;
                proof {
                    lemma_blocks_view(program.blocks@);
                }
                let ghost bs_before = program.blocks@;
                let blk = &mut program.blocks[i];
                let ghost b_old = blk@;
                let outs = blk.update_input(d.1, value);
                let ghost b_new = block_update_top(b_old, d.1 as int, value).0;
                proof {
                    lemma_blocks_view_update(bs_before, i as int, program.blocks@[i as int]);
                    assert(program@.blocks =~= self_cur.blocks.update(i as int, b_new));
                    assert(program@.blocks[i as int] == b_new);
                    assert forall|t: int|
                        0 <= t < program@.blocks.len() implies block_wf(
                        #[trigger] program@.blocks[t],
                    ) by {
                        assert(self_cur.blocks[t] == program@.blocks[t] || t == i as int);
                    }
                    assert forall|t: int|
                        0 <= t < conns0.len() implies conn_ok(#[trigger] conns0[t], program@) by {
                        assert(conn_ok(conns0[t], self_cur));
                    }
                    assert forall|t: int|
                        0 <= t < events.contents().len() implies event_valid(
                        #[trigger] events.contents()[t],
                        program@,
                    ) by {
                        assert(event_valid(events.contents()[t], self_cur));
                    }
                    assert forall|t: int|
                        0 <= t < dsts@.len() implies dst_ok(#[trigger] dsts@[t], program@) by {
                        assert(dst_ok(dsts@[t], self_cur));
                    }
                    assert(sub_wf(program@));
                    assert forall|t: int|
                        0 <= t < program@.blocks.len() implies block_arity_in(
                        #[trigger] program@.blocks[t],
                    ) == block_arity_in(old(program)@.blocks[t]) && block_arity_out(
                        program@.blocks[t],
                    ) == block_arity_out(old(program)@.blocks[t]) by {
                        assert(self_cur.blocks[t] == program@.blocks[t] || t == i as int);
                        assert(block_arity_in(self_cur.blocks[t]) == block_arity_in(
                            old(program)@.blocks[t],
                        ));
                        assert(block_arity_out(self_cur.blocks[t]) == block_arity_out(
                            old(program)@.blocks[t],
                        ));
                    }
                }
                let ghost q_mid = events.contents();
                let mut k2: usize = 0;
                while k2 < outs.len()
                    invariant
                        k2 <= outs@.len(),
                        events.wf(),
                        sub_wf(program@),
                        program@.connections == conns0,
                        program@.inputs == inputs0,
                        program@.blocks.len() == old(program)@.blocks.len(),
                        program@.outputs.len() == old(program)@.outputs.len(),
                        arities_eq(program@.blocks, old(program)@.blocks),
                        program@ == program_of(apply_dst_top(s_cur, d, value), inputs0, conns0),
                        (d.0 as int) < program@.blocks.len(),
                        forall|t: int|
                            0 <= t < outs@.len() ==> {
                                let e = (#[trigger] outs@[t]) as int;
                                0 <= e && e < block_arity_out(program@.blocks[d.0 as int])
                            },
                        events_valid(events.contents(), program@),
                        forall|t: int| 0 <= t < dsts@.len() ==> dst_ok(#[trigger] dsts@[t], program@),
                        enqueue_outs(events.contents(), d.0, outs@, k2 as int) == enqueue_outs(
                            q_mid,
                            d.0,
                            outs@,
                            0,
                        ),
                    decreases outs@.len() - k2,
                {
                    let ghost q_now = events.contents();
                    events.push_back((d.0, outs[k2]));
                    proof {
                        assert(events.contents() == enqueue(q_now, (d.0, outs@[k2 as int])));
                        assert(event_valid((d.0, outs@[k2 as int]), program@));
                        assert forall|t: int|
                            0 <= t < events.contents().len() implies event_valid(
                            #[trigger] events.contents()[t],
                            program@,
                        ) by {
                            assert(t < q_now.len() ==> events.contents()[t] == q_now[t]);
                        }
                    }
                    k2 = k2 + 1;
                }
                proof {
                    assert(state_of(program@, events.contents()) =~= apply_dst_top(
                        s_cur,
                        d,
                        value,
                    ));
                }
            }
            j = j + 1;
        }
        proof {
            assert(state_of(program@, events.contents()) == step_top(conns0, inputs0, s_pre));
        }
    }
}


impl<Pin: OutputPin> SubProgram<Pin> {
    /// Builds a program from already well-formed blocks after the
    /// construction-time wiring check: every connection must address
    /// existing blocks and in-range ports, and the boundary arities must
    /// leave the reserved id free. Invalid wiring is rejected here, before
    /// any tick can run.
    pub fn new(
        blocks: Vec<Block<Pin>>,
        inputs: Vec<InputPort>,
        outputs: Vec<OutputPort>,
        connections: Vec<Connection>,
    ) -> (r: Option<Self>)
        requires
            forall|i: int|
                0 <= i < blocks@.len() ==> block_wf(block_view(#[trigger] blocks@[i])),
        ensures
            ({
                let v = SubProgramV {
                    blocks: blocks_view(blocks@),
                    inputs: inputs@,
                    outputs: outputs@,
                    connections: connections@,
                };
                &&& (r is Some <==> sub_wf(v))
                &&& (r matches Some(p) ==> p@ == v && sub_wf(p@))
            }),
    {
        proof {
            lemma_blocks_view(blocks@);
        }
        let ghost v = SubProgramV {
            blocks: blocks_view(blocks@),
            inputs: inputs@,
            outputs: outputs@,
            connections: connections@,
        };
        if blocks.len() > 255 || inputs.len() > 255 || outputs.len() > 255 {
            proof {
                assert(v.blocks.len() == blocks@.len());
                assert(!sub_wf(v));
            }
            return None;
        }
        let mut j: usize = 0;
        while j < connections.len()
            invariant
                j <= connections@.len(),
                blocks@.len() <= 255,
                inputs@.len() < 256,
                outputs@.len() < 256,
                v == (SubProgramV {
                    blocks: blocks_view(blocks@),
                    inputs: inputs@,
                    outputs: outputs@,
                    connections: connections@,
                }),
                forall|k: int| 0 <= k < blocks@.len() ==> v.blocks[k] == block_view(
                    #[trigger] blocks@[k],
                ),
                v.blocks.len() == blocks@.len(),
                forall|k: int| 0 <= k < j ==> conn_ok(#[trigger] connections@[k], v),
            decreases connections@.len() - j,
        {
            let c = connections[j];
            let src_ok: bool = if c.0.0 == SUBPROCESS_WRAPPER_ID {
                (c.0.1 as usize) < inputs.len()
            } else {
                (c.0.0 as usize) < blocks.len() && (c.0.1 as usize) < blocks[
                    c.0.0 as usize
                ].num_outputs()
            };
            let dst_is_ok: bool = if c.1.0 == SUBPROCESS_WRAPPER_ID {
                (c.1.1 as usize) < outputs.len()
            } else {
                (c.1.0 as usize) < blocks.len() && (c.1.1 as usize) < blocks[
                    c.1.0 as usize
                ].num_inputs()
            };
            if !(src_ok && dst_is_ok) {
                proof {
                    assert(!conn_ok(connections@[j as int], v));
                    assert(v.connections[j as int] == connections@[j as int]);
                    assert(!conn_ok(v.connections[j as int], v));
                    assert(!conns_wf(v));
                    assert(!sub_wf(v));
                }
                return None;
            }
            proof {
                assert(conn_ok(connections@[j as int], v));
            }
            j = j + 1;
        }
        let result = SubProgram { blocks, inputs, outputs, connections };
        proof {
            assert forall|i: int| 0 <= i < v.blocks.len() implies block_wf(
                #[trigger] v.blocks[i],
            ) by {
                assert(v.blocks[i] == block_view(blocks@[i]));
            }
            assert(conns_wf(v));
            assert(sub_wf(v));
            assert(result@ =~= v);
        }
        Some(result)
    }
}

} // verus!
