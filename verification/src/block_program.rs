//! The demo program: a timer-tick source feeding a counter, whose overflow
//! drives a toggle, whose output drives a digital output pin; and the tick
//! entry point that seeds and drains one propagation pass.
use vstd::prelude::*;

use crate::block_library::{
    arduino_uno, counter, toggle, CounterV, DOV, ToggleV, UnoV, DO,
};
use crate::engine::{
    block_view, event_valid, lemma_blocks_view, process_events, run_top, state_of, sub_wf, Block,
    BlockV, Connection, SubProgram, SubProgramV, EVENT_BUDGET, QUEUE_CAPACITY,
};
use crate::hal_mock::OutputPin;
use crate::ports::{InputPort, IoV, OutputPort, PortValue};
use crate::vecdeque::{AVecDeque, VecDeque};

verus! {

/// An input port as every block starts out with it.
pub open spec fn fresh_input() -> InputPort {
    InputPort { value: PortValue::Integer(0), is_set: false }
}

/// An output port as every block starts out with it.
pub open spec fn fresh_output() -> OutputPort {
    OutputPort { value: PortValue::Integer(0), is_set: false }
}

/// The wiring of `TheProgram`: the source's tick drives the counter, the
/// counter's overflow drives the toggle, the toggle drives the pin.
pub open spec fn demo_connections() -> Seq<Connection> {
    seq![
        Connection((1, 0), (2, 0)),
        Connection((0, 0), (1, 0)),
        Connection((2, 0), (3, 0)),
    ]
}

/// The blocks of `TheProgram` as they start out: a tick source, a counter
/// with threshold 10, a toggle, and a digital output on `pin`.
pub open spec fn demo_blocks<Pin1: OutputPin>(pin: Pin1) -> Seq<BlockV<Pin1>> {
    seq![
        BlockV::<Pin1>::Uno(UnoV { io: IoV { inputs: Seq::empty(), outputs: seq![fresh_output()] } }),
        BlockV::<Pin1>::Counter(
            CounterV {
                io: IoV { inputs: seq![fresh_input()], outputs: seq![fresh_output()] },
                maxcount: 10,
                current: 0,
                total: 0,
            },
        ),
        BlockV::<Pin1>::Toggle(
            ToggleV { io: IoV { inputs: seq![fresh_input()], outputs: seq![fresh_output()] } },
        ),
        BlockV::<Pin1>::Do(
            DOV { pin, io: IoV { inputs: seq![fresh_input()], outputs: Seq::empty() } },
        ),
    ]
}

/// The demo program, with the block the driver's tick enters at.
pub struct TheProgram<Pin1> {
    pub program: SubProgram<Pin1>,
    pub arduino_block_id: u8,
}

impl<Pin1: OutputPin> TheProgram<Pin1> {
    pub fn new(pin1: Pin1) -> (r: Self)
        ensures
            sub_wf(r.program@),
            r.arduino_block_id == 0,
            r.program@ == (SubProgramV {
                blocks: demo_blocks(pin1),
                inputs: Seq::<InputPort>::empty(),
                outputs: Seq::<OutputPort>::empty(),
                connections: demo_connections(),
            }),
            event_valid((r.arduino_block_id, 0u8), r.program@),
    {
        let mut blocks: Vec<Block<Pin1>> = Vec::new();
        blocks.push(Block::Uno(arduino_uno::default()));
        blocks.push(Block::Counter(counter::new(10)));
        blocks.push(Block::Toggle(toggle::default()));
        blocks.push(Block::Do(DO::new(pin1)));
        let mut connections: Vec<Connection> = Vec::new();
        connections.push(Connection((1, 0), (2, 0)));
        connections.push(Connection((0, 0), (1, 0)));
        connections.push(Connection((2, 0), (3, 0)));
        let r = TheProgram {
            program: SubProgram { blocks, inputs: Vec::new(), outputs: Vec::new(), connections },
            arduino_block_id: 0u8,
        };
        proof {
            lemma_blocks_view(r.program.blocks@);
            assert(r.program@.blocks.len() == 4);
            assert(r.program@.blocks[0] == block_view(r.program.blocks@[0]));
            assert(r.program@.blocks[1] == block_view(r.program.blocks@[1]));
            assert(r.program@.blocks[2] == block_view(r.program.blocks@[2]));
            assert(r.program@.blocks[3] == block_view(r.program.blocks@[3]));
            assert(r.program@.blocks[0] =~~= demo_blocks(pin1)[0]);
            assert(r.program@.blocks[1] =~~= demo_blocks(pin1)[1]);
            assert(r.program@.blocks[2] =~~= demo_blocks(pin1)[2]);
            assert(r.program@.blocks[3] =~~= demo_blocks(pin1)[3]);
            assert(r.program@.blocks =~~= demo_blocks(pin1));
            assert(r.program@ =~~= (SubProgramV {
                blocks: demo_blocks(pin1),
                inputs: Seq::<InputPort>::empty(),
                outputs: Seq::<OutputPort>::empty(),
                connections: demo_connections(),
            }));
            assert(sub_wf(r.program@));
        }
        r
    }
}

/// One tick of the driver loop: seed one event at the entry block's first
/// output and run one propagation pass over the program. The pass's own
/// queue is discarded with the pass.
pub fn clock_tick<Pin: OutputPin>(the_program: &mut TheProgram<Pin>)
    requires
        sub_wf(old(the_program).program@),
        event_valid(
            (old(the_program).arduino_block_id, 0u8),
            old(the_program).program@,
        ),
    ensures
        sub_wf(final(the_program).program@),
        final(the_program).arduino_block_id == old(the_program).arduino_block_id,
        final(the_program).program@.inputs == old(the_program).program@.inputs,
        final(the_program).program@.connections == old(the_program).program@.connections,
        event_valid(
            (final(the_program).arduino_block_id, 0u8),
            final(the_program).program@,
        ),
        ({
            let done = run_top(
                old(the_program).program@.connections,
                old(the_program).program@.inputs,
                state_of(
                    old(the_program).program@,
                    seq![(old(the_program).arduino_block_id, 0u8)],
                ),
                EVENT_BUDGET as nat,
            );
            final(the_program).program@.blocks == done.blocks
                && final(the_program).program@.outputs == done.outputs
        }),
{
    let mut events: VecDeque<QUEUE_CAPACITY, (u8, u8)> = VecDeque::new();
    events.push_back((the_program.arduino_block_id, 0u8));
    proof {
        assert(events.contents() =~= seq![(the_program.arduino_block_id, 0u8)]);
    }
    process_events(&mut the_program.program, &mut events);
}

} // verus!
