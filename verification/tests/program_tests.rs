use block_engine::block_library::{counter, toggle};
use block_engine::block_program::{clock_tick, TheProgram};
use block_engine::engine::{
    find_connected, Block, Connection, SubProgram, SUBPROCESS_WRAPPER_ID,
};
use block_engine::hal_mock::mock_dio;
use block_engine::ports::{InputPort, OutputPort, PortValue, ProcessIO};

fn pin_value(the_program: &TheProgram<mock_dio>) -> i32 {
    match &the_program.program.blocks[3] {
        Block::Do(d) => d.pin.value,
        _ => panic!("block 3 is the digital output"),
    }
}

#[test]
fn test_instantiation() {
    let pin = mock_dio::default();
    let mut the_program = TheProgram::new(pin);
    for _ in 0..9 {
        clock_tick(&mut the_program);
        assert_eq!(pin_value(&the_program), 0);
    }
    clock_tick(&mut the_program);
    assert_eq!(pin_value(&the_program), 1);
    for _ in 0..9 {
        clock_tick(&mut the_program);
        assert_eq!(pin_value(&the_program), 1);
    }
    clock_tick(&mut the_program);
    assert_eq!(pin_value(&the_program), 0);
}

fn toggle_out(sp: &SubProgram<mock_dio>, index: usize) -> PortValue {
    match &sp.blocks[index] {
        Block::Toggle(t) => t.channels.outputs[0].value,
        _ => panic!("not a toggle"),
    }
}

#[test]
fn test_update_subprocess() {
    let mut sp: SubProgram<mock_dio> = SubProgram {
        blocks: vec![
            Block::Counter(counter::new(10)),
            Block::Toggle(toggle::default()),
        ],
        inputs: vec![InputPort::default()],
        outputs: vec![OutputPort::default()],
        connections: vec![
            Connection((SUBPROCESS_WRAPPER_ID, 0), (0, 0)),
            Connection((0, 0), (1, 0)),
            Connection((1, 0), (SUBPROCESS_WRAPPER_ID, 0)),
        ],
    };
    for _ in 0..9 {
        assert_eq!(sp.update_input(0, PortValue::Integer(0)), vec![]);
        assert_eq!(toggle_out(&sp, 1), PortValue::Integer(0));
    }
    assert_eq!(sp.update_input(0, PortValue::Integer(0)), vec![0]);
    assert_eq!(toggle_out(&sp, 1), PortValue::Integer(1));

    for _ in 0..9 {
        assert_eq!(sp.update_input(0, PortValue::Integer(0)), vec![]);
        assert_eq!(toggle_out(&sp, 1), PortValue::Integer(1));
    }
    assert_eq!(sp.update_input(0, PortValue::Integer(0)), vec![0]);
    assert_eq!(toggle_out(&sp, 1), PortValue::Integer(0));
}

#[test]
fn test_find_connected_keeps_declaration_order() {
    let table = vec![
        Connection((0, 0), (3, 0)),
        Connection((1, 0), (4, 0)),
        Connection((0, 0), (2, 1)),
        Connection((0, 1), (5, 0)),
        Connection((0, 0), (1, 0)),
    ];
    assert_eq!(find_connected(&table, 0, 0), vec![(3, 0), (2, 1), (1, 0)]);
    assert_eq!(find_connected(&table, 0, 1), vec![(5, 0)]);
    assert_eq!(find_connected(&table, 7, 0), vec![]);
}

/// Two toggles fan out from the same boundary input and both write the same
/// boundary output; the destination declared later writes last.
fn fanout_program(first: u8, second: u8) -> SubProgram<mock_dio> {
    let toggle_b = toggle {
        channels: ProcessIO {
            inputs: vec![InputPort::default()],
            outputs: vec![OutputPort { value: PortValue::Integer(5), is_set: false }],
        },
    };
    SubProgram {
        blocks: vec![Block::Toggle(toggle::default()), Block::Toggle(toggle_b)],
        inputs: vec![InputPort::default()],
        outputs: vec![OutputPort::default()],
        connections: vec![
            Connection((SUBPROCESS_WRAPPER_ID, 0), (first, 0)),
            Connection((SUBPROCESS_WRAPPER_ID, 0), (second, 0)),
            Connection((0, 0), (SUBPROCESS_WRAPPER_ID, 0)),
            Connection((1, 0), (SUBPROCESS_WRAPPER_ID, 0)),
        ],
    }
}

#[test]
fn test_fanout_visits_destinations_in_declaration_order() {
    // toggle 0 produces 1, toggle 1 produces 0 (its output starts at 5).
    // Declared order 0 then 1: toggle 1 fires second, so its value lands
    // in the boundary output last.
    let mut sp = fanout_program(0, 1);
    assert_eq!(sp.update_input(0, PortValue::Integer(9)), vec![0]);
    assert_eq!(sp.outputs[0].value, PortValue::Integer(0));

    // the opposite declaration order makes toggle 0's value land last
    let mut sp2 = fanout_program(1, 0);
    assert_eq!(sp2.update_input(0, PortValue::Integer(9)), vec![0]);
    assert_eq!(sp2.outputs[0].value, PortValue::Integer(1));
}

#[test]
fn test_construction_rejects_bad_wiring() {
    // destination block 5 does not exist
    let r: Option<SubProgram<mock_dio>> = SubProgram::new(
        vec![Block::Toggle(toggle::default())],
        vec![],
        vec![],
        vec![Connection((0, 0), (5, 0))],
    );
    assert!(r.is_none());

    // channel 3 is outside the toggle's input arity
    let r2: Option<SubProgram<mock_dio>> = SubProgram::new(
        vec![Block::Toggle(toggle::default()), Block::Toggle(toggle::default())],
        vec![],
        vec![],
        vec![Connection((0, 0), (1, 3))],
    );
    assert!(r2.is_none());

    // the same wiring with an in-range channel is accepted
    let r3: Option<SubProgram<mock_dio>> = SubProgram::new(
        vec![Block::Toggle(toggle::default()), Block::Toggle(toggle::default())],
        vec![],
        vec![],
        vec![Connection((0, 0), (1, 0))],
    );
    assert!(r3.is_some());
}

#[test]
fn test_boundary_forwards_float_bits() {
    // a single edge from the boundary input to the boundary output copies
    // the value through unchanged, bit for bit
    let mut sp: SubProgram<mock_dio> = SubProgram {
        blocks: vec![],
        inputs: vec![InputPort::default()],
        outputs: vec![OutputPort::default()],
        connections: vec![
            Connection((SUBPROCESS_WRAPPER_ID, 0), (SUBPROCESS_WRAPPER_ID, 0)),
        ],
    };
    let bits = (-2.75f64).to_bits();
    assert_eq!(sp.update_input(0, PortValue::Float(bits)), vec![0]);
    match sp.outputs[0].value {
        PortValue::Float(out_bits) => assert_eq!(f64::from_bits(out_bits), -2.75),
        _ => panic!("the boundary output carries the float through"),
    }
}

/// A counter-and-toggle sub-program nested as a block of an enclosing
/// program reproduces the toggle's flip cadence when the enclosing program
/// is ticked.
#[test]
fn test_nested_subprogram_in_enclosing_program() {
    let inner: SubProgram<mock_dio> = SubProgram {
        blocks: vec![
            Block::Counter(counter::new(10)),
            Block::Toggle(toggle::default()),
        ],
        inputs: vec![InputPort::default()],
        outputs: vec![OutputPort::default()],
        connections: vec![
            Connection((SUBPROCESS_WRAPPER_ID, 0), (0, 0)),
            Connection((0, 0), (1, 0)),
            Connection((1, 0), (SUBPROCESS_WRAPPER_ID, 0)),
        ],
    };
    // the enclosing program: a tick source driving the nested program
    let mut the_program: TheProgram<mock_dio> = TheProgram {
        program: SubProgram {
            blocks: vec![
                Block::Uno(Default::default()),
                Block::Sub(inner),
            ],
            inputs: vec![],
            outputs: vec![],
            connections: vec![Connection((0, 0), (1, 0))],
        },
        arduino_block_id: 0,
    };
    let sub_out = |p: &TheProgram<mock_dio>| -> PortValue {
        match &p.program.blocks[1] {
            Block::Sub(s) => s.outputs[0].value,
            _ => panic!("block 1 is the nested program"),
        }
    };
    for _ in 0..9 {
        clock_tick(&mut the_program);
        assert_eq!(sub_out(&the_program), PortValue::Integer(0));
    }
    clock_tick(&mut the_program);
    assert_eq!(sub_out(&the_program), PortValue::Integer(1));
    for _ in 0..9 {
        clock_tick(&mut the_program);
        assert_eq!(sub_out(&the_program), PortValue::Integer(1));
    }
    clock_tick(&mut the_program);
    assert_eq!(sub_out(&the_program), PortValue::Integer(0));
}
