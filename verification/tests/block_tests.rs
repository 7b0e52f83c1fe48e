use block_engine::block_library::{counter, toggle, DO};
use block_engine::hal_mock::mock_dio;
use block_engine::ports::{InputPort, OutputPort, PortValue, ProcessIO};

#[test]
fn test_update_do1() {
    let mut do1 = DO::new(mock_dio::default());
    assert_eq!(do1.update_input(0, PortValue::Integer(1)), vec![]);
    assert_eq!(do1.channels.inputs[0].value, PortValue::Integer(1i32));
    assert_eq!(do1.pin.value, 1i32);
    assert_eq!(do1.channels.inputs[0].is_set, false);

    do1.update_input(0, PortValue::Integer(0));
    assert_eq!(do1.channels.inputs[0].value, PortValue::Integer(0i32));
    assert_eq!(do1.pin.value, 0i32);
    assert_eq!(do1.channels.inputs[0].is_set, false);
}

#[test]
fn test_update_toggle() {
    let mut tgl = toggle::default();
    assert_eq!(tgl.update_input(0, PortValue::Integer(1)), vec![0u8]);
    assert_eq!(tgl.channels.inputs[0].value, PortValue::Integer(1i32));
    assert_eq!(tgl.channels.outputs[0].value, PortValue::Integer(1i32));
    assert_eq!(tgl.channels.inputs[0].is_set, false);

    assert_eq!(tgl.update_input(0, PortValue::Integer(2)), vec![0u8]);
    assert_eq!(tgl.channels.inputs[0].value, PortValue::Integer(2i32));
    assert_eq!(tgl.channels.outputs[0].value, PortValue::Integer(0i32));
    assert_eq!(tgl.channels.inputs[0].is_set, false);
}

#[test]
fn test_update_counter() {
    let mut cntr = counter::new(100);
    for i in 1..=99 {
        assert_eq!(cntr.update_input(0, PortValue::Integer(1)), vec![]);
        assert_eq!(cntr.current, i);
        assert_eq!(cntr.total, 0);
    }
    assert_eq!(cntr.update_input(0, PortValue::Integer(1)), vec![0u8]);
    assert_eq!(cntr.current, 0);
    assert_eq!(cntr.total, 1);

    for i in 1..=99 {
        assert_eq!(cntr.update_input(0, PortValue::Integer(1)), vec![]);
        assert_eq!(cntr.current, i);
        assert_eq!(cntr.total, 1);
    }
    assert_eq!(cntr.update_input(0, PortValue::Integer(1)), vec![0u8]);
    assert_eq!(cntr.current, 0);
    assert_eq!(cntr.total, 2);
}

#[test]
fn test_counter_overflow_signals_total() {
    let mut cntr = counter::new(3);
    assert_eq!(cntr.update_input(0, PortValue::Integer(9)), vec![]);
    assert_eq!(cntr.update_input(0, PortValue::Integer(9)), vec![]);
    assert_eq!(cntr.update_input(0, PortValue::Integer(9)), vec![0u8]);
    assert_eq!(cntr.channels.outputs[0].value, PortValue::Integer(1));
    assert!(cntr.channels.outputs[0].is_set);
}

#[test]
fn test_default_port_value_is_integer_zero() {
    assert_eq!(PortValue::default(), PortValue::Integer(0));
    let input = InputPort::default();
    assert_eq!(input.value, PortValue::Integer(0));
    assert!(!input.is_set);
    let output = OutputPort::default();
    assert_eq!(output.value, PortValue::Integer(0));
    assert!(!output.is_set);
}

#[test]
fn test_fires_only_when_all_inputs_set() {
    let mut io = ProcessIO::new(2, 1);
    assert!(!io.note_input(0, PortValue::Integer(4)));
    assert!(io.inputs[0].is_set);
    assert!(!io.inputs[1].is_set);
    // a second value on the same input overwrites the first; the block is
    // still waiting for the other input
    assert!(!io.note_input(0, PortValue::Integer(5)));
    assert_eq!(io.inputs[0].value, PortValue::Integer(5));
    // the laggard arrives: the block fires
    assert!(io.note_input(1, PortValue::Integer(6)));
    assert_eq!(io.inputs[0].value, PortValue::Integer(5));
    assert_eq!(io.inputs[1].value, PortValue::Integer(6));
}

#[test]
fn test_input_order_does_not_matter() {
    let mut first = ProcessIO::new(2, 0);
    assert!(!first.note_input(0, PortValue::Integer(1)));
    assert!(first.note_input(1, PortValue::Integer(2)));

    let mut second = ProcessIO::new(2, 0);
    assert!(!second.note_input(1, PortValue::Integer(2)));
    assert!(second.note_input(0, PortValue::Integer(1)));

    assert_eq!(first.inputs[0].value, second.inputs[0].value);
    assert_eq!(first.inputs[1].value, second.inputs[1].value);
}

#[test]
fn test_firing_clears_all_flags_before_evaluation() {
    let mut io = ProcessIO::new(2, 2);
    // a leftover signal from an earlier firing
    io.outputs[1] = OutputPort { value: PortValue::Integer(3), is_set: true };
    assert!(!io.note_input(0, PortValue::Integer(1)));
    assert!(io.note_input(1, PortValue::Integer(2)));
    for input in io.inputs.iter() {
        assert!(!input.is_set);
    }
    for output in io.outputs.iter() {
        assert!(!output.is_set);
    }
    // the values themselves survive the clearing
    assert_eq!(io.inputs[0].value, PortValue::Integer(1));
    assert_eq!(io.outputs[1].value, PortValue::Integer(3));
}

#[test]
fn test_toggle_flips_regardless_of_input() {
    let mut tgl = toggle::default();
    assert_eq!(tgl.update_input(0, PortValue::Float(2.5f64.to_bits())), vec![0u8]);
    assert_eq!(tgl.channels.outputs[0].value, PortValue::Integer(1));
    assert_eq!(tgl.update_input(0, PortValue::Integer(77)), vec![0u8]);
    assert_eq!(tgl.channels.outputs[0].value, PortValue::Integer(0));
}

#[test]
fn test_do_ignores_float_input() {
    let mut do1 = DO::new(mock_dio { value: 1 });
    assert_eq!(do1.update_input(0, PortValue::Float(0.0f64.to_bits())), vec![]);
    assert_eq!(do1.pin.value, 1);
}

#[test]
fn test_counter_total_wraps_at_integer_limit() {
    let mut cntr = counter::new(1);
    cntr.total = i32::MAX;
    assert_eq!(cntr.update_input(0, PortValue::Integer(1)), vec![0u8]);
    assert_eq!(cntr.total, i32::MIN);
    assert_eq!(cntr.channels.outputs[0].value, PortValue::Integer(i32::MIN));
}
