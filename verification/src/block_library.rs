//! The concrete block kinds: a periodic tick source, a counter, a toggle and
//! a digital output. Each block owns a port bank and fires through the
//! all-inputs-ready firing rule; its evaluation step is pinned down by a spec-level
//! transition function on the block's view.
use vstd::prelude::*;

use crate::hal_mock::OutputPin;
use crate::ports::{
    all_inputs_set, fired_io, set_indices, with_input, IoV, InputPort, OutputPort, PortValue,
    ProcessIO,
};

verus! {

// ---------------------------------------------------------------------------
// tick source
/// The timer-tick source: no inputs, one output whose flag is raised on each
/// evaluation, leaving the carried value unchanged.
pub struct arduino_uno {
    pub channels: ProcessIO,
}

/// The value of a tick source.
#[verifier::ext_equal]
pub struct UnoV {
    pub io: IoV,
}

impl View for arduino_uno {
    type V = UnoV;

    open spec fn view(&self) -> UnoV {
        UnoV { io: self.channels@ }
    }
}

pub open spec fn uno_wf(u: UnoV) -> bool {
    &&& u.io.inputs.len() == 0
    &&& u.io.outputs.len() == 1
}

/// The tick source's evaluation step: signal output 0, keep its value.
pub open spec fn uno_eval(u: UnoV) -> UnoV {
    UnoV {
        io: IoV {
            inputs: u.io.inputs,
            outputs: u.io.outputs.update(
                0,
                OutputPort { value: u.io.outputs[0].value, is_set: true },
            ),
        },
    }
}

impl Default for arduino_uno {
    fn default() -> (r: Self)
        ensures
            uno_wf(r@),
            r@.io.outputs[0] == (OutputPort { value: PortValue::Integer(0), is_set: false }),
    {
        arduino_uno { channels: ProcessIO::new(0, 1) }
    }
}

impl arduino_uno {
    pub fn evaluate(&mut self)
        requires
            uno_wf(old(self)@),
        ensures
            final(self)@ == uno_eval(old(self)@),
    {
        let kept = self.channels.outputs[0].value;
        self.channels.outputs[0] = OutputPort { value: kept, is_set: true };
        proof {
            assert(self@.io =~= uno_eval(old(self)@).io);
        }
    }
}

// ---------------------------------------------------------------------------
// counter
/// Counts firings; every `maxcount`-th firing resets the count, bumps the
/// running total and emits it on the overflow output.
pub struct counter {
    pub channels: ProcessIO,
    pub maxcount: u32,
    pub current: u32,
    pub total: i32,
}

/// The value of a counter block.
#[verifier::ext_equal]
pub struct CounterV {
    pub io: IoV,
    pub maxcount: u32,
    pub current: u32,
    pub total: i32,
}

impl View for counter {
    type V = CounterV;

    open spec fn view(&self) -> CounterV {
        CounterV {
            io: self.channels@,
            maxcount: self.maxcount,
            current: self.current,
            total: self.total,
        }
    }
}

pub open spec fn counter_wf(c: CounterV) -> bool {
    &&& c.io.inputs.len() == 1
    &&& c.io.outputs.len() == 1
    &&& (c.current == 0 || c.current < c.maxcount)
}

/// The running total after one more overflow; it wraps at the integer limit.
pub open spec fn next_total(total: i32) -> i32 {
    if total == i32::MAX {
        i32::MIN
    } else {
        (total + 1) as i32
    }
}

/// The counter's evaluation step: count the firing; on reaching the
/// threshold, reset, bump the total and emit it on the overflow output.
/// The comparison is at-least, so a counter with threshold `maxcount`
/// overflows on its `maxcount`-th firing, and a threshold of zero or one
/// overflows on every firing.
pub open spec fn counter_eval(c: CounterV) -> CounterV {
    if c.current + 1 >= c.maxcount {
        CounterV {
            io: IoV {
                inputs: c.io.inputs,
                outputs: c.io.outputs.update(
                    0,
                    OutputPort { value: PortValue::Integer(next_total(c.total)), is_set: true },
                ),
            },
            maxcount: c.maxcount,
            current: 0,
            total: next_total(c.total),
        }
    } else {
        CounterV {
            io: c.io,
            maxcount: c.maxcount,
            current: (c.current + 1) as u32,
            total: c.total,
        }
    }
}

impl counter {
    pub fn new(maxcount: u32) -> (r: Self)
        ensures
            counter_wf(r@),
            r@.maxcount == maxcount,
            r@.current == 0,
            r@.total == 0,
            r@.io.outputs[0] == (OutputPort { value: PortValue::Integer(0), is_set: false }),
            r@.io.inputs[0] == (InputPort { value: PortValue::Integer(0), is_set: false }),
    {
        counter { channels: ProcessIO::new(1, 1), maxcount, current: 0, total: 0 }
    }

    pub fn evaluate(&mut self)
        requires
            counter_wf(old(self)@),
        ensures
            final(self)@ == counter_eval(old(self)@),
            counter_wf(final(self)@),
    {
        self.current = self.current + 1;
        if self.current >= self.maxcount {
            self.current = 0;
            self.total = if self.total == i32::MAX {
                i32::MIN
            } else {
                self.total + 1
            };
            self.channels.outputs[0] = OutputPort {
                value: PortValue::Integer(self.total),
                is_set: true,
            };
        }
        proof {
            assert(self@.io =~= counter_eval(old(self)@).io);
        }
    }
}

/// A counter block after one value arrives: the firing rule lets the counter
/// evaluate only once every input has been set since the last firing.
pub open spec fn counter_update(c: CounterV, index: int, value: PortValue) -> (CounterV, Seq<
    u8,
>) {
    if all_inputs_set(with_input(c.io.inputs, index, value)) {
        let evaled = counter_eval(
            CounterV {
                io: fired_io(c.io, index, value),
                maxcount: c.maxcount,
                current: c.current,
                total: c.total,
            },
        );
        (evaled, set_indices(evaled.io.outputs))
    } else {
        (
            CounterV {
                io: IoV { inputs: with_input(c.io.inputs, index, value), outputs: c.io.outputs },
                maxcount: c.maxcount,
                current: c.current,
                total: c.total,
            },
            Seq::empty(),
        )
    }
}

impl counter {
    /// Deliver a value to input `index`, firing the block when every input
    /// has been set since its last firing; returns the indices of the
    /// outputs freshly signaled by this call.
    pub fn update_input(&mut self, index: u8, value: PortValue) -> (r: Vec<u8>)
        requires
            counter_wf(old(self)@),
            (index as int) < old(self)@.io.inputs.len(),
        ensures
            counter_wf(final(self)@),
            final(self)@ == counter_update(old(self)@, index as int, value).0,
            r@ == counter_update(old(self)@, index as int, value).1,
    {
        let fired = self.channels.note_input(index, value);
        if fired {
            proof {
                assert(self@.io =~= fired_io(old(self)@.io, index as int, value));
                assert(self@ =~= (CounterV {
                    io: fired_io(old(self)@.io, index as int, value),
                    maxcount: old(self)@.maxcount,
                    current: old(self)@.current,
                    total: old(self)@.total,
                }));
            }
            self.evaluate();
            self.channels.collect_set_outputs()
        } else {
            proof {
                assert(self@ =~= counter_update(old(self)@, index as int, value).0);
            }
            Vec::new()
        }
    }
}

// ---------------------------------------------------------------------------
// toggle
/// Flips its single output between the integers 0 and 1 on every firing,
/// whatever value arrived on its input.
pub struct toggle {
    pub channels: ProcessIO,
}

/// The value of a toggle block.
#[verifier::ext_equal]
pub struct ToggleV {
    pub io: IoV,
}

impl View for toggle {
    type V = ToggleV;

    open spec fn view(&self) -> ToggleV {
        ToggleV { io: self.channels@ }
    }
}

pub open spec fn toggle_wf(t: ToggleV) -> bool {
    &&& t.io.inputs.len() == 1
    &&& t.io.outputs.len() == 1
}

/// The toggle's evaluation step: an integer output flips between 0 and 1 and
/// is signaled; a non-integer output is left alone.
pub open spec fn toggle_eval(t: ToggleV) -> ToggleV {
    match t.io.outputs[0].value {
        PortValue::Integer(v) => ToggleV {
            io: IoV {
                inputs: t.io.inputs,
                outputs: t.io.outputs.update(
                    0,
                    OutputPort {
                        value: PortValue::Integer(if v == 0 { 1i32 } else { 0i32 }),
                        is_set: true,
                    },
                ),
            },
        },
        PortValue::Float(_) => t,
    }
}

impl Default for toggle {
    fn default() -> (r: Self)
        ensures
            toggle_wf(r@),
            r@.io.outputs[0] == (OutputPort { value: PortValue::Integer(0), is_set: false }),
            r@.io.inputs[0] == (InputPort { value: PortValue::Integer(0), is_set: false }),
    {
        toggle { channels: ProcessIO::new(1, 1) }
    }
}

impl toggle {
    pub fn evaluate(&mut self)
        requires
            toggle_wf(old(self)@),
        ensures
            final(self)@ == toggle_eval(old(self)@),
    {
        let out = self.channels.outputs[0].value;
        match out {
            PortValue::Integer(v) => {
                let flipped: i32 = if v == 0 {
                    1
                } else {
                    0
                };
                self.channels.outputs[0] = OutputPort {
                    value: PortValue::Integer(flipped),
                    is_set: true,
                };
                proof {
                    assert(self@.io =~= toggle_eval(old(self)@).io);
                }
            },
            PortValue::Float(_) => {},
        }
    }
}

/// A toggle block after one value arrives.
pub open spec fn toggle_update(t: ToggleV, index: int, value: PortValue) -> (ToggleV, Seq<
    u8,
>) {
    if all_inputs_set(with_input(t.io.inputs, index, value)) {
        let evaled = toggle_eval(ToggleV { io: fired_io(t.io, index, value) });
        (evaled, set_indices(evaled.io.outputs))
    } else {
        (
            ToggleV {
                io: IoV { inputs: with_input(t.io.inputs, index, value), outputs: t.io.outputs },
            },
            Seq::empty(),
        )
    }
}

impl toggle {
    /// Deliver a value to input `index`; see `counter::update_input`.
    pub fn update_input(&mut self, index: u8, value: PortValue) -> (r: Vec<u8>)
        requires
            toggle_wf(old(self)@),
            (index as int) < old(self)@.io.inputs.len(),
        ensures
            toggle_wf(final(self)@),
            final(self)@ == toggle_update(old(self)@, index as int, value).0,
            r@ == toggle_update(old(self)@, index as int, value).1,
    {
        let fired = self.channels.note_input(index, value);
        if fired {
            proof {
                assert(self@ =~= (ToggleV { io: fired_io(old(self)@.io, index as int, value) }));
            }
            self.evaluate();
            self.channels.collect_set_outputs()
        } else {
            proof {
                assert(self@ =~= toggle_update(old(self)@, index as int, value).0);
            }
            Vec::new()
        }
    }
}

// ---------------------------------------------------------------------------
// digital output
/// Drives a hardware pin from its single input: the pin goes low for the
/// integer 0, high for every other integer, and is untouched by a
/// floating-point value.
pub struct DO<Pin> {
    pub pin: Pin,
    pub channels: ProcessIO,
}

/// The value of a digital-output block.
#[verifier::ext_equal]
pub struct DOV<Pin> {
    pub pin: Pin,
    pub io: IoV,
}

impl<Pin: OutputPin> View for DO<Pin> {
    type V = DOV<Pin>;

    open spec fn view(&self) -> DOV<Pin> {
        DOV { pin: self.pin, io: self.channels@ }
    }
}

pub open spec fn do_wf<Pin>(d: DOV<Pin>) -> bool {
    &&& d.io.inputs.len() == 1
    &&& d.io.outputs.len() == 0
}

/// The digital output's evaluation step.
pub open spec fn do_eval<Pin: OutputPin>(d: DOV<Pin>) -> DOV<Pin> {
    match d.io.inputs[0].value {
        PortValue::Integer(v) => DOV { pin: d.pin.driven(v != 0), io: d.io },
        PortValue::Float(_) => d,
    }
}

impl<Pin: OutputPin> DO<Pin> {
    pub fn new(pin: Pin) -> (r: Self)
        ensures
            do_wf(r@),
            r@.pin == pin,
            r@.io.inputs[0] == (InputPort { value: PortValue::Integer(0), is_set: false }),
    {
        DO { pin, channels: ProcessIO::new(1, 0) }
    }

    pub fn evaluate(&mut self)
        requires
            do_wf(old(self)@),
        ensures
            final(self)@ == do_eval(old(self)@),
    {
        let v = self.channels.inputs[0].value;
        match v {
            PortValue::Integer(x) => {
                if x == 0 {
                    let _ = self.pin.set_low();
                } else {
                    let _ = self.pin.set_high();
                }
            },
            PortValue::Float(_) => {},
        }
    }
}


/// A digital-output block after one value arrives.
pub open spec fn do_update<Pin: OutputPin>(d: DOV<Pin>, index: int, value: PortValue) -> (DOV<
    Pin,
>, Seq<u8>) {
    if all_inputs_set(with_input(d.io.inputs, index, value)) {
        let evaled = do_eval(DOV { pin: d.pin, io: fired_io(d.io, index, value) });
        (evaled, set_indices(evaled.io.outputs))
    } else {
        (
            DOV {
                pin: d.pin,
                io: IoV { inputs: with_input(d.io.inputs, index, value), outputs: d.io.outputs },
            },
            Seq::empty(),
        )
    }
}

impl<Pin: OutputPin> DO<Pin> {
    /// Deliver a value to input `index`; see `counter::update_input`.
    pub fn update_input(&mut self, index: u8, value: PortValue) -> (r: Vec<u8>)
        requires
            do_wf(old(self)@),
            (index as int) < old(self)@.io.inputs.len(),
        ensures
            do_wf(final(self)@),
            final(self)@ == do_update(old(self)@, index as int, value).0,
            r@ == do_update(old(self)@, index as int, value).1,
    {
        let fired = self.channels.note_input(index, value);
        if fired {
            proof {
                assert(self@ =~= (DOV {
                    pin: old(self)@.pin,
                    io: fired_io(old(self)@.io, index as int, value),
                }));
            }
            self.evaluate();
            self.channels.collect_set_outputs()
        } else {
            proof {
                assert(self@ =~= do_update(old(self)@, index as int, value).0);
            }
            Vec::new()
        }
    }
}

} // verus!
