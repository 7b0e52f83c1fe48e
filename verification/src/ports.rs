//! Port values, input and output ports, and the all-inputs-ready firing rule.
//!
//! A block fires only once every one of its inputs has received a value since
//! the block last fired; firing first clears every input and output flag, and
//! only then is the block's evaluation step run.
use vstd::prelude::*;

verus! {

/// A value carried along a connection: either an integer or a floating-point
/// number represented by its IEEE 754 bit pattern. The engine only stores and
/// forwards values, so the bit pattern is never interpreted here.
#[derive(Clone, Copy, Debug, PartialEq, Eq, Structural)]
pub enum PortValue {
    Integer(i32),
    Float(u64),
}

impl Default for PortValue {
    fn default() -> (r: Self)
        ensures
            r == PortValue::Integer(0),
    {
        PortValue::Integer(0)
    }
}

/// An input slot. `is_set` records that a new value arrived since the owning
/// block last fired.
#[derive(Clone, Copy, Debug, PartialEq, Eq, Structural)]
pub struct InputPort {
    pub value: PortValue,
    pub is_set: bool,
}

impl Default for InputPort {
    fn default() -> (r: Self)
        ensures
            r == (InputPort { value: PortValue::Integer(0), is_set: false }),
    {
        InputPort { value: PortValue::Integer(0), is_set: false }
    }
}

impl InputPort {
    pub fn set_value(&mut self, value: PortValue)
        ensures
            *final(self) == (InputPort { value, is_set: true }),
    {
        self.value = value;
        self.is_set = true;
    }
}

/// An output slot. `is_set` records that the value changed during the current
/// firing, which is the signal that downstream propagation must happen.
#[derive(Clone, Copy, Debug, PartialEq, Eq, Structural)]
pub struct OutputPort {
    pub value: PortValue,
    pub is_set: bool,
}

impl Default for OutputPort {
    fn default() -> (r: Self)
        ensures
            r == (OutputPort { value: PortValue::Integer(0), is_set: false }),
    {
        OutputPort { value: PortValue::Integer(0), is_set: false }
    }
}

impl OutputPort {
    pub fn set_value(&mut self, value: &PortValue)
        ensures
            *final(self) == (OutputPort { value: *value, is_set: true }),
    {
        self.value = *value;
        self.is_set = true;
    }
}

/// All inputs have received a value since the last firing.
pub open spec fn all_inputs_set(inputs: Seq<InputPort>) -> bool {
    forall|i: int| 0 <= i < inputs.len() ==> (#[trigger] inputs[i]).is_set
}

/// The input bank after a value arrives on one input: that slot holds the new
/// value and is flagged, every other slot is untouched.
pub open spec fn with_input(inputs: Seq<InputPort>, index: int, value: PortValue) -> Seq<
    InputPort,
> {
    inputs.update(index, InputPort { value, is_set: true })
}

/// The input bank with every flag cleared and every value kept.
pub open spec fn cleared_inputs(inputs: Seq<InputPort>) -> Seq<InputPort> {
    Seq::new(inputs.len(), |i: int| InputPort { value: inputs[i].value, is_set: false })
}

/// The output bank with every flag cleared and every value kept.
pub open spec fn cleared_outputs(outputs: Seq<OutputPort>) -> Seq<OutputPort> {
    Seq::new(outputs.len(), |i: int| OutputPort { value: outputs[i].value, is_set: false })
}

/// The indices (from `j` on) of the outputs flagged as freshly set, in
/// ascending order.
pub open spec fn set_indices_from(outputs: Seq<OutputPort>, j: int) -> Seq<u8>
    decreases outputs.len() - j,
{
    if j < 0 || j >= outputs.len() {
        Seq::empty()
    } else if outputs[j].is_set {
        seq![j as u8] + set_indices_from(outputs, j + 1)
    } else {
        set_indices_from(outputs, j + 1)
    }
}

/// The indices of the outputs flagged as freshly set, in ascending order.
pub open spec fn set_indices(outputs: Seq<OutputPort>) -> Seq<u8> {
    set_indices_from(outputs, 0)
}

/// Every reported index addresses an existing output.
pub proof fn lemma_set_indices_bounds(outputs: Seq<OutputPort>, j: int)
    requires
        outputs.len() < 256,
    ensures
        forall|k: int|
            0 <= k < set_indices_from(outputs, j).len() ==> {
                let e = (#[trigger] set_indices_from(outputs, j)[k]) as int;
                j <= e && e < outputs.len()
            },
    decreases outputs.len() - j,
{
    if 0 <= j < outputs.len() {
        lemma_set_indices_bounds(outputs, j + 1);
        let s = set_indices_from(outputs, j);
        let rest = set_indices_from(outputs, j + 1);
        assert forall|k: int|
            0 <= k < s.len() implies {
            let e = (#[trigger] s[k]) as int;
            j <= e && e < outputs.len()
        } by {
            if outputs[j].is_set {
                if k == 0 {
                    assert(s[0] == (j as u8));
                } else {
                    assert(s[k] == rest[k - 1]);
                }
            } else {
                assert(s[k] == rest[k]);
            }
        }
    }
}

/// The mathematical value of a port bank.
#[verifier::ext_equal]
pub struct IoV {
    pub inputs: Seq<InputPort>,
    pub outputs: Seq<OutputPort>,
}

/// A port bank just after its block's firing rule has been met: the arriving
/// value is recorded, then every input and output flag is cleared.
pub open spec fn fired_io(io: IoV, index: int, value: PortValue) -> IoV {
    IoV {
        inputs: cleared_inputs(with_input(io.inputs, index, value)),
        outputs: cleared_outputs(io.outputs),
    }
}

/// A block's port bank: a fixed-arity ordered list of input ports and one of
/// output ports.
pub struct ProcessIO {
    pub inputs: Vec<InputPort>,
    pub outputs: Vec<OutputPort>,
}

impl View for ProcessIO {
    type V = IoV;

    open spec fn view(&self) -> IoV {
        IoV { inputs: self.inputs@, outputs: self.outputs@ }
    }
}

impl ProcessIO {
    pub fn new(n_inputs: usize, n_outputs: usize) -> (r: Self)
        ensures
            r.inputs@ == Seq::new(
                n_inputs as nat,
                |i: int| InputPort { value: PortValue::Integer(0), is_set: false },
            ),
            r.outputs@ == Seq::new(
                n_outputs as nat,
                |i: int| OutputPort { value: PortValue::Integer(0), is_set: false },
            ),
    {
        let r = ProcessIO {
            inputs: vec![InputPort { value: PortValue::Integer(0), is_set: false }; n_inputs],
            outputs: vec![OutputPort { value: PortValue::Integer(0), is_set: false }; n_outputs],
        };
        proof {
            assert(r.inputs@ =~= Seq::new(
                n_inputs as nat,
                |i: int| InputPort { value: PortValue::Integer(0), is_set: false },
            ));
            assert(r.outputs@ =~= Seq::new(
                n_outputs as nat,
                |i: int| OutputPort { value: PortValue::Integer(0), is_set: false },
            ));
        }
        r
    }

    /// The all-inputs-ready firing rule. Records the arriving value, and
    /// reports whether the block must now fire; if it fires, every input and
    /// output flag is cleared here, before any evaluation step runs.
    pub fn note_input(&mut self, index: u8, value: PortValue) -> (fired: bool)
        requires
            (index as int) < old(self).inputs@.len(),
        ensures
            fired == all_inputs_set(with_input(old(self).inputs@, index as int, value)),
            fired ==> final(self).inputs@ == cleared_inputs(
                with_input(old(self).inputs@, index as int, value),
            ) && final(self).outputs@ == cleared_outputs(old(self).outputs@),
            !fired ==> final(self).inputs@ == with_input(old(self).inputs@, index as int, value)
                && final(self).outputs@ == old(self).outputs@,
    {
        self.inputs[index as usize].set_value(value);
        let ghost noted = self.inputs@;
        let mut all: bool = true;
        let mut i: usize = 0;
        while i < self.inputs.len()
            invariant
                i <= self.inputs@.len(),
                self.inputs@ == noted,
                self.outputs@ == old(self).outputs@,
                all == (forall|k: int| 0 <= k < i ==> (#[trigger] noted[k]).is_set),
            decreases self.inputs@.len() - i,
        {
            if !self.inputs[i].is_set {
                all = false;
            }
            i = i + 1;
        }
        if all {
            let mut j: usize = 0;
            while j < self.inputs.len()
                invariant
                    j <= self.inputs@.len(),
                    self.inputs@.len() == noted.len(),
                    self.outputs@ == old(self).outputs@,
                    forall|k: int| 0 <= k < j ==> self.inputs@[k] == (InputPort {
                        value: noted[k].value,
                        is_set: false,
                    }),
                    forall|k: int| j <= k < noted.len() ==> self.inputs@[k] == noted[k],
                decreases self.inputs@.len() - j,
            {
                let kept = self.inputs[j].value;
                self.inputs[j] = InputPort { value: kept, is_set: false };
                j = j + 1;
            }
            let mut m: usize = 0;
            let ghost outs0 = self.outputs@;
            while m < self.outputs.len()
                invariant
                    m <= self.outputs@.len(),
                    self.outputs@.len() == outs0.len(),
                    self.inputs@ == cleared_inputs(noted),
                    forall|k: int| 0 <= k < m ==> self.outputs@[k] == (OutputPort {
                        value: outs0[k].value,
                        is_set: false,
                    }),
                    forall|k: int| m <= k < outs0.len() ==> self.outputs@[k] == outs0[k],
                decreases self.outputs@.len() - m,
            {
                let kept = self.outputs[m].value;
                self.outputs[m] = OutputPort { value: kept, is_set: false };
                m = m + 1;
            }
            proof {
                assert(self.inputs@ =~= cleared_inputs(noted));
                assert(self.outputs@ =~= cleared_outputs(old(self).outputs@));
            }
        }
        all
    }

    /// The ascending list of output indices whose flags are set.
    pub fn collect_set_outputs(&self) -> (r: Vec<u8>)
        requires
            self.outputs@.len() < 256,
        ensures
            r@ == set_indices(self.outputs@),
    {
        set_output_indices(&self.outputs)
    }
}

/// The ascending list of indices of the outputs whose flags are set.
pub fn set_output_indices(outputs: &Vec<OutputPort>) -> (r: Vec<u8>)
    requires
        outputs@.len() < 256,
    ensures
        r@ == set_indices(outputs@),
{
    let mut r: Vec<u8> = Vec::new();
    let mut i: usize = 0;
    while i < outputs.len()
        invariant
            i <= outputs@.len(),
            outputs@.len() < 256,
            set_indices(outputs@) == r@ + set_indices_from(outputs@, i as int),
        decreases outputs@.len() - i,
    {
        if outputs[i].is_set {
            r.push(i as u8);
            proof {
                assert(set_indices(outputs@) =~= r@ + set_indices_from(outputs@, i + 1));
            }
        }
        i = i + 1;
    }
    r
}

/// Law: recording one more input value makes the block fire exactly when
/// every other input was already set; the recorded slot itself always counts
/// as set.
pub proof fn lemma_fires_iff_others_set(inputs: Seq<InputPort>, index: int, value: PortValue)
    requires
        0 <= index < inputs.len(),
    ensures
        all_inputs_set(with_input(inputs, index, value)) <==> (forall|j: int|
            0 <= j < inputs.len() && j != index ==> (#[trigger] inputs[j]).is_set),
{
    assert forall|j: int|
        0 <= j < inputs.len() && j != index implies with_input(inputs, index, value)[j]
        == inputs[j] by {}
}

/// Law: writing the same input twice before the block fires keeps only the
/// latest value; the earlier one is overwritten, not queued.
pub proof fn lemma_latest_value_kept(
    inputs: Seq<InputPort>,
    index: int,
    first: PortValue,
    second: PortValue,
)
    requires
        0 <= index < inputs.len(),
    ensures
        with_input(with_input(inputs, index, first), index, second) == with_input(
            inputs,
            index,
            second,
        ),
{
    assert(with_input(with_input(inputs, index, first), index, second) =~= with_input(
        inputs,
        index,
        second,
    ));
}

/// Law: values arriving on two different inputs may come in either order;
/// the resulting input bank is the same.
pub proof fn lemma_input_order_irrelevant(
    inputs: Seq<InputPort>,
    i: int,
    j: int,
    vi: PortValue,
    vj: PortValue,
)
    requires
        0 <= i < inputs.len(),
        0 <= j < inputs.len(),
        i != j,
    ensures
        with_input(with_input(inputs, i, vi), j, vj) == with_input(with_input(inputs, j, vj), i, vi),
{
    assert(with_input(with_input(inputs, i, vi), j, vj) =~= with_input(
        with_input(inputs, j, vj),
        i,
        vi,
    ));
}

/// Law: when a block fires, every input and output flag is cleared before the
/// evaluation step runs, and no port value is altered by the clearing.
pub proof fn lemma_firing_clears_flags(inputs: Seq<InputPort>, outputs: Seq<OutputPort>)
    ensures
        forall|i: int| 0 <= i < inputs.len() ==> !(#[trigger] cleared_inputs(inputs)[i]).is_set,
        forall|i: int| 0 <= i < outputs.len() ==> !(#[trigger] cleared_outputs(outputs)[i]).is_set,
        forall|i: int| 0 <= i < inputs.len() ==> (#[trigger] cleared_inputs(inputs)[i]).value
            == inputs[i].value,
        forall|i: int| 0 <= i < outputs.len() ==> (#[trigger] cleared_outputs(outputs)[i]).value
            == outputs[i].value,
{
}

} // verus!
