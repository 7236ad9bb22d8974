//! The values on a node's ports between samples: what each input received,
//! what the node last output, and the value each input takes when nothing
//! is connected to it.
use vstd::prelude::*;
use super::port::PortType;

verus! {

/// The port values of one node, of type `T`.
pub struct PortCache<T> {
    inputs: Vec<T>,
    outputs: Vec<T>,
    defaults: Vec<T>,
}

/// A node's run-time state: its port values and its processor `P`, which
/// reads the inputs and writes the outputs.
pub struct NodeState<T, P> {
    pub cache: PortCache<T>,
    pub processor: P,
}

impl<T: Copy> PortCache<T> {
    pub closed spec fn inputs(&self) -> Seq<T> {
        self.inputs@
    }

    pub closed spec fn outputs(&self) -> Seq<T> {
        self.outputs@
    }

    pub closed spec fn defaults(&self) -> Seq<T> {
        self.defaults@
    }

    /// Every input has a default.
    pub open spec fn wf(&self) -> bool {
        self.inputs().len() == self.defaults().len()
    }

    /// A cache whose inputs hold their defaults.
    pub fn new(defaults: Vec<T>, outputs: Vec<T>) -> (r: Self)
        ensures
            r.wf(),
            r.inputs() == defaults@,
            r.defaults() == defaults@,
            r.outputs() == outputs@,
    {
        let mut inputs: Vec<T> = Vec::new();
        let mut i: usize = 0;
        while i < defaults.len()
            invariant
                i <= defaults@.len(),
                inputs@ == defaults@.take(i as int),
            decreases defaults@.len() - i,
        {
            inputs.push(defaults[i]);
            i = i + 1;
            assert(inputs@ =~= defaults@.take(i as int));
        }
        assert(defaults@.take(defaults@.len() as int) =~= defaults@);
        PortCache { inputs, outputs, defaults }
    }

    /// The default input values.
    pub fn default_inputs(&self) -> (r: &[T])
        ensures
            r@ == self.defaults(),
    {
        self.defaults.as_slice()
    }

    /// The input values.
    pub fn input_values(&self) -> (r: &[T])
        ensures
            r@ == self.inputs(),
    {
        self.inputs.as_slice()
    }

    /// The number of inputs.
    pub fn input_count(&self) -> (r: usize)
        requires
            self.wf(),
        ensures
            r == self.inputs().len(),
    {
        self.inputs.len()
    }

    /// Puts every input back to its default.
    pub fn reset_inputs(&mut self)
        requires
            old(self).wf(),
        ensures
            final(self).wf(),
            final(self).inputs() == old(self).defaults(),
            final(self).defaults() == old(self).defaults(),
            final(self).outputs() == old(self).outputs(),
    {
        let mut i: usize = 0;
        while i < self.inputs.len()
            invariant
                self.inputs@.len() == self.defaults@.len(),
                self.defaults@ == old(self).defaults(),
                self.outputs@ == old(self).outputs(),
                i <= self.inputs@.len(),
                forall|j: int| 0 <= j < i ==> self.inputs@[j] == self.defaults@[j],
            decreases self.inputs@.len() - i,
        {
            let v = self.defaults[i];
            self.inputs.set(i, v);
            i = i + 1;
        }
        assert(self.inputs@ =~= self.defaults@);
    }

    /// Sets input `index` to `value`; an index past the inputs changes
    /// nothing.
    pub fn set_input(&mut self, index: usize, value: T)
        ensures
            final(self).inputs() == (if index < old(self).inputs().len() {
                old(self).inputs().update(index as int, value)
            } else {
                old(self).inputs()
            }),
            final(self).defaults() == old(self).defaults(),
            final(self).outputs() == old(self).outputs(),
    {
        if index < self.inputs.len() {
            self.inputs.set(index, value);
        }
    }

    /// Sets the default of input `port` to `value`; a port past the inputs
    /// changes nothing.
    pub fn set_default_input(&mut self, port: usize, value: T)
        ensures
            final(self).defaults() == (if port < old(self).defaults().len() {
                old(self).defaults().update(port as int, value)
            } else {
                old(self).defaults()
            }),
            final(self).inputs() == old(self).inputs(),
            final(self).outputs() == old(self).outputs(),
    {
        if port < self.defaults.len() {
            self.defaults.set(port, value);
        }
    }

    /// The number of outputs.
    pub fn output_count(&self) -> (r: usize)
        ensures
            r == self.outputs().len(),
    {
        self.outputs.len()
    }

    /// The value of input `port`.
    pub fn input_value(&self, port: usize) -> (r: T)
        requires
            port < self.inputs().len(),
        ensures
            r == self.inputs()[port as int],
    {
        self.inputs[port]
    }

    /// The value of output `port`.
    pub fn output_value(&self, port: usize) -> (r: T)
        requires
            port < self.outputs().len(),
        ensures
            r == self.outputs()[port as int],
    {
        self.outputs[port]
    }

    /// The value on a port of either direction, if the port exists.
    pub fn port_value(&self, port_type: PortType, port: usize) -> (r: Option<T>)
        ensures
            r == (match port_type {
                PortType::Input => if port < self.inputs().len() {
                    Some(self.inputs()[port as int])
                } else {
                    None
                },
                PortType::Output => if port < self.outputs().len() {
                    Some(self.outputs()[port as int])
                } else {
                    None
                },
            }),
    {
        match port_type {
            PortType::Input => {
                if port < self.inputs.len() {
                    Some(self.inputs[port])
                } else {
                    None
                }
            },
            PortType::Output => {
                if port < self.outputs.len() {
                    Some(self.outputs[port])
                } else {
                    None
                }
            },
        }
    }

    /// The inputs to read and the outputs to write, for the node's
    /// processor.
    pub fn inputs_and_outputs(&mut self) -> (r: (&[T], &mut Vec<T>))
        ensures
            r.0@ == old(self).inputs(),
            r.1@ == old(self).outputs(),
            final(self).outputs() == final(r.1)@,
            final(self).inputs() == old(self).inputs(),
            final(self).defaults() == old(self).defaults(),
    {
        (self.inputs.as_slice(), &mut self.outputs)
    }
}

} // verus!
