//! The minimal hardware capability a digital-output block depends on, and an
//! in-memory pin used by the tests.
use vstd::prelude::*;

verus! {

#[derive(Clone, Copy, Debug)]
pub enum HardwareError {
    Fault,
}

/// A digital output pin. `driven` is each implementation's own model of the
/// state its pin reaches when driven high or low; `set_low` and `set_high`
/// promise to reach that state. Failures are unmodeled: the returned result
/// is not interpreted by the engine.
pub trait OutputPin: Sized {
    type Error;

    spec fn driven(self, high: bool) -> Self;

    fn set_low(&mut self) -> (r: Result<(), Self::Error>)
        ensures
            *final(self) == old(self).driven(false),
    ;

    fn set_high(&mut self) -> (r: Result<(), Self::Error>)
        ensures
            *final(self) == old(self).driven(true),
    ;
}

/// An in-memory pin that records the last level it was driven to.
#[derive(Clone, Copy, Debug, PartialEq, Eq, Structural)]
pub struct mock_dio {
    pub value: i32,
}

impl Default for mock_dio {
    fn default() -> (r: Self)
        ensures
            r == (mock_dio { value: 0 }),
    {
        mock_dio { value: 0 }
    }
}

impl OutputPin for mock_dio {
    type Error = HardwareError;

    open spec fn driven(self, high: bool) -> Self {
        mock_dio { value: if high { 1 } else { 0 } }
    }

    fn set_low(&mut self) -> (r: Result<(), HardwareError>) {
        self.value = 0;
        Ok(())
    }

    fn set_high(&mut self) -> (r: Result<(), HardwareError>) {
        self.value = 1;
        Ok(())
    }
}

} // verus!
