//! The setpoint/measurement pair exchanged with the motor board.
use vstd::prelude::*;

verus! {

/// A pose and whether to stop there.
#[derive(Debug, Clone, Copy, PartialEq, Eq, Structural)]
pub struct A {
    pub stop: bool,
    pub pose: u16,
}

/// A goal and the matching measurement.
#[derive(Debug, Clone, Copy, PartialEq, Eq, Structural)]
pub struct B {
    pub goal: A,
    pub meas: A,
}

#[derive(Debug, Clone, Copy, PartialEq, Eq, Structural)]
pub enum C {
    A(A),
    B(B),
}

impl C {
    /// Flips the `stop` flag: of the pose itself, or of the measurement.
    pub fn toggle_stop(&mut self)
        ensures
            *final(self) == match *old(self) {
                C::A(a) => C::A(A { stop: !a.stop, ..a }),
                C::B(b) => C::B(B { meas: A { stop: !b.meas.stop, ..b.meas }, ..b }),
            },
    {
        match self {
            C::A(a) => a.stop = !a.stop,
            C::B(b) => b.meas.stop = !b.meas.stop,
        }
    }
}

} // verus!
