//! The table of standard functions that the script interpreter offers.
use vstd::prelude::*;

verus! {

/// A standard function of the script interpreter.
#[derive(Debug, Clone, Copy, PartialEq, Eq, Structural)]
pub struct Func {}

/// The standard library of the script interpreter.
#[derive(Debug, Clone, Copy, PartialEq, Eq, Structural)]
pub struct Std;

impl Std {
    /// The functions of the standard library by name: only `print`.
    pub fn get(&self) -> (m: Vec<(&'static str, Func)>)
        ensures
            m@.len() == 1,
            m@[0].0@ == "print"@,
            m@[0].1 == (Func {}),
    {
        let mut m: Vec<(&'static str, Func)> = Vec::new();
        m.push(("print", Func {}));
        m
    }
}

} // verus!
