//! Values passed to and from a native library's entry point.
use vstd::prelude::*;

verus! {

/// A value of the native calling convention: a string or an unsigned
/// 32-bit number.
#[allow(non_camel_case_types)]
#[derive(Debug, PartialEq, Eq)]
pub enum Const {
    String(String),
    u32(u32),
}

} // verus!
