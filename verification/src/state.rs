//! Execution state: a memory paired with concrete register values. This is
//! the future evaluation context for the IR; lifting itself never consults
//! it.

use std::collections::HashMap;

use vstd::prelude::*;

use crate::mem::Mem;

verus! {

/// Concrete run-time state: the symbolic memory together with a mapping from
/// register name to a concrete 64-bit value.
#[derive(Debug)]
pub struct State {
    /// The memory model.
    pub mem: Mem,
    /// Concrete register values by name.
    pub regs: HashMap<String, i64>,
}

impl State {
    /// Pair a memory with an empty register file.
    pub fn new(mem: Mem) -> (r: State)
        ensures
            r.mem == mem,
            r.regs@.len() == 0,
    {
        State { mem, regs: HashMap::new() }
    }
}

} // verus!
