//! The on-disk schema of the pivot stack (`stack.yaml`) for nested plan
//! execution: an ordered list of frames whose last is the plan that runs.

use vstd::prelude::*;

verus! {

/// The cap on nesting depth.
pub const MAX_STACK_DEPTH: usize = 5;

/// One frame: the plan's path, and when and why it was pushed.
#[derive(Debug)]
pub struct Frame {
    pub path: String,
    pub pushed_at: Option<String>,
    pub reason: Option<String>,
}

/// The stack; its last frame is the plan currently executing.
#[derive(Debug)]
pub struct Stack {
    pub frames: Vec<Frame>,
}

impl Default for Stack {
    fn default() -> (r: Self)
        ensures
            r.frames@.len() == 0,
    {
        Stack { frames: Vec::new() }
    }
}

} // verus!
