//! Moving locations between the analysis with call stacks and the one without.

use vstd::prelude::*;
use crate::datalog::{
    ContextAddStackIn,
    ContextAddStackOut,
    ContextFlowOnlyContextIn,
    ContextFlowOnlyContextOut,
    ContextStackFallthroughIn,
    ContextStackFallthroughOut,
    ContextStripStackIn,
    ContextStripStackOut,
};
use crate::load::{Loc, Stack};

verus! {

/// The location without its stack, where it carries one; nothing otherwise.
pub fn strip_stack(i: &ContextStripStackIn) -> (r: Vec<ContextStripStackOut>)
    ensures
        if i.stacked.stack is NoStack {
            r@.len() == 0
        } else {
            r@.len() == 1 && r@[0].free == (Loc {
                file_name: i.stacked.file_name,
                addr: i.stacked.addr,
                stack: Stack::NoStack,
            })
        },
{
    let mut out: Vec<ContextStripStackOut> = Vec::new();
    if i.stacked.is_stacked() {
        out.push(ContextStripStackOut { free: i.stacked.with_stack(Stack::NoStack) });
    }
    out
}

/// The location with an empty stack.
pub fn add_stack(i: &ContextAddStackIn) -> (r: Vec<ContextAddStackOut>)
    ensures
        r@.len() == 1,
        r@[0].stacked == (Loc {
            file_name: i.free.file_name,
            addr: i.free.addr,
            stack: Stack::EmptyStack,
        }),
{
    let mut out: Vec<ContextAddStackOut> = Vec::new();
    out.push(ContextAddStackOut { stacked: i.free.with_stack(Stack::EmptyStack) });
    out
}

/// One tuple where the use carries a stack, none otherwise.
pub fn flow_only_context(i: &ContextFlowOnlyContextIn) -> (r: Vec<ContextFlowOnlyContextOut>)
    ensures
        r@.len() == if i.use_.stack is NoStack { 0nat } else { 1nat },
{
    let mut out: Vec<ContextFlowOnlyContextOut> = Vec::new();
    if i.use_.is_stacked() {
        out.push(ContextFlowOnlyContextOut {  });
    }
    out
}

/// The fall-through location with the stack of `stacked`.
pub fn stack_fallthrough(i: &ContextStackFallthroughIn) -> (r: Vec<ContextStackFallthroughOut>)
    ensures
        r@.len() == 1,
        r@[0].fallthrough_stacked == (Loc {
            file_name: i.fallthrough.file_name,
            addr: i.fallthrough.addr,
            stack: i.stacked.stack,
        }),
{
    let mut out: Vec<ContextStackFallthroughOut> = Vec::new();
    out.push(
        ContextStackFallthroughOut {
            fallthrough_stacked: i.fallthrough.with_stack(i.stacked.stack.dup()),
        },
    );
    out
}

} // verus!
