//! Operations: the nodes of the graph.
//!
//! `Operation` owns a detached operation; `OperationRef` is a copyable,
//! non-owning reference to an operation resident in a context.  Appending an
//! operation to a block consumes the owned handle and hands back a reference.

use crate::block::BlockRef;
use crate::context::Context;
use crate::region::RegionRef;
use crate::strings::StringRef;
use crate::value::ResultValue;
use crate::value::Value;
use crate::Error;
use vstd::prelude::*;

verus! {

/// An owned, detached operation.
#[derive(Debug)]
pub struct Operation {
    pub id: usize,
}

/// A non-owning reference to an operation.
#[derive(Clone, Copy, Debug, PartialEq, Eq, Structural)]
pub struct OperationRef {
    pub id: usize,
}

impl OperationRef {
    /// The operation's name, as an interned string reference.
    pub fn name(&self, ctx: &Context) -> (r: StringRef)
        requires
            ctx@.wf(),
            ctx@.is_op(self.id as int),
        ensures
            r.id == ctx@.op_at(self.id as int).name,
            r.id < ctx@.strings.len(),
    {
        proof {
            assert(ctx@.wf_node(self.id as int));
        }
        StringRef { id: ctx.op_node(self.id).name }
    }

    /// The block holding this operation, or nothing when it is detached.
    pub fn block(&self, ctx: &Context) -> (r: Option<BlockRef>)
        requires
            ctx@.wf(),
            ctx@.is_op(self.id as int),
        ensures
            r == match ctx@.op_at(self.id as int).parent {
                Some(b) => Some(BlockRef { id: b }),
                None => None::<BlockRef>,
            },
    {
        match ctx.op_node(self.id).parent {
            Some(b) => Some(BlockRef { id: b }),
            None => None,
        }
    }

    /// The number of results.
    pub fn result_count(&self, ctx: &Context) -> (r: usize)
        requires
            ctx@.wf(),
            ctx@.is_op(self.id as int),
        ensures
            r == ctx@.op_at(self.id as int).result_types.len(),
    {
        ctx.op_node(self.id).result_types.len()
    }

    /// The result at a position; fails with `IndexOutOfRange` exactly when
    /// the position is not below the result count.
    pub fn result(&self, ctx: &Context, position: usize) -> (r: Result<ResultValue, Error>)
        requires
            ctx@.wf(),
            ctx@.is_op(self.id as int),
        ensures
            (position < ctx@.op_at(self.id as int).result_types.len()) <==> r is Ok,
            r matches Ok(v) ==> v.value == (Value::OperationResult {
                operation: self.id,
                position,
            }) && v.wf(),
            r matches Err(e) ==> e == Error::IndexOutOfRange,
    {
        if position < ctx.op_node(self.id).result_types.len() {
            Ok(ResultValue { value: Value::OperationResult { operation: self.id, position } })
        } else {
            Err(Error::IndexOutOfRange)
        }
    }

    /// The number of regions.
    pub fn region_count(&self, ctx: &Context) -> (r: usize)
        requires
            ctx@.wf(),
            ctx@.is_op(self.id as int),
        ensures
            r == ctx@.op_at(self.id as int).regions.len(),
    {
        ctx.op_node(self.id).regions.len()
    }

    /// The region at an index, or nothing when the index is out of range:
    /// regions are optional per operation kind, so this is a query, not an
    /// error.
    pub fn region(&self, ctx: &Context, index: usize) -> (r: Option<RegionRef>)
        requires
            ctx@.wf(),
            ctx@.is_op(self.id as int),
        ensures
            (index < ctx@.op_at(self.id as int).regions.len()) <==> r is Some,
            r matches Some(rr) ==> rr.id == ctx@.op_at(self.id as int).regions[index as int],
    {
        let node = ctx.op_node(self.id);
        if index < node.regions.len() {
            Some(RegionRef { id: node.regions[index] })
        } else {
            None
        }
    }

    /// The operation that follows this one in its block, if any.
    pub fn next_in_block(&self, ctx: &Context) -> (r: Option<OperationRef>)
        requires
            ctx@.wf(),
            ctx@.is_op(self.id as int),
        ensures
            match ctx@.op_at(self.id as int).parent {
                Some(b) => {
                    let ops = ctx@.block_at(b as int).ops;
                    let idx = crate::context::pos_of(ops, self.id);
                    if idx + 1 < ops.len() {
                        r == Some(OperationRef { id: ops[idx + 1] })
                    } else {
                        r is None
                    }
                },
                None => r is None,
            },
    {
        let parent = match ctx.op_node(self.id).parent {
            Some(b) => b,
            None => {
                return None;
            },
        };
        proof {
            assert(ctx@.wf_node(self.id as int));
        }
        let idx = crate::block::index_of_op(ctx, parent, self.id);
        let ops = &ctx.block_node(parent).ops;
        let n = ops.len();
        if idx < n && idx + 1 < n {
            Some(OperationRef { id: ops[idx + 1] })
        } else {
            None
        }
    }
}

impl Operation {
    /// A non-owning reference to this operation.
    pub fn as_ref(&self) -> (r: OperationRef)
        ensures
            r.id == self.id,
    {
        OperationRef { id: self.id }
    }

    /// The operation's name, as an interned string reference.
    pub fn name(&self, ctx: &Context) -> (r: StringRef)
        requires
            ctx@.wf(),
            ctx@.is_op(self.id as int),
        ensures
            r.id == ctx@.op_at(self.id as int).name,
            r.id < ctx@.strings.len(),
    {
        self.as_ref().name(ctx)
    }

    /// The block holding this operation; for an owned handle this is nothing.
    pub fn block(&self, ctx: &Context) -> (r: Option<BlockRef>)
        requires
            ctx@.wf(),
            ctx@.is_op(self.id as int),
        ensures
            r == match ctx@.op_at(self.id as int).parent {
                Some(b) => Some(BlockRef { id: b }),
                None => None::<BlockRef>,
            },
    {
        self.as_ref().block(ctx)
    }

    /// The number of results.
    pub fn result_count(&self, ctx: &Context) -> (r: usize)
        requires
            ctx@.wf(),
            ctx@.is_op(self.id as int),
        ensures
            r == ctx@.op_at(self.id as int).result_types.len(),
    {
        self.as_ref().result_count(ctx)
    }

    /// The result at a position; fails with `IndexOutOfRange` exactly when
    /// the position is not below the result count.
    pub fn result(&self, ctx: &Context, position: usize) -> (r: Result<ResultValue, Error>)
        requires
            ctx@.wf(),
            ctx@.is_op(self.id as int),
        ensures
            (position < ctx@.op_at(self.id as int).result_types.len()) <==> r is Ok,
            r matches Ok(v) ==> v.value == (Value::OperationResult {
                operation: self.id,
                position,
            }) && v.wf(),
            r matches Err(e) ==> e == Error::IndexOutOfRange,
    {
        self.as_ref().result(ctx, position)
    }

    /// The number of regions.
    pub fn region_count(&self, ctx: &Context) -> (r: usize)
        requires
            ctx@.wf(),
            ctx@.is_op(self.id as int),
        ensures
            r == ctx@.op_at(self.id as int).regions.len(),
    {
        self.as_ref().region_count(ctx)
    }

    /// The region at an index, or nothing when the index is out of range.
    pub fn region(&self, ctx: &Context, index: usize) -> (r: Option<RegionRef>)
        requires
            ctx@.wf(),
            ctx@.is_op(self.id as int),
        ensures
            (index < ctx@.op_at(self.id as int).regions.len()) <==> r is Some,
            r matches Some(rr) ==> rr.id == ctx@.op_at(self.id as int).regions[index as int],
    {
        self.as_ref().region(ctx, index)
    }
}

} // verus!

verus! {

impl ResultValue {
    /// The operation that owns this result.
    pub fn owner(&self) -> (r: OperationRef)
        requires
            self.wf(),
        ensures
            self.value matches Value::OperationResult { operation, .. } && r.id == operation,
    {
        match self.value {
            Value::OperationResult { operation, .. } => OperationRef { id: operation },
            Value::BlockArgument { .. } => OperationRef { id: 0 },
        }
    }
}

} // verus!
