//! Blocks: ordered operation lists with typed arguments.
//!
//! `Block` owns a detached block; `BlockRef` is a copyable, non-owning
//! reference to a block resident in a context.  Appending a block to a region
//! consumes the owned handle and hands back a reference.

use crate::ancestry::reaches;
use crate::context::{pos_of, BlockArg, BlockNode, Context, Node};
use crate::location::{location_ok, Location};
use crate::operation::{Operation, OperationRef};
use crate::region::RegionRef;
use crate::types::{type_ok, Type};
use crate::value::{Argument, Value};
use crate::Error;
use vstd::prelude::*;

verus! {

/// An owned, detached block.
#[derive(Debug)]
pub struct Block {
    pub id: usize,
}

/// A non-owning reference to a block.
#[derive(Clone, Copy, Debug, PartialEq, Eq, Structural)]
pub struct BlockRef {
    pub id: usize,
}

/// The position of an operation in the block that holds it.
pub(crate) fn index_of_op(ctx: &Context, blk: usize, op: usize) -> (r: usize)
    requires
        ctx@.wf(),
        ctx@.is_block(blk as int),
        ctx@.block_at(blk as int).ops.contains(op),
    ensures
        r < ctx@.block_at(blk as int).ops.len(),
        ctx@.block_at(blk as int).ops[r as int] == op,
        r == pos_of(ctx@.block_at(blk as int).ops, op),
{
    let ghost ops = ctx@.block_at(blk as int).ops;
    let node = ctx.block_node(blk);
    let mut i: usize = 0;
    while i < node.ops.len()
        invariant
            ctx@.wf(),
            ctx@.is_block(blk as int),
            ops == ctx@.block_at(blk as int).ops,
            0 <= i <= ops.len(),
            node.ops@ == ops,
            ops.contains(op),
            forall|j: int| 0 <= j < i ==> ops[j] != op,
        decreases ops.len() - i,
    {
        if node.ops[i] == op {
            proof {
                assert forall|j: int| 0 <= j < ops.len() && ops[j] == op implies j == i as int by {
                    if j != i as int {
                        crate::context::lemma_block_ops_distinct(ctx@, blk as int, j, i as int);
                    }
                }
            }
            return i;
        }
        i = i + 1;
    }
    proof {
        let j = choose|j: int| 0 <= j < ops.len() && ops[j] == op;
        assert(false);
    }
    0
}

/// The position of a block in the region that holds it.
pub(crate) fn index_of_block(ctx: &Context, reg: usize, blk: usize) -> (r: usize)
    requires
        ctx@.wf(),
        ctx@.is_region(reg as int),
        ctx@.region_at(reg as int).blocks.contains(blk),
    ensures
        r < ctx@.region_at(reg as int).blocks.len(),
        ctx@.region_at(reg as int).blocks[r as int] == blk,
        r == pos_of(ctx@.region_at(reg as int).blocks, blk),
{
    let ghost blocks = ctx@.region_at(reg as int).blocks;
    let node = ctx.region_node(reg);
    let mut i: usize = 0;
    while i < node.blocks.len()
        invariant
            ctx@.wf(),
            ctx@.is_region(reg as int),
            blocks == ctx@.region_at(reg as int).blocks,
            0 <= i <= blocks.len(),
            node.blocks@ == blocks,
            blocks.contains(blk),
            forall|j: int| 0 <= j < i ==> blocks[j] != blk,
        decreases blocks.len() - i,
    {
        if node.blocks[i] == blk {
            proof {
                assert forall|j: int| 0 <= j < blocks.len() && blocks[j] == blk implies j
                    == i as int by {
                    if j != i as int {
                        crate::context::lemma_region_blocks_distinct(ctx@, reg as int, j, i as int);
                    }
                }
            }
            return i;
        }
        i = i + 1;
    }
    proof {
        let j = choose|j: int| 0 <= j < blocks.len() && blocks[j] == blk;
        assert(false);
    }
    0
}

impl BlockRef {
    /// The number of arguments.
    pub fn argument_count(&self, ctx: &Context) -> (r: usize)
        requires
            ctx@.wf(),
            ctx@.is_block(self.id as int),
        ensures
            r == ctx@.block_at(self.id as int).args.len(),
    {
        ctx.block_node(self.id).args.len()
    }

    /// The argument at a position; fails with `IndexOutOfRange` exactly when
    /// the position is not below the argument count.
    pub fn argument(&self, ctx: &Context, position: usize) -> (r: Result<Argument, Error>)
        requires
            ctx@.wf(),
            ctx@.is_block(self.id as int),
        ensures
            (position < ctx@.block_at(self.id as int).args.len()) <==> r is Ok,
            r matches Ok(a) ==> a.value == (Value::BlockArgument { block: self.id, position })
                && a.wf(),
            r matches Err(e) ==> e == Error::IndexOutOfRange,
    {
        if position < ctx.block_node(self.id).args.len() {
            Ok(Argument { value: Value::BlockArgument { block: self.id, position } })
        } else {
            Err(Error::IndexOutOfRange)
        }
    }

    /// Appends an argument of the given type, introduced at the given
    /// location, and returns the value that refers to it.
    pub fn add_argument(&self, ctx: &mut Context, ty: Type, location: Location) -> (r: Value)
        requires
            old(ctx)@.wf(),
            old(ctx)@.is_block(self.id as int),
            type_ok(ty@),
            location_ok(location@),
        ensures
            final(ctx)@.wf(),
            crate::context::same_surroundings(old(ctx)@, final(ctx)@),
            final(ctx)@.nodes == old(ctx)@.nodes.update(
                self.id as int,
                crate::context::NodeV::Block(
                    crate::context::BlockNodeV {
                        args: old(ctx)@.block_at(self.id as int).args.push(
                            crate::context::BlockArgV { ty: ty@, location: location@ },
                        ),
                        ..old(ctx)@.block_at(self.id as int)
                    },
                ),
            ),
            r == (Value::BlockArgument {
                block: self.id,
                position: old(ctx)@.block_at(self.id as int).args.len() as usize,
            }),
    {
        let position = ctx.push_arg(self.id, BlockArg { ty, location });
        Value::BlockArgument { block: self.id, position }
    }

    /// The first operation, or nothing for an empty block.
    pub fn first_operation(&self, ctx: &Context) -> (r: Option<OperationRef>)
        requires
            ctx@.wf(),
            ctx@.is_block(self.id as int),
        ensures
            ({
                let ops = ctx@.block_at(self.id as int).ops;
                if ops.len() > 0 {
                    r == Some(OperationRef { id: ops[0] })
                } else {
                    r is None
                }
            }),
    {
        let node = ctx.block_node(self.id);
        if node.ops.len() > 0 {
            Some(OperationRef { id: node.ops[0] })
        } else {
            None
        }
    }

    /// The terminator: the last operation, or nothing for an empty block.
    pub fn terminator(&self, ctx: &Context) -> (r: Option<OperationRef>)
        requires
            ctx@.wf(),
            ctx@.is_block(self.id as int),
        ensures
            ({
                let ops = ctx@.block_at(self.id as int).ops;
                if ops.len() > 0 {
                    r == Some(OperationRef { id: ops[ops.len() - 1] })
                } else {
                    r is None
                }
            }),
    {
        let node = ctx.block_node(self.id);
        if node.ops.len() > 0 {
            Some(OperationRef { id: node.ops[node.ops.len() - 1] })
        } else {
            None
        }
    }

    /// The owning region, or nothing for a detached block.
    pub fn parent_region(&self, ctx: &Context) -> (r: Option<RegionRef>)
        requires
            ctx@.wf(),
            ctx@.is_block(self.id as int),
        ensures
            r == match ctx@.block_at(self.id as int).parent {
                Some(rr) => Some(RegionRef { id: rr }),
                None => None::<RegionRef>,
            },
    {
        match ctx.block_node(self.id).parent {
            Some(rr) => Some(RegionRef { id: rr }),
            None => None,
        }
    }

    /// The operation owning this block's region, or nothing when the block is
    /// detached or its region is.
    pub fn parent_operation(&self, ctx: &Context) -> (r: Option<OperationRef>)
        requires
            ctx@.wf(),
            ctx@.is_block(self.id as int),
        ensures
            r == match ctx@.block_at(self.id as int).parent {
                Some(rr) => match ctx@.region_at(rr as int).parent {
                    Some(o) => Some(OperationRef { id: o }),
                    None => None::<OperationRef>,
                },
                None => None::<OperationRef>,
            },
    {
        let rr = match ctx.block_node(self.id).parent {
            Some(rr) => rr,
            None => {
                return None;
            },
        };
        proof {
            assert(ctx@.wf_node(self.id as int));
        }
        match ctx.region_node(rr).parent {
            Some(o) => Some(OperationRef { id: o }),
            None => None,
        }
    }

    /// The block following this one in its region, if any.
    pub fn next_in_region(&self, ctx: &Context) -> (r: Option<BlockRef>)
        requires
            ctx@.wf(),
            ctx@.is_block(self.id as int),
        ensures
            match ctx@.block_at(self.id as int).parent {
                Some(rr) => {
                    let blocks = ctx@.region_at(rr as int).blocks;
                    let idx = pos_of(blocks, self.id);
                    if idx + 1 < blocks.len() {
                        r == Some(BlockRef { id: blocks[idx + 1] })
                    } else {
                        r is None
                    }
                },
                None => r is None,
            },
    {
        let rr = match ctx.block_node(self.id).parent {
            Some(rr) => rr,
            None => {
                return None;
            },
        };
        proof {
            assert(ctx@.wf_node(self.id as int));
        }
        let idx = index_of_block(ctx, rr, self.id);
        let blocks = &ctx.region_node(rr).blocks;
        let n = blocks.len();
        if idx < n && idx + 1 < n {
            Some(BlockRef { id: blocks[idx + 1] })
        } else {
            None
        }
    }

    /// Inserts a detached operation at a position, clamped to the operation
    /// count; ownership moves into the block.
    pub fn insert_operation(&self, ctx: &mut Context, position: usize, operation: Operation) -> (r:
        OperationRef)
        requires
            old(ctx)@.wf(),
            old(ctx)@.is_block(self.id as int),
            old(ctx)@.is_op(operation.id as int),
            old(ctx)@.op_at(operation.id as int).parent is None,
            !reaches(old(ctx)@.pm(), self.id as int, operation.id as int),
        ensures
            final(ctx)@.wf(),
            crate::context::same_surroundings(old(ctx)@, final(ctx)@),
            ({
                let ops = old(ctx)@.block_at(self.id as int).ops;
                let pos = if position as int <= ops.len() {
                    position as int
                } else {
                    ops.len() as int
                };
                final(ctx)@.nodes == old(ctx)@.nodes.update(
                    self.id as int,
                    crate::context::NodeV::Block(
                        crate::context::BlockNodeV {
                            ops: ops.insert(pos, operation.id),
                            ..old(ctx)@.block_at(self.id as int)
                        },
                    ),
                ).update(
                    operation.id as int,
                    crate::context::NodeV::Op(
                        crate::context::OpNodeV {
                            parent: Some(self.id),
                            ..old(ctx)@.op_at(operation.id as int)
                        },
                    ),
                )
            }),
            r.id == operation.id,
    {
        let len = ctx.block_node(self.id).ops.len();
        let pos = if position <= len {
            position
        } else {
            len
        };
        ctx.attach_op(operation.id, self.id, pos);
        OperationRef { id: operation.id }
    }

    /// Appends a detached operation; ownership moves into the block.
    pub fn append_operation(&self, ctx: &mut Context, operation: Operation) -> (r: OperationRef)
        requires
            old(ctx)@.wf(),
            old(ctx)@.is_block(self.id as int),
            old(ctx)@.is_op(operation.id as int),
            old(ctx)@.op_at(operation.id as int).parent is None,
            !reaches(old(ctx)@.pm(), self.id as int, operation.id as int),
        ensures
            final(ctx)@.wf(),
            crate::context::same_surroundings(old(ctx)@, final(ctx)@),
            final(ctx)@.nodes == old(ctx)@.nodes.update(
                self.id as int,
                crate::context::NodeV::Block(
                    crate::context::BlockNodeV {
                        ops: old(ctx)@.block_at(self.id as int).ops.push(operation.id),
                        ..old(ctx)@.block_at(self.id as int)
                    },
                ),
            ).update(
                operation.id as int,
                crate::context::NodeV::Op(
                    crate::context::OpNodeV {
                        parent: Some(self.id),
                        ..old(ctx)@.op_at(operation.id as int)
                    },
                ),
            ),
            r.id == operation.id,
    {
        let len = ctx.block_node(self.id).ops.len();
        proof {
            let ops = old(ctx)@.block_at(self.id as int).ops;
            assert(ops.insert(ops.len() as int, operation.id) =~= ops.push(operation.id));
        }
        ctx.attach_op(operation.id, self.id, len);
        OperationRef { id: operation.id }
    }

    /// Inserts a detached operation directly after an operation of this
    /// block; ownership moves into the block.
    pub fn insert_operation_after(
        &self,
        ctx: &mut Context,
        anchor: OperationRef,
        operation: Operation,
    ) -> (r: OperationRef)
        requires
            old(ctx)@.wf(),
            old(ctx)@.is_block(self.id as int),
            old(ctx)@.block_at(self.id as int).ops.contains(anchor.id),
            old(ctx)@.is_op(operation.id as int),
            old(ctx)@.op_at(operation.id as int).parent is None,
            !reaches(old(ctx)@.pm(), self.id as int, operation.id as int),
        ensures
            final(ctx)@.wf(),
            crate::context::same_surroundings(old(ctx)@, final(ctx)@),
            ({
                let ops = old(ctx)@.block_at(self.id as int).ops;
                let idx = pos_of(ops, anchor.id);
                final(ctx)@.nodes == old(ctx)@.nodes.update(
                    self.id as int,
                    crate::context::NodeV::Block(
                        crate::context::BlockNodeV {
                            ops: ops.insert(idx + 1, operation.id),
                            ..old(ctx)@.block_at(self.id as int)
                        },
                    ),
                ).update(
                    operation.id as int,
                    crate::context::NodeV::Op(
                        crate::context::OpNodeV {
                            parent: Some(self.id),
                            ..old(ctx)@.op_at(operation.id as int)
                        },
                    ),
                )
            }),
            r.id == operation.id,
    {
        let n = ctx.block_node(self.id).ops.len();
        let idx = index_of_op(ctx, self.id, anchor.id);
        ctx.attach_op(operation.id, self.id, idx + 1);
        OperationRef { id: operation.id }
    }

    /// Inserts a detached operation directly before an operation of this
    /// block; ownership moves into the block.
    pub fn insert_operation_before(
        &self,
        ctx: &mut Context,
        anchor: OperationRef,
        operation: Operation,
    ) -> (r: OperationRef)
        requires
            old(ctx)@.wf(),
            old(ctx)@.is_block(self.id as int),
            old(ctx)@.block_at(self.id as int).ops.contains(anchor.id),
            old(ctx)@.is_op(operation.id as int),
            old(ctx)@.op_at(operation.id as int).parent is None,
            !reaches(old(ctx)@.pm(), self.id as int, operation.id as int),
        ensures
            final(ctx)@.wf(),
            crate::context::same_surroundings(old(ctx)@, final(ctx)@),
            ({
                let ops = old(ctx)@.block_at(self.id as int).ops;
                let idx = pos_of(ops, anchor.id);
                final(ctx)@.nodes == old(ctx)@.nodes.update(
                    self.id as int,
                    crate::context::NodeV::Block(
                        crate::context::BlockNodeV {
                            ops: ops.insert(idx, operation.id),
                            ..old(ctx)@.block_at(self.id as int)
                        },
                    ),
                ).update(
                    operation.id as int,
                    crate::context::NodeV::Op(
                        crate::context::OpNodeV {
                            parent: Some(self.id),
                            ..old(ctx)@.op_at(operation.id as int)
                        },
                    ),
                )
            }),
            r.id == operation.id,
    {
        let idx = index_of_op(ctx, self.id, anchor.id);
        ctx.attach_op(operation.id, self.id, idx);
        OperationRef { id: operation.id }
    }

    /// Detaches the block from its region, taking ownership back; returns
    /// nothing when the block has no owner.  Sibling blocks keep their order.
    pub fn detach(&self, ctx: &mut Context) -> (r: Option<Block>)
        requires
            old(ctx)@.wf(),
            old(ctx)@.is_block(self.id as int),
        ensures
            final(ctx)@.wf(),
            crate::context::same_surroundings(old(ctx)@, final(ctx)@),
            old(ctx)@.block_at(self.id as int).parent is None ==> r is None && final(ctx)@ == old(
                ctx,
            )@,
            (old(ctx)@.block_at(self.id as int).parent matches Some(rr) && {
                let blocks = old(ctx)@.region_at(rr as int).blocks;
                let idx = pos_of(blocks, self.id);
                &&& (r matches Some(bl) && bl.id == self.id)
                &&& 0 <= idx < blocks.len()
                &&& blocks[idx] == self.id
                &&& final(ctx)@.nodes == old(ctx)@.nodes.update(
                    rr as int,
                    crate::context::NodeV::Region(
                        crate::context::RegionNodeV {
                            blocks: blocks.remove(idx),
                            ..old(ctx)@.region_at(rr as int)
                        },
                    ),
                ).update(
                    self.id as int,
                    crate::context::NodeV::Block(
                        crate::context::BlockNodeV {
                            parent: None,
                            ..old(ctx)@.block_at(self.id as int)
                        },
                    ),
                )
            }) || (old(ctx)@.block_at(self.id as int).parent is None),
    {
        let attached = match ctx.block_node(self.id).parent {
            Some(_) => true,
            None => false,
        };
        if !attached {
            proof {
                assert(final(ctx)@ =~= old(ctx)@);
            }
            return None;
        }
        ctx.detach_block(self.id);
        Some(Block { id: self.id })
    }
}

impl Block {
    /// Creates a detached block with the given arguments.
    pub fn new(ctx: &mut Context, arguments: Vec<BlockArg>) -> (r: Block)
        requires
            old(ctx)@.wf(),
            forall|j: int|
                0 <= j < arguments@.len() ==> type_ok((#[trigger] arguments@[j])@.ty)
                    && location_ok(arguments@[j]@.location),
        ensures
            final(ctx)@.wf(),
            crate::context::same_surroundings(old(ctx)@, final(ctx)@),
            r.id == old(ctx)@.nodes.len(),
            final(ctx)@.nodes == old(ctx)@.nodes.push(
                crate::context::NodeV::Block(
                    crate::context::BlockNodeV {
                        args: crate::context::arg_views(arguments@),
                        ops: Seq::empty(),
                        parent: None,
                    },
                ),
            ),
    {
        proof {
            assert(crate::context::arg_views(arguments@).len() == arguments@.len());
        }
        let node = Node::Block(BlockNode { args: arguments, ops: Vec::new(), parent: None });
        let id = ctx.add_node(node);
        proof {
            assert(final(ctx)@.nodes[id as int] matches crate::context::NodeV::Block(b)
                && b.ops =~= Seq::<usize>::empty());
        }
        Block { id }
    }

    /// A non-owning reference to this block.
    pub fn as_ref(&self) -> (r: BlockRef)
        ensures
            r.id == self.id,
    {
        BlockRef { id: self.id }
    }

    /// The number of arguments.
    pub fn argument_count(&self, ctx: &Context) -> (r: usize)
        requires
            ctx@.wf(),
            ctx@.is_block(self.id as int),
        ensures
            r == ctx@.block_at(self.id as int).args.len(),
    {
        self.as_ref().argument_count(ctx)
    }

    /// The argument at a position; fails with `IndexOutOfRange` exactly when
    /// the position is not below the argument count.
    pub fn argument(&self, ctx: &Context, position: usize) -> (r: Result<Argument, Error>)
        requires
            ctx@.wf(),
            ctx@.is_block(self.id as int),
        ensures
            (position < ctx@.block_at(self.id as int).args.len()) <==> r is Ok,
            r matches Ok(a) ==> a.value == (Value::BlockArgument { block: self.id, position })
                && a.wf(),
            r matches Err(e) ==> e == Error::IndexOutOfRange,
    {
        self.as_ref().argument(ctx, position)
    }

    /// Appends an argument of the given type at the given location.
    pub fn add_argument(&self, ctx: &mut Context, ty: Type, location: Location) -> (r: Value)
        requires
            old(ctx)@.wf(),
            old(ctx)@.is_block(self.id as int),
            type_ok(ty@),
            location_ok(location@),
        ensures
            final(ctx)@.wf(),
            crate::context::same_surroundings(old(ctx)@, final(ctx)@),
            final(ctx)@.nodes == old(ctx)@.nodes.update(
                self.id as int,
                crate::context::NodeV::Block(
                    crate::context::BlockNodeV {
                        args: old(ctx)@.block_at(self.id as int).args.push(
                            crate::context::BlockArgV { ty: ty@, location: location@ },
                        ),
                        ..old(ctx)@.block_at(self.id as int)
                    },
                ),
            ),
            r == (Value::BlockArgument {
                block: self.id,
                position: old(ctx)@.block_at(self.id as int).args.len() as usize,
            }),
    {
        self.as_ref().add_argument(ctx, ty, location)
    }

    /// Appends a detached operation; ownership moves into the block.
    pub fn append_operation(&self, ctx: &mut Context, operation: Operation) -> (r: OperationRef)
        requires
            old(ctx)@.wf(),
            old(ctx)@.is_block(self.id as int),
            old(ctx)@.is_op(operation.id as int),
            old(ctx)@.op_at(operation.id as int).parent is None,
            !reaches(old(ctx)@.pm(), self.id as int, operation.id as int),
        ensures
            final(ctx)@.wf(),
            crate::context::same_surroundings(old(ctx)@, final(ctx)@),
            final(ctx)@.nodes == old(ctx)@.nodes.update(
                self.id as int,
                crate::context::NodeV::Block(
                    crate::context::BlockNodeV {
                        ops: old(ctx)@.block_at(self.id as int).ops.push(operation.id),
                        ..old(ctx)@.block_at(self.id as int)
                    },
                ),
            ).update(
                operation.id as int,
                crate::context::NodeV::Op(
                    crate::context::OpNodeV {
                        parent: Some(self.id),
                        ..old(ctx)@.op_at(operation.id as int)
                    },
                ),
            ),
            r.id == operation.id,
    {
        self.as_ref().append_operation(ctx, operation)
    }

    /// The first operation, or nothing for an empty block.
    pub fn first_operation(&self, ctx: &Context) -> (r: Option<OperationRef>)
        requires
            ctx@.wf(),
            ctx@.is_block(self.id as int),
        ensures
            ({
                let ops = ctx@.block_at(self.id as int).ops;
                if ops.len() > 0 {
                    r == Some(OperationRef { id: ops[0] })
                } else {
                    r is None
                }
            }),
    {
        self.as_ref().first_operation(ctx)
    }

    /// The terminator: the last operation, or nothing for an empty block.
    pub fn terminator(&self, ctx: &Context) -> (r: Option<OperationRef>)
        requires
            ctx@.wf(),
            ctx@.is_block(self.id as int),
        ensures
            ({
                let ops = ctx@.block_at(self.id as int).ops;
                if ops.len() > 0 {
                    r == Some(OperationRef { id: ops[ops.len() - 1] })
                } else {
                    r is None
                }
            }),
    {
        self.as_ref().terminator(ctx)
    }

    /// The owning region: nothing, for an owned handle.
    pub fn parent_region(&self, ctx: &Context) -> (r: Option<RegionRef>)
        requires
            ctx@.wf(),
            ctx@.is_block(self.id as int),
        ensures
            r == match ctx@.block_at(self.id as int).parent {
                Some(rr) => Some(RegionRef { id: rr }),
                None => None::<RegionRef>,
            },
    {
        self.as_ref().parent_region(ctx)
    }

    /// The operation owning this block's region, if any.
    pub fn parent_operation(&self, ctx: &Context) -> (r: Option<OperationRef>)
        requires
            ctx@.wf(),
            ctx@.is_block(self.id as int),
        ensures
            r == match ctx@.block_at(self.id as int).parent {
                Some(rr) => match ctx@.region_at(rr as int).parent {
                    Some(o) => Some(OperationRef { id: o }),
                    None => None::<OperationRef>,
                },
                None => None::<OperationRef>,
            },
    {
        self.as_ref().parent_operation(ctx)
    }

    /// Detaching a block that has no owner returns nothing.
    pub fn detach(&self, ctx: &mut Context) -> (r: Option<Block>)
        requires
            old(ctx)@.wf(),
            old(ctx)@.is_block(self.id as int),
            old(ctx)@.block_at(self.id as int).parent is None,
        ensures
            final(ctx)@.wf(),
            final(ctx)@ == old(ctx)@,
            r is None,
    {
        self.as_ref().detach(ctx)
    }
}

} // verus!

verus! {

impl Argument {
    /// The block that owns this argument.
    pub fn owner(&self) -> (r: BlockRef)
        requires
            self.wf(),
        ensures
            self.value matches Value::BlockArgument { block, .. } && r.id == block,
    {
        match self.value {
            Value::BlockArgument { block, .. } => BlockRef { id: block },
            Value::OperationResult { .. } => BlockRef { id: 0 },
        }
    }
}

} // verus!

verus! {

impl Argument {
    /// Replaces the type of this argument in its block.
    pub fn set_type(&self, ctx: &mut Context, ty: Type)
        requires
            old(ctx)@.wf(),
            self.wf(),
            self.value matches Value::BlockArgument { block, position } && old(ctx)@.is_block(
                block as int,
            ) && position < old(ctx)@.block_at(block as int).args.len(),
            type_ok(ty@),
        ensures
            final(ctx)@.wf(),
            crate::context::same_surroundings(old(ctx)@, final(ctx)@),
            (self.value matches Value::BlockArgument { block, position } && final(ctx)@.nodes
                == old(ctx)@.nodes.update(
                block as int,
                crate::context::NodeV::Block(
                    crate::context::BlockNodeV {
                        args: old(ctx)@.block_at(block as int).args.update(
                            position as int,
                            crate::context::BlockArgV {
                                ty: ty@,
                                location: old(ctx)@.block_at(
                                    block as int,
                                ).args[position as int].location,
                            },
                        ),
                        ..old(ctx)@.block_at(block as int)
                    },
                ),
            )),
    {
        match self.value {
            Value::BlockArgument { block, position } => {
                ctx.set_arg_ty(block, position, ty);
            },
            Value::OperationResult { .. } => {},
        }
    }
}

} // verus!

verus! {

/// Insertion ordering: inserting after an anchor leaves the anchor
/// immediately followed by the new operation; inserting before leaves the
/// new operation immediately before the anchor.  Together with the
/// contracts of `first_operation` and `next_in_block`, which walk the list
/// in order, the traversal visits the two in exactly this order.
pub proof fn lemma_insertion_order(ops: Seq<usize>, anchor: usize, x: usize)
    requires
        ops.contains(anchor),
    ensures
        ({
            let idx = pos_of(ops, anchor);
            &&& 0 <= idx < ops.len()
            &&& ops.insert(idx + 1, x)[idx] == anchor
            &&& ops.insert(idx + 1, x)[idx + 1] == x
            &&& ops.insert(idx, x)[idx] == x
            &&& ops.insert(idx, x)[idx + 1] == anchor
        }),
{
    let idx = pos_of(ops, anchor);
    assert(0 <= idx < ops.len() && ops[idx] == anchor);
    ops.insert_ensures(idx + 1, x);
    ops.insert_ensures(idx, x);
    assert(ops.insert(idx + 1, x)[idx] == ops[idx]);
    assert(ops.insert(idx, x)[(idx) + 1] == ops[idx]);
}

} // verus!
