//! Structural verification of operations.
//!
//! An operation verifies when every operation in its subtree meets the
//! registry's arity constraints for its kind (or the kind is unregistered
//! and unregistered kinds are allowed), and every operand refers either to
//! an argument of an enclosing block or to a result of an earlier operation
//! in the same block.  Failure is reported, never silently corrected.

use crate::context::{has_kind, kind_for, lemma_child_measure, node_measure, Context, ContextV};
use crate::operation::{Operation, OperationRef};
use crate::value::Value;
use vstd::prelude::*;

verus! {

/// The registry constraints of an operation's kind hold, or the kind is
/// unregistered and that is allowed.
pub open spec fn registry_ok(cv: ContextV, op: int) -> bool {
    let name = cv.strings[cv.op_at(op).name as int];
    if has_kind(cv, name) {
        &&& (kind_for(cv, name).region_arity matches Some(n) ==> cv.op_at(op).regions.len() == n)
        &&& (kind_for(cv, name).result_arity matches Some(n) ==> cv.op_at(op).result_types.len()
            == n)
    } else {
        cv.allow_unregistered
    }
}

/// The operands of the `i`-th operation of a block are defined before use:
/// arguments of an enclosing block, or results of an earlier operation in
/// the same block.
pub open spec fn operands_ok(cv: ContextV, blk: int, i: int, scopes: Seq<usize>) -> bool {
    let ops = cv.block_at(blk).ops;
    let o = cv.op_at(ops[i] as int);
    forall|w: int|
        0 <= w < o.operands.len() ==> (match #[trigger] o.operands[w] {
            Value::BlockArgument { block, .. } => scopes.contains(block),
            Value::OperationResult { operation, .. } => exists|j: int|
                0 <= j < i && ops[j] == operation,
        })
}

/// Structural well-formedness of an operation within enclosing block scopes.
pub open spec fn verify_op(cv: ContextV, op: int, scopes: Seq<usize>) -> bool
    decreases node_measure(cv, op), 3int, 0int,
        when cv.wf() && cv.is_op(op)
        via verify_op_dec
{
    registry_ok(cv, op) && verify_regions(cv, op, 0, scopes)
}

/// The regions of an operation verify, from the `k`-th on.
pub open spec fn verify_regions(cv: ContextV, op: int, k: int, scopes: Seq<usize>) -> bool
    decreases node_measure(cv, op), 2int, cv.op_at(op).regions.len() - k,
        when cv.wf() && cv.is_op(op) && 0 <= k <= cv.op_at(op).regions.len()
        via verify_regions_dec
{
    if k >= cv.op_at(op).regions.len() {
        true
    } else {
        verify_blocks(cv, cv.op_at(op).regions[k] as int, 0, scopes) && verify_regions(
            cv,
            op,
            k + 1,
            scopes,
        )
    }
}

/// The blocks of a region verify, from the `k`-th on.
pub open spec fn verify_blocks(cv: ContextV, reg: int, k: int, scopes: Seq<usize>) -> bool
    decreases node_measure(cv, reg), 2int, cv.region_at(reg).blocks.len() - k,
        when cv.wf() && cv.is_region(reg) && 0 <= k <= cv.region_at(reg).blocks.len()
        via verify_blocks_dec
{
    if k >= cv.region_at(reg).blocks.len() {
        true
    } else {
        let blk = cv.region_at(reg).blocks[k];
        verify_ops_list(cv, blk as int, 0, scopes.push(blk)) && verify_blocks(
            cv,
            reg,
            k + 1,
            scopes,
        )
    }
}

/// The operations of a block verify, from the `i`-th on, with the block
/// itself in scope.
pub open spec fn verify_ops_list(cv: ContextV, blk: int, i: int, scopes: Seq<usize>) -> bool
    decreases node_measure(cv, blk), 2int, cv.block_at(blk).ops.len() - i,
        when cv.wf() && cv.is_block(blk) && 0 <= i <= cv.block_at(blk).ops.len()
        via verify_ops_list_dec
{
    if i >= cv.block_at(blk).ops.len() {
        true
    } else {
        operands_ok(cv, blk, i, scopes) && verify_op(cv, cv.block_at(blk).ops[i] as int, scopes)
            && verify_ops_list(cv, blk, i + 1, scopes)
    }
}

#[via_fn]
proof fn verify_op_dec(cv: ContextV, op: int, scopes: Seq<usize>) {
}

#[via_fn]
proof fn verify_regions_dec(cv: ContextV, op: int, k: int, scopes: Seq<usize>) {
    if k < cv.op_at(op).regions.len() {
        let reg = cv.op_at(op).regions[k];
        assert(cv.wf_node(op));
        assert(cv.is_region(reg as int));
        lemma_child_measure(cv, reg as int, op);
    }
}

#[via_fn]
proof fn verify_blocks_dec(cv: ContextV, reg: int, k: int, scopes: Seq<usize>) {
    if k < cv.region_at(reg).blocks.len() {
        let blk = cv.region_at(reg).blocks[k];
        assert(cv.wf_node(reg));
        assert(cv.is_block(blk as int));
        lemma_child_measure(cv, blk as int, reg);
    }
}

#[via_fn]
proof fn verify_ops_list_dec(cv: ContextV, blk: int, i: int, scopes: Seq<usize>) {
    if i < cv.block_at(blk).ops.len() {
        let op = cv.block_at(blk).ops[i];
        assert(cv.wf_node(blk));
        assert(cv.is_op(op as int));
        lemma_child_measure(cv, op as int, blk);
    }
}

fn registry_ok_exec(ctx: &Context, op: usize) -> (r: bool)
    requires
        ctx@.wf(),
        ctx@.is_op(op as int),
    ensures
        r == registry_ok(ctx@, op as int),
{
    proof {
        assert(ctx@.wf_node(op as int));
    }
    let node = ctx.op_node(op);
    let name = &ctx.strings[node.name];
    match ctx.find_kind_by_name(name) {
        Some(k) => {
            let regions_ok = match k.region_arity {
                Some(n) => node.regions.len() == n,
                None => true,
            };
            let results_ok = match k.result_arity {
                Some(n) => node.result_types.len() == n,
                None => true,
            };
            regions_ok && results_ok
        },
        None => ctx.allow_unregistered_dialects(),
    }
}

fn operands_ok_exec(ctx: &Context, blk: usize, i: usize, scopes: &Vec<usize>) -> (r: bool)
    requires
        ctx@.wf(),
        ctx@.is_block(blk as int),
        i < ctx@.block_at(blk as int).ops.len(),
    ensures
        r == operands_ok(ctx@, blk as int, i as int, scopes@),
{
    proof {
        assert(ctx@.wf_node(blk as int));
    }
    let bn = ctx.block_node(blk);
    let opid = bn.ops[i];
    proof {
        assert(ctx@.is_op(opid as int));
    }
    let node = ctx.op_node(opid);
    let mut w: usize = 0;
    while w < node.operands.len()
        invariant
            ctx@.wf(),
            ctx@.is_block(blk as int),
            i < ctx@.block_at(blk as int).ops.len(),
            bn@ == ctx@.block_at(blk as int),
            opid == ctx@.block_at(blk as int).ops[i as int],
            ctx@.is_op(opid as int),
            node@ == ctx@.op_at(opid as int),
            0 <= w <= node.operands@.len(),
            forall|q: int|
                0 <= q < w ==> (match #[trigger] node.operands@[q] {
                    Value::BlockArgument { block, .. } => scopes@.contains(block),
                    Value::OperationResult { operation, .. } => exists|j: int|
                        0 <= j < i && ctx@.block_at(blk as int).ops[j] == operation,
                }),
        decreases node.operands@.len() - w,
    {
        let good = match node.operands[w] {
            Value::BlockArgument { block, .. } => {
                let mut found = false;
                let mut q: usize = 0;
                while q < scopes.len()
                    invariant
                        0 <= q <= scopes@.len(),
                        !found ==> forall|z: int| 0 <= z < q ==> scopes@[z] != block,
                        found ==> scopes@.contains(block),
                    decreases scopes@.len() - q,
                {
                    if scopes[q] == block {
                        found = true;
                        q = scopes.len();
                    } else {
                        q = q + 1;
                    }
                }
                proof {
                    if !found && scopes@.contains(block) {
                        let z = choose|z: int| 0 <= z < scopes@.len() && scopes@[z] == block;
                        assert(false);
                    }
                }
                found
            },
            Value::OperationResult { operation, .. } => {
                let mut found = false;
                let mut q: usize = 0;
                while q < i
                    invariant
                        0 <= q <= i,
                        i < ctx@.block_at(blk as int).ops.len(),
                        bn@ == ctx@.block_at(blk as int),
                        !found ==> forall|z: int|
                            0 <= z < q ==> ctx@.block_at(blk as int).ops[z] != operation,
                        found ==> exists|j: int|
                            0 <= j < i && ctx@.block_at(blk as int).ops[j] == operation,
                    decreases i - q,
                {
                    if bn.ops[q] == operation {
                        found = true;
                        q = i;
                    } else {
                        q = q + 1;
                    }
                }
                proof {
                    if !found && exists|j: int|
                        0 <= j < i && ctx@.block_at(blk as int).ops[j] == operation {
                        let z = choose|j: int|
                            0 <= j < i && ctx@.block_at(blk as int).ops[j] == operation;
                        assert(false);
                    }
                }
                found
            },
        };
        if !good {
            proof {
                assert(!operands_ok(ctx@, blk as int, i as int, scopes@)) by {
                    assert(ctx@.op_at(opid as int).operands[w as int] == node.operands@[w as int]);
                }
            }
            return false;
        }
        proof {
            assert(match node.operands@[w as int] {
                Value::BlockArgument { block, .. } => scopes@.contains(block),
                Value::OperationResult { operation, .. } => exists|j: int|
                    0 <= j < i && ctx@.block_at(blk as int).ops[j] == operation,
            });
        }
        w = w + 1;
    }
    proof {
        assert forall|w2: int|
            0 <= w2 < ctx@.op_at(opid as int).operands.len() implies (
        match #[trigger] ctx@.op_at(opid as int).operands[w2] {
            Value::BlockArgument { block, .. } => scopes@.contains(block),
            Value::OperationResult { operation, .. } => exists|j: int|
                0 <= j < i && ctx@.block_at(blk as int).ops[j] == operation,
        }) by {
            assert(ctx@.op_at(opid as int).operands[w2] == node.operands@[w2]);
        }
    }
    true
}

#[verifier::rlimit(100)]
fn verify_op_exec(ctx: &Context, op: usize, scopes: &Vec<usize>) -> (r: bool)
    requires
        ctx@.wf(),
        ctx@.is_op(op as int),
    ensures
        r == verify_op(ctx@, op as int, scopes@),
    decreases node_measure(ctx@, op as int),
{
    proof {
        crate::context::lemma_measure_nonneg(ctx@, op as int);
    }
    if !registry_ok_exec(ctx, op) {
        return false;
    }
    let node = ctx.op_node(op);
    let n = node.regions.len();
    let mut k: usize = 0;
    let mut good = true;
    while k < n
        invariant
            ctx@.wf(),
            ctx@.is_op(op as int),
            node@ == ctx@.op_at(op as int),
            n == node.regions@.len(),
            node_measure(ctx@, op as int) >= 0,
            0 <= k <= n,
            good ==> verify_regions(ctx@, op as int, 0, scopes@) == verify_regions(
                ctx@,
                op as int,
                k as int,
                scopes@,
            ),
            !good ==> !verify_regions(ctx@, op as int, 0, scopes@),
        decreases n - k,
    {
        let reg = node.regions[k];
        proof {
            assert(ctx@.wf_node(op as int));
            assert(ctx@.op_at(op as int).regions[k as int] == node.regions@[k as int]);
            assert(ctx@.is_region(reg as int));
            lemma_child_measure(ctx@, reg as int, op as int);
            assert(ctx@.wf_node(reg as int));
        }
        let rn = ctx.region_node(reg);
        let bcount = rn.blocks.len();
        let mut b: usize = 0;
        let mut rgood = true;
        while b < bcount
            invariant
                ctx@.wf(),
                ctx@.is_region(reg as int),
                rn@ == ctx@.region_at(reg as int),
                bcount == rn.blocks@.len(),
                node_measure(ctx@, reg as int) >= 0,
                node_measure(ctx@, reg as int) < node_measure(ctx@, op as int),
                ctx@.is_op(op as int),
                0 <= b <= bcount,
                rgood ==> verify_blocks(ctx@, reg as int, 0, scopes@) == verify_blocks(
                    ctx@,
                    reg as int,
                    b as int,
                    scopes@,
                ),
                !rgood ==> !verify_blocks(ctx@, reg as int, 0, scopes@),
            decreases bcount - b,
        {
            let blk = rn.blocks[b];
            proof {
                assert(ctx@.wf_node(reg as int));
                assert(ctx@.region_at(reg as int).blocks[b as int] == rn.blocks@[b as int]);
                assert(ctx@.is_block(blk as int));
                lemma_child_measure(ctx@, blk as int, reg as int);
                assert(ctx@.wf_node(blk as int));
            }
            // This block's scope: the enclosing scopes plus the block.
            let mut scopes2: Vec<usize> = Vec::new();
            let mut z: usize = 0;
            while z < scopes.len()
                invariant
                    0 <= z <= scopes@.len(),
                    scopes2@ == scopes@.subrange(0, z as int),
                decreases scopes@.len() - z,
            {
                scopes2.push(scopes[z]);
                proof {
                    assert(scopes2@ =~= scopes@.subrange(0, z + 1));
                }
                z = z + 1;
            }
            scopes2.push(blk);
            proof {
                assert(scopes@.subrange(0, scopes@.len() as int) =~= scopes@);
                assert(scopes2@ =~= scopes@.push(blk));
            }
            let bn = ctx.block_node(blk);
            let ocount = bn.ops.len();
            let mut i: usize = 0;
            let mut bgood = true;
            while i < ocount
                invariant
                    ctx@.wf(),
                    ctx@.is_block(blk as int),
                    bn@ == ctx@.block_at(blk as int),
                    ocount == bn.ops@.len(),
                    node_measure(ctx@, blk as int) >= 0,
                    node_measure(ctx@, blk as int) < node_measure(ctx@, op as int),
                    scopes2@ == scopes@.push(blk),
                    0 <= i <= ocount,
                    bgood ==> verify_ops_list(ctx@, blk as int, 0, scopes@.push(blk))
                        == verify_ops_list(ctx@, blk as int, i as int, scopes@.push(blk)),
                    !bgood ==> !verify_ops_list(ctx@, blk as int, 0, scopes@.push(blk)),
                decreases ocount - i,
            {
                let child = bn.ops[i];
                proof {
                    assert(ctx@.wf_node(blk as int));
                    assert(ctx@.block_at(blk as int).ops[i as int] == bn.ops@[i as int]);
                    assert(ctx@.is_op(child as int));
                    lemma_child_measure(ctx@, child as int, blk as int);
                }
                let oo = operands_ok_exec(ctx, blk, i, &scopes2);
                let vo = verify_op_exec(ctx, child, &scopes2);
                proof {
                    if oo && vo {
                        assert(verify_ops_list(ctx@, blk as int, i as int, scopes@.push(blk))
                            == verify_ops_list(ctx@, blk as int, i + 1, scopes@.push(blk)));
                    } else {
                        assert(!verify_ops_list(ctx@, blk as int, i as int, scopes@.push(blk)));
                    }
                }
                if !(oo && vo) {
                    bgood = false;
                    i = ocount;
                } else {
                    i = i + 1;
                }
            }
            proof {
                if bgood {
                    assert(verify_ops_list(ctx@, blk as int, ocount as int, scopes@.push(blk)));
                    assert(verify_ops_list(ctx@, blk as int, 0, scopes@.push(blk)));
                    assert(verify_blocks(ctx@, reg as int, b as int, scopes@) == verify_blocks(
                        ctx@,
                        reg as int,
                        b + 1,
                        scopes@,
                    ));
                } else {
                    assert(!verify_ops_list(ctx@, blk as int, 0, scopes@.push(blk)));
                    assert(!verify_blocks(ctx@, reg as int, b as int, scopes@));
                }
            }
            if !bgood {
                rgood = false;
                b = bcount;
            } else {
                b = b + 1;
            }
        }
        proof {
            if rgood {
                assert(verify_blocks(ctx@, reg as int, bcount as int, scopes@));
                assert(verify_blocks(ctx@, reg as int, 0, scopes@));
                assert(verify_regions(ctx@, op as int, k as int, scopes@) == verify_regions(
                    ctx@,
                    op as int,
                    k + 1,
                    scopes@,
                ));
            } else {
                assert(!verify_blocks(ctx@, reg as int, 0, scopes@));
                assert(!verify_regions(ctx@, op as int, k as int, scopes@));
            }
        }
        if !rgood {
            good = false;
            k = n;
        } else {
            k = k + 1;
        }
    }
    proof {
        if good {
            assert(verify_regions(ctx@, op as int, n as int, scopes@));
            assert(verify_regions(ctx@, op as int, 0, scopes@));
        }
    }
    good
}

impl OperationRef {
    /// Verifies the operation's subtree: registry arity constraints per
    /// kind (unregistered kinds pass only when allowed), and
    /// definition-before-use of every operand.
    pub fn verify(&self, ctx: &Context) -> (r: bool)
        requires
            ctx@.wf(),
            ctx@.is_op(self.id as int),
        ensures
            r == verify_op(ctx@, self.id as int, Seq::empty()),
    {
        let scopes: Vec<usize> = Vec::new();
        proof {
            assert(scopes@ =~= Seq::<usize>::empty());
        }
        verify_op_exec(ctx, self.id, &scopes)
    }
}

impl Operation {
    /// Verifies the operation's subtree.
    pub fn verify(&self, ctx: &Context) -> (r: bool)
        requires
            ctx@.wf(),
            ctx@.is_op(self.id as int),
        ensures
            r == verify_op(ctx@, self.id as int, Seq::empty()),
    {
        self.as_ref().verify(ctx)
    }
}

} // verus!
