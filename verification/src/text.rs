//! The textual form of the graph.
//!
//! Rendering is deterministic and whitespace-stable: one operation per line,
//! blocks introduced by positional labels, regions delimited by braces, and
//! the module kind printed in its short form.  Value names are handle
//! coordinates, so they are stable for a given arena.

use crate::context::{
    lemma_child_measure, node_measure, AttrPairV, BlockArgV, Context, ContextV,
};
use crate::module::module_name;
use crate::num::dec_rep;
use crate::types::{render_type, TypeV};
use crate::value::Value;
use vstd::prelude::*;

verus! {

/// Spaces for an indentation depth.
pub open spec fn indent_sp(ind: nat) -> Seq<char>
    decreases ind,
{
    if ind == 0 {
        Seq::empty()
    } else {
        seq![' '] + indent_sp((ind - 1) as nat)
    }
}

/// The printed name of a value: its handle coordinates.
pub open spec fn render_value_name(v: Value) -> Seq<char> {
    match v {
        Value::BlockArgument { block, position } => seq!['%', 'b'] + dec_rep(block as nat) + seq![
            'a',
        ] + dec_rep(position as nat),
        Value::OperationResult { operation, position } => seq!['%', 'o'] + dec_rep(operation as nat)
            + seq!['r'] + dec_rep(position as nat),
    }
}

/// A comma-separated list of value names.
pub open spec fn render_value_list(vs: Seq<Value>) -> Seq<char>
    decreases vs.len(),
{
    if vs.len() == 0 {
        Seq::empty()
    } else if vs.len() == 1 {
        render_value_name(vs[0])
    } else {
        render_value_name(vs[0]) + seq![',', ' '] + render_value_list(
            vs.subrange(1, vs.len() as int),
        )
    }
}

/// A comma-separated list of types.
pub open spec fn render_type_list(ts: Seq<TypeV>) -> Seq<char>
    decreases ts.len(),
{
    if ts.len() == 0 {
        Seq::empty()
    } else if ts.len() == 1 {
        render_type(ts[0])
    } else {
        render_type(ts[0]) + seq![',', ' '] + render_type_list(ts.subrange(1, ts.len() as int))
    }
}

/// One attribute entry: its key's text, an equals sign, its value text.
pub open spec fn render_attr(cv: ContextV, a: AttrPairV) -> Seq<char> {
    cv.strings[a.key as int] + seq![' ', '=', ' '] + a.text
}

/// A comma-separated list of attribute entries.
pub open spec fn render_attr_list(cv: ContextV, s: Seq<AttrPairV>) -> Seq<char>
    decreases s.len(),
{
    if s.len() == 0 {
        Seq::empty()
    } else if s.len() == 1 {
        render_attr(cv, s[0])
    } else {
        render_attr(cv, s[0]) + seq![',', ' '] + render_attr_list(cv, s.subrange(1, s.len() as int))
    }
}

/// The attribute dictionary, or nothing when there are no attributes.
pub open spec fn render_attrs(cv: ContextV, s: Seq<AttrPairV>) -> Seq<char> {
    if s.len() == 0 {
        Seq::empty()
    } else {
        seq![' ', '{'] + render_attr_list(cv, s) + seq!['}']
    }
}

/// A comma-separated list of successor block labels.
pub open spec fn render_succ_list(ss: Seq<usize>) -> Seq<char>
    decreases ss.len(),
{
    if ss.len() == 0 {
        Seq::empty()
    } else if ss.len() == 1 {
        seq!['^', 'b'] + dec_rep(ss[0] as nat)
    } else {
        seq!['^', 'b'] + dec_rep(ss[0] as nat) + seq![',', ' '] + render_succ_list(
            ss.subrange(1, ss.len() as int),
        )
    }
}

/// The successor bracket, or nothing when there are no successors.
pub open spec fn render_succs(ss: Seq<usize>) -> Seq<char> {
    if ss.len() == 0 {
        Seq::empty()
    } else {
        seq![' ', '['] + render_succ_list(ss) + seq![']']
    }
}

/// The types of an operand list, read off the arena.
pub open spec fn operand_types(cv: ContextV, vs: Seq<Value>) -> Seq<TypeV> {
    Seq::new(vs.len(), |i: int| cv.value_type(vs[i]))
}

/// The result names of an operation, for the binding prefix.
pub open spec fn result_names(op: usize, n: nat) -> Seq<char>
    decreases n,
{
    if n == 0 {
        Seq::empty()
    } else if n == 1 {
        render_value_name(Value::OperationResult { operation: op, position: 0 })
    } else {
        result_names(op, (n - 1) as nat) + seq![',', ' '] + render_value_name(
            Value::OperationResult { operation: op, position: (n - 1) as usize },
        )
    }
}

/// The binding prefix of an operation line, or nothing without results.
pub open spec fn results_prefix(op: usize, n: nat) -> Seq<char> {
    if n == 0 {
        Seq::empty()
    } else {
        result_names(op, n) + seq![' ', '=', ' ']
    }
}

/// The single-line body of an operation: everything except indentation,
/// regions and the line break.
pub open spec fn headline(cv: ContextV, op: int) -> Seq<char> {
    let o = cv.op_at(op);
    results_prefix(op as usize, o.result_types.len()) + seq!['"'] + cv.strings[o.name as int]
        + seq!['"', '('] + render_value_list(o.operands) + seq![')'] + render_succs(o.successors)
        + render_attrs(cv, o.attrs) + seq![' ', ':', ' ', '('] + render_type_list(
        operand_types(cv, o.operands),
    ) + seq![')', ' ', '-', '>', ' ', '('] + render_type_list(o.result_types) + seq![')']
}

/// The block argument list of a label, or nothing without arguments.
pub open spec fn render_arg_names(args: Seq<BlockArgV>, n: nat) -> Seq<char>
    decreases n,
{
    if n == 0 {
        Seq::empty()
    } else if n == 1 {
        seq!['%', 'a', '0', ':', ' '] + render_type(args[0].ty)
    } else {
        render_arg_names(args, (n - 1) as nat) + seq![',', ' ', '%', 'a'] + dec_rep((n - 1) as nat)
            + seq![':', ' '] + render_type(args[n - 1].ty)
    }
}

/// The parenthesised block argument list, or nothing without arguments.
pub open spec fn render_block_args(args: Seq<BlockArgV>) -> Seq<char> {
    if args.len() == 0 {
        Seq::empty()
    } else {
        seq!['('] + render_arg_names(args, args.len()) + seq![')']
    }
}

/// The body block of an operation in the short module form.
pub open spec fn body_of(cv: ContextV, op: int) -> usize {
    cv.region_at(cv.op_at(op).regions[0] as int).blocks[0]
}

/// The operation prints in the short module form: the module kind, one
/// region, one argument-free block, and nothing else on the line.
pub open spec fn plain_module(cv: ContextV, op: int) -> bool {
    let o = cv.op_at(op);
    &&& cv.is_op(op)
    &&& cv.strings[o.name as int] == module_name()
    &&& o.regions.len() == 1
    &&& cv.is_region(o.regions[0] as int)
    &&& cv.region_at(o.regions[0] as int).blocks.len() == 1
    &&& cv.is_block(cv.region_at(o.regions[0] as int).blocks[0] as int)
    &&& cv.block_at(cv.region_at(o.regions[0] as int).blocks[0] as int).args.len() == 0
    &&& o.attrs.len() == 0
    &&& o.operands.len() == 0
    &&& o.result_types.len() == 0
    &&& o.successors.len() == 0
}

/// The text of an operation at an indentation depth.
pub open spec fn render_op(cv: ContextV, op: int, ind: nat) -> Seq<char>
    decreases node_measure(cv, op), 3int, 0int,
        when cv.wf() && cv.is_op(op)
        via render_op_dec
{
    if plain_module(cv, op) {
        let blk = cv.region_at(cv.op_at(op).regions[0] as int).blocks[0];
        indent_sp(ind) + seq!['m', 'o', 'd', 'u', 'l', 'e', ' ', '{', '\n'] + render_ops_list(
            cv,
            blk as int,
            0,
            (ind + 2) as nat,
        ) + indent_sp(ind) + seq!['}', '\n']
    } else {
        indent_sp(ind) + headline(cv, op) + render_region_list(cv, op, 0, ind)
    }
}

/// The texts of an operation's regions, from the `k`-th on, followed by the
/// closing line break.
pub open spec fn render_region_list(cv: ContextV, op: int, k: int, ind: nat) -> Seq<char>
    decreases node_measure(cv, op), 2int, cv.op_at(op).regions.len() - k,
        when cv.wf() && cv.is_op(op) && 0 <= k <= cv.op_at(op).regions.len()
        via render_region_list_dec
{
    if k >= cv.op_at(op).regions.len() {
        seq!['\n']
    } else {
        seq![' ', '{', '\n'] + render_block_list(
            cv,
            cv.op_at(op).regions[k] as int,
            0,
            ind,
        ) + indent_sp(ind) + seq!['}'] + render_region_list(cv, op, k + 1, ind)
    }
}

/// The texts of a region's blocks, from the `k`-th on.
pub open spec fn render_block_list(cv: ContextV, reg: int, k: int, ind: nat) -> Seq<char>
    decreases node_measure(cv, reg), 2int, cv.region_at(reg).blocks.len() - k,
        when cv.wf() && cv.is_region(reg) && 0 <= k <= cv.region_at(reg).blocks.len()
        via render_block_list_dec
{
    if k >= cv.region_at(reg).blocks.len() {
        Seq::empty()
    } else {
        render_block(cv, cv.region_at(reg).blocks[k] as int, k as nat, ind) + render_block_list(
            cv,
            reg,
            k + 1,
            ind,
        )
    }
}

/// The text of a block at its position in its region: a label line and the
/// operations.
pub open spec fn render_block(cv: ContextV, blk: int, pos: nat, ind: nat) -> Seq<char>
    decreases node_measure(cv, blk), 3int, 0int,
        when cv.wf() && cv.is_block(blk)
        via render_block_dec
{
    indent_sp((ind + 2) as nat) + seq!['^', 'b', 'b'] + dec_rep(pos) + render_block_args(
        cv.block_at(blk).args,
    ) + seq![':', '\n'] + render_ops_list(cv, blk, 0, (ind + 4) as nat)
}

/// The texts of a block's operations, from the `k`-th on.
pub open spec fn render_ops_list(cv: ContextV, blk: int, k: int, ind: nat) -> Seq<char>
    decreases node_measure(cv, blk), 2int, cv.block_at(blk).ops.len() - k,
        when cv.wf() && cv.is_block(blk) && 0 <= k <= cv.block_at(blk).ops.len()
        via render_ops_list_dec
{
    if k >= cv.block_at(blk).ops.len() {
        Seq::empty()
    } else {
        render_op(cv, cv.block_at(blk).ops[k] as int, ind) + render_ops_list(cv, blk, k + 1, ind)
    }
}

#[via_fn]
proof fn render_op_dec(cv: ContextV, op: int, ind: nat) {
    if plain_module(cv, op) {
        let reg = cv.op_at(op).regions[0];
        let blk = cv.region_at(reg as int).blocks[0];
        assert(cv.wf_node(op));
        assert(cv.is_region(reg as int));
        lemma_child_measure(cv, reg as int, op);
        assert(cv.wf_node(reg as int));
        lemma_child_measure(cv, blk as int, reg as int);
        assert(cv.wf_node(blk as int));
    }
}

#[via_fn]
proof fn render_region_list_dec(cv: ContextV, op: int, k: int, ind: nat) {
    if k < cv.op_at(op).regions.len() {
        let reg = cv.op_at(op).regions[k];
        assert(cv.wf_node(op));
        assert(cv.is_region(reg as int));
        lemma_child_measure(cv, reg as int, op);
    }
}

#[via_fn]
proof fn render_block_list_dec(cv: ContextV, reg: int, k: int, ind: nat) {
    if k < cv.region_at(reg).blocks.len() {
        let blk = cv.region_at(reg).blocks[k];
        assert(cv.wf_node(reg));
        assert(cv.is_block(blk as int));
        lemma_child_measure(cv, blk as int, reg);
    }
}

#[via_fn]
proof fn render_block_dec(cv: ContextV, blk: int, pos: nat, ind: nat) {
    assert(cv.wf_node(blk));
}

#[via_fn]
proof fn render_ops_list_dec(cv: ContextV, blk: int, k: int, ind: nat) {
    if k < cv.block_at(blk).ops.len() {
        let op = cv.block_at(blk).ops[k];
        assert(cv.wf_node(blk));
        assert(cv.is_op(op as int));
        lemma_child_measure(cv, op as int, blk);
    }
}

} // verus!

verus! {

use crate::chars::chars_to_string;
use crate::context::{AttrPair, BlockArg};
use crate::num::u64_to_chars;
use crate::operation::{Operation, OperationRef};
use crate::types::type_chars;

fn indent_chars(ind: usize) -> (r: Vec<char>)
    ensures
        r@ == indent_sp(ind as nat),
{
    let mut out: Vec<char> = Vec::new();
    let mut i: usize = 0;
    while i < ind
        invariant
            0 <= i <= ind,
            out@ =~= indent_sp(i as nat),
        decreases ind - i,
    {
        out.push(' ');
        proof {
            lemma_indent_step(i as nat);
        }
        i = i + 1;
    }
    out
}

proof fn lemma_indent_step(i: nat)
    ensures
        indent_sp((i + 1) as nat) =~= indent_sp(i) + seq![' '],
    decreases i,
{
    if i > 0 {
        lemma_indent_step((i - 1) as nat);
        assert(indent_sp((i + 1) as nat) =~= seq![' '] + indent_sp(i));
        assert(seq![' '] + (indent_sp((i - 1) as nat) + seq![' ']) =~= (seq![' '] + indent_sp(
            (i - 1) as nat,
        )) + seq![' ']);
    } else {
        assert(indent_sp(1nat) =~= seq![' '] + indent_sp(0nat));
        assert(indent_sp(0nat) =~= Seq::<char>::empty());
        assert(indent_sp(1nat) =~= indent_sp(0nat) + seq![' ']);
    }
}

fn value_name_chars(v: Value) -> (r: Vec<char>)
    ensures
        r@ == render_value_name(v),
{
    let mut out: Vec<char> = Vec::new();
    out.push('%');
    match v {
        Value::BlockArgument { block, position } => {
            out.push('b');
            let mut d = u64_to_chars(block as u64);
            out.append(&mut d);
            out.push('a');
            let mut p = u64_to_chars(position as u64);
            out.append(&mut p);
        },
        Value::OperationResult { operation, position } => {
            out.push('o');
            let mut d = u64_to_chars(operation as u64);
            out.append(&mut d);
            out.push('r');
            let mut p = u64_to_chars(position as u64);
            out.append(&mut p);
        },
    }
    proof {
        assert(out@ =~= render_value_name(v));
    }
    out
}

fn value_list_chars(vs: &Vec<Value>) -> (r: Vec<char>)
    ensures
        r@ == render_value_list(vs@),
{
    let mut out: Vec<char> = Vec::new();
    let mut i: usize = 0;
    while i < vs.len()
        invariant
            0 <= i <= vs@.len(),
            i == 0 ==> out@ =~= Seq::<char>::empty(),
            0 < i < vs@.len() ==> render_value_list(vs@) =~= out@ + seq![',', ' ']
                + render_value_list(vs@.subrange(i as int, vs@.len() as int)),
            i > 0 && i == vs@.len() ==> out@ =~= render_value_list(vs@),
        decreases vs@.len() - i,
    {
        if i > 0 {
            out.push(',');
            out.push(' ');
        }
        let mut n = value_name_chars(vs[i]);
        out.append(&mut n);
        proof {
            lemma_value_list_step(vs@, i as int);
            if i == 0 {
                if vs@.len() == 1 {
                    assert(out@ =~= render_value_list(vs@));
                } else {
                    assert(render_value_list(vs@) =~= out@ + seq![',', ' '] + render_value_list(
                        vs@.subrange(1, vs@.len() as int),
                    ));
                }
            } else {
                if i + 1 < vs@.len() {
                    assert(render_value_list(vs@) =~= out@ + seq![',', ' '] + render_value_list(
                        vs@.subrange(i + 1, vs@.len() as int),
                    ));
                } else {
                    assert(out@ =~= render_value_list(vs@));
                }
            }
        }
        i = i + 1;
    }
    proof {
        if vs@.len() == 0 {
            assert(out@ =~= render_value_list(vs@));
        }
    }
    out
}

proof fn lemma_value_list_step(vs: Seq<Value>, i: int)
    requires
        0 <= i < vs.len(),
    ensures
        i + 1 < vs.len() ==> render_value_list(vs.subrange(i, vs.len() as int))
            =~= render_value_name(vs[i]) + seq![',', ' '] + render_value_list(
            vs.subrange(i + 1, vs.len() as int),
        ),
        i + 1 == vs.len() ==> render_value_list(vs.subrange(i, vs.len() as int))
            =~= render_value_name(vs[i]),
        render_value_list(vs.subrange(0, vs.len() as int)) == render_value_list(vs),
{
    let rest = vs.subrange(i, vs.len() as int);
    assert(rest[0] == vs[i]);
    if i + 1 < vs.len() {
        assert(rest.subrange(1, rest.len() as int) =~= vs.subrange(i + 1, vs.len() as int));
    }
    assert(vs.subrange(0, vs.len() as int) =~= vs);
}

fn type_list_chars(ts: &Vec<crate::types::Type>) -> (r: Vec<char>)
    ensures
        r@ == render_type_list(crate::context::type_views(ts@)),
{
    let ghost tvs = crate::context::type_views(ts@);
    let mut out: Vec<char> = Vec::new();
    let mut i: usize = 0;
    while i < ts.len()
        invariant
            0 <= i <= tvs.len(),
            tvs == crate::context::type_views(ts@),
            i == 0 ==> out@ =~= Seq::<char>::empty(),
            0 < i < tvs.len() ==> render_type_list(tvs) =~= out@ + seq![',', ' ']
                + render_type_list(tvs.subrange(i as int, tvs.len() as int)),
            i > 0 && i == tvs.len() ==> out@ =~= render_type_list(tvs),
        decreases tvs.len() - i,
    {
        if i > 0 {
            out.push(',');
            out.push(' ');
        }
        let mut n = type_chars(&ts[i]);
        out.append(&mut n);
        proof {
            assert(tvs[i as int] == ts@[i as int]@);
            lemma_type_list_step(tvs, i as int);
            if i == 0 {
                if tvs.len() == 1 {
                    assert(out@ =~= render_type_list(tvs));
                } else {
                    assert(render_type_list(tvs) =~= out@ + seq![',', ' '] + render_type_list(
                        tvs.subrange(1, tvs.len() as int),
                    ));
                }
            } else {
                if i + 1 < tvs.len() {
                    assert(render_type_list(tvs) =~= out@ + seq![',', ' '] + render_type_list(
                        tvs.subrange(i + 1, tvs.len() as int),
                    ));
                } else {
                    assert(out@ =~= render_type_list(tvs));
                }
            }
        }
        i = i + 1;
    }
    proof {
        if tvs.len() == 0 {
            assert(out@ =~= render_type_list(tvs));
        }
    }
    out
}

proof fn lemma_type_list_step(ts: Seq<TypeV>, i: int)
    requires
        0 <= i < ts.len(),
    ensures
        i + 1 < ts.len() ==> render_type_list(ts.subrange(i, ts.len() as int)) =~= render_type(
            ts[i],
        ) + seq![',', ' '] + render_type_list(ts.subrange(i + 1, ts.len() as int)),
        i + 1 == ts.len() ==> render_type_list(ts.subrange(i, ts.len() as int)) =~= render_type(
            ts[i],
        ),
{
    let rest = ts.subrange(i, ts.len() as int);
    assert(rest[0] == ts[i]);
    if i + 1 < ts.len() {
        assert(rest.subrange(1, rest.len() as int) =~= ts.subrange(i + 1, ts.len() as int));
    }
}

} // verus!

verus! {

fn succ_list_chars(ss: &Vec<usize>) -> (r: Vec<char>)
    ensures
        r@ == render_succ_list(ss@),
{
    let mut out: Vec<char> = Vec::new();
    let mut i: usize = 0;
    while i < ss.len()
        invariant
            0 <= i <= ss@.len(),
            i == 0 ==> out@ =~= Seq::<char>::empty(),
            0 < i < ss@.len() ==> render_succ_list(ss@) =~= out@ + seq![',', ' ']
                + render_succ_list(ss@.subrange(i as int, ss@.len() as int)),
            i > 0 && i == ss@.len() ==> out@ =~= render_succ_list(ss@),
        decreases ss@.len() - i,
    {
        if i > 0 {
            out.push(',');
            out.push(' ');
        }
        out.push('^');
        out.push('b');
        let mut d = u64_to_chars(ss[i] as u64);
        out.append(&mut d);
        proof {
            let rest = ss@.subrange(i as int, ss@.len() as int);
            assert(rest[0] == ss@[i as int]);
            if i + 1 < ss@.len() {
                assert(rest.subrange(1, rest.len() as int) =~= ss@.subrange(
                    i + 1,
                    ss@.len() as int,
                ));
                assert(render_succ_list(rest) =~= seq!['^', 'b'] + dec_rep(ss@[i as int] as nat)
                    + seq![',', ' '] + render_succ_list(ss@.subrange(i + 1, ss@.len() as int)));
            } else {
                assert(render_succ_list(rest) =~= seq!['^', 'b'] + dec_rep(ss@[i as int] as nat));
            }
            if i == 0 {
                if ss@.len() == 1 {
                    assert(out@ =~= render_succ_list(ss@));
                } else {
                    assert(render_succ_list(ss@) =~= out@ + seq![',', ' '] + render_succ_list(
                        ss@.subrange(1, ss@.len() as int),
                    ));
                }
            } else {
                if i + 1 < ss@.len() {
                    assert(render_succ_list(ss@) =~= out@ + seq![',', ' '] + render_succ_list(
                        ss@.subrange(i + 1, ss@.len() as int),
                    ));
                } else {
                    assert(out@ =~= render_succ_list(ss@));
                }
            }
        }
        i = i + 1;
    }
    proof {
        if ss@.len() == 0 {
            assert(out@ =~= render_succ_list(ss@));
        }
    }
    out
}

fn attr_list_chars(ctx: &Context, attrs: &Vec<AttrPair>) -> (r: Vec<char>)
    requires
        ctx@.wf(),
        forall|j: int|
            0 <= j < attrs@.len() ==> (#[trigger] attrs@[j]).key < ctx@.strings.len(),
    ensures
        r@ == render_attr_list(ctx@, crate::context::attr_views(attrs@)),
{
    let ghost avs = crate::context::attr_views(attrs@);
    let mut out: Vec<char> = Vec::new();
    let mut i: usize = 0;
    while i < attrs.len()
        invariant
            ctx@.wf(),
            forall|j: int|
                0 <= j < attrs@.len() ==> (#[trigger] attrs@[j]).key < ctx@.strings.len(),
            avs == crate::context::attr_views(attrs@),
            0 <= i <= avs.len(),
            i == 0 ==> out@ =~= Seq::<char>::empty(),
            0 < i < avs.len() ==> render_attr_list(ctx@, avs) =~= out@ + seq![',', ' ']
                + render_attr_list(ctx@, avs.subrange(i as int, avs.len() as int)),
            i > 0 && i == avs.len() ==> out@ =~= render_attr_list(ctx@, avs),
        decreases avs.len() - i,
    {
        if i > 0 {
            out.push(',');
            out.push(' ');
        }
        let key = attrs[i].key;
        let key_text = crate::strings::StringRef { id: key };
        let mut kc = crate::chars::string_to_chars(ctx.lookup(key_text));
        out.append(&mut kc);
        out.push(' ');
        out.push('=');
        out.push(' ');
        let mut vc = crate::chars::string_to_chars(attrs[i].attribute.text.as_str());
        out.append(&mut vc);
        proof {
            assert(avs[i as int] == attrs@[i as int]@);
            let rest = avs.subrange(i as int, avs.len() as int);
            assert(rest[0] == avs[i as int]);
            if i + 1 < avs.len() {
                assert(rest.subrange(1, rest.len() as int) =~= avs.subrange(
                    i + 1,
                    avs.len() as int,
                ));
                assert(render_attr_list(ctx@, rest) =~= render_attr(ctx@, avs[i as int]) + seq![
                    ',',
                    ' ',
                ] + render_attr_list(ctx@, avs.subrange(i + 1, avs.len() as int)));
            } else {
                assert(render_attr_list(ctx@, rest) =~= render_attr(ctx@, avs[i as int]));
            }
            if i == 0 {
                if avs.len() == 1 {
                    assert(out@ =~= render_attr_list(ctx@, avs));
                } else {
                    assert(render_attr_list(ctx@, avs) =~= out@ + seq![',', ' ']
                        + render_attr_list(ctx@, avs.subrange(1, avs.len() as int)));
                }
            } else {
                if i + 1 < avs.len() {
                    assert(render_attr_list(ctx@, avs) =~= out@ + seq![',', ' ']
                        + render_attr_list(ctx@, avs.subrange(i + 1, avs.len() as int)));
                } else {
                    assert(out@ =~= render_attr_list(ctx@, avs));
                }
            }
        }
        i = i + 1;
    }
    proof {
        if avs.len() == 0 {
            assert(out@ =~= render_attr_list(ctx@, avs));
        }
    }
    out
}

fn result_names_chars(op: usize, n: usize) -> (r: Vec<char>)
    ensures
        r@ == result_names(op, n as nat),
{
    let mut out: Vec<char> = Vec::new();
    let mut i: usize = 0;
    while i < n
        invariant
            0 <= i <= n,
            out@ == result_names(op, i as nat),
        decreases n - i,
    {
        if i > 0 {
            out.push(',');
            out.push(' ');
        }
        let mut c = value_name_chars(Value::OperationResult { operation: op, position: i });
        out.append(&mut c);
        proof {
            if i == 0 {
                assert(out@ =~= result_names(op, 1nat));
            } else {
                assert(out@ =~= result_names(op, (i + 1) as nat));
            }
        }
        i = i + 1;
    }
    out
}

fn arg_names_chars(args: &Vec<BlockArg>) -> (r: Vec<char>)
    ensures
        r@ == render_arg_names(crate::context::arg_views(args@), args@.len()),
{
    let ghost avs = crate::context::arg_views(args@);
    let mut out: Vec<char> = Vec::new();
    let mut i: usize = 0;
    while i < args.len()
        invariant
            avs == crate::context::arg_views(args@),
            0 <= i <= avs.len(),
            out@ == render_arg_names(avs, i as nat),
        decreases avs.len() - i,
    {
        if i == 0 {
            out.push('%');
            out.push('a');
            out.push('0');
            out.push(':');
            out.push(' ');
        } else {
            out.push(',');
            out.push(' ');
            out.push('%');
            out.push('a');
            let mut d = u64_to_chars(i as u64);
            out.append(&mut d);
            out.push(':');
            out.push(' ');
        }
        let mut t = type_chars(&args[i].ty);
        out.append(&mut t);
        proof {
            assert(avs[i as int] == args@[i as int]@);
            if i == 0 {
                assert(out@ =~= render_arg_names(avs, 1nat));
            } else {
                assert(out@ =~= render_arg_names(avs, (i + 1) as nat));
            }
        }
        i = i + 1;
    }
    out
}

fn push_type(v: &mut Vec<crate::types::Type>, t: crate::types::Type)
    ensures
        crate::context::type_views(final(v)@) == crate::context::type_views(old(v)@).push(t@),
{
    v.push(t);
    proof {
        let a = crate::context::type_views(old(v)@);
        let b = crate::context::type_views(v@);
        assert(v@ == old(v)@.push(t));
        assert forall|j: int| 0 <= j < b.len() implies b[j] == a.push(t@)[j] by {
            if j < a.len() {
                assert(v@[j] == old(v)@[j]);
            } else {
                assert(v@[j] == t);
            }
        }
        assert(b =~= a.push(t@));
    }
}

fn operand_types_vec(ctx: &Context, operands: &Vec<Value>) -> (r: Vec<crate::types::Type>)
    requires
        ctx@.wf(),
        forall|j: int| 0 <= j < operands@.len() ==> ctx@.valid_value(#[trigger] operands@[j]),
    ensures
        crate::context::type_views(r@) == operand_types(ctx@, operands@),
{
    let mut otys: Vec<crate::types::Type> = Vec::new();
    let mut i: usize = 0;
    while i < operands.len()
        invariant
            ctx@.wf(),
            forall|j: int| 0 <= j < operands@.len() ==> ctx@.valid_value(#[trigger] operands@[j]),
            0 <= i <= operands@.len(),
            crate::context::type_views(otys@) =~= operand_types(ctx@, operands@).subrange(
                0,
                i as int,
            ),
        decreases operands@.len() - i,
    {
        let t = ctx.value_type(operands[i]);
        let ghost tv = t@;
        let ghost oldviews = crate::context::type_views(otys@);
        push_type(&mut otys, t);
        proof {
            assert(operand_types(ctx@, operands@)[i as int] == ctx@.value_type(
                operands@[i as int],
            ));
            assert(crate::context::type_views(otys@) == oldviews.push(tv));
            assert(crate::context::type_views(otys@) =~= operand_types(ctx@, operands@).subrange(
                0,
                i + 1,
            ));
        }
        i = i + 1;
    }
    proof {
        assert(operand_types(ctx@, operands@).subrange(
            0,
            operand_types(ctx@, operands@).len() as int,
        ) =~= operand_types(ctx@, operands@));
        assert(crate::context::type_views(otys@) =~= operand_types(ctx@, operands@));
    }
    otys
}

/// The part of the headline before the signature.
pub open spec fn headline_front(cv: ContextV, op: int) -> Seq<char> {
    let o = cv.op_at(op);
    results_prefix(op as usize, o.result_types.len()) + seq!['"'] + cv.strings[o.name as int]
        + seq!['"', '('] + render_value_list(o.operands) + seq![')'] + render_succs(o.successors)
        + render_attrs(cv, o.attrs)
}

proof fn lemma_headline_parts(cv: ContextV, op: int)
    ensures
        headline(cv, op) == headline_front(cv, op) + (seq![' ', ':', ' ', '('] + render_type_list(
            operand_types(cv, cv.op_at(op).operands),
        ) + seq![')', ' ', '-', '>', ' ', '('] + render_type_list(cv.op_at(op).result_types) + seq![
            ')',
        ]),
{
    assert(headline(cv, op) =~= headline_front(cv, op) + (seq![' ', ':', ' ', '(']
        + render_type_list(operand_types(cv, cv.op_at(op).operands)) + seq![
        ')',
        ' ',
        '-',
        '>',
        ' ',
        '(',
    ] + render_type_list(cv.op_at(op).result_types) + seq![')']));
}

#[verifier::rlimit(60)]
fn headline_front_chars(ctx: &Context, op: usize) -> (r: Vec<char>)
    requires
        ctx@.wf(),
        ctx@.is_op(op as int),
    ensures
        r@ == headline_front(ctx@, op as int),
{
    proof {
        assert(ctx@.wf_node(op as int));
    }
    let node = ctx.op_node(op);
    let mut out: Vec<char> = Vec::new();
    // Binding prefix.
    if node.result_types.len() > 0 {
        let mut names = result_names_chars(op, node.result_types.len());
        out.append(&mut names);
        out.push(' ');
        out.push('=');
        out.push(' ');
    }
    proof {
        assert(out@ =~= results_prefix(op, ctx@.op_at(op as int).result_types.len()));
    }
    // Name and operands.
    out.push('"');
    let name_ref = crate::strings::StringRef { id: node.name };
    let mut nc = crate::chars::string_to_chars(ctx.lookup(name_ref));
    out.append(&mut nc);
    out.push('"');
    out.push('(');
    let mut ops_c = value_list_chars(&node.operands);
    out.append(&mut ops_c);
    out.push(')');
    let ghost o = ctx@.op_at(op as int);
    let ghost part1 = results_prefix(op, o.result_types.len()) + seq!['"'] + ctx@.strings[o.name as int]
        + seq!['"', '('] + render_value_list(o.operands) + seq![')'];
    proof {
        assert(out@ =~= part1);
    }
    // Successors and attributes.
    if node.successors.len() > 0 {
        out.push(' ');
        out.push('[');
        let mut sc = succ_list_chars(&node.successors);
        out.append(&mut sc);
        out.push(']');
    }
    if node.attrs.len() > 0 {
        out.push(' ');
        out.push('{');
        proof {
            assert forall|j: int|
                0 <= j < node.attrs@.len() implies (#[trigger] node.attrs@[j]).key
                < ctx@.strings.len() by {
                assert(ctx@.op_at(op as int).attrs[j] == node.attrs@[j]@);
            }
        }
        let mut ac = attr_list_chars(ctx, &node.attrs);
        out.append(&mut ac);
        out.push('}');
    }
    proof {
        assert(out@ =~= part1 + render_succs(o.successors) + render_attrs(ctx@, o.attrs));
        assert(out@ =~= headline_front(ctx@, op as int));
    }
    out
}

#[verifier::rlimit(60)]
fn headline_chars(ctx: &Context, op: usize) -> (r: Vec<char>)
    requires
        ctx@.wf(),
        ctx@.is_op(op as int),
    ensures
        r@ == headline(ctx@, op as int),
{
    proof {
        assert(ctx@.wf_node(op as int));
    }
    let node = ctx.op_node(op);
    let mut out = headline_front_chars(ctx, op);
    let ghost o = ctx@.op_at(op as int);
    let ghost part2 = headline_front(ctx@, op as int);
    // The signature.
    out.push(' ');
    out.push(':');
    out.push(' ');
    out.push('(');
    proof {
        assert forall|j: int|
            0 <= j < node.operands@.len() implies ctx@.valid_value(
            #[trigger] node.operands@[j],
        ) by {
            assert(ctx@.wf_node(op as int));
            assert(ctx@.op_at(op as int).operands[j] == node.operands@[j]);
        }
    }
    let otys = operand_types_vec(ctx, &node.operands);
    let mut otc = type_list_chars(&otys);
    out.append(&mut otc);
    out.push(')');
    let ghost part3 = part2 + seq![' ', ':', ' ', '('] + render_type_list(
        operand_types(ctx@, o.operands),
    ) + seq![')'];
    proof {
        assert(out@ =~= part3);
    }
    out.push(' ');
    out.push('-');
    out.push('>');
    out.push(' ');
    out.push('(');
    let mut rtc = type_list_chars(&node.result_types);
    out.append(&mut rtc);
    out.push(')');
    proof {
        lemma_headline_parts(ctx@, op as int);
        assert(out@ =~= part3 + seq![' ', '-', '>', ' ', '('] + render_type_list(o.result_types)
            + seq![')']);
        assert(out@ =~= headline(ctx@, op as int));
    }
    out
}

} // verus!

verus! {

fn is_plain_module_exec(ctx: &Context, op: usize) -> (r: bool)
    requires
        ctx@.wf(),
        ctx@.is_op(op as int),
    ensures
        r == plain_module(ctx@, op as int),
{
    proof {
        assert(ctx@.wf_node(op as int));
    }
    let node = ctx.op_node(op);
    if node.regions.len() != 1 || node.attrs.len() != 0 || node.operands.len() != 0
        || node.result_types.len() != 0 || node.successors.len() != 0 {
        return false;
    }
    let want: String = "builtin.module".to_owned();
    if !(ctx.strings[node.name] == want) {
        return false;
    }
    let reg = node.regions[0];
    proof {
        assert(ctx@.is_region(reg as int));
        assert(ctx@.wf_node(reg as int));
    }
    let rn = ctx.region_node(reg);
    if rn.blocks.len() != 1 {
        return false;
    }
    let blk = rn.blocks[0];
    proof {
        assert(ctx@.is_block(blk as int));
    }
    let bn = ctx.block_node(blk);
    bn.args.len() == 0
}

#[verifier::rlimit(100)]
fn block_text_chars(ctx: &Context, blk: usize, pos: usize, ind: usize) -> (r: Vec<char>)
    requires
        ctx@.wf(),
        ctx@.is_block(blk as int),
        ind + 4 * node_measure(ctx@, blk as int) <= usize::MAX - 8,
    ensures
        r@ == render_block(ctx@, blk as int, pos as nat, ind as nat),
    decreases node_measure(ctx@, blk as int),
{
    proof {
        assert(ctx@.wf_node(blk as int));
        crate::context::lemma_measure_nonneg(ctx@, blk as int);
    }
    let node = ctx.block_node(blk);
    let mut out = indent_chars(ind + 2);
    out.push('^');
    out.push('b');
    out.push('b');
    let mut p = u64_to_chars(pos as u64);
    out.append(&mut p);
    if node.args.len() > 0 {
        out.push('(');
        let mut an = arg_names_chars(&node.args);
        out.append(&mut an);
        out.push(')');
    }
    out.push(':');
    out.push('\n');
    let ghost label = indent_sp((ind + 2) as nat) + seq!['^', 'b', 'b'] + dec_rep(pos as nat)
        + render_block_args(ctx@.block_at(blk as int).args) + seq![':', '\n'];
    proof {
        assert(ctx@.block_at(blk as int).args == crate::context::arg_views(node.args@));
        assert(out@ =~= label);
    }
    let n = node.ops.len();
    let mut k: usize = 0;
    while k < n
        invariant
            ctx@.wf(),
            ctx@.is_block(blk as int),
            node@ == ctx@.block_at(blk as int),
            n == node.ops@.len(),
            ind + 4 * node_measure(ctx@, blk as int) <= usize::MAX - 8,
            node_measure(ctx@, blk as int) >= 0,
            0 <= k <= n,
            label == indent_sp((ind + 2) as nat) + seq!['^', 'b', 'b'] + dec_rep(pos as nat)
                + render_block_args(ctx@.block_at(blk as int).args) + seq![':', '\n'],
            out@ + render_ops_list(ctx@, blk as int, k as int, (ind + 4) as nat) =~= label
                + render_ops_list(ctx@, blk as int, 0, (ind + 4) as nat),
        decreases n - k,
    {
        let child = node.ops[k];
        proof {
            assert(ctx@.wf_node(blk as int));
            assert(ctx@.block_at(blk as int).ops[k as int] == node.ops@[k as int]);
            assert(ctx@.is_op(child as int));
            lemma_child_measure(ctx@, child as int, blk as int);
        }
        let mut c = op_text_chars(ctx, child, ind + 4);
        let ghost oldout = out@;
        out.append(&mut c);
        proof {
            assert(render_ops_list(ctx@, blk as int, k as int, (ind + 4) as nat) == render_op(
                ctx@,
                child as int,
                (ind + 4) as nat,
            ) + render_ops_list(ctx@, blk as int, k + 1, (ind + 4) as nat));
            assert(out@ + render_ops_list(ctx@, blk as int, k + 1, (ind + 4) as nat) =~= label
                + render_ops_list(ctx@, blk as int, 0, (ind + 4) as nat));
        }
        k = k + 1;
    }
    proof {
        assert(render_ops_list(ctx@, blk as int, n as int, (ind + 4) as nat) =~= Seq::<
            char,
        >::empty());
        assert(out@ =~= label + render_ops_list(ctx@, blk as int, 0, (ind + 4) as nat));
        assert(out@ =~= render_block(ctx@, blk as int, pos as nat, ind as nat));
    }
    out
}

/// Renders an operation at an indentation depth.
#[verifier::rlimit(100)]
pub fn op_text_chars(ctx: &Context, op: usize, ind: usize) -> (r: Vec<char>)
    requires
        ctx@.wf(),
        ctx@.is_op(op as int),
        ind + 4 * node_measure(ctx@, op as int) <= usize::MAX - 8,
    ensures
        r@ == render_op(ctx@, op as int, ind as nat),
    decreases node_measure(ctx@, op as int),
{
    proof {
        crate::context::lemma_measure_nonneg(ctx@, op as int);
    }
    if is_plain_module_exec(ctx, op) {
        let node = ctx.op_node(op);
        let reg = node.regions[0];
        proof {
            assert(ctx@.wf_node(op as int));
            assert(ctx@.is_region(reg as int));
            assert(ctx@.wf_node(reg as int));
            lemma_child_measure(ctx@, reg as int, op as int);
        }
        let blk = ctx.region_node(reg).blocks[0];
        proof {
            assert(ctx@.is_block(blk as int));
            lemma_child_measure(ctx@, blk as int, reg as int);
            assert(ctx@.wf_node(blk as int));
        }
        let mut out = indent_chars(ind);
        out.push('m');
        out.push('o');
        out.push('d');
        out.push('u');
        out.push('l');
        out.push('e');
        out.push(' ');
        out.push('{');
        out.push('\n');
        let ghost header = indent_sp(ind as nat) + seq!['m', 'o', 'd', 'u', 'l', 'e', ' ', '{', '\n'];
        proof {
            assert(out@ =~= header);
        }
        let bn = ctx.block_node(blk);
        let n = bn.ops.len();
        let mut k: usize = 0;
        while k < n
            invariant
                ctx@.wf(),
                ctx@.is_op(op as int),
                ctx@.is_block(blk as int),
                bn@ == ctx@.block_at(blk as int),
                n == bn.ops@.len(),
                ind + 4 * node_measure(ctx@, op as int) <= usize::MAX - 8,
                node_measure(ctx@, blk as int) >= 0,
                node_measure(ctx@, blk as int) + 2 <= node_measure(ctx@, op as int),
                0 <= k <= n,
                header == indent_sp(ind as nat) + seq!['m', 'o', 'd', 'u', 'l', 'e', ' ', '{', '\n'],
                out@ + render_ops_list(ctx@, blk as int, k as int, (ind + 2) as nat) =~= header
                    + render_ops_list(ctx@, blk as int, 0, (ind + 2) as nat),
            decreases n - k,
        {
            let child = bn.ops[k];
            proof {
                assert(ctx@.wf_node(blk as int));
                assert(ctx@.block_at(blk as int).ops[k as int] == bn.ops@[k as int]);
                assert(ctx@.is_op(child as int));
                lemma_child_measure(ctx@, child as int, blk as int);
            }
            let mut c = op_text_chars(ctx, child, ind + 2);
            out.append(&mut c);
            proof {
                assert(render_ops_list(ctx@, blk as int, k as int, (ind + 2) as nat) == render_op(
                    ctx@,
                    child as int,
                    (ind + 2) as nat,
                ) + render_ops_list(ctx@, blk as int, k + 1, (ind + 2) as nat));
                assert(out@ + render_ops_list(ctx@, blk as int, k + 1, (ind + 2) as nat) =~= header
                    + render_ops_list(ctx@, blk as int, 0, (ind + 2) as nat));
            }
            k = k + 1;
        }
        let mut tail = indent_chars(ind);
        out.append(&mut tail);
        out.push('}');
        out.push('\n');
        proof {
            assert(render_ops_list(ctx@, blk as int, n as int, (ind + 2) as nat) =~= Seq::<
                char,
            >::empty());
            assert(out@ =~= header + render_ops_list(ctx@, blk as int, 0, (ind + 2) as nat)
                + indent_sp(ind as nat) + seq!['}', '\n']);
            assert(out@ =~= render_op(ctx@, op as int, ind as nat));
        }
        out
    } else {
        let mut out = indent_chars(ind);
        let mut h = headline_chars(ctx, op);
        out.append(&mut h);
        let ghost front = indent_sp(ind as nat) + headline(ctx@, op as int);
        proof {
            assert(out@ =~= front);
        }
        let node = ctx.op_node(op);
        let n = node.regions.len();
        let mut k: usize = 0;
        while k < n
            invariant
                ctx@.wf(),
                ctx@.is_op(op as int),
                node@ == ctx@.op_at(op as int),
                n == node.regions@.len(),
                ind + 4 * node_measure(ctx@, op as int) <= usize::MAX - 8,
                node_measure(ctx@, op as int) >= 0,
                0 <= k <= n,
                front == indent_sp(ind as nat) + headline(ctx@, op as int),
                out@ + render_region_list(ctx@, op as int, k as int, ind as nat) =~= front
                    + render_region_list(ctx@, op as int, 0, ind as nat),
            decreases n - k,
        {
            let reg = node.regions[k];
            proof {
                assert(ctx@.wf_node(op as int));
                assert(ctx@.op_at(op as int).regions[k as int] == node.regions@[k as int]);
                assert(ctx@.is_region(reg as int));
                lemma_child_measure(ctx@, reg as int, op as int);
                assert(ctx@.wf_node(reg as int));
            }
            out.push(' ');
            out.push('{');
            out.push('\n');
            let ghost atregion = out@;
            let rn = ctx.region_node(reg);
            let bcount = rn.blocks.len();
            let mut b: usize = 0;
            while b < bcount
                invariant
                    ctx@.wf(),
                    ctx@.is_region(reg as int),
                    rn@ == ctx@.region_at(reg as int),
                    bcount == rn.blocks@.len(),
                    ind + 4 * node_measure(ctx@, reg as int) <= usize::MAX - 8,
                    node_measure(ctx@, reg as int) >= 0,
                    node_measure(ctx@, reg as int) < node_measure(ctx@, op as int),
                    0 <= b <= bcount,
                    out@ + render_block_list(ctx@, reg as int, b as int, ind as nat) =~= atregion
                        + render_block_list(ctx@, reg as int, 0, ind as nat),
                decreases bcount - b,
            {
                let blk = rn.blocks[b];
                proof {
                    assert(ctx@.wf_node(reg as int));
                    assert(ctx@.region_at(reg as int).blocks[b as int] == rn.blocks@[b as int]);
                    assert(ctx@.is_block(blk as int));
                    lemma_child_measure(ctx@, blk as int, reg as int);
                }
                let mut bc = block_text_chars(ctx, blk, b, ind);
                out.append(&mut bc);
                proof {
                    assert(render_block_list(ctx@, reg as int, b as int, ind as nat)
                        == render_block(ctx@, blk as int, b as nat, ind as nat)
                        + render_block_list(ctx@, reg as int, b + 1, ind as nat));
                    assert(out@ + render_block_list(ctx@, reg as int, b + 1, ind as nat)
                        =~= atregion + render_block_list(ctx@, reg as int, 0, ind as nat));
                }
                b = b + 1;
            }
            let mut tail = indent_chars(ind);
            out.append(&mut tail);
            out.push('}');
            proof {
                assert(render_block_list(ctx@, reg as int, bcount as int, ind as nat) =~= Seq::<
                    char,
                >::empty());
                assert(out@ =~= atregion + render_block_list(ctx@, reg as int, 0, ind as nat)
                    + indent_sp(ind as nat) + seq!['}']);
                assert(render_region_list(ctx@, op as int, k as int, ind as nat) == seq![
                    ' ',
                    '{',
                    '\n',
                ] + render_block_list(ctx@, reg as int, 0, ind as nat) + indent_sp(ind as nat)
                    + seq!['}'] + render_region_list(ctx@, op as int, k + 1, ind as nat));
                assert(out@ + render_region_list(ctx@, op as int, k + 1, ind as nat) =~= front
                    + render_region_list(ctx@, op as int, 0, ind as nat));
            }
            k = k + 1;
        }
        out.push('\n');
        proof {
            assert(render_region_list(ctx@, op as int, n as int, ind as nat) =~= seq!['\n']);
            assert(out@ =~= front + render_region_list(ctx@, op as int, 0, ind as nat));
            assert(out@ =~= render_op(ctx@, op as int, ind as nat));
        }
        out
    }
}

} // verus!

verus! {

use crate::ancestry::lemma_depth_exists;
use crate::block::{Block, BlockRef};
use crate::location::LocationV;

/// The measure fits the machine when the arena does.
proof fn lemma_top_measure(cv: ContextV, n: int)
    requires
        cv.wf(),
        0 <= n < cv.nodes.len(),
        4 * cv.nodes.len() + 16 <= usize::MAX,
    ensures
        0 + 4 * node_measure(cv, n) <= usize::MAX - 8,
        node_measure(cv, n) >= 0,
{
    crate::context::lemma_measure_nonneg(cv, n);
    assert(crate::ancestry::terminates(cv.pm(), n));
    lemma_depth_exists(cv.pm(), n);
}

impl OperationRef {
    /// The deterministic textual form of the operation.
    pub fn to_text(&self, ctx: &Context) -> (r: String)
        requires
            ctx@.wf(),
            ctx@.is_op(self.id as int),
            4 * ctx@.nodes.len() + 16 <= usize::MAX,
        ensures
            r@ == render_op(ctx@, self.id as int, 0),
    {
        proof {
            lemma_top_measure(ctx@, self.id as int);
        }
        let cs = op_text_chars(ctx, self.id, 0);
        chars_to_string(&cs)
    }

    /// The textual form with source locations: the location of the operation
    /// follows its line, with a location table below.
    #[verifier::rlimit(100)]
    pub fn debug_text(&self, ctx: &Context) -> (r: String)
        requires
            ctx@.wf(),
            ctx@.is_op(self.id as int),
            4 * ctx@.nodes.len() + 16 <= usize::MAX,
        ensures
            r@ == debug_render(ctx@, self.id as int),
    {
        proof {
            lemma_top_measure(ctx@, self.id as int);
            assert(ctx@.wf_node(self.id as int));
        }
        let node = ctx.op_node(self.id);
        let plainloc = match &node.location {
            crate::location::Location::FileLineCol { .. } => true,
            crate::location::Location::Unknown => false,
        };
        if node.regions.len() == 0 && plainloc {
            let mut out = headline_chars(ctx, self.id);
            out.push(' ');
            out.push('l');
            out.push('o');
            out.push('c');
            out.push('(');
            out.push('#');
            out.push('l');
            out.push('o');
            out.push('c');
            out.push(')');
            out.push('\n');
            out.push('#');
            out.push('l');
            out.push('o');
            out.push('c');
            out.push(' ');
            out.push('=');
            out.push(' ');
            out.push('l');
            out.push('o');
            out.push('c');
            out.push('(');
            out.push('"');
            match &node.location {
                crate::location::Location::FileLineCol { filename, line, column } => {
                    let mut f = crate::chars::string_to_chars(filename.as_str());
                    out.append(&mut f);
                    out.push('"');
                    out.push(':');
                    let mut l = u64_to_chars(*line as u64);
                    out.append(&mut l);
                    out.push(':');
                    let mut c = u64_to_chars(*column as u64);
                    out.append(&mut c);
                },
                crate::location::Location::Unknown => {},
            }
            out.push(')');
            out.push('\n');
            proof {
                assert(out@ =~= debug_render(ctx@, self.id as int));
            }
            chars_to_string(&out)
        } else {
            let cs = op_text_chars(ctx, self.id, 0);
            chars_to_string(&cs)
        }
    }
}

/// The location-annotated text: for a regionless operation at a file
/// position, the line plus a one-entry location table; otherwise the plain
/// text.
pub open spec fn debug_render(cv: ContextV, op: int) -> Seq<char> {
    let o = cv.op_at(op);
    match o.location {
        LocationV::FileLineCol { filename, line, column } => if o.regions.len() == 0 {
            headline(cv, op) + seq![' ', 'l', 'o', 'c', '(', '#', 'l', 'o', 'c', ')', '\n', '#', 'l', 'o', 'c', ' ', '=', ' ', 'l', 'o', 'c', '(', '"'] + filename + seq!['"', ':']
                + dec_rep(line as nat) + seq![':'] + dec_rep(column as nat) + seq![')', '\n']
        } else {
            render_op(cv, op, 0)
        },
        LocationV::Unknown => render_op(cv, op, 0),
    }
}

impl Operation {
    /// The deterministic textual form of the operation.
    pub fn to_text(&self, ctx: &Context) -> (r: String)
        requires
            ctx@.wf(),
            ctx@.is_op(self.id as int),
            4 * ctx@.nodes.len() + 16 <= usize::MAX,
        ensures
            r@ == render_op(ctx@, self.id as int, 0),
    {
        self.as_ref().to_text(ctx)
    }

    /// The textual form with source locations.
    pub fn debug_text(&self, ctx: &Context) -> (r: String)
        requires
            ctx@.wf(),
            ctx@.is_op(self.id as int),
            4 * ctx@.nodes.len() + 16 <= usize::MAX,
        ensures
            r@ == debug_render(ctx@, self.id as int),
    {
        self.as_ref().debug_text(ctx)
    }
}

/// The placeholder text of a block that no operation reaches.
pub open spec fn unlinked_block_text() -> Seq<char> {
    seq![
        '<',
        '<',
        'U',
        'N',
        'L',
        'I',
        'N',
        'K',
        'E',
        'D',
        ' ',
        'B',
        'L',
        'O',
        'C',
        'K',
        '>',
        '>',
        '\n',
    ]
}

impl BlockRef {
    /// The textual form of the block: its label line and operations when it
    /// sits in a region of an operation, a placeholder when it is unlinked.
    pub fn to_text(&self, ctx: &Context) -> (r: String)
        requires
            ctx@.wf(),
            ctx@.is_block(self.id as int),
            4 * ctx@.nodes.len() + 16 <= usize::MAX,
        ensures
            ({
                let parent = ctx@.block_at(self.id as int).parent;
                match parent {
                    Some(reg) => ctx@.region_at(reg as int).parent is Some ==> r@ == render_block(
                        ctx@,
                        self.id as int,
                        crate::context::pos_of(
                            ctx@.region_at(reg as int).blocks,
                            self.id,
                        ) as nat,
                        0,
                    ),
                    None => r@ == unlinked_block_text(),
                }
            }),
    {
        proof {
            assert(ctx@.wf_node(self.id as int));
        }
        let reg = match ctx.block_node(self.id).parent {
            Some(reg) => reg,
            None => {
                let cs = unlinked_chars();
                return chars_to_string(&cs);
            },
        };
        proof {
            assert(ctx@.is_region(reg as int));
            assert(ctx@.wf_node(reg as int));
        }
        let attached = match ctx.region_node(reg).parent {
            Some(_) => true,
            None => false,
        };
        if !attached {
            let cs = unlinked_chars();
            return chars_to_string(&cs);
        }
        let pos = crate::block::index_of_block(ctx, reg, self.id);
        proof {
            lemma_top_measure(ctx@, self.id as int);
        }
        let cs = block_text_chars(ctx, self.id, pos, 0);
        chars_to_string(&cs)
    }
}

impl Block {
    /// The textual form of the block; an owned block is unlinked.
    pub fn to_text(&self, ctx: &Context) -> (r: String)
        requires
            ctx@.wf(),
            ctx@.is_block(self.id as int),
            ctx@.block_at(self.id as int).parent is None,
            4 * ctx@.nodes.len() + 16 <= usize::MAX,
        ensures
            r@ == unlinked_block_text(),
    {
        self.as_ref().to_text(ctx)
    }
}

fn unlinked_chars() -> (r: Vec<char>)
    ensures
        r@ == unlinked_block_text(),
{
    let mut out: Vec<char> = Vec::new();
    out.push('<');
    out.push('<');
    out.push('U');
    out.push('N');
    out.push('L');
    out.push('I');
    out.push('N');
    out.push('K');
    out.push('E');
    out.push('D');
    out.push(' ');
    out.push('B');
    out.push('L');
    out.push('O');
    out.push('C');
    out.push('K');
    out.push('>');
    out.push('>');
    out.push('\n');
    proof {
        assert(out@ =~= unlinked_block_text());
    }
    out
}

} // verus!

verus! {

impl Value {
    /// The printed name of the value: its handle coordinates.
    pub fn to_text(&self) -> (r: String)
        ensures
            r@ == render_value_name(*self),
    {
        let cs = value_name_chars(*self);
        chars_to_string(&cs)
    }
}

} // verus!
