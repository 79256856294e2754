//! The context: interning scope and owner of the node arena.
//!
//! Every operation, block and region lives in one arena held by a context.
//! Handles are indices into that arena, so a stale handle is a checked
//! lookup, never a dangling pointer.  Parent and child links are explicit
//! fields kept consistent in both directions; the well-formedness predicate
//! `ContextV::wf` states that consistency, together with termination of every
//! upward parent walk, which makes the arena a forest.

use crate::ancestry::terminates;
use crate::attr::Attribute;
use crate::chars::attr_text_ok;
use crate::location::{location_ok, Location, LocationV};
use crate::strings::{table_get, table_insert, table_map, table_new, StringRef, StringTable};
use crate::types::{type_ok, Type, TypeV};
use crate::value::Value;
use vstd::prelude::*;

verus! {

/// An attribute entry of an operation: an interned key and the attribute.
#[derive(Debug)]
pub struct AttrPair {
    pub key: usize,
    pub attribute: Attribute,
}

/// The mathematical value of an attribute entry.
#[verifier::ext_equal]
pub struct AttrPairV {
    pub key: usize,
    pub text: Seq<char>,
}

impl View for AttrPair {
    type V = AttrPairV;

    open spec fn view(&self) -> AttrPairV {
        AttrPairV { key: self.key, text: self.attribute@ }
    }
}

impl Clone for AttrPair {
    fn clone(&self) -> (r: AttrPair)
        ensures
            r@ == self@,
    {
        AttrPair { key: self.key, attribute: self.attribute.clone() }
    }
}

/// A block argument: its type and the location it was introduced at.
#[derive(Debug)]
pub struct BlockArg {
    pub ty: Type,
    pub location: Location,
}

/// The mathematical value of a block argument.
#[verifier::ext_equal]
pub struct BlockArgV {
    pub ty: TypeV,
    pub location: LocationV,
}

impl View for BlockArg {
    type V = BlockArgV;

    open spec fn view(&self) -> BlockArgV {
        BlockArgV { ty: self.ty@, location: self.location@ }
    }
}

impl Clone for BlockArg {
    fn clone(&self) -> (r: BlockArg)
        ensures
            r@ == self@,
    {
        BlockArg { ty: self.ty.clone(), location: self.location.clone() }
    }
}

/// An operation node: name, attributes, operands, result types, owned
/// regions, successor blocks, and the owning block if attached.
#[derive(Debug)]
pub struct OpNode {
    pub name: usize,
    pub location: Location,
    pub attrs: Vec<AttrPair>,
    pub operands: Vec<Value>,
    pub result_types: Vec<Type>,
    pub regions: Vec<usize>,
    pub successors: Vec<usize>,
    pub parent: Option<usize>,
}

/// The mathematical value of an operation node.
#[verifier::ext_equal]
pub struct OpNodeV {
    pub name: usize,
    pub location: LocationV,
    pub attrs: Seq<AttrPairV>,
    pub operands: Seq<Value>,
    pub result_types: Seq<TypeV>,
    pub regions: Seq<usize>,
    pub successors: Seq<usize>,
    pub parent: Option<usize>,
}

/// The views of a list of types.
pub open spec fn type_views(s: Seq<Type>) -> Seq<TypeV> {
    Seq::new(s.len(), |i: int| s[i]@)
}

/// The views of a list of attribute entries.
pub open spec fn attr_views(s: Seq<AttrPair>) -> Seq<AttrPairV> {
    Seq::new(s.len(), |i: int| s[i]@)
}

/// The views of a list of block arguments.
pub open spec fn arg_views(s: Seq<BlockArg>) -> Seq<BlockArgV> {
    Seq::new(s.len(), |i: int| s[i]@)
}

impl View for OpNode {
    type V = OpNodeV;

    open spec fn view(&self) -> OpNodeV {
        OpNodeV {
            name: self.name,
            location: self.location@,
            attrs: attr_views(self.attrs@),
            operands: self.operands@,
            result_types: type_views(self.result_types@),
            regions: self.regions@,
            successors: self.successors@,
            parent: self.parent,
        }
    }
}

/// A block node: arguments, the ordered operation list, and the owning
/// region if attached.
#[derive(Debug)]
pub struct BlockNode {
    pub args: Vec<BlockArg>,
    pub ops: Vec<usize>,
    pub parent: Option<usize>,
}

/// The mathematical value of a block node.
#[verifier::ext_equal]
pub struct BlockNodeV {
    pub args: Seq<BlockArgV>,
    pub ops: Seq<usize>,
    pub parent: Option<usize>,
}

impl View for BlockNode {
    type V = BlockNodeV;

    open spec fn view(&self) -> BlockNodeV {
        BlockNodeV { args: arg_views(self.args@), ops: self.ops@, parent: self.parent }
    }
}

/// A region node: the ordered block list, and the owning operation if
/// attached.
#[derive(Debug)]
pub struct RegionNode {
    pub blocks: Vec<usize>,
    pub parent: Option<usize>,
}

/// The mathematical value of a region node.
#[verifier::ext_equal]
pub struct RegionNodeV {
    pub blocks: Seq<usize>,
    pub parent: Option<usize>,
}

impl View for RegionNode {
    type V = RegionNodeV;

    open spec fn view(&self) -> RegionNodeV {
        RegionNodeV { blocks: self.blocks@, parent: self.parent }
    }
}

/// A node of the arena.
#[derive(Debug)]
pub enum Node {
    Op(OpNode),
    Block(BlockNode),
    Region(RegionNode),
}

/// The mathematical value of a node.
#[verifier::ext_equal]
pub enum NodeV {
    Op(OpNodeV),
    Block(BlockNodeV),
    Region(RegionNodeV),
}

impl View for Node {
    type V = NodeV;

    open spec fn view(&self) -> NodeV {
        match self {
            Node::Op(o) => NodeV::Op(o@),
            Node::Block(b) => NodeV::Block(b@),
            Node::Region(r) => NodeV::Region(r@),
        }
    }
}

/// The views of a list of nodes.
pub open spec fn node_views(s: Seq<Node>) -> Seq<NodeV> {
    Seq::new(s.len(), |i: int| s[i]@)
}

/// The parent link of a node.
pub open spec fn parent_of(n: NodeV) -> Option<usize> {
    match n {
        NodeV::Op(o) => o.parent,
        NodeV::Block(b) => b.parent,
        NodeV::Region(r) => r.parent,
    }
}

/// An optional index, widened.
pub open spec fn opt_as_int(o: Option<usize>) -> Option<int> {
    match o {
        Some(u) => Some(u as int),
        None => None,
    }
}

/// A registered operation kind: expected result and region arities, and
/// whether the result type can be inferred from the first operand.
#[derive(Clone, Copy, Debug, PartialEq, Eq, Structural)]
pub struct KindInfo {
    pub name: usize,
    pub result_arity: Option<usize>,
    pub region_arity: Option<usize>,
    pub infer_from_operand: bool,
}

/// The uniquing scope and arena that all entities are created in.
pub struct Context {
    pub strings: Vec<String>,
    pub table: StringTable,
    pub nodes: Vec<Node>,
    pub kinds: Vec<KindInfo>,
    pub allow_unregistered: bool,
}

/// The mathematical value of a context.
#[verifier::ext_equal]
pub struct ContextV {
    pub strings: Seq<Seq<char>>,
    pub table: Map<Seq<char>, usize>,
    pub nodes: Seq<NodeV>,
    pub kinds: Seq<KindInfo>,
    pub allow_unregistered: bool,
}

/// The views of the interned strings.
pub open spec fn string_views(s: Seq<String>) -> Seq<Seq<char>> {
    Seq::new(s.len(), |i: int| s[i]@)
}

impl View for Context {
    type V = ContextV;

    open spec fn view(&self) -> ContextV {
        ContextV {
            strings: string_views(self.strings@),
            table: table_map(self.table),
            nodes: node_views(self.nodes@),
            kinds: self.kinds@,
            allow_unregistered: self.allow_unregistered,
        }
    }
}

impl ContextV {
    /// Node index validity.
    pub open spec fn valid(self, i: int) -> bool {
        0 <= i < self.nodes.len()
    }

    /// The node at `i` is an operation.
    pub open spec fn is_op(self, i: int) -> bool {
        self.valid(i) && self.nodes[i] is Op
    }

    /// The node at `i` is a block.
    pub open spec fn is_block(self, i: int) -> bool {
        self.valid(i) && self.nodes[i] is Block
    }

    /// The node at `i` is a region.
    pub open spec fn is_region(self, i: int) -> bool {
        self.valid(i) && self.nodes[i] is Region
    }

    /// The operation node at `i`.
    pub open spec fn op_at(self, i: int) -> OpNodeV {
        match self.nodes[i] {
            NodeV::Op(o) => o,
            _ => arbitrary(),
        }
    }

    /// The block node at `i`.
    pub open spec fn block_at(self, i: int) -> BlockNodeV {
        match self.nodes[i] {
            NodeV::Block(b) => b,
            _ => arbitrary(),
        }
    }

    /// The region node at `i`.
    pub open spec fn region_at(self, i: int) -> RegionNodeV {
        match self.nodes[i] {
            NodeV::Region(r) => r,
            _ => arbitrary(),
        }
    }

    /// The parent-link table of the arena.
    pub open spec fn pm(self) -> Map<int, Option<int>> {
        Map::new(
            |x: int| 0 <= x < self.nodes.len(),
            |x: int| opt_as_int(parent_of(self.nodes[x])),
        )
    }

    /// A value refers to an existing argument or result.
    pub open spec fn valid_value(self, v: Value) -> bool {
        match v {
            Value::BlockArgument { block, position } => self.is_block(block as int) && position
                < self.block_at(block as int).args.len(),
            Value::OperationResult { operation, position } => self.is_op(operation as int)
                && position < self.op_at(operation as int).result_types.len(),
        }
    }

    /// The type of a value, read off the entity that defines it.
    pub open spec fn value_type(self, v: Value) -> TypeV {
        match v {
            Value::BlockArgument { block, position } => self.block_at(
                block as int,
            ).args[position as int].ty,
            Value::OperationResult { operation, position } => self.op_at(
                operation as int,
            ).result_types[position as int],
        }
    }

    /// The interned strings are distinct and agree with the cache in both
    /// directions.
    pub open spec fn wf_strings(self) -> bool {
        &&& forall|i: int, j: int|
            0 <= i < j < self.strings.len() ==> #[trigger] self.strings[i] != #[trigger] self.strings[j]
        &&& forall|i: int|
            0 <= i < self.strings.len() ==> self.table.dom().contains(#[trigger] self.strings[i])
                && self.table[self.strings[i]] == i
        &&& forall|s: Seq<char>|
            #[trigger] self.table.dom().contains(s) ==> self.table[s] < self.strings.len()
                && self.strings[self.table[s] as int] == s
    }

    /// The registry holds each kind name at most once, under valid ids.
    pub open spec fn wf_kinds(self) -> bool {
        &&& forall|i: int|
            0 <= i < self.kinds.len() ==> (#[trigger] self.kinds[i]).name < self.strings.len()
        &&& forall|i: int, j: int|
            0 <= i < j < self.kinds.len() ==> (#[trigger] self.kinds[i]).name != (
            #[trigger] self.kinds[j]).name
    }

    /// Well-formedness of a single node: valid references, and parent and
    /// child links that agree in both directions.
    pub open spec fn wf_node(self, i: int) -> bool {
        match self.nodes[i] {
            NodeV::Op(o) => {
                &&& o.name < self.strings.len()
                &&& location_ok(o.location)
                &&& (o.parent matches Some(b) ==> self.is_block(b as int) && self.block_at(
                    b as int,
                ).ops.contains(i as usize))
                &&& forall|j: int|
                    0 <= j < o.regions.len() ==> self.is_region(#[trigger] o.regions[j] as int)
                        && self.region_at(o.regions[j] as int).parent == Some(i as usize)
                &&& forall|j1: int, j2: int|
                    0 <= j1 < j2 < o.regions.len() ==> #[trigger] o.regions[j1]
                        != #[trigger] o.regions[j2]
                &&& forall|j: int|
                    0 <= j < o.successors.len() ==> self.is_block(#[trigger] o.successors[j] as int)
                &&& forall|j: int|
                    0 <= j < o.operands.len() ==> self.valid_value(#[trigger] o.operands[j])
                &&& forall|j: int|
                    0 <= j < o.attrs.len() ==> (#[trigger] o.attrs[j]).key < self.strings.len()
                        && attr_text_ok(o.attrs[j].text)
                &&& forall|j1: int, j2: int|
                    0 <= j1 < j2 < o.attrs.len() ==> (#[trigger] o.attrs[j1]).key != (
                    #[trigger] o.attrs[j2]).key
                &&& forall|j: int|
                    0 <= j < o.result_types.len() ==> type_ok(#[trigger] o.result_types[j])
            },
            NodeV::Block(b) => {
                &&& (b.parent matches Some(r) ==> self.is_region(r as int) && self.region_at(
                    r as int,
                ).blocks.contains(i as usize))
                &&& forall|j: int|
                    0 <= j < b.ops.len() ==> self.is_op(#[trigger] b.ops[j] as int) && self.op_at(
                        b.ops[j] as int,
                    ).parent == Some(i as usize)
                &&& forall|j1: int, j2: int|
                    0 <= j1 < j2 < b.ops.len() ==> #[trigger] b.ops[j1] != #[trigger] b.ops[j2]
                &&& forall|j: int|
                    0 <= j < b.args.len() ==> type_ok((#[trigger] b.args[j]).ty) && location_ok(
                        b.args[j].location,
                    )
            },
            NodeV::Region(r) => {
                &&& (r.parent matches Some(o) ==> self.is_op(o as int) && self.op_at(
                    o as int,
                ).regions.contains(i as usize))
                &&& forall|j: int|
                    0 <= j < r.blocks.len() ==> self.is_block(#[trigger] r.blocks[j] as int)
                        && self.block_at(r.blocks[j] as int).parent == Some(i as usize)
                &&& forall|j1: int, j2: int|
                    0 <= j1 < j2 < r.blocks.len() ==> #[trigger] r.blocks[j1]
                        != #[trigger] r.blocks[j2]
            },
        }
    }

    /// Well-formedness of the whole arena.
    pub open spec fn wf(self) -> bool {
        &&& self.nodes.len() <= usize::MAX
        &&& self.wf_strings()
        &&& self.wf_kinds()
        &&& forall|i: int| 0 <= i < self.nodes.len() ==> self.wf_node(i)
        &&& forall|i: int| 0 <= i < self.nodes.len() ==> terminates(self.pm(), i)
    }

    /// Every owned node has at most one owner: if two regions both list a
    /// block, they are the same region; likewise for blocks and operations.
    pub open spec fn same_owner(self) -> bool {
        &&& forall|r1: int, r2: int, b: usize|
            self.is_region(r1) && self.is_region(r2) && #[trigger] self.region_at(
                r1,
            ).blocks.contains(b) && #[trigger] self.region_at(r2).blocks.contains(b) ==> r1 == r2
        &&& forall|b1: int, b2: int, o: usize|
            self.is_block(b1) && self.is_block(b2) && #[trigger] self.block_at(b1).ops.contains(o)
                && #[trigger] self.block_at(b2).ops.contains(o) ==> b1 == b2
        &&& forall|o1: int, o2: int, r: usize|
            self.is_op(o1) && self.is_op(o2) && #[trigger] self.op_at(o1).regions.contains(r)
                && #[trigger] self.op_at(o2).regions.contains(r) ==> o1 == o2
    }
}

/// Ownership is unique: in a well-formed arena no block, operation or region
/// is listed by two owners, so every entity has exactly zero or one parent.
pub proof fn lemma_ownership_unique(cv: ContextV)
    requires
        cv.wf(),
    ensures
        cv.same_owner(),
{
    assert forall|r1: int, r2: int, b: usize|
        cv.is_region(r1) && cv.is_region(r2) && #[trigger] cv.region_at(r1).blocks.contains(b)
            && #[trigger] cv.region_at(r2).blocks.contains(b) implies r1 == r2 by {
        assert(cv.wf_node(r1));
        assert(cv.wf_node(r2));
        let bl1 = cv.region_at(r1).blocks;
        let bl2 = cv.region_at(r2).blocks;
        let j1 = choose|j: int| 0 <= j < bl1.len() && bl1[j] == b;
        let j2 = choose|j: int| 0 <= j < bl2.len() && bl2[j] == b;
        assert(0 <= r1 < cv.nodes.len() <= usize::MAX);
        assert(0 <= r2 < cv.nodes.len());
        assert(bl1[j1] == b);
        assert(bl2[j2] == b);
        assert(cv.block_at(b as int).parent == Some(r1 as usize));
        assert(cv.block_at(b as int).parent == Some(r2 as usize));
    }
    assert forall|b1: int, b2: int, o: usize|
        cv.is_block(b1) && cv.is_block(b2) && #[trigger] cv.block_at(b1).ops.contains(o)
            && #[trigger] cv.block_at(b2).ops.contains(o) implies b1 == b2 by {
        assert(cv.wf_node(b1));
        assert(cv.wf_node(b2));
        let ol1 = cv.block_at(b1).ops;
        let ol2 = cv.block_at(b2).ops;
        let j1 = choose|j: int| 0 <= j < ol1.len() && ol1[j] == o;
        let j2 = choose|j: int| 0 <= j < ol2.len() && ol2[j] == o;
        assert(0 <= b1 < cv.nodes.len() <= usize::MAX);
        assert(0 <= b2 < cv.nodes.len());
        assert(ol1[j1] == o);
        assert(ol2[j2] == o);
        assert(cv.op_at(o as int).parent == Some(b1 as usize));
        assert(cv.op_at(o as int).parent == Some(b2 as usize));
    }
    assert forall|o1: int, o2: int, r: usize|
        cv.is_op(o1) && cv.is_op(o2) && #[trigger] cv.op_at(o1).regions.contains(r)
            && #[trigger] cv.op_at(o2).regions.contains(r) implies o1 == o2 by {
        assert(cv.wf_node(o1));
        assert(cv.wf_node(o2));
        let rl1 = cv.op_at(o1).regions;
        let rl2 = cv.op_at(o2).regions;
        let j1 = choose|j: int| 0 <= j < rl1.len() && rl1[j] == r;
        let j2 = choose|j: int| 0 <= j < rl2.len() && rl2[j] == r;
        assert(0 <= o1 < cv.nodes.len() <= usize::MAX);
        assert(0 <= o2 < cv.nodes.len());
        assert(rl1[j1] == r);
        assert(rl2[j2] == r);
        assert(cv.region_at(r as int).parent == Some(o1 as usize));
        assert(cv.region_at(r as int).parent == Some(o2 as usize));
    }
}

impl Context {
    /// Creates an empty context.
    pub fn new() -> (r: Context)
        ensures
            r@.wf(),
            r@.strings.len() == 0,
            r@.nodes.len() == 0,
            r@.kinds.len() == 0,
            r@.allow_unregistered == false,
    {
        let ctx = Context {
            strings: Vec::new(),
            table: table_new(),
            nodes: Vec::new(),
            kinds: Vec::new(),
            allow_unregistered: false,
        };
        proof {
            assert(ctx@.strings =~= Seq::<Seq<char>>::empty());
            assert(ctx@.nodes =~= Seq::<NodeV>::empty());
        }
        ctx
    }

    /// Allows or forbids operations of unregistered kinds during
    /// verification.
    pub fn set_allow_unregistered_dialects(&mut self, allow: bool)
        requires
            old(self)@.wf(),
        ensures
            final(self)@.wf(),
            final(self)@ == (ContextV { allow_unregistered: allow, ..old(self)@ }),
    {
        self.allow_unregistered = allow;
        proof {
            assert(final(self)@ =~= (ContextV { allow_unregistered: allow, ..old(self)@ }));
            assert(final(self)@.wf_kinds());
            lemma_same_nodes_wf(old(self)@, final(self)@);
        }
    }

    /// Interns a string: returns a stable reference, the same one for equal
    /// strings.
    pub fn intern(&mut self, s: &str) -> (r: StringRef)
        requires
            old(self)@.wf(),
        ensures
            final(self)@.wf(),
            final(self)@.nodes == old(self)@.nodes,
            final(self)@.kinds == old(self)@.kinds,
            final(self)@.allow_unregistered == old(self)@.allow_unregistered,
            r.id < final(self)@.strings.len(),
            final(self)@.strings[r.id as int] == s@,
            old(self)@.table.dom().contains(s@) ==> final(self)@ == old(self)@ && r.id == old(
                self,
            )@.table[s@],
            !old(self)@.table.dom().contains(s@) ==> final(self)@.strings == old(
                self,
            )@.strings.push(s@) && r.id == old(self)@.strings.len() && final(self)@.table == old(
                self,
            )@.table.insert(s@, r.id),
    {
        match table_get(&self.table, s) {
            Some(id) => {
                proof {
                    assert(final(self)@ =~= old(self)@);
                    assert(old(self)@.table.dom().contains(s@));
                    assert(id == old(self)@.table[s@]);
                    assert(old(self)@.strings[id as int] == s@);
                }
                StringRef { id }
            },
            None => {
                let id = self.strings.len();
                self.strings.push(s.to_owned());
                table_insert(&mut self.table, s.to_owned(), id);
                proof {
                    let oldv = old(self)@;
                    let newv = final(self)@;
                    assert(newv.strings =~= oldv.strings.push(s@));
                    assert(newv.nodes =~= oldv.nodes);
                    assert(newv.pm() =~= oldv.pm());
                    assert(newv.table =~= oldv.table.insert(s@, id));
                    assert(newv.wf_strings()) by {
                        assert forall|i: int, j: int| 0 <= i < j < newv.strings.len() implies (
                        #[trigger] newv.strings[i]) != (#[trigger] newv.strings[j]) by {
                            if j == newv.strings.len() - 1 {
                                if newv.strings[i] == s@ {
                                    assert(oldv.table.dom().contains(oldv.strings[i]));
                                }
                            }
                        }
                        assert forall|i: int| 0 <= i < newv.strings.len() implies newv.table.dom(
                        ).contains(#[trigger] newv.strings[i]) && newv.table[newv.strings[i]]
                            == i by {
                            if i < oldv.strings.len() {
                                assert(oldv.table.dom().contains(oldv.strings[i]));
                                assert(oldv.strings[i] != s@);
                            } else {
                                assert(newv.strings[i] == s@);
                            }
                        }
                        assert forall|s2: Seq<char>| #[trigger]
                            newv.table.dom().contains(s2) implies newv.table[s2]
                            < newv.strings.len() && newv.strings[newv.table[s2] as int] == s2 by {
                            if s2 == s@ {
                                assert(newv.table[s2] == id);
                            } else {
                                assert(oldv.table.dom().contains(s2));
                            }
                        }
                    }
                    assert(newv.wf_kinds()) by {
                        assert forall|i: int| 0 <= i < newv.kinds.len() implies (
                        #[trigger] newv.kinds[i]).name < newv.strings.len() by {
                            assert(oldv.kinds[i].name < oldv.strings.len());
                        }
                    }
                    lemma_same_nodes_wf(oldv, newv);
                }
                StringRef { id }
            },
        }
    }

    /// The text of an interned string.
    pub fn lookup(&self, r: StringRef) -> (s: &str)
        requires
            r.id < self@.strings.len(),
        ensures
            s@ == self@.strings[r.id as int],
    {
        self.strings[r.id].as_str()
    }
}

/// Two context values with the same nodes, kind list and string count are
/// equally well formed, as long as the string side is itself consistent.
proof fn lemma_same_nodes_wf(a: ContextV, b: ContextV)
    requires
        a.wf(),
        b.wf_strings(),
        b.wf_kinds(),
        b.nodes == a.nodes,
        a.strings.len() <= b.strings.len(),
    ensures
        b.wf(),
{
    assert(b.pm() =~= a.pm());
    assert forall|i: int| 0 <= i < b.nodes.len() implies b.wf_node(i) by {
        assert(a.wf_node(i));
        match b.nodes[i] {
            NodeV::Op(o) => {
                assert forall|j: int| 0 <= j < o.regions.len() implies b.is_region(
                    #[trigger] o.regions[j] as int,
                ) && b.region_at(o.regions[j] as int).parent == Some(i as usize) by {
                    assert(a.is_region(o.regions[j] as int));
                }
            },
            NodeV::Block(bb) => {
                assert forall|j: int| 0 <= j < bb.ops.len() implies b.is_op(
                    #[trigger] bb.ops[j] as int,
                ) && b.op_at(bb.ops[j] as int).parent == Some(i as usize) by {
                    assert(a.is_op(bb.ops[j] as int));
                }
            },
            NodeV::Region(r) => {
                assert forall|j: int| 0 <= j < r.blocks.len() implies b.is_block(
                    #[trigger] r.blocks[j] as int,
                ) && b.block_at(r.blocks[j] as int).parent == Some(i as usize) by {
                    assert(a.is_block(r.blocks[j] as int));
                }
            },
        }
    }
    assert forall|i: int| 0 <= i < b.nodes.len() implies terminates(b.pm(), i) by {
        assert(terminates(a.pm(), i));
    }
}

} // verus!

use crate::ancestry::{lemma_attach_preserves, lemma_root_preserves, reaches, walk};

verus! {

fn node_mut(nodes: &mut Vec<Node>, i: usize) -> (r: &mut Node)
    requires
        i < old(nodes).len(),
    ensures
        *r == old(nodes)@[i as int],
        final(nodes)@ == old(nodes)@.update(i as int, *final(r)),
{
    &mut nodes[i]
}

/// A node that may be added to the arena: detached, without children, and
/// with every reference it holds valid.
pub open spec fn fresh_node_ok(cv: ContextV, n: NodeV) -> bool {
    match n {
        NodeV::Op(o) => {
            &&& o.parent is None
            &&& o.regions.len() == 0
            &&& o.name < cv.strings.len()
            &&& location_ok(o.location)
            &&& forall|j: int| 0 <= j < o.successors.len() ==> cv.is_block(#[trigger] o.successors[j] as int)
            &&& forall|j: int| 0 <= j < o.operands.len() ==> cv.valid_value(#[trigger] o.operands[j])
            &&& forall|j: int|
                0 <= j < o.attrs.len() ==> (#[trigger] o.attrs[j]).key < cv.strings.len()
                    && attr_text_ok(o.attrs[j].text)
            &&& forall|j1: int, j2: int|
                0 <= j1 < j2 < o.attrs.len() ==> (#[trigger] o.attrs[j1]).key != (
                #[trigger] o.attrs[j2]).key
            &&& forall|j: int| 0 <= j < o.result_types.len() ==> type_ok(#[trigger] o.result_types[j])
        },
        NodeV::Block(b) => {
            &&& b.parent is None
            &&& b.ops.len() == 0
            &&& forall|j: int|
                0 <= j < b.args.len() ==> type_ok((#[trigger] b.args[j]).ty) && location_ok(
                    b.args[j].location,
                )
        },
        NodeV::Region(r) => {
            &&& r.parent is None
            &&& r.blocks.len() == 0
        },
    }
}

/// Everything but the nodes is unchanged.
pub open spec fn same_surroundings(a: ContextV, b: ContextV) -> bool {
    &&& b.strings == a.strings
    &&& b.table == a.table
    &&& b.kinds == a.kinds
    &&& b.allow_unregistered == a.allow_unregistered
}

proof fn lemma_terminates_after_root(a: ContextV, b: ContextV, c: int)
    requires
        forall|i: int| 0 <= i < a.nodes.len() ==> terminates(a.pm(), i),
        b.pm() == a.pm().insert(c, None::<int>),
        a.nodes.len() <= b.nodes.len() <= a.nodes.len() + 1,
    ensures
        forall|i: int| 0 <= i < b.nodes.len() ==> terminates(b.pm(), i),
{
    assert forall|i: int| 0 <= i < b.nodes.len() implies terminates(b.pm(), i) by {
        if i < a.nodes.len() {
            assert(terminates(a.pm(), i));
            let k = choose|k: nat| walk(a.pm(), i, k) == None::<int>;
            assert(walk(a.pm(), i, k) == None::<int>);
            lemma_root_preserves(a.pm(), c, i, k);
        } else {
            assert(b.pm().dom().contains(i));
            assert(i == c);
            assert(b.pm()[i] == None::<int>);
            assert(walk(b.pm(), i, 0nat) == Some(i));
            assert(walk(b.pm(), i, 1nat) == None::<int>);
        }
    }
}

proof fn lemma_terminates_after_attach(a: ContextV, b: ContextV, c: int, p: int)
    requires
        forall|i: int| 0 <= i < a.nodes.len() ==> terminates(a.pm(), i),
        b.pm() == a.pm().insert(c, Some(p)),
        0 <= c < a.nodes.len(),
        a.pm()[c] == None::<int>,
        0 <= p < a.nodes.len(),
        !reaches(a.pm(), p, c),
        b.nodes.len() == a.nodes.len(),
    ensures
        forall|i: int| 0 <= i < b.nodes.len() ==> terminates(b.pm(), i),
{
    assert forall|i: int| 0 <= i < b.nodes.len() implies terminates(b.pm(), i) by {
        assert(terminates(a.pm(), i));
        let k = choose|k: nat| walk(a.pm(), i, k) == None::<int>;
        assert(walk(a.pm(), i, k) == None::<int>);
        lemma_attach_preserves(a.pm(), c, p, i, k);
    }
}

impl Context {
    /// The number of nodes in the arena.
    pub fn node_count(&self) -> (r: usize)
        ensures
            r == self@.nodes.len(),
    {
        self.nodes.len()
    }

    /// Read access to an operation node.
    pub fn op_node(&self, i: usize) -> (r: &OpNode)
        requires
            self@.is_op(i as int),
        ensures
            r@ == self@.op_at(i as int),
    {
        match &self.nodes[i] {
            Node::Op(o) => o,
            _ => {
                proof {
                    assert(self@.nodes[i as int] == self.nodes@[i as int]@);
                }
                vstd::pervasive::unreached()
            },
        }
    }

    /// Read access to a block node.
    pub fn block_node(&self, i: usize) -> (r: &BlockNode)
        requires
            self@.is_block(i as int),
        ensures
            r@ == self@.block_at(i as int),
    {
        match &self.nodes[i] {
            Node::Block(b) => b,
            _ => {
                proof {
                    assert(self@.nodes[i as int] == self.nodes@[i as int]@);
                }
                vstd::pervasive::unreached()
            },
        }
    }

    /// Read access to a region node.
    pub fn region_node(&self, i: usize) -> (r: &RegionNode)
        requires
            self@.is_region(i as int),
        ensures
            r@ == self@.region_at(i as int),
    {
        match &self.nodes[i] {
            Node::Region(r) => r,
            _ => {
                proof {
                    assert(self@.nodes[i as int] == self.nodes@[i as int]@);
                }
                vstd::pervasive::unreached()
            },
        }
    }

    /// Adds a fresh, detached node to the arena.
    pub(crate) fn add_node(&mut self, node: Node) -> (id: usize)
        requires
            old(self)@.wf(),
            fresh_node_ok(old(self)@, node@),
        ensures
            final(self)@.wf(),
            same_surroundings(old(self)@, final(self)@),
            final(self)@.nodes == old(self)@.nodes.push(node@),
            id == old(self)@.nodes.len(),
    {
        let id = self.nodes.len();
        self.nodes.push(node);
        proof {
            let a = old(self)@;
            let b = final(self)@;
            assert(b.nodes =~= a.nodes.push(node@));
            vstd::std_specs::vec::axiom_spec_len(&self.nodes);
            assert(b.nodes.len() <= usize::MAX);
            assert(b.strings =~= a.strings);
            assert(b.table =~= a.table);
            assert(b.wf_strings());
            assert(b.wf_kinds());
            assert(b.pm() =~= a.pm().insert(id as int, None::<int>)) by {
                assert forall|x: int| b.pm().dom().contains(x) implies b.pm()[x] == a.pm().insert(
                    id as int,
                    None::<int>,
                )[x] by {
                    if x != id as int {
                        assert(b.nodes[x] == a.nodes[x]);
                    }
                }
            }
            assert forall|i: int| 0 <= i < b.nodes.len() implies b.wf_node(i) by {
                if i < a.nodes.len() {
                    assert(a.wf_node(i));
                    assert(b.nodes[i] == a.nodes[i]);
                    lemma_wf_node_frame(a, b, i);
                } else {
                    assert(b.nodes[i] == node@);
                    match node@ {
                        NodeV::Op(o) => {
                            assert forall|j: int| 0 <= j < o.successors.len() implies b.is_block(
                                #[trigger] o.successors[j] as int,
                            ) by {
                                assert(a.is_block(o.successors[j] as int));
                            }
                            assert forall|j: int| 0 <= j < o.operands.len() implies b.valid_value(
                                #[trigger] o.operands[j],
                            ) by {
                                assert(a.valid_value(o.operands[j]));
                            }
                        },
                        NodeV::Block(_) => {},
                        NodeV::Region(_) => {},
                    }
                }
            }
            lemma_terminates_after_root(a, b, id as int);
        }
        id
    }
}

/// A node whose surroundings did not change is still well formed, as long as
/// every node it refers to kept its kind, children and parent.
proof fn lemma_wf_node_frame(a: ContextV, b: ContextV, i: int)
    requires
        a.wf_node(i),
        0 <= i < a.nodes.len(),
        b.nodes.len() >= a.nodes.len(),
        b.nodes[i] == a.nodes[i],
        a.strings.len() <= b.strings.len(),
        forall|x: int| 0 <= x < a.nodes.len() ==> #[trigger] b.nodes[x] == a.nodes[x],
    ensures
        b.wf_node(i),
{
    match a.nodes[i] {
        NodeV::Op(o) => {
            assert forall|j: int| 0 <= j < o.regions.len() implies b.is_region(
                #[trigger] o.regions[j] as int,
            ) && b.region_at(o.regions[j] as int).parent == Some(i as usize) by {
                assert(a.is_region(o.regions[j] as int));
            }
            assert forall|j: int| 0 <= j < o.successors.len() implies b.is_block(
                #[trigger] o.successors[j] as int,
            ) by {
                assert(a.is_block(o.successors[j] as int));
            }
            assert forall|j: int| 0 <= j < o.operands.len() implies b.valid_value(
                #[trigger] o.operands[j],
            ) by {
                assert(a.valid_value(o.operands[j]));
            }
            match o.parent {
                Some(bb) => {
                    assert(a.is_block(bb as int));
                },
                None => {},
            }
        },
        NodeV::Block(bl) => {
            assert forall|j: int| 0 <= j < bl.ops.len() implies b.is_op(#[trigger] bl.ops[j] as int)
                && b.op_at(bl.ops[j] as int).parent == Some(i as usize) by {
                assert(a.is_op(bl.ops[j] as int));
            }
            match bl.parent {
                Some(r) => {
                    assert(a.is_region(r as int));
                },
                None => {},
            }
        },
        NodeV::Region(rg) => {
            assert forall|j: int| 0 <= j < rg.blocks.len() implies b.is_block(
                #[trigger] rg.blocks[j] as int,
            ) && b.block_at(rg.blocks[j] as int).parent == Some(i as usize) by {
                assert(a.is_block(rg.blocks[j] as int));
            }
            match rg.parent {
                Some(o) => {
                    assert(a.is_op(o as int));
                },
                None => {},
            }
        },
    }
}

} // verus!

verus! {

proof fn lemma_insert_facts<A>(s: Seq<A>, pos: int, v: A)
    requires
        0 <= pos <= s.len(),
    ensures
        s.insert(pos, v).len() == s.len() + 1,
        s.insert(pos, v)[pos] == v,
        forall|j: int| 0 <= j < pos ==> #[trigger] s.insert(pos, v)[j] == s[j],
        forall|j: int| pos < j < s.len() + 1 ==> #[trigger] s.insert(pos, v)[j] == s[j - 1],
        s.insert(pos, v).contains(v),
        forall|x: A| s.contains(x) ==> #[trigger] s.insert(pos, v).contains(x),
        forall|x: A| #[trigger] s.insert(pos, v).contains(x) ==> x == v || s.contains(x),
{
    s.insert_ensures(pos, v);
    let s2 = s.insert(pos, v);
    assert forall|j: int| pos < j < s.len() + 1 implies #[trigger] s2[j] == s[j - 1] by {
        assert(s2[(j - 1) + 1] == s[j - 1]);
    }
    assert(s2[pos] == v);
    assert forall|x: A| s.contains(x) implies #[trigger] s2.contains(x) by {
        let j = choose|j: int| 0 <= j < s.len() && s[j] == x;
        if j < pos {
            assert(s2[j] == x);
        } else {
            assert(s2[j + 1] == x);
        }
    }
    assert forall|x: A| #[trigger] s2.contains(x) implies x == v || s.contains(x) by {
        let j = choose|j: int| 0 <= j < s2.len() && s2[j] == x;
        if j < pos {
            assert(s[j] == x);
        } else if j > pos {
            assert(s[j - 1] == x);
        }
    }
}

proof fn lemma_remove_facts<A>(s: Seq<A>, idx: int)
    requires
        0 <= idx < s.len(),
        forall|j1: int, j2: int| 0 <= j1 < j2 < s.len() ==> s[j1] != s[j2],
    ensures
        s.remove(idx).len() == s.len() - 1,
        forall|j: int| 0 <= j < idx ==> #[trigger] s.remove(idx)[j] == s[j],
        forall|j: int| idx <= j < s.len() - 1 ==> #[trigger] s.remove(idx)[j] == s[j + 1],
        !s.remove(idx).contains(s[idx]),
        forall|x: A| x != s[idx] && s.contains(x) ==> #[trigger] s.remove(idx).contains(x),
        forall|x: A| #[trigger] s.remove(idx).contains(x) ==> x != s[idx] && s.contains(x),
{
    s.remove_ensures(idx);
    let s2 = s.remove(idx);
    if s2.contains(s[idx]) {
        let j = choose|j: int| 0 <= j < s2.len() && s2[j] == s[idx];
        if j < idx {
            assert(s[j] == s[idx]);
        } else {
            assert(s[j + 1] == s[idx]);
        }
    }
    assert forall|x: A| x != s[idx] && s.contains(x) implies #[trigger] s2.contains(x) by {
        let j = choose|j: int| 0 <= j < s.len() && s[j] == x;
        if j < idx {
            assert(s2[j] == x);
        } else {
            assert(s2[j - 1] == s[(j - 1) + 1]);
            assert(s2[j - 1] == x);
        }
    }
    assert forall|x: A| #[trigger] s2.contains(x) implies x != s[idx] && s.contains(x) by {
        let j = choose|j: int| 0 <= j < s2.len() && s2[j] == x;
        if j < idx {
            assert(s[j] == x);
        } else {
            assert(s[j + 1] == x);
        }
    }
}

impl Context {
    /// Links a detached operation into a block at a position, transferring
    /// ownership to the block.
    pub(crate) fn attach_op(&mut self, op: usize, blk: usize, pos: usize)
        requires
            old(self)@.wf(),
            old(self)@.is_op(op as int),
            old(self)@.is_block(blk as int),
            old(self)@.op_at(op as int).parent is None,
            !reaches(old(self)@.pm(), blk as int, op as int),
            pos <= old(self)@.block_at(blk as int).ops.len(),
        ensures
            final(self)@.wf(),
            same_surroundings(old(self)@, final(self)@),
            final(self)@.nodes.len() == old(self)@.nodes.len(),
            final(self)@.nodes == old(self)@.nodes.update(
                blk as int,
                NodeV::Block(
                    BlockNodeV {
                        ops: old(self)@.block_at(blk as int).ops.insert(pos as int, op),
                        ..old(self)@.block_at(blk as int)
                    },
                ),
            ).update(
                op as int,
                NodeV::Op(OpNodeV { parent: Some(blk), ..old(self)@.op_at(op as int) }),
            ),
    {
        proof {
            assert(old(self)@.nodes[op as int] is Op);
            assert(old(self)@.nodes[blk as int] is Block);
        }
        let n = node_mut(&mut self.nodes, blk);
        match n {
            Node::Block(bn) => {
                bn.ops.insert(pos, op);
            },
            _ => {
                proof {
                    assert(false);
                }
            },
        }
        let n2 = node_mut(&mut self.nodes, op);
        match n2 {
            Node::Op(on) => {
                on.parent = Some(blk);
            },
            _ => {
                proof {
                    assert(false);
                }
            },
        }
        proof {
            let a = old(self)@;
            let b = final(self)@;
            let ops0 = a.block_at(blk as int).ops;
            let ops1 = ops0.insert(pos as int, op);
            assert(b.nodes =~= a.nodes.update(
                blk as int,
                NodeV::Block(BlockNodeV { ops: ops1, ..a.block_at(blk as int) }),
            ).update(op as int, NodeV::Op(OpNodeV { parent: Some(blk), ..a.op_at(op as int) })));
            lemma_insert_facts(ops0, pos as int, op);
            assert(b.strings =~= a.strings);
            assert(b.table =~= a.table);
            assert(b.wf_strings());
            assert(b.wf_kinds());
            // The op was detached, so no list in the arena holds it.
            assert forall|x: int, j: int|
                a.is_block(x) && 0 <= j < a.block_at(x).ops.len() implies #[trigger] a.block_at(
                x,
            ).ops[j] != op by {
                assert(a.wf_node(x));
                if a.block_at(x).ops[j] == op {
                    assert(a.op_at(op as int).parent == Some(x as usize));
                }
            }
            assert(b.pm() =~= a.pm().insert(op as int, Some(blk as int))) by {
                assert forall|x: int| b.pm().dom().contains(x) implies b.pm()[x] == a.pm().insert(
                    op as int,
                    Some(blk as int),
                )[x] by {
                    if x != op as int && x != blk as int {
                        assert(b.nodes[x] == a.nodes[x]);
                    }
                }
            }
            assert forall|i: int| 0 <= i < b.nodes.len() implies b.wf_node(i) by {
                assert(a.wf_node(i));
                if i == op as int {
                    let o = b.op_at(i);
                    assert(ops1[pos as int] == op);
                    assert(b.block_at(blk as int).ops.contains(op));
                    assert forall|j: int| 0 <= j < o.regions.len() implies b.is_region(
                        #[trigger] o.regions[j] as int,
                    ) && b.region_at(o.regions[j] as int).parent == Some(i as usize) by {
                        assert(a.is_region(o.regions[j] as int));
                        assert(b.nodes[o.regions[j] as int] == a.nodes[o.regions[j] as int]);
                    }
                    assert forall|j: int| 0 <= j < o.successors.len() implies b.is_block(
                        #[trigger] o.successors[j] as int,
                    ) by {
                        assert(a.is_block(o.successors[j] as int));
                    }
                    assert forall|j: int| 0 <= j < o.operands.len() implies b.valid_value(
                        #[trigger] o.operands[j],
                    ) by {
                        assert(a.valid_value(o.operands[j]));
                    }
                } else if i == blk as int {
                    let bl = b.block_at(i);
                    assert(bl.ops == ops1);
                    assert forall|j: int| 0 <= j < bl.ops.len() implies b.is_op(
                        #[trigger] bl.ops[j] as int,
                    ) && b.op_at(bl.ops[j] as int).parent == Some(i as usize) by {
                        if j < pos {
                            assert(ops1[j] == ops0[j]);
                            assert(ops0.contains(ops0[j]));
                            assert(a.is_op(ops0[j] as int));
                            assert(ops0[j] != op);
                        } else if j == pos {
                            assert(ops1[j] == op);
                        } else {
                            assert(ops1[j] == ops0[j - 1]);
                            assert(ops0.contains(ops0[j - 1]));
                            assert(a.is_op(ops0[j - 1] as int));
                            assert(ops0[j - 1] != op);
                        }
                    }
                    assert forall|j1: int, j2: int| 0 <= j1 < j2 < bl.ops.len() implies (
                    #[trigger] bl.ops[j1]) != (#[trigger] bl.ops[j2]) by {
                        if j1 != pos && j2 != pos {
                            let k1: int = if j1 < pos {
                                j1
                            } else {
                                j1 - 1
                            };
                            let k2: int = if j2 < pos {
                                j2
                            } else {
                                j2 - 1
                            };
                            assert(ops1[j1] == ops0[k1] && ops1[j2] == ops0[k2]);
                        } else if j1 == pos {
                            assert(ops1[j2] == ops0[j2 - 1]);
                            assert(ops0.contains(ops0[j2 - 1]));
                        } else {
                            assert(ops1[j1] == ops0[j1]);
                            assert(ops0.contains(ops0[j1]));
                        }
                    }
                    match bl.parent {
                        Some(r) => {
                            assert(a.is_region(r as int));
                            assert(b.nodes[r as int] == a.nodes[r as int]);
                        },
                        None => {},
                    }
                } else {
                    match b.nodes[i] {
                        NodeV::Op(o) => {
                            assert(b.nodes[i] == a.nodes[i]);
                            assert forall|j: int| 0 <= j < o.regions.len() implies b.is_region(
                                #[trigger] o.regions[j] as int,
                            ) && b.region_at(o.regions[j] as int).parent == Some(i as usize) by {
                                assert(a.is_region(o.regions[j] as int));
                                assert(b.nodes[o.regions[j] as int] == a.nodes[o.regions[
                                    j
                                ] as int]);
                            }
                            assert forall|j: int| 0 <= j < o.successors.len() implies b.is_block(
                                #[trigger] o.successors[j] as int,
                            ) by {
                                assert(a.is_block(o.successors[j] as int));
                            }
                            assert forall|j: int| 0 <= j < o.operands.len() implies b.valid_value(
                                #[trigger] o.operands[j],
                            ) by {
                                assert(a.valid_value(o.operands[j]));
                            }
                            match o.parent {
                                Some(bb) => {
                                    assert(a.is_block(bb as int));
                                    if bb as int == blk as int {
                                        assert(ops0.contains(i as usize));
                                        assert(ops1.contains(i as usize));
                                        let j = choose|j: int|
                                            0 <= j < ops1.len() && ops1[j] == i as usize;
                                        assert(b.block_at(blk as int).ops.contains(i as usize));
                                    } else {
                                        assert(b.nodes[bb as int] == a.nodes[bb as int]);
                                    }
                                },
                                None => {},
                            }
                        },
                        NodeV::Block(bl) => {
                            assert(b.nodes[i] == a.nodes[i]);
                            assert forall|j: int| 0 <= j < bl.ops.len() implies b.is_op(
                                #[trigger] bl.ops[j] as int,
                            ) && b.op_at(bl.ops[j] as int).parent == Some(i as usize) by {
                                assert(a.is_op(bl.ops[j] as int));
                                assert(a.block_at(i).ops[j] == bl.ops[j]);
                                assert(a.block_at(i).ops.contains(bl.ops[j]));
                                assert(bl.ops[j] != op);
                                assert(b.nodes[bl.ops[j] as int] == a.nodes[bl.ops[j] as int]);
                            }
                            match bl.parent {
                                Some(r) => {
                                    assert(a.is_region(r as int));
                                    assert(b.nodes[r as int] == a.nodes[r as int]);
                                },
                                None => {},
                            }
                        },
                        NodeV::Region(rg) => {
                            assert(b.nodes[i] == a.nodes[i]);
                            assert forall|j: int| 0 <= j < rg.blocks.len() implies b.is_block(
                                #[trigger] rg.blocks[j] as int,
                            ) && b.block_at(rg.blocks[j] as int).parent == Some(i as usize) by {
                                assert(a.is_block(rg.blocks[j] as int));
                                if rg.blocks[j] as int != blk as int {
                                    assert(b.nodes[rg.blocks[j] as int] == a.nodes[rg.blocks[
                                        j
                                    ] as int]);
                                }
                            }
                            match rg.parent {
                                Some(o) => {
                                    assert(a.is_op(o as int));
                                    assert(o as int != op as int || a.op_at(
                                        op as int,
                                    ).regions.contains(i as usize));
                                    assert(b.op_at(o as int).regions == a.op_at(o as int).regions);
                                },
                                None => {},
                            }
                        },
                    }
                }
            }
            lemma_terminates_after_attach(a, b, op as int, blk as int);
        }
    }
}

} // verus!

verus! {

/// The position of a value in a sequence that holds it.
pub open spec fn pos_of(s: Seq<usize>, v: usize) -> int {
    choose|j: int| 0 <= j < s.len() && s[j] == v
}

impl Context {
    /// Links a detached block into a region at a position, transferring
    /// ownership to the region.
    pub(crate) fn attach_block(&mut self, blk: usize, reg: usize, pos: usize)
        requires
            old(self)@.wf(),
            old(self)@.is_block(blk as int),
            old(self)@.is_region(reg as int),
            old(self)@.block_at(blk as int).parent is None,
            !reaches(old(self)@.pm(), reg as int, blk as int),
            pos <= old(self)@.region_at(reg as int).blocks.len(),
        ensures
            final(self)@.wf(),
            same_surroundings(old(self)@, final(self)@),
            final(self)@.nodes.len() == old(self)@.nodes.len(),
            final(self)@.nodes == old(self)@.nodes.update(
                reg as int,
                NodeV::Region(
                    RegionNodeV {
                        blocks: old(self)@.region_at(reg as int).blocks.insert(pos as int, blk),
                        ..old(self)@.region_at(reg as int)
                    },
                ),
            ).update(
                blk as int,
                NodeV::Block(BlockNodeV { parent: Some(reg), ..old(self)@.block_at(blk as int) }),
            ),
    {
        proof {
            assert(old(self)@.nodes[blk as int] is Block);
            assert(old(self)@.nodes[reg as int] is Region);
        }
        let n = node_mut(&mut self.nodes, reg);
        match n {
            Node::Region(rn) => {
                rn.blocks.insert(pos, blk);
            },
            _ => {
                proof {
                    assert(false);
                }
            },
        }
        let n2 = node_mut(&mut self.nodes, blk);
        match n2 {
            Node::Block(bn) => {
                bn.parent = Some(reg);
            },
            _ => {
                proof {
                    assert(false);
                }
            },
        }
        proof {
            let a = old(self)@;
            let b = final(self)@;
            let bl0 = a.region_at(reg as int).blocks;
            let bl1 = bl0.insert(pos as int, blk);
            assert(b.nodes =~= a.nodes.update(
                reg as int,
                NodeV::Region(RegionNodeV { blocks: bl1, ..a.region_at(reg as int) }),
            ).update(
                blk as int,
                NodeV::Block(BlockNodeV { parent: Some(reg), ..a.block_at(blk as int) }),
            ));
            lemma_insert_facts(bl0, pos as int, blk);
            assert(b.strings =~= a.strings);
            assert(b.table =~= a.table);
            assert(b.wf_strings());
            assert(b.wf_kinds());
            // The block was detached, so no region in the arena lists it.
            assert forall|x: int, j: int|
                a.is_region(x) && 0 <= j < a.region_at(x).blocks.len() implies #[trigger] a.region_at(
                x,
            ).blocks[j] != blk by {
                assert(a.wf_node(x));
                if a.region_at(x).blocks[j] == blk {
                    assert(a.block_at(blk as int).parent == Some(x as usize));
                }
            }
            assert(b.pm() =~= a.pm().insert(blk as int, Some(reg as int))) by {
                assert forall|x: int| b.pm().dom().contains(x) implies b.pm()[x] == a.pm().insert(
                    blk as int,
                    Some(reg as int),
                )[x] by {
                    if x != blk as int && x != reg as int {
                        assert(b.nodes[x] == a.nodes[x]);
                    }
                }
            }
            assert forall|i: int| 0 <= i < b.nodes.len() implies b.wf_node(i) by {
                assert(a.wf_node(i));
                if i == blk as int {
                    let bl = b.block_at(i);
                    assert(bl1[pos as int] == blk);
                    assert(b.region_at(reg as int).blocks.contains(blk));
                    assert forall|j: int| 0 <= j < bl.ops.len() implies b.is_op(
                        #[trigger] bl.ops[j] as int,
                    ) && b.op_at(bl.ops[j] as int).parent == Some(i as usize) by {
                        assert(a.is_op(bl.ops[j] as int));
                        assert(b.nodes[bl.ops[j] as int] == a.nodes[bl.ops[j] as int]);
                    }
                } else if i == reg as int {
                    let rg = b.region_at(i);
                    assert(rg.blocks == bl1);
                    assert forall|j: int| 0 <= j < rg.blocks.len() implies b.is_block(
                        #[trigger] rg.blocks[j] as int,
                    ) && b.block_at(rg.blocks[j] as int).parent == Some(i as usize) by {
                        if j < pos {
                            assert(bl1[j] == bl0[j]);
                            assert(bl0.contains(bl0[j]));
                            assert(a.is_block(bl0[j] as int));
                            assert(bl0[j] != blk);
                        } else if j == pos {
                            assert(bl1[j] == blk);
                        } else {
                            assert(bl1[j] == bl0[j - 1]);
                            assert(bl0.contains(bl0[j - 1]));
                            assert(a.is_block(bl0[j - 1] as int));
                            assert(bl0[j - 1] != blk);
                        }
                    }
                    assert forall|j1: int, j2: int| 0 <= j1 < j2 < rg.blocks.len() implies (
                    #[trigger] rg.blocks[j1]) != (#[trigger] rg.blocks[j2]) by {
                        if j1 != pos && j2 != pos {
                            let k1: int = if j1 < pos {
                                j1
                            } else {
                                j1 - 1
                            };
                            let k2: int = if j2 < pos {
                                j2
                            } else {
                                j2 - 1
                            };
                            assert(bl1[j1] == bl0[k1] && bl1[j2] == bl0[k2]);
                        } else if j1 == pos {
                            assert(bl1[j2] == bl0[j2 - 1]);
                            assert(bl0.contains(bl0[j2 - 1]));
                        } else {
                            assert(bl1[j1] == bl0[j1]);
                            assert(bl0.contains(bl0[j1]));
                        }
                    }
                    match rg.parent {
                        Some(o) => {
                            assert(a.is_op(o as int));
                            assert(b.nodes[o as int] == a.nodes[o as int]);
                        },
                        None => {},
                    }
                } else {
                    match b.nodes[i] {
                        NodeV::Op(o) => {
                            assert(b.nodes[i] == a.nodes[i]);
                            assert forall|j: int| 0 <= j < o.regions.len() implies b.is_region(
                                #[trigger] o.regions[j] as int,
                            ) && b.region_at(o.regions[j] as int).parent == Some(i as usize) by {
                                assert(a.is_region(o.regions[j] as int));
                                if o.regions[j] as int != reg as int {
                                    assert(b.nodes[o.regions[j] as int] == a.nodes[o.regions[
                                        j
                                    ] as int]);
                                } else {
                                    assert(b.region_at(reg as int).parent == a.region_at(
                                        reg as int,
                                    ).parent);
                                }
                            }
                            assert forall|j: int| 0 <= j < o.successors.len() implies b.is_block(
                                #[trigger] o.successors[j] as int,
                            ) by {
                                assert(a.is_block(o.successors[j] as int));
                            }
                            assert forall|j: int| 0 <= j < o.operands.len() implies b.valid_value(
                                #[trigger] o.operands[j],
                            ) by {
                                assert(a.valid_value(o.operands[j]));
                                match o.operands[j] {
                                    Value::BlockArgument { block, .. } => {
                                        if block as int == blk as int {
                                            assert(b.block_at(blk as int).args == a.block_at(
                                                blk as int,
                                            ).args);
                                        }
                                    },
                                    Value::OperationResult { .. } => {},
                                }
                            }
                            match o.parent {
                                Some(bb) => {
                                    assert(a.is_block(bb as int));
                                    if bb as int == blk as int {
                                        assert(b.block_at(blk as int).ops == a.block_at(
                                            blk as int,
                                        ).ops);
                                    } else {
                                        assert(b.nodes[bb as int] == a.nodes[bb as int]);
                                    }
                                },
                                None => {},
                            }
                        },
                        NodeV::Block(bl) => {
                            assert(b.nodes[i] == a.nodes[i]);
                            assert forall|j: int| 0 <= j < bl.ops.len() implies b.is_op(
                                #[trigger] bl.ops[j] as int,
                            ) && b.op_at(bl.ops[j] as int).parent == Some(i as usize) by {
                                assert(a.is_op(bl.ops[j] as int));
                                assert(b.nodes[bl.ops[j] as int] == a.nodes[bl.ops[j] as int]);
                            }
                            match bl.parent {
                                Some(r) => {
                                    assert(a.is_region(r as int));
                                    if r as int == reg as int {
                                        assert(bl0.contains(i as usize));
                                        assert(bl1.contains(i as usize));
                                    } else {
                                        assert(b.nodes[r as int] == a.nodes[r as int]);
                                    }
                                },
                                None => {},
                            }
                        },
                        NodeV::Region(rg) => {
                            assert(b.nodes[i] == a.nodes[i]);
                            assert forall|j: int| 0 <= j < rg.blocks.len() implies b.is_block(
                                #[trigger] rg.blocks[j] as int,
                            ) && b.block_at(rg.blocks[j] as int).parent == Some(i as usize) by {
                                assert(a.is_block(rg.blocks[j] as int));
                                assert(rg.blocks[j] != blk);
                                assert(b.nodes[rg.blocks[j] as int] == a.nodes[rg.blocks[
                                    j
                                ] as int]);
                            }
                            match rg.parent {
                                Some(o) => {
                                    assert(a.is_op(o as int));
                                    assert(b.op_at(o as int).regions == a.op_at(o as int).regions);
                                },
                                None => {},
                            }
                        },
                    }
                }
            }
            lemma_terminates_after_attach(a, b, blk as int, reg as int);
        }
    }
}

} // verus!

verus! {

impl Context {
    /// Links a detached region onto an operation as its last region,
    /// transferring ownership to the operation.
    pub(crate) fn attach_region(&mut self, reg: usize, op: usize)
        requires
            old(self)@.wf(),
            old(self)@.is_region(reg as int),
            old(self)@.is_op(op as int),
            old(self)@.region_at(reg as int).parent is None,
            !reaches(old(self)@.pm(), op as int, reg as int),
        ensures
            final(self)@.wf(),
            same_surroundings(old(self)@, final(self)@),
            final(self)@.nodes.len() == old(self)@.nodes.len(),
            final(self)@.nodes == old(self)@.nodes.update(
                op as int,
                NodeV::Op(
                    OpNodeV {
                        regions: old(self)@.op_at(op as int).regions.push(reg),
                        ..old(self)@.op_at(op as int)
                    },
                ),
            ).update(
                reg as int,
                NodeV::Region(
                    RegionNodeV { parent: Some(op), ..old(self)@.region_at(reg as int) },
                ),
            ),
    {
        proof {
            assert(old(self)@.nodes[reg as int] is Region);
            assert(old(self)@.nodes[op as int] is Op);
        }
        let n = node_mut(&mut self.nodes, op);
        match n {
            Node::Op(on) => {
                on.regions.push(reg);
            },
            _ => {
                proof {
                    assert(false);
                }
            },
        }
        let n2 = node_mut(&mut self.nodes, reg);
        match n2 {
            Node::Region(rn) => {
                rn.parent = Some(op);
            },
            _ => {
                proof {
                    assert(false);
                }
            },
        }
        proof {
            let a = old(self)@;
            let b = final(self)@;
            let rg0 = a.op_at(op as int).regions;
            let rg1 = rg0.push(reg);
            assert(rg1 =~= rg0.insert(rg0.len() as int, reg));
            assert(b.nodes =~= a.nodes.update(
                op as int,
                NodeV::Op(OpNodeV { regions: rg1, ..a.op_at(op as int) }),
            ).update(
                reg as int,
                NodeV::Region(RegionNodeV { parent: Some(op), ..a.region_at(reg as int) }),
            ));
            lemma_insert_facts(rg0, rg0.len() as int, reg);
            assert(b.strings =~= a.strings);
            assert(b.table =~= a.table);
            assert(b.wf_strings());
            assert(b.wf_kinds());
            // The region was detached, so no operation in the arena lists it.
            assert forall|x: int, j: int|
                a.is_op(x) && 0 <= j < a.op_at(x).regions.len() implies #[trigger] a.op_at(
                x,
            ).regions[j] != reg by {
                assert(a.wf_node(x));
                if a.op_at(x).regions[j] == reg {
                    assert(a.region_at(reg as int).parent == Some(x as usize));
                }
            }
            assert(b.pm() =~= a.pm().insert(reg as int, Some(op as int))) by {
                assert forall|x: int| b.pm().dom().contains(x) implies b.pm()[x] == a.pm().insert(
                    reg as int,
                    Some(op as int),
                )[x] by {
                    if x != reg as int && x != op as int {
                        assert(b.nodes[x] == a.nodes[x]);
                    }
                }
            }
            assert forall|i: int| 0 <= i < b.nodes.len() implies b.wf_node(i) by {
                assert(a.wf_node(i));
                if i == reg as int {
                    let rg = b.region_at(i);
                    assert(rg1[rg0.len() as int] == reg);
                    assert(b.op_at(op as int).regions.contains(reg));
                    assert forall|j: int| 0 <= j < rg.blocks.len() implies b.is_block(
                        #[trigger] rg.blocks[j] as int,
                    ) && b.block_at(rg.blocks[j] as int).parent == Some(i as usize) by {
                        assert(a.is_block(rg.blocks[j] as int));
                        assert(b.nodes[rg.blocks[j] as int] == a.nodes[rg.blocks[j] as int]);
                    }
                } else if i == op as int {
                    let o = b.op_at(i);
                    assert(o.regions == rg1);
                    assert forall|j: int| 0 <= j < o.regions.len() implies b.is_region(
                        #[trigger] o.regions[j] as int,
                    ) && b.region_at(o.regions[j] as int).parent == Some(i as usize) by {
                        if j < rg0.len() {
                            assert(rg1[j] == rg0[j]);
                            assert(rg0.contains(rg0[j]));
                            assert(a.is_region(rg0[j] as int));
                            assert(rg0[j] != reg);
                        } else {
                            assert(rg1[j] == reg);
                        }
                    }
                    assert forall|j1: int, j2: int| 0 <= j1 < j2 < o.regions.len() implies (
                    #[trigger] o.regions[j1]) != (#[trigger] o.regions[j2]) by {
                        if j2 == rg0.len() {
                            assert(rg1[j1] == rg0[j1]);
                            assert(rg0.contains(rg0[j1]));
                        } else {
                            assert(rg1[j1] == rg0[j1] && rg1[j2] == rg0[j2]);
                        }
                    }
                    assert forall|j: int| 0 <= j < o.successors.len() implies b.is_block(
                        #[trigger] o.successors[j] as int,
                    ) by {
                        assert(a.is_block(o.successors[j] as int));
                    }
                    assert forall|j: int| 0 <= j < o.operands.len() implies b.valid_value(
                        #[trigger] o.operands[j],
                    ) by {
                        assert(a.valid_value(o.operands[j]));
                    }
                    match o.parent {
                        Some(bb) => {
                            assert(a.is_block(bb as int));
                            assert(b.nodes[bb as int] == a.nodes[bb as int]);
                        },
                        None => {},
                    }
                } else {
                    match b.nodes[i] {
                        NodeV::Op(o) => {
                            assert(b.nodes[i] == a.nodes[i]);
                            assert forall|j: int| 0 <= j < o.regions.len() implies b.is_region(
                                #[trigger] o.regions[j] as int,
                            ) && b.region_at(o.regions[j] as int).parent == Some(i as usize) by {
                                assert(a.is_region(o.regions[j] as int));
                                assert(o.regions[j] != reg);
                                assert(b.nodes[o.regions[j] as int] == a.nodes[o.regions[
                                    j
                                ] as int]);
                            }
                            assert forall|j: int| 0 <= j < o.successors.len() implies b.is_block(
                                #[trigger] o.successors[j] as int,
                            ) by {
                                assert(a.is_block(o.successors[j] as int));
                            }
                            assert forall|j: int| 0 <= j < o.operands.len() implies b.valid_value(
                                #[trigger] o.operands[j],
                            ) by {
                                assert(a.valid_value(o.operands[j]));
                                match o.operands[j] {
                                    Value::OperationResult { operation, .. } => {
                                        if operation as int == op as int {
                                            assert(b.op_at(op as int).result_types == a.op_at(
                                                op as int,
                                            ).result_types);
                                        }
                                    },
                                    Value::BlockArgument { .. } => {},
                                }
                            }
                            match o.parent {
                                Some(bb) => {
                                    assert(a.is_block(bb as int));
                                    assert(b.nodes[bb as int] == a.nodes[bb as int]);
                                },
                                None => {},
                            }
                        },
                        NodeV::Block(bl) => {
                            assert(b.nodes[i] == a.nodes[i]);
                            assert forall|j: int| 0 <= j < bl.ops.len() implies b.is_op(
                                #[trigger] bl.ops[j] as int,
                            ) && b.op_at(bl.ops[j] as int).parent == Some(i as usize) by {
                                assert(a.is_op(bl.ops[j] as int));
                                if bl.ops[j] as int == op as int {
                                    assert(b.op_at(op as int).parent == a.op_at(op as int).parent);
                                } else {
                                    assert(b.nodes[bl.ops[j] as int] == a.nodes[bl.ops[j] as int]);
                                }
                            }
                            match bl.parent {
                                Some(r) => {
                                    assert(a.is_region(r as int));
                                    assert(r as int != reg as int || a.region_at(
                                        reg as int,
                                    ).blocks.contains(i as usize));
                                    assert(b.region_at(r as int).blocks == a.region_at(
                                        r as int,
                                    ).blocks);
                                },
                                None => {},
                            }
                        },
                        NodeV::Region(rg) => {
                            assert(b.nodes[i] == a.nodes[i]);
                            assert forall|j: int| 0 <= j < rg.blocks.len() implies b.is_block(
                                #[trigger] rg.blocks[j] as int,
                            ) && b.block_at(rg.blocks[j] as int).parent == Some(i as usize) by {
                                assert(a.is_block(rg.blocks[j] as int));
                                assert(b.nodes[rg.blocks[j] as int] == a.nodes[rg.blocks[
                                    j
                                ] as int]);
                            }
                            match rg.parent {
                                Some(o) => {
                                    assert(a.is_op(o as int));
                                    if o as int == op as int {
                                        assert(rg0.contains(i as usize));
                                        assert(rg1.contains(i as usize));
                                    } else {
                                        assert(b.nodes[o as int] == a.nodes[o as int]);
                                    }
                                },
                                None => {},
                            }
                        },
                    }
                }
            }
            lemma_terminates_after_attach(a, b, reg as int, op as int);
        }
    }
}

} // verus!

verus! {

impl Context {
    /// Unlinks a block from its owning region, returning it to a detached
    /// state.  The region keeps its other blocks, in order.
    pub(crate) fn detach_block(&mut self, blk: usize)
        requires
            old(self)@.wf(),
            old(self)@.is_block(blk as int),
            old(self)@.block_at(blk as int).parent is Some,
        ensures
            final(self)@.wf(),
            same_surroundings(old(self)@, final(self)@),
            final(self)@.nodes.len() == old(self)@.nodes.len(),
            (old(self)@.block_at(blk as int).parent matches Some(r) && {
                let bl0 = old(self)@.region_at(r as int).blocks;
                let idx = pos_of(bl0, blk);
                &&& 0 <= idx < bl0.len()
                &&& bl0[idx] == blk
                &&& final(self)@.nodes == old(self)@.nodes.update(
                    r as int,
                    NodeV::Region(
                        RegionNodeV { blocks: bl0.remove(idx), ..old(self)@.region_at(r as int) },
                    ),
                ).update(
                    blk as int,
                    NodeV::Block(
                        BlockNodeV { parent: None, ..old(self)@.block_at(blk as int) },
                    ),
                )
            }),
    {
        let reg = match &self.nodes[blk] {
            Node::Block(bn) => match bn.parent {
                Some(r) => r,
                None => {
                    proof {
                        assert(self@.nodes[blk as int] == self.nodes@[blk as int]@);
                    }
                    vstd::pervasive::unreached()
                },
            },
            _ => {
                proof {
                    assert(self@.nodes[blk as int] == self.nodes@[blk as int]@);
                }
                vstd::pervasive::unreached()
            },
        };
        proof {
            assert(old(self)@.wf_node(blk as int));
            assert(old(self)@.is_region(reg as int));
            assert(old(self)@.region_at(reg as int).blocks.contains(blk));
            assert(old(self)@.nodes[reg as int] is Region);
        }
        let ghost bl0 = old(self)@.region_at(reg as int).blocks;
        let n = node_mut(&mut self.nodes, reg);
        match n {
            Node::Region(rn) => {
                let mut i: usize = 0;
                let mut found: usize = 0;
                let mut ok: bool = false;
                while i < rn.blocks.len()
                    invariant
                        0 <= i <= rn.blocks@.len(),
                        rn.blocks@ == bl0,
                        forall|j: int| 0 <= j < i ==> !ok ==> bl0[j] != blk,
                        ok ==> 0 <= found < i && bl0[found as int] == blk,
                    decreases rn.blocks@.len() - i,
                {
                    if rn.blocks[i] == blk {
                        found = i;
                        ok = true;
                        i = rn.blocks.len();
                    } else {
                        i = i + 1;
                    }
                }
                proof {
                    if !ok {
                        let j = choose|j: int| 0 <= j < bl0.len() && bl0[j] == blk;
                        assert(false);
                    }
                    assert(old(self)@.wf_node(reg as int));
                    assert forall|j: int| 0 <= j < bl0.len() && bl0[j] == blk implies j
                        == found as int by {
                        if j != found as int {
                            assert(bl0[j] != bl0[found as int]);
                        }
                    }
                    assert(pos_of(bl0, blk) == found as int);
                }
                rn.blocks.remove(found);
            },
            _ => {
                proof {
                    assert(false);
                }
            },
        }
        let n2 = node_mut(&mut self.nodes, blk);
        match n2 {
            Node::Block(bn) => {
                bn.parent = None;
            },
            _ => {
                proof {
                    assert(false);
                }
            },
        }
        proof {
            let a = old(self)@;
            let b = final(self)@;
            let idx = pos_of(bl0, blk);
            let bl1 = bl0.remove(idx);
            assert(a.wf_node(reg as int));
            assert(b.nodes =~= a.nodes.update(
                reg as int,
                NodeV::Region(RegionNodeV { blocks: bl1, ..a.region_at(reg as int) }),
            ).update(
                blk as int,
                NodeV::Block(BlockNodeV { parent: None, ..a.block_at(blk as int) }),
            ));
            lemma_remove_facts(bl0, idx);
            assert(b.strings =~= a.strings);
            assert(b.table =~= a.table);
            assert(b.wf_strings());
            assert(b.wf_kinds());
            // Only the owning region lists the block.
            assert forall|x: int, j: int|
                a.is_region(x) && 0 <= j < a.region_at(x).blocks.len() && #[trigger] a.region_at(
                    x,
                ).blocks[j] == blk implies x == reg as int by {
                assert(a.wf_node(x));
                assert(a.block_at(blk as int).parent == Some(x as usize));
            }
            assert(b.pm() =~= a.pm().insert(blk as int, None::<int>)) by {
                assert forall|x: int| b.pm().dom().contains(x) implies b.pm()[x] == a.pm().insert(
                    blk as int,
                    None::<int>,
                )[x] by {
                    if x != blk as int && x != reg as int {
                        assert(b.nodes[x] == a.nodes[x]);
                    }
                }
            }
            assert forall|i: int| 0 <= i < b.nodes.len() implies b.wf_node(i) by {
                assert(a.wf_node(i));
                if i == blk as int {
                    let bl = b.block_at(i);
                    assert forall|j: int| 0 <= j < bl.ops.len() implies b.is_op(
                        #[trigger] bl.ops[j] as int,
                    ) && b.op_at(bl.ops[j] as int).parent == Some(i as usize) by {
                        assert(a.is_op(bl.ops[j] as int));
                        assert(b.nodes[bl.ops[j] as int] == a.nodes[bl.ops[j] as int]);
                    }
                } else if i == reg as int {
                    let rg = b.region_at(i);
                    assert(rg.blocks == bl1);
                    assert forall|j: int| 0 <= j < rg.blocks.len() implies b.is_block(
                        #[trigger] rg.blocks[j] as int,
                    ) && b.block_at(rg.blocks[j] as int).parent == Some(i as usize) by {
                        assert(bl1.contains(bl1[j]));
                        assert(bl1[j] != blk);
                        assert(bl0.contains(bl1[j]));
                        let j0 = choose|j0: int| 0 <= j0 < bl0.len() && bl0[j0] == bl1[j];
                        assert(a.is_block(bl0[j0] as int));
                        assert(b.nodes[bl1[j] as int] == a.nodes[bl1[j] as int]);
                    }
                    assert forall|j1: int, j2: int| 0 <= j1 < j2 < rg.blocks.len() implies (
                    #[trigger] rg.blocks[j1]) != (#[trigger] rg.blocks[j2]) by {
                        let k1: int = if j1 < idx {
                            j1
                        } else {
                            j1 + 1
                        };
                        let k2: int = if j2 < idx {
                            j2
                        } else {
                            j2 + 1
                        };
                        assert(bl1[j1] == bl0[k1] && bl1[j2] == bl0[k2]);
                    }
                    match rg.parent {
                        Some(o) => {
                            assert(a.is_op(o as int));
                            assert(b.nodes[o as int] == a.nodes[o as int]);
                        },
                        None => {},
                    }
                } else {
                    match b.nodes[i] {
                        NodeV::Op(o) => {
                            assert(b.nodes[i] == a.nodes[i]);
                            assert forall|j: int| 0 <= j < o.regions.len() implies b.is_region(
                                #[trigger] o.regions[j] as int,
                            ) && b.region_at(o.regions[j] as int).parent == Some(i as usize) by {
                                assert(a.is_region(o.regions[j] as int));
                                if o.regions[j] as int == reg as int {
                                    assert(b.region_at(reg as int).parent == a.region_at(
                                        reg as int,
                                    ).parent);
                                } else {
                                    assert(b.nodes[o.regions[j] as int] == a.nodes[o.regions[
                                        j
                                    ] as int]);
                                }
                            }
                            assert forall|j: int| 0 <= j < o.successors.len() implies b.is_block(
                                #[trigger] o.successors[j] as int,
                            ) by {
                                assert(a.is_block(o.successors[j] as int));
                            }
                            assert forall|j: int| 0 <= j < o.operands.len() implies b.valid_value(
                                #[trigger] o.operands[j],
                            ) by {
                                assert(a.valid_value(o.operands[j]));
                                match o.operands[j] {
                                    Value::BlockArgument { block, .. } => {
                                        if block as int == blk as int {
                                            assert(b.block_at(blk as int).args == a.block_at(
                                                blk as int,
                                            ).args);
                                        }
                                    },
                                    Value::OperationResult { .. } => {},
                                }
                            }
                            match o.parent {
                                Some(bb) => {
                                    assert(a.is_block(bb as int));
                                    if bb as int == blk as int {
                                        assert(b.block_at(blk as int).ops == a.block_at(
                                            blk as int,
                                        ).ops);
                                    } else {
                                        assert(b.nodes[bb as int] == a.nodes[bb as int]);
                                    }
                                },
                                None => {},
                            }
                        },
                        NodeV::Block(bl) => {
                            assert(b.nodes[i] == a.nodes[i]);
                            assert forall|j: int| 0 <= j < bl.ops.len() implies b.is_op(
                                #[trigger] bl.ops[j] as int,
                            ) && b.op_at(bl.ops[j] as int).parent == Some(i as usize) by {
                                assert(a.is_op(bl.ops[j] as int));
                                assert(b.nodes[bl.ops[j] as int] == a.nodes[bl.ops[j] as int]);
                            }
                            match bl.parent {
                                Some(r) => {
                                    assert(a.is_region(r as int));
                                    if r as int == reg as int {
                                        assert(a.region_at(reg as int).blocks.contains(
                                            i as usize,
                                        ));
                                        assert(i as usize != blk);
                                        assert(bl1.contains(i as usize));
                                    } else {
                                        assert(b.nodes[r as int] == a.nodes[r as int]);
                                    }
                                },
                                None => {},
                            }
                        },
                        NodeV::Region(rg) => {
                            assert(b.nodes[i] == a.nodes[i]);
                            assert forall|j: int| 0 <= j < rg.blocks.len() implies b.is_block(
                                #[trigger] rg.blocks[j] as int,
                            ) && b.block_at(rg.blocks[j] as int).parent == Some(i as usize) by {
                                assert(a.is_block(rg.blocks[j] as int));
                                assert(a.region_at(i).blocks[j] == rg.blocks[j]);
                                assert(rg.blocks[j] != blk);
                                assert(b.nodes[rg.blocks[j] as int] == a.nodes[rg.blocks[
                                    j
                                ] as int]);
                            }
                            match rg.parent {
                                Some(o) => {
                                    assert(a.is_op(o as int));
                                    assert(b.op_at(o as int).regions == a.op_at(o as int).regions);
                                },
                                None => {},
                            }
                        },
                    }
                }
            }
            lemma_terminates_after_root(a, b, blk as int);
        }
    }
}

} // verus!

verus! {

impl Context {
    /// Appends an argument to a block.
    pub(crate) fn push_arg(&mut self, blk: usize, arg: BlockArg) -> (r: usize)
        requires
            old(self)@.wf(),
            old(self)@.is_block(blk as int),
            type_ok(arg@.ty),
            location_ok(arg@.location),
        ensures
            final(self)@.wf(),
            same_surroundings(old(self)@, final(self)@),
            final(self)@.nodes == old(self)@.nodes.update(
                blk as int,
                NodeV::Block(
                    BlockNodeV {
                        args: old(self)@.block_at(blk as int).args.push(arg@),
                        ..old(self)@.block_at(blk as int)
                    },
                ),
            ),
            r == old(self)@.block_at(blk as int).args.len(),
    {
        proof {
            assert(old(self)@.nodes[blk as int] is Block);
        }
        let n = node_mut(&mut self.nodes, blk);
        let r = match n {
            Node::Block(bn) => {
                let r = bn.args.len();
                bn.args.push(arg);
                r
            },
            _ => {
                proof {
                    assert(false);
                }
                0
            },
        };
        proof {
            let a = old(self)@;
            let b = final(self)@;
            let args1 = a.block_at(blk as int).args.push(arg@);
            assert(arg_views(old(self).nodes@[blk as int]->Block_0.args@.push(arg)) =~= args1);
            assert(b.nodes =~= a.nodes.update(
                blk as int,
                NodeV::Block(BlockNodeV { args: args1, ..a.block_at(blk as int) }),
            ));
            assert(b.strings =~= a.strings);
            assert(b.table =~= a.table);
            assert(b.wf_strings());
            assert(b.wf_kinds());
            assert(b.pm() =~= a.pm()) by {
                assert forall|x: int| b.pm().dom().contains(x) implies b.pm()[x] == a.pm()[x] by {
                    if x != blk as int {
                        assert(b.nodes[x] == a.nodes[x]);
                    }
                }
            }
            assert(a.wf_node(blk as int));
            assert forall|j: int|
                0 <= j < b.block_at(blk as int).args.len() implies type_ok(
                (#[trigger] b.block_at(blk as int).args[j]).ty,
            ) && location_ok(b.block_at(blk as int).args[j].location) by {
                if j < a.block_at(blk as int).args.len() {
                    assert(a.block_at(blk as int).args[j] == b.block_at(blk as int).args[j]);
                } else {
                    assert(b.block_at(blk as int).args[j] == arg@);
                }
            }
            assert forall|i: int| 0 <= i < b.nodes.len() implies b.wf_node(i) by {
                assert(a.wf_node(i));
                lemma_wf_node_args_frame(a, b, i, blk as int);
            }
            assert forall|i: int| 0 <= i < b.nodes.len() implies terminates(b.pm(), i) by {
                assert(terminates(a.pm(), i));
            }
        }
        r
    }
}

/// Growing one block's argument list preserves the well-formedness of every
/// node: positions into the old list stay in range.
proof fn lemma_wf_node_args_frame(a: ContextV, b: ContextV, i: int, blk: int)
    requires
        a.wf_node(i),
        0 <= i < a.nodes.len(),
        b.nodes.len() == a.nodes.len(),
        a.strings.len() == b.strings.len(),
        a.is_block(blk),
        forall|x: int| 0 <= x < a.nodes.len() && x != blk ==> #[trigger] b.nodes[x] == a.nodes[x],
        b.nodes[blk] is Block,
        b.block_at(blk).ops == a.block_at(blk).ops,
        b.block_at(blk).parent == a.block_at(blk).parent,
        b.block_at(blk).args.len() >= a.block_at(blk).args.len(),
        forall|j: int|
            0 <= j < b.block_at(blk).args.len() ==> type_ok(
                (#[trigger] b.block_at(blk).args[j]).ty,
            ) && location_ok(b.block_at(blk).args[j].location),
        b.nodes[i] == a.nodes[i] || i == blk,
    ensures
        b.wf_node(i),
{
    match b.nodes[i] {
        NodeV::Op(o) => {
            assert(b.nodes[i] == a.nodes[i]);
            assert forall|j: int| 0 <= j < o.regions.len() implies b.is_region(
                #[trigger] o.regions[j] as int,
            ) && b.region_at(o.regions[j] as int).parent == Some(i as usize) by {
                assert(a.is_region(o.regions[j] as int));
            }
            assert forall|j: int| 0 <= j < o.successors.len() implies b.is_block(
                #[trigger] o.successors[j] as int,
            ) by {
                assert(a.is_block(o.successors[j] as int));
            }
            assert forall|j: int| 0 <= j < o.operands.len() implies b.valid_value(
                #[trigger] o.operands[j],
            ) by {
                assert(a.valid_value(o.operands[j]));
            }
            match o.parent {
                Some(bb) => {
                    assert(a.is_block(bb as int));
                    if bb as int == blk {
                        assert(b.block_at(blk).ops.contains(i as usize));
                    }
                },
                None => {},
            }
        },
        NodeV::Block(bl) => {
            assert forall|j: int| 0 <= j < bl.ops.len() implies b.is_op(#[trigger] bl.ops[j] as int)
                && b.op_at(bl.ops[j] as int).parent == Some(i as usize) by {
                if i == blk {
                    assert(a.block_at(blk).ops[j] == bl.ops[j]);
                }
                assert(a.is_op(bl.ops[j] as int));
            }
            match bl.parent {
                Some(r) => {
                    assert(a.is_region(r as int));
                    if i == blk {
                        assert(a.region_at(r as int).blocks.contains(i as usize));
                    }
                },
                None => {},
            }
        },
        NodeV::Region(rg) => {
            assert(b.nodes[i] == a.nodes[i]);
            assert forall|j: int| 0 <= j < rg.blocks.len() implies b.is_block(
                #[trigger] rg.blocks[j] as int,
            ) && b.block_at(rg.blocks[j] as int).parent == Some(i as usize) by {
                assert(a.is_block(rg.blocks[j] as int));
            }
            match rg.parent {
                Some(o) => {
                    assert(a.is_op(o as int));
                },
                None => {},
            }
        },
    }
}

} // verus!

verus! {

/// The operations of a block are pairwise distinct.
pub proof fn lemma_block_ops_distinct(cv: ContextV, blk: int, j1: int, j2: int)
    requires
        cv.wf(),
        cv.is_block(blk),
        0 <= j1 < cv.block_at(blk).ops.len(),
        0 <= j2 < cv.block_at(blk).ops.len(),
        j1 != j2,
    ensures
        cv.block_at(blk).ops[j1] != cv.block_at(blk).ops[j2],
{
    assert(cv.wf_node(blk));
    match cv.nodes[blk] {
        NodeV::Block(b) => {
            if j1 < j2 {
                assert(b.ops[j1] != b.ops[j2]);
            } else {
                assert(b.ops[j2] != b.ops[j1]);
            }
        },
        _ => {},
    }
}

/// The blocks of a region are pairwise distinct.
pub proof fn lemma_region_blocks_distinct(cv: ContextV, reg: int, j1: int, j2: int)
    requires
        cv.wf(),
        cv.is_region(reg),
        0 <= j1 < cv.region_at(reg).blocks.len(),
        0 <= j2 < cv.region_at(reg).blocks.len(),
        j1 != j2,
    ensures
        cv.region_at(reg).blocks[j1] != cv.region_at(reg).blocks[j2],
{
    assert(cv.wf_node(reg));
    match cv.nodes[reg] {
        NodeV::Region(r) => {
            if j1 < j2 {
                assert(r.blocks[j1] != r.blocks[j2]);
            } else {
                assert(r.blocks[j2] != r.blocks[j1]);
            }
        },
        _ => {},
    }
}

} // verus!

verus! {

/// A kind with the given name is registered.
pub open spec fn has_kind(cv: ContextV, n: Seq<char>) -> bool {
    exists|i: int|
        0 <= i < cv.kinds.len() && cv.strings[(#[trigger] cv.kinds[i]).name as int] == n
}

/// The registered kind of the given name.
pub open spec fn kind_for(cv: ContextV, n: Seq<char>) -> KindInfo {
    cv.kinds[choose|i: int|
        0 <= i < cv.kinds.len() && cv.strings[(#[trigger] cv.kinds[i]).name as int] == n]
}

/// Registered kind entries with distinct name ids name distinct strings.
pub proof fn lemma_kind_unique_pub(cv: ContextV, i1: int, i2: int)
    requires
        cv.wf(),
        0 <= i1 < cv.kinds.len(),
        0 <= i2 < cv.kinds.len(),
        cv.strings[cv.kinds[i1].name as int] == cv.strings[cv.kinds[i2].name as int],
    ensures
        i1 == i2,
{
    lemma_kind_unique(cv, i1, i2);
}

proof fn lemma_kind_unique(cv: ContextV, i1: int, i2: int)
    requires
        cv.wf(),
        0 <= i1 < cv.kinds.len(),
        0 <= i2 < cv.kinds.len(),
        cv.strings[cv.kinds[i1].name as int] == cv.strings[cv.kinds[i2].name as int],
    ensures
        i1 == i2,
{
    if i1 != i2 {
        assert(cv.kinds[i1].name != cv.kinds[i2].name);
        assert(cv.table.dom().contains(cv.strings[cv.kinds[i1].name as int]));
        assert(cv.table[cv.strings[cv.kinds[i1].name as int]] == cv.kinds[i1].name);
        assert(cv.table[cv.strings[cv.kinds[i2].name as int]] == cv.kinds[i2].name);
    }
}

impl Context {
    /// Looks a kind up by name in the registry.
    pub fn find_kind_by_name(&self, name: &String) -> (r: Option<KindInfo>)
        requires
            self@.wf(),
        ensures
            r is Some <==> has_kind(self@, name@),
            r matches Some(k) ==> k == kind_for(self@, name@),
    {
        let mut i: usize = 0;
        while i < self.kinds.len()
            invariant
                self@.wf(),
                0 <= i <= self@.kinds.len(),
                forall|j: int|
                    0 <= j < i ==> self@.strings[(#[trigger] self@.kinds[j]).name as int] != name@,
            decreases self@.kinds.len() - i,
        {
            let k = self.kinds[i];
            proof {
                assert(self@.wf_kinds());
                assert(self@.kinds[i as int].name < self@.strings.len());
            }
            if self.strings[k.name] == *name {
                proof {
                    assert(self@.strings[self@.kinds[i as int].name as int] == name@);
                    assert(has_kind(self@, name@));
                    let w = choose|w: int|
                        0 <= w < self@.kinds.len() && self@.strings[(
                        #[trigger] self@.kinds[w]).name as int] == name@;
                    lemma_kind_unique(self@, w, i as int);
                }
                return Some(k);
            }
            i = i + 1;
        }
        proof {
            if has_kind(self@, name@) {
                let w = choose|w: int|
                    0 <= w < self@.kinds.len() && self@.strings[(
                    #[trigger] self@.kinds[w]).name as int] == name@;
                assert(false);
            }
        }
        None
    }

    /// Registers an operation kind: its expected result and region arities
    /// and whether its result type follows from its first operand.  A later
    /// registration of the same name replaces the earlier one.
    pub fn register_kind(
        &mut self,
        name: &str,
        result_arity: Option<usize>,
        region_arity: Option<usize>,
        infer_from_operand: bool,
    )
        requires
            old(self)@.wf(),
        ensures
            final(self)@.wf(),
            final(self)@.nodes == old(self)@.nodes,
            final(self)@.allow_unregistered == old(self)@.allow_unregistered,
            old(self)@.strings.len() <= final(self)@.strings.len(),
            forall|i: int|
                0 <= i < old(self)@.strings.len() ==> final(self)@.strings[i] == old(
                    self,
                )@.strings[i],
            has_kind(final(self)@, name@),
            ({
                let k = kind_for(final(self)@, name@);
                k.result_arity == result_arity && k.region_arity == region_arity
                    && k.infer_from_operand == infer_from_operand
            }),
    {
        let id = self.intern(name);
        let info = KindInfo { name: id.id, result_arity, region_arity, infer_from_operand };
        let ghost mid = self@;
        let mut i: usize = 0;
        while i < self.kinds.len()
            invariant
                self@ == mid,
                self@.wf(),
                mid.nodes == old(self)@.nodes,
                mid.allow_unregistered == old(self)@.allow_unregistered,
                old(self)@.strings.len() <= mid.strings.len(),
                forall|q: int|
                    0 <= q < old(self)@.strings.len() ==> mid.strings[q] == old(self)@.strings[q],
                id.id < self@.strings.len(),
                self@.strings[id.id as int] == name@,
                info == (KindInfo { name: id.id, result_arity, region_arity, infer_from_operand }),
                0 <= i <= self@.kinds.len(),
                forall|j: int| 0 <= j < i ==> (#[trigger] self@.kinds[j]).name != id.id,
            decreases self@.kinds.len() - i,
        {
            if self.kinds[i].name == id.id {
                self.kinds.set(i, info);
                proof {
                    let b = final(self)@;
                    assert(b.nodes =~= mid.nodes);
                    assert(b.strings =~= mid.strings);
                    assert(b.table =~= mid.table);
                    assert(b.pm() =~= mid.pm());
                    assert(b.wf_strings());
                    assert(b.wf_kinds()) by {
                        assert forall|j1: int, j2: int|
                            0 <= j1 < j2 < b.kinds.len() implies (#[trigger] b.kinds[j1]).name != (
                        #[trigger] b.kinds[j2]).name by {
                            assert(mid.kinds[j1].name != mid.kinds[j2].name);
                        }
                    }
                    lemma_same_nodes_wf(mid, b);
                    assert(b.kinds[i as int] == info);
                    assert(b.strings[info.name as int] == name@);
                    assert(has_kind(b, name@));
                    let w = choose|w: int|
                        0 <= w < b.kinds.len() && b.strings[(#[trigger] b.kinds[w]).name as int]
                            == name@;
                    lemma_kind_unique(b, w, i as int);
                }
                return ;
            }
            i = i + 1;
        }
        self.kinds.push(info);
        proof {
            let b = final(self)@;
            assert(b.nodes =~= mid.nodes);
            assert(b.strings =~= mid.strings);
            assert(b.table =~= mid.table);
            assert(b.pm() =~= mid.pm());
            assert(b.wf_strings());
            assert(b.kinds =~= mid.kinds.push(info));
            assert(b.wf_kinds()) by {
                assert forall|j1: int, j2: int|
                    0 <= j1 < j2 < b.kinds.len() implies (#[trigger] b.kinds[j1]).name != (
                #[trigger] b.kinds[j2]).name by {
                    if j2 == b.kinds.len() - 1 {
                        assert(mid.kinds[j1].name != id.id);
                    } else {
                        assert(mid.kinds[j1].name != mid.kinds[j2].name);
                    }
                }
            }
            lemma_same_nodes_wf(mid, b);
            let n = b.kinds.len() - 1;
            assert(b.kinds[n] == info);
            assert(b.strings[info.name as int] == name@);
            assert(has_kind(b, name@));
            let w = choose|w: int|
                0 <= w < b.kinds.len() && b.strings[(#[trigger] b.kinds[w]).name as int] == name@;
            lemma_kind_unique(b, w, n);
        }
    }

    /// The type of a value, read off the entity that defines it.
    pub fn value_type(&self, v: Value) -> (r: Type)
        requires
            self@.wf(),
            self@.valid_value(v),
        ensures
            r@ == self@.value_type(v),
    {
        match v {
            Value::BlockArgument { block, position } => {
                let node = self.block_node(block);
                node.args[position].ty.clone()
            },
            Value::OperationResult { operation, position } => {
                let node = self.op_node(operation);
                node.result_types[position].clone()
            },
        }
    }
}

} // verus!

verus! {

/// The type a value carries is well formed: it was checked when its block
/// argument or result declaration entered the arena.
pub proof fn lemma_value_type_ok(cv: ContextV, v: Value)
    requires
        cv.wf(),
        cv.valid_value(v),
    ensures
        type_ok(cv.value_type(v)),
{
    match v {
        Value::BlockArgument { block, position } => {
            assert(cv.wf_node(block as int));
        },
        Value::OperationResult { operation, position } => {
            assert(cv.wf_node(operation as int));
        },
    }
}

} // verus!

verus! {

use crate::ancestry::{depth, lemma_depth_bound, lemma_depth_step};

/// A termination measure for walking down the tree: children measure
/// strictly less than their parents.
pub open spec fn node_measure(cv: ContextV, n: int) -> int {
    cv.nodes.len() + 2 - depth(cv.pm(), n)
}

/// The parent-link table covers exactly the arena and is finite.
pub proof fn lemma_pm_finite(cv: ContextV)
    ensures
        cv.pm().dom().finite(),
        cv.pm().dom().len() == cv.nodes.len(),
{
    assert(cv.pm().dom() =~= vstd::set_lib::set_int_range(0, cv.nodes.len() as int));
    vstd::set_lib::lemma_int_range(0, cv.nodes.len() as int);
}

/// A child of a well-formed arena has a smaller, nonnegative measure than
/// its parent.
pub proof fn lemma_child_measure(cv: ContextV, c: int, p: int)
    requires
        cv.wf(),
        0 <= c < cv.nodes.len(),
        0 <= p < cv.nodes.len(),
        opt_as_int(parent_of(cv.nodes[c])) == Some(p),
    ensures
        0 <= node_measure(cv, c) < node_measure(cv, p),
{
    let m = cv.pm();
    assert(m.dom().contains(c));
    assert(m[c] == Some(p));
    assert(terminates(m, c));
    lemma_depth_step(m, c, p);
    lemma_pm_finite(cv);
    lemma_depth_bound(m, c);
}

} // verus!

verus! {

/// The downward measure of any node of a well-formed arena is nonnegative.
pub proof fn lemma_measure_nonneg(cv: ContextV, n: int)
    requires
        cv.wf(),
        0 <= n < cv.nodes.len(),
    ensures
        node_measure(cv, n) >= 0,
{
    lemma_pm_finite(cv);
    assert(terminates(cv.pm(), n));
    lemma_depth_bound(cv.pm(), n);
}

} // verus!

verus! {

impl Context {
    /// Whether unregistered operation kinds are allowed during verification.
    pub fn allow_unregistered_dialects(&self) -> (r: bool)
        ensures
            r == self@.allow_unregistered,
    {
        self.allow_unregistered
    }
}

} // verus!

verus! {

impl StringRef {
    /// The text of the interned string, read from its context.
    pub fn as_str<'a>(&self, ctx: &'a Context) -> (s: &'a str)
        requires
            self.id < ctx@.strings.len(),
        ensures
            s@ == ctx@.strings[self.id as int],
    {
        ctx.lookup(*self)
    }
}

} // verus!

verus! {

impl Context {
    /// Replaces the type of one block argument.
    pub(crate) fn set_arg_ty(&mut self, blk: usize, pos: usize, ty: Type)
        requires
            old(self)@.wf(),
            old(self)@.is_block(blk as int),
            pos < old(self)@.block_at(blk as int).args.len(),
            type_ok(ty@),
        ensures
            final(self)@.wf(),
            same_surroundings(old(self)@, final(self)@),
            final(self)@.nodes == old(self)@.nodes.update(
                blk as int,
                NodeV::Block(
                    BlockNodeV {
                        args: old(self)@.block_at(blk as int).args.update(
                            pos as int,
                            BlockArgV {
                                ty: ty@,
                                location: old(self)@.block_at(blk as int).args[pos as int].location,
                            },
                        ),
                        ..old(self)@.block_at(blk as int)
                    },
                ),
            ),
    {
        proof {
            assert(old(self)@.nodes[blk as int] is Block);
        }
        let n = node_mut(&mut self.nodes, blk);
        match n {
            Node::Block(bn) => {
                let location = bn.args[pos].location.clone();
                bn.args.set(pos, BlockArg { ty, location });
            },
            _ => {
                proof {
                    assert(false);
                }
            },
        }
        proof {
            let a = old(self)@;
            let b = final(self)@;
            let args1 = a.block_at(blk as int).args.update(
                pos as int,
                BlockArgV { ty: ty@, location: a.block_at(blk as int).args[pos as int].location },
            );
            assert(b.nodes.len() == a.nodes.len());
            assert(b.nodes[blk as int] is Block);
            assert(b.block_at(blk as int).args.len() == args1.len());
            assert(b.block_at(blk as int).args[pos as int].ty == ty@);
            assert(b.block_at(blk as int).args[pos as int].location == a.block_at(
                blk as int,
            ).args[pos as int].location);
            assert forall|j: int|
                0 <= j < args1.len() implies b.block_at(blk as int).args[j] == args1[j] by {
                if j != pos as int {
                    assert(b.block_at(blk as int).args[j] == a.block_at(blk as int).args[j]);
                }
            }
            assert(b.block_at(blk as int).args =~= args1);
            assert(b.block_at(blk as int).ops == a.block_at(blk as int).ops);
            assert(b.block_at(blk as int).parent == a.block_at(blk as int).parent);
            assert(b.nodes =~= a.nodes.update(
                blk as int,
                NodeV::Block(BlockNodeV { args: args1, ..a.block_at(blk as int) }),
            ));
            assert(b.strings =~= a.strings);
            assert(b.table =~= a.table);
            assert(b.wf_strings());
            assert(b.wf_kinds());
            assert(b.pm() =~= a.pm()) by {
                assert forall|x: int| b.pm().dom().contains(x) implies b.pm()[x] == a.pm()[x] by {
                    if x != blk as int {
                        assert(b.nodes[x] == a.nodes[x]);
                    }
                }
            }
            assert(a.wf_node(blk as int));
            assert forall|j: int|
                0 <= j < b.block_at(blk as int).args.len() implies type_ok(
                (#[trigger] b.block_at(blk as int).args[j]).ty,
            ) && location_ok(b.block_at(blk as int).args[j].location) by {
                if j != pos as int {
                    assert(a.block_at(blk as int).args[j] == b.block_at(blk as int).args[j]);
                } else {
                    assert(location_ok(a.block_at(blk as int).args[pos as int].location));
                }
            }
            assert forall|i: int| 0 <= i < b.nodes.len() implies b.wf_node(i) by {
                assert(a.wf_node(i));
                lemma_wf_node_args_frame(a, b, i, blk as int);
            }
            assert forall|i: int| 0 <= i < b.nodes.len() implies terminates(b.pm(), i) by {
                assert(terminates(a.pm(), i));
            }
        }
    }
}

} // verus!
