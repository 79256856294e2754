//! The operation builder: accumulates an operation's shape and performs
//! one-shot construction.
//!
//! Mutators consume and return the builder, so a built builder cannot be
//! reused.  `build` is the sole point of construction: it resolves result
//! types, interns the name and attribute keys, and produces a detached
//! operation whose regions were taken from the builder.

use crate::ancestry::lemma_root_reaches_only_self;
use crate::attr::{NamedAttribute, NamedAttributeV};
use crate::block::BlockRef;
use crate::chars::{attr_text_ok, ident_ok};
use crate::context::{
    attr_views, has_kind, kind_for, type_views, AttrPair, Context, ContextV, Node, NodeV, OpNode,
    OpNodeV, RegionNodeV,
};
use crate::location::{location_ok, Location};
use crate::operation::Operation;
use crate::region::Region;
use crate::types::{type_ok, Type, TypeV};
use crate::value::Value;
use crate::Error;
use vstd::prelude::*;

verus! {

/// An operation builder.
#[derive(Debug)]
pub struct Builder {
    pub name: String,
    pub location: Location,
    pub operands: Vec<Value>,
    pub result_types: Vec<Type>,
    pub regions: Vec<Region>,
    pub successors: Vec<usize>,
    pub attributes: Vec<NamedAttribute>,
    pub infer: bool,
}

/// The ids of a list of owned regions.
pub open spec fn region_ids(s: Seq<Region>) -> Seq<usize> {
    Seq::new(s.len(), |i: int| s[i].id)
}

/// The views of a list of named attributes.
pub open spec fn na_views(s: Seq<NamedAttribute>) -> Seq<NamedAttributeV> {
    Seq::new(s.len(), |i: int| s[i]@)
}

/// Attribute keys are pairwise distinct.
pub open spec fn attr_keys_unique(s: Seq<NamedAttributeV>) -> bool {
    forall|i: int, j: int| 0 <= i < j < s.len() ==> (#[trigger] s[i]).name != (#[trigger] s[j]).name
}

/// Every attribute has an identifier key and a printable value text.
pub open spec fn attrs_ok(s: Seq<NamedAttributeV>) -> bool {
    forall|i: int|
        0 <= i < s.len() ==> ident_ok((#[trigger] s[i]).name) && attr_text_ok(s[i].text)
}

/// An attribute list holds a key.
pub open spec fn has_attr_key(s: Seq<NamedAttributeV>, n: Seq<char>) -> bool {
    exists|j: int| 0 <= j < s.len() && (#[trigger] s[j]).name == n
}

/// The position of a key in an attribute list.
pub open spec fn attr_key_index(s: Seq<NamedAttributeV>, n: Seq<char>) -> int {
    choose|j: int| 0 <= j < s.len() && (#[trigger] s[j]).name == n
}

/// Adding one attribute: a duplicate key overwrites the earlier entry in
/// place, a fresh key goes to the end.
pub open spec fn upsert(s: Seq<NamedAttributeV>, a: NamedAttributeV) -> Seq<NamedAttributeV> {
    if has_attr_key(s, a.name) {
        s.update(attr_key_index(s, a.name), a)
    } else {
        s.push(a)
    }
}

/// Adding a list of attributes, left to right.
pub open spec fn upsert_all(s: Seq<NamedAttributeV>, adds: Seq<NamedAttributeV>) -> Seq<
    NamedAttributeV,
>
    decreases adds.len(),
{
    if adds.len() == 0 {
        s
    } else {
        upsert_all(upsert(s, adds[0]), adds.subrange(1, adds.len() as int))
    }
}

impl Builder {
    /// The accumulated state is well formed: a valid name and location, and
    /// valid attributes under distinct keys.
    pub open spec fn accum_ok(self) -> bool {
        &&& ident_ok(self.name@)
        &&& location_ok(self.location@)
        &&& attrs_ok(na_views(self.attributes@))
        &&& attr_keys_unique(na_views(self.attributes@))
    }

    /// Starts accumulating an operation of the given name at the given
    /// location.
    pub fn new(name: &str, location: Location) -> (r: Builder)
        requires
            ident_ok(name@),
            location_ok(location@),
        ensures
            r.accum_ok(),
            r.name@ == name@,
            r.location@ == location@,
            r.operands@ == Seq::<Value>::empty(),
            r.result_types@ == Seq::<Type>::empty(),
            region_ids(r.regions@) == Seq::<usize>::empty(),
            r.successors@ == Seq::<usize>::empty(),
            na_views(r.attributes@) == Seq::<NamedAttributeV>::empty(),
            !r.infer,
    {
        let r = Builder {
            name: name.to_owned(),
            location,
            operands: Vec::new(),
            result_types: Vec::new(),
            regions: Vec::new(),
            successors: Vec::new(),
            attributes: Vec::new(),
            infer: false,
        };
        proof {
            assert(region_ids(r.regions@) =~= Seq::<usize>::empty());
            assert(na_views(r.attributes@) =~= Seq::<NamedAttributeV>::empty());
        }
        r
    }

    /// Adds result type declarations.
    pub fn add_results(self, results: Vec<Type>) -> (r: Builder)
        ensures
            type_views(r.result_types@) == type_views(self.result_types@) + type_views(results@),
            r.name@ == self.name@ && r.location@ == self.location@ && r.operands@ == self.operands@
                && r.regions@ == self.regions@ && r.successors@ == self.successors@
                && r.attributes@ == self.attributes@ && r.infer == self.infer,
            r.accum_ok() == self.accum_ok(),
    {
        let mut b = self;
        let mut more = results;
        proof {
            let lhs = type_views(b.result_types@ + more@);
            let rhs = type_views(b.result_types@) + type_views(more@);
            assert(lhs =~= rhs);
        }
        b.result_types.append(&mut more);
        b
    }

    /// Adds operand values.
    pub fn add_operands(self, operands: Vec<Value>) -> (r: Builder)
        ensures
            r.operands@ == self.operands@ + operands@,
            r.name@ == self.name@ && r.location@ == self.location@ && r.result_types@
                == self.result_types@ && r.regions@ == self.regions@ && r.successors@
                == self.successors@ && r.attributes@ == self.attributes@ && r.infer == self.infer,
            r.accum_ok() == self.accum_ok(),
    {
        let mut b = self;
        let mut more = operands;
        b.operands.append(&mut more);
        b
    }

    /// Adds owned regions; their ownership moves into the builder.
    pub fn add_regions(self, regions: Vec<Region>) -> (r: Builder)
        ensures
            region_ids(r.regions@) == region_ids(self.regions@) + region_ids(regions@),
            r.name@ == self.name@ && r.location@ == self.location@ && r.operands@ == self.operands@
                && r.result_types@ == self.result_types@ && r.successors@ == self.successors@
                && r.attributes@ == self.attributes@ && r.infer == self.infer,
            r.accum_ok() == self.accum_ok(),
    {
        let mut b = self;
        let mut more = regions;
        proof {
            let lhs = region_ids(b.regions@ + more@);
            let rhs = region_ids(b.regions@) + region_ids(more@);
            assert(lhs =~= rhs);
        }
        b.regions.append(&mut more);
        b
    }

    /// Adds successor block references.
    pub fn add_successors(self, successors: Vec<BlockRef>) -> (r: Builder)
        ensures
            r.successors@.len() == self.successors@.len() + successors@.len(),
            forall|j: int| 0 <= j < self.successors@.len() ==> r.successors@[j] == self.successors@[j],
            forall|j: int|
                0 <= j < successors@.len() ==> r.successors@[self.successors@.len() + j] == (
                #[trigger] successors@[j]).id,
            r.name@ == self.name@ && r.location@ == self.location@ && r.operands@ == self.operands@
                && r.result_types@ == self.result_types@ && r.regions@ == self.regions@
                && r.attributes@ == self.attributes@ && r.infer == self.infer,
            r.accum_ok() == self.accum_ok(),
    {
        let mut b = self;
        let mut i: usize = 0;
        while i < successors.len()
            invariant
                0 <= i <= successors@.len(),
                b.successors@.len() == self.successors@.len() + i,
                forall|j: int|
                    0 <= j < self.successors@.len() ==> b.successors@[j] == self.successors@[j],
                forall|j: int|
                    0 <= j < i ==> b.successors@[self.successors@.len() + j] == (
                    #[trigger] successors@[j]).id,
                b.name@ == self.name@ && b.location@ == self.location@ && b.operands@
                    == self.operands@ && b.result_types@ == self.result_types@ && b.regions@
                    == self.regions@ && b.attributes@ == self.attributes@ && b.infer == self.infer,
            decreases successors@.len() - i,
        {
            b.successors.push(successors[i].id);
            i = i + 1;
        }
        b
    }

    /// Adds named attributes.  A later attribute whose key repeats an earlier
    /// one overwrites the earlier entry in place.
    pub fn add_attributes(self, attributes: Vec<NamedAttribute>) -> (r: Builder)
        requires
            self.accum_ok(),
            attrs_ok(na_views(attributes@)),
        ensures
            na_views(r.attributes@) == upsert_all(na_views(self.attributes@), na_views(attributes@)),
            r.name@ == self.name@ && r.location@ == self.location@ && r.operands@ == self.operands@
                && r.result_types@ == self.result_types@ && r.regions@ == self.regions@
                && r.successors@ == self.successors@ && r.infer == self.infer,
            r.accum_ok(),
    {
        let mut b = self;
        let ghost orig = na_views(b.attributes@);
        let ghost adds = na_views(attributes@);
        let mut i: usize = 0;
        proof {
            assert(adds.subrange(0, adds.len() as int) =~= adds);
        }
        while i < attributes.len()
            invariant
                0 <= i <= adds.len(),
                adds == na_views(attributes@),
                attrs_ok(adds),
                upsert_all(orig, adds) == upsert_all(
                    na_views(b.attributes@),
                    adds.subrange(i as int, adds.len() as int),
                ),
                attrs_ok(na_views(b.attributes@)),
                attr_keys_unique(na_views(b.attributes@)),
                b.name@ == self.name@ && b.location@ == self.location@ && b.operands@
                    == self.operands@ && b.result_types@ == self.result_types@ && b.regions@
                    == self.regions@ && b.successors@ == self.successors@ && b.infer == self.infer,
                ident_ok(b.name@) && location_ok(b.location@),
            decreases adds.len() - i,
        {
            let a = attributes[i].clone();
            let ghost before = na_views(b.attributes@);
            let ghost av = a@;
            proof {
                assert(adds[i as int] == av);
            }
            // Scan for an entry with the same key.
            let mut j: usize = 0;
            let mut found = false;
            let mut fidx: usize = 0;
            while j < b.attributes.len()
                invariant
                    0 <= j <= before.len(),
                    before == na_views(b.attributes@),
                    av == a@,
                    found ==> fidx < before.len() && before[fidx as int].name == av.name,
                    !found ==> forall|q: int| 0 <= q < j ==> (#[trigger] before[q]).name != av.name,
                decreases before.len() - j,
            {
                if b.attributes[j].name == a.name {
                    found = true;
                    fidx = j;
                    j = b.attributes.len();
                } else {
                    j = j + 1;
                }
            }
            if found {
                proof {
                    assert(has_attr_key(before, av.name));
                    assert forall|q: int|
                        0 <= q < before.len() && (#[trigger] before[q]).name == av.name implies q
                        == fidx as int by {
                        if q != fidx as int {
                            if q < fidx as int {
                                assert(before[q].name != before[fidx as int].name);
                            } else {
                                assert(before[fidx as int].name != before[q].name);
                            }
                        }
                    }
                    assert(attr_key_index(before, av.name) == fidx as int);
                }
                b.attributes.set(fidx, a);
            } else {
                proof {
                    if has_attr_key(before, av.name) {
                        let q = choose|q: int|
                            0 <= q < before.len() && (#[trigger] before[q]).name == av.name;
                        assert(false);
                    }
                }
                b.attributes.push(a);
            }
            proof {
                let after = na_views(b.attributes@);
                assert(after =~= upsert(before, av));
                let rem = adds.subrange(i as int, adds.len() as int);
                assert(rem[0] == av);
                assert(rem.subrange(1, rem.len() as int) =~= adds.subrange(
                    i + 1,
                    adds.len() as int,
                ));
                assert(upsert_all(before, rem) == upsert_all(after, adds.subrange(
                    i + 1,
                    adds.len() as int,
                )));
                lemma_upsert_keeps_ok(before, av);
            }
            i = i + 1;
        }
        proof {
            assert(adds.subrange(adds.len() as int, adds.len() as int) =~= Seq::<
                NamedAttributeV,
            >::empty());
            assert(upsert_all(na_views(b.attributes@), Seq::<NamedAttributeV>::empty())
                == na_views(b.attributes@));
        }
        b
    }

    /// Enables result type inference.
    pub fn enable_result_type_inference(self) -> (r: Builder)
        ensures
            r.infer,
            r.name@ == self.name@ && r.location@ == self.location@ && r.operands@ == self.operands@
                && r.result_types@ == self.result_types@ && r.regions@ == self.regions@
                && r.successors@ == self.successors@ && r.attributes@ == self.attributes@,
            r.accum_ok() == self.accum_ok(),
    {
        let mut b = self;
        b.infer = true;
        b
    }
}

proof fn lemma_upsert_keeps_ok(s: Seq<NamedAttributeV>, a: NamedAttributeV)
    requires
        attrs_ok(s),
        attr_keys_unique(s),
        ident_ok(a.name),
        attr_text_ok(a.text),
    ensures
        attrs_ok(upsert(s, a)),
        attr_keys_unique(upsert(s, a)),
{
    let s2 = upsert(s, a);
    if has_attr_key(s, a.name) {
        let w = attr_key_index(s, a.name);
        assert(s[w].name == a.name);
        assert forall|i: int, j: int| 0 <= i < j < s2.len() implies (#[trigger] s2[i]).name != (
        #[trigger] s2[j]).name by {
            assert(s[i].name != s[j].name);
        }
    } else {
        assert forall|i: int, j: int| 0 <= i < j < s2.len() implies (#[trigger] s2[i]).name != (
        #[trigger] s2[j]).name by {
            if j == s2.len() - 1 {
                assert(s2[i] == s[i]);
                if s[i].name == a.name {
                    assert(has_attr_key(s, a.name));
                }
            } else {
                assert(s[i].name != s[j].name);
            }
        }
    }
}

} // verus!

verus! {

/// The strings of `a` survive, unchanged and in place, into `c`.
pub open spec fn strings_extended(a: ContextV, c: ContextV) -> bool {
    a.strings.len() <= c.strings.len() && forall|i: int|
        0 <= i < a.strings.len() ==> c.strings[i] == a.strings[i]
}

/// Result type inference is possible: a kind of this name is registered,
/// infers its result from its first operand, and an operand is there.
pub open spec fn infer_available(cv: ContextV, name: Seq<char>, operands: Seq<Value>) -> bool {
    has_kind(cv, name) && kind_for(cv, name).infer_from_operand && operands.len() >= 1
}

/// The result types an operation is built with: the inferred type of the
/// first operand, or the declared list.
pub open spec fn final_result_types(cv: ContextV, b: Builder) -> Seq<TypeV> {
    if b.infer {
        seq![cv.value_type(b.operands@[0])]
    } else {
        type_views(b.result_types@)
    }
}

/// What a successful build leaves behind: one fresh, detached operation
/// holding exactly the accumulated state, with the builder's regions now
/// owned by it, and everything else untouched.
pub open spec fn build_post(a: ContextV, c: ContextV, b: Builder, id: usize) -> bool {
    let ids = region_ids(b.regions@);
    &&& id == a.nodes.len()
    &&& c.nodes.len() == a.nodes.len() + 1
    &&& c.is_op(id as int)
    &&& ({
        let o = c.op_at(id as int);
        &&& o.parent is None
        &&& o.name < c.strings.len() && c.strings[o.name as int] == b.name@
        &&& o.location == b.location@
        &&& o.operands == b.operands@
        &&& o.successors == b.successors@
        &&& o.result_types == final_result_types(a, b)
        &&& o.regions == ids
        &&& o.attrs.len() == b.attributes@.len()
        &&& forall|j: int|
            0 <= j < o.attrs.len() ==> c.strings[(#[trigger] o.attrs[j]).key as int] == na_views(
                b.attributes@,
            )[j].name && o.attrs[j].text == na_views(b.attributes@)[j].text
    })
    &&& forall|x: int|
        0 <= x < a.nodes.len() && !ids.contains(x as usize) ==> #[trigger] c.nodes[x] == a.nodes[x]
    &&& forall|j: int|
        0 <= j < ids.len() ==> #[trigger] c.nodes[ids[j] as int] == NodeV::Region(
            RegionNodeV { parent: Some(id), ..a.region_at(ids[j] as int) },
        )
    &&& strings_extended(a, c)
    &&& c.kinds == a.kinds
    &&& c.allow_unregistered == a.allow_unregistered
}

fn intern_attrs(ctx: &mut Context, attributes: Vec<NamedAttribute>) -> (r: Vec<AttrPair>)
    requires
        old(ctx)@.wf(),
        attrs_ok(na_views(attributes@)),
        attr_keys_unique(na_views(attributes@)),
    ensures
        final(ctx)@.wf(),
        final(ctx)@.nodes == old(ctx)@.nodes,
        final(ctx)@.kinds == old(ctx)@.kinds,
        final(ctx)@.allow_unregistered == old(ctx)@.allow_unregistered,
        strings_extended(old(ctx)@, final(ctx)@),
        r@.len() == attributes@.len(),
        forall|j: int|
            0 <= j < r@.len() ==> (#[trigger] attr_views(r@)[j]).key < final(ctx)@.strings.len()
                && final(ctx)@.strings[attr_views(r@)[j].key as int] == na_views(
                attributes@,
            )[j].name && attr_views(r@)[j].text == na_views(attributes@)[j].text,
        forall|j1: int, j2: int|
            0 <= j1 < j2 < r@.len() ==> (#[trigger] attr_views(r@)[j1]).key != (
            #[trigger] attr_views(r@)[j2]).key,
{
    let mut pairs: Vec<AttrPair> = Vec::new();
    let mut i: usize = 0;
    while i < attributes.len()
        invariant
            ctx@.wf(),
            ctx@.nodes == old(ctx)@.nodes,
            ctx@.kinds == old(ctx)@.kinds,
            ctx@.allow_unregistered == old(ctx)@.allow_unregistered,
            strings_extended(old(ctx)@, ctx@),
            attrs_ok(na_views(attributes@)),
            attr_keys_unique(na_views(attributes@)),
            0 <= i <= attributes@.len(),
            pairs@.len() == i,
            forall|j: int|
                0 <= j < i ==> (#[trigger] attr_views(pairs@)[j]).key < ctx@.strings.len()
                    && ctx@.strings[attr_views(pairs@)[j].key as int] == na_views(
                    attributes@,
                )[j].name && attr_views(pairs@)[j].text == na_views(attributes@)[j].text,
        decreases attributes@.len() - i,
    {
        let a = attributes[i].clone();
        let ghost top = ctx@;
        let ghost oldpairs = pairs@;
        proof {
            assert(a@ == na_views(attributes@)[i as int]);
        }
        let key = ctx.intern(a.name.as_str());
        pairs.push(AttrPair { key: key.id, attribute: a.attribute });
        proof {
            assert(strings_extended(top, ctx@)) by {
                if top.table.dom().contains(a.name@) {
                    assert(ctx@ == top);
                } else {
                    assert(ctx@.strings == top.strings.push(a.name@));
                }
            }
            assert forall|j: int|
                0 <= j < i + 1 implies (#[trigger] attr_views(pairs@)[j]).key
                < ctx@.strings.len() && ctx@.strings[attr_views(pairs@)[j].key as int] == na_views(
                attributes@,
            )[j].name && attr_views(pairs@)[j].text == na_views(attributes@)[j].text by {
                if j < i {
                    assert(pairs@[j] == oldpairs[j]);
                    assert(attr_views(oldpairs)[j].key < top.strings.len());
                    assert(ctx@.strings[attr_views(oldpairs)[j].key as int] == top.strings[attr_views(
                        oldpairs,
                    )[j].key as int]);
                } else {
                    assert(pairs@[j]@.key == key.id);
                }
            }
        }
        i = i + 1;
    }
    proof {
        assert forall|j1: int, j2: int|
            0 <= j1 < j2 < pairs@.len() implies (#[trigger] attr_views(pairs@)[j1]).key != (
        #[trigger] attr_views(pairs@)[j2]).key by {
            if attr_views(pairs@)[j1].key == attr_views(pairs@)[j2].key {
                assert(na_views(attributes@)[j1].name == na_views(attributes@)[j2].name);
            }
        }
    }
    pairs
}

impl Builder {
    /// Builds the operation: the one irreversible step.  Resolves result
    /// types, either from the declared list or, with inference enabled, from
    /// the first operand of a kind registered as inferring; fails with
    /// `TypeInferenceUnavailable`, leaving the context untouched, exactly
    /// when inference is enabled but no such resolution exists.  On success
    /// the new operation has no parent and owns the builder's regions.
    pub fn build(self, ctx: &mut Context) -> (r: Result<Operation, Error>)
        requires
            old(ctx)@.wf(),
            self.accum_ok(),
            forall|j: int|
                0 <= j < self.operands@.len() ==> old(ctx)@.valid_value(#[trigger] self.operands@[j]),
            forall|j: int|
                0 <= j < self.successors@.len() ==> old(ctx)@.is_block(
                    #[trigger] self.successors@[j] as int,
                ),
            forall|j: int|
                0 <= j < self.regions@.len() ==> old(ctx)@.is_region(
                    (#[trigger] self.regions@[j]).id as int,
                ) && old(ctx)@.region_at(self.regions@[j].id as int).parent is None,
            forall|j1: int, j2: int|
                0 <= j1 < j2 < self.regions@.len() ==> (#[trigger] self.regions@[j1]).id != (
                #[trigger] self.regions@[j2]).id,
            forall|j: int|
                0 <= j < self.result_types@.len() ==> type_ok((#[trigger] self.result_types@[j])@),
        ensures
            final(ctx)@.wf(),
            (r is Err) <==> (self.infer && !infer_available(
                old(ctx)@,
                self.name@,
                self.operands@,
            )),
            r matches Err(e) ==> e == Error::TypeInferenceUnavailable && final(ctx)@ == old(ctx)@,
            r matches Ok(op) ==> build_post(old(ctx)@, final(ctx)@, self, op.id),
    {
        let Builder { name, location, operands, result_types, regions, successors, attributes, infer } =
            self;
        let ghost cv0 = old(ctx)@;
        let final_types: Vec<Type>;
        if infer {
            let available = match ctx.find_kind_by_name(&name) {
                Some(k) => k.infer_from_operand && operands.len() > 0,
                None => false,
            };
            if !available {
                proof {
                    assert(final(ctx)@ =~= old(ctx)@);
                }
                return Err(Error::TypeInferenceUnavailable);
            }
            let t = ctx.value_type(operands[0]);
            final_types = vec![t];
            proof {
                crate::context::lemma_value_type_ok(cv0, self.operands@[0]);
                assert(type_views(final_types@) =~= final_result_types(cv0, self));
            }
        } else {
            final_types = result_types;
            proof {
                assert(type_views(final_types@) == final_result_types(cv0, self));
            }
        }
        let name_id = ctx.intern(name.as_str());
        let pairs = intern_attrs(ctx, attributes);
        let ghost cv1 = ctx@;
        let ghost operands_v = operands@;
        let ghost successors_v = successors@;
        let ghost oregs = regions@;
        let ghost ids = region_ids(regions@);
        let node = Node::Op(
            OpNode {
                name: name_id.id,
                location,
                attrs: pairs,
                operands,
                result_types: final_types,
                regions: Vec::new(),
                successors,
                parent: None,
            },
        );
        proof {
            assert(node@ matches NodeV::Op(o) && o.regions =~= Seq::<usize>::empty());
            assert(crate::context::fresh_node_ok(cv1, node@)) by {
                match node@ {
                    NodeV::Op(o) => {
                        assert forall|j: int|
                            0 <= j < o.successors.len() implies cv1.is_block(
                            #[trigger] o.successors[j] as int,
                        ) by {
                            assert(cv0.is_block(successors_v[j] as int));
                        }
                        assert forall|j: int|
                            0 <= j < o.operands.len() implies cv1.valid_value(
                            #[trigger] o.operands[j],
                        ) by {
                            assert(cv0.valid_value(operands_v[j]));
                        }
                    },
                    _ => {},
                }
            }
        }
        let op_id = ctx.add_node(node);
        let ghost cv2 = ctx@;
        proof {
            assert(cv2.op_at(op_id as int) matches OpNodeV { regions: rg, parent: pr, .. } && rg
                =~= Seq::<usize>::empty() && pr is None);
            assert(ids.subrange(0, 0) =~= Seq::<usize>::empty());
            assert(oregs.subrange(0, oregs.len() as int) =~= oregs);
        }
        let mut rest = regions;
        let mut k: usize = 0;
        let ghost total = ids.len();
        proof {
            vstd::std_specs::vec::axiom_spec_len(&rest);
            assert(total <= usize::MAX);
        }
        while rest.len() > 0
            invariant
                ctx@.wf(),
                0 <= k <= total <= usize::MAX,
                k + rest@.len() == total,
                ids == region_ids(oregs),
                total == ids.len() == oregs.len(),
                rest@ == oregs.subrange(k as int, total as int),
                crate::context::same_surroundings(cv2, ctx@),
                ctx@.nodes.len() == cv2.nodes.len(),
                op_id as int == cv2.nodes.len() - 1,
                ctx@.is_op(op_id as int),
                cv2.is_op(op_id as int),
                ctx@.op_at(op_id as int) == (OpNodeV {
                    regions: ids.subrange(0, k as int),
                    ..cv2.op_at(op_id as int)
                }),
                cv2.op_at(op_id as int).regions == Seq::<usize>::empty(),
                cv2.op_at(op_id as int).parent is None,
                forall|j: int|
                    0 <= j < k ==> #[trigger] ctx@.nodes[ids[j] as int] == NodeV::Region(
                        RegionNodeV { parent: Some(op_id), ..cv2.region_at(ids[j] as int) },
                    ),
                forall|x: int|
                    0 <= x < cv2.nodes.len() && x != op_id as int && !ids.subrange(
                        0,
                        k as int,
                    ).contains(x as usize) ==> #[trigger] ctx@.nodes[x] == cv2.nodes[x],
                forall|j: int|
                    0 <= j < total ==> cv2.is_region(#[trigger] ids[j] as int) && cv2.region_at(
                        ids[j] as int,
                    ).parent is None,
                forall|j1: int, j2: int|
                    0 <= j1 < j2 < total ==> #[trigger] ids[j1] != #[trigger] ids[j2],
            decreases rest@.len(),
        {
            let reg = rest.remove(0);
            proof {
                assert(oregs.subrange(k as int, total as int)[0] == oregs[k as int]);
                assert(reg.id == ids[k as int]);
                assert(!ids.subrange(0, k as int).contains(ids[k as int])) by {
                    if ids.subrange(0, k as int).contains(ids[k as int]) {
                        let q = choose|q: int|
                            0 <= q < k && ids.subrange(0, k as int)[q] == ids[k as int];
                        assert(ids[q] == ids[k as int]);
                    }
                }
                assert(ids[k as int] as int != op_id as int);
                assert(ctx@.nodes[ids[k as int] as int] == cv2.nodes[ids[k as int] as int]);
                assert(ctx@.is_region(reg.id as int));
                assert(ctx@.region_at(reg.id as int).parent is None);
                assert(crate::ancestry::step(ctx@.pm(), op_id as int) == None::<int>);
                lemma_root_reaches_only_self(ctx@.pm(), op_id as int, reg.id as int);
            }
            let ghost before = ctx@;
            ctx.attach_region(reg.id, op_id);
            proof {
                assert(ids.subrange(0, k + 1) =~= ids.subrange(0, k as int).push(ids[k as int]));
                assert(before.op_at(op_id as int).regions.push(reg.id) =~= ids.subrange(0, k + 1));
                assert(oregs.subrange(k as int, total as int).subrange(
                    1,
                    oregs.subrange(k as int, total as int).len() as int,
                ) =~= oregs.subrange(k + 1, total as int));
                assert forall|x: int|
                    0 <= x < cv2.nodes.len() && x != op_id as int && !ids.subrange(
                        0,
                        (k + 1) as int,
                    ).contains(x as usize) implies #[trigger] ctx@.nodes[x] == cv2.nodes[x] by {
                    assert forall|q: int|
                        0 <= q < k && ids.subrange(0, k as int)[q] == x as usize implies false by {
                        assert(ids.subrange(0, (k + 1) as int)[q] == x as usize);
                        assert(ids.subrange(0, (k + 1) as int).contains(x as usize));
                    }
                    assert(!ids.subrange(0, k as int).contains(x as usize));
                    assert(ids.subrange(0, (k + 1) as int)[k as int] == ids[k as int]);
                    if x == ids[k as int] as int {
                        assert(x as usize == ids[k as int]);
                        assert(ids.subrange(0, (k + 1) as int).contains(x as usize));
                        assert(false);
                    }
                    assert(x != ids[k as int] as int);
                }
            }
            k = k + 1;
        }
        proof {
            assert(ids.subrange(0, total as int) =~= ids);
            let a = cv0;
            let c = ctx@;
            assert(build_post(a, c, self, op_id)) by {
                assert(c.op_at(op_id as int).result_types == final_result_types(a, self));
                assert forall|x: int|
                    0 <= x < a.nodes.len() && !ids.contains(x as usize) implies #[trigger] c.nodes[x]
                    == a.nodes[x] by {
                    assert(!ids.subrange(0, total as int).contains(x as usize));
                    assert(c.nodes[x] == cv2.nodes[x]);
                    assert(cv2.nodes[x] == cv1.nodes.push(node@)[x]);
                }
                assert forall|j: int|
                    0 <= j < ids.len() implies #[trigger] c.nodes[ids[j] as int] == NodeV::Region(
                    RegionNodeV { parent: Some(op_id), ..a.region_at(ids[j] as int) },
                ) by {
                    assert(cv2.region_at(ids[j] as int) == a.region_at(ids[j] as int));
                }
                assert(c.op_at(op_id as int).attrs == attr_views(pairs@));
            }
        }
        Ok(Operation { id: op_id })
    }
}

} // verus!
