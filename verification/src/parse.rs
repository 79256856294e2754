//! Reading modules back from their textual form.
//!
//! The reader accepts the plain module sublanguage: a module wrapper around
//! operations that have no operands, results, attributes, successors or
//! regions.  Reading a printed module of that shape back and printing again
//! yields the same text; `lemma_round_trip` states this.

use crate::chars::{ident_ok, is_ident_char};
use crate::context::ContextV;
use crate::text::{indent_sp, plain_module, render_op};
use vstd::prelude::*;

verus! {

/// The opening line of a module text.
pub open spec fn module_open() -> Seq<char> {
    seq!['m', 'o', 'd', 'u', 'l', 'e', ' ', '{', '\n']
}

/// The tail of a plain operation line, after the closing name quote.
pub open spec fn plain_tail() -> Seq<char> {
    seq!['"', '(', ')', ' ', ':', ' ', '(', ')', ' ', '-', '>', ' ', '(', ')', '\n']
}

/// A plain operation line: two spaces of indentation, the quoted name, and
/// the empty signature.
pub open spec fn plain_line(name: Seq<char>) -> Seq<char> {
    seq![' ', ' ', '"'] + name + plain_tail()
}

/// The lines of the plain operations, in order.
pub open spec fn plain_lines(names: Seq<Seq<char>>) -> Seq<char>
    decreases names.len(),
{
    if names.len() == 0 {
        Seq::empty()
    } else {
        plain_line(names[0]) + plain_lines(names.subrange(1, names.len() as int))
    }
}

/// The text of a module of plain operations.
pub open spec fn render_module_text(names: Seq<Seq<char>>) -> Seq<char> {
    module_open() + plain_lines(names) + seq!['}', '\n']
}

/// The end of the identifier run beginning at `i`.
pub open spec fn ident_end(s: Seq<char>, i: int) -> int
    decreases s.len() - i,
{
    if i < 0 || i >= s.len() {
        i
    } else if is_ident_char(s[i]) {
        ident_end(s, i + 1)
    } else {
        i
    }
}

/// Reads the remaining lines of a module body: either the closing brace, or
/// one plain operation line and the rest.
pub open spec fn parse_lines(s: Seq<char>) -> Option<Seq<Seq<char>>>
    decreases s.len(),
{
    if s == seq!['}', '\n'] {
        Some(Seq::empty())
    } else if s.len() >= 3 && s[0] == ' ' && s[1] == ' ' && s[2] == '"' {
        let j = ident_end(s, 3);
        if j > 3 && j + 15 <= s.len() && s.subrange(j, j + 15) == plain_tail() && s.len() - (j + 15)
            < s.len() {
            match parse_lines(s.subrange(j + 15, s.len() as int)) {
                Some(rest) => Some(seq![s.subrange(3, j)] + rest),
                None => None,
            }
        } else {
            None
        }
    } else {
        None
    }
}

/// Reads a module of plain operations from text.
pub open spec fn parse_module_text(s: Seq<char>) -> Option<Seq<Seq<char>>> {
    if s.len() >= 9 && s.subrange(0, 9) == module_open() {
        parse_lines(s.subrange(9, s.len() as int))
    } else {
        None
    }
}

proof fn lemma_ident_end_exact(s: Seq<char>, i: int, e: int)
    requires
        0 <= i <= e <= s.len(),
        forall|q: int| i <= q < e ==> is_ident_char(#[trigger] s[q]),
        e < s.len(),
        !is_ident_char(s[e]),
    ensures
        ident_end(s, i) == e,
    decreases e - i,
{
    if i < e {
        lemma_ident_end_exact(s, i + 1, e);
    }
}

/// Reading the printed lines back yields the names.
#[verifier::rlimit(60)]
proof fn lemma_parse_lines_round(names: Seq<Seq<char>>)
    requires
        forall|j: int| 0 <= j < names.len() ==> ident_ok(#[trigger] names[j]),
    ensures
        parse_lines(plain_lines(names) + seq!['}', '\n']) == Some(names),
    decreases names.len(),
{
    let s = plain_lines(names) + seq!['}', '\n'];
    if names.len() == 0 {
        assert(s =~= seq!['}', '\n']);
    } else {
        let name = names[0];
        let rest = names.subrange(1, names.len() as int);
        let srest = plain_lines(rest) + seq!['}', '\n'];
        assert(ident_ok(name));
        assert(s =~= plain_line(name) + srest);
        assert(s.len() >= 3 && s[0] == ' ' && s[1] == ' ' && s[2] == '"');
        assert(s != seq!['}', '\n']);
        let e = 3 + name.len() as int;
        assert forall|q: int| 3 <= q < e implies is_ident_char(#[trigger] s[q]) by {
            assert(s[q] == name[q - 3]);
        }
        assert(s[e] == '"');
        assert(!is_ident_char('"'));
        lemma_ident_end_exact(s, 3, e);
        assert(ident_end(s, 3) == e);
        assert(e > 3);
        assert(e + 15 <= s.len());
        assert(s.subrange(e, e + 15) =~= plain_tail());
        assert(s.subrange(e + 15, s.len() as int) =~= srest);
        lemma_parse_lines_round(rest);
        assert(s.subrange(3, e) =~= name);
        assert(seq![s.subrange(3, e)] + rest =~= names);
    }
}

/// Reading a printed module of plain operations back yields the names.
pub proof fn lemma_parse_render(names: Seq<Seq<char>>)
    requires
        forall|j: int| 0 <= j < names.len() ==> ident_ok(#[trigger] names[j]),
    ensures
        parse_module_text(render_module_text(names)) == Some(names),
{
    let s = render_module_text(names);
    assert(s.subrange(0, 9) =~= module_open());
    assert(s.subrange(9, s.len() as int) =~= plain_lines(names) + seq!['}', '\n']);
    lemma_parse_lines_round(names);
}

} // verus!

verus! {

use crate::builder::{build_post, Builder};
use crate::chars::{chars_to_string, string_to_chars};
use crate::context::{string_views, Context};
use crate::location::Location;
use crate::module::Module;

/// An operation with nothing but a name: no operands, results, attributes,
/// successors or regions.
pub open spec fn simple_op(cv: ContextV, o: int) -> bool {
    let node = cv.op_at(o);
    &&& cv.is_op(o)
    &&& node.operands.len() == 0
    &&& node.result_types.len() == 0
    &&& node.attrs.len() == 0
    &&& node.successors.len() == 0
    &&& node.regions.len() == 0
}

/// A module of plain operations carrying the given names, in order.
pub open spec fn module_plain_with_names(cv: ContextV, op: usize, names: Seq<Seq<char>>) -> bool {
    let blk = crate::text::body_of(cv, op as int);
    &&& plain_module(cv, op as int)
    &&& cv.block_at(blk as int).ops.len() == names.len()
    &&& forall|j: int|
        0 <= j < names.len() ==> simple_op(cv, #[trigger] cv.block_at(blk as int).ops[j] as int)
            && cv.strings[cv.op_at(cv.block_at(blk as int).ops[j] as int).name as int] == names[j]
}

/// A simple operation prints as a plain line.
proof fn lemma_simple_render(cv: ContextV, o: int)
    requires
        cv.wf(),
        simple_op(cv, o),
    ensures
        render_op(cv, o, 2) == plain_line(cv.strings[cv.op_at(o).name as int]),
{
    let node = cv.op_at(o);
    assert(!plain_module(cv, o));
    reveal_with_fuel(indent_sp, 4);
    assert(crate::text::operand_types(cv, node.operands) =~= Seq::<crate::types::TypeV>::empty());
    assert(crate::text::render_region_list(cv, o, 0, 2) == seq!['\n']);
    assert(render_op(cv, o, 2) =~= plain_line(cv.strings[node.name as int]));
}

proof fn lemma_plain_ops_render(cv: ContextV, blk: int, names: Seq<Seq<char>>, k: int)
    requires
        cv.wf(),
        cv.is_block(blk),
        cv.block_at(blk).ops.len() == names.len(),
        0 <= k <= names.len(),
        forall|j: int|
            0 <= j < names.len() ==> simple_op(cv, #[trigger] cv.block_at(blk).ops[j] as int)
                && cv.strings[cv.op_at(cv.block_at(blk).ops[j] as int).name as int] == names[j],
    ensures
        crate::text::render_ops_list(cv, blk, k, 2) == plain_lines(
            names.subrange(k, names.len() as int),
        ),
    decreases names.len() - k,
{
    if k == names.len() {
        assert(names.subrange(k, names.len() as int) =~= Seq::<Seq<char>>::empty());
    } else {
        lemma_plain_ops_render(cv, blk, names, k + 1);
        lemma_simple_render(cv, cv.block_at(blk).ops[k] as int);
        let rest = names.subrange(k, names.len() as int);
        assert(rest[0] == names[k]);
        assert(rest.subrange(1, rest.len() as int) =~= names.subrange(k + 1, names.len() as int));
        assert(crate::text::render_ops_list(cv, blk, k, 2) =~= plain_lines(rest));
    }
}

/// A module of plain operations prints as the module text of its names.
pub proof fn lemma_module_render(cv: ContextV, op: usize, names: Seq<Seq<char>>)
    requires
        cv.wf(),
        module_plain_with_names(cv, op, names),
    ensures
        render_op(cv, op as int, 0) == render_module_text(names),
{
    let blk = crate::text::body_of(cv, op as int);
    lemma_plain_ops_render(cv, blk as int, names, 0);
    assert(names.subrange(0, names.len() as int) =~= names);
    assert(indent_sp(0) =~= Seq::<char>::empty());
    assert(render_op(cv, op as int, 0) =~= render_module_text(names));
}

/// Printing a module of plain operations, reading the text back, and
/// printing what was built yields the same text: the round trip at the
/// textual level, for any two arenas holding the same names.
pub proof fn lemma_round_trip(
    cv1: ContextV,
    op1: usize,
    cv2: ContextV,
    op2: usize,
    names: Seq<Seq<char>>,
)
    requires
        cv1.wf(),
        cv2.wf(),
        module_plain_with_names(cv1, op1, names),
        module_plain_with_names(cv2, op2, names),
        forall|j: int| 0 <= j < names.len() ==> ident_ok(#[trigger] names[j]),
    ensures
        render_op(cv1, op1 as int, 0) == render_op(cv2, op2 as int, 0),
        parse_module_text(render_op(cv1, op1 as int, 0)) == Some(names),
{
    lemma_module_render(cv1, op1, names);
    lemma_module_render(cv2, op2, names);
    lemma_parse_render(names);
}

} // verus!

verus! {

fn ident_end_exec(s: &Vec<char>, i: usize) -> (r: usize)
    requires
        i <= s@.len(),
    ensures
        r == ident_end(s@, i as int),
        i <= r <= s@.len(),
{
    let mut j = i;
    while j < s.len() && crate::chars::ident_char_pub(s[j])
        invariant
            i <= j <= s@.len(),
            ident_end(s@, i as int) == ident_end(s@, j as int),
        decreases s@.len() - j,
    {
        j = j + 1;
    }
    proof {
        assert(ident_end(s@, j as int) == j as int);
    }
    j
}

fn parse_lines_exec(s: &Vec<char>) -> (r: Option<Vec<String>>)
    requires
        s@.len() >= 9,
    ensures
        match parse_lines(s@.subrange(9, s@.len() as int)) {
            Some(names) => r matches Some(v) && string_views(v@) == names && forall|j: int|
                0 <= j < names.len() ==> ident_ok(#[trigger] names[j]),
            None => r is None,
        },
{
    let ghost whole = s@.subrange(9, s@.len() as int);
    let mut acc: Vec<String> = Vec::new();
    let mut i: usize = 9;
    proof {
        assert(string_views(acc@) =~= Seq::<Seq<char>>::empty());
        assert(string_views(acc@) + match parse_lines(whole) {
            Some(ns) => ns,
            None => Seq::empty(),
        } =~= match parse_lines(whole) {
            Some(ns) => ns,
            None => Seq::empty(),
        });
    }
    loop
        invariant
            9 <= i <= s@.len(),
            whole == s@.subrange(9, s@.len() as int),
            (match parse_lines(whole) {
                Some(ns) => match parse_lines(s@.subrange(i as int, s@.len() as int)) {
                    Some(rest) => ns == string_views(acc@) + rest,
                    None => false,
                },
                None => parse_lines(s@.subrange(i as int, s@.len() as int)) is None,
            }),
            forall|j: int|
                0 <= j < string_views(acc@).len() ==> ident_ok(#[trigger] string_views(acc@)[j]),
        decreases s@.len() - i,
    {
        let ghost suffix = s@.subrange(i as int, s@.len() as int);
        if s.len() - i == 2 && s[i] == '}' && s[i + 1] == '\n' {
            proof {
                assert(suffix =~= seq!['}', '\n']);
                assert(parse_lines(suffix) == Some(Seq::<Seq<char>>::empty()));
                if parse_lines(whole) is Some {
                    assert(parse_lines(whole)->Some_0 =~= string_views(acc@));
                }
            }
            return Some(acc);
        }
        if s.len() - i < 3 || !(s[i] == ' ' && s[i + 1] == ' ' && s[i + 2] == '"') {
            proof {
                assert(suffix != seq!['}', '\n']) by {
                    if suffix == seq!['}', '\n'] {
                        assert(suffix.len() == 2 && suffix[0] == '}' && suffix[1] == '\n');
                        assert(s@[i as int] == '}' && s@[i + 1] == '\n');
                    }
                }
                assert(!(suffix.len() >= 3 && suffix[0] == ' ' && suffix[1] == ' ' && suffix[2]
                    == '"'));
                assert(parse_lines(suffix) is None);
            }
            return None;
        }
        proof {
            assert(suffix.len() >= 3 && suffix[0] == ' ' && suffix[1] == ' ' && suffix[2] == '"');
            assert(suffix != seq!['}', '\n']);
        }
        let j = ident_end_exec(s, i + 3);
        proof {
            lemma_ident_end_shift(s@, i as int, j as int);
        }
        let n = s.len();
        let mut ok = j > i + 3 && n >= 15 && j <= n - 15;
        if ok {
            ok = s[j] == '"' && s[j + 1] == '(' && s[j + 2] == ')' && s[j + 3] == ' ' && s[j + 4]
                == ':' && s[j + 5] == ' ' && s[j + 6] == '(' && s[j + 7] == ')' && s[j + 8] == ' '
                && s[j + 9] == '-' && s[j + 10] == '>' && s[j + 11] == ' ' && s[j + 12] == '(' && s[j
                + 13] == ')' && s[j + 14] == '\n';
        }
        if !ok {
            proof {
                let sj = ident_end(suffix, 3) + i;
                assert(parse_lines(suffix) is None) by {
                    if suffix.subrange(ident_end(suffix, 3), ident_end(suffix, 3) + 15)
                        == plain_tail() {
                        let st = suffix.subrange(ident_end(suffix, 3), ident_end(suffix, 3) + 15);
                        assert(st[0] == '"' && st[1] == '(' && st[2] == ')' && st[3] == ' ' && st[4]
                            == ':' && st[5] == ' ' && st[6] == '(' && st[7] == ')' && st[8] == ' '
                            && st[9] == '-' && st[10] == '>' && st[11] == ' ' && st[12] == '(' && st[13]
                            == ')' && st[14] == '\n');
                    }
                }
            }
            return None;
        }
        let mut namechars: Vec<char> = Vec::new();
        let mut q = i + 3;
        while q < j
            invariant
                i + 3 <= q <= j,
                j <= s@.len(),
                namechars@ == s@.subrange(i + 3, q as int),
            decreases j - q,
        {
            namechars.push(s[q]);
            proof {
                assert(namechars@ =~= s@.subrange(i + 3, q + 1));
            }
            q = q + 1;
        }
        proof {
            assert(namechars@ =~= s@.subrange(i + 3, j as int));
            assert forall|w: int| 0 <= w < namechars@.len() implies is_ident_char(
                #[trigger] namechars@[w],
            ) by {
                lemma_ident_chars(s@, i + 3, j as int, w + i + 3);
            }
            assert(ident_ok(namechars@));
        }
        let name = chars_to_string(&namechars);
        let ghost accold = acc@;
        acc.push(name);
        proof {
            let sj = ident_end(suffix, 3);
            assert(suffix.subrange(sj, sj + 15) =~= plain_tail()) by {
                let st = suffix.subrange(sj, sj + 15);
                assert forall|w: int| 0 <= w < 15 implies st[w] == plain_tail()[w] by {
                    assert(st[w] == s@[i + sj + w]);
                }
            }
            let rest = suffix.subrange(sj + 15, suffix.len() as int);
            assert(parse_lines(suffix) == (match parse_lines(rest) {
                Some(r0) => Some(seq![suffix.subrange(3, sj)] + r0),
                None => None,
            }));
            assert(suffix.subrange(3, sj) =~= namechars@);
            assert(rest =~= s@.subrange(j + 15, s@.len() as int));
            assert(string_views(acc@) =~= string_views(accold).push(namechars@));
            if parse_lines(whole) is Some {
                match parse_lines(rest) {
                    Some(r0) => {
                        assert(parse_lines(whole)->Some_0 == string_views(accold) + (seq![
                            namechars@,
                        ] + r0));
                        assert(string_views(accold) + (seq![namechars@] + r0) =~= string_views(
                            acc@,
                        ) + r0);
                    },
                    None => {},
                }
            }
        }
        i = j + 15;
    }
}

proof fn lemma_ident_end_shift(s: Seq<char>, i: int, j: int)
    requires
        0 <= i,
        i + 3 <= s.len(),
        j == ident_end(s, i + 3),
    ensures
        ident_end(s.subrange(i, s.len() as int), 3) == j - i,
    decreases s.len() - i,
{
    let suffix = s.subrange(i, s.len() as int);
    lemma_ident_end_shift_h(s, suffix, i, i + 3, j);
}

proof fn lemma_ident_end_shift_h(s: Seq<char>, suffix: Seq<char>, off: int, p: int, j: int)
    requires
        0 <= off <= p <= s.len(),
        suffix == s.subrange(off, s.len() as int),
        j == ident_end(s, p),
    ensures
        ident_end(suffix, p - off) == j - off,
    decreases s.len() - p,
{
    if p < s.len() {
        assert(suffix[p - off] == s[p]);
        if is_ident_char(s[p]) {
            lemma_ident_end_shift_h(s, suffix, off, p + 1, j);
        }
    }
}

proof fn lemma_ident_chars(s: Seq<char>, i: int, e: int, q: int)
    requires
        0 <= i <= q < e <= s.len(),
        e == ident_end(s, i),
    ensures
        is_ident_char(s[q]),
    decreases q - i,
{
    if q > i {
        if i < s.len() && is_ident_char(s[i]) {
            lemma_ident_chars(s, i + 1, e, q);
        }
    }
}

} // verus!

verus! {

impl Module {
    /// Reads a module of plain operations from its textual form; fails
    /// exactly when the text is not such a module's rendering, leaving the
    /// context untouched.
    pub fn parse(ctx: &mut Context, source: &str) -> (r: Option<Module>)
        requires
            old(ctx)@.wf(),
        ensures
            final(ctx)@.wf(),
            (r is Some) <==> (parse_module_text(source@) is Some),
            r is None ==> final(ctx)@ == old(ctx)@,
            r matches Some(m) ==> (parse_module_text(source@) matches Some(names)
                && module_plain_with_names(final(ctx)@, m.op, names) && (forall|j: int|
                0 <= j < names.len() ==> ident_ok(#[trigger] names[j]))),
    {
        let s = string_to_chars(source);
        let okpref = s.len() >= 9 && s[0] == 'm' && s[1] == 'o' && s[2] == 'd' && s[3] == 'u'
            && s[4] == 'l' && s[5] == 'e' && s[6] == ' ' && s[7] == '{' && s[8] == '\n';
        proof {
            if s@.len() >= 9 {
                if okpref {
                    assert(s@.subrange(0, 9) =~= module_open());
                } else {
                    assert(s@.subrange(0, 9) != module_open()) by {
                        if s@.subrange(0, 9) == module_open() {
                            assert forall|w: int| 0 <= w < 9 implies s@[w] == module_open()[w] by {
                                assert(s@.subrange(0, 9)[w] == s@[w]);
                            }
                        }
                    }
                }
            }
        }
        if !okpref {
            proof {
                assert(final(ctx)@ =~= old(ctx)@);
            }
            return None;
        }
        let names = match parse_lines_exec(&s) {
            Some(v) => v,
            None => {
                proof {
                    assert(final(ctx)@ =~= old(ctx)@);
                }
                return None;
            },
        };
        let ghost names_v = string_views(names@);
        let m = Module::new(ctx, Location::unknown());
        let body = m.body(ctx);
        proof {
            assert(module_plain_with_names(ctx@, m.op, names_v.subrange(0, 0))) by {
                assert(names_v.subrange(0, 0) =~= Seq::<Seq<char>>::empty());
                assert(plain_module(ctx@, m.op as int));
            }
            assert(body.id == crate::text::body_of(ctx@, m.op as int));
        }
        let total = names.len();
        let mut t: usize = 0;
        while t < total
            invariant
                ctx@.wf(),
                0 <= t <= total,
                total == names@.len(),
                names_v == string_views(names@),
                forall|j: int| 0 <= j < names_v.len() ==> ident_ok(#[trigger] names_v[j]),
                module_plain_with_names(ctx@, m.op, names_v.subrange(0, t as int)),
                body.id == crate::text::body_of(ctx@, m.op as int),
                ctx@.is_block(body.id as int),
            decreases total - t,
        {
            proof {
                assert(names_v[t as int] == names@[t as int]@);
                assert(ident_ok(names@[t as int]@));
            }
            let b = Builder::new(names[t].as_str(), Location::unknown());
            let ghost pre = ctx@;
            let built = b;
            let ghost snapshot = built;
            proof {
                assert(snapshot.regions@.len() == 0) by {
                    assert(crate::builder::region_ids(snapshot.regions@).len()
                        == snapshot.regions@.len());
                }
                assert(snapshot.attributes@.len() == 0) by {
                    assert(crate::builder::na_views(snapshot.attributes@).len()
                        == snapshot.attributes@.len());
                }
            }
            let op = match built.build(ctx) {
                Ok(o) => o,
                Err(_) => {
                    proof {
                        assert(!snapshot.infer);
                    }
                    vstd::pervasive::unreached()
                },
            };
            proof {
                assert(build_post(pre, ctx@, snapshot, op.id));
                let c = ctx@;
                assert(crate::builder::region_ids(snapshot.regions@) =~= Seq::<usize>::empty());
                assert forall|x: int| 0 <= x < pre.nodes.len() implies #[trigger] c.nodes[x]
                    == pre.nodes[x] by {
                    assert(!crate::builder::region_ids(snapshot.regions@).contains(x as usize));
                }
                // The fresh operation is simple and carries the name.
                assert(simple_op(c, op.id as int)) by {
                    assert(crate::context::type_views(snapshot.result_types@).len() == 0);
                    assert(crate::builder::na_views(snapshot.attributes@).len() == 0);
                }
                assert(c.strings[c.op_at(op.id as int).name as int] == names_v[t as int]);
                // The module shape survives string interning and the new node.
                assert(plain_module(c, m.op as int)) by {
                    assert(c.nodes[m.op as int] == pre.nodes[m.op as int]);
                    let reg = c.op_at(m.op as int).regions[0];
                    assert(pre.wf_node(m.op as int));
                    assert(pre.is_region(reg as int));
                    assert(c.nodes[reg as int] == pre.nodes[reg as int]);
                    let blk = c.region_at(reg as int).blocks[0];
                    assert(pre.wf_node(reg as int));
                    assert(pre.is_block(blk as int));
                    assert(c.nodes[blk as int] == pre.nodes[blk as int]);
                }
                assert(module_plain_with_names(c, m.op, names_v.subrange(0, t as int))) by {
                    let blk = crate::text::body_of(c, m.op as int);
                    assert(blk == crate::text::body_of(pre, m.op as int));
                    assert(c.nodes[blk as int] == pre.nodes[blk as int]);
                    assert forall|j: int| 0 <= j < t implies simple_op(
                        c,
                        #[trigger] c.block_at(blk as int).ops[j] as int,
                    ) && c.strings[c.op_at(c.block_at(blk as int).ops[j] as int).name as int]
                        == names_v.subrange(0, t as int)[j] by {
                        let o2 = pre.block_at(blk as int).ops[j];
                        assert(pre.wf_node(blk as int));
                        assert(pre.is_op(o2 as int));
                        assert(c.nodes[o2 as int] == pre.nodes[o2 as int]);
                        assert(pre.wf_node(o2 as int));
                        assert(pre.op_at(o2 as int).name < pre.strings.len());
                        assert(c.strings[pre.op_at(o2 as int).name as int] == pre.strings[pre.op_at(
                            o2 as int,
                        ).name as int]);
                        assert(simple_op(pre, o2 as int));
                    }
                }
                // Nothing points at the fresh root, so appending cannot fold
                // the tree onto itself.
                assert forall|x: int|
                    crate::ancestry::step(c.pm(), x) != Some(op.id as int) by {
                    if c.pm().dom().contains(x) {
                        if c.pm()[x] == Some(op.id as int) {
                            assert(0 <= x < c.nodes.len());
                            assert(c.wf_node(x));
                            match c.nodes[x] {
                                crate::context::NodeV::Op(o) => {
                                    assert(o.parent matches Some(bb) && c.is_block(bb as int));
                                    assert(c.nodes[op.id as int] is Op);
                                },
                                crate::context::NodeV::Block(bl) => {
                                    assert(bl.parent matches Some(rr) && c.is_region(rr as int));
                                },
                                crate::context::NodeV::Region(rg) => {
                                    assert(rg.parent matches Some(oo) && c.op_at(
                                        oo as int,
                                    ).regions.contains(x as usize));
                                    if rg.parent == Some(op.id) {
                                        assert(c.op_at(op.id as int).regions.len() == 0);
                                    }
                                },
                            }
                        }
                    }
                }
                assert(!crate::ancestry::reaches(c.pm(), body.id as int, op.id as int)) by {
                    if crate::ancestry::reaches(c.pm(), body.id as int, op.id as int) {
                        let k = choose|k: nat|
                            crate::ancestry::walk(c.pm(), body.id as int, k) == Some(
                                op.id as int,
                            );
                        crate::ancestry::lemma_unreached(c.pm(), op.id as int, body.id as int, k);
                        assert(body.id as int != op.id as int);
                    }
                }
                assert(c.op_at(op.id as int).parent is None);
            }
            let ghost mid = ctx@;
            let oref = body.append_operation(ctx, op);
            proof {
                let c = ctx@;
                let ghost opid = oref.id;
                let blk = body.id;
                // Other nodes keep their state.
                assert forall|x: int|
                    0 <= x < mid.nodes.len() && x != blk as int && x != opid as int implies
                    #[trigger] c.nodes[x] == mid.nodes[x] by {}
                assert(plain_module(c, m.op as int)) by {
                    assert(m.op as int != blk as int) by {
                        assert(mid.nodes[m.op as int] is Op);
                        assert(mid.nodes[blk as int] is Block);
                    }
                    assert(c.nodes[m.op as int] == mid.nodes[m.op as int]);
                    let reg = c.op_at(m.op as int).regions[0];
                    assert(mid.wf_node(m.op as int));
                    assert(mid.is_region(reg as int));
                    assert(c.nodes[reg as int] == mid.nodes[reg as int]);
                    assert(c.block_at(blk as int).args == mid.block_at(blk as int).args);
                }
                assert(module_plain_with_names(c, m.op, names_v.subrange(0, (t + 1) as int))) by {
                    assert(crate::text::body_of(c, m.op as int) == blk);
                    assert(c.block_at(blk as int).ops =~= mid.block_at(blk as int).ops.push(opid));
                    assert forall|j: int| 0 <= j < t + 1 implies simple_op(
                        c,
                        #[trigger] c.block_at(blk as int).ops[j] as int,
                    ) && c.strings[c.op_at(c.block_at(blk as int).ops[j] as int).name as int]
                        == names_v.subrange(0, (t + 1) as int)[j] by {
                        if j < t {
                            let o2 = mid.block_at(blk as int).ops[j];
                            assert(c.block_at(blk as int).ops[j] == o2);
                            assert(mid.wf_node(blk as int));
                            assert(mid.is_op(o2 as int));
                            assert(o2 as int != opid as int) by {
                                assert(mid.op_at(o2 as int).parent == Some(blk));
                            }
                            assert(c.nodes[o2 as int] == mid.nodes[o2 as int]);
                        } else {
                            assert(c.block_at(blk as int).ops[j] == opid);
                            assert(c.nodes[opid as int] matches crate::context::NodeV::Op(o3)
                                && o3.operands == mid.op_at(opid as int).operands);
                        }
                    }
                }
            }
            t = t + 1;
        }
        proof {
            assert(names_v.subrange(0, total as int) =~= names_v);
        }
        Some(m)
    }
}

} // verus!
