//! Types carried by values and operation results.
//!
//! A type is a plain structural value: structurally equal types constructed
//! independently compare equal, which is what uniquing in a shared context is
//! for.  A vector type carries its dimensions and a scalar element kind, so
//! the type tree is flat and equality is decidable by direct comparison.

use crate::location::Location;
use vstd::prelude::*;

verus! {

/// The scalar type kinds.
#[derive(Clone, Copy, Debug, PartialEq, Eq, Structural)]
pub enum ScalarKind {
    BFloat16,
    Float16,
    Float32,
    Float64,
    Index,
    Integer(u32),
    SignedInteger(u32),
    UnsignedInteger(u32),
    NoneType,
}

/// A type: a scalar, or a vector of scalars.
#[derive(Debug)]
pub enum Type {
    Scalar(ScalarKind),
    Vector { dims: Vec<u64>, element: ScalarKind },
}

/// The mathematical value of a type.
#[verifier::ext_equal]
pub enum TypeV {
    Scalar(ScalarKind),
    Vector { dims: Seq<u64>, element: ScalarKind },
}

impl View for Type {
    type V = TypeV;

    open spec fn view(&self) -> TypeV {
        match self {
            Type::Scalar(k) => TypeV::Scalar(*k),
            Type::Vector { dims, element } => TypeV::Vector { dims: dims@, element: *element },
        }
    }
}

/// A scalar kind that may be the element of a vector type.
pub open spec fn vector_element_ok(k: ScalarKind) -> bool {
    match k {
        ScalarKind::Index => false,
        ScalarKind::NoneType => false,
        _ => true,
    }
}

/// A well-formed vector shape: at least one dimension, all nonzero.
pub open spec fn vector_dims_ok(dims: Seq<u64>) -> bool {
    dims.len() >= 1 && forall|i: int| 0 <= i < dims.len() ==> #[trigger] dims[i] >= 1
}

/// A well-formed type.
pub open spec fn type_ok(t: TypeV) -> bool {
    match t {
        TypeV::Scalar(_) => true,
        TypeV::Vector { dims, element } => vector_dims_ok(dims) && vector_element_ok(element),
    }
}

fn vec_u64_dup(a: &Vec<u64>) -> (r: Vec<u64>)
    ensures
        r@ == a@,
{
    let mut r: Vec<u64> = Vec::new();
    let mut i: usize = 0;
    while i < a.len()
        invariant
            0 <= i <= a@.len(),
            r@ == a@.subrange(0, i as int),
        decreases a@.len() - i,
    {
        r.push(a[i]);
        proof {
            assert(r@ =~= a@.subrange(0, i + 1));
        }
        i = i + 1;
    }
    proof {
        assert(r@ =~= a@);
    }
    r
}

fn vec_u64_eq(a: &Vec<u64>, b: &Vec<u64>) -> (r: bool)
    ensures
        r == (a@ == b@),
{
    if a.len() != b.len() {
        return false;
    }
    let mut i: usize = 0;
    while i < a.len()
        invariant
            0 <= i <= a@.len(),
            a@.len() == b@.len(),
            forall|j: int| 0 <= j < i ==> a@[j] == b@[j],
        decreases a@.len() - i,
    {
        if a[i] != b[i] {
            return false;
        }
        i = i + 1;
    }
    proof {
        assert(a@ =~= b@);
    }
    true
}

impl PartialEq for Type {
    fn eq(&self, other: &Type) -> (r: bool) {
        let r = match (self, other) {
            (Type::Scalar(x), Type::Scalar(y)) => x == y,
            (
                Type::Vector { dims: d1, element: e1 },
                Type::Vector { dims: d2, element: e2 },
            ) => *e1 == *e2 && vec_u64_eq(d1, d2),
            _ => false,
        };
        proof {
            if r {
                assert(self@ =~= other@);
            }
        }
        r
    }
}

impl vstd::std_specs::cmp::PartialEqSpecImpl for Type {
    open spec fn obeys_eq_spec() -> bool {
        true
    }

    open spec fn eq_spec(&self, other: &Type) -> bool {
        self@ == other@
    }
}

impl Eq for Type {

}

impl Clone for Type {
    fn clone(&self) -> (r: Type)
        ensures
            r@ == self@,
    {
        match self {
            Type::Scalar(k) => Type::Scalar(*k),
            Type::Vector { dims, element } => Type::Vector {
                dims: vec_u64_dup(dims),
                element: *element,
            },
        }
    }
}

impl Type {
    /// The `bfloat16` type.
    pub fn bfloat16() -> (r: Type)
        ensures
            r@ == TypeV::Scalar(ScalarKind::BFloat16),
    {
        Type::Scalar(ScalarKind::BFloat16)
    }

    /// The 16-bit float type.
    pub fn float16() -> (r: Type)
        ensures
            r@ == TypeV::Scalar(ScalarKind::Float16),
    {
        Type::Scalar(ScalarKind::Float16)
    }

    /// The 32-bit float type.
    pub fn float32() -> (r: Type)
        ensures
            r@ == TypeV::Scalar(ScalarKind::Float32),
    {
        Type::Scalar(ScalarKind::Float32)
    }

    /// The 64-bit float type.
    pub fn float64() -> (r: Type)
        ensures
            r@ == TypeV::Scalar(ScalarKind::Float64),
    {
        Type::Scalar(ScalarKind::Float64)
    }

    /// The index type.
    pub fn index() -> (r: Type)
        ensures
            r@ == TypeV::Scalar(ScalarKind::Index),
    {
        Type::Scalar(ScalarKind::Index)
    }

    /// A signless integer type of the given bit width.
    pub fn integer(bits: u32) -> (r: Type)
        ensures
            r@ == TypeV::Scalar(ScalarKind::Integer(bits)),
    {
        Type::Scalar(ScalarKind::Integer(bits))
    }

    /// A signed integer type of the given bit width.
    pub fn signed_integer(bits: u32) -> (r: Type)
        ensures
            r@ == TypeV::Scalar(ScalarKind::SignedInteger(bits)),
    {
        Type::Scalar(ScalarKind::SignedInteger(bits))
    }

    /// An unsigned integer type of the given bit width.
    pub fn unsigned_integer(bits: u32) -> (r: Type)
        ensures
            r@ == TypeV::Scalar(ScalarKind::UnsignedInteger(bits)),
    {
        Type::Scalar(ScalarKind::UnsignedInteger(bits))
    }

    /// The none type.
    pub fn none() -> (r: Type)
        ensures
            r@ == TypeV::Scalar(ScalarKind::NoneType),
    {
        Type::Scalar(ScalarKind::NoneType)
    }

    /// A vector type over a scalar element.  The shape and the element must
    /// already be known to be valid; `vector_checked` reports invalid input
    /// instead.
    pub fn vector(dims: Vec<u64>, element: Type) -> (r: Type)
        requires
            element@ matches TypeV::Scalar(k) && vector_element_ok(k),
            vector_dims_ok(dims@),
        ensures
            (element@ matches TypeV::Scalar(k) && r@ == TypeV::Vector {
                dims: dims@,
                element: k,
            }),
            type_ok(r@),
    {
        match element {
            Type::Scalar(k) => Type::Vector { dims, element: k },
            Type::Vector { .. } => Type::Scalar(ScalarKind::NoneType),
        }
    }

    /// A vector type over a scalar element, with validation: fails on an
    /// empty or zero-sized shape and on an element kind that vectors do not
    /// admit.  The location is reported by a diagnostic layer; the check
    /// itself does not depend on it.
    pub fn vector_checked(location: Location, dims: Vec<u64>, element: Type) -> (r: Option<Type>)
        ensures
            (match element@ {
                TypeV::Scalar(k) => vector_dims_ok(dims@) && vector_element_ok(k),
                TypeV::Vector { .. } => false,
            }) ==> (element@ matches TypeV::Scalar(k) && r matches Some(t) && t@ == TypeV::Vector {
                dims: dims@,
                element: k,
            }),
            !(match element@ {
                TypeV::Scalar(k) => vector_dims_ok(dims@) && vector_element_ok(k),
                TypeV::Vector { .. } => false,
            }) ==> r is None,
    {
        let _ = location;
        let k = match element {
            Type::Scalar(k) => k,
            Type::Vector { .. } => {
                return None;
            },
        };
        let elem_ok = match k {
            ScalarKind::Index => false,
            ScalarKind::NoneType => false,
            _ => true,
        };
        if !elem_ok {
            return None;
        }
        if dims.len() == 0 {
            return None;
        }
        let mut i: usize = 0;
        while i < dims.len()
            invariant
                0 <= i <= dims@.len(),
                forall|j: int| 0 <= j < i ==> #[trigger] dims@[j] >= 1,
            decreases dims@.len() - i,
    {
            if dims[i] == 0 {
                return None;
            }
            i = i + 1;
        }
        Some(Type::Vector { dims, element: k })
    }
}

} // verus!

verus! {

use crate::chars::chars_to_string;
use crate::chars::string_to_chars;
use crate::num::{chars_to_u64, dec_rep, dec_val, is_digit, lemma_dec_rep_digits, u64_to_chars};

/// The textual form of a scalar kind.
pub open spec fn render_scalar(k: ScalarKind) -> Seq<char> {
    match k {
        ScalarKind::BFloat16 => seq!['b', 'f', '1', '6'],
        ScalarKind::Float16 => seq!['f', '1', '6'],
        ScalarKind::Float32 => seq!['f', '3', '2'],
        ScalarKind::Float64 => seq!['f', '6', '4'],
        ScalarKind::Index => seq!['i', 'n', 'd', 'e', 'x'],
        ScalarKind::Integer(b) => seq!['i'] + dec_rep(b as nat),
        ScalarKind::SignedInteger(b) => seq!['s', 'i'] + dec_rep(b as nat),
        ScalarKind::UnsignedInteger(b) => seq!['u', 'i'] + dec_rep(b as nat),
        ScalarKind::NoneType => seq!['n', 'o', 'n', 'e'],
    }
}

/// The textual form of a vector shape: each dimension followed by an `x`.
pub open spec fn render_dims(dims: Seq<u64>) -> Seq<char>
    decreases dims.len(),
{
    if dims.len() == 0 {
        Seq::empty()
    } else {
        dec_rep(dims[0] as nat) + seq!['x'] + render_dims(dims.subrange(1, dims.len() as int))
    }
}

/// The textual form of a type.
pub open spec fn render_type(t: TypeV) -> Seq<char> {
    match t {
        TypeV::Scalar(k) => render_scalar(k),
        TypeV::Vector { dims, element } => seq!['v', 'e', 'c', 't', 'o', 'r', '<'] + render_dims(
            dims,
        ) + render_scalar(element) + seq!['>'],
    }
}

/// The end of the digit run beginning at `i`.
pub open spec fn digits_end(s: Seq<char>, i: int) -> int
    decreases s.len() - i,
{
    if i < 0 || i >= s.len() {
        i
    } else if is_digit(s[i]) {
        digits_end(s, i + 1)
    } else {
        i
    }
}

/// A digit run that stands for a number without a spurious leading zero.
pub open spec fn plain_number(s: Seq<char>, from: int, to: int) -> bool {
    &&& 0 <= from < to <= s.len()
    &&& (forall|i: int| from <= i < to ==> is_digit(#[trigger] s[i]))
    &&& (to - from > 1 ==> s[from] != '0')
}

/// Reads the leading dimensions of a vector body: digit runs each followed
/// by an `x`.  Yields the dimensions and the position after the last `x`.
pub open spec fn spec_parse_dims(s: Seq<char>, i: int) -> (Seq<u64>, int)
    decreases s.len() - i,
{
    if i < 0 || i >= s.len() {
        (Seq::empty(), i)
    } else {
        let j = digits_end(s, i);
        if j > i && j < s.len() && s[j] == 'x' && plain_number(s, i, j) && dec_val(
            s.subrange(i, j),
        ) <= u64::MAX && s.len() - (j + 1) < s.len() - i {
            let (rest, end) = spec_parse_dims(s, j + 1);
            (seq![dec_val(s.subrange(i, j)) as u64] + rest, end)
        } else {
            (Seq::empty(), i)
        }
    }
}

/// Reads a scalar type from a whole character sequence.
pub open spec fn spec_parse_scalar(s: Seq<char>) -> Option<ScalarKind> {
    if s == seq!['i', 'n', 'd', 'e', 'x'] {
        Some(ScalarKind::Index)
    } else if s == seq!['n', 'o', 'n', 'e'] {
        Some(ScalarKind::NoneType)
    } else if s == seq!['b', 'f', '1', '6'] {
        Some(ScalarKind::BFloat16)
    } else if s == seq!['f', '1', '6'] {
        Some(ScalarKind::Float16)
    } else if s == seq!['f', '3', '2'] {
        Some(ScalarKind::Float32)
    } else if s == seq!['f', '6', '4'] {
        Some(ScalarKind::Float64)
    } else if s.len() >= 2 && s[0] == 'i' && plain_number(s, 1, s.len() as int) && dec_val(
        s.subrange(1, s.len() as int),
    ) <= u32::MAX {
        Some(ScalarKind::Integer(dec_val(s.subrange(1, s.len() as int)) as u32))
    } else if s.len() >= 3 && s[0] == 's' && s[1] == 'i' && plain_number(s, 2, s.len() as int)
        && dec_val(s.subrange(2, s.len() as int)) <= u32::MAX {
        Some(ScalarKind::SignedInteger(dec_val(s.subrange(2, s.len() as int)) as u32))
    } else if s.len() >= 3 && s[0] == 'u' && s[1] == 'i' && plain_number(s, 2, s.len() as int)
        && dec_val(s.subrange(2, s.len() as int)) <= u32::MAX {
        Some(ScalarKind::UnsignedInteger(dec_val(s.subrange(2, s.len() as int)) as u32))
    } else {
        None
    }
}

/// Reads a type from a whole character sequence.
pub open spec fn spec_parse_type(s: Seq<char>) -> Option<TypeV> {
    if s.len() >= 8 && s.subrange(0, 7) == seq!['v', 'e', 'c', 't', 'o', 'r', '<'] && s[s.len()
        - 1] == '>' {
        let body = s.subrange(7, s.len() - 1);
        let (dims, end) = spec_parse_dims(body, 0);
        match spec_parse_scalar(body.subrange(end, body.len() as int)) {
            Some(k) => {
                if vector_dims_ok(dims) && vector_element_ok(k) {
                    Some(TypeV::Vector { dims, element: k })
                } else {
                    None
                }
            },
            None => None,
        }
    } else {
        match spec_parse_scalar(s) {
            Some(k) => Some(TypeV::Scalar(k)),
            None => None,
        }
    }
}

} // verus!

verus! {

fn scalar_chars(k: ScalarKind) -> (r: Vec<char>)
    ensures
        r@ == render_scalar(k),
{
    let mut out: Vec<char> = Vec::new();
    match k {
        ScalarKind::BFloat16 => {
            out.push('b');
            out.push('f');
            out.push('1');
            out.push('6');
            proof {
                assert(out@ =~= render_scalar(k));
            }
        },
        ScalarKind::Float16 => {
            out.push('f');
            out.push('1');
            out.push('6');
            proof {
                assert(out@ =~= render_scalar(k));
            }
        },
        ScalarKind::Float32 => {
            out.push('f');
            out.push('3');
            out.push('2');
            proof {
                assert(out@ =~= render_scalar(k));
            }
        },
        ScalarKind::Float64 => {
            out.push('f');
            out.push('6');
            out.push('4');
            proof {
                assert(out@ =~= render_scalar(k));
            }
        },
        ScalarKind::Index => {
            out.push('i');
            out.push('n');
            out.push('d');
            out.push('e');
            out.push('x');
            proof {
                assert(out@ =~= render_scalar(k));
            }
        },
        ScalarKind::NoneType => {
            out.push('n');
            out.push('o');
            out.push('n');
            out.push('e');
            proof {
                assert(out@ =~= render_scalar(k));
            }
        },
        ScalarKind::Integer(b) => {
            out.push('i');
            let mut d = u64_to_chars(b as u64);
            out.append(&mut d);
            proof {
                assert(out@ =~= render_scalar(k));
            }
        },
        ScalarKind::SignedInteger(b) => {
            out.push('s');
            out.push('i');
            let mut d = u64_to_chars(b as u64);
            out.append(&mut d);
            proof {
                assert(out@ =~= render_scalar(k));
            }
        },
        ScalarKind::UnsignedInteger(b) => {
            out.push('u');
            out.push('i');
            let mut d = u64_to_chars(b as u64);
            out.append(&mut d);
            proof {
                assert(out@ =~= render_scalar(k));
            }
        },
    }
    out
}

/// Renders a type as characters.
pub fn type_chars(t: &Type) -> (r: Vec<char>)
    ensures
        r@ == render_type(t@),
{
    match t {
        Type::Scalar(k) => scalar_chars(*k),
        Type::Vector { dims, element } => {
            let mut out: Vec<char> = Vec::new();
            out.push('v');
            out.push('e');
            out.push('c');
            out.push('t');
            out.push('o');
            out.push('r');
            out.push('<');
            proof {
                assert(out@ =~= seq!['v', 'e', 'c', 't', 'o', 'r', '<']);
            }
            let ghost prefix = out@;
            proof {
                assert(dims@.subrange(0, dims@.len() as int) =~= dims@);
            }
            let mut i: usize = 0;
            while i < dims.len()
                invariant
                    0 <= i <= dims@.len(),
                    prefix == seq!['v', 'e', 'c', 't', 'o', 'r', '<'],
                    out@ + render_dims(dims@.subrange(i as int, dims@.len() as int)) == prefix
                        + render_dims(dims@),
                decreases dims@.len() - i,
            {
                let ghost outold = out@;
                let mut d = u64_to_chars(dims[i]);
                out.append(&mut d);
                out.push('x');
                proof {
                    let rest = dims@.subrange(i as int, dims@.len() as int);
                    assert(rest[0] == dims@[i as int]);
                    assert(rest.subrange(1, rest.len() as int) =~= dims@.subrange(
                        i + 1,
                        dims@.len() as int,
                    ));
                    assert(render_dims(rest) == dec_rep(dims@[i as int] as nat) + seq!['x']
                        + render_dims(dims@.subrange(i + 1, dims@.len() as int)));
                    assert(out@ =~= outold + dec_rep(dims@[i as int] as nat) + seq!['x']);
                    assert(out@ + render_dims(dims@.subrange(i + 1, dims@.len() as int)) =~= outold
                        + render_dims(rest));
                }
                i = i + 1;
            }
            proof {
                assert(render_dims(dims@.subrange(dims@.len() as int, dims@.len() as int))
                    =~= Seq::<char>::empty());
                assert(out@ =~= prefix + render_dims(dims@));
            }
            let mut e = scalar_chars(*element);
            out.append(&mut e);
            out.push('>');
            proof {
                assert(out@ =~= render_type(t@));
            }
            out
        },
    }
}

impl Type {
    /// The textual form of the type.
    pub fn to_text(&self) -> (r: String)
        ensures
            r@ == render_type(self@),
    {
        let cs = type_chars(self);
        chars_to_string(&cs)
    }
}

fn digits_end_exec(s: &Vec<char>, i: usize) -> (r: usize)
    requires
        i <= s@.len(),
    ensures
        r == digits_end(s@, i as int),
        i <= r <= s@.len(),
{
    let mut j = i;
    while j < s.len() && ('0' <= s[j] && s[j] <= '9')
        invariant
            i <= j <= s@.len(),
            digits_end(s@, i as int) == digits_end(s@, j as int),
            forall|q: int| i <= q < j ==> is_digit(#[trigger] s@[q]),
        decreases s@.len() - j,
    {
        j = j + 1;
    }
    proof {
        assert(digits_end(s@, j as int) == j as int);
    }
    j
}

fn parse_scalar_at(s: &Vec<char>, from: usize) -> (r: Option<ScalarKind>)
    requires
        from <= s@.len(),
    ensures
        r == spec_parse_scalar(s@.subrange(from as int, s@.len() as int)),
{
    let ghost sub = s@.subrange(from as int, s@.len() as int);
    let n = s.len() - from;
    if n == 5 && s[from] == 'i' && s[from + 1] == 'n' && s[from + 2] == 'd' && s[from + 3] == 'e'
        && s[from + 4] == 'x' {
        proof {
            assert(sub =~= seq!['i', 'n', 'd', 'e', 'x']);
        }
        return Some(ScalarKind::Index);
    }
    if n == 4 && s[from] == 'n' && s[from + 1] == 'o' && s[from + 2] == 'n' && s[from + 3] == 'e' {
        proof {
            assert(sub =~= seq!['n', 'o', 'n', 'e']);
        }
        return Some(ScalarKind::NoneType);
    }
    if n == 4 && s[from] == 'b' && s[from + 1] == 'f' && s[from + 2] == '1' && s[from + 3] == '6' {
        proof {
            assert(sub =~= seq!['b', 'f', '1', '6']);
        }
        return Some(ScalarKind::BFloat16);
    }
    if n == 3 && s[from] == 'f' && s[from + 1] == '1' && s[from + 2] == '6' {
        proof {
            assert(sub =~= seq!['f', '1', '6']);
        }
        return Some(ScalarKind::Float16);
    }
    if n == 3 && s[from] == 'f' && s[from + 1] == '3' && s[from + 2] == '2' {
        proof {
            assert(sub =~= seq!['f', '3', '2']);
        }
        return Some(ScalarKind::Float32);
    }
    if n == 3 && s[from] == 'f' && s[from + 1] == '6' && s[from + 2] == '4' {
        proof {
            assert(sub =~= seq!['f', '6', '4']);
        }
        return Some(ScalarKind::Float64);
    }
    proof {
        assert(sub != seq!['i', 'n', 'd', 'e', 'x'] && sub != seq!['n', 'o', 'n', 'e'] && sub
            != seq!['b', 'f', '1', '6'] && sub != seq!['f', '1', '6'] && sub != seq!['f', '3', '2']
            && sub != seq!['f', '6', '4']) by {
            if sub == seq!['i', 'n', 'd', 'e', 'x'] {
                assert(sub.len() == 5 && sub[0] == 'i' && sub[1] == 'n' && sub[2] == 'd' && sub[3]
                    == 'e' && sub[4] == 'x');
                assert(s@[from as int] == 'i');
            }
            if sub == seq!['n', 'o', 'n', 'e'] {
                assert(sub.len() == 4 && sub[0] == 'n' && sub[1] == 'o' && sub[2] == 'n' && sub[3]
                    == 'e');
            }
            if sub == seq!['b', 'f', '1', '6'] {
                assert(sub.len() == 4 && sub[0] == 'b' && sub[1] == 'f' && sub[2] == '1' && sub[3]
                    == '6');
            }
            if sub == seq!['f', '1', '6'] {
                assert(sub.len() == 3 && sub[0] == 'f' && sub[1] == '1' && sub[2] == '6');
            }
            if sub == seq!['f', '3', '2'] {
                assert(sub.len() == 3 && sub[0] == 'f' && sub[1] == '3' && sub[2] == '2');
            }
            if sub == seq!['f', '6', '4'] {
                assert(sub.len() == 3 && sub[0] == 'f' && sub[1] == '6' && sub[2] == '4');
            }
        }
    }
    // An integer form: a prefix and then a plain number to the end.
    let start: usize;
    let kind: u8;
    if n >= 2 && s[from] == 'i' {
        start = from + 1;
        kind = 0;
    } else if n >= 3 && s[from] == 's' && s[from + 1] == 'i' {
        start = from + 2;
        kind = 1;
    } else if n >= 3 && s[from] == 'u' && s[from + 1] == 'i' {
        start = from + 2;
        kind = 2;
    } else {
        return None;
    }
    let j = digits_end_exec(s, start);
    proof {
        lemma_digits_end_range(s@, start as int);
    }
    if j != s.len() {
        proof {
            assert(!is_digit(s@[digits_end(s@, start as int)]) || digits_end(s@, start as int)
                == s@.len());
            assert(!plain_number(sub, (start - from) as int, sub.len() as int)) by {
                if plain_number(sub, (start - from) as int, sub.len() as int) {
                    assert forall|q: int|
                        start <= q < s@.len() implies is_digit(#[trigger] s@[q]) by {
                        assert(sub[q - from] == s@[q]);
                        assert(is_digit(sub[q - from]));
                    }
                    lemma_digits_end_all(s@, start as int, s@.len() as int);
                }
            }
        }
        return None;
    }
    if s[start] == '0' && s.len() - start > 1 {
        proof {
            assert(sub[(start - from) as int] == '0');
        }
        return None;
    }
    proof {
        assert forall|q: int| start <= q < s@.len() implies is_digit(#[trigger] s@[q]) by {
            lemma_digits_end_digits(s@, start as int, q);
        }
        assert(plain_number(sub, (start - from) as int, sub.len() as int)) by {
            assert forall|q: int|
                (start - from) as int <= q < sub.len() implies is_digit(#[trigger] sub[q]) by {
                assert(sub[q] == s@[from + q]);
            }
        }
        assert(sub.subrange((start - from) as int, sub.len() as int) =~= s@.subrange(
            start as int,
            s@.len() as int,
        ));
    }
    let v = match chars_to_u64(s, start, s.len()) {
        Some(v) => v,
        None => {
            return None;
        },
    };
    if v > 0xffff_ffff {
        return None;
    }
    if kind == 0 {
        Some(ScalarKind::Integer(v as u32))
    } else if kind == 1 {
        Some(ScalarKind::SignedInteger(v as u32))
    } else {
        Some(ScalarKind::UnsignedInteger(v as u32))
    }
}

proof fn lemma_digits_end_range(s: Seq<char>, i: int)
    requires
        0 <= i <= s.len(),
    ensures
        i <= digits_end(s, i) <= s.len(),
        digits_end(s, i) < s.len() ==> !is_digit(s[digits_end(s, i)]),
    decreases s.len() - i,
{
    if i < s.len() && is_digit(s[i]) {
        lemma_digits_end_range(s, i + 1);
    }
}

proof fn lemma_digits_end_digits(s: Seq<char>, i: int, q: int)
    requires
        0 <= i <= s.len(),
        i <= q < digits_end(s, i),
    ensures
        is_digit(s[q]),
    decreases s.len() - i,
{
    if i < s.len() && is_digit(s[i]) {
        if q > i {
            lemma_digits_end_digits(s, i + 1, q);
        }
    }
}

proof fn lemma_digits_end_all(s: Seq<char>, i: int, to: int)
    requires
        0 <= i <= to <= s.len(),
        forall|q: int| i <= q < to ==> is_digit(#[trigger] s[q]),
        to == s.len(),
    ensures
        digits_end(s, i) == to,
    decreases s.len() - i,
{
    if i < s.len() {
        lemma_digits_end_all(s, i + 1, to);
    }
}

} // verus!

verus! {

fn parse_dims_exec(s: &Vec<char>) -> (r: (Vec<u64>, usize))
    ensures
        r.0@ == spec_parse_dims(s@, 0).0,
        r.1 as int == spec_parse_dims(s@, 0).1,
        r.1 <= s@.len(),
{
    let mut acc: Vec<u64> = Vec::new();
    let mut pos: usize = 0;
    let mut done = false;
    proof {
        assert(acc@ + spec_parse_dims(s@, 0).0 =~= spec_parse_dims(s@, 0).0);
    }
    while !done
        invariant
            0 <= pos <= s@.len(),
            !done ==> spec_parse_dims(s@, 0).0 == acc@ + spec_parse_dims(s@, pos as int).0
                && spec_parse_dims(s@, 0).1 == spec_parse_dims(s@, pos as int).1,
            done ==> acc@ == spec_parse_dims(s@, 0).0 && pos as int == spec_parse_dims(s@, 0).1,
        decreases s@.len() - pos + (if done {
            0int
        } else {
            1int
        }),
    {
        let ghost gpos = pos as int;
        if pos >= s.len() {
            proof {
                assert(spec_parse_dims(s@, gpos).0 =~= Seq::<u64>::empty());
                assert(acc@ + spec_parse_dims(s@, gpos).0 =~= acc@);
            }
            done = true;
        } else {
            let j = digits_end_exec(s, pos);
            let mut guard = j > pos && j < s.len();
            if guard {
                guard = s[j] == 'x';
            }
            if guard && s[pos] == '0' && j - pos > 1 {
                guard = false;
                proof {
                    assert(!plain_number(s@, gpos, j as int));
                }
            }
            if guard {
                proof {
                    assert forall|q: int| gpos <= q < j as int implies is_digit(
                        #[trigger] s@[q],
                    ) by {
                        lemma_digits_end_digits(s@, gpos, q);
                    }
                    assert(plain_number(s@, gpos, j as int));
                }
                match chars_to_u64(s, pos, j) {
                    Some(v) => {
                        let ghost accold = acc@;
                        acc.push(v);
                        proof {
                            let pd = spec_parse_dims(s@, gpos);
                            assert(pd.0 == seq![v] + spec_parse_dims(s@, j + 1).0);
                            assert(pd.1 == spec_parse_dims(s@, j + 1).1);
                            assert(acc@ + spec_parse_dims(s@, j + 1).0 =~= accold + pd.0);
                        }
                        pos = j + 1;
                    },
                    None => {
                        proof {
                            assert(dec_val(s@.subrange(gpos, j as int)) > u64::MAX);
                            assert(spec_parse_dims(s@, gpos).0 =~= Seq::<u64>::empty());
                            assert(acc@ + spec_parse_dims(s@, gpos).0 =~= acc@);
                        }
                        done = true;
                    },
                }
            } else {
                proof {
                    assert(spec_parse_dims(s@, gpos).0 =~= Seq::<u64>::empty());
                    assert(acc@ + spec_parse_dims(s@, gpos).0 =~= acc@);
                }
                done = true;
            }
        }
    }
    (acc, pos)
}

impl Type {
    /// Reads a type from its textual form; fails exactly where the text is
    /// not the rendering the reader accepts.
    pub fn parse(source: &str) -> (r: Option<Type>)
        ensures
            match spec_parse_type(source@) {
                Some(t) => r matches Some(t2) && t2@ == t,
                None => r is None,
            },
    {
        let s = string_to_chars(source);
        let is_vector = s.len() >= 8 && s[0] == 'v' && s[1] == 'e' && s[2] == 'c' && s[3] == 't'
            && s[4] == 'o' && s[5] == 'r' && s[6] == '<' && s[s.len() - 1] == '>';
        proof {
            if s@.len() >= 8 {
                if s@[0] == 'v' && s@[1] == 'e' && s@[2] == 'c' && s@[3] == 't' && s@[4] == 'o'
                    && s@[5] == 'r' && s@[6] == '<' {
                    assert(s@.subrange(0, 7) =~= seq!['v', 'e', 'c', 't', 'o', 'r', '<']);
                } else {
                    assert(s@.subrange(0, 7) != seq!['v', 'e', 'c', 't', 'o', 'r', '<']) by {
                        if s@.subrange(0, 7) == seq!['v', 'e', 'c', 't', 'o', 'r', '<'] {
                            assert(s@[0] == s@.subrange(0, 7)[0]);
                            assert(s@[1] == s@.subrange(0, 7)[1]);
                            assert(s@[2] == s@.subrange(0, 7)[2]);
                            assert(s@[3] == s@.subrange(0, 7)[3]);
                            assert(s@[4] == s@.subrange(0, 7)[4]);
                            assert(s@[5] == s@.subrange(0, 7)[5]);
                            assert(s@[6] == s@.subrange(0, 7)[6]);
                        }
                    }
                }
            }
        }
        if is_vector {
            let mut body: Vec<char> = Vec::new();
            let mut i: usize = 7;
            while i < s.len() - 1
                invariant
                    7 <= i <= s@.len() - 1,
                    s@.len() >= 8,
                    body@ == s@.subrange(7, i as int),
                decreases s@.len() - i,
            {
                body.push(s[i]);
                proof {
                    assert(body@ =~= s@.subrange(7, i + 1));
                }
                i = i + 1;
            }
            proof {
                assert(body@ =~= s@.subrange(7, s@.len() - 1));
            }
            let (dims, end) = parse_dims_exec(&body);
            proof {
                assert(body@ == s@.subrange(7, s@.len() - 1));
                assert(spec_parse_dims(s@.subrange(7, s@.len() - 1), 0) == spec_parse_dims(
                    body@,
                    0,
                ));
            }
            let k = match parse_scalar_at(&body, end) {
                Some(k) => k,
                None => {
                    proof {
                        assert(spec_parse_scalar(
                            body@.subrange(spec_parse_dims(body@, 0).1, body@.len() as int),
                        ) is None);
                        assert(spec_parse_type(s@) is None);
                    }
                    return None;
                },
            };
            let ghost sdims = spec_parse_dims(body@, 0).0;
            proof {
                assert(spec_parse_scalar(
                    body@.subrange(spec_parse_dims(body@, 0).1, body@.len() as int),
                ) == Some(k));
            }
            let elem_ok = match k {
                ScalarKind::Index => false,
                ScalarKind::NoneType => false,
                _ => true,
            };
            if !elem_ok {
                proof {
                    assert(!vector_element_ok(k));
                    assert(spec_parse_type(s@) is None);
                }
                return None;
            }
            if dims.len() == 0 {
                proof {
                    assert(!vector_dims_ok(sdims));
                    assert(spec_parse_type(s@) is None);
                }
                return None;
            }
            let mut di: usize = 0;
            while di < dims.len()
                invariant
                    0 <= di <= dims@.len(),
                    dims@ == sdims,
                    s@ == source@,
                    s@.len() >= 8,
                    s@.subrange(0, 7) == seq!['v', 'e', 'c', 't', 'o', 'r', '<'],
                    s@[s@.len() - 1] == '>',
                    body@ == s@.subrange(7, s@.len() - 1),
                    sdims == spec_parse_dims(body@, 0).0,
                    sdims.len() >= 1,
                    spec_parse_scalar(
                        body@.subrange(spec_parse_dims(body@, 0).1, body@.len() as int),
                    ) == Some(k),
                    vector_element_ok(k),
                    forall|q: int| 0 <= q < di ==> #[trigger] dims@[q] >= 1,
                decreases dims@.len() - di,
            {
                if dims[di] == 0 {
                    proof {
                        assert(!vector_dims_ok(sdims));
                        assert(spec_parse_type(s@) is None);
                    }
                    return None;
                }
                di = di + 1;
            }
            proof {
                assert(vector_dims_ok(sdims));
                assert(spec_parse_type(s@) == Some(TypeV::Vector { dims: sdims, element: k }));
            }
            Some(Type::Vector { dims, element: k })
        } else {
            match parse_scalar_at(&s, 0) {
                Some(k) => {
                    proof {
                        assert(s@.subrange(0, s@.len() as int) =~= s@);
                    }
                    Some(Type::Scalar(k))
                },
                None => {
                    proof {
                        assert(s@.subrange(0, s@.len() as int) =~= s@);
                    }
                    None
                },
            }
        }
    }
}

} // verus!

verus! {

use crate::num::{lemma_dec_rep_no_leading_zero, lemma_dec_roundtrip};

proof fn lemma_digits_end_stop(s: Seq<char>, i: int, e: int)
    requires
        0 <= i <= e <= s.len(),
        forall|q: int| i <= q < e ==> is_digit(#[trigger] s[q]),
        e < s.len(),
        !is_digit(s[e]),
    ensures
        digits_end(s, i) == e,
    decreases e - i,
{
    if i < e {
        lemma_digits_end_stop(s, i + 1, e);
    }
}

proof fn lemma_scalar_starts(k: ScalarKind)
    ensures
        render_scalar(k).len() >= 1,
        !is_digit(render_scalar(k)[0]),
    decreases 0int,
{
    match k {
        ScalarKind::Integer(b) => {
            assert(render_scalar(k)[0] == 'i');
        },
        ScalarKind::SignedInteger(b) => {
            assert(render_scalar(k)[0] == 's');
        },
        ScalarKind::UnsignedInteger(b) => {
            assert(render_scalar(k)[0] == 'u');
        },
        _ => {},
    }
}

proof fn lemma_parse_scalar_render(k: ScalarKind)
    ensures
        spec_parse_scalar(render_scalar(k)) == Some(k),
{
    let s = render_scalar(k);
    match k {
        ScalarKind::Index => {},
        ScalarKind::NoneType => {
            assert(s != seq!['i', 'n', 'd', 'e', 'x']) by {
                assert(s.len() == 4);
            }
        },
        ScalarKind::BFloat16 => {
            assert(s != seq!['i', 'n', 'd', 'e', 'x']) by {
                assert(s.len() == 4);
            }
            assert(s != seq!['n', 'o', 'n', 'e']) by {
                assert(s[0] == 'b');
            }
        },
        ScalarKind::Float16 => {
            assert(s != seq!['i', 'n', 'd', 'e', 'x'] && s != seq!['n', 'o', 'n', 'e']) by {
                assert(s.len() == 3);
            }
            assert(s != seq!['b', 'f', '1', '6']) by {
                assert(s.len() == 3);
            }
            assert(s == seq!['f', '1', '6']);
        },
        ScalarKind::Float32 => {
            assert(s != seq!['i', 'n', 'd', 'e', 'x'] && s != seq!['n', 'o', 'n', 'e'] && s
                != seq!['b', 'f', '1', '6']) by {
                assert(s.len() == 3);
            }
            assert(s != seq!['f', '1', '6']) by {
                assert(s[1] == '3');
            }
            assert(s == seq!['f', '3', '2']);
        },
        ScalarKind::Float64 => {
            assert(s != seq!['i', 'n', 'd', 'e', 'x'] && s != seq!['n', 'o', 'n', 'e'] && s
                != seq!['b', 'f', '1', '6']) by {
                assert(s.len() == 3);
            }
            assert(s != seq!['f', '1', '6'] && s != seq!['f', '3', '2']) by {
                assert(s[1] == '6');
            }
            assert(s == seq!['f', '6', '4']);
        },
        ScalarKind::Integer(b) => {
            crate::num::lemma_dec_rep_digits(b as nat);
            lemma_dec_rep_no_leading_zero(b as nat);
            lemma_dec_roundtrip(b as nat);
            assert(s[0] == 'i');
            assert forall|q: int| 1 <= q < s.len() implies is_digit(#[trigger] s[q]) by {
                assert(s[q] == dec_rep(b as nat)[q - 1]);
            }
            assert(s != seq!['i', 'n', 'd', 'e', 'x']) by {
                if s == seq!['i', 'n', 'd', 'e', 'x'] {
                    assert(s[1] == 'n');
                    assert(is_digit(s[1]));
                }
            }
            assert(s != seq!['n', 'o', 'n', 'e'] && s != seq!['b', 'f', '1', '6'] && s != seq![
                'f',
                '1',
                '6',
            ] && s != seq!['f', '3', '2'] && s != seq!['f', '6', '4']) by {
                assert(s[0] == 'i');
            }
            assert(plain_number(s, 1, s.len() as int)) by {
                if s.len() > 2 {
                    assert(dec_rep(b as nat).len() > 1);
                    assert(s[1] == dec_rep(b as nat)[0]);
                }
            }
            assert(s.subrange(1, s.len() as int) =~= dec_rep(b as nat));
            assert(dec_val(s.subrange(1, s.len() as int)) == b as nat);
        },
        ScalarKind::SignedInteger(b) => {
            crate::num::lemma_dec_rep_digits(b as nat);
            lemma_dec_rep_no_leading_zero(b as nat);
            lemma_dec_roundtrip(b as nat);
            assert(s[0] == 's' && s[1] == 'i');
            assert forall|q: int| 2 <= q < s.len() implies is_digit(#[trigger] s[q]) by {
                assert(s[q] == dec_rep(b as nat)[q - 2]);
            }
            assert(s != seq!['i', 'n', 'd', 'e', 'x'] && s != seq!['n', 'o', 'n', 'e'] && s
                != seq!['b', 'f', '1', '6'] && s != seq!['f', '1', '6'] && s != seq![
                'f',
                '3',
                '2',
            ] && s != seq!['f', '6', '4']) by {
                assert(s[0] == 's');
            }
            assert(plain_number(s, 2, s.len() as int)) by {
                if s.len() > 3 {
                    assert(dec_rep(b as nat).len() > 1);
                    assert(s[2] == dec_rep(b as nat)[0]);
                }
            }
            assert(s.subrange(2, s.len() as int) =~= dec_rep(b as nat));
            assert(dec_val(s.subrange(2, s.len() as int)) == b as nat);
        },
        ScalarKind::UnsignedInteger(b) => {
            crate::num::lemma_dec_rep_digits(b as nat);
            lemma_dec_rep_no_leading_zero(b as nat);
            lemma_dec_roundtrip(b as nat);
            assert(s[0] == 'u' && s[1] == 'i');
            assert forall|q: int| 2 <= q < s.len() implies is_digit(#[trigger] s[q]) by {
                assert(s[q] == dec_rep(b as nat)[q - 2]);
            }
            assert(s != seq!['i', 'n', 'd', 'e', 'x'] && s != seq!['n', 'o', 'n', 'e'] && s
                != seq!['b', 'f', '1', '6'] && s != seq!['f', '1', '6'] && s != seq![
                'f',
                '3',
                '2',
            ] && s != seq!['f', '6', '4']) by {
                assert(s[0] == 'u');
            }
            assert(plain_number(s, 2, s.len() as int)) by {
                if s.len() > 3 {
                    assert(dec_rep(b as nat).len() > 1);
                    assert(s[2] == dec_rep(b as nat)[0]);
                }
            }
            assert(s.subrange(2, s.len() as int) =~= dec_rep(b as nat));
            assert(dec_val(s.subrange(2, s.len() as int)) == b as nat);
        },
    }
}

proof fn lemma_parse_dims_render(s: Seq<char>, i: int, dims: Seq<u64>)
    requires
        0 <= i,
        i + render_dims(dims).len() < s.len(),
        forall|q: int|
            0 <= q < render_dims(dims).len() ==> s[i + q] == #[trigger] render_dims(dims)[q],
        !is_digit(s[i + render_dims(dims).len()]),
    ensures
        spec_parse_dims(s, i) == (dims, i + render_dims(dims).len()),
    decreases dims.len(),
{
    let rd = render_dims(dims);
    let p = i + rd.len();
    if dims.len() == 0 {
        assert(rd =~= Seq::<char>::empty());
        assert(!is_digit(s[i]));
        assert(digits_end(s, i) == i);
    } else {
        let d = dims[0];
        let rest = dims.subrange(1, dims.len() as int);
        crate::num::lemma_dec_rep_digits(d as nat);
        lemma_dec_rep_no_leading_zero(d as nat);
        lemma_dec_roundtrip(d as nat);
        let dl = dec_rep(d as nat).len() as int;
        assert(rd == dec_rep(d as nat) + seq!['x'] + render_dims(rest));
        assert forall|q: int| i <= q < i + dl implies is_digit(#[trigger] s[q]) by {
            assert(rd[q - i] == dec_rep(d as nat)[q - i]);
            assert(s[q] == rd[q - i]);
        }
        assert(s[i + dl] == 'x') by {
            assert(rd[dl] == 'x');
        }
        lemma_digits_end_stop(s, i, i + dl);
        let j = i + dl;
        assert forall|q: int| 0 <= q < dl implies #[trigger] rd[q] == dec_rep(d as nat)[q] by {
            assert(rd[q] == (dec_rep(d as nat) + seq!['x'])[q]);
        }
        assert(plain_number(s, i, j)) by {
            if j - i > 1 {
                assert(dec_rep(d as nat).len() > 1);
                assert(rd[0] == dec_rep(d as nat)[0]);
                assert(s[i] == rd[0]);
            }
        }
        assert(s.subrange(i, j) =~= dec_rep(d as nat)) by {
            assert forall|q: int| 0 <= q < dl implies s.subrange(i, j)[q] == dec_rep(
                d as nat,
            )[q] by {
                assert(s[i + q] == rd[q]);
            }
        }
        assert(dec_val(s.subrange(i, j)) == d as nat);
        assert forall|q: int|
            0 <= q < render_dims(rest).len() implies s[(j + 1) + q] == #[trigger] render_dims(
            rest,
        )[q] by {
            assert(rd[dl + 1 + q] == render_dims(rest)[q]);
            assert(s[j + 1 + q] == rd[dl + 1 + q]);
        }
        lemma_parse_dims_render(s, j + 1, rest);
        assert(spec_parse_dims(s, i).0 =~= seq![d] + rest);
        assert(seq![d] + rest =~= dims);
    }
}

/// Reading a well-formed type's rendering back yields the type.
pub proof fn lemma_type_text_round_trip(t: TypeV)
    requires
        type_ok(t),
    ensures
        spec_parse_type(render_type(t)) == Some(t),
{
    let s = render_type(t);
    match t {
        TypeV::Scalar(k) => {
            lemma_parse_scalar_render(k);
            lemma_scalar_starts(k);
            if s.len() >= 8 {
                assert(s.subrange(0, 7) != seq!['v', 'e', 'c', 't', 'o', 'r', '<']) by {
                    if s.subrange(0, 7) == seq!['v', 'e', 'c', 't', 'o', 'r', '<'] {
                        assert(s[0] == s.subrange(0, 7)[0]);
                        match k {
                            ScalarKind::Integer(b) => {
                                assert(s[0] == 'i');
                            },
                            ScalarKind::SignedInteger(b) => {
                                assert(s[0] == 's');
                            },
                            ScalarKind::UnsignedInteger(b) => {
                                assert(s[0] == 'u');
                            },
                            _ => {
                                assert(s.len() <= 5);
                            },
                        }
                    }
                }
            }
        },
        TypeV::Vector { dims, element } => {
            let rd = render_dims(dims);
            let rs = render_scalar(element);
            lemma_scalar_starts(element);
            lemma_render_dims_len(dims);
            assert(s.len() >= 8);
            assert(s.subrange(0, 7) =~= seq!['v', 'e', 'c', 't', 'o', 'r', '<']);
            assert(s[s.len() - 1] == '>');
            let body = s.subrange(7, s.len() - 1);
            assert(body =~= rd + rs);
            assert forall|q: int| 0 <= q < rd.len() implies body[0 + q] == #[trigger] rd[q] by {}
            assert(!is_digit(body[rd.len() as int])) by {
                assert(body[rd.len() as int] == rs[0]);
            }
            lemma_parse_dims_render(body, 0, dims);
            assert(body.subrange(rd.len() as int, body.len() as int) =~= rs);
            lemma_parse_scalar_render(element);
        },
    }
}

proof fn lemma_render_dims_len(dims: Seq<u64>)
    requires
        dims.len() >= 1,
    ensures
        render_dims(dims).len() >= 2,
    decreases dims.len(),
{
    crate::num::lemma_dec_rep_digits(dims[0] as nat);
}

} // verus!
