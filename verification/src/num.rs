//! Decimal rendering and reading of machine integers.

use vstd::prelude::*;

verus! {

/// The digit character for a value below ten.
pub open spec fn dec_digit(d: nat) -> char {
    if d == 0 {
        '0'
    } else if d == 1 {
        '1'
    } else if d == 2 {
        '2'
    } else if d == 3 {
        '3'
    } else if d == 4 {
        '4'
    } else if d == 5 {
        '5'
    } else if d == 6 {
        '6'
    } else if d == 7 {
        '7'
    } else if d == 8 {
        '8'
    } else {
        '9'
    }
}

/// The decimal representation of a number, most significant digit first.
pub open spec fn dec_rep(n: nat) -> Seq<char>
    decreases n,
{
    if n < 10 {
        seq![dec_digit(n)]
    } else {
        dec_rep(n / 10).push(dec_digit(n % 10))
    }
}

/// A decimal digit character.
pub open spec fn is_digit(c: char) -> bool {
    '0' <= c && c <= '9'
}

/// The value of a digit character.
pub open spec fn digit_val(c: char) -> nat {
    (c as nat - '0' as nat) as nat
}

/// Every character of a decimal representation is a digit.
pub proof fn lemma_dec_rep_digits(n: nat)
    ensures
        dec_rep(n).len() >= 1,
        forall|i: int| 0 <= i < dec_rep(n).len() ==> is_digit(#[trigger] dec_rep(n)[i]),
    decreases n,
{
    if n >= 10 {
        lemma_dec_rep_digits(n / 10);
        assert forall|i: int| 0 <= i < dec_rep(n).len() implies is_digit(
            #[trigger] dec_rep(n)[i],
        ) by {
            if i < dec_rep(n).len() - 1 {
                assert(dec_rep(n)[i] == dec_rep(n / 10)[i]);
            }
        }
    }
}

/// Reading digits back: the value of a digit string.
pub open spec fn dec_val(s: Seq<char>) -> nat
    decreases s.len(),
{
    if s.len() == 0 {
        0
    } else {
        dec_val(s.drop_last()) * 10 + digit_val(s.last())
    }
}

/// Reading a rendered number yields the number back.
pub proof fn lemma_dec_roundtrip(n: nat)
    ensures
        dec_val(dec_rep(n)) == n,
    decreases n,
{
    reveal_with_fuel(dec_val, 3);
    if n < 10 {
        assert(dec_rep(n).drop_last() =~= Seq::<char>::empty());
        assert(dec_rep(n).last() == dec_digit(n));
        assert(digit_val(dec_digit(n)) == n);
        assert(dec_val(dec_rep(n)) == dec_val(dec_rep(n).drop_last()) * 10 + digit_val(
            dec_rep(n).last(),
        ));
        assert(dec_val(Seq::<char>::empty()) == 0);
    } else {
        lemma_dec_roundtrip(n / 10);
        assert(dec_rep(n).drop_last() =~= dec_rep(n / 10));
        assert(dec_rep(n).last() == dec_digit(n % 10));
        assert(digit_val(dec_digit(n % 10)) == n % 10);
        assert(n / 10 * 10 + n % 10 == n) by {
            vstd::arithmetic::div_mod::lemma_fundamental_div_mod(n as int, 10);
        }
    }
}

/// The first digit of a multi-digit rendering is never zero.
pub proof fn lemma_dec_rep_no_leading_zero(n: nat)
    ensures
        dec_rep(n).len() > 1 ==> dec_rep(n)[0] != '0',
        n < 10 ==> dec_rep(n).len() == 1,
    decreases n,
{
    if n >= 10 {
        let m = n / 10;
        lemma_dec_rep_no_leading_zero(m);
        lemma_dec_rep_digits(m);
        assert(dec_rep(n)[0] == dec_rep(m)[0]);
        if m < 10 {
            assert(dec_rep(m) =~= seq![dec_digit(m)]);
            assert(m >= 1);
            assert(dec_digit(m) != '0');
        } else {
            assert(dec_rep(m).len() == dec_rep(m / 10).len() + 1);
        }
    }
}

fn digit_char(d: u64) -> (r: char)
    requires
        d < 10,
    ensures
        r == dec_digit(d as nat),
{
    if d == 0 {
        '0'
    } else if d == 1 {
        '1'
    } else if d == 2 {
        '2'
    } else if d == 3 {
        '3'
    } else if d == 4 {
        '4'
    } else if d == 5 {
        '5'
    } else if d == 6 {
        '6'
    } else if d == 7 {
        '7'
    } else if d == 8 {
        '8'
    } else {
        '9'
    }
}

/// Renders a number in decimal.
pub fn u64_to_chars(n: u64) -> (r: Vec<char>)
    ensures
        r@ == dec_rep(n as nat),
{
    let mut rev: Vec<char> = Vec::new();
    let mut m = n;
    while m >= 10
        invariant
            dec_rep(n as nat) == dec_rep(m as nat) + rev@.reverse(),
        decreases m,
    {
        let ghost mold = m as nat;
        let ghost revold = rev@;
        rev.push(digit_char(m % 10));
        m = m / 10;
        proof {
            assert(dec_rep(mold) == dec_rep(mold / 10).push(dec_digit(mold % 10)));
            assert(rev@.reverse() =~= seq![dec_digit(mold % 10)] + revold.reverse());
            assert(dec_rep(n as nat) =~= dec_rep(m as nat) + rev@.reverse());
        }
    }
    let mut out: Vec<char> = Vec::new();
    out.push(digit_char(m));
    let mut i = rev.len();
    while i > 0
        invariant
            0 <= i <= rev@.len(),
            out@ =~= seq![dec_digit(m as nat)] + rev@.subrange(i as int, rev@.len() as int).reverse(),
        decreases i,
    {
        let ghost outold = out@;
        i = i - 1;
        out.push(rev[i]);
        proof {
            assert(rev@.subrange(i as int, rev@.len() as int).reverse() =~= rev@.subrange(
                i + 1,
                rev@.len() as int,
            ).reverse().push(rev@[i as int]));
            assert(out@ =~= outold.push(rev@[i as int]));
        }
    }
    proof {
        assert(rev@.subrange(0, rev@.len() as int) =~= rev@);
        assert(dec_rep(m as nat) =~= seq![dec_digit(m as nat)]);
        assert(out@ =~= dec_rep(m as nat) + rev@.reverse());
    }
    out
}

/// Reads a decimal number from a digit string; fails on overflow past the
/// 64-bit range.
pub fn chars_to_u64(s: &Vec<char>, from: usize, to: usize) -> (r: Option<u64>)
    requires
        from <= to <= s@.len(),
        to - from >= 1,
        forall|i: int| from <= i < to ==> is_digit(#[trigger] s@[i]),
    ensures
        dec_val(s@.subrange(from as int, to as int)) <= u64::MAX ==> r == Some(
            (dec_val(s@.subrange(from as int, to as int)) as u64),
        ),
        dec_val(s@.subrange(from as int, to as int)) > u64::MAX ==> r is None,
{
    let mut acc: u64 = 0;
    let mut i = from;
    while i < to
        invariant
            from <= i <= to <= s@.len(),
            forall|j: int| from <= j < to ==> is_digit(#[trigger] s@[j]),
            acc == dec_val(s@.subrange(from as int, i as int)),
        decreases to - i,
    {
        let c = s[i];
        let d = (c as u32) - ('0' as u32);
        proof {
            assert(is_digit(s@[i as int]));
            assert(d < 10);
            assert(d as nat == digit_val(s@[i as int]));
        }
        if acc > (u64::MAX - (d as u64)) / 10 {
            proof {
                let whole = s@.subrange(from as int, to as int);
                let sofar = s@.subrange(from as int, (i + 1) as int);
                assert(sofar.drop_last() =~= s@.subrange(from as int, i as int));
                assert(dec_val(sofar) > u64::MAX);
                lemma_dec_val_prefix(s@, from as int, (i + 1) as int, to as int);
            }
            return None;
        }
        let ghost accold = acc;
        acc = acc * 10 + (d as u64);
        proof {
            assert(s@.subrange(from as int, (i + 1) as int).drop_last() =~= s@.subrange(
                from as int,
                i as int,
            ));
            assert(s@.subrange(from as int, (i + 1) as int).last() == s@[i as int]);
        }
        i = i + 1;
    }
    proof {
        assert(s@.subrange(from as int, to as int) =~= s@.subrange(from as int, i as int));
    }
    Some(acc)
}

/// A longer digit string reads to at least as large a value.
proof fn lemma_dec_val_prefix(s: Seq<char>, from: int, mid: int, to: int)
    requires
        0 <= from <= mid <= to <= s.len(),
    ensures
        dec_val(s.subrange(from, to)) >= dec_val(s.subrange(from, mid)),
    decreases to - mid,
{
    if mid < to {
        lemma_dec_val_prefix(s, from, mid + 1, to);
        assert(s.subrange(from, mid + 1).drop_last() =~= s.subrange(from, mid));
        assert(dec_val(s.subrange(from, mid + 1)) >= dec_val(s.subrange(from, mid)));
    } else {
        assert(s.subrange(from, to) =~= s.subrange(from, mid));
    }
}

} // verus!

verus! {

} // verus!
