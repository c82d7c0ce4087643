//! What one text function undoes of another.
use vstd::prelude::*;

use crate::text::{
    all_digits, decimal, digit_char, digit_value, digits_value, exponent, float_literal,
    is_digit, is_exp_mark, mantissa, number, parse_unsigned_spec, same_word, split_spec,
    unsigned_digits, unsigned_part, zero_padded, lemma_mantissa_chars, DIGITS,
};

verus! {

/// The pieces joined back together, with `c` between neighbours (`slice::join`).
pub open spec fn join_spec(p: Seq<Seq<char>>, c: char) -> Seq<char>
    decreases p.len(),
{
    if p.len() == 0 {
        Seq::empty()
    } else if p.len() == 1 {
        p[0]
    } else {
        join_spec(p.drop_last(), c) + seq![c] + p.last()
    }
}

/// Splitting at `c` and joining the pieces with `c` gives the string back.
pub proof fn law_join_undoes_split(s: Seq<char>, c: char)
    ensures
        join_spec(split_spec(s, c), c) == s,
    decreases s.len(),
{
    if s.len() == 0 {
        assert(join_spec(split_spec(s, c), c) =~= s);
    } else {
        let p = split_spec(s.drop_last(), c);
        law_join_undoes_split(s.drop_last(), c);
        crate::text::lemma_split_nonempty(s.drop_last(), c);
        let x = s.last();
        if x == c {
            let q = p.push(Seq::empty());
            assert(q.drop_last() =~= p);
            assert(join_spec(q, c) =~= s);
        } else {
            let q = p.update(p.len() - 1, p.last().push(x));
            if p.len() == 1 {
                assert(join_spec(q, c) =~= s);
            } else {
                assert(q.drop_last() =~= p.drop_last());
                assert(join_spec(q, c) =~= join_spec(p, c).push(x));
                assert(join_spec(q, c) =~= s);
            }
        }
    }
}

pub open spec fn free_of(s: Seq<char>, c: char) -> bool {
    forall|i: int| 0 <= i < s.len() ==> s[i] != c
}

/// Appending text without `c` only extends the last piece.
proof fn lemma_split_extend(x: Seq<char>, y: Seq<char>, c: char)
    requires
        free_of(y, c),
    ensures
        split_spec(x + y, c) == split_spec(x, c).update(
            split_spec(x, c).len() - 1,
            split_spec(x, c).last() + y,
        ),
    decreases y.len(),
{
    crate::text::lemma_split_nonempty(x, c);
    let p = split_spec(x, c);
    if y.len() == 0 {
        assert(x + y =~= x);
        assert(p.update(p.len() - 1, p.last() + y) =~= p);
    } else {
        let y2 = y.drop_last();
        assert(free_of(y2, c));
        lemma_split_extend(x, y2, c);
        assert((x + y).drop_last() =~= x + y2);
        assert((x + y).last() == y.last());
        assert(y.last() != c);
        let q = split_spec(x + y2, c);
        assert(q.len() == p.len());
        assert(q.last() =~= p.last() + y2);
        assert((p.last() + y2).push(y.last()) =~= p.last() + y);
        assert(q.update(q.len() - 1, q.last().push(y.last())) =~= p.update(
            p.len() - 1,
            p.last() + y,
        ));
    }
}

/// Joining pieces that hold no `c`, and splitting the result at `c`, gives the pieces
/// back (when there is at least one).
pub proof fn law_split_undoes_join(p: Seq<Seq<char>>, c: char)
    requires
        p.len() >= 1,
        forall|i: int| 0 <= i < p.len() ==> free_of(#[trigger] p[i], c),
    ensures
        split_spec(join_spec(p, c), c) == p,
    decreases p.len(),
{
    let e = Seq::<char>::empty();
    if p.len() == 1 {
        lemma_split_extend(e, p[0], c);
        assert(e + p[0] =~= p[0]);
        assert(split_spec(e, c).update(0, e + p[0]) =~= p);
    } else {
        let front = p.drop_last();
        assert forall|i: int| 0 <= i < front.len() implies free_of(#[trigger] front[i], c) by {
            assert(front[i] == p[i]);
        }
        law_split_undoes_join(front, c);
        let j = join_spec(front, c);
        let jc = j + seq![c];
        assert(jc.drop_last() =~= j);
        assert(split_spec(jc, c) == front.push(e));
        assert(free_of(p.last(), c));
        lemma_split_extend(jc, p.last(), c);
        assert(jc + p.last() =~= join_spec(p, c));
        assert(front.push(e).update(front.len() as int, e + p.last()) =~= p);
    }
}

proof fn lemma_digit_char(d: int)
    requires
        0 <= d < 10,
    ensures
        is_digit(digit_char(d)),
        digit_value(digit_char(d)) == d,
        digit_char(d) != '+',
{
    assert(DIGITS@ =~= seq!['0', '1', '2', '3', '4', '5', '6', '7', '8', '9']);
}

proof fn lemma_decimal(n: nat)
    ensures
        decimal(n).len() >= 1,
        all_digits(decimal(n)),
        digits_value(decimal(n)) == n,
        decimal(n)[0] != '+',
    decreases n,
{
    if n < 10 {
        lemma_digit_char(n as int);
        assert(decimal(n).drop_last() =~= Seq::<char>::empty());
        assert(digits_value(Seq::<char>::empty()) == 0);
        assert(digits_value(decimal(n)) == digit_value(digit_char(n as int)));
    } else {
        lemma_decimal(n / 10);
        lemma_digit_char((n % 10) as int);
        let d = decimal(n);
        assert(d.drop_last() =~= decimal(n / 10));
        assert(d.last() == digit_char((n % 10) as int));
        assert(digits_value(d) == digits_value(decimal(n / 10)) * 10 + digit_value(d.last()));
        assert(n == (n / 10) * 10 + n % 10);
        assert(d[0] == decimal(n / 10)[0]);
        assert forall|i: int| 0 <= i < d.len() implies is_digit(#[trigger] d[i]) by {
            if i < d.len() - 1 {
                assert(d[i] == decimal(n / 10)[i]);
            }
        }
    }
}

proof fn lemma_leading_zeros(k: nat, d: Seq<char>)
    ensures
        digits_value(Seq::new(k, |i: int| '0') + d) == digits_value(d),
    decreases d.len(), k,
{
    let z = Seq::new(k, |i: int| '0');
    if d.len() == 0 {
        assert(z + d =~= z);
        if k > 0 {
            assert(z.drop_last() =~= Seq::new((k - 1) as nat, |i: int| '0'));
            lemma_leading_zeros((k - 1) as nat, d);
            assert(Seq::new((k - 1) as nat, |i: int| '0') + d =~= z.drop_last());
        }
    } else {
        lemma_leading_zeros(k, d.drop_last());
        assert((z + d).drop_last() =~= z + d.drop_last());
        assert((z + d).last() == d.last());
    }
}

/// Reading back a number written in decimal gives the number, when it fits the type.
pub proof fn law_parse_undoes_decimal(n: nat, max: int)
    requires
        n <= max,
    ensures
        parse_unsigned_spec(decimal(n), max) == Some(n as int),
{
    lemma_decimal(n);
    assert(unsigned_digits(decimal(n)) == decimal(n));
}

/// Zero padding does not change the value read back: `{:0width}` then `parse` gives the
/// number again, when it fits the type.
pub proof fn law_parse_undoes_zero_padding(n: nat, width: nat, max: int)
    requires
        n <= max,
    ensures
        parse_unsigned_spec(zero_padded(n, width), max) == Some(n as int),
{
    lemma_decimal(n);
    let d = decimal(n);
    if d.len() < width {
        let k = (width - d.len()) as nat;
        let z = Seq::new(k, |i: int| '0');
        let s = z + d;
        lemma_leading_zeros(k, d);
        assert(s[0] == '0');
        assert(unsigned_digits(s) == s);
        assert forall|i: int| 0 <= i < s.len() implies is_digit(#[trigger] s[i]) by {
            if i >= k {
                assert(s[i] == d[i - k]);
            }
        }
    } else {
        assert(unsigned_digits(d) == d);
    }
}

proof fn lemma_unsigned_decimal(n: nat)
    ensures
        unsigned_part(decimal(n)) == decimal(n),
        unsigned_part(seq!['-'] + decimal(n)) == decimal(n),
        unsigned_part(seq!['+'] + decimal(n)) == decimal(n),
        mantissa(decimal(n)),
{
    lemma_decimal(n);
    assert(is_digit(decimal(n)[0]));
    assert((seq!['-'] + decimal(n)).drop_first() =~= decimal(n));
    assert((seq!['+'] + decimal(n)).drop_first() =~= decimal(n));
}

/// Decimal numbers read as `f32` in all the written forms: a whole number with or without
/// a sign, with a fraction, with the point alone at either end, and with an exponent.
pub proof fn law_decimal_numbers_are_float_literals(n: nat, m: nat)
    ensures
        float_literal(decimal(n)),
        float_literal(seq!['-'] + decimal(n)),
        float_literal(seq!['+'] + decimal(n)),
        float_literal(decimal(n) + seq!['.'] + decimal(m)),
        float_literal(decimal(n) + seq!['.']),
        float_literal(seq!['.'] + decimal(m)),
        float_literal(decimal(n) + seq!['e', '-'] + decimal(m)),
        float_literal(decimal(n) + seq!['E'] + decimal(m)),
{
    lemma_unsigned_decimal(n);
    lemma_unsigned_decimal(m);
    lemma_decimal(n);
    lemma_decimal(m);
    let d = decimal(n);
    let f = decimal(m);
    let k = d.len() as int;
    assert(is_digit(d[0]));
    // A fraction.
    let x = d + seq!['.'] + f;
    assert(x[0] == d[0]);
    assert(unsigned_part(x) == x);
    assert(x[k] == '.');
    assert(x.take(k) =~= d);
    assert(x.skip(k + 1) =~= f);
    assert(mantissa(x));
    // A trailing point.
    let y = d + seq!['.'];
    assert(y[0] == d[0]);
    assert(unsigned_part(y) == y);
    assert(y[k] == '.');
    assert(y.take(k) =~= d);
    assert(y.skip(k + 1) =~= Seq::<char>::empty());
    assert(mantissa(y));
    // A leading point.
    let z = seq!['.'] + f;
    assert(unsigned_part(z) == z);
    assert(z[0] == '.');
    assert(z.take(0) =~= Seq::<char>::empty());
    assert(z.skip(1) =~= f);
    assert(mantissa(z));
    // Exponents.
    let u = d + seq!['e', '-'] + f;
    assert(u[0] == d[0]);
    assert(unsigned_part(u) == u);
    assert(is_exp_mark(u[k]));
    assert(u.take(k) =~= d);
    assert(u.skip(k + 1) =~= seq!['-'] + f);
    assert(exponent(u.skip(k + 1)));
    assert(number(u));
    let v = d + seq!['E'] + f;
    assert(v[0] == d[0]);
    assert(unsigned_part(v) == v);
    assert(is_exp_mark(v[k]));
    assert(v.take(k) =~= d);
    assert(v.skip(k + 1) =~= f);
    assert(unsigned_part(f) == f);
    assert(exponent(v.skip(k + 1)));
    assert(number(v));
}

/// No number ends in an exponent mark without digits after it, and the empty text is no
/// number.
pub proof fn law_exponent_needs_digits(n: nat)
    ensures
        !float_literal(Seq::<char>::empty()),
        !float_literal(decimal(n) + seq!['e']),
        !float_literal(decimal(n) + seq!['E']),
{
    reveal_strlit("inf");
    reveal_strlit("infinity");
    reveal_strlit("nan");
    lemma_unsigned_decimal(n);
    lemma_decimal(n);
    let d = decimal(n);
    assert(!same_word(Seq::<char>::empty(), "inf"@));
    assert(!same_word(Seq::<char>::empty(), "infinity"@));
    assert(!same_word(Seq::<char>::empty(), "nan"@));
    assert(unsigned_part(Seq::<char>::empty()) == Seq::<char>::empty());
    lemma_trailing_mark(d, 'e');
    lemma_trailing_mark(d, 'E');
}

proof fn lemma_trailing_mark(d: Seq<char>, c: char)
    requires
        d.len() >= 1,
        all_digits(d),
        is_exp_mark(c),
    ensures
        !float_literal(d + seq![c]),
{
    reveal_strlit("inf");
    reveal_strlit("infinity");
    reveal_strlit("nan");
    let x = d + seq![c];
    let k = d.len() as int;
    assert(is_digit(d[0]));
    assert(x[0] == d[0]);
    assert(unsigned_part(x) == x);
    assert(!same_word(x, "inf"@)) by {
        if x.len() == 3 {
            assert(x[0] == d[0]);
        }
    }
    assert(!same_word(x, "infinity"@)) by {
        if x.len() == 8 {
            assert(x[0] == d[0]);
        }
    }
    assert(!same_word(x, "nan"@)) by {
        if x.len() == 3 {
            assert(x[0] == d[0]);
        }
    }
    assert forall|i: int| 0 <= i < k implies #[trigger] x[i] == d[i] && is_digit(x[i]) by {}
    assert(!is_digit(x[k]) && x[k] != '.');
    assert(!mantissa(x)) by {
        if mantissa(x) {
            lemma_mantissa_chars(x, k);
        }
    }
    assert forall|j: int| 0 <= j < x.len() && is_exp_mark(#[trigger] x[j]) implies j == k by {
        if j < k {
            assert(is_digit(x[j]));
        }
    }
    assert(x.skip(k + 1) =~= Seq::<char>::empty());
    assert(unsigned_part(Seq::<char>::empty()) == Seq::<char>::empty());
    assert(!exponent(x.skip(k + 1)));
}

} // verus!
