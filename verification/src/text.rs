//! Text: splitting on a character, decimal numbers both ways, and booleans.
use vstd::prelude::*;

verus! {

/// Calls `String::push`. Trusted: the character is appended.
#[verifier::external_body]
pub(crate) fn push_char(s: &mut String, c: char)
    ensures
        final(s)@ == old(s)@.push(c),
{
    s.push(c);
}

/// Compares two strings character by character.
pub fn str_eq(a: &str, b: &str) -> (r: bool)
    ensures
        r == (a@ == b@),
{
    let n = a.unicode_len();
    let m = b.unicode_len();
    if n != m {
        return false;
    }
    let mut i: usize = 0;
    while i < n
        invariant
            n == a@.len(),
            m == b@.len(),
            n == m,
            i <= n,
            forall|j: int| 0 <= j < i ==> a@[j] == b@[j],
        decreases n - i,
    {
        if a.get_char(i) != b.get_char(i) {
            return false;
        }
        i += 1;
    }
    proof {
        assert(a@ =~= b@);
    }
    true
}

/// The pieces of `s` between the occurrences of `c`, as `str::split` yields them: one
/// more piece than there are occurrences, empty pieces included.
pub open spec fn split_spec(s: Seq<char>, c: char) -> Seq<Seq<char>>
    decreases s.len(),
{
    if s.len() == 0 {
        seq![Seq::empty()]
    } else {
        let p = split_spec(s.drop_last(), c);
        if s.last() == c {
            p.push(Seq::empty())
        } else {
            p.update(p.len() - 1, p.last().push(s.last()))
        }
    }
}

/// The pieces that `str::split_terminator` yields: those of `split`, without the last
/// one when it is empty.
pub open spec fn split_terminator_spec(s: Seq<char>, c: char) -> Seq<Seq<char>> {
    let p = split_spec(s, c);
    if p.last().len() == 0 {
        p.drop_last()
    } else {
        p
    }
}

pub open spec fn views(v: Seq<String>) -> Seq<Seq<char>> {
    v.map_values(|x: String| x@)
}

pub proof fn lemma_split_nonempty(s: Seq<char>, c: char)
    ensures
        split_spec(s, c).len() >= 1,
    decreases s.len(),
{
    if s.len() > 0 {
        lemma_split_nonempty(s.drop_last(), c);
    }
}

/// Splits `s` at every occurrence of `c` (`str::split`).
pub fn split_on(s: &str, c: char) -> (r: Vec<String>)
    ensures
        views(r@) == split_spec(s@, c),
{
    let n = s.unicode_len();
    let mut done: Vec<String> = Vec::new();
    let mut cur = String::new();
    let mut i: usize = 0;
    proof {
        assert(s@.take(0) =~= Seq::<char>::empty());
        assert(views(done@).push(cur@) =~= split_spec(s@.take(0), c));
    }
    while i < n
        invariant
            n == s@.len(),
            i <= n,
            views(done@).push(cur@) == split_spec(s@.take(i as int), c),
        decreases n - i,
    {
        let ch = s.get_char(i);
        let ghost before = views(done@).push(cur@);
        proof {
            assert(s@.take(i + 1).drop_last() =~= s@.take(i as int));
            assert(s@.take(i + 1).last() == ch);
            lemma_split_nonempty(s@.take(i as int), c);
        }
        if ch == c {
            done.push(cur);
            cur = String::new();
            proof {
                assert(views(done@).push(cur@) =~= before.push(Seq::empty()));
            }
        } else {
            let ghost old_cur = cur@;
            push_char(&mut cur, ch);
            proof {
                assert(views(done@).push(cur@) =~= before.update(
                    before.len() - 1,
                    before.last().push(ch),
                ));
            }
        }
        i += 1;
    }
    done.push(cur);
    proof {
        assert(s@.take(n as int) =~= s@);
        assert(views(done@) =~= split_spec(s@, c));
    }
    done
}

pub open spec fn is_digit(c: char) -> bool {
    '0' <= c && c <= '9'
}

pub open spec fn digit_value(c: char) -> int {
    c as int - '0' as int
}

/// The value of a string of decimal digits, most significant first.
pub open spec fn digits_value(s: Seq<char>) -> int
    decreases s.len(),
{
    if s.len() == 0 {
        0
    } else {
        digits_value(s.drop_last()) * 10 + digit_value(s.last())
    }
}

pub open spec fn all_digits(s: Seq<char>) -> bool {
    forall|i: int| 0 <= i < s.len() ==> is_digit(#[trigger] s[i])
}

/// The digits of an unsigned number as `str::parse` reads it: an optional leading `+`.
pub open spec fn unsigned_digits(s: Seq<char>) -> Seq<char> {
    if s.len() > 0 && s[0] == '+' {
        s.drop_first()
    } else {
        s
    }
}

/// What `str::parse` gives for an unsigned integer type whose largest value is `max`:
/// an optional `+` followed by one or more decimal digits whose value is at most `max`.
pub open spec fn parse_unsigned_spec(s: Seq<char>, max: int) -> Option<int> {
    let d = unsigned_digits(s);
    if d.len() > 0 && all_digits(d) && digits_value(d) <= max {
        Some(digits_value(d))
    } else {
        None
    }
}

proof fn lemma_digits_nonneg(s: Seq<char>)
    requires
        all_digits(s),
    ensures
        digits_value(s) >= 0,
    decreases s.len(),
{
    if s.len() > 0 {
        lemma_digits_nonneg(s.drop_last());
    }
}

/// A digit string is worth at least as much as any of its prefixes.
proof fn lemma_prefix_value(s: Seq<char>, i: int)
    requires
        all_digits(s),
        0 <= i <= s.len(),
    ensures
        digits_value(s.take(i)) <= digits_value(s),
    decreases s.len() - i,
{
    if i < s.len() {
        lemma_prefix_value(s, i + 1);
        assert(s.take(i + 1).drop_last() =~= s.take(i));
        lemma_digits_nonneg(s.take(i));
        assert(is_digit(s[i]));
    } else {
        assert(s.take(i) =~= s);
    }
}

/// Reads an unsigned decimal number no larger than `max`, as `str::parse` does for the
/// unsigned integer type whose largest value is `max`.
pub fn parse_unsigned(s: &str, max: u64) -> (r: Option<u64>)
    ensures
        match r {
            Some(v) => parse_unsigned_spec(s@, max as int) == Some(v as int),
            None => parse_unsigned_spec(s@, max as int) is None,
        },
{
    let n = s.unicode_len();
    let mut start: usize = 0;
    if n > 0 && s.get_char(0) == '+' {
        start = 1;
    }
    let ghost d = unsigned_digits(s@);
    proof {
        assert(d =~= s@.subrange(start as int, n as int));
    }
    if start == n {
        return None;
    }
    let mut v: u64 = 0;
    let mut i: usize = start;
    while i < n
        invariant
            n == s@.len(),
            start <= i <= n,
            start < n,
            d == s@.subrange(start as int, n as int),
            d == unsigned_digits(s@),
            all_digits(d.take(i - start)),
            v as int == digits_value(d.take(i - start)),
            v <= max,
        decreases n - i,
    {
        let ch = s.get_char(i);
        let k = i - start;
        proof {
            assert(d[k as int] == ch);
            assert(d.take(k + 1).drop_last() =~= d.take(k as int));
        }
        if !('0' <= ch && ch <= '9') {
            proof {
                assert(!is_digit(d[k as int]));
                assert(!all_digits(d));
            }
            return None;
        }
        let dv = (ch as u32 - '0' as u32) as u64;
        proof {
            assert(dv as int == digit_value(ch));
            assert(all_digits(d.take(k + 1)));
            assert(digits_value(d.take(k + 1)) == v * 10 + dv);
        }
        if dv > max || v > (max - dv) / 10 {
            proof {
                assert(v * 10 + dv > max) by (nonlinear_arith)
                    requires
                        dv > max || v > (max - dv) / 10,
                        dv <= max ==> max - dv >= 0,
                ;
                if all_digits(d) {
                    lemma_prefix_value(d, k + 1);
                }
            }
            return None;
        }
        proof {
            assert(v * 10 + dv <= max) by (nonlinear_arith)
                requires
                    dv <= max,
                    v <= (max - dv) / 10,
            ;
        }
        v = v * 10 + dv;
        i += 1;
    }
    proof {
        assert(d.take(n - start) =~= d);
    }
    Some(v)
}

/// What `str::parse::<bool>` gives: `true` for "true", `false` for "false", else an error.
pub open spec fn parse_bool_spec(s: Seq<char>) -> Option<bool> {
    if s == "true"@ {
        Some(true)
    } else if s == "false"@ {
        Some(false)
    } else {
        None
    }
}

/// Reads a boolean as `str::parse::<bool>` does.
pub fn parse_bool(s: &str) -> (r: Option<bool>)
    ensures
        r == parse_bool_spec(s@),
{
    if str_eq(s, "true") {
        Some(true)
    } else if str_eq(s, "false") {
        Some(false)
    } else {
        None
    }
}

pub open spec fn is_sign(c: char) -> bool {
    c == '+' || c == '-'
}

/// `s` without its leading sign, where it has one.
pub open spec fn unsigned_part(s: Seq<char>) -> Seq<char> {
    if s.len() > 0 && is_sign(s[0]) {
        s.drop_first()
    } else {
        s
    }
}

/// `s` is the lower-case word `w` with any of its letters possibly in upper case.
pub open spec fn same_word(s: Seq<char>, w: Seq<char>) -> bool {
    &&& s.len() == w.len()
    &&& forall|i: int|
        0 <= i < s.len() ==> #[trigger] s[i] == w[i] || s[i] as int + 32 == w[i] as int
}

/// Decimal digits with at most one point among them, and at least one digit.
pub open spec fn mantissa(m: Seq<char>) -> bool {
    ||| m.len() > 0 && all_digits(m)
    ||| m.len() > 1 && exists|k: int|
        0 <= k < m.len() && #[trigger] m[k] == '.' && all_digits(m.take(k)) && all_digits(
            m.skip(k + 1),
        )
}

pub open spec fn is_exp_mark(c: char) -> bool {
    c == 'e' || c == 'E'
}

/// An exponent: an optional sign and one or more decimal digits.
pub open spec fn exponent(x: Seq<char>) -> bool {
    let d = unsigned_part(x);
    d.len() > 0 && all_digits(d)
}

/// A number: a mantissa, then optionally `e` or `E` and an exponent.
pub open spec fn number(s: Seq<char>) -> bool {
    ||| mantissa(s)
    ||| exists|k: int|
        0 <= k < s.len() && is_exp_mark(#[trigger] s[k]) && mantissa(s.take(k)) && exponent(
            s.skip(k + 1),
        )
}

/// The strings that `str::parse::<f32>` accepts: an optional sign, then `inf`, `infinity`,
/// `nan` (letters in either case) or a number.
pub open spec fn float_literal(s: Seq<char>) -> bool {
    let b = unsigned_part(s);
    ||| same_word(b, "inf"@)
    ||| same_word(b, "infinity"@)
    ||| same_word(b, "nan"@)
    ||| number(b)
}

/// Every character of a mantissa is a digit or the point.
pub proof fn lemma_mantissa_chars(m: Seq<char>, i: int)
    requires
        mantissa(m),
        0 <= i < m.len(),
    ensures
        is_digit(m[i]) || m[i] == '.',
{
    if !(m.len() > 0 && all_digits(m)) {
        let k = choose|k: int|
            0 <= k < m.len() && #[trigger] m[k] == '.' && all_digits(m.take(k)) && all_digits(
                m.skip(k + 1),
            );
        if i < k {
            assert(m.take(k)[i] == m[i]);
        } else if i > k {
            assert(m.skip(k + 1)[i - k - 1] == m[i]);
        }
    }
}

fn digits_between(s: &str, lo: usize, hi: usize) -> (r: bool)
    requires
        lo <= hi <= s@.len(),
    ensures
        r == all_digits(s@.subrange(lo as int, hi as int)),
{
    let mut i: usize = lo;
    while i < hi
        invariant
            lo <= i <= hi,
            hi <= s@.len(),
            all_digits(s@.subrange(lo as int, i as int)),
        decreases hi - i,
    {
        let c = s.get_char(i);
        if !('0' <= c && c <= '9') {
            proof {
                assert(s@.subrange(lo as int, hi as int)[i - lo] == c);
            }
            return false;
        }
        proof {
            let next = s@.subrange(lo as int, i + 1);
            assert forall|j: int| 0 <= j < next.len() implies is_digit(#[trigger] next[j]) by {
                if j < i - lo {
                    assert(next[j] == s@.subrange(lo as int, i as int)[j]);
                }
            }
        }
        i += 1;
    }
    true
}

/// The first position in `lo..hi` that holds `c` or `d`, or `hi` where none does.
fn find_either(s: &str, lo: usize, hi: usize, c: char, d: char) -> (k: usize)
    requires
        lo <= hi <= s@.len(),
    ensures
        lo <= k <= hi,
        k < hi ==> s@[k as int] == c || s@[k as int] == d,
        forall|j: int| lo <= j < k ==> s@[j] != c && s@[j] != d,
{
    let mut i: usize = lo;
    while i < hi
        invariant
            lo <= i <= hi,
            hi <= s@.len(),
            forall|j: int| lo <= j < i ==> s@[j] != c && s@[j] != d,
        decreases hi - i,
    {
        let x = s.get_char(i);
        if x == c || x == d {
            return i;
        }
        i += 1;
    }
    hi
}

fn mantissa_between(s: &str, lo: usize, hi: usize) -> (r: bool)
    requires
        lo <= hi <= s@.len(),
    ensures
        r == mantissa(s@.subrange(lo as int, hi as int)),
{
    let ghost m = s@.subrange(lo as int, hi as int);
    if lo == hi {
        return false;
    }
    let k = find_either(s, lo, hi, '.', '.');
    if k == hi {
        let r = digits_between(s, lo, hi);
        proof {
            if exists|k2: int|
                0 <= k2 < m.len() && #[trigger] m[k2] == '.' && all_digits(m.take(k2))
                    && all_digits(m.skip(k2 + 1)) {
                let k2 = choose|k2: int|
                    0 <= k2 < m.len() && #[trigger] m[k2] == '.' && all_digits(m.take(k2))
                        && all_digits(m.skip(k2 + 1));
                assert(m[k2] == s@[lo + k2]);
            }
        }
        r
    } else {
        let a = digits_between(s, lo, k);
        let b = digits_between(s, k + 1, hi);
        let r = hi - lo > 1 && a && b;
        proof {
            let kk = k - lo;
            assert(m[kk] == s@[k as int]);
            assert(!is_digit(m[kk]));
            assert(m.take(kk) =~= s@.subrange(lo as int, k as int));
            assert(m.skip(kk + 1) =~= s@.subrange(k + 1, hi as int));
            if exists|k2: int|
                0 <= k2 < m.len() && #[trigger] m[k2] == '.' && all_digits(m.take(k2))
                    && all_digits(m.skip(k2 + 1)) {
                let k2 = choose|k2: int|
                    0 <= k2 < m.len() && #[trigger] m[k2] == '.' && all_digits(m.take(k2))
                        && all_digits(m.skip(k2 + 1));
                if k2 < kk {
                    assert(m[k2] == s@[lo + k2]);
                } else if k2 > kk {
                    assert(m.take(k2)[kk] == m[kk]);
                }
            }
        }
        r
    }
}

fn exponent_between(s: &str, lo: usize, hi: usize) -> (r: bool)
    requires
        lo <= hi <= s@.len(),
    ensures
        r == exponent(s@.subrange(lo as int, hi as int)),
{
    let mut start: usize = lo;
    if lo < hi {
        let c = s.get_char(lo);
        if c == '+' || c == '-' {
            start = lo + 1;
        }
    }
    proof {
        assert(unsigned_part(s@.subrange(lo as int, hi as int)) =~= s@.subrange(
            start as int,
            hi as int,
        ));
    }
    start < hi && digits_between(s, start, hi)
}

fn number_between(s: &str, lo: usize, hi: usize) -> (r: bool)
    requires
        lo <= hi <= s@.len(),
    ensures
        r == number(s@.subrange(lo as int, hi as int)),
{
    let ghost m = s@.subrange(lo as int, hi as int);
    let k = find_either(s, lo, hi, 'e', 'E');
    if k == hi {
        let r = mantissa_between(s, lo, hi);
        proof {
            if exists|k2: int|
                0 <= k2 < m.len() && is_exp_mark(#[trigger] m[k2]) && mantissa(m.take(k2))
                    && exponent(m.skip(k2 + 1)) {
                let k2 = choose|k2: int|
                    0 <= k2 < m.len() && is_exp_mark(#[trigger] m[k2]) && mantissa(m.take(k2))
                        && exponent(m.skip(k2 + 1));
                assert(m[k2] == s@[lo + k2]);
            }
        }
        r
    } else {
        let r = mantissa_between(s, lo, k) && exponent_between(s, k + 1, hi);
        proof {
            let kk = k - lo;
            assert(m[kk] == s@[k as int]);
            assert(is_exp_mark(m[kk]));
            if mantissa(m) {
                lemma_mantissa_chars(m, kk);
            }
            assert(m.take(kk) =~= s@.subrange(lo as int, k as int));
            assert(m.skip(kk + 1) =~= s@.subrange(k + 1, hi as int));
            if exists|k2: int|
                0 <= k2 < m.len() && is_exp_mark(#[trigger] m[k2]) && mantissa(m.take(k2))
                    && exponent(m.skip(k2 + 1)) {
                let k2 = choose|k2: int|
                    0 <= k2 < m.len() && is_exp_mark(#[trigger] m[k2]) && mantissa(m.take(k2))
                        && exponent(m.skip(k2 + 1));
                if k2 < kk {
                    assert(m[k2] == s@[lo + k2]);
                } else if k2 > kk {
                    assert(m.take(k2)[kk] == m[kk]);
                    lemma_mantissa_chars(m.take(k2), kk);
                }
            }
        }
        r
    }
}

fn same_word_between(s: &str, lo: usize, hi: usize, w: &str) -> (r: bool)
    requires
        lo <= hi <= s@.len(),
    ensures
        r == same_word(s@.subrange(lo as int, hi as int), w@),
{
    let ghost m = s@.subrange(lo as int, hi as int);
    let n = w.unicode_len();
    if hi - lo != n {
        return false;
    }
    let mut i: usize = 0;
    while i < n
        invariant
            n == w@.len(),
            hi - lo == n,
            lo <= hi <= s@.len(),
            m == s@.subrange(lo as int, hi as int),
            i <= n,
            forall|j: int| 0 <= j < i ==> #[trigger] m[j] == w@[j] || m[j] as int + 32 == w@[j] as int,
        decreases n - i,
    {
        let c = s.get_char(lo + i);
        let d = w.get_char(i);
        proof {
            assert(m[i as int] == c);
        }
        if !(c == d || (d as u32 >= 32 && c as u32 == d as u32 - 32)) {
            return false;
        }
        i += 1;
    }
    true
}

/// Whether `str::parse::<f32>` accepts `s`.
pub fn is_float_literal(s: &str) -> (r: bool)
    ensures
        r == float_literal(s@),
{
    let n = s.unicode_len();
    let mut lo: usize = 0;
    if n > 0 {
        let c = s.get_char(0);
        if c == '+' || c == '-' {
            lo = 1;
        }
    }
    proof {
        assert(unsigned_part(s@) =~= s@.subrange(lo as int, n as int));
    }
    same_word_between(s, lo, n, "inf") || same_word_between(s, lo, n, "infinity")
        || same_word_between(s, lo, n, "nan") || number_between(s, lo, n)
}

/// The decimal digits of `n`, most significant first, without leading zeros.
pub open spec fn decimal(n: nat) -> Seq<char>
    decreases n,
{
    if n < 10 {
        seq![digit_char(n as int)]
    } else {
        decimal(n / 10).push(digit_char((n % 10) as int))
    }
}

pub open spec fn digit_char(d: int) -> char {
    DIGITS@[d]
}

/// The ten decimal digits.
pub const DIGITS: [char; 10] = ['0', '1', '2', '3', '4', '5', '6', '7', '8', '9'];

/// `n` in decimal, with zeros in front up to `width` characters (`{:0width}`).
pub open spec fn zero_padded(n: nat, width: nat) -> Seq<char> {
    let d = decimal(n);
    if d.len() < width {
        Seq::new((width - d.len()) as nat, |i: int| '0') + d
    } else {
        d
    }
}

/// Appends the decimal digits of `n` to `s` (as `{}` formats an unsigned integer).
pub fn push_decimal(s: &mut String, n: u64)
    ensures
        final(s)@ == old(s)@ + decimal(n as nat),
    decreases n,
{
    let digits = DIGITS;
    if n >= 10 {
        push_decimal(s, n / 10);
    }
    push_char(s, digits[(n % 10) as usize]);
    proof {
        if n >= 10 {
            assert(decimal(n as nat) == decimal((n / 10) as nat).push(digit_char((n % 10) as int)));
        }
        assert(final(s)@ =~= old(s)@ + decimal(n as nat));
    }
}

/// Appends `n` in decimal, zero-padded to `width` characters (as `{:0width}` formats it).
pub fn push_zero_padded(s: &mut String, n: u64, width: usize)
    ensures
        final(s)@ == old(s)@ + zero_padded(n as nat, width as nat),
{
    let mut digits = String::new();
    push_decimal(&mut digits, n);
    let len = digits.as_str().unicode_len();
    proof {
        assert(digits@ =~= decimal(n as nat));
    }
    let mut k: usize = len;
    let ghost start = s@;
    while k < width
        invariant
            len == decimal(n as nat).len(),
            len <= k <= width || (k == len && len >= width),
            s@ == start + Seq::new((k - len) as nat, |i: int| '0'),
        decreases width - k,
    {
        push_char(s, '0');
        proof {
            assert(s@ =~= start + Seq::new((k + 1 - len) as nat, |i: int| '0'));
        }
        k += 1;
    }
    s.append(digits.as_str());
    proof {
        if len < width {
            assert(k == width);
        } else {
            assert(k == len);
            assert(Seq::new((k - len) as nat, |i: int| '0') =~= Seq::<char>::empty());
        }
        assert(s@ =~= old(s)@ + zero_padded(n as nat, width as nat));
    }
}

} // verus!
