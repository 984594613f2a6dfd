//! Character-level string helpers: building strings, comparing, trimming,
//! decimal formatting and parsing.
use vstd::prelude::*;
use vstd::string::StringExecFns;

verus! {

// ---------------------------------------------------------------------------
// Building strings
// ---------------------------------------------------------------------------

/// `String::push`: the string grows by exactly the given character.
#[verifier::external_body]
pub(crate) fn push_char(out: &mut String, c: char)
    ensures
        final(out)@ == old(out)@.push(c),
{
    out.push(c);
}

/// Appends a string slice.
pub(crate) fn push_str(out: &mut String, s: &str)
    ensures
        final(out)@ == old(out)@ + s@,
{
    out.append(s);
}

/// `n` copies of the character `c`.
pub open spec fn repeat_char(c: char, n: int) -> Seq<char> {
    Seq::new(n as nat, |_i: int| c)
}

/// `n` spaces.
pub open spec fn spaces(n: int) -> Seq<char> {
    repeat_char(' ', n)
}

/// Appends `n` copies of `c`.
pub fn push_repeat(out: &mut String, c: char, n: u128)
    ensures
        final(out)@ == old(out)@ + repeat_char(c, n as int),
{
    let mut k: u128 = 0;
    while k < n
        invariant
            k <= n,
            out@ == old(out)@ + repeat_char(c, k as int),
        decreases n - k,
    {
        push_char(out, c);
        k = k + 1;
        assert(out@ =~= old(out)@ + repeat_char(c, k as int));
    }
}

/// The characters of a string slice, in order.
pub fn chars_of(s: &str) -> (v: Vec<char>)
    ensures
        v@ == s@,
{
    let mut v: Vec<char> = Vec::new();
    for c in it: s.chars()
        invariant
            v@ == it.seq().take(it.index() as int),
            it.seq() == s@,
    {
        v.push(c);
    }
    v
}

/// A string holding the characters `v[from..to]`.
pub fn string_of_range(v: &Vec<char>, from: usize, to: usize) -> (s: String)
    requires
        from <= to <= v@.len(),
    ensures
        s@ == v@.subrange(from as int, to as int),
{
    let mut s = String::new();
    let mut i = from;
    while i < to
        invariant
            from <= i <= to <= v@.len(),
            s@ == v@.subrange(from as int, i as int),
        decreases to - i,
    {
        push_char(&mut s, v[i]);
        i = i + 1;
        assert(s@ =~= v@.subrange(from as int, i as int));
    }
    s
}

/// Whether two string slices hold the same characters.
pub fn same_text(a: &str, b: &str) -> (r: bool)
    ensures
        r == (a@ == b@),
{
    let va = chars_of(a);
    let vb = chars_of(b);
    if va.len() != vb.len() {
        return false;
    }
    let mut i: usize = 0;
    while i < va.len()
        invariant
            va@ == a@,
            vb@ == b@,
            va@.len() == vb@.len(),
            i <= va@.len(),
            forall|k: int| 0 <= k < i ==> va@[k] == vb@[k],
        decreases va@.len() - i,
    {
        if va[i] != vb[i] {
            return false;
        }
        i = i + 1;
    }
    assert(va@ =~= vb@);
    true
}

// ---------------------------------------------------------------------------
// Ordering
// ---------------------------------------------------------------------------

/// Lexicographic order on character sequences by code point; for UTF-8
/// strings this is the same order as `Ord` on `str` (byte-wise).
pub open spec fn chars_less(a: Seq<char>, b: Seq<char>) -> bool
    decreases a.len(),
{
    if a.len() == 0 {
        b.len() > 0
    } else if b.len() == 0 {
        false
    } else if a[0] != b[0] {
        a[0] < b[0]
    } else {
        chars_less(a.drop_first(), b.drop_first())
    }
}

/// No sequence precedes itself.
pub proof fn lemma_chars_less_irreflexive(a: Seq<char>)
    ensures
        !chars_less(a, a),
    decreases a.len(),
{
    if a.len() > 0 {
        lemma_chars_less_irreflexive(a.drop_first());
    }
}

/// Of two different sequences, exactly one precedes the other.
pub proof fn lemma_chars_less_total(a: Seq<char>, b: Seq<char>)
    ensures
        a != b ==> (chars_less(a, b) || chars_less(b, a)),
        !(chars_less(a, b) && chars_less(b, a)),
    decreases a.len(),
{
    if a.len() > 0 && b.len() > 0 && a[0] == b[0] {
        lemma_chars_less_total(a.drop_first(), b.drop_first());
        if a.drop_first() == b.drop_first() {
            assert(a =~= seq![a[0]] + a.drop_first());
            assert(b =~= seq![b[0]] + b.drop_first());
        }
    }
    if a.len() == 0 && b.len() == 0 {
        assert(a =~= b);
    }
}

/// The order is transitive.
pub proof fn lemma_chars_less_transitive(a: Seq<char>, b: Seq<char>, c: Seq<char>)
    requires
        chars_less(a, b),
        chars_less(b, c),
    ensures
        chars_less(a, c),
    decreases a.len(),
{
    if a.len() > 0 && b.len() > 0 && c.len() > 0 && a[0] == b[0] && b[0] == c[0] {
        lemma_chars_less_transitive(a.drop_first(), b.drop_first(), c.drop_first());
    }
}

/// `a` and `b` first differ at `i`, where `a` has the smaller character.
pub open spec fn first_difference_less(a: Seq<char>, b: Seq<char>, i: int) -> bool {
    &&& 0 <= i < a.len()
    &&& i < b.len()
    &&& a.subrange(0, i) == b.subrange(0, i)
    &&& a[i] < b[i]
}

/// The order is plain lexicographic order, whatever the lengths: `a`
/// precedes `b` exactly when `a` is a proper prefix of `b`, or at the first
/// index where they differ `a` has the smaller character.
pub proof fn law_chars_less_is_lexicographic(a: Seq<char>, b: Seq<char>)
    ensures
        chars_less(a, b) <==> ((a.len() < b.len() && a == b.subrange(0, a.len() as int)) || exists|
            i: int,
        | #[trigger] first_difference_less(a, b, i)),
    decreases a.len(),
{
    if a.len() == 0 {
        assert(a =~= b.subrange(0, 0));
    } else if b.len() == 0 {
    } else if a[0] != b[0] {
        if a.len() < b.len() && a == b.subrange(0, a.len() as int) {
            assert(a[0] == b.subrange(0, a.len() as int)[0]);
        }
        assert forall|i: int| #[trigger] first_difference_less(a, b, i) implies i == 0 by {
            if i > 0 {
                assert(a.subrange(0, i)[0] == b.subrange(0, i)[0]);
            }
        }
        if a[0] < b[0] {
            assert(a.subrange(0, 0) =~= b.subrange(0, 0));
            assert(first_difference_less(a, b, 0));
        }
    } else {
        let a1 = a.drop_first();
        let b1 = b.drop_first();
        law_chars_less_is_lexicographic(a1, b1);
        if a.len() < b.len() && a == b.subrange(0, a.len() as int) {
            assert(a1 =~= b1.subrange(0, a1.len() as int));
        }
        if a1.len() < b1.len() && a1 == b1.subrange(0, a1.len() as int) {
            assert forall|k: int| 0 <= k < a.len() implies a[k] == b.subrange(0, a.len() as int)[k] by {
                if k > 0 {
                    assert(a[k] == a1[k - 1]);
                    assert(b1.subrange(0, a1.len() as int)[k - 1] == b[k]);
                }
            }
            assert(a =~= b.subrange(0, a.len() as int));
        }
        if exists|i: int| #[trigger] first_difference_less(a, b, i) {
            let i = choose|i: int| #[trigger] first_difference_less(a, b, i);
            assert(i != 0);
            assert(a.subrange(0, i).drop_first() =~= a1.subrange(0, i - 1));
            assert(b.subrange(0, i).drop_first() =~= b1.subrange(0, i - 1));
            assert(first_difference_less(a1, b1, i - 1));
        }
        if exists|i: int| #[trigger] first_difference_less(a1, b1, i) {
            let i = choose|i: int| #[trigger] first_difference_less(a1, b1, i);
            assert(a.subrange(0, i + 1) =~= seq![a[0]] + a1.subrange(0, i));
            assert(b.subrange(0, i + 1) =~= seq![b[0]] + b1.subrange(0, i));
            assert(first_difference_less(a, b, i + 1));
        }
    }
}

/// Whether `a` comes strictly before `b` in lexicographic order.
pub fn text_less(a: &str, b: &str) -> (r: bool)
    ensures
        r == chars_less(a@, b@),
{
    let va = chars_of(a);
    let vb = chars_of(b);
    let mut i: usize = 0;
    assert(va@.skip(0) =~= va@);
    assert(vb@.skip(0) =~= vb@);
    while i < va.len() && i < vb.len()
        invariant
            va@ == a@,
            vb@ == b@,
            i <= va@.len(),
            i <= vb@.len(),
            chars_less(a@, b@) == chars_less(va@.skip(i as int), vb@.skip(i as int)),
        decreases va@.len() - i,
    {
        if va[i] != vb[i] {
            assert(va@.skip(i as int)[0] == va@[i as int]);
            assert(vb@.skip(i as int)[0] == vb@[i as int]);
            return va[i] < vb[i];
        }
        assert(va@.skip(i as int).drop_first() =~= va@.skip(i + 1));
        assert(vb@.skip(i as int).drop_first() =~= vb@.skip(i + 1));
        i = i + 1;
    }
    i == va.len() && i < vb.len()
}

// ---------------------------------------------------------------------------
// Whitespace and case
// ---------------------------------------------------------------------------

/// The Unicode `White_Space` property, which `char::is_whitespace` and
/// `str::trim` use.
pub open spec fn is_white_space(c: char) -> bool {
    ||| ('\u{9}' <= c && c <= '\u{d}')
    ||| c == ' '
    ||| c == '\u{85}'
    ||| c == '\u{a0}'
    ||| c == '\u{1680}'
    ||| ('\u{2000}' <= c && c <= '\u{200a}')
    ||| c == '\u{2028}'
    ||| c == '\u{2029}'
    ||| c == '\u{202f}'
    ||| c == '\u{205f}'
    ||| c == '\u{3000}'
}

pub fn white_space(c: char) -> (r: bool)
    ensures
        r == is_white_space(c),
{
    ('\u{9}' <= c && c <= '\u{d}') || c == ' ' || c == '\u{85}' || c == '\u{a0}' || c
        == '\u{1680}' || ('\u{2000}' <= c && c <= '\u{200a}') || c == '\u{2028}' || c
        == '\u{2029}' || c == '\u{202f}' || c == '\u{205f}' || c == '\u{3000}'
}

pub open spec fn trim_start(s: Seq<char>) -> Seq<char>
    decreases s.len(),
{
    if s.len() > 0 && is_white_space(s[0]) {
        trim_start(s.drop_first())
    } else {
        s
    }
}

pub open spec fn trim_end(s: Seq<char>) -> Seq<char>
    decreases s.len(),
{
    if s.len() > 0 && is_white_space(s.last()) {
        trim_end(s.drop_last())
    } else {
        s
    }
}

/// `str::trim`: leading and trailing white space removed.
pub open spec fn trimmed(s: Seq<char>) -> Seq<char> {
    trim_end(trim_start(s))
}

/// The string with leading and trailing white space removed.
pub fn trim(s: &str) -> (r: String)
    ensures
        r@ == trimmed(s@),
{
    let v = chars_of(s);
    let n = v.len();
    let mut i: usize = 0;
    assert(v@.subrange(0, n as int) =~= v@);
    while i < n && white_space(v[i])
        invariant
            v@ == s@,
            n == v@.len(),
            i <= n,
            trim_start(s@) == trim_start(v@.subrange(i as int, n as int)),
        decreases n - i,
    {
        assert(v@.subrange(i as int, n as int).drop_first() =~= v@.subrange(i + 1, n as int));
        i = i + 1;
    }
    assert(trim_start(s@) == v@.subrange(i as int, n as int));
    let mut j: usize = n;
    while j > i && white_space(v[j - 1])
        invariant
            v@ == s@,
            n == v@.len(),
            i <= j <= n,
            trimmed(s@) == trim_end(v@.subrange(i as int, j as int)),
        decreases j - i,
    {
        assert(v@.subrange(i as int, j as int).drop_last() =~= v@.subrange(i as int, j - 1));
        j = j - 1;
    }
    string_of_range(&v, i, j)
}

/// The code of `c` with ASCII upper-case letters mapped to lower case.
pub open spec fn ascii_lower_code(c: char) -> u32 {
    if 'A' <= c && c <= 'Z' {
        (c as u32 + 32) as u32
    } else {
        c as u32
    }
}

/// `str::eq_ignore_ascii_case`, over characters.
pub open spec fn eq_ignoring_ascii_case(a: Seq<char>, b: Seq<char>) -> bool {
    &&& a.len() == b.len()
    &&& forall|i: int| 0 <= i < a.len() ==> ascii_lower_code(a[i]) == ascii_lower_code(b[i])
}

/// The code of a character, ASCII letters lowered.
pub fn lower_code(c: char) -> (r: u32)
    ensures
        r == ascii_lower_code(c),
{
    if 'A' <= c && c <= 'Z' {
        c as u32 + 32
    } else {
        c as u32
    }
}

/// Whether two strings are equal when ASCII letters are compared without case.
pub fn equal_ignoring_ascii_case(a: &str, b: &str) -> (r: bool)
    ensures
        r == eq_ignoring_ascii_case(a@, b@),
{
    let va = chars_of(a);
    let vb = chars_of(b);
    if va.len() != vb.len() {
        return false;
    }
    let mut i: usize = 0;
    while i < va.len()
        invariant
            va@ == a@,
            vb@ == b@,
            va@.len() == vb@.len(),
            i <= va@.len(),
            forall|k: int| 0 <= k < i ==> ascii_lower_code(va@[k]) == ascii_lower_code(vb@[k]),
        decreases va@.len() - i,
    {
        if lower_code(va[i]) != lower_code(vb[i]) {
            return false;
        }
        i = i + 1;
    }
    true
}

// ---------------------------------------------------------------------------
// Decimal numbers
// ---------------------------------------------------------------------------

pub open spec fn digit_char(d: int) -> char {
    if d == 0 {
        '0'
    } else if d == 1 {
        '1'
    } else if d == 2 {
        '2'
    } else if d == 3 {
        '3'
    } else if d == 4 {
        '4'
    } else if d == 5 {
        '5'
    } else if d == 6 {
        '6'
    } else if d == 7 {
        '7'
    } else if d == 8 {
        '8'
    } else {
        '9'
    }
}

fn digit(d: u64) -> (c: char)
    requires
        d < 10,
    ensures
        c == digit_char(d as int),
{
    if d == 0 {
        '0'
    } else if d == 1 {
        '1'
    } else if d == 2 {
        '2'
    } else if d == 3 {
        '3'
    } else if d == 4 {
        '4'
    } else if d == 5 {
        '5'
    } else if d == 6 {
        '6'
    } else if d == 7 {
        '7'
    } else if d == 8 {
        '8'
    } else {
        '9'
    }
}

/// The decimal digits of `n`, most significant first, with no leading zeros.
pub open spec fn decimal_text(n: nat) -> Seq<char>
    decreases n,
{
    if n < 10 {
        seq![digit_char(n as int)]
    } else {
        decimal_text(n / 10).push(digit_char((n % 10) as int))
    }
}

/// The decimal text of an integer, with a leading `-` when it is negative
/// (what `Display` prints for integers).
pub open spec fn int_text(v: int) -> Seq<char> {
    if v < 0 {
        seq!['-'] + decimal_text((-v) as nat)
    } else {
        decimal_text(v as nat)
    }
}

/// Appends the decimal digits of `n`.
pub fn push_decimal(out: &mut String, n: u64)
    ensures
        final(out)@ == old(out)@ + decimal_text(n as nat),
    decreases n,
{
    if n >= 10 {
        push_decimal(out, n / 10);
    }
    push_char(out, digit(n % 10));
    assert(out@ =~= old(out)@ + decimal_text(n as nat));
}

/// Appends the decimal text of a signed integer.
pub fn push_int(out: &mut String, v: i64)
    ensures
        final(out)@ == old(out)@ + int_text(v as int),
{
    if v < 0 {
        push_char(out, '-');
        let magnitude: u64 = (0i128 - v as i128) as u64;
        push_decimal(out, magnitude);
        assert(out@ =~= old(out)@ + int_text(v as int));
    } else {
        push_decimal(out, v as u64);
    }
}

pub open spec fn is_digit(c: char) -> bool {
    '0' <= c && c <= '9'
}

pub open spec fn all_digits(s: Seq<char>) -> bool {
    forall|i: int| 0 <= i < s.len() ==> is_digit(s[i])
}

/// The value of a sequence of decimal digits.
pub open spec fn digits_value(s: Seq<char>) -> int
    decreases s.len(),
{
    if s.len() == 0 {
        0
    } else {
        digits_value(s.drop_last()) * 10 + (s.last() as int - '0' as int)
    }
}

/// What `str::parse::<i64>` gives: an optional `+` or `-` sign, then one or
/// more ASCII digits, whose value must lie in the range of `i64`.
pub open spec fn parsed_i64(s: Seq<char>) -> Option<i64> {
    let negative = s.len() > 0 && s[0] == '-';
    let body = if s.len() > 0 && (s[0] == '-' || s[0] == '+') {
        s.drop_first()
    } else {
        s
    };
    if body.len() == 0 || !all_digits(body) {
        None
    } else {
        let v = if negative {
            -digits_value(body)
        } else {
            digits_value(body)
        };
        if i64::MIN <= v <= i64::MAX {
            Some(v as i64)
        } else {
            None
        }
    }
}

proof fn lemma_digits_value_nonneg(s: Seq<char>)
    requires
        all_digits(s),
    ensures
        digits_value(s) >= 0,
    decreases s.len(),
{
    if s.len() > 0 {
        lemma_digits_value_nonneg(s.drop_last());
    }
}

/// Parses a decimal integer the way `str::parse::<i64>` does.
pub fn parse_i64(s: &str) -> (r: Option<i64>)
    ensures
        r == parsed_i64(s@),
{
    let v = chars_of(s);
    let n = v.len();
    if n == 0 {
        return None;
    }
    let negative = v[0] == '-';
    let start: usize = if v[0] == '-' || v[0] == '+' {
        1
    } else {
        0
    };
    let ghost body = v@.subrange(start as int, n as int);
    assert(body =~= (if v@[0] == '-' || v@[0] == '+' {
        v@.drop_first()
    } else {
        v@
    }));
    if start == n {
        return None;
    }
    // Saturating magnitude: one past the largest magnitude an i64 can hold.
    let cap: u128 = 0x8000_0000_0000_0001;
    let mut acc: u128 = 0;
    let mut i: usize = start;
    while i < n
        invariant
            v@ == s@,
            n == v@.len(),
            start <= i <= n,
            cap == 0x8000_0000_0000_0001,
            body == v@.subrange(start as int, n as int),
            body == (if s@.len() > 0 && (s@[0] == '-' || s@[0] == '+') {
                s@.drop_first()
            } else {
                s@
            }),
            all_digits(v@.subrange(start as int, i as int)),
            acc <= cap,
            acc == (if digits_value(v@.subrange(start as int, i as int)) < cap {
                digits_value(v@.subrange(start as int, i as int))
            } else {
                cap as int
            }),
        decreases n - i,
    {
        let c = v[i];
        if !('0' <= c && c <= '9') {
            assert(body[i - start] == c);
            assert(!is_digit(body[i - start]));
            assert(!all_digits(body));
            assert(v@ == s@);
            assert(parsed_i64(s@) is None);
            return None;
        }
        let d: u128 = (c as u32 - '0' as u32) as u128;
        let ghost prev = v@.subrange(start as int, i as int);
        let ghost next = v@.subrange(start as int, i + 1);
        assert(next.drop_last() =~= prev);
        proof {
            lemma_digits_value_nonneg(prev);
        }
        if acc >= cap {
            assert(digits_value(next) >= cap) by (nonlinear_arith)
                requires
                    digits_value(next) == digits_value(prev) * 10 + d,
                    digits_value(prev) >= cap,
                    d >= 0,
            ;
        } else {
            acc = acc * 10 + d;
            if acc > cap {
                acc = cap;
            }
        }
        i = i + 1;
        assert(all_digits(v@.subrange(start as int, i as int)));
    }
    assert(v@.subrange(start as int, n as int) =~= body);
    if negative {
        if acc >= cap {
            None
        } else {
            Some((0i128 - acc as i128) as i64)
        }
    } else {
        if acc >= cap - 1 {
            None
        } else {
            Some(acc as i64)
        }
    }
}

} // verus!
