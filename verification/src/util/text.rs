use vstd::prelude::*;
use vstd::string::*;

verus! {

// ---------------------------------------------------------------------------
// Decimal digits
// ---------------------------------------------------------------------------

/// The ASCII decimal digit of `v` (0 to 9).
pub open spec fn digit(v: int) -> char {
    (v + 48) as char
}

/// The decimal representation of `n`, without leading zeros.
pub open spec fn decimal_text(n: nat) -> Seq<char>
    decreases n,
{
    if n < 10 {
        seq![digit(n as int)]
    } else {
        decimal_text(n / 10).push(digit((n % 10) as int))
    }
}

/// The number that the decimal digits `s` stand for.
pub open spec fn digits_value(s: Seq<char>) -> int
    decreases s.len(),
{
    if s.len() == 0 {
        0
    } else {
        digits_value(s.drop_last()) * 10 + (s.last() as int - 48)
    }
}

/// `decimal_text(n)` is the usual decimal form of `n`: at least one character, each a
/// digit from `0` to `9`, no leading zero, and it stands for `n`.
pub proof fn law_decimal_text(n: nat)
    ensures
        decimal_text(n).len() > 0,
        forall|i: int| 0 <= i < decimal_text(n).len() ==> '0' <= #[trigger] decimal_text(n)[i] <= '9',
        n > 0 ==> decimal_text(n)[0] != '0',
        digits_value(decimal_text(n)) == n,
    decreases n,
{
    if n < 10 {
        assert(decimal_text(n) == seq![digit(n as int)]);
        assert(seq![digit(n as int)].drop_last() =~= Seq::<char>::empty());
        assert(digit(n as int) as int == n + 48);
        assert(digits_value(Seq::<char>::empty()) == 0);
        assert(digits_value(seq![digit(n as int)]) == n);
    } else {
        law_decimal_text(n / 10);
        let t = decimal_text(n / 10);
        let d = digit((n % 10) as int);
        assert(decimal_text(n) == t.push(d));
        assert(t.push(d).drop_last() =~= t);
        assert(t.push(d)[0] == t[0]);
        assert(forall|i: int| 0 <= i < t.len() ==> t.push(d)[i] == t[i]);
        assert(d as int == n % 10 + 48);
        assert(digits_value(t.push(d)) == digits_value(t) * 10 + (d as int - 48));
        assert((n / 10) * 10 + n % 10 == n) by (nonlinear_arith);
        assert(digits_value(decimal_text(n)) == n);
    }
}

/// The one-character string of the digit `v`.
pub fn digit_str(v: u32) -> (r: &'static str)
    requires
        v < 10,
    ensures
        r@ == seq![digit(v as int)],
{
    match v {
        0 => {
            proof {
                reveal_strlit("0");
            }
            "0"
        },
        1 => {
            proof {
                reveal_strlit("1");
            }
            "1"
        },
        2 => {
            proof {
                reveal_strlit("2");
            }
            "2"
        },
        3 => {
            proof {
                reveal_strlit("3");
            }
            "3"
        },
        4 => {
            proof {
                reveal_strlit("4");
            }
            "4"
        },
        5 => {
            proof {
                reveal_strlit("5");
            }
            "5"
        },
        6 => {
            proof {
                reveal_strlit("6");
            }
            "6"
        },
        7 => {
            proof {
                reveal_strlit("7");
            }
            "7"
        },
        8 => {
            proof {
                reveal_strlit("8");
            }
            "8"
        },
        _ => {
            proof {
                reveal_strlit("9");
            }
            "9"
        },
    }
}

/// Appends the decimal representation of `n` to `s`.
pub fn push_decimal(s: &mut String, n: usize)
    ensures
        final(s)@ == old(s)@ + decimal_text(n as nat),
    decreases n,
{
    if n >= 10 {
        push_decimal(s, n / 10);
    }
    s.append(digit_str((n % 10) as u32));
    proof {
        assert(final(s)@ =~= old(s)@ + decimal_text(n as nat));
    }
}

/// The decimal representation of `n`.
pub fn decimal_string(n: usize) -> (s: String)
    ensures
        s@ == decimal_text(n as nat),
{
    let mut s = String::new();
    push_decimal(&mut s, n);
    proof {
        assert(s@ =~= decimal_text(n as nat));
    }
    s
}

// ---------------------------------------------------------------------------
// Characters
// ---------------------------------------------------------------------------

/// The characters of `s`, in order.
pub fn chars_of(s: &str) -> (v: Vec<char>)
    ensures
        v@ == s@,
{
    let mut v: Vec<char> = Vec::new();
    for c in it: s.chars()
        invariant
            v@ == it.seq().take(it.index() as int),
            it.seq() == s@,
    {
        v.push(c);
    }
    v
}

/// Whether `a` and `b` hold the same characters.
pub fn same_text(a: &str, b: &str) -> (r: bool)
    ensures
        r == (a@ == b@),
{
    let x = chars_of(a);
    let y = chars_of(b);
    if x.len() != y.len() {
        return false;
    }
    let mut i: usize = 0;
    while i < x.len()
        invariant
            x@ == a@,
            y@ == b@,
            x.len() == y.len(),
            i <= x.len(),
            forall|k: int| 0 <= k < i ==> x@[k] == y@[k],
        decreases x.len() - i,
    {
        if x[i] != y[i] {
            return false;
        }
        i = i + 1;
    }
    proof {
        assert(a@ =~= b@);
    }
    true
}

/// The code of `c` with the ASCII upper-case letters mapped to lower case.
pub open spec fn ascii_lower(c: char) -> int {
    if 65 <= (c as int) <= 90 {
        (c as int) + 32
    } else {
        c as int
    }
}

/// `a` and `b` are equal when ASCII letters are compared without regard to case.
pub open spec fn eq_ignore_ascii_case(a: Seq<char>, b: Seq<char>) -> bool {
    &&& a.len() == b.len()
    &&& forall|i: int| 0 <= i < a.len() ==> #[trigger] ascii_lower(a[i]) == ascii_lower(b[i])
}

/// Comparing without regard to ASCII case is an equivalence.
pub proof fn lemma_eq_ignore_ascii_case_equivalence(a: Seq<char>, b: Seq<char>, c: Seq<char>)
    ensures
        eq_ignore_ascii_case(a, a),
        eq_ignore_ascii_case(a, b) ==> eq_ignore_ascii_case(b, a),
        eq_ignore_ascii_case(a, b) && eq_ignore_ascii_case(b, c) ==> eq_ignore_ascii_case(a, c),
{
    if eq_ignore_ascii_case(a, b) && eq_ignore_ascii_case(b, c) {
        assert forall|i: int| 0 <= i < a.len() implies #[trigger] ascii_lower(a[i]) == ascii_lower(c[i]) by {
            assert(ascii_lower(a[i]) == ascii_lower(b[i]));
            assert(ascii_lower(b[i]) == ascii_lower(c[i]));
        }
    }
    if eq_ignore_ascii_case(a, b) {
        assert forall|i: int| 0 <= i < b.len() implies #[trigger] ascii_lower(b[i]) == ascii_lower(a[i]) by {
            assert(ascii_lower(a[i]) == ascii_lower(b[i]));
        }
    }
}

fn lower_code(c: char) -> (r: u32)
    ensures
        r as int == ascii_lower(c),
{
    let v = c as u32;
    if 65 <= v && v <= 90 {
        v + 32
    } else {
        v
    }
}

/// Whether `a` and `b` are equal when ASCII letters are compared without regard to case.
pub fn str_eq_ignore_ascii_case(a: &str, b: &str) -> (r: bool)
    ensures
        r == eq_ignore_ascii_case(a@, b@),
{
    let x = chars_of(a);
    let y = chars_of(b);
    if x.len() != y.len() {
        return false;
    }
    let mut i: usize = 0;
    while i < x.len()
        invariant
            x@ == a@,
            y@ == b@,
            x.len() == y.len(),
            i <= x.len(),
            forall|k: int| 0 <= k < i ==> #[trigger] ascii_lower(x@[k]) == ascii_lower(y@[k]),
        decreases x.len() - i,
    {
        if lower_code(x[i]) != lower_code(y[i]) {
            return false;
        }
        i = i + 1;
    }
    true
}

/// The characters with the Unicode `White_Space` property.
pub open spec fn is_whitespace(c: char) -> bool {
    let v = c as int;
    ||| 0x09 <= v <= 0x0d
    ||| v == 0x20
    ||| v == 0x85
    ||| v == 0xa0
    ||| v == 0x1680
    ||| 0x2000 <= v <= 0x200a
    ||| v == 0x2028
    ||| v == 0x2029
    ||| v == 0x202f
    ||| v == 0x205f
    ||| v == 0x3000
}

/// Whether `c` has the Unicode `White_Space` property.
pub fn char_is_whitespace(c: char) -> (r: bool)
    ensures
        r == is_whitespace(c),
{
    let v = c as u32;
    (0x09 <= v && v <= 0x0d) || v == 0x20 || v == 0x85 || v == 0xa0 || v == 0x1680 || (0x2000 <= v
        && v <= 0x200a) || v == 0x2028 || v == 0x2029 || v == 0x202f || v == 0x205f || v == 0x3000
}


// ---------------------------------------------------------------------------
// Trimming
// ---------------------------------------------------------------------------

/// Number of whitespace characters at the start of `s`.
pub open spec fn leading_whitespace(s: Seq<char>) -> nat
    decreases s.len(),
{
    if s.len() > 0 && is_whitespace(s[0]) {
        1 + leading_whitespace(s.drop_first())
    } else {
        0
    }
}

/// Number of whitespace characters at the end of `s`.
pub open spec fn trailing_whitespace(s: Seq<char>) -> nat
    decreases s.len(),
{
    if s.len() > 0 && is_whitespace(s.last()) {
        1 + trailing_whitespace(s.drop_last())
    } else {
        0
    }
}

/// `s` without its leading whitespace.
pub open spec fn trim_start(s: Seq<char>) -> Seq<char> {
    s.skip(leading_whitespace(s) as int)
}

/// `s` without its leading and trailing whitespace.
pub open spec fn trim(s: Seq<char>) -> Seq<char> {
    let t = trim_start(s);
    t.take(t.len() - trailing_whitespace(t))
}

proof fn lemma_leading_whitespace_facts(s: Seq<char>)
    ensures
        leading_whitespace(s) <= s.len(),
        forall|k: int| 0 <= k < leading_whitespace(s) ==> is_whitespace(#[trigger] s[k]),
        leading_whitespace(s) < s.len() ==> !is_whitespace(s[leading_whitespace(s) as int]),
    decreases s.len(),
{
    if s.len() > 0 && is_whitespace(s[0]) {
        let t = s.drop_first();
        lemma_leading_whitespace_facts(t);
        assert forall|k: int| 0 <= k < leading_whitespace(s) implies is_whitespace(#[trigger] s[k]) by {
            if k > 0 {
                assert(s[k] == t[k - 1]);
            }
        }
        if leading_whitespace(s) < s.len() {
            assert(s[leading_whitespace(s) as int] == t[leading_whitespace(t) as int]);
        }
    }
}

proof fn lemma_trailing_whitespace_facts(s: Seq<char>)
    ensures
        trailing_whitespace(s) <= s.len(),
        forall|k: int| s.len() - trailing_whitespace(s) <= k < s.len() ==> is_whitespace(#[trigger] s[k]),
        trailing_whitespace(s) < s.len() ==> !is_whitespace(s[s.len() - trailing_whitespace(s) - 1]),
    decreases s.len(),
{
    if s.len() > 0 && is_whitespace(s.last()) {
        let t = s.drop_last();
        lemma_trailing_whitespace_facts(t);
        assert forall|k: int| s.len() - trailing_whitespace(s) <= k < s.len() implies is_whitespace(#[trigger] s[k]) by {
            if k < s.len() - 1 {
                assert(s[k] == t[k]);
            }
        }
        if trailing_whitespace(s) < s.len() {
            assert(s[s.len() - trailing_whitespace(s) - 1] == t[t.len() - trailing_whitespace(t) - 1]);
        }
    }
}

/// Trimming takes off all the whitespace at both ends and nothing else: `s` is some
/// whitespace, then `trim(s)`, then some whitespace, and `trim(s)`, unless empty, starts
/// and ends with a character that is not whitespace.
pub proof fn law_trim(s: Seq<char>)
    ensures
        exists|a: Seq<char>, b: Seq<char>|
            {
                &&& s == a + trim(s) + b
                &&& forall|k: int| 0 <= k < a.len() ==> is_whitespace(#[trigger] a[k])
                &&& forall|k: int| 0 <= k < b.len() ==> is_whitespace(#[trigger] b[k])
            },
        trim(s).len() > 0 ==> !is_whitespace(trim(s)[0]) && !is_whitespace(trim(s).last()),
{
    lemma_leading_whitespace_facts(s);
    let lw = leading_whitespace(s) as int;
    let t = trim_start(s);
    lemma_trailing_whitespace_facts(t);
    let tw = trailing_whitespace(t) as int;
    let r = trim(s);
    let a = s.take(lw);
    let b = t.skip(t.len() - tw);
    assert(s =~= a + r + b);
    assert forall|k: int| 0 <= k < a.len() implies is_whitespace(#[trigger] a[k]) by {
        assert(a[k] == s[k]);
    }
    assert forall|k: int| 0 <= k < b.len() implies is_whitespace(#[trigger] b[k]) by {
        assert(b[k] == t[t.len() - tw + k]);
    }
    if r.len() > 0 {
        assert(r[0] == s[lw]);
        assert(r.last() == t[t.len() - tw - 1]);
    }
}

proof fn lemma_leading_whitespace_is(s: Seq<char>, i: int)
    requires
        0 <= i <= s.len(),
        forall|k: int| 0 <= k < i ==> is_whitespace(#[trigger] s[k]),
        i == s.len() || !is_whitespace(s[i]),
    ensures
        leading_whitespace(s) == i,
    decreases i,
{
    if i > 0 {
        let t = s.drop_first();
        assert forall|k: int| 0 <= k < i - 1 implies is_whitespace(#[trigger] t[k]) by {
            assert(t[k] == s[k + 1]);
        }
        lemma_leading_whitespace_is(t, i - 1);
    }
}

proof fn lemma_trailing_whitespace_is(s: Seq<char>, j: int)
    requires
        0 <= j <= s.len(),
        forall|k: int| s.len() - j <= k < s.len() ==> is_whitespace(#[trigger] s[k]),
        j == s.len() || !is_whitespace(s[s.len() - j - 1]),
    ensures
        trailing_whitespace(s) == j,
    decreases j,
{
    if j > 0 {
        let t = s.drop_last();
        assert forall|k: int| t.len() - (j - 1) <= k < t.len() implies is_whitespace(#[trigger] t[k]) by {
            assert(t[k] == s[k]);
        }
        lemma_trailing_whitespace_is(t, j - 1);
    }
}

/// `s` without its leading whitespace.
pub fn str_trim_start(s: &str) -> (r: String)
    ensures
        r@ == trim_start(s@),
{
    let v = chars_of(s);
    let n = v.len();
    let mut a: usize = 0;
    while a < n && char_is_whitespace(v[a])
        invariant
            v@ == s@,
            n == v.len(),
            a <= n,
            forall|k: int| 0 <= k < a ==> is_whitespace(#[trigger] s@[k]),
        decreases n - a,
    {
        a = a + 1;
    }
    proof {
        lemma_leading_whitespace_is(s@, a as int);
    }
    let r = s.substring_char(a, n).to_owned();
    proof {
        assert(r@ =~= trim_start(s@));
    }
    r
}

/// `s` without its leading and trailing whitespace.
pub fn str_trim(s: &str) -> (r: String)
    ensures
        r@ == trim(s@),
{
    let v = chars_of(s);
    let n = v.len();
    let mut a: usize = 0;
    while a < n && char_is_whitespace(v[a])
        invariant
            v@ == s@,
            n == v.len(),
            a <= n,
            forall|k: int| 0 <= k < a ==> is_whitespace(#[trigger] s@[k]),
        decreases n - a,
    {
        a = a + 1;
    }
    proof {
        lemma_leading_whitespace_is(s@, a as int);
    }
    let ghost t = trim_start(s@);
    let mut b: usize = n;
    while b > a && char_is_whitespace(v[b - 1])
        invariant
            v@ == s@,
            n == v.len(),
            a <= b <= n,
            t == s@.skip(a as int),
            forall|k: int| b <= k < n ==> is_whitespace(#[trigger] s@[k]),
        decreases b - a,
    {
        b = b - 1;
    }
    proof {
        assert forall|k: int| t.len() - (n - b) <= k < t.len() implies is_whitespace(#[trigger] t[k]) by {
            assert(t[k] == s@[k + a]);
        }
        lemma_trailing_whitespace_is(t, (n - b) as int);
    }
    let r = s.substring_char(a, b).to_owned();
    proof {
        assert(r@ =~= trim(s@));
    }
    r
}

// ---------------------------------------------------------------------------
// Splitting
// ---------------------------------------------------------------------------

/// Index of the first `c` in `s`, or the length of `s` when there is none.
pub open spec fn char_index(s: Seq<char>, c: char) -> nat
    decreases s.len(),
{
    if s.len() == 0 {
        0
    } else if s[0] == c {
        0
    } else {
        1 + char_index(s.drop_first(), c)
    }
}

/// The pieces of `s` between the occurrences of `sep`: one more piece than there are
/// separators, some of them possibly empty.
pub open spec fn split(s: Seq<char>, sep: char) -> Seq<Seq<char>>
    decreases s.len(),
{
    let i = char_index(s, sep);
    if i >= s.len() {
        seq![s]
    } else {
        seq![s.take(i as int)] + split(s.skip((i + 1) as int), sep)
    }
}

proof fn lemma_char_index_is(s: Seq<char>, c: char, i: int)
    requires
        0 <= i <= s.len(),
        forall|k: int| 0 <= k < i ==> #[trigger] s[k] != c,
        i == s.len() || s[i] == c,
    ensures
        char_index(s, c) == i,
    decreases i,
{
    if i > 0 {
        let t = s.drop_first();
        assert forall|k: int| 0 <= k < i - 1 implies #[trigger] t[k] != c by {
            assert(t[k] == s[k + 1]);
        }
        lemma_char_index_is(t, c, i - 1);
    }
}

/// The pieces `pieces` written one after the other with `sep` between each two.
pub open spec fn joined(pieces: Seq<Seq<char>>, sep: char) -> Seq<char>
    decreases pieces.len(),
{
    if pieces.len() == 0 {
        Seq::empty()
    } else if pieces.len() == 1 {
        pieces[0]
    } else {
        pieces[0] + seq![sep] + joined(pieces.drop_first(), sep)
    }
}

proof fn lemma_char_index_facts(s: Seq<char>, c: char)
    ensures
        char_index(s, c) <= s.len(),
        forall|k: int| 0 <= k < char_index(s, c) ==> #[trigger] s[k] != c,
        char_index(s, c) < s.len() ==> s[char_index(s, c) as int] == c,
    decreases s.len(),
{
    if s.len() > 0 && s[0] != c {
        let t = s.drop_first();
        lemma_char_index_facts(t, c);
        assert forall|k: int| 0 <= k < char_index(s, c) implies #[trigger] s[k] != c by {
            if k > 0 {
                assert(s[k] == t[k - 1]);
            }
        }
        if char_index(s, c) < s.len() {
            assert(s[char_index(s, c) as int] == t[char_index(t, c) as int]);
        }
    }
}

/// Splitting loses nothing and keeps no separator: the pieces of `s` at `sep` hold no
/// `sep`, and written back with `sep` between them they give `s`.
pub proof fn law_split(s: Seq<char>, sep: char)
    ensures
        split(s, sep).len() >= 1,
        forall|i: int, k: int| 0 <= i < split(s, sep).len() && 0 <= k < split(s, sep)[i].len()
            ==> #[trigger] split(s, sep)[i][k] != sep,
        joined(split(s, sep), sep) == s,
    decreases s.len(),
{
    lemma_char_index_facts(s, sep);
    let i = char_index(s, sep);
    if i < s.len() {
        let rest = s.skip((i + 1) as int);
        law_split(rest, sep);
        let head = s.take(i as int);
        let p = split(s, sep);
        let q = split(rest, sep);
        assert(p == seq![head] + q);
        assert(p.drop_first() =~= q);
        assert forall|j: int, k: int| 0 <= j < p.len() && 0 <= k < p[j].len()
            implies #[trigger] p[j][k] != sep by {
            if j == 0 {
                assert(p[0][k] == s[k]);
            } else {
                assert(p[j] == q[j - 1]);
            }
        }
        assert(joined(p, sep) == head + seq![sep] + joined(q, sep));
        assert(s =~= head + seq![sep] + rest);
    }
}

/// In `a`, `c`, `b` where `a` holds no `c`, the first `c` is the one after `a`; in `a`
/// alone there is none.
pub proof fn lemma_char_index_first(a: Seq<char>, c: char, b: Seq<char>)
    requires
        forall|k: int| 0 <= k < a.len() ==> a[k] != c,
    ensures
        char_index(a + seq![c] + b, c) == a.len(),
        char_index(a, c) == a.len(),
{
    let s = a + seq![c] + b;
    assert forall|k: int| 0 <= k < a.len() implies #[trigger] s[k] != c by {
        assert(s[k] == a[k]);
    }
    assert(s[a.len() as int] == c);
    lemma_char_index_is(s, c, a.len() as int);
    lemma_char_index_is(a, c, a.len() as int);
}

/// Splitting `a`, `sep`, `b` where `a` holds no `sep` gives `a`, then the pieces of `b`;
/// splitting `a` alone gives `a`.
pub proof fn lemma_split_first(a: Seq<char>, sep: char, b: Seq<char>)
    requires
        forall|k: int| 0 <= k < a.len() ==> a[k] != sep,
    ensures
        split(a + seq![sep] + b, sep) == seq![a] + split(b, sep),
        split(a, sep) == seq![a],
{
    let s = a + seq![sep] + b;
    lemma_char_index_first(a, sep, b);
    assert(s.take(a.len() as int) =~= a);
    assert(s.skip((a.len() + 1) as int) =~= b);
}

/// Index of the first `c` in `s`, or the length of `s` when there is none.
pub fn find_char(s: &str, c: char) -> (r: usize)
    ensures
        r == char_index(s@, c),
        r <= s@.len(),
{
    let v = chars_of(s);
    let mut i: usize = 0;
    while i < v.len() && v[i] != c
        invariant
            v@ == s@,
            i <= v@.len(),
            forall|k: int| 0 <= k < i ==> #[trigger] s@[k] != c,
        decreases v@.len() - i,
    {
        i = i + 1;
    }
    proof {
        lemma_char_index_is(s@, c, i as int);
    }
    i
}

/// The pieces of `s` between the occurrences of `sep`.
pub fn split_str(s: &str, sep: char) -> (r: Vec<String>)
    ensures
        r.deep_view() == split(s@, sep),
{
    let v = chars_of(s);
    let n = v.len();
    let mut pieces: Vec<String> = Vec::new();
    let mut start: usize = 0;
    let mut i: usize = 0;
    proof {
        assert(s@.skip(0) =~= s@);
        assert(pieces.deep_view() + split(s@.skip(0), sep) =~= split(s@, sep));
    }
    while i < n
        invariant
            v@ == s@,
            n == v.len(),
            start <= i <= n,
            forall|k: int| start <= k < i ==> #[trigger] s@[k] != sep,
            pieces.deep_view() + split(s@.skip(start as int), sep) == split(s@, sep),
        decreases n - i,
    {
        if v[i] == sep {
            let ghost rest = s@.skip(start as int);
            proof {
                assert forall|k: int| 0 <= k < i - start implies #[trigger] rest[k] != sep by {
                    assert(rest[k] == s@[k + start]);
                }
                lemma_char_index_is(rest, sep, i - start);
                assert(rest.take(i - start) =~= s@.subrange(start as int, i as int));
                assert(rest.skip(i - start + 1) =~= s@.skip(i + 1));
            }
            let ghost before = pieces.deep_view();
            let piece = s.substring_char(start, i).to_owned();
            pieces.push(piece);
            proof {
                assert(pieces.deep_view() =~= before.push(rest.take(i - start)));
                assert(split(rest, sep) =~= seq![rest.take(i - start)] + split(s@.skip(i + 1), sep));
                assert(pieces.deep_view() + split(s@.skip(i + 1), sep) =~= before + split(rest, sep));
            }
            start = i + 1;
        }
        i = i + 1;
    }
    let ghost rest = s@.skip(start as int);
    proof {
        assert forall|k: int| 0 <= k < n - start implies #[trigger] rest[k] != sep by {
            assert(rest[k] == s@[k + start]);
        }
        lemma_char_index_is(rest, sep, n - start);
    }
    let ghost before = pieces.deep_view();
    let last = s.substring_char(start, n).to_owned();
    pieces.push(last);
    proof {
        assert(last@ =~= rest);
        assert(pieces.deep_view() =~= before.push(rest));
        assert(pieces.deep_view() =~= split(s@, sep));
    }
    pieces
}

} // verus!
