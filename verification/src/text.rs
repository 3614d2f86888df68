//! Verified text utilities: splitting on a separator character, the building
//! block for the request-line, header-line and URI parsing done by the codec.

use vstd::prelude::*;
use vstd::string::*;

verus! {

/// The pieces of `s` between occurrences of `sep`, in order. Mirrors the
/// splitting behaviour of Rust's `str::split`: there is always at least one
/// piece, and adjacent separators yield empty pieces.
pub open spec fn split_on(s: Seq<char>, sep: char) -> Seq<Seq<char>>
    decreases s.len(),
{
    if s.len() == 0 {
        seq![Seq::<char>::empty()]
    } else if s[0] == sep {
        seq![Seq::<char>::empty()] + split_on(s.drop_first(), sep)
    } else {
        let rest = split_on(s.drop_first(), sep);
        seq![seq![s[0]] + rest[0]] + rest.skip(1)
    }
}

pub proof fn lemma_split_on_len(s: Seq<char>, sep: char)
    ensures
        split_on(s, sep).len() >= 1,
    decreases s.len(),
{
    if s.len() != 0 {
        lemma_split_on_len(s.drop_first(), sep);
    }
}

/// If the first separator of `t` stands at `k`, the split is the prefix
/// before `k` followed by the split of what comes after `k`.
pub proof fn lemma_split_on_first_sep(t: Seq<char>, sep: char, k: int)
    requires
        0 <= k < t.len(),
        t[k] == sep,
        forall|j: int| 0 <= j < k ==> t[j] != sep,
    ensures
        split_on(t, sep) == seq![t.take(k)] + split_on(t.skip(k + 1), sep),
    decreases k,
{
    if k == 0 {
        assert(t.take(0) =~= Seq::<char>::empty());
        assert(t.skip(1) =~= t.drop_first());
    } else {
        lemma_split_on_first_sep(t.drop_first(), sep, k - 1);
        lemma_split_on_len(t.drop_first().skip(k), sep);
        let rest = split_on(t.drop_first(), sep);
        assert(rest == seq![t.drop_first().take(k - 1)] + split_on(t.drop_first().skip(k), sep));
        assert(seq![t[0]] + rest[0] =~= t.take(k));
        assert(rest.skip(1) =~= split_on(t.drop_first().skip(k), sep));
        assert(t.drop_first().skip(k) =~= t.skip(k + 1));
        assert(split_on(t, sep) =~= seq![t.take(k)] + split_on(t.skip(k + 1), sep));
    }
}

/// A separator-free string splits into itself alone.
pub proof fn lemma_split_on_no_sep(t: Seq<char>, sep: char)
    requires
        forall|j: int| 0 <= j < t.len() ==> t[j] != sep,
    ensures
        split_on(t, sep) == seq![t],
    decreases t.len(),
{
    if t.len() == 0 {
        assert(t =~= Seq::<char>::empty());
        assert(split_on(t, sep) =~= seq![t]);
    } else {
        lemma_split_on_no_sep(t.drop_first(), sep);
        let rest = split_on(t.drop_first(), sep);
        assert(seq![t[0]] + rest[0] =~= t);
        assert(rest.skip(1) =~= Seq::<Seq<char>>::empty());
        assert(split_on(t, sep) =~= seq![t]);
    }
}

/// Split `s` on every occurrence of `sep`, as `str::split` does.
pub fn split_str(s: &str, sep: char) -> (r: Vec<String>)
    ensures
        r.deep_view() == split_on(s@, sep),
{
    let n = s.unicode_len();
    let mut r: Vec<String> = Vec::new();
    let mut start: usize = 0;
    let mut i: usize = 0;
    proof {
        assert(r.deep_view() =~= Seq::<Seq<char>>::empty());
        assert(s@.skip(0) =~= s@);
        assert(Seq::<Seq<char>>::empty() + split_on(s@, sep) =~= split_on(s@, sep));
    }
    while i < n
        invariant
            n == s@.len(),
            start <= i <= n,
            forall|j: int| start <= j < i ==> s@[j] != sep,
            split_on(s@, sep) == r.deep_view() + split_on(s@.skip(start as int), sep),
        decreases n - i,
    {
        if s.get_char(i) == sep {
            let tok = String::from_str(s.substring_char(start, i));
            let ghost dv = r.deep_view();
            r.push(tok);
            proof {
                let tail = s@.skip(start as int);
                lemma_split_on_first_sep(tail, sep, i as int - start as int);
                assert(tail.take(i as int - start as int) =~= tok@);
                assert(tail.skip(i as int - start as int + 1) =~= s@.skip(i as int + 1));
                assert(r.deep_view() =~= dv.push(tok@));
                assert(dv + (seq![tok@] + split_on(s@.skip(i as int + 1), sep)) =~= dv.push(
                    tok@,
                ) + split_on(s@.skip(i as int + 1), sep));
            }
            start = i + 1;
        }
        i = i + 1;
    }
    let tok = String::from_str(s.substring_char(start, n));
    let ghost dv = r.deep_view();
    r.push(tok);
    proof {
        let tail = s@.skip(start as int);
        lemma_split_on_no_sep(tail, sep);
        assert(tail =~= tok@);
        assert(r.deep_view() =~= dv.push(tok@));
        assert(dv + seq![tok@] =~= dv.push(tok@));
    }
    r
}

/// Index of the first position where `a` immediately followed by `b` occurs
/// in `s`, or -1 when the pair never occurs.
pub open spec fn first_pair_index(s: Seq<char>, a: char, b: char) -> int
    decreases s.len(),
{
    if s.len() < 2 {
        -1
    } else if s[0] == a && s[1] == b {
        0
    } else {
        let r = first_pair_index(s.drop_first(), a, b);
        if r == -1 {
            -1
        } else {
            r + 1
        }
    }
}

pub proof fn lemma_first_pair_index_at(s: Seq<char>, a: char, b: char, k: int)
    requires
        0 <= k,
        k + 1 < s.len(),
        s[k] == a,
        s[k + 1] == b,
        forall|j: int| 0 <= j < k ==> !((#[trigger] s[j]) == a && s[j + 1] == b),
    ensures
        first_pair_index(s, a, b) == k,
    decreases k,
{
    if k > 0 {
        lemma_first_pair_index_at(s.drop_first(), a, b, k - 1);
    }
}

pub proof fn lemma_first_pair_index_none(s: Seq<char>, a: char, b: char)
    requires
        forall|j: int| 0 <= j && j + 1 < s.len() ==> !((#[trigger] s[j]) == a && s[j + 1] == b),
    ensures
        first_pair_index(s, a, b) == -1,
    decreases s.len(),
{
    if s.len() >= 2 {
        lemma_first_pair_index_none(s.drop_first(), a, b);
    }
}

/// Position of the first occurrence of the two-character pattern `a`,`b`.
pub fn find_pair(s: &str, a: char, b: char) -> (r: Option<usize>)
    ensures
        match r {
            Some(i) => first_pair_index(s@, a, b) == i as int,
            None => first_pair_index(s@, a, b) == -1,
        },
{
    let n = s.unicode_len();
    if n < 2 {
        proof {
            lemma_first_pair_index_none(s@, a, b);
        }
        return None;
    }
    let mut i: usize = 0;
    while i < n - 1
        invariant
            n == s@.len(),
            2 <= n,
            i <= n - 1,
            forall|j: int| 0 <= j < i ==> !((#[trigger] s@[j]) == a && s@[j + 1] == b),
        decreases n - i,
    {
        if s.get_char(i) == a && s.get_char(i + 1) == b {
            proof {
                lemma_first_pair_index_at(s@, a, b, i as int);
            }
            return Some(i);
        }
        i = i + 1;
    }
    proof {
        lemma_first_pair_index_none(s@, a, b);
    }
    None
}

/// An upper-case ASCII letter mapped to its lower-case form; any other
/// character is left as it is.
pub open spec fn lower_char(c: char) -> char {
    if 'A' <= c && c <= 'Z' {
        ((c as int) + 32) as char
    } else {
        c
    }
}

/// Character-wise equality up to ASCII case.
pub open spec fn eq_ignore_ascii_case(s: Seq<char>, t: Seq<char>) -> bool {
    s.len() == t.len() && (forall|i: int| 0 <= i < s.len() ==> lower_char(s[i]) == lower_char(t[i]))
}

fn lower_char_exec(c: char) -> (r: char)
    ensures
        r == lower_char(c),
{
    if 'A' <= c && c <= 'Z' {
        (((c as u32) + 32) as u8) as char
    } else {
        c
    }
}

/// Compare two strings up to ASCII case.
pub fn str_eq_ignore_ascii_case(s: &str, t: &str) -> (r: bool)
    ensures
        r == eq_ignore_ascii_case(s@, t@),
{
    let ns = s.unicode_len();
    let nt = t.unicode_len();
    if ns != nt {
        return false;
    }
    let mut i: usize = 0;
    while i < ns
        invariant
            ns == s@.len(),
            nt == t@.len(),
            ns == nt,
            i <= ns,
            forall|j: int| 0 <= j < i ==> lower_char(s@[j]) == lower_char(t@[j]),
        decreases ns - i,
    {
        if lower_char_exec(s.get_char(i)) != lower_char_exec(t.get_char(i)) {
            return false;
        }
        i = i + 1;
    }
    true
}

/// The characters that `trim` strips from either end: the Unicode
/// White_Space set, the one `char::is_whitespace` recognizes.
pub open spec fn is_white_space(c: char) -> bool {
    let u = c as int;
    (9 <= u && u <= 13) || u == 32 || u == 133 || u == 160 || u == 0x1680 || (0x2000 <= u && u
        <= 0x200A) || u == 0x2028 || u == 0x2029 || u == 0x202F || u == 0x205F || u == 0x3000
}

pub open spec fn trim_left(s: Seq<char>) -> Seq<char>
    decreases s.len(),
{
    if s.len() > 0 && is_white_space(s[0]) {
        trim_left(s.drop_first())
    } else {
        s
    }
}

pub open spec fn trim_right(s: Seq<char>) -> Seq<char>
    decreases s.len(),
{
    if s.len() > 0 && is_white_space(s.last()) {
        trim_right(s.drop_last())
    } else {
        s
    }
}

/// `s` with white space stripped from both ends.
pub open spec fn trim_spec(s: Seq<char>) -> Seq<char> {
    trim_right(trim_left(s))
}

proof fn lemma_trim_left_skip(s: Seq<char>, a: int)
    requires
        0 <= a <= s.len(),
        forall|j: int| 0 <= j < a ==> is_white_space(s[j]),
        a < s.len() ==> !is_white_space(s[a]),
    ensures
        trim_left(s) == s.skip(a),
    decreases a,
{
    if a == 0 {
        assert(s.skip(0) =~= s);
    } else {
        lemma_trim_left_skip(s.drop_first(), a - 1);
        assert(s.drop_first().skip(a - 1) =~= s.skip(a));
    }
}

proof fn lemma_trim_right_take(s: Seq<char>, b: int)
    requires
        0 <= b <= s.len(),
        forall|j: int| b <= j < s.len() ==> is_white_space(s[j]),
        b > 0 ==> !is_white_space(s[b - 1]),
    ensures
        trim_right(s) == s.take(b),
    decreases s.len() - b,
{
    if b == s.len() {
        assert(s.take(b) =~= s);
    } else {
        lemma_trim_right_take(s.drop_last(), b);
        assert(s.drop_last().take(b) =~= s.take(b));
    }
}

fn is_space_exec(c: char) -> (r: bool)
    ensures
        r == is_white_space(c),
{
    let u = c as u32;
    (9 <= u && u <= 13) || u == 32 || u == 133 || u == 160 || u == 0x1680 || (0x2000 <= u && u
        <= 0x200A) || u == 0x2028 || u == 0x2029 || u == 0x202F || u == 0x205F || u == 0x3000
}

/// Strip white space from both ends, as `str::trim` does.
pub fn trim_str(s: &str) -> (r: String)
    ensures
        r@ == trim_spec(s@),
{
    let n = s.unicode_len();
    let mut a: usize = 0;
    while a < n && is_space_exec(s.get_char(a))
        invariant
            n == s@.len(),
            a <= n,
            forall|j: int| 0 <= j < a ==> is_white_space(s@[j]),
        decreases n - a,
    {
        a = a + 1;
    }
    let mut b: usize = n;
    while b > a && is_space_exec(s.get_char(b - 1))
        invariant
            n == s@.len(),
            a <= b <= n,
            forall|j: int| b <= j < n ==> is_white_space(s@[j]),
        decreases b,
    {
        b = b - 1;
    }
    proof {
        lemma_trim_left_skip(s@, a as int);
        let t = s@.skip(a as int);
        lemma_trim_right_take(t, b as int - a as int);
        assert(t.take(b as int - a as int) =~= s@.subrange(a as int, b as int));
    }
    String::from_str(s.substring_char(a, b))
}

/// The numeric value of a string of decimal digits.
pub open spec fn dec_value(s: Seq<char>) -> int
    decreases s.len(),
{
    if s.len() == 0 {
        0
    } else {
        dec_value(s.drop_last()) * 10 + (s.last() as int - '0' as int)
    }
}

pub open spec fn is_dec_digit(c: char) -> bool {
    '0' <= c && c <= '9'
}

/// A decimal string with one optional leading `+` removed.
pub open spec fn plus_stripped(s: Seq<char>) -> Seq<char> {
    if s.len() > 0 && s[0] == '+' {
        s.drop_first()
    } else {
        s
    }
}

/// The value of a plain digit string, when every character is a digit and
/// the value fits in `usize`.
pub open spec fn parse_digits(ds: Seq<char>) -> Option<int> {
    if ds.len() == 0 {
        None
    } else if (exists|i: int| 0 <= i < ds.len() && !is_dec_digit(#[trigger] ds[i])) {
        None
    } else if dec_value(ds) > usize::MAX {
        None
    } else {
        Some(dec_value(ds))
    }
}

/// What `usize::from_str` accepts on a decimal string: an optional leading
/// `+`, then at least one digit, and a value that fits in `usize`.
pub open spec fn parse_usize_spec(s: Seq<char>) -> Option<int> {
    parse_digits(plus_stripped(s))
}

proof fn lemma_dec_value_nonneg(s: Seq<char>)
    requires
        forall|i: int| 0 <= i < s.len() ==> is_dec_digit(#[trigger] s[i]),
    ensures
        dec_value(s) >= 0,
    decreases s.len(),
{
    if s.len() > 0 {
        lemma_dec_value_nonneg(s.drop_last());
    }
}

/// Appending digits never shrinks the value of a digit string.
proof fn lemma_dec_value_prefix_le(s: Seq<char>, i: int)
    requires
        0 <= i <= s.len(),
        forall|j: int| 0 <= j < s.len() ==> is_dec_digit(#[trigger] s[j]),
    ensures
        dec_value(s.take(i)) <= dec_value(s),
    decreases s.len() - i,
{
    if i == s.len() {
        assert(s.take(i) =~= s);
    } else {
        lemma_dec_value_prefix_le(s, i + 1);
        let t = s.take(i + 1);
        assert(t.drop_last() =~= s.take(i));
        lemma_dec_value_nonneg(s.take(i));
        assert(dec_value(s.take(i)) <= dec_value(t));
    }
}

/// Parse a decimal integer as `usize::from_str` does.
pub fn parse_usize(s: &str) -> (r: Option<usize>)
    ensures
        match r {
            Some(v) => parse_usize_spec(s@) == Some(v as int),
            None => parse_usize_spec(s@) is None,
        },
{
    let n = s.unicode_len();
    let st: usize = if n > 0 && s.get_char(0) == '+' {
        1
    } else {
        0
    };
    let ghost ds = s@.skip(st as int);
    proof {
        if n > 0 && s@[0] == '+' {
            assert(ds =~= s@.drop_first());
        } else {
            assert(ds =~= s@);
        }
    }
    if n == st {
        return None;
    }
    let mut acc: usize = 0;
    let mut i: usize = st;
    proof {
        assert(ds.take(0) =~= Seq::<char>::empty());
    }
    while i < n
        invariant
            n == s@.len(),
            st <= i <= n,
            st <= 1,
            ds == s@.skip(st as int),
            ds == plus_stripped(s@),
            forall|j: int| 0 <= j < i - st ==> is_dec_digit(#[trigger] ds[j]),
            acc as int == dec_value(ds.take(i as int - st as int)),
        decreases n - i,
    {
        let c = s.get_char(i);
        if !('0' <= c && c <= '9') {
            proof {
                assert(ds[i as int - st as int] == c);
                assert(!is_dec_digit(c));
                assert(exists|j: int| 0 <= j < ds.len() && !is_dec_digit(#[trigger] ds[j]));
            }
            return None;
        }
        let d: usize = ((c as u32) - 48) as usize;
        proof {
            let t = ds.take(i as int - st as int + 1);
            assert(t.drop_last() =~= ds.take(i as int - st as int));
            assert(t.last() == ds[i - st]);
        }
        if acc > (usize::MAX - d) / 10 {
            // the digits seen so far already outgrow usize; any further
            // digits only increase the value
            proof {
                assert(acc * 10 + d > usize::MAX) by (nonlinear_arith)
                    requires
                        acc > (usize::MAX - d) / 10,
                        d < 10,
                ;
                if (forall|j: int| 0 <= j < ds.len() ==> is_dec_digit(#[trigger] ds[j])) {
                    lemma_dec_value_prefix_le(ds, i as int - st as int + 1);
                } else {
                    assert(exists|j: int| 0 <= j < ds.len() && !is_dec_digit(#[trigger] ds[j]));
                }
            }
            return None;
        }
        proof {
            assert(acc * 10 + d <= usize::MAX) by (nonlinear_arith)
                requires
                    acc <= (usize::MAX - d) / 10,
                    d < 10,
            ;
        }
        acc = acc * 10 + d;
        i = i + 1;
    }
    proof {
        assert(ds.take(n as int - st as int) =~= ds);
    }
    Some(acc)
}

/// The decimal digit `d` as a character.
pub open spec fn dec_digit_char(d: int) -> char {
    (d + 48) as char
}

/// The decimal representation of a non-negative number.
pub open spec fn dec_str(n: int) -> Seq<char>
    decreases n,
{
    if n < 10 {
        seq![dec_digit_char(n)]
    } else {
        dec_str(n / 10).push(dec_digit_char(n % 10))
    }
}

fn digit_str(d: u64) -> (r: String)
    requires
        d < 10,
    ensures
        r@ == seq![dec_digit_char(d as int)],
{
    proof {
        reveal_strlit("0");
        reveal_strlit("1");
        reveal_strlit("2");
        reveal_strlit("3");
        reveal_strlit("4");
        reveal_strlit("5");
        reveal_strlit("6");
        reveal_strlit("7");
        reveal_strlit("8");
        reveal_strlit("9");
    }
    let r = if d == 0 {
        String::from_str("0")
    } else if d == 1 {
        String::from_str("1")
    } else if d == 2 {
        String::from_str("2")
    } else if d == 3 {
        String::from_str("3")
    } else if d == 4 {
        String::from_str("4")
    } else if d == 5 {
        String::from_str("5")
    } else if d == 6 {
        String::from_str("6")
    } else if d == 7 {
        String::from_str("7")
    } else if d == 8 {
        String::from_str("8")
    } else {
        String::from_str("9")
    };
    proof {
        assert(r@ =~= seq![dec_digit_char(d as int)]);
    }
    r
}

/// Render a number in decimal.
pub fn u64_to_string(n: u64) -> (r: String)
    ensures
        r@ == dec_str(n as int),
    decreases n,
{
    if n < 10 {
        digit_str(n)
    } else {
        let mut r = u64_to_string(n / 10);
        let d = digit_str(n % 10);
        r.append(d.as_str());
        proof {
            assert(r@ =~= dec_str(n as int / 10).push(dec_digit_char(n as int % 10)));
        }
        r
    }
}

/// The decimal representation of a number, `-` first when it is negative.
pub open spec fn int_dec_str(i: int) -> Seq<char> {
    if i < 0 {
        seq!['-'] + dec_str(-i)
    } else {
        dec_str(i)
    }
}

/// Render a signed number in decimal.
pub fn i32_to_string(v: i32) -> (r: String)
    ensures
        r@ == int_dec_str(v as int),
{
    if v >= 0 {
        u64_to_string(v as u64)
    } else {
        let mag: u64 = (-(v as i64)) as u64;
        let mut r = String::from_str("-");
        let d = u64_to_string(mag);
        r.append(d.as_str());
        proof {
            reveal_strlit("-");
            assert(r@ =~= seq!['-'] + dec_str(mag as int));
        }
        r
    }
}


/// Character-wise string equality.
pub fn str_eq(a: &str, b: &str) -> (r: bool)
    ensures
        r == (a@ == b@),
{
    let na = a.unicode_len();
    let nb = b.unicode_len();
    if na != nb {
        return false;
    }
    let mut i: usize = 0;
    while i < na
        invariant
            na == a@.len(),
            nb == b@.len(),
            na == nb,
            i <= na,
            forall|j: int| 0 <= j < i ==> a@[j] == b@[j],
        decreases na - i,
    {
        if a.get_char(i) != b.get_char(i) {
            return false;
        }
        i = i + 1;
    }
    proof {
        assert(a@ =~= b@);
    }
    true
}

/// Index of the first occurrence of `c` in `s`, or -1 when it never occurs.
pub open spec fn first_char_index(s: Seq<char>, c: char) -> int
    decreases s.len(),
{
    if s.len() == 0 {
        -1
    } else if s[0] == c {
        0
    } else {
        let r = first_char_index(s.drop_first(), c);
        if r == -1 {
            -1
        } else {
            r + 1
        }
    }
}

pub proof fn lemma_first_char_index_at(s: Seq<char>, c: char, k: int)
    requires
        0 <= k < s.len(),
        s[k] == c,
        forall|j: int| 0 <= j < k ==> s[j] != c,
    ensures
        first_char_index(s, c) == k,
    decreases k,
{
    if k > 0 {
        lemma_first_char_index_at(s.drop_first(), c, k - 1);
    }
}

pub proof fn lemma_first_char_index_none(s: Seq<char>, c: char)
    requires
        forall|j: int| 0 <= j < s.len() ==> s[j] != c,
    ensures
        first_char_index(s, c) == -1,
    decreases s.len(),
{
    if s.len() > 0 {
        lemma_first_char_index_none(s.drop_first(), c);
    }
}

/// A found index lies in range and carries the character.
pub proof fn lemma_first_char_index_props(s: Seq<char>, c: char)
    requires
        first_char_index(s, c) >= 0,
    ensures
        first_char_index(s, c) < s.len(),
        s[first_char_index(s, c)] == c,
        forall|j: int| 0 <= j < first_char_index(s, c) ==> s[j] != c,
    decreases s.len(),
{
    if s.len() > 0 && s[0] != c {
        lemma_first_char_index_props(s.drop_first(), c);
        assert forall|j: int| 0 <= j < first_char_index(s, c) implies s[j] != c by {
            if j > 0 {
                assert(s.drop_first()[j - 1] != c);
            }
        }
    }
}

/// A found pair index lies in range and carries the pattern.
pub proof fn lemma_first_pair_index_props(s: Seq<char>, a: char, b: char)
    requires
        first_pair_index(s, a, b) >= 0,
    ensures
        first_pair_index(s, a, b) + 1 < s.len(),
        s[first_pair_index(s, a, b)] == a,
        s[first_pair_index(s, a, b) + 1] == b,
    decreases s.len(),
{
    if s.len() >= 2 && !(s[0] == a && s[1] == b) {
        lemma_first_pair_index_props(s.drop_first(), a, b);
    }
}

/// Position of the first occurrence of `c`.
pub fn find_char(s: &str, c: char) -> (r: Option<usize>)
    ensures
        match r {
            Some(i) => first_char_index(s@, c) == i as int,
            None => first_char_index(s@, c) == -1,
        },
{
    let n = s.unicode_len();
    let mut i: usize = 0;
    while i < n
        invariant
            n == s@.len(),
            i <= n,
            forall|j: int| 0 <= j < i ==> s@[j] != c,
        decreases n - i,
    {
        if s.get_char(i) == c {
            proof {
                lemma_first_char_index_at(s@, c, i as int);
            }
            return Some(i);
        }
        i = i + 1;
    }
    proof {
        lemma_first_char_index_none(s@, c);
    }
    None
}

} // verus!
