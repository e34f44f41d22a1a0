//! Small text helpers.
use vstd::prelude::*;
use vstd::string::{StrSliceExecFns, StringExecFns};

verus! {

/// Whether two texts are the same.
pub fn same_text(a: &str, b: &str) -> (r: bool)
    ensures
        r == (a@ == b@),
{
    let x: String = a.to_owned();
    let y: String = b.to_owned();
    x == y
}

/// Whether `prefix` is how `s` begins.
pub open spec fn has_prefix(s: Seq<char>, prefix: Seq<char>) -> bool {
    prefix.len() <= s.len() && s.take(prefix.len() as int) == prefix
}

/// Whether `s` begins with `prefix`.
pub fn begins_with(s: &str, prefix: &str) -> (r: bool)
    ensures
        r == has_prefix(s@, prefix@),
{
    let n: usize = prefix.unicode_len();
    if n > s.unicode_len() {
        return false;
    }
    let head: &str = s.substring_char(0, n);
    assert(head@ =~= s@.take(prefix@.len() as int));
    same_text(head, prefix)
}

/// Whether `c` is a decimal digit.
pub open spec fn is_digit(c: char) -> bool {
    '0' <= c <= '9'
}

/// Whether every character is a decimal digit.
pub open spec fn all_digits(s: Seq<char>) -> bool {
    forall|i: int| 0 <= i < s.len() ==> is_digit(#[trigger] s[i])
}

/// The number written by the decimal digits `s`.
pub open spec fn decimal_value(s: Seq<char>) -> int
    decreases s.len(),
{
    if s.len() == 0 {
        0
    } else {
        10 * decimal_value(s.drop_last()) + (s.last() as int - '0' as int)
    }
}

/// The number written by `s` where `s` is a decimal number below `limit`.
pub open spec fn decimal_below(s: Seq<char>, limit: int) -> Option<int> {
    if s.len() > 0 && all_digits(s) && decimal_value(s) < limit {
        Some(decimal_value(s))
    } else {
        None
    }
}

proof fn lemma_decimal_prefix(s: Seq<char>, k: int)
    requires
        0 <= k <= s.len(),
        all_digits(s),
    ensures
        0 <= decimal_value(s.take(k)) <= decimal_value(s),
    decreases s.len() - k, k,
{
    if k < s.len() {
        lemma_decimal_prefix(s, k + 1);
        let t = s.take(k + 1);
        assert(t.drop_last() =~= s.take(k));
        assert(is_digit(s[k]));
        lemma_decimal_nonneg(s.take(k));
    } else {
        assert(s.take(k) =~= s);
        lemma_decimal_nonneg(s);
    }
}

/// Digits write no negative number.
pub proof fn lemma_decimal_nonneg(s: Seq<char>)
    requires
        all_digits(s),
    ensures
        decimal_value(s) >= 0,
    decreases s.len(),
{
    if s.len() > 0 {
        assert(all_digits(s.drop_last())) by {
            assert forall|i: int| 0 <= i < s.drop_last().len() implies is_digit(
                #[trigger] s.drop_last()[i],
            ) by {
                assert(is_digit(s[i]));
            }
        }
        assert(is_digit(s[s.len() - 1]));
        lemma_decimal_nonneg(s.drop_last());
    }
}

/// The number written by the characters of `s` from `start` on, where they are
/// a decimal number below `limit`.
fn digits_from(s: &str, start: usize, limit: u128) -> (r: Option<u64>)
    requires
        start <= s@.len(),
        limit <= 0x1_0000_0000_0000_0000,
    ensures
        match decimal_below(s@.skip(start as int), limit as int) {
            Some(v) => r is Some && r->Some_0 == v,
            None => r is None,
        },
{
    let n: usize = s.unicode_len();
    let ghost d = s@.skip(start as int);
    if start == n {
        return None;
    }
    let mut i: usize = start;
    let mut v: u128 = 0;
    assert(d.take(0) =~= Seq::<char>::empty());
    while i < n
        invariant
            start <= i <= n,
            n == s@.len(),
            d == s@.skip(start as int),
            limit <= 0x1_0000_0000_0000_0000,
            forall|j: int| 0 <= j < i - start ==> is_digit(#[trigger] d[j]),
            v == decimal_value(d.take(i - start)),
            v < limit || i == start,
            v < 0x1_0000_0000_0000_0000,
        decreases n - i,
    {
        let c: char = s.get_char(i);
        if c < '0' || c > '9' {
            assert(!is_digit(d[i - start]));
            return None;
        }
        let digit: u32 = c as u32 - '0' as u32;
        proof {
            let t = d.take(i - start + 1);
            assert(t.drop_last() =~= d.take(i - start));
        }
        v = v * 10 + digit as u128;
        i = i + 1;
        if v >= limit {
            proof {
                if all_digits(d) {
                    lemma_decimal_prefix(d, i - start);
                }
            }
            return None;
        }
    }
    assert(d.take(i - start) =~= d);
    Some(v as u64)
}

/// The number written by `s` where `s` is a decimal number below `limit`.
pub fn parse_decimal(s: &str, limit: u64) -> (r: Option<u64>)
    ensures
        match decimal_below(s@, limit as int) {
            Some(v) => r is Some && r->Some_0 == v,
            None => r is None,
        },
{
    assert(s@.skip(0) =~= s@);
    digits_from(s, 0, limit as u128)
}

/// The number that `s` stands for: decimal digits, perhaps after a plus sign,
/// for a number below `limit`.
pub open spec fn unsigned_below(s: Seq<char>, limit: int) -> Option<int> {
    if s.len() > 0 && s[0] == '+' {
        decimal_below(s.skip(1), limit)
    } else {
        decimal_below(s, limit)
    }
}

/// The number that `s` stands for, where it has at most 64 bits.
pub fn parse_unsigned(s: &str) -> (r: Option<u64>)
    ensures
        match unsigned_below(s@, 0x1_0000_0000_0000_0000) {
            Some(v) => r is Some && r->Some_0 == v,
            None => r is None,
        },
{
    if s.unicode_len() > 0 && s.get_char(0) == '+' {
        digits_from(s, 1, 0x1_0000_0000_0000_0000)
    } else {
        assert(s@.skip(0) =~= s@);
        digits_from(s, 0, 0x1_0000_0000_0000_0000)
    }
}

/// `a` followed by `b`.
pub fn joined(a: &str, b: &str) -> (r: String)
    ensures
        r@ == a@ + b@,
{
    let mut r: String = a.to_owned();
    r.append(b);
    r
}

/// The position of the last `c` among the first `n` characters, or `-1`.
pub open spec fn last_position(s: Seq<char>, c: char, n: int) -> int
    decreases n,
{
    if n <= 0 {
        -1
    } else if s[n - 1] == c {
        n - 1
    } else {
        last_position(s, c, n - 1)
    }
}

proof fn lemma_last_position(s: Seq<char>, c: char, n: int)
    requires
        0 <= n <= s.len(),
    ensures
        -1 <= last_position(s, c, n) < n,
    decreases n,
{
    if n > 0 {
        lemma_last_position(s, c, n - 1);
    }
}

/// The text in front of the last slash, none if there is no slash.
pub open spec fn path_directory(s: Seq<char>) -> Seq<char> {
    let i = last_position(s, '/', s.len() as int);
    if i < 0 {
        Seq::empty()
    } else {
        s.take(i)
    }
}

/// The text behind the last slash, everything if there is no slash.
pub open spec fn path_base(s: Seq<char>) -> Seq<char> {
    s.skip(last_position(s, '/', s.len() as int) + 1)
}

/// Split a path into directory and base name.
pub fn split_file_path(path: &str) -> (r: (&str, &str))
    ensures
        r.0@ == path_directory(path@),
        r.1@ == path_base(path@),
{
    let n: usize = path.unicode_len();
    let mut i: usize = n;
    while i > 0
        invariant
            n == path@.len(),
            i <= n,
            last_position(path@, '/', n as int) == last_position(path@, '/', i as int),
        decreases i,
    {
        if path.get_char(i - 1) == '/' {
            let dir: &str = path.substring_char(0, i - 1);
            let base: &str = path.substring_char(i, n);
            assert(dir@ =~= path_directory(path@));
            assert(base@ =~= path_base(path@));
            return (dir, base);
        }
        i = i - 1;
    }
    let dir: &str = path.substring_char(0, 0);
    assert(dir@ =~= Seq::<char>::empty());
    assert(path_base(path@) =~= path@);
    (dir, path)
}

/// The decimal digit for a number below ten.
pub open spec fn digit_char(d: int) -> char {
    ('0' as int + d) as char
}

/// The decimal digits of a number.
pub open spec fn decimal_text(n: int) -> Seq<char>
    decreases n,
{
    if n < 10 {
        seq![digit_char(n)]
    } else {
        decimal_text(n / 10).push(digit_char(n % 10))
    }
}

fn digit_text(d: u64) -> (r: &'static str)
    requires
        d < 10,
    ensures
        r@ == seq![digit_char(d as int)],
{
    proof {
        reveal_strlit("0");
        reveal_strlit("1");
        reveal_strlit("2");
        reveal_strlit("3");
        reveal_strlit("4");
        reveal_strlit("5");
        reveal_strlit("6");
        reveal_strlit("7");
        reveal_strlit("8");
        reveal_strlit("9");
    }
    let r: &'static str = if d == 0 {
        "0"
    } else if d == 1 {
        "1"
    } else if d == 2 {
        "2"
    } else if d == 3 {
        "3"
    } else if d == 4 {
        "4"
    } else if d == 5 {
        "5"
    } else if d == 6 {
        "6"
    } else if d == 7 {
        "7"
    } else if d == 8 {
        "8"
    } else {
        "9"
    };
    assert(r@ =~= seq![digit_char(d as int)]);
    r
}

/// The decimal digits of a number.
pub fn number_text(n: u64) -> (r: String)
    ensures
        r@ == decimal_text(n as int),
    decreases n,
{
    if n < 10 {
        digit_text(n).to_owned()
    } else {
        let mut s = number_text(n / 10);
        s.append(digit_text(n % 10));
        assert(s@ =~= decimal_text(n as int));
        s
    }
}

/// The digits of a number are digits, and stand for it.
pub proof fn lemma_decimal_text(n: int)
    requires
        n >= 0,
    ensures
        decimal_text(n).len() > 0,
        all_digits(decimal_text(n)),
        decimal_value(decimal_text(n)) == n,
    decreases n,
{
    let s = decimal_text(n);
    if n < 10 {
        assert(s.drop_last() =~= Seq::<char>::empty());
        assert(decimal_value(s.drop_last()) == 0);
        assert(s.last() == digit_char(n));
    } else {
        lemma_decimal_text(n / 10);
        let t = decimal_text(n / 10);
        assert(s.drop_last() =~= t);
        assert forall|i: int| 0 <= i < s.len() implies is_digit(#[trigger] s[i]) by {
            if i < t.len() {
                assert(is_digit(t[i]));
            }
        }
    }
}

/// Reading a number's digits gives the number back.
pub proof fn lemma_number_reads(n: int, limit: int)
    requires
        0 <= n < limit,
    ensures
        unsigned_below(decimal_text(n), limit) == Some(n),
{
    lemma_decimal_text(n);
    assert(is_digit(decimal_text(n)[0]));
}

/// The characters of a text.
pub fn chars_of(s: &str) -> (r: Vec<char>)
    ensures
        r@ == s@,
{
    let mut out: Vec<char> = Vec::new();
    for c in it: s.chars()
        invariant
            it.seq() == s@,
            out@ == s@.take(it.index() as int),
    {
        out.push(c);
        assert(out@ =~= s@.take(it.index() + 1));
    }
    assert(s@.take(s@.len() as int) =~= s@);
    out
}

/// Whether a character is white space.
pub open spec fn is_space(c: char) -> bool {
    ||| '\t' <= c <= '\r'
    ||| c == ' '
    ||| c == '\u{85}'
    ||| c == '\u{a0}'
    ||| c == '\u{1680}'
    ||| '\u{2000}' <= c <= '\u{200a}'
    ||| c == '\u{2028}'
    ||| c == '\u{2029}'
    ||| c == '\u{202f}'
    ||| c == '\u{205f}'
    ||| c == '\u{3000}'
}

/// Whether a character is white space.
pub fn space(c: char) -> (r: bool)
    ensures
        r == is_space(c),
{
    ('\t' <= c && c <= '\r') || c == ' ' || c == '\u{85}' || c == '\u{a0}' || c == '\u{1680}'
        || ('\u{2000}' <= c && c <= '\u{200a}') || c == '\u{2028}' || c == '\u{2029}'
        || c == '\u{202f}' || c == '\u{205f}' || c == '\u{3000}'
}

/// A text in quotation marks, with escapes where they are needed.
pub uninterp spec fn quoted(s: Seq<char>) -> Seq<char>;

/// The `Debug` form of a `str`. Its result is a function of the text alone;
/// which characters it escapes, and how, is not said here.
#[verifier::external_body]
pub(crate) fn quoted_text(s: &str) -> (r: String)
    ensures
        r@ == quoted(s@),
{
    format!("{s:?}")
}

/// Whether `p` stands in `s` at position `i`.
pub open spec fn stands_at(s: Seq<char>, p: Seq<char>, i: int) -> bool {
    0 <= i && i + p.len() <= s.len() && s.subrange(i, i + p.len()) == p
}

/// The first place from `from` on where `p` stands in `s`, or the end.
pub open spec fn next_place(s: Seq<char>, p: Seq<char>, from: int) -> int
    decreases s.len() - from,
{
    if from >= s.len() {
        s.len() as int
    } else if stands_at(s, p, from) {
        from
    } else {
        next_place(s, p, from + 1)
    }
}

/// The first place from `from` on where `p` stands in `s`, or the end.
pub fn find_place(s: &str, p: &str, from: usize) -> (r: usize)
    requires
        from <= s@.len(),
    ensures
        r == next_place(s@, p@, from as int),
        from <= r <= s@.len(),
{
    let n: usize = s.unicode_len();
    let k: usize = p.unicode_len();
    let mut i: usize = from;
    while i < n
        invariant
            n == s@.len(),
            k == p@.len(),
            from <= i <= n,
            next_place(s@, p@, from as int) == next_place(s@, p@, i as int),
        decreases n - i,
    {
        if k <= n - i {
            let t: &str = s.substring_char(i, i + k);
            if same_text(t, p) {
                return i;
            }
        }
        i = i + 1;
    }
    i
}

/// The parts of `s` from `from` on, between the places where `sep` stands.
pub open spec fn split_parts(s: Seq<char>, sep: Seq<char>, from: int) -> Seq<Seq<char>>
    decreases s.len() - from,
{
    let e = next_place(s, sep, from);
    if from < 0 || sep.len() == 0 || e < from || e >= s.len() || e + sep.len() > s.len() {
        seq![s.subrange(from, s.len() as int)]
    } else {
        seq![s.subrange(from, e)] + split_parts(s, sep, e + sep.len())
    }
}

/// The texts of some string slices.
pub open spec fn slice_texts(v: Seq<&str>) -> Seq<Seq<char>> {
    Seq::new(v.len(), |i: int| v[i]@)
}

/// Split `s` at each place where `sep` stands.
pub fn split_at_each<'a>(s: &'a str, sep: &str) -> (r: Vec<&'a str>)
    requires
        sep@.len() > 0,
    ensures
        slice_texts(r@) == split_parts(s@, sep@, 0),
{
    let n: usize = s.unicode_len();
    let k: usize = sep.unicode_len();
    let mut out: Vec<&'a str> = Vec::new();
    let mut from: usize = 0;
    assert(slice_texts(out@) + split_parts(s@, sep@, 0) =~= split_parts(s@, sep@, 0));
    loop
        invariant
            n == s@.len(),
            k == sep@.len(),
            k > 0,
            from <= n,
            slice_texts(out@) + split_parts(s@, sep@, from as int) == split_parts(s@, sep@, 0),
        decreases n - from,
    {
        let ghost before = out@;
        let e: usize = find_place(s, sep, from);
        if e >= n {
            let t: &'a str = s.substring_char(from, n);
            out.push(t);
            assert(slice_texts(out@) =~= slice_texts(before) + seq![t@]);
            return out;
        }
        proof {
            lemma_place(s@, sep@, from as int);
        }
        let t: &'a str = s.substring_char(from, e);
        out.push(t);
        proof {
            assert(slice_texts(out@) =~= slice_texts(before) + seq![t@]);
            let rest = split_parts(s@, sep@, e + k);
            assert(split_parts(s@, sep@, from as int) == seq![t@] + rest);
            assert(slice_texts(out@) + rest =~= slice_texts(before) + (seq![t@] + rest));
        }
        from = e + k;
    }
}

proof fn lemma_place(s: Seq<char>, p: Seq<char>, from: int)
    requires
        0 <= from,
        next_place(s, p, from) < s.len(),
    ensures
        stands_at(s, p, next_place(s, p, from)),
    decreases s.len() - from,
{
    if from < s.len() && !stands_at(s, p, from) {
        lemma_place(s, p, from + 1);
    }
}

} // verus!
