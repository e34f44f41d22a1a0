//! What holds of texts that are taken apart and put together.
use vstd::prelude::*;
use crate::text;

verus! {

/// Directory and base name make up a path again: the base name holds no slash, and the
/// directory stands in front of the last one.
pub proof fn lemma_path(s: Seq<char>)
    ensures
        !text::path_base(s).contains('/'),
        s.contains('/') ==> s == text::path_directory(s) + seq!['/'] + text::path_base(s),
        !s.contains('/') ==> text::path_base(s) == s && text::path_directory(s) == Seq::<char>::empty(),
{
    let n = s.len() as int;
    let i = text::last_position(s, '/', n);
    lemma_last(s, '/', n);
    let b = text::path_base(s);
    if b.contains('/') {
        let k = choose|k: int| 0 <= k < b.len() && b[k] == '/';
        assert(s[i + 1 + k] == '/');
    }
    if s.contains('/') {
        let k = choose|k: int| 0 <= k < s.len() && s[k] == '/';
        assert(i >= 0);
        assert(s =~= text::path_directory(s) + seq!['/'] + b);
    } else {
        if i >= 0 {
            assert(s[i] == '/');
        }
        assert(b =~= s);
    }
}

proof fn lemma_last(s: Seq<char>, c: char, n: int)
    requires
        0 <= n <= s.len(),
    ensures
        -1 <= text::last_position(s, c, n) < n,
        text::last_position(s, c, n) >= 0 ==> s[text::last_position(s, c, n)] == c,
        forall|j: int| text::last_position(s, c, n) < j < n ==> #[trigger] s[j] != c,
    decreases n,
{
    if n > 0 {
        lemma_last(s, c, n - 1);
    }
}

/// The digits of a number write the number, without a leading zero but in zero itself,
/// and another digit at the end adds to ten times the number.
pub proof fn lemma_digits(n: int, s: Seq<char>, c: char)
    requires
        n >= 0,
    ensures
        text::decimal_value(text::decimal_text(n)) == n,
        text::all_digits(text::decimal_text(n)),
        n > 0 ==> text::decimal_text(n)[0] != '0',
        n < 10 ==> text::decimal_text(n).len() == 1,
        text::decimal_value(Seq::empty()) == 0,
        text::decimal_value(s.push(c)) == 10 * text::decimal_value(s) + (c as int - 48),
        text::is_digit(c) <==> 48 <= c as int <= 57,
{
    text::lemma_decimal_text(n);
    assert(s.push(c).drop_last() =~= s);
    lemma_no_leading_zero(n);
}

proof fn lemma_no_leading_zero(n: int)
    requires
        n >= 0,
    ensures
        text::decimal_text(n).len() > 0,
        n > 0 ==> text::decimal_text(n)[0] != '0',
        n < 10 ==> text::decimal_text(n).len() == 1,
    decreases n,
{
    if n >= 10 {
        lemma_no_leading_zero(n / 10);
        assert(text::decimal_text(n)[0] == text::decimal_text(n / 10)[0]);
    } else {
        assert(text::decimal_text(n).len() == 1);
    }
}

/// A decimal number below a limit is read as what its digits write; nothing else is read.
pub proof fn lemma_decimal(s: Seq<char>, limit: int)
    ensures
        match text::decimal_below(s, limit) {
            Some(v) => s.len() > 0 && text::all_digits(s) && v == text::decimal_value(s) && v < limit,
            None => s.len() == 0 || !text::all_digits(s) || text::decimal_value(s) >= limit,
        },
        s.len() > 0 && s[0] == '+' ==> text::unsigned_below(s, limit) == text::decimal_below(
            s.skip(1),
            limit,
        ),
        !(s.len() > 0 && s[0] == '+') ==> text::unsigned_below(s, limit) == text::decimal_below(
            s,
            limit,
        ),
{
}

/// A text is split at each separator from the left: the parts with the separators between
/// them are the text.
pub proof fn lemma_split(s: Seq<char>, sep: Seq<char>, from: int)
    requires
        0 <= from <= s.len(),
        sep.len() > 0,
    ensures
        rejoined(text::split_parts(s, sep, from), sep) == s.skip(from),
        text::split_parts(s, sep, from).len() > 0,
    decreases s.len() - from,
{
    let e = text::next_place(s, sep, from);
    lemma_next(s, sep, from);
    let parts = text::split_parts(s, sep, from);
    if e >= s.len() || e + sep.len() > s.len() {
        assert(parts =~= seq![s.subrange(from, s.len() as int)]);
        assert(parts[0] =~= s.skip(from));
    } else {
        lemma_split(s, sep, e + sep.len());
        let rest = text::split_parts(s, sep, e + sep.len());
        assert(parts.drop_first() =~= rest);
        assert(parts[0] =~= s.subrange(from, e));
        assert(s.subrange(e, e + sep.len()) == sep);
        assert(s.skip(from) =~= s.subrange(from, e) + s.subrange(e, e + sep.len()) + s.skip(
            e + sep.len(),
        ));
    }
}

/// Parts with a separator between them.
pub open spec fn rejoined(parts: Seq<Seq<char>>, sep: Seq<char>) -> Seq<char>
    decreases parts.len(),
{
    if parts.len() == 0 {
        Seq::empty()
    } else if parts.len() == 1 {
        parts[0]
    } else {
        parts[0] + sep + rejoined(parts.drop_first(), sep)
    }
}

proof fn lemma_next(s: Seq<char>, p: Seq<char>, from: int)
    requires
        0 <= from <= s.len(),
    ensures
        from <= text::next_place(s, p, from) <= s.len(),
        text::next_place(s, p, from) < s.len() ==> text::stands_at(
            s,
            p,
            text::next_place(s, p, from),
        ),
        forall|j: int|
            from <= j < text::next_place(s, p, from) ==> !#[trigger] text::stands_at(s, p, j),
    decreases s.len() - from,
{
    if from < s.len() && !text::stands_at(s, p, from) {
        lemma_next(s, p, from + 1);
    }
}

} // verus!
