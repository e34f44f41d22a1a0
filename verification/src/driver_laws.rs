//! What is looked for, and what versions and settings mean.
use vstd::prelude::*;
use crate::driver::TargetOs;
use crate::driver;
use crate::text;

verus! {

/// A version number holds the major version in its thousands, the minor version in the
/// tens below, and a patch that is not shown.
pub proof fn lemma_version_words(major: u32, minor: u32, patch: u32, v: u32)
    requires
        minor < 100,
        patch < 10,
        v == major * 1000 + minor * 10 + patch,
    ensures
        driver::version_words(v) == text::decimal_text(major as int) + seq!['.']
            + text::decimal_text(minor as int),
{
    reveal_strlit(".");
    assert("."@ =~= seq!['.']);
    assert(v / 1000 == major && (v % 1000) / 10 == minor);
}

/// A path on Linux is looked for with a version before it is looked for without one,
/// and by its name before it is looked for in a directory.
pub proof fn lemma_candidates()
    ensures
        driver::driver_names(TargetOs::Linux) == seq![
            "libcuda.so.1"@,
            "/usr/lib/wsl/lib/libcuda.so.1"@,
            "libcuda.so"@,
            "/usr/lib/wsl/lib/libcuda.so"@,
            "/usr/lib/x86_64-linux-gnu/libcuda.so.1"@,
        ],
        driver::driver_names(TargetOs::MacOs) == seq!["libcuda.dylib"@],
        driver::driver_names(TargetOs::Windows) == seq!["nvcuda.dll"@],
        driver::driver_names(TargetOs::Other) == seq!["libcuda.so"@],
        driver::curand_names(TargetOs::Linux) == seq!["libcurand.so.10"@, "libcurand.so"@],
        driver::curand_names(TargetOs::MacOs) == seq!["libcurand.dylib"@],
        driver::curand_names(TargetOs::Windows) == seq!["curand64_10.dll"@],
        driver::curand_names(TargetOs::Other) == seq!["libcurand.so"@],
{
}

/// All characters of a range are white space.
pub open spec fn blank(s: Seq<char>, from: int, to: int) -> bool {
    forall|i: int| from <= i < to ==> text::is_space(#[trigger] s[i])
}

/// A range is a word: not empty, without white space, and as long as it can be.
pub open spec fn word(s: Seq<char>, from: int, to: int, end: int) -> bool {
    &&& from < to <= end
    &&& forall|i: int| from <= i < to ==> !text::is_space(#[trigger] s[i])
    &&& to < end ==> text::is_space(s[to])
}

proof fn lemma_word_start(s: Seq<char>, from: int, k: int, to: int)
    requires
        0 <= from <= k <= to <= s.len(),
        blank(s, from, k),
        k < to ==> !text::is_space(s[k]),
    ensures
        driver::word_start(s, from, to) == k,
    decreases k - from,
{
    if from < k {
        lemma_word_start(s, from + 1, k, to);
    }
}

proof fn lemma_word_end(s: Seq<char>, from: int, k: int, to: int)
    requires
        0 <= from <= k <= to <= s.len(),
        forall|i: int| from <= i < k ==> !text::is_space(#[trigger] s[i]),
        k < to ==> text::is_space(s[k]),
    ensures
        driver::word_end(s, from, to) == k,
    decreases k - from,
{
    if from < k {
        lemma_word_end(s, from + 1, k, to);
    }
}

/// A line whose first three words are `#define`, `CUDA_VERSION` and a number defines
/// that number, with any white space before and between them and anything behind; with
/// other first words it defines nothing.
pub proof fn lemma_line(
    s: Seq<char>,
    from: int,
    a: int,
    b: int,
    c: int,
    d: int,
    e: int,
    f: int,
    to: int,
)
    requires
        0 <= from <= a <= b <= c <= d <= e <= f <= to <= s.len(),
        blank(s, from, a) && word(s, a, b, to),
        blank(s, b, c) && word(s, c, d, to),
        blank(s, d, e) && word(s, e, f, to),
    ensures
        driver::version_in_line(s, from, to) == (if s.subrange(a, b) == "#define"@ && s.subrange(
            c,
            d,
        ) == "CUDA_VERSION"@ {
            text::unsigned_below(s.subrange(e, f), 0x1_0000_0000)
        } else {
            None
        }),
{
    lemma_word_start(s, from, a, to);
    lemma_word_end(s, a, b, to);
    lemma_word_start(s, b, c, to);
    lemma_word_end(s, c, d, to);
    lemma_word_start(s, d, e, to);
    lemma_word_end(s, e, f, to);
}

/// A line with fewer words defines nothing.
pub proof fn lemma_short_line(
    s: Seq<char>,
    from: int,
    a: int,
    b: int,
    c: int,
    d: int,
    to: int,
)
    requires
        0 <= from <= a <= b <= c <= d <= to <= s.len(),
        blank(s, from, a) && word(s, a, b, to),
        blank(s, b, c) && word(s, c, d, to),
        blank(s, d, to),
    ensures
        driver::version_in_line(s, from, to) is None,
{
    lemma_word_start(s, from, a, to);
    lemma_word_end(s, a, b, to);
    lemma_word_start(s, b, c, to);
    lemma_word_end(s, c, d, to);
    lemma_word_start(s, d, to, to);
}

proof fn lemma_line_end(s: Seq<char>, from: int, k: int)
    requires
        0 <= from <= k <= s.len(),
        forall|i: int| from <= i < k ==> (#[trigger] s[i]) != '\n',
        k < s.len() ==> s[k] == '\n',
    ensures
        driver::line_end(s, from) == k,
    decreases k - from,
{
    if from < k {
        lemma_line_end(s, from + 1, k);
    }
}

/// The first line that defines a version decides; a text without such a line has none.
pub proof fn lemma_first_line(s: Seq<char>, from: int, k: int)
    requires
        0 <= from <= k <= s.len(),
        from < s.len(),
        forall|i: int| from <= i < k ==> (#[trigger] s[i]) != '\n',
        k < s.len() ==> s[k] == '\n',
    ensures
        driver::version_in_line(s, from, k) matches Some(v) ==> driver::version_from(s, from)
            == Some(v),
        driver::version_in_line(s, from, k) is None && k < s.len() ==> driver::version_from(s, from)
            == driver::version_from(s, k + 1),
        driver::version_in_line(s, from, k) is None && k == s.len() ==> driver::version_from(
            s,
            from,
        ) is None,
{
    lemma_line_end(s, from, k);
}

/// A setting decides over the profile, and only known words mean anything.
pub proof fn lemma_build_debug(setting: Option<Seq<char>>, profile: Option<Seq<char>>)
    ensures
        ({
            let r = driver::build_debug(setting, profile);
            &&& setting is Some && r is Some ==> r == setting
            &&& setting is Some ==> (r is Some <==> (setting == Some("none"@) || setting == Some(
                "line"@,
            ) || setting == Some("full"@)))
            &&& setting is None ==> (r == Some("full"@) <==> profile == Some("true"@))
            &&& setting is None ==> (r == Some("none"@) <==> profile == Some("false"@))
            &&& setting is None ==> (r is None || r == Some("full"@) || r == Some("none"@))
        }),
{
    reveal_strlit("none");
    reveal_strlit("line");
    reveal_strlit("full");
    reveal_strlit("true");
    reveal_strlit("false");
    assert("none"@[0] == 'n');
    assert("full"@[0] == 'f');
    assert("true"@.len() == 4);
    assert("false"@.len() == 5);
}

} // verus!
