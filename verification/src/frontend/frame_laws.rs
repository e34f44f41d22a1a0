//! Where operations of inlined functions are placed.
use vstd::prelude::*;
use crate::frontend::frames::{FrameV, SourceV};
use crate::frontend::frames;
use crate::ir::location::{LocationV, ScopeV, SubprogramV};
use crate::text;

verus! {

/// The place of a location is its own file, line and column; of a call, that of the
/// callee.
pub proof fn lemma_place(f: Seq<char>, line: u32, col: u32, s: ScopeV, a: LocationV, b: LocationV)
    ensures
        frames::place_of(LocationV::Unknown) == SourceV::Unknown,
        frames::place_of(LocationV::FileLineCol(f, line, col)) == SourceV::At(f, line, col),
        frames::place_of(LocationV::DebugInfo(f, line, col, s)) == SourceV::At(f, line, col),
        frames::place_of(LocationV::CallSite(Box::new(a), Box::new(b))) == frames::place_of(a),
{
}

/// Outside any expansion an operation is placed where its source is, without a scope.
/// Under an expansion that belongs to its call, it is placed at the call. Under any
/// other, it is placed where its source is, in the scope of the function that is
/// expanded, and chained to the call; where its source is not known, nowhere.
pub proof fn lemma_placed(f: Seq<char>, line: u32, col: u32, caller: LocationV, sp: SubprogramV, s: SourceV)
    ensures
        frames::placed(None, SourceV::At(f, line, col)) == LocationV::FileLineCol(f, line, col),
        frames::placed(None, SourceV::Unknown) == LocationV::Unknown,
        frames::place_of(frames::placed(None, s)) == s,
        frames::placed(Some(FrameV::Opaque(caller)), s) == caller,
        frames::placed(Some(FrameV::Transparent(caller, None)), SourceV::Unknown)
            == LocationV::Unknown,
        frames::placed(Some(FrameV::Transparent(caller, None)), SourceV::At(f, line, col))
            == LocationV::CallSite(
            Box::new(LocationV::FileLineCol(f, line, col)),
            Box::new(caller),
        ),
        frames::placed(Some(FrameV::Transparent(caller, Some(sp))), SourceV::At(f, line, col))
            == LocationV::CallSite(
            Box::new(LocationV::DebugInfo(f, line, col, ScopeV::Subprogram(sp))),
            Box::new(caller),
        ),
{
}

/// An inlined function belongs to its own file, at its own line, and to the unit of the
/// kernel's file. Its symbol is its name and where it is defined.
pub proof fn lemma_subprogram(name: Seq<char>, file: Seq<char>, line: u32, col: u32, root: Seq<char>)
    ensures
        frames::subprogram_of(name, SourceV::Unknown, root) is None,
        frames::subprogram_of(name, SourceV::At(file, line, col), root) matches Some(s) && {
            &&& s.name == name
            &&& s.line == line
            &&& s.scope_line == line
            &&& s.file.name == text::path_base(file)
            &&& s.file.directory == text::path_directory(file)
            &&& s.compile_unit.name == text::path_base(root)
            &&& s.compile_unit.directory == text::path_directory(root)
            &&& s.linkage_name == name + seq!['@'] + frames::stem(text::path_base(file)) + seq![':']
                + text::decimal_text(line as int) + seq![':'] + text::decimal_text(col as int)
        },
{
    reveal_strlit("@");
    reveal_strlit(":");
    assert("@"@ =~= seq!['@']);
    assert(":"@ =~= seq![':']);
}

/// What stands in front of the first dot of a file's name.
pub proof fn lemma_stem(base: Seq<char>)
    ensures
        !frames::stem(base).contains('.'),
        text::has_prefix(base, frames::stem(base)),
        base.contains('.') ==> base[frames::stem(base).len() as int] == '.',
        !base.contains('.') ==> frames::stem(base) == base,
{
    lemma_dot(base, 0);
    let n = frames::first_dot(base, 0);
    let t = frames::stem(base);
    assert(base.take(t.len() as int) =~= t);
    if t.contains('.') {
        let k = choose|k: int| 0 <= k < t.len() && t[k] == '.';
        assert(base[k] == '.');
    }
    if base.contains('.') {
        let k = choose|k: int| 0 <= k < base.len() && base[k] == '.';
        assert(n <= k);
    } else {
        if n < base.len() {
            assert(base[n] == '.');
        }
        assert(t =~= base);
    }
}

proof fn lemma_dot(s: Seq<char>, from: int)
    requires
        0 <= from <= s.len(),
    ensures
        from <= frames::first_dot(s, from) <= s.len(),
        frames::first_dot(s, from) < s.len() ==> s[frames::first_dot(s, from)] == '.',
        forall|j: int| from <= j < frames::first_dot(s, from) ==> #[trigger] s[j] != '.',
    decreases s.len() - from,
{
    if from < s.len() && s[from] != '.' {
        lemma_dot(s, from + 1);
    }
}

} // verus!
