//! Attributes of kernels and their arguments.
use vstd::prelude::*;
use crate::frontend::syntax::{Expr, Lit, Meta, Path, Segment};
use crate::text::{parse_decimal, same_text, split_at_each};
use crate::text;

verus! {

/// The text of a segment: its name, and its arguments where it has some.
pub open spec fn segment_text(s: Segment) -> Seq<char> {
    if s.words@.len() == 0 {
        s.ident@
    } else {
        s.ident@ + " "@ + s.words@
    }
}

/// The text of the segments from `from` up to `to`, with separators between them.
pub open spec fn segments_text(s: Seq<Segment>, from: int, to: int) -> Seq<char>
    decreases to - from,
{
    if to <= from {
        Seq::empty()
    } else if to == from + 1 {
        segment_text(s[from])
    } else {
        segments_text(s, from, to - 1) + " :: "@ + segment_text(s[to - 1])
    }
}

/// The separator that a path starts with, if it does.
pub open spec fn lead(p: Path) -> Seq<char> {
    if p.leading {
        ":: "@
    } else {
        Seq::empty()
    }
}

/// The text of a path: the type that it starts from, if there is one, and its
/// segments, with separators between them.
pub open spec fn path_text(p: Path) -> Seq<char> {
    let n = p.segments@.len() as int;
    match p.qself {
        None => lead(p) + segments_text(p.segments@, 0, n),
        Some(q) => if q.position == 0 {
            "< "@ + q.ty@ + " > "@ + lead(p) + segments_text(p.segments@, 0, n)
        } else {
            let k = if q.position < n {
                q.position as int
            } else {
                n
            };
            "< "@ + q.ty@ + " as "@ + lead(p) + segments_text(p.segments@, 0, k) + " > :: "@
                + segments_text(p.segments@, k, n)
        },
    }
}

fn segment_string(s: &Segment) -> (r: String)
    ensures
        r@ == segment_text(*s),
{
    let mut out: String = s.ident.clone();
    if s.words.as_str().unicode_len() > 0 {
        out.append(" ");
        out.append(s.words.as_str());
    }
    out
}

fn segments_string(s: &Vec<Segment>, from: usize, to: usize) -> (r: String)
    requires
        from <= to <= s@.len(),
    ensures
        r@ == segments_text(s@, from as int, to as int),
{
    let mut out = String::new();
    let mut i: usize = from;
    assert(out@ =~= segments_text(s@, from as int, from as int));
    while i < to
        invariant
            from <= i <= to,
            to <= s@.len(),
            out@ == segments_text(s@, from as int, i as int),
        decreases to - i,
    {
        if i > from {
            out.append(" :: ");
        }
        out.append(segment_string(&s[i]).as_str());
        assert(out@ =~= segments_text(s@, from as int, i + 1));
        i = i + 1;
    }
    out
}

/// The text of a path.
pub fn path_string(p: &Path) -> (r: String)
    ensures
        r@ == path_text(*p),
{
    let n: usize = p.segments.len();
    let mut out = String::new();
    match &p.qself {
        None => {
            if p.leading {
                out.append(":: ");
            }
            out.append(segments_string(&p.segments, 0, n).as_str());
        },
        Some(q) => {
            out.append("< ");
            out.append(q.ty.as_str());
            if q.position == 0 {
                out.append(" > ");
                if p.leading {
                    out.append(":: ");
                }
                out.append(segments_string(&p.segments, 0, n).as_str());
            } else {
                let k: usize = if q.position < n {
                    q.position
                } else {
                    n
                };
                out.append(" as ");
                if p.leading {
                    out.append(":: ");
                }
                out.append(segments_string(&p.segments, 0, k).as_str());
                out.append(" > :: ");
                out.append(segments_string(&p.segments, k, n).as_str());
            }
        },
    }
    assert(out@ =~= path_text(*p));
    out
}

/// Whether a path is one plain name, and which.
pub open spec fn path_ident(p: Path) -> Option<Seq<char>> {
    if !p.leading && p.segments@.len() == 1 && p.segments@[0].arguments is Absent {
        Some(p.segments@[0].ident@)
    } else {
        None
    }
}

/// Whether a path is the plain name `name`.
pub fn is_ident(p: &Path, name: &str) -> (r: bool)
    ensures
        r == (path_ident(*p) == Some(name@)),
{
    if p.leading || p.segments.len() != 1 {
        return false;
    }
    match &p.segments[0].arguments {
        crate::frontend::syntax::PathArgs::Absent => same_text(p.segments[0].ident.as_str(), name),
        _ => false,
    }
}

/// The name of an attribute that is a path or a path with arguments: the whole
/// path, or its last segment.
pub open spec fn attr_name(m: Meta, last_seg_only: bool) -> Option<Seq<char>> {
    match m {
        Meta::Path(p) | Meta::List(p, _) => if last_seg_only {
            if p.segments@.len() > 0 {
                Some(segment_text(p.segments@.last()))
            } else {
                None
            }
        } else {
            Some(path_text(p))
        },
        Meta::NameValue(_, _) => None,
    }
}

fn named_like(p: &Path, lookup: &str, last_seg_only: bool) -> (r: bool)
    ensures
        r == (if last_seg_only {
            p.segments@.len() > 0 && segment_text(p.segments@.last()) == lookup@
        } else {
            path_text(*p) == lookup@
        }),
{
    if last_seg_only {
        if p.segments.len() == 0 {
            return false;
        }
        let t = segment_string(&p.segments[p.segments.len() - 1]);
        same_text(t.as_str(), lookup)
    } else {
        let t = path_string(p);
        same_text(t.as_str(), lookup)
    }
}

/// The first attribute from `from` on with this name.
pub open spec fn first_named(
    attrs: Seq<Meta>,
    lookup: Seq<char>,
    last_seg_only: bool,
    from: int,
) -> Option<int>
    decreases attrs.len() - from,
{
    if from < 0 || from >= attrs.len() {
        None
    } else if attr_name(attrs[from], last_seg_only) == Some(lookup) {
        Some(from)
    } else {
        first_named(attrs, lookup, last_seg_only, from + 1)
    }
}

/// Find an attribute by its path, or by the path's last segment alone: with or
/// without arguments.
pub fn get_attribute(lookup: &str, attrs: &Vec<Meta>, last_seg_only: bool) -> (r: Option<usize>)
    ensures
        match first_named(attrs@, lookup@, last_seg_only, 0) {
            Some(i) => r is Some && r->Some_0 == i,
            None => r is None,
        },
{
    let mut i: usize = 0;
    while i < attrs.len()
        invariant
            i <= attrs@.len(),
            first_named(attrs@, lookup@, last_seg_only, 0) == first_named(
                attrs@,
                lookup@,
                last_seg_only,
                i as int,
            ),
        decreases attrs@.len() - i,
    {
        let found = match &attrs[i] {
            Meta::Path(p) => named_like(p, lookup, last_seg_only),
            Meta::List(p, _) => named_like(p, lookup, last_seg_only),
            Meta::NameValue(_, _) => false,
        };
        if found {
            return Some(i);
        }
        i = i + 1;
    }
    None
}

/// Whether an attribute goes when those with these names are cleared.
pub open spec fn cleared(m: Meta, names: Seq<Seq<char>>) -> bool {
    match attr_name(m, false) {
        Some(t) => names.contains(t),
        None => false,
    }
}

/// The texts of some strings.
pub open spec fn texts(v: Seq<String>) -> Seq<Seq<char>> {
    Seq::new(v.len(), |i: int| v[i]@)
}

/// Whether one of the strings is this text.
pub fn has_text(v: &Vec<String>, t: &str) -> (r: bool)
    ensures
        r == texts(v@).contains(t@),
{
    let mut i: usize = 0;
    while i < v.len()
        invariant
            i <= v@.len(),
            forall|j: int| 0 <= j < i ==> (#[trigger] v@[j])@ != t@,
        decreases v@.len() - i,
    {
        if same_text(v[i].as_str(), t) {
            assert(texts(v@)[i as int] == t@);
            return true;
        }
        i = i + 1;
    }
    assert forall|j: int| 0 <= j < texts(v@).len() implies texts(v@)[j] != t@ by {
        assert(v@[j]@ != t@);
    }
    false
}

/// Remove the attributes with one of these paths; the others stay in order.
pub fn clear_attributes(names: &Vec<String>, attrs: Vec<Meta>) -> (r: Vec<Meta>)
    ensures
        r@ == attrs@.filter(|m: Meta| !cleared(m, texts(names@))),
{
    let ghost all = attrs@;
    let ghost keep = |m: Meta| !cleared(m, texts(names@));
    let mut out: Vec<Meta> = Vec::new();
    proof {
        assert(all.take(0).filter(keep) =~= Seq::empty()) by {
            reveal(Seq::filter);
        }
    }
    for m in it: attrs
        invariant
            all == attrs@,
            it.seq() == all,
            keep == (|m: Meta| !cleared(m, texts(names@))),
            out@ == all.take(it.index() as int).filter(keep),
    {
        let ghost i = it.index() as int;
        assert(m == all[i]);
        let goes = match &m {
            Meta::Path(p) => {
                let t = path_string(p);
                has_text(names, t.as_str())
            },
            Meta::List(p, _) => {
                let t = path_string(p);
                has_text(names, t.as_str())
            },
            Meta::NameValue(_, _) => false,
        };
        proof {
            let s = all.take(i + 1);
            assert(s.drop_last() =~= all.take(i));
            reveal(Seq::filter);
            assert(goes == cleared(m, texts(names@)));
        }
        if !goes {
            out.push(m);
        }
    }
    assert(all.take(all.len() as int) =~= all);
    out
}

/// An attribute with its arguments.
pub struct SingleMetaList {
    pub name: Option<String>,
    pub variables: Vec<Meta>,
}

/// The arguments of an attribute; the bare form has none.
pub open spec fn arguments(m: Meta) -> Option<Seq<Meta>> {
    match m {
        Meta::Path(_) => Some(Seq::empty()),
        Meta::List(_, Some(v)) => Some(v@),
        _ => None,
    }
}

/// The first argument from `from` on that gives this name a value.
pub open spec fn value_of(vars: Seq<Meta>, name: Seq<char>, from: int) -> Option<Expr>
    decreases vars.len() - from,
{
    if from < 0 || from >= vars.len() {
        None
    } else {
        match vars[from] {
            Meta::NameValue(p, e) => if path_ident(p) == Some(name) {
                Some(e)
            } else {
                value_of(vars, name, from + 1)
            },
            _ => value_of(vars, name, from + 1),
        }
    }
}

/// Whether a name stands among the arguments by itself.
pub open spec fn bare(vars: Seq<Meta>, name: Seq<char>) -> bool {
    exists|i: int|
        0 <= i < vars.len() && ((#[trigger] vars[i]) matches Meta::Path(p) && path_ident(p) == Some(
            name,
        ))
}

/// From `from` up to the first argument that gives this name a value, every argument
/// that gives a value gives it to a plain name.
pub open spec fn plain_before(vars: Seq<Meta>, name: Seq<char>, from: int) -> bool
    decreases vars.len() - from,
{
    if from < 0 || from >= vars.len() {
        true
    } else {
        match vars[from] {
            Meta::NameValue(p, _) => path_ident(p) is Some && (path_ident(p) == Some(name)
                || plain_before(vars, name, from + 1)),
            _ => plain_before(vars, name, from + 1),
        }
    }
}

/// The texts of string literals.
pub open spec fn string_texts(s: Seq<Expr>) -> Seq<Seq<char>> {
    Seq::new(
        s.len(),
        |i: int|
            match s[i] {
                Expr::Lit(Lit::Str(t)) => t@,
                _ => Seq::empty(),
            },
    )
}

impl SingleMetaList {
    /// An attribute with its arguments; one that gives a name a value, or whose
    /// arguments are malformed, is not one.
    pub fn from_attribute(attr: Meta) -> (r: SingleMetaList)
        requires
            arguments(attr) is Some,
        ensures
            r.name is Some,
            attr_name(attr, false) == Some(r.name->Some_0@),
            r.variables@ == arguments(attr)->Some_0,
    {
        match attr {
            Meta::Path(p) => {
                let r = SingleMetaList { name: Some(path_string(&p)), variables: Vec::new() };
                assert(r.variables@ =~= Seq::empty());
                r
            },
            Meta::List(p, Some(v)) => SingleMetaList { name: Some(path_string(&p)), variables: v },
            _ => SingleMetaList { name: None, variables: Vec::new() },
        }
    }

    /// The attribute's path as text.
    pub fn name_as_str(&self) -> (r: Option<&String>)
        ensures
            match r {
                Some(s) => self.name == Some(*s),
                None => self.name is None,
            },
    {
        self.name.as_ref()
    }

    /// The attribute's path as text, split at its separators.
    pub fn name_as_vec(&self) -> (r: Option<Vec<&str>>)
        ensures
            match self.name {
                Some(n) => r is Some && text::slice_texts(r->Some_0@) == text::split_parts(
                    n@,
                    " :: "@,
                    0,
                ),
                None => r is None,
            },
    {
        proof {
            reveal_strlit(" :: ");
        }
        match &self.name {
            Some(n) => Some(split_at_each(n.as_str(), " :: ")),
            None => None,
        }
    }

    /// The value of a named argument.
    pub open spec fn value(&self, name: Seq<char>) -> Option<Expr> {
        value_of(self.variables@, name, 0)
    }

    /// The value of a named argument.
    pub fn parse_custom_expr(&self, name: &str) -> (r: Option<&Expr>)
        requires
            plain_before(self.variables@, name@, 0),
        ensures
            match r {
                Some(e) => self.value(name@) == Some(*e),
                None => self.value(name@) is None,
            },
    {
        let mut i: usize = 0;
        while i < self.variables.len()
            invariant
                i <= self.variables@.len(),
                self.value(name@) == value_of(self.variables@, name@, i as int),
            decreases self.variables@.len() - i,
        {
            match &self.variables[i] {
                Meta::NameValue(p, e) => {
                    if is_ident(p, name) {
                        return Some(e);
                    }
                },
                _ => {},
            }
            i = i + 1;
        }
        None
    }

    /// The string that a named argument is.
    pub fn parse_string(&self, name: &str) -> (r: Option<&String>)
        requires
            plain_before(self.variables@, name@, 0),
            self.value(name@) matches Some(e) ==> (e matches Expr::Lit(Lit::Str(_))),
        ensures
            match self.value(name@) {
                Some(Expr::Lit(Lit::Str(s))) => r is Some && *r->Some_0 == s,
                _ => r is None,
            },
    {
        match self.parse_custom_expr(name) {
            Some(e) => match e {
                Expr::Lit(lit) => match lit {
                    Lit::Str(s) => Some(s),
                    _ => None,
                },
                _ => None,
            },
            None => None,
        }
    }

    /// The strings that a named argument lists.
    pub fn parse_string_arr(&self, name: &str) -> (r: Option<Vec<String>>)
        requires
            plain_before(self.variables@, name@, 0),
            self.value(name@) matches Some(e) ==> (e matches Expr::Array(v) && forall|i: int|
                0 <= i < v@.len() ==> ((#[trigger] v@[i]) matches Expr::Lit(Lit::Str(_)))),
        ensures
            match self.value(name@) {
                Some(Expr::Array(v)) => r is Some && texts(r->Some_0@) == string_texts(v@),
                _ => r is None,
            },
    {
        let e = match self.parse_custom_expr(name) {
            Some(e) => e,
            None => {
                return None;
            },
        };
        match e {
            Expr::Array(v) => {
                let mut out: Vec<String> = Vec::new();
                let mut i: usize = 0;
                assert(texts(out@) =~= string_texts(v@).take(0));
                while i < v.len()
                    invariant
                        i <= v@.len(),
                        texts(out@) == string_texts(v@).take(i as int),
                        forall|j: int|
                            0 <= j < v@.len() ==> ((#[trigger] v@[j]) matches Expr::Lit(
                                Lit::Str(_),
                            )),
                    decreases v@.len() - i,
                {
                    let ghost before = out@;
                    assert(v@[i as int] is Lit);
                    match &v[i] {
                        Expr::Lit(lit) => match lit {
                            Lit::Str(s) => {
                                out.push(s.clone());
                                assert(texts(out@) =~= texts(before).push(s@));
                                assert(string_texts(v@).take(i + 1) =~= string_texts(v@).take(
                                    i as int,
                                ).push(s@));
                            },
                            _ => {},
                        },
                        _ => {},
                    }
                    i = i + 1;
                }
                assert(string_texts(v@).take(i as int) =~= string_texts(v@));
                Some(out)
            },
            _ => None,
        }
    }

    /// The number that a named argument is.
    pub fn parse_int(&self, name: &str) -> (r: Option<u32>)
        requires
            plain_before(self.variables@, name@, 0),
            self.value(name@) matches Some(e) ==> (e matches Expr::Lit(Lit::Int(d))
                && text::decimal_below(d@, 0x1_0000_0000) is Some),
        ensures
            match self.value(name@) {
                Some(Expr::Lit(Lit::Int(d))) => r is Some && text::decimal_below(
                    d@,
                    0x1_0000_0000,
                ) == Some(r->Some_0 as int),
                _ => r is None,
            },
    {
        match self.parse_custom_expr(name) {
            Some(e) => match e {
                Expr::Lit(lit) => match lit {
                    Lit::Int(d) => match parse_decimal(d.as_str(), 0x1_0000_0000) {
                        Some(v) => Some(v as u32),
                        None => None,
                    },
                    _ => None,
                },
                _ => None,
            },
            None => None,
        }
    }

    /// The truth value that a named argument is; the bare name means true.
    pub fn parse_bool(&self, name: &str) -> (r: Option<bool>)
        requires
            !bare(self.variables@, name@) ==> plain_before(self.variables@, name@, 0) && (
            self.value(name@) matches Some(e) ==> (e matches Expr::Lit(Lit::Bool(_)))),
        ensures
            r == (if bare(self.variables@, name@) {
                Some(true)
            } else {
                match self.value(name@) {
                    Some(Expr::Lit(Lit::Bool(b))) => Some(b),
                    _ => None,
                }
            }),
    {
        let mut i: usize = 0;
        while i < self.variables.len()
            invariant
                i <= self.variables@.len(),
                forall|j: int|
                    0 <= j < i ==> !((#[trigger] self.variables@[j]) matches Meta::Path(p)
                        && path_ident(p) == Some(name@)),
            decreases self.variables@.len() - i,
        {
            match &self.variables[i] {
                Meta::Path(p) => {
                    if is_ident(p, name) {
                        assert(bare(self.variables@, name@));
                        return Some(true);
                    }
                },
                _ => {},
            }
            i = i + 1;
        }
        assert(!bare(self.variables@, name@));
        match self.parse_custom_expr(name) {
            Some(e) => match e {
                Expr::Lit(lit) => match lit {
                    Lit::Bool(b) => Some(*b),
                    _ => None,
                },
                _ => None,
            },
            None => None,
        }
    }
}

/// Whether an attribute's arguments are these.
pub open spec fn list_of(m: Meta, l: SingleMetaList) -> bool {
    &&& l.name is Some
    &&& attr_name(m, false) == Some(l.name->Some_0@)
    &&& arguments(m) == Some(l.variables@)
}

fn take_list(at: Option<usize>, attrs: Vec<Meta>) -> (r: Option<SingleMetaList>)
    requires
        at matches Some(i) ==> i < attrs@.len() && arguments(attrs@[i as int]) is Some,
    ensures
        match at {
            Some(i) => r is Some && list_of(attrs@[i as int], r->Some_0),
            None => r is None,
        },
{
    let mut attrs = attrs;
    match at {
        Some(i) => {
            let a = attrs.remove(i);
            Some(SingleMetaList::from_attribute(a))
        },
        None => None,
    }
}

/// The first attribute with a name is one of the attributes.
pub proof fn lemma_first_named(attrs: Seq<Meta>, lookup: Seq<char>, last: bool, from: int)
    requires
        0 <= from,
    ensures
        first_named(attrs, lookup, last, from) matches Some(i) ==> from <= i < attrs.len()
            && attr_name(attrs[i], last) == Some(lookup),
    decreases attrs.len() - from,
{
    if from < attrs.len() && attr_name(attrs[from], last) != Some(lookup) {
        lemma_first_named(attrs, lookup, last, from + 1);
    }
}

/// The first attribute with this path, with its arguments.
pub fn get_meta_list(attr_name: &str, attrs: Vec<Meta>) -> (r: Option<SingleMetaList>)
    requires
        first_named(attrs@, attr_name@, false, 0) matches Some(i) ==> arguments(attrs@[i]) is Some,
    ensures
        match first_named(attrs@, attr_name@, false, 0) {
            Some(i) => r is Some && list_of(attrs@[i], r->Some_0),
            None => r is None,
        },
{
    proof {
        lemma_first_named(attrs@, attr_name@, false, 0);
    }
    let at = get_attribute(attr_name, &attrs, false);
    take_list(at, attrs)
}

/// The first attribute whose path ends in this segment, with its arguments.
pub fn get_meta_list_by_last_segment(last_seg: &str, attrs: Vec<Meta>) -> (r: Option<
    SingleMetaList,
>)
    requires
        first_named(attrs@, last_seg@, true, 0) matches Some(i) ==> arguments(attrs@[i]) is Some,
    ensures
        match first_named(attrs@, last_seg@, true, 0) {
            Some(i) => r is Some && list_of(attrs@[i], r->Some_0),
            None => r is None,
        },
{
    proof {
        lemma_first_named(attrs@, last_seg@, true, 0);
    }
    let at = get_attribute(last_seg, &attrs, true);
    take_list(at, attrs)
}

/// Whether an attribute with arguments has a path that starts with `cuda_tile`.
pub open spec fn is_cuda_tile(m: Meta) -> bool {
    match m {
        Meta::List(p, _) => p.qself is None && !p.leading && p.segments@.len() > 0 && segment_text(
            p.segments@[0],
        ) == "cuda_tile"@,
        _ => false,
    }
}

/// The attribute with arguments whose path starts with `cuda_tile`; there is at
/// most one.
pub fn get_cuda_tile_meta_list(attrs: Vec<Meta>) -> (r: Option<SingleMetaList>)
    requires
        forall|i: int, j: int|
            0 <= i < attrs@.len() && 0 <= j < attrs@.len() && is_cuda_tile(#[trigger] attrs@[i])
                && is_cuda_tile(#[trigger] attrs@[j]) ==> i == j,
        forall|i: int|
            0 <= i < attrs@.len() && is_cuda_tile(#[trigger] attrs@[i]) ==> arguments(
                attrs@[i],
            ) is Some,
    ensures
        match r {
            Some(l) => exists|i: int|
                0 <= i < attrs@.len() && is_cuda_tile(#[trigger] attrs@[i]) && list_of(
                    attrs@[i],
                    l,
                ),
            None => forall|i: int| 0 <= i < attrs@.len() ==> !is_cuda_tile(#[trigger] attrs@[i]),
        },
{
    let ghost all = attrs@;
    let mut i: usize = 0;
    while i < attrs.len()
        invariant
            attrs@ == all,
            i <= all.len(),
            forall|j: int| 0 <= j < i ==> !is_cuda_tile(#[trigger] all[j]),
            forall|j: int|
                0 <= j < all.len() && is_cuda_tile(#[trigger] all[j]) ==> arguments(all[j]) is Some,
        decreases all.len() - i,
    {
        let found = match &attrs[i] {
            Meta::List(p, _) => if p.qself.is_some() || p.leading || p.segments.len() == 0 {
                false
            } else {
                let t = segment_string(&p.segments[0]);
                same_text(t.as_str(), "cuda_tile")
            },
            _ => false,
        };
        if found {
            assert(is_cuda_tile(all[i as int]));
            return take_list(Some(i), attrs);
        }
        i = i + 1;
    }
    None
}

/// Whether a flag of an attribute is set: by its bare name or by `true`.
pub open spec fn flag(vars: Seq<Meta>, name: Seq<char>) -> bool {
    bare(vars, name) || value_of(vars, name, 0) == Some(Expr::Lit(Lit::Bool(true)))
}

} // verus!
