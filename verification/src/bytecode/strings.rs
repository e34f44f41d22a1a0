//! The string table.
use indexmap::IndexMap;
use vstd::prelude::*;
use vstd::utf8::*;
use crate::bytecode::encoding::EncodingWriter;
use crate::bytecode::table::{copy_bytes, read_offset_table, write_offset_table};
use crate::bytecode::table;
use crate::bytecode::types;
use crate::bytecode::wire;
use crate::error::{ReadError, Subject, WriteError};

verus! {

// ---------------------------------------------------------------------------
// The insertion-ordered map
// ---------------------------------------------------------------------------

#[verifier::external_type_specification]
#[verifier::external_body]
#[verifier::reject_recursive_types(K)]
#[verifier::reject_recursive_types(V)]
#[verifier::reject_recursive_types(S)]
pub struct ExIndexMap<K, V, S>(indexmap::IndexMap<K, V, S>);

/// The pairs of an `indexmap::IndexMap`, in the order in which its iterators
/// give them out.
pub uninterp spec fn map_pairs(m: IndexMap<String, u64>) -> Seq<(Seq<char>, u64)>;

/// Where a key stands among pairs.
pub open spec fn has_pair(s: Seq<(Seq<char>, u64)>, i: int, key: Seq<char>) -> bool {
    0 <= i < s.len() && s[i].0 == key
}

/// Some pair has the key.
pub open spec fn has_key(s: Seq<(Seq<char>, u64)>, key: Seq<char>) -> bool {
    exists|i: int| has_pair(s, i, key)
}

/// `indexmap::IndexMap::new`: a map without pairs.
#[verifier::external_body]
fn map_new() -> (m: IndexMap<String, u64>)
    ensures
        map_pairs(m) == Seq::<(Seq<char>, u64)>::empty(),
{
    IndexMap::new()
}

/// `indexmap::IndexMap::len`: the number of pairs.
#[verifier::external_body]
fn map_len(m: &IndexMap<String, u64>) -> (n: usize)
    ensures
        n == map_pairs(*m).len(),
{
    m.len()
}

/// `indexmap::IndexMap::get`: the value of the pair that has the key, if there
/// is one.
#[verifier::external_body]
fn map_get(m: &IndexMap<String, u64>, key: &str) -> (r: Option<u64>)
    ensures
        match r {
            Some(v) => exists|i: int|
                has_pair(map_pairs(*m), i, key@) && #[trigger] map_pairs(*m)[i].1 == v,
            None => !has_key(map_pairs(*m), key@),
        },
{
    m.get(key).copied()
}

/// `indexmap::IndexMap::insert` of a key that is not there: the pair is placed
/// last.
#[verifier::external_body]
fn map_insert(m: &mut IndexMap<String, u64>, key: String, value: u64)
    requires
        !has_key(map_pairs(*old(m)), key@),
    ensures
        map_pairs(*final(m)) == map_pairs(*old(m)).push((key@, value)),
{
    m.insert(key, value);
}

/// `indexmap::IndexMap::get_index`: the key of the pair at a position.
#[verifier::external_body]
fn map_key(m: &IndexMap<String, u64>, i: usize) -> (r: Option<&String>)
    ensures
        match r {
            Some(k) => i < map_pairs(*m).len() && k@ == map_pairs(*m)[i as int].0,
            None => i >= map_pairs(*m).len(),
        },
{
    m.get_index(i).map(|pair| pair.0)
}

// ---------------------------------------------------------------------------
// Interning
// ---------------------------------------------------------------------------

/// The table after `s` has been asked for.
pub open spec fn intern(l: Seq<Seq<char>>, s: Seq<char>) -> Seq<Seq<char>> {
    if l.contains(s) {
        l
    } else {
        l.push(s)
    }
}

/// `m` continues `l`.
pub open spec fn extends(l: Seq<Seq<char>>, m: Seq<Seq<char>>) -> bool {
    l.len() <= m.len() && m.take(l.len() as int) == l
}

/// What interning does to a table.
pub proof fn lemma_intern(l: Seq<Seq<char>>, s: Seq<char>)
    requires
        l.no_duplicates(),
    ensures
        intern(l, s).no_duplicates(),
        extends(l, intern(l, s)),
        intern(l, s).contains(s),
{
    let m = intern(l, s);
    assert(m.take(l.len() as int) =~= l);
    if !l.contains(s) {
        assert(m[l.len() as int] == s);
    }
}

/// A table continues itself, and continuing twice continues.
pub proof fn lemma_extends(l: Seq<Seq<char>>, m: Seq<Seq<char>>, n: Seq<Seq<char>>)
    ensures
        extends(l, l),
        extends(l, m) && extends(m, n) ==> extends(l, n),
{
    assert(l.take(l.len() as int) =~= l);
    if extends(l, m) && extends(m, n) {
        assert(n.take(l.len() as int) =~= m.take(l.len() as int));
    }
}

/// What a table holds, its continuations hold.
pub proof fn lemma_extends_contains(l: Seq<Seq<char>>, m: Seq<Seq<char>>, x: Seq<char>)
    requires
        extends(l, m),
        l.contains(x),
    ensures
        m.contains(x),
{
    let i = l.index_of(x);
    assert(0 <= i < l.len() && l[i] == x);
    assert(m.take(l.len() as int)[i] == m[i]);
}

/// What a table holds stays where it is when the table grows.
pub proof fn lemma_extends_index(l: Seq<Seq<char>>, m: Seq<Seq<char>>, s: Seq<char>)
    requires
        m.no_duplicates(),
        extends(l, m),
        l.contains(s),
    ensures
        m.contains(s),
        m.index_of(s) == l.index_of(s),
        0 <= l.index_of(s) < l.len(),
{
    let i = l.index_of(s);
    assert(0 <= i < l.len() && l[i] == s);
    assert(m.take(l.len() as int)[i] == m[i]);
    assert(m.contains(s));
    let j = m.index_of(s);
    assert(0 <= j < m.len() && m[j] == s);
}

/// A position of a table without repetitions is the index of what stands there.
pub proof fn lemma_index_of(l: Seq<Seq<char>>, i: int)
    requires
        l.no_duplicates(),
        0 <= i < l.len(),
    ensures
        l.contains(l[i]),
        l.index_of(l[i]) == i,
{
    let j = l.index_of(l[i]);
    assert(0 <= j < l.len() && l[j] == l[i]);
}

/// Hands out one index per distinct string, in the order of first use.
pub struct StringManager {
    map: IndexMap<String, u64>,
}

impl View for StringManager {
    type V = Seq<Seq<char>>;

    closed spec fn view(&self) -> Seq<Seq<char>> {
        keys(map_pairs(self.map))
    }
}

/// The keys of pairs.
pub open spec fn keys(s: Seq<(Seq<char>, u64)>) -> Seq<Seq<char>> {
    Seq::new(s.len(), |i: int| s[i].0)
}

impl StringManager {
    /// No string occurs twice, and each is held with its position.
    pub closed spec fn wf(&self) -> bool {
        &&& self@.no_duplicates()
        &&& forall|i: int|
            0 <= i < map_pairs(self.map).len() ==> #[trigger] map_pairs(self.map)[i].1 == i
    }

    /// No strings.
    pub fn new() -> (m: StringManager)
        ensures
            m.wf(),
            m@ == Seq::<Seq<char>>::empty(),
    {
        let m = StringManager { map: map_new() };
        assert(m@ =~= Seq::<Seq<char>>::empty());
        m
    }

    /// A well-formed table holds nothing twice.
    pub proof fn lemma_wf(&self)
        requires
            self.wf(),
        ensures
            self@.no_duplicates(),
    {
    }

    /// The number of strings.
    pub fn len(&self) -> (n: usize)
        ensures
            n == self@.len(),
    {
        map_len(&self.map)
    }

    /// The index of a string, if it is in the table.
    pub fn find(&self, s: &str) -> (r: Option<u64>)
        requires
            self.wf(),
        ensures
            match r {
                Some(i) => self@.contains(s@) && i == self@.index_of(s@) && i < self@.len(),
                None => !self@.contains(s@),
            },
    {
        let ghost pairs = map_pairs(self.map);
        let r = map_get(&self.map, s);
        proof {
            match r {
                Some(v) => {
                    let i = choose|i: int| has_pair(pairs, i, s@) && #[trigger] pairs[i].1 == v;
                    assert(self@[i] == s@);
                    lemma_index_of(self@, i);
                },
                None => {
                    if self@.contains(s@) {
                        let i = self@.index_of(s@);
                        assert(0 <= i < self@.len() && self@[i] == s@);
                        assert(has_pair(pairs, i, s@));
                    }
                },
            }
        }
        r
    }

    /// The index of a string, which is placed last if it is not in the table.
    pub fn get_or_insert(&mut self, s: &str) -> (idx: u64)
        requires
            old(self).wf(),
        ensures
            final(self).wf(),
            final(self)@ == intern(old(self)@, s@),
            final(self)@.contains(s@),
            idx == final(self)@.index_of(s@),
            idx < final(self)@.len(),
    {
        proof {
            lemma_intern(self@, s@);
        }
        match self.find(s) {
            Some(i) => i,
            None => {
                let ghost pairs = map_pairs(self.map);
                let idx: u64 = map_len(&self.map) as u64;
                proof {
                    if has_key(pairs, s@) {
                        let i = choose|i: int| has_pair(pairs, i, s@);
                        assert(self@[i] == s@);
                    }
                }
                map_insert(&mut self.map, s.to_owned(), idx);
                assert(self@ =~= old(self)@.push(s@));
                proof {
                    lemma_index_of(self@, idx as int);
                }
                idx
            },
        }
    }

    /// The string at a position of the table.
    pub fn get(&self, i: usize) -> (r: Option<&String>)
        ensures
            match r {
                Some(s) => i < self@.len() && s@ == self@[i as int],
                None => i >= self@.len(),
            },
    {
        map_key(&self.map, i)
    }
}

// ---------------------------------------------------------------------------
// The section
// ---------------------------------------------------------------------------

/// The entries of the string section: each string in UTF-8.
pub open spec fn string_entries(l: Seq<Seq<char>>) -> Seq<Seq<u8>> {
    Seq::new(l.len(), |i: int| encode_utf8(l[i]))
}

/// The contents of the string section; it is left out where there are no
/// strings.
pub fn string_section_bytes(strings: &StringManager) -> (res: Result<EncodingWriter, WriteError>)
    ensures
        match res {
            Ok(b) => table::concat(string_entries(strings@)).len() < wire::pow256(4) && b@
                == table::table_bytes(string_entries(strings@), 4),
            Err(e) => e == WriteError::SectionTooLarge && table::concat(
                string_entries(strings@),
            ).len() >= wire::pow256(4),
        },
{
    let mut entries: Vec<Vec<u8>> = Vec::new();
    let mut i: usize = 0;
    while i < strings.len()
        invariant
            i <= strings@.len(),
            table::byte_views(entries@) == string_entries(strings@).take(i as int),
        decreases strings@.len() - i,
    {
        match strings.get(i) {
            Some(s) => {
                let b = copy_bytes(s.as_str().as_bytes());
                assert(b@ == encode_utf8(strings@[i as int]));
                let ghost before = entries@;
                entries.push(b);
                assert(table::byte_views(entries@) =~= table::byte_views(before).push(b@));
                assert(table::byte_views(entries@) =~= string_entries(strings@).take(i + 1));
            },
            None => {},
        }
        i = i + 1;
    }
    assert(table::byte_views(entries@) =~= string_entries(strings@));
    write_offset_table(&entries, 4)
}

/// `std::str::from_utf8`: the text of valid UTF-8, nothing for other bytes.
#[verifier::external_body]
fn text_of(bytes: &[u8]) -> (r: Option<&str>)
    ensures
        match r {
            Some(s) => valid_utf8(bytes@) && s@ == decode_utf8(bytes@),
            None => !valid_utf8(bytes@),
        },
{
    std::str::from_utf8(bytes).ok()
}

/// The strings of the first `n` table entries.
pub open spec fn strings_of_entries(entries: Seq<Seq<u8>>, n: int) -> Result<
    Seq<Seq<char>>,
    ReadError,
>
    decreases n,
{
    if n <= 0 {
        Ok(seq![])
    } else {
        match strings_of_entries(entries, n - 1) {
            Ok(prev) => if valid_utf8(entries[n - 1]) {
                Ok(prev.push(decode_utf8(entries[n - 1])))
            } else {
                Err(ReadError::NotUtf8((n - 1) as u64))
            },
            Err(e) => Err(e),
        }
    }
}

proof fn lemma_strings_error(entries: Seq<Seq<u8>>, k: int, n: int)
    requires
        0 <= k <= n,
        strings_of_entries(entries, k) is Err,
    ensures
        strings_of_entries(entries, n) == strings_of_entries(entries, k),
    decreases n,
{
    if k < n {
        lemma_strings_error(entries, k, n - 1);
    }
}

/// The strings of a string section, none where the section is absent.
pub open spec fn string_section(payload: Option<Seq<u8>>) -> Result<Seq<Seq<char>>, ReadError> {
    match payload {
        None => Ok(seq![]),
        Some(d) => match table::table_at(d, Subject::Str, 4) {
            Ok(entries) => strings_of_entries(entries, entries.len() as int),
            Err(e) => Err(e),
        },
    }
}

/// The contents of strings.
pub open spec fn texts(s: Seq<String>) -> Seq<Seq<char>> {
    Seq::new(s.len(), |i: int| s[i]@)
}

/// Read the string section.
pub fn parse_string_section(payload: Option<&[u8]>) -> (res: Result<Vec<String>, ReadError>)
    ensures
        match res {
            Ok(v) => string_section(types::payload_view(payload)) == Ok::<
                Seq<Seq<char>>,
                ReadError,
            >(texts(v@)),
            Err(e) => string_section(types::payload_view(payload)) == Err::<
                Seq<Seq<char>>,
                ReadError,
            >(e),
        },
{
    let data = match payload {
        None => {
            let v: Vec<String> = Vec::new();
            assert(texts(v@) =~= seq![]);
            return Ok(v);
        },
        Some(d) => d,
    };
    let t = read_offset_table(data, Subject::Str, 4)?;
    let ghost entries = t.entries();
    let mut strings: Vec<String> = Vec::new();
    let n: usize = t.len();
    let mut i: usize = 0;
    assert(texts(strings@) =~= seq![]);
    while i < n
        invariant
            i <= n,
            n == entries.len(),
            t.entries() == entries,
            t.wf(),
            strings_of_entries(entries, i as int) == Ok::<Seq<Seq<char>>, ReadError>(
                texts(strings@),
            ),
            string_section(types::payload_view(payload)) == strings_of_entries(entries, n as int),
        decreases n - i,
    {
        match text_of(t.entry(i)) {
            Some(s) => {
                let ghost before = strings@;
                strings.push(s.to_owned());
                assert(texts(strings@) =~= texts(before).push(s@));
            },
            None => {
                proof {
                    lemma_strings_error(entries, i + 1, n as int);
                }
                return Err(ReadError::NotUtf8(i as u64));
            },
        }
        i = i + 1;
    }
    Ok(strings)
}

proof fn lemma_strings_of_encoded(l: Seq<Seq<char>>, n: int)
    requires
        0 <= n <= l.len(),
    ensures
        strings_of_entries(string_entries(l), n) == Ok::<Seq<Seq<char>>, ReadError>(l.take(n)),
    decreases n,
{
    broadcast use encode_utf8_valid_utf8, encode_utf8_decode_utf8;

    if n > 0 {
        lemma_strings_of_encoded(l, n - 1);
        assert(string_entries(l)[n - 1] == encode_utf8(l[n - 1]));
        assert(l.take(n) =~= l.take(n - 1).push(l[n - 1]));
    } else {
        assert(l.take(0) =~= seq![]);
    }
}

/// The string section gives back the strings that were written to it.
pub proof fn lemma_string_section_round_trip(l: Seq<Seq<char>>)
    requires
        0 < l.len() <= u32::MAX,
        table::concat(string_entries(l)).len() < wire::pow256(4),
    ensures
        string_section(Some(table::table_bytes(string_entries(l), 4))) == Ok::<
            Seq<Seq<char>>,
            ReadError,
        >(l),
{
    table::lemma_table_round_trip(string_entries(l), Subject::Str, 4);
    lemma_strings_of_encoded(l, l.len() as int);
    assert(l.take(l.len() as int) =~= l);
}

} // verus!
