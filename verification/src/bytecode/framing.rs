//! Headers and sections are found where they were written.
use vstd::prelude::*;
use crate::bytecode::enums::{BytecodeVersion, Section, NUM_SECTIONS};
use crate::bytecode::enums;
use crate::bytecode::reader;
use crate::bytecode::wire;
use crate::bytecode::writer;
use crate::error::ReadError;

verus! {

/// The header is read back.
pub proof fn lemma_header(d: Seq<u8>, v: BytecodeVersion)
    requires
        wire::holds_at(d, 0, writer::header_bytes(v)),
    ensures
        reader::header_at(d) == Ok::<(BytecodeVersion, int), ReadError>(
            (v, writer::header_bytes(v).len() as int),
        ),
{
    let m = enums::magic();
    let x = seq![v.major, v.minor];
    let y = wire::le_bytes(v.tag as int, 2);
    wire::lemma_pow256_values();
    wire::lemma_holds_split(d, 0, m + x, y);
    wire::lemma_holds_split(d, 0, m, x);
    assert(x =~= seq![v.major] + seq![v.minor]);
    wire::lemma_holds_split(d, 8, seq![v.major], seq![v.minor]);
    wire::lemma_byte_holds(d, 8, v.major);
    wire::lemma_byte_holds(d, 9, v.minor);
    assert(wire::pow256(2) == 65536) by {
        reveal_with_fuel(wire::pow256, 3);
    }
    wire::lemma_le_holds(d, 10, v.tag as int, 2);
}

/// A section that was written is found, and the next one behind it.
proof fn lemma_section(
    d: Seq<u8>,
    out: Seq<u8>,
    section: Section,
    alignment: u64,
    payload: Seq<u8>,
    acc: Seq<Option<Seq<u8>>>,
)
    requires
        section != Section::EndOfBytecode,
        alignment >= 1,
        payload.len() <= u64::MAX,
        wire::holds_at(d, 0, writer::with_section(out, section, alignment, payload)),
    ensures
        reader::sections_at(d, out.len() as int, acc) == reader::sections_at(
            d,
            writer::with_section(out, section, alignment, payload).len() as int,
            acc.update(section.spec_id() as int, Some(payload)),
        ),
{
    let id = section.spec_id();
    let length = wire::varint_bytes(payload.len() as u64);
    let p = out.len() as int;
    let q = p + 1 + length.len();
    if alignment > 1 {
        let b = (id + 128) as u8;
        let a = wire::varint_bytes(alignment);
        let head = out + seq![b] + length + a;
        let pad = wire::padding_bytes(
            wire::padding_len(head.len() as int, alignment as int),
        );
        wire::lemma_holds_split(d, 0, head + pad, payload);
        wire::lemma_holds_split(d, 0, head, pad);
        wire::lemma_holds_split(d, 0, out + seq![b] + length, a);
        wire::lemma_holds_split(d, 0, out + seq![b], length);
        wire::lemma_holds_split(d, 0, out, seq![b]);
        wire::lemma_byte_holds(d, p, b);
        wire::lemma_varint_holds(d, p + 1, payload.len() as u64);
        wire::lemma_varint_holds(d, q, alignment);
        wire::lemma_padding_holds(d, head.len() as int, alignment as int);
        let start = (head + pad).len() as int;
        assert(reader::section_header_at(d, p) == Ok::<((u8, u64), int), ReadError>(
            ((id, payload.len() as u64), start),
        ));
        assert(d.subrange(start, start + payload.len()) == payload);
    } else {
        let head = out + seq![id] + length;
        wire::lemma_holds_split(d, 0, head, payload);
        wire::lemma_holds_split(d, 0, out + seq![id], length);
        wire::lemma_holds_split(d, 0, out, seq![id]);
        wire::lemma_byte_holds(d, p, id);
        wire::lemma_varint_holds(d, p + 1, payload.len() as u64);
        assert(reader::section_header_at(d, p) == Ok::<((u8, u64), int), ReadError>(
            ((id, payload.len() as u64), q),
        ));
        assert(d.subrange(q, q + payload.len()) == payload);
    }
}

/// The end marker ends the sections.
proof fn lemma_end(d: Seq<u8>, p: int, acc: Seq<Option<Seq<u8>>>)
    requires
        wire::holds_at(d, p, seq![Section::EndOfBytecode.spec_id()]),
    ensures
        reader::sections_at(d, p, acc) == Ok::<Seq<Option<Seq<u8>>>, ReadError>(acc),
{
    wire::lemma_byte_holds(d, p, 0);
}

/// The payloads of a file's sections, in the order in which they are written;
/// the debug section is always there.
pub struct Payloads {
    pub global: Option<Seq<u8>>,
    pub func: Option<Seq<u8>>,
    pub constant: Option<Seq<u8>>,
    pub debug: Seq<u8>,
    pub types: Option<Seq<u8>>,
    pub strings: Option<Seq<u8>>,
}

/// Bytes with a section that may be absent.
#[verifier::opaque]
pub open spec fn framed(
    out: Seq<u8>,
    section: Section,
    alignment: u64,
    payload: Option<Seq<u8>>,
) -> Seq<u8> {
    match payload {
        Some(p) => writer::with_section(out, section, alignment, p),
        None => out,
    }
}

/// The sections of a file behind its header, and the end marker.
pub open spec fn all_sections(head: Seq<u8>, x: Payloads) -> Seq<u8> {
    let b1 = framed(head, Section::Global, 1, x.global);
    let b2 = framed(b1, Section::Func, 8, x.func);
    let b3 = framed(b2, Section::Constant, 8, x.constant);
    let b4 = framed(b3, Section::Debug, 8, Some(x.debug));
    let b5 = framed(b4, Section::Type, 4, x.types);
    let b6 = framed(b5, Section::Str, 4, x.strings);
    b6.push(Section::EndOfBytecode.spec_id())
}

/// The payloads by section id.
pub open spec fn by_id(x: Payloads) -> Seq<Option<Seq<u8>>> {
    seq![None, x.strings, x.func, Some(x.debug), x.constant, x.types, x.global]
}

/// The sections from position `p` on are those from position `q` on, with more
/// payloads found.
#[verifier::opaque]
pub open spec fn leads(
    d: Seq<u8>,
    p: int,
    acc: Seq<Option<Seq<u8>>>,
    q: int,
    acc2: Seq<Option<Seq<u8>>>,
) -> bool {
    reader::sections_at(d, p, acc) == reader::sections_at(d, q, acc2)
}

proof fn lemma_leads(
    d: Seq<u8>,
    p: int,
    acc: Seq<Option<Seq<u8>>>,
    q: int,
    acc2: Seq<Option<Seq<u8>>>,
    r: int,
    acc3: Seq<Option<Seq<u8>>>,
)
    requires
        leads(d, p, acc, q, acc2),
        leads(d, q, acc2, r, acc3),
    ensures
        leads(d, p, acc, r, acc3),
{
    reveal(leads);
}

/// A section that may be absent is found.
proof fn lemma_framed(
    d: Seq<u8>,
    out: Seq<u8>,
    section: Section,
    alignment: u64,
    payload: Option<Seq<u8>>,
    acc: Seq<Option<Seq<u8>>>,
)
    requires
        section != Section::EndOfBytecode,
        alignment >= 1,
        d.len() <= u64::MAX,
        acc.len() == NUM_SECTIONS,
        acc[section.spec_id() as int] is None,
        wire::holds_at(d, 0, framed(out, section, alignment, payload)),
    ensures
        wire::holds_at(d, 0, out),
        leads(
            d,
            out.len() as int,
            acc,
            framed(out, section, alignment, payload).len() as int,
            acc.update(section.spec_id() as int, payload),
        ),
{
    reveal(framed);
    reveal(leads);
    match payload {
        Some(p) => {
            let w = writer::with_section(out, section, alignment, p);
            assert(w.len() >= p.len());
            assert(w.take(out.len() as int) =~= out);
            assert(w =~= out + w.skip(out.len() as int));
            wire::lemma_holds_split(d, 0, out, w.skip(out.len() as int));
            lemma_section(d, out, section, alignment, p, acc);
        },
        None => {
            assert(acc.update(section.spec_id() as int, payload) =~= acc);
        },
    }
}

proof fn lemma_found(
    d: Seq<u8>,
    p: int,
    acc: Seq<Option<Seq<u8>>>,
    q: int,
    acc2: Seq<Option<Seq<u8>>>,
)
    requires
        leads(d, p, acc, q, acc2),
        wire::holds_at(d, q, seq![Section::EndOfBytecode.spec_id()]),
    ensures
        reader::sections_at(d, p, acc) == Ok::<Seq<Option<Seq<u8>>>, ReadError>(acc2),
{
    reveal(leads);
    lemma_end(d, q, acc2);
}

/// All sections of a file are found.
pub proof fn lemma_all_sections(head: Seq<u8>, x: Payloads)
    requires
        all_sections(head, x).len() <= u64::MAX,
    ensures
        wire::holds_at(all_sections(head, x), 0, head),
        reader::sections_at(
            all_sections(head, x),
            head.len() as int,
            reader::no_sections(),
        ) == Ok::<Seq<Option<Seq<u8>>>, ReadError>(by_id(x)),
{
    let d = all_sections(head, x);
    let b1 = framed(head, Section::Global, 1, x.global);
    let b2 = framed(b1, Section::Func, 8, x.func);
    let b3 = framed(b2, Section::Constant, 8, x.constant);
    let b4 = framed(b3, Section::Debug, 8, Some(x.debug));
    let b5 = framed(b4, Section::Type, 4, x.types);
    let b6 = framed(b5, Section::Str, 4, x.strings);
    let end = seq![Section::EndOfBytecode.spec_id()];
    assert(d =~= b6 + end);
    wire::lemma_holds_whole(d);
    wire::lemma_holds_split(d, 0, b6, end);
    let a0 = reader::no_sections();
    let a1 = a0.update(6, x.global);
    let a2 = a1.update(2, x.func);
    let a3 = a2.update(4, x.constant);
    let a4 = a3.update(3, Some(x.debug));
    let a5 = a4.update(5, x.types);
    let a6 = a5.update(1, x.strings);
    lemma_framed(d, b5, Section::Str, 4, x.strings, a5);
    lemma_framed(d, b4, Section::Type, 4, x.types, a4);
    lemma_framed(d, b3, Section::Debug, 8, Some(x.debug), a3);
    lemma_framed(d, b2, Section::Constant, 8, x.constant, a2);
    lemma_framed(d, b1, Section::Func, 8, x.func, a1);
    lemma_framed(d, head, Section::Global, 1, x.global, a0);
    lemma_leads(d, head.len() as int, a0, b1.len() as int, a1, b2.len() as int, a2);
    lemma_leads(d, head.len() as int, a0, b2.len() as int, a2, b3.len() as int, a3);
    lemma_leads(d, head.len() as int, a0, b3.len() as int, a3, b4.len() as int, a4);
    lemma_leads(d, head.len() as int, a0, b4.len() as int, a4, b5.len() as int, a5);
    lemma_leads(d, head.len() as int, a0, b5.len() as int, a5, b6.len() as int, a6);
    assert(a6 =~= by_id(x));
    lemma_found(d, head.len() as int, a0, b6.len() as int, a6);
}

} // verus!
