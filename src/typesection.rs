use vstd::prelude::*;

use crate::error::{GhwParseError, HeaderData};
use crate::header::check_header_zeros;
use crate::input::{read_exact, read_u8, signed32, word32, Input};
use crate::leb::{read_signed, read_unsigned, sleb_read, uleb_read};
use crate::types::{
    array_type, concrete_type, concrete_type_id, enum_type, rtik_of, strings_view,
    subtype_array_type, subtype_scalar_type, table_view, type_id_in, type_links_wf,
    type_strings_wf, types_linked, types_wf, GhwRtik, IntRange, RangeDir, StringId, TypeId,
    TypeModel, VhdlType, lookup_concrete_type_id,
};

verus! {

/// What is left of `d` from index `p` on.
pub open spec fn from_pos(d: Seq<u8>, p: int) -> Seq<u8> {
    d.subrange(p, d.len() as int)
}

/// The byte at `p` and the index after it.
pub open spec fn u8_at(d: Seq<u8>, p: int) -> Result<(u8, int), GhwParseError> {
    if 0 <= p < d.len() {
        Ok((d[p], p + 1))
    } else {
        Err(GhwParseError::UnexpectedEof)
    }
}

/// The unsigned LEB128 number at `p` and the index after it.
pub open spec fn uleb_at(d: Seq<u8>, p: int) -> Result<(int, int), GhwParseError> {
    match uleb_read(from_pos(d, p)) {
        Ok((v, n)) => Ok((v, p + n)),
        Err(e) => Err(e),
    }
}

/// The signed LEB128 number at `p` and the index after it.
pub open spec fn sleb_at(d: Seq<u8>, p: int) -> Result<(int, int), GhwParseError> {
    match sleb_read(from_pos(d, p)) {
        Ok((v, n)) => Ok((v, p + n)),
        Err(e) => Err(e),
    }
}

/// A string id at `p`, which must name one of the `nstr` strings.
pub open spec fn string_id_at(d: Seq<u8>, p: int, nstr: nat, section: &'static str) -> Result<
    (StringId, int),
    GhwParseError,
> {
    match uleb_at(d, p) {
        Ok((v, q)) => if v < nstr {
            Ok((StringId(v as usize), q))
        } else {
            Err(GhwParseError::FailedToParseSection(section, "string id out of range"))
        },
        Err(e) => Err(e),
    }
}

/// A type id at `p`, which must name one of the `ntypes` types read so far.
pub open spec fn type_id_at(d: Seq<u8>, p: int, ntypes: nat, section: &'static str) -> Result<
    (TypeId, int),
    GhwParseError,
> {
    match uleb_at(d, p) {
        Ok((v, q)) => if 1 <= v <= ntypes {
            Ok((TypeId(v as u32), q))
        } else {
            Err(GhwParseError::FailedToParseSection(section, "type id out of range"))
        },
        Err(e) => Err(e),
    }
}

/// Whether a read left the input as `expected` says: the value and the index after it, or
/// the error.
pub open spec fn read_as<T>(r: Result<T, GhwParseError>, end: int, expected: Result<(T, int), GhwParseError>) -> bool {
    match expected {
        Ok((v, q)) => r == Ok::<T, GhwParseError>(v) && end == q,
        Err(e) => r == Err::<T, GhwParseError>(e),
    }
}

pub fn read_string_id(input: &mut Input, nstr: usize, section: &'static str) -> (r: Result<
    StringId,
    GhwParseError,
>)
    requires
        old(input).wf(),
    ensures
        final(input).wf(),
        final(input).same_data(old(input)),
        read_as(r, final(input).pos as int, string_id_at(old(input).data@, old(input).pos as int, nstr as nat, section)),
        r matches Ok(x) ==> x.0 < nstr,
        r is Ok ==> final(input).pos >= old(input).pos,
{
    let ghost p0 = input.pos as int;
    let v = read_unsigned(input)?;
    assert(uleb_at(input.data@, p0) == Ok::<(int, int), GhwParseError>((v as int, input.pos as int)));
    if v < nstr as u64 {
        Ok(StringId(v as usize))
    } else {
        Err(GhwParseError::FailedToParseSection(section, "string id out of range"))
    }
}

pub fn read_type_id(input: &mut Input, ntypes: usize, section: &'static str) -> (r: Result<
    TypeId,
    GhwParseError,
>)
    requires
        old(input).wf(),
        ntypes <= 0xffff_ffff,
    ensures
        final(input).wf(),
        final(input).same_data(old(input)),
        read_as(r, final(input).pos as int, type_id_at(old(input).data@, old(input).pos as int, ntypes as nat, section)),
        r matches Ok(x) ==> 1 <= x.0 <= ntypes,
        r is Ok ==> final(input).pos >= old(input).pos,
{
    let ghost p0 = input.pos as int;
    let v = read_unsigned(input)?;
    assert(uleb_at(input.data@, p0) == Ok::<(int, int), GhwParseError>((v as int, input.pos as int)));
    if 1 <= v && v <= ntypes as u64 {
        Ok(TypeId(v as u32))
    } else {
        Err(GhwParseError::FailedToParseSection(section, "type id out of range"))
    }
}

/// A range at `p`: a kind byte whose top bit gives the direction and whose low seven bits give
/// how the bounds are stored (two bytes for enums, two signed LEB128 numbers for integers).
pub open spec fn range_at(d: Seq<u8>, p: int) -> Result<(IntRange, int), GhwParseError> {
    match u8_at(d, p) {
        Err(e) => Err(e),
        Ok((t, p1)) => {
            let dir = if t >= 128 {
                RangeDir::Downto
            } else {
                RangeDir::To
            };
            let k = (t % 128) as u8;
            match rtik_of(k) {
                None => Err(GhwParseError::FailedToParseKindTag(k)),
                Some(kind) => if kind == GhwRtik::TypeE8 || kind == GhwRtik::TypeB2 {
                    if p1 + 2 <= d.len() {
                        Ok((IntRange(dir, d[p1] as i64, d[p1 + 1] as i64), p1 + 2))
                    } else {
                        Err(GhwParseError::UnexpectedEof)
                    }
                } else if kind == GhwRtik::TypeI32 || kind == GhwRtik::TypeP32 || kind
                    == GhwRtik::TypeI64 || kind == GhwRtik::TypeP64 {
                    match sleb_at(d, p1) {
                        Err(e) => Err(e),
                        Ok((l, p2)) => match sleb_at(d, p2) {
                            Err(e) => Err(e),
                            Ok((r, p3)) => Ok((IntRange(dir, l as i64, r as i64), p3)),
                        },
                    }
                } else if kind == GhwRtik::TypeF64 {
                    Err(GhwParseError::FailedToParseSection("type", "float ranges are not supported"))
                } else {
                    Err(GhwParseError::UnexpectedType(k, "for range"))
                },
            }
        },
    }
}

pub fn read_range(input: &mut Input) -> (r: Result<IntRange, GhwParseError>)
    requires
        old(input).wf(),
    ensures
        final(input).wf(),
        final(input).same_data(old(input)),
        read_as(r, final(input).pos as int, range_at(old(input).data@, old(input).pos as int)),
        r is Ok ==> final(input).pos >= old(input).pos,
{
    let t = read_u8(input)?;
    let k = t % 128;
    let dir = if t >= 128 {
        RangeDir::Downto
    } else {
        RangeDir::To
    };
    let kind = match GhwRtik::from_u8(k) {
        Some(kind) => kind,
        None => {
            return Err(GhwParseError::FailedToParseKindTag(k));
        },
    };
    match kind {
        GhwRtik::TypeE8 | GhwRtik::TypeB2 => {
            let buf = read_exact(input, 2)?;
            Ok(IntRange(dir, buf[0] as i64, buf[1] as i64))
        },
        GhwRtik::TypeI32 | GhwRtik::TypeP32 | GhwRtik::TypeI64 | GhwRtik::TypeP64 => {
            let left = read_signed(input)?;
            let right = read_signed(input)?;
            Ok(IntRange(dir, left, right))
        },
        GhwRtik::TypeF64 => Err(GhwParseError::FailedToParseSection("type", "float ranges are not supported")),
        _ => Err(GhwParseError::UnexpectedType(k, "for range")),
    }
}

/// `k` string ids from `p`, after those in `acc`.
pub open spec fn literals_at(d: Seq<u8>, p: int, k: nat, nstr: nat, acc: Seq<StringId>) -> Result<
    (Seq<StringId>, int),
    GhwParseError,
>
    decreases k,
{
    if k == 0 {
        Ok((acc, p))
    } else {
        match string_id_at(d, p, nstr, "type") {
            Err(e) => Err(e),
            Ok((s, q)) => literals_at(d, q, (k - 1) as nat, nstr, acc.push(s)),
        }
    }
}

/// `k` type ids from `p`, after those in `acc`.
pub open spec fn dims_at(d: Seq<u8>, p: int, k: nat, nt: nat, acc: Seq<TypeId>) -> Result<
    (Seq<TypeId>, int),
    GhwParseError,
>
    decreases k,
{
    if k == 0 {
        Ok((acc, p))
    } else {
        match type_id_at(d, p, nt, "type") {
            Err(e) => Err(e),
            Ok((x, q)) => dims_at(d, q, (k - 1) as nat, nt, acc.push(x)),
        }
    }
}

/// `k` record fields from `p` (a name and a type each, the type with one alias layer
/// resolved), after those in `acc`.
pub open spec fn fields_at(
    d: Seq<u8>,
    p: int,
    k: nat,
    nstr: nat,
    t: Seq<TypeModel>,
    acc: Seq<(StringId, TypeId)>,
) -> Result<(Seq<(StringId, TypeId)>, int), GhwParseError>
    decreases k,
{
    if k == 0 {
        Ok((acc, p))
    } else {
        match string_id_at(d, p, nstr, "type") {
            Err(e) => Err(e),
            Ok((s, q)) => match type_id_at(d, q, t.len(), "type") {
                Err(e) => Err(e),
                Ok((x, q2)) => fields_at(
                    d,
                    q2,
                    (k - 1) as nat,
                    nstr,
                    t,
                    acc.push((s, concrete_type_id(t, x))),
                ),
            },
        }
    }
}

/// Places a value read in a spec result at the index after it.
pub open spec fn at_end(r: Result<TypeModel, GhwParseError>, q: int) -> Result<(TypeModel, int), GhwParseError> {
    match r {
        Ok(m) => Ok((m, q)),
        Err(e) => Err(e),
    }
}

/// An enum payload at `p`: the literal count and the literals.
pub open spec fn enum_at(d: Seq<u8>, p: int, strs: Seq<Seq<char>>, name: StringId) -> Result<
    (TypeModel, int),
    GhwParseError,
> {
    match uleb_at(d, p) {
        Err(e) => Err(e),
        Ok((n, p3)) => match literals_at(d, p3, n as nat, strs.len(), seq![]) {
            Err(e) => Err(e),
            Ok((lits, p4)) => Ok((enum_type(strs, name, lits), p4)),
        },
    }
}

/// A scalar subtype payload at `p`: the base type and the range.
pub open spec fn subtype_scalar_at(d: Seq<u8>, p: int, t: Seq<TypeModel>, name: StringId) -> Result<
    (TypeModel, int),
    GhwParseError,
> {
    match type_id_at(d, p, t.len(), "type") {
        Err(e) => Err(e),
        Ok((base, p3)) => match range_at(d, p3) {
            Err(e) => Err(e),
            Ok((range, p4)) => at_end(subtype_scalar_type(t, name, base, range), p4),
        },
    }
}

/// An array subtype payload at `p`: the base type and the index range.
pub open spec fn subtype_array_at(d: Seq<u8>, p: int, t: Seq<TypeModel>, name: StringId) -> Result<
    (TypeModel, int),
    GhwParseError,
> {
    match type_id_at(d, p, t.len(), "type") {
        Err(e) => Err(e),
        Ok((base, p3)) => match range_at(d, p3) {
            Err(e) => Err(e),
            Ok((range, p4)) => at_end(subtype_array_type(t, name, base, range), p4),
        },
    }
}

/// An array payload at `p`: the element type, the dimension count and the index types.
/// Only arrays of one dimension are supported.
pub open spec fn array_at(d: Seq<u8>, p: int, t: Seq<TypeModel>, name: StringId) -> Result<
    (TypeModel, int),
    GhwParseError,
> {
    match type_id_at(d, p, t.len(), "type") {
        Err(e) => Err(e),
        Ok((elem, p3)) => match uleb_at(d, p3) {
            Err(e) => Err(e),
            Ok((n, p4)) => match dims_at(d, p4, n as nat, t.len(), seq![]) {
                Err(e) => Err(e),
                Ok((dims, p5)) => if dims.len() == 1 {
                    Ok((array_type(t, name, elem, dims[0]), p5))
                } else {
                    Err(
                        GhwParseError::FailedToParseSection(
                            "type",
                            "arrays with other than one dimension are not supported",
                        ),
                    )
                },
            },
        },
    }
}

/// A record payload at `p`: the field count and the fields.
pub open spec fn record_at(d: Seq<u8>, p: int, strs: Seq<Seq<char>>, t: Seq<TypeModel>, name: StringId) -> Result<
    (TypeModel, int),
    GhwParseError,
> {
    match uleb_at(d, p) {
        Err(e) => Err(e),
        Ok((n, p3)) => match fields_at(d, p3, n as nat, strs.len(), t, seq![]) {
            Err(e) => Err(e),
            Ok((fields, p4)) => Ok((TypeModel::Record(name, fields), p4)),
        },
    }
}

/// One entry of the type table at `p`: a kind byte, a name, and what the kind asks for.
pub open spec fn type_entry_at(d: Seq<u8>, p: int, strs: Seq<Seq<char>>, t: Seq<TypeModel>) -> Result<
    (TypeModel, int),
    GhwParseError,
> {
    match u8_at(d, p) {
        Err(e) => Err(e),
        Ok((b, p1)) => match rtik_of(b) {
            None => Err(GhwParseError::FailedToParseKindTag(b)),
            Some(kind) => match string_id_at(d, p1, strs.len(), "type") {
                Err(e) => Err(e),
                Ok((name, p2)) => match kind {
                    GhwRtik::TypeB2 | GhwRtik::TypeE8 => enum_at(d, p2, strs, name),
                    GhwRtik::TypeI32 => Ok((TypeModel::I32(name, None), p2)),
                    GhwRtik::TypeI64 => Ok((TypeModel::I64(name, None), p2)),
                    GhwRtik::TypeF64 => Ok((TypeModel::F64(name), p2)),
                    GhwRtik::SubtypeScalar => subtype_scalar_at(d, p2, t, name),
                    GhwRtik::TypeArray => array_at(d, p2, t, name),
                    GhwRtik::SubtypeArray => subtype_array_at(d, p2, t, name),
                    GhwRtik::TypeRecord => record_at(d, p2, strs, t, name),
                    GhwRtik::TypeP32 | GhwRtik::TypeP64 | GhwRtik::SubtypeUnboundedArray
                    | GhwRtik::SubtypeRecord | GhwRtik::SubtypeUnboundedRecord => Err(
                        GhwParseError::FailedToParseSection("type", "unsupported type kind"),
                    ),
                    _ => Err(GhwParseError::UnexpectedType(b, "in the type table")),
                },
            },
        },
    }
}

/// A new entry `m` may follow the entries `t` over a string table of `nstr` entries.
pub open spec fn entry_fits(t: Seq<TypeModel>, m: TypeModel, nstr: nat) -> bool {
    type_links_wf(t.push(m), t.len() as int) && type_strings_wf(m, nstr)
}

/// `k` entries of the type table from `p`, after the entries `t`.
pub open spec fn type_entries_at(d: Seq<u8>, p: int, k: nat, strs: Seq<Seq<char>>, t: Seq<TypeModel>) -> Result<
    (Seq<TypeModel>, int),
    GhwParseError,
>
    decreases k,
{
    if k == 0 {
        Ok((t, p))
    } else {
        match type_entry_at(d, p, strs, t) {
            Err(e) => Err(e),
            Ok((m, q)) => type_entries_at(d, q, (k - 1) as nat, strs, t.push(m)),
        }
    }
}

/// The type section (after its tag) at `p`: an 8-byte head with four zero bytes and the entry
/// count, the entries, and a closing zero byte.
#[verifier::opaque]
pub open spec fn type_section_at(d: Seq<u8>, p: int, strs: Seq<Seq<char>>, big_endian: bool) -> Result<
    (Seq<TypeModel>, int),
    GhwParseError,
> {
    if p + 8 > d.len() {
        Err(GhwParseError::UnexpectedEof)
    } else if !(d[p] == 0 && d[p + 1] == 0 && d[p + 2] == 0 && d[p + 3] == 0) {
        Err(GhwParseError::FailedToParseSection("type", "first four bytes should be zero"))
    } else {
        let n = word32(d.subrange(p + 4, p + 8), big_endian);
        if n >= 0x8000_0000 {
            Err(GhwParseError::ExpectedPositiveInteger(signed32(n) as i64))
        } else {
            match type_entries_at(d, p + 8, n as nat, strs, seq![]) {
                Err(e) => Err(e),
                Ok((t, q)) => match u8_at(d, q) {
                    Err(e) => Err(e),
                    Ok((b, q2)) => if b != 0 {
                        Err(GhwParseError::FailedToParseSection("type", "last byte should be 0"))
                    } else {
                        Ok((t, q2))
                    },
                },
            }
        }
    }
}

proof fn lemma_concrete_id(t: Seq<TypeModel>, id: TypeId)
    requires
        types_linked(t),
        type_id_in(id, t.len() as int),
    ensures
        type_id_in(concrete_type_id(t, id), t.len() as int),
        !(t[concrete_type_id(t, id).0 - 1] is TypeAlias),
        concrete_type(t, id) == t[concrete_type_id(t, id).0 - 1],
{
    assert(type_links_wf(t, id.0 - 1));
}

proof fn lemma_linked_push(t: Seq<TypeModel>, m: TypeModel)
    requires
        types_linked(t),
        type_links_wf(t.push(m), t.len() as int),
    ensures
        types_linked(t.push(m)),
{
    let t2 = t.push(m);
    assert forall|i: int| 0 <= i < t2.len() implies #[trigger] type_links_wf(t2, i) by {
        if i < t.len() {
            assert(type_links_wf(t, i));
            assert(t2[i] == t[i]);
            match t[i] {
                TypeModel::Record(_, fields) => {
                    assert forall|j: int| 0 <= j < fields.len() implies type_id_in(
                        #[trigger] fields[j].1,
                        i,
                    ) && !(t2[fields[j].1.0 - 1] is TypeAlias) by {
                        assert(type_id_in(fields[j].1, i));
                    }
                },
                _ => {},
            }
        }
    }
}

fn read_literals(input: &mut Input, n: u64, nstr: usize) -> (r: Result<Vec<StringId>, GhwParseError>)
    requires
        old(input).wf(),
    ensures
        final(input).wf(),
        final(input).same_data(old(input)),
        match literals_at(old(input).data@, old(input).pos as int, n as nat, nstr as nat, seq![]) {
            Ok((v, q)) => r matches Ok(x) && x@ == v && final(input).pos == q,
            Err(e) => r == Err::<Vec<StringId>, GhwParseError>(e),
        },
        r matches Ok(x) ==> forall|j: int| 0 <= j < x@.len() ==> (#[trigger] x@[j]).0 < nstr,
        r is Ok ==> final(input).pos >= old(input).pos,
{
    let ghost d = input.data@;
    let ghost whole = literals_at(d, input.pos as int, n as nat, nstr as nat, seq![]);
    let mut out: Vec<StringId> = Vec::new();
    let mut i: u64 = 0;
    while i < n
        invariant
            input.wf(),
            input.data@ == d,
            input.pos >= old(input).pos,
            d == old(input).data@,
            whole == literals_at(d, old(input).pos as int, n as nat, nstr as nat, seq![]),
            i <= n,
            literals_at(d, input.pos as int, (n - i) as nat, nstr as nat, out@) == whole,
            forall|j: int| 0 <= j < out@.len() ==> (#[trigger] out@[j]).0 < nstr,
        decreases n - i,
    {
        let x = read_string_id(input, nstr, "type")?;
        out.push(x);
        i = i + 1;
    }
    Ok(out)
}

fn read_dims(input: &mut Input, n: u64, ntypes: usize) -> (r: Result<Vec<TypeId>, GhwParseError>)
    requires
        old(input).wf(),
        ntypes <= 0xffff_ffff,
    ensures
        final(input).wf(),
        final(input).same_data(old(input)),
        match dims_at(old(input).data@, old(input).pos as int, n as nat, ntypes as nat, seq![]) {
            Ok((v, q)) => r matches Ok(x) && x@ == v && final(input).pos == q,
            Err(e) => r == Err::<Vec<TypeId>, GhwParseError>(e),
        },
        r matches Ok(x) ==> forall|j: int| 0 <= j < x@.len() ==> type_id_in(#[trigger] x@[j], ntypes as int),
        r is Ok ==> final(input).pos >= old(input).pos,
{
    let ghost d = input.data@;
    let ghost whole = dims_at(d, input.pos as int, n as nat, ntypes as nat, seq![]);
    let mut out: Vec<TypeId> = Vec::new();
    let mut i: u64 = 0;
    while i < n
        invariant
            input.wf(),
            input.data@ == d,
            input.pos >= old(input).pos,
            d == old(input).data@,
            ntypes <= 0xffff_ffff,
            whole == dims_at(d, old(input).pos as int, n as nat, ntypes as nat, seq![]),
            i <= n,
            dims_at(d, input.pos as int, (n - i) as nat, ntypes as nat, out@) == whole,
            forall|j: int| 0 <= j < out@.len() ==> type_id_in(#[trigger] out@[j], ntypes as int),
        decreases n - i,
    {
        let x = read_type_id(input, ntypes, "type")?;
        out.push(x);
        i = i + 1;
    }
    Ok(out)
}

fn read_fields(input: &mut Input, n: u64, nstr: usize, types: &Vec<VhdlType>) -> (r: Result<
    Vec<(StringId, TypeId)>,
    GhwParseError,
>)
    requires
        old(input).wf(),
        types@.len() <= 0xffff_ffff,
        types_linked(table_view(types@)),
    ensures
        final(input).wf(),
        final(input).same_data(old(input)),
        match fields_at(old(input).data@, old(input).pos as int, n as nat, nstr as nat, table_view(types@), seq![]) {
            Ok((v, q)) => r matches Ok(x) && x@ == v && final(input).pos == q,
            Err(e) => r == Err::<Vec<(StringId, TypeId)>, GhwParseError>(e),
        },
        r matches Ok(x) ==> forall|j: int|
            0 <= j < x@.len() ==> type_id_in(#[trigger] x@[j].1, types@.len() as int) && x@[j].0.0
                < nstr && !(table_view(types@)[x@[j].1.0 - 1] is TypeAlias),
        r is Ok ==> final(input).pos >= old(input).pos,
{
    let ghost d = input.data@;
    let ghost t = table_view(types@);
    let ghost whole = fields_at(d, input.pos as int, n as nat, nstr as nat, t, seq![]);
    let mut out: Vec<(StringId, TypeId)> = Vec::new();
    let mut i: u64 = 0;
    while i < n
        invariant
            input.wf(),
            input.data@ == d,
            input.pos >= old(input).pos,
            d == old(input).data@,
            t == table_view(types@),
            types@.len() <= 0xffff_ffff,
            types_linked(t),
            whole == fields_at(d, old(input).pos as int, n as nat, nstr as nat, t, seq![]),
            i <= n,
            fields_at(d, input.pos as int, (n - i) as nat, nstr as nat, t, out@) == whole,
            forall|j: int|
                0 <= j < out@.len() ==> type_id_in(#[trigger] out@[j].1, types@.len() as int)
                    && out@[j].0.0 < nstr && !(t[out@[j].1.0 - 1] is TypeAlias),
        decreases n - i,
    {
        let field_name = read_string_id(input, nstr, "type")?;
        let raw = read_type_id(input, types.len(), "type")?;
        let field_tpe = lookup_concrete_type_id(types, raw);
        out.push((field_name, field_tpe));
        i = i + 1;
    }
    Ok(out)
}

proof fn lemma_entry_fits(t: Seq<TypeModel>, m: TypeModel, nstr: nat)
    requires
        types_linked(t),
        type_strings_wf(m, nstr),
        match m {
            TypeModel::TypeAlias(_, b) => type_id_in(b, t.len() as int) && !(t[b.0 - 1] is TypeAlias),
            TypeModel::Record(_, fields) => forall|j: int|
                0 <= j < fields.len() ==> type_id_in(#[trigger] fields[j].1, t.len() as int) && !(t[fields[j].1.0
                    - 1] is TypeAlias),
            TypeModel::Array(_, e, _) => type_id_in(e, t.len() as int) && !(t[e.0 - 1] is TypeAlias),
            _ => true,
        },
    ensures
        entry_fits(t, m, nstr),
{
    let tp = t.push(m);
    assert(tp[t.len() as int] == m);
    match m {
        TypeModel::Record(_, fields) => {
            assert forall|j: int| 0 <= j < fields.len() implies type_id_in(
                #[trigger] fields[j].1,
                t.len() as int,
            ) && !(tp[fields[j].1.0 - 1] is TypeAlias) by {
                assert(tp[fields[j].1.0 - 1] == t[fields[j].1.0 - 1]);
            }
        },
        TypeModel::TypeAlias(_, base) => {
            assert(tp[base.0 - 1] == t[base.0 - 1]);
        },
        TypeModel::Array(_, e, _) => {
            assert(tp[e.0 - 1] == t[e.0 - 1]);
        },
        _ => {},
    }
}

fn read_enum(strings: &Vec<String>, table: &Vec<VhdlType>, name: StringId, input: &mut Input) -> (r: Result<
    VhdlType,
    GhwParseError,
>)
    requires
        old(input).wf(),
        name.0 < strings@.len(),
        types_wf(table_view(table@), strings@.len()),
    ensures
        final(input).wf(),
        final(input).same_data(old(input)),
        match enum_at(old(input).data@, old(input).pos as int, strings_view(strings@), name) {
            Ok((m, q)) => r matches Ok(x) && x@ == m && final(input).pos == q,
            Err(e) => r == Err::<VhdlType, GhwParseError>(e),
        },
        r matches Ok(x) ==> entry_fits(table_view(table@), x@, strings@.len()),
        r is Ok ==> final(input).pos >= old(input).pos,
{
    let num_literals = read_unsigned(input)?;
    let literals = read_literals(input, num_literals, strings.len())?;
    let tpe = VhdlType::from_enum(strings, name, literals);
    proof {
        lemma_entry_fits(table_view(table@), tpe@, strings@.len());
    }
    Ok(tpe)
}

fn read_subtype_scalar(strings: &Vec<String>, table: &Vec<VhdlType>, name: StringId, input: &mut Input) -> (r:
    Result<VhdlType, GhwParseError>)
    requires
        old(input).wf(),
        name.0 < strings@.len(),
        table@.len() <= 0x7fff_ffff,
        types_wf(table_view(table@), strings@.len()),
    ensures
        final(input).wf(),
        final(input).same_data(old(input)),
        match subtype_scalar_at(old(input).data@, old(input).pos as int, table_view(table@), name) {
            Ok((m, q)) => r matches Ok(x) && x@ == m && final(input).pos == q,
            Err(e) => r == Err::<VhdlType, GhwParseError>(e),
        },
        r matches Ok(x) ==> entry_fits(table_view(table@), x@, strings@.len()),
        r is Ok ==> final(input).pos >= old(input).pos,
{
    let base = read_type_id(input, table.len(), "type")?;
    let range = read_range(input)?;
    proof {
        lemma_concrete_id(table_view(table@), base);
    }
    let tpe = VhdlType::from_subtype_scalar(name, table, base, range)?;
    proof {
        lemma_entry_fits(table_view(table@), tpe@, strings@.len());
    }
    Ok(tpe)
}

fn read_subtype_array(strings: &Vec<String>, table: &Vec<VhdlType>, name: StringId, input: &mut Input) -> (r:
    Result<VhdlType, GhwParseError>)
    requires
        old(input).wf(),
        name.0 < strings@.len(),
        table@.len() <= 0x7fff_ffff,
        types_wf(table_view(table@), strings@.len()),
    ensures
        final(input).wf(),
        final(input).same_data(old(input)),
        match subtype_array_at(old(input).data@, old(input).pos as int, table_view(table@), name) {
            Ok((m, q)) => r matches Ok(x) && x@ == m && final(input).pos == q,
            Err(e) => r == Err::<VhdlType, GhwParseError>(e),
        },
        r matches Ok(x) ==> entry_fits(table_view(table@), x@, strings@.len()),
        r is Ok ==> final(input).pos >= old(input).pos,
{
    let base = read_type_id(input, table.len(), "type")?;
    let range = read_range(input)?;
    let tpe = VhdlType::from_subtype_array(name, table, base, range)?;
    proof {
        lemma_entry_fits(table_view(table@), tpe@, strings@.len());
    }
    Ok(tpe)
}

fn read_array(strings: &Vec<String>, table: &Vec<VhdlType>, name: StringId, input: &mut Input) -> (r: Result<
    VhdlType,
    GhwParseError,
>)
    requires
        old(input).wf(),
        name.0 < strings@.len(),
        table@.len() <= 0x7fff_ffff,
        types_wf(table_view(table@), strings@.len()),
    ensures
        final(input).wf(),
        final(input).same_data(old(input)),
        match array_at(old(input).data@, old(input).pos as int, table_view(table@), name) {
            Ok((m, q)) => r matches Ok(x) && x@ == m && final(input).pos == q,
            Err(e) => r == Err::<VhdlType, GhwParseError>(e),
        },
        r matches Ok(x) ==> entry_fits(table_view(table@), x@, strings@.len()),
        r is Ok ==> final(input).pos >= old(input).pos,
{
    let element_tpe = read_type_id(input, table.len(), "type")?;
    let num_dims = read_unsigned(input)?;
    let dims = read_dims(input, num_dims, table.len())?;
    if dims.len() != 1 {
        return Err(
            GhwParseError::FailedToParseSection(
                "type",
                "arrays with other than one dimension are not supported",
            ),
        );
    }
    proof {
        lemma_concrete_id(table_view(table@), element_tpe);
    }
    let tpe = VhdlType::from_array(name, table, element_tpe, dims[0]);
    proof {
        lemma_entry_fits(table_view(table@), tpe@, strings@.len());
    }
    Ok(tpe)
}

fn read_record(strings: &Vec<String>, table: &Vec<VhdlType>, name: StringId, input: &mut Input) -> (r: Result<
    VhdlType,
    GhwParseError,
>)
    requires
        old(input).wf(),
        name.0 < strings@.len(),
        table@.len() <= 0x7fff_ffff,
        types_wf(table_view(table@), strings@.len()),
    ensures
        final(input).wf(),
        final(input).same_data(old(input)),
        match record_at(old(input).data@, old(input).pos as int, strings_view(strings@), table_view(table@), name) {
            Ok((m, q)) => r matches Ok(x) && x@ == m && final(input).pos == q,
            Err(e) => r == Err::<VhdlType, GhwParseError>(e),
        },
        r matches Ok(x) ==> entry_fits(table_view(table@), x@, strings@.len()),
        r is Ok ==> final(input).pos >= old(input).pos,
{
    let num_fields = read_unsigned(input)?;
    let fields = read_fields(input, num_fields, strings.len(), table)?;
    let tpe = VhdlType::from_record(name, fields);
    proof {
        assert forall|j: int| 0 <= j < fields@.len() implies (#[trigger] fields@[j]).0.0 < strings@.len() by {
            assert(type_id_in(fields@[j].1, table@.len() as int));
        }
        lemma_entry_fits(table_view(table@), tpe@, strings@.len());
    }
    Ok(tpe)
}

/// Reads one entry of the type table, given the entries before it.
pub fn read_type_entry(strings: &Vec<String>, table: &Vec<VhdlType>, input: &mut Input) -> (r: Result<
    VhdlType,
    GhwParseError,
>)
    requires
        old(input).wf(),
        table@.len() <= 0x7fff_ffff,
        types_wf(table_view(table@), strings@.len()),
    ensures
        final(input).wf(),
        final(input).same_data(old(input)),
        match type_entry_at(old(input).data@, old(input).pos as int, strings_view(strings@), table_view(table@)) {
            Ok((m, q)) => r matches Ok(x) && x@ == m && final(input).pos == q,
            Err(e) => r == Err::<VhdlType, GhwParseError>(e),
        },
        r matches Ok(x) ==> entry_fits(table_view(table@), x@, strings@.len()),
        r is Ok ==> final(input).pos >= old(input).pos,
{
    let b = read_u8(input)?;
    let kind = match GhwRtik::from_u8(b) {
        Some(k) => k,
        None => {
            return Err(GhwParseError::FailedToParseKindTag(b));
        },
    };
    let name = read_string_id(input, strings.len(), "type")?;
    let tpe = match kind {
        GhwRtik::TypeB2 | GhwRtik::TypeE8 => read_enum(strings, table, name, input)?,
        GhwRtik::TypeI32 => VhdlType::I32(name, None),
        GhwRtik::TypeI64 => VhdlType::I64(name, None),
        GhwRtik::TypeF64 => VhdlType::F64(name),
        GhwRtik::SubtypeScalar => read_subtype_scalar(strings, table, name, input)?,
        GhwRtik::TypeArray => read_array(strings, table, name, input)?,
        GhwRtik::SubtypeArray => read_subtype_array(strings, table, name, input)?,
        GhwRtik::TypeRecord => read_record(strings, table, name, input)?,
        GhwRtik::TypeP32 | GhwRtik::TypeP64 | GhwRtik::SubtypeUnboundedArray | GhwRtik::SubtypeRecord
        | GhwRtik::SubtypeUnboundedRecord => {
            return Err(GhwParseError::FailedToParseSection("type", "unsupported type kind"));
        },
        _ => {
            return Err(GhwParseError::UnexpectedType(b, "in the type table"));
        },
    };
    proof {
        if tpe@ is I32 || tpe@ is I64 || tpe@ is F64 {
            lemma_entry_fits(table_view(table@), tpe@, strings@.len());
        }
    }
    Ok(tpe)
}

/// Reads the type section (after its tag). The table that comes out is well formed: every id
/// inside an entry names an earlier entry or a string, and no alias names an alias.
pub fn read_type_section(header: &HeaderData, strings: &Vec<String>, input: &mut Input) -> (r: Result<
    Vec<VhdlType>,
    GhwParseError,
>)
    requires
        old(input).wf(),
    ensures
        final(input).wf(),
        final(input).same_data(old(input)),
        match type_section_at(old(input).data@, old(input).pos as int, strings_view(strings@), header.big_endian) {
            Ok((t, q)) => r matches Ok(x) && table_view(x@) == t && final(input).pos == q,
            Err(e) => r == Err::<Vec<VhdlType>, GhwParseError>(e),
        },
        r matches Ok(x) ==> types_wf(table_view(x@), strings@.len()) && x@.len() < 0x8000_0000,
        r is Ok ==> final(input).pos >= old(input).pos,
{
    reveal(type_section_at);
    let ghost d = input.data@;
    let ghost p0 = input.pos as int;
    let ghost strs = strings_view(strings@);
    let h = read_exact(input, 8)?;
    assert(h@ =~= d.subrange(p0, p0 + 8));
    check_header_zeros("type", h.as_slice())?;
    let hs = h.as_slice();
    assert(hs@.subrange(4, 8).subrange(0, 4) =~= d.subrange(p0 + 4, p0 + 8));
    let type_num = header.read_u32(&hs[4..8])?;
    let mut table: Vec<VhdlType> = Vec::new();
    let ghost whole = type_entries_at(d, p0 + 8, type_num as nat, strs, seq![]);
    let mut i: u32 = 0;
    proof {
        assert(table_view(table@) =~= seq![]);
    }
    while i < type_num
        invariant
            input.wf(),
            input.data@ == d,
            input.pos >= old(input).pos,
            d == old(input).data@,
            p0 == old(input).pos,
            strs == strings_view(strings@),
            type_num < 0x8000_0000,
            whole == type_entries_at(d, p0 + 8, type_num as nat, strs, seq![]),
            p0 + 8 <= d.len(),
            d[p0] == 0 && d[p0 + 1] == 0 && d[p0 + 2] == 0 && d[p0 + 3] == 0,
            type_num == word32(d.subrange(p0 + 4, p0 + 8), header.big_endian),
            i <= type_num,
            table@.len() == i,
            type_entries_at(d, input.pos as int, (type_num - i) as nat, strs, table_view(table@)) == whole,
            types_wf(table_view(table@), strings@.len()),
        decreases type_num - i,
    {
        proof {
            reveal(type_section_at);
        }
        let tpe = read_type_entry(strings, &table, input)?;
        proof {
            lemma_linked_push(table_view(table@), tpe@);
        }
        let ghost before = table_view(table@);
        table.push(tpe);
        proof {
            assert(table_view(table@) =~= before.push(tpe@));
            assert forall|k: int| 0 <= k < table@.len() implies #[trigger] type_strings_wf(
                table_view(table@)[k],
                strings@.len(),
            ) by {
                if k < before.len() {
                    assert(table_view(table@)[k] == before[k]);
                }
            }
        }
        i = i + 1;
    }
    let last = read_u8(input)?;
    if last != 0 {
        return Err(GhwParseError::FailedToParseSection("type", "last byte should be 0"));
    }
    Ok(table)
}

} // verus!
