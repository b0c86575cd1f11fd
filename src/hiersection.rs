use vstd::prelude::*;
use vstd::string::StringExecFns;

use crate::error::{GhwParseError, HeaderData};
use crate::header::check_header_zeros;
use crate::hierarchy::{
    EnumTypeId, HierarchyBuilder, HierarchyStringId, Scope, ScopeRef, ScopeType, SignalRef, Var,
    VarDirection, VarIndex, VarType,
};
use crate::input::{read_exact, read_u8, signed32, word32, Input};
use crate::leb::read_unsigned;
use crate::signals::{slots_wf, SignalInfo, SignalType};
use crate::typesection::{read_as, read_string_id, read_type_id, string_id_at, type_id_at, u8_at, uleb_at};
use crate::types::{
    concrete_type_id, lookup_concrete_type_id, IntRange, table_view, type_id_in, type_links_wf,
    type_strings_wf, types_wf, StringId, TypeId, TypeModel, VhdlType,
};

verus! {

/// The record kinds of the hierarchy section.
#[derive(Debug, Clone, Copy, PartialEq, Eq, Structural)]
pub enum GhwHierarchyKind {
    End,
    Design,
    Block,
    GenerateIf,
    GenerateFor,
    Instance,
    Package,
    Process,
    Generic,
    EndOfScope,
    Signal,
    PortIn,
    PortOut,
    PortInOut,
    Buffer,
    Linkage,
}

/// The hierarchy kind that a byte names, if any.
pub open spec fn hierarchy_kind_of(b: u8) -> Option<GhwHierarchyKind> {
    if b == 0 {
        Some(GhwHierarchyKind::End)
    } else if b == 1 {
        Some(GhwHierarchyKind::Design)
    } else if b == 3 {
        Some(GhwHierarchyKind::Block)
    } else if b == 4 {
        Some(GhwHierarchyKind::GenerateIf)
    } else if b == 5 {
        Some(GhwHierarchyKind::GenerateFor)
    } else if b == 6 {
        Some(GhwHierarchyKind::Instance)
    } else if b == 7 {
        Some(GhwHierarchyKind::Package)
    } else if b == 13 {
        Some(GhwHierarchyKind::Process)
    } else if b == 14 {
        Some(GhwHierarchyKind::Generic)
    } else if b == 15 {
        Some(GhwHierarchyKind::EndOfScope)
    } else if b == 16 {
        Some(GhwHierarchyKind::Signal)
    } else if b == 17 {
        Some(GhwHierarchyKind::PortIn)
    } else if b == 18 {
        Some(GhwHierarchyKind::PortOut)
    } else if b == 19 {
        Some(GhwHierarchyKind::PortInOut)
    } else if b == 20 {
        Some(GhwHierarchyKind::Buffer)
    } else if b == 21 {
        Some(GhwHierarchyKind::Linkage)
    } else {
        None
    }
}

impl GhwHierarchyKind {
    pub fn from_u8(b: u8) -> (r: Option<GhwHierarchyKind>)
        ensures
            r == hierarchy_kind_of(b),
    {
        match b {
            0 => Some(GhwHierarchyKind::End),
            1 => Some(GhwHierarchyKind::Design),
            3 => Some(GhwHierarchyKind::Block),
            4 => Some(GhwHierarchyKind::GenerateIf),
            5 => Some(GhwHierarchyKind::GenerateFor),
            6 => Some(GhwHierarchyKind::Instance),
            7 => Some(GhwHierarchyKind::Package),
            13 => Some(GhwHierarchyKind::Process),
            14 => Some(GhwHierarchyKind::Generic),
            15 => Some(GhwHierarchyKind::EndOfScope),
            16 => Some(GhwHierarchyKind::Signal),
            17 => Some(GhwHierarchyKind::PortIn),
            18 => Some(GhwHierarchyKind::PortOut),
            19 => Some(GhwHierarchyKind::PortInOut),
            20 => Some(GhwHierarchyKind::Buffer),
            21 => Some(GhwHierarchyKind::Linkage),
            _ => None,
        }
    }
}

/// Kinds that open a scope.
pub open spec fn is_scope_kind(k: GhwHierarchyKind) -> bool {
    k == GhwHierarchyKind::Block || k == GhwHierarchyKind::GenerateIf || k
        == GhwHierarchyKind::GenerateFor || k == GhwHierarchyKind::Instance || k
        == GhwHierarchyKind::Package || k == GhwHierarchyKind::Generic || k
        == GhwHierarchyKind::Process
}

/// Kinds that declare a variable.
pub open spec fn is_var_kind(k: GhwHierarchyKind) -> bool {
    k == GhwHierarchyKind::Signal || k == GhwHierarchyKind::PortIn || k == GhwHierarchyKind::PortOut
        || k == GhwHierarchyKind::PortInOut || k == GhwHierarchyKind::Buffer || k
        == GhwHierarchyKind::Linkage
}

pub open spec fn scope_type_of(k: GhwHierarchyKind) -> ScopeType {
    match k {
        GhwHierarchyKind::Block => ScopeType::VhdlBlock,
        GhwHierarchyKind::GenerateIf => ScopeType::VhdlIfGenerate,
        GhwHierarchyKind::GenerateFor => ScopeType::VhdlForGenerate,
        GhwHierarchyKind::Instance => ScopeType::Interface,
        GhwHierarchyKind::Package => ScopeType::VhdlPackage,
        GhwHierarchyKind::Generic => ScopeType::GhwGeneric,
        _ => ScopeType::VhdlProcess,
    }
}

pub open spec fn var_kind_of(k: GhwHierarchyKind) -> (VarType, VarDirection) {
    match k {
        GhwHierarchyKind::Signal => (VarType::Wire, VarDirection::Implicit),
        GhwHierarchyKind::PortIn => (VarType::Port, VarDirection::Input),
        GhwHierarchyKind::PortOut => (VarType::Port, VarDirection::Output),
        GhwHierarchyKind::PortInOut => (VarType::Port, VarDirection::InOut),
        GhwHierarchyKind::Buffer => (VarType::Wire, VarDirection::Buffer),
        _ => (VarType::Wire, VarDirection::Linkage),
    }
}

pub fn convert_scope_type(kind: GhwHierarchyKind) -> (r: ScopeType)
    requires
        is_scope_kind(kind),
    ensures
        r == scope_type_of(kind),
{
    match kind {
        GhwHierarchyKind::Block => ScopeType::VhdlBlock,
        GhwHierarchyKind::GenerateIf => ScopeType::VhdlIfGenerate,
        GhwHierarchyKind::GenerateFor => ScopeType::VhdlForGenerate,
        GhwHierarchyKind::Instance => ScopeType::Interface,
        GhwHierarchyKind::Package => ScopeType::VhdlPackage,
        GhwHierarchyKind::Generic => ScopeType::GhwGeneric,
        _ => ScopeType::VhdlProcess,
    }
}

pub fn convert_var_kind(kind: GhwHierarchyKind) -> (r: (VarType, VarDirection))
    requires
        is_var_kind(kind),
    ensures
        r == var_kind_of(kind),
{
    match kind {
        GhwHierarchyKind::Signal => (VarType::Wire, VarDirection::Implicit),
        GhwHierarchyKind::PortIn => (VarType::Port, VarDirection::Input),
        GhwHierarchyKind::PortOut => (VarType::Port, VarDirection::Output),
        GhwHierarchyKind::PortInOut => (VarType::Port, VarDirection::InOut),
        GhwHierarchyKind::Buffer => (VarType::Wire, VarDirection::Buffer),
        _ => (VarType::Wire, VarDirection::Linkage),
    }
}

/// The signal handle at `p`, which must name a slot other than 0 of a table of `n` slots.
pub open spec fn signal_id_at(d: Seq<u8>, p: int, n: nat) -> Result<(SignalRef, int), GhwParseError> {
    match uleb_at(d, p) {
        Ok((v, q)) => if 1 <= v < n {
            Ok((SignalRef(v as usize), q))
        } else {
            Err(GhwParseError::FailedToParseSection("hierarchy", "signal id out of range"))
        },
        Err(e) => Err(e),
    }
}

/// The slot table after handle `h` was seen for a signal of kind `tpe`: a new slot covering just
/// `h` the first time, unchanged afterwards.
pub open spec fn slot_for(s: Seq<Option<SignalInfo>>, h: int, tpe: SignalType, lut: Option<[u8; 9]>) -> Seq<
    Option<SignalInfo>,
> {
    if s[h] is None {
        s.update(h, Some(SignalInfo { start_id: h as u32, end_id: h as u32, tpe, lut }))
    } else {
        s
    }
}

/// `k` signal handles from `p`, each given a slot of kind `tpe` the first time it is seen; the
/// index after them and the slot table.
pub open spec fn handles_at(
    d: Seq<u8>,
    p: int,
    k: nat,
    s: Seq<Option<SignalInfo>>,
    tpe: SignalType,
    lut: Option<[u8; 9]>,
) -> Result<(int, Seq<Option<SignalInfo>>), GhwParseError>
    decreases k,
{
    if k == 0 {
        Ok((p, s))
    } else {
        match signal_id_at(d, p, s.len()) {
            Err(e) => Err(e),
            Ok((h, q)) => handles_at(d, q, (k - 1) as nat, slot_for(s, h.0 as int, tpe, lut), tpe, lut),
        }
    }
}

/// The handles of a variable of type `id` from `p`: one for an enum (a byte), a nine-value bit
/// (a byte with its table) or an integer (`I32`/`I64`), one per bit for a nine-value vector (of at
/// most `u32::MAX` bits), those of each field in turn for a record; other types are not
/// supported. The index after them and the slot table.
pub open spec fn var_payload_at(
    d: Seq<u8>,
    p: int,
    t: Seq<TypeModel>,
    id: TypeId,
    s: Seq<Option<SignalInfo>>,
) -> Result<(int, Seq<Option<SignalInfo>>), GhwParseError>
    decreases id.0, 1int, 0int,
{
    if !type_id_in(id, t.len() as int) {
        Err(GhwParseError::FailedToParseSection("hierarchy", "type id out of range"))
    } else {
        let c = concrete_type_id(t, id);
        if !(1 <= c.0 <= id.0) {
            Err(GhwParseError::FailedToParseSection("hierarchy", "type id out of range"))
        } else {
            match t[c.0 - 1] {
                TypeModel::Enum(_, _) => handles_at(d, p, 1, s, SignalType::U8, None),
                TypeModel::NineValueBit(_, l) => handles_at(d, p, 1, s, SignalType::U8, Some(l)),
                TypeModel::I32(_, _) => handles_at(d, p, 1, s, SignalType::I32, None),
                TypeModel::I64(_, _) => handles_at(d, p, 1, s, SignalType::I64, None),
                TypeModel::NineValueVec(_, l, r) => if r.spec_len() > 0xffff_ffff {
                    Err(GhwParseError::FailedToParseSection("hierarchy", "vector is too wide"))
                } else {
                    handles_at(d, p, r.spec_len() as nat, s, SignalType::U8, Some(l))
                },
                TypeModel::Record(_, fields) => fields_payload_at(d, p, t, c, fields, 0, s),
                _ => Err(GhwParseError::FailedToParseSection("hierarchy", "unsupported variable type")),
            }
        }
    }
}

/// The handles of the fields of a record (of type `rec`) from field `j` on.
pub open spec fn fields_payload_at(
    d: Seq<u8>,
    p: int,
    t: Seq<TypeModel>,
    rec: TypeId,
    fields: Seq<(StringId, TypeId)>,
    j: int,
    s: Seq<Option<SignalInfo>>,
) -> Result<(int, Seq<Option<SignalInfo>>), GhwParseError>
    decreases rec.0, 0int, fields.len() - j,
{
    if j < 0 || j >= fields.len() {
        Ok((p, s))
    } else if !(1 <= fields[j].1.0 < rec.0) {
        Err(GhwParseError::FailedToParseSection("hierarchy", "type id out of range"))
    } else {
        match var_payload_at(d, p, t, fields[j].1, s) {
            Err(e) => Err(e),
            Ok((q, s2)) => fields_payload_at(d, q, t, rec, fields, j + 1, s2),
        }
    }
}

/// The records of a hierarchy section from `p` up to and including the `End` record, with
/// `count` variables declared so far out of at most `expected`; the index after them and the slot
/// table.
pub open spec fn hier_records_at(
    d: Seq<u8>,
    p: int,
    t: Seq<TypeModel>,
    nstr: nat,
    s: Seq<Option<SignalInfo>>,
    count: int,
    expected: int,
) -> Result<(int, Seq<Option<SignalInfo>>), GhwParseError>
    decreases d.len() - p,
{
    match u8_at(d, p) {
        Err(e) => Err(e),
        Ok((b, p1)) => match hierarchy_kind_of(b) {
            None => Err(GhwParseError::FailedToParseKindTag(b)),
            Some(k) => if k == GhwHierarchyKind::End {
                Ok((p1, s))
            } else if k == GhwHierarchyKind::EndOfScope {
                if p < p1 <= d.len() {
                    hier_records_at(d, p1, t, nstr, s, count, expected)
                } else {
                    Err(GhwParseError::UnexpectedEof)
                }
            } else if k == GhwHierarchyKind::Design {
                Err(GhwParseError::FailedToParseSection("hierarchy", "unexpected design record"))
            } else {
                match string_id_at(d, p1, nstr, "hierarchy") {
                    Err(e) => Err(e),
                    Ok((_, p2)) => if k == GhwHierarchyKind::GenerateFor {
                        match type_id_at(d, p2, t.len(), "hierarchy") {
                            Err(e) => Err(e),
                            Ok(_) => Err(
                                GhwParseError::FailedToParseSection(
                                    "hierarchy",
                                    "for-generate values are not supported",
                                ),
                            ),
                        }
                    } else if is_var_kind(k) {
                        match type_id_at(d, p2, t.len(), "hierarchy") {
                            Err(e) => Err(e),
                            Ok((id, p3)) => match var_payload_at(d, p3, t, id, s) {
                                Err(e) => Err(e),
                                Ok((q, s2)) => if count + 1 > expected {
                                    Err(
                                        GhwParseError::FailedToParseSection(
                                            "hierarchy",
                                            "more declared variables than expected",
                                        ),
                                    )
                                } else if p < q <= d.len() {
                                    hier_records_at(d, q, t, nstr, s2, count + 1, expected)
                                } else {
                                    Err(GhwParseError::UnexpectedEof)
                                },
                            },
                        }
                    } else if p < p2 <= d.len() {
                        hier_records_at(d, p2, t, nstr, s, count, expected)
                    } else {
                        Err(GhwParseError::UnexpectedEof)
                    },
                }
            },
        },
    }
}

/// The allocated slots of a slot table, in handle order.
pub open spec fn compact(s: Seq<Option<SignalInfo>>) -> Seq<SignalInfo>
    decreases s.len(),
{
    if s.len() == 0 {
        seq![]
    } else {
        match s.last() {
            Some(x) => compact(s.drop_last()).push(x),
            None => compact(s.drop_last()),
        }
    }
}

/// The hierarchy section (after its tag) at `p`: a 16-byte head with four zero bytes, the
/// scope count, the declared-variable bound and the largest handle (none of them negative),
/// then the records. The index after it and the allocated slots in handle order.
#[verifier::opaque]
pub open spec fn hier_section_at(d: Seq<u8>, p: int, big_endian: bool, t: Seq<TypeModel>, nstr: nat) -> Result<
    (int, Seq<SignalInfo>),
    GhwParseError,
> {
    if p < 0 || p + 16 > d.len() {
        Err(GhwParseError::UnexpectedEof)
    } else if !(d[p] == 0 && d[p + 1] == 0 && d[p + 2] == 0 && d[p + 3] == 0) {
        Err(GhwParseError::FailedToParseSection("hierarchy", "first four bytes should be zero"))
    } else {
        let scopes = word32(d.subrange(p + 4, p + 8), big_endian);
        let expected = word32(d.subrange(p + 8, p + 12), big_endian);
        let max_signal = word32(d.subrange(p + 12, p + 16), big_endian);
        if scopes >= 0x8000_0000 {
            Err(GhwParseError::ExpectedPositiveInteger(signed32(scopes) as i64))
        } else if expected >= 0x8000_0000 {
            Err(GhwParseError::ExpectedPositiveInteger(signed32(expected) as i64))
        } else if max_signal >= 0x8000_0000 {
            Err(GhwParseError::ExpectedPositiveInteger(signed32(max_signal) as i64))
        } else {
            match hier_records_at(
                d,
                p + 16,
                t,
                nstr,
                Seq::new((max_signal + 1) as nat, |i: int| None::<SignalInfo>),
                0,
                expected,
            ) {
                Err(e) => Err(e),
                Ok((q, s)) => Ok((q, compact(s))),
            }
        }
    }
}

/// Reads a signal handle and gives it a slot of the given kind the first time it is seen.
pub fn read_signal_id(
    input: &mut Input,
    signals: &mut Vec<Option<SignalInfo>>,
    tpe: SignalType,
    lut: Option<[u8; 9]>,
) -> (r: Result<SignalRef, GhwParseError>)
    requires
        old(input).wf(),
        slots_wf(old(signals)@),
        old(signals)@.len() <= 0x8000_0000,
    ensures
        final(input).wf(),
        final(input).same_data(old(input)),
        slots_wf(final(signals)@),
        read_as(r, final(input).pos as int, signal_id_at(old(input).data@, old(input).pos as int, old(signals)@.len())),
        r is Err ==> final(signals)@ == old(signals)@,
        r matches Ok(h) ==> final(signals)@ == if old(signals)@[h.0 as int] is None {
            old(signals)@.update(
                h.0 as int,
                Some(SignalInfo { start_id: h.0 as u32, end_id: h.0 as u32, tpe, lut }),
            )
        } else {
            old(signals)@
        },
        r is Ok ==> final(input).pos >= old(input).pos,
{
    let ghost p0 = input.pos as int;
    let index = read_unsigned(input)?;
    assert(uleb_at(input.data@, p0) == Ok::<(int, int), GhwParseError>((index as int, input.pos as int)));
    if index == 0 || index >= signals.len() as u64 {
        return Err(GhwParseError::FailedToParseSection("hierarchy", "signal id out of range"));
    }
    let i = index as usize;
    if signals[i].is_none() {
        signals.set(i, Some(SignalInfo { start_id: i as u32, end_id: i as u32, tpe, lut }));
    }
    Ok(SignalRef(i))
}

/// The tables of the dump that the hierarchy refers to, and which of their entries were already
/// added to the hierarchy.
pub struct GhwTables {
    pub types: Vec<VhdlType>,
    pub strings: Vec<String>,
    /// The hierarchy's id of each string of the dump, once it was added.
    pub hier_string_ids: Vec<Option<HierarchyStringId>>,
    /// The hierarchy's enum type of each type of the dump, once it was added.
    pub enum_ids: Vec<Option<EnumTypeId>>,
}

/// `h2` grew from `h1`: it kept every string, scope, variable and enum type.
pub open spec fn builder_extends(h2: HierarchyBuilder, h1: HierarchyBuilder) -> bool {
    &&& h1.strings@.len() <= h2.strings@.len()
    &&& forall|i: int| 0 <= i < h1.strings@.len() ==> h2.strings@[i] == h1.strings@[i]
    &&& h1.enums@.len() <= h2.enums@.len()
    &&& h1.scopes@.len() <= h2.scopes@.len()
    &&& forall|i: int| 0 <= i < h1.scopes@.len() ==> h2.scopes@[i] == h1.scopes@[i]
    &&& h1.vars@.len() <= h2.vars@.len()
    &&& forall|i: int| 0 <= i < h1.vars@.len() ==> h2.vars@[i] == h1.vars@[i]
}

/// Slots of `s1` stay as they were in `s2`.
pub open spec fn slots_extend(s2: Seq<Option<SignalInfo>>, s1: Seq<Option<SignalInfo>>) -> bool {
    &&& s2.len() == s1.len()
    &&& forall|i: int| 0 <= i < s1.len() && s1[i] is Some ==> s2[i] == s1[i]
}

/// Every variable refers to a handle that has a slot.
pub open spec fn vars_have_slots(vars: Seq<Var>, s: Seq<Option<SignalInfo>>) -> bool {
    forall|i: int| 0 <= i < vars.len() ==> (#[trigger] vars[i]).signal.0 < s.len() && s[vars[i].signal.0 as int] is Some
}

impl GhwTables {
    pub open spec fn wf(&self, h: HierarchyBuilder) -> bool {
        &&& types_wf(table_view(self.types@), self.strings@.len())
        &&& self.types@.len() <= 0x7fff_ffff
        &&& self.hier_string_ids@.len() == self.strings@.len()
        &&& forall|i: int|
            0 <= i < self.strings@.len() ==> (#[trigger] self.hier_string_ids@[i] matches Some(x) ==> x.0
                < h.strings@.len() && h.strings@[x.0 as int]@ == self.strings@[i]@)
        &&& self.enum_ids@.len() == self.types@.len()
        &&& forall|i: int|
            0 <= i < self.types@.len() ==> (#[trigger] self.enum_ids@[i] matches Some(e) ==> e.0
                < h.enums@.len())
    }

    /// Tables over the given strings and types, none of them added to a hierarchy yet.
    pub fn new(strings: Vec<String>, types: Vec<VhdlType>) -> (r: GhwTables)
        requires
            types_wf(table_view(types@), strings@.len()),
            types@.len() <= 0x7fff_ffff,
        ensures
            r.strings@ == strings@,
            r.types@ == types@,
            forall|h: HierarchyBuilder| #[trigger] r.wf(h),
    {
        let mut hier_string_ids: Vec<Option<HierarchyStringId>> = Vec::new();
        let mut i: usize = 0;
        while i < strings.len()
            invariant
                i <= strings@.len(),
                hier_string_ids@.len() == i,
                forall|j: int| 0 <= j < i ==> hier_string_ids@[j] is None,
            decreases strings@.len() - i,
        {
            hier_string_ids.push(None);
            i = i + 1;
        }
        let mut enum_ids: Vec<Option<EnumTypeId>> = Vec::new();
        let mut k: usize = 0;
        while k < types.len()
            invariant
                k <= types@.len(),
                enum_ids@.len() == k,
                forall|j: int| 0 <= j < k ==> enum_ids@[j] is None,
            decreases types@.len() - k,
        {
            enum_ids.push(None);
            k = k + 1;
        }
        GhwTables { types, strings, hier_string_ids, enum_ids }
    }

    /// The type that `type_id` names, with one alias layer resolved.
    pub fn get_type(&self, type_id: TypeId) -> (r: &VhdlType)
        requires
            type_id_in(type_id, self.types@.len() as int),
            types_wf(table_view(self.types@), self.strings@.len()),
        ensures
            r@ == table_view(self.types@)[concrete_type_id(table_view(self.types@), type_id).0 - 1],
    {
        let c = lookup_concrete_type_id(&self.types, type_id);
        &self.types[c.index()]
    }

    /// The resolved type that `type_id` names, and the name of `type_id` itself.
    pub fn get_type_and_name(&self, type_id: TypeId) -> (r: (&VhdlType, StringId))
        requires
            type_id_in(type_id, self.types@.len() as int),
            types_wf(table_view(self.types@), self.strings@.len()),
        ensures
            r.0@ == table_view(self.types@)[concrete_type_id(table_view(self.types@), type_id).0 - 1],
            r.1 == table_view(self.types@)[type_id.0 - 1].name(),
    {
        let name = self.types[type_id.index()].name();
        (self.get_type(type_id), name)
    }

    pub fn get_str(&self, string_id: StringId) -> (r: &str)
        requires
            string_id.0 < self.strings@.len(),
        ensures
            r@ == self.strings@[string_id.0 as int]@,
    {
        self.strings[string_id.0].as_str()
    }

    /// The hierarchy's id for a string of the dump; the string is added the first time.
    pub fn get_hier_str_id(&mut self, h: &mut HierarchyBuilder, string_id: StringId) -> (r: HierarchyStringId)
        requires
            old(self).wf(*old(h)),
            old(h).wf(),
            string_id.0 < old(self).strings@.len(),
        ensures
            final(self).wf(*final(h)),
            final(h).wf(),
            builder_extends(*final(h), *old(h)),
            final(h).scopes@ == old(h).scopes@,
            final(h).vars@ == old(h).vars@,
            final(h).stack@ == old(h).stack@,
            final(h).enums@ == old(h).enums@,
            final(self).types@ == old(self).types@,
            final(self).strings@ == old(self).strings@,
            final(self).enum_ids@ == old(self).enum_ids@,
            r.0 < final(h).strings@.len(),
            final(h).strings@[r.0 as int]@ == old(self).strings@[string_id.0 as int]@,
    {
        match self.hier_string_ids[string_id.0] {
            Some(id) => id,
            None => {
                let s = self.strings[string_id.0].clone();
                let id = h.add_string(s);
                self.hier_string_ids.set(string_id.0, Some(id));
                proof {
                    assert forall|i: int| 0 <= i < self.strings@.len() implies (
                    #[trigger] self.hier_string_ids@[i] matches Some(x) ==> x.0 < h.strings@.len()
                        && h.strings@[x.0 as int]@ == self.strings@[i]@) by {
                        if i != string_id.0 {
                            assert(old(self).hier_string_ids@[i] == self.hier_string_ids@[i]);
                        }
                    }
                }
                id
            },
        }
    }
}

proof fn lemma_tables_follow(t: GhwTables, h1: HierarchyBuilder, h2: HierarchyBuilder)
    requires
        t.wf(h1),
        builder_extends(h2, h1),
    ensures
        t.wf(h2),
{
    assert forall|i: int| 0 <= i < t.strings@.len() implies (#[trigger] t.hier_string_ids@[i] matches Some(
        x,
    ) ==> x.0 < h2.strings@.len() && h2.strings@[x.0 as int]@ == t.strings@[i]@) by {
        if let Some(x) = t.hier_string_ids@[i] {
            assert(h2.strings@[x.0 as int] == h1.strings@[x.0 as int]);
        }
    }
}

proof fn lemma_slots_follow(vars: Seq<Var>, s1: Seq<Option<SignalInfo>>, s2: Seq<Option<SignalInfo>>)
    requires
        vars_have_slots(vars, s1),
        slots_extend(s2, s1),
    ensures
        vars_have_slots(vars, s2),
{
    assert forall|i: int| 0 <= i < vars.len() implies (#[trigger] vars[i]).signal.0 < s2.len()
        && s2[vars[i].signal.0 as int] is Some by {
        assert(s1[vars[i].signal.0 as int] is Some);
    }
}

/// The character of a decimal digit.
pub open spec fn digit_char(d: nat) -> char {
    if d == 0 {
        '0'
    } else if d == 1 {
        '1'
    } else if d == 2 {
        '2'
    } else if d == 3 {
        '3'
    } else if d == 4 {
        '4'
    } else if d == 5 {
        '5'
    } else if d == 6 {
        '6'
    } else if d == 7 {
        '7'
    } else if d == 8 {
        '8'
    } else {
        '9'
    }
}

/// The decimal text of `n`, without leading zeros.
pub open spec fn decimal(n: nat) -> Seq<char>
    decreases n,
{
    if n < 10 {
        seq![digit_char(n)]
    } else {
        decimal(n / 10) + seq![digit_char(n % 10)]
    }
}

fn digit_str(d: u64) -> (r: &'static str)
    requires
        d < 10,
    ensures
        r@ == seq![digit_char(d as nat)],
{
    proof {
        reveal_strlit("0");
        reveal_strlit("1");
        reveal_strlit("2");
        reveal_strlit("3");
        reveal_strlit("4");
        reveal_strlit("5");
        reveal_strlit("6");
        reveal_strlit("7");
        reveal_strlit("8");
        reveal_strlit("9");
    }
    if d == 0 {
        "0"
    } else if d == 1 {
        "1"
    } else if d == 2 {
        "2"
    } else if d == 3 {
        "3"
    } else if d == 4 {
        "4"
    } else if d == 5 {
        "5"
    } else if d == 6 {
        "6"
    } else if d == 7 {
        "7"
    } else if d == 8 {
        "8"
    } else {
        "9"
    }
}

/// The decimal text of `n`.
pub fn decimal_string(n: u64) -> (r: String)
    ensures
        r@ == decimal(n as nat),
    decreases n,
{
    if n < 10 {
        digit_str(n).to_owned()
    } else {
        let mut s = decimal_string(n / 10);
        s.append(digit_str(n % 10));
        s
    }
}

/// The shape of a variable's type, as far as the hierarchy needs it.
enum VarShape {
    Enum,
    Bit([u8; 9]),
    Vector([u8; 9], IntRange),
    Int32,
    Int64,
    Record(usize),
    Other,
}

fn shape_of(t: &VhdlType) -> (r: VarShape)
    ensures
        r is Enum <==> t@ is Enum,
        r matches VarShape::Bit(lut) ==> t@ == TypeModel::NineValueBit(t@.name(), lut),
        r matches VarShape::Vector(lut, range) ==> t@ == TypeModel::NineValueVec(t@.name(), lut, range),
        r is Int32 <==> t@ is I32,
        r is Int64 <==> t@ is I64,
        r matches VarShape::Record(n) ==> t@ is Record && n == t@->Record_1.len(),
        (r is Bit <==> t@ is NineValueBit),
        (r is Vector <==> t@ is NineValueVec),
        (r is Record <==> t@ is Record),
{
    match t {
        VhdlType::Enum(_, _) => VarShape::Enum,
        VhdlType::NineValueBit(_, lut) => VarShape::Bit(*lut),
        VhdlType::NineValueVec(_, lut, range) => VarShape::Vector(*lut, *range),
        VhdlType::I32(_, _) => VarShape::Int32,
        VhdlType::I64(_, _) => VarShape::Int64,
        VhdlType::Record(_, fields) => VarShape::Record(fields.len()),
        _ => VarShape::Other,
    }
}

/// Field `j` of the record type at index `ci`.
fn record_field(types: &Vec<VhdlType>, ci: usize, j: usize) -> (r: (StringId, TypeId))
    requires
        ci < types@.len(),
        table_view(types@)[ci as int] is Record,
        j < table_view(types@)[ci as int]->Record_1.len(),
    ensures
        r == table_view(types@)[ci as int]->Record_1[j as int],
{
    match &types[ci] {
        VhdlType::Record(_, fields) => fields[j],
        _ => (StringId(0), TypeId(1)),
    }
}

/// Adds the enum type at index `ci` to the hierarchy: raw value `i` (in decimal) maps to the
/// text of literal `i`.
fn add_enum_mapping(tables: &GhwTables, h: &mut HierarchyBuilder, ci: usize, name: HierarchyStringId) -> (r:
    EnumTypeId)
    requires
        old(h).wf(),
        tables.wf(*old(h)),
        ci < tables.types@.len(),
        table_view(tables.types@)[ci as int] is Enum,
        name.0 < old(h).strings@.len(),
    ensures
        final(h).wf(),
        builder_extends(*final(h), *old(h)),
        final(h).strings@ == old(h).strings@,
        final(h).scopes@ == old(h).scopes@,
        final(h).vars@ == old(h).vars@,
        final(h).stack@ == old(h).stack@,
        r.0 == old(h).enums@.len(),
        final(h).enums@.len() == old(h).enums@.len() + 1,
        ({
            let lits = table_view(tables.types@)[ci as int]->Enum_1;
            let m = final(h).enums@[r.0 as int].mapping@;
            &&& m.len() == lits.len()
            &&& forall|i: int|
                0 <= i < lits.len() ==> (#[trigger] m[i]).0@ == decimal(i as nat) && m[i].1@
                    == tables.strings@[lits[i].0 as int]@
        }),
{
    let ghost lits = table_view(tables.types@)[ci as int]->Enum_1;
    assert(type_strings_wf(table_view(tables.types@)[ci as int], tables.strings@.len()));
    let mut mapping: Vec<(String, String)> = Vec::new();
    match &tables.types[ci] {
        VhdlType::Enum(_, literals) => {
            let mut i: usize = 0;
            while i < literals.len()
                invariant
                    literals@ == lits,
                    forall|j: int| 0 <= j < lits.len() ==> (#[trigger] lits[j]).0 < tables.strings@.len(),
                    i <= lits.len(),
                    mapping@.len() == i,
                    forall|j: int|
                        0 <= j < i ==> (#[trigger] mapping@[j]).0@ == decimal(j as nat) && mapping@[j].1@
                            == tables.strings@[lits[j].0 as int]@,
                decreases lits.len() - i,
            {
                let key = decimal_string(i as u64);
                let value = tables.strings[literals[i].0].clone();
                mapping.push((key, value));
                i = i + 1;
            }
        },
        _ => {},
    }
    h.add_enum_type(name, mapping)
}

/// Types that make a single variable.
pub open spec fn is_leaf_type(m: TypeModel) -> bool {
    m is Enum || m is NineValueBit || m is NineValueVec || m is I32 || m is I64
}

/// Bit width of the variable of a single-variable type.
pub open spec fn leaf_width(m: TypeModel) -> int {
    match m {
        TypeModel::NineValueVec(_, _, r) => r.spec_len(),
        TypeModel::I32(_, _) => 32,
        TypeModel::I64(_, _) => 64,
        _ => 1,
    }
}

/// Index range of the variable of a single-variable type.
pub open spec fn leaf_index(m: TypeModel) -> Option<VarIndex> {
    match m {
        TypeModel::NineValueVec(_, _, r) => Some(VarIndex { msb: r.1, lsb: r.2 }),
        _ => None,
    }
}

/// What a step of the hierarchy reader keeps: the tables and the builder stay well formed and
/// consistent, nothing that was added goes away, and every variable has a slot.
pub open spec fn hier_step(
    t1: GhwTables,
    t2: GhwTables,
    h1: HierarchyBuilder,
    h2: HierarchyBuilder,
    s1: Seq<Option<SignalInfo>>,
    s2: Seq<Option<SignalInfo>>,
) -> bool {
    &&& t2.wf(h2)
    &&& h2.wf()
    &&& builder_extends(h2, h1)
    &&& t2.types@ == t1.types@
    &&& t2.strings@ == t1.strings@
    &&& slots_wf(s2)
    &&& slots_extend(s2, s1)
    &&& vars_have_slots(h2.vars@, s2)
}

/// Adds the variable `name` of type `type_id` to the hierarchy, reading its signal handles.
/// Enums (as bits with an enum type), nine-value bits, nine-value vectors and integers make
/// one variable; a record makes a `Module` scope with one entry per field.
pub fn add_var(
    tables: &mut GhwTables,
    input: &mut Input,
    kind: GhwHierarchyKind,
    signals: &mut Vec<Option<SignalInfo>>,
    h: &mut HierarchyBuilder,
    name: HierarchyStringId,
    type_id: TypeId,
) -> (r: Result<(), GhwParseError>)
    requires
        old(tables).wf(*old(h)),
        old(h).wf(),
        old(input).wf(),
        slots_wf(old(signals)@),
        old(signals)@.len() <= 0x8000_0000,
        vars_have_slots(old(h).vars@, old(signals)@),
        is_var_kind(kind),
        name.0 < old(h).strings@.len(),
        type_id_in(type_id, old(tables).types@.len() as int),
    ensures
        hier_step(*old(tables), *final(tables), *old(h), *final(h), old(signals)@, final(signals)@),
        final(input).wf(),
        final(input).same_data(old(input)),
        r is Ok ==> final(input).pos >= old(input).pos,
        r is Ok ==> final(h).stack@ == old(h).stack@,
        ({
            let t = table_view(old(tables).types@);
            let m = t[concrete_type_id(t, type_id).0 - 1];
            &&& r is Ok && is_leaf_type(m) ==> {
                let v = final(h).vars@.last();
                &&& final(h).vars@.len() == old(h).vars@.len() + 1
                &&& v.name == name
                &&& (v.var_tpe, v.direction) == var_kind_of(kind)
                &&& v.width == leaf_width(m)
                &&& v.index == leaf_index(m)
                &&& v.parent == old(h).current()
                &&& (v.enum_type is Some <==> m is Enum)
                &&& v.tpe_name matches Some(tn) && tn.0 < final(h).strings@.len() && final(h).strings@[tn.0 as int]@
                    == old(tables).strings@[t[type_id.0 - 1].name().0 as int]@
                &&& signal_id_at(old(input).data@, old(input).pos as int, old(signals)@.len()) matches Ok(
                    (hnd, _),
                ) && v.signal == hnd
            }
            &&& r is Ok && m is Record ==> final(h).scopes@.len() > old(h).scopes@.len()
                && final(h).scopes@[old(h).scopes@.len() as int] == Scope {
                name,
                component: None,
                tpe: ScopeType::Module,
                parent: old(h).current(),
            }
            &&& !(is_leaf_type(m) || m is Record) ==> r == Err::<(), GhwParseError>(
                GhwParseError::FailedToParseSection("hierarchy", "unsupported variable type"),
            )
        }),
        match var_payload_at(old(input).data@, old(input).pos as int, table_view(old(tables).types@), type_id, old(signals)@) {
            Err(e) => r == Err::<(), GhwParseError>(e),
            Ok((q, sl)) => r is Ok && final(input).pos == q && final(signals)@ == sl,
        },
    decreases type_id.0,
{
    let ghost t0 = *tables;
    let ghost h0 = *h;
    let ghost s0 = signals@;
    let (var_tpe, dir) = convert_var_kind(kind);
    let c = lookup_concrete_type_id(&tables.types, type_id);
    let ci = c.index();
    let tname = tables.types[type_id.index()].name();
    proof {
        assert(type_strings_wf(table_view(tables.types@)[type_id.0 - 1], tables.strings@.len()));
        assert(type_links_wf(table_view(tables.types@), ci as int));
        assert(type_links_wf(table_view(tables.types@), type_id.0 - 1));
        assert(type_strings_wf(table_view(tables.types@)[ci as int], tables.strings@.len()));
    }
    let shape = shape_of(&tables.types[ci]);
    let ghost d = input.data@;
    let ghost p0 = input.pos as int;
    let ghost nsl = signals@.len();
    let ghost tv = table_view(tables.types@);
    proof {
        reveal_with_fuel(handles_at, 2);
    }
    let tpe_name = tables.get_hier_str_id(h, tname);
    match shape {
        VarShape::Enum => {
            let enum_type = match tables.enum_ids[ci] {
                Some(e) => e,
                None => {
                    let ghost h1 = *h;
                    let e = add_enum_mapping(tables, h, ci, tpe_name);
                    proof {
                        lemma_tables_follow(*tables, h1, *h);
                    }
                    tables.enum_ids.set(ci, Some(e));
                    proof {
                        assert forall|i: int| 0 <= i < tables.types@.len() implies (
                        #[trigger] tables.enum_ids@[i] matches Some(x) ==> x.0 < h.enums@.len()) by {
                            if i != ci {
                                assert(tables.enum_ids@[i] == t0.enum_ids@[i]);
                            }
                        }
                    }
                    e
                },
            };
            let hnd = read_signal_id(input, signals, SignalType::U8, None)?;
            proof {
                lemma_slots_follow(h.vars@, s0, signals@);
            }
            h.add_var(name, var_tpe, dir, 1, None, hnd, Some(enum_type), Some(tpe_name));
        },
        VarShape::Bit(lut) => {
            let hnd = read_signal_id(input, signals, SignalType::U8, Some(lut))?;
            proof {
                lemma_slots_follow(h.vars@, s0, signals@);
            }
            h.add_var(name, var_tpe, dir, 1, None, hnd, None, Some(tpe_name));
        },
        VarShape::Vector(lut, range) => {
            let num_bits = range.len();
            if num_bits > 0xffff_ffff {
                return Err(GhwParseError::FailedToParseSection("hierarchy", "vector is too wide"));
            }
            let ghost whole = handles_at(d, p0, num_bits as nat, signals@, SignalType::U8, Some(lut));
            let first = read_signal_id(input, signals, SignalType::U8, Some(lut))?;
            proof {
                lemma_slots_follow(h.vars@, s0, signals@);
            }
            let mut i: i128 = 1;
            while i < num_bits
                invariant
                    t0 == *old(tables),
                    h0 == *old(h),
                    s0 == old(signals)@,
                    tables.wf(*h),
                    h.wf(),
                    builder_extends(*h, h0),
                    tables.types@ == t0.types@,
                    tables.strings@ == t0.strings@,
                    input.wf(),
                    input.data@ == old(input).data@,
                    input.pos >= old(input).pos,
                    slots_wf(signals@),
                    slots_extend(signals@, s0),
                    signals@.len() <= 0x8000_0000,
                    vars_have_slots(h.vars@, signals@),
                    first.0 < signals@.len() && signals@[first.0 as int] is Some,
                    1 <= i,
                    ci as int == concrete_type_id(table_view(t0.types@), type_id).0 - 1,
                    table_view(t0.types@)[ci as int] is NineValueVec,
                    i <= num_bits,
                    signals@.len() == nsl,
                    d == old(input).data@,
                    nsl == old(signals)@.len(),
                    whole == handles_at(d, old(input).pos as int, num_bits as nat, old(signals)@, SignalType::U8, Some(lut)),
                    tv == table_view(t0.types@),
                    whole == var_payload_at(d, old(input).pos as int, tv, type_id, old(signals)@),
                    handles_at(d, input.pos as int, (num_bits - i) as nat, signals@, SignalType::U8, Some(lut)) == whole,
                decreases num_bits - i,
            {
                let ghost before = signals@;
                let _ = read_signal_id(input, signals, SignalType::U8, Some(lut))?;
                proof {
                    lemma_slots_follow(h.vars@, before, signals@);
                    assert(signals@[first.0 as int] is Some);
                }
                i = i + 1;
            }
            let index = range.as_var_index();
            h.add_var(
                name,
                var_tpe,
                dir,
                num_bits as u32,
                Some(VarIndex { msb: index.0, lsb: index.1 }),
                first,
                None,
                Some(tpe_name),
            );
        },
        VarShape::Int32 => {
            let hnd = read_signal_id(input, signals, SignalType::I32, None)?;
            proof {
                lemma_slots_follow(h.vars@, s0, signals@);
            }
            h.add_var(name, var_tpe, dir, 32, None, hnd, None, Some(tpe_name));
        },
        VarShape::Int64 => {
            let hnd = read_signal_id(input, signals, SignalType::I64, None)?;
            proof {
                lemma_slots_follow(h.vars@, s0, signals@);
            }
            h.add_var(name, var_tpe, dir, 64, None, hnd, None, Some(tpe_name));
        },
        VarShape::Record(num_fields) => {
            let ghost scope_at = h.scopes@.len();
            let ghost cur = h.current();
            h.add_scope(name, None, ScopeType::Module);
            let mut j: usize = 0;
            while j < num_fields
                invariant
                    t0 == *old(tables),
                    h0 == *old(h),
                    s0 == old(signals)@,
                    tables.wf(*h),
                    h.wf(),
                    builder_extends(*h, h0),
                    tables.types@ == t0.types@,
                    tables.strings@ == t0.strings@,
                    input.wf(),
                    input.data@ == old(input).data@,
                    input.pos >= old(input).pos,
                    slots_wf(signals@),
                    slots_extend(signals@, s0),
                    signals@.len() <= 0x8000_0000,
                    vars_have_slots(h.vars@, signals@),
                    is_var_kind(kind),
                    ci < tables.types@.len(),
                    ci < type_id.0,
                    table_view(tables.types@)[ci as int] is Record,
                    num_fields == table_view(tables.types@)[ci as int]->Record_1.len(),
                    type_links_wf(table_view(tables.types@), ci as int),
                    type_strings_wf(table_view(tables.types@)[ci as int], tables.strings@.len()),
                    ci as int == concrete_type_id(table_view(t0.types@), type_id).0 - 1,
                    signals@.len() == nsl,
                    d == old(input).data@,
                    nsl == old(signals)@.len(),
                    tv == table_view(t0.types@),
                    fields_payload_at(d, input.pos as int, tv, TypeId((ci + 1) as u32), tv[ci as int]->Record_1, j as int, signals@)
                        == var_payload_at(d, old(input).pos as int, tv, type_id, old(signals)@),
                    scope_at == h0.scopes@.len(),
                    cur == h0.current(),
                    h.scopes@.len() > scope_at,
                    h.scopes@[scope_at as int] == (Scope { name, component: None, tpe: ScopeType::Module, parent: cur }),
                    h.stack@ == h0.stack@.push(ScopeRef(scope_at as usize)),
                decreases num_fields - j,
            {
                let (field_name, field_tpe) = record_field(&tables.types, ci, j);
                let fid = tables.get_hier_str_id(h, field_name);
                add_var(tables, input, kind, signals, h, fid, field_tpe)?;
                j = j + 1;
            }
            h.pop_scope();
            assert(h.stack@ =~= h0.stack@);
        },
        VarShape::Other => {
            return Err(GhwParseError::FailedToParseSection("hierarchy", "unsupported variable type"));
        },
    }
    Ok(())
}

/// Reads a scope record (after its kind byte) and opens the scope.
pub fn read_hierarchy_scope(
    tables: &mut GhwTables,
    input: &mut Input,
    kind: GhwHierarchyKind,
    h: &mut HierarchyBuilder,
) -> (r: Result<(), GhwParseError>)
    requires
        old(tables).wf(*old(h)),
        old(h).wf(),
        old(input).wf(),
        is_scope_kind(kind),
    ensures
        final(tables).wf(*final(h)),
        final(h).wf(),
        builder_extends(*final(h), *old(h)),
        final(tables).types@ == old(tables).types@,
        final(tables).strings@ == old(tables).strings@,
        final(h).vars@ == old(h).vars@,
        final(input).wf(),
        final(input).same_data(old(input)),
        r is Ok ==> final(input).pos >= old(input).pos,
        r is Ok ==> final(h).scopes@.len() == old(h).scopes@.len() + 1 && final(h).scopes@.last().tpe
            == scope_type_of(kind),
        r is Ok ==> (string_id_at(old(input).data@, old(input).pos as int, old(tables).strings@.len(), "hierarchy")
            matches Ok((sid, _)) && {
            let sc = final(h).scopes@.last();
            &&& sc.component is None
            &&& sc.parent == old(h).current()
            &&& sc.name.0 < final(h).strings@.len()
            &&& final(h).strings@[sc.name.0 as int]@ == old(tables).strings@[sid.0 as int]@
            &&& final(h).stack@ == old(h).stack@.push(ScopeRef(old(h).scopes@.len() as usize))
        }),
        match string_id_at(old(input).data@, old(input).pos as int, old(tables).strings@.len(), "hierarchy") {
            Err(e) => r == Err::<(), GhwParseError>(e),
            Ok((_, q)) => if kind == GhwHierarchyKind::GenerateFor {
                match type_id_at(old(input).data@, q, old(tables).types@.len(), "hierarchy") {
                    Err(e) => r == Err::<(), GhwParseError>(e),
                    Ok(_) => r == Err::<(), GhwParseError>(
                        GhwParseError::FailedToParseSection("hierarchy", "for-generate values are not supported"),
                    ),
                }
            } else {
                r is Ok && final(input).pos == q
            },
        },
{
    let name = read_string_id(input, tables.strings.len(), "hierarchy")?;
    if kind == GhwHierarchyKind::GenerateFor {
        let _iter_type = read_type_id(input, tables.types.len(), "hierarchy")?;
        return Err(GhwParseError::FailedToParseSection("hierarchy", "for-generate values are not supported"));
    }
    let hname = tables.get_hier_str_id(h, name);
    let ghost h1 = *h;
    h.add_scope(hname, None, convert_scope_type(kind));
    proof {
        lemma_tables_follow(*tables, h1, *h);
    }
    Ok(())
}

/// Reads a variable record (after its kind byte): its name, its type, and its signal handles.
pub fn read_hierarchy_var(
    tables: &mut GhwTables,
    input: &mut Input,
    kind: GhwHierarchyKind,
    signals: &mut Vec<Option<SignalInfo>>,
    h: &mut HierarchyBuilder,
) -> (r: Result<(), GhwParseError>)
    requires
        old(tables).wf(*old(h)),
        old(h).wf(),
        old(input).wf(),
        slots_wf(old(signals)@),
        old(signals)@.len() <= 0x8000_0000,
        vars_have_slots(old(h).vars@, old(signals)@),
        is_var_kind(kind),
    ensures
        hier_step(*old(tables), *final(tables), *old(h), *final(h), old(signals)@, final(signals)@),
        final(input).wf(),
        final(input).same_data(old(input)),
        r is Ok ==> final(input).pos >= old(input).pos,
        match string_id_at(old(input).data@, old(input).pos as int, old(tables).strings@.len(), "hierarchy") {
            Err(e) => r == Err::<(), GhwParseError>(e),
            Ok((_, p2)) => match type_id_at(old(input).data@, p2, old(tables).types@.len(), "hierarchy") {
                Err(e) => r == Err::<(), GhwParseError>(e),
                Ok((id, p3)) => match var_payload_at(old(input).data@, p3, table_view(old(tables).types@), id, old(signals)@) {
                    Err(e) => r == Err::<(), GhwParseError>(e),
                    Ok((q, sl)) => r is Ok && final(input).pos == q && final(signals)@ == sl,
                },
            },
        },
        r is Ok ==> final(h).stack@ == old(h).stack@,
        r is Ok ==> (string_id_at(old(input).data@, old(input).pos as int, old(tables).strings@.len(), "hierarchy")
            matches Ok((sid, p2)) && type_id_at(old(input).data@, p2, old(tables).types@.len(), "hierarchy")
            matches Ok((id, _)) && {
            let t = table_view(old(tables).types@);
            let m = t[concrete_type_id(t, id).0 - 1];
            &&& is_leaf_type(m) ==> {
                let v = final(h).vars@.last();
                &&& final(h).vars@.len() == old(h).vars@.len() + 1
                &&& v.name.0 < final(h).strings@.len()
                &&& final(h).strings@[v.name.0 as int]@ == old(tables).strings@[sid.0 as int]@
                &&& (v.var_tpe, v.direction) == var_kind_of(kind)
                &&& v.width == leaf_width(m)
                &&& v.index == leaf_index(m)
                &&& v.parent == old(h).current()
            }
            &&& m is Record ==> {
                let sc = final(h).scopes@[old(h).scopes@.len() as int];
                &&& final(h).scopes@.len() > old(h).scopes@.len()
                &&& sc.tpe == ScopeType::Module
                &&& sc.parent == old(h).current()
                &&& sc.name.0 < final(h).strings@.len()
                &&& final(h).strings@[sc.name.0 as int]@ == old(tables).strings@[sid.0 as int]@
            }
        }),
{
    let name_id = read_string_id(input, tables.strings.len(), "hierarchy")?;
    let name = tables.get_hier_str_id(h, name_id);
    proof {
        lemma_slots_follow(h.vars@, old(signals)@, signals@);
    }
    let tpe = read_type_id(input, tables.types.len(), "hierarchy")?;
    add_var(tables, input, kind, signals, h, name, tpe)
}

/// The slots that were allocated, in handle order.
pub fn compact_slots(signals: Vec<Option<SignalInfo>>) -> (r: Vec<SignalInfo>)
    requires
        slots_wf(signals@),
    ensures
        r@ == compact(signals@),
        forall|k: int|
            0 <= k < r@.len() ==> (#[trigger] r@[k]).start_id == r@[k].end_id && r@[k].start_id
                >= 1 && r@[k].start_id < signals@.len() && signals@[r@[k].start_id as int]
                == Some(r@[k]),
        forall|k: int, l: int| 0 <= k < l < r@.len() ==> r@[k].start_id < r@[l].start_id,
        forall|i: int|
            0 <= i < signals@.len() && signals@[i] is Some ==> exists|k: int|
                0 <= k < r@.len() && (#[trigger] r@[k]).start_id == i,
{
    let mut out: Vec<SignalInfo> = Vec::new();
    let mut i: usize = 0;
    while i < signals.len()
        invariant
            slots_wf(signals@),
            i <= signals@.len(),
            out@ == compact(signals@.subrange(0, i as int)),
            forall|k: int|
                0 <= k < out@.len() ==> (#[trigger] out@[k]).start_id == out@[k].end_id
                    && out@[k].start_id >= 1 && out@[k].start_id < i && signals@[out@[k].start_id as int]
                    == Some(out@[k]),
            forall|k: int, l: int| 0 <= k < l < out@.len() ==> out@[k].start_id < out@[l].start_id,
            forall|j: int|
                0 <= j < i && signals@[j] is Some ==> exists|k: int|
                    0 <= k < out@.len() && (#[trigger] out@[k]).start_id == j,
        decreases signals@.len() - i,
    {
        proof {
            assert(signals@.subrange(0, i + 1).drop_last() =~= signals@.subrange(0, i as int));
        }
        match signals[i] {
            Some(info) => {
                let ghost before = out@;
                assert(signals@[i as int] matches Some(x) ==> x.start_id == i);
                out.push(info);
                proof {
                    assert forall|j: int| 0 <= j < i + 1 && signals@[j] is Some implies exists|k: int|
                        0 <= k < out@.len() && (#[trigger] out@[k]).start_id == j by {
                        if j < i {
                            let k = choose|k: int| 0 <= k < before.len() && (#[trigger] before[k]).start_id == j;
                            assert(out@[k] == before[k]);
                        } else {
                            assert(out@[before.len() as int].start_id == j);
                        }
                    }
                }
            },
            None => {},
        }
        i = i + 1;
    }
    assert(signals@.subrange(0, signals@.len() as int) =~= signals@);
    out
}

/// Every variable refers to a handle that lies in the run of some slot.
pub open spec fn every_var_in_a_slot(vars: Seq<Var>, slots: Seq<SignalInfo>) -> bool {
    forall|i: int|
        0 <= i < vars.len() ==> exists|k: int|
            0 <= k < slots.len() && (#[trigger] slots[k]).start_id <= (#[trigger] vars[i]).signal.0
                <= slots[k].end_id
}

#[verifier::rlimit(80)]
/// Reads the hierarchy section (after its tag): a 16-byte head with four zero bytes, the scope
/// count (a hint only), the number of declared variables (a bound) and the largest signal
/// handle, then the records up to the `End` record. Returns the slots of the handles that
/// the variables use, in handle order.
pub fn read_hierarchy_section(
    header: &HeaderData,
    tables: &mut GhwTables,
    input: &mut Input,
    h: &mut HierarchyBuilder,
) -> (r: Result<Vec<SignalInfo>, GhwParseError>)
    requires
        old(tables).wf(*old(h)),
        old(h).wf(),
        old(h).vars@.len() == 0,
        old(input).wf(),
    ensures
        final(tables).wf(*final(h)),
        final(h).wf(),
        final(tables).types@ == old(tables).types@,
        final(tables).strings@ == old(tables).strings@,
        final(input).wf(),
        final(input).same_data(old(input)),
        ({
            let s = old(input).rest();
            &&& s.len() < 16 ==> r == Err::<Vec<SignalInfo>, GhwParseError>(GhwParseError::UnexpectedEof)
            &&& s.len() >= 16 && !(s[0] == 0 && s[1] == 0 && s[2] == 0 && s[3] == 0) ==> r == Err::<
                Vec<SignalInfo>,
                GhwParseError,
            >(GhwParseError::FailedToParseSection("hierarchy", "first four bytes should be zero"))
            &&& r is Ok ==> word32(s.subrange(12, 16), header.big_endian) < 0x8000_0000
            &&& s.len() >= 16 && s[0] == 0 && s[1] == 0 && s[2] == 0 && s[3] == 0 && word32(
                s.subrange(4, 8),
                header.big_endian,
            ) < 0x8000_0000 && word32(s.subrange(8, 12), header.big_endian) < 0x8000_0000 && word32(
                s.subrange(12, 16),
                header.big_endian,
            ) < 0x8000_0000 ==> match hier_records_at(
                old(input).data@,
                old(input).pos + 16,
                table_view(old(tables).types@),
                old(tables).strings@.len(),
                Seq::new((word32(s.subrange(12, 16), header.big_endian) + 1) as nat, |i: int| None::<SignalInfo>),
                0,
                word32(s.subrange(8, 12), header.big_endian),
            ) {
                Err(e) => r == Err::<Vec<SignalInfo>, GhwParseError>(e),
                Ok((q, sl)) => r matches Ok(v) && final(input).pos == q && v@ == compact(sl),
            }
        }),
        match hier_section_at(
            old(input).data@,
            old(input).pos as int,
            header.big_endian,
            table_view(old(tables).types@),
            old(tables).strings@.len(),
        ) {
            Err(e) => r == Err::<Vec<SignalInfo>, GhwParseError>(e),
            Ok((q, sl)) => r matches Ok(v) && final(input).pos == q && v@ == sl,
        },
        r matches Ok(sigs) ==> {
            &&& forall|k: int|
                0 <= k < sigs@.len() ==> (#[trigger] sigs@[k]).start_id == sigs@[k].end_id
                    && sigs@[k].start_id >= 1 && sigs@[k].start_id <= word32(
                    old(input).rest().subrange(12, 16),
                    header.big_endian,
                )
            &&& forall|k: int, l: int| 0 <= k < l < sigs@.len() ==> sigs@[k].start_id < sigs@[l].start_id
            &&& every_var_in_a_slot(final(h).vars@, sigs@)
        },
        r is Ok ==> final(input).pos >= old(input).pos,
{
    reveal(hier_section_at);
    let ghost s = input.rest();
    let ghost d = input.data@;
    let ghost p0 = input.pos as int;
    proof {
        if s.len() >= 16 {
            assert(s.subrange(4, 8) =~= d.subrange(p0 + 4, p0 + 8));
            assert(s.subrange(8, 12) =~= d.subrange(p0 + 8, p0 + 12));
            assert(s.subrange(12, 16) =~= d.subrange(p0 + 12, p0 + 16));
        }
    }
    let hdr = read_exact(input, 16)?;
    assert(hdr@ =~= s.subrange(0, 16));
    check_header_zeros("hierarchy", hdr.as_slice())?;
    let hs = hdr.as_slice();
    assert(hs@.subrange(4, 8).subrange(0, 4) =~= s.subrange(4, 8));
    assert(hs@.subrange(8, 12).subrange(0, 4) =~= s.subrange(8, 12));
    let _expected_num_scopes = header.read_u32(&hs[4..8])?;
    let expected_num_declared_vars = header.read_u32(&hs[8..12])?;
    assert(hs@.subrange(12, 16).subrange(0, 4) =~= s.subrange(12, 16));
    let max_signal_id = header.read_u32(&hs[12..16])?;
    let mut signals: Vec<Option<SignalInfo>> = Vec::new();
    let mut k: u32 = 0;
    while k <= max_signal_id
        invariant
            max_signal_id < 0x8000_0000,
            k <= max_signal_id + 1,
            signals@.len() == k,
            forall|j: int| 0 <= j < k ==> signals@[j] is None,
        decreases max_signal_id + 1 - k,
    {
        proof {
            reveal(hier_section_at);
        }
        signals.push(None);
        k = k + 1;
    }
    let ghost s0 = Seq::new((max_signal_id + 1) as nat, |i: int| None::<SignalInfo>);
    assert(signals@ =~= s0);
    let mut num_declared_vars: u32 = 0;
    let ghost tv = table_view(tables.types@);
    let ghost nstr = tables.strings@.len();
    assert(d.subrange(p0 + 12, p0 + 16) =~= s.subrange(12, 16));
    assert(d.subrange(p0 + 8, p0 + 12) =~= s.subrange(8, 12));
    assert(d.subrange(p0 + 4, p0 + 8) =~= s.subrange(4, 8));
    let ghost whole = hier_records_at(
        d,
        p0 + 16,
        tv,
        nstr,
        s0,
        0,
        expected_num_declared_vars as int,
    );
    loop
        invariant_except_break
            hier_records_at(
                d,
                input.pos as int,
                tv,
                nstr,
                signals@,
                num_declared_vars as int,
                expected_num_declared_vars as int,
            ) == whole,
        invariant
            d == old(input).data@,
            p0 == old(input).pos,
            tv == table_view(old(tables).types@),
            nstr == old(tables).strings@.len(),
            expected_num_declared_vars == word32(s.subrange(8, 12), header.big_endian),
            whole == hier_records_at(
                d,
                p0 + 16,
                tv,
                nstr,
                s0,
                0,
                expected_num_declared_vars as int,
            ),
            s0 == Seq::new((max_signal_id + 1) as nat, |i: int| None::<SignalInfo>),
            hier_section_at(d, p0, header.big_endian, tv, nstr) == match whole {
                Err(e) => Err(e),
                Ok((q, sl)) => Ok((q, compact(sl))),
            },
            tables.wf(*h),
            h.wf(),
            tables.types@ == old(tables).types@,
            tables.strings@ == old(tables).strings@,
            input.wf(),
            input.data@ == old(input).data@,
            input.pos >= old(input).pos,
            slots_wf(signals@),
            signals@.len() == max_signal_id + 1,
            max_signal_id < 0x8000_0000,
            vars_have_slots(h.vars@, signals@),
            num_declared_vars <= expected_num_declared_vars,
            expected_num_declared_vars < 0x8000_0000,
            s == old(input).rest(),
            s.len() >= 16,
            s[0] == 0 && s[1] == 0 && s[2] == 0 && s[3] == 0,
            max_signal_id == word32(s.subrange(12, 16), header.big_endian),
        ensures
            whole == Ok::<(int, Seq<Option<SignalInfo>>), GhwParseError>((input.pos as int, signals@)),
            tables.wf(*h),
            h.wf(),
            tables.types@ == old(tables).types@,
            tables.strings@ == old(tables).strings@,
            input.wf(),
            input.data@ == old(input).data@,
            slots_wf(signals@),
            signals@.len() == max_signal_id + 1,
            max_signal_id < 0x8000_0000,
            vars_have_slots(h.vars@, signals@),
        decreases input.data@.len() - input.pos,
    {
        let b = read_u8(input)?;
        let kind = match GhwHierarchyKind::from_u8(b) {
            Some(k) => k,
            None => {
                return Err(GhwParseError::FailedToParseKindTag(b));
            },
        };
        match kind {
            GhwHierarchyKind::End => {
                break;
            },
            GhwHierarchyKind::EndOfScope => {
                let ghost h1 = *h;
                h.pop_scope();
                proof {
                    lemma_tables_follow(*tables, h1, *h);
                }
            },
            GhwHierarchyKind::Design => {
                return Err(GhwParseError::FailedToParseSection("hierarchy", "unexpected design record"));
            },
            GhwHierarchyKind::Process => {
                let _process_name = read_string_id(input, tables.strings.len(), "hierarchy")?;
            },
            GhwHierarchyKind::Block | GhwHierarchyKind::GenerateIf | GhwHierarchyKind::GenerateFor
            | GhwHierarchyKind::Instance | GhwHierarchyKind::Generic | GhwHierarchyKind::Package => {
                read_hierarchy_scope(tables, input, kind, h)?;
            },
            _ => {
                read_hierarchy_var(tables, input, kind, &mut signals, h)?;
                num_declared_vars = num_declared_vars + 1;
                if num_declared_vars > expected_num_declared_vars {
                    return Err(
                        GhwParseError::FailedToParseSection(
                            "hierarchy",
                            "more declared variables than expected",
                        ),
                    );
                }
            },
        }
    }
    let ghost slots = signals@;
    let out = compact_slots(signals);
    proof {
        assert forall|i: int| 0 <= i < h.vars@.len() implies exists|k: int|
            0 <= k < out@.len() && (#[trigger] out@[k]).start_id <= (#[trigger] h.vars@[i]).signal.0
                <= out@[k].end_id by {
            let v = h.vars@[i];
            assert(slots[v.signal.0 as int] is Some);
            let k = choose|k: int| 0 <= k < out@.len() && (#[trigger] out@[k]).start_id == v.signal.0;
        }
    }
    Ok(out)
}

} // verus!
