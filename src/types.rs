use vstd::prelude::*;
use vstd::utf8::encode_utf8;

use crate::error::GhwParseError;

verus! {

/// Index into the dump's string table.
#[derive(Debug, Clone, Copy, PartialEq, Eq, Structural)]
pub struct StringId(pub usize);

/// One-based index into the dump's type table.
#[derive(Debug, Clone, Copy, PartialEq, Eq, Structural)]
pub struct TypeId(pub u32);

impl TypeId {
    /// The zero-based position in the type table.
    pub fn index(&self) -> (r: usize)
        requires
            self.0 >= 1,
        ensures
            r == self.0 - 1,
    {
        (self.0 - 1) as usize
    }
}

#[derive(Debug, Clone, Copy, PartialEq, Eq, Structural)]
pub enum RangeDir {
    To,
    Downto,
}

/// An integer range: direction, left bound and right bound.
#[derive(Debug, Clone, Copy, PartialEq, Eq, Structural)]
pub struct IntRange(pub RangeDir, pub i64, pub i64);

impl IntRange {
    /// The lowest value of the range in ascending order.
    pub open spec fn low(self) -> int {
        match self.0 {
            RangeDir::To => self.1 as int,
            RangeDir::Downto => self.2 as int,
        }
    }

    /// The highest value of the range in ascending order.
    pub open spec fn high(self) -> int {
        match self.0 {
            RangeDir::To => self.2 as int,
            RangeDir::Downto => self.1 as int,
        }
    }

    /// Number of elements: the distance between the bounds, plus one.
    pub open spec fn spec_len(self) -> int {
        if self.2 >= self.1 {
            self.2 - self.1 + 1
        } else {
            self.1 - self.2 + 1
        }
    }

    pub open spec fn spec_is_subset_of(self, other: IntRange) -> bool {
        self.low() >= other.low() && self.high() <= other.high()
    }

    /// The ascending half-open bounds `(start, end)` of the range.
    pub fn range(&self) -> (r: (i128, i128))
        ensures
            r.0 == self.low(),
            r.1 == self.high() + 1,
    {
        match self.0 {
            RangeDir::To => (self.1 as i128, self.2 as i128 + 1),
            RangeDir::Downto => (self.2 as i128, self.1 as i128 + 1),
        }
    }

    pub fn len(&self) -> (r: i128)
        ensures
            r == self.spec_len(),
    {
        if self.2 >= self.1 {
            self.2 as i128 - self.1 as i128 + 1
        } else {
            self.1 as i128 - self.2 as i128 + 1
        }
    }

    /// The left bound as most significant index and the right bound as least significant.
    pub fn as_var_index(&self) -> (r: (i64, i64))
        ensures
            r == (self.1, self.2),
    {
        (self.1, self.2)
    }

    /// The given range, or the full 32-bit range when there is none.
    pub fn from_i32_option(opt: Option<IntRange>) -> (r: IntRange)
        ensures
            r == match opt {
                Some(x) => x,
                None => IntRange(RangeDir::To, -0x8000_0000i64, 0x7fff_ffffi64),
            },
    {
        match opt {
            Some(x) => x,
            None => IntRange(RangeDir::To, -0x8000_0000i64, 0x7fff_ffffi64),
        }
    }

    /// The given range, or the full 64-bit range when there is none.
    pub fn from_i64_option(opt: Option<IntRange>) -> (r: IntRange)
        ensures
            r == match opt {
                Some(x) => x,
                None => IntRange(RangeDir::To, i64::MIN, i64::MAX),
            },
    {
        match opt {
            Some(x) => x,
            None => IntRange(RangeDir::To, i64::MIN, i64::MAX),
        }
    }

    /// Inclusive containment of the ascending projections.
    pub fn is_subset_of(&self, other: &IntRange) -> (r: bool)
        ensures
            r == self.spec_is_subset_of(*other),
    {
        let s = self.range();
        let o = other.range();
        s.0 >= o.0 && s.1 <= o.1
    }
}

/// The kind tags of the type table (and the range kinds).
#[derive(Debug, Clone, Copy, PartialEq, Eq, Structural)]
pub enum GhwRtik {
    Error,
    EndOfScope,
    Signal,
    PortIn,
    PortOut,
    PortInOut,
    PortBuffer,
    PortLinkage,
    TypeB2,
    TypeE8,
    TypeI32,
    TypeI64,
    TypeF64,
    TypeP32,
    TypeP64,
    TypeArray,
    TypeRecord,
    SubtypeScalar,
    SubtypeArray,
    SubtypeUnboundedArray,
    SubtypeRecord,
    SubtypeUnboundedRecord,
}

/// The kind that a byte names, if any.
pub open spec fn rtik_of(b: u8) -> Option<GhwRtik> {
    if b == 0 {
        Some(GhwRtik::Error)
    } else if b == 15 {
        Some(GhwRtik::EndOfScope)
    } else if b == 16 {
        Some(GhwRtik::Signal)
    } else if b == 17 {
        Some(GhwRtik::PortIn)
    } else if b == 18 {
        Some(GhwRtik::PortOut)
    } else if b == 19 {
        Some(GhwRtik::PortInOut)
    } else if b == 20 {
        Some(GhwRtik::PortBuffer)
    } else if b == 21 {
        Some(GhwRtik::PortLinkage)
    } else if b == 22 {
        Some(GhwRtik::TypeB2)
    } else if b == 23 {
        Some(GhwRtik::TypeE8)
    } else if b == 25 {
        Some(GhwRtik::TypeI32)
    } else if b == 26 {
        Some(GhwRtik::TypeI64)
    } else if b == 27 {
        Some(GhwRtik::TypeF64)
    } else if b == 28 {
        Some(GhwRtik::TypeP32)
    } else if b == 29 {
        Some(GhwRtik::TypeP64)
    } else if b == 31 {
        Some(GhwRtik::TypeArray)
    } else if b == 32 {
        Some(GhwRtik::TypeRecord)
    } else if b == 34 {
        Some(GhwRtik::SubtypeScalar)
    } else if b == 35 {
        Some(GhwRtik::SubtypeArray)
    } else if b == 37 {
        Some(GhwRtik::SubtypeUnboundedArray)
    } else if b == 38 {
        Some(GhwRtik::SubtypeRecord)
    } else if b == 39 {
        Some(GhwRtik::SubtypeUnboundedRecord)
    } else {
        None
    }
}

impl GhwRtik {
    pub fn from_u8(b: u8) -> (r: Option<GhwRtik>)
        ensures
            r == rtik_of(b),
    {
        match b {
            0 => Some(GhwRtik::Error),
            15 => Some(GhwRtik::EndOfScope),
            16 => Some(GhwRtik::Signal),
            17 => Some(GhwRtik::PortIn),
            18 => Some(GhwRtik::PortOut),
            19 => Some(GhwRtik::PortInOut),
            20 => Some(GhwRtik::PortBuffer),
            21 => Some(GhwRtik::PortLinkage),
            22 => Some(GhwRtik::TypeB2),
            23 => Some(GhwRtik::TypeE8),
            25 => Some(GhwRtik::TypeI32),
            26 => Some(GhwRtik::TypeI64),
            27 => Some(GhwRtik::TypeF64),
            28 => Some(GhwRtik::TypeP32),
            29 => Some(GhwRtik::TypeP64),
            31 => Some(GhwRtik::TypeArray),
            32 => Some(GhwRtik::TypeRecord),
            34 => Some(GhwRtik::SubtypeScalar),
            35 => Some(GhwRtik::SubtypeArray),
            37 => Some(GhwRtik::SubtypeUnboundedArray),
            38 => Some(GhwRtik::SubtypeRecord),
            39 => Some(GhwRtik::SubtypeUnboundedRecord),
            _ => None,
        }
    }
}

/// The VHDL view of a type, as the decoder keeps it.
#[derive(Debug)]
pub enum VhdlType {
    /// `std_logic`-like enum, with the table from raw values to the nine-value codes.
    NineValueBit(StringId, [u8; 9]),
    /// Vector of a nine-value bit, with its index range.
    NineValueVec(StringId, [u8; 9], IntRange),
    /// A type that restricts its base in no way; the base is never an alias itself.
    TypeAlias(StringId, TypeId),
    I32(StringId, Option<IntRange>),
    I64(StringId, Option<IntRange>),
    F64(StringId),
    Record(StringId, Vec<(StringId, TypeId)>),
    /// An enum that is not a nine-value bit, with its literals.
    Enum(StringId, Vec<StringId>),
    Array(StringId, TypeId, Option<IntRange>),
}

/// The mathematical value of a `VhdlType`.
pub enum TypeModel {
    NineValueBit(StringId, [u8; 9]),
    NineValueVec(StringId, [u8; 9], IntRange),
    TypeAlias(StringId, TypeId),
    I32(StringId, Option<IntRange>),
    I64(StringId, Option<IntRange>),
    F64(StringId),
    Record(StringId, Seq<(StringId, TypeId)>),
    Enum(StringId, Seq<StringId>),
    Array(StringId, TypeId, Option<IntRange>),
}

impl View for VhdlType {
    type V = TypeModel;

    open spec fn view(&self) -> TypeModel {
        match self {
            VhdlType::NineValueBit(n, l) => TypeModel::NineValueBit(*n, *l),
            VhdlType::NineValueVec(n, l, r) => TypeModel::NineValueVec(*n, *l, *r),
            VhdlType::TypeAlias(n, b) => TypeModel::TypeAlias(*n, *b),
            VhdlType::I32(n, r) => TypeModel::I32(*n, *r),
            VhdlType::I64(n, r) => TypeModel::I64(*n, *r),
            VhdlType::F64(n) => TypeModel::F64(*n),
            VhdlType::Record(n, f) => TypeModel::Record(*n, f@),
            VhdlType::Enum(n, l) => TypeModel::Enum(*n, l@),
            VhdlType::Array(n, e, r) => TypeModel::Array(*n, *e, *r),
        }
    }
}

impl TypeModel {
    pub open spec fn name(self) -> StringId {
        match self {
            TypeModel::NineValueBit(n, _) => n,
            TypeModel::NineValueVec(n, _, _) => n,
            TypeModel::TypeAlias(n, _) => n,
            TypeModel::I32(n, _) => n,
            TypeModel::I64(n, _) => n,
            TypeModel::F64(n) => n,
            TypeModel::Record(n, _) => n,
            TypeModel::Enum(n, _) => n,
            TypeModel::Array(n, _, _) => n,
        }
    }

    /// The integer range of a scalar type, where it has one.
    pub open spec fn int_range(self) -> Option<IntRange> {
        match self {
            TypeModel::NineValueBit(_, _) => Some(IntRange(RangeDir::To, 0, 8)),
            TypeModel::I32(_, r) => r,
            TypeModel::I64(_, r) => r,
            TypeModel::Enum(_, lits) => Some(IntRange(RangeDir::To, 0, lits.len() as i64)),
            _ => None,
        }
    }
}

/// The type table as values.
pub open spec fn table_view(types: Seq<VhdlType>) -> Seq<TypeModel> {
    types.map_values(|t: VhdlType| t@)
}

/// Whether `id` names an entry of a table with `n` entries.
pub open spec fn type_id_in(id: TypeId, n: int) -> bool {
    1 <= id.0 <= n
}

/// Every type id inside entry `i` names an earlier entry, no alias names an alias, and no
/// record field or array element names an alias.
pub open spec fn type_links_wf(t: Seq<TypeModel>, i: int) -> bool {
    match t[i] {
        TypeModel::TypeAlias(_, b) => type_id_in(b, i) && !(t[b.0 - 1] is TypeAlias),
        TypeModel::Record(_, fields) => forall|j: int|
            0 <= j < fields.len() ==> type_id_in(#[trigger] fields[j].1, i) && !(t[fields[j].1.0
                - 1] is TypeAlias),
        TypeModel::Array(_, e, _) => type_id_in(e, i) && !(t[e.0 - 1] is TypeAlias),
        _ => true,
    }
}

/// Every string id inside entry `i` names an entry of a string table with `nstr` entries.
pub open spec fn type_strings_wf(t: TypeModel, nstr: nat) -> bool {
    &&& t.name().0 < nstr
    &&& match t {
        TypeModel::Record(_, fields) => forall|j: int|
            0 <= j < fields.len() ==> (#[trigger] fields[j]).0.0 < nstr,
        TypeModel::Enum(_, lits) => forall|j: int| 0 <= j < lits.len() ==> (#[trigger] lits[j]).0 < nstr,
        _ => true,
    }
}

/// The links of every entry of the table are well formed.
pub open spec fn types_linked(t: Seq<TypeModel>) -> bool {
    forall|i: int| 0 <= i < t.len() ==> #[trigger] type_links_wf(t, i)
}

/// A well-formed type table over a string table of `nstr` entries.
pub open spec fn types_wf(t: Seq<TypeModel>, nstr: nat) -> bool {
    &&& types_linked(t)
    &&& forall|i: int| 0 <= i < t.len() ==> #[trigger] type_strings_wf(t[i], nstr)
}

/// The entry that `id` names, with one layer of alias resolved.
pub open spec fn concrete_type(t: Seq<TypeModel>, id: TypeId) -> TypeModel {
    match t[id.0 - 1] {
        TypeModel::TypeAlias(_, b) => t[b.0 - 1],
        other => other,
    }
}

/// The id that `id` resolves to, with one layer of alias resolved.
pub open spec fn concrete_type_id(t: Seq<TypeModel>, id: TypeId) -> TypeId {
    match t[id.0 - 1] {
        TypeModel::TypeAlias(_, b) => b,
        _ => id,
    }
}

/// Resolves one layer of type aliases.
pub fn lookup_concrete_type<'a>(types: &'a Vec<VhdlType>, type_id: TypeId) -> (r: &'a VhdlType)
    requires
        type_id_in(type_id, types@.len() as int),
        types_linked(table_view(types@)),
    ensures
        r@ == concrete_type(table_view(types@), type_id),
        !(r@ is TypeAlias),
{
    let i = type_id.index();
    assert(type_links_wf(table_view(types@), i as int));
    match &types[i] {
        VhdlType::TypeAlias(_, base_id) => &types[base_id.index()],
        other => other,
    }
}

/// Resolves one layer of type aliases, giving the id.
pub fn lookup_concrete_type_id(types: &Vec<VhdlType>, type_id: TypeId) -> (r: TypeId)
    requires
        type_id_in(type_id, types@.len() as int),
        types_linked(table_view(types@)),
    ensures
        r == concrete_type_id(table_view(types@), type_id),
        type_id_in(r, types@.len() as int),
        !(table_view(types@)[r.0 - 1] is TypeAlias),
{
    let i = type_id.index();
    assert(type_links_wf(table_view(types@), i as int));
    match &types[i] {
        VhdlType::TypeAlias(_, base_id) => *base_id,
        _ => type_id,
    }
}

/// Code of a character in the nine-value alphabet `0 1 x z h u w l -`; letters in either case.
pub open spec fn bit_char_code(c: u8) -> Option<u8> {
    if c == 0x30 {
        Some(0u8)
    } else if c == 0x31 {
        Some(1u8)
    } else if c == 0x78 || c == 0x58 {
        Some(2u8)
    } else if c == 0x7a || c == 0x5a {
        Some(3u8)
    } else if c == 0x68 || c == 0x48 {
        Some(4u8)
    } else if c == 0x75 || c == 0x55 {
        Some(5u8)
    } else if c == 0x77 || c == 0x57 {
        Some(6u8)
    } else if c == 0x6c || c == 0x4c {
        Some(7u8)
    } else if c == 0x2d {
        Some(8u8)
    } else {
        None
    }
}

/// Maps a character of the nine-value alphabet to its code.
pub fn bit_char_to_num(c: u8) -> (r: Option<u8>)
    ensures
        r == bit_char_code(c),
{
    match c {
        0x30 => Some(0),
        0x31 => Some(1),
        0x78 | 0x58 => Some(2),
        0x7a | 0x5a => Some(3),
        0x68 | 0x48 => Some(4),
        0x75 | 0x55 => Some(5),
        0x77 | 0x57 => Some(6),
        0x6c | 0x4c => Some(7),
        0x2d => Some(8),
        _ => None,
    }
}

/// The string table as text.
pub open spec fn strings_view(s: Seq<String>) -> Seq<Seq<char>> {
    s.map_values(|x: String| x@)
}

/// The character that an enum literal stands for: the literal itself when it is one byte
/// long, the middle byte when it is three bytes long (a quoted character).
pub open spec fn literal_char(b: Seq<u8>) -> Option<u8> {
    if b.len() == 1 {
        Some(b[0])
    } else if b.len() == 3 {
        Some(b[1])
    } else {
        None
    }
}

/// The nine-value code of an enum literal, if it has one.
pub open spec fn literal_code(strs: Seq<Seq<char>>, lit: StringId) -> Option<u8> {
    match literal_char(encode_utf8(strs[lit.0 as int])) {
        Some(c) => bit_char_code(c),
        None => None,
    }
}

/// The table from raw enum values to nine-value codes, when the enum has nine literals that
/// each stand for a different character of the nine-value alphabet.
pub open spec fn nine_value_lut(strs: Seq<Seq<char>>, lits: Seq<StringId>) -> Option<Seq<u8>> {
    if lits.len() == 9 && (forall|i: int| 0 <= i < 9 ==> #[trigger] literal_code(strs, lits[i]) is Some)
        && (forall|i: int, j: int|
        0 <= i < j < 9 ==> #[trigger] literal_code(strs, lits[i]) != #[trigger] literal_code(
            strs,
            lits[j],
        )) {
        Some(Seq::new(9, |i: int| literal_code(strs, lits[i])->0))
    } else {
        None
    }
}

/// The table with the given entries.
pub open spec fn lut_array(l: Seq<u8>) -> [u8; 9] {
    choose|a: [u8; 9]| a@ == l
}

/// Returns a `NineValueBit` when the enum is a nine-value bit.
pub fn try_parse_nine_value_bit(strings: &Vec<String>, name: StringId, literals: &Vec<StringId>) -> (r:
    Option<VhdlType>)
    requires
        forall|j: int| 0 <= j < literals@.len() ==> (#[trigger] literals@[j]).0 < strings@.len(),
    ensures
        match nine_value_lut(strings_view(strings@), literals@) {
            Some(l) => r matches Some(t) && t@ == TypeModel::NineValueBit(name, lut_array(l)),
            None => r is None,
        },
{
    let ghost strs = strings_view(strings@);
    if literals.len() != 9 {
        return None;
    }
    let mut lut: [u8; 9] = [0u8; 9];
    let mut covered: [bool; 9] = [false; 9];
    let mut ii: usize = 0;
    while ii < 9
        invariant
            literals@.len() == 9,
            strs == strings_view(strings@),
            forall|j: int| 0 <= j < literals@.len() ==> (#[trigger] literals@[j]).0 < strings@.len(),
            ii <= 9,
            forall|j: int| 0 <= j < ii ==> literal_code(strs, #[trigger] literals@[j]) == Some(lut@[j]),
            forall|j: int| 0 <= j < ii ==> lut@[j] < 9,
            forall|j: int, k: int| 0 <= j < k < ii ==> lut@[j] != lut@[k],
            forall|o: int| 0 <= o < 9 ==> (covered@[o] <==> exists|j: int| 0 <= j < ii && lut@[j] == o),
        decreases 9 - ii,
    {
        let lit = strings[literals[ii].0].as_str().as_bytes();
        assert(lit@ == encode_utf8(strs[literals@[ii as int].0 as int]));
        let cc: u8 = if lit.len() == 1 {
            lit[0]
        } else if lit.len() == 3 {
            lit[1]
        } else {
            return None;
        };
        match bit_char_to_num(cc) {
            Some(out) => {
                if covered[out as usize] {
                    proof {
                        let j = choose|j: int| 0 <= j < ii && lut@[j] == out;
                        assert(literal_code(strs, literals@[j]) == literal_code(strs, literals@[ii as int]));
                    }
                    return None;
                }
                let ghost lut0 = lut@;
                covered[out as usize] = true;
                lut[ii] = out;
                proof {
                    assert forall|o: int| 0 <= o < 9 implies (covered@[o] <==> exists|j: int|
                        0 <= j < ii + 1 && lut@[j] == o) by {
                        if covered@[o] && o != out {
                            let j = choose|j: int| 0 <= j < ii && lut0[j] == o;
                            assert(lut@[j] == o);
                        }
                        if o == out {
                            assert(lut@[ii as int] == o);
                        }
                    }
                }
            },
            None => {
                return None;
            },
        }
        ii = ii + 1;
    }
    proof {
        let l = Seq::new(9, |i: int| literal_code(strs, literals@[i])->0);
        assert(lut@ =~= l);
        assert(exists|a: [u8; 9]| a@ == l);
        let a = lut_array(l);
        assert(a =~= lut);
    }
    Some(VhdlType::NineValueBit(name, lut))
}

/// The entry for an enum type: a nine-value bit where it is one, else a plain enum.
pub open spec fn enum_type(strs: Seq<Seq<char>>, name: StringId, lits: Seq<StringId>) -> TypeModel {
    match nine_value_lut(strs, lits) {
        Some(l) => TypeModel::NineValueBit(name, lut_array(l)),
        None => TypeModel::Enum(name, lits),
    }
}

/// The entry for an array type: a vector of nine-value bits when the element is a nine-value
/// bit and the index has an integer range, else a plain array of the resolved element type.
pub open spec fn array_type(t: Seq<TypeModel>, name: StringId, elem: TypeId, index: TypeId) -> TypeModel {
    let e = concrete_type_id(t, elem);
    let r = concrete_type(t, index).int_range();
    match (t[e.0 - 1], r) {
        (TypeModel::NineValueBit(_, lut), Some(range)) => TypeModel::NineValueVec(name, lut, range),
        _ => TypeModel::Array(name, e, r),
    }
}

/// The entry for a scalar subtype of `base` with the given range.
pub open spec fn subtype_scalar_type(t: Seq<TypeModel>, name: StringId, base: TypeId, range: IntRange) -> Result<
    TypeModel,
    GhwParseError,
> {
    match concrete_type(t, base) {
        TypeModel::Enum(_, lits) => if range.low() == 0 && range.high() + 1 == lits.len() {
            Ok(TypeModel::TypeAlias(name, concrete_type_id(t, base)))
        } else {
            Err(GhwParseError::FailedToParseSection("type", "narrowed enum subtypes are not supported"))
        },
        TypeModel::NineValueBit(_, _) => if range.low() == 0 && range.high() + 1 == 9 {
            Ok(TypeModel::TypeAlias(name, concrete_type_id(t, base)))
        } else {
            Err(GhwParseError::FailedToParseSection("type", "narrowed enum subtypes are not supported"))
        },
        TypeModel::I32(_, b) => {
            let base_range = match b {
                Some(x) => x,
                None => IntRange(RangeDir::To, -0x8000_0000i64, 0x7fff_ffffi64),
            };
            if range.spec_is_subset_of(base_range) {
                Ok(TypeModel::I32(name, Some(range)))
            } else {
                Err(GhwParseError::FailedToParseSection("type", "subtype range is not within its base"))
            }
        },
        _ => Err(GhwParseError::FailedToParseSection("type", "unsupported scalar subtype")),
    }
}

/// The entry for an array subtype of `base` with the given index range.
pub open spec fn subtype_array_type(t: Seq<TypeModel>, name: StringId, base: TypeId, range: IntRange) -> Result<
    TypeModel,
    GhwParseError,
> {
    match concrete_type(t, base) {
        TypeModel::NineValueVec(_, lut, base_range) => if range.spec_is_subset_of(base_range) {
            Ok(TypeModel::NineValueVec(name, lut, range))
        } else {
            Err(GhwParseError::FailedToParseSection("type", "subtype range is not within its base"))
        },
        TypeModel::Array(_, _, _) => Err(
            GhwParseError::FailedToParseSection("type", "subtypes of general arrays are not supported"),
        ),
        _ => Err(GhwParseError::FailedToParseSection("type", "unsupported array subtype")),
    }
}

impl VhdlType {
    pub fn from_enum(strings: &Vec<String>, name: StringId, literals: Vec<StringId>) -> (r: VhdlType)
        requires
            forall|j: int| 0 <= j < literals@.len() ==> (#[trigger] literals@[j]).0 < strings@.len(),
        ensures
            r@ == enum_type(strings_view(strings@), name, literals@),
    {
        match try_parse_nine_value_bit(strings, name, &literals) {
            Some(nine_value) => nine_value,
            None => VhdlType::Enum(name, literals),
        }
    }

    pub fn from_array(name: StringId, types: &Vec<VhdlType>, element_tpe: TypeId, index: TypeId) -> (r: VhdlType)
        requires
            type_id_in(element_tpe, types@.len() as int),
            type_id_in(index, types@.len() as int),
            types_linked(table_view(types@)),
        ensures
            r@ == array_type(table_view(types@), name, element_tpe, index),
    {
        let element_tpe_id = lookup_concrete_type_id(types, element_tpe);
        let index_type = lookup_concrete_type(types, index);
        let index_range = index_type.int_range();
        match (&types[element_tpe_id.index()], index_range) {
            (VhdlType::NineValueBit(_, lut), Some(range)) => VhdlType::NineValueVec(name, *lut, range),
            _ => VhdlType::Array(name, element_tpe_id, index_range),
        }
    }

    pub fn from_record(name: StringId, fields: Vec<(StringId, TypeId)>) -> (r: VhdlType)
        ensures
            r@ == TypeModel::Record(name, fields@),
    {
        VhdlType::Record(name, fields)
    }

    pub fn from_subtype_array(name: StringId, types: &Vec<VhdlType>, base: TypeId, range: IntRange) -> (r: Result<
        VhdlType,
        GhwParseError,
    >)
        requires
            type_id_in(base, types@.len() as int),
            types_linked(table_view(types@)),
        ensures
            match subtype_array_type(table_view(types@), name, base, range) {
                Ok(m) => r matches Ok(x) && x@ == m,
                Err(e) => r == Err::<VhdlType, GhwParseError>(e),
            },
    {
        match lookup_concrete_type(types, base) {
            VhdlType::NineValueVec(_, lut, base_range) => {
                if range.is_subset_of(base_range) {
                    Ok(VhdlType::NineValueVec(name, *lut, range))
                } else {
                    Err(GhwParseError::FailedToParseSection("type", "subtype range is not within its base"))
                }
            },
            VhdlType::Array(_, _, _) => Err(
                GhwParseError::FailedToParseSection("type", "subtypes of general arrays are not supported"),
            ),
            _ => Err(GhwParseError::FailedToParseSection("type", "unsupported array subtype")),
        }
    }

    pub fn from_subtype_scalar(name: StringId, types: &Vec<VhdlType>, base: TypeId, range: IntRange) -> (r: Result<
        VhdlType,
        GhwParseError,
    >)
        requires
            type_id_in(base, types@.len() as int),
            types_linked(table_view(types@)),
        ensures
            match subtype_scalar_type(table_view(types@), name, base, range) {
                Ok(m) => r matches Ok(x) && x@ == m,
                Err(e) => r == Err::<VhdlType, GhwParseError>(e),
            },
    {
        let base_id = lookup_concrete_type_id(types, base);
        match lookup_concrete_type(types, base) {
            VhdlType::Enum(_, lits) => {
                let r = range.range();
                if r.0 == 0 && r.1 == lits.len() as i128 {
                    Ok(VhdlType::TypeAlias(name, base_id))
                } else {
                    Err(GhwParseError::FailedToParseSection("type", "narrowed enum subtypes are not supported"))
                }
            },
            VhdlType::NineValueBit(_, _) => {
                let r = range.range();
                if r.0 == 0 && r.1 == 9 {
                    Ok(VhdlType::TypeAlias(name, base_id))
                } else {
                    Err(GhwParseError::FailedToParseSection("type", "narrowed enum subtypes are not supported"))
                }
            },
            VhdlType::I32(_, maybe_base_range) => {
                let base_range = IntRange::from_i32_option(*maybe_base_range);
                if range.is_subset_of(&base_range) {
                    Ok(VhdlType::I32(name, Some(range)))
                } else {
                    Err(GhwParseError::FailedToParseSection("type", "subtype range is not within its base"))
                }
            },
            _ => Err(GhwParseError::FailedToParseSection("type", "unsupported scalar subtype")),
        }
    }

    pub fn name(&self) -> (r: StringId)
        ensures
            r == self@.name(),
    {
        match self {
            VhdlType::NineValueBit(name, _) => *name,
            VhdlType::NineValueVec(name, _, _) => *name,
            VhdlType::TypeAlias(name, _) => *name,
            VhdlType::I32(name, _) => *name,
            VhdlType::I64(name, _) => *name,
            VhdlType::F64(name) => *name,
            VhdlType::Record(name, _) => *name,
            VhdlType::Enum(name, _) => *name,
            VhdlType::Array(name, _, _) => *name,
        }
    }

    pub fn int_range(&self) -> (r: Option<IntRange>)
        ensures
            r == self@.int_range(),
    {
        match self {
            VhdlType::NineValueBit(_, _) => Some(IntRange(RangeDir::To, 0, 8)),
            VhdlType::I32(_, range) => *range,
            VhdlType::I64(_, range) => *range,
            VhdlType::Enum(_, lits) => Some(IntRange(RangeDir::To, 0, lits.len() as i64)),
            _ => None,
        }
    }

    pub fn is_alias(&self) -> (r: bool)
        ensures
            r == (self@ is TypeAlias),
    {
        match self {
            VhdlType::TypeAlias(_, _) => true,
            _ => false,
        }
    }
}

} // verus!
