use vstd::prelude::*;

use crate::error::{fails_as, Fault, GhwParseError, HeaderData};
use crate::header::{
    check_header_zeros, directory_found, ghw_header_valid, has_tailer, header_fields, is_tag, read_ghw_header,
    tag_bytes, try_read_directory, SectionTag,
};
use crate::hiersection::{every_var_in_a_slot, hier_section_at, read_hierarchy_section, GhwTables};
use crate::hierarchy::{Hierarchy, HierarchyBuilder, SignalRef};
use crate::input::{read_exact, read_u8, Input};
use crate::signals::{
    read_signals, samples_in_slots, signal_sections_at, slots_ok, times_sorted, Sample, SignalInfo, SignalValue,
};
use crate::strings::{read_string_section, string_section_at};
use crate::typesection::{read_type_id, read_type_section, type_id_at, type_section_at, u8_at};
use crate::types::{strings_view, table_view, type_id_in, TypeId, TypeModel};

verus! {

/// The tags of the well-known-types section.
#[derive(Debug, Clone, Copy, PartialEq, Eq, Structural)]
pub enum GhwWellKnownType {
    Unknown,
    Boolean,
    Bit,
    StdULogic,
}

impl GhwWellKnownType {
    pub fn from_u8(b: u8) -> (r: Option<GhwWellKnownType>)
        ensures
            b == 0 ==> r == Some(GhwWellKnownType::Unknown),
            b == 1 ==> r == Some(GhwWellKnownType::Boolean),
            b == 2 ==> r == Some(GhwWellKnownType::Bit),
            b == 3 ==> r == Some(GhwWellKnownType::StdULogic),
            b > 3 ==> r is None,
    {
        match b {
            0 => Some(GhwWellKnownType::Unknown),
            1 => Some(GhwWellKnownType::Boolean),
            2 => Some(GhwWellKnownType::Bit),
            3 => Some(GhwWellKnownType::StdULogic),
            _ => None,
        }
    }
}

/// The well-known type that a tag from 1 to 3 names (0 for any other).
pub open spec fn wkt_of(t: u8) -> GhwWellKnownType {
    if t == 1 {
        GhwWellKnownType::Boolean
    } else if t == 2 {
        GhwWellKnownType::Bit
    } else if t == 3 {
        GhwWellKnownType::StdULogic
    } else {
        GhwWellKnownType::Unknown
    }
}

/// The (tag, type) pairs of a well-known-types section from `p`, up to a zero tag, after the
/// pairs `acc`; the index after it and the pairs. A tag must be at most 3, a type one of the `nt`
/// types.
pub open spec fn wkt_pairs_at(d: Seq<u8>, p: int, nt: nat, acc: Seq<(TypeId, GhwWellKnownType)>) -> Option<
    (int, Seq<(TypeId, GhwWellKnownType)>),
>
    decreases d.len() - p,
{
    match u8_at(d, p) {
        Err(_) => None,
        Ok((t, p1)) => if t == 0 {
            Some((p1, acc))
        } else if t > 3 {
            None
        } else {
            match type_id_at(d, p1, nt, "well known types (WKT)") {
                Err(_) => None,
                Ok((id, p2)) => if p < p2 <= d.len() {
                    wkt_pairs_at(d, p2, nt, acc.push((id, wkt_of(t))))
                } else {
                    None
                },
            }
        },
    }
}

/// The well-known-types section (after its tag) at `p`: four zero bytes and the pairs.
#[verifier::opaque]
pub open spec fn wkt_section_at(d: Seq<u8>, p: int, nt: nat) -> Option<(int, Seq<(TypeId, GhwWellKnownType)>)> {
    if p < 0 || p + 4 > d.len() || !(d[p] == 0 && d[p + 1] == 0 && d[p + 2] == 0 && d[p + 3] == 0) {
        None
    } else {
        wkt_pairs_at(d, p + 4, nt, seq![])
    }
}

/// The sections from `p` up to the end of the header: strings, types, well-known types and the
/// hierarchy, each of the first, second and fourth at most once and strings never after types.
/// `strs` and `t` are the tables read so far, `slots` the slots of the hierarchy section once it
/// was read. The index after the end-of-header tag and the slots.
pub open spec fn header_sections_at(
    d: Seq<u8>,
    p: int,
    big_endian: bool,
    strs: Seq<Seq<char>>,
    t: Seq<TypeModel>,
    have_strings: bool,
    have_types: bool,
    have_hierarchy: bool,
    slots: Seq<SignalInfo>,
) -> Result<(int, Seq<SignalInfo>), Fault>
    decreases d.len() - p,
{
    if p < 0 {
        Err(Fault::Unnamed)
    } else if p + 4 > d.len() {
        Err(Fault::Error(GhwParseError::UnexpectedEof))
    } else {
        let tag = d.subrange(p, p + 4);
        if tag == tag_bytes(SectionTag::Strings) {
            if have_strings || have_types {
                Err(Fault::Tag(tag))
            } else {
                match string_section_at(d, p + 4, big_endian) {
                    None => Err(Fault::Unnamed),
                    Some((st, q)) => if p < q <= d.len() {
                        header_sections_at(d, q, big_endian, st, seq![], true, have_types, have_hierarchy, slots)
                    } else {
                        Err(Fault::Unnamed)
                    },
                }
            }
        } else if tag == tag_bytes(SectionTag::Types) {
            if have_types {
                Err(Fault::Tag(tag))
            } else {
                match type_section_at(d, p + 4, strs, big_endian) {
                    Err(e) => Err(Fault::Error(e)),
                    Ok((tt, q)) => if p < q <= d.len() {
                        header_sections_at(d, q, big_endian, strs, tt, have_strings, true, have_hierarchy, slots)
                    } else {
                        Err(Fault::Unnamed)
                    },
                }
            }
        } else if tag == tag_bytes(SectionTag::WellKnownTypes) {
            match wkt_section_at(d, p + 4, t.len()) {
                None => Err(Fault::Unnamed),
                Some((q, _)) => if p < q <= d.len() {
                    header_sections_at(d, q, big_endian, strs, t, have_strings, have_types, have_hierarchy, slots)
                } else {
                    Err(Fault::Unnamed)
                },
            }
        } else if tag == tag_bytes(SectionTag::Hierarchy) {
            if have_hierarchy {
                Err(Fault::Tag(tag))
            } else {
                match hier_section_at(d, p + 4, big_endian, t, strs.len()) {
                    Err(e) => Err(Fault::Error(e)),
                    Ok((q, sl)) => if p < q <= d.len() {
                        header_sections_at(d, q, big_endian, strs, t, have_strings, have_types, true, sl)
                    } else {
                        Err(Fault::Unnamed)
                    },
                }
            }
        } else if tag == tag_bytes(SectionTag::EndOfHeader) {
            Ok((p + 4, slots))
        } else {
            Err(Fault::Tag(tag))
        }
    }
}

/// Reads the well-known-types section (after its tag): four zero bytes, then (tag, type) pairs
/// up to a zero tag. Every type named is one of the `ntypes` types.
pub fn read_well_known_types_section(input: &mut Input, ntypes: usize) -> (r: Result<
    Vec<(TypeId, GhwWellKnownType)>,
    GhwParseError,
>)
    requires
        old(input).wf(),
        ntypes <= 0xffff_ffff,
    ensures
        final(input).wf(),
        final(input).same_data(old(input)),
        r matches Ok(v) ==> forall|i: int| 0 <= i < v@.len() ==> type_id_in((#[trigger] v@[i]).0, ntypes as int),
        match wkt_section_at(old(input).data@, old(input).pos as int, ntypes as nat) {
            None => r is Err,
            Some((q, pairs)) => r matches Ok(v) && final(input).pos == q && v@ == pairs,
        },
        r is Ok ==> final(input).pos >= old(input).pos,
{
    reveal(wkt_section_at);
    let ghost d = input.data@;
    let ghost p0 = input.pos as int;
    let h = read_exact(input, 4)?;
    assert(h@ =~= d.subrange(p0, p0 + 4));
    check_header_zeros("well known types (WKT)", h.as_slice())?;
    let ghost whole = wkt_pairs_at(d, p0 + 4, ntypes as nat, seq![]);
    let mut out: Vec<(TypeId, GhwWellKnownType)> = Vec::new();
    assert(out@ =~= seq![]);
    loop
        invariant_except_break
            wkt_pairs_at(d, input.pos as int, ntypes as nat, out@) == whole,
        invariant
            input.wf(),
            input.data@ == d,
            d == old(input).data@,
            p0 == old(input).pos,
            p0 + 4 <= d.len(),
            input.pos >= old(input).pos,
            d[p0] == 0 && d[p0 + 1] == 0 && d[p0 + 2] == 0 && d[p0 + 3] == 0,
            whole == wkt_pairs_at(d, p0 + 4, ntypes as nat, seq![]),
            ntypes <= 0xffff_ffff,
            forall|i: int| 0 <= i < out@.len() ==> type_id_in((#[trigger] out@[i]).0, ntypes as int),
        ensures
            input.wf(),
            input.data@ == d,
            input.pos >= old(input).pos,
            whole == Some((input.pos as int, out@)),
            forall|i: int| 0 <= i < out@.len() ==> type_id_in((#[trigger] out@[i]).0, ntypes as int),
        decreases input.data@.len() - input.pos,
    {
        proof {
            reveal(wkt_section_at);
        }
        let t = read_u8(input)?;
        if t == 0 {
            break;
        }
        let wkt = match GhwWellKnownType::from_u8(t) {
            Some(w) => w,
            None => {
                return Err(GhwParseError::FailedToParseKindTag(t));
            },
        };
        let type_id = read_type_id(input, ntypes, "well known types (WKT)")?;
        out.push((type_id, wkt));
    }
    Ok(out)
}

/// Reads the sections up to the end of the header: strings, types, well-known types and the
/// hierarchy, each at most once, in any order. Returns the slots and the frozen hierarchy.
pub fn read_hierarchy(header: &HeaderData, input: &mut Input) -> (r: Result<
    (Vec<SignalInfo>, Hierarchy),
    GhwParseError,
>)
    requires
        old(input).wf(),
    ensures
        final(input).wf(),
        final(input).same_data(old(input)),
        r matches Ok((sigs, hier)) ==> {
            &&& hier.wf()
            &&& slots_ok(sigs@)
            &&& every_var_in_a_slot(hier.vars@, sigs@)
        },
        match header_sections_at(old(input).data@, old(input).pos as int, header.big_endian, seq![], seq![], false, false, false, seq![]) {
            Err(f) => r matches Err(e) && fails_as(e, f),
            Ok((q, sl)) => r matches Ok((sigs, _)) && final(input).pos == q && sigs@ == sl,
        },
{
    let ghost d = input.data@;
    let ghost whole = header_sections_at(d, input.pos as int, header.big_endian, seq![], seq![], false, false, false, seq![]);
    let mut tables = GhwTables::new(Vec::new(), Vec::new());
    let mut signals: Vec<SignalInfo> = Vec::new();
    let mut hb = HierarchyBuilder::new();
    let mut have_strings = false;
    let mut have_types = false;
    let mut have_hierarchy = false;
    proof {
        assert(strings_view(tables.strings@) =~= seq![]);
        assert(table_view(tables.types@) =~= seq![]);
        assert(signals@ =~= seq![]);
    }
    loop
        invariant_except_break
            header_sections_at(
                d,
                input.pos as int,
                header.big_endian,
                strings_view(tables.strings@),
                table_view(tables.types@),
                have_strings,
                have_types,
                have_hierarchy,
                signals@,
            ) == whole,
        invariant
            d == old(input).data@,
            whole == header_sections_at(d, old(input).pos as int, header.big_endian, seq![], seq![], false, false, false, seq![]),
            input.wf(),
            input.data@ == old(input).data@,
            input.pos >= old(input).pos,
            tables.wf(hb),
            hb.wf(),
            !have_hierarchy ==> hb.vars@.len() == 0,
            slots_ok(signals@),
            every_var_in_a_slot(hb.vars@, signals@),
        ensures
            input.wf(),
            input.data@ == d,
            whole == Ok::<(int, Seq<SignalInfo>), Fault>((input.pos as int, signals@)),
            tables.wf(hb),
            hb.wf(),
            slots_ok(signals@),
            every_var_in_a_slot(hb.vars@, signals@),
        decreases input.data@.len() - input.pos,
    {
        let ghost p = input.pos as int;
        let mark = read_exact(input, 4)?;
        assert(mark@ =~= d.subrange(p, p + 4));
        if is_tag(mark.as_slice(), SectionTag::Strings) {
            if have_strings || have_types {
                return Err(GhwParseError::UnexpectedSection(mark));
            }
            let strings = read_string_section(header, input)?;
            tables = GhwTables::new(strings, Vec::new());
            assert(table_view(tables.types@) =~= seq![]);
            have_strings = true;
        } else if is_tag(mark.as_slice(), SectionTag::Types) {
            if have_types {
                return Err(GhwParseError::UnexpectedSection(mark));
            }
            let types = read_type_section(header, &tables.strings, input)?;
            let GhwTables { types: _, strings, hier_string_ids: _, enum_ids: _ } = tables;
            tables = GhwTables::new(strings, types);
            have_types = true;
        } else if is_tag(mark.as_slice(), SectionTag::WellKnownTypes) {
            let _wkts = read_well_known_types_section(input, tables.types.len())?;
        } else if is_tag(mark.as_slice(), SectionTag::Hierarchy) {
            if have_hierarchy {
                return Err(GhwParseError::UnexpectedSection(mark));
            }
            assert(strings_view(tables.strings@).len() == tables.strings@.len());
            let sigs = read_hierarchy_section(header, &mut tables, input, &mut hb)?;
            signals = sigs;
            have_hierarchy = true;
        } else if is_tag(mark.as_slice(), SectionTag::EndOfHeader) {
            break;
        } else {
            return Err(GhwParseError::UnexpectedSection(mark));
        }
    }
    let hierarchy = hb.finish();
    Ok((signals, hierarchy))
}

/// The values of one signal over time.
#[derive(Debug)]
pub struct Signal {
    pub handle: SignalRef,
    pub changes: Vec<(u64, SignalValue)>,
}

/// The (time, value) pairs of the samples of signal `h`, in emission order.
pub open spec fn changes_of(samples: Seq<Sample>, h: int) -> Seq<(u64, SignalValue)>
    decreases samples.len(),
{
    if samples.len() == 0 {
        seq![]
    } else {
        let rest = changes_of(samples.drop_last(), h);
        if samples.last().handle == h {
            rest.push((samples.last().time, samples.last().value))
        } else {
            rest
        }
    }
}

/// A decoded dump: the hierarchy, the signal slots, every sample in emission order, and the
/// signals loaded so far.
#[derive(Debug)]
pub struct Waveform {
    pub hierarchy: Hierarchy,
    pub slots: Vec<SignalInfo>,
    pub samples: Vec<Sample>,
    pub loaded: Vec<Signal>,
}

impl Waveform {
    pub fn new(hierarchy: Hierarchy, slots: Vec<SignalInfo>, samples: Vec<Sample>) -> (r: Waveform)
        ensures
            r.hierarchy == hierarchy,
            r.slots@ == slots@,
            r.samples@ == samples@,
            r.loaded@.len() == 0,
    {
        Waveform { hierarchy, slots, samples, loaded: Vec::new() }
    }

    pub fn hierarchy(&self) -> (r: &Hierarchy)
        ensures
            *r == self.hierarchy,
    {
        &self.hierarchy
    }

    fn collect_changes(&self, h: SignalRef) -> (r: Vec<(u64, SignalValue)>)
        ensures
            r@ == changes_of(self.samples@, h.0 as int),
    {
        let mut out: Vec<(u64, SignalValue)> = Vec::new();
        let mut i: usize = 0;
        while i < self.samples.len()
            invariant
                i <= self.samples@.len(),
                out@ == changes_of(self.samples@.subrange(0, i as int), h.0 as int),
            decreases self.samples@.len() - i,
        {
            let s = self.samples[i];
            proof {
                let pre = self.samples@.subrange(0, i + 1);
                assert(pre.drop_last() =~= self.samples@.subrange(0, i as int));
                assert(pre.last() == s);
            }
            if s.handle as usize == h.0 {
                out.push((s.time, s.value));
            }
            i = i + 1;
        }
        assert(self.samples@.subrange(0, self.samples@.len() as int) =~= self.samples@);
        out
    }

    /// The loaded signal `h`, if it was loaded.
    pub fn get_signal(&self, h: SignalRef) -> (r: Option<&Signal>)
        ensures
            r matches Some(s) ==> s.handle == h && (self.loaded_wf() ==> s.changes@ == changes_of(
                self.samples@,
                h.0 as int,
            )),
            r is None <==> forall|k: int| 0 <= k < self.loaded@.len() ==> (#[trigger] self.loaded@[k]).handle != h,
    {
        let mut k: usize = 0;
        while k < self.loaded.len()
            invariant
                k <= self.loaded@.len(),
                forall|j: int| 0 <= j < k ==> (#[trigger] self.loaded@[j]).handle != h,
            decreases self.loaded@.len() - k,
        {
            if self.loaded[k].handle == h {
                proof {
                    if self.loaded_wf() {
                        assert(self.loaded@[k as int].changes@ == changes_of(self.samples@, h.0 as int));
                    }
                }
                return Some(&self.loaded[k]);
            }
            k = k + 1;
        }
        None
    }

    /// Whether signal `h` was loaded.
    pub open spec fn is_loaded(&self, h: SignalRef) -> bool {
        exists|k: int| 0 <= k < self.loaded@.len() && (#[trigger] self.loaded@[k]).handle == h
    }

    /// Every loaded signal holds the values of its handle.
    pub open spec fn loaded_wf(&self) -> bool {
        forall|k: int|
            0 <= k < self.loaded@.len() ==> (#[trigger] self.loaded@[k]).changes@ == changes_of(
                self.samples@,
                self.loaded@[k].handle.0 as int,
            )
    }

    /// Makes the values of the given signals available through `get_signal`.
    pub fn load_signals(&mut self, ids: &[SignalRef])
        requires
            old(self).loaded_wf(),
        ensures
            final(self).loaded_wf(),
            final(self).samples@ == old(self).samples@,
            final(self).slots@ == old(self).slots@,
            final(self).hierarchy == old(self).hierarchy,
            forall|i: int| 0 <= i < ids@.len() ==> final(self).is_loaded(#[trigger] ids@[i]),
    {
        let mut i: usize = 0;
        while i < ids.len()
            invariant
                self.loaded_wf(),
                self.samples@ == old(self).samples@,
                self.slots@ == old(self).slots@,
                self.hierarchy == old(self).hierarchy,
                i <= ids@.len(),
                forall|j: int| 0 <= j < i ==> self.is_loaded(#[trigger] ids@[j]),
            decreases ids@.len() - i,
        {
            let h = ids[i];
            let already = self.get_signal(h).is_some();
            if already {
                proof {
                    let k = choose|k: int| 0 <= k < self.loaded@.len() && !((#[trigger] self.loaded@[k]).handle != h);
                    assert(self.is_loaded(h));
                }
            } else {
                let changes = self.collect_changes(h);
                let ghost before = self.loaded@;
                self.loaded.push(Signal { handle: h, changes });
                proof {
                    assert forall|j: int| 0 <= j < i + 1 implies self.is_loaded(#[trigger] ids@[j]) by {
                        if j < i {
                            let k = choose|k: int| 0 <= k < before.len() && (#[trigger] before[k]).handle == ids@[j];
                            assert(self.loaded@[k] == before[k]);
                        } else {
                            assert(self.loaded@[before.len() as int].handle == ids@[j]);
                        }
                    }
                    assert forall|k: int| 0 <= k < self.loaded@.len() implies (#[trigger] self.loaded@[k]).changes@
                        == changes_of(self.samples@, self.loaded@[k].handle.0 as int) by {
                        if k < before.len() {
                            assert(self.loaded@[k] == before[k]);
                        }
                    }
                }
            }
            i = i + 1;
        }
    }
}

/// The decode of the dump at `p` of `d`: the header must be accepted, a tailer at the end of
/// `d` must lead to a well-formed directory, and the sections up to the end of the header and the
/// signal sections must be accepted. The slots and every sample.
pub open spec fn file_decode_at(d: Seq<u8>, p: int) -> Option<(Seq<SignalInfo>, Seq<Sample>)> {
    let s = d.subrange(p, d.len() as int);
    let be = header_fields(s.subrange(9, 16)).big_endian;
    if !ghw_header_valid(s) {
        None
    } else if has_tailer(d) && !directory_found(d, be) {
        None
    } else {
        match header_sections_at(d, p + 16, be, seq![], seq![], false, false, false, seq![]) {
            Err(_) => None,
            Ok((q, sl)) => match signal_sections_at(d, q, sl, be, 0, seq![]) {
                Err(_) => None,
                Ok(samples) => Some((sl, samples)),
            },
        }
    }
}

/// Decoding depends on the bytes alone: two buffers with the same bytes are both accepted or
/// both rejected, and when accepted give the same slots and the same samples.
pub proof fn lemma_decode_repeats(b1: Seq<u8>, b2: Seq<u8>)
    requires
        b1 == b2,
    ensures
        file_decode_at(b1, 0) == file_decode_at(b2, 0),
{
}

/// Decodes a whole dump held in memory: header, optional directory, the sections up to the end
/// of the header, then the signal sections up to the tailer.
pub fn read_from_bytes(bytes: Vec<u8>) -> (r: Result<Waveform, GhwParseError>)
    ensures
        bytes@.len() >= 2 && bytes@[0] == 0x1f && bytes@[1] == 0x8b ==> r == Err::<Waveform, GhwParseError>(
            GhwParseError::UnsupportedCompression("gzip"),
        ),
        bytes@.len() >= 2 && bytes@[0] == 0x42 && bytes@[1] == 0x5a ==> r == Err::<Waveform, GhwParseError>(
            GhwParseError::UnsupportedCompression("bzip2"),
        ),
        !ghw_header_valid(bytes@) ==> r is Err,
        match file_decode_at(bytes@, 0) {
            None => r is Err,
            Some((sl, samples)) => r matches Ok(w) && w.slots@ == sl && w.samples@ == samples,
        },
        r matches Ok(w) ==> {
            &&& w.hierarchy.wf()
            &&& every_var_in_a_slot(w.hierarchy.vars@, w.slots@)
            &&& times_sorted(w.samples@)
            &&& samples_in_slots(w.samples@, w.slots@)
            &&& w.loaded@.len() == 0
        },
{
    let mut input = Input::new(bytes);
    assert(input.rest() =~= bytes@);
    read_internal(&mut input)
}

/// Decodes a dump from the read position of `input`.
pub fn read_internal(input: &mut Input) -> (r: Result<Waveform, GhwParseError>)
    requires
        old(input).wf(),
    ensures
        ({
            let s = old(input).rest();
            &&& s.len() >= 2 && s[0] == 0x1f && s[1] == 0x8b ==> r == Err::<Waveform, GhwParseError>(
                GhwParseError::UnsupportedCompression("gzip"),
            )
            &&& s.len() >= 2 && s[0] == 0x42 && s[1] == 0x5a ==> r == Err::<Waveform, GhwParseError>(
                GhwParseError::UnsupportedCompression("bzip2"),
            )
            &&& !ghw_header_valid(s) ==> r is Err
        }),
        match file_decode_at(old(input).data@, old(input).pos as int) {
            None => r is Err,
            Some((sl, samples)) => r matches Ok(w) && w.slots@ == sl && w.samples@ == samples,
        },
        r matches Ok(w) ==> {
            &&& w.hierarchy.wf()
            &&& every_var_in_a_slot(w.hierarchy.vars@, w.slots@)
            &&& times_sorted(w.samples@)
            &&& samples_in_slots(w.samples@, w.slots@)
            &&& w.loaded@.len() == 0
        },
{
    let header = match read_ghw_header(input) {
        Ok(h) => h,
        Err(e) => {
            return Err(e);
        },
    };
    let header_len = input.position();
    proof {
        let dd = input.data@;
        if dd.len() >= 12 {
            let tail = dd.subrange(dd.len() - 12, dd.len() as int);
            assert(tail.subrange(0, 4) =~= dd.subrange(dd.len() - 12, dd.len() - 8));
            assert(tail.subrange(8, 12) =~= dd.subrange(dd.len() - 4, dd.len() as int));
        }
    }
    let _sections = try_read_directory(&header, input)?;
    input.seek(header_len);
    let (signals, hierarchy) = read_hierarchy(&header, input)?;
    let samples = read_signals(&header, &signals, input)?;
    Ok(Waveform::new(hierarchy, signals, samples))
}

} // verus!
