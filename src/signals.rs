use vstd::prelude::*;

use crate::error::{fails_as, Fault, GhwParseError, HeaderData};
use crate::header::{check_header_zeros, check_magic_end, directory_ok, is_tag, read_directory, tag_bytes, SectionTag};
use crate::input::{read_exact, read_u8, signed64, word32, word64, Input};
use crate::leb::{read_signed, read_unsigned};
use crate::leb::{leb_group_len, sleb_read, uleb_read};
use crate::typesection::{sleb_at, u8_at, uleb_at};

verus! {

/// How the values of a signal are stored in the signal sections.
#[derive(Debug, Clone, Copy, PartialEq, Eq, Structural)]
pub enum SignalType {
    /// Bits and enums: one raw byte.
    U8,
    /// 32-bit integers: a signed LEB128 number.
    I32,
    /// 64-bit integers: a signed LEB128 number.
    I64,
    /// Floating point: eight raw bytes.
    F64,
}

/// A slot of the signal table: the run of signal ids it covers, how its values are stored,
/// and, for nine-value bits, the table from raw values to nine-value codes.
#[derive(Debug, Clone, Copy, PartialEq, Eq)]
pub struct SignalInfo {
    pub start_id: u32,
    pub end_id: u32,
    pub tpe: SignalType,
    pub lut: Option<[u8; 9]>,
}

impl SignalInfo {
    /// Number of signal ids in the run.
    pub fn len(&self) -> (r: u64)
        requires
            self.start_id <= self.end_id,
        ensures
            r == self.end_id - self.start_id + 1,
    {
        (self.end_id - self.start_id) as u64 + 1
    }
}

/// The slot table while the hierarchy is read: entry `i` is the slot of handle `i`, if that
/// handle was seen; each slot covers exactly its own handle.
pub open spec fn slots_wf(s: Seq<Option<SignalInfo>>) -> bool {
    forall|i: int|
        0 <= i < s.len() ==> (#[trigger] s[i] matches Some(info) ==> info.start_id == i
            && info.end_id == i && i >= 1)
}

/// A decoded value.
#[derive(Debug, Clone, Copy, PartialEq, Eq, Structural)]
pub enum SignalValue {
    U8(u8),
    I32(i32),
    I64(i64),
}

/// The value of a signal at `p`: one raw byte (mapped to its nine-value code when the slot has
/// a table), or a signed LEB128 number (narrowed to 32 bits for `I32`). Floating point values
/// are not supported.
pub open spec fn signal_value_at(d: Seq<u8>, p: int, tpe: SignalType, lut: Option<[u8; 9]>) -> Result<
    (SignalValue, int),
    GhwParseError,
> {
    match tpe {
        SignalType::U8 => match u8_at(d, p) {
            Err(e) => Err(e),
            Ok((b, q)) => match lut {
                None => Ok((SignalValue::U8(b), q)),
                Some(l) => if b < 9 {
                    Ok((SignalValue::U8(l@[b as int]), q))
                } else {
                    Err(GhwParseError::FailedToParseSection("signal", "nine-value code out of range"))
                },
            },
        },
        SignalType::I32 => match sleb_at(d, p) {
            Err(e) => Err(e),
            Ok((v, q)) => Ok((SignalValue::I32(v as i32), q)),
        },
        SignalType::I64 => match sleb_at(d, p) {
            Err(e) => Err(e),
            Ok((v, q)) => Ok((SignalValue::I64(v as i64), q)),
        },
        SignalType::F64 => if p + 8 <= d.len() {
            Err(GhwParseError::FailedToParseSection("signal", "floating point values are not supported"))
        } else {
            Err(GhwParseError::UnexpectedEof)
        },
    }
}

/// Reads one value of a signal of the given kind.
pub fn read_signal_value(tpe: SignalType, lut: Option<[u8; 9]>, input: &mut Input) -> (r: Result<
    SignalValue,
    GhwParseError,
>)
    requires
        old(input).wf(),
    ensures
        final(input).wf(),
        final(input).same_data(old(input)),
        match signal_value_at(old(input).data@, old(input).pos as int, tpe, lut) {
            Ok((v, q)) => r == Ok::<SignalValue, GhwParseError>(v) && final(input).pos == q,
            Err(e) => r == Err::<SignalValue, GhwParseError>(e),
        },
{
    let ghost p0 = input.pos as int;
    match tpe {
        SignalType::U8 => {
            let b = read_u8(input)?;
            match lut {
                None => Ok(SignalValue::U8(b)),
                Some(l) => {
                    if b < 9 {
                        Ok(SignalValue::U8(l[b as usize]))
                    } else {
                        Err(GhwParseError::FailedToParseSection("signal", "nine-value code out of range"))
                    }
                },
            }
        },
        SignalType::I32 => {
            let value = read_signed(input)?;
            assert(sleb_at(input.data@, p0) == Ok::<(int, int), GhwParseError>((value as int, input.pos as int)));
            Ok(SignalValue::I32(#[verifier::truncate] (value as i32)))
        },
        SignalType::I64 => {
            let value = read_signed(input)?;
            assert(sleb_at(input.data@, p0) == Ok::<(int, int), GhwParseError>((value as int, input.pos as int)));
            Ok(SignalValue::I64(value))
        },
        SignalType::F64 => {
            let _buf = read_exact(input, 8)?;
            Err(GhwParseError::FailedToParseSection("signal", "floating point values are not supported"))
        },
    }
}

/// One emitted value: the signal id, the time in femtoseconds and the value.
#[derive(Debug, Clone, Copy, PartialEq, Eq, Structural)]
pub struct Sample {
    pub handle: u32,
    pub time: u64,
    pub value: SignalValue,
}

/// Whether the samples come in non-decreasing time.
pub open spec fn times_sorted(s: Seq<Sample>) -> bool {
    forall|i: int, j: int| 0 <= i < j < s.len() ==> s[i].time <= s[j].time
}

/// The sink of the signal pass: it takes values at the current time, and the current time
/// only moves forward.
pub struct Encoder {
    pub samples: Vec<Sample>,
    pub time: u64,
}

impl Encoder {
    pub open spec fn wf(&self) -> bool {
        &&& times_sorted(self.samples@)
        &&& forall|i: int| 0 <= i < self.samples@.len() ==> (#[trigger] self.samples@[i]).time <= self.time
    }

    pub fn new() -> (r: Encoder)
        ensures
            r.wf(),
            r.samples@.len() == 0,
            r.time == 0,
    {
        Encoder { samples: Vec::new(), time: 0 }
    }

    /// Moves the current time forward.
    pub fn set_time(&mut self, time: u64)
        requires
            old(self).wf(),
            time >= old(self).time,
        ensures
            final(self).wf(),
            final(self).time == time,
            final(self).samples@ == old(self).samples@,
    {
        self.time = time;
    }

    /// Records a value of signal `handle` at the current time.
    pub fn emit(&mut self, handle: u32, value: SignalValue)
        requires
            old(self).wf(),
        ensures
            final(self).wf(),
            final(self).time == old(self).time,
            final(self).samples@ == old(self).samples@.push(
                Sample { handle, time: old(self).time, value },
            ),
    {
        let t = self.time;
        self.samples.push(Sample { handle, time: t, value });
    }
}

/// Every sample names the first id of one of the slots.
pub open spec fn samples_in_slots(samples: Seq<Sample>, slots: Seq<SignalInfo>) -> bool {
    forall|i: int|
        0 <= i < samples.len() ==> exists|k: int|
            0 <= k < slots.len() && (#[trigger] slots[k]).start_id <= (#[trigger] samples[i]).handle
                <= slots[k].end_id
}

/// Slots whose runs are not empty and fit in 32 bits.
pub open spec fn slots_ok(slots: Seq<SignalInfo>) -> bool {
    forall|k: int| 0 <= k < slots.len() ==> (#[trigger] slots[k]).start_id <= slots[k].end_id
}

/// What the signal readers keep: the sink stays well formed, nothing emitted goes away, and every
/// new sample names a slot.
pub open spec fn emits_ok(e1: Encoder, e2: Encoder, slots: Seq<SignalInfo>) -> bool {
    &&& e2.wf()
    &&& e2.time >= e1.time
    &&& e1.samples@.len() <= e2.samples@.len()
    &&& forall|i: int| 0 <= i < e1.samples@.len() ==> e2.samples@[i] == e1.samples@[i]
    &&& (samples_in_slots(e1.samples@, slots) ==> samples_in_slots(e2.samples@, slots))
}

proof fn lemma_emit_in_slot(e1: Encoder, e2: Encoder, slots: Seq<SignalInfo>, k: int)
    requires
        samples_in_slots(e1.samples@, slots),
        0 <= k < slots.len(),
        e2.samples@.len() == e1.samples@.len() + 1,
        forall|i: int| 0 <= i < e1.samples@.len() ==> e2.samples@[i] == e1.samples@[i],
        slots[k].start_id <= e2.samples@.last().handle <= slots[k].end_id,
    ensures
        samples_in_slots(e2.samples@, slots),
{
    assert forall|i: int| 0 <= i < e2.samples@.len() implies exists|kk: int|
        0 <= kk < slots.len() && (#[trigger] slots[kk]).start_id <= (#[trigger] e2.samples@[i]).handle
            <= slots[kk].end_id by {
        if i < e1.samples@.len() {
            assert(e2.samples@[i] == e1.samples@[i]);
        } else {
            assert(slots[k].start_id <= e2.samples@[i].handle <= slots[k].end_id);
        }
    }
}


/// A LEB128 number always takes at least one byte.
pub proof fn lemma_leb_advances(s: Seq<u8>)
    ensures
        uleb_read(s) matches Ok((_, n)) ==> n >= 1,
        sleb_read(s) matches Ok((_, n)) ==> n >= 1,
{
    if s.len() > 0 {
        assert(leb_group_len(s) matches Some(n) ==> n >= 1);
    }
}

/// The values of the ids `start_id + off ..` of one slot, `j` of them, read from `p` at time
/// `time`, appended to `acc`; with the index after them.
pub open spec fn run_values_at(
    d: Seq<u8>,
    p: int,
    slot: SignalInfo,
    j: nat,
    off: int,
    time: u64,
    acc: Seq<Sample>,
) -> Result<(int, Seq<Sample>), Fault>
    decreases j,
{
    if j == 0 {
        Ok((p, acc))
    } else {
        match signal_value_at(d, p, slot.tpe, slot.lut) {
            Err(e) => Err(Fault::Error(e)),
            Ok((v, q)) => run_values_at(
                d,
                q,
                slot,
                (j - 1) as nat,
                off + 1,
                time,
                acc.push(Sample { handle: (slot.start_id + off) as u32, time, value: v }),
            ),
        }
    }
}

/// The values of every id of the slots from index `k` on, read from `p`.
pub open spec fn snapshot_values_at(
    d: Seq<u8>,
    p: int,
    slots: Seq<SignalInfo>,
    k: int,
    time: u64,
    acc: Seq<Sample>,
) -> Result<(int, Seq<Sample>), Fault>
    decreases slots.len() - k,
{
    if k < 0 || k >= slots.len() {
        Ok((p, acc))
    } else {
        match run_values_at(
            d,
            p,
            slots[k],
            (slots[k].end_id - slots[k].start_id + 1) as nat,
            0,
            time,
            acc,
        ) {
            Err(f) => Err(f),
            Ok((q, acc2)) => snapshot_values_at(d, q, slots, k + 1, time, acc2),
        }
    }
}

/// The time stored in eight bytes: the signed number read as unsigned.
pub open spec fn time_of(b: Seq<u8>, big_endian: bool) -> u64 {
    (signed64(word64(b, big_endian)) as i64) as u64
}

/// A snapshot section (after its tag) at `p`, after the samples `acc` at time `time0`: the
/// index after it, the time, and all samples.
#[verifier::opaque]
pub open spec fn snapshot_at(
    d: Seq<u8>,
    p: int,
    slots: Seq<SignalInfo>,
    big_endian: bool,
    time0: u64,
    acc: Seq<Sample>,
) -> Result<(int, u64, Seq<Sample>), Fault> {
    if p < 0 || p + 12 > d.len() {
        Err(Fault::Error(GhwParseError::UnexpectedEof))
    } else if !(d[p] == 0 && d[p + 1] == 0 && d[p + 2] == 0 && d[p + 3] == 0) {
        Err(Fault::Error(GhwParseError::FailedToParseSection("snapshot", "first four bytes should be zero")))
    } else {
        let t = time_of(d.subrange(p + 4, p + 12), big_endian);
        if t < time0 {
            Err(Fault::Error(GhwParseError::FailedToParseSection("snapshot", "time goes backwards")))
        } else {
            match snapshot_values_at(d, p + 12, slots, 0, t, acc) {
                Err(f) => Err(f),
                Ok((q, acc2)) => if q + 4 > d.len() {
                    Err(Fault::Error(GhwParseError::UnexpectedEof))
                } else if d.subrange(q, q + 4) == tag_bytes(SectionTag::EndSnapshot) {
                    Ok((q + 4, t, acc2))
                } else {
                    Err(Fault::Tag(d.subrange(q, q + 4)))
                },
            }
        }
    }
}

/// The updates of one time step of a cycle from `p`, with the slot cursor at `cursor`.
pub open spec fn cycle_updates_at(
    d: Seq<u8>,
    p: int,
    slots: Seq<SignalInfo>,
    cursor: int,
    time: u64,
    first: bool,
    acc: Seq<Sample>,
) -> Result<(int, Seq<Sample>), Fault>
    decreases d.len() - p,
{
    match uleb_at(d, p) {
        Err(e) => Err(Fault::Error(e)),
        Ok((delta, q)) => if delta == 0 {
            if first && cursor == 0 {
                Err(Fault::Error(GhwParseError::FailedToParseSection("cycle", "expected a first delta > 0")))
            } else {
                Ok((q, acc))
            }
        } else if delta > slots.len() - cursor {
            Err(Fault::Error(GhwParseError::FailedToParseSection("cycle", "signal index out of range")))
        } else {
            let c = cursor + delta;
            match signal_value_at(d, q, slots[c - 1].tpe, slots[c - 1].lut) {
                Err(e) => Err(Fault::Error(e)),
                Ok((v, q2)) => if p < q2 <= d.len() {
                    cycle_updates_at(
                        d,
                        q2,
                        slots,
                        c,
                        time,
                        first,
                        acc.push(Sample { handle: slots[c - 1].start_id, time, value: v }),
                    )
                } else {
                    Err(Fault::Unnamed)
                },
            }
        },
    }
}

/// Slots in strictly ascending handle order.
pub open spec fn slots_ascending(slots: Seq<SignalInfo>) -> bool {
    forall|k: int, l: int| 0 <= k < l < slots.len() ==> slots[k].start_id < slots[l].start_id
}

/// The updates of one time step come in strictly ascending handle order, each at or after the
/// slot under the cursor, after the samples that came before.
pub proof fn lemma_step_handles_ascend(
    d: Seq<u8>,
    p: int,
    slots: Seq<SignalInfo>,
    cursor: int,
    time: u64,
    first: bool,
    acc: Seq<Sample>,
)
    requires
        slots_ascending(slots),
        0 <= cursor <= slots.len(),
        cycle_updates_at(d, p, slots, cursor, time, first, acc) is Ok,
    ensures
        ({
            let res = (cycle_updates_at(d, p, slots, cursor, time, first, acc)->Ok_0).1;
            &&& acc.len() <= res.len()
            &&& res.subrange(0, acc.len() as int) == acc
            &&& forall|i: int|
                acc.len() <= i < res.len() ==> cursor < slots.len() && #[trigger] res[i].handle
                    >= slots[cursor].start_id
            &&& forall|i: int, j: int| acc.len() <= i < j < res.len() ==> res[i].handle < res[j].handle
        }),
    decreases d.len() - p,
{
    let (delta, q) = uleb_at(d, p)->Ok_0;
    let fr = d.subrange(p, d.len() as int);
    crate::leb::lemma_payload_nonneg(fr, 10);
    if let Some(n) = crate::leb::leb_group_len(fr) {
        crate::leb::lemma_payload_nonneg(fr, n);
    }
    assert(delta >= 0);
    if delta != 0 {
        let c = cursor + delta;
        let (v, q2) = signal_value_at(d, q, slots[c - 1].tpe, slots[c - 1].lut)->Ok_0;
        let acc2 = acc.push(Sample { handle: slots[c - 1].start_id, time, value: v });
        assert(delta <= slots.len() - cursor);
        assert(p < q2 <= d.len());
        assert(cycle_updates_at(d, p, slots, cursor, time, first, acc) == cycle_updates_at(
            d,
            q2,
            slots,
            c,
            time,
            first,
            acc2,
        ));
        lemma_step_handles_ascend(d, q2, slots, c, time, first, acc2);
        let res = (cycle_updates_at(d, p, slots, cursor, time, first, acc)->Ok_0).1;
        assert(res.subrange(0, acc2.len() as int) == acc2);
        assert(res.subrange(0, acc.len() as int) =~= acc) by {
            assert forall|i: int| 0 <= i < acc.len() implies res[i] == acc[i] by {
                assert(res.subrange(0, acc2.len() as int)[i] == acc2[i]);
            }
        }
        assert(res[acc.len() as int] == acc2[acc.len() as int]) by {
            assert(res.subrange(0, acc2.len() as int)[acc.len() as int] == acc2[acc.len() as int]);
        }
        if cursor < c - 1 {
            assert(slots[cursor].start_id < slots[c - 1].start_id);
        }
        assert(res[acc.len() as int].handle == slots[c - 1].start_id);
        assert forall|i: int| acc.len() <= i < res.len() implies cursor < slots.len()
            && #[trigger] res[i].handle >= slots[cursor].start_id by {
            if i > acc.len() {
                assert(res[i].handle >= slots[c].start_id);
                assert(slots[c - 1].start_id < slots[c].start_id);
            }
            if cursor < c - 1 {
                assert(slots[cursor].start_id < slots[c - 1].start_id);
            }
        }
        assert forall|i: int, j: int| acc.len() <= i < j < res.len() implies res[i].handle
            < res[j].handle by {
            if i == acc.len() {
                assert(res[j].handle >= slots[c].start_id);
                assert(slots[c - 1].start_id < slots[c].start_id);
            }
        }
    } else {
        assert(acc.subrange(0, acc.len() as int) =~= acc);
    }
}

/// The time steps of a cycle from `p`: the index after the closing negative time delta, the
/// last time, and the samples.
pub open spec fn cycle_steps_at(
    d: Seq<u8>,
    p: int,
    slots: Seq<SignalInfo>,
    time: u64,
    first: bool,
    acc: Seq<Sample>,
) -> Result<(int, u64, Seq<Sample>), Fault>
    decreases d.len() - p,
{
    match cycle_updates_at(d, p, slots, 0, time, first, acc) {
        Err(f) => Err(f),
        Ok((q, acc2)) => match sleb_at(d, q) {
            Err(e) => Err(Fault::Error(e)),
            Ok((td, q2)) => if td < 0 {
                Ok((q2, time, acc2))
            } else if time + td > u64::MAX {
                Err(Fault::Error(GhwParseError::FailedToParseSection("cycle", "time overflows")))
            } else if p < q2 <= d.len() {
                cycle_steps_at(d, q2, slots, (time + td) as u64, false, acc2)
            } else {
                Err(Fault::Unnamed)
            },
        },
    }
}

/// A cycle section (after its tag) at `p`, after the samples `acc` at time `time0`.
#[verifier::opaque]
pub open spec fn cycle_at(
    d: Seq<u8>,
    p: int,
    slots: Seq<SignalInfo>,
    big_endian: bool,
    time0: u64,
    acc: Seq<Sample>,
) -> Result<(int, u64, Seq<Sample>), Fault> {
    if p < 0 || p + 8 > d.len() {
        Err(Fault::Error(GhwParseError::UnexpectedEof))
    } else {
        let t = time_of(d.subrange(p, p + 8), big_endian);
        if t < time0 {
            Err(Fault::Error(GhwParseError::FailedToParseSection("cycle", "time goes backwards")))
        } else {
            match cycle_steps_at(d, p + 8, slots, t, true, acc) {
                Err(f) => Err(f),
                Ok((q, t2, acc2)) => if q + 4 > d.len() {
                    Err(Fault::Error(GhwParseError::UnexpectedEof))
                } else if d.subrange(q, q + 4) == tag_bytes(SectionTag::EndCycle) {
                    Ok((q + 4, t2, acc2))
                } else {
                    Err(Fault::Tag(d.subrange(q, q + 4)))
                },
            }
        }
    }
}

/// The signal sections from `p` up to the tailer: every sample, in emission order.
pub open spec fn signal_sections_at(
    d: Seq<u8>,
    p: int,
    slots: Seq<SignalInfo>,
    big_endian: bool,
    time: u64,
    acc: Seq<Sample>,
) -> Result<Seq<Sample>, Fault>
    decreases d.len() - p,
{
    if p < 0 {
        Err(Fault::Unnamed)
    } else if p + 4 > d.len() {
        Err(Fault::Error(GhwParseError::UnexpectedEof))
    } else {
        let tag = d.subrange(p, p + 4);
        if tag == tag_bytes(SectionTag::Tailer) {
            Ok(acc)
        } else if tag == tag_bytes(SectionTag::Snapshot) {
            match snapshot_at(d, p + 4, slots, big_endian, time, acc) {
                Err(f) => Err(f),
                Ok((q, t, acc2)) => if p < q <= d.len() {
                    signal_sections_at(d, q, slots, big_endian, t, acc2)
                } else {
                    Err(Fault::Unnamed)
                },
            }
        } else if tag == tag_bytes(SectionTag::Cycle) {
            match cycle_at(d, p + 4, slots, big_endian, time, acc) {
                Err(f) => Err(f),
                Ok((q, t, acc2)) => if p < q <= d.len() {
                    signal_sections_at(d, q, slots, big_endian, t, acc2)
                } else {
                    Err(Fault::Unnamed)
                },
            }
        } else if tag == tag_bytes(SectionTag::Directory) {
            let rest = d.subrange(p + 4, d.len() as int);
            if directory_ok(rest, big_endian) {
                signal_sections_at(
                    d,
                    p + 4 + 12 + 8 * word32(rest.subrange(4, 8), big_endian),
                    slots,
                    big_endian,
                    time,
                    acc,
                )
            } else {
                Err(Fault::Unnamed)
            }
        } else {
            Err(Fault::Tag(tag))
        }
    }
}

/// The values of slot `k` from its id `start_id + off` on (`j` of them), then those of the
/// slots after it.
pub open spec fn after_run(
    d: Seq<u8>,
    p: int,
    slots: Seq<SignalInfo>,
    k: int,
    j: nat,
    off: int,
    time: u64,
    acc: Seq<Sample>,
) -> Result<(int, Seq<Sample>), Fault> {
    match run_values_at(d, p, slots[k], j, off, time, acc) {
        Err(f) => Err(f),
        Ok((q, acc2)) => snapshot_values_at(d, q, slots, k + 1, time, acc2),
    }
}

/// Reads a snapshot section (after its tag): a 12-byte head with four zero bytes and the time,
/// one value for every id of every slot in order, and the closing tag.
pub fn read_snapshot_section(
    header: &HeaderData,
    signals: &Vec<SignalInfo>,
    input: &mut Input,
    enc: &mut Encoder,
) -> (r: Result<(), GhwParseError>)
    requires
        old(input).wf(),
        old(enc).wf(),
        slots_ok(signals@),
    ensures
        final(input).wf(),
        final(input).same_data(old(input)),
        emits_ok(*old(enc), *final(enc), signals@),
        r is Ok ==> final(input).pos > old(input).pos,
        match snapshot_at(
            old(input).data@,
            old(input).pos as int,
            signals@,
            header.big_endian,
            old(enc).time,
            old(enc).samples@,
        ) {
            Err(f) => r matches Err(e) && fails_as(e, f),
            Ok((q, t, acc)) => r is Ok && final(input).pos == q && final(enc).time == t
                && final(enc).samples@ == acc,
        },
{
    reveal(snapshot_at);
    let ghost d = input.data@;
    let ghost p0 = input.pos as int;
    let h = read_exact(input, 12)?;
    assert(h@ =~= d.subrange(p0, p0 + 12));
    check_header_zeros("snapshot", h.as_slice())?;
    let hs = h.as_slice();
    assert(hs@.subrange(4, 12).subrange(0, 8) =~= d.subrange(p0 + 4, p0 + 12));
    let start_time = header.read_i64(&hs[4..12])?;
    let time = #[verifier::truncate] (start_time as u64);
    assert(time == time_of(d.subrange(p0 + 4, p0 + 12), header.big_endian));
    if time < enc.time {
        return Err(GhwParseError::FailedToParseSection("snapshot", "time goes backwards"));
    }
    enc.set_time(time);
    let ghost e0 = *old(enc);
    let ghost whole = snapshot_values_at(d, p0 + 12, signals@, 0, time, e0.samples@);
    let mut k: usize = 0;
    while k < signals.len()
        invariant
            input.wf(),
            input.data@ == d,
            d == old(input).data@,
            p0 == old(input).pos,
            input.pos > old(input).pos,
            slots_ok(signals@),
            e0 == *old(enc),
            emits_ok(e0, *enc, signals@),
            enc.time == time,
            p0 + 12 <= d.len(),
            d[p0] == 0 && d[p0 + 1] == 0 && d[p0 + 2] == 0 && d[p0 + 3] == 0,
            time == time_of(d.subrange(p0 + 4, p0 + 12), header.big_endian),
            time >= e0.time,
            whole == snapshot_values_at(d, p0 + 12, signals@, 0, time, e0.samples@),
            snapshot_values_at(d, input.pos as int, signals@, k as int, time, enc.samples@) == whole,
            k <= signals@.len(),
        decreases signals@.len() - k,
    {
        proof {
            reveal(snapshot_at);
        }
        let sig = signals[k];
        assert(slots_ok(signals@) ==> sig.start_id <= sig.end_id);
        let n = sig.len();
        let mut j: u64 = 0;
        while j < n
            invariant
                input.wf(),
                input.data@ == d,
                d == old(input).data@,
                p0 == old(input).pos,
                input.pos > old(input).pos,
                e0 == *old(enc),
                emits_ok(e0, *enc, signals@),
                enc.time == time,
                p0 + 12 <= d.len(),
                d[p0] == 0 && d[p0 + 1] == 0 && d[p0 + 2] == 0 && d[p0 + 3] == 0,
                time == time_of(d.subrange(p0 + 4, p0 + 12), header.big_endian),
                time >= e0.time,
                whole == snapshot_values_at(d, p0 + 12, signals@, 0, time, e0.samples@),
                after_run(d, input.pos as int, signals@, k as int, (n - j) as nat, j as int, time, enc.samples@)
                    == whole,
                k < signals@.len(),
                sig == signals@[k as int],
                sig.start_id <= sig.end_id,
                n == sig.end_id - sig.start_id + 1,
                j <= n,
            decreases n - j,
        {
            proof {
                reveal(snapshot_at);
            }
            let value = read_signal_value(sig.tpe, sig.lut, input)?;
            let ghost e1 = *enc;
            enc.emit((sig.start_id as u64 + j) as u32, value);
            proof {
                if samples_in_slots(e0.samples@, signals@) {
                    lemma_emit_in_slot(e1, *enc, signals@, k as int);
                }
            }
            j = j + 1;
        }
        k = k + 1;
    }
    proof {
        if input.rest().len() >= 4 {
            assert(input.rest().subrange(0, 4) =~= d.subrange(input.pos as int, input.pos + 4));
        }
    }
    check_magic_end(input, SectionTag::EndSnapshot)?;
    Ok(())
}

/// Reads the updates of one time step of a cycle: each non-zero delta moves a cursor over the
/// slots and is followed by a value of the slot it lands on; a zero ends the step. In the first
/// step of a cycle the first delta must not be zero.
pub fn read_cycle_signals(
    signals: &Vec<SignalInfo>,
    input: &mut Input,
    enc: &mut Encoder,
    first_step: bool,
) -> (r: Result<(), GhwParseError>)
    requires
        old(input).wf(),
        old(enc).wf(),
        slots_ok(signals@),
    ensures
        final(input).wf(),
        final(input).same_data(old(input)),
        emits_ok(*old(enc), *final(enc), signals@),
        final(enc).time == old(enc).time,
        r is Ok ==> final(input).pos > old(input).pos,
        match cycle_updates_at(
            old(input).data@,
            old(input).pos as int,
            signals@,
            0,
            old(enc).time,
            first_step,
            old(enc).samples@,
        ) {
            Err(f) => r matches Err(e) && fails_as(e, f),
            Ok((q, acc)) => r is Ok && final(input).pos == q && final(enc).samples@ == acc,
        },
{
    let ghost e0 = *old(enc);
    let ghost d = input.data@;
    let ghost whole = cycle_updates_at(d, input.pos as int, signals@, 0, e0.time, first_step, e0.samples@);
    let mut pos_signal_index: usize = 0;
    loop
        invariant_except_break
            cycle_updates_at(d, input.pos as int, signals@, pos_signal_index as int, e0.time, first_step, enc.samples@)
                == whole,
        invariant
            input.wf(),
            input.data@ == d,
            d == old(input).data@,
            input.pos >= old(input).pos,
            slots_ok(signals@),
            e0 == *old(enc),
            emits_ok(e0, *enc, signals@),
            enc.time == e0.time,
            pos_signal_index <= signals@.len(),
            whole == cycle_updates_at(d, old(input).pos as int, signals@, 0, e0.time, first_step, e0.samples@),
        ensures
            input.pos > old(input).pos,
            input.wf(),
            input.data@ == old(input).data@,
            emits_ok(e0, *enc, signals@),
            enc.time == e0.time,
            whole == Ok::<(int, Seq<Sample>), Fault>((input.pos as int, enc.samples@)),
        decreases input.data@.len() - input.pos,
    {
        proof {
            lemma_leb_advances(input.rest());
        }
        let delta = read_unsigned(input)?;
        if delta == 0 {
            if first_step && pos_signal_index == 0 {
                return Err(GhwParseError::FailedToParseSection("cycle", "expected a first delta > 0"));
            }
            break;
        }
        if delta > (signals.len() - pos_signal_index) as u64 {
            return Err(GhwParseError::FailedToParseSection("cycle", "signal index out of range"));
        }
        pos_signal_index = pos_signal_index + delta as usize;
        let k = pos_signal_index - 1;
        let sig = signals[k];
        let value = read_signal_value(sig.tpe, sig.lut, input)?;
        let ghost e1 = *enc;
        enc.emit(sig.start_id, value);
        proof {
            assert(sig.start_id <= sig.end_id);
            if samples_in_slots(e0.samples@, signals@) {
                lemma_emit_in_slot(e1, *enc, signals@, k as int);
            }
        }
    }
    Ok(())
}

#[verifier::rlimit(40)]
/// Reads a cycle section (after its tag): the start time, then time steps of updates separated
/// by signed time deltas; a negative delta ends the section, which closes with its tag.
pub fn read_cycle_section(
    header: &HeaderData,
    signals: &Vec<SignalInfo>,
    input: &mut Input,
    enc: &mut Encoder,
) -> (r: Result<(), GhwParseError>)
    requires
        old(input).wf(),
        old(enc).wf(),
        slots_ok(signals@),
    ensures
        final(input).wf(),
        final(input).same_data(old(input)),
        emits_ok(*old(enc), *final(enc), signals@),
        r is Ok ==> final(input).pos > old(input).pos,
        match cycle_at(
            old(input).data@,
            old(input).pos as int,
            signals@,
            header.big_endian,
            old(enc).time,
            old(enc).samples@,
        ) {
            Err(f) => r matches Err(e) && fails_as(e, f),
            Ok((q, t, acc)) => r is Ok && final(input).pos == q && final(enc).time == t
                && final(enc).samples@ == acc,
        },
{
    reveal(cycle_at);
    let ghost e0 = *old(enc);
    let ghost d = input.data@;
    let ghost p0 = input.pos as int;
    let h = read_exact(input, 8)?;
    assert(h@.subrange(0, 8) =~= d.subrange(p0, p0 + 8));
    let start_time = header.read_i64(h.as_slice())?;
    let time = #[verifier::truncate] (start_time as u64);
    assert(time == time_of(d.subrange(p0, p0 + 8), header.big_endian));
    if time < enc.time {
        return Err(GhwParseError::FailedToParseSection("cycle", "time goes backwards"));
    }
    enc.set_time(time);
    let ghost whole = cycle_steps_at(d, p0 + 8, signals@, time, true, e0.samples@);
    let mut first_step = true;
    loop
        invariant_except_break
            cycle_steps_at(d, input.pos as int, signals@, enc.time, first_step, enc.samples@) == whole,
        invariant
            input.wf(),
            input.data@ == d,
            d == old(input).data@,
            p0 == old(input).pos,
            input.pos > old(input).pos,
            slots_ok(signals@),
            e0 == *old(enc),
            emits_ok(e0, *enc, signals@),
            p0 + 8 <= d.len(),
            time == time_of(d.subrange(p0, p0 + 8), header.big_endian),
            time >= e0.time,
            whole == cycle_steps_at(d, p0 + 8, signals@, time, true, e0.samples@),
        ensures
            input.wf(),
            input.data@ == d,
            input.pos > old(input).pos,
            emits_ok(e0, *enc, signals@),
            whole == Ok::<(int, u64, Seq<Sample>), Fault>((input.pos as int, enc.time, enc.samples@)),
        decreases input.data@.len() - input.pos,
    {
        proof {
            reveal(cycle_at);
        }
        read_cycle_signals(signals, input, enc, first_step)?;
        first_step = false;
        proof {
            lemma_leb_advances(input.rest());
        }
        let time_delta = read_signed(input)?;
        if time_delta < 0 {
            break;
        }
        let now = enc.time;
        let next = match now.checked_add(time_delta as u64) {
            Some(t) => t,
            None => {
                return Err(GhwParseError::FailedToParseSection("cycle", "time overflows"));
            },
        };
        enc.set_time(next);
    }
    proof {
        if input.rest().len() >= 4 {
            assert(input.rest().subrange(0, 4) =~= d.subrange(input.pos as int, input.pos + 4));
        }
    }
    check_magic_end(input, SectionTag::EndCycle)?;
    Ok(())
}

#[verifier::rlimit(40)]
/// Reads the signal sections that follow the end of the header, up to the tailer: snapshots
/// and cycles drive the sink; directories are read and dropped. The samples come out in
/// non-decreasing time, and each names a slot.
pub fn read_signals(header: &HeaderData, signals: &Vec<SignalInfo>, input: &mut Input) -> (r: Result<
    Vec<Sample>,
    GhwParseError,
>)
    requires
        old(input).wf(),
        slots_ok(signals@),
    ensures
        final(input).wf(),
        final(input).same_data(old(input)),
        r matches Ok(v) ==> times_sorted(v@) && samples_in_slots(v@, signals@),
        match signal_sections_at(old(input).data@, old(input).pos as int, signals@, header.big_endian, 0, seq![]) {
            Err(f) => r matches Err(e) && fails_as(e, f),
            Ok(acc) => r matches Ok(v) && v@ == acc,
        },
{
    let ghost d = input.data@;
    let mut encoder = Encoder::new();
    assert(encoder.samples@ =~= seq![]);
    let ghost whole = signal_sections_at(d, input.pos as int, signals@, header.big_endian, 0, seq![]);
    loop
        invariant_except_break
            signal_sections_at(d, input.pos as int, signals@, header.big_endian, encoder.time, encoder.samples@)
                == whole,
        invariant
            input.wf(),
            input.data@ == d,
            d == old(input).data@,
            slots_ok(signals@),
            encoder.wf(),
            samples_in_slots(encoder.samples@, signals@),
            whole == signal_sections_at(d, old(input).pos as int, signals@, header.big_endian, 0, seq![]),
        ensures
            input.wf(),
            input.data@ == d,
            encoder.wf(),
            samples_in_slots(encoder.samples@, signals@),
            whole == Ok::<Seq<Sample>, Fault>(encoder.samples@),
        decreases input.data@.len() - input.pos,
    {
        let ghost p = input.pos as int;
        let mark = read_exact(input, 4)?;
        assert(mark@ =~= d.subrange(p, p + 4));
        assert(input.rest() =~= d.subrange(p + 4, d.len() as int));
        if is_tag(mark.as_slice(), SectionTag::Snapshot) {
            read_snapshot_section(header, signals, input, &mut encoder)?;
        } else if is_tag(mark.as_slice(), SectionTag::Cycle) {
            read_cycle_section(header, signals, input, &mut encoder)?;
        } else if is_tag(mark.as_slice(), SectionTag::Directory) {
            let _ = read_directory(header, input)?;
        } else if is_tag(mark.as_slice(), SectionTag::Tailer) {
            break;
        } else {
            return Err(GhwParseError::UnexpectedSection(mark));
        }
    }
    Ok(encoder.samples)
}

} // verus!
