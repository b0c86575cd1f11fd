use vstd::prelude::*;

use crate::error::{GhwParseError, HeaderData};
use crate::input::{read_exact, word32, Input};

verus! {

/// The four-byte tags that open (and close) the sections of a dump.
#[derive(Debug, Clone, Copy, PartialEq, Eq, Structural)]
pub enum SectionTag {
    Strings,
    Types,
    WellKnownTypes,
    Hierarchy,
    EndOfHeader,
    Snapshot,
    Cycle,
    Directory,
    Tailer,
    EndSnapshot,
    EndCycle,
    EndDirectory,
}

/// The bytes of a tag: three ASCII letters and a zero.
pub open spec fn tag_bytes(t: SectionTag) -> Seq<u8> {
    match t {
        SectionTag::Strings => seq![0x53u8, 0x54, 0x52, 0],  // STR
        SectionTag::Types => seq![0x54u8, 0x59, 0x50, 0],  // TYP
        SectionTag::WellKnownTypes => seq![0x57u8, 0x4b, 0x54, 0],  // WKT
        SectionTag::Hierarchy => seq![0x48u8, 0x49, 0x45, 0],  // HIE
        SectionTag::EndOfHeader => seq![0x45u8, 0x4f, 0x48, 0],  // EOH
        SectionTag::Snapshot => seq![0x53u8, 0x4e, 0x50, 0],  // SNP
        SectionTag::Cycle => seq![0x43u8, 0x59, 0x43, 0],  // CYC
        SectionTag::Directory => seq![0x44u8, 0x49, 0x52, 0],  // DIR
        SectionTag::Tailer => seq![0x54u8, 0x41, 0x49, 0],  // TAI
        SectionTag::EndSnapshot => seq![0x45u8, 0x53, 0x4e, 0],  // ESN
        SectionTag::EndCycle => seq![0x45u8, 0x43, 0x59, 0],  // ECY
        SectionTag::EndDirectory => seq![0x45u8, 0x4f, 0x44, 0],  // EOD
    }
}

fn tag_letters(t: SectionTag) -> (r: (u8, u8, u8))
    ensures
        tag_bytes(t) == seq![r.0, r.1, r.2, 0u8],
{
    match t {
        SectionTag::Strings => (0x53, 0x54, 0x52),
        SectionTag::Types => (0x54, 0x59, 0x50),
        SectionTag::WellKnownTypes => (0x57, 0x4b, 0x54),
        SectionTag::Hierarchy => (0x48, 0x49, 0x45),
        SectionTag::EndOfHeader => (0x45, 0x4f, 0x48),
        SectionTag::Snapshot => (0x53, 0x4e, 0x50),
        SectionTag::Cycle => (0x43, 0x59, 0x43),
        SectionTag::Directory => (0x44, 0x49, 0x52),
        SectionTag::Tailer => (0x54, 0x41, 0x49),
        SectionTag::EndSnapshot => (0x45, 0x53, 0x4e),
        SectionTag::EndCycle => (0x45, 0x43, 0x59),
        SectionTag::EndDirectory => (0x45, 0x4f, 0x44),
    }
}

/// Whether `b` is exactly the tag `t`.
pub fn is_tag(b: &[u8], t: SectionTag) -> (r: bool)
    ensures
        r == (b@ == tag_bytes(t)),
{
    let (x, y, z) = tag_letters(t);
    if b.len() != 4 {
        return false;
    }
    let r = b[0] == x && b[1] == y && b[2] == z && b[3] == 0;
    proof {
        if r {
            assert(b@ =~= tag_bytes(t));
        }
    }
    r
}

/// The nine bytes that open an uncompressed dump: `GHDLwave` and a newline.
pub open spec fn ghw_magic() -> Seq<u8> {
    seq![0x47u8, 0x48, 0x44, 0x4c, 0x77, 0x61, 0x76, 0x65, 0x0a]
}

/// The header fields as they stand in the seven bytes after the signature.
pub open spec fn header_fields(h: Seq<u8>) -> HeaderData {
    HeaderData { version: h[2], big_endian: h[3] == 2, word_len: h[4], word_offset: h[5] }
}

/// Whether the seven header bytes are accepted: header length 16, version at most 1,
/// byte order 1 (little) or 2 (big), and a zero reserved byte.
pub open spec fn header_accepted(h: Seq<u8>) -> bool {
    &&& h[0] == 16
    &&& h[1] == 0
    &&& h[2] <= 1
    &&& (h[3] == 1 || h[3] == 2)
    &&& h[6] == 0
}

/// Whether `s` starts with a complete header that is accepted.
pub open spec fn ghw_header_valid(s: Seq<u8>) -> bool {
    &&& s.len() >= 16
    &&& s.subrange(0, 9) == ghw_magic()
    &&& header_accepted(s.subrange(9, 16))
}

/// Reads and checks the 16-byte file header.
pub fn read_ghw_header(input: &mut Input) -> (r: Result<HeaderData, GhwParseError>)
    requires
        old(input).wf(),
    ensures
        final(input).wf(),
        final(input).same_data(old(input)),
        ({
            let s = old(input).rest();
            &&& s.len() < 2 ==> r == Err::<HeaderData, GhwParseError>(
                GhwParseError::UnexpectedEof,
            )
            &&& s.len() >= 2 && s[0] == 0x1f && s[1] == 0x8b ==> r == Err::<
                HeaderData,
                GhwParseError,
            >(GhwParseError::UnsupportedCompression("gzip"))
            &&& s.len() >= 2 && s[0] == 0x42 && s[1] == 0x5a ==> r == Err::<
                HeaderData,
                GhwParseError,
            >(GhwParseError::UnsupportedCompression("bzip2"))
            &&& s.len() >= 2 && !(s[0] == 0x1f && s[1] == 0x8b) && !(s[0] == 0x42 && s[1]
                == 0x5a) && s.subrange(0, 2) != ghw_magic().subrange(0, 2) ==> (r matches Err(
                GhwParseError::UnexpectedHeaderMagic(m),
            ) && m@ == s.subrange(0, 2))
            &&& s.len() >= 2 && s.subrange(0, 2) == ghw_magic().subrange(0, 2) && s.len() < 9
                ==> r == Err::<HeaderData, GhwParseError>(GhwParseError::UnexpectedEof)
            &&& s.len() >= 9 && s.subrange(0, 2) == ghw_magic().subrange(0, 2) && s.subrange(
                2,
                9,
            ) != ghw_magic().subrange(2, 9) ==> (r matches Err(
                GhwParseError::UnexpectedHeaderMagic(m),
            ) && m@ == s.subrange(0, 9))
            &&& s.len() >= 9 && s.subrange(0, 9) == ghw_magic() && s.len() < 16 ==> r == Err::<
                HeaderData,
                GhwParseError,
            >(GhwParseError::UnexpectedEof)
            &&& s.len() >= 16 && s.subrange(0, 9) == ghw_magic() && !header_accepted(
                s.subrange(9, 16),
            ) ==> r == Err::<HeaderData, GhwParseError>(
                GhwParseError::UnexpectedHeader(header_fields(s.subrange(9, 16))),
            )
            &&& ghw_header_valid(s) ==> r == Ok::<HeaderData, GhwParseError>(
                header_fields(s.subrange(9, 16)),
            ) && final(input).pos == old(input).pos + 16
            &&& r is Ok <==> ghw_header_valid(s)
        }),
{
    let ghost s = input.rest();
    let comp = read_exact(input, 2)?;
    assert(s.subrange(0, 2) =~= comp@);
    if comp[0] == 0x1f && comp[1] == 0x8b {
        return Err(GhwParseError::UnsupportedCompression("gzip"));
    }
    if comp[0] == 0x42 && comp[1] == 0x5a {
        return Err(GhwParseError::UnsupportedCompression("bzip2"));
    }
    if !(comp[0] == 0x47 && comp[1] == 0x48) {
        proof {
            if comp@ == ghw_magic().subrange(0, 2) {
                assert(comp@[0] == ghw_magic()[0]);
                assert(comp@[1] == ghw_magic()[1]);
            }
        }
        return Err(GhwParseError::UnexpectedHeaderMagic(comp));
    }
    assert(comp@ =~= ghw_magic().subrange(0, 2));
    let rest = read_exact(input, 7)?;
    assert(s.subrange(2, 9) =~= rest@);
    let magic_ok = rest[0] == 0x44 && rest[1] == 0x4c && rest[2] == 0x77 && rest[3] == 0x61
        && rest[4] == 0x76 && rest[5] == 0x65 && rest[6] == 0x0a;
    if !magic_ok {
        let mut all = comp;
        all.push(rest[0]);
        all.push(rest[1]);
        all.push(rest[2]);
        all.push(rest[3]);
        all.push(rest[4]);
        all.push(rest[5]);
        all.push(rest[6]);
        proof {
            assert(all@ =~= s.subrange(0, 9));
            if rest@ == ghw_magic().subrange(2, 9) {
                assert(rest@[0] == ghw_magic()[2]);
                assert(rest@[1] == ghw_magic()[3]);
                assert(rest@[2] == ghw_magic()[4]);
                assert(rest@[3] == ghw_magic()[5]);
                assert(rest@[4] == ghw_magic()[6]);
                assert(rest@[5] == ghw_magic()[7]);
                assert(rest@[6] == ghw_magic()[8]);
            }
        }
        return Err(GhwParseError::UnexpectedHeaderMagic(all));
    }
    assert(rest@ =~= ghw_magic().subrange(2, 9));
    assert(s.subrange(0, 9) =~= ghw_magic());
    let h = read_exact(input, 7)?;
    assert(s.subrange(9, 16) =~= h@);
    let data = HeaderData {
        version: h[2],
        big_endian: h[3] == 2,
        word_len: h[4],
        word_offset: h[5],
    };
    if h[0] != 16 || h[1] != 0 {
        return Err(GhwParseError::UnexpectedHeader(data));
    }
    if data.version > 1 {
        return Err(GhwParseError::UnexpectedHeader(data));
    }
    if h[3] != 1 && h[3] != 2 {
        return Err(GhwParseError::UnexpectedHeader(data));
    }
    if h[6] != 0 {
        return Err(GhwParseError::UnexpectedHeader(data));
    }
    Ok(data)
}

/// Probes whether the input, from its read position, starts with an accepted header.
/// Whatever the outcome, the read position is back at the start of the buffer afterwards.
pub fn is_ghw(input: &mut Input) -> (r: bool)
    requires
        old(input).wf(),
    ensures
        r == ghw_header_valid(old(input).rest()),
        final(input).pos == 0,
        final(input).same_data(old(input)),
        final(input).wf(),
{
    let ok = read_ghw_header(input).is_ok();
    input.seek(0);
    ok
}

/// Checks that a section header starts with four zero bytes.
pub fn check_header_zeros(section: &'static str, header: &[u8]) -> (r: Result<(), GhwParseError>)
    ensures
        header@.len() >= 4 && header@[0] == 0 && header@[1] == 0 && header@[2] == 0
            && header@[3] == 0 ==> r == Ok::<(), GhwParseError>(()),
        !(header@.len() >= 4 && header@[0] == 0 && header@[1] == 0 && header@[2] == 0
            && header@[3] == 0) ==> r == Err::<(), GhwParseError>(
            GhwParseError::FailedToParseSection(section, "first four bytes should be zero"),
        ),
{
    if header.len() < 4 {
        return Err(GhwParseError::FailedToParseSection(section, "first four bytes should be zero"));
    }
    if header[0] == 0 && header[1] == 0 && header[2] == 0 && header[3] == 0 {
        Ok(())
    } else {
        Err(GhwParseError::FailedToParseSection(section, "first four bytes should be zero"))
    }
}

/// Reads the four-byte tag that must close a section.
pub fn check_magic_end(input: &mut Input, expected: SectionTag) -> (r: Result<(), GhwParseError>)
    requires
        old(input).wf(),
    ensures
        final(input).wf(),
        final(input).same_data(old(input)),
        ({
            let s = old(input).rest();
            &&& s.len() < 4 ==> r == Err::<(), GhwParseError>(GhwParseError::UnexpectedEof)
            &&& s.len() >= 4 && s.subrange(0, 4) == tag_bytes(expected) ==> r == Ok::<
                (),
                GhwParseError,
            >(()) && final(input).pos == old(input).pos + 4
            &&& s.len() >= 4 && s.subrange(0, 4) != tag_bytes(expected) ==> (r matches Err(
                GhwParseError::UnexpectedSection(m),
            ) && m@ == s.subrange(0, 4))
            &&& s.len() >= 4 ==> final(input).pos == old(input).pos + 4
        }),
{
    let ghost s = input.rest();
    let end_magic = read_exact(input, 4)?;
    assert(s.subrange(0, 4) =~= end_magic@);
    if is_tag(end_magic.as_slice(), expected) {
        Ok(())
    } else {
        Err(GhwParseError::UnexpectedSection(end_magic))
    }
}

/// One entry of the directory: a section tag and the offset where that section starts.
#[derive(Debug, Clone, PartialEq, Eq)]
pub struct SectionPos {
    pub id: Vec<u8>,
    pub pos: u32,
}

/// Whether `s` holds a complete directory body (what follows the `DIR` tag): an 8-byte head
/// whose second word is the entry count, that many (tag, offset) pairs with offsets that are not
/// negative, and the closing `EOD` tag.
pub open spec fn directory_ok(s: Seq<u8>, big_endian: bool) -> bool {
    &&& s.len() >= 8
    &&& word32(s.subrange(4, 8), big_endian) < 0x8000_0000
    &&& s.len() >= 12 + 8 * word32(s.subrange(4, 8), big_endian)
    &&& forall|i: int|
        0 <= i < word32(s.subrange(4, 8), big_endian) ==> #[trigger] word32(
            s.subrange(12 + 8 * i, 16 + 8 * i),
            big_endian,
        ) < 0x8000_0000
    &&& s.subrange(
        8 + 8 * word32(s.subrange(4, 8), big_endian),
        12 + 8 * word32(s.subrange(4, 8), big_endian),
    ) == tag_bytes(SectionTag::EndDirectory)
}

/// Reads the body of a directory section, up to and including its closing tag.
pub fn read_directory(header: &HeaderData, input: &mut Input) -> (r: Result<
    Vec<SectionPos>,
    GhwParseError,
>)
    requires
        old(input).wf(),
    ensures
        final(input).wf(),
        final(input).same_data(old(input)),
        r is Ok <==> directory_ok(old(input).rest(), header.big_endian),
        r matches Err(e) ==> e is UnexpectedEof || e is ExpectedPositiveInteger || e is UnexpectedSection,
        ({
            let s = old(input).rest();
            let n = word32(s.subrange(4, 8), header.big_endian);
            &&& s.len() >= 8 && n >= 0x8000_0000 ==> (r matches Err(GhwParseError::ExpectedPositiveInteger(_)))
            &&& s.len() >= 12 + 8 * n && n < 0x8000_0000 && (forall|i: int|
                0 <= i < n ==> #[trigger] word32(s.subrange(12 + 8 * i, 16 + 8 * i), header.big_endian)
                    < 0x8000_0000) && s.subrange(8 + 8 * n, 12 + 8 * n) != tag_bytes(
                SectionTag::EndDirectory,
            ) ==> (r matches Err(GhwParseError::UnexpectedSection(_)))
        }),
        r matches Ok(v) ==> {
            let s = old(input).rest();
            let n = word32(s.subrange(4, 8), header.big_endian);
            &&& v@.len() == n
            &&& forall|i: int|
                0 <= i < n ==> (#[trigger] v@[i]).id@ == s.subrange(8 + 8 * i, 12 + 8 * i)
                    && v@[i].pos == word32(s.subrange(12 + 8 * i, 16 + 8 * i), header.big_endian)
            &&& final(input).pos == old(input).pos + 12 + 8 * n
        },
{
    let ghost s = input.rest();
    let ghost p0 = input.pos;
    let ghost big = header.big_endian;
    let h = match read_exact(input, 8) {
        Ok(h) => h,
        Err(e) => {
            return Err(e);
        },
    };
    assert(h@ =~= s.subrange(0, 8));
    let hs = h.as_slice();
    assert(hs@.subrange(4, 8) =~= s.subrange(4, 8));
    let num_entries = match header.read_u32(&hs[4..8]) {
        Ok(n) => n,
        Err(e) => {
            assert(hs@.subrange(4, 8).subrange(0, 4) =~= s.subrange(4, 8));
            return Err(e);
        },
    };
    assert(hs@.subrange(4, 8).subrange(0, 4) =~= s.subrange(4, 8));
    let mut sections: Vec<SectionPos> = Vec::new();
    let mut i: u32 = 0;
    while i < num_entries
        invariant
            input.wf(),
            input.data@ == old(input).data@,
            s == old(input).rest(),
            p0 == old(input).pos,
            big == header.big_endian,
            num_entries == word32(s.subrange(4, 8), big),
            num_entries < 0x8000_0000,
            s.len() == input.data@.len() - p0,
            i <= num_entries,
            input.pos == p0 + 8 + 8 * i,
            sections@.len() == i,
            forall|j: int|
                0 <= j < i ==> (#[trigger] sections@[j]).id@ == s.subrange(8 + 8 * j, 12 + 8 * j)
                    && sections@[j].pos == word32(s.subrange(12 + 8 * j, 16 + 8 * j), big),
            forall|j: int|
                0 <= j < i ==> #[trigger] word32(s.subrange(12 + 8 * j, 16 + 8 * j), big)
                    < 0x8000_0000,
        decreases num_entries - i,
    {
        let id = match read_exact(input, 4) {
            Ok(b) => b,
            Err(e) => {
                return Err(e);
            },
        };
        assert(id@ =~= s.subrange(8 + 8 * i, 12 + 8 * i));
        let buf = match read_exact(input, 4) {
            Ok(b) => b,
            Err(e) => {
                return Err(e);
            },
        };
        assert(buf@ =~= s.subrange(12 + 8 * i, 16 + 8 * i));
        assert(buf@.subrange(0, 4) =~= buf@);
        let pos = match header.read_u32(buf.as_slice()) {
            Ok(p) => p,
            Err(e) => {
                return Err(e);
            },
        };
        sections.push(SectionPos { id, pos });
        i = i + 1;
    }
    proof {
        let n = num_entries as int;
        assert(s.len() == input.data@.len() - p0);
        if input.rest().len() >= 4 {
            assert(input.rest().subrange(0, 4) =~= s.subrange(8 + 8 * n, 12 + 8 * n));
        }
    }
    match check_magic_end(input, SectionTag::EndDirectory) {
        Ok(()) => {},
        Err(e) => {
            return Err(e);
        },
    }
    Ok(sections)
}

/// Whether the buffer ends in a tailer, and then whether the tailer leads to a well-formed
/// directory.
pub open spec fn has_tailer(d: Seq<u8>) -> bool {
    d.len() >= 12 && d.subrange(d.len() - 12, d.len() - 8) == tag_bytes(SectionTag::Tailer)
}

pub open spec fn directory_found(d: Seq<u8>, big_endian: bool) -> bool {
    let off = word32(d.subrange(d.len() - 4, d.len() as int), big_endian);
    &&& off < 0x8000_0000
    &&& off + 4 <= d.len()
    &&& d.subrange(off, off + 4) == tag_bytes(SectionTag::Directory)
    &&& directory_ok(d.subrange(off + 4, d.len() as int), big_endian)
}

/// Looks for the directory through the tailer in the last 12 bytes of the buffer. A buffer
/// without a tailer has no directory, which is no error.
pub fn try_read_directory(header: &HeaderData, input: &mut Input) -> (r: Result<
    Option<Vec<SectionPos>>,
    GhwParseError,
>)
    requires
        old(input).wf(),
    ensures
        final(input).wf(),
        final(input).same_data(old(input)),
        ({
            let d = old(input).data@;
            let tail = d.subrange(d.len() - 12, d.len() as int);
            let off = word32(tail.subrange(8, 12), header.big_endian);
            &&& (d.len() < 12 || tail.subrange(0, 4) != tag_bytes(SectionTag::Tailer)) ==> r
                == Ok::<Option<Vec<SectionPos>>, GhwParseError>(None)
            &&& (d.len() >= 12 && tail.subrange(0, 4) == tag_bytes(SectionTag::Tailer)) ==> (
            r matches Ok(Some(_)) <==> (off < 0x8000_0000 && off + 4 <= d.len()
                && d.subrange(off, off + 4) == tag_bytes(SectionTag::Directory) && directory_ok(
                d.subrange(off + 4, d.len() as int),
                header.big_endian,
            )))
            &&& (d.len() >= 12 && tail.subrange(0, 4) == tag_bytes(SectionTag::Tailer)) ==> !(r matches Ok(None))
            &&& r matches Ok(Some(v)) ==> {
                let s = d.subrange(off + 4, d.len() as int);
                let n = word32(s.subrange(4, 8), header.big_endian);
                &&& v@.len() == n
                &&& forall|i: int|
                    0 <= i < n ==> (#[trigger] v@[i]).id@ == s.subrange(8 + 8 * i, 12 + 8 * i)
                        && v@[i].pos == word32(s.subrange(12 + 8 * i, 16 + 8 * i), header.big_endian)
            }
            &&& (d.len() >= 12 && tail.subrange(0, 4) == tag_bytes(SectionTag::Tailer) && off
                < 0x8000_0000 && off + 4 <= d.len() && d.subrange(off, off + 4) != tag_bytes(
                SectionTag::Directory,
            )) ==> (r matches Err(GhwParseError::UnexpectedSection(_)))
        }),
{
    let len = input.len();
    if len < 12 {
        return Ok(None);
    }
    input.seek(len - 12);
    let ghost d = input.data@;
    let tailer = match read_exact(input, 12) {
        Ok(t) => t,
        Err(e) => {
            return Err(e);
        },
    };
    let ts = tailer.as_slice();
    assert(ts@ =~= d.subrange(d.len() - 12, d.len() as int));
    assert(ts@.subrange(0, 4) =~= d.subrange(d.len() - 12, d.len() as int).subrange(0, 4));
    if !is_tag(&ts[0..4], SectionTag::Tailer) {
        return Ok(None);
    }
    assert(ts@.subrange(8, 12).subrange(0, 4) =~= ts@.subrange(8, 12));
    let directory_offset = match header.read_u32(&ts[8..12]) {
        Ok(o) => o,
        Err(e) => {
            return Err(e);
        },
    };
    if directory_offset as usize > len {
        return Err(GhwParseError::UnexpectedEof);
    }
    input.seek(directory_offset as usize);
    let ghost off = directory_offset as int;
    let mark = match read_exact(input, 4) {
        Ok(m) => m,
        Err(e) => {
            return Err(e);
        },
    };
    assert(mark@ =~= d.subrange(off, off + 4));
    if !is_tag(mark.as_slice(), SectionTag::Directory) {
        return Err(GhwParseError::UnexpectedSection(mark));
    }
    assert(input.rest() =~= d.subrange(off + 4, d.len() as int));
    match read_directory(header, input) {
        Ok(v) => Ok(Some(v)),
        Err(e) => Err(e),
    }
}

} // verus!
