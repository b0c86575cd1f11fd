use vstd::prelude::*;

use crate::error::{GhwParseError, HeaderData};
use crate::header::check_header_zeros;
use crate::input::{read_exact, read_u8, word32, Input};
use crate::types::strings_view;

verus! {

/// A byte that ends the text of a dictionary entry: `0..=31` or `128..=159`.
pub open spec fn is_terminator(c: u8) -> bool {
    c <= 31 || (128 <= c && c <= 159)
}

/// Index of the first terminator at or after `p`; `None` when the data ends first.
pub open spec fn text_end(d: Seq<u8>, p: int) -> Option<int>
    decreases d.len() - p,
{
    if p < 0 || p >= d.len() {
        None
    } else if is_terminator(d[p]) {
        Some(p)
    } else {
        text_end(d, p + 1)
    }
}

/// The shared-prefix length encoded from `q` on: each byte gives its low five bits at the
/// next power of 32, and a byte with the top bit set is followed by another. Returns the
/// length (on top of `acc`) and the index after the last byte of the group.
pub open spec fn prefix_len_group(d: Seq<u8>, q: int, scale: int, acc: int) -> Option<(int, int)>
    decreases d.len() - q,
{
    if q < 0 || q >= d.len() {
        None
    } else if d[q] < 128 {
        Some((acc + (d[q] % 32) * scale, q + 1))
    } else {
        prefix_len_group(d, q + 1, scale * 32, acc + (d[q] % 32) * scale)
    }
}

/// One dictionary entry read at `p` on top of the kept prefix `buf`: the entry, the encoded
/// shared-prefix length that follows it, and the index after it.
pub open spec fn string_entry(d: Seq<u8>, p: int, buf: Seq<u8>) -> Option<(Seq<u8>, int, int)> {
    match text_end(d, p) {
        None => None,
        Some(t) => match prefix_len_group(d, t, 1, 0) {
            None => None,
            Some((l, e)) => Some((buf + d.subrange(p, t), l, e)),
        },
    }
}

/// The part of `entry` that the next entry starts with, given the encoded length `l`.
pub open spec fn kept_prefix(entry: Seq<u8>, l: int) -> Seq<u8> {
    if l < entry.len() {
        entry.subrange(0, l)
    } else {
        entry
    }
}

/// Decodes `k` more entries from `p`, after the entries (with their encoded lengths) in `acc`.
/// Returns every entry and the index after the last one; `None` when the data ends first.
pub open spec fn decode_strings(
    d: Seq<u8>,
    p: int,
    buf: Seq<u8>,
    k: nat,
    acc: Seq<(Seq<u8>, int)>,
) -> Option<(Seq<(Seq<u8>, int)>, int)>
    decreases k,
{
    if k == 0 {
        Some((acc, p))
    } else {
        match string_entry(d, p, buf) {
            None => None,
            Some((e, l, q)) => decode_strings(d, q, kept_prefix(e, l), (k - 1) as nat, acc.push((e, l))),
        }
    }
}

/// The text of a byte string, with invalid UTF-8 sequences replaced.
pub uninterp spec fn lossy_text(b: Seq<u8>) -> Seq<char>;

/// Relies on `String::from_utf8_lossy`: the text of the bytes, where each invalid UTF-8
/// sequence becomes U+FFFD.
#[verifier::external_body]
fn text_of(b: &[u8]) -> (r: String)
    ensures
        r@ == lossy_text(b@),
{
    String::from_utf8_lossy(b).into_owned()
}

/// Whether adjacent entries share prefixes as encoded: each entry starts with the kept
/// prefix of the one before it.
pub open spec fn prefixes_shared(es: Seq<(Seq<u8>, int)>) -> bool {
    forall|i: int|
        #![trigger es[i]]
        0 < i < es.len() ==> {
            let k = kept_prefix(es[i - 1].0, es[i - 1].1).len();
            &&& es[i].0.len() >= k
            &&& es[i].0.subrange(0, k as int) == kept_prefix(es[i - 1].0, es[i - 1].1)
        }
}

proof fn lemma_decode_shares_prefixes(
    d: Seq<u8>,
    p: int,
    buf: Seq<u8>,
    k: nat,
    acc: Seq<(Seq<u8>, int)>,
)
    requires
        prefixes_shared(acc),
        acc.len() > 0 ==> buf == kept_prefix(acc.last().0, acc.last().1),
        decode_strings(d, p, buf, k, acc) is Some,
    ensures
        prefixes_shared((decode_strings(d, p, buf, k, acc)->0).0),
    decreases k,
{
    if k > 0 {
        let (e, l, q) = string_entry(d, p, buf)->0;
        let acc2 = acc.push((e, l));
        assert(e.subrange(0, buf.len() as int) =~= buf);
        assert forall|i: int| #![trigger acc2[i]] 0 < i < acc2.len() implies {
            let kk = kept_prefix(acc2[i - 1].0, acc2[i - 1].1).len();
            &&& acc2[i].0.len() >= kk
            &&& acc2[i].0.subrange(0, kk as int) == kept_prefix(acc2[i - 1].0, acc2[i - 1].1)
        } by {
            if i < acc.len() {
                assert(acc2[i] == acc[i]);
                assert(acc2[i - 1] == acc[i - 1]);
            } else {
                assert(acc2[i - 1] == acc.last());
            }
        }
        lemma_decode_shares_prefixes(d, q, kept_prefix(e, l), (k - 1) as nat, acc2);
    }
}

/// Adjacent entries of a decoded dictionary share their prefix: each entry is at least as
/// long as the prefix that the file keeps of the entry before it, and starts with it.
pub proof fn lemma_adjacent_entries_share_prefix(d: Seq<u8>, p: int, n: nat)
    requires
        decode_strings(d, p, seq![], n, seq![]) is Some,
    ensures
        prefixes_shared((decode_strings(d, p, seq![], n, seq![])->0).0),
{
    lemma_decode_shares_prefixes(d, p, seq![], n, seq![]);
}

/// No byte of `b` ends an entry.
pub open spec fn no_terminator(b: Seq<u8>) -> bool {
    forall|i: int| 0 <= i < b.len() ==> !is_terminator(#[trigger] b[i])
}

proof fn lemma_text_is_clean(d: Seq<u8>, p: int)
    ensures
        text_end(d, p) matches Some(t) ==> 0 <= p <= t < d.len() && no_terminator(d.subrange(p, t)),
    decreases d.len() - p,
{
    if 0 <= p < d.len() && !is_terminator(d[p]) {
        lemma_text_is_clean(d, p + 1);
        if let Some(t) = text_end(d, p + 1) {
            assert forall|i: int| 0 <= i < d.subrange(p, t).len() implies !is_terminator(
                #[trigger] d.subrange(p, t)[i],
            ) by {
                if i > 0 {
                    assert(d.subrange(p, t)[i] == d.subrange(p + 1, t)[i - 1]);
                }
            }
        }
    }
}

proof fn lemma_decode_is_clean(d: Seq<u8>, p: int, buf: Seq<u8>, k: nat, acc: Seq<(Seq<u8>, int)>)
    requires
        no_terminator(buf),
        forall|j: int| 0 <= j < acc.len() ==> no_terminator(#[trigger] acc[j].0),
        decode_strings(d, p, buf, k, acc) is Some,
    ensures
        forall|j: int|
            0 <= j < (decode_strings(d, p, buf, k, acc)->0).0.len() ==> no_terminator(
                #[trigger] (decode_strings(d, p, buf, k, acc)->0).0[j].0,
            ),
    decreases k,
{
    if k > 0 {
        let (e, l, q) = string_entry(d, p, buf)->0;
        let t = text_end(d, p)->0;
        lemma_text_is_clean(d, p);
        assert(no_terminator(e)) by {
            assert forall|i: int| 0 <= i < e.len() implies !is_terminator(#[trigger] e[i]) by {
                if i >= buf.len() {
                    assert(e[i] == d.subrange(p, t)[i - buf.len()]);
                }
            }
        }
        let acc2 = acc.push((e, l));
        assert forall|j: int| 0 <= j < acc2.len() implies no_terminator(#[trigger] acc2[j].0) by {
            if j < acc.len() {
                assert(acc2[j] == acc[j]);
            }
        }
        let kp = kept_prefix(e, l);
        lemma_group_grows(d, t, 1, 0);
        assert(no_terminator(kp)) by {
            assert forall|i: int| 0 <= i < kp.len() implies !is_terminator(#[trigger] kp[i]) by {
                assert(kp[i] == e[i]);
            }
        }
        lemma_decode_is_clean(d, q, kp, (k - 1) as nat, acc2);
    }
}

/// No entry of a decoded dictionary holds a terminator byte.
pub proof fn lemma_entries_hold_no_terminator(d: Seq<u8>, p: int, n: nat)
    requires
        decode_strings(d, p, seq![], n, seq![]) is Some,
    ensures
        forall|j: int|
            0 <= j < (decode_strings(d, p, seq![], n, seq![])->0).0.len() ==> no_terminator(
                #[trigger] (decode_strings(d, p, seq![], n, seq![])->0).0[j].0,
            ),
{
    lemma_decode_is_clean(d, p, seq![], n, seq![]);
}

proof fn lemma_group_grows(d: Seq<u8>, q: int, scale: int, acc: int)
    requires
        scale >= 1,
        prefix_len_group(d, q, scale, acc) is Some,
    ensures
        (prefix_len_group(d, q, scale, acc)->0).0 >= acc,
    decreases d.len() - q,
{
    assert((d[q] % 32) * scale >= 0) by (nonlinear_arith)
        requires
            scale >= 1,
            d[q] % 32 >= 0,
    ;
    if d[q] >= 128 {
        lemma_group_grows(d, q + 1, scale * 32, acc + (d[q] % 32) * scale);
    }
}

/// The string table of the string section (after its tag) at `p`, as text, with the index after
/// it: slot 0 holds `<anon>`, slot `i + 1` the text of entry `i`.
#[verifier::opaque]
pub open spec fn string_section_at(d: Seq<u8>, p: int, big_endian: bool) -> Option<(Seq<Seq<char>>, int)> {
    if p < 0 || p + 12 > d.len() || !(d[p] == 0 && d[p + 1] == 0 && d[p + 2] == 0 && d[p + 3] == 0) {
        None
    } else {
        let n = word32(d.subrange(p + 4, p + 8), big_endian);
        if n >= 0x8000_0000 {
            None
        } else {
            match decode_strings(d, p + 12, seq![], n as nat, seq![]) {
                None => None,
                Some((es, end)) => Some(
                    (
                        Seq::new(
                            (n + 1) as nat,
                            |i: int|
                                if i == 0 {
                                    "<anon>"@
                                } else {
                                    lossy_text(es[i - 1].0)
                                },
                        ),
                        end,
                    ),
                ),
            }
        }
    }
}

/// Reads the string section (after its tag): a 12-byte head with four zero bytes, the entry
/// count and a size hint, then the prefix-compressed entries. Slot 0 of the result holds
/// `<anon>`; slot `i + 1` holds entry `i`.
pub fn read_string_section(header: &HeaderData, input: &mut Input) -> (r: Result<
    Vec<String>,
    GhwParseError,
>)
    requires
        old(input).wf(),
    ensures
        final(input).wf(),
        final(input).same_data(old(input)),
        ({
            let s = old(input).rest();
            let d = old(input).data@;
            let n = word32(s.subrange(4, 8), header.big_endian);
            let zeros = s.len() >= 4 && s[0] == 0 && s[1] == 0 && s[2] == 0 && s[3] == 0;
            &&& s.len() < 12 ==> r == Err::<Vec<String>, GhwParseError>(
                GhwParseError::UnexpectedEof,
            )
            &&& s.len() >= 12 && !zeros ==> r == Err::<Vec<String>, GhwParseError>(
                GhwParseError::FailedToParseSection("string", "first four bytes should be zero"),
            )
            &&& s.len() >= 12 && zeros && n >= 0x8000_0000 ==> r is Err
            &&& s.len() >= 12 && zeros && n < 0x8000_0000 ==> match decode_strings(
                d,
                old(input).pos + 12,
                seq![],
                n as nat,
                seq![],
            ) {
                None => r == Err::<Vec<String>, GhwParseError>(GhwParseError::UnexpectedEof),
                Some((es, end)) => r matches Ok(t) && t@.len() == n + 1 && t@[0]@ == "<anon>"@
                    && (forall|i: int| 0 <= i < n ==> #[trigger] t@[i + 1]@ == lossy_text(es[i].0))
                    && final(input).pos == end,
            }
        }),
        r is Ok ==> final(input).pos >= old(input).pos,
        match string_section_at(old(input).data@, old(input).pos as int, header.big_endian) {
            None => r is Err,
            Some((t, q)) => r matches Ok(v) && strings_view(v@) == t && final(input).pos == q,
        },
{
    reveal(string_section_at);
    let ghost d = input.data@;
    let ghost p0 = input.pos;
    let ghost s = input.rest();
    let h = read_exact(input, 12)?;
    assert(h@ =~= s.subrange(0, 12));
    check_header_zeros("string", h.as_slice())?;
    let hs = h.as_slice();
    assert(hs@.subrange(4, 8).subrange(0, 4) =~= s.subrange(4, 8));
    let string_num = header.read_u32(&hs[4..8])?;
    let _string_size = header.read_i32(&hs[8..12])?;
    let mut table: Vec<String> = Vec::new();
    table.push("<anon>".to_owned());
    let mut buf: Vec<u8> = Vec::new();
    let mut i: u32 = 0;
    let ghost mut acc: Seq<(Seq<u8>, int)> = seq![];
    let ghost whole = decode_strings(d, p0 + 12, seq![], string_num as nat, seq![]);
    while i < string_num
        invariant
            input.wf(),
            input.data@ == d,
            input.pos >= old(input).pos,
            d == old(input).data@,
            p0 == old(input).pos,
            s == old(input).rest(),
            s.len() >= 12,
            s[0] == 0 && s[1] == 0 && s[2] == 0 && s[3] == 0,
            string_num == word32(s.subrange(4, 8), header.big_endian),
            whole == decode_strings(d, p0 + 12, seq![], string_num as nat, seq![]),
            i <= string_num,
            decode_strings(d, input.pos as int, buf@, (string_num - i) as nat, acc) == whole,
            table@.len() == i + 1,
            table@[0]@ == "<anon>"@,
            acc.len() == i,
            forall|j: int| 0 <= j < i ==> #[trigger] table@[j + 1]@ == lossy_text(acc[j].0),
        decreases string_num - i,
    {
        proof {
            reveal(string_section_at);
        }
        let ghost p = input.pos as int;
        let ghost buf0 = buf@;
        let mut c: u8 = 0;
        loop
            invariant_except_break
                input.wf(),
                input.data@ == d,
                input.pos >= old(input).pos,
                d == old(input).data@,
                p0 == old(input).pos,
                s == old(input).rest(),
                s.len() >= 12,
                s[0] == 0 && s[1] == 0 && s[2] == 0 && s[3] == 0,
                string_num == word32(s.subrange(4, 8), header.big_endian),
                whole == decode_strings(d, p0 + 12, seq![], string_num as nat, seq![]),
                i < string_num,
                0 <= p <= input.pos,
                text_end(d, p) == text_end(d, input.pos as int),
                buf@ == buf0 + d.subrange(p, input.pos as int),
                decode_strings(d, p, buf0, (string_num - i) as nat, acc) == whole,
                i < string_num,
            ensures
                input.wf(),
                input.data@ == d,
                input.pos >= old(input).pos,
                is_terminator(c),
                c == d[input.pos - 1],
                input.pos >= 1,
                text_end(d, p) == Some(input.pos - 1),
                buf@ == buf0 + d.subrange(p, input.pos - 1),
            decreases d.len() - input.pos,
        {
            proof {
                reveal(string_section_at);
            }
            let ghost q = input.pos;
            proof {
                if q >= d.len() {
                    assert(text_end(d, q as int) is None);
                    assert(string_entry(d, p, buf0) is None);
                    assert(whole is None);
                }
            }
            c = read_u8(input)?;
            assert(c == d[q as int] && input.pos == q + 1);
            if c <= 31 || (c >= 128 && c <= 159) {
                break;
            }
            let ghost before = buf@;
            buf.push(c);
            assert(d.subrange(p, q + 1) =~= d.subrange(p, q as int).push(c));
            assert(buf@ =~= before.push(c));
            assert(buf@ =~= buf0 + d.subrange(p, input.pos as int));
        }
        let ghost t = input.pos - 1;
        let ghost entry = buf@;
        table.push(text_of(buf.as_slice()));
        let cap: u128 = buf.len() as u128;
        let mut acc_v: u128 = (c % 32) as u128;
        let mut big: bool = acc_v > cap;
        let mut scale: u128 = 32;
        let mut scale_big: bool = scale > cap;
        let ghost mut g_acc: int = (c % 32) as int;
        let ghost mut g_scale: int = 32;
        while c >= 128
            invariant
                input.wf(),
                input.data@ == d,
                input.pos >= old(input).pos,
                d == old(input).data@,
                p0 == old(input).pos,
                s == old(input).rest(),
                s.len() >= 12,
                s[0] == 0 && s[1] == 0 && s[2] == 0 && s[3] == 0,
                string_num == word32(s.subrange(4, 8), header.big_endian),
                whole == decode_strings(d, p0 + 12, seq![], string_num as nat, seq![]),
                i < string_num,
                decode_strings(d, p, buf0, (string_num - i) as nat, acc) == whole,
                string_entry(d, p, buf0) is None <==> prefix_len_group(d, t, 1, 0) is None,
                cap == entry.len(),
                cap <= 0xffff_ffff_ffff_ffff,
                c >= 128 ==> prefix_len_group(d, t, 1, 0) == prefix_len_group(
                    d,
                    input.pos as int,
                    g_scale,
                    g_acc,
                ),
                c < 128 ==> prefix_len_group(d, t, 1, 0) == Some((g_acc, input.pos as int)),
                g_acc >= 0,
                g_scale >= 1,
                !big ==> acc_v == g_acc && acc_v <= cap,
                big ==> g_acc > cap,
                !scale_big ==> scale == g_scale && scale <= cap,
                scale_big ==> g_scale > cap,
            decreases d.len() - input.pos,
        {
            proof {
                reveal(string_section_at);
            }
            proof {
                if input.pos >= d.len() {
                    assert(prefix_len_group(d, input.pos as int, g_scale, g_acc) is None);
                    assert(string_entry(d, p, buf0) is None);
                    assert(whole is None);
                }
            }
            c = read_u8(input)?;
            let low: u128 = (c % 32) as u128;
            proof {
                assert(low * g_scale >= 0) by (nonlinear_arith)
                    requires
                        low >= 0,
                        g_scale >= 1,
                ;
                if low == 0 {
                    assert(low * g_scale == 0) by (nonlinear_arith)
                        requires
                            low == 0,
                    ;
                }
                if low > 0 {
                    assert(low * g_scale >= g_scale) by (nonlinear_arith)
                        requires
                            low >= 1,
                            g_scale >= 1,
                    ;
                }
            }
            if !big {
                if scale_big {
                    if low > 0 {
                        big = true;
                    }
                } else {
                    assert(low * scale <= 31 * scale) by (nonlinear_arith)
                        requires
                            low <= 31,
                            scale >= 0,
                    ;
                    acc_v = acc_v + low * scale;
                    if acc_v > cap {
                        big = true;
                    }
                }
            }
            if !scale_big {
                scale = scale * 32;
                if scale > cap {
                    scale_big = true;
                }
            }
            proof {
                g_acc = g_acc + low * g_scale;
                g_scale = g_scale * 32;
            }
        }
        proof {
            lemma_group_grows(d, t, 1, 0);
        }
        let keep: usize = if big {
            buf.len()
        } else {
            acc_v as usize
        };
        buf.truncate(keep);
        proof {
            assert(buf@ == kept_prefix(entry, g_acc));
            acc = acc.push((entry, g_acc));
        }
        i = i + 1;
    }
    proof {
        assert(d.subrange(p0 + 4, p0 + 8) =~= s.subrange(4, 8));
        let es = acc;
        assert(strings_view(table@) =~= Seq::new(
            (string_num + 1) as nat,
            |i: int|
                if i == 0 {
                    "<anon>"@
                } else {
                    lossy_text(es[i - 1].0)
                },
        )) by {
            assert forall|i: int| 1 <= i < table@.len() implies table@[i]@ == lossy_text(es[i - 1].0) by {
                assert(table@[(i - 1) + 1]@ == lossy_text(acc[i - 1].0));
            }
        }
    }
    Ok(table)
}

} // verus!
