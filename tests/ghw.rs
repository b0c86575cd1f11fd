use wellen::error::{GhwParseError, HeaderData};
use wellen::ghw::read_from_bytes;
use wellen::header::{is_ghw, read_directory, try_read_directory};
use wellen::hierarchy::{ScopeRef, ScopeType, SignalRef, VarIndex, VarRef};
use wellen::hiersection::decimal_string;
use wellen::input::Input;
use wellen::leb::{read_signed, read_unsigned};
use wellen::signals::{SignalType, SignalValue};
use wellen::strings::read_string_section;
use wellen::types::{bit_char_to_num, IntRange, RangeDir, StringId, VhdlType};

fn uleb(out: &mut Vec<u8>, v: u64) {
    leb128::write::unsigned(out, v).unwrap();
}

fn sleb(out: &mut Vec<u8>, v: i64) {
    leb128::write::signed(out, v).unwrap();
}

fn u32le(out: &mut Vec<u8>, v: u32) {
    out.extend_from_slice(&v.to_le_bytes());
}

fn file_header() -> Vec<u8> {
    let mut b = b"GHDLwave\n".to_vec();
    b.extend_from_slice(&[16, 0, 1, 1, 4, 0, 0]);
    b
}

/// A string section whose entries share no prefix.
fn string_section(strings: &[&str]) -> Vec<u8> {
    let mut b = b"STR\0".to_vec();
    b.extend_from_slice(&[0, 0, 0, 0]);
    u32le(&mut b, strings.len() as u32);
    u32le(&mut b, 0);
    for s in strings {
        b.extend_from_slice(s.as_bytes());
        b.push(0);
    }
    b
}

fn nine_value_literals() -> Vec<&'static str> {
    vec!["'U'", "'X'", "'0'", "'1'", "'Z'", "'W'", "'L'", "'H'", "'-'"]
}

/// Type 1 of every test file: `std_ulogic`, an enum of the nine literals (string ids 2..=10).
fn std_ulogic_type(b: &mut Vec<u8>) {
    b.push(23);
    uleb(b, 1);
    uleb(b, 9);
    for i in 0..9 {
        uleb(b, 2 + i);
    }
}

fn type_section(count: u32, entries: &[u8]) -> Vec<u8> {
    let mut b = b"TYP\0".to_vec();
    b.extend_from_slice(&[0, 0, 0, 0]);
    u32le(&mut b, count);
    b.extend_from_slice(entries);
    b.push(0);
    b
}

fn hierarchy_section(num_scopes: u32, num_vars: u32, max_signal: u32, records: &[u8]) -> Vec<u8> {
    let mut b = b"HIE\0".to_vec();
    b.extend_from_slice(&[0, 0, 0, 0]);
    u32le(&mut b, num_scopes);
    u32le(&mut b, num_vars);
    u32le(&mut b, max_signal);
    b.extend_from_slice(records);
    b.push(0);
    b
}

fn snapshot(time: i64, values: &[u8]) -> Vec<u8> {
    let mut b = b"SNP\0".to_vec();
    b.extend_from_slice(&[0, 0, 0, 0]);
    b.extend_from_slice(&time.to_le_bytes());
    b.extend_from_slice(values);
    b.extend_from_slice(b"ESN\0");
    b
}

fn strings_with(extra: &[&str]) -> Vec<u8> {
    let mut all = vec!["std_ulogic"];
    all.extend(nine_value_literals());
    all.extend_from_slice(extra);
    string_section(&all)
}

fn single_bit_file() -> Vec<u8> {
    let mut f = file_header();
    f.extend(strings_with(&["top", "s"]));
    let mut types = Vec::new();
    std_ulogic_type(&mut types);
    f.extend(type_section(1, &types));
    let mut recs = Vec::new();
    recs.push(3);
    uleb(&mut recs, 11);
    recs.push(16);
    uleb(&mut recs, 12);
    uleb(&mut recs, 1);
    uleb(&mut recs, 1);
    recs.push(15);
    f.extend(hierarchy_section(1, 1, 1, &recs));
    f.extend_from_slice(b"EOH\0");
    f.extend(snapshot(0, &[3]));
    f.extend_from_slice(b"CYC\0");
    f.extend_from_slice(&10i64.to_le_bytes());
    uleb(&mut f, 1);
    f.push(2);
    uleb(&mut f, 0);
    sleb(&mut f, -1);
    f.extend_from_slice(b"ECY\0");
    f.extend_from_slice(b"TAI\0");
    f
}

#[test]
fn minimal_file_gives_empty_hierarchy() {
    let mut f = file_header();
    f.extend(string_section(&[]));
    f.extend(type_section(0, &[]));
    f.extend(hierarchy_section(0, 0, 0, &[]));
    f.extend_from_slice(b"EOH\0");
    f.extend_from_slice(b"TAI\0");
    let w = read_from_bytes(f).unwrap();
    assert_eq!(w.hierarchy.scopes.len(), 0);
    assert_eq!(w.hierarchy.vars.len(), 0);
    assert_eq!(w.slots.len(), 0);
    assert_eq!(w.samples.len(), 0);
}

#[test]
fn gzip_is_rejected() {
    let r = read_from_bytes(vec![0x1f, 0x8b, 8, 0, 0, 0]);
    assert!(matches!(r, Err(GhwParseError::UnsupportedCompression("gzip"))));
}

#[test]
fn bzip2_is_rejected() {
    let r = read_from_bytes(b"BZh91AY&SY".to_vec());
    assert!(matches!(r, Err(GhwParseError::UnsupportedCompression("bzip2"))));
}

#[test]
fn other_magic_is_rejected() {
    match read_from_bytes(b"XYZ".to_vec()) {
        Err(GhwParseError::UnexpectedHeaderMagic(m)) => assert_eq!(m, b"XY".to_vec()),
        other => panic!("unexpected {:?}", other),
    }
    match read_from_bytes(b"GHDLwavX\n".to_vec()) {
        Err(GhwParseError::UnexpectedHeaderMagic(m)) => assert_eq!(m, b"GHDLwavX\n".to_vec()),
        other => panic!("unexpected {:?}", other),
    }
}

#[test]
fn header_with_bad_version_is_rejected() {
    let mut f = b"GHDLwave\n".to_vec();
    f.extend_from_slice(&[16, 0, 2, 1, 4, 0, 0]);
    let expected = HeaderData { version: 2, big_endian: false, word_len: 4, word_offset: 0 };
    assert!(matches!(read_from_bytes(f), Err(GhwParseError::UnexpectedHeader(h)) if h == expected));
    let mut g = b"GHDLwave\n".to_vec();
    g.extend_from_slice(&[16, 0, 1, 3, 4, 0, 0]);
    assert!(matches!(read_from_bytes(g), Err(GhwParseError::UnexpectedHeader(_))));
}

#[test]
fn truncated_header_is_eof() {
    assert!(matches!(read_from_bytes(b"GHDLwave\n\x10".to_vec()), Err(GhwParseError::UnexpectedEof)));
}

#[test]
fn probe_restores_position() {
    let mut input = Input::new(single_bit_file());
    input.seek(5);
    assert!(!is_ghw(&mut input));
    assert_eq!(input.position(), 0);
    assert!(is_ghw(&mut input));
    assert_eq!(input.position(), 0);
    let mut gz = Input::new(vec![0x1f, 0x8b, 0, 0]);
    assert!(!is_ghw(&mut gz));
    assert_eq!(gz.position(), 0);
}

#[test]
fn std_ulogic_signal_values_are_mapped() {
    let mut w = read_from_bytes(single_bit_file()).unwrap();
    let h = &w.hierarchy;
    assert_eq!(h.vars.len(), 1);
    assert_eq!(h.var_full_name(VarRef(0)), "top.s");
    let s = h.vars[0].signal_ref();
    assert_eq!(s, SignalRef(1));
    assert!(w.get_signal(s).is_none());
    w.load_signals(&[s]);
    let sig = w.get_signal(s).unwrap();
    assert_eq!(sig.changes, vec![(0, SignalValue::U8(1)), (10, SignalValue::U8(0))]);
}

#[test]
fn std_ulogic_vector_is_one_variable() {
    let mut f = file_header();
    f.extend(strings_with(&["integer", "natural", "std_ulogic_vector", "v", "top"]));
    let mut t = Vec::new();
    std_ulogic_type(&mut t);
    t.push(25);
    uleb(&mut t, 11);
    t.push(34);
    uleb(&mut t, 12);
    uleb(&mut t, 2);
    t.push(25);
    sleb(&mut t, 0);
    sleb(&mut t, 2147483647);
    t.push(31);
    uleb(&mut t, 13);
    uleb(&mut t, 1);
    uleb(&mut t, 1);
    uleb(&mut t, 3);
    t.push(35);
    uleb(&mut t, 0);
    uleb(&mut t, 4);
    t.push(25 | 0x80);
    sleb(&mut t, 7);
    sleb(&mut t, 0);
    f.extend(type_section(5, &t));
    let mut recs = Vec::new();
    recs.push(3);
    uleb(&mut recs, 15);
    recs.push(16);
    uleb(&mut recs, 14);
    uleb(&mut recs, 5);
    for i in 1..=8 {
        uleb(&mut recs, i);
    }
    recs.push(15);
    f.extend(hierarchy_section(1, 1, 8, &recs));
    f.extend_from_slice(b"EOH\0");
    f.extend(snapshot(0, &[3, 2, 3, 2, 0, 1, 7, 8]));
    f.extend_from_slice(b"TAI\0");
    let w = read_from_bytes(f).unwrap();
    let h = &w.hierarchy;
    assert_eq!(h.vars.len(), 1);
    let v = &h.vars[0];
    assert_eq!(v.width, 8);
    assert_eq!(v.index, Some(VarIndex { msb: 7, lsb: 0 }));
    assert_eq!(v.signal, SignalRef(1));
    assert_eq!(w.slots.len(), 8);
    let values: Vec<SignalValue> = w.samples.iter().map(|s| s.value).collect();
    let expected: Vec<SignalValue> = [1u8, 0, 1, 0, 5, 2, 4, 8].iter().map(|c| SignalValue::U8(*c)).collect();
    assert_eq!(values, expected);
    let handles: Vec<u32> = w.samples.iter().map(|s| s.handle).collect();
    assert_eq!(handles, vec![1, 2, 3, 4, 5, 6, 7, 8]);
}

fn record_file() -> Vec<u8> {
    let mut f = file_header();
    f.extend(strings_with(&["integer", "rec", "a", "b", "r", "top"]));
    let mut t = Vec::new();
    std_ulogic_type(&mut t);
    t.push(25);
    uleb(&mut t, 11);
    t.push(32);
    uleb(&mut t, 12);
    uleb(&mut t, 2);
    uleb(&mut t, 13);
    uleb(&mut t, 1);
    uleb(&mut t, 14);
    uleb(&mut t, 2);
    f.extend(type_section(3, &t));
    let mut recs = Vec::new();
    recs.push(3);
    uleb(&mut recs, 16);
    recs.push(16);
    uleb(&mut recs, 15);
    uleb(&mut recs, 3);
    uleb(&mut recs, 1);
    uleb(&mut recs, 2);
    recs.push(15);
    f.extend(hierarchy_section(1, 1, 2, &recs));
    f.extend_from_slice(b"EOH\0");
    let mut snp = vec![3u8];
    sleb(&mut snp, -5);
    f.extend(snapshot(0, &snp));
    f.extend_from_slice(b"TAI\0");
    f
}

#[test]
fn record_becomes_module_scope() {
    let w = read_from_bytes(record_file()).unwrap();
    let h = &w.hierarchy;
    assert_eq!(h.scopes.len(), 2);
    assert_eq!(h.scopes[1].tpe, ScopeType::Module);
    assert_eq!(h.scopes[1].parent, Some(ScopeRef(0)));
    assert_eq!(h.scope_full_name(ScopeRef(1)), "top.r");
    assert_eq!(h.vars.len(), 2);
    assert_eq!(h.var_full_name(VarRef(0)), "top.r.a");
    assert_eq!(h.var_full_name(VarRef(1)), "top.r.b");
    assert_eq!(w.slots[0].tpe, SignalType::U8);
    assert_eq!(w.slots[1].tpe, SignalType::I32);
    assert_eq!(w.samples[1].value, SignalValue::I32(-5));
}

#[test]
fn too_many_declared_variables() {
    let mut f = file_header();
    f.extend(strings_with(&["x", "y", "z"]));
    let mut t = Vec::new();
    std_ulogic_type(&mut t);
    f.extend(type_section(1, &t));
    let mut recs = Vec::new();
    for (i, name) in [11u64, 12, 13].iter().enumerate() {
        recs.push(16);
        uleb(&mut recs, *name);
        uleb(&mut recs, 1);
        uleb(&mut recs, i as u64 + 1);
    }
    f.extend(hierarchy_section(0, 2, 3, &recs));
    f.extend_from_slice(b"EOH\0");
    f.extend_from_slice(b"TAI\0");
    assert!(matches!(
        read_from_bytes(f),
        Err(GhwParseError::FailedToParseSection("hierarchy", "more declared variables than expected"))
    ));
}

#[test]
fn shared_signal_gives_one_unique_variable() {
    let mut f = file_header();
    f.extend(strings_with(&["x", "y"]));
    let mut t = Vec::new();
    std_ulogic_type(&mut t);
    f.extend(type_section(1, &t));
    let mut recs = Vec::new();
    for name in [11u64, 12] {
        recs.push(17);
        uleb(&mut recs, name);
        uleb(&mut recs, 1);
        uleb(&mut recs, 1);
    }
    f.extend(hierarchy_section(0, 2, 1, &recs));
    f.extend_from_slice(b"EOH\0");
    f.extend_from_slice(b"TAI\0");
    let w = read_from_bytes(f).unwrap();
    assert_eq!(w.hierarchy.vars.len(), 2);
    assert_eq!(w.slots.len(), 1);
    assert_eq!(w.hierarchy.get_unique_signals_vars(), vec![VarRef(0)]);
    assert_eq!(w.hierarchy.var_full_name(VarRef(1)), "y");
}

#[test]
fn signal_handle_out_of_range() {
    let mut f = file_header();
    f.extend(strings_with(&["x"]));
    let mut t = Vec::new();
    std_ulogic_type(&mut t);
    f.extend(type_section(1, &t));
    let mut recs = vec![16u8];
    uleb(&mut recs, 11);
    uleb(&mut recs, 1);
    uleb(&mut recs, 2);
    f.extend(hierarchy_section(0, 1, 1, &recs));
    f.extend_from_slice(b"EOH\0");
    f.extend_from_slice(b"TAI\0");
    assert!(matches!(
        read_from_bytes(f),
        Err(GhwParseError::FailedToParseSection("hierarchy", "signal id out of range"))
    ));
}

#[test]
fn type_id_out_of_range() {
    let mut f = file_header();
    f.extend(strings_with(&["x"]));
    let mut t = Vec::new();
    t.push(34);
    uleb(&mut t, 11);
    uleb(&mut t, 1);
    f.extend(type_section(1, &t));
    assert!(matches!(
        read_from_bytes(f),
        Err(GhwParseError::FailedToParseSection("type", "type id out of range"))
    ));
}

#[test]
fn unknown_type_kind() {
    let mut f = file_header();
    f.extend(strings_with(&[]));
    f.extend(type_section(1, &[24, 1]));
    assert!(matches!(read_from_bytes(f), Err(GhwParseError::FailedToParseKindTag(24))));
    let mut g = file_header();
    g.extend(strings_with(&[]));
    g.extend(type_section(1, &[16, 1]));
    assert!(matches!(read_from_bytes(g), Err(GhwParseError::UnexpectedType(16, _))));
}

#[test]
fn float_range_is_flagged() {
    let mut f = file_header();
    f.extend(strings_with(&["real"]));
    let mut t = vec![27u8];
    uleb(&mut t, 11);
    t.push(34);
    uleb(&mut t, 11);
    uleb(&mut t, 1);
    t.push(27);
    f.extend(type_section(2, &t));
    assert!(matches!(
        read_from_bytes(f),
        Err(GhwParseError::FailedToParseSection("type", "float ranges are not supported"))
    ));
}

#[test]
fn type_section_must_end_in_zero() {
    let mut f = file_header();
    f.extend(strings_with(&[]));
    let mut t = type_section(0, &[]);
    t.pop();
    t.push(7);
    f.extend(t);
    assert!(matches!(
        read_from_bytes(f),
        Err(GhwParseError::FailedToParseSection("type", "last byte should be 0"))
    ));
}

#[test]
fn section_without_zero_header() {
    let mut f = file_header();
    f.extend_from_slice(b"STR\0");
    f.extend_from_slice(&[0, 1, 0, 0, 0, 0, 0, 0, 0, 0, 0, 0]);
    assert!(matches!(
        read_from_bytes(f),
        Err(GhwParseError::FailedToParseSection("string", "first four bytes should be zero"))
    ));
}

#[test]
fn unknown_section_tag() {
    let mut f = file_header();
    f.extend_from_slice(b"XXX\0");
    match read_from_bytes(f) {
        Err(GhwParseError::UnexpectedSection(tag)) => assert_eq!(tag, b"XXX\0".to_vec()),
        other => panic!("unexpected {:?}", other),
    }
}

#[test]
fn second_string_section_is_rejected() {
    let mut f = file_header();
    f.extend(string_section(&[]));
    f.extend(string_section(&[]));
    assert!(matches!(read_from_bytes(f), Err(GhwParseError::UnexpectedSection(_))));
}

#[test]
fn leading_zero_delta_is_rejected() {
    let mut f = single_bit_file();
    let n = f.len();
    f.truncate(n - 4 - 4 - 1 - 1 - 1 - 1 - 8 - 4);
    f.extend_from_slice(b"CYC\0");
    f.extend_from_slice(&10i64.to_le_bytes());
    uleb(&mut f, 0);
    sleb(&mut f, -1);
    f.extend_from_slice(b"ECY\0");
    f.extend_from_slice(b"TAI\0");
    assert!(matches!(
        read_from_bytes(f),
        Err(GhwParseError::FailedToParseSection("cycle", "expected a first delta > 0"))
    ));
}

#[test]
fn cycle_time_must_not_go_back() {
    let mut f = single_bit_file();
    let n = f.len();
    f.truncate(n - 4);
    f.extend_from_slice(b"CYC\0");
    f.extend_from_slice(&5i64.to_le_bytes());
    uleb(&mut f, 1);
    f.push(3);
    uleb(&mut f, 0);
    sleb(&mut f, -1);
    f.extend_from_slice(b"ECY\0");
    f.extend_from_slice(b"TAI\0");
    assert!(matches!(
        read_from_bytes(f),
        Err(GhwParseError::FailedToParseSection("cycle", "time goes backwards"))
    ));
}

#[test]
fn later_steps_of_a_cycle() {
    let mut f = single_bit_file();
    let n = f.len();
    f.truncate(n - 4);
    f.extend_from_slice(b"CYC\0");
    f.extend_from_slice(&20i64.to_le_bytes());
    uleb(&mut f, 1);
    f.push(3);
    uleb(&mut f, 0);
    sleb(&mut f, 5);
    uleb(&mut f, 0);
    sleb(&mut f, 7);
    uleb(&mut f, 1);
    f.push(0);
    uleb(&mut f, 0);
    sleb(&mut f, -1);
    f.extend_from_slice(b"ECY\0");
    f.extend_from_slice(b"TAI\0");
    let w = read_from_bytes(f).unwrap();
    let times: Vec<u64> = w.samples.iter().map(|s| s.time).collect();
    assert_eq!(times, vec![0, 10, 20, 32]);
    assert_eq!(w.samples[3].value, SignalValue::U8(5));
}

#[test]
fn nine_value_code_out_of_range() {
    let mut f = single_bit_file();
    let n = f.len();
    f.truncate(n - 4);
    f.extend(snapshot(40, &[9]));
    f.extend_from_slice(b"TAI\0");
    assert!(matches!(
        read_from_bytes(f),
        Err(GhwParseError::FailedToParseSection("signal", "nine-value code out of range"))
    ));
}

#[test]
fn directory_through_tailer() {
    let header = HeaderData { version: 1, big_endian: false, word_len: 4, word_offset: 0 };
    let mut f = vec![0u8; 4];
    f.extend_from_slice(b"DIR\0");
    f.extend_from_slice(&[0, 0, 0, 0]);
    u32le(&mut f, 2);
    f.extend_from_slice(b"STR\0");
    u32le(&mut f, 16);
    f.extend_from_slice(b"HIE\0");
    u32le(&mut f, 40);
    f.extend_from_slice(b"EOD\0");
    f.extend_from_slice(b"TAI\0");
    f.extend_from_slice(&[0, 0, 0, 0]);
    u32le(&mut f, 4);
    let mut input = Input::new(f);
    let dir = try_read_directory(&header, &mut input).unwrap().unwrap();
    assert_eq!(dir.len(), 2);
    assert_eq!(dir[0].id, b"STR\0".to_vec());
    assert_eq!(dir[0].pos, 16);
    assert_eq!(dir[1].id, b"HIE\0".to_vec());
    assert_eq!(dir[1].pos, 40);
    let mut none = Input::new(vec![1, 2, 3]);
    assert!(try_read_directory(&header, &mut none).unwrap().is_none());
}

#[test]
fn directory_needs_end_tag() {
    let header = HeaderData { version: 1, big_endian: true, word_len: 4, word_offset: 0 };
    let mut f = vec![0u8, 0, 0, 0, 0, 0, 0, 1];
    f.extend_from_slice(b"STR\0");
    f.extend_from_slice(&[0, 0, 0, 9]);
    f.extend_from_slice(b"EOX\0");
    let mut input = Input::new(f);
    assert!(matches!(read_directory(&header, &mut input), Err(GhwParseError::UnexpectedSection(_))));
}

#[test]
fn string_entries_share_prefixes() {
    let header = HeaderData { version: 1, big_endian: false, word_len: 4, word_offset: 0 };
    let mut b = vec![0u8, 0, 0, 0];
    u32le(&mut b, 4);
    u32le(&mut b, 0);
    b.extend_from_slice(b"abc");
    b.push(2);
    b.extend_from_slice(b"d");
    b.push(0x83);
    b.push(0x00);
    b.extend_from_slice(b"xy");
    b.push(0x80);
    b.push(0x01);
    b.extend_from_slice(b"z");
    b.push(0);
    let mut input = Input::new(b);
    let table = read_string_section(&header, &mut input).unwrap();
    assert_eq!(table, vec!["<anon>".to_string(), "abc".to_string(), "abd".to_string(), "abdxy".to_string(), "abdxyz".to_string()]);
}

#[test]
fn string_entries_are_decoded_lossily() {
    let header = HeaderData { version: 1, big_endian: false, word_len: 4, word_offset: 0 };
    let mut b = vec![0u8, 0, 0, 0];
    u32le(&mut b, 1);
    u32le(&mut b, 0);
    b.extend_from_slice(&[b'a', 0xff, b'b']);
    b.push(0);
    let mut input = Input::new(b);
    let table = read_string_section(&header, &mut input).unwrap();
    assert_eq!(table[1], "a\u{FFFD}b");
}

#[test]
fn string_section_ends_early() {
    let header = HeaderData { version: 1, big_endian: false, word_len: 4, word_offset: 0 };
    let mut b = vec![0u8, 0, 0, 0];
    u32le(&mut b, 2);
    u32le(&mut b, 0);
    b.extend_from_slice(b"abc");
    b.push(0);
    b.extend_from_slice(b"de");
    let mut input = Input::new(b);
    assert!(matches!(read_string_section(&header, &mut input), Err(GhwParseError::UnexpectedEof)));
}

#[test]
fn leb128_numbers() {
    let mut input = Input::new(vec![0xe5, 0x8e, 0x26, 0xc0, 0xbb, 0x78, 0x7f]);
    assert_eq!(read_unsigned(&mut input).unwrap(), 624485);
    assert_eq!(input.position(), 3);
    assert_eq!(read_signed(&mut input).unwrap(), -123456);
    assert_eq!(read_signed(&mut input).unwrap(), -1);
    assert!(matches!(read_unsigned(&mut input), Err(GhwParseError::UnexpectedEof)));
    let mut big = Input::new(vec![0xff; 10]);
    big.data.push(0x01);
    assert!(matches!(read_unsigned(&mut big), Err(GhwParseError::Leb128Overflow)));
    let mut max = Input::new(vec![0xff, 0xff, 0xff, 0xff, 0xff, 0xff, 0xff, 0xff, 0xff, 0x01]);
    assert_eq!(read_unsigned(&mut max).unwrap(), u64::MAX);
}

#[test]
fn header_integers() {
    let le = HeaderData { version: 1, big_endian: false, word_len: 4, word_offset: 0 };
    let be = HeaderData { version: 1, big_endian: true, word_len: 4, word_offset: 0 };
    assert_eq!(le.read_i32(&[1, 2, 0, 0]).unwrap(), 513);
    assert_eq!(be.read_i32(&[0, 0, 2, 1]).unwrap(), 513);
    assert_eq!(le.read_i32(&[0xff, 0xff, 0xff, 0xff]).unwrap(), -1);
    assert!(matches!(le.read_u32(&[0xff, 0xff, 0xff, 0xff]), Err(GhwParseError::ExpectedPositiveInteger(-1))));
    assert!(matches!(le.read_u32(&[1, 2]), Err(GhwParseError::UnexpectedEof)));
    assert_eq!(le.read_i64(&[0xfe, 0xff, 0xff, 0xff, 0xff, 0xff, 0xff, 0xff]).unwrap(), -2);
    assert_eq!(be.read_i64(&[0, 0, 0, 1, 0, 0, 0, 2]).unwrap(), 0x1_0000_0002);
    assert_eq!(le.read_i64(&[0, 0, 0, 0, 0, 0, 0, 0x80]).unwrap(), i64::MIN);
}

#[test]
fn nine_value_characters() {
    assert_eq!(bit_char_to_num(b'0'), Some(0));
    assert_eq!(bit_char_to_num(b'1'), Some(1));
    assert_eq!(bit_char_to_num(b'X'), Some(2));
    assert_eq!(bit_char_to_num(b'z'), Some(3));
    assert_eq!(bit_char_to_num(b'H'), Some(4));
    assert_eq!(bit_char_to_num(b'U'), Some(5));
    assert_eq!(bit_char_to_num(b'w'), Some(6));
    assert_eq!(bit_char_to_num(b'L'), Some(7));
    assert_eq!(bit_char_to_num(b'-'), Some(8));
    assert_eq!(bit_char_to_num(b'2'), None);
}

#[test]
fn enum_detection() {
    let mut strings: Vec<String> = vec!["<anon>".to_string()];
    for s in ["0", "1", "x", "z", "h", "u", "w", "l", "-", "'1'", "ab"] {
        strings.push(s.to_string());
    }
    let lits: Vec<StringId> = (1..=9).map(StringId).collect();
    match VhdlType::from_enum(&strings, StringId(0), lits) {
        VhdlType::NineValueBit(_, lut) => assert_eq!(lut, [0, 1, 2, 3, 4, 5, 6, 7, 8]),
        other => panic!("unexpected {:?}", other),
    }
    let dup: Vec<StringId> = vec![1, 1, 3, 4, 5, 6, 7, 8, 9].into_iter().map(StringId).collect();
    assert!(matches!(VhdlType::from_enum(&strings, StringId(0), dup), VhdlType::Enum(_, _)));
    let quoted: Vec<StringId> = vec![1, 10, 3, 4, 5, 6, 7, 8, 9].into_iter().map(StringId).collect();
    assert!(matches!(VhdlType::from_enum(&strings, StringId(0), quoted), VhdlType::NineValueBit(_, _)));
    let long: Vec<StringId> = vec![11, 2, 3, 4, 5, 6, 7, 8, 9].into_iter().map(StringId).collect();
    assert!(matches!(VhdlType::from_enum(&strings, StringId(0), long), VhdlType::Enum(_, _)));
    let short: Vec<StringId> = vec![1, 2].into_iter().map(StringId).collect();
    assert!(matches!(VhdlType::from_enum(&strings, StringId(0), short), VhdlType::Enum(_, _)));
}

#[test]
fn int_ranges() {
    let down = IntRange(RangeDir::Downto, 7, 0);
    let up = IntRange(RangeDir::To, 0, 7);
    assert_eq!(down.range(), (0, 8));
    assert_eq!(up.range(), (0, 8));
    assert_eq!(down.len(), 8);
    assert_eq!(IntRange(RangeDir::To, 3, 1).len(), 3);
    assert_eq!(down.as_var_index(), (7, 0));
    assert!(down.is_subset_of(&IntRange::from_i32_option(None)));
    assert!(!IntRange(RangeDir::To, -1, 3).is_subset_of(&up));
    assert_eq!(IntRange::from_i64_option(None).range(), (i64::MIN as i128, i64::MAX as i128 + 1));
    assert_eq!(IntRange::from_i32_option(Some(up)).range(), (0, 8));
}

#[test]
fn decimal_text() {
    assert_eq!(decimal_string(0), "0");
    assert_eq!(decimal_string(7), "7");
    assert_eq!(decimal_string(1234), "1234");
    assert_eq!(decimal_string(u64::MAX), "18446744073709551615");
}

#[test]
fn plain_enum_variable_gets_enum_type() {
    let mut f = file_header();
    f.extend(string_section(&["state", "idle", "busy", "s", "t"]));
    let mut t = vec![23u8];
    uleb(&mut t, 1);
    uleb(&mut t, 2);
    uleb(&mut t, 2);
    uleb(&mut t, 3);
    f.extend(type_section(1, &t));
    let mut recs = Vec::new();
    for name in [4u64, 5] {
        recs.push(16);
        uleb(&mut recs, name);
        uleb(&mut recs, 1);
        uleb(&mut recs, name - 3);
    }
    f.extend(hierarchy_section(0, 2, 2, &recs));
    f.extend_from_slice(b"EOH\0");
    f.extend_from_slice(b"TAI\0");
    let w = read_from_bytes(f).unwrap();
    let h = &w.hierarchy;
    assert_eq!(h.enums.len(), 1);
    assert_eq!(
        h.enums[0].mapping,
        vec![("0".to_string(), "idle".to_string()), ("1".to_string(), "busy".to_string())]
    );
    assert_eq!(h.vars[0].enum_type, h.vars[1].enum_type);
    assert_eq!(h.get_str(h.vars[0].tpe_name.unwrap()), "state");
    assert_eq!(h.vars[0].name(h), "s");
}

#[test]
fn name_sizes_and_memory() {
    let w = read_from_bytes(record_file()).unwrap();
    let h = &w.hierarchy;
    assert_eq!(h.name_bytes(), (6, 22));
    let strings: u64 = h.strings.iter().map(|s| s.len() as u64).sum();
    let expected = (h.scopes.len() * std::mem::size_of::<wellen::hierarchy::Scope>()
        + h.vars.len() * std::mem::size_of::<wellen::hierarchy::Var>()
        + h.strings.len() * std::mem::size_of::<String>()
        + h.enums.len() * std::mem::size_of::<wellen::hierarchy::EnumType>()) as u64
        + strings;
    assert_eq!(h.size_in_memory(), expected);
    assert_eq!(h.iter_scopes(), vec![ScopeRef(0), ScopeRef(1)]);
    assert_eq!(h.iter_vars(), vec![VarRef(0), VarRef(1)]);
}

#[test]
fn unimplemented_type_kind_is_flagged() {
    let mut f = file_header();
    f.extend(strings_with(&[]));
    f.extend(type_section(1, &[28, 1]));
    assert!(matches!(
        read_from_bytes(f),
        Err(GhwParseError::FailedToParseSection("type", "unsupported type kind"))
    ));
}

#[test]
fn for_generate_and_design_records_are_flagged() {
    let mut f = file_header();
    f.extend(strings_with(&["g"]));
    let mut t = Vec::new();
    std_ulogic_type(&mut t);
    f.extend(type_section(1, &t));
    let mut recs = vec![5u8];
    uleb(&mut recs, 11);
    uleb(&mut recs, 1);
    f.extend(hierarchy_section(0, 0, 0, &recs));
    assert!(matches!(
        read_from_bytes(f),
        Err(GhwParseError::FailedToParseSection("hierarchy", "for-generate values are not supported"))
    ));
    let mut g = file_header();
    g.extend(strings_with(&[]));
    g.extend(hierarchy_section(0, 0, 0, &[1]));
    assert!(matches!(
        read_from_bytes(g),
        Err(GhwParseError::FailedToParseSection("hierarchy", "unexpected design record"))
    ));
}

#[test]
fn process_record_adds_nothing() {
    let mut f = file_header();
    f.extend(strings_with(&["top", "p"]));
    let mut t = Vec::new();
    std_ulogic_type(&mut t);
    f.extend(type_section(1, &t));
    let mut recs = vec![3u8];
    uleb(&mut recs, 11);
    recs.push(13);
    uleb(&mut recs, 12);
    recs.push(15);
    f.extend(hierarchy_section(1, 0, 0, &recs));
    f.extend_from_slice(b"EOH\0");
    f.extend_from_slice(b"TAI\0");
    let w = read_from_bytes(f).unwrap();
    assert_eq!(w.hierarchy.scopes.len(), 1);
    assert_eq!(w.hierarchy.vars.len(), 0);
}

#[test]
fn snapshot_end_tag_is_checked() {
    let mut f = single_bit_file();
    let n = f.len();
    f.truncate(n - 4);
    let mut snp = snapshot(40, &[3]);
    let m = snp.len();
    snp.truncate(m - 4);
    snp.extend_from_slice(b"XSN\0");
    f.extend(snp);
    match read_from_bytes(f) {
        Err(GhwParseError::UnexpectedSection(t)) => assert_eq!(t, b"XSN\0".to_vec()),
        other => panic!("unexpected {:?}", other),
    }
}
