use std::io::Write;

use hg_revlog::changeset::{Changeset, DateStamp};
use hg_revlog::error::RevlogError;
use hg_revlog::index::{Index, IndexNG, IndexV0};
use hg_revlog::revlog::{Revlog, REVLOG_FLAG_GENERALDELTA, REVLOG_FLAG_INLINE_DATA};

fn be(v: u64, n: usize) -> Vec<u8> {
    (0..n).rev().map(|i| (v >> (8 * i)) as u8).collect()
}

fn ng_record(offset: u64, flags: u16, clen: u32, ulen: u32, base: u32, link: u32, p1: u32, p2: u32, node: u8) -> Vec<u8> {
    let mut r = Vec::new();
    r.extend(be(offset, 6));
    r.extend(be(flags as u64, 2));
    r.extend(be(clen as u64, 4));
    r.extend(be(ulen as u64, 4));
    r.extend(be(base as u64, 4));
    r.extend(be(link as u64, 4));
    r.extend(be(p1 as u64, 4));
    r.extend(be(p2 as u64, 4));
    r.extend((0..32).map(|i| node.wrapping_add(i as u8)));
    assert_eq!(r.len(), 64);
    r
}

fn v0_record(offset: u32, len: u32, base: u32, link: u32, seed: u8) -> Vec<u8> {
    let mut r = Vec::new();
    r.extend(be(offset as u64, 4));
    r.extend(be(len as u64, 4));
    r.extend(be(base as u64, 4));
    r.extend(be(link as u64, 4));
    r.extend((0..60).map(|i| seed.wrapping_add(i as u8)));
    assert_eq!(r.len(), 76);
    r
}

/// A modern inline file with two records, each followed by its payload.
fn inline_file() -> Vec<u8> {
    let mut f = ng_record(0, 0, 3, 3, 0, 0, 0xffff_ffff, 0xffff_ffff, 0x10);
    f[0..4].copy_from_slice(&[0x00, 0x01, 0x00, 0x01]);
    f.extend(b"u01");
    f.extend(ng_record(3, 0, 4, 4, 1, 1, 0, 0xffff_ffff, 0x20));
    f.extend(b"u234");
    f
}

#[test]
fn truncated_header_is_malformed() {
    assert!(matches!(Revlog::from_file(&[]), Err(RevlogError::MalformedHeader)));
    assert!(matches!(Revlog::from_file(&[0, 1, 0]), Err(RevlogError::MalformedHeader)));
}

#[test]
fn unknown_version_is_unsupported() {
    let mut f = vec![0u8, 0, 0, 2];
    f.extend(vec![0u8; 60]);
    assert!(matches!(Revlog::from_file(&f), Err(RevlogError::UnsupportedVersion)));
}

#[test]
fn short_first_record_is_truncated() {
    let f = vec![0u8, 0, 0, 1, 0, 0, 0, 0];
    assert!(matches!(Revlog::from_file(&f), Err(RevlogError::TruncatedIndex)));
    assert!(matches!(IndexNG::from_file(&f, 0), Err(RevlogError::TruncatedIndex)));
    assert!(matches!(IndexV0::from_file(&vec![0u8; 75], 0), Err(RevlogError::TruncatedIndex)));
}

#[test]
fn inline_file_loads_and_reads_payloads() {
    let f = inline_file();
    let rl = Revlog::from_file(&f).unwrap();
    assert_eq!(rl.version, 1);
    assert_eq!(rl.flags, REVLOG_FLAG_INLINE_DATA);
    assert!(rl.has_flag(REVLOG_FLAG_INLINE_DATA));
    assert!(rl.flag(REVLOG_FLAG_INLINE_DATA));
    assert!(!rl.has_flag(REVLOG_FLAG_GENERALDELTA));
    assert_eq!(rl.index.len(), 2);
    assert_eq!(rl.index[0].offset(), 0);
    assert_eq!(rl.index[1].offset(), 3);
    assert_eq!(rl.index[0].length(), 3);
    assert_eq!(rl.index[1].length(), 4);
    assert_eq!(rl.index[1].baserev(), 1);
    assert_eq!(rl.index[1].linkrev(), 1);
    // record 1's payload sits at 3 + 64 * 2
    assert_eq!(rl.read_data(&f, 0).unwrap(), b"u01".to_vec());
    assert_eq!(rl.read_data(&f, 1).unwrap(), b"u234".to_vec());
    assert_eq!(&f[3 + 64 * 2..3 + 64 * 2 + 4], b"u234");
}

#[test]
fn separate_data_file_is_addressed_by_offset() {
    let mut f = ng_record(0, 0, 2, 2, 0, 0, 0, 0, 1);
    f[0..4].copy_from_slice(&[0, 0, 0, 1]);
    f.extend(ng_record(5, 0, 3, 3, 0, 1, 0, 0, 2));
    let data = b"u1abcu23".to_vec();
    let rl = Revlog::from_file(&f).unwrap();
    assert!(!rl.has_flag(REVLOG_FLAG_INLINE_DATA));
    assert_eq!(rl.index.len(), 2);
    assert_eq!(rl.read_data(&data, 0).unwrap(), b"u1".to_vec());
    assert_eq!(rl.read_data(&data, 1).unwrap(), b"u23".to_vec());
    assert!(matches!(rl.read_data(&data[..7], 1), Err(RevlogError::ShortRead)));
}

#[test]
fn index_ending_off_the_file_end_is_corrupt() {
    let f = inline_file();
    let mut over = f.clone();
    over.push(0);
    assert!(matches!(Revlog::from_file(&over), Err(RevlogError::CorruptIndex)));
    let short = f[..f.len() - 1].to_vec();
    assert!(matches!(Revlog::from_file(&short), Err(RevlogError::CorruptIndex)));
}

#[test]
fn legacy_record_round_trips() {
    let w = v0_record(0x0102_0304, 0x0506_0708, 7, 9, 0x40);
    let mut d = vec![0xeeu8; 3];
    d.extend(&w);
    let e = IndexV0::from_file(&d, 3).unwrap();
    assert_eq!(e.offset, 0x0102_0304);
    assert_eq!(e.length, 0x0506_0708);
    assert_eq!(e.baserev, 7);
    assert_eq!(e.linkrev, 9);
    let mut back = Vec::new();
    back.extend(be(e.offset as u64, 4));
    back.extend(be(e.length as u64, 4));
    back.extend(be(e.baserev as u64, 4));
    back.extend(be(e.linkrev as u64, 4));
    back.extend(e.parent1);
    back.extend(e.parent2);
    back.extend(e.nodeid);
    assert_eq!(back, w);
}

#[test]
fn modern_record_round_trips() {
    let w = ng_record(0x0000_a1b2_c3d4_e5f6 & 0xffff_ffff_ffff, 0x8001, 11, 22, 33, 44, 55, 66, 0x90);
    let mut d = vec![0u8; 64];
    d.extend(&w);
    let e = IndexNG::from_file(&d, 64).unwrap();
    assert_eq!(e.offset, 0xa1b2_c3d4_e5f6);
    assert_eq!(e.flags, 0x8001);
    assert_eq!(e.length_compressed, 11);
    assert_eq!(e.length, 22);
    assert_eq!((e.baserev, e.linkrev, e.parent1, e.parent2), (33, 44, 55, 66));
    let back = ng_record(e.offset, e.flags, e.length_compressed, e.length, e.baserev, e.linkrev, e.parent1, e.parent2, e.nodeid[0]);
    assert_eq!(back, w);
    let idx = Index::NG(e);
    assert_eq!(idx.flags(), 0x8001);
    assert_eq!(idx.length(), 11);
    assert_eq!(idx.size(), 64);
}

#[test]
fn first_modern_record_reads_offset_zero() {
    let f = inline_file();
    let e = IndexNG::from_file(&f, 0).unwrap();
    assert_eq!(e.offset, 0);
    assert_eq!(e.flags, 0);
    assert_eq!(e.length_compressed, 3);
}

#[test]
fn legacy_node_id_is_widened() {
    let w = v0_record(0, 0, 0, 0, 0x01);
    let e = IndexV0::from_file(&w, 0).unwrap();
    let idx = Index::V0(e);
    let n = idx.nodeid();
    assert_eq!(&n[12..], &e.nodeid[..]);
    assert!(n[..12].iter().all(|b| *b == 0));
    assert_eq!(idx.flags(), 0);
    assert_eq!(idx.size(), 76);
}

#[test]
fn short_id_is_prefix_of_full_id() {
    let w = v0_record(0, 0, 0, 0, 0xfa);
    let idx = Index::V0(IndexV0::from_file(&w, 0).unwrap());
    // node id bytes start at seed + 40
    assert_eq!(idx.short_id(), "000000000000");
    assert_eq!(idx.id().len(), 64);
    assert_eq!(idx.short_id(), idx.id()[..12].to_string());
    assert!(idx.id().starts_with("000000000000000000000000222324252627"));
    let m = ng_record(0, 0, 0, 0, 0, 0, 0, 0, 0xab);
    let mut d = vec![0u8; 64];
    d.extend(&m);
    let ng = Index::NG(IndexNG::from_file(&d, 64).unwrap());
    assert_eq!(ng.short_id(), "abacadaeafb0");
    assert_eq!(ng.short_id(), ng.id()[..12].to_string());
}

#[test]
fn empty_changeset() {
    let c = Changeset::from(vec![0]).unwrap();
    assert_eq!(Changeset::raw(&[0]).unwrap(), "");
    assert_eq!(c.hash, None);
    assert_eq!(c.author, None);
    assert_eq!(c.when, None);
    assert!(c.files.is_empty());
    assert_eq!(c.message, None);
    assert_eq!(c.data, vec![0]);
}

#[test]
fn zlib_changeset() {
    let text = "abc123\nAlice\n1000 0\nfile1.txt\n\ncommit msg";
    let mut enc = flate2::write::ZlibEncoder::new(Vec::new(), flate2::Compression::default());
    enc.write_all(text.as_bytes()).unwrap();
    let payload = enc.finish().unwrap();
    assert_eq!(payload[0], b'x');
    assert_eq!(Changeset::raw(&payload).unwrap(), text);
    let c = Changeset::from(payload).unwrap();
    assert_eq!(c.hash.as_deref(), Some("abc123"));
    assert_eq!(c.author.as_deref(), Some("Alice"));
    assert_eq!(c.when, Some(DateStamp { timestamp: 1000, utc_offset: 0 }));
    assert_eq!(c.files, vec!["file1.txt".to_string()]);
    assert_eq!(c.message.as_deref(), Some("commit msg"));
}

#[test]
fn unknown_tag_fails() {
    assert!(matches!(Changeset::from(vec![0x02]), Err(RevlogError::UnknownEncoding)));
    assert!(matches!(Changeset::from(vec![0x02, b'a', b'\n']), Err(RevlogError::UnknownEncoding)));
    assert!(matches!(Changeset::from(Vec::new()), Err(RevlogError::UnknownEncoding)));
}

#[test]
fn date_without_offset_fails() {
    assert_eq!(Changeset::parse_date_string("1000"), Err(RevlogError::MalformedDate));
    assert_eq!(Changeset::parse_date_string("abc 0"), Err(RevlogError::MalformedDate));
    assert_eq!(Changeset::parse_date_string("1000 "), Err(RevlogError::MalformedDate));
    assert_eq!(Changeset::parse_date_string("-"), Err(RevlogError::MalformedDate));
    assert_eq!(Changeset::parse_date_string("1 99999999999"), Err(RevlogError::MalformedDate));
}

#[test]
fn date_tokens_split_at_any_whitespace() {
    assert_eq!(Changeset::parse_date_string("1000\t-60"), Ok(DateStamp { timestamp: 1000, utc_offset: -60 }));
    assert_eq!(Changeset::parse_date_string("  1000   0  "), Ok(DateStamp { timestamp: 1000, utc_offset: 0 }));
    assert_eq!(Changeset::parse_date_string(" 1000\t "), Err(RevlogError::MalformedDate));
}

#[test]
fn date_parses_two_integers() {
    assert_eq!(Changeset::parse_date_string("1000 3600 extra"), Ok(DateStamp { timestamp: 1000, utc_offset: 3600 }));
    assert_eq!(Changeset::parse_date_string("+5 -7200"), Ok(DateStamp { timestamp: 5, utc_offset: -7200 }));
    assert_eq!(
        Changeset::parse_date_string("-9223372036854775808 0"),
        Ok(DateStamp { timestamp: i64::MIN, utc_offset: 0 })
    );
    assert_eq!(Changeset::parse_date_string("9223372036854775808 0"), Err(RevlogError::MalformedDate));
}

#[test]
fn malformed_date_line_fails_the_changeset() {
    let c = Changeset::from(b"uh\na\nnot a date\n\nm".to_vec());
    assert!(matches!(c, Err(RevlogError::MalformedDate)));
}

#[test]
fn literal_changeset_keeps_blank_message_lines() {
    let c = Changeset::from(b"udeadbeef\nBob <b@x>\n5 -3600\na.txt\nb.txt\n\nline1\n\nline3\n".to_vec()).unwrap();
    assert_eq!(c.hash.as_deref(), Some("deadbeef"));
    assert_eq!(c.author.as_deref(), Some("Bob <b@x>"));
    assert_eq!(c.when, Some(DateStamp { timestamp: 5, utc_offset: -3600 }));
    assert_eq!(c.files, vec!["a.txt".to_string(), "b.txt".to_string()]);
    assert_eq!(c.message.as_deref(), Some("line1\n\nline3"));
}

#[test]
fn header_without_separator_has_no_message() {
    let c = Changeset::from(b"uh\nauthor".to_vec()).unwrap();
    assert_eq!(c.hash.as_deref(), Some("h"));
    assert_eq!(c.author.as_deref(), Some("author"));
    assert_eq!(c.when, None);
    assert_eq!(c.message, None);
    let p = Changeset::parse(vec![], "h\n\n").unwrap();
    assert_eq!(p.message.as_deref(), Some(""));
}

#[test]
fn bad_payload_bodies_fail() {
    assert!(matches!(Changeset::from(vec![b'u', 0xff, 0xfe]), Err(RevlogError::InvalidText)));
    assert!(matches!(Changeset::from(vec![b'x', 1, 2, 3]), Err(RevlogError::CorruptPayload)));
}

#[test]
fn legacy_node_id_fills_low_bytes() {
    let mut w = vec![0u8; 56];
    w.extend(vec![0xabu8; 20]);
    let idx = Index::V0(IndexV0::from_file(&w, 0).unwrap());
    let mut expected = vec![0u8; 12];
    expected.extend(vec![0xabu8; 20]);
    assert_eq!(idx.nodeid().to_vec(), expected);
    assert_eq!(idx.id(), format!("{}{}", "0".repeat(24), "ab".repeat(20)));
}
