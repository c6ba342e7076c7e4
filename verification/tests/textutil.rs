use pactree::checksum::parse_hex;
use pactree::link::{
    base_name, parse_string_list, scan_link_overwrite, trim_bytes,
};
use pactree::package::{parse_relocate_mode, RelocateMode};
use pactree::text::{
    parse_u64_dec, replace_all, replace_at_with_slash, str_eq, str_starts_with, u64_to_dec,
};

#[test]
fn decimal_rendering() {
    assert_eq!(u64_to_dec(0), "0");
    assert_eq!(u64_to_dec(42), "42");
    assert_eq!(u64_to_dec(18446744073709551615), "18446744073709551615");
}

#[test]
fn decimal_parsing() {
    assert_eq!(parse_u64_dec("0"), Some(0));
    assert_eq!(parse_u64_dec("10240"), Some(10240));
    assert_eq!(parse_u64_dec("18446744073709551615"), Some(18446744073709551615));
    assert_eq!(parse_u64_dec("18446744073709551616"), None);
    assert_eq!(parse_u64_dec(""), None);
    assert_eq!(parse_u64_dec("12a"), None);
    assert_eq!(parse_u64_dec("-3"), None);
}

#[test]
fn hex_parsing() {
    assert_eq!(parse_hex("00ff10"), Some(vec![0x00, 0xff, 0x10]));
    assert_eq!(parse_hex("AbCd"), Some(vec![0xab, 0xcd]));
    assert_eq!(parse_hex(""), Some(vec![]));
    assert_eq!(parse_hex("abc"), None);
    assert_eq!(parse_hex("zz"), None);
}

#[test]
fn at_replacement_and_base_name() {
    assert_eq!(replace_at_with_slash("foo@1.2"), "foo/1.2");
    assert_eq!(replace_at_with_slash("plain"), "plain");
    assert_eq!(base_name("foo@1.2"), "foo");
    assert_eq!(base_name("plain"), "plain");
}

#[test]
fn string_helpers() {
    assert!(str_eq("abc", "abc"));
    assert!(!str_eq("abc", "abd"));
    assert!(str_starts_with("lib/pkgconfig/x.pc", "lib/pkgconfig"));
    assert!(!str_starts_with("lib", "lib/pkgconfig"));
}

#[test]
fn byte_replacement_reports_change() {
    let (out, changed) = replace_all(&b"a@@P@@b@@P@@".to_vec(), &b"@@P@@".to_vec(), &b"/x".to_vec());
    assert!(changed);
    assert_eq!(out, b"a/xb/x".to_vec());
    let (same, untouched) = replace_all(&b"nothing".to_vec(), &b"@@P@@".to_vec(), &b"/x".to_vec());
    assert!(!untouched);
    assert_eq!(same, b"nothing".to_vec());
}

#[test]
fn relocate_mode_parsing() {
    assert_eq!(parse_relocate_mode(":any_skip_relocation"), Some(RelocateMode::Skip));
    assert_eq!(parse_relocate_mode(":any"), Some(RelocateMode::Any));
    assert_eq!(parse_relocate_mode("/home/linuxbrew/.linuxbrew/Cellar"), Some(RelocateMode::Fixed));
    assert_eq!(parse_relocate_mode(":weird"), None);
    assert_eq!(parse_relocate_mode(""), None);
}

#[test]
fn bracketed_list_parsing() {
    assert_eq!(
        parse_string_list(&b"[\"a\", \"b/c\"]".to_vec()),
        Some(vec![b"a".to_vec(), b"b/c".to_vec()])
    );
    assert_eq!(parse_string_list(&b"  [ ]  ".to_vec()), Some(vec![]));
    assert_eq!(
        parse_string_list(&b"[\"only\"]".to_vec()),
        Some(vec![b"only".to_vec()])
    );
    assert_eq!(parse_string_list(&b"[\"unterminated]".to_vec()), None);
    assert_eq!(parse_string_list(&b"no brackets".to_vec()), None);
    assert_eq!(parse_string_list(&b"[\"a\" \"b\"]".to_vec()), None);
}

#[test]
fn link_overwrite_scan_single_line() {
    let lines: Vec<Vec<u8>> = vec![
        b"class Foo < Formula".to_vec(),
        b"  link_overwrite [\"bin/foo\"]".to_vec(),
        b"end".to_vec(),
    ];
    assert_eq!(scan_link_overwrite(&lines), Some(vec![b"bin/foo".to_vec()]));
}

#[test]
fn link_overwrite_scan_continuation_lines() {
    let lines: Vec<Vec<u8>> = vec![
        b"  link_overwrite [\"bin/foo\",".to_vec(),
        b"                  \"share/man/foo.1\"]".to_vec(),
        b"  link_overwrite [\"etc/foo\"]".to_vec(),
    ];
    assert_eq!(
        scan_link_overwrite(&lines),
        Some(vec![
            b"bin/foo".to_vec(),
            b"share/man/foo.1".to_vec(),
            b"etc/foo".to_vec(),
        ])
    );
}

#[test]
fn link_overwrite_scan_unclosed_directive_fails() {
    let lines: Vec<Vec<u8>> = vec![b"link_overwrite [\"bin/foo\",".to_vec()];
    assert_eq!(scan_link_overwrite(&lines), None);
}

#[test]
fn trimming() {
    assert_eq!(trim_bytes(&b"  x y\t ".to_vec()), b"x y".to_vec());
    assert_eq!(trim_bytes(&b"\t\t".to_vec()), b"".to_vec());
}
