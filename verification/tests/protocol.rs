use fuzzer::protocol::{parse_directive, Directive};

fn parse(bytes: &[u8]) -> Directive {
    parse_directive(&bytes.to_vec())
}

#[test]
fn parse_stop() {
    assert_eq!(parse(b"stop"), Directive::Stop);
}

#[test]
fn parse_sync() {
    assert_eq!(parse(b"sync"), Directive::Sync);
}

#[test]
fn parse_go() {
    assert_eq!(parse(b"go"), Directive::Go);
}

#[test]
fn parse_go_count() {
    assert_eq!(parse(b"go:3"), Directive::GoN(3));
    assert_eq!(parse(b"go:0"), Directive::GoN(0));
    assert_eq!(parse(b"go:007"), Directive::GoN(7));
}

#[test]
fn parse_trims_whitespace() {
    assert_eq!(parse(b"stop\n"), Directive::Stop);
    assert_eq!(parse(b"  go  "), Directive::Go);
    assert_eq!(parse(b"\tgo:12\r\n"), Directive::GoN(12));
    assert_eq!(parse(b"sync "), Directive::Sync);
}

#[test]
fn parse_trims_unicode_whitespace() {
    // str::trim strips every Unicode white-space character, not only
    // the ASCII ones.
    assert_eq!(parse(b"stop\xc2\xa0"), Directive::Stop); // U+00A0
    assert_eq!(parse("\u{2028}go\u{3000}".as_bytes()), Directive::Go);
    assert_eq!(parse(b"\xe2\x80\x89sync"), Directive::Sync); // U+2009
    assert_eq!(parse("\u{1680}go:4\u{0085}".as_bytes()), Directive::GoN(4));
}

#[test]
fn parse_keeps_invalid_utf8_intact() {
    // A truncated multi-byte sequence is not whitespace.
    assert_eq!(parse(b"go\xe2\x80"), Directive::Invalid);
    assert_eq!(parse(b"stop\xc2"), Directive::Invalid);
}

#[test]
fn parse_accepts_plus_sign() {
    // u32's own parser accepts one leading plus sign.
    assert_eq!(parse(b"go:+5"), Directive::GoN(5));
    assert_eq!(parse(b"go:+"), Directive::Invalid);
}

#[test]
fn parse_count_bounds() {
    assert_eq!(parse(b"go:4294967295"), Directive::GoN(u32::MAX));
    assert_eq!(parse(b"go:4294967296"), Directive::Invalid);
    assert_eq!(parse(b"go:99999999999999999999"), Directive::Invalid);
}

#[test]
fn parse_rejects_extra_colons() {
    // The whole remainder after `go:` must be the count: a second colon
    // is a protocol violation.
    assert_eq!(parse(b"go:1:2"), Directive::Invalid);
    assert_eq!(parse(b"go::5"), Directive::Invalid);
    assert_eq!(parse(b"go:5:"), Directive::Invalid);
}

#[test]
fn parse_rejects_malformed_counts() {
    assert_eq!(parse(b"go:"), Directive::Invalid);
    assert_eq!(parse(b"go:abc"), Directive::Invalid);
    assert_eq!(parse(b"go:1a"), Directive::Invalid);
    assert_eq!(parse(b"go: 5"), Directive::Invalid);
    assert_eq!(parse(b"go:-1"), Directive::Invalid);
}

#[test]
fn parse_rejects_unknown_messages() {
    assert_eq!(parse(b"bogus"), Directive::Invalid);
    assert_eq!(parse(b""), Directive::Invalid);
    assert_eq!(parse(b"   "), Directive::Invalid);
    assert_eq!(parse(b"Stop"), Directive::Invalid);
    assert_eq!(parse(b"goo"), Directive::Invalid);
    assert_eq!(parse(b"stop sync"), Directive::Invalid);
}
