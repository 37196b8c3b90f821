//! The pipe message protocol.
//!
//! The solver steers this process with single-line text directives on a
//! named pipe. A raw message is trimmed of whitespace at both ends and
//! then read as one directive; anything outside the recognized set is a
//! protocol violation. `go:<n>` carries a decimal count parsed exactly
//! as an unsigned 32-bit integer (an optional leading `+`, then digits)
//! from the whole remainder after the colon.

use vstd::prelude::*;

verus! {

/// One directive read from the pipe, after whitespace trimming.
#[derive(Clone, Copy, PartialEq, Eq, Structural, Debug)]
pub enum Directive {
    /// `stop`: terminate the process with exit code 0.
    Stop,
    /// `sync`: ingest the sync directory, acknowledge, keep reading.
    Sync,
    /// `go`: authorize exactly one generation.
    Go,
    /// `go:<n>`: authorize one generation now and pre-authorize `n` more.
    GoN(u32),
    /// Anything else: protocol violation, terminate with a non-zero code.
    Invalid,
}

/// An outbound message on the pipe.
#[derive(Clone, Copy, PartialEq, Eq, Structural, Debug)]
pub enum Signal {
    /// No new coverage since the last notice.
    Ready,
    /// New coverage discovered since the last notice.
    New,
    /// A completed sync request is acknowledged.
    Synced,
}

pub open spec fn lit_ready() -> Seq<u8> {
    seq![114u8, 101u8, 97u8, 100u8, 121u8]  // "ready"
}

pub open spec fn lit_new() -> Seq<u8> {
    seq![110u8, 101u8, 119u8]  // "new"
}

pub open spec fn lit_synced() -> Seq<u8> {
    seq![115u8, 121u8, 110u8, 99u8, 101u8, 100u8]  // "synced"
}

/// The wire form of each outbound signal.
pub open spec fn spec_signal_bytes(s: Signal) -> Seq<u8> {
    match s {
        Signal::Ready => lit_ready(),
        Signal::New => lit_new(),
        Signal::Synced => lit_synced(),
    }
}

/// Encode an outbound signal as the bytes written to the pipe.
pub fn signal_bytes(s: &Signal) -> (r: Vec<u8>)
    ensures
        r@ == spec_signal_bytes(*s),
{
    let mut r: Vec<u8> = Vec::new();
    match s {
        Signal::Ready => {
            r.push(114);  // "ready"
            r.push(101);
            r.push(97);
            r.push(100);
            r.push(121);
            proof {
                assert(r@ =~= lit_ready());
            }
        },
        Signal::New => {
            r.push(110);  // "new"
            r.push(101);
            r.push(119);
            proof {
                assert(r@ =~= lit_new());
            }
        },
        Signal::Synced => {
            r.push(115);  // "synced"
            r.push(121);
            r.push(110);
            r.push(99);
            r.push(101);
            r.push(100);
            proof {
                assert(r@ =~= lit_synced());
            }
        },
    }
    r
}

/// ASCII whitespace, the one-byte encodings of Unicode white space:
/// U+0009–U+000D and U+0020.
pub open spec fn is_ascii_ws(b: u8) -> bool {
    b == 9 || b == 10 || b == 11 || b == 12 || b == 13 || b == 32
}

/// The two-byte UTF-8 encodings of Unicode white space: U+0085 and
/// U+00A0.
pub open spec fn is_ws2(a: u8, b: u8) -> bool {
    a == 0xc2 && (b == 0x85 || b == 0xa0)
}

/// The three-byte UTF-8 encodings of Unicode white space: U+1680,
/// U+2000–U+200A, U+2028, U+2029, U+202F, U+205F and U+3000.
pub open spec fn is_ws3(a: u8, b: u8, c: u8) -> bool {
    (a == 0xe1 && b == 0x9a && c == 0x80) || (a == 0xe2 && b == 0x80 && ((0x80 <= c && c <= 0x8a)
        || c == 0xa8 || c == 0xa9 || c == 0xaf)) || (a == 0xe2 && b == 0x81 && c == 0x9f) || (a
        == 0xe3 && b == 0x80 && c == 0x80)
}

/// The byte length of the white-space character `s` starts with, or 0
/// when it starts with none.
pub open spec fn ws_head_len(s: Seq<u8>) -> nat {
    if s.len() >= 1 && is_ascii_ws(s[0]) {
        1
    } else if s.len() >= 2 && is_ws2(s[0], s[1]) {
        2
    } else if s.len() >= 3 && is_ws3(s[0], s[1], s[2]) {
        3
    } else {
        0
    }
}

/// The byte length of the white-space character `s` ends with, or 0
/// when it ends with none.
pub open spec fn ws_tail_len(s: Seq<u8>) -> nat {
    if s.len() >= 1 && is_ascii_ws(s[s.len() - 1]) {
        1
    } else if s.len() >= 2 && is_ws2(s[s.len() - 2], s[s.len() - 1]) {
        2
    } else if s.len() >= 3 && is_ws3(s[s.len() - 3], s[s.len() - 2], s[s.len() - 1]) {
        3
    } else {
        0
    }
}

pub open spec fn spec_trim_start(s: Seq<u8>) -> Seq<u8>
    decreases s.len(),
{
    if ws_head_len(s) > 0 {
        spec_trim_start(s.skip(ws_head_len(s) as int))
    } else {
        s
    }
}

pub open spec fn spec_trim_end(s: Seq<u8>) -> Seq<u8>
    decreases s.len(),
{
    if ws_tail_len(s) > 0 {
        spec_trim_end(s.take(s.len() - ws_tail_len(s)))
    } else {
        s
    }
}

/// The message with whitespace removed from both ends: every leading or
/// trailing UTF-8-encoded Unicode white-space character is stripped, as
/// `str::trim` strips it.
pub open spec fn spec_trim(s: Seq<u8>) -> Seq<u8> {
    spec_trim_end(spec_trim_start(s))
}

pub open spec fn is_digit(b: u8) -> bool {
    48 <= b && b <= 57
}

pub open spec fn all_digits(s: Seq<u8>) -> bool {
    forall|i: int| 0 <= i < s.len() ==> is_digit(#[trigger] s[i])
}

/// The value of a digit string read in base 10.
pub open spec fn digits_value(s: Seq<u8>) -> nat
    decreases s.len(),
{
    if s.len() == 0 {
        0
    } else {
        (digits_value(s.drop_last()) * 10 + (s[s.len() - 1] - 48)) as nat
    }
}

/// What `<n>.parse::<u32>()` yields: an optional leading `+`, then at
/// least one digit and nothing else, and a value that fits in 32 bits;
/// anything else fails.
pub open spec fn spec_parse_u32(s: Seq<u8>) -> Option<u32> {
    let body = if s.len() > 0 && s[0] == 43 {
        s.drop_first()
    } else {
        s
    };
    if body.len() > 0 && all_digits(body) && digits_value(body) <= u32::MAX {
        Some(digits_value(body) as u32)
    } else {
        None
    }
}

pub open spec fn lit_stop() -> Seq<u8> {
    seq![115u8, 116u8, 111u8, 112u8]  // "stop"
}

pub open spec fn lit_sync() -> Seq<u8> {
    seq![115u8, 121u8, 110u8, 99u8]  // "sync"
}

pub open spec fn lit_go() -> Seq<u8> {
    seq![103u8, 111u8]  // "go"
}

/// The directive a trimmed message denotes. The count of `go:<n>` is
/// everything after the colon: a remainder that is not a plain decimal
/// count — a second colon included — is a protocol violation.
pub open spec fn spec_directive_of(m: Seq<u8>) -> Directive {
    if m == lit_stop() {
        Directive::Stop
    } else if m == lit_sync() {
        Directive::Sync
    } else if m == lit_go() {
        Directive::Go
    } else if m.len() >= 3 && m[0] == 103 && m[1] == 111 && m[2] == 58 {
        match spec_parse_u32(m.skip(3)) {
            Some(n) => Directive::GoN(n),
            None => Directive::Invalid,
        }
    } else {
        Directive::Invalid
    }
}

/// A digit string's value only grows as the string extends.
proof fn lemma_digits_value_mono(s: Seq<u8>, i: int)
    requires
        0 <= i <= s.len(),
        all_digits(s),
    ensures
        digits_value(s.subrange(0, i)) <= digits_value(s),
    decreases s.len() - i,
{
    if i == s.len() {
        assert(s.subrange(0, i) =~= s);
    } else {
        let a = s.subrange(0, i);
        let b = s.subrange(0, i + 1);
        assert(b.drop_last() =~= a);
        assert(is_digit(s[i]));
        assert(b[b.len() - 1] == s[i]);
        assert(digits_value(b) == digits_value(a) * 10 + (s[i] - 48));
        assert(digits_value(a) <= digits_value(b));
        lemma_digits_value_mono(s, i + 1);
    }
}

/// The byte length of the white-space character the range `[start, end)`
/// of `v` starts with.
fn head_ws_len(v: &Vec<u8>, start: usize, end: usize) -> (k: usize)
    requires
        start <= end,
        end <= v@.len(),
    ensures
        k == ws_head_len(v@.subrange(start as int, end as int)),
{
    let len = end - start;
    proof {
        let sub = v@.subrange(start as int, end as int);
        if len >= 1 {
            assert(sub[0] == v@[start as int]);
        }
        if len >= 2 {
            assert(sub[1] == v@[start as int + 1]);
        }
        if len >= 3 {
            assert(sub[2] == v@[start as int + 2]);
        }
    }
    if len >= 1 {
        let a = v[start];
        if a == 9 || a == 10 || a == 11 || a == 12 || a == 13 || a == 32 {
            return 1;
        }
        if len >= 2 {
            let b = v[start + 1];
            if a == 0xc2 && (b == 0x85 || b == 0xa0) {
                return 2;
            }
            if len >= 3 {
                let c = v[start + 2];
                if (a == 0xe1 && b == 0x9a && c == 0x80) || (a == 0xe2 && b == 0x80 && ((0x80 <= c
                    && c <= 0x8a) || c == 0xa8 || c == 0xa9 || c == 0xaf)) || (a == 0xe2 && b
                    == 0x81 && c == 0x9f) || (a == 0xe3 && b == 0x80 && c == 0x80) {
                    return 3;
                }
            }
        }
    }
    0
}

/// The byte length of the white-space character the range `[start, end)`
/// of `v` ends with.
fn tail_ws_len(v: &Vec<u8>, start: usize, end: usize) -> (k: usize)
    requires
        start <= end,
        end <= v@.len(),
    ensures
        k == ws_tail_len(v@.subrange(start as int, end as int)),
{
    let len = end - start;
    proof {
        let sub = v@.subrange(start as int, end as int);
        if len >= 1 {
            assert(sub[sub.len() - 1] == v@[end - 1]);
        }
        if len >= 2 {
            assert(sub[sub.len() - 2] == v@[end - 2]);
        }
        if len >= 3 {
            assert(sub[sub.len() - 3] == v@[end - 3]);
        }
    }
    if len >= 1 {
        let a = v[end - 1];
        if a == 9 || a == 10 || a == 11 || a == 12 || a == 13 || a == 32 {
            return 1;
        }
        if len >= 2 {
            let b = v[end - 2];
            if b == 0xc2 && (a == 0x85 || a == 0xa0) {
                return 2;
            }
            if len >= 3 {
                let c = v[end - 3];
                if (c == 0xe1 && b == 0x9a && a == 0x80) || (c == 0xe2 && b == 0x80 && ((0x80 <= a
                    && a <= 0x8a) || a == 0xa8 || a == 0xa9 || a == 0xaf)) || (c == 0xe2 && b
                    == 0x81 && a == 0x9f) || (c == 0xe3 && b == 0x80 && a == 0x80) {
                    return 3;
                }
            }
        }
    }
    0
}

/// Remove whitespace from both ends of a message, one UTF-8-encoded
/// white-space character at a time.
pub fn trim_bytes(v: &Vec<u8>) -> (r: Vec<u8>)
    ensures
        r@ == spec_trim(v@),
{
    let n = v.len();
    proof {
        assert(v@.subrange(0, n as int) =~= v@);
    }
    let mut start: usize = 0;
    let mut k: usize = head_ws_len(v, 0, n);
    while k > 0
        invariant
            n == v@.len(),
            0 <= start <= n,
            k == ws_head_len(v@.subrange(start as int, n as int)),
            spec_trim_start(v@) == spec_trim_start(v@.subrange(start as int, n as int)),
        decreases n - start,
    {
        proof {
            let sub = v@.subrange(start as int, n as int);
            assert(k <= sub.len());
            assert(sub.skip(k as int) =~= v@.subrange(start as int + k, n as int));
        }
        start = start + k;
        k = head_ws_len(v, start, n);
    }
    proof {
        assert(spec_trim_start(v@) == v@.subrange(start as int, n as int));
    }
    let mut end: usize = n;
    let mut t: usize = tail_ws_len(v, start, end);
    while t > 0
        invariant
            n == v@.len(),
            0 <= start <= end <= n,
            spec_trim_start(v@) == v@.subrange(start as int, n as int),
            t == ws_tail_len(v@.subrange(start as int, end as int)),
            spec_trim_end(v@.subrange(start as int, n as int))
                == spec_trim_end(v@.subrange(start as int, end as int)),
        decreases end,
    {
        proof {
            let sub = v@.subrange(start as int, end as int);
            assert(t <= sub.len());
            assert(sub.take(sub.len() - t) =~= v@.subrange(start as int, end as int - t));
        }
        end = end - t;
        t = tail_ws_len(v, start, end);
    }
    proof {
        assert(spec_trim(v@) == v@.subrange(start as int, end as int));
    }
    let mut r: Vec<u8> = Vec::new();
    let mut i: usize = start;
    while i < end
        invariant
            0 <= start <= i <= end <= v@.len(),
            r@ == v@.subrange(start as int, i as int),
        decreases end - i,
    {
        r.push(v[i]);
        proof {
            assert(v@.subrange(start as int, i as int + 1)
                =~= v@.subrange(start as int, i as int) + seq![v@[i as int]]);
        }
        i = i + 1;
    }
    proof {
        assert(r@ == spec_trim(v@));
    }
    r
}

/// Read one raw pipe message as a directive: trim it, then match it
/// against the protocol's literals.
pub fn parse_directive(raw: &Vec<u8>) -> (d: Directive)
    ensures
        d == spec_directive_of(spec_trim(raw@)),
{
    let m = trim_bytes(raw);
    let len = m.len();
    if len == 4 && m[0] == 115 && m[1] == 116 && m[2] == 111 && m[3] == 112 {
        proof {
            assert(m@ =~= lit_stop());
        }
        Directive::Stop
    } else if len == 4 && m[0] == 115 && m[1] == 121 && m[2] == 110 && m[3] == 99 {
        proof {
            assert(m@ =~= lit_sync());
        }
        Directive::Sync
    } else if len == 2 && m[0] == 103 && m[1] == 111 {
        proof {
            assert(m@ =~= lit_go());
        }
        Directive::Go
    } else if len >= 3 && m[0] == 103 && m[1] == 111 && m[2] == 58 {
        proof {
            assert(m@ != lit_stop());
            assert(m@ != lit_sync());
            assert(m@ != lit_go());
        }
        parse_go_count(&m)
    } else {
        proof {
            if m@ == lit_stop() {
                assert(len == 4 && m@[0] == 115 && m@[1] == 116 && m@[2] == 111 && m@[3] == 112);
            }
            if m@ == lit_sync() {
                assert(len == 4 && m@[0] == 115 && m@[1] == 121 && m@[2] == 110 && m@[3] == 99);
            }
            if m@ == lit_go() {
                assert(len == 2 && m@[0] == 103 && m@[1] == 111);
            }
        }
        Directive::Invalid
    }
}

/// The `go:<n>` arm: parse the whole remainder of a trimmed message
/// that starts with `go:` as the count.
#[verifier::loop_isolation(false)]
fn parse_go_count(m: &Vec<u8>) -> (d: Directive)
    requires
        m@.len() >= 3,
        m@[0] == 103,
        m@[1] == 111,
        m@[2] == 58,
    ensures
        d == (match spec_parse_u32(m@.skip(3)) {
            Some(n) => Directive::GoN(n),
            None => Directive::Invalid,
        }),
{
    let len = m.len();
    proof {
        assert(m@.skip(3) =~= m@.subrange(3, len as int));
    }
    // Optional leading '+', as u32's own parser accepts.
    let d0: usize = if 3 < len && m[3] == 43 {
        4
    } else {
        3
    };
    proof {
        let seg = m@.subrange(3, len as int);
        let body = if seg.len() > 0 && seg[0] == 43 {
            seg.drop_first()
        } else {
            seg
        };
        if 3 < len && m@[3] == 43 {
            assert(seg[0] == m@[3]);
            assert(body =~= m@.subrange(4, len as int));
        } else {
            if seg.len() > 0 {
                assert(seg[0] == m@[3]);
            }
            assert(body =~= m@.subrange(3, len as int));
        }
        assert(body == m@.subrange(d0 as int, len as int));
    }
    if d0 == len {
        // Empty digit string: the count does not parse.
        return Directive::Invalid;
    }
    let mut acc: u64 = 0;
    let mut i: usize = d0;
    while i < len
        invariant
            3 <= d0 <= i <= len,
            acc <= u32::MAX,
            acc == digits_value(m@.subrange(d0 as int, i as int)),
            all_digits(m@.subrange(d0 as int, i as int)),
        decreases len - i,
    {
        let b = m[i];
        proof {
            assert(m@.subrange(d0 as int, i as int + 1).drop_last()
                =~= m@.subrange(d0 as int, i as int));
            assert(m@.subrange(d0 as int, i as int + 1)[i - d0] == m@[i as int]);
        }
        if b < 48 || b > 57 {
            // A non-digit — a second colon included: the count does not
            // parse.
            proof {
                let body = m@.subrange(d0 as int, len as int);
                assert(body[i - d0] == m@[i as int]);
                assert(!all_digits(body));
            }
            return Directive::Invalid;
        }
        let next: u64 = acc * 10 + ((b - 48) as u64);
        if next > 0xffff_ffff {
            // The value exceeds u32: the count does not parse.
            proof {
                let body = m@.subrange(d0 as int, len as int);
                if all_digits(body) {
                    assert(body.subrange(0, i - d0 + 1) =~= m@.subrange(d0 as int, i as int + 1));
                    assert(digits_value(m@.subrange(d0 as int, i as int + 1)) == next);
                    lemma_digits_value_mono(body, i - d0 + 1);
                }
            }
            return Directive::Invalid;
        }
        acc = next;
        i = i + 1;
    }
    proof {
        let body = m@.subrange(d0 as int, len as int);
        assert(body.len() > 0);
        assert(digits_value(body) == acc);
    }
    Directive::GoN(acc as u32)
}

} // verus!
