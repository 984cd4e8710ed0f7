//! The mapping-file codec.
//!
//! A mapping file is structured, human-readable text: one object whose
//! single key `mapping` holds an ordered list of records, each record an
//! object with the four fields `src`, `dst`, `force` and `junction`, in that
//! order.  The writer emits the canonical pretty-printed form (two-space
//! indent); the reader skips whitespace freely but is otherwise strict: an
//! unknown, missing, repeated or misordered field, a malformed escape, or
//! trailing text fails the whole read.
//!
//! Both directions are defined here as spec functions on byte sequences,
//! the executable writer and reader are proved against them, and reading
//! back a written file is proved to yield the original records.

use vstd::prelude::*;

use crate::errors::CodecError;

verus! {

/// One persisted link operation.
#[derive(Clone, Debug)]
pub struct MappingRecord {
    pub src: Vec<u8>,
    pub dst: Vec<u8>,
    pub force: bool,
    pub junction: bool,
}

/// Spec-level mirror of [`MappingRecord`].
pub struct RecordV {
    pub src: Seq<u8>,
    pub dst: Seq<u8>,
    pub force: bool,
    pub junction: bool,
}

pub open spec fn record_view(r: MappingRecord) -> RecordV {
    RecordV { src: r.src@, dst: r.dst@, force: r.force, junction: r.junction }
}

pub open spec fn records_view(rs: Seq<MappingRecord>) -> Seq<RecordV> {
    rs.map_values(|r: MappingRecord| record_view(r))
}

// ---------------------------------------------------------------------------
// Writing.
// ---------------------------------------------------------------------------

/// Lower-case hexadecimal digit for a value below 16.
pub open spec fn hex_digit(n: u8) -> u8 {
    if n < 10 {
        (48 + n) as u8
    } else {
        (87 + n) as u8
    }
}

/// The escape of one byte inside a quoted string: quote and backslash get a
/// backslash, the named control characters their short escapes, other
/// control bytes a `\u00..` escape, and everything else stands for itself.
pub open spec fn esc_byte(b: u8) -> Seq<u8> {
    if b == 34 {
        seq![92u8, 34u8]
    } else if b == 92 {
        seq![92u8, 92u8]
    } else if b == 8 {
        seq![92u8, 98u8]
    } else if b == 9 {
        seq![92u8, 116u8]
    } else if b == 10 {
        seq![92u8, 110u8]
    } else if b == 12 {
        seq![92u8, 102u8]
    } else if b == 13 {
        seq![92u8, 114u8]
    } else if b < 32 {
        seq![92u8, 117u8, 48u8, 48u8, hex_digit(b / 16), hex_digit(b % 16)]
    } else {
        seq![b]
    }
}

/// The escaped text of `s` from position `i` on.
pub open spec fn esc_from(s: Seq<u8>, i: int) -> Seq<u8>
    decreases s.len() - i,
{
    if i < 0 || i >= s.len() {
        Seq::empty()
    } else {
        esc_byte(s[i]) + esc_from(s, i + 1)
    }
}

/// `true` or `false`.
pub open spec fn bool_text(b: bool) -> Seq<u8> {
    if b {
        seq![116u8, 114u8, 117u8, 101u8]
    } else {
        seq![102u8, 97u8, 108u8, 115u8, 101u8]
    }
}

/// `{` newline, two spaces, `"mapping": [`.
pub open spec fn head_bytes() -> Seq<u8> {
    seq![123u8, 10u8, 32u8, 32u8, 34u8, 109u8, 97u8, 112u8, 112u8, 105u8, 110u8, 103u8, 34u8,
        58u8, 32u8, 91u8]
}

/// Four spaces, `{`, newline.
pub open spec fn rec_open_bytes() -> Seq<u8> {
    seq![32u8, 32u8, 32u8, 32u8, 123u8, 10u8]
}

/// Six spaces, `"src": "`.
pub open spec fn src_key_bytes() -> Seq<u8> {
    seq![32u8, 32u8, 32u8, 32u8, 32u8, 32u8, 34u8, 115u8, 114u8, 99u8, 34u8, 58u8, 32u8, 34u8]
}

/// Six spaces, `"dst": "`.
pub open spec fn dst_key_bytes() -> Seq<u8> {
    seq![32u8, 32u8, 32u8, 32u8, 32u8, 32u8, 34u8, 100u8, 115u8, 116u8, 34u8, 58u8, 32u8, 34u8]
}

/// Six spaces, `"force": `.
pub open spec fn force_key_bytes() -> Seq<u8> {
    seq![32u8, 32u8, 32u8, 32u8, 32u8, 32u8, 34u8, 102u8, 111u8, 114u8, 99u8, 101u8, 34u8, 58u8,
        32u8]
}

/// Six spaces, `"junction": `.
pub open spec fn junction_key_bytes() -> Seq<u8> {
    seq![32u8, 32u8, 32u8, 32u8, 32u8, 32u8, 34u8, 106u8, 117u8, 110u8, 99u8, 116u8, 105u8, 111u8,
        110u8, 34u8, 58u8, 32u8]
}

/// Closing quote, comma, newline after a string field.
pub open spec fn quote_comma_bytes() -> Seq<u8> {
    seq![34u8, 44u8, 10u8]
}

/// Comma, newline after a bare field.
pub open spec fn comma_nl_bytes() -> Seq<u8> {
    seq![44u8, 10u8]
}

/// Newline, four spaces, `}` closing a record.
pub open spec fn rec_close_bytes() -> Seq<u8> {
    seq![10u8, 32u8, 32u8, 32u8, 32u8, 125u8]
}

/// Newline, two spaces, `]`, newline, `}` closing a non-empty file.
pub open spec fn tail_bytes() -> Seq<u8> {
    seq![10u8, 32u8, 32u8, 93u8, 10u8, 125u8]
}

/// `]`, newline, `}` closing an empty file.
pub open spec fn empty_tail_bytes() -> Seq<u8> {
    seq![93u8, 10u8, 125u8]
}

/// The text of one record.
pub open spec fn rec_bytes(r: RecordV) -> Seq<u8> {
    rec_open_bytes() + src_key_bytes() + esc_from(r.src, 0) + quote_comma_bytes()
        + dst_key_bytes() + esc_from(r.dst, 0) + quote_comma_bytes() + force_key_bytes()
        + bool_text(r.force) + comma_nl_bytes() + junction_key_bytes() + bool_text(r.junction)
        + rec_close_bytes()
}

/// The text of the records from `i` on, comma-separated.
pub open spec fn recs_bytes(rs: Seq<RecordV>, i: int) -> Seq<u8>
    decreases rs.len() - i,
{
    if i < 0 || i >= rs.len() {
        Seq::empty()
    } else if i + 1 < rs.len() {
        rec_bytes(rs[i]) + comma_nl_bytes() + recs_bytes(rs, i + 1)
    } else {
        rec_bytes(rs[i])
    }
}

/// The text of a whole mapping file.
pub open spec fn file_bytes(rs: Seq<RecordV>) -> Seq<u8> {
    if rs.len() == 0 {
        head_bytes() + empty_tail_bytes()
    } else {
        head_bytes() + seq![10u8] + recs_bytes(rs, 0) + tail_bytes()
    }
}

/// Append the escaped text of `s`.
fn push_escaped(out: &mut Vec<u8>, s: &Vec<u8>)
    ensures
        final(out)@ == old(out)@ + esc_from(s@, 0),
{
    let mut i: usize = 0;
    while i < s.len()
        invariant
            i <= s.len(),
            old(out)@ + esc_from(s@, 0) =~= out@ + esc_from(s@, i as int),
        decreases s.len() - i,
    {
        let b = s[i];
        if b == 34 {
            out.push(92);
            out.push(34);
        } else if b == 92 {
            out.push(92);
            out.push(92);
        } else if b == 8 {
            out.push(92);
            out.push(98);
        } else if b == 9 {
            out.push(92);
            out.push(116);
        } else if b == 10 {
            out.push(92);
            out.push(110);
        } else if b == 12 {
            out.push(92);
            out.push(102);
        } else if b == 13 {
            out.push(92);
            out.push(114);
        } else if b < 32 {
            out.push(92);
            out.push(117);
            out.push(48);
            out.push(48);
            let hi = b / 16;
            let lo = b % 16;
            out.push(if hi < 10 { 48 + hi } else { 87 + hi });
            out.push(if lo < 10 { 48 + lo } else { 87 + lo });
        } else {
            out.push(b);
        }
        proof {
            assert(esc_from(s@, i as int) == esc_byte(s@[i as int]) + esc_from(s@, i + 1));
            assert(old(out)@ + esc_from(s@, 0) =~= out@ + esc_from(s@, i + 1));
        }
        i += 1;
    }
    proof {
        assert(out@ =~= old(out)@ + esc_from(s@, 0));
    }
}

/// Append `true` or `false`.
fn push_bool(out: &mut Vec<u8>, b: bool)
    ensures
        final(out)@ == old(out)@ + bool_text(b),
{
    if b {
        out.push(116);
        out.push(114);
        out.push(117);
        out.push(101);
    } else {
        out.push(102);
        out.push(97);
        out.push(108);
        out.push(115);
        out.push(101);
    }
    proof {
        assert(out@ =~= old(out)@ + bool_text(b));
    }
}

fn push_rec_open(out: &mut Vec<u8>)
    ensures
        final(out)@ == old(out)@ + rec_open_bytes(),
{
    out.push(32);
    out.push(32);
    out.push(32);
    out.push(32);
    out.push(123);
    out.push(10);
    proof {
        assert(out@ =~= old(out)@ + rec_open_bytes());
    }
}

fn push_src_key(out: &mut Vec<u8>)
    ensures
        final(out)@ == old(out)@ + src_key_bytes(),
{
    out.push(32);
    out.push(32);
    out.push(32);
    out.push(32);
    out.push(32);
    out.push(32);
    out.push(34);
    out.push(115);
    out.push(114);
    out.push(99);
    out.push(34);
    out.push(58);
    out.push(32);
    out.push(34);
    proof {
        assert(out@ =~= old(out)@ + src_key_bytes());
    }
}

fn push_dst_key(out: &mut Vec<u8>)
    ensures
        final(out)@ == old(out)@ + dst_key_bytes(),
{
    out.push(32);
    out.push(32);
    out.push(32);
    out.push(32);
    out.push(32);
    out.push(32);
    out.push(34);
    out.push(100);
    out.push(115);
    out.push(116);
    out.push(34);
    out.push(58);
    out.push(32);
    out.push(34);
    proof {
        assert(out@ =~= old(out)@ + dst_key_bytes());
    }
}

fn push_force_key(out: &mut Vec<u8>)
    ensures
        final(out)@ == old(out)@ + force_key_bytes(),
{
    out.push(32);
    out.push(32);
    out.push(32);
    out.push(32);
    out.push(32);
    out.push(32);
    out.push(34);
    out.push(102);
    out.push(111);
    out.push(114);
    out.push(99);
    out.push(101);
    out.push(34);
    out.push(58);
    out.push(32);
    proof {
        assert(out@ =~= old(out)@ + force_key_bytes());
    }
}

fn push_junction_key(out: &mut Vec<u8>)
    ensures
        final(out)@ == old(out)@ + junction_key_bytes(),
{
    out.push(32);
    out.push(32);
    out.push(32);
    out.push(32);
    out.push(32);
    out.push(32);
    out.push(34);
    out.push(106);
    out.push(117);
    out.push(110);
    out.push(99);
    out.push(116);
    out.push(105);
    out.push(111);
    out.push(110);
    out.push(34);
    out.push(58);
    out.push(32);
    proof {
        assert(out@ =~= old(out)@ + junction_key_bytes());
    }
}

fn push_quote_comma(out: &mut Vec<u8>)
    ensures
        final(out)@ == old(out)@ + quote_comma_bytes(),
{
    out.push(34);
    out.push(44);
    out.push(10);
    proof {
        assert(out@ =~= old(out)@ + quote_comma_bytes());
    }
}

fn push_comma_nl(out: &mut Vec<u8>)
    ensures
        final(out)@ == old(out)@ + comma_nl_bytes(),
{
    out.push(44);
    out.push(10);
    proof {
        assert(out@ =~= old(out)@ + comma_nl_bytes());
    }
}

fn push_rec_close(out: &mut Vec<u8>)
    ensures
        final(out)@ == old(out)@ + rec_close_bytes(),
{
    out.push(10);
    out.push(32);
    out.push(32);
    out.push(32);
    out.push(32);
    out.push(125);
    proof {
        assert(out@ =~= old(out)@ + rec_close_bytes());
    }
}

fn push_head(out: &mut Vec<u8>)
    ensures
        final(out)@ == old(out)@ + head_bytes(),
{
    out.push(123);
    out.push(10);
    out.push(32);
    out.push(32);
    out.push(34);
    out.push(109);
    out.push(97);
    out.push(112);
    out.push(112);
    out.push(105);
    out.push(110);
    out.push(103);
    out.push(34);
    out.push(58);
    out.push(32);
    out.push(91);
    proof {
        assert(out@ =~= old(out)@ + head_bytes());
    }
}

/// Append the text of one record.
fn push_record(out: &mut Vec<u8>, r: &MappingRecord)
    ensures
        final(out)@ == old(out)@ + rec_bytes(record_view(*r)),
{
    push_rec_open(out);
    push_src_key(out);
    push_escaped(out, &r.src);
    push_quote_comma(out);
    push_dst_key(out);
    push_escaped(out, &r.dst);
    push_quote_comma(out);
    push_force_key(out);
    push_bool(out, r.force);
    push_comma_nl(out);
    push_junction_key(out);
    push_bool(out, r.junction);
    push_rec_close(out);
    proof {
        assert(out@ =~= old(out)@ + rec_bytes(record_view(*r)));
    }
}

/// Serialize an ordered list of records as the canonical mapping-file text.
#[verifier::rlimit(100)]
pub fn write_mapping_file(records: &Vec<MappingRecord>) -> (out: Vec<u8>)
    ensures
        out@ == file_bytes(records_view(records@)),
{
    let ghost rsv = records_view(records@);
    let mut out: Vec<u8> = Vec::new();
    push_head(&mut out);
    if records.len() == 0 {
        out.push(93);
        out.push(10);
        out.push(125);
        proof {
            assert(out@ =~= file_bytes(rsv));
        }
        return out;
    }
    out.push(10);
    let mut i: usize = 0;
    while i + 1 < records.len()
        invariant
            i < records.len(),
            records.len() == rsv.len(),
            forall|j: int| 0 <= j < rsv.len() ==> rsv[j] == record_view(records@[j]),
            out@ + recs_bytes(rsv, i as int) =~= head_bytes() + seq![10u8] + recs_bytes(rsv, 0),
        decreases records.len() - i,
    {
        push_record(&mut out, &records[i]);
        out.push(44);
        out.push(10);
        proof {
            assert(recs_bytes(rsv, i as int) == rec_bytes(rsv[i as int]) + comma_nl_bytes()
                + recs_bytes(rsv, i + 1));
            assert(out@ + recs_bytes(rsv, i + 1) =~= head_bytes() + seq![10u8] + recs_bytes(
                rsv,
                0,
            ));
        }
        i += 1;
    }
    push_record(&mut out, &records[i]);
    proof {
        assert(recs_bytes(rsv, i as int) == rec_bytes(rsv[i as int]));
        assert(out@ =~= head_bytes() + seq![10u8] + recs_bytes(rsv, 0));
    }
    out.push(10);
    out.push(32);
    out.push(32);
    out.push(93);
    out.push(10);
    out.push(125);
    proof {
        assert(out@ =~= file_bytes(rsv));
    }
    out
}

// ---------------------------------------------------------------------------
// Parsing.
// ---------------------------------------------------------------------------

/// JSON whitespace.
pub open spec fn is_ws(b: u8) -> bool {
    b == 32 || b == 9 || b == 10 || b == 13
}

/// The input with its leading whitespace removed.
pub open spec fn skip_ws(s: Seq<u8>) -> Seq<u8>
    decreases s.len(),
{
    if s.len() > 0 && is_ws(s[0]) {
        skip_ws(s.skip(1))
    } else {
        s
    }
}

/// The byte a short escape stands for.
pub open spec fn unescape_short(c: u8) -> Option<u8> {
    if c == 34 {
        Some(34u8)
    } else if c == 92 {
        Some(92u8)
    } else if c == 47 {
        Some(47u8)
    } else if c == 98 {
        Some(8u8)
    } else if c == 102 {
        Some(12u8)
    } else if c == 110 {
        Some(10u8)
    } else if c == 114 {
        Some(13u8)
    } else if c == 116 {
        Some(9u8)
    } else {
        None
    }
}

/// Lower-case hexadecimal digit?
pub open spec fn is_hex(c: u8) -> bool {
    (48 <= c && c <= 57) || (97 <= c && c <= 102)
}

/// Value of a lower-case hexadecimal digit.
pub open spec fn hex_val(c: u8) -> int {
    if 48 <= c && c <= 57 {
        c - 48
    } else {
        c - 87
    }
}

/// The body of a quoted string, from just after the opening quote to the
/// closing quote: the decoded bytes and the input after the closing quote.
/// Unescaped control bytes, bad escapes, and `\u` escapes at or above 0x80
/// are rejected.
pub open spec fn parse_string_body(s: Seq<u8>) -> Option<(Seq<u8>, Seq<u8>)>
    decreases s.len(),
{
    if s.len() == 0 {
        None
    } else if s[0] == 34 {
        Some((Seq::empty(), s.skip(1)))
    } else if s[0] == 92 {
        if s.len() < 2 {
            None
        } else if s[1] == 117 {
            if s.len() >= 6 && is_hex(s[2]) && is_hex(s[3]) && is_hex(s[4]) && is_hex(s[5]) {
                let v = hex_val(s[2]) * 4096 + hex_val(s[3]) * 256 + hex_val(s[4]) * 16 + hex_val(
                    s[5],
                );
                if v < 128 {
                    match parse_string_body(s.skip(6)) {
                        Some(tr) => Some((seq![v as u8] + tr.0, tr.1)),
                        None => None,
                    }
                } else {
                    None
                }
            } else {
                None
            }
        } else {
            match unescape_short(s[1]) {
                Some(b) => match parse_string_body(s.skip(2)) {
                    Some(tr) => Some((seq![b] + tr.0, tr.1)),
                    None => None,
                },
                None => None,
            }
        }
    } else if s[0] >= 32 {
        match parse_string_body(s.skip(1)) {
            Some(tr) => Some((seq![s[0]] + tr.0, tr.1)),
            None => None,
        }
    } else {
        None
    }
}

/// Consume one expected byte.
pub open spec fn expect_byte(s: Seq<u8>, b: u8) -> Option<Seq<u8>> {
    if s.len() > 0 && s[0] == b {
        Some(s.skip(1))
    } else {
        None
    }
}

/// `true` or `false`.
pub open spec fn parse_bool(s: Seq<u8>) -> Option<(bool, Seq<u8>)> {
    if s.len() >= 4 && s[0] == 116 && s[1] == 114 && s[2] == 117 && s[3] == 101 {
        Some((true, s.skip(4)))
    } else if s.len() >= 5 && s[0] == 102 && s[1] == 97 && s[2] == 108 && s[3] == 115 && s[4]
        == 101 {
        Some((false, s.skip(5)))
    } else {
        None
    }
}

/// `src`.
pub open spec fn key_src() -> Seq<u8> {
    seq![115u8, 114u8, 99u8]
}

/// `dst`.
pub open spec fn key_dst() -> Seq<u8> {
    seq![100u8, 115u8, 116u8]
}

/// `force`.
pub open spec fn key_force() -> Seq<u8> {
    seq![102u8, 111u8, 114u8, 99u8, 101u8]
}

/// `junction`.
pub open spec fn key_junction() -> Seq<u8> {
    seq![106u8, 117u8, 110u8, 99u8, 116u8, 105u8, 111u8, 110u8]
}

/// `mapping`.
pub open spec fn key_mapping() -> Seq<u8> {
    seq![109u8, 97u8, 112u8, 112u8, 105u8, 110u8, 103u8]
}

/// A quoted key that must equal `key`, followed by a colon; yields the
/// input after the colon.
pub open spec fn parse_key(s: Seq<u8>, key: Seq<u8>) -> Option<Seq<u8>> {
    match expect_byte(skip_ws(s), 34) {
        Some(s1) => match parse_string_body(s1) {
            Some(kr) => if kr.0 == key {
                expect_byte(skip_ws(kr.1), 58)
            } else {
                None
            },
            None => None,
        },
        None => None,
    }
}

/// A `"key": "value"` field.
pub open spec fn parse_string_field(s: Seq<u8>, key: Seq<u8>) -> Option<(Seq<u8>, Seq<u8>)> {
    match parse_key(s, key) {
        Some(s2) => match expect_byte(skip_ws(s2), 34) {
            Some(s3) => parse_string_body(s3),
            None => None,
        },
        None => None,
    }
}

/// A `"key": true|false` field.
pub open spec fn parse_bool_field(s: Seq<u8>, key: Seq<u8>) -> Option<(bool, Seq<u8>)> {
    match parse_key(s, key) {
        Some(s2) => parse_bool(skip_ws(s2)),
        None => None,
    }
}

/// One record object, fields in canonical order.
pub open spec fn parse_record(s: Seq<u8>) -> Option<(RecordV, Seq<u8>)> {
    match expect_byte(skip_ws(s), 123) {
        Some(s1) => match parse_string_field(s1, key_src()) {
            Some((src, s2)) => match expect_byte(skip_ws(s2), 44) {
                Some(s3) => match parse_string_field(s3, key_dst()) {
                    Some((dst, s4)) => match expect_byte(skip_ws(s4), 44) {
                        Some(s5) => match parse_bool_field(s5, key_force()) {
                            Some((force, s6)) => match expect_byte(skip_ws(s6), 44) {
                                Some(s7) => match parse_bool_field(s7, key_junction()) {
                                    Some((junction, s8)) => match expect_byte(skip_ws(s8), 125) {
                                        Some(s9) => Some(
                                            (RecordV { src, dst, force, junction }, s9),
                                        ),
                                        None => None,
                                    },
                                    None => None,
                                },
                                None => None,
                            },
                            None => None,
                        },
                        None => None,
                    },
                    None => None,
                },
                None => None,
            },
            None => None,
        },
        None => None,
    }
}

/// A non-empty comma-separated record list, up to and including the closing
/// `]`; yields the input after the bracket.
pub open spec fn parse_records(s: Seq<u8>, fuel: nat) -> Option<(Seq<RecordV>, Seq<u8>)>
    decreases fuel,
{
    if fuel == 0 {
        None
    } else {
        match parse_record(s) {
            Some((r, s1)) => {
                let s2 = skip_ws(s1);
                if s2.len() > 0 && s2[0] == 44 {
                    match parse_records(s2.skip(1), (fuel - 1) as nat) {
                        Some((rs, s3)) => Some((seq![r] + rs, s3)),
                        None => None,
                    }
                } else if s2.len() > 0 && s2[0] == 93 {
                    Some((seq![r], s2.skip(1)))
                } else {
                    None
                }
            },
            None => None,
        }
    }
}

/// A whole mapping file.  Trailing text after the closing brace is
/// rejected.
pub open spec fn parse_file(s: Seq<u8>) -> Option<Seq<RecordV>> {
    match expect_byte(skip_ws(s), 123) {
        Some(s1) => match parse_key(s1, key_mapping()) {
            Some(s2) => match expect_byte(skip_ws(s2), 91) {
                Some(s3) => {
                    let s4 = skip_ws(s3);
                    if s4.len() > 0 && s4[0] == 93 {
                        match expect_byte(skip_ws(s4.skip(1)), 125) {
                            Some(s5) => if skip_ws(s5).len() == 0 {
                                Some(Seq::empty())
                            } else {
                                None
                            },
                            None => None,
                        }
                    } else {
                        match parse_records(s4, s4.len()) {
                            Some((rs, s5)) => match expect_byte(skip_ws(s5), 125) {
                                Some(s6) => if skip_ws(s6).len() == 0 {
                                    Some(rs)
                                } else {
                                    None
                                },
                                None => None,
                            },
                            None => None,
                        }
                    }
                },
                None => None,
            },
            None => None,
        },
        None => None,
    }
}

// ---------------------------------------------------------------------------
// The round trip: reading a written file yields the written records.
// ---------------------------------------------------------------------------

/// Only whitespace bytes.
pub open spec fn ws_only(w: Seq<u8>) -> bool {
    forall|k: int| 0 <= k < w.len() ==> is_ws(#[trigger] w[k])
}

/// Bytes that escape to themselves.
pub open spec fn plain_bytes(s: Seq<u8>) -> bool {
    forall|k: int| 0 <= k < s.len() ==> 32 <= #[trigger] s[k] && s[k] != 34 && s[k] != 92
}

/// Leading whitespace is skipped through a concatenation.
proof fn lemma_skip_ws_all(w: Seq<u8>, s: Seq<u8>)
    requires
        ws_only(w),
    ensures
        skip_ws(w + s) == skip_ws(s),
    decreases w.len(),
{
    if w.len() == 0 {
        assert(w + s =~= s);
    } else {
        assert((w + s).skip(1) =~= w.skip(1) + s);
        lemma_skip_ws_all(w.skip(1), s);
    }
}

/// Skipping is idempotent.
proof fn lemma_skip_ws_idem(s: Seq<u8>)
    ensures
        skip_ws(skip_ws(s)) == skip_ws(s),
    decreases s.len(),
{
    if s.len() > 0 && is_ws(s[0]) {
        lemma_skip_ws_idem(s.skip(1));
    }
}

/// A record parse does not see leading whitespace.
proof fn lemma_parse_record_ws(s: Seq<u8>)
    ensures
        parse_record(skip_ws(s)) == parse_record(s),
{
    lemma_skip_ws_idem(s);
}

/// Nor does a record-list parse.
proof fn lemma_parse_records_ws(s: Seq<u8>, fuel: nat)
    ensures
        parse_records(skip_ws(s), fuel) == parse_records(s, fuel),
{
    if fuel > 0 {
        lemma_parse_record_ws(s);
    }
}

/// Escaping does nothing to plain bytes.
proof fn lemma_esc_plain(s: Seq<u8>, i: int)
    requires
        plain_bytes(s),
        0 <= i <= s.len(),
    ensures
        esc_from(s, i) == s.skip(i),
    decreases s.len() - i,
{
    if i < s.len() {
        lemma_esc_plain(s, i + 1);
        assert(esc_byte(s[i]) == seq![s[i]]);
        assert(seq![s[i]] + s.skip(i + 1) =~= s.skip(i));
    } else {
        assert(s.skip(i) =~= Seq::<u8>::empty());
    }
}

/// Parsing the escaped text of `s` (from `i` on) up to a closing quote
/// recovers the text and leaves the rest.
proof fn lemma_parse_esc(s: Seq<u8>, i: int, rest: Seq<u8>)
    requires
        0 <= i <= s.len(),
    ensures
        parse_string_body(esc_from(s, i) + (seq![34u8] + rest)) == Some(
            (s.skip(i), rest),
        ),
    decreases s.len() - i,
{
    let input = esc_from(s, i) + (seq![34u8] + rest);
    if i == s.len() {
        assert(input =~= seq![34u8] + rest);
        assert((seq![34u8] + rest).skip(1) =~= rest);
        assert(s.skip(i) =~= Seq::<u8>::empty());
    } else {
        let b = s[i];
        let t = esc_from(s, i + 1) + (seq![34u8] + rest);
        lemma_parse_esc(s, i + 1, rest);
        assert(input =~= esc_byte(b) + t);
        if b == 34 || b == 92 {
            assert(input =~= seq![92u8, b] + t);
            assert(input.skip(2) =~= t);
            assert(seq![b] + s.skip(i + 1) =~= s.skip(i));
        } else if b == 8 || b == 9 || b == 10 || b == 12 || b == 13 {
            assert(input.skip(2) =~= t);
            assert(seq![b] + s.skip(i + 1) =~= s.skip(i));
        } else if b < 32 {
            let h1 = hex_digit(b / 16);
            let h2 = hex_digit(b % 16);
            assert(input =~= seq![92u8, 117u8, 48u8, 48u8, h1, h2] + t);
            assert(input.skip(6) =~= t);
            assert(is_hex(h1) && is_hex(h2));
            assert(hex_val(h1) == b / 16 && hex_val(h2) == b % 16);
            let v = hex_val(input[2]) * 4096 + hex_val(input[3]) * 256 + hex_val(input[4]) * 16
                + hex_val(input[5]);
            assert(v == b);
            assert(seq![v as u8] + s.skip(i + 1) =~= s.skip(i));
        } else {
            assert(input.skip(1) =~= t);
            assert(seq![b] + s.skip(i + 1) =~= s.skip(i));
        }
    }
}

/// Parsing the text of a boolean recovers it.
proof fn lemma_parse_bool_text(b: bool, rest: Seq<u8>)
    ensures
        parse_bool(bool_text(b) + rest) == Some((b, rest)),
{
    if b {
        assert((bool_text(true) + rest).skip(4) =~= rest);
    } else {
        assert((bool_text(false) + rest).skip(5) =~= rest);
    }
}

/// Parsing a written `"key":` part succeeds and yields what follows the
/// colon.
proof fn lemma_parse_key_at(w: Seq<u8>, key: Seq<u8>, rest: Seq<u8>)
    requires
        ws_only(w),
        plain_bytes(key),
    ensures
        parse_key(w + (seq![34u8] + (key + (seq![34u8, 58u8] + rest))), key) == Some(rest),
{
    let core = seq![34u8] + (key + (seq![34u8, 58u8] + rest));
    lemma_skip_ws_all(w, core);
    assert(skip_ws(core) == core);
    assert(core.skip(1) =~= esc_from(key, 0) + (seq![34u8] + (seq![58u8] + rest))) by {
        lemma_esc_plain(key, 0);
        assert(key.skip(0) =~= key);
    }
    lemma_parse_esc(key, 0, seq![58u8] + rest);
    assert(key.skip(0) =~= key);
    assert(skip_ws(seq![58u8] + rest) == seq![58u8] + rest);
    assert((seq![58u8] + rest).skip(1) =~= rest);
}

/// Parsing a written string field recovers its value.
proof fn lemma_parse_string_field_at(
    w: Seq<u8>,
    keychunk: Seq<u8>,
    key: Seq<u8>,
    v: Seq<u8>,
    rest: Seq<u8>,
)
    requires
        ws_only(w),
        plain_bytes(key),
        keychunk =~= seq![32u8, 32u8, 32u8, 32u8, 32u8, 32u8, 34u8] + key + seq![34u8, 58u8, 32u8,
            34u8],
    ensures
        parse_string_field(w + (keychunk + (esc_from(v, 0) + (seq![34u8] + rest))), key) == Some(
            (v, rest),
        ),
{
    let after_colon = seq![32u8, 34u8] + (esc_from(v, 0) + (seq![34u8] + rest));
    let input = w + (keychunk + (esc_from(v, 0) + (seq![34u8] + rest)));
    assert(input =~= (w + seq![32u8, 32u8, 32u8, 32u8, 32u8, 32u8]) + (seq![34u8] + (key + (seq![
        34u8, 58u8] + after_colon))));
    assert(ws_only(w + seq![32u8, 32u8, 32u8, 32u8, 32u8, 32u8]));
    lemma_parse_key_at(w + seq![32u8, 32u8, 32u8, 32u8, 32u8, 32u8], key, after_colon);
    assert(parse_key(input, key) == Some(after_colon));
    lemma_skip_ws_all(seq![32u8], seq![34u8] + (esc_from(v, 0) + (seq![34u8] + rest)));
    assert(after_colon =~= seq![32u8] + (seq![34u8] + (esc_from(v, 0) + (seq![34u8] + rest))));
    let s3 = (seq![34u8] + (esc_from(v, 0) + (seq![34u8] + rest))).skip(1);
    assert(s3 =~= esc_from(v, 0) + (seq![34u8] + rest));
    lemma_parse_esc(v, 0, rest);
    assert(v.skip(0) =~= v);
}

/// Parsing a written boolean field recovers its value.
proof fn lemma_parse_bool_field_at(
    w: Seq<u8>,
    keychunk: Seq<u8>,
    key: Seq<u8>,
    b: bool,
    rest: Seq<u8>,
)
    requires
        ws_only(w),
        plain_bytes(key),
        keychunk =~= seq![32u8, 32u8, 32u8, 32u8, 32u8, 32u8, 34u8] + key + seq![34u8, 58u8,
            32u8],
    ensures
        parse_bool_field(w + (keychunk + (bool_text(b) + rest)), key) == Some((b, rest)),
{
    let after_colon = seq![32u8] + (bool_text(b) + rest);
    let input = w + (keychunk + (bool_text(b) + rest));
    assert(input =~= (w + seq![32u8, 32u8, 32u8, 32u8, 32u8, 32u8]) + (seq![34u8] + (key + (seq![
        34u8, 58u8] + after_colon))));
    assert(ws_only(w + seq![32u8, 32u8, 32u8, 32u8, 32u8, 32u8]));
    lemma_parse_key_at(w + seq![32u8, 32u8, 32u8, 32u8, 32u8, 32u8], key, after_colon);
    assert(parse_key(input, key) == Some(after_colon));
    lemma_skip_ws_all(seq![32u8], bool_text(b) + rest);
    assert(skip_ws(bool_text(b) + rest) == bool_text(b) + rest);
    lemma_parse_bool_text(b, rest);
}

/// Record text after the junction field's comma.
pub open spec fn fd_junction(r: RecordV, rest: Seq<u8>) -> Seq<u8> {
    seq![10u8] + (junction_key_bytes() + (bool_text(r.junction) + (rec_close_bytes() + rest)))
}

/// Record text after the force value.
pub open spec fn rec_after_force(r: RecordV, rest: Seq<u8>) -> Seq<u8> {
    seq![44u8] + fd_junction(r, rest)
}

/// Record text after the dst field's comma.
pub open spec fn fd_force(r: RecordV, rest: Seq<u8>) -> Seq<u8> {
    seq![10u8] + (force_key_bytes() + (bool_text(r.force) + rec_after_force(r, rest)))
}

/// Record text after the dst value's closing quote.
pub open spec fn rec_after_dst(r: RecordV, rest: Seq<u8>) -> Seq<u8> {
    seq![44u8] + fd_force(r, rest)
}

/// Record text after the src field's comma.
pub open spec fn fd_dst(r: RecordV, rest: Seq<u8>) -> Seq<u8> {
    seq![10u8] + (dst_key_bytes() + (esc_from(r.dst, 0) + (seq![34u8] + rec_after_dst(r, rest))))
}

/// Record text after the src value's closing quote.
pub open spec fn rec_after_src(r: RecordV, rest: Seq<u8>) -> Seq<u8> {
    seq![44u8] + fd_dst(r, rest)
}

/// Record text after the opening brace.
pub open spec fn rec_after_open(r: RecordV, rest: Seq<u8>) -> Seq<u8> {
    seq![10u8] + (src_key_bytes() + (esc_from(r.src, 0) + (seq![34u8] + rec_after_src(r, rest))))
}

/// The record text decomposes into indentation, the opening brace, and the
/// remainder.
#[verifier::rlimit(100)]
#[verifier::spinoff_prover]
proof fn lemma_rec_shape(r: RecordV, rest: Seq<u8>)
    ensures
        rec_bytes(r) + rest == seq![32u8, 32u8, 32u8, 32u8] + (seq![123u8] + rec_after_open(
            r,
            rest,
        )),
{
    assert(rec_bytes(r) + rest =~= seq![32u8, 32u8, 32u8, 32u8] + (seq![123u8] + rec_after_open(
        r,
        rest,
    )));
}

/// Parsing a written record recovers it.
#[verifier::rlimit(100)]
#[verifier::spinoff_prover]
proof fn lemma_parse_rec(w: Seq<u8>, r: RecordV, rest: Seq<u8>)
    requires
        ws_only(w),
    ensures
        parse_record(w + (rec_bytes(r) + rest)) == Some((r, rest)),
{
    let input = w + (rec_bytes(r) + rest);
    lemma_rec_shape(r, rest);
    let x1 = rec_after_open(r, rest);
    assert(input =~= (w + seq![32u8, 32u8, 32u8, 32u8]) + (seq![123u8] + x1));
    assert(ws_only(w + seq![32u8, 32u8, 32u8, 32u8]));
    lemma_skip_ws_all(w + seq![32u8, 32u8, 32u8, 32u8], seq![123u8] + x1);
    assert(skip_ws(seq![123u8] + x1) == seq![123u8] + x1);
    assert((seq![123u8] + x1).skip(1) =~= x1);
    assert(expect_byte(skip_ws(input), 123) == Some(x1));

    assert(plain_bytes(key_src()));
    assert(src_key_bytes() =~= seq![32u8, 32u8, 32u8, 32u8, 32u8, 32u8, 34u8] + key_src() + seq![
        34u8, 58u8, 32u8, 34u8]);
    lemma_parse_string_field_at(seq![10u8], src_key_bytes(), key_src(), r.src, rec_after_src(
        r,
        rest,
    ));
    assert(parse_string_field(x1, key_src()) == Some((r.src, rec_after_src(r, rest))));
    let x2 = rec_after_src(r, rest);
    assert(skip_ws(x2) == x2);
    assert(x2.skip(1) =~= fd_dst(r, rest));

    assert(plain_bytes(key_dst()));
    assert(dst_key_bytes() =~= seq![32u8, 32u8, 32u8, 32u8, 32u8, 32u8, 34u8] + key_dst() + seq![
        34u8, 58u8, 32u8, 34u8]);
    lemma_parse_string_field_at(seq![10u8], dst_key_bytes(), key_dst(), r.dst, rec_after_dst(
        r,
        rest,
    ));
    assert(parse_string_field(fd_dst(r, rest), key_dst()) == Some((r.dst, rec_after_dst(r, rest))));
    let x4 = rec_after_dst(r, rest);
    assert(skip_ws(x4) == x4);
    assert(x4.skip(1) =~= fd_force(r, rest));

    assert(plain_bytes(key_force()));
    assert(force_key_bytes() =~= seq![32u8, 32u8, 32u8, 32u8, 32u8, 32u8, 34u8] + key_force()
        + seq![34u8, 58u8, 32u8]);
    lemma_parse_bool_field_at(
        seq![10u8],
        force_key_bytes(),
        key_force(),
        r.force,
        rec_after_force(r, rest),
    );
    assert(parse_bool_field(fd_force(r, rest), key_force()) == Some(
        (r.force, rec_after_force(r, rest)),
    ));
    let x6 = rec_after_force(r, rest);
    assert(skip_ws(x6) == x6);
    assert(x6.skip(1) =~= fd_junction(r, rest));

    assert(plain_bytes(key_junction()));
    assert(junction_key_bytes() =~= seq![32u8, 32u8, 32u8, 32u8, 32u8, 32u8, 34u8]
        + key_junction() + seq![34u8, 58u8, 32u8]);
    lemma_parse_bool_field_at(
        seq![10u8],
        junction_key_bytes(),
        key_junction(),
        r.junction,
        rec_close_bytes() + rest,
    );
    assert(parse_bool_field(fd_junction(r, rest), key_junction()) == Some(
        (r.junction, rec_close_bytes() + rest),
    ));

    let x8 = rec_close_bytes() + rest;
    assert(x8 =~= seq![10u8, 32u8, 32u8, 32u8, 32u8] + (seq![125u8] + rest));
    assert(ws_only(seq![10u8, 32u8, 32u8, 32u8, 32u8]));
    lemma_skip_ws_all(seq![10u8, 32u8, 32u8, 32u8, 32u8], seq![125u8] + rest);
    assert(skip_ws(seq![125u8] + rest) == seq![125u8] + rest);
    assert((seq![125u8] + rest).skip(1) =~= rest);
    assert(RecordV { src: r.src, dst: r.dst, force: r.force, junction: r.junction } == r);
}

/// Each record costs at least one byte of text.
proof fn lemma_recs_len(rs: Seq<RecordV>, i: int)
    requires
        0 <= i <= rs.len(),
    ensures
        recs_bytes(rs, i).len() >= rs.len() - i,
    decreases rs.len() - i,
{
    if i < rs.len() {
        if i + 1 < rs.len() {
            lemma_recs_len(rs, i + 1);
        }
    }
}

/// Parsing a written record list up to the closing bracket recovers the
/// records from `i` on.
#[verifier::rlimit(100)]
#[verifier::spinoff_prover]
proof fn lemma_parse_recs(w: Seq<u8>, rs: Seq<RecordV>, i: int, rest: Seq<u8>, fuel: nat)
    requires
        ws_only(w),
        0 <= i < rs.len(),
        fuel >= rs.len() - i,
    ensures
        parse_records(w + (recs_bytes(rs, i) + (seq![10u8, 32u8, 32u8, 93u8] + rest)), fuel)
            == Some((rs.skip(i), rest)),
    decreases rs.len() - i,
{
    let input = w + (recs_bytes(rs, i) + (seq![10u8, 32u8, 32u8, 93u8] + rest));
    if i + 1 < rs.len() {
        let x = seq![44u8, 10u8] + (recs_bytes(rs, i + 1) + (seq![10u8, 32u8, 32u8, 93u8]
            + rest));
        assert(input =~= w + (rec_bytes(rs[i]) + x));
        lemma_parse_rec(w, rs[i], x);
        assert(skip_ws(x) == x);
        let x1 = x.skip(1);
        assert(x1 =~= seq![10u8] + (recs_bytes(rs, i + 1) + (seq![10u8, 32u8, 32u8, 93u8]
            + rest)));
        lemma_parse_recs(seq![10u8], rs, i + 1, rest, (fuel - 1) as nat);
        assert(seq![rs[i]] + rs.skip(i + 1) =~= rs.skip(i));
    } else {
        let x = seq![10u8, 32u8, 32u8] + (seq![93u8] + rest);
        assert(input =~= w + (rec_bytes(rs[i]) + x));
        lemma_parse_rec(w, rs[i], x);
        assert(ws_only(seq![10u8, 32u8, 32u8]));
        lemma_skip_ws_all(seq![10u8, 32u8, 32u8], seq![93u8] + rest);
        assert(skip_ws(seq![93u8] + rest) == seq![93u8] + rest);
        assert((seq![93u8] + rest).skip(1) =~= rest);
        assert(seq![rs[i]] =~= rs.skip(i));
    }
}

/// Round trip: reading back a written mapping file yields exactly the
/// records that were written, in order — for every record list, whatever
/// bytes its paths hold.
#[verifier::rlimit(100)]
#[verifier::spinoff_prover]
pub proof fn lemma_write_read_round_trip(rs: Seq<RecordV>)
    ensures
        parse_file(file_bytes(rs)) == Some(rs),
{
    let input = file_bytes(rs);
    let rest3: Seq<u8> = if rs.len() == 0 {
        empty_tail_bytes()
    } else {
        seq![10u8] + recs_bytes(rs, 0) + tail_bytes()
    };
    let x1 = seq![10u8, 32u8, 32u8] + (seq![34u8] + (key_mapping() + (seq![34u8, 58u8] + (seq![
        32u8] + (seq![91u8] + rest3)))));
    assert(input =~= seq![123u8] + x1);
    assert(skip_ws(input) == input) by {
        assert(input[0] == 123);
    }
    assert(input.skip(1) =~= x1);

    // The "mapping" key.
    assert(plain_bytes(key_mapping()));
    assert(ws_only(seq![10u8, 32u8, 32u8]));
    lemma_parse_key_at(
        seq![10u8, 32u8, 32u8],
        key_mapping(),
        seq![32u8] + (seq![91u8] + rest3),
    );
    assert(parse_key(x1, key_mapping()) == Some(seq![32u8] + (seq![91u8] + rest3)));
    lemma_skip_ws_all(seq![32u8], seq![91u8] + rest3);
    assert(skip_ws(seq![91u8] + rest3) == seq![91u8] + rest3);
    assert((seq![91u8] + rest3).skip(1) =~= rest3);

    if rs.len() == 0 {
        assert(rest3 =~= seq![93u8] + (seq![10u8] + (seq![125u8] + Seq::<u8>::empty())));
        assert(skip_ws(rest3) == rest3);
        assert(rest3.skip(1) =~= seq![10u8] + (seq![125u8] + Seq::<u8>::empty()));
        lemma_skip_ws_all(seq![10u8], seq![125u8] + Seq::<u8>::empty());
        assert(skip_ws(seq![125u8] + Seq::<u8>::empty()) == seq![125u8] + Seq::<u8>::empty());
        assert((seq![125u8] + Seq::<u8>::empty()).skip(1) =~= Seq::<u8>::empty());
        assert(skip_ws(Seq::<u8>::empty()).len() == 0);
        assert(rs =~= Seq::<RecordV>::empty());
    } else {
        let close = seq![10u8, 32u8, 32u8, 93u8];
        let after = seq![10u8, 125u8];
        assert(rest3 =~= seq![10u8] + (recs_bytes(rs, 0) + (close + after)));
        let s4 = skip_ws(rest3);
        lemma_parse_records_ws(rest3, s4.len() as nat);
        // Enough fuel: skipping whitespace costs at most the record text,
        // which is at least one byte per record.
        assert(rest3 =~= (seq![10u8, 32u8, 32u8, 32u8, 32u8] + (seq![123u8] + rest3.skip(6))));
        assert(ws_only(seq![10u8, 32u8, 32u8, 32u8, 32u8]));
        lemma_skip_ws_all(seq![10u8, 32u8, 32u8, 32u8, 32u8], seq![123u8] + rest3.skip(6));
        assert(skip_ws(seq![123u8] + rest3.skip(6)) == seq![123u8] + rest3.skip(6));
        assert(s4 == seq![123u8] + rest3.skip(6));
        assert(s4.len() == rest3.len() - 5);
        lemma_recs_len(rs, 0);
        assert(s4.len() >= rs.len());
        lemma_parse_recs(seq![10u8], rs, 0, after, s4.len() as nat);
        assert(parse_records(s4, s4.len() as nat) == Some((rs.skip(0), after)));
        assert(rs.skip(0) =~= rs);
        assert(s4.len() > 0 && s4[0] == 123);
        lemma_skip_ws_all(seq![10u8], seq![125u8] + Seq::<u8>::empty());
        assert(after =~= seq![10u8] + (seq![125u8] + Seq::<u8>::empty()));
        assert(skip_ws(seq![125u8] + Seq::<u8>::empty()) == seq![125u8] + Seq::<u8>::empty());
        assert((seq![125u8] + Seq::<u8>::empty()).skip(1) =~= Seq::<u8>::empty());
        assert(skip_ws(Seq::<u8>::empty()).len() == 0);
    }
}

// ---------------------------------------------------------------------------
// The executable reader.
// ---------------------------------------------------------------------------

/// First non-whitespace position at or after `i`.
fn skip_ws_at(v: &Vec<u8>, i: usize) -> (j: usize)
    requires
        i <= v.len(),
    ensures
        i <= j <= v.len(),
        v@.skip(j as int) == skip_ws(v@.skip(i as int)),
{
    let mut k: usize = i;
    while k < v.len() && (v[k] == 32 || v[k] == 9 || v[k] == 10 || v[k] == 13)
        invariant
            i <= k <= v.len(),
            skip_ws(v@.skip(i as int)) == skip_ws(v@.skip(k as int)),
        decreases v.len() - k,
    {
        proof {
            assert(v@.skip(k as int)[0] == v@[k as int]);
            assert(v@.skip(k as int).skip(1) =~= v@.skip(k + 1));
        }
        k += 1;
    }
    proof {
        if k < v.len() {
            assert(v@.skip(k as int)[0] == v@[k as int]);
        }
        assert(skip_ws(v@.skip(k as int)) == v@.skip(k as int));
    }
    k
}

/// Decode one string body, from just after the opening quote.
fn parse_string_body_at(v: &Vec<u8>, i: usize) -> (r: Option<(Vec<u8>, usize)>)
    requires
        i <= v.len(),
    ensures
        match r {
            Some(tj) => tj.1 <= v.len() && parse_string_body(v@.skip(i as int)) == Some(
                (tj.0@, v@.skip(tj.1 as int)),
            ),
            None => parse_string_body(v@.skip(i as int)) is None,
        },
    decreases v.len() - i,
{
    let ghost s = v@.skip(i as int);
    if i == v.len() {
        return None;
    }
    let b = v[i];
    proof {
        assert(s[0] == b);
    }
    if b == 34 {
        proof {
            assert(s.skip(1) =~= v@.skip(i + 1));
        }
        return Some((Vec::new(), i + 1));
    }
    if b == 92 {
        if i + 1 >= v.len() {
            return None;
        }
        let c = v[i + 1];
        proof {
            assert(s[1] == c);
        }
        if c == 117 {
            if v.len() - i < 6 {
                proof {
                    assert(s.len() < 6);
                }
                return None;
            }
            let h2 = v[i + 2];
            let h3 = v[i + 3];
            let h4 = v[i + 4];
            let h5 = v[i + 5];
            proof {
                assert(s[2] == h2 && s[3] == h3 && s[4] == h4 && s[5] == h5);
            }
            let ok2 = (48 <= h2 && h2 <= 57) || (97 <= h2 && h2 <= 102);
            let ok3 = (48 <= h3 && h3 <= 57) || (97 <= h3 && h3 <= 102);
            let ok4 = (48 <= h4 && h4 <= 57) || (97 <= h4 && h4 <= 102);
            let ok5 = (48 <= h5 && h5 <= 57) || (97 <= h5 && h5 <= 102);
            if !(ok2 && ok3 && ok4 && ok5) {
                return None;
            }
            let d2: u32 = if h2 <= 57 { (h2 - 48) as u32 } else { (h2 - 87) as u32 };
            let d3: u32 = if h3 <= 57 { (h3 - 48) as u32 } else { (h3 - 87) as u32 };
            let d4: u32 = if h4 <= 57 { (h4 - 48) as u32 } else { (h4 - 87) as u32 };
            let d5: u32 = if h5 <= 57 { (h5 - 48) as u32 } else { (h5 - 87) as u32 };
            let val: u32 = d2 * 4096 + d3 * 256 + d4 * 16 + d5;
            if val >= 128 {
                return None;
            }
            match parse_string_body_at(v, i + 6) {
                Some((mut t, j)) => {
                    proof {
                        assert(s.skip(6) =~= v@.skip(i + 6));
                    }
                    let ghost t0 = t@;
                    t.insert(0, val as u8);
                    proof {
                        assert(t@ =~= seq![val as u8] + t0);
                    }
                    Some((t, j))
                },
                None => {
                    proof {
                        assert(s.skip(6) =~= v@.skip(i + 6));
                    }
                    None
                },
            }
        } else {
            let u: Option<u8> = if c == 34 {
                Some(34)
            } else if c == 92 {
                Some(92)
            } else if c == 47 {
                Some(47)
            } else if c == 98 {
                Some(8)
            } else if c == 102 {
                Some(12)
            } else if c == 110 {
                Some(10)
            } else if c == 114 {
                Some(13)
            } else if c == 116 {
                Some(9)
            } else {
                None
            };
            match u {
                Some(b2) => match parse_string_body_at(v, i + 2) {
                    Some((mut t, j)) => {
                        proof {
                            assert(s.skip(2) =~= v@.skip(i + 2));
                        }
                        let ghost t0 = t@;
                        t.insert(0, b2);
                        proof {
                            assert(t@ =~= seq![b2] + t0);
                        }
                        Some((t, j))
                    },
                    None => {
                        proof {
                            assert(s.skip(2) =~= v@.skip(i + 2));
                        }
                        None
                    },
                },
                None => None,
            }
        }
    } else if b >= 32 {
        match parse_string_body_at(v, i + 1) {
            Some((mut t, j)) => {
                proof {
                    assert(s.skip(1) =~= v@.skip(i + 1));
                }
                let ghost t0 = t@;
                t.insert(0, b);
                proof {
                    assert(t@ =~= seq![b] + t0);
                }
                Some((t, j))
            },
            None => {
                proof {
                    assert(s.skip(1) =~= v@.skip(i + 1));
                }
                None
            },
        }
    } else {
        None
    }
}

/// The bytes of `src`.
fn key_src_vec() -> (k: Vec<u8>)
    ensures
        k@ == key_src(),
{
    let mut k: Vec<u8> = Vec::new();
    k.push(115);
    k.push(114);
    k.push(99);
    proof {
        assert(k@ =~= key_src());
    }
    k
}

/// The bytes of `dst`.
fn key_dst_vec() -> (k: Vec<u8>)
    ensures
        k@ == key_dst(),
{
    let mut k: Vec<u8> = Vec::new();
    k.push(100);
    k.push(115);
    k.push(116);
    proof {
        assert(k@ =~= key_dst());
    }
    k
}

/// The bytes of `force`.
fn key_force_vec() -> (k: Vec<u8>)
    ensures
        k@ == key_force(),
{
    let mut k: Vec<u8> = Vec::new();
    k.push(102);
    k.push(111);
    k.push(114);
    k.push(99);
    k.push(101);
    proof {
        assert(k@ =~= key_force());
    }
    k
}

/// The bytes of `junction`.
fn key_junction_vec() -> (k: Vec<u8>)
    ensures
        k@ == key_junction(),
{
    let mut k: Vec<u8> = Vec::new();
    k.push(106);
    k.push(117);
    k.push(110);
    k.push(99);
    k.push(116);
    k.push(105);
    k.push(111);
    k.push(110);
    proof {
        assert(k@ =~= key_junction());
    }
    k
}

/// The bytes of `mapping`.
fn key_mapping_vec() -> (k: Vec<u8>)
    ensures
        k@ == key_mapping(),
{
    let mut k: Vec<u8> = Vec::new();
    k.push(109);
    k.push(97);
    k.push(112);
    k.push(112);
    k.push(105);
    k.push(110);
    k.push(103);
    proof {
        assert(k@ =~= key_mapping());
    }
    k
}

/// Parse a `"key":` part.
fn parse_key_at(v: &Vec<u8>, i: usize, key: &Vec<u8>) -> (r: Option<usize>)
    requires
        i <= v.len(),
    ensures
        match r {
            Some(j) => j <= v.len() && parse_key(v@.skip(i as int), key@) == Some(
                v@.skip(j as int),
            ),
            None => parse_key(v@.skip(i as int), key@) is None,
        },
{
    let j = skip_ws_at(v, i);
    if j == v.len() || v[j] != 34 {
        proof {
            if j < v.len() {
                assert(v@.skip(j as int)[0] == v@[j as int]);
            }
        }
        return None;
    }
    proof {
        assert(v@.skip(j as int)[0] == v@[j as int]);
        assert(v@.skip(j as int).skip(1) =~= v@.skip(j + 1));
    }
    match parse_string_body_at(v, j + 1) {
        Some((k2, j2)) => {
            if !crate::bytes::bytes_eq(&k2, key) {
                return None;
            }
            let j3 = skip_ws_at(v, j2);
            if j3 == v.len() || v[j3] != 58 {
                proof {
                    if j3 < v.len() {
                        assert(v@.skip(j3 as int)[0] == v@[j3 as int]);
                    }
                }
                return None;
            }
            proof {
                assert(v@.skip(j3 as int)[0] == v@[j3 as int]);
                assert(v@.skip(j3 as int).skip(1) =~= v@.skip(j3 + 1));
            }
            Some(j3 + 1)
        },
        None => None,
    }
}

/// Parse a `"key": "value"` field.
fn parse_string_field_at(v: &Vec<u8>, i: usize, key: &Vec<u8>) -> (r: Option<(Vec<u8>, usize)>)
    requires
        i <= v.len(),
    ensures
        match r {
            Some(tj) => tj.1 <= v.len() && parse_string_field(v@.skip(i as int), key@) == Some(
                (tj.0@, v@.skip(tj.1 as int)),
            ),
            None => parse_string_field(v@.skip(i as int), key@) is None,
        },
{
    match parse_key_at(v, i, key) {
        Some(j) => {
            let j2 = skip_ws_at(v, j);
            if j2 == v.len() || v[j2] != 34 {
                proof {
                    if j2 < v.len() {
                        assert(v@.skip(j2 as int)[0] == v@[j2 as int]);
                    }
                }
                return None;
            }
            proof {
                assert(v@.skip(j2 as int)[0] == v@[j2 as int]);
                assert(v@.skip(j2 as int).skip(1) =~= v@.skip(j2 + 1));
            }
            parse_string_body_at(v, j2 + 1)
        },
        None => None,
    }
}

/// Parse `true` or `false` at position `i`.
fn parse_bool_at(v: &Vec<u8>, i: usize) -> (r: Option<(bool, usize)>)
    requires
        i <= v.len(),
    ensures
        match r {
            Some(bj) => bj.1 <= v.len() && parse_bool(v@.skip(i as int)) == Some(
                (bj.0, v@.skip(bj.1 as int)),
            ),
            None => parse_bool(v@.skip(i as int)) is None,
        },
{
    let ghost s = v@.skip(i as int);
    proof {
        assert(forall|k: int| 0 <= k < s.len() ==> #[trigger] s[k] == v@[i + k]);
    }
    if v.len() - i >= 4 && v[i] == 116 && v[i + 1] == 114 && v[i + 2] == 117 && v[i + 3] == 101 {
        proof {
            assert(s.skip(4) =~= v@.skip(i + 4));
        }
        Some((true, i + 4))
    } else if v.len() - i >= 5 && v[i] == 102 && v[i + 1] == 97 && v[i + 2] == 108 && v[i + 3]
        == 115 && v[i + 4] == 101 {
        proof {
            assert(s.skip(5) =~= v@.skip(i + 5));
        }
        Some((false, i + 5))
    } else {
        None
    }
}

/// Parse a `"key": true|false` field.
fn parse_bool_field_at(v: &Vec<u8>, i: usize, key: &Vec<u8>) -> (r: Option<(bool, usize)>)
    requires
        i <= v.len(),
    ensures
        match r {
            Some(bj) => bj.1 <= v.len() && parse_bool_field(v@.skip(i as int), key@) == Some(
                (bj.0, v@.skip(bj.1 as int)),
            ),
            None => parse_bool_field(v@.skip(i as int), key@) is None,
        },
{
    match parse_key_at(v, i, key) {
        Some(j) => {
            let j2 = skip_ws_at(v, j);
            parse_bool_at(v, j2)
        },
        None => None,
    }
}

/// Parse one record object.
fn parse_record_at(v: &Vec<u8>, i: usize) -> (r: Option<(MappingRecord, usize)>)
    requires
        i <= v.len(),
    ensures
        match r {
            Some(rj) => rj.1 <= v.len() && parse_record(v@.skip(i as int)) == Some(
                (record_view(rj.0), v@.skip(rj.1 as int)),
            ),
            None => parse_record(v@.skip(i as int)) is None,
        },
{
    let j = skip_ws_at(v, i);
    if j == v.len() || v[j] != 123 {
        proof {
            if j < v.len() {
                assert(v@.skip(j as int)[0] == v@[j as int]);
            }
        }
        return None;
    }
    proof {
        assert(v@.skip(j as int)[0] == v@[j as int]);
        assert(v@.skip(j as int).skip(1) =~= v@.skip(j + 1));
    }
    let ks = key_src_vec();
    let (src, j2) = match parse_string_field_at(v, j + 1, &ks) {
        Some(x) => x,
        None => {
            return None;
        },
    };
    let j3 = skip_ws_at(v, j2);
    if j3 == v.len() || v[j3] != 44 {
        proof {
            if j3 < v.len() {
                assert(v@.skip(j3 as int)[0] == v@[j3 as int]);
            }
        }
        return None;
    }
    proof {
        assert(v@.skip(j3 as int)[0] == v@[j3 as int]);
        assert(v@.skip(j3 as int).skip(1) =~= v@.skip(j3 + 1));
    }
    let kd = key_dst_vec();
    let (dst, j4) = match parse_string_field_at(v, j3 + 1, &kd) {
        Some(x) => x,
        None => {
            return None;
        },
    };
    let j5 = skip_ws_at(v, j4);
    if j5 == v.len() || v[j5] != 44 {
        proof {
            if j5 < v.len() {
                assert(v@.skip(j5 as int)[0] == v@[j5 as int]);
            }
        }
        return None;
    }
    proof {
        assert(v@.skip(j5 as int)[0] == v@[j5 as int]);
        assert(v@.skip(j5 as int).skip(1) =~= v@.skip(j5 + 1));
    }
    let kf = key_force_vec();
    let (force, j6) = match parse_bool_field_at(v, j5 + 1, &kf) {
        Some(x) => x,
        None => {
            return None;
        },
    };
    let j7 = skip_ws_at(v, j6);
    if j7 == v.len() || v[j7] != 44 {
        proof {
            if j7 < v.len() {
                assert(v@.skip(j7 as int)[0] == v@[j7 as int]);
            }
        }
        return None;
    }
    proof {
        assert(v@.skip(j7 as int)[0] == v@[j7 as int]);
        assert(v@.skip(j7 as int).skip(1) =~= v@.skip(j7 + 1));
    }
    let kj = key_junction_vec();
    let (junction, j8) = match parse_bool_field_at(v, j7 + 1, &kj) {
        Some(x) => x,
        None => {
            return None;
        },
    };
    let j9 = skip_ws_at(v, j8);
    if j9 == v.len() || v[j9] != 125 {
        proof {
            if j9 < v.len() {
                assert(v@.skip(j9 as int)[0] == v@[j9 as int]);
            }
        }
        return None;
    }
    proof {
        assert(v@.skip(j9 as int)[0] == v@[j9 as int]);
        assert(v@.skip(j9 as int).skip(1) =~= v@.skip(j9 + 1));
    }
    Some((MappingRecord { src, dst, force, junction }, j9 + 1))
}

/// Parse a non-empty record list up to and including the closing bracket.
fn parse_records_at(v: &Vec<u8>, i: usize, fuel: usize) -> (r: Option<(Vec<MappingRecord>, usize)>)
    requires
        i <= v.len(),
    ensures
        match r {
            Some(rj) => rj.1 <= v.len() && parse_records(v@.skip(i as int), fuel as nat) == Some(
                (records_view(rj.0@), v@.skip(rj.1 as int)),
            ),
            None => parse_records(v@.skip(i as int), fuel as nat) is None,
        },
    decreases fuel,
{
    if fuel == 0 {
        return None;
    }
    let (rec, j) = match parse_record_at(v, i) {
        Some(x) => x,
        None => {
            return None;
        },
    };
    let j2 = skip_ws_at(v, j);
    if j2 < v.len() && v[j2] == 44 {
        proof {
            assert(v@.skip(j2 as int)[0] == v@[j2 as int]);
            assert(v@.skip(j2 as int).skip(1) =~= v@.skip(j2 + 1));
        }
        match parse_records_at(v, j2 + 1, fuel - 1) {
            Some((mut rs, j3)) => {
                let ghost rs0 = rs@;
                rs.insert(0, rec);
                proof {
                    assert(rs@ =~= seq![rec] + rs0);
                    assert(records_view(rs@) =~= seq![record_view(rec)] + records_view(rs0));
                }
                Some((rs, j3))
            },
            None => None,
        }
    } else if j2 < v.len() && v[j2] == 93 {
        proof {
            assert(v@.skip(j2 as int)[0] == v@[j2 as int]);
            assert(v@.skip(j2 as int).skip(1) =~= v@.skip(j2 + 1));
        }
        let mut rs: Vec<MappingRecord> = Vec::new();
        rs.push(rec);
        proof {
            assert(records_view(rs@) =~= seq![record_view(rec)]);
        }
        Some((rs, j2 + 1))
    } else {
        proof {
            if j2 < v.len() {
                assert(v@.skip(j2 as int)[0] == v@[j2 as int]);
            }
        }
        None
    }
}

/// Deserialize a mapping file.  Succeeds exactly on the documents the
/// grammar admits; everything else is a parse failure.
pub fn parse_mapping_file(input: &Vec<u8>) -> (r: Result<Vec<MappingRecord>, CodecError>)
    ensures
        match parse_file(input@) {
            Some(rsv) => r matches Ok(rs) && records_view(rs@) == rsv,
            None => r == Err::<Vec<MappingRecord>, CodecError>(CodecError::ParseFailed),
        },
{
    let ghost whole = input@;
    proof {
        assert(whole.skip(0) =~= whole);
    }
    let j = skip_ws_at(input, 0);
    if j == input.len() || input[j] != 123 {
        proof {
            if j < input.len() {
                assert(input@.skip(j as int)[0] == input@[j as int]);
            }
        }
        return Err(CodecError::ParseFailed);
    }
    proof {
        assert(input@.skip(j as int)[0] == input@[j as int]);
        assert(input@.skip(j as int).skip(1) =~= input@.skip(j + 1));
    }
    let km = key_mapping_vec();
    let j2 = match parse_key_at(input, j + 1, &km) {
        Some(x) => x,
        None => {
            return Err(CodecError::ParseFailed);
        },
    };
    let j3 = skip_ws_at(input, j2);
    if j3 == input.len() || input[j3] != 91 {
        proof {
            if j3 < input.len() {
                assert(input@.skip(j3 as int)[0] == input@[j3 as int]);
            }
        }
        return Err(CodecError::ParseFailed);
    }
    proof {
        assert(input@.skip(j3 as int)[0] == input@[j3 as int]);
        assert(input@.skip(j3 as int).skip(1) =~= input@.skip(j3 + 1));
    }
    let j4 = skip_ws_at(input, j3 + 1);
    if j4 < input.len() && input[j4] == 93 {
        proof {
            assert(input@.skip(j4 as int)[0] == input@[j4 as int]);
            assert(input@.skip(j4 as int).skip(1) =~= input@.skip(j4 + 1));
        }
        let j5 = skip_ws_at(input, j4 + 1);
        if j5 == input.len() || input[j5] != 125 {
            proof {
                if j5 < input.len() {
                    assert(input@.skip(j5 as int)[0] == input@[j5 as int]);
                }
            }
            return Err(CodecError::ParseFailed);
        }
        proof {
            assert(input@.skip(j5 as int)[0] == input@[j5 as int]);
            assert(input@.skip(j5 as int).skip(1) =~= input@.skip(j5 + 1));
        }
        let j6 = skip_ws_at(input, j5 + 1);
        if j6 != input.len() {
            return Err(CodecError::ParseFailed);
        }
        let rs: Vec<MappingRecord> = Vec::new();
        proof {
            assert(records_view(rs@) =~= Seq::<RecordV>::empty());
        }
        return Ok(rs);
    }
    proof {
        if j4 < input.len() {
            assert(input@.skip(j4 as int)[0] == input@[j4 as int]);
        }
        assert(input@.skip(j4 as int).len() == input@.len() - j4);
    }
    let fuel = input.len() - j4;
    match parse_records_at(input, j4, fuel) {
        Some((rs, j5)) => {
            let j6 = skip_ws_at(input, j5);
            if j6 == input.len() || input[j6] != 125 {
                proof {
                    if j6 < input.len() {
                        assert(input@.skip(j6 as int)[0] == input@[j6 as int]);
                    }
                }
                return Err(CodecError::ParseFailed);
            }
            proof {
                assert(input@.skip(j6 as int)[0] == input@[j6 as int]);
                assert(input@.skip(j6 as int).skip(1) =~= input@.skip(j6 + 1));
            }
            let j7 = skip_ws_at(input, j6 + 1);
            if j7 != input.len() {
                return Err(CodecError::ParseFailed);
            }
            Ok(rs)
        },
        None => Err(CodecError::ParseFailed),
    }
}

} // verus!
