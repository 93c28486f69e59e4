use vstd::prelude::*;
use vstd::string::StrSliceExecFns;
use crate::chars::{
    chars_to_string, hex_char, hex_digit_val, hex_to_char, hex_value_of, is_hex_digit,
};
use crate::numerals::{dec_int, push_dec_i32};
use crate::record::{Record, RecordView};
use crate::store::views_of;

verus! {

/// JSON escape of one character: the two-character short escapes, `\u00xx`
/// for the remaining control characters, and the character itself otherwise.
pub open spec fn escape_char(c: char) -> Seq<char> {
    if c == '"' {
        seq!['\\', '"']
    } else if c == '\\' {
        seq!['\\', '\\']
    } else if c == '\u{8}' {
        seq!['\\', 'b']
    } else if c == '\u{c}' {
        seq!['\\', 'f']
    } else if c == '\n' {
        seq!['\\', 'n']
    } else if c == '\r' {
        seq!['\\', 'r']
    } else if c == '\t' {
        seq!['\\', 't']
    } else if (c as u32) < 0x20 {
        seq!['\\', 'u', '0', '0', hex_char(((c as u32) / 16) as int), hex_char(((c as u32) % 16) as int)]
    } else {
        seq![c]
    }
}

/// JSON escape of a payload, character by character.
pub open spec fn escape_seq(s: Seq<char>) -> Seq<char>
    decreases s.len(),
{
    if s.len() == 0 {
        Seq::empty()
    } else {
        escape_seq(s.drop_last()) + escape_char(s.last())
    }
}

/// The JSON string literal for payload `s`.
pub open spec fn json_string(s: Seq<char>) -> Seq<char> {
    seq!['"'] + escape_seq(s) + seq!['"']
}

/// The JSON object for one record: `{"id":<id>,"txt":<txt>}`.
pub open spec fn record_json(r: RecordView) -> Seq<char> {
    seq!['{', '"', 'i', 'd', '"', ':'] + dec_int(r.id) + seq![',', '"', 't', 'x', 't', '"', ':']
        + json_string(r.txt) + seq!['}']
}

/// The comma-separated objects inside the JSON array of records.
pub open spec fn records_json_items(rs: Seq<RecordView>) -> Seq<char>
    decreases rs.len(),
{
    if rs.len() == 0 {
        Seq::empty()
    } else if rs.len() == 1 {
        record_json(rs[0])
    } else {
        records_json_items(rs.drop_last()) + seq![','] + record_json(rs.last())
    }
}

/// The JSON array of records, in listing order.
pub open spec fn records_json(rs: Seq<RecordView>) -> Seq<char> {
    seq!['['] + records_json_items(rs) + seq![']']
}

/// Append the escape of one character.
fn push_escaped_char(out: &mut Vec<char>, c: char)
    ensures
        final(out)@ == old(out)@ + escape_char(c),
{
    if c == '"' {
        out.push('\\');
        out.push('"');
    } else if c == '\\' {
        out.push('\\');
        out.push('\\');
    } else if c == '\u{8}' {
        out.push('\\');
        out.push('b');
    } else if c == '\u{c}' {
        out.push('\\');
        out.push('f');
    } else if c == '\n' {
        out.push('\\');
        out.push('n');
    } else if c == '\r' {
        out.push('\\');
        out.push('r');
    } else if c == '\t' {
        out.push('\\');
        out.push('t');
    } else {
        let u = c as u32;
        if u < 0x20 {
            out.push('\\');
            out.push('u');
            out.push('0');
            out.push('0');
            out.push(hex_to_char(u / 16));
            out.push(hex_to_char(u % 16));
        } else {
            out.push(c);
        }
    }
    proof {
        assert(out@ =~= old(out)@ + escape_char(c));
    }
}

/// Append the JSON string literal for `s`.
pub fn push_json_string(out: &mut Vec<char>, s: &str)
    ensures
        final(out)@ == old(out)@ + json_string(s@),
{
    out.push('"');
    proof {
        assert(s@.take(0) =~= Seq::<char>::empty());
        assert(out@ =~= old(out)@ + seq!['"'] + escape_seq(s@.take(0)));
    }
    let n = s.unicode_len();
    let mut i: usize = 0;
    while i < n
        invariant
            i <= n,
            n == s@.len(),
            out@ == old(out)@ + seq!['"'] + escape_seq(s@.take(i as int)),
        decreases n - i,
    {
        let c = s.get_char(i);
        push_escaped_char(out, c);
        proof {
            assert(s@.take(i as int + 1).drop_last() =~= s@.take(i as int));
            assert(s@.take(i as int + 1).last() == s@[i as int]);
            assert(out@ =~= old(out)@ + seq!['"'] + escape_seq(s@.take(i as int + 1)));
        }
        i = i + 1;
    }
    out.push('"');
    proof {
        assert(s@.take(n as int) =~= s@);
        assert(out@ =~= old(out)@ + json_string(s@));
    }
}

/// Render a payload as a JSON string literal.
pub fn render_json_string(s: &str) -> (r: String)
    ensures
        r@ == json_string(s@),
{
    let mut out: Vec<char> = Vec::new();
    push_json_string(&mut out, s);
    proof {
        assert(out@ =~= json_string(s@));
    }
    chars_to_string(&out)
}

/// Append the JSON object for one record.
pub fn push_record_json(out: &mut Vec<char>, rec: &Record)
    ensures
        final(out)@ == old(out)@ + record_json(rec@),
{
    out.push('{');
    out.push('"');
    out.push('i');
    out.push('d');
    out.push('"');
    out.push(':');
    push_dec_i32(out, rec.id);
    out.push(',');
    out.push('"');
    out.push('t');
    out.push('x');
    out.push('t');
    out.push('"');
    out.push(':');
    push_json_string(out, rec.txt.as_str());
    out.push('}');
    proof {
        assert(out@ =~= old(out)@ + record_json(rec@));
    }
}

/// Render one record as its JSON object.
pub fn render_record(rec: &Record) -> (r: String)
    ensures
        r@ == record_json(rec@),
{
    let mut out: Vec<char> = Vec::new();
    push_record_json(&mut out, rec);
    proof {
        assert(out@ =~= record_json(rec@));
    }
    chars_to_string(&out)
}

/// Render a listing as its JSON array, in order.
pub fn render_records(list: &Vec<Record>) -> (r: String)
    ensures
        r@ == records_json(views_of(list@)),
{
    let mut out: Vec<char> = Vec::new();
    out.push('[');
    let n = list.len();
    let mut i: usize = 0;
    while i < n
        invariant
            i <= n,
            n == list@.len(),
            out@ == seq!['['] + records_json_items(views_of(list@).take(i as int)),
        decreases n - i,
    {
        if i > 0 {
            out.push(',');
        }
        push_record_json(&mut out, &list[i]);
        proof {
            let vs = views_of(list@);
            assert(vs.take(i as int + 1).drop_last() =~= vs.take(i as int));
            assert(vs.take(i as int + 1).last() == vs[i as int]);
            assert(out@ =~= seq!['['] + records_json_items(vs.take(i as int + 1)));
        }
        i = i + 1;
    }
    out.push(']');
    proof {
        assert(views_of(list@).take(n as int) =~= views_of(list@));
        assert(out@ =~= records_json(views_of(list@)));
    }
    chars_to_string(&out)
}

/// The one-character expansions of the two-character escapes.
pub open spec fn short_unescape(e: char) -> Option<char> {
    if e == '"' {
        Some('"')
    } else if e == '\\' {
        Some('\\')
    } else if e == '/' {
        Some('/')
    } else if e == 'b' {
        Some('\u{8}')
    } else if e == 'f' {
        Some('\u{c}')
    } else if e == 'n' {
        Some('\n')
    } else if e == 'r' {
        Some('\r')
    } else if e == 't' {
        Some('\t')
    } else {
        None
    }
}

fn short_unescape_exec(e: char) -> (r: Option<char>)
    ensures
        r == short_unescape(e),
{
    if e == '"' {
        Some('"')
    } else if e == '\\' {
        Some('\\')
    } else if e == '/' {
        Some('/')
    } else if e == 'b' {
        Some('\u{8}')
    } else if e == 'f' {
        Some('\u{c}')
    } else if e == 'n' {
        Some('\n')
    } else if e == 'r' {
        Some('\r')
    } else if e == 't' {
        Some('\t')
    } else {
        None
    }
}

/// The first four characters of `s` are hexadecimal digits.
pub open spec fn hex4_ok(s: Seq<char>) -> bool {
    &&& s.len() >= 4
    &&& is_hex_digit(s[0])
    &&& is_hex_digit(s[1])
    &&& is_hex_digit(s[2])
    &&& is_hex_digit(s[3])
}

/// Value of the first four hexadecimal digits of `s`.
pub open spec fn hex4_val(s: Seq<char>) -> int {
    ((hex_digit_val(s[0]) * 16 + hex_digit_val(s[1])) * 16 + hex_digit_val(s[2])) * 16
        + hex_digit_val(s[3])
}

pub open spec fn is_high_surrogate(v: int) -> bool {
    0xD800 <= v < 0xDC00
}

pub open spec fn is_low_surrogate(v: int) -> bool {
    0xDC00 <= v < 0xE000
}

/// Decode the contents of a JSON string literal from `s`, which holds
/// everything after the opening quote; the closing quote must be the last
/// character of `s`, and control characters must appear escaped.
pub open spec fn scan_content(s: Seq<char>) -> Option<Seq<char>>
    decreases s.len(),
{
    if s.len() == 0 {
        None
    } else if s[0] == '"' {
        if s.len() == 1 {
            Some(Seq::empty())
        } else {
            None
        }
    } else if s[0] == '\\' {
        if s.len() < 2 {
            None
        } else if s[1] == 'u' {
            if s.len() < 6 || !hex4_ok(s.skip(2)) {
                None
            } else {
                let v = hex4_val(s.skip(2));
                if is_high_surrogate(v) {
                    if s.len() >= 12 && s[6] == '\\' && s[7] == 'u' && hex4_ok(s.skip(8))
                        && is_low_surrogate(hex4_val(s.skip(8))) {
                        let w = hex4_val(s.skip(8));
                        let cp = 0x10000 + (v - 0xD800) * 0x400 + (w - 0xDC00);
                        match scan_content(s.skip(12)) {
                            Some(rest) => Some(seq![((cp as u32) as char)] + rest),
                            None => None,
                        }
                    } else {
                        None
                    }
                } else if is_low_surrogate(v) {
                    None
                } else {
                    match scan_content(s.skip(6)) {
                        Some(rest) => Some(seq![((v as u32) as char)] + rest),
                        None => None,
                    }
                }
            }
        } else {
            match short_unescape(s[1]) {
                Some(c) => match scan_content(s.skip(2)) {
                    Some(rest) => Some(seq![c] + rest),
                    None => None,
                },
                None => None,
            }
        }
    } else if (s[0] as u32) < 0x20 {
        None
    } else {
        match scan_content(s.skip(1)) {
            Some(rest) => Some(seq![s[0]] + rest),
            None => None,
        }
    }
}

/// A JSON string literal: an opening quote, its contents, and a closing
/// quote as the last character.
pub open spec fn spec_parse_json_string(s: Seq<char>) -> Option<Seq<char>> {
    if s.len() >= 1 && s[0] == '"' {
        scan_content(s.drop_first())
    } else {
        None
    }
}

/// JSON insignificant whitespace.
pub open spec fn is_json_ws(c: char) -> bool {
    c == ' ' || c == '\t' || c == '\n' || c == '\r'
}

pub open spec fn trim_front(s: Seq<char>) -> Seq<char>
    decreases s.len(),
{
    if s.len() > 0 && is_json_ws(s[0]) {
        trim_front(s.drop_first())
    } else {
        s
    }
}

pub open spec fn trim_back(s: Seq<char>) -> Seq<char>
    decreases s.len(),
{
    if s.len() > 0 && is_json_ws(s.last()) {
        trim_back(s.drop_last())
    } else {
        s
    }
}

/// The text payload denoted by a request body that must be one JSON string:
/// surrounding whitespace is allowed, anything else is rejected.
pub open spec fn spec_parse_body(s: Seq<char>) -> Option<Seq<char>> {
    spec_parse_json_string(trim_back(trim_front(s)))
}

proof fn lemma_trim_front_skip(s: Seq<char>, k: int)
    requires
        0 <= k <= s.len(),
        forall|j: int| 0 <= j < k ==> is_json_ws(#[trigger] s[j]),
        k == s.len() || !is_json_ws(s[k]),
    ensures
        trim_front(s) == s.skip(k),
    decreases k,
{
    if k == 0 {
        assert(s.skip(0) =~= s);
    } else {
        let s1 = s.drop_first();
        lemma_trim_front_skip(s1, k - 1);
        assert(s1.skip(k - 1) =~= s.skip(k));
    }
}

proof fn lemma_trim_back_take(s: Seq<char>, k: int)
    requires
        0 <= k <= s.len(),
        forall|j: int| k <= j < s.len() ==> is_json_ws(#[trigger] s[j]),
        k == 0 || !is_json_ws(s[k - 1]),
    ensures
        trim_back(s) == s.take(k),
    decreases s.len() - k,
{
    if k == s.len() {
        assert(s.take(k) =~= s);
    } else {
        let s1 = s.drop_last();
        lemma_trim_back_take(s1, k);
        assert(s1.take(k) =~= s.take(k));
    }
}

fn is_ws_char(c: char) -> (r: bool)
    ensures
        r == is_json_ws(c),
{
    c == ' ' || c == '\t' || c == '\n' || c == '\r'
}

/// Index of the first non-whitespace character at or after `from`.
fn skip_ws_front(s: &str, from: usize) -> (r: usize)
    requires
        from <= s@.len(),
        forall|j: int| 0 <= j < from ==> is_json_ws(#[trigger] s@[j]),
    ensures
        from <= r <= s@.len(),
        forall|j: int| 0 <= j < r ==> is_json_ws(#[trigger] s@[j]),
        r == s@.len() || !is_json_ws(s@[r as int]),
    decreases s@.len() - from,
{
    let n = s.unicode_len();
    if from == n {
        return from;
    }
    let c = s.get_char(from);
    if is_ws_char(c) {
        skip_ws_front(s, from + 1)
    } else {
        from
    }
}

/// One past the last non-whitespace character strictly before `end`.
fn skip_ws_back(s: &str, end: usize) -> (r: usize)
    requires
        end <= s@.len(),
        forall|j: int| end <= j < s@.len() ==> is_json_ws(#[trigger] s@[j]),
    ensures
        r <= end,
        forall|j: int| r <= j < s@.len() ==> is_json_ws(#[trigger] s@[j]),
        r == 0 || !is_json_ws(s@[r as int - 1]),
    decreases end,
{
    if end == 0 {
        return 0;
    }
    let c = s.get_char(end - 1);
    if is_ws_char(c) {
        skip_ws_back(s, end - 1)
    } else {
        end
    }
}

/// Read four hexadecimal digits starting at `at`.
fn read_hex4(s: &str, at: usize) -> (r: Option<u32>)
    requires
        at + 4 <= s@.len(),
        s@.len() <= usize::MAX,
    ensures
        r is Some <==> hex4_ok(s@.skip(at as int)),
        r matches Some(v) ==> v == hex4_val(s@.skip(at as int)) && v < 0x10000,
{
    let h0 = match hex_value_of(s.get_char(at)) {
        Some(h) => h,
        None => {
            return None;
        },
    };
    let h1 = match hex_value_of(s.get_char(at + 1)) {
        Some(h) => h,
        None => {
            return None;
        },
    };
    let h2 = match hex_value_of(s.get_char(at + 2)) {
        Some(h) => h,
        None => {
            return None;
        },
    };
    let h3 = match hex_value_of(s.get_char(at + 3)) {
        Some(h) => h,
        None => {
            return None;
        },
    };
    Some(((h0 * 16 + h1) * 16 + h2) * 16 + h3)
}

/// Parse a request body that must hold exactly one JSON string, returning
/// the decoded payload, exactly as [`spec_parse_body`] says.
pub fn parse_json_string(s: &str) -> (r: Option<String>)
    ensures
        match r {
            Some(t) => spec_parse_body(s@) == Some(t@),
            None => spec_parse_body(s@) is None,
        },
{
    let n = s.unicode_len();
    let start = skip_ws_front(s, 0);
    let end = skip_ws_back(s, n);
    if start >= end {
        proof {
            assert(forall|j: int| 0 <= j < s@.len() ==> is_json_ws(#[trigger] s@[j]));
            assert(start == n);
            lemma_trim_front_skip(s@, n as int);
            assert(s@.skip(n as int) =~= Seq::<char>::empty());
        }
        return None;
    }
    let ghost t = s@.subrange(start as int, end as int);
    proof {
        lemma_trim_front_skip(s@, start as int);
        let s1 = s@.skip(start as int);
        assert(forall|j: int| end - start <= j < s1.len() ==> is_json_ws(#[trigger] s1[j]));
        assert(!is_json_ws(s1[end - start - 1]));
        lemma_trim_back_take(s1, end - start);
        assert(s1.take(end - start) =~= t);
    }
    if s.get_char(start) != '"' {
        proof {
            assert(t[0] == s@[start as int]);
        }
        return None;
    }
    let ghost body = s@.subrange(start as int + 1, end as int);
    proof {
        assert(t.drop_first() =~= body);
        assert(spec_parse_body(s@) == scan_content(body));
    }
    let mut out: Vec<char> = Vec::new();
    let mut i: usize = start + 1;
    proof {
        assert(s@.subrange(i as int, end as int) =~= body);
        match scan_content(body) {
            Some(rest) => {
                assert(out@ + rest =~= rest);
            },
            None => {},
        }
    }
    while i < end
        invariant
            start + 1 <= i <= end,
            end <= n,
            n == s@.len(),
            body == s@.subrange(start as int + 1, end as int),
            spec_parse_body(s@) == scan_content(body),
            match scan_content(s@.subrange(i as int, end as int)) {
                Some(rest) => scan_content(body) == Some(out@ + rest),
                None => scan_content(body) is None,
            },
        decreases end - i,
    {
        let ghost rem = s@.subrange(i as int, end as int);
        let c = s.get_char(i);
        proof {
            assert(rem[0] == c);
        }
        if c == '"' {
            if i + 1 == end {
                proof {
                    assert(rem.len() == 1);
                    assert(scan_content(rem) == Some(Seq::<char>::empty()));
                    assert(out@ + Seq::<char>::empty() =~= out@);
                }
                return Some(chars_to_string(&out));
            }
            return None;
        } else if c == '\\' {
            if i + 1 == end {
                return None;
            }
            let e = s.get_char(i + 1);
            proof {
                assert(rem[1] == e);
            }
            if e == 'u' {
                if end - i < 6 {
                    return None;
                }
                proof {
                    assert(rem.skip(2)[0] == s@.skip(i as int + 2)[0]);
                    assert(rem.skip(2)[1] == s@.skip(i as int + 2)[1]);
                    assert(rem.skip(2)[2] == s@.skip(i as int + 2)[2]);
                    assert(rem.skip(2)[3] == s@.skip(i as int + 2)[3]);
                    assert(hex4_ok(rem.skip(2)) <==> hex4_ok(s@.skip(i as int + 2)));
                    assert(hex4_ok(rem.skip(2)) ==> hex4_val(rem.skip(2)) == hex4_val(
                        s@.skip(i as int + 2),
                    ));
                }
                let v = match read_hex4(s, i + 2) {
                    Some(v) => v,
                    None => {
                        return None;
                    },
                };
                proof {
                    assert(v == hex4_val(rem.skip(2)));
                }
                if 0xD800 <= v && v < 0xDC00 {
                    if end - i < 12 {
                        return None;
                    }
                    if s.get_char(i + 6) != '\\' || s.get_char(i + 7) != 'u' {
                        proof {
                            assert(rem[6] == s@[i as int + 6]);
                            assert(rem[7] == s@[i as int + 7]);
                        }
                        return None;
                    }
                    proof {
                        assert(rem[6] == s@[i as int + 6]);
                        assert(rem[7] == s@[i as int + 7]);
                        assert(rem.skip(8)[0] == s@.skip(i as int + 8)[0]);
                        assert(rem.skip(8)[1] == s@.skip(i as int + 8)[1]);
                        assert(rem.skip(8)[2] == s@.skip(i as int + 8)[2]);
                        assert(rem.skip(8)[3] == s@.skip(i as int + 8)[3]);
                        assert(hex4_ok(rem.skip(8)) <==> hex4_ok(s@.skip(i as int + 8)));
                        assert(hex4_ok(rem.skip(8)) ==> hex4_val(rem.skip(8)) == hex4_val(
                            s@.skip(i as int + 8),
                        ));
                    }
                    let w = match read_hex4(s, i + 8) {
                        Some(w) => w,
                        None => {
                            return None;
                        },
                    };
                    proof {
                        assert(w == hex4_val(rem.skip(8)));
                    }
                    if !(0xDC00 <= w && w < 0xE000) {
                        return None;
                    }
                    let cp: u32 = 0x10000 + (v - 0xD800) * 0x400 + (w - 0xDC00);
                    let c2 = match char::from_u32(cp) {
                        Some(c2) => c2,
                        None => {
                            proof {
                                assert(vstd::utf8::is_scalar(cp));
                                assert(false);
                            }
                            return None;
                        },
                    };
                    let ghost pre = out@;
                    out.push(c2);
                    proof {
                        vstd::utf8::char_u32_cast(c2, cp);
                        let rem2 = s@.subrange(i as int + 12, end as int);
                        assert(rem.skip(12) =~= rem2);
                        match scan_content(rem2) {
                            Some(rest) => {
                                assert(scan_content(rem) == Some(seq![c2] + rest));
                                assert(pre + (seq![c2] + rest) =~= out@ + rest);
                            },
                            None => {},
                        }
                    }
                    i = i + 12;
                } else if 0xDC00 <= v && v < 0xE000 {
                    return None;
                } else {
                    let c2 = match char::from_u32(v) {
                        Some(c2) => c2,
                        None => {
                            proof {
                                assert(vstd::utf8::is_scalar(v));
                                assert(false);
                            }
                            return None;
                        },
                    };
                    let ghost pre = out@;
                    out.push(c2);
                    proof {
                        vstd::utf8::char_u32_cast(c2, v);
                        let rem2 = s@.subrange(i as int + 6, end as int);
                        assert(rem.skip(6) =~= rem2);
                        match scan_content(rem2) {
                            Some(rest) => {
                                assert(scan_content(rem) == Some(seq![c2] + rest));
                                assert(pre + (seq![c2] + rest) =~= out@ + rest);
                            },
                            None => {},
                        }
                    }
                    i = i + 6;
                }
            } else {
                let c2 = match short_unescape_exec(e) {
                    Some(c2) => c2,
                    None => {
                        return None;
                    },
                };
                let ghost pre = out@;
                out.push(c2);
                proof {
                    let rem2 = s@.subrange(i as int + 2, end as int);
                    assert(rem.skip(2) =~= rem2);
                    match scan_content(rem2) {
                        Some(rest) => {
                            assert(scan_content(rem) == Some(seq![c2] + rest));
                            assert(pre + (seq![c2] + rest) =~= out@ + rest);
                        },
                        None => {},
                    }
                }
                i = i + 2;
            }
        } else {
            let u = c as u32;
            if u < 0x20 {
                return None;
            }
            let ghost pre = out@;
            out.push(c);
            proof {
                let rem2 = s@.subrange(i as int + 1, end as int);
                assert(rem.skip(1) =~= rem2);
                match scan_content(rem2) {
                    Some(rest) => {
                        assert(scan_content(rem) == Some(seq![c] + rest));
                        assert(pre + (seq![c] + rest) =~= out@ + rest);
                    },
                    None => {},
                }
            }
            i = i + 1;
        }
    }
    proof {
        assert(s@.subrange(i as int, end as int) =~= Seq::<char>::empty());
    }
    None
}

/// Concatenation distributes over escaping.
proof fn lemma_escape_seq_concat(a: Seq<char>, b: Seq<char>)
    ensures
        escape_seq(a + b) == escape_seq(a) + escape_seq(b),
    decreases b.len(),
{
    if b.len() == 0 {
        assert(a + b =~= a);
        assert(escape_seq(a) + escape_seq(b) =~= escape_seq(a));
    } else {
        assert((a + b).drop_last() =~= a + b.drop_last());
        lemma_escape_seq_concat(a, b.drop_last());
        assert((a + b).last() == b.last());
        assert(escape_seq(a) + escape_seq(b.drop_last()) + escape_char(b.last()) =~= escape_seq(a)
            + (escape_seq(b.drop_last()) + escape_char(b.last())));
    }
}

/// Each hexadecimal digit character written by `hex_char` reads back as its
/// value.
proof fn lemma_hex_char_val(d: int)
    requires
        0 <= d < 16,
    ensures
        is_hex_digit(hex_char(d)),
        hex_digit_val(hex_char(d)) == d,
{
}

/// Scanning the escaped payload followed by the closing quote recovers the
/// payload.
proof fn lemma_scan_escape(t: Seq<char>)
    ensures
        scan_content(escape_seq(t) + seq!['"']) == Some(t),
    decreases t.len(),
{
    if t.len() == 0 {
        assert(escape_seq(t) + seq!['"'] =~= seq!['"']);
        assert(scan_content(seq!['"']) == Some(Seq::<char>::empty()));
        assert(t =~= Seq::<char>::empty());
    } else {
        let c = t[0];
        let rest = t.drop_first();
        assert(t =~= seq![c] + rest);
        lemma_escape_seq_concat(seq![c], rest);
        assert(seq![c].drop_last() =~= Seq::<char>::empty());
        assert(seq![c].last() == c);
        assert(escape_seq(Seq::<char>::empty()) == Seq::<char>::empty());
        assert(escape_seq(seq![c]) =~= escape_char(c));
        lemma_scan_escape(rest);
        let s2 = escape_seq(rest) + seq!['"'];
        let s = escape_seq(t) + seq!['"'];
        assert(s =~= escape_char(c) + s2);
        if c == '"' || c == '\\' || c == '\u{8}' || c == '\u{c}' || c == '\n' || c == '\r' || c
            == '\t' {
            assert(s[0] == '\\');
            assert(s[1] != 'u');
            assert(short_unescape(s[1]) == Some(c));
            assert(s.skip(2) =~= s2);
            assert(scan_content(s) == Some(seq![c] + rest));
        } else if (c as u32) < 0x20 {
            let u = c as u32;
            assert(s[0] == '\\');
            assert(s[1] == 'u');
            assert(s.len() >= 6);
            lemma_hex_char_val((u / 16) as int);
            lemma_hex_char_val((u % 16) as int);
            assert(s.skip(2)[0] == '0');
            assert(s.skip(2)[1] == '0');
            assert(s.skip(2)[2] == hex_char((u / 16) as int));
            assert(s.skip(2)[3] == hex_char((u % 16) as int));
            assert(hex4_ok(s.skip(2)));
            assert(hex4_val(s.skip(2)) == u);
            assert(!is_high_surrogate(u as int) && !is_low_surrogate(u as int));
            assert(s.skip(6) =~= s2);
            vstd::utf8::char_u32_cast(c, u);
            assert(scan_content(s) == Some(seq![c] + rest));
        } else {
            assert(escape_char(c) =~= seq![c]);
            assert(s[0] == c);
            assert(s.skip(1) =~= s2);
            assert(scan_content(s) == Some(seq![c] + rest));
        }
        assert(seq![c] + rest =~= t);
    }
}

/// Round trip: the JSON rendering of any payload parses back to exactly
/// that payload.
pub proof fn lemma_json_string_round_trip(t: Seq<char>)
    ensures
        spec_parse_body(json_string(t)) == Some(t),
{
    let js = json_string(t);
    assert(js[0] == '"');
    assert(js.last() == '"');
    assert(trim_front(js) == js);
    assert(trim_back(js) == js);
    assert(js.drop_first() =~= escape_seq(t) + seq!['"']);
    lemma_scan_escape(t);
}

} // verus!
