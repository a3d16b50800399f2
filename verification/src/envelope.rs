use vstd::prelude::*;
use vstd::utf8::{is_char_boundary, length_of_first_scalar, pop_first_scalar, valid_utf8};
use vstd::string::StringSliceAdditionalSpecFns;

verus! {

/// Length of the UTF-8 encoded white-space character that starts at byte `i`, or 0.
pub open spec fn ws_at(b: Seq<u8>, i: int) -> int {
    if 0 <= i < b.len() && ((0x09 <= b[i] && b[i] <= 0x0d) || b[i] == 0x20) {
        1
    } else if 0 <= i && i + 1 < b.len() && b[i] == 0xc2 && (b[i + 1] == 0x85 || b[i + 1] == 0xa0) {
        2
    } else if 0 <= i && i + 2 < b.len() && ((b[i] == 0xe1 && b[i + 1] == 0x9a && b[i + 2] == 0x80) || (b[i]
        == 0xe2 && b[i + 1] == 0x80 && ((0x80 <= b[i + 2] && b[i + 2] <= 0x8a) || b[i + 2] == 0xa8 || b[i + 2]
        == 0xa9 || b[i + 2] == 0xaf)) || (b[i] == 0xe2 && b[i + 1] == 0x81 && b[i + 2] == 0x9f) || (b[i] == 0xe3
        && b[i + 1] == 0x80 && b[i + 2] == 0x80)) {
        3
    } else {
        0
    }
}

/// Length of the UTF-8 encoded white-space character that ends just before byte `j`, or 0.
pub open spec fn ws_before(b: Seq<u8>, j: int) -> int {
    if ws_at(b, j - 1) == 1 {
        1
    } else if ws_at(b, j - 2) == 2 {
        2
    } else if ws_at(b, j - 3) == 3 {
        3
    } else {
        0
    }
}

/// Start of `b[from..to]` once leading white space is skipped.
pub open spec fn trim_start_at(b: Seq<u8>, from: int, to: int) -> int
    decreases to - from,
{
    if from < to && ws_at(b, from) > 0 && from + ws_at(b, from) <= to {
        trim_start_at(b, from + ws_at(b, from), to)
    } else {
        from
    }
}

/// End of `b[from..to]` once trailing white space is dropped.
pub open spec fn trim_end_at(b: Seq<u8>, from: int, to: int) -> int
    decreases to - from,
{
    if from < to && ws_before(b, to) > 0 && to - ws_before(b, to) >= from {
        trim_end_at(b, from, to - ws_before(b, to))
    } else {
        to
    }
}

/// `line` without surrounding white space, as `str::trim` gives it.
pub open spec fn trimmed_line(line: Seq<u8>) -> Seq<u8> {
    let a = trim_start_at(line, 0, line.len() as int);
    line.subrange(a, trim_end_at(line, a, line.len() as int))
}

/// `"*/"` stands at byte `i` of `t`.
pub open spec fn close_at(t: Seq<u8>, i: int) -> bool {
    0 <= i && i + 1 < t.len() && t[i] == 0x2a && t[i + 1] == 0x2f
}

/// `t` holds `"*/"` somewhere.
pub open spec fn has_close(t: Seq<u8>) -> bool {
    exists|i: int| #[trigger] close_at(t, i)
}

/// Whether a string literal is open after the quote characters of `line[i..]`, each
/// unescaped `"` or `'` toggling it.
pub open spec fn quotes_after(line: Seq<u8>, i: int, in_string: bool, escape: bool) -> bool
    decreases line.len() - i,
{
    if i < 0 || i >= line.len() {
        in_string
    } else {
        let c = line[i];
        if c == 0x5c && !escape {
            quotes_after(line, i + 1, in_string, true)
        } else {
            let s2 = if (c == 0x22 || c == 0x27) && !escape {
                !in_string
            } else {
                in_string
            };
            quotes_after(line, i + 1, s2, false)
        }
    }
}

/// First `\n` at or after `pos`, or the end.
pub open spec fn line_end(b: Seq<u8>, pos: int) -> int
    decreases b.len() - pos,
{
    if pos < 0 || pos >= b.len() || b[pos] == 0x0a {
        pos
    } else {
        line_end(b, pos + 1)
    }
}

/// End of the line that starts at `pos`, without its `\r\n` or `\n`.
pub open spec fn content_end(b: Seq<u8>, pos: int) -> int {
    let e = line_end(b, pos);
    if e < b.len() && e > pos && b[e - 1] == 0x0d {
        e - 1
    } else {
        e
    }
}

/// The delimiter scan over the lines from `pos`: block comments and string literals are
/// tracked across lines, and the first line that reads `---` once trimmed, outside both,
/// is reported as `(offset, offset + its length)`, where `offset` counts each earlier line
/// as its length plus one.
pub open spec fn delimiter_from(b: Seq<u8>, pos: int, in_block: bool, in_string: bool, offset: int) -> Option<
    (int, int),
>
    decreases b.len() + 1 - pos,
{
    if pos < 0 || pos >= b.len() {
        None
    } else {
        proof {
            lemma_line_end(b, pos);
        }
        let e = line_end(b, pos);
        let ce = content_end(b, pos);
        let s2 = if !in_block {
            quotes_after(b.subrange(pos, ce), 0, in_string, false)
        } else {
            in_string
        };
        let t = trimmed_line(b.subrange(pos, ce));
        let opens = t.len() >= 2 && t[0] == 0x2f && t[1] == 0x2a;
        let blk2 = if !s2 {
            if opens && !has_close(t) {
                true
            } else if has_close(t) {
                false
            } else {
                in_block
            }
        } else {
            in_block
        };
        if !blk2 && !s2 && t == seq![0x2du8, 0x2du8, 0x2du8] {
            Some((offset, offset + (ce - pos)))
        } else {
            delimiter_from(b, e + 1, blk2, s2, offset + (ce - pos) + 1)
        }
    }
}

pub proof fn lemma_line_end(b: Seq<u8>, pos: int)
    requires
        0 <= pos <= b.len(),
    ensures
        pos <= line_end(b, pos) <= b.len(),
        line_end(b, pos) < b.len() ==> b[line_end(b, pos)] == 0x0a,
    decreases b.len() - pos,
{
    if pos < b.len() && b[pos] != 0x0a {
        lemma_line_end(b, pos + 1);
    }
}

proof fn lemma_trim_start(b: Seq<u8>, from: int, to: int)
    requires
        from <= to,
    ensures
        from <= trim_start_at(b, from, to) <= to,
    decreases to - from,
{
    if from < to && ws_at(b, from) > 0 && from + ws_at(b, from) <= to {
        lemma_trim_start(b, from + ws_at(b, from), to);
    }
}

proof fn lemma_trim_end(b: Seq<u8>, from: int, to: int)
    requires
        from <= to,
    ensures
        from <= trim_end_at(b, from, to) <= to,
    decreases to - from,
{
    if from < to && ws_before(b, to) > 0 && to - ws_before(b, to) >= from {
        lemma_trim_end(b, from, to - ws_before(b, to));
    }
}

fn ws_len_at(b: &Vec<u8>, i: usize) -> (w: usize)
    requires
        i < b@.len(),
    ensures
        w == ws_at(b@, i as int),
{
    let c = b[i];
    if (0x09 <= c && c <= 0x0d) || c == 0x20 {
        return 1;
    }
    if b.len() - i > 1 && c == 0xc2 && (b[i + 1] == 0x85 || b[i + 1] == 0xa0) {
        return 2;
    }
    if b.len() - i > 2 {
        let c1 = b[i + 1];
        let c2 = b[i + 2];
        if (c == 0xe1 && c1 == 0x9a && c2 == 0x80) || (c == 0xe2 && c1 == 0x80 && ((0x80 <= c2 && c2 <= 0x8a) || c2
            == 0xa8 || c2 == 0xa9 || c2 == 0xaf)) || (c == 0xe2 && c1 == 0x81 && c2 == 0x9f) || (c == 0xe3 && c1
            == 0x80 && c2 == 0x80) {
            return 3;
        }
    }
    0
}

fn ws_len_before(b: &Vec<u8>, j: usize) -> (w: usize)
    requires
        j <= b@.len(),
    ensures
        w == ws_before(b@, j as int),
{
    if j >= 1 && ws_len_at(b, j - 1) == 1 {
        return 1;
    }
    if j >= 2 && ws_len_at(b, j - 2) == 2 {
        return 2;
    }
    if j >= 3 && ws_len_at(b, j - 3) == 3 {
        return 3;
    }
    0
}

/// The trimmed part of `line`.
fn trim_line(line: &Vec<u8>) -> (t: Vec<u8>)
    ensures
        t@ == trimmed_line(line@),
{
    let n = line.len();
    let mut a: usize = 0;
    loop
        invariant
            0 <= a <= n,
            n == line@.len(),
            trim_start_at(line@, 0, n as int) == trim_start_at(line@, a as int, n as int),
        ensures
            0 <= a <= n,
            trim_start_at(line@, 0, n as int) == a,
        decreases n - a,
    {
        if a >= n {
            break;
        }
        let w = ws_len_at(line, a);
        if w == 0 || w > n - a {
            break;
        }
        a = a + w;
    }
    let mut e: usize = n;
    loop
        invariant
            a <= e <= n,
            n == line@.len(),
            trim_start_at(line@, 0, n as int) == a,
            trim_end_at(line@, a as int, n as int) == trim_end_at(line@, a as int, e as int),
        ensures
            a <= e <= n,
            trim_end_at(line@, a as int, n as int) == e,
        decreases e - a,
    {
        if e <= a {
            break;
        }
        let w = ws_len_before(line, e);
        if w == 0 || e - a < w {
            break;
        }
        e = e - w;
    }
    let mut t: Vec<u8> = Vec::new();
    let mut k: usize = a;
    while k < e
        invariant
            a <= k <= e <= n,
            n == line@.len(),
            t@ == line@.subrange(a as int, k as int),
        decreases e - k,
    {
        t.push(line[k]);
        proof {
            assert(line@.subrange(a as int, k + 1) =~= line@.subrange(a as int, k as int).push(line@[k as int]));
        }
        k = k + 1;
    }
    t
}

fn copy_line(b: &[u8], from: usize, to: usize) -> (v: Vec<u8>)
    requires
        from <= to <= b@.len(),
    ensures
        v@ == b@.subrange(from as int, to as int),
{
    let mut v: Vec<u8> = Vec::new();
    let mut k: usize = from;
    while k < to
        invariant
            from <= k <= to <= b@.len(),
            v@ == b@.subrange(from as int, k as int),
        decreases to - k,
    {
        v.push(b[k]);
        proof {
            assert(b@.subrange(from as int, k + 1) =~= b@.subrange(from as int, k as int).push(b@[k as int]));
        }
        k = k + 1;
    }
    v
}

fn quote_scan(line: &Vec<u8>, in_string: bool) -> (r: bool)
    ensures
        r == quotes_after(line@, 0, in_string, false),
{
    let mut s = in_string;
    let mut escape = false;
    let mut i: usize = 0;
    while i < line.len()
        invariant
            0 <= i <= line@.len(),
            quotes_after(line@, 0, in_string, false) == quotes_after(line@, i as int, s, escape),
        decreases line.len() - i,
    {
        let c = line[i];
        if c == 0x5c && !escape {
            escape = true;
        } else {
            if (c == 0x22 || c == 0x27) && !escape {
                s = !s;
            }
            escape = false;
        }
        i = i + 1;
    }
    s
}

fn contains_close(t: &Vec<u8>) -> (r: bool)
    ensures
        r == has_close(t@),
{
    let mut i: usize = 0;
    while i < t.len() && t.len() - i >= 2
        invariant
            0 <= i,
            i <= t@.len(),
            forall|j: int| 0 <= j < i ==> !#[trigger] close_at(t@, j),
        decreases t.len() - i,
    {
        if t[i] == 0x2a && t[i + 1] == 0x2f {
            assert(close_at(t@, i as int));
            return true;
        }
        i = i + 1;
    }
    assert forall|j: int| !#[trigger] close_at(t@, j) by {
        if 0 <= j < i {
        }
    }
    false
}

/// Finds the standalone `---` line that separates an envelope header from the body,
/// outside string literals and block comments; its byte offset and end, counted as the
/// scan counts them.
pub fn find_explicit_delimiter_line(source: &str) -> (r: Option<(usize, usize)>)
    ensures
        match delimiter_from(source.spec_bytes(), 0, false, false, 0) {
            Some((a, e)) => r matches Some(p) && p.0 == a && p.1 == e,
            None => r is None,
        },
{
    let b = source.as_bytes();
    let ghost bb = b@;
    let n = b.len();
    let mut in_block = false;
    let mut in_string = false;
    let mut offset: usize = 0;
    let mut pos: usize = 0;
    while pos < n
        invariant
            bb == b@,
            bb == source.spec_bytes(),
            n == bb.len(),
            offset <= pos <= n,
            delimiter_from(bb, 0, false, false, 0) == delimiter_from(
                bb,
                pos as int,
                in_block,
                in_string,
                offset as int,
            ),
        decreases n - pos,
    {
        let mut e = pos;
        proof {
            lemma_line_end(bb, pos as int);
        }
        while e < n && b[e] != 0x0a
            invariant
                pos <= e <= n,
                n == bb.len(),
                bb == b@,
                line_end(bb, pos as int) == line_end(bb, e as int),
            decreases n - e,
        {
            e = e + 1;
        }
        let ce = if e < n && e > pos && b[e - 1] == 0x0d {
            e - 1
        } else {
            e
        };
        let line = copy_line(b, pos, ce);
        let s2 = if !in_block {
            quote_scan(&line, in_string)
        } else {
            in_string
        };
        let t = trim_line(&line);
        let opens = t.len() >= 2 && t[0] == 0x2f && t[1] == 0x2a;
        let closes = contains_close(&t);
        let blk2 = if !s2 {
            if opens && !closes {
                true
            } else if closes {
                false
            } else {
                in_block
            }
        } else {
            in_block
        };
        let dashes = t.len() == 3 && t[0] == 0x2d && t[1] == 0x2d && t[2] == 0x2d;
        proof {
            assert(dashes == (t@ == seq![0x2du8, 0x2du8, 0x2du8])) by {
                if t@ == seq![0x2du8, 0x2du8, 0x2du8] {
                    assert(t@[0] == 0x2d && t@[1] == 0x2d && t@[2] == 0x2d);
                }
                if dashes {
                    assert(t@ =~= seq![0x2du8, 0x2du8, 0x2du8]);
                }
            }
        }
        if !blk2 && !s2 && dashes {
            return Some((offset, offset + (ce - pos)));
        }
        if e >= n {
            assert(delimiter_from(bb, e + 1, blk2, s2, offset + (ce - pos) + 1) is None);
            return None;
        }
        offset = offset + (ce - pos) + 1;
        pos = e + 1;
        in_block = blk2;
        in_string = s2;
    }
    None
}

/// Number of `\r` and `\n` bytes that open `b`.
pub open spec fn leading_newlines(b: Seq<u8>, i: int) -> int
    decreases b.len() - i,
{
    if 0 <= i < b.len() && (b[i] == 0x0d || b[i] == 0x0a) {
        leading_newlines(b, i + 1)
    } else {
        i
    }
}

/// The delimiter found in `source`, if any, falls on character boundaries.
pub open spec fn delimiter_on_boundaries(source: &str) -> bool {
    match delimiter_from(source.spec_bytes(), 0, false, false, 0) {
        Some((a, e)) => is_char_boundary(source.spec_bytes(), a) && is_char_boundary(source.spec_bytes(), e),
        None => true,
    }
}

proof fn lemma_ascii_prefix_boundary(bytes: Seq<u8>, k: int)
    requires
        valid_utf8(bytes),
        0 <= k <= bytes.len(),
        forall|i: int| 0 <= i < k ==> bytes[i] < 0x80,
    ensures
        is_char_boundary(bytes, k),
    decreases k,
{
    if k > 0 {
        assert(bytes[0] < 0x80);
        assert(length_of_first_scalar(bytes) == 1);
        let rest = pop_first_scalar(bytes);
        assert(rest =~= bytes.subrange(1, bytes.len() as int));
        assert forall|i: int| 0 <= i < k - 1 implies rest[i] < 0x80 by {
            assert(rest[i] == bytes[i + 1]);
        }
        lemma_ascii_prefix_boundary(rest, k - 1);
    }
}

/// Splits envelope source into header and body at the standalone `---` line: the header
/// is everything before the delimiter line; the body is what follows it, without the
/// line breaks that open it. Without a delimiter, all of the source is header.
pub fn split_header_body(source: &str) -> (r: (&str, &str))
    requires
        delimiter_on_boundaries(source),
    ensures
        match delimiter_from(source.spec_bytes(), 0, false, false, 0) {
            Some((a, e)) => {
                let rest = source.spec_bytes().subrange(e, source.spec_bytes().len() as int);
                &&& r.0.spec_bytes() == source.spec_bytes().subrange(0, a)
                &&& r.1.spec_bytes() == rest.subrange(leading_newlines(rest, 0), rest.len() as int)
            },
            None => r.0@ == source@ && r.1@.len() == 0,
        },
{
    match find_explicit_delimiter_line(source) {
        Some((a, e)) => {
            let (header, _) = source.split_at(a);
            let (_, rest) = source.split_at(e);
            let rb = rest.as_bytes();
            let mut k: usize = 0;
            while k < rb.len() && (rb[k] == 0x0d || rb[k] == 0x0a)
                invariant
                    0 <= k <= rb@.len(),
                    leading_newlines(rb@, 0) == leading_newlines(rb@, k as int),
                    forall|i: int| 0 <= i < k ==> rb@[i] < 0x80,
                decreases rb.len() - k,
            {
                k = k + 1;
            }
            proof {
                vstd::utf8::encode_utf8_valid_utf8(rest@);
                lemma_ascii_prefix_boundary(rest.spec_bytes(), k as int);
            }
            let (_, body) = rest.split_at(k);
            (header, body)
        },
        None => {
            proof {
                reveal_strlit("");
            }
            (source, "")
        },
    }
}

} // verus!
