use vstd::prelude::*;

verus! {

/// Unicode `White_Space` characters, as `char::is_whitespace` classifies them.
pub open spec fn is_ws(c: char) -> bool {
    let u = c as u32;
    (0x09 <= u && u <= 0x0d) || u == 0x20 || u == 0x85 || u == 0xa0 || u == 0x1680 || (0x2000 <= u && u
        <= 0x200a) || u == 0x2028 || u == 0x2029 || u == 0x202f || u == 0x205f || u == 0x3000
}

pub open spec fn is_ascii_alpha(c: char) -> bool {
    ('a' <= c && c <= 'z') || ('A' <= c && c <= 'Z')
}

pub open spec fn is_ascii_digit(c: char) -> bool {
    '0' <= c && c <= '9'
}

/// Number of leading whitespace characters.
pub open spec fn lead_ws(s: Seq<char>) -> nat
    decreases s.len(),
{
    if s.len() > 0 && is_ws(s[0]) {
        1 + lead_ws(s.subrange(1, s.len() as int))
    } else {
        0
    }
}

/// Number of trailing whitespace characters.
pub open spec fn trail_ws(s: Seq<char>) -> nat
    decreases s.len(),
{
    if s.len() > 0 && is_ws(s.last()) {
        1 + trail_ws(s.drop_last())
    } else {
        0
    }
}

/// `s` without leading and trailing whitespace, as `str::trim` gives it.
pub open spec fn trim_chars(s: Seq<char>) -> Seq<char> {
    if lead_ws(s) >= s.len() {
        Seq::empty()
    } else {
        s.subrange(lead_ws(s) as int, s.len() - trail_ws(s))
    }
}

/// A character that can begin an identifier: an ASCII letter or `_`.
pub open spec fn ident_start(c: char) -> bool {
    is_ascii_alpha(c) || c == '_'
}

/// A character that can continue an identifier: an ASCII letter, digit, `_` or `'`.
pub open spec fn ident_rest(c: char) -> bool {
    is_ascii_alpha(c) || is_ascii_digit(c) || c == '_' || c == '\''
}

/// An identifier: an ASCII letter or `_`, then ASCII letters, digits, `_` or `'`.
pub open spec fn is_ident(t: Seq<char>) -> bool {
    &&& t.len() > 0
    &&& ident_start(t[0])
    &&& forall|k: int| 1 <= k < t.len() ==> ident_rest(#[trigger] t[k])
}

/// At position `k` of a dotted path: an identifier character, or a `.` that ends one
/// segment and is followed by the start of the next.
pub open spec fn path_char_ok(t: Seq<char>, k: int) -> bool {
    ident_rest(t[k]) || (t[k] == '.' && k + 1 < t.len() && ident_start(t[k + 1]))
}

/// A dotted Lean path such as `Foundations.ADR.Foo.bar`: one or more identifiers joined by
/// single dots. The first character starts an identifier, and every dot is followed by the
/// start of the next identifier, so no segment is empty and the path neither starts nor
/// ends with a dot.
pub open spec fn is_dotted_path(t: Seq<char>) -> bool {
    &&& t.len() > 0
    &&& ident_start(t[0])
    &&& forall|k: int| 1 <= k < t.len() ==> #[trigger] path_char_ok(t, k)
}

/// A theorem anchor: an identifier, or a dotted path of identifiers, once surrounding
/// whitespace is trimmed.
pub open spec fn anchor_ok(s: Seq<char>) -> bool {
    is_dotted_path(trim_chars(s))
}

/// Every identifier is a path of one segment.
pub proof fn lemma_ident_is_path(t: Seq<char>)
    requires
        is_ident(t),
    ensures
        is_dotted_path(t),
{
    assert forall|k: int| 1 <= k < t.len() implies #[trigger] path_char_ok(t, k) by {
        assert(ident_rest(t[k]));
    }
}

/// Joining two dotted paths with a dot gives a dotted path.
pub proof fn lemma_path_join(a: Seq<char>, b: Seq<char>)
    requires
        is_dotted_path(a),
        is_dotted_path(b),
    ensures
        is_dotted_path(a + seq!['.'] + b),
{
    let t = a + seq!['.'] + b;
    assert forall|k: int| 1 <= k < t.len() implies #[trigger] path_char_ok(t, k) by {
        if k < a.len() {
            assert(t[k] == a[k]);
            if k + 1 < a.len() {
                assert(t[k + 1] == a[k + 1]);
            }
            assert(path_char_ok(a, k));
            if a[k] == '.' {
                assert(k + 1 < a.len());
            }
        } else if k == a.len() {
            assert(t[k + 1] == b[0]);
        } else {
            let j = k - a.len() - 1;
            assert(t[k] == b[j]);
            if j == 0 {
                assert(ident_start(b[0]));
            } else {
                assert(path_char_ok(b, j));
                if j + 1 < b.len() {
                    assert(t[k + 1] == b[j + 1]);
                }
            }
        }
    }
}

pub fn is_ws_char(c: char) -> (b: bool)
    ensures
        b == is_ws(c),
{
    let u = c as u32;
    (0x09 <= u && u <= 0x0d) || u == 0x20 || u == 0x85 || u == 0xa0 || u == 0x1680 || (0x2000 <= u && u
        <= 0x200a) || u == 0x2028 || u == 0x2029 || u == 0x202f || u == 0x205f || u == 0x3000
}

proof fn lemma_lead_step(s: Seq<char>, i: int)
    requires
        0 <= i < s.len(),
    ensures
        lead_ws(s.subrange(i, s.len() as int)) == if is_ws(s[i]) {
            1 + lead_ws(s.subrange(i + 1, s.len() as int))
        } else {
            0
        },
{
    let t = s.subrange(i, s.len() as int);
    assert(t.subrange(1, t.len() as int) =~= s.subrange(i + 1, s.len() as int));
}

proof fn lemma_trail_step(s: Seq<char>, j: int)
    requires
        0 < j <= s.len(),
    ensures
        trail_ws(s.take(j)) == if is_ws(s[j - 1]) {
            1 + trail_ws(s.take(j - 1))
        } else {
            0
        },
{
    assert(s.take(j).drop_last() =~= s.take(j - 1));
}

/// Bounds `(a, b)` of the trimmed part of `s`.
pub fn trim_bounds(s: &str) -> (r: (usize, usize))
    ensures
        r.0 == lead_ws(s@),
        r.0 < s@.len() ==> r.1 == s@.len() - trail_ws(s@) && r.0 < r.1,
        r.0 >= s@.len() ==> r.0 == s@.len(),
        r.0 <= r.1 <= s@.len(),
{
    let n = s.unicode_len();
    let ghost v = s@;
    let mut i: usize = 0;
    assert(v.subrange(0, n as int) =~= v);
    while i < n && is_ws_char(s.get_char(i))
        invariant
            0 <= i <= n,
            n == v.len(),
            v == s@,
            lead_ws(v) == i + lead_ws(v.subrange(i as int, n as int)),
        decreases n - i,
    {
        proof {
            lemma_lead_step(v, i as int);
        }
        i = i + 1;
    }
    proof {
        if i < n {
            lemma_lead_step(v, i as int);
        } else {
            assert(v.subrange(i as int, n as int).len() == 0);
        }
    }
    let mut j: usize = n;
    if i < n {
        assert(v.take(n as int) =~= v);
        while j > i && is_ws_char(s.get_char(j - 1))
            invariant
                i < n,
                i < j <= n,
                n == v.len(),
                v == s@,
                !is_ws(v[i as int]),
                trail_ws(v) == (n - j) + trail_ws(v.take(j as int)),
            decreases j,
        {
            proof {
                lemma_trail_step(v, j as int);
            }
            j = j - 1;
        }
        proof {
            lemma_trail_step(v, j as int);
            assert(v.take(n as int) =~= v);
        }
    }
    (i, j)
}

/// Trims whitespace from both ends of `s`.
pub fn trimmed(s: &str) -> (t: String)
    ensures
        t@ == trim_chars(s@),
{
    let (a, b) = trim_bounds(s);
    if a >= b {
        return String::new();
    }
    s.substring_char(a, b).to_owned()
}

/// Whether `name`, once trimmed, is an identifier or a dotted path of identifiers that can
/// name a theorem.
pub fn is_theorem_anchor(name: &str) -> (b: bool)
    ensures
        b == anchor_ok(name@),
{
    let (a, e) = trim_bounds(name);
    let ghost t = trim_chars(name@);
    if a >= e {
        return false;
    }
    proof {
        assert(t =~= name@.subrange(a as int, e as int));
    }
    let c0 = name.get_char(a);
    assert(t[0] == c0);
    if !(('a' <= c0 && c0 <= 'z') || ('A' <= c0 && c0 <= 'Z') || c0 == '_') {
        return false;
    }
    let mut k: usize = a + 1;
    while k < e
        invariant
            a < k <= e,
            e <= name@.len(),
            t == trim_chars(name@),
            t =~= name@.subrange(a as int, e as int),
            forall|m: int| 1 <= m < k - a ==> #[trigger] path_char_ok(t, m),
        decreases e - k,
    {
        let c = name.get_char(k);
        proof {
            assert(t[k - a] == c);
        }
        let rest = ('a' <= c && c <= 'z') || ('A' <= c && c <= 'Z') || ('0' <= c && c <= '9') || c == '_'
            || c == '\'';
        if !rest {
            if c != '.' || k + 1 >= e {
                proof {
                    assert(!path_char_ok(t, k - a));
                }
                return false;
            }
            let d = name.get_char(k + 1);
            proof {
                assert(t[k + 1 - a] == d);
            }
            if !(('a' <= d && d <= 'z') || ('A' <= d && d <= 'Z') || d == '_') {
                proof {
                    assert(!path_char_ok(t, k - a));
                }
                return false;
            }
        }
        proof {
            assert(path_char_ok(t, k - a));
        }
        k = k + 1;
    }
    true
}

/// Trimming twice trims no more than trimming once.
pub proof fn law_trim_idempotent(s: Seq<char>)
    ensures
        trim_chars(trim_chars(s)) == trim_chars(s),
{
    let t = trim_chars(s);
    if lead_ws(s) < s.len() {
        lemma_lead_stops(s);
        lemma_trail_stops(s);
        let a = lead_ws(s) as int;
        let b = s.len() - trail_ws(s);
        assert(t.len() > 0);
        assert(t[0] == s[a]);
        assert(!is_ws(t[0]));
        assert(lead_ws(t) == 0);
        assert(t.last() == s[b - 1]);
        assert(trail_ws(t) == 0);
        assert(t.subrange(0, t.len() as int) =~= t);
    }
}

proof fn lemma_lead_stops(s: Seq<char>)
    ensures
        lead_ws(s) <= s.len(),
        lead_ws(s) < s.len() ==> !is_ws(s[lead_ws(s) as int]),
        forall|k: int| 0 <= k < lead_ws(s) ==> is_ws(#[trigger] s[k]),
    decreases s.len(),
{
    if s.len() > 0 && is_ws(s[0]) {
        let r = s.subrange(1, s.len() as int);
        lemma_lead_stops(r);
        assert forall|k: int| 0 <= k < lead_ws(s) implies is_ws(#[trigger] s[k]) by {
            if k > 0 {
                assert(s[k] == r[k - 1]);
            }
        }
        if lead_ws(s) < s.len() {
            assert(s[lead_ws(s) as int] == r[lead_ws(r) as int]);
        }
    }
}

proof fn lemma_trail_stops(s: Seq<char>)
    ensures
        trail_ws(s) <= s.len(),
        trail_ws(s) < s.len() ==> !is_ws(s[s.len() - 1 - trail_ws(s)]),
        forall|k: int| s.len() - trail_ws(s) <= k < s.len() ==> is_ws(#[trigger] s[k]),
        lead_ws(s) < s.len() ==> lead_ws(s) + trail_ws(s) < s.len(),
    decreases s.len(),
{
    lemma_lead_stops(s);
    if s.len() > 0 && is_ws(s.last()) {
        let r = s.drop_last();
        lemma_trail_stops(r);
        lemma_lead_stops(r);
        assert forall|k: int| s.len() - trail_ws(s) <= k < s.len() implies is_ws(#[trigger] s[k]) by {
            if k < s.len() - 1 {
                assert(s[k] == r[k]);
            }
        }
        if trail_ws(s) < s.len() {
            assert(s[s.len() - 1 - trail_ws(s)] == r[r.len() - 1 - trail_ws(r)]);
        }
        if lead_ws(s) < s.len() {
            lemma_lead_prefix(s);
        }
    }
}

proof fn lemma_lead_prefix(s: Seq<char>)
    requires
        s.len() > 0,
        lead_ws(s) < s.len(),
        is_ws(s.last()),
    ensures
        lead_ws(s.drop_last()) == lead_ws(s),
        lead_ws(s) < s.len() - 1,
    decreases s.len(),
{
    lemma_lead_stops(s);
    if is_ws(s[0]) {
        let r = s.subrange(1, s.len() as int);
        assert(r.last() == s.last());
        lemma_lead_prefix(r);
        assert(s.drop_last().subrange(1, s.len() - 1) =~= r.drop_last());
    } else {
        assert(s.len() > 1);
    }
}

} // verus!
