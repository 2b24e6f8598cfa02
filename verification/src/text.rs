//! Verified string utilities used by the extractor and the renderer:
//! whitespace trimming, splitting on a separator character, token
//! extraction, joining, and character-wise comparisons.

use vstd::prelude::*;
use vstd::string::*;

verus! {

/// A character with the Unicode `White_Space` property; this is the set
/// of characters that `str::trim` removes at either end.
pub open spec fn is_ws_char(c: char) -> bool {
    c == ' ' || c == '\u{09}' || c == '\u{0A}' || c == '\u{0B}' || c == '\u{0C}'
        || c == '\u{0D}' || c == '\u{85}' || c == '\u{A0}' || c == '\u{1680}'
        || c == '\u{2000}' || c == '\u{2001}' || c == '\u{2002}' || c == '\u{2003}'
        || c == '\u{2004}' || c == '\u{2005}' || c == '\u{2006}' || c == '\u{2007}'
        || c == '\u{2008}' || c == '\u{2009}' || c == '\u{200A}' || c == '\u{2028}'
        || c == '\u{2029}' || c == '\u{202F}' || c == '\u{205F}' || c == '\u{3000}'
}

/// An ASCII whitespace character, the set on which the first token of a
/// category label ends.
pub open spec fn is_ascii_ws_char(c: char) -> bool {
    c == ' ' || c == '\u{09}' || c == '\u{0A}' || c == '\u{0C}' || c == '\u{0D}'
}

pub fn is_ws(c: char) -> (r: bool)
    ensures
        r == is_ws_char(c),
{
    c == ' ' || c == '\u{09}' || c == '\u{0A}' || c == '\u{0B}' || c == '\u{0C}'
        || c == '\u{0D}' || c == '\u{85}' || c == '\u{A0}' || c == '\u{1680}'
        || c == '\u{2000}' || c == '\u{2001}' || c == '\u{2002}' || c == '\u{2003}'
        || c == '\u{2004}' || c == '\u{2005}' || c == '\u{2006}' || c == '\u{2007}'
        || c == '\u{2008}' || c == '\u{2009}' || c == '\u{200A}' || c == '\u{2028}'
        || c == '\u{2029}' || c == '\u{202F}' || c == '\u{205F}' || c == '\u{3000}'
}

pub fn is_ascii_ws(c: char) -> (r: bool)
    ensures
        r == is_ascii_ws_char(c),
{
    c == ' ' || c == '\u{09}' || c == '\u{0A}' || c == '\u{0C}' || c == '\u{0D}'
}

/// Length of the longest all-whitespace prefix of `s`.
pub open spec fn ws_prefix_len(s: Seq<char>) -> nat
    decreases s.len(),
{
    if s.len() > 0 && is_ws_char(s[0]) {
        1 + ws_prefix_len(s.skip(1))
    } else {
        0
    }
}

/// Length of the longest all-whitespace suffix of `s`.
pub open spec fn ws_suffix_len(s: Seq<char>) -> nat
    decreases s.len(),
{
    if s.len() > 0 && is_ws_char(s[s.len() - 1]) {
        1 + ws_suffix_len(s.take(s.len() - 1))
    } else {
        0
    }
}

proof fn lemma_ws_prefix_len_is(s: Seq<char>, i: int)
    requires
        0 <= i <= s.len(),
        forall|k: int| 0 <= k < i ==> is_ws_char(s[k]),
        i == s.len() || !is_ws_char(s[i]),
    ensures
        ws_prefix_len(s) == i,
    decreases s.len(),
{
    if s.len() == 0 {
    } else if is_ws_char(s[0]) {
        assert(i >= 1);
        let t = s.skip(1);
        assert(forall|k: int| 0 <= k < i - 1 ==> t[k] == s[k + 1]);
        lemma_ws_prefix_len_is(t, i - 1);
    } else {
        assert(i == 0);
    }
}

proof fn lemma_ws_suffix_len_is(s: Seq<char>, j: int)
    requires
        0 <= j <= s.len(),
        forall|k: int| s.len() - j <= k < s.len() ==> is_ws_char(s[k]),
        j == s.len() || !is_ws_char(s[s.len() - j - 1]),
    ensures
        ws_suffix_len(s) == j,
    decreases s.len(),
{
    if s.len() == 0 {
    } else if is_ws_char(s[s.len() - 1]) {
        assert(j >= 1);
        let t = s.take(s.len() - 1);
        assert(forall|k: int| t.len() - (j - 1) <= k < t.len() ==> is_ws_char(t[k]));
        lemma_ws_suffix_len_is(t, j - 1);
    } else {
        assert(j == 0);
    }
}

/// `s` with leading and trailing whitespace removed, as `str::trim`
/// leaves it.
pub open spec fn trim_spec(s: Seq<char>) -> Seq<char> {
    let t = s.skip(ws_prefix_len(s) as int);
    t.take(t.len() - ws_suffix_len(t))
}

pub fn trim_of(s: &str) -> (r: String)
    ensures
        r@ == trim_spec(s@),
{
    let n = s.unicode_len();
    let mut i: usize = 0;
    while i < n && is_ws(s.get_char(i))
        invariant
            0 <= i <= n == s@.len(),
            forall|k: int| 0 <= k < i ==> is_ws_char(s@[k]),
        decreases n - i,
    {
        i = i + 1;
    }
    proof {
        lemma_ws_prefix_len_is(s@, i as int);
    }
    let mut j: usize = n;
    while j > i && is_ws(s.get_char(j - 1))
        invariant
            i <= j <= n == s@.len(),
            forall|k: int| j <= k < n ==> is_ws_char(s@[k]),
        decreases j,
    {
        j = j - 1;
    }
    proof {
        let t = s@.skip(i as int);
        assert(forall|k: int| t.len() - (n - j) <= k < t.len() ==> is_ws_char(t[k]));
        if j > i {
            assert(!is_ws_char(t[t.len() - (n - j) - 1]));
        }
        lemma_ws_suffix_len_is(t, n - j);
        assert(t.take(t.len() - (n - j)) =~= s@.subrange(i as int, j as int));
    }
    let r = s.substring_char(i, j);
    r.to_owned()
}

/// Index of the first occurrence of `c` in `s`, or `-1` when absent.
pub open spec fn first_idx(s: Seq<char>, c: char) -> int
    decreases s.len(),
{
    if s.len() == 0 {
        -1
    } else if s[0] == c {
        0
    } else {
        let r = first_idx(s.skip(1), c);
        if r == -1 {
            -1
        } else {
            r + 1
        }
    }
}

pub proof fn lemma_first_idx_bounds(s: Seq<char>, c: char)
    ensures
        first_idx(s, c) == -1 ==> (forall|k: int| 0 <= k < s.len() ==> s[k] != c),
        first_idx(s, c) != -1 ==> 0 <= first_idx(s, c) < s.len() && s[first_idx(s, c)] == c
            && (forall|k: int| 0 <= k < first_idx(s, c) ==> s[k] != c),
    decreases s.len(),
{
    if s.len() == 0 {
    } else if s[0] == c {
    } else {
        let t = s.skip(1);
        lemma_first_idx_bounds(t, c);
        assert(forall|k: int| 1 <= k < s.len() ==> s[k] == t[k - 1]);
        let r = first_idx(t, c);
        if r == -1 {
            assert forall|k: int| 0 <= k < s.len() implies s[k] != c by {
                if k >= 1 {
                    assert(s[k] == t[k - 1]);
                }
            }
        } else {
            assert(s[r + 1] == t[r]);
            assert forall|k: int| 0 <= k < r + 1 implies s[k] != c by {
                if k >= 1 {
                    assert(s[k] == t[k - 1]);
                }
            }
        }
    }
}

proof fn lemma_first_idx_is(s: Seq<char>, c: char, i: int)
    requires
        0 <= i <= s.len(),
        forall|k: int| 0 <= k < i ==> s[k] != c,
        i == s.len() || s[i] == c,
    ensures
        first_idx(s, c) == if i == s.len() { -1int } else { i },
    decreases s.len(),
{
    if s.len() == 0 {
    } else if s[0] == c {
        assert(i == 0);
    } else {
        assert(i >= 1);
        let t = s.skip(1);
        assert(forall|k: int| 0 <= k < i - 1 ==> t[k] == s[k + 1]);
        lemma_first_idx_is(t, c, i - 1);
    }
}

/// First index of `c` in `s`, scanning left to right.
pub fn find_char(s: &str, c: char) -> (r: Option<usize>)
    ensures
        match r {
            Some(i) => first_idx(s@, c) == i as int,
            None => first_idx(s@, c) == -1,
        },
{
    let n = s.unicode_len();
    let mut i: usize = 0;
    while i < n && s.get_char(i) != c
        invariant
            0 <= i <= n == s@.len(),
            forall|k: int| 0 <= k < i ==> s@[k] != c,
        decreases n - i,
    {
        i = i + 1;
    }
    proof {
        lemma_first_idx_is(s@, c, i as int);
    }
    if i < n {
        Some(i)
    } else {
        None
    }
}

/// The views of a sequence of strings.
pub open spec fn seq_views(v: Seq<String>) -> Seq<Seq<char>> {
    Seq::new(v.len(), |i: int| v[i]@)
}

/// Every member trimmed.
pub open spec fn trim_all(v: Seq<Seq<char>>) -> Seq<Seq<char>> {
    Seq::new(v.len(), |i: int| trim_spec(v[i]))
}

/// The segments of `s` between occurrences of `c`; splitting always
/// yields at least one segment.
pub open spec fn split_char(s: Seq<char>, c: char) -> Seq<Seq<char>>
    decreases s.len(),
    via split_char_decreases
{
    let i = first_idx(s, c);
    if i == -1 {
        seq![s]
    } else {
        seq![s.take(i)] + split_char(s.skip(i + 1), c)
    }
}

#[via_fn]
proof fn split_char_decreases(s: Seq<char>, c: char) {
    lemma_first_idx_bounds(s, c);
}

/// Splits `s` on `c` and trims every segment.
pub fn split_trim(s: &str, c: char) -> (r: Vec<String>)
    ensures
        seq_views(r@) == trim_all(split_char(s@, c)),
        r@.len() >= 1,
    decreases s@.len(),
{
    proof {
        lemma_first_idx_bounds(s@, c);
    }
    match find_char(s, c) {
        None => {
            let mut v: Vec<String> = Vec::new();
            v.push(trim_of(s));
            proof {
                assert(split_char(s@, c) =~= seq![s@]);
                assert(seq_views(v@) =~= trim_all(split_char(s@, c)));
            }
            v
        },
        Some(i) => {
            let n = s.unicode_len();
            let head = s.substring_char(0, i);
            let rest = s.substring_char(i + 1, n);
            let mut v: Vec<String> = Vec::new();
            v.push(trim_of(head));
            let tail = split_trim(rest, c);
            proof {
                assert(head@ =~= s@.take(i as int));
                assert(rest@ =~= s@.skip(i + 1));
            }
            let ghost vh = v@;
            let mut k: usize = 0;
            let tn = tail.len();
            while k < tn
                invariant
                    0 <= k <= tn == tail@.len(),
                    v@ == vh + tail@.take(k as int),
                    vh.len() == 1,
                decreases tn - k,
            {
                let item = tail[k].clone();
                assert(item@ == tail@[k as int]@);
                v.push(item);
                assert(v@ =~= vh + tail@.take(k + 1));
                k = k + 1;
            }
            proof {
                assert(v@ =~= vh + tail@);
                assert(split_char(s@, c) =~= seq![s@.take(i as int)] + split_char(rest@, c));
                assert(seq_views(tail@).len() == trim_all(split_char(rest@, c)).len());
                assert forall|j: int| 0 <= j < tail@.len() implies tail@[j]@ == trim_spec(
                    split_char(rest@, c)[j],
                ) by {
                    assert(seq_views(tail@)[j] == trim_all(split_char(rest@, c))[j]);
                }
                assert(seq_views(v@) =~= trim_all(split_char(s@, c)));
            }
            v
        },
    }
}

/// Length of the longest prefix of `s` free of ASCII whitespace.
pub open spec fn token_prefix_len(s: Seq<char>) -> nat
    decreases s.len(),
{
    if s.len() > 0 && !is_ascii_ws_char(s[0]) {
        1 + token_prefix_len(s.skip(1))
    } else {
        0
    }
}

proof fn lemma_token_prefix_len_is(s: Seq<char>, i: int)
    requires
        0 <= i <= s.len(),
        forall|k: int| 0 <= k < i ==> !is_ascii_ws_char(s[k]),
        i == s.len() || is_ascii_ws_char(s[i]),
    ensures
        token_prefix_len(s) == i,
    decreases s.len(),
{
    if s.len() == 0 {
    } else if !is_ascii_ws_char(s[0]) {
        assert(i >= 1);
        let t = s.skip(1);
        assert(forall|k: int| 0 <= k < i - 1 ==> t[k] == s[k + 1]);
        lemma_token_prefix_len_is(t, i - 1);
    } else {
        assert(i == 0);
    }
}

/// The first whitespace-delimited token of `s`, after trimming; `None`
/// when the trimmed text is empty.
pub open spec fn first_token_spec(s: Seq<char>) -> Option<Seq<char>> {
    let t = trim_spec(s);
    if t.len() == 0 {
        None
    } else {
        Some(t.take(token_prefix_len(t) as int))
    }
}

pub fn first_token_of(s: &str) -> (r: Option<String>)
    ensures
        match r {
            Some(t) => first_token_spec(s@) == Some(t@),
            None => first_token_spec(s@) is None,
        },
{
    let t = trim_of(s);
    let n = t.as_str().unicode_len();
    if n == 0 {
        return None;
    }
    let mut i: usize = 0;
    while i < n && !is_ascii_ws(t.as_str().get_char(i))
        invariant
            0 <= i <= n == t@.len(),
            forall|k: int| 0 <= k < i ==> !is_ascii_ws_char(t@[k]),
        decreases n - i,
    {
        i = i + 1;
    }
    proof {
        lemma_token_prefix_len_is(t@, i as int);
    }
    let tok = t.as_str().substring_char(0, i);
    proof {
        assert(tok@ =~= t@.take(i as int));
    }
    Some(tok.to_owned())
}

/// The members of `parts` joined with `sep` between neighbours.
pub open spec fn join_sep(parts: Seq<Seq<char>>, sep: Seq<char>) -> Seq<char>
    decreases parts.len(),
{
    if parts.len() == 0 {
        Seq::empty()
    } else if parts.len() == 1 {
        parts[0]
    } else {
        parts[0] + sep + join_sep(parts.skip(1), sep)
    }
}

fn join_from(parts: &Vec<String>, k: usize, sep: &str) -> (r: String)
    requires
        k <= parts@.len(),
    ensures
        r@ == join_sep(seq_views(parts@).skip(k as int), sep@),
    decreases parts@.len() - k,
{
    let ghost views = seq_views(parts@);
    if k == parts.len() {
        let r = String::new();
        assert(views.skip(k as int) =~= Seq::<Seq<char>>::empty());
        r
    } else if k + 1 == parts.len() {
        let r = parts[k].clone();
        assert(views.skip(k as int) =~= seq![views[k as int]]);
        r
    } else {
        let mut r = parts[k].clone();
        r.append(sep);
        let tail = join_from(parts, k + 1, sep);
        r.append(tail.as_str());
        proof {
            let tk = views.skip(k as int);
            assert(tk.len() >= 2);
            assert(tk[0] == views[k as int]);
            assert(tk.skip(1) =~= views.skip(k + 1));
        }
        r
    }
}

/// Joins the strings of `parts` with `sep` between neighbours.
pub fn join_with(parts: &Vec<String>, sep: &str) -> (r: String)
    ensures
        r@ == join_sep(seq_views(parts@), sep@),
{
    let r = join_from(parts, 0, sep);
    proof {
        assert(seq_views(parts@).skip(0) =~= seq_views(parts@));
    }
    r
}

/// Case folding of one ASCII letter: an upper-case letter becomes its
/// lower-case form; every other character is unchanged.
pub open spec fn fold_ascii_lower(c: char) -> char {
    if 'A' <= c && c <= 'Z' {
        ((c as u8) + 32) as char
    } else {
        c
    }
}

fn fold_lower(c: char) -> (r: char)
    ensures
        r == fold_ascii_lower(c),
{
    if 'A' <= c && c <= 'Z' {
        (c as u8 + 32) as char
    } else {
        c
    }
}

/// Character sequences equal up to ASCII case.
pub open spec fn ascii_ieq(a: Seq<char>, b: Seq<char>) -> bool {
    a.map_values(|c: char| fold_ascii_lower(c)) == b.map_values(|c: char| fold_ascii_lower(c))
}

fn ascii_ieq_at(a: &str, b: &str, i: usize) -> (r: bool)
    requires
        a@.len() == b@.len(),
        i <= a@.len(),
        forall|k: int| 0 <= k < i ==> fold_ascii_lower(a@[k]) == fold_ascii_lower(b@[k]),
    ensures
        r == ascii_ieq(a@, b@),
    decreases a@.len() - i,
{
    let n = a.unicode_len();
    if i == n {
        proof {
            assert(a@.map_values(|c: char| fold_ascii_lower(c)) =~= b@.map_values(
                |c: char| fold_ascii_lower(c),
            ));
        }
        true
    } else {
        if fold_lower(a.get_char(i)) == fold_lower(b.get_char(i)) {
            ascii_ieq_at(a, b, i + 1)
        } else {
            proof {
                let fa = a@.map_values(|c: char| fold_ascii_lower(c));
                let fb = b@.map_values(|c: char| fold_ascii_lower(c));
                assert(fa[i as int] != fb[i as int]);
            }
            false
        }
    }
}

/// Compares two strings for equality up to ASCII case, as
/// `str::eq_ignore_ascii_case` does for ASCII text.
pub fn str_ieq(a: &str, b: &str) -> (r: bool)
    ensures
        r == ascii_ieq(a@, b@),
{
    let na = a.unicode_len();
    let nb = b.unicode_len();
    if na != nb {
        proof {
            let fa = a@.map_values(|c: char| fold_ascii_lower(c));
            let fb = b@.map_values(|c: char| fold_ascii_lower(c));
            assert(fa.len() != fb.len());
        }
        false
    } else {
        ascii_ieq_at(a, b, 0)
    }
}

fn str_eq_at(a: &str, b: &str, i: usize) -> (r: bool)
    requires
        a@.len() == b@.len(),
        i <= a@.len(),
        forall|k: int| 0 <= k < i ==> a@[k] == b@[k],
    ensures
        r == (a@ == b@),
    decreases a@.len() - i,
{
    let n = a.unicode_len();
    if i == n {
        proof {
            assert(a@ =~= b@);
        }
        true
    } else {
        if a.get_char(i) == b.get_char(i) {
            str_eq_at(a, b, i + 1)
        } else {
            false
        }
    }
}

/// Character-wise string equality.
pub fn str_eq(a: &str, b: &str) -> (r: bool)
    ensures
        r == (a@ == b@),
{
    let na = a.unicode_len();
    let nb = b.unicode_len();
    if na != nb {
        false
    } else {
        str_eq_at(a, b, 0)
    }
}

/// Strict lexicographic order on character sequences, by code point.
pub open spec fn lex_lt(a: Seq<char>, b: Seq<char>) -> bool
    decreases a.len(),
{
    if b.len() == 0 {
        false
    } else if a.len() == 0 {
        true
    } else if (a[0] as u32) == (b[0] as u32) {
        lex_lt(a.skip(1), b.skip(1))
    } else {
        (a[0] as u32) < (b[0] as u32)
    }
}

/// Non-strict lexicographic order.
pub open spec fn lex_le(a: Seq<char>, b: Seq<char>) -> bool {
    !lex_lt(b, a)
}

/// The strict order is asymmetric, so the non-strict order is total.
pub proof fn lemma_lex_le_total(a: Seq<char>, b: Seq<char>)
    ensures
        lex_le(a, b) || lex_le(b, a),
    decreases a.len(),
{
    if a.len() > 0 && b.len() > 0 && (a[0] as u32) == (b[0] as u32) {
        lemma_lex_le_total(a.skip(1), b.skip(1));
    }
}

/// Co-transitivity of the strict order: anything below `a` is below `b`
/// or has `b` below `a`.
proof fn lemma_lex_lt_cotrans(c: Seq<char>, a: Seq<char>, b: Seq<char>)
    requires
        lex_lt(c, a),
    ensures
        lex_lt(c, b) || lex_lt(b, a),
    decreases c.len(),
{
    if b.len() == 0 {
    } else if c.len() == 0 {
    } else {
        let c0 = c[0] as u32;
        let a0 = a[0] as u32;
        let b0 = b[0] as u32;
        if c0 == a0 && c0 == b0 {
            lemma_lex_lt_cotrans(c.skip(1), a.skip(1), b.skip(1));
        }
    }
}

/// The non-strict order is transitive.
pub proof fn lemma_lex_le_trans(a: Seq<char>, b: Seq<char>, c: Seq<char>)
    requires
        lex_le(a, b),
        lex_le(b, c),
    ensures
        lex_le(a, c),
{
    if lex_lt(c, a) {
        lemma_lex_lt_cotrans(c, a, b);
    }
}

fn lex_lt_at(a: &str, b: &str, i: usize) -> (r: bool)
    requires
        i <= a@.len(),
        i <= b@.len(),
        forall|k: int| 0 <= k < i ==> (a@[k] as u32) == (b@[k] as u32),
    ensures
        r == lex_lt(a@.skip(i as int), b@.skip(i as int)),
    decreases a@.len() - i,
{
    let na = a.unicode_len();
    let nb = b.unicode_len();
    if i == nb {
        false
    } else if i == na {
        true
    } else {
        let ca = a.get_char(i) as u32;
        let cb = b.get_char(i) as u32;
        proof {
            assert(a@.skip(i as int)[0] == a@[i as int]);
            assert(b@.skip(i as int)[0] == b@[i as int]);
        }
        if ca == cb {
            let r = lex_lt_at(a, b, i + 1);
            proof {
                assert(a@.skip(i as int).skip(1) =~= a@.skip(i + 1));
                assert(b@.skip(i as int).skip(1) =~= b@.skip(i + 1));
            }
            r
        } else {
            ca < cb
        }
    }
}

/// Compares two strings in lexicographic code point order, the order in
/// which category names are rendered.
pub fn str_lex_le(a: &str, b: &str) -> (r: bool)
    ensures
        r == lex_le(a@, b@),
{
    let r = lex_lt_at(b, a, 0);
    proof {
        assert(a@.skip(0) =~= a@);
        assert(b@.skip(0) =~= b@);
    }
    !r
}

} // verus!
