//! Character-level helpers on strings: equality, trimming, joining, ordering.
use vstd::prelude::*;

verus! {

/// Unicode `White_Space`, the class that `char::is_whitespace` tests.
pub open spec fn is_space(c: char) -> bool {
    ('\t' <= c && c <= '\r') || c == ' ' || c == '\u{85}' || c == '\u{a0}' || c == '\u{1680}'
        || ('\u{2000}' <= c && c <= '\u{200a}') || c == '\u{2028}' || c == '\u{2029}'
        || c == '\u{202f}' || c == '\u{205f}' || c == '\u{3000}'
}

/// Whether `c` is whitespace, or, when `space` is false, equal to `x`.
pub open spec fn skips(c: char, space: bool, x: char) -> bool {
    if space {
        is_space(c)
    } else {
        c == x
    }
}

/// Number of leading characters of `s` that `skips`.
pub open spec fn lead_count(s: Seq<char>, space: bool, x: char) -> nat
    decreases s.len(),
{
    if s.len() > 0 && skips(s[0], space, x) {
        1 + lead_count(s.drop_first(), space, x)
    } else {
        0
    }
}

/// Number of trailing whitespace characters of `s`.
pub open spec fn trail_count(s: Seq<char>) -> nat
    decreases s.len(),
{
    if s.len() > 0 && is_space(s.last()) {
        1 + trail_count(s.drop_last())
    } else {
        0
    }
}

/// `s` without its leading characters equal to `x`.
pub open spec fn strip_leading(s: Seq<char>, x: char) -> Seq<char> {
    s.subrange(lead_count(s, false, x) as int, s.len() as int)
}

/// `s` without leading whitespace.
pub open spec fn trim_left(s: Seq<char>) -> Seq<char> {
    s.subrange(lead_count(s, true, ' ') as int, s.len() as int)
}

/// `s` without trailing whitespace.
pub open spec fn trim_right(s: Seq<char>) -> Seq<char> {
    s.subrange(0, s.len() - trail_count(s))
}

/// `s` without whitespace on either side.
pub open spec fn trim(s: Seq<char>) -> Seq<char> {
    trim_right(trim_left(s))
}

/// The parts joined, with `sep` between each two neighbours.
pub open spec fn join(parts: Seq<Seq<char>>, sep: Seq<char>) -> Seq<char>
    decreases parts.len(),
{
    if parts.len() == 0 {
        Seq::empty()
    } else if parts.len() == 1 {
        parts[0]
    } else {
        join(parts.drop_last(), sep) + sep + parts.last()
    }
}

/// Strict lexicographic order by code point, the order of `str`'s `Ord`.
pub open spec fn lex_less(a: Seq<char>, b: Seq<char>) -> bool
    decreases a.len(),
{
    if a.len() == 0 {
        b.len() > 0
    } else if b.len() == 0 {
        false
    } else if a[0] != b[0] {
        a[0] < b[0]
    } else {
        lex_less(a.drop_first(), b.drop_first())
    }
}

pub proof fn lemma_lead_count_bound(s: Seq<char>, space: bool, x: char)
    ensures
        lead_count(s, space, x) <= s.len(),
    decreases s.len(),
{
    if s.len() > 0 && skips(s[0], space, x) {
        lemma_lead_count_bound(s.drop_first(), space, x);
    }
}

/// Tests `c` for Unicode whitespace.
pub fn is_whitespace(c: char) -> (r: bool)
    ensures
        r == is_space(c),
{
    ('\t' <= c && c <= '\r') || c == ' ' || c == '\u{85}' || c == '\u{a0}' || c == '\u{1680}'
        || ('\u{2000}' <= c && c <= '\u{200a}') || c == '\u{2028}' || c == '\u{2029}'
        || c == '\u{202f}' || c == '\u{205f}' || c == '\u{3000}'
}

/// Character-wise equality of two strings.
pub fn same_text(a: &str, b: &str) -> (r: bool)
    ensures
        r == (a@ == b@),
{
    let n = a.unicode_len();
    if n != b.unicode_len() {
        return false;
    }
    let mut i: usize = 0;
    while i < n
        invariant
            n == a@.len(),
            n == b@.len(),
            i <= n,
            forall|j: int| 0 <= j < i ==> a@[j] == b@[j],
        decreases n - i,
    {
        if a.get_char(i) != b.get_char(i) {
            return false;
        }
        i += 1;
    }
    assert(a@ =~= b@);
    true
}

/// Whether `s` begins with `prefix`.
pub fn has_prefix(s: &str, prefix: &str) -> (r: bool)
    ensures
        r == (prefix@.len() <= s@.len() && s@.subrange(0, prefix@.len() as int) == prefix@),
{
    let n = prefix.unicode_len();
    if n > s.unicode_len() {
        return false;
    }
    let mut i: usize = 0;
    while i < n
        invariant
            n == prefix@.len(),
            n <= s@.len(),
            i <= n,
            forall|j: int| 0 <= j < i ==> s@[j] == prefix@[j],
        decreases n - i,
    {
        if s.get_char(i) != prefix.get_char(i) {
            assert(s@.subrange(0, n as int)[i as int] != prefix@[i as int]);
            return false;
        }
        i += 1;
    }
    assert(s@.subrange(0, n as int) =~= prefix@);
    true
}

proof fn lemma_lead_step(s: Seq<char>, i: int, space: bool, x: char)
    requires
        0 <= i < s.len(),
        skips(s[i], space, x),
    ensures
        lead_count(s.subrange(i, s.len() as int), space, x) == 1 + lead_count(
            s.subrange(i + 1, s.len() as int),
            space,
            x,
        ),
{
    assert(s.subrange(i, s.len() as int).drop_first() =~= s.subrange(i + 1, s.len() as int));
}

proof fn lemma_trail_step(s: Seq<char>, j: int)
    requires
        0 < j <= s.len(),
        is_space(s[j - 1]),
    ensures
        trail_count(s.subrange(0, j)) == 1 + trail_count(s.subrange(0, j - 1)),
{
    assert(s.subrange(0, j).drop_last() =~= s.subrange(0, j - 1));
}

/// Index of the first character of `s` that is not whitespace (or `c` when `space` is false).
fn skip_leading(s: &str, space: bool, c: char) -> (r: usize)
    ensures
        r == lead_count(s@, space, c),
{
    let n = s.unicode_len();
    let mut i: usize = 0;
    assert(s@.subrange(0, n as int) =~= s@);
    while i < n
        invariant
            n == s@.len(),
            i <= n,
            lead_count(s@, space, c) == i + lead_count(s@.subrange(i as int, n as int), space, c),
        decreases n - i,
    {
        let x = s.get_char(i);
        let hit = if space { is_whitespace(x) } else { x == c };
        if !hit {
            assert(s@.subrange(i as int, n as int)[0] == x);
            return i;
        }
        proof {
            lemma_lead_step(s@, i as int, space, c);
        }
        i += 1;
    }
    proof {
        assert(s@.subrange(0, n as int) =~= s@);
    }
    i
}

/// `s` without leading whitespace.
pub fn trim_start(s: &str) -> (r: &str)
    ensures
        r@ == trim_left(s@),
{
    let i = skip_leading(s, true, ' ');
    proof {
        lemma_lead_count_bound(s@, true, ' ');
    }
    s.substring_char(i, s.unicode_len())
}

/// `s` without its leading characters equal to `c`.
pub fn trim_start_char(s: &str, c: char) -> (r: &str)
    ensures
        r@ == strip_leading(s@, c),
{
    let i = skip_leading(s, false, c);
    proof {
        lemma_lead_count_bound(s@, false, c);
    }
    s.substring_char(i, s.unicode_len())
}

/// `s` without trailing whitespace.
pub fn trim_end(s: &str) -> (r: &str)
    ensures
        r@ == trim_right(s@),
{
    let n = s.unicode_len();
    let mut j: usize = n;
    assert(s@.subrange(0, n as int) =~= s@);
    while j > 0 && is_whitespace(s.get_char(j - 1))
        invariant
            n == s@.len(),
            j <= n,
            trail_count(s@) == (n - j) + trail_count(s@.subrange(0, j as int)),
        decreases j,
    {
        proof {
            lemma_trail_step(s@, j as int);
        }
        j -= 1;
    }
    proof {
        assert(s@.subrange(0, n as int) =~= s@);
        if j > 0 {
            let t = s@.subrange(0, j as int);
            assert(t.last() == s@[j - 1]);
            assert(trail_count(t) == 0);
        }
    }
    s.substring_char(0, j)
}

/// `s` without whitespace on either side.
pub fn trim_both(s: &str) -> (r: &str)
    ensures
        r@ == trim(s@),
{
    trim_end(trim_start(s))
}

/// The parts joined, with `sep` between each two neighbours.
pub fn join_with(parts: &Vec<String>, sep: &str) -> (r: String)
    ensures
        r@ == join(parts@.map_values(|p: String| p@), sep@),
{
    let ghost views = parts@.map_values(|p: String| p@);
    let mut out = String::new();
    let mut i: usize = 0;
    while i < parts.len()
        invariant
            i <= parts@.len(),
            views == parts@.map_values(|p: String| p@),
            out@ == join(views.subrange(0, i as int), sep@),
        decreases parts@.len() - i,
    {
        if i > 0 {
            out.append(sep);
        }
        out.append(parts[i].as_str());
        proof {
            let next = views.subrange(0, i + 1);
            assert(next.drop_last() =~= views.subrange(0, i as int));
            if i == 0 {
                assert(out@ =~= next[0]);
            }
        }
        i += 1;
    }
    assert(views.subrange(0, parts@.len() as int) =~= views);
    out
}

/// Strict lexicographic comparison by code point.
pub fn text_less(a: &str, b: &str) -> (r: bool)
    ensures
        r == lex_less(a@, b@),
{
    let n = a.unicode_len();
    let m = b.unicode_len();
    let mut i: usize = 0;
    assert(a@.subrange(0, n as int) =~= a@);
    assert(b@.subrange(0, m as int) =~= b@);
    while i < n && i < m
        invariant
            n == a@.len(),
            m == b@.len(),
            i <= n,
            i <= m,
            lex_less(a@, b@) == lex_less(
                a@.subrange(i as int, n as int),
                b@.subrange(i as int, m as int),
            ),
        decreases n - i,
    {
        let x = a.get_char(i);
        let y = b.get_char(i);
        let ghost sa = a@.subrange(i as int, n as int);
        let ghost sb = b@.subrange(i as int, m as int);
        assert(sa[0] == x && sb[0] == y);
        if x != y {
            return x < y;
        }
        assert(sa.drop_first() =~= a@.subrange(i + 1, n as int));
        assert(sb.drop_first() =~= b@.subrange(i + 1, m as int));
        i += 1;
    }
    i < m
}

} // verus!

verus! {

pub proof fn lemma_lex_irreflexive(a: Seq<char>)
    ensures
        !lex_less(a, a),
    decreases a.len(),
{
    if a.len() > 0 {
        lemma_lex_irreflexive(a.drop_first());
    }
}

pub proof fn lemma_lex_asymmetric(a: Seq<char>, b: Seq<char>)
    requires
        lex_less(a, b),
    ensures
        !lex_less(b, a),
    decreases a.len(),
{
    if a.len() > 0 && b.len() > 0 && a[0] == b[0] {
        lemma_lex_asymmetric(a.drop_first(), b.drop_first());
    }
}

pub proof fn lemma_lex_total(a: Seq<char>, b: Seq<char>)
    requires
        a != b,
    ensures
        lex_less(a, b) || lex_less(b, a),
    decreases a.len(),
{
    if a.len() == 0 {
        if b.len() == 0 {
            assert(a =~= b);
        }
    } else if b.len() > 0 && a[0] == b[0] {
        if a.drop_first() == b.drop_first() {
            assert(a.drop_first().len() == b.drop_first().len());
            assert(a.len() == b.len());
            assert forall|j: int| 0 <= j < a.len() implies a[j] == b[j] by {
                if j > 0 {
                    assert(a[j] == a.drop_first()[j - 1]);
                    assert(b[j] == b.drop_first()[j - 1]);
                }
            }
            assert(a =~= b);
        } else {
            lemma_lex_total(a.drop_first(), b.drop_first());
        }
    }
}

pub proof fn lemma_lex_transitive(a: Seq<char>, b: Seq<char>, c: Seq<char>)
    requires
        lex_less(a, b),
        lex_less(b, c),
    ensures
        lex_less(a, c),
    decreases a.len(),
{
    if a.len() > 0 && b.len() > 0 && c.len() > 0 && a[0] == b[0] && b[0] == c[0] {
        lemma_lex_transitive(a.drop_first(), b.drop_first(), c.drop_first());
    }
}

} // verus!
