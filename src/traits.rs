//! The traits that a class body uses, sorted and without repeats.
use vstd::prelude::*;

use crate::docblock::{all_match_groups, opt_view, regex_group_all, views};
use crate::syntax::SyntaxTree;
use crate::text::{
    lemma_lex_asymmetric, lemma_lex_irreflexive, lemma_lex_total, lemma_lex_transitive, lex_less,
    same_text, text_less,
};

verus! {

/// A `use <Trait>;` statement at the start of a line: the trait is group 1.
pub const TRAIT_USE_PATTERN: &'static str = r"(?m)^\s*use\s+([A-Za-z_\\][A-Za-z0-9_\\]*)\s*;";

pub open spec fn is_identifier_kind(k: Seq<char>) -> bool {
    k == "name"@ || k == "qualified_name"@
}

/// The non-empty identifier texts among the children of clause `c`, from position `m` on.
pub open spec fn clause_names_from(tree: &SyntaxTree, c: int, m: int, src: Seq<char>) -> Seq<
    Seq<char>,
>
    decreases tree.children(c).len() - m,
{
    if 0 <= m < tree.children(c).len() {
        let d = tree.children(c)[m] as int;
        let rest = clause_names_from(tree, c, m + 1, src);
        if is_identifier_kind(tree.kind(d)) && tree.text(d, src) is Some && tree.text(
            d,
            src,
        )->0.len() > 0 {
            seq![tree.text(d, src)->0] + rest
        } else {
            rest
        }
    } else {
        Seq::empty()
    }
}

/// Whether `k` is the kind of a trait-use statement in a class body.
pub open spec fn is_trait_use_kind(k: Seq<char>) -> bool {
    k == "use_declaration"@ || k == "trait_use_clause"@
}

/// The names in the trait-use statements among the children of `i`, from position `k` on.
pub open spec fn used_names_from(tree: &SyntaxTree, i: int, k: int, src: Seq<char>) -> Seq<
    Seq<char>,
>
    decreases tree.children(i).len() - k,
{
    if 0 <= k < tree.children(i).len() {
        let c = tree.children(i)[k] as int;
        let rest = used_names_from(tree, i, k + 1, src);
        if is_trait_use_kind(tree.kind(c)) {
            clause_names_from(tree, c, 0, src) + rest
        } else {
            rest
        }
    } else {
        Seq::empty()
    }
}

/// The values that are present, in order.
pub open spec fn present(s: Seq<Option<Seq<char>>>) -> Seq<Seq<char>>
    decreases s.len(),
{
    if s.len() == 0 {
        Seq::empty()
    } else {
        present(s.drop_last()) + match s.last() {
            Some(t) => seq![t],
            None => Seq::empty(),
        }
    }
}

/// The names in the trait-use statements among the children of `i`, then
/// among those of its `body` field.
pub open spec fn structural_trait_names(tree: &SyntaxTree, i: int, src: Seq<char>) -> Seq<
    Seq<char>,
> {
    used_names_from(tree, i, 0, src) + match tree.field_child(i, "body"@) {
        Some(b) => used_names_from(tree, b as int, 0, src),
        None => Seq::empty(),
    }
}

/// The trait names found for node `i`: those of the trait-use statements of
/// it and its body, or, where there are none, those of `use <Trait>;` lines
/// in its text.
pub open spec fn trait_candidates(tree: &SyntaxTree, i: int, src: Seq<char>) -> Seq<Seq<char>> {
    let p = structural_trait_names(tree, i, src);
    if p.len() > 0 {
        p
    } else {
        match tree.text(i, src) {
            Some(t) => present(regex_group_all(TRAIT_USE_PATTERN@, t, 1)),
            None => Seq::empty(),
        }
    }
}

/// Each element precedes the next in lexicographic order (so none repeats).
pub open spec fn strictly_sorted(s: Seq<Seq<char>>) -> bool {
    forall|a: int, b: int| 0 <= a < b < s.len() ==> lex_less(#[trigger] s[a], #[trigger] s[b])
}

pub open spec fn same_elements(a: Seq<Seq<char>>, b: Seq<Seq<char>>) -> bool {
    forall|t: Seq<char>| a.contains(t) <==> b.contains(t)
}

/// The distinct elements of `s` in ascending order.
pub open spec fn sorted_unique(s: Seq<Seq<char>>) -> Seq<Seq<char>> {
    choose|r: Seq<Seq<char>>| strictly_sorted(r) && same_elements(r, s)
}

/// Two ascending sequences without repeats that hold the same elements are equal.
pub proof fn lemma_sorted_unique_determined(a: Seq<Seq<char>>, b: Seq<Seq<char>>)
    requires
        strictly_sorted(a),
        strictly_sorted(b),
        same_elements(a, b),
    ensures
        a == b,
    decreases a.len(),
{
    if a.len() == 0 {
        if b.len() > 0 {
            assert(b.contains(b[0]));
        }
        assert(a =~= b);
    } else {
        assert(a.contains(a[0]));
        assert(b.len() > 0);
        assert(b.contains(b[0]));
        if a[0] != b[0] {
            let i = choose|i: int| 0 <= i < a.len() && a[i] == b[0];
            let j = choose|j: int| 0 <= j < b.len() && b[j] == a[0];
            assert(i > 0 && j > 0);
            assert(lex_less(a[0], a[i]));
            assert(lex_less(b[0], b[j]));
            lemma_lex_asymmetric(a[0], b[0]);
        }
        let ta = a.drop_first();
        let tb = b.drop_first();
        assert forall|t: Seq<char>| ta.contains(t) <==> tb.contains(t) by {
            if ta.contains(t) {
                let k = choose|k: int| 0 <= k < ta.len() && ta[k] == t;
                assert(a[k + 1] == t);
                assert(lex_less(a[0], a[k + 1]));
                lemma_lex_irreflexive(t);
                assert(a.contains(t));
                let m = choose|m: int| 0 <= m < b.len() && b[m] == t;
                assert(m != 0);
                assert(tb[m - 1] == t);
            }
            if tb.contains(t) {
                let k = choose|k: int| 0 <= k < tb.len() && tb[k] == t;
                assert(b[k + 1] == t);
                assert(lex_less(b[0], b[k + 1]));
                lemma_lex_irreflexive(t);
                assert(b.contains(t));
                let m = choose|m: int| 0 <= m < a.len() && a[m] == t;
                assert(m != 0);
                assert(ta[m - 1] == t);
            }
        }
        assert forall|x: int, y: int| 0 <= x < y < ta.len() implies lex_less(
            #[trigger] ta[x],
            #[trigger] ta[y],
        ) by {
            assert(lex_less(a[x + 1], a[y + 1]));
        }
        assert forall|x: int, y: int| 0 <= x < y < tb.len() implies lex_less(
            #[trigger] tb[x],
            #[trigger] tb[y],
        ) by {
            assert(lex_less(b[x + 1], b[y + 1]));
        }
        lemma_sorted_unique_determined(ta, tb);
        assert(ta.len() == tb.len());
        assert forall|j: int| 0 <= j < a.len() implies a[j] == b[j] by {
            if j > 0 {
                assert(a[j] == ta[j - 1]);
                assert(b[j] == tb[j - 1]);
            }
        }
        assert(a =~= b);
    }
}

/// The distinct elements of `v`, in ascending order.
pub fn sort_unique(v: &Vec<String>) -> (r: Vec<String>)
    ensures
        strictly_sorted(views(r@)),
        same_elements(views(r@), views(v@)),
        views(r@) == sorted_unique(views(v@)),
{
    let mut out: Vec<String> = Vec::new();
    let mut k: usize = 0;
    while k < v.len()
        invariant
            k <= v@.len(),
            strictly_sorted(views(out@)),
            same_elements(views(out@), views(v@).subrange(0, k as int)),
        decreases v@.len() - k,
    {
        let x = &v[k];
        let ghost w = views(out@);
        let mut p: usize = 0;
        while p < out.len() && text_less(out[p].as_str(), x.as_str())
            invariant
                p <= out@.len(),
                w == views(out@),
                forall|a: int| 0 <= a < p ==> lex_less(#[trigger] w[a], x@),
            decreases out@.len() - p,
        {
            p += 1;
        }
        let ghost before = views(v@).subrange(0, k as int);
        let ghost after = views(v@).subrange(0, k + 1);
        assert(after =~= before.push(x@));
        if p < out.len() && same_text(out[p].as_str(), x.as_str()) {
            assert(w[p as int] == x@);
            assert forall|t: Seq<char>| w.contains(t) <==> after.contains(t) by {
                if t == x@ {
                    assert(w.contains(w[p as int]));
                    assert(after[k as int] == t);
                }
                if after.contains(t) && t != x@ {
                    let m = choose|m: int| 0 <= m < after.len() && after[m] == t;
                    assert(before[m] == t);
                }
                if w.contains(t) && t != x@ {
                    assert(before.contains(t));
                    let m = choose|m: int| 0 <= m < before.len() && before[m] == t;
                    assert(after[m] == t);
                }
            }
        } else {
            proof {
                if p < w.len() {
                    lemma_lex_total(w[p as int], x@);
                }
            }
            out.insert(p, x.clone());
            let ghost w2 = views(out@);
            assert(w2 =~= w.insert(p as int, x@));
            assert forall|a: int, b: int| 0 <= a < b < w2.len() implies lex_less(
                #[trigger] w2[a],
                #[trigger] w2[b],
            ) by {
                if b < p {
                    assert(lex_less(w[a], w[b]));
                } else if b == p {
                    assert(w2[a] == w[a]);
                } else if a < p {
                    assert(lex_less(w[a], x@));
                    assert(lex_less(x@, w[p as int]));
                    if b - 1 > p {
                        assert(lex_less(w[p as int], w[b - 1]));
                        lemma_lex_transitive(x@, w[p as int], w[b - 1]);
                    }
                    lemma_lex_transitive(w[a], x@, w[b - 1]);
                } else if a == p {
                    assert(lex_less(x@, w[p as int]));
                    if b - 1 > p {
                        assert(lex_less(w[p as int], w[b - 1]));
                        lemma_lex_transitive(x@, w[p as int], w[b - 1]);
                    }
                } else {
                    assert(lex_less(w[a - 1], w[b - 1]));
                }
            }
            assert forall|t: Seq<char>| w2.contains(t) <==> after.contains(t) by {
                if t == x@ {
                    assert(w2[p as int] == t);
                    assert(after[k as int] == t);
                }
                if after.contains(t) && t != x@ {
                    let m = choose|m: int| 0 <= m < after.len() && after[m] == t;
                    assert(before[m] == t);
                    assert(w.contains(t));
                    let q = choose|q: int| 0 <= q < w.len() && w[q] == t;
                    if q < p {
                        assert(w2[q] == t);
                    } else {
                        assert(w2[q + 1] == t);
                    }
                }
                if w2.contains(t) && t != x@ {
                    let q = choose|q: int| 0 <= q < w2.len() && w2[q] == t;
                    if q < p {
                        assert(w[q] == t);
                    } else {
                        assert(w[q - 1] == t);
                    }
                    assert(before.contains(t));
                    let m = choose|m: int| 0 <= m < before.len() && before[m] == t;
                    assert(after[m] == t);
                }
            }
        }
        k += 1;
    }
    proof {
        assert(views(v@).subrange(0, v@.len() as int) =~= views(v@));
        let s = views(v@);
        assert(strictly_sorted(sorted_unique(s)) && same_elements(sorted_unique(s), s));
        lemma_sorted_unique_determined(views(out@), sorted_unique(s));
    }
    out
}

/// Appends the names in the trait-use statements among the children of `i`.
fn gather_used_names(tree: &SyntaxTree, i: usize, src: &str, found: &mut Vec<String>)
    requires
        tree.wf(),
        i < tree.nodes@.len(),
    ensures
        views(final(found)@) == views(old(found)@) + used_names_from(tree, i as int, 0, src@),
{
    let ghost start = views(found@);
    let ghost total = start + used_names_from(tree, i as int, 0, src@);
    let node = &tree.nodes[i];
    assert(tree.node_wf(i as int));
    let mut k: usize = 0;
    while k < node.children.len()
        invariant
            tree.wf(),
            i < tree.nodes@.len(),
            node == tree.nodes@[i as int],
            k <= node.children@.len(),
            views(found@) + used_names_from(tree, i as int, k as int, src@) == total,
        decreases node.children@.len() - k,
    {
        let c = node.children[k];
        assert(tree.node_wf(i as int));
        let ghost rest = used_names_from(tree, i as int, k + 1, src@);
        let kind = tree.nodes[c].kind.as_str();
        if same_text(kind, "use_declaration") || same_text(kind, "trait_use_clause") {
            let clause = &tree.nodes[c];
            assert(tree.node_wf(c as int));
            assert(views(found@) + clause_names_from(tree, c as int, 0, src@) + rest =~= views(
                found@,
            ) + used_names_from(tree, i as int, k as int, src@));
            let mut m: usize = 0;
            while m < clause.children.len()
                invariant
                    tree.wf(),
                    c < tree.nodes@.len(),
                    clause == tree.nodes@[c as int],
                    m <= clause.children@.len(),
                    views(found@) + clause_names_from(tree, c as int, m as int, src@) + rest
                        == total,
                decreases clause.children@.len() - m,
            {
                let d = clause.children[m];
                assert(tree.node_wf(c as int));
                let ghost tail = clause_names_from(tree, c as int, m + 1, src@);
                let kd = tree.nodes[d].kind.as_str();
                if same_text(kd, "name") || same_text(kd, "qualified_name") {
                    if let Some(t) = tree.node_text(d, src) {
                        if t.unicode_len() > 0 {
                            let ghost before = views(found@);
                            found.push(String::from_str(t));
                            assert(views(found@) =~= before.push(t@));
                            assert(before + (seq![t@] + tail) + rest =~= views(found@) + tail
                                + rest);
                        }
                    }
                }
                m += 1;
            }
            assert(views(found@) + clause_names_from(tree, c as int, m as int, src@) + rest
                =~= views(found@) + rest);
        }
        k += 1;
    }
    assert(views(found@) + used_names_from(tree, i as int, k as int, src@) =~= views(found@));
}

/// The values that were found, in order: the names that the `use` lines of a
/// class's text gave, one entry per match.
pub fn present_names(groups: &Vec<Option<String>>) -> (r: Vec<String>)
    ensures
        views(r@) == present(groups@.map_values(|o: Option<String>| opt_view(o))),
{
    let ghost gv = groups@.map_values(|o: Option<String>| opt_view(o));
    let mut found: Vec<String> = Vec::new();
    let mut g: usize = 0;
    assert(gv.subrange(0, 0) =~= Seq::<Option<Seq<char>>>::empty());
    assert(views(found@) =~= Seq::<Seq<char>>::empty());
    while g < groups.len()
        invariant
            g <= groups@.len(),
            gv == groups@.map_values(|o: Option<String>| opt_view(o)),
            views(found@) == present(gv.subrange(0, g as int)),
        decreases groups@.len() - g,
    {
        assert(gv[g as int] == opt_view(groups@[g as int]));
        assert(gv.subrange(0, g + 1).drop_last() =~= gv.subrange(0, g as int));
        if let Some(name) = &groups[g] {
            let ghost before = views(found@);
            found.push(name.clone());
            assert(views(found@) =~= before + seq![name@]);
        } else {
            assert(views(found@) =~= views(found@) + Seq::<Seq<char>>::empty());
        }
        g += 1;
    }
    assert(gv.subrange(0, gv.len() as int) =~= gv);
    found
}

/// The traits that the class at node `i` uses, ascending and without repeats.
pub fn collect_traits(tree: &SyntaxTree, i: usize, src: &str) -> (r: Vec<String>)
    requires
        tree.wf(),
        i < tree.nodes@.len(),
    ensures
        strictly_sorted(views(r@)),
        same_elements(views(r@), trait_candidates(tree, i as int, src@)),
        views(r@) == sorted_unique(trait_candidates(tree, i as int, src@)),
{
    let mut found: Vec<String> = Vec::new();
    assert(views(found@) =~= Seq::<Seq<char>>::empty());
    gather_used_names(tree, i, src, &mut found);
    let ghost own = views(found@);
    match tree.child_by_field_name(i, "body") {
        Some(b) => gather_used_names(tree, b, src, &mut found),
        None => {},
    }
    assert(views(found@) =~= structural_trait_names(tree, i as int, src@));
    if found.len() == 0 {
        if let Some(t) = tree.node_text(i, src) {
            let groups = all_match_groups(TRAIT_USE_PATTERN, t, 1);
            let ghost gv = regex_group_all(TRAIT_USE_PATTERN@, t@, 1);
            assert(groups@.map_values(|o: Option<String>| opt_view(o)) =~= gv);
            found = present_names(&groups);
        }
    }
    assert(views(found@) == trait_candidates(tree, i as int, src@));
    sort_unique(&found)
}

} // verus!
