//! General properties of extraction, proved from the definitions it is specified by.
use vstd::prelude::*;

use crate::concept::ConceptView;
use crate::concept::decimal;
use crate::docblock::doc_of;
use crate::extractor::{
    concept_of, concepts_of, doc_entries, elements_from, flag_entry, list_entry, metadata_of,
    normalized, opt_entry, single, trait_entry, with_attributes,
};
use crate::harvest::{has_modifier_spec, return_type_of, type_annotation_of, visibility};
use crate::text::join;
use crate::harvest::{doc_comment_before, opens_doc, resolved_name};
use crate::syntax::SyntaxTree;
use crate::traits::{lemma_sorted_unique_determined, same_elements, strictly_sorted};

verus! {

/// A node whose name resolves to the empty string yields no concept, and no error.
pub proof fn lemma_empty_name_yields_nothing(
    tree: &SyntaxTree,
    i: int,
    attr: int,
    file: Seq<char>,
    src: Seq<char>,
    label: Seq<char>,
)
    requires
        resolved_name(tree, i, src) == Ok::<Seq<char>, ()>(Seq::empty()),
    ensures
        concept_of(tree, i, attr, file, src, label) == Ok::<Option<ConceptView>, ()>(None),
        single(concept_of(tree, i, attr, file, src, label), i) == (
            Seq::<ConceptView>::empty(),
            None::<int>,
        ),
{
}

/// Two runs of extraction on the same node, path and text, each starting from
/// the same list, end with equal lists and the same failing node (if any): what
/// the contract of `extract_concepts` fixes depends on its inputs alone.
pub proof fn lemma_repeated_runs_agree(
    tree: &SyntaxTree,
    i: int,
    file: Seq<char>,
    src: Seq<char>,
    before1: Seq<ConceptView>,
    before2: Seq<ConceptView>,
    after1: Seq<ConceptView>,
    after2: Seq<ConceptView>,
    failed1: Option<int>,
    failed2: Option<int>,
)
    requires
        before1 == before2,
        after1 == before1 + concepts_of(tree, i, file, src).0,
        after2 == before2 + concepts_of(tree, i, file, src).0,
        failed1 == concepts_of(tree, i, file, src).1,
        failed2 == concepts_of(tree, i, file, src).1,
    ensures
        after1 == after2,
        failed1 == failed2,
{
}

proof fn lemma_elements_share_declaration(
    tree: &SyntaxTree,
    i: int,
    k: int,
    file: Seq<char>,
    src: Seq<char>,
    elem: Seq<char>,
    label: Seq<char>,
)
    ensures
        ({
            let e = elements_from(tree, i, k, file, src, elem, label, true).0;
            forall|j: int|
                0 <= j < e.len() ==> exists|c: int| (#[trigger] e[j]).metadata == metadata_of(
                    tree,
                    c,
                    i,
                    src,
                    label,
                )
        }),
    decreases tree.children(i).len() - k,
{
    if 0 <= k < tree.children(i).len() {
        lemma_elements_share_declaration(tree, i, k + 1, file, src, elem, label);
        let c = tree.children(i)[k] as int;
        let rest = elements_from(tree, i, k + 1, file, src, elem, label, true).0;
        let e = elements_from(tree, i, k, file, src, elem, label, true).0;
        if tree.kind(c) == elem {
            if let Ok(Some(x)) = concept_of(tree, c, i, file, src, label) {
                assert forall|j: int| 0 <= j < e.len() implies exists|d: int| (
                #[trigger] e[j]).metadata == metadata_of(tree, d, i, src, label) by {
                    if j == 0 {
                        assert(e[j].metadata == metadata_of(tree, c, i, src, label));
                    } else {
                        assert(e[j] == rest[j - 1]);
                    }
                }
            }
        }
    }
}

/// Each concept of a property declaration carries the visibility, modifiers
/// and types of the declaration itself: its metadata is that of one of the
/// declaration's elements with attributes read from the declaration node.
pub proof fn lemma_property_elements_share_attributes(
    tree: &SyntaxTree,
    i: int,
    file: Seq<char>,
    src: Seq<char>,
)
    requires
        tree.kind(i) == "property_declaration"@,
    ensures
        forall|j: int|
            0 <= j < concepts_of(tree, i, file, src).0.len() ==> exists|c: int| (
            #[trigger] concepts_of(tree, i, file, src).0[j]).metadata == metadata_of(
                tree,
                c,
                i,
                src,
                "property"@,
            ),
{
    reveal_strlit("property_declaration");
    reveal_strlit("class_declaration");
    reveal_strlit("interface_declaration");
    reveal_strlit("trait_declaration");
    reveal_strlit("enum_declaration");
    reveal_strlit("function_definition");
    reveal_strlit("method_declaration");
    assert("property_declaration"@[0] != "class_declaration"@[0]);
    assert("property_declaration"@[1] != "interface_declaration"@[1]);
    assert("property_declaration"@[0] != "trait_declaration"@[0]);
    assert("property_declaration"@[0] != "enum_declaration"@[0]);
    assert("property_declaration"@[0] != "function_definition"@[0]);
    assert("property_declaration"@[0] != "method_declaration"@[0]);
    lemma_elements_share_declaration(
        tree,
        i,
        0,
        file,
        src,
        "property_element"@,
        "property"@,
    );
}

/// An ordinary comment just before a node hides any documentation comment
/// further up: the node gets no docblock entries.
pub proof fn lemma_plain_comment_blocks_docblock(tree: &SyntaxTree, i: int, src: Seq<char>)
    requires
        tree.wf(),
        0 <= i < tree.nodes@.len(),
        tree.nodes@[i].prev_sibling matches Some(p) && ({
            let k = tree.kind(p as int);
            k == "inline_comment"@ || ((k == "comment"@ || k == "phpdoc_comment"@) && !(tree.text(
                p as int,
                src,
            ) matches Some(t) && opens_doc(t)))
        }),
    ensures
        doc_comment_before(tree, i, src) is None,
        doc_entries(doc_comment_before(tree, i, src)) == Seq::<(Seq<char>, Seq<char>)>::empty(),
{
    assert(tree.node_wf(i));
    reveal_strlit("inline_comment");
    reveal_strlit("comment");
    reveal_strlit("phpdoc_comment");
    assert("inline_comment"@.len() != "comment"@.len());
    assert("inline_comment"@[0] != "phpdoc_comment"@[0]);
}

/// The trait list of a class does not depend on the order in which traits are
/// used, nor on repeats: any two ascending, repeat-free lists of the names
/// found are equal when the same names were found.
pub proof fn lemma_trait_list_independent_of_order(
    found1: Seq<Seq<char>>,
    found2: Seq<Seq<char>>,
    list1: Seq<Seq<char>>,
    list2: Seq<Seq<char>>,
)
    requires
        same_elements(found1, found2),
        strictly_sorted(list1),
        same_elements(list1, found1),
        strictly_sorted(list2),
        same_elements(list2, found2),
    ensures
        list1 == list2,
{
    lemma_sorted_unique_determined(list1, list2);
}

/// The position of a metadata key in the fixed order in which keys are added.
pub open spec fn key_rank(k: Seq<char>) -> int {
    if k == "language"@ {
        0
    } else if k == "kind"@ {
        1
    } else if k == "start_column"@ {
        2
    } else if k == "end_column"@ {
        3
    } else if k == "visibility"@ {
        4
    } else if k == "static"@ {
        5
    } else if k == "abstract"@ {
        6
    } else if k == "final"@ {
        7
    } else if k == "return_type"@ {
        8
    } else if k == "type"@ {
        9
    } else if k == "docblock.description"@ {
        10
    } else if k == "docblock.params"@ {
        11
    } else if k == "docblock.return"@ {
        12
    } else if k == "docblock.throws"@ {
        13
    } else if k == "traits"@ {
        14
    } else {
        15
    }
}

/// No key occurs twice.
pub open spec fn keys_distinct(m: Seq<(Seq<char>, Seq<char>)>) -> bool {
    forall|a: int, b: int| 0 <= a < b < m.len() ==> (#[trigger] m[a]).0 != (#[trigger] m[b]).0
}

/// Key ranks rise along `m` and lie in `[lo, hi)`.
pub open spec fn ranked(m: Seq<(Seq<char>, Seq<char>)>, lo: int, hi: int) -> bool {
    &&& forall|a: int, b: int|
        0 <= a < b < m.len() ==> key_rank((#[trigger] m[a]).0) < key_rank((#[trigger] m[b]).0)
    &&& forall|a: int| 0 <= a < m.len() ==> lo <= #[trigger] key_rank(m[a].0) < hi
}

proof fn lemma_key_ranks()
    ensures
        key_rank("language"@) == 0,
        key_rank("kind"@) == 1,
        key_rank("start_column"@) == 2,
        key_rank("end_column"@) == 3,
        key_rank("visibility"@) == 4,
        key_rank("static"@) == 5,
        key_rank("abstract"@) == 6,
        key_rank("final"@) == 7,
        key_rank("return_type"@) == 8,
        key_rank("type"@) == 9,
        key_rank("docblock.description"@) == 10,
        key_rank("docblock.params"@) == 11,
        key_rank("docblock.return"@) == 12,
        key_rank("docblock.throws"@) == 13,
        key_rank("traits"@) == 14,
{
    reveal_strlit("language");
    reveal_strlit("kind");
    reveal_strlit("start_column");
    reveal_strlit("end_column");
    reveal_strlit("visibility");
    reveal_strlit("static");
    reveal_strlit("abstract");
    reveal_strlit("final");
    reveal_strlit("return_type");
    reveal_strlit("type");
    reveal_strlit("docblock.description");
    reveal_strlit("docblock.params");
    reveal_strlit("docblock.return");
    reveal_strlit("docblock.throws");
    reveal_strlit("traits");
    assert("language"@.len() == 8);
    assert("kind"@.len() == 4);
    assert("start_column"@.len() == 12);
    assert("end_column"@.len() == 10);
    assert("visibility"@.len() == 10);
    assert("static"@.len() == 6);
    assert("abstract"@.len() == 8);
    assert("final"@.len() == 5);
    assert("return_type"@.len() == 11);
    assert("type"@.len() == 4);
    assert("docblock.description"@.len() == 20);
    assert("docblock.params"@.len() == 15);
    assert("docblock.return"@.len() == 15);
    assert("docblock.throws"@.len() == 15);
    assert("traits"@.len() == 6);
    assert("visibility"@[0] != "end_column"@[0]);
    assert("abstract"@[0] != "language"@[0]);
    assert("type"@[0] != "kind"@[0]);
    assert("docblock.return"@[9] != "docblock.params"@[9]);
    assert("docblock.throws"@[9] != "docblock.params"@[9]);
    assert("docblock.throws"@[9] != "docblock.return"@[9]);
    assert("traits"@[0] != "static"@[0]);
}

proof fn lemma_ranked_concat(
    x: Seq<(Seq<char>, Seq<char>)>,
    y: Seq<(Seq<char>, Seq<char>)>,
    lo: int,
    mid: int,
    hi: int,
)
    requires
        lo <= mid <= hi,
        ranked(x, lo, mid),
        ranked(y, mid, hi),
    ensures
        ranked(x + y, lo, hi),
{
    let z = x + y;
    assert forall|a: int, b: int| 0 <= a < b < z.len() implies key_rank((#[trigger] z[a]).0)
        < key_rank((#[trigger] z[b]).0) by {
        if b < x.len() {
            assert(z[a] == x[a] && z[b] == x[b]);
        } else if a >= x.len() {
            assert(z[a] == y[a - x.len()] && z[b] == y[b - x.len()]);
        } else {
            assert(z[a] == x[a] && z[b] == y[b - x.len()]);
            assert(lo <= key_rank(x[a].0) < mid);
            assert(mid <= key_rank(y[b - x.len()].0) < hi);
        }
    }
    assert forall|a: int| 0 <= a < z.len() implies lo <= #[trigger] key_rank(z[a].0) < hi by {
        if a < x.len() {
            assert(z[a] == x[a]);
            assert(lo <= key_rank(x[a].0));
        } else {
            assert(z[a] == y[a - x.len()]);
            assert(key_rank(y[a - x.len()].0) < hi);
        }
    }
}

proof fn lemma_ranked_piece(m: Seq<(Seq<char>, Seq<char>)>, key: Seq<char>, r: int)
    requires
        m.len() <= 1,
        m.len() == 1 ==> m[0].0 == key,
        key_rank(key) == r,
    ensures
        ranked(m, r, r + 1),
{
}

proof fn lemma_ranked_distinct(m: Seq<(Seq<char>, Seq<char>)>, lo: int, hi: int)
    requires
        ranked(m, lo, hi),
    ensures
        keys_distinct(m),
{
    assert forall|a: int, b: int| 0 <= a < b < m.len() implies (#[trigger] m[a]).0 != (
    #[trigger] m[b]).0 by {
        assert(key_rank(m[a].0) < key_rank(m[b].0));
    }
}

/// The metadata of a concept never holds a key twice, so it reads as a map.
pub proof fn lemma_metadata_keys_distinct(
    tree: &SyntaxTree,
    i: int,
    attr: int,
    src: Seq<char>,
    label: Seq<char>,
)
    ensures
        keys_distinct(metadata_of(tree, i, attr, src, label)),
{
    lemma_key_ranks();
    let n = tree.nodes@[i];
    let kind = normalized(label);
    let head = seq![
        ("language"@, "php"@),
        ("kind"@, kind),
        ("start_column"@, decimal(n.start_column as nat)),
        ("end_column"@, decimal(n.end_column as nat)),
    ];
    assert(ranked(head, 0, 4));
    let v = opt_entry("visibility"@, visibility(tree, attr, src));
    let s1 = flag_entry("static"@, has_modifier_spec(tree, attr, "static"@));
    let s2 = flag_entry("abstract"@, has_modifier_spec(tree, attr, "abstract"@));
    let s3 = flag_entry("final"@, has_modifier_spec(tree, attr, "final"@));
    let rt = opt_entry("return_type"@, return_type_of(tree, attr, src));
    let ty = opt_entry("type"@, type_annotation_of(tree, attr, src));
    lemma_ranked_piece(v, "visibility"@, 4);
    lemma_ranked_piece(s1, "static"@, 5);
    lemma_ranked_piece(s2, "abstract"@, 6);
    lemma_ranked_piece(s3, "final"@, 7);
    lemma_ranked_piece(rt, "return_type"@, 8);
    lemma_ranked_piece(ty, "type"@, 9);
    lemma_ranked_concat(head, v, 0, 4, 5);
    lemma_ranked_concat(head + v, s1, 0, 5, 6);
    lemma_ranked_concat(head + v + s1, s2, 0, 6, 7);
    lemma_ranked_concat(head + v + s1 + s2, s3, 0, 7, 8);
    lemma_ranked_concat(head + v + s1 + s2 + s3, rt, 0, 8, 9);
    lemma_ranked_concat(head + v + s1 + s2 + s3 + rt, ty, 0, 9, 10);
    let attrs = head + v + s1 + s2 + s3 + rt + ty;
    assert(attrs == with_attributes(head, tree, attr, src));
    let raw = doc_comment_before(tree, i, src);
    let docs = doc_entries(raw);
    match raw {
        Some(t) => {
            let d = doc_of(t);
            let description = join(d.description, " "@);
            let d0 = if description.len() > 0 {
                seq![("docblock.description"@, description)]
            } else {
                Seq::empty()
            };
            let d1 = list_entry("docblock.params"@, d.params, "|"@);
            let d2 = opt_entry("docblock.return"@, d.return_type);
            let d3 = list_entry("docblock.throws"@, d.throws, "|"@);
            lemma_ranked_piece(d0, "docblock.description"@, 10);
            lemma_ranked_piece(d1, "docblock.params"@, 11);
            lemma_ranked_piece(d2, "docblock.return"@, 12);
            lemma_ranked_piece(d3, "docblock.throws"@, 13);
            lemma_ranked_concat(d0, d1, 10, 11, 12);
            lemma_ranked_concat(d0 + d1, d2, 10, 12, 13);
            lemma_ranked_concat(d0 + d1 + d2, d3, 10, 13, 14);
            assert(docs == d0 + d1 + d2 + d3);
        },
        None => {
            assert(ranked(docs, 10, 14));
        },
    }
    assert(ranked(docs, 10, 14));
    let tr = trait_entry(tree, i, src, kind);
    lemma_ranked_piece(tr, "traits"@, 14);
    lemma_ranked_concat(attrs, docs, 0, 10, 14);
    lemma_ranked_concat(attrs + docs, tr, 0, 14, 15);
    assert(attrs + docs + tr == metadata_of(tree, i, attr, src, label));
    lemma_ranked_distinct(attrs + docs + tr, 0, 15);
}

} // verus!
