//! Reading a declaration's name and attributes off its syntax node.
use vstd::prelude::*;

use crate::docblock::{parse_docblock, DocblockInfo};
use crate::syntax::SyntaxTree;
use crate::text::{has_prefix, same_text, strip_leading, trim, trim_both, trim_left, trim_start, trim_start_char};

verus! {

/// The name that the generic identifier rule gives node `i`: the text of its
/// first `name` child, or empty where it has none; `Err` where that child's
/// text cannot be read.
pub open spec fn generic_name(tree: &SyntaxTree, i: int, src: Seq<char>) -> Result<Seq<char>, ()> {
    match tree.kind_child(i, "name"@) {
        Some(c) => match tree.text(c as int, src) {
            Some(t) => Ok(t),
            None => Err(()),
        },
        None => Ok(Seq::empty()),
    }
}

/// The display name of node `i`: its `name` field, else the generic rule, else
/// its `variable_name` child without the `$` sigil, else empty.
pub open spec fn resolved_name(tree: &SyntaxTree, i: int, src: Seq<char>) -> Result<Seq<char>, ()> {
    match tree.text_of_child(tree.field_child(i, "name"@), src) {
        Some(t) => Ok(t),
        None => match generic_name(tree, i, src) {
            Err(()) => Err(()),
            Ok(g) => if g.len() > 0 {
                Ok(g)
            } else {
                match tree.text_of_child(tree.kind_child(i, "variable_name"@), src) {
                    Some(t) => Ok(strip_leading(t, '$')),
                    None => Ok(Seq::empty()),
                }
            },
        },
    }
}

/// The visibility among the children of `i` from position `k` on.
pub open spec fn visibility_from(tree: &SyntaxTree, i: int, k: int, src: Seq<char>) -> Option<
    Seq<char>,
>
    decreases tree.children(i).len() - k,
{
    if 0 <= k < tree.children(i).len() {
        let c = tree.children(i)[k] as int;
        let kd = tree.kind(c);
        if kd == "visibility_modifier"@ && tree.text(c, src) is Some {
            tree.text(c, src)
        } else if kd == "public"@ || kd == "protected"@ || kd == "private"@ {
            Some(kd)
        } else {
            visibility_from(tree, i, k + 1, src)
        }
    } else {
        None
    }
}

/// The visibility of node `i`: the first visibility modifier or keyword among its children.
pub open spec fn visibility(tree: &SyntaxTree, i: int, src: Seq<char>) -> Option<Seq<char>> {
    visibility_from(tree, i, 0, src)
}

/// Whether some child of `i` is the modifier `token` (`static`, `abstract`, `final`).
pub open spec fn has_modifier_spec(tree: &SyntaxTree, i: int, token: Seq<char>) -> bool {
    exists|k: int|
        0 <= k < tree.children(i).len() && (tree.kind(#[trigger] tree.children(i)[k] as int)
            == token + "_modifier"@ || tree.kind(tree.children(i)[k] as int) == token)
}

pub open spec fn trimmed(o: Option<Seq<char>>) -> Option<Seq<char>> {
    match o {
        Some(t) => Some(trim(t)),
        None => None,
    }
}

/// The trimmed text of the `return_type` field of `i`.
pub open spec fn return_type_of(tree: &SyntaxTree, i: int, src: Seq<char>) -> Option<Seq<char>> {
    trimmed(tree.text_of_child(tree.field_child(i, "return_type"@), src))
}

/// The trimmed text of the `type` field of `i`, else of its `type_declaration` field.
pub open spec fn type_annotation_of(tree: &SyntaxTree, i: int, src: Seq<char>) -> Option<
    Seq<char>,
> {
    if tree.field_child(i, "type"@) is Some {
        trimmed(tree.text_of_child(tree.field_child(i, "type"@), src))
    } else {
        trimmed(tree.text_of_child(tree.field_child(i, "type_declaration"@), src))
    }
}

/// Whether `t` opens a documentation comment.
pub open spec fn opens_doc(t: Seq<char>) -> bool {
    let s = trim_left(t);
    "/**"@.len() <= s.len() && s.subrange(0, "/**"@.len() as int) == "/**"@
}

/// The documentation comment that belongs to node `i`: walking back over extra
/// siblings, the first other sibling must be a comment that opens with `/**`.
pub open spec fn doc_comment_before(tree: &SyntaxTree, i: int, src: Seq<char>) -> Option<
    Seq<char>,
>
    decreases i,
{
    if 0 <= i < tree.nodes@.len() {
        match tree.nodes@[i].prev_sibling {
            Some(p) => if p < i {
                let k = tree.kind(p as int);
                if k == "comment"@ || k == "phpdoc_comment"@ {
                    match tree.text(p as int, src) {
                        Some(t) => if opens_doc(t) {
                            Some(t)
                        } else {
                            None
                        },
                        None => None,
                    }
                } else if k == "inline_comment"@ {
                    None
                } else if tree.nodes@[p as int].is_extra {
                    doc_comment_before(tree, p as int, src)
                } else {
                    None
                }
            } else {
                None
            },
            None => None,
        }
    } else {
        None
    }
}

/// The display name of node `i`; `Err` where the generic rule cannot read it.
pub fn extract_name(tree: &SyntaxTree, i: usize, src: &str) -> (r: Result<String, ()>)
    requires
        tree.wf(),
        i < tree.nodes@.len(),
    ensures
        match r {
            Ok(s) => resolved_name(tree, i as int, src@) == Ok::<Seq<char>, ()>(s@),
            Err(()) => resolved_name(tree, i as int, src@) is Err,
        },
{
    if let Some(named) = tree.child_by_field_name(i, "name") {
        if let Some(text) = tree.node_text(named, src) {
            return Ok(String::from_str(text));
        }
    }
    let generic = match tree.find_child_by_kind(i, "name") {
        Some(c) => match tree.node_text(c, src) {
            Some(t) => String::from_str(t),
            None => return Err(()),
        },
        None => String::new(),
    };
    if generic.as_str().unicode_len() > 0 {
        return Ok(generic);
    }
    if let Some(var_node) = tree.find_child_by_kind(i, "variable_name") {
        if let Some(text) = tree.node_text(var_node, src) {
            return Ok(String::from_str(trim_start_char(text, '$')));
        }
    }
    Ok(String::new())
}

/// The visibility of node `i`.
pub fn extract_visibility(tree: &SyntaxTree, i: usize, src: &str) -> (r: Option<String>)
    requires
        tree.wf(),
        i < tree.nodes@.len(),
    ensures
        crate::docblock::opt_view(r) == visibility(tree, i as int, src@),
{
    let node = &tree.nodes[i];
    assert(tree.node_wf(i as int));
    let mut k: usize = 0;
    while k < node.children.len()
        invariant
            tree.wf(),
            i < tree.nodes@.len(),
            node == tree.nodes@[i as int],
            k <= node.children@.len(),
            visibility(tree, i as int, src@) == visibility_from(tree, i as int, k as int, src@),
        decreases node.children@.len() - k,
    {
        let c = node.children[k];
        assert(tree.node_wf(i as int));
        let kind = tree.nodes[c].kind.as_str();
        if same_text(kind, "visibility_modifier") {
            if let Some(text) = tree.node_text(c, src) {
                return Some(String::from_str(text));
            }
        }
        if same_text(kind, "public") || same_text(kind, "protected") || same_text(kind, "private") {
            proof {
                reveal_strlit("visibility_modifier");
                reveal_strlit("public");
                reveal_strlit("protected");
                reveal_strlit("private");
            }
            return Some(String::from_str(kind));
        }
        k += 1;
    }
    None
}

/// Whether some child of `i` is the modifier `token`.
pub fn has_modifier(tree: &SyntaxTree, i: usize, token: &str) -> (r: bool)
    requires
        tree.wf(),
        i < tree.nodes@.len(),
    ensures
        r == has_modifier_spec(tree, i as int, token@),
{
    let modifier_kind = String::from_str(token).concat("_modifier");
    let node = &tree.nodes[i];
    assert(tree.node_wf(i as int));
    let mut k: usize = 0;
    while k < node.children.len()
        invariant
            tree.wf(),
            i < tree.nodes@.len(),
            node == tree.nodes@[i as int],
            k <= node.children@.len(),
            modifier_kind@ == token@ + "_modifier"@,
            forall|j: int|
                0 <= j < k ==> !(tree.kind(#[trigger] node.children@[j] as int) == token@
                    + "_modifier"@ || tree.kind(node.children@[j] as int) == token@),
        decreases node.children@.len() - k,
    {
        let c = node.children[k];
        assert(tree.node_wf(i as int));
        let kind = tree.nodes[c].kind.as_str();
        if same_text(kind, modifier_kind.as_str()) || same_text(kind, token) {
            assert(tree.children(i as int)[k as int] == c);
            return true;
        }
        k += 1;
    }
    false
}

fn trimmed_text(tree: &SyntaxTree, c: Option<usize>, src: &str) -> (r: Option<String>)
    requires
        c matches Some(j) ==> j < tree.nodes@.len(),
    ensures
        crate::docblock::opt_view(r) == trimmed(tree.text_of_child(c, src@)),
{
    match c {
        Some(j) => match tree.node_text(j, src) {
            Some(t) => Some(String::from_str(trim_both(t))),
            None => None,
        },
        None => None,
    }
}

/// The trimmed text of the `return_type` field of `i`.
pub fn extract_return_type(tree: &SyntaxTree, i: usize, src: &str) -> (r: Option<String>)
    requires
        tree.wf(),
        i < tree.nodes@.len(),
    ensures
        crate::docblock::opt_view(r) == return_type_of(tree, i as int, src@),
{
    let c = tree.child_by_field_name(i, "return_type");
    trimmed_text(tree, c, src)
}

/// The trimmed text of the `type` field of `i`, else of its `type_declaration` field.
pub fn extract_type_annotation(tree: &SyntaxTree, i: usize, src: &str) -> (r: Option<String>)
    requires
        tree.wf(),
        i < tree.nodes@.len(),
    ensures
        crate::docblock::opt_view(r) == type_annotation_of(tree, i as int, src@),
{
    let c = tree.child_by_field_name(i, "type");
    if c.is_some() {
        return trimmed_text(tree, c, src);
    }
    let d = tree.child_by_field_name(i, "type_declaration");
    trimmed_text(tree, d, src)
}

/// The parsed documentation comment that belongs to node `i`, if any.
pub fn extract_docblock(tree: &SyntaxTree, i: usize, src: &str) -> (r: Option<DocblockInfo>)
    requires
        tree.wf(),
        i < tree.nodes@.len(),
    ensures
        r is Some == doc_comment_before(tree, i as int, src@) is Some,
        r matches Some(d) ==> d.parsed_from(doc_comment_before(tree, i as int, src@)->0),
{
    let mut current: usize = i;
    loop
        invariant
            tree.wf(),
            current < tree.nodes@.len(),
            doc_comment_before(tree, i as int, src@) == doc_comment_before(
                tree,
                current as int,
                src@,
            ),
        decreases current,
    {
        assert(tree.node_wf(current as int));
        let prev = match tree.nodes[current].prev_sibling {
            Some(p) => p,
            None => return None,
        };
        let kind = tree.nodes[prev].kind.as_str();
        if same_text(kind, "comment") || same_text(kind, "phpdoc_comment") {
            if let Some(text) = tree.node_text(prev, src) {
                if has_prefix(trim_start(text), "/**") {
                    return Some(parse_docblock(text));
                }
            }
            return None;
        }
        if same_text(kind, "inline_comment") || !tree.nodes[prev].is_extra {
            return None;
        }
        current = prev;
    }
}

} // verus!
