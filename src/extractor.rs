//! Turning declaration nodes into concepts.
use vstd::prelude::*;

use crate::concept::{
    concept_views, decimal, decimal_text, ConceptView, LineRange, Metadata, ParseError,
    SemanticConcept,
};
use crate::docblock::{doc_of, opt_view};
use crate::harvest::{
    doc_comment_before, extract_docblock, extract_name, extract_return_type,
    extract_type_annotation, extract_visibility, has_modifier, has_modifier_spec, resolved_name,
    return_type_of, type_annotation_of, visibility,
};
use crate::syntax::SyntaxTree;
use crate::text::{join, join_with, same_text};
use crate::traits::{collect_traits, sorted_unique, trait_candidates};

verus! {

/// The certainty that every concept carries, in percent.
pub const CONFIDENCE_PERCENT: u32 = 85;

/// The concept type for a label: declaration kinds lose their `_declaration` suffix.
pub open spec fn normalized(label: Seq<char>) -> Seq<char> {
    if label == "class_declaration"@ {
        "class"@
    } else if label == "interface_declaration"@ {
        "interface"@
    } else if label == "trait_declaration"@ {
        "trait"@
    } else if label == "enum_declaration"@ {
        "enum"@
    } else {
        label
    }
}

pub open spec fn opt_entry(key: Seq<char>, o: Option<Seq<char>>) -> Seq<(Seq<char>, Seq<char>)> {
    match o {
        Some(v) => seq![(key, v)],
        None => Seq::empty(),
    }
}

pub open spec fn flag_entry(key: Seq<char>, present: bool) -> Seq<(Seq<char>, Seq<char>)> {
    if present {
        seq![(key, "true"@)]
    } else {
        Seq::empty()
    }
}

pub open spec fn list_entry(key: Seq<char>, items: Seq<Seq<char>>, sep: Seq<char>) -> Seq<
    (Seq<char>, Seq<char>),
> {
    if items.len() > 0 {
        seq![(key, join(items, sep))]
    } else {
        Seq::empty()
    }
}

/// The entries that the documentation comment `raw`, if any, contributes.
pub open spec fn doc_entries(raw: Option<Seq<char>>) -> Seq<(Seq<char>, Seq<char>)> {
    match raw {
        Some(t) => {
            let d = doc_of(t);
            let description = join(d.description, " "@);
            (if description.len() > 0 {
                seq![("docblock.description"@, description)]
            } else {
                Seq::empty()
            }) + list_entry("docblock.params"@, d.params, "|"@) + opt_entry(
                "docblock.return"@,
                d.return_type,
            ) + list_entry("docblock.throws"@, d.throws, "|"@)
        },
        None => Seq::empty(),
    }
}

/// The `traits` entry of a class.
pub open spec fn trait_entry(tree: &SyntaxTree, i: int, src: Seq<char>, kind: Seq<char>) -> Seq<
    (Seq<char>, Seq<char>),
> {
    if kind == "class"@ {
        list_entry("traits"@, sorted_unique(trait_candidates(tree, i, src)), ","@)
    } else {
        Seq::empty()
    }
}

/// `base` followed by the entries for visibility, modifiers and types of node `i`.
pub open spec fn with_attributes(
    base: Seq<(Seq<char>, Seq<char>)>,
    tree: &SyntaxTree,
    i: int,
    src: Seq<char>,
) -> Seq<(Seq<char>, Seq<char>)> {
    base + opt_entry("visibility"@, visibility(tree, i, src)) + flag_entry(
        "static"@,
        has_modifier_spec(tree, i, "static"@),
    ) + flag_entry("abstract"@, has_modifier_spec(tree, i, "abstract"@)) + flag_entry(
        "final"@,
        has_modifier_spec(tree, i, "final"@),
    ) + opt_entry("return_type"@, return_type_of(tree, i, src)) + opt_entry(
        "type"@,
        type_annotation_of(tree, i, src),
    )
}

/// The metadata of the concept that node `i` yields under `label`, in insertion order;
/// visibility, modifiers and types are read from node `attr`.
pub open spec fn metadata_of(
    tree: &SyntaxTree,
    i: int,
    attr: int,
    src: Seq<char>,
    label: Seq<char>,
) -> Seq<(Seq<char>, Seq<char>)> {
    let n = tree.nodes@[i];
    let kind = normalized(label);
    with_attributes(
        seq![
            ("language"@, "php"@),
            ("kind"@, kind),
            ("start_column"@, decimal(n.start_column as nat)),
            ("end_column"@, decimal(n.end_column as nat)),
        ],
        tree,
        attr,
        src,
    ) + doc_entries(doc_comment_before(tree, i, src))
        + trait_entry(tree, i, src, kind)
}

/// The concept that node `i` yields under `label`, its visibility, modifiers
/// and types read from node `attr` (the node itself, or the declaration that
/// its element shares them with): none where its name is empty, `Err` where
/// its name cannot be read.
pub open spec fn concept_of(
    tree: &SyntaxTree,
    i: int,
    attr: int,
    file: Seq<char>,
    src: Seq<char>,
    label: Seq<char>,
) -> Result<Option<ConceptView>, ()> {
    match resolved_name(tree, i, src) {
        Err(()) => Err(()),
        Ok(name) => if name.len() == 0 {
            Ok(None)
        } else {
            let n = tree.nodes@[i];
            Ok(
                Some(
                    ConceptView {
                        id: "php::"@ + label + "::"@ + file + "::"@ + name,
                        name: name,
                        concept_type: normalized(label),
                        confidence_percent: CONFIDENCE_PERCENT as nat,
                        file_path: file,
                        start_line: n.start_row as nat + 1,
                        end_line: n.end_row as nat + 1,
                        relationships: Seq::empty(),
                        metadata: metadata_of(tree, i, attr, src, label),
                    },
                ),
            )
        },
    }
}

/// What construct `node` adds: its concept, if any, and the node that failed, if any.
pub open spec fn single(r: Result<Option<ConceptView>, ()>, node: int) -> (
    Seq<ConceptView>,
    Option<int>,
) {
    match r {
        Err(()) => (Seq::empty(), Some(node)),
        Ok(None) => (Seq::empty(), None),
        Ok(Some(c)) => (seq![c], None),
    }
}

/// The concepts of the children of `i` of kind `elem`, from position `k` on,
/// up to the first that fails; and the child that failed, if any. Where
/// `shared` holds, each element takes its visibility, modifiers and types
/// from the declaration `i`.
pub open spec fn elements_from(
    tree: &SyntaxTree,
    i: int,
    k: int,
    file: Seq<char>,
    src: Seq<char>,
    elem: Seq<char>,
    label: Seq<char>,
    shared: bool,
) -> (Seq<ConceptView>, Option<int>)
    decreases tree.children(i).len() - k,
{
    if 0 <= k < tree.children(i).len() {
        let c = tree.children(i)[k] as int;
        let rest = elements_from(tree, i, k + 1, file, src, elem, label, shared);
        if tree.kind(c) == elem {
            match concept_of(tree, c, if shared { i } else { c }, file, src, label) {
                Err(()) => (Seq::empty(), Some(c)),
                Ok(None) => rest,
                Ok(Some(x)) => (seq![x] + rest.0, rest.1),
            }
        } else {
            rest
        }
    } else {
        (Seq::empty(), None)
    }
}

/// The concepts that node `i` yields, in order, and the node whose name could
/// not be read, if any.
pub open spec fn concepts_of(tree: &SyntaxTree, i: int, file: Seq<char>, src: Seq<char>) -> (
    Seq<ConceptView>,
    Option<int>,
) {
    let k = tree.kind(i);
    if k == "class_declaration"@ || k == "interface_declaration"@ || k == "trait_declaration"@ || k
        == "enum_declaration"@ {
        single(concept_of(tree, i, i, file, src, k), i)
    } else if k == "function_definition"@ {
        single(concept_of(tree, i, i, file, src, "function"@), i)
    } else if k == "method_declaration"@ {
        single(concept_of(tree, i, i, file, src, "method"@), i)
    } else if k == "property_declaration"@ {
        elements_from(tree, i, 0, file, src, "property_element"@, "property"@, true)
    } else if k == "property_promotion_parameter"@ {
        single(concept_of(tree, i, i, file, src, "property"@), i)
    } else if k == "const_declaration"@ {
        elements_from(tree, i, 0, file, src, "constant_declarator"@, "constant"@, false)
    } else if k == "namespace_definition"@ {
        single(concept_of(tree, i, i, file, src, "namespace"@), i)
    } else {
        (Seq::empty(), None)
    }
}

/// Extracts PHP concepts from syntax nodes.
pub struct PhpExtractor;

impl PhpExtractor {
    pub fn new() -> (r: Self)
        ensures
            r == PhpExtractor,
    {
        PhpExtractor
    }

    /// Appends to `concepts` what node `node` declares: one concept for a class,
    /// interface, trait, enum, function, method, promoted property or namespace;
    /// one per element of a property or constant declaration; none otherwise.
    /// Fails where a name cannot be read, keeping what came before it.
    pub fn extract_concepts(
        &self,
        tree: &SyntaxTree,
        node: usize,
        file_path: &str,
        content: &str,
        concepts: &mut Vec<SemanticConcept>,
    ) -> (r: Result<(), ParseError>)
        requires
            tree.wf(),
            node < tree.nodes@.len(),
        ensures
            concept_views(final(concepts)@) == concept_views(old(concepts)@) + concepts_of(
                tree,
                node as int,
                file_path@,
                content@,
            ).0,
            r is Err == concepts_of(tree, node as int, file_path@, content@).1 is Some,
            r matches Err(e) ==> e.file_path@ == file_path@ && concepts_of(
                tree,
                node as int,
                file_path@,
                content@,
            ).1 == Some(e.node as int),
    {
        let kind = tree.nodes[node].kind.as_str();
        if same_text(kind, "class_declaration") || same_text(kind, "interface_declaration")
            || same_text(kind, "trait_declaration") || same_text(kind, "enum_declaration") {
            self.push_single(tree, node, file_path, content, kind, concepts)
        } else if same_text(kind, "function_definition") {
            self.push_single(tree, node, file_path, content, "function", concepts)
        } else if same_text(kind, "method_declaration") {
            self.push_single(tree, node, file_path, content, "method", concepts)
        } else if same_text(kind, "property_declaration") {
            self.push_elements(
                tree,
                node,
                file_path,
                content,
                "property_element",
                "property",
                true,
                concepts,
            )
        } else if same_text(kind, "property_promotion_parameter") {
            self.push_single(tree, node, file_path, content, "property", concepts)
        } else if same_text(kind, "const_declaration") {
            self.push_elements(
                tree,
                node,
                file_path,
                content,
                "constant_declarator",
                "constant",
                false,
                concepts,
            )
        } else if same_text(kind, "namespace_definition") {
            self.push_single(tree, node, file_path, content, "namespace", concepts)
        } else {
            assert(concept_views(final(concepts)@) =~= concept_views(old(concepts)@) + Seq::<
                ConceptView,
            >::empty());
            Ok(())
        }
    }

    fn push_single(
        &self,
        tree: &SyntaxTree,
        node: usize,
        file_path: &str,
        content: &str,
        label: &str,
        concepts: &mut Vec<SemanticConcept>,
    ) -> (r: Result<(), ParseError>)
        requires
            tree.wf(),
            node < tree.nodes@.len(),
        ensures
            ({
                let s = single(
                    concept_of(tree, node as int, node as int, file_path@, content@, label@),
                    node as int,
                );
                &&& concept_views(final(concepts)@) == concept_views(old(concepts)@) + s.0
                &&& r is Err == s.1 is Some
                &&& r matches Err(e) ==> e.file_path@ == file_path@ && s.1 == Some(e.node as int)
            }),
    {
        match self.build_named_construct(tree, node, node, file_path, content, label) {
            Err(e) => {
                assert(concept_views(final(concepts)@) =~= concept_views(old(concepts)@) + Seq::<
                    ConceptView,
                >::empty());
                Err(e)
            },
            Ok(None) => {
                assert(concept_views(final(concepts)@) =~= concept_views(old(concepts)@) + Seq::<
                    ConceptView,
                >::empty());
                Ok(())
            },
            Ok(Some(c)) => {
                let ghost cv = c@;
                concepts.push(c);
                assert(concept_views(final(concepts)@) =~= concept_views(old(concepts)@) + seq![
                    cv,
                ]);
                Ok(())
            },
        }
    }

    fn push_elements(
        &self,
        tree: &SyntaxTree,
        node: usize,
        file_path: &str,
        content: &str,
        elem: &str,
        label: &str,
        shared: bool,
        concepts: &mut Vec<SemanticConcept>,
    ) -> (r: Result<(), ParseError>)
        requires
            tree.wf(),
            node < tree.nodes@.len(),
        ensures
            ({
                let e = elements_from(
                    tree,
                    node as int,
                    0,
                    file_path@,
                    content@,
                    elem@,
                    label@,
                    shared,
                );
                &&& concept_views(final(concepts)@) == concept_views(old(concepts)@) + e.0
                &&& r is Err == e.1 is Some
                &&& r matches Err(x) ==> x.file_path@ == file_path@ && e.1 == Some(x.node as int)
            }),
    {
        let ghost total = elements_from(
            tree,
            node as int,
            0,
            file_path@,
            content@,
            elem@,
            label@,
            shared,
        );
        let ghost mut acc: Seq<ConceptView> = Seq::empty();
        let n = &tree.nodes[node];
        assert(tree.node_wf(node as int));
        let mut k: usize = 0;
        assert(concept_views(concepts@) =~= concept_views(old(concepts)@) + acc);
        assert(acc + total.0 =~= total.0);
        while k < n.children.len()
            invariant
                tree.wf(),
                node < tree.nodes@.len(),
                n == tree.nodes@[node as int],
                k <= n.children@.len(),
                total == elements_from(
                    tree,
                    node as int,
                    0,
                    file_path@,
                    content@,
                    elem@,
                    label@,
                    shared,
                ),
                concept_views(concepts@) == concept_views(old(concepts)@) + acc,
                total.0 == acc + elements_from(
                    tree,
                    node as int,
                    k as int,
                    file_path@,
                    content@,
                    elem@,
                    label@,
                    shared,
                ).0,
                total.1 == elements_from(
                    tree,
                    node as int,
                    k as int,
                    file_path@,
                    content@,
                    elem@,
                    label@,
                    shared,
                ).1,
            decreases n.children@.len() - k,
        {
            let c = n.children[k];
            assert(tree.node_wf(node as int));
            let ghost rest = elements_from(
                tree,
                node as int,
                k + 1,
                file_path@,
                content@,
                elem@,
                label@,
                shared,
            );
            if same_text(tree.nodes[c].kind.as_str(), elem) {
                let attr = if shared {
                    node
                } else {
                    c
                };
                match self.build_named_construct(tree, c, attr, file_path, content, label) {
                    Err(e) => {
                        assert(acc + Seq::<ConceptView>::empty() =~= acc);
                        return Err(e);
                    },
                    Ok(None) => {},
                    Ok(Some(x)) => {
                        let ghost xv = x@;
                        let ghost before = concept_views(concepts@);
                        concepts.push(x);
                        assert(concept_views(concepts@) =~= before.push(xv));
                        assert(acc + (seq![xv] + rest.0) =~= acc.push(xv) + rest.0);
                        proof {
                            acc = acc.push(xv);
                        }
                        assert(concept_views(concepts@) =~= concept_views(old(concepts)@) + acc);
                    },
                }
            }
            k += 1;
        }
        assert(acc + Seq::<ConceptView>::empty() =~= acc);
        Ok(())
    }

    /// The concept that node `node` yields under `concept_type`, with the
    /// visibility, modifiers and types of node `attr`.
    fn build_named_construct(
        &self,
        tree: &SyntaxTree,
        node: usize,
        attr: usize,
        file_path: &str,
        content: &str,
        concept_type: &str,
    ) -> (r: Result<Option<SemanticConcept>, ParseError>)
        requires
            tree.wf(),
            node < tree.nodes@.len(),
            attr < tree.nodes@.len(),
        ensures
            ({
                let expected = concept_of(
                    tree,
                    node as int,
                    attr as int,
                    file_path@,
                    content@,
                    concept_type@,
                );
                match r {
                    Err(e) => expected is Err && e.file_path@ == file_path@ && e.node == node,
                    Ok(None) => expected == Ok::<Option<ConceptView>, ()>(None),
                    Ok(Some(c)) => expected == Ok::<Option<ConceptView>, ()>(Some(c@)),
                }
            }),
            r matches Ok(None) <==> resolved_name(tree, node as int, content@) == Ok::<
                Seq<char>,
                (),
            >(Seq::empty()),
            r matches Ok(Some(c)) ==> resolved_name(tree, node as int, content@) == Ok::<
                Seq<char>,
                (),
            >(c.name@) && c.name@.len() > 0,
    {
        let name = match extract_name(tree, node, content) {
            Ok(s) => s,
            Err(()) => {
                return Err(ParseError { file_path: String::from_str(file_path), node });
            },
        };
        if name.as_str().unicode_len() == 0 {
            assert(name@ =~= Seq::<char>::empty());
            return Ok(None);
        }
        assert(tree.node_wf(node as int));
        let n = &tree.nodes[node];
        let normalized_type = Self::normalize_concept_type(concept_type);
        let metadata = self.harvest_metadata(tree, node, attr, content, concept_type);
        let id = String::from_str("php::").concat(concept_type).concat("::").concat(file_path).concat(
            "::",
        ).concat(name.as_str());
        let concept = SemanticConcept {
            id,
            name,
            concept_type: String::from_str(normalized_type),
            confidence_percent: CONFIDENCE_PERCENT,
            file_path: String::from_str(file_path),
            line_range: LineRange { start: n.start_row + 1, end: n.end_row + 1 },
            relationships: Metadata::new(),
            metadata,
        };
        Ok(Some(concept))
    }

    /// The metadata of the concept that node `node` yields under `concept_type`.
    fn harvest_metadata(
        &self,
        tree: &SyntaxTree,
        node: usize,
        attr: usize,
        content: &str,
        concept_type: &str,
    ) -> (r: Metadata)
        requires
            tree.wf(),
            node < tree.nodes@.len(),
            attr < tree.nodes@.len(),
        ensures
            r@ == metadata_of(tree, node as int, attr as int, content@, concept_type@),
    {
        let n = &tree.nodes[node];
        let normalized_type = Self::normalize_concept_type(concept_type);
        let mut metadata = Metadata::new();
        metadata.append(String::from_str("language"), String::from_str("php"));
        metadata.append(String::from_str("kind"), String::from_str(normalized_type));
        metadata.append(String::from_str("start_column"), decimal_text(n.start_column));
        metadata.append(String::from_str("end_column"), decimal_text(n.end_column));
        assert(metadata@ =~= seq![
            ("language"@, "php"@),
            ("kind"@, normalized(concept_type@)),
            ("start_column"@, decimal(n.start_column as nat)),
            ("end_column"@, decimal(n.end_column as nat)),
        ]);
        self.append_attributes(tree, attr, content, &mut metadata);
        self.append_docblock(tree, node, content, &mut metadata);
        self.append_traits(tree, node, content, normalized_type, &mut metadata);
        metadata
    }

    /// Appends the `traits` entry where `kind` is a class that uses traits.
    fn append_traits(
        &self,
        tree: &SyntaxTree,
        node: usize,
        content: &str,
        kind: &str,
        metadata: &mut Metadata,
    )
        requires
            tree.wf(),
            node < tree.nodes@.len(),
        ensures
            final(metadata)@ == old(metadata)@ + trait_entry(tree, node as int, content@, kind@),
    {
        if same_text(kind, "class") {
            let traits = collect_traits(tree, node, content);
            if traits.len() > 0 {
                metadata.append(String::from_str("traits"), join_with(&traits, ","));
            }
        }
        assert(final(metadata)@ =~= old(metadata)@ + trait_entry(tree, node as int, content@, kind@));
    }

    /// The concept type for a label: declaration kinds lose their `_declaration` suffix.
    pub fn normalize_concept_type(concept_type: &str) -> (r: &str)
        ensures
            r@ == normalized(concept_type@),
    {
        if same_text(concept_type, "class_declaration") {
            "class"
        } else if same_text(concept_type, "interface_declaration") {
            "interface"
        } else if same_text(concept_type, "trait_declaration") {
            "trait"
        } else if same_text(concept_type, "enum_declaration") {
            "enum"
        } else {
            concept_type
        }
    }

    /// Appends the entries for visibility, modifiers and types of node `node`.
    fn append_attributes(&self, tree: &SyntaxTree, node: usize, content: &str, metadata: &mut Metadata)
        requires
            tree.wf(),
            node < tree.nodes@.len(),
        ensures
            final(metadata)@ == with_attributes(old(metadata)@, tree, node as int, content@),
    {
        let visibility = extract_visibility(tree, node, content);
        append_opt(metadata, "visibility", visibility);
        let is_static = has_modifier(tree, node, "static");
        append_flag(metadata, "static", is_static);
        let is_abstract = has_modifier(tree, node, "abstract");
        append_flag(metadata, "abstract", is_abstract);
        let is_final = has_modifier(tree, node, "final");
        append_flag(metadata, "final", is_final);
        let return_type = extract_return_type(tree, node, content);
        append_opt(metadata, "return_type", return_type);
        let annotation = extract_type_annotation(tree, node, content);
        append_opt(metadata, "type", annotation);
    }

    /// Appends the entries of the documentation comment of node `node`, if any.
    fn append_docblock(&self, tree: &SyntaxTree, node: usize, content: &str, metadata: &mut Metadata)
        requires
            tree.wf(),
            node < tree.nodes@.len(),
        ensures
            final(metadata)@ == old(metadata)@ + doc_entries(
                doc_comment_before(tree, node as int, content@),
            ),
    {
        let ghost m0 = metadata@;
        match extract_docblock(tree, node, content) {
            Some(doc) => {
                let ghost d = doc_of(doc_comment_before(tree, node as int, content@)->0);
                if doc.description.as_str().unicode_len() > 0 {
                    metadata.append(String::from_str("docblock.description"), doc.description);
                }
                let ghost m1 = metadata@;
                if doc.params.len() > 0 {
                    metadata.append(String::from_str("docblock.params"), join_with(&doc.params, "|"));
                }
                assert(metadata@ =~= m1 + list_entry(
                    "docblock.params"@,
                    d.params,
                    "|"@,
                ));
                let ghost m2 = metadata@;
                if let Some(ret) = doc.return_type {
                    metadata.append(String::from_str("docblock.return"), ret);
                }
                assert(metadata@ =~= m2 + opt_entry("docblock.return"@, d.return_type));
                let ghost m3 = metadata@;
                if doc.throws.len() > 0 {
                    metadata.append(String::from_str("docblock.throws"), join_with(&doc.throws, "|"));
                }
                assert(metadata@ =~= m3 + list_entry("docblock.throws"@, d.throws, "|"@));
                assert(metadata@ =~= m0 + doc_entries(
                    doc_comment_before(tree, node as int, content@),
                ));
            },
            None => {
                assert(metadata@ =~= m0 + Seq::<(Seq<char>, Seq<char>)>::empty());
            },
        }
    }
}

impl Default for PhpExtractor {
    fn default() -> (r: Self)
        ensures
            r == PhpExtractor,
    {
        Self::new()
    }
}

/// Appends `key` with the value, where there is one.
fn append_opt(metadata: &mut Metadata, key: &str, value: Option<String>)
    ensures
        final(metadata)@ == old(metadata)@ + opt_entry(key@, opt_view(value)),
{
    match value {
        Some(v) => {
            metadata.append(String::from_str(key), v);
        },
        None => {},
    }
    assert(final(metadata)@ =~= old(metadata)@ + opt_entry(key@, opt_view(value)));
}

/// Appends `key` with the value `true`, where `present` holds.
fn append_flag(metadata: &mut Metadata, key: &str, present: bool)
    ensures
        final(metadata)@ == old(metadata)@ + flag_entry(key@, present),
{
    if present {
        metadata.append(String::from_str(key), String::from_str("true"));
    }
    assert(final(metadata)@ =~= old(metadata)@ + flag_entry(key@, present));
}

} // verus!
