use php_concepts::concept::decimal_text;
use php_concepts::text::{join_with, same_text, text_less, trim_both, trim_start_char};
use php_concepts::docblock::apply_tag;
use php_concepts::traits::{present_names, sort_unique};
use php_concepts::{parse_docblock, PhpExtractor, SyntaxNode, SyntaxTree};

fn node(kind: &str, span: (usize, usize), children: Vec<usize>, prev: Option<usize>) -> SyntaxNode {
    SyntaxNode {
        kind: kind.to_string(),
        field: None,
        is_extra: false,
        start: span.0,
        end: span.1,
        start_row: 0,
        start_column: span.0,
        end_row: 0,
        end_column: span.1,
        children,
        prev_sibling: prev,
    }
}

#[test]
fn docblock_parses_tags_and_description() {
    let raw = "/**\n * Find a user by id.\n *\n * @param int $id\n * @param string name\n * @return ?User\n * @return User\n * @throws NotFoundException\n * @see Other\n */";
    let doc = parse_docblock(raw);
    assert_eq!(doc.description, "/** Find a user by id. /");
    assert_eq!(doc.params, vec!["int $id".to_string(), "string $name".to_string()]);
    assert_eq!(doc.return_type.as_deref(), Some("User"));
    assert_eq!(doc.throws, vec!["NotFoundException".to_string()]);
}

#[test]
fn docblock_joins_description_lines() {
    let doc = parse_docblock("/**\n * First line.\n * Second line.\n */");
    assert_eq!(doc.description, "/** First line. Second line. /");
    assert!(doc.params.is_empty());
    assert!(doc.return_type.is_none());
    assert!(doc.throws.is_empty());
}

#[test]
fn class_traits_fall_back_to_text() {
    // A class whose body holds `use` lines but no trait-use clause node.
    let src = "class S {\n  use Beta;\n  use Alpha;\n  use Beta;\n}";
    let len = src.chars().count();
    let mut name = node("name", (6, 7), vec![], None);
    name.field = Some("name".to_string());
    let tree = SyntaxTree {
        nodes: vec![node("class_declaration", (0, len), vec![1], None), name],
    };
    let mut concepts = Vec::new();
    let r = PhpExtractor::new().extract_concepts(&tree, 0, "s.php", src, &mut concepts);
    assert!(r.is_ok());
    assert_eq!(concepts.len(), 1);
    assert_eq!(concepts[0].name, "S");
    assert_eq!(
        concepts[0].metadata.get("traits").map(String::as_str),
        Some("Alpha,Beta")
    );
}

#[test]
fn unreadable_name_is_an_error() {
    let src = "class";
    let tree = SyntaxTree {
        nodes: vec![
            node("class_declaration", (0, 5), vec![1], None),
            node("name", (6, 40), vec![], None),
        ],
    };
    let mut concepts = Vec::new();
    let r = PhpExtractor::new().extract_concepts(&tree, 0, "bad.php", src, &mut concepts);
    let e = r.err().expect("error");
    assert_eq!(e.file_path, "bad.php");
    assert_eq!(e.node, 0);
    assert!(concepts.is_empty());
}

#[test]
fn nameless_node_yields_nothing() {
    let src = "function () {}";
    let tree = SyntaxTree {
        nodes: vec![node("function_definition", (0, 14), vec![], None)],
    };
    let mut concepts = Vec::new();
    let r = PhpExtractor::new().extract_concepts(&tree, 0, "anon.php", src, &mut concepts);
    assert!(r.is_ok());
    assert!(concepts.is_empty());
}

#[test]
fn variable_name_loses_sigil() {
    let src = "$id";
    let tree = SyntaxTree {
        nodes: vec![
            node("property_promotion_parameter", (0, 3), vec![1], None),
            node("variable_name", (0, 3), vec![], None),
        ],
    };
    let mut concepts = Vec::new();
    let r = PhpExtractor::new().extract_concepts(&tree, 0, "p.php", src, &mut concepts);
    assert!(r.is_ok());
    assert_eq!(concepts.len(), 1);
    assert_eq!(concepts[0].name, "id");
    assert_eq!(concepts[0].id, "php::property::p.php::id");
    assert_eq!(concepts[0].metadata.get("start_column").map(String::as_str), Some("0"));
    assert_eq!(concepts[0].metadata.get("end_column").map(String::as_str), Some("3"));
}

#[test]
fn constant_declarators_each_yield_a_concept() {
    let src = "const A = 1, B = 2;";
    let mut a = node("name", (6, 7), vec![], None);
    a.field = Some("name".to_string());
    let mut b = node("name", (13, 14), vec![], None);
    b.field = Some("name".to_string());
    let tree = SyntaxTree {
        nodes: vec![
            node("const_declaration", (0, 19), vec![1, 3, 4], None),
            node("constant_declarator", (6, 11), vec![2], None),
            a,
            node(",", (11, 12), vec![], Some(1)),
            node("constant_declarator", (13, 18), vec![5], Some(3)),
            b,
        ],
    };
    let mut concepts = Vec::new();
    let r = PhpExtractor::new().extract_concepts(&tree, 0, "c.php", src, &mut concepts);
    assert!(r.is_ok());
    let names: Vec<&str> = concepts.iter().map(|c| c.name.as_str()).collect();
    assert_eq!(names, vec!["A", "B"]);
    assert_eq!(concepts[1].id, "php::constant::c.php::B");
    assert_eq!(concepts[1].concept_type, "constant");
}

#[test]
fn other_kinds_are_ignored() {
    let tree = SyntaxTree {
        nodes: vec![node("expression_statement", (0, 0), vec![], None)],
    };
    let mut concepts = Vec::new();
    assert!(PhpExtractor::new()
        .extract_concepts(&tree, 0, "x.php", "", &mut concepts)
        .is_ok());
    assert!(concepts.is_empty());
}

#[test]
fn normalizes_declaration_kinds() {
    assert_eq!(PhpExtractor::normalize_concept_type("class_declaration"), "class");
    assert_eq!(PhpExtractor::normalize_concept_type("interface_declaration"), "interface");
    assert_eq!(PhpExtractor::normalize_concept_type("trait_declaration"), "trait");
    assert_eq!(PhpExtractor::normalize_concept_type("enum_declaration"), "enum");
    assert_eq!(PhpExtractor::normalize_concept_type("method"), "method");
}

#[test]
fn decimal_numerals() {
    assert_eq!(decimal_text(0), "0");
    assert_eq!(decimal_text(7), "7");
    assert_eq!(decimal_text(120), "120");
    assert_eq!(decimal_text(usize::MAX), usize::MAX.to_string());
}

#[test]
fn sorts_without_repeats() {
    let v = vec!["b".to_string(), "a".to_string(), "b".to_string(), "ab".to_string()];
    assert_eq!(sort_unique(&v), vec!["a".to_string(), "ab".to_string(), "b".to_string()]);
    assert!(sort_unique(&Vec::new()).is_empty());
}

#[test]
fn text_helpers() {
    assert_eq!(trim_both("  \t x y \n"), "x y");
    assert_eq!(trim_start_char("**a*", '*'), "a*");
    assert!(same_text("abc", "abc"));
    assert!(!same_text("abc", "abd"));
    assert!(text_less("Alpha", "Beta"));
    assert!(text_less("a", "ab"));
    assert!(!text_less("b", "b"));
    let parts = vec!["a".to_string(), "b".to_string(), "c".to_string()];
    assert_eq!(join_with(&parts, "|"), "a|b|c");
}

#[test]
fn tag_matches_decide_the_slot() {
    let mut params = Vec::new();
    let mut ret = None;
    let mut throws = Vec::new();
    apply_tag(
        Some("int".to_string()),
        Some("id".to_string()),
        Some("x".to_string()),
        None,
        &mut params,
        &mut ret,
        &mut throws,
    );
    assert_eq!(params, vec!["int $id".to_string()]);
    assert!(ret.is_none());
    apply_tag(None, None, Some("User".to_string()), Some("E".to_string()), &mut params, &mut ret, &mut throws);
    assert_eq!(ret.as_deref(), Some("User"));
    assert!(throws.is_empty());
    apply_tag(None, None, None, Some("E".to_string()), &mut params, &mut ret, &mut throws);
    assert_eq!(throws, vec!["E".to_string()]);
    apply_tag(Some("string".to_string()), None, None, None, &mut params, &mut ret, &mut throws);
    assert_eq!(params[1], "string $");
}

#[test]
fn present_names_keeps_found_groups() {
    let groups = vec![Some("B".to_string()), None, Some("A".to_string())];
    assert_eq!(present_names(&groups), vec!["B".to_string(), "A".to_string()]);
}

#[test]
fn failing_element_is_named_in_the_error() {
    let src = "$a";
    let tree = SyntaxTree {
        nodes: vec![
            node("property_declaration", (0, 2), vec![1, 3], None),
            node("property_element", (0, 2), vec![2], None),
            node("variable_name", (0, 2), vec![], None),
            node("property_element", (0, 2), vec![4], Some(1)),
            node("name", (5, 9), vec![], None),
        ],
    };
    let mut concepts = Vec::new();
    let r = PhpExtractor::new().extract_concepts(&tree, 0, "e.php", src, &mut concepts);
    assert_eq!(r.err().expect("error").node, 3);
    assert_eq!(concepts.len(), 1);
    assert_eq!(concepts[0].name, "a");
}
