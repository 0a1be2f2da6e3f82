use php_concepts::{PhpExtractor, SemanticConcept, SyntaxNode, SyntaxTree};

fn char_offset(src: &str, byte: usize) -> usize {
    src[..byte].chars().count()
}

fn add_node(
    node: tree_sitter::Node<'_>,
    field: Option<&str>,
    prev: Option<usize>,
    src: &str,
    nodes: &mut Vec<SyntaxNode>,
) -> usize {
    let index = nodes.len();
    nodes.push(SyntaxNode {
        kind: node.kind().to_string(),
        field: field.map(|f| f.to_string()),
        is_extra: node.is_extra(),
        start: char_offset(src, node.start_byte()),
        end: char_offset(src, node.end_byte()),
        start_row: node.start_position().row,
        start_column: node.start_position().column,
        end_row: node.end_position().row,
        end_column: node.end_position().column,
        children: Vec::new(),
        prev_sibling: prev,
    });
    let mut children = Vec::new();
    let mut cursor = node.walk();
    if cursor.goto_first_child() {
        let mut prev_child = None;
        loop {
            let child = cursor.node();
            let c = add_node(child, cursor.field_name(), prev_child, src, nodes);
            children.push(c);
            prev_child = Some(c);
            if !cursor.goto_next_sibling() {
                break;
            }
        }
    }
    nodes[index].children = children;
    index
}

fn parse(code: &str) -> SyntaxTree {
    let mut parser = tree_sitter::Parser::new();
    parser
        .set_language(&tree_sitter_php::LANGUAGE_PHP.into())
        .expect("php grammar");
    let tree = parser.parse(code, None).expect("parse");
    let mut nodes = Vec::new();
    add_node(tree.root_node(), None, None, code, &mut nodes);
    SyntaxTree { nodes }
}

fn extract_all(code: &str, file_path: &str) -> Vec<SemanticConcept> {
    let extractor = PhpExtractor::new();
    let tree = parse(code);
    let mut concepts = Vec::new();
    for i in 0..tree.nodes.len() {
        let _ = extractor.extract_concepts(&tree, i, file_path, code, &mut concepts);
    }
    concepts
}

#[test]
fn captures_docblock_metadata() {
    let code = r#"<?php
/**
 * Find a user by id.
 *
 * @param int $id
 * @return ?User
 * @throws NotFoundException
 */
function findUser(int $id): ?User {
    return null;
}
"#;
    let concepts = extract_all(code, "user.php");
    let func = concepts
        .iter()
        .find(|c| c.name == "findUser")
        .expect("function concept");
    assert_eq!(
        func.metadata.get("docblock.return").map(String::as_str),
        Some("?User")
    );
    assert!(func
        .metadata
        .get("docblock.params")
        .map(|s| s.contains("int $id"))
        .unwrap_or(false));
    assert!(func
        .metadata
        .get("docblock.throws")
        .map(|s| s.contains("NotFoundException"))
        .unwrap_or(false));
}

#[test]
fn captures_trait_usage() {
    let code = r#"<?php
trait Loggable {}

class Service {
    use Loggable;
}
"#;
    let concepts = extract_all(code, "service.php");
    let class = concepts
        .iter()
        .find(|c| c.name == "Service")
        .expect("class concept");
    assert_eq!(
        class.metadata.get("traits").map(String::as_str),
        Some("Loggable")
    );
}

#[test]
fn function_concept_fields() {
    let code = "<?php\n/**\n * Find a user by id.\n * @param int $id\n */\nfunction findUser(int $id): ?User {\n    return null;\n}\n";
    let concepts = extract_all(code, "user.php");
    let funcs: Vec<_> = concepts.iter().filter(|c| c.name == "findUser").collect();
    assert_eq!(funcs.len(), 1);
    let f = funcs[0];
    assert_eq!(f.id, "php::function::user.php::findUser");
    assert_eq!(f.concept_type, "function");
    assert_eq!(f.confidence_percent, 85);
    assert_eq!(f.file_path, "user.php");
    assert_eq!(f.line_range.start, 6);
    assert_eq!(f.line_range.end, 8);
    assert_eq!(f.metadata.get("language").map(String::as_str), Some("php"));
    assert_eq!(f.metadata.get("kind").map(String::as_str), Some("function"));
    assert_eq!(f.metadata.get("start_column").map(String::as_str), Some("0"));
    assert_eq!(f.metadata.get("return_type").map(String::as_str), Some("?User"));
    assert_eq!(
        f.metadata.get("docblock.description").map(String::as_str),
        Some("/** Find a user by id. /")
    );
    assert_eq!(
        f.metadata.get("docblock.params").map(String::as_str),
        Some("int $id")
    );
    assert!(f.metadata.get("docblock.return").is_none());
    assert!(f.relationships.is_empty());
}

#[test]
fn traits_sorted_and_deduplicated() {
    let code = "<?php\nclass Service {\n    use Zeta;\n    use Alpha;\n    use Zeta;\n}\n";
    let concepts = extract_all(code, "service.php");
    let class = concepts.iter().find(|c| c.name == "Service").expect("class concept");
    assert_eq!(class.concept_type, "class");
    assert_eq!(class.id, "php::class_declaration::service.php::Service");
    assert_eq!(
        class.metadata.get("traits").map(String::as_str),
        Some("Alpha,Zeta")
    );
}

#[test]
fn property_declaration_yields_one_concept_per_name() {
    let code = "<?php\nclass Box {\n    public int $a, $b, $c;\n}\n";
    let concepts = extract_all(code, "box.php");
    let props: Vec<_> = concepts
        .iter()
        .filter(|c| c.concept_type == "property")
        .collect();
    assert_eq!(props.len(), 3);
    let names: Vec<&str> = props.iter().map(|c| c.name.as_str()).collect();
    assert_eq!(names, vec!["$a", "$b", "$c"]);
    assert_eq!(props[0].id, "php::property::box.php::$a");
    for p in &props {
        assert_eq!(p.metadata.get("visibility").map(String::as_str), Some("public"));
        assert_eq!(p.metadata.get("type").map(String::as_str), Some("int"));
    }
}

#[test]
fn plain_comment_blocks_docblock() {
    let code = "<?php\n/**\n * @return int\n */\n// helper\nfunction f(): int { return 1; }\n";
    let concepts = extract_all(code, "f.php");
    let f = concepts.iter().find(|c| c.name == "f").expect("function concept");
    assert!(f.metadata.get("docblock.return").is_none());
    assert!(f.metadata.get("docblock.description").is_none());
}

#[test]
fn extraction_is_deterministic() {
    let code = "<?php\nnamespace App;\ninterface Shape {}\nabstract class Base {\n    const A = 1, B = 2;\n    final public static function make(): static { return new static(); }\n    public function __construct(private string $id) {}\n}\nenum Suit {}\n";
    let first = extract_all(code, "app.php");
    let second = extract_all(code, "app.php");
    assert_eq!(first.len(), second.len());
    for (a, b) in first.iter().zip(second.iter()) {
        assert_eq!(a.id, b.id);
        assert_eq!(a.metadata.entries, b.metadata.entries);
    }
    let types: Vec<&str> = first.iter().map(|c| c.concept_type.as_str()).collect();
    assert!(types.contains(&"namespace"));
    assert!(types.contains(&"interface"));
    assert!(types.contains(&"enum"));
    let make = first.iter().find(|c| c.name == "make").expect("method concept");
    assert_eq!(make.concept_type, "method");
    assert_eq!(make.metadata.get("visibility").map(String::as_str), Some("public"));
    assert_eq!(make.metadata.get("static").map(String::as_str), Some("true"));
    assert_eq!(make.metadata.get("final").map(String::as_str), Some("true"));
    assert!(make.metadata.get("abstract").is_none());
    let base = first.iter().find(|c| c.name == "Base").expect("class concept");
    assert_eq!(base.metadata.get("abstract").map(String::as_str), Some("true"));
    let id = first.iter().find(|c| c.name == "$id").expect("promoted property");
    assert_eq!(id.concept_type, "property");
    assert_eq!(id.metadata.get("visibility").map(String::as_str), Some("private"));
    assert_eq!(id.metadata.get("type").map(String::as_str), Some("string"));
}

#[test]
fn one_line_class_trait_usage() {
    let code = "<?php\ntrait Loggable {}\nclass Service { use Loggable; }\n";
    let concepts = extract_all(code, "service.php");
    let class = concepts.iter().find(|c| c.name == "Service").expect("class concept");
    assert_eq!(
        class.metadata.get("traits").map(String::as_str),
        Some("Loggable")
    );
}

#[test]
fn private_properties_share_declaration_attributes() {
    let code = "<?php\nclass C {\n    private static int $a, $b, $c;\n}\n";
    let concepts = extract_all(code, "c.php");
    let props: Vec<_> = concepts.iter().filter(|c| c.concept_type == "property").collect();
    assert_eq!(props.len(), 3);
    for p in &props {
        assert_eq!(p.metadata.get("visibility").map(String::as_str), Some("private"));
        assert_eq!(p.metadata.get("static").map(String::as_str), Some("true"));
        assert_eq!(p.metadata.get("type").map(String::as_str), Some("int"));
    }
}

#[test]
fn trait_list_sorted_on_one_line() {
    let code = "<?php\nclass S { use Zeta, Alpha; use Alpha; }\n";
    let concepts = extract_all(code, "s.php");
    let class = concepts.iter().find(|c| c.name == "S").expect("class concept");
    assert_eq!(
        class.metadata.get("traits").map(String::as_str),
        Some("Alpha,Zeta")
    );
}
