use garnish_lang_compiler::lex::lex;
use garnish_lang_compiler::parse::{parse, Definition as GarnishDefinition, ParseResult};
use phrase_reducer::{
    reduce_phrases, Definition, ReduceError, SimplePhraseContext, SyntaxNode, SyntaxTree, Token,
};

fn to_tree(parsed: &ParseResult) -> SyntaxTree {
    let mut nodes = Vec::new();
    for node in parsed.get_nodes().iter() {
        let definition = match node.get_definition() {
            GarnishDefinition::Identifier => Definition::Identifier,
            GarnishDefinition::List => Definition::List,
            GarnishDefinition::Number => Definition::Number,
            GarnishDefinition::EmptyApply => Definition::EmptyApply,
            GarnishDefinition::ApplyTo => Definition::ApplyTo,
            _ => Definition::Other,
        };
        let token = node.get_lex_token();
        nodes.push(SyntaxNode {
            definition,
            parent: node.get_parent(),
            left: node.get_left(),
            right: node.get_right(),
            token: Token {
                text: token.get_text().clone(),
                line: token.get_line(),
                column: token.get_column(),
            },
        });
    }
    SyntaxTree {
        nodes,
        root: parsed.get_root(),
    }
}

fn parse_to_tree(input: &str) -> SyntaxTree {
    let tokens = lex(input).unwrap();
    let parsed = parse(&tokens).unwrap();
    to_tree(&parsed)
}

// The parser turns "perform task" into a `List` whose children are the two
// identifiers; the resolved phrase keeps that node as root and hangs the
// `EmptyApply` wrapper off its right slot, where the resolving identifier sat.
#[test]
fn simple_phrase() {
    let tree = parse_to_tree("perform task");

    let mut context = SimplePhraseContext::new();
    context.add_phrase("perform_task").unwrap();

    let phrased_tokens = reduce_phrases(&tree, &context).unwrap();

    assert_eq!(phrased_tokens.nodes.len(), 4);
    assert_eq!(phrased_tokens.root, 1);

    let list_token = &phrased_tokens.nodes[1];
    assert_eq!(list_token.definition, Definition::List);
    assert_eq!(list_token.left, Some(0));
    assert_eq!(list_token.right, Some(3));
    assert_eq!(list_token.parent, None);

    let apply_token = &phrased_tokens.nodes[3];
    assert_eq!(apply_token.definition, Definition::EmptyApply);
    assert_eq!(apply_token.left, Some(2));
    assert_eq!(apply_token.right, None);
    assert_eq!(apply_token.parent, Some(1));
    assert_eq!(apply_token.token.text, "perform_task");

    let identifier_token = &phrased_tokens.nodes[2];
    assert_eq!(identifier_token.definition, Definition::Identifier);
    assert_eq!(identifier_token.left, None);
    assert_eq!(identifier_token.right, None);
    assert_eq!(identifier_token.parent, Some(3));
    assert_eq!(identifier_token.token.text, "perform_task");
}

#[test]
fn single_word() {
    let tree = parse_to_tree("task");

    let mut context = SimplePhraseContext::new();
    context.add_phrase("task").unwrap();

    let phrased_tokens = reduce_phrases(&tree, &context).unwrap();

    let apply_token = &phrased_tokens.nodes[1];

    assert_eq!(phrased_tokens.root, 1);

    assert_eq!(apply_token.definition, Definition::EmptyApply);
    assert_eq!(apply_token.left, Some(0));
    assert_eq!(apply_token.right, None);
    assert_eq!(apply_token.parent, None);
    assert_eq!(apply_token.token.text, "task");

    let identifier_token = &phrased_tokens.nodes[0];
    assert_eq!(identifier_token.definition, Definition::Identifier);
    assert_eq!(identifier_token.left, None);
    assert_eq!(identifier_token.right, None);
    assert_eq!(identifier_token.parent, Some(1));
    assert_eq!(identifier_token.token.text, "task");
}

#[test]
fn simple_phrase_with_argument() {
    let tree = parse_to_tree("perform 5 task");

    let mut context = SimplePhraseContext::new();
    context.add_phrase("perform_task").unwrap();

    let phrased_tokens = reduce_phrases(&tree, &context).unwrap();

    let apply_token = &phrased_tokens.nodes[3];

    assert_eq!(phrased_tokens.root, 3);
    assert_eq!(apply_token.definition, Definition::ApplyTo);
    assert_eq!(apply_token.left, Some(2));
    assert_eq!(apply_token.right, Some(4));
    assert_eq!(apply_token.parent, None);

    let identifier_token = &phrased_tokens.nodes[2];
    assert_eq!(identifier_token.definition, Definition::Number);
    assert_eq!(identifier_token.left, None);
    assert_eq!(identifier_token.right, None);
    assert_eq!(identifier_token.parent, Some(3));
    assert_eq!(identifier_token.token.text, "5");

    let identifier_token = &phrased_tokens.nodes[4];
    assert_eq!(identifier_token.definition, Definition::Identifier);
    assert_eq!(identifier_token.left, None);
    assert_eq!(identifier_token.right, None);
    assert_eq!(identifier_token.parent, Some(3));
    assert_eq!(identifier_token.token.text, "perform_task");
}

#[test]
fn simple_phrase_with_two_arguments() {
    let tree = parse_to_tree("perform 5 10 task");

    let mut context = SimplePhraseContext::new();
    context.add_phrase("perform_task").unwrap();

    let phrased_tokens = reduce_phrases(&tree, &context).unwrap();

    let apply_token = &phrased_tokens.nodes[5];

    assert_eq!(apply_token.definition, Definition::ApplyTo);
    assert_eq!(apply_token.left, Some(3));
    assert_eq!(apply_token.right, Some(6));
    assert_eq!(apply_token.parent, None);

    let identifier_token = &phrased_tokens.nodes[6];
    assert_eq!(identifier_token.definition, Definition::Identifier);
    assert_eq!(identifier_token.left, None);
    assert_eq!(identifier_token.right, None);
    assert_eq!(identifier_token.parent, Some(5));
    assert_eq!(identifier_token.token.text, "perform_task");

    let identifier_token = &phrased_tokens.nodes[3];
    assert_eq!(identifier_token.definition, Definition::List);
    assert_eq!(identifier_token.left, Some(2));
    assert_eq!(identifier_token.right, Some(4));
    assert_eq!(identifier_token.parent, Some(5));

    let identifier_token = &phrased_tokens.nodes[2];
    assert_eq!(identifier_token.definition, Definition::Number);
    assert_eq!(identifier_token.left, None);
    assert_eq!(identifier_token.right, None);
    assert_eq!(identifier_token.parent, Some(3));
    assert_eq!(identifier_token.token.text, "5");

    let identifier_token = &phrased_tokens.nodes[4];
    assert_eq!(identifier_token.definition, Definition::Number);
    assert_eq!(identifier_token.left, None);
    assert_eq!(identifier_token.right, None);
    assert_eq!(identifier_token.parent, Some(3));
    assert_eq!(identifier_token.token.text, "10");
}

#[test]
fn simple_phrase_with_three_arguments() {
    let tree = parse_to_tree("perform 5 10 15 task");

    let mut context = SimplePhraseContext::new();
    context.add_phrase("perform_task").unwrap();

    let phrased_tokens = reduce_phrases(&tree, &context).unwrap();

    let apply_token = &phrased_tokens.nodes[7];

    assert_eq!(apply_token.definition, Definition::ApplyTo);
    assert_eq!(apply_token.left, Some(5));
    assert_eq!(apply_token.right, Some(8));
    assert_eq!(apply_token.parent, None);

    let identifier_token = &phrased_tokens.nodes[8];
    assert_eq!(identifier_token.definition, Definition::Identifier);
    assert_eq!(identifier_token.left, None);
    assert_eq!(identifier_token.right, None);
    assert_eq!(identifier_token.parent, Some(7));
    assert_eq!(identifier_token.token.text, "perform_task");

    let identifier_token = &phrased_tokens.nodes[5];
    assert_eq!(identifier_token.definition, Definition::List);
    assert_eq!(identifier_token.left, Some(3));
    assert_eq!(identifier_token.right, Some(6));
    assert_eq!(identifier_token.parent, Some(7));

    let identifier_token = &phrased_tokens.nodes[6];
    assert_eq!(identifier_token.definition, Definition::Number);
    assert_eq!(identifier_token.left, None);
    assert_eq!(identifier_token.right, None);
    assert_eq!(identifier_token.parent, Some(5));
    assert_eq!(identifier_token.token.text, "15");

    let identifier_token = &phrased_tokens.nodes[3];
    assert_eq!(identifier_token.definition, Definition::List);
    assert_eq!(identifier_token.left, Some(2));
    assert_eq!(identifier_token.right, Some(4));
    assert_eq!(identifier_token.parent, Some(5));

    let identifier_token = &phrased_tokens.nodes[2];
    assert_eq!(identifier_token.definition, Definition::Number);
    assert_eq!(identifier_token.left, None);
    assert_eq!(identifier_token.right, None);
    assert_eq!(identifier_token.parent, Some(3));
    assert_eq!(identifier_token.token.text, "5");

    let identifier_token = &phrased_tokens.nodes[4];
    assert_eq!(identifier_token.definition, Definition::Number);
    assert_eq!(identifier_token.left, None);
    assert_eq!(identifier_token.right, None);
    assert_eq!(identifier_token.parent, Some(3));
    assert_eq!(identifier_token.token.text, "10");
}

#[test]
fn three_word_two_arg_phrase() {
    let tree = parse_to_tree("perform 5 special 10 task");

    let mut context = SimplePhraseContext::new();
    context.add_phrase("perform_special_task").unwrap();

    let phrased_tokens = reduce_phrases(&tree, &context).unwrap();

    let apply_token = &phrased_tokens.nodes[7];

    assert_eq!(apply_token.definition, Definition::ApplyTo);
    assert_eq!(apply_token.left, Some(5));
    assert_eq!(apply_token.right, Some(8));
    assert_eq!(apply_token.parent, None);

    let identifier_token = &phrased_tokens.nodes[8];
    assert_eq!(identifier_token.definition, Definition::Identifier);
    assert_eq!(identifier_token.left, None);
    assert_eq!(identifier_token.right, None);
    assert_eq!(identifier_token.parent, Some(7));
    assert_eq!(identifier_token.token.text, "perform_special_task");

    let identifier_token = &phrased_tokens.nodes[5];
    assert_eq!(identifier_token.definition, Definition::List);
    assert_eq!(identifier_token.left, Some(2));
    assert_eq!(identifier_token.right, Some(6));
    assert_eq!(identifier_token.parent, Some(7));

    let identifier_token = &phrased_tokens.nodes[2];
    assert_eq!(identifier_token.definition, Definition::Number);
    assert_eq!(identifier_token.left, None);
    assert_eq!(identifier_token.right, None);
    assert_eq!(identifier_token.parent, Some(5));
    assert_eq!(identifier_token.token.text, "5");

    let identifier_token = &phrased_tokens.nodes[6];
    assert_eq!(identifier_token.definition, Definition::Number);
    assert_eq!(identifier_token.left, None);
    assert_eq!(identifier_token.right, None);
    assert_eq!(identifier_token.parent, Some(5));
    assert_eq!(identifier_token.token.text, "10");
}

#[test]
fn nested_phrase() {
    let tree = parse_to_tree("perform special task");

    let mut context = SimplePhraseContext::new();
    context.add_phrase("perform_task").unwrap();
    context.add_phrase("special").unwrap();

    let phrased_tokens = reduce_phrases(&tree, &context).unwrap();

    let apply_token = &phrased_tokens.nodes[3];

    assert_eq!(phrased_tokens.nodes.len(), 6);

    assert_eq!(phrased_tokens.root, 3);
    assert_eq!(apply_token.definition, Definition::ApplyTo);
    assert_eq!(apply_token.left, Some(5));
    assert_eq!(apply_token.right, Some(4));
    assert_eq!(apply_token.parent, None);

    let identifier_token = &phrased_tokens.nodes[2];
    assert_eq!(identifier_token.definition, Definition::Identifier);
    assert_eq!(identifier_token.left, None);
    assert_eq!(identifier_token.right, None);
    assert_eq!(identifier_token.parent, Some(5));
    assert_eq!(identifier_token.token.text, "special");

    let identifier_token = &phrased_tokens.nodes[4];
    assert_eq!(identifier_token.definition, Definition::Identifier);
    assert_eq!(identifier_token.left, None);
    assert_eq!(identifier_token.right, None);
    assert_eq!(identifier_token.parent, Some(3));
    assert_eq!(identifier_token.token.text, "perform_task");

    let identifier_token = &phrased_tokens.nodes[5];
    assert_eq!(identifier_token.definition, Definition::EmptyApply);
    assert_eq!(identifier_token.left, Some(2));
    assert_eq!(identifier_token.right, None);
    assert_eq!(identifier_token.parent, Some(3));
    assert_eq!(identifier_token.token.text, "special");
}

#[test]
fn nested_two_word_phrase() {
    let tree = parse_to_tree("perform super special task");

    let mut context = SimplePhraseContext::new();
    context.add_phrase("perform_task").unwrap();
    context.add_phrase("super_special").unwrap();

    let phrased_tokens = reduce_phrases(&tree, &context).unwrap();

    let apply_token = &phrased_tokens.nodes[5];

    assert_eq!(phrased_tokens.nodes.len(), 8);

    assert_eq!(phrased_tokens.root, 5);
    assert_eq!(apply_token.definition, Definition::ApplyTo);
    assert_eq!(apply_token.left, Some(7));
    assert_eq!(apply_token.right, Some(6));
    assert_eq!(apply_token.parent, None);

    let identifier_token = &phrased_tokens.nodes[6];
    assert_eq!(identifier_token.definition, Definition::Identifier);
    assert_eq!(identifier_token.left, None);
    assert_eq!(identifier_token.right, None);
    assert_eq!(identifier_token.parent, Some(5));
    assert_eq!(identifier_token.token.text, "perform_task");

    let identifier_token = &phrased_tokens.nodes[7];
    assert_eq!(identifier_token.definition, Definition::EmptyApply);
    assert_eq!(identifier_token.left, Some(4));
    assert_eq!(identifier_token.right, None);
    assert_eq!(identifier_token.parent, Some(5));

    let identifier_token = &phrased_tokens.nodes[4];
    assert_eq!(identifier_token.definition, Definition::Identifier);
    assert_eq!(identifier_token.left, None);
    assert_eq!(identifier_token.right, None);
    assert_eq!(identifier_token.parent, Some(7));
    assert_eq!(identifier_token.token.text, "super_special");
}

#[test]
fn reduce_is_pure() {
    let tree = parse_to_tree("perform special task");
    let before = tree.clone();

    let mut context = SimplePhraseContext::new();
    context.add_phrase("perform_task").unwrap();
    context.add_phrase("special").unwrap();

    let first = reduce_phrases(&tree, &context).unwrap();
    let second = reduce_phrases(&tree, &context).unwrap();

    assert_eq!(first, second);
    assert_eq!(tree, before);
    assert_ne!(first, tree);
}

#[test]
fn unknown_words_are_left_alone() {
    let tree = parse_to_tree("perform task");
    let before = tree.clone();

    let context = SimplePhraseContext::new();

    let phrased_tokens = reduce_phrases(&tree, &context).unwrap();

    assert_eq!(phrased_tokens, before);
}

#[test]
fn dangling_child_index_is_an_error() {
    let tree = SyntaxTree {
        nodes: vec![
            SyntaxNode {
                definition: Definition::Identifier,
                parent: None,
                left: Some(10),
                right: None,
                token: Token { text: String::from("a"), line: 0, column: 0 },
            },
            SyntaxNode {
                definition: Definition::Number,
                parent: Some(0),
                left: None,
                right: None,
                token: Token { text: String::from("5"), line: 0, column: 0 },
            },
        ],
        root: 0,
    };
    let context = SimplePhraseContext::new();

    let result = reduce_phrases(&tree, &context);

    assert_eq!(result, Err(ReduceError::MissingNode(10)));
}

#[test]
fn cyclic_references_are_an_error() {
    let tree = SyntaxTree {
        nodes: vec![
            SyntaxNode {
                definition: Definition::Other,
                parent: None,
                left: Some(0),
                right: Some(1),
                token: Token { text: String::new(), line: 0, column: 0 },
            },
            SyntaxNode {
                definition: Definition::Number,
                parent: Some(0),
                left: None,
                right: None,
                token: Token { text: String::from("5"), line: 0, column: 0 },
            },
        ],
        root: 0,
    };
    let context = SimplePhraseContext::new();

    let result = reduce_phrases(&tree, &context);

    assert_eq!(result, Err(ReduceError::CyclicReferences));
}

#[test]
fn resolving_phrase_without_parent_is_an_error() {
    // Shaped like "perform 5 task", but the resolving identifier's parent
    // reference is missing, so the one collected operand cannot be bound.
    let token = |text: &str| Token { text: String::from(text), line: 0, column: 0 };
    let tree = SyntaxTree {
        nodes: vec![
            SyntaxNode {
                definition: Definition::Identifier,
                parent: Some(1),
                left: None,
                right: None,
                token: token("perform"),
            },
            SyntaxNode {
                definition: Definition::List,
                parent: Some(3),
                left: Some(0),
                right: Some(2),
                token: token(" "),
            },
            SyntaxNode {
                definition: Definition::Number,
                parent: Some(1),
                left: None,
                right: None,
                token: token("5"),
            },
            SyntaxNode {
                definition: Definition::List,
                parent: None,
                left: Some(1),
                right: Some(4),
                token: token(" "),
            },
            SyntaxNode {
                definition: Definition::Identifier,
                parent: None,
                left: None,
                right: None,
                token: token("task"),
            },
        ],
        root: 3,
    };
    let mut context = SimplePhraseContext::new();
    context.add_phrase("perform_task").unwrap();

    let result = reduce_phrases(&tree, &context);

    assert_eq!(result, Err(ReduceError::MissingParent(4)));
}
