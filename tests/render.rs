use minipy::front::parse_source;
use minipy::render::{render, GraphNode, Label};
use minipy::token::Token;

#[test]
fn assignment_renders_with_two_leaves() {
    let program = parse_source("x = 1").unwrap();
    let nodes = render(&program);
    assert_eq!(
        nodes,
        vec![
            GraphNode { label: Label::Block, parent: None },
            GraphNode { label: Label::Assignment, parent: Some(0) },
            GraphNode { label: Label::Identifier(Token::Identifier("x".to_string())), parent: Some(1) },
            GraphNode { label: Label::Integer(Token::Integer(1)), parent: Some(1) },
        ]
    );
    let assignments: Vec<usize> =
        (0..nodes.len()).filter(|i| nodes[*i].label == Label::Assignment).collect();
    assert_eq!(assignments.len(), 1);
    let children = nodes.iter().filter(|n| n.parent == Some(assignments[0])).count();
    assert_eq!(children, 2);
}

#[test]
fn if_renders_in_pre_order() {
    let src = "if a:\n    b = 1\nelif c:\n    d = 2\nelse:\n    e = 3\n";
    let nodes = render(&parse_source(src).unwrap());
    let labels: Vec<&Label> = nodes.iter().map(|n| &n.label).collect();
    assert_eq!(nodes.len(), 17);
    assert_eq!(*labels[1], Label::If);
    assert_eq!(nodes[2].parent, Some(1));
    assert_eq!(*labels[3], Label::Block);
    assert_eq!(nodes[3].parent, Some(1));
    assert_eq!(*labels[7], Label::ElseIf);
    assert_eq!(nodes[7].parent, Some(1));
    assert_eq!(*labels[8], Label::Identifier(Token::Identifier("c".to_string())));
    assert_eq!(nodes[8].parent, Some(7));
    assert_eq!(*labels[13], Label::Block);
    assert_eq!(nodes[13].parent, Some(1));
    assert_eq!(*labels[16], Label::Integer(Token::Integer(3)));
    assert_eq!(nodes[16].parent, Some(14));
}

#[test]
fn operators_render_with_operands_left_first() {
    let nodes = render(&parse_source("y = not 1 + 2 * 3\n").unwrap());
    let labels: Vec<&Label> = nodes.iter().map(|n| &n.label).collect();
    assert_eq!(*labels[3], Label::Operator(Token::Add));
    assert_eq!(*labels[4], Label::Negate);
    assert_eq!(nodes[5].parent, Some(4));
    assert_eq!(*labels[6], Label::Operator(Token::Multiply));
    assert_eq!(nodes[6].parent, Some(3));
    assert_eq!(nodes[8].parent, Some(6));
}
