use recipe_md::md_parser::{
    expect_children, get_heading, get_text_from_paragraph, ASTConsumer, MDError, Node, Point, Position,
};

fn pos(line: usize) -> Option<Position> {
    Some(Position {
        start: Point { line, column: 1, offset: 0 },
        end: Point { line, column: 5, offset: 4 },
    })
}

fn text(value: &str, line: usize) -> Node {
    Node::Text { value: value.to_string(), position: pos(line) }
}

fn heading(depth: u8, value: &str, line: usize) -> Node {
    Node::Heading { depth, children: vec![text(value, line)], position: pos(line) }
}

fn paragraph(value: &str, line: usize) -> Node {
    Node::Paragraph { children: vec![text(value, line)], position: pos(line) }
}

#[test]
fn cursor_walks_forward_once() {
    let nodes = vec![
        heading(1, "Title", 1),
        heading(2, "A", 2),
        paragraph("one", 3),
        heading(3, "sub", 4),
        paragraph("two", 5),
        heading(2, "B", 6),
        paragraph("three", 7),
    ];
    let mut cursor = ASTConsumer::new(&nodes);
    assert_eq!(cursor.next().unwrap(), &nodes[0]);
    assert_eq!(cursor.next().unwrap(), &nodes[1]);
    let section = cursor.consume_to_next_heading(2);
    assert_eq!(section.len(), 3);
    assert_eq!(&section[2], &nodes[4]);
    assert_eq!(cursor.get_remaining().len(), 2);
    assert_eq!(cursor.next().unwrap(), &nodes[5]);
    assert_eq!(cursor.consume_to_next_heading(2).len(), 1);
    assert!(cursor.consume_to_next_heading(2).is_empty());
    let eof = cursor.next().unwrap_err();
    assert_eq!(eof, MDError { msg: "EOF".to_string(), place: None });
    assert!(cursor.get_remaining().is_empty());
}

#[test]
fn structural_checks() {
    assert!(expect_children(&paragraph("x", 1), 1).is_ok());
    let err = expect_children(&paragraph("x", 1), 2).unwrap_err();
    assert_eq!(err.msg, "expected node to have 2 children, but got 1");
    assert_eq!(err.place, pos(1));
    assert!(expect_children(&text("x", 2), 0).is_err());

    assert_eq!(get_heading(&heading(2, "Ingredients", 3), 2, Some("Ingredients")).unwrap(), "Ingredients");
    assert_eq!(get_heading(&heading(1, "Any", 3), 1, None).unwrap(), "Any");
    let depth = get_heading(&heading(3, "Ingredients", 4), 2, None).unwrap_err();
    assert_eq!(depth.msg, "expected heading at depth 2, but got 3");
    assert_eq!(depth.place, pos(4));
    let name = get_heading(&heading(2, "Steps", 5), 2, Some("Instructions")).unwrap_err();
    assert_eq!(name.msg, "expected heading \"Instructions\", but got \"Steps\"");
    assert!(get_heading(&paragraph("x", 6), 1, None).is_err());
    let empty = Node::Heading { depth: 1, children: vec![], position: pos(7) };
    assert!(get_heading(&empty, 1, None).is_err());

    assert_eq!(get_text_from_paragraph(&paragraph("hello", 1)).unwrap(), "hello");
    assert!(get_text_from_paragraph(&heading(1, "x", 1)).is_err());
    let nested = Node::Paragraph {
        children: vec![Node::Emphasis { children: vec![text("x", 1)], position: pos(1) }],
        position: pos(1),
    };
    assert!(get_text_from_paragraph(&nested).is_err());
}
