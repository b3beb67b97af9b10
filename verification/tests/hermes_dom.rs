use pantheon::dict::Dict;
use pantheon::hermes::engine::dom::{Node, NodeType, Tag};
use pantheon::hermes::engine::html::Parser;
use std::collections::HashSet;

fn attributes_of(pairs: &[(&str, &str)]) -> Dict {
    let mut attributes = Dict::new();
    for (key, value) in pairs {
        attributes.insert(key.to_string(), value.to_string());
    }
    attributes
}

fn class_set(tag: &Tag) -> HashSet<String> {
    tag.classes().into_iter().collect()
}

fn build_dom() -> Node {
    let att = attributes_of(&[("id", "my_btn"), ("class", "btn p-6")]);

    let text1 = Node::new_text("Hello World".to_string());
    let text2 = Node::new_text("Button".to_string());
    let button = Node::new_element("button".to_string(), att, vec![text2]);

    Node::new_element("body".to_string(), Dict::new(), vec![text1, button])
}

#[test]
fn test_tag_id() {
    let attributes = attributes_of(&[("id", "unique_id")]);
    let tag = Tag {
        name: "div".to_string(),
        attributes,
    };

    assert_eq!(tag.id(), Some(&"unique_id".to_string()));
}

#[test]
fn test_tag_id_none() {
    let tag = Tag {
        name: "div".to_string(),
        attributes: Dict::new(),
    };

    assert_eq!(tag.id(), None);
}

#[test]
fn test_tag_classes() {
    let attributes = attributes_of(&[("class", "class1 class2")]);
    let tag = Tag {
        name: "div".to_string(),
        attributes,
    };

    let classes: HashSet<String> = ["class1", "class2"].iter().map(|x| x.to_string()).collect();
    assert_eq!(class_set(&tag), classes);
    assert_eq!(tag.classes(), vec!["class1".to_string(), "class2".to_string()]);
}

#[test]
fn test_tag_classes_empty() {
    let tag = Tag {
        name: "div".to_string(),
        attributes: Dict::new(),
    };

    let classes: HashSet<String> = HashSet::new();
    assert_eq!(class_set(&tag), classes);
}

#[test]
fn test_node_new_text() {
    let node = Node::new_text("Sample text".to_string());

    match node.node_type {
        NodeType::Text(ref text) => assert_eq!(text, "Sample text"),
        _ => panic!("Expected text node"),
    }
    assert!(node.children.is_empty());
}

#[test]
fn test_node_new_element() {
    let attributes = attributes_of(&[("key", "value")]);
    let children = vec![Node::new_text("Child".to_string())];
    let node = Node::new_element("div".to_string(), attributes.clone(), children.clone());

    match node.node_type {
        NodeType::Element(ref tag) => {
            assert_eq!(tag.name, "div");
            assert_eq!(tag.attributes, attributes);
        }
        _ => panic!("Expected element node"),
    }
    assert_eq!(node.children, children);
}

#[test]
fn test_build_dom() {
    let dom = build_dom();

    match dom.node_type {
        NodeType::Element(ref tag) => {
            assert_eq!(tag.name, "body");
        }
        _ => panic!("Expected body element"),
    }

    assert_eq!(dom.children.len(), 2);

    match &dom.children[0].node_type {
        NodeType::Text(ref text) => assert_eq!(text, "Hello World"),
        _ => panic!("Expected text node"),
    }

    match &dom.children[1].node_type {
        NodeType::Element(ref tag) => {
            assert_eq!(tag.name, "button");
            assert_eq!(tag.id(), Some(&"my_btn".to_string()));

            let classes: HashSet<String> = ["btn", "p-6"].iter().map(|x| x.to_string()).collect();
            assert_eq!(class_set(tag), classes);
        }
        _ => panic!("Expected button element"),
    }

    assert_eq!(dom.children[1].children.len(), 1);
    match &dom.children[1].children[0].node_type {
        NodeType::Text(ref text) => assert_eq!(text, "Button"),
        _ => panic!("Expected text node"),
    }
}

#[test]
fn test_consume_while() {
    let s = "              Hello";
    let mut parser = Parser::new(s);
    let consumed = parser.consume_while(char::is_whitespace);

    assert_eq!(s.trim(), parser.remaining());
    assert_eq!("              ".to_string(), consumed);
}

#[test]
fn test_parse_text_node() {
    let s = "How are you today?";
    let mut parser = Parser::new(s);
    let dom = parser.parse();

    assert_eq!(1, dom.len(), "There should be only one node");
    assert_eq!(
        NodeType::Text(s.to_string()),
        dom[0].node_type,
        "The node should be a text node of {}, insed it is {:?}",
        s,
        dom[0].node_type
    );
}

#[test]
fn classes_are_the_pieces_between_spaces_each_once() {
    let tag = Tag {
        name: "p".to_string(),
        attributes: attributes_of(&[("class", "b a  b c ")]),
    };
    assert_eq!(
        tag.classes(),
        vec!["b".to_string(), "a".to_string(), "".to_string(), "c".to_string()]
    );
    let empty = Tag { name: "p".to_string(), attributes: attributes_of(&[("class", "")]) };
    assert_eq!(empty.classes(), vec!["".to_string()]);
}

#[test]
fn closing_tags_are_queued_and_texts_are_kept() {
    let mut parser = Parser::new("  one</ h1 class>two </div");
    let dom = parser.parse();
    assert_eq!(dom, vec![Node::new_text("one".to_string()), Node::new_text("two ".to_string())]);
    assert_eq!(parser.queue(), &vec!["h1".to_string(), "div".to_string()]);
    assert_eq!(parser.remaining(), "");
}

#[test]
fn opening_bracket_is_skipped_and_the_rest_is_text() {
    let mut parser = Parser::new("<h1>Hi");
    assert_eq!(parser.parse(), vec![Node::new_text("h1>Hi".to_string())]);
    let mut blank = Parser::new("a<   ");
    assert_eq!(
        blank.parse(),
        vec![Node::new_text("a".to_string()), Node::new_text("".to_string())]
    );
}

#[test]
fn comments_are_not_read() {
    let mut parser = Parser::new("a <!-- b -->");
    assert_eq!(parser.try_parse(), None);
    let mut plain = Parser::new("a ! b");
    assert_eq!(plain.try_parse(), Some(vec![Node::new_text("a ! b".to_string())]));
}

#[test]
fn character_classes() {
    assert!(Parser::is_valid_tag_name_char('a'));
    assert!(Parser::is_valid_tag_name_char('Z'));
    assert!(Parser::is_valid_tag_name_char('7'));
    assert!(!Parser::is_valid_tag_name_char('-'));
    assert!(!Parser::is_valid_tag_name_char('é'));
    assert!(Parser::is_control_char('\u{0}'));
    assert!(Parser::is_control_char('\u{1f}'));
    assert!(Parser::is_control_char('\u{7f}'));
    assert!(Parser::is_control_char('\u{80}'));
    assert!(Parser::is_control_char('\u{9f}'));
    assert!(!Parser::is_control_char(' '));
    assert!(!Parser::is_control_char('\u{a0}'));
    assert!(!Parser::is_control_char('~'));
    for c in [' ', '"', '\'', '>', '/', '='] {
        assert!(Parser::is_excluded_name_char(c));
        assert!(!Parser::is_valid_attributes_name_char(c));
    }
    assert!(!Parser::is_excluded_name_char('<'));
    assert!(Parser::is_valid_attributes_name_char('x'));
    assert!(!Parser::is_valid_attributes_name_char('\n'));
    for c in [' ', '"', '\'', '=', '<', '>', '`'] {
        assert!(!Parser::is_valid_attr_value(c));
    }
    assert!(Parser::is_valid_attr_value('/'));
}

#[test]
fn attribute_values_with_and_without_quotes() {
    let mut double = Parser::new("  \"hello world\" rest");
    assert_eq!(double.parse_attr_value(), "hello world");
    assert_eq!(double.remaining(), " rest");
    let mut single = Parser::new("'it \"is\"'>");
    assert_eq!(single.parse_attr_value(), "it \"is\"");
    assert_eq!(single.remaining(), ">");
    let mut open = Parser::new("\"never closed");
    assert_eq!(open.parse_attr_value(), "never closed");
    assert_eq!(open.remaining(), "");
    let mut bare = Parser::new("abc/def>x");
    assert_eq!(bare.parse_attr_value(), "abc/def");
    assert_eq!(bare.remaining(), ">x");
}

#[test]
fn attributes_are_read_up_to_the_closing_bracket() {
    let mut parser = Parser::new(" id = \"a\" Class=b  disabled>rest");
    let attributes = parser.parse_attributes().unwrap();
    assert_eq!(
        attributes,
        attributes_of(&[("id", "a"), ("class", "b"), ("disabled", "")])
    );
    assert_eq!(parser.remaining(), "rest");
    let mut none = Parser::new(">x");
    assert_eq!(none.parse_attributes(), Some(Dict::new()));
    assert_eq!(none.remaining(), "x");
    let mut repeated = Parser::new("a=1 A=2");
    assert_eq!(repeated.parse_attributes(), Some(attributes_of(&[("a", "2")])));
    let mut tail = Parser::new("a=\"1\"junk b>");
    assert_eq!(tail.parse_attributes(), Some(attributes_of(&[("a", "1"), ("b", "")])));
}

#[test]
fn attributes_that_cannot_be_passed_are_refused() {
    assert_eq!(Parser::new("/>").parse_attributes(), None);
    assert_eq!(Parser::new("a \"b\">").parse_attributes(), None);
    assert_eq!(Parser::new("a\u{1}>").parse_attributes(), None);
}

#[test]
fn element_with_attributes_and_children() {
    let mut parser = Parser::new("div ID=x>hello </p> world");
    let node = parser.parse_node().unwrap();
    assert_eq!(
        node,
        Node::new_element(
            "div".to_string(),
            attributes_of(&[("id", "x")]),
            vec![Node::new_text("hello ".to_string()), Node::new_text("world".to_string())],
        )
    );
    assert_eq!(parser.queue(), &vec!["p".to_string()]);
    assert_eq!(Parser::new("div />x").parse_node(), None);
    assert_eq!(Parser::new("div><!--").parse_node(), None);
}
