use pantheon::hermes::engine::html::parser::{Node, Parser, Stop, Tag, TagType};
use pantheon::hermes::engine::html::token::{Token, Tokenizer};
use pantheon::hermes::engine::html::HTMLError;

fn parse(s: &str) -> Vec<Node> {
    let mut tokenizer = Tokenizer::new(s);
    let tokens = tokenizer.parse().unwrap();
    let mut parser = Parser::new(tokens);
    parser.parse().unwrap()
}

fn tokenize(s: &str) -> Result<Vec<Token>, HTMLError> {
    Tokenizer::new(s).parse()
}

#[test]
fn test_parse_literal() {
    let nodes = parse("Hello World");
    let expected = vec![Node::Literal("Hello World".to_string())];

    assert_eq!(expected, nodes);
}

#[test]
fn test_parser_self_closing() {
    let nodes = parse("<img />");
    let expected = vec![Node::Tag(Tag {
        tag_type: TagType::Image,
        body: Vec::new(),
    })];

    assert_eq!(expected, nodes);
}

#[test]
fn test_parse_series_of_literals_and_self_closing_tags() {
    let nodes = parse("Hello<img /> Bye<img /> How are you?<img />");
    let expected = vec![
        Node::Literal("Hello".to_string()),
        Node::Tag(Tag {
            tag_type: TagType::Image,
            body: Vec::new(),
        }),
        Node::Literal("Bye".to_string()),
        Node::Tag(Tag {
            tag_type: TagType::Image,
            body: Vec::new(),
        }),
        Node::Literal("How are you?".to_string()),
        Node::Tag(Tag {
            tag_type: TagType::Image,
            body: Vec::new(),
        }),
    ];

    assert_eq!(expected, nodes);
}

#[test]
fn test_tag_with_body() {
    let nodes = parse("<h1>Hello World</h1>");
    let expected = vec![Node::Tag(Tag {
        tag_type: TagType::Header1,
        body: vec![Node::Literal("Hello World".to_string())],
    })];

    assert_eq!(expected, nodes);
}

#[test]
fn test_nested_tag() {
    let nodes = parse("<h1><img /></h1>");
    let expected = vec![Node::Tag(Tag {
        tag_type: TagType::Header1,
        body: vec![Node::Tag(Tag {
            tag_type: TagType::Image,
            body: Vec::new(),
        })],
    })];

    assert_eq!(expected, nodes);
}

#[test]
fn test_nested_tags() {
    let nodes = parse("<div><h1>Hello World</h1></div>");
    let expected = vec![Node::Tag(Tag {
        tag_type: TagType::Division,
        body: vec![Node::Tag(Tag {
            tag_type: TagType::Header1,
            body: vec![Node::Literal("Hello World".to_string())],
        })],
    })];

    assert_eq!(expected, nodes);
}

#[test]
fn test_parse_multiline() {
    let nodes = parse(
        r#"
            <div>
                <div>
                    <h1>Hello World</h1>
                </div>
                <div>
                    <img />
                </div>
            </div>
            "#
        .lines()
        .map(|x| x.trim())
        .collect::<String>()
        .as_str(),
    );
    let expected = vec![Node::Tag(Tag {
        tag_type: TagType::Division,
        body: vec![
            Node::Tag(Tag {
                tag_type: TagType::Division,
                body: vec![Node::Tag(Tag {
                    tag_type: TagType::Header1,
                    body: vec![Node::Literal("Hello World".to_string())],
                })],
            }),
            Node::Tag(Tag {
                tag_type: TagType::Division,
                body: vec![Node::Tag(Tag {
                    tag_type: TagType::Image,
                    body: Vec::new(),
                })],
            }),
        ],
    })];

    assert_eq!(expected, nodes);
}

#[test]
fn test_tokenize_string() {
    let s = "Hello World";
    let mut tokenizer = Tokenizer::new(s);
    let tokens = tokenizer.parse();
    let expected = Token::Literal(s.to_string());

    assert!(tokens.is_ok());
    let tokens = tokens.unwrap();
    assert_eq!(1, tokens.len());
    assert_eq!(expected, tokens[0]);
}

#[test]
fn test_parse_tag() {
    let s = "<h1></h1>";
    let mut tokenizer = Tokenizer::new(s);
    let tokens = tokenizer.parse();
    let expected = vec![
        Token::OpeningTag("h1".to_string()),
        Token::ClosingTag("h1".to_string()),
    ];

    assert!(tokens.is_ok());
    let tokens = tokens.unwrap();
    assert_eq!(expected, tokens);
}

#[test]
fn test_self_closing_tag() {
    let s = "<img />";
    let mut tokenizer = Tokenizer::new(s);
    let tokens = tokenizer.parse();
    let expected = vec![Token::SelfClosing("img".to_string())];

    assert!(tokens.is_ok());
    let tokens = tokens.unwrap();
    assert_eq!(1, tokens.len());
    assert_eq!(expected, tokens);
}

#[test]
fn test_tag_with_children() {
    let s = "<h1>Hello World</h1>";
    let mut tokenizer = Tokenizer::new(s);
    let tokens = tokenizer.parse();
    let expected = vec![
        Token::OpeningTag("h1".to_string()),
        Token::Literal("Hello World".to_string()),
        Token::ClosingTag("h1".to_string()),
    ];

    assert!(tokens.is_ok());
    let tokens = tokens.unwrap();
    assert_eq!(expected, tokens);
}

#[test]
fn test_combined() {
    let s = "<h1>Hello <img /></h1>";
    let mut tokenizer = Tokenizer::new(s);
    let tokens = tokenizer.parse();
    let expected = vec![
        Token::OpeningTag("h1".to_string()),
        Token::Literal("Hello".to_string()),
        Token::SelfClosing("img".to_string()),
        Token::ClosingTag("h1".to_string()),
    ];

    assert!(tokens.is_ok());
    let tokens = tokens.unwrap();
    assert_eq!(expected, tokens);
}

#[test]
fn tokenizer_faults() {
    assert_eq!(tokenize("<>"), Err(HTMLError::InvalidTag));
    assert_eq!(tokenize("</>"), Err(HTMLError::InvalidTag));
    assert_eq!(tokenize("< h1>"), Err(HTMLError::InvalidTag));
    assert_eq!(tokenize("<h1"), Err(HTMLError::UnexpectedEndOfInput));
    assert_eq!(tokenize("<h1 class"), Err(HTMLError::UnexpectedEndOfInput));
    assert_eq!(tokenize("<img / >"), Err(HTMLError::InvalidSyntax));
    assert_eq!(tokenize("<img /"), Err(HTMLError::InvalidSyntax));
    assert_eq!(tokenize("</h1 >"), Err(HTMLError::InvalidSyntax));
    assert_eq!(tokenize("</h1"), Err(HTMLError::InvalidSyntax));
    assert_eq!(tokenize("ok<h1>then</>"), Err(HTMLError::InvalidTag));
}

#[test]
fn tokenizer_trims_lines_and_literals() {
    assert_eq!(tokenize(""), Ok(vec![]));
    assert_eq!(
        tokenize("   a  \n   b   "),
        Ok(vec![Token::Literal("a\nb".to_string())])
    );
    assert_eq!(
        tokenize("<my-tag_1 id=x> \n <br/>"),
        Ok(vec![
            Token::OpeningTag("my-tag_1".to_string()),
            Token::Literal("".to_string()),
            Token::SelfClosing("br".to_string()),
        ])
    );
    assert_eq!(
        tokenize("<ü>é</ü>"),
        Ok(vec![
            Token::OpeningTag("ü".to_string()),
            Token::Literal("é".to_string()),
            Token::ClosingTag("ü".to_string()),
        ])
    );
}

#[test]
fn parser_faults() {
    let parse_tokens = |tokens: Vec<Token>| Parser::new(tokens).try_parse();
    assert_eq!(
        parse_tokens(vec![Token::SelfClosing("span".to_string())]),
        Err(Stop::Fault(HTMLError::InvalidTag))
    );
    assert_eq!(
        parse_tokens(vec![Token::OpeningTag("h1".to_string())]),
        Err(Stop::Fault(HTMLError::UnexpectedEndOfInput))
    );
    assert_eq!(
        parse_tokens(vec![
            Token::OpeningTag("span".to_string()),
            Token::ClosingTag("span".to_string()),
        ]),
        Err(Stop::Fault(HTMLError::InvalidTag))
    );
    assert_eq!(
        parse_tokens(vec![Token::OpeningTag("span".to_string())]),
        Err(Stop::Fault(HTMLError::UnexpectedEndOfInput))
    );
    assert_eq!(
        parse_tokens(vec![
            Token::OpeningTag("h1".to_string()),
            Token::SelfClosing("span".to_string()),
            Token::ClosingTag("h1".to_string()),
        ]),
        Err(Stop::Fault(HTMLError::InvalidTag))
    );
}

#[test]
fn stray_closing_tags_are_told_apart() {
    assert_eq!(
        Parser::new(vec![Token::ClosingTag("h1".to_string())]).try_parse(),
        Err(Stop::Stray)
    );
    assert_eq!(
        Parser::new(vec![
            Token::OpeningTag("h1".to_string()),
            Token::ClosingTag("div".to_string()),
            Token::ClosingTag("h1".to_string()),
        ])
        .try_parse(),
        Err(Stop::Stray)
    );
    assert_eq!(Parser::new(vec![]).try_parse(), Ok(vec![]));
}

#[test]
fn tag_types_by_name() {
    assert_eq!(TagType::try_from("h1"), Ok(TagType::Header1));
    assert_eq!(TagType::try_from("img"), Ok(TagType::Image));
    assert_eq!(TagType::try_from("div"), Ok(TagType::Division));
    assert_eq!(TagType::try_from("H1"), Err(HTMLError::InvalidTag));
    assert_eq!(TagType::try_from(""), Err(HTMLError::InvalidTag));
}

#[test]
fn html_error_descriptions() {
    assert_eq!(HTMLError::UnexpectedEndOfInput.to_string(), "Unexpected End Of Input");
    assert_eq!(HTMLError::InvalidSyntax.to_string(), "Invalid Syntax");
    assert_eq!(HTMLError::InvalidTag.to_string(), "Invalid Tag Name");
    assert_eq!(HTMLError::Other("x y".to_string()).to_string(), "x y");
}
