//! From tokens to a tree of nodes.

use crate::hermes::engine::html::error::{HTMLError, HTMLFault};
use crate::hermes::engine::html::token::{token_views, Token, TokenView};
use crate::text::str_eq;
use vstd::prelude::*;
use vstd::std_specs::convert::TryFromSpecImpl;

verus! {

/// The tags that are known.
#[derive(Debug, PartialEq, Eq, Clone, Copy, Structural)]
pub enum TagType {
    Header1,
    Image,
    Division,
}

/// A tag with the nodes between its opening and its closing.
#[derive(Debug, PartialEq)]
pub struct Tag {
    pub tag_type: TagType,
    pub body: Vec<Node>,
}

/// A tag or a piece of text.
#[derive(Debug, PartialEq)]
pub enum Node {
    Tag(Tag),
    Literal(String),
}

/// What a node holds: a tag with the nodes inside it, or text.
pub enum NodeView {
    Tag(TagType, Seq<NodeView>),
    Literal(Seq<char>),
}

impl Node {
    /// What this node holds.
    pub open spec fn view(&self) -> NodeView
        decreases self,
    {
        match self {
            Node::Tag(tag) => NodeView::Tag(
                tag.tag_type,
                Seq::new(
                    tag.body@.len(),
                    |i: int|
                        if 0 <= i < tag.body@.len() {
                            tag.body@[i].view()
                        } else {
                            arbitrary()
                        },
                ),
            ),
            Node::Literal(text) => NodeView::Literal(text@),
        }
    }
}

/// What the nodes hold.
pub open spec fn node_views(nodes: Seq<Node>) -> Seq<NodeView> {
    Seq::new(nodes.len(), |i: int| nodes[i].view())
}

/// The view of a tag node is the tag type with the views of the body.
pub proof fn lemma_tag_view(tag: Tag)
    ensures
        Node::Tag(tag).view() == NodeView::Tag(tag.tag_type, node_views(tag.body@)),
{
    assert(Node::Tag(tag).view()->Tag_1 =~= node_views(tag.body@));
}

impl TagType {
    /// The tag type that a name stands for, if any.
    pub open spec fn of_name(name: Seq<char>) -> Option<TagType> {
        if name == "h1"@ {
            Some(TagType::Header1)
        } else if name == "img"@ {
            Some(TagType::Image)
        } else if name == "div"@ {
            Some(TagType::Division)
        } else {
            None
        }
    }
}

impl TryFrom<&str> for TagType {
    type Error = HTMLError;

    fn try_from(value: &str) -> (r: Result<Self, HTMLError>) {
        if str_eq(value, "h1") {
            Ok(TagType::Header1)
        } else if str_eq(value, "img") {
            Ok(TagType::Image)
        } else if str_eq(value, "div") {
            Ok(TagType::Division)
        } else {
            Err(HTMLError::InvalidTag)
        }
    }
}

impl TryFromSpecImpl<&str> for TagType {
    open spec fn obeys_try_from_spec() -> bool {
        true
    }

    open spec fn try_from_spec(value: &str) -> Result<Self, HTMLError> {
        match TagType::of_name(value@) {
            Some(tag_type) => Ok(tag_type),
            None => Err(HTMLError::InvalidTag),
        }
    }
}

/// How reading a piece of a token list ends.
pub enum Outcome<T> {
    /// What was read, and the tokens behind it.
    Read(T, Seq<TokenView>),
    /// The tokens are at fault.
    Fault(HTMLFault),
    /// A closing tag stands where a node has to start.
    Stray,
}

/// The node that starts at the first of `tokens`, which must not be empty.
pub open spec fn node_at(tokens: Seq<TokenView>) -> Outcome<NodeView>
    decreases tokens.len(), 0int,
{
    if tokens.len() == 0 {
        Outcome::Stray
    } else {
        match tokens[0] {
            TokenView::Literal(text) => Outcome::Read(NodeView::Literal(text), tokens.skip(1)),
            TokenView::SelfClosing(name) => match TagType::of_name(name) {
                Some(tag_type) => Outcome::Read(
                    NodeView::Tag(tag_type, Seq::empty()),
                    tokens.skip(1),
                ),
                None => Outcome::Fault(HTMLFault::InvalidTag),
            },
            TokenView::OpeningTag(name) => tag_body(tokens.skip(1), name, Seq::empty()),
            TokenView::ClosingTag(_) => Outcome::Stray,
        }
    }
}

/// The tag `name` whose body starts with the nodes `body` and goes on with
/// `tokens`, up to the closing tag of the same name. Whether `name` is the
/// name of a tag type is looked at only when the closing tag is reached.
pub open spec fn tag_body(tokens: Seq<TokenView>, name: Seq<char>, body: Seq<NodeView>) -> Outcome<
    NodeView,
>
    decreases tokens.len(), 1int,
{
    if tokens.len() == 0 {
        Outcome::Fault(HTMLFault::UnexpectedEndOfInput)
    } else if tokens[0] == TokenView::ClosingTag(name) {
        match TagType::of_name(name) {
            Some(tag_type) => Outcome::Read(NodeView::Tag(tag_type, body), tokens.skip(1)),
            None => Outcome::Fault(HTMLFault::InvalidTag),
        }
    } else {
        match node_at(tokens) {
            Outcome::Read(node, rest) => if rest.len() < tokens.len() {
                tag_body(rest, name, body.push(node))
            } else {
                Outcome::Stray
            },
            Outcome::Fault(fault) => Outcome::Fault(fault),
            Outcome::Stray => Outcome::Stray,
        }
    }
}

/// The nodes that `tokens` add to `found`.
pub open spec fn nodes_from(tokens: Seq<TokenView>, found: Seq<NodeView>) -> Outcome<Seq<NodeView>>
    decreases tokens.len(),
{
    if tokens.len() == 0 {
        Outcome::Read(found, tokens)
    } else {
        match node_at(tokens) {
            Outcome::Read(node, rest) => if rest.len() < tokens.len() {
                nodes_from(rest, found.push(node))
            } else {
                Outcome::Stray
            },
            Outcome::Fault(fault) => Outcome::Fault(fault),
            Outcome::Stray => Outcome::Stray,
        }
    }
}

/// The nodes that `tokens` write.
pub open spec fn parsed_nodes(tokens: Seq<TokenView>) -> Outcome<Seq<NodeView>> {
    nodes_from(tokens, Seq::empty())
}

/// Reading a node or a tag body takes at least one token.
pub proof fn lemma_node_advances(tokens: Seq<TokenView>, name: Seq<char>, body: Seq<NodeView>)
    ensures
        node_at(tokens) matches Outcome::Read(_, rest) ==> rest.len() < tokens.len(),
        tag_body(tokens, name, body) matches Outcome::Read(_, rest) ==> rest.len() < tokens.len(),
    decreases tokens.len(), 2int,
{
    if tokens.len() > 0 {
        if let TokenView::OpeningTag(inner) = tokens[0] {
            lemma_node_advances(tokens.skip(1), inner, Seq::empty());
        }
        if tokens[0] != TokenView::ClosingTag(name) {
            if let Outcome::Read(node, rest) = node_at(tokens) {
                lemma_node_advances(rest, name, body.push(node));
            }
        }
    }
}

/// Why reading stopped.
#[derive(Debug, PartialEq)]
pub enum Stop {
    /// The tokens are at fault.
    Fault(HTMLError),
    /// A closing tag stands where a node has to start.
    Stray,
}

/// Reads nodes from tokens. Its view is what is left to read.
pub struct Parser {
    stack: Vec<Token>,
}

impl View for Parser {
    type V = Seq<TokenView>;

    closed spec fn view(&self) -> Seq<TokenView> {
        token_views(self.stack@.reverse())
    }
}

impl Parser {
    /// A parser in front of the first of `buf`.
    pub fn new(buf: Vec<Token>) -> (p: Parser)
        ensures
            p@ == token_views(buf@),
    {
        let mut buf = buf;
        let ghost all = buf@;
        let mut stack: Vec<Token> = Vec::new();
        while buf.len() > 0
            invariant
                buf@.len() <= all.len(),
                buf@ == all.take(buf@.len() as int),
                stack@ == all.skip(buf@.len() as int).reverse(),
            decreases buf@.len(),
        {
            let ghost n = buf@.len() as int;
            match buf.pop() {
                Some(token) => {
                    stack.push(token);
                    assert(buf@ =~= all.take(n - 1));
                    assert(stack@ =~= all.skip(n - 1).reverse());
                },
                None => {},
            }
        }
        assert(all.skip(0) =~= all);
        assert(all.reverse().reverse() =~= all);
        Parser { stack }
    }

    fn next(&mut self) -> (r: Option<Token>)
        ensures
            match r {
                Some(token) => old(self)@.len() > 0 && token@ == old(self)@[0] && final(self)@
                    == old(self)@.skip(1),
                None => old(self)@.len() == 0 && final(self)@ == old(self)@,
            },
    {
        let ghost before = self.stack@;
        let r = self.stack.pop();
        proof {
            if before.len() > 0 {
                assert(token_views(before.drop_last().reverse()) =~= token_views(
                    before.reverse(),
                ).skip(1));
            }
        }
        r
    }

    /// Reads every node that is left, or says why that cannot be done.
    pub fn try_parse(&mut self) -> (r: Result<Vec<Node>, Stop>)
        ensures
            match r {
                Ok(nodes) => parsed_nodes(old(self)@) == Outcome::Read(
                    node_views(nodes@),
                    Seq::<TokenView>::empty(),
                ) && final(self)@.len() == 0,
                Err(Stop::Fault(e)) => parsed_nodes(old(self)@) == Outcome::<
                    Seq<NodeView>,
                >::Fault(e@),
                Err(Stop::Stray) => parsed_nodes(old(self)@) == Outcome::<Seq<NodeView>>::Stray,
            },
    {
        let mut nodes: Vec<Node> = Vec::new();
        assert(node_views(nodes@) =~= Seq::<NodeView>::empty());
        loop
            invariant
                parsed_nodes(old(self)@) == nodes_from(self@, node_views(nodes@)),
            decreases self@.len(),
        {
            let ghost here = self@;
            let ghost found = nodes@;
            proof {
                lemma_node_advances(here, Seq::empty(), Seq::empty());
            }
            let token = match self.next() {
                Some(token) => token,
                None => {
                    assert(here =~= Seq::<TokenView>::empty());
                    return Ok(nodes);
                },
            };
            assert(seq![token@] + self@ =~= here);
            match self.parse_node(token) {
                Ok(node) => {
                    nodes.push(node);
                    assert(node_views(nodes@) =~= node_views(found).push(node.view()));
                },
                Err(stop) => {
                    return Err(stop);
                },
            }
        }
    }

    /// Whether a closing tag stands where a node has to start.
    pub open spec fn has_stray_closing_tag(&self) -> bool {
        parsed_nodes(self@) is Stray
    }

    /// Reads every node that is left. There must be no closing tag where a
    /// node has to start.
    pub fn parse(&mut self) -> (r: Result<Vec<Node>, HTMLError>)
        requires
            !old(self).has_stray_closing_tag(),
        ensures
            match r {
                Ok(nodes) => parsed_nodes(old(self)@) == Outcome::Read(
                    node_views(nodes@),
                    Seq::<TokenView>::empty(),
                ) && final(self)@.len() == 0,
                Err(e) => parsed_nodes(old(self)@) == Outcome::<Seq<NodeView>>::Fault(e@),
            },
    {
        match self.try_parse() {
            Ok(nodes) => Ok(nodes),
            Err(Stop::Fault(e)) => Err(e),
            Err(Stop::Stray) => {
                assert(false);
                Err(HTMLError::InvalidSyntax)
            },
        }
    }

    fn parse_node(&mut self, token: Token) -> (r: Result<Node, Stop>)
        ensures
            match r {
                Ok(node) => node_at(seq![token@] + old(self)@) == Outcome::Read(
                    node.view(),
                    final(self)@,
                ),
                Err(Stop::Fault(e)) => node_at(seq![token@] + old(self)@) == Outcome::<
                    NodeView,
                >::Fault(e@),
                Err(Stop::Stray) => node_at(seq![token@] + old(self)@) == Outcome::<
                    NodeView,
                >::Stray,
            },
        decreases old(self)@.len(), 1int,
    {
        let ghost all = seq![token@] + self@;
        assert(all.skip(1) =~= self@);
        match token {
            Token::Literal(a) => Ok(Node::Literal(a)),
            Token::SelfClosing(a) => Self::parse_self_closing(a.as_str()),
            Token::OpeningTag(a) => self.parse_tag(a.as_str()),
            Token::ClosingTag(_) => Err(Stop::Stray),
        }
    }

    fn parse_self_closing(tag_type: &str) -> (r: Result<Node, Stop>)
        ensures
            match r {
                Ok(node) => TagType::of_name(tag_type@) is Some && node.view() == NodeView::Tag(
                    TagType::of_name(tag_type@)->0,
                    Seq::empty(),
                ),
                Err(Stop::Fault(e)) => TagType::of_name(tag_type@) is None && e@
                    == HTMLFault::InvalidTag,
                Err(Stop::Stray) => false,
            },
    {
        match TagType::try_from(tag_type) {
            Ok(tag_type) => {
                let tag = Tag { tag_type, body: Vec::new() };
                proof {
                    lemma_tag_view(tag);
                    assert(node_views(tag.body@) =~= Seq::<NodeView>::empty());
                }
                Ok(Node::Tag(tag))
            },
            Err(e) => Err(Stop::Fault(e)),
        }
    }

    fn parse_tag(&mut self, tag_type: &str) -> (r: Result<Node, Stop>)
        ensures
            match r {
                Ok(node) => tag_body(old(self)@, tag_type@, Seq::empty()) == Outcome::Read(
                    node.view(),
                    final(self)@,
                ),
                Err(Stop::Fault(e)) => tag_body(old(self)@, tag_type@, Seq::empty()) == Outcome::<
                    NodeView,
                >::Fault(e@),
                Err(Stop::Stray) => tag_body(old(self)@, tag_type@, Seq::empty()) == Outcome::<
                    NodeView,
                >::Stray,
            },
        decreases old(self)@.len(), 0int,
    {
        let mut body: Vec<Node> = Vec::new();
        assert(node_views(body@) =~= Seq::<NodeView>::empty());
        loop
            invariant
                self@.len() <= old(self)@.len(),
                tag_body(old(self)@, tag_type@, Seq::empty()) == tag_body(
                    self@,
                    tag_type@,
                    node_views(body@),
                ),
            decreases self@.len(),
        {
            let ghost here = self@;
            let ghost found = body@;
            proof {
                lemma_node_advances(here, tag_type@, node_views(found));
            }
            let token = match self.next() {
                Some(token) => token,
                None => {
                    return Err(Stop::Fault(HTMLError::UnexpectedEndOfInput));
                },
            };
            assert(seq![token@] + self@ =~= here);
            let closes = match &token {
                Token::ClosingTag(closing_tag) => str_eq(closing_tag.as_str(), tag_type),
                _ => false,
            };
            if closes {
                return match TagType::try_from(tag_type) {
                    Ok(tag_type) => {
                        let tag = Tag { tag_type, body };
                        proof {
                            lemma_tag_view(tag);
                        }
                        Ok(Node::Tag(tag))
                    },
                    Err(e) => Err(Stop::Fault(e)),
                };
            }
            match self.parse_node(token) {
                Ok(node) => {
                    body.push(node);
                    assert(node_views(body@) =~= node_views(found).push(node.view()));
                },
                Err(stop) => {
                    return Err(stop);
                },
            }
        }
    }
}

} // verus!
