//! Markup as text: tokens, tags and the trees they form, and a first reader
//! from characters to the document tree.

pub mod error;
pub mod parser;
pub mod token;

pub use error::HTMLError;

use crate::dict::Dict;
use crate::hermes::engine::dom::{Node, NodeType, Tag};
use crate::text::{
    digit_value, lemma_run_len, lemma_run_len_bound, lowercase, past, run_len, to_lowercase, until,
    white_space, Cursor,
};
use vstd::prelude::*;

verus! {

/// Holds of whitespace.
pub open spec fn whitespace() -> spec_fn(char) -> bool {
    |c: char| white_space(c)
}

/// Holds of the characters of a tag name: ASCII digits and letters.
pub open spec fn tag_name_char() -> spec_fn(char) -> bool {
    |c: char| digit_value(c) is Some
}

/// Holds of everything but `c`.
pub open spec fn other_than(c: char) -> spec_fn(char) -> bool {
    |x: char| x != c
}

/// Holds of the characters of an attribute name.
pub open spec fn attr_name_char() -> spec_fn(char) -> bool {
    |c: char| !excluded_name_char(c) && !control_char(c)
}

/// Holds of the characters of an attribute value without quotes.
pub open spec fn value_char() -> spec_fn(char) -> bool {
    |c: char| unquoted_value_char(c)
}

/// Holds of what may follow an attribute value: anything but whitespace and
/// `>`.
pub open spec fn value_tail_char() -> spec_fn(char) -> bool {
    |c: char| !white_space(c) && c != '>'
}

/// `s` without the whitespace at its start.
pub open spec fn skip_whitespace(s: Seq<char>) -> Seq<char> {
    s.skip(run_len(s, whitespace()) as int)
}

/// The attribute value at the start of `s` and what is left behind it. A
/// value in single or double quotes runs to the next quote of the same
/// kind; any other runs as far as the characters of a value go.
pub open spec fn attr_value(s: Seq<char>) -> (Seq<char>, Seq<char>) {
    let t = skip_whitespace(s);
    if t.len() > 0 && (t[0] == '"' || t[0] == '\'') {
        (until(t.skip(1), t[0]), past(t.skip(1), t[0]))
    } else {
        let n = run_len(t, value_char()) as int;
        (t.take(n), t.skip(n))
    }
}

/// The attributes at the start of `s`, added to `found`, and what is left
/// behind the `>` that ends them; `None` where something stands there that
/// is neither a name nor `=` nor `>`.
///
/// An attribute is a name, in lowercase whatever its case in the text, and
/// behind `=` a value; without `=` the value is empty. Whitespace around
/// each of them is skipped, and so is what follows a value up to the next
/// whitespace.
pub open spec fn attrs(s: Seq<char>, found: Map<Seq<char>, Seq<char>>) -> Option<
    (Map<Seq<char>, Seq<char>>, Seq<char>),
>
    decreases s.len(),
{
    if s.len() == 0 {
        Some((found, s))
    } else if s[0] == '>' {
        Some((found, s.skip(1)))
    } else {
        let t = skip_whitespace(s);
        let n = run_len(t, attr_name_char()) as int;
        let name = lowercase(t.take(n));
        let u = skip_whitespace(t.skip(n));
        if u.len() > 0 && u[0] == '=' {
            let (value, v) = attr_value(skip_whitespace(u.skip(1)));
            let w = skip_whitespace(v.skip(run_len(v, value_tail_char()) as int));
            if w.len() < s.len() {
                attrs(w, found.insert(name, value))
            } else {
                None
            }
        } else if u.len() < s.len() {
            attrs(u, found.insert(name, Seq::empty()))
        } else {
            None
        }
    }
}

/// What reading a text gives.
pub enum Scan {
    /// The texts between the tags, and the names of the closing tags.
    Read(Seq<Seq<char>>, Seq<Seq<char>>),
    /// A comment starts in the text.
    Comment,
}

/// Reads `s`, adding to the `texts` and `names` found so far.
///
/// Whitespace in front of a tag or a text is skipped. A closing tag
/// `</ name ... >` gives its name. The `<` of any other tag is skipped and
/// what follows is read as text. A text runs up to the next `<`; where only
/// whitespace was left, the text is empty.
pub open spec fn scan(s: Seq<char>, texts: Seq<Seq<char>>, names: Seq<Seq<char>>) -> Scan
    decreases s.len(),
{
    if s.len() == 0 {
        Scan::Read(texts, names)
    } else {
        let t = s.skip(run_len(s, whitespace()) as int);
        if t.len() > 0 && t[0] == '<' {
            let u = t.skip(1);
            if u.len() > 0 && u[0] == '/' {
                let v = u.skip(1).skip(run_len(u.skip(1), whitespace()) as int);
                let n = run_len(v, tag_name_char()) as int;
                let w = v.skip(n);
                let x = w.skip(run_len(w, other_than('>')) as int);
                let y = if x.len() > 0 {
                    x.skip(1)
                } else {
                    x
                };
                if y.len() < s.len() {
                    scan(y, texts, names.push(v.take(n)))
                } else {
                    Scan::Comment
                }
            } else if u.len() > 0 && u[0] == '!' {
                Scan::Comment
            } else if u.len() < s.len() {
                scan(u, texts, names)
            } else {
                Scan::Comment
            }
        } else {
            let n = run_len(t, other_than('<')) as int;
            if t.skip(n).len() < s.len() {
                scan(t.skip(n), texts.push(t.take(n)), names)
            } else {
                Scan::Comment
            }
        }
    }
}

/// Every step of `scan` goes on with a shorter text, so `scan` gives
/// `Comment` only where it meets `<!`.
pub proof fn lemma_scan_advances(s: Seq<char>)
    requires
        s.len() > 0,
    ensures
        ({
            let t = s.skip(run_len(s, whitespace()) as int);
            let u = t.skip(1);
            let v = u.skip(1).skip(run_len(u.skip(1), whitespace()) as int);
            let w = v.skip(run_len(v, tag_name_char()) as int);
            let x = w.skip(run_len(w, other_than('>')) as int);
            let y = if x.len() > 0 {
                x.skip(1)
            } else {
                x
            };
            &&& t.len() > 0 && t[0] == '<' ==> u.len() < s.len()
            &&& t.len() > 0 && t[0] == '<' && u.len() > 0 && u[0] == '/' ==> y.len() < s.len()
            &&& !(t.len() > 0 && t[0] == '<') ==> t.skip(run_len(t, other_than('<')) as int).len()
                < s.len()
        }),
{
    let t = s.skip(run_len(s, whitespace()) as int);
    let u = t.skip(1);
    let v = u.skip(1).skip(run_len(u.skip(1), whitespace()) as int);
    let w = v.skip(run_len(v, tag_name_char()) as int);
    lemma_run_len_bound(s, whitespace());
    lemma_run_len_bound(t, other_than('<'));
    if u.len() > 0 {
        lemma_run_len_bound(u.skip(1), whitespace());
    }
    lemma_run_len_bound(v, tag_name_char());
    lemma_run_len_bound(w, other_than('>'));
}

/// The texts that the nodes hold, for nodes that are texts without children.
pub open spec fn texts_of(nodes: Seq<Node>) -> Seq<Seq<char>> {
    Seq::new(
        nodes.len(),
        |i: int|
            match nodes[i].node_type {
                NodeType::Text(text) => text@,
                NodeType::Element(_) => Seq::empty(),
            },
    )
}

/// Whether every node is a text without children.
pub open spec fn all_texts(nodes: Seq<Node>) -> bool {
    forall|i: int|
        0 <= i < nodes.len() ==> (#[trigger] nodes[i]).node_type is Text && nodes[i].children@.len()
            == 0
}

/// What the strings hold.
pub open spec fn names_of(names: Seq<String>) -> Seq<Seq<char>> {
    names.map_values(|s: String| s@)
}

/// Reads a document from text. It remembers the names of the closing tags
/// that it has passed.
pub struct Parser {
    buffer: Cursor,
    queue: Vec<String>,
}

impl Parser {
    /// What is left to read.
    pub closed spec fn rest(&self) -> Seq<char> {
        self.buffer@
    }

    /// The names of the closing tags passed so far.
    pub closed spec fn closed_tags(&self) -> Seq<Seq<char>> {
        names_of(self.queue@)
    }

    /// A parser in front of `s` that has passed no closing tag yet.
    pub fn new(s: &str) -> (p: Self)
        ensures
            p.rest() == s@,
            p.closed_tags() == Seq::<Seq<char>>::empty(),
    {
        let p = Self { buffer: Cursor::new(s), queue: Vec::new() };
        assert(p.closed_tags() =~= Seq::<Seq<char>>::empty());
        p
    }

    /// Takes what is left to read.
    pub fn remaining(&mut self) -> (s: String)
        ensures
            s@ == old(self).rest(),
            final(self).rest() == Seq::<char>::empty(),
            final(self).closed_tags() == old(self).closed_tags(),
    {
        self.buffer.rest()
    }

    /// The names of the closing tags passed so far.
    pub fn queue(&self) -> (q: &Vec<String>)
        ensures
            names_of(q@) == self.closed_tags(),
    {
        &self.queue
    }

    /// Whether a comment starts in what is left to read.
    pub open spec fn has_comment(&self) -> bool {
        scan(self.rest(), Seq::empty(), self.closed_tags()) is Comment
    }

    /// Reads what is left, or returns `None` where a comment starts in it;
    /// comments cannot be read.
    pub fn try_parse(&mut self) -> (r: Option<Vec<Node>>)
        ensures
            match r {
                Some(nodes) => {
                    &&& all_texts(nodes@)
                    &&& scan(old(self).rest(), Seq::empty(), old(self).closed_tags())
                        == Scan::Read(texts_of(nodes@), final(self).closed_tags())
                    &&& final(self).rest().len() == 0
                },
                None => old(self).has_comment(),
            },
    {
        let mut nodes: Vec<Node> = Vec::new();
        assert(texts_of(nodes@) =~= Seq::<Seq<char>>::empty());
        loop
            invariant
                all_texts(nodes@),
                scan(old(self).rest(), Seq::empty(), old(self).closed_tags()) == scan(
                    self.rest(),
                    texts_of(nodes@),
                    self.closed_tags(),
                ),
            decreases self.rest().len(),
        {
            let ghost s = self.rest();
            let ghost found = nodes@;
            let ghost names = self.queue@;
            if self.buffer.peek().is_none() {
                return Some(nodes);
            }
            proof {
                lemma_run_len_bound(s, whitespace());
            }
            let _ = self.take_run(char::is_whitespace, Ghost(whitespace()));
            let ghost t = self.rest();
            if self.buffer.peek() == Some('<') {
                let _ = self.buffer.next();
                let ghost u = self.rest();
                assert(u =~= t.skip(1));
                if self.buffer.peek() == Some('/') {
                    let _ = self.buffer.next();
                    assert(self.rest() =~= u.skip(1));
                    let _ = self.take_run(char::is_whitespace, Ghost(whitespace()));
                    let ghost v = self.rest();
                    let tag_name = self.take_run(
                        Self::is_valid_tag_name_char,
                        Ghost(tag_name_char()),
                    );
                    let ghost w = self.rest();
                    let _ = self.take_run(Self::is_inside_tag, Ghost(other_than('>')));
                    let ghost x = self.rest();
                    let _ = self.buffer.next();
                    proof {
                        lemma_run_len_bound(u.skip(1), whitespace());
                        lemma_run_len_bound(v, tag_name_char());
                        lemma_run_len_bound(w, other_than('>'));
                        if x.len() > 0 {
                            assert(self.rest() =~= x.skip(1));
                        }
                        assert(names_of(names.push(tag_name)) =~= names_of(names).push(tag_name@));
                    }
                    let ghost name = tag_name@;
                    self.queue.push(tag_name);
                    proof {
                        // the steps of `scan` on `s`, one by one
                        assert(v == u.skip(1).skip(run_len(u.skip(1), whitespace()) as int));
                        assert(name == v.take(run_len(v, tag_name_char()) as int));
                        assert(w == v.skip(run_len(v, tag_name_char()) as int));
                        assert(x == w.skip(run_len(w, other_than('>')) as int));
                        assert(self.rest().len() < s.len());
                        assert(self.closed_tags() == names_of(names).push(name));
                    }
                } else if self.buffer.peek() == Some('!') {
                    return None;
                }
            } else {
                proof {
                    lemma_run_len_bound(t, other_than('<'));
                }
                let node = self.parse_text_node();
                nodes.push(node);
                proof {
                    assert(texts_of(nodes@) =~= texts_of(found).push(
                        t.take(run_len(t, other_than('<')) as int),
                    ));
                }
            }
        }
    }

    /// Reads what is left. There must be no comment in it.
    pub fn parse(&mut self) -> (nodes: Vec<Node>)
        requires
            !old(self).has_comment(),
        ensures
            all_texts(nodes@),
            scan(old(self).rest(), Seq::empty(), old(self).closed_tags()) == Scan::Read(
                texts_of(nodes@),
                final(self).closed_tags(),
            ),
            final(self).rest().len() == 0,
    {
        match self.try_parse() {
            Some(nodes) => nodes,
            None => {
                assert(false);
                Vec::new()
            },
        }
    }

    /// Reads an element behind its `<`: the name, the attributes, and as
    /// children everything that is left. Returns `None` where the attributes
    /// cannot be read or a comment starts in what follows.
    pub fn parse_node(&mut self) -> (r: Option<Node>)
        ensures
            ({
                let s = old(self).rest();
                let n = run_len(s, tag_name_char()) as int;
                match (r, attrs(s.skip(n), Map::empty())) {
                    (Some(node), Some((found, rest))) => {
                        &&& node.node_type matches NodeType::Element(tag) && tag.name@
                            == s.take(n) && tag.attributes@ == found
                        &&& all_texts(node.children@)
                        &&& scan(rest, Seq::empty(), old(self).closed_tags()) == Scan::Read(
                            texts_of(node.children@),
                            final(self).closed_tags(),
                        )
                        &&& final(self).rest().len() == 0
                    },
                    (Some(_), None) => false,
                    (None, Some((_, rest))) => scan(rest, Seq::empty(), old(self).closed_tags())
                        is Comment,
                    (None, None) => true,
                }
            }),
    {
        let name = self.take_run(Self::is_valid_tag_name_char, Ghost(tag_name_char()));
        let attr = match self.parse_attributes() {
            Some(attr) => attr,
            None => {
                return None;
            },
        };
        let children = match self.try_parse() {
            Some(children) => children,
            None => {
                return None;
            },
        };
        Some(Node::new_element(name, attr, children))
    }

    /// Reads the attributes of a tag up to and with the `>` that ends it.
    /// Returns `None` where something stands among them that is neither a
    /// name nor `=` nor `>`: reading cannot get past it.
    pub fn parse_attributes(&mut self) -> (r: Option<Dict>)
        ensures
            final(self).closed_tags() == old(self).closed_tags(),
            match r {
                Some(found) => attrs(old(self).rest(), Map::empty()) == Some(
                    (found@, final(self).rest()),
                ),
                None => attrs(old(self).rest(), Map::empty()) is None,
            },
    {
        let mut attr = Dict::new();
        loop
            invariant
                self.closed_tags() == old(self).closed_tags(),
                attrs(old(self).rest(), Map::empty()) == attrs(self.rest(), attr@),
            decreases self.rest().len(),
        {
            let ghost s = self.rest();
            match self.buffer.peek() {
                None => {
                    return Some(attr);
                },
                Some(c) => {
                    if c == '>' {
                        let _ = self.buffer.next();
                        assert(self.rest() =~= s.skip(1));
                        return Some(attr);
                    }
                },
            }
            let before = self.buffer.len();
            let _ = self.take_run(char::is_whitespace, Ghost(whitespace()));
            let ghost t = self.rest();
            let raw_name = self.take_run(
                Self::is_valid_attributes_name_char,
                Ghost(attr_name_char()),
            );
            let attr_name = to_lowercase(raw_name.as_str());
            let _ = self.take_run(char::is_whitespace, Ghost(whitespace()));
            let ghost u = self.rest();
            let value = if self.buffer.peek() == Some('=') {
                let _ = self.buffer.next();
                assert(self.rest() =~= u.skip(1));
                let _ = self.take_run(char::is_whitespace, Ghost(whitespace()));
                let val = self.parse_attr_value();
                let _ = self.take_run(Self::is_value_tail, Ghost(value_tail_char()));
                let _ = self.take_run(char::is_whitespace, Ghost(whitespace()));
                val
            } else {
                String::new()
            };
            if self.buffer.len() >= before {
                return None;
            }
            let _ = attr.insert(attr_name, value);
        }
    }

    /// Reads an attribute value, with or without quotes.
    pub fn parse_attr_value(&mut self) -> (value: String)
        ensures
            value@ == attr_value(old(self).rest()).0,
            final(self).rest() == attr_value(old(self).rest()).1,
            final(self).closed_tags() == old(self).closed_tags(),
    {
        let _ = self.take_run(char::is_whitespace, Ghost(whitespace()));
        let ghost t = self.rest();
        match self.buffer.peek() {
            Some(a) => {
                if a == '"' || a == '\'' {
                    let _ = self.buffer.next();
                    assert(self.rest() =~= t.skip(1));
                    self.buffer.take_until(a)
                } else {
                    self.take_run(Self::is_valid_attr_value, Ghost(value_char()))
                }
            },
            None => self.take_run(Self::is_valid_attr_value, Ghost(value_char())),
        }
    }

    /// The text up to the next `<`, as a node.
    pub fn parse_text_node(&mut self) -> (node: Node)
        ensures
            node.children@.len() == 0,
            node.node_type matches NodeType::Text(text) && text@ == old(self).rest().take(
                run_len(old(self).rest(), other_than('<')) as int,
            ),
            final(self).rest() == old(self).rest().skip(
                run_len(old(self).rest(), other_than('<')) as int,
            ),
            final(self).closed_tags() == old(self).closed_tags(),
    {
        let text = self.take_run(Self::is_text_char, Ghost(other_than('<')));
        Node::new_text(text)
    }

    /// Takes the characters at the front for which `condition` returns
    /// `true`, up to the first for which it does not.
    pub fn consume_while<F>(&mut self, condition: F) -> (s: String) where F: Fn(char) -> bool
        requires
            forall|c: char| #[trigger] condition.requires((c,)),
        ensures
            s@ + final(self).rest() == old(self).rest(),
            forall|i: int| 0 <= i < s@.len() ==> condition.ensures((#[trigger] s@[i],), true),
            final(self).rest().len() > 0 ==> condition.ensures((final(self).rest()[0],), false),
            final(self).closed_tags() == old(self).closed_tags(),
    {
        let mut s = String::new();
        let ghost all = self.rest();
        let ghost mut n: int = 0;
        assert(all.skip(0) =~= all);
        loop
            invariant
                all == old(self).rest(),
                0 <= n <= all.len(),
                self.rest() == all.skip(n),
                s@ == all.take(n),
                self.closed_tags() == old(self).closed_tags(),
                forall|c: char| #[trigger] condition.requires((c,)),
                forall|i: int| 0 <= i < n ==> condition.ensures((#[trigger] all[i],), true),
            decreases all.len() - n,
        {
            let c = match self.buffer.peek() {
                Some(c) => c,
                None => {
                    assert(s@ + self.rest() =~= all);
                    return s;
                },
            };
            if !condition(c) {
                assert(s@ + self.rest() =~= all);
                return s;
            }
            let _ = self.buffer.next();
            s.push(c);
            proof {
                assert(all.skip(n).drop_first() =~= all.skip(n + 1));
                assert(all.take(n + 1) =~= all.take(n).push(all[n]));
                n = n + 1;
            }
        }
    }

    /// `consume_while` for a condition that computes `p`.
    fn take_run<F>(&mut self, condition: F, Ghost(p): Ghost<spec_fn(char) -> bool>) -> (s: String) where
        F: Fn(char) -> bool,

        requires
            forall|c: char| #[trigger] condition.requires((c,)),
            forall|c: char, b: bool| #[trigger] condition.ensures((c,), b) ==> b == p(c),
        ensures
            s@ == old(self).rest().take(run_len(old(self).rest(), p) as int),
            final(self).rest() == old(self).rest().skip(run_len(old(self).rest(), p) as int),
            final(self).closed_tags() == old(self).closed_tags(),
    {
        let s = self.consume_while(condition);
        proof {
            let all = old(self).rest();
            let n = s@.len() as int;
            assert forall|i: int| 0 <= i < n implies p(#[trigger] all[i]) by {
                assert(all[i] == s@[i]);
            }
            if n < all.len() {
                assert(all[n] == self.rest()[0]);
            }
            lemma_run_len(all, p, n);
            assert(s@ =~= all.take(n));
            assert(self.rest() =~= all.skip(n));
        }
        s
    }

    /// Whether `ch` may follow an attribute value: anything but whitespace
    /// and `>`.
    fn is_value_tail(ch: char) -> (b: bool)
        ensures
            b == (!white_space(ch) && ch != '>'),
    {
        !ch.is_whitespace() && ch != '>'
    }

    /// Whether `ch` belongs to a text: anything but `<`.
    fn is_text_char(ch: char) -> (b: bool)
        ensures
            b == (ch != '<'),
    {
        ch != '<'
    }

    /// Whether `ch` stands inside a tag: anything but `>`.
    fn is_inside_tag(ch: char) -> (b: bool)
        ensures
            b == (ch != '>'),
    {
        ch != '>'
    }

    /// Whether `ch` may stand in a tag name: an ASCII digit or letter.
    pub fn is_valid_tag_name_char(ch: char) -> (b: bool)
        ensures
            b == (digit_value(ch) is Some),
    {
        ch.is_digit(36)
    }

    /// Whether `ch` may stand in the name of an attribute.
    pub fn is_valid_attributes_name_char(ch: char) -> (b: bool)
        ensures
            b == (!excluded_name_char(ch) && !control_char(ch)),
    {
        !Self::is_excluded_name_char(ch) && !Self::is_control_char(ch)
    }

    /// Whether `ch` is a control character.
    pub fn is_control_char(ch: char) -> (b: bool)
        ensures
            b == control_char(ch),
    {
        ch == '\u{007F}' || ch <= '\u{001F}' || (ch >= '\u{0080}' && ch <= '\u{009F}')
    }

    /// Whether `ch` ends the name of an attribute.
    pub fn is_excluded_name_char(ch: char) -> (b: bool)
        ensures
            b == excluded_name_char(ch),
    {
        match ch {
            ' ' | '"' | '\'' | '>' | '/' | '=' => true,
            _ => false,
        }
    }

    /// Whether `ch` may stand in an attribute value that has no quotes.
    pub fn is_valid_attr_value(ch: char) -> (b: bool)
        ensures
            b == unquoted_value_char(ch),
    {
        match ch {
            ' ' | '"' | '\'' | '=' | '<' | '>' | '`' => false,
            _ => true,
        }
    }
}

/// The control characters: U+0000 to U+001F, and U+007F to U+009F.
pub open spec fn control_char(c: char) -> bool {
    c <= '\u{001F}' || ('\u{007F}' <= c <= '\u{009F}')
}

/// The characters that end the name of an attribute.
pub open spec fn excluded_name_char(c: char) -> bool {
    c == ' ' || c == '"' || c == '\'' || c == '>' || c == '/' || c == '='
}

/// The characters of an attribute value without quotes.
pub open spec fn unquoted_value_char(c: char) -> bool {
    !(c == ' ' || c == '"' || c == '\'' || c == '=' || c == '<' || c == '>' || c == '`')
}

} // verus!
