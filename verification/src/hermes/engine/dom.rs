//! The document tree: elements with a name and attributes, and text.

use crate::dict::Dict;
use crate::text::{chars_of, pieces, split, str_eq, string_of, views};
use vstd::prelude::*;

verus! {

/// An element: its name and its attributes.
#[derive(Debug, PartialEq, Clone)]
pub struct Tag {
    pub name: String,
    pub attributes: Dict,
}

/// Whether no string occurs twice in `names`.
pub open spec fn distinct(names: Seq<String>) -> bool {
    forall|i: int, j: int| 0 <= i < j < names.len() ==> names[i]@ != names[j]@
}

/// Whether `names` holds `name`.
pub open spec fn holds(names: Seq<String>, name: Seq<char>) -> bool {
    exists|i: int| 0 <= i < names.len() && (#[trigger] names[i])@ == name
}

impl Tag {
    /// The value of the attribute `id`.
    pub fn id(&self) -> (r: Option<&String>)
        ensures
            match r {
                Some(v) => self.attributes@.contains_key("id"@) && self.attributes@["id"@] == v@,
                None => !self.attributes@.contains_key("id"@),
            },
    {
        self.attributes.get("id")
    }

    /// The classes of the tag: the pieces of the attribute `class` between
    /// its spaces, each of them once, in the order in which they first
    /// stand there. A tag without that attribute has no classes.
    pub fn classes(&self) -> (r: Vec<String>)
        ensures
            distinct(r@),
            match self.attributes@.get("class"@) {
                Some(value) => forall|name: Seq<char>|
                    holds(r@, name) <==> pieces(value, ' ').contains(name),
                None => r@.len() == 0,
            },
    {
        let value = match self.attributes.get("class") {
            Some(value) => value,
            None => {
                return Vec::new();
            },
        };
        let chars = chars_of(value.as_str());
        let all = split(chars.as_slice(), ' ');
        let ghost goal = pieces(value@, ' ');
        let mut out: Vec<String> = Vec::new();
        let mut n: usize = 0;
        while n < all.len()
            invariant
                n <= all@.len(),
                views(all@) == goal,
                distinct(out@),
                forall|name: Seq<char>|
                    holds(out@, name) <==> goal.take(n as int).contains(name),
            decreases all@.len() - n,
        {
            let piece = string_of(all[n].as_slice(), 0, all[n].len());
            assert(all@[n as int]@.subrange(0, all@[n as int]@.len() as int) =~= all@[n as int]@);
            assert(piece@ == goal[n as int]);
            let mut seen = false;
            let mut k: usize = 0;
            while k < out.len()
                invariant
                    k <= out@.len(),
                    seen <==> exists|i: int| 0 <= i < k && (#[trigger] out@[i])@ == piece@,
                decreases out@.len() - k,
            {
                if str_eq(out[k].as_str(), piece.as_str()) {
                    seen = true;
                }
                k += 1;
            }
            let ghost before = out@;
            if !seen {
                out.push(piece);
            }
            proof {
                let upto = goal.take(n + 1);
                assert(upto =~= goal.take(n as int).push(goal[n as int]));
                assert forall|name: Seq<char>| holds(out@, name) <==> upto.contains(name) by {
                    if holds(out@, name) {
                        let i = choose|i: int| 0 <= i < out@.len() && (#[trigger] out@[i])@ == name;
                        if i < before.len() {
                            assert(before[i]@ == name);
                            assert(holds(before, name));
                            let j = choose|j: int|
                                0 <= j < goal.take(n as int).len() && goal.take(n as int)[j]
                                    == name;
                            assert(upto[j] == name);
                        } else {
                            assert(upto[n as int] == name);
                        }
                    }
                    if upto.contains(name) {
                        let j = choose|j: int| 0 <= j < upto.len() && upto[j] == name;
                        if j < n {
                            assert(goal.take(n as int)[j] == name);
                            assert(goal.take(n as int).contains(name));
                            assert(holds(before, name));
                            let i = choose|i: int|
                                0 <= i < before.len() && (#[trigger] before[i])@ == name;
                            assert(out@[i]@ == name);
                        } else if seen {
                            let i = choose|i: int|
                                0 <= i < before.len() && (#[trigger] before[i])@ == piece@;
                            assert(out@[i]@ == name);
                        } else {
                            assert(out@[out@.len() - 1]@ == name);
                        }
                    }
                }
            }
            n += 1;
        }
        assert(goal.take(n as int) =~= goal);
        out
    }
}

/// What a node is: an element or a text.
#[derive(Debug, PartialEq, Clone)]
pub enum NodeType {
    Element(Tag),
    Text(String),
}

/// A node of the document tree, with the nodes below it.
#[derive(Debug, PartialEq)]
pub struct Node {
    pub children: Vec<Node>,
    pub node_type: NodeType,
}

impl Clone for Node {
    fn clone(&self) -> (node: Node)
        ensures
            node.children@.len() == self.children@.len(),
        decreases self,
    {
        let mut children: Vec<Node> = Vec::new();
        let mut i: usize = 0;
        while i < self.children.len()
            invariant
                i <= self.children@.len(),
                children@.len() == i,
            decreases self.children@.len() - i,
        {
            children.push(self.children[i].clone());
            i += 1;
        }
        Node { children, node_type: self.node_type.clone() }
    }
}

impl Node {
    /// A text, which has no children.
    pub fn new_text(s: String) -> (node: Node)
        ensures
            node.children@.len() == 0,
            node.node_type == NodeType::Text(s),
    {
        Node { children: Vec::new(), node_type: NodeType::Text(s) }
    }

    /// An element with its attributes and children.
    pub fn new_element(name: String, attributes: Dict, children: Vec<Node>) -> (node: Node)
        ensures
            node.children == children,
            node.node_type == NodeType::Element(Tag { name, attributes }),
    {
        Node { children, node_type: NodeType::Element(Tag { name, attributes }) }
    }
}

} // verus!
