//! The header lines of an Aethon packet: `key: value`, one per line, ended
//! by an empty line.

use crate::aethon::error::{Error, Fault};
use crate::dict::{ascending, collect, Dict};
use crate::text::{chars_of, find, index_of, lines, split_lines, string_of, trim_range, trimmed, views, Cursor};
use vstd::prelude::*;
use vstd::string::StringExecFns;

verus! {

/// Whether a line feed stands at `j` and another right behind it.
pub open spec fn is_break(s: Seq<char>, j: int) -> bool {
    0 <= j && j + 1 < s.len() && s[j] == '\n' && s[j + 1] == '\n'
}

/// Whether `j` is the first place where two line feeds stand in a row.
pub open spec fn is_first_break(s: Seq<char>, j: int) -> bool {
    is_break(s, j) && forall|i: int| 0 <= i < j ==> !is_break(s, i)
}

/// The header block at the start of `s`: everything up to and with the first
/// of two line feeds in a row, or all of `s` where there are none.
pub open spec fn header_block(s: Seq<char>) -> Seq<char> {
    if exists|j: int| is_first_break(s, j) {
        s.take((choose|j: int| is_first_break(s, j)) + 1)
    } else {
        s
    }
}

/// What follows the header block of `s` and the line feed that ends it.
pub open spec fn after_headers(s: Seq<char>) -> Seq<char> {
    if exists|j: int| is_first_break(s, j) {
        s.skip((choose|j: int| is_first_break(s, j)) + 2)
    } else {
        Seq::empty()
    }
}

/// There is one first break at most.
proof fn lemma_first_break(s: Seq<char>, j: int)
    requires
        is_first_break(s, j),
    ensures
        header_block(s) == s.take(j + 1),
        after_headers(s) == s.skip(j + 2),
{
    let k = choose|k: int| is_first_break(s, k);
    if k < j {
        assert(!is_break(s, k));
    }
    if j < k {
        assert(!is_break(s, j));
    }
}

/// What one line of a header block says.
pub enum HeaderLine {
    /// The headers end here: the line is empty, or its key is blank.
    End,
    /// The line has no colon.
    NoColon,
    /// The value behind the colon is blank.
    NoValue,
    /// A key, exactly as written in front of the first colon, and the value
    /// behind it without the whitespace around it.
    Pair(Seq<char>, Seq<char>),
}

/// What `line` says.
pub open spec fn header_line(line: Seq<char>) -> HeaderLine {
    if line.len() == 0 {
        HeaderLine::End
    } else {
        match index_of(line, ':') {
            None => HeaderLine::NoColon,
            Some(i) => if trimmed(line.take(i)).len() == 0 {
                HeaderLine::End
            } else if trimmed(line.skip(i + 1)).len() == 0 {
                HeaderLine::NoValue
            } else {
                HeaderLine::Pair(line.take(i), trimmed(line.skip(i + 1)))
            },
        }
    }
}

/// The headers that `lines` add to `found`, read line by line until the
/// headers end or a line is at fault. A key that comes again replaces its
/// value.
pub open spec fn headers_from(lines: Seq<Seq<char>>, found: Map<Seq<char>, Seq<char>>) -> Result<
    Map<Seq<char>, Seq<char>>,
    Fault,
>
    decreases lines.len(),
{
    if lines.len() == 0 {
        Ok(found)
    } else {
        match header_line(lines.first()) {
            HeaderLine::End => Ok(found),
            HeaderLine::NoColon => Err(Fault::Parse("Invalid headers value"@)),
            HeaderLine::NoValue => Err(Fault::Parse("Headers value can't be empty"@)),
            HeaderLine::Pair(key, value) => headers_from(
                lines.drop_first(),
                found.insert(key, value),
            ),
        }
    }
}

/// The headers at the start of `s`.
pub open spec fn parsed_headers(s: Seq<char>) -> Result<Map<Seq<char>, Seq<char>>, Fault> {
    headers_from(lines(header_block(s)), Map::empty())
}

/// The header lines that write `entries`, each as `key: value` and a line
/// feed.
pub open spec fn header_text(entries: Seq<(Seq<char>, Seq<char>)>) -> Seq<char>
    decreases entries.len(),
{
    if entries.len() == 0 {
        Seq::empty()
    } else {
        header_text(entries.drop_last()) + entries.last().0 + seq![':', ' '] + entries.last().1
            + seq!['\n']
    }
}

/// Headers with the same contents are written out in the same way: the
/// order of the lines is that of the keys, whatever the order in which the
/// headers came in.
pub proof fn lemma_header_text_by_contents(
    a: Seq<(Seq<char>, Seq<char>)>,
    b: Seq<(Seq<char>, Seq<char>)>,
)
    requires
        ascending(a),
        ascending(b),
        collect(a) == collect(b),
    ensures
        header_text(a) == header_text(b),
{
    crate::dict::lemma_ascending_unique(a, b);
}

/// The headers of a packet, kept in the order of their keys.
#[derive(Debug, PartialEq)]
pub struct Headers(Dict);

impl View for Headers {
    type V = Map<Seq<char>, Seq<char>>;

    closed spec fn view(&self) -> Map<Seq<char>, Seq<char>> {
        self.0@
    }
}

impl Default for Headers {
    fn default() -> (h: Headers)
        ensures
            h@ == Map::<Seq<char>, Seq<char>>::empty(),
    {
        Headers::new()
    }
}

impl Clone for Headers {
    fn clone(&self) -> (h: Headers)
        ensures
            h@ == self@,
            h.listing() == self.listing(),
    {
        Headers(self.0.clone())
    }
}

impl Headers {
    /// The headers in the order of their keys.
    pub closed spec fn listing(&self) -> Seq<(Seq<char>, Seq<char>)> {
        self.0.listing()
    }

    /// No headers.
    pub fn new() -> (h: Headers)
        ensures
            h@ == Map::<Seq<char>, Seq<char>>::empty(),
            h.listing() == Seq::<(Seq<char>, Seq<char>)>::empty(),
    {
        Headers(Dict::new())
    }

    /// Takes the header block from the front of `buffer`, with the line feed
    /// that ends it, and returns the block.
    pub fn consume_headers(buffer: &mut Cursor) -> (block: String)
        ensures
            block@ == header_block(old(buffer)@),
            final(buffer)@ == after_headers(old(buffer)@),
    {
        let ghost s = buffer@;
        let ghost mut n: int = 0;
        let mut result = String::new();
        let mut last_char_was_newline = false;
        assert(s.skip(0) =~= s);
        assert(s.take(0) =~= Seq::<char>::empty());
        loop
            invariant
                s == old(buffer)@,
                0 <= n <= s.len(),
                buffer@ == s.skip(n),
                result@ == s.take(n),
                last_char_was_newline == (n > 0 && s[n - 1] == '\n'),
                forall|i: int| 0 <= i && i + 1 < n ==> !is_break(s, i),
            decreases s.len() - n,
        {
            match buffer.peek() {
                None => {
                    proof {
                        assert(s.take(n) =~= s);
                        assert(s.skip(n) =~= Seq::<char>::empty());
                        assert(!exists|j: int| is_first_break(s, j));
                    }
                    return result;
                },
                Some(c) => {
                    assert(c == s[n]);
                    if c == '\n' && last_char_was_newline {
                        let _ = buffer.next();
                        proof {
                            assert(is_first_break(s, n - 1));
                            lemma_first_break(s, n - 1);
                            assert(s.skip(n).drop_first() =~= s.skip(n + 1));
                        }
                        return result;
                    }
                    let _ = buffer.next();
                    result.push(c);
                    last_char_was_newline = c == '\n';
                    proof {
                        assert(s.skip(n).drop_first() =~= s.skip(n + 1));
                        assert(s.take(n + 1) =~= s.take(n).push(s[n]));
                        n = n + 1;
                    }
                },
            }
        }
    }

    /// Reads the headers at the front of `buffer` and leaves `buffer` behind
    /// the empty line that ends them.
    pub fn parser_headers(buffer: &mut Cursor) -> (r: Result<Headers, Error>)
        ensures
            final(buffer)@ == after_headers(old(buffer)@),
            match r {
                Ok(h) => parsed_headers(old(buffer)@) == Ok::<Map<Seq<char>, Seq<char>>, Fault>(h@),
                Err(e) => parsed_headers(old(buffer)@) == Err::<Map<Seq<char>, Seq<char>>, Fault>(
                    e@,
                ),
            },
    {
        let mut headers = Headers::new();
        let block = Self::consume_headers(buffer);
        let chars = chars_of(block.as_str());
        let all = split_lines(chars.as_slice());
        let ghost goal = parsed_headers(old(buffer)@);
        let mut n: usize = 0;
        assert(views(all@).skip(0) =~= views(all@));
        while n < all.len()
            invariant
                n <= all@.len(),
                buffer@ == after_headers(old(buffer)@),
                goal == parsed_headers(old(buffer)@),
                goal == headers_from(views(all@).skip(n as int), headers@),
            decreases all@.len() - n,
        {
            let line = all[n].as_slice();
            let ghost rest = views(all@).skip(n as int);
            assert(rest.first() == line@);
            assert(rest.drop_first() =~= views(all@).skip(n + 1));
            if line.len() == 0 {
                return Ok(headers);
            }
            assert(line@.skip(0) =~= line@);
            let colon = match find(line, 0, ':') {
                Some(i) => i,
                None => {
                    return Err(Error::ParseError("Invalid headers value"));
                },
            };
            let (key_lo, key_hi) = trim_range(line, 0, colon);
            assert(line@.subrange(0, colon as int) =~= line@.take(colon as int));
            if key_lo == key_hi {
                assert(line@.subrange(key_lo as int, key_hi as int).len() == 0);
                return Ok(headers);
            }
            let (lo, hi) = trim_range(line, colon + 1, line.len());
            assert(line@.subrange(colon + 1, line@.len() as int) =~= line@.skip(colon + 1));
            if lo == hi {
                assert(line@.subrange(lo as int, hi as int).len() == 0);
                return Err(Error::ParseError("Headers value can't be empty"));
            }
            let key = string_of(line, 0, colon);
            let value = string_of(line, lo, hi);
            let _ = headers.0.insert(key, value);
            n += 1;
        }
        assert(views(all@).skip(n as int) =~= Seq::<Seq<char>>::empty());
        Ok(headers)
    }

    /// Sets the header `key` to `value` and returns the value that `key` had
    /// before.
    pub fn insert(&mut self, key: &str, value: &str) -> (prev: Option<Box<str>>)
        ensures
            final(self)@ == old(self)@.insert(key@, value@),
            match prev {
                Some(v) => old(self)@.contains_key(key@) && old(self)@[key@] == v@,
                None => !old(self)@.contains_key(key@),
            },
    {
        match self.0.insert(key.to_owned(), value.to_owned()) {
            Some(v) => Some(v.into_boxed_str()),
            None => None,
        }
    }

    /// The value of the header `key`, if it is there.
    pub fn get(&self, key: &str) -> (r: Option<&str>)
        ensures
            match r {
                Some(v) => self@.contains_key(key@) && self@[key@] == v@,
                None => !self@.contains_key(key@),
            },
    {
        match self.0.get(key) {
            Some(v) => Some(v.as_str()),
            None => None,
        }
    }

    /// The number of headers.
    pub fn len(&self) -> (n: usize)
        ensures
            n == self@.len(),
    {
        self.0.len()
    }

    /// The header lines, in the order of their keys.
    pub fn to_string(&self) -> (s: String)
        ensures
            s@ == header_text(self.listing()),
            ascending(self.listing()),
            collect(self.listing()) == self@,
    {
        let mut out = String::new();
        let mut i: usize = 0;
        let n = self.0.len();
        assert(self.listing().take(0) =~= Seq::<(Seq<char>, Seq<char>)>::empty());
        while i < n
            invariant
                i <= n == self.listing().len(),
                out@ == header_text(self.listing().take(i as int)),
            decreases n - i,
        {
            match self.0.entry(i) {
                Some((k, v)) => {
                    out.append(k);
                    out.push(':');
                    out.push(' ');
                    out.append(v);
                    out.push('\n');
                    proof {
                        let l = self.listing().take(i + 1);
                        assert(l.drop_last() =~= self.listing().take(i as int));
                        assert(l.last() == (k@, v@));
                        assert(out@ =~= header_text(l));
                    }
                },
                None => {},
            }
            i += 1;
        }
        assert(self.listing().take(n as int) =~= self.listing());
        let _ = self.0.entry(0);
        out
    }
}

} // verus!
