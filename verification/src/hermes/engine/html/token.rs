//! From characters to tokens: opening tags, closing tags, self-closing tags
//! and the text between them.

use crate::hermes::engine::html::error::{HTMLError, HTMLFault};
use crate::text::{chars_of, lines, split_lines, trim_range, trimmed, views, Cursor};
use vstd::prelude::*;

verus! {

/// Whether `c` is a letter or a number of any script, as
/// `char::is_alphanumeric` tells it.
pub uninterp spec fn alphanumeric(c: char) -> bool;

/// `char::is_alphanumeric` depends on the character alone.
pub assume_specification[ char::is_alphanumeric ](c: char) -> (b: bool)
    ensures
        b == alphanumeric(c),
;

/// Token
#[derive(Debug, PartialEq, Clone)]
pub enum Token {
    OpeningTag(String),
    ClosingTag(String),
    SelfClosing(String),
    Literal(String),
}

/// What a token holds.
pub enum TokenView {
    OpeningTag(Seq<char>),
    ClosingTag(Seq<char>),
    SelfClosing(Seq<char>),
    Literal(Seq<char>),
}

impl View for Token {
    type V = TokenView;

    open spec fn view(&self) -> TokenView {
        match self {
            Token::OpeningTag(name) => TokenView::OpeningTag(name@),
            Token::ClosingTag(name) => TokenView::ClosingTag(name@),
            Token::SelfClosing(name) => TokenView::SelfClosing(name@),
            Token::Literal(text) => TokenView::Literal(text@),
        }
    }
}

/// What the tokens hold.
pub open spec fn token_views(tokens: Seq<Token>) -> Seq<TokenView> {
    tokens.map_values(|t: Token| t@)
}

/// The lines joined again, with one line feed between two of them.
pub open spec fn join_lines(ls: Seq<Seq<char>>) -> Seq<char>
    decreases ls.len(),
{
    if ls.len() == 0 {
        Seq::empty()
    } else if ls.len() == 1 {
        ls[0]
    } else {
        join_lines(ls.drop_last()) + seq!['\n'] + ls.last()
    }
}

/// The text that is tokenized: every line of `s` without the whitespace
/// around it.
pub open spec fn normalized(s: Seq<char>) -> Seq<char> {
    join_lines(lines(s).map_values(|l: Seq<char>| trimmed(l)))
}

/// Whether `c` may stand in the name of a tag.
pub open spec fn is_name_char(c: char) -> bool {
    alphanumeric(c) || c == '-' || c == '_'
}

/// The number of name characters at the start of `s`.
pub open spec fn name_len(s: Seq<char>) -> nat
    decreases s.len(),
{
    if s.len() > 0 && is_name_char(s[0]) {
        1 + name_len(s.drop_first())
    } else {
        0
    }
}

/// The number of characters in front of the first `<` in `s`.
pub open spec fn text_len(s: Seq<char>) -> nat
    decreases s.len(),
{
    if s.len() > 0 && s[0] != '<' {
        1 + text_len(s.drop_first())
    } else {
        0
    }
}

/// The number of characters in front of the first `>` or `/` in `s`.
pub open spec fn attrs_len(s: Seq<char>) -> nat
    decreases s.len(),
{
    if s.len() > 0 && s[0] != '>' && s[0] != '/' {
        1 + attrs_len(s.drop_first())
    } else {
        0
    }
}

/// A name is no longer than the text.
pub proof fn lemma_name_len_bound(s: Seq<char>)
    ensures
        name_len(s) <= s.len(),
    decreases s.len(),
{
    if s.len() > 0 && is_name_char(s[0]) {
        lemma_name_len_bound(s.drop_first());
    }
}

/// A text is no longer than what is left.
pub proof fn lemma_text_len_bound(s: Seq<char>)
    ensures
        text_len(s) <= s.len(),
    decreases s.len(),
{
    if s.len() > 0 && s[0] != '<' {
        lemma_text_len_bound(s.drop_first());
    }
}

/// The inside of a tag is no longer than what is left.
pub proof fn lemma_attrs_len_bound(s: Seq<char>)
    ensures
        attrs_len(s) <= s.len(),
    decreases s.len(),
{
    if s.len() > 0 && s[0] != '>' && s[0] != '/' {
        lemma_attrs_len_bound(s.drop_first());
    }
}

/// A token and what is left behind it, or the fault at the start of the
/// text.
pub type Step = Result<(TokenView, Seq<char>), HTMLFault>;

/// The tag that starts `s`, where `s` stands behind a `<`: a name, then
/// anything up to a `>`, which ends an opening tag, or a `/`, which must be
/// followed by `>` and ends a self-closing tag.
pub open spec fn opening_tag(s: Seq<char>) -> Step {
    let n = name_len(s) as int;
    let after = s.skip(n);
    let k = attrs_len(after) as int;
    if n == 0 {
        Err(HTMLFault::InvalidTag)
    } else if k >= after.len() {
        Err(HTMLFault::UnexpectedEndOfInput)
    } else if after[k] == '>' {
        Ok((TokenView::OpeningTag(s.take(n)), after.skip(k + 1)))
    } else if k + 1 < after.len() && after[k + 1] == '>' {
        Ok((TokenView::SelfClosing(s.take(n)), after.skip(k + 2)))
    } else {
        Err(HTMLFault::InvalidSyntax)
    }
}

/// The tag that starts `s`, where `s` stands behind `</`: a name, directly
/// followed by `>`.
pub open spec fn closing_tag(s: Seq<char>) -> Step {
    let n = name_len(s) as int;
    if n == 0 {
        Err(HTMLFault::InvalidTag)
    } else if n < s.len() && s[n] == '>' {
        Ok((TokenView::ClosingTag(s.take(n)), s.skip(n + 1)))
    } else {
        Err(HTMLFault::InvalidSyntax)
    }
}

/// The text up to the next `<`, without the whitespace around it.
pub open spec fn literal(s: Seq<char>) -> Step {
    let n = text_len(s) as int;
    Ok((TokenView::Literal(trimmed(s.take(n))), s.skip(n)))
}

/// The first token of `s`, for `s` that is not empty.
pub open spec fn first_token(s: Seq<char>) -> Step {
    if s[0] == '<' {
        if s.len() > 1 && s[1] == '/' {
            closing_tag(s.skip(2))
        } else {
            opening_tag(s.skip(1))
        }
    } else {
        literal(s)
    }
}

/// The tokens of `s`, or the first fault in it.
pub open spec fn tokens(s: Seq<char>) -> Result<Seq<TokenView>, HTMLFault>
    decreases s.len(),
{
    if s.len() == 0 {
        Ok(Seq::empty())
    } else {
        match first_token(s) {
            Err(fault) => Err(fault),
            Ok((token, rest)) => if rest.len() < s.len() {
                match tokens(rest) {
                    Err(fault) => Err(fault),
                    Ok(more) => Ok(seq![token] + more),
                }
            } else {
                Err(HTMLFault::InvalidSyntax)
            },
        }
    }
}

/// Every token takes at least one character.
pub proof fn lemma_first_token_advances(s: Seq<char>)
    requires
        s.len() > 0,
    ensures
        first_token(s) matches Ok((_, rest)) ==> rest.len() < s.len(),
{
    lemma_name_len_bound(s.skip(1));
    lemma_attrs_len_bound(s.skip(1).skip(name_len(s.skip(1)) as int));
    if s.len() > 1 {
        lemma_name_len_bound(s.skip(2));
    }
    lemma_text_len_bound(s);
}

/// Reads tokens from a text, line by line without the whitespace around
/// each line. Its view is what is left to read.
pub struct Tokenizer(Cursor);

impl View for Tokenizer {
    type V = Seq<char>;

    closed spec fn view(&self) -> Seq<char> {
        self.0@
    }
}

impl Tokenizer {
    /// A tokenizer in front of the trimmed lines of `s`.
    pub fn new(s: &str) -> (t: Self)
        ensures
            t@ == normalized(s@),
    {
        let chars = chars_of(s);
        let all = split_lines(chars.as_slice());
        let mut content: Vec<char> = Vec::new();
        let mut n: usize = 0;
        let ghost trimmed_lines = lines(s@).map_values(|l: Seq<char>| trimmed(l));
        assert(trimmed_lines.take(0) =~= Seq::<Seq<char>>::empty());
        while n < all.len()
            invariant
                n <= all@.len(),
                views(all@) == lines(s@),
                trimmed_lines == lines(s@).map_values(|l: Seq<char>| trimmed(l)),
                content@ == join_lines(trimmed_lines.take(n as int)),
            decreases all@.len() - n,
        {
            let line = all[n].as_slice();
            let (lo, hi) = trim_range(line, 0, line.len());
            if n > 0 {
                content.push('\n');
            }
            let mut j: usize = lo;
            let ghost before = content@;
            while j < hi
                invariant
                    lo <= j <= hi <= line@.len(),
                    content@ == before + line@.subrange(lo as int, j as int),
                decreases hi - j,
            {
                content.push(line[j]);
                j += 1;
                assert(line@.subrange(lo as int, j as int) =~= line@.subrange(lo as int, j - 1).push(
                    line@[j - 1],
                ));
            }
            proof {
                assert(line@.subrange(0, line@.len() as int) =~= line@);
                assert(line@ == views(all@)[n as int]);
                let upto = trimmed_lines.take(n + 1);
                assert(upto.last() == trimmed(line@));
                assert(upto.drop_last() =~= trimmed_lines.take(n as int));
                assert(content@ =~= join_lines(upto));
            }
            n += 1;
        }
        assert(trimmed_lines.take(n as int) =~= trimmed_lines);
        Tokenizer(Cursor::over(content))
    }

    /// Reads every token that is left.
    pub fn parse(&mut self) -> (r: Result<Vec<Token>, HTMLError>)
        ensures
            match r {
                Ok(all) => tokens(old(self)@) == Ok::<Seq<TokenView>, HTMLFault>(token_views(all@))
                    && final(self)@.len() == 0,
                Err(e) => tokens(old(self)@) == Err::<Seq<TokenView>, HTMLFault>(e@),
            },
    {
        let mut out: Vec<Token> = Vec::new();
        let ghost start = self@;
        assert(token_views(out@) =~= Seq::<TokenView>::empty());
        loop
            invariant
                start == old(self)@,
                match tokens(self@) {
                    Ok(more) => tokens(start) == Ok::<Seq<TokenView>, HTMLFault>(
                        token_views(out@) + more,
                    ),
                    Err(fault) => tokens(start) == Err::<Seq<TokenView>, HTMLFault>(fault),
                },
            decreases self@.len(),
        {
            let ghost here = self@;
            let ghost done = out@;
            let c = match self.0.peek() {
                Some(c) => c,
                None => {
                    assert(token_views(out@) + Seq::<TokenView>::empty() =~= token_views(out@));
                    return Ok(out);
                },
            };
            proof {
                lemma_first_token_advances(here);
            }
            let token = if c == '<' {
                let _ = self.0.next();
                if self.0.peek() == Some('/') {
                    let _ = self.0.next();
                    assert(self@ =~= here.skip(2));
                    self.parse_closing_tag()
                } else {
                    assert(self@ =~= here.skip(1));
                    self.parse_opening_tag()
                }
            } else {
                self.parse_literal()
            };
            match token {
                Ok(token) => {
                    out.push(token);
                    proof {
                        assert(token_views(out@) =~= token_views(done).push(token@));
                        if let Ok(more) = tokens(self@) {
                            assert(token_views(done) + (seq![token@] + more) =~= token_views(out@)
                                + more);
                        }
                    }
                },
                Err(e) => {
                    return Err(e);
                },
            }
        }
    }

    fn parse_opening_tag(&mut self) -> (r: Result<Token, HTMLError>)
        ensures
            match r {
                Ok(token) => opening_tag(old(self)@) == Ok::<(TokenView, Seq<char>), HTMLFault>(
                    (token@, final(self)@),
                ),
                Err(e) => opening_tag(old(self)@) == Err::<(TokenView, Seq<char>), HTMLFault>(e@),
            },
    {
        let tag_type = match self.parse_tag_type() {
            Ok(tag_type) => tag_type,
            Err(e) => {
                return Err(e);
            },
        };
        let ghost after = self@;
        let ghost mut k: int = 0;
        assert(after.skip(0) =~= after);
        loop
            invariant
                0 <= k <= after.len(),
                self@ == after.skip(k),
                attrs_len(after) == k + attrs_len(after.skip(k)),
                after == old(self)@.skip(name_len(old(self)@) as int),
                name_len(old(self)@) > 0,
                tag_type@ == old(self)@.take(name_len(old(self)@) as int),
            decreases after.len() - k,
        {
            let c = match self.0.peek() {
                Some(c) => c,
                None => {
                    return Err(HTMLError::UnexpectedEndOfInput);
                },
            };
            if c == '>' {
                let _ = self.0.next();
                assert(self@ =~= after.skip(k + 1));
                return Ok(Token::OpeningTag(tag_type));
            } else if c == '/' {
                let _ = self.0.next();
                assert(self@ =~= after.skip(k + 1));
                let close = self.0.next();
                if close == Some('>') {
                    assert(self@ =~= after.skip(k + 2));
                    return Ok(Token::SelfClosing(tag_type));
                } else {
                    return Err(HTMLError::InvalidSyntax);
                }
            } else {
                let _ = self.0.next();
                proof {
                    assert(after.skip(k).drop_first() =~= after.skip(k + 1));
                    k = k + 1;
                }
            }
        }
    }

    fn parse_closing_tag(&mut self) -> (r: Result<Token, HTMLError>)
        ensures
            match r {
                Ok(token) => closing_tag(old(self)@) == Ok::<(TokenView, Seq<char>), HTMLFault>(
                    (token@, final(self)@),
                ),
                Err(e) => closing_tag(old(self)@) == Err::<(TokenView, Seq<char>), HTMLFault>(e@),
            },
    {
        let tag_type = match self.parse_tag_type() {
            Ok(tag_type) => tag_type,
            Err(e) => {
                return Err(e);
            },
        };
        let ghost n = name_len(old(self)@) as int;
        let close = self.0.next();
        if close == Some('>') {
            assert(self@ =~= old(self)@.skip(n + 1));
            Ok(Token::ClosingTag(tag_type))
        } else {
            Err(HTMLError::InvalidSyntax)
        }
    }

    fn parse_tag_type(&mut self) -> (r: Result<String, HTMLError>)
        ensures
            final(self)@ == old(self)@.skip(name_len(old(self)@) as int),
            name_len(old(self)@) <= old(self)@.len(),
            match r {
                Ok(name) => name_len(old(self)@) > 0 && name@ == old(self)@.take(
                    name_len(old(self)@) as int,
                ),
                Err(e) => name_len(old(self)@) == 0 && e@ == HTMLFault::InvalidTag,
            },
    {
        let mut tag_type = String::new();
        let ghost s = self@;
        let ghost mut n: int = 0;
        assert(s.skip(0) =~= s);
        assert(s.take(0) =~= Seq::<char>::empty());
        loop
            invariant_except_break
                0 <= n <= s.len(),
                self@ == s.skip(n),
                tag_type@ == s.take(n),
                name_len(s) == n + name_len(s.skip(n)),
            ensures
                0 <= n <= s.len(),
                self@ == s.skip(n),
                tag_type@ == s.take(n),
                name_len(s) == n,
            decreases s.len() - n,
        {
            match self.0.peek() {
                Some(c) => {
                    if c.is_alphanumeric() || c == '-' || c == '_' {
                        let _ = self.0.next();
                        tag_type.push(c);
                        proof {
                            assert(s.skip(n).drop_first() =~= s.skip(n + 1));
                            assert(s.take(n + 1) =~= s.take(n).push(s[n]));
                            n = n + 1;
                        }
                    } else {
                        break;
                    }
                },
                None => {
                    break;
                },
            }
        }
        if tag_type.as_str().is_empty() {
            Err(HTMLError::InvalidTag)
        } else {
            Ok(tag_type)
        }
    }

    fn parse_literal(&mut self) -> (r: Result<Token, HTMLError>)
        ensures
            match r {
                Ok(token) => literal(old(self)@) == Ok::<(TokenView, Seq<char>), HTMLFault>(
                    (token@, final(self)@),
                ),
                Err(e) => false,
            },
    {
        let mut text: Vec<char> = Vec::new();
        let ghost s = self@;
        let ghost mut n: int = 0;
        assert(s.skip(0) =~= s);
        assert(s.take(0) =~= Seq::<char>::empty());
        loop
            invariant_except_break
                0 <= n <= s.len(),
                self@ == s.skip(n),
                text@ == s.take(n),
                text_len(s) == n + text_len(s.skip(n)),
            ensures
                0 <= n <= s.len(),
                self@ == s.skip(n),
                text@ == s.take(n),
                text_len(s) == n,
            decreases s.len() - n,
        {
            match self.0.peek() {
                Some(c) => {
                    if c != '<' {
                        let _ = self.0.next();
                        text.push(c);
                        proof {
                            assert(s.skip(n).drop_first() =~= s.skip(n + 1));
                            assert(s.take(n + 1) =~= s.take(n).push(s[n]));
                            n = n + 1;
                        }
                    } else {
                        break;
                    }
                },
                None => {
                    break;
                },
            }
        }
        let (lo, hi) = trim_range(text.as_slice(), 0, text.len());
        assert(text@.subrange(0, text@.len() as int) =~= text@);
        Ok(Token::Literal(crate::text::string_of(text.as_slice(), lo, hi)))
    }
}

} // verus!
