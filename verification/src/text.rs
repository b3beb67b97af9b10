//! Character-level helpers shared by the parsers of this crate: conversions
//! between strings and character vectors, comparison, trimming, line
//! splitting, decimal numbers, and a cursor with one character of lookahead.

use vstd::prelude::*;
use vstd::std_specs::iter::IteratorSpec;
use vstd::utf8::{decode_utf8, valid_utf8};

verus! {

/// `String::push` appends one character to the end of the string.
pub assume_specification[ String::push ](s: &mut String, ch: char)
    ensures
        final(s)@ == old(s)@.push(ch),
;

/// Whether `c` has the Unicode property `White_Space`, as `char::is_whitespace`
/// tells it.
pub uninterp spec fn white_space(c: char) -> bool;

/// `char::is_whitespace` depends on the character alone.
pub assume_specification[ char::is_whitespace ](c: char) -> (b: bool)
    ensures
        b == white_space(c),
;

/// The value of `c` as a digit: `0` to `9` for the ASCII digits, `10` to `35`
/// for the ASCII letters of either case.
pub open spec fn digit_value(c: char) -> Option<int> {
    if '0' <= c <= '9' {
        Some(c as int - '0' as int)
    } else if 'a' <= c <= 'z' {
        Some(c as int - 'a' as int + 10)
    } else if 'A' <= c <= 'Z' {
        Some(c as int - 'A' as int + 10)
    } else {
        None
    }
}

/// `char::is_digit` tells whether the character is a digit in the given
/// radix; it panics on a radix below 2 or above 36.
pub assume_specification[ char::is_digit ](c: char, radix: u32) -> (b: bool)
    requires
        2 <= radix <= 36,
    ensures
        b == (digit_value(c) is Some && digit_value(c)->0 < radix),
;

/// The number of characters at the start of `s` that `p` holds of.
pub open spec fn run_len(s: Seq<char>, p: spec_fn(char) -> bool) -> nat
    decreases s.len(),
{
    if s.len() > 0 && p(s[0]) {
        1 + run_len(s.drop_first(), p)
    } else {
        0
    }
}

/// A run ends where `p` first fails, or at the end.
pub proof fn lemma_run_len(s: Seq<char>, p: spec_fn(char) -> bool, n: int)
    requires
        0 <= n <= s.len(),
        forall|i: int| 0 <= i < n ==> p(#[trigger] s[i]),
        n < s.len() ==> !p(s[n]),
    ensures
        run_len(s, p) == n,
    decreases n,
{
    if n > 0 {
        let t = s.drop_first();
        assert forall|i: int| 0 <= i < n - 1 implies p(#[trigger] t[i]) by {
            assert(t[i] == s[i + 1]);
        }
        lemma_run_len(t, p, n - 1);
    }
}

/// A run is no longer than the text.
pub proof fn lemma_run_len_bound(s: Seq<char>, p: spec_fn(char) -> bool)
    ensures
        run_len(s, p) <= s.len(),
        run_len(s, p) < s.len() ==> !p(s[run_len(s, p) as int]),
    decreases s.len(),
{
    if s.len() > 0 && p(s[0]) {
        lemma_run_len_bound(s.drop_first(), p);
    }
}

/// Whether `c` is one of the ten ASCII digits.
pub open spec fn is_decimal_digit(c: char) -> bool {
    '0' <= c <= '9'
}

/// The number that a run of ASCII digits writes in base ten.
pub open spec fn decimal(digits: Seq<char>) -> int
    decreases digits.len(),
{
    if digits.len() == 0 {
        0
    } else {
        decimal(digits.drop_last()) * 10 + (digits.last() as int - '0' as int)
    }
}

/// The `u8` that `s` writes: an optional `+`, then at least one ASCII digit
/// and nothing else, with a value of at most 255. Leading zeros are allowed.
pub open spec fn decimal_u8(s: Seq<char>) -> Option<u8> {
    let digits = if s.len() > 0 && s[0] == '+' {
        s.drop_first()
    } else {
        s
    };
    if digits.len() > 0 && (forall|i: int| 0 <= i < digits.len() ==> is_decimal_digit(digits[i]))
        && decimal(digits) <= 255 {
        Some(decimal(digits) as u8)
    } else {
        None
    }
}

/// Calls `str::parse::<u8>`, which reads an optional `+` sign followed by
/// decimal digits only, and fails on an empty string, on any other
/// character and on a value above 255.
#[verifier::external_body]
pub(crate) fn parse_u8(s: &str) -> (r: Option<u8>)
    ensures
        r == decimal_u8(s@),
{
    match s.parse::<u8>() {
        Ok(value) => Some(value),
        Err(_) => None,
    }
}

/// The text that `String::from_utf8_lossy` reads from `bytes`: every
/// malformed stretch is replaced by U+FFFD.
pub uninterp spec fn lossy_text(bytes: Seq<u8>) -> Seq<char>;

/// Calls `String::from_utf8_lossy`, which depends on the bytes alone and
/// leaves well-formed UTF-8 as it is.
#[verifier::external_body]
pub(crate) fn text_of(bytes: &[u8]) -> (text: String)
    ensures
        text@ == lossy_text(bytes@),
        valid_utf8(bytes@) ==> text@ == decode_utf8(bytes@),
{
    String::from_utf8_lossy(bytes).into_owned()
}

/// The lowercase form of a text, as `str::to_lowercase` gives it.
pub uninterp spec fn lowercase(s: Seq<char>) -> Seq<char>;

/// Calls `str::to_lowercase`, which depends on the characters alone.
#[verifier::external_body]
pub(crate) fn to_lowercase(s: &str) -> (lower: String)
    ensures
        lower@ == lowercase(s@),
{
    s.to_lowercase()
}

/// The characters of `s`, in order.
pub fn chars_of(s: &str) -> (out: Vec<char>)
    ensures
        out@ == s@,
{
    let mut out: Vec<char> = Vec::new();
    for c in it: s.chars()
        invariant
            out@ == it.seq().take(it.index() as int),
            it.seq() == s@,
    {
        out.push(c);
    }
    out
}

/// The string made of the characters `chars[from..to]`.
pub fn string_of(chars: &[char], from: usize, to: usize) -> (out: String)
    requires
        from <= to <= chars@.len(),
    ensures
        out@ == chars@.subrange(from as int, to as int),
{
    let mut out = String::new();
    let mut i: usize = from;
    while i < to
        invariant
            from <= i <= to <= chars@.len(),
            out@ == chars@.subrange(from as int, i as int),
        decreases to - i,
    {
        out.push(chars[i]);
        i += 1;
        assert(chars@.subrange(from as int, i as int) == chars@.subrange(from as int, i - 1).push(
            chars@[i - 1],
        ));
    }
    out
}

/// Whether two strings hold the same characters.
pub fn str_eq(a: &str, b: &str) -> (r: bool)
    ensures
        r == (a@ == b@),
{
    let mut ia = a.chars();
    let mut ib = b.chars();
    let ghost mut n: int = 0;
    loop
        invariant
            0 <= n <= a@.len(),
            n <= b@.len(),
            ia.remaining() == a@.skip(n),
            ib.remaining() == b@.skip(n),
            a@.take(n) == b@.take(n),
            ia.obeys_prophetic_iter_laws(),
            ib.obeys_prophetic_iter_laws(),
        decreases a@.len() - n,
    {
        let x = ia.next();
        let y = ib.next();
        match (x, y) {
            (None, None) => {
                assert(a@ =~= a@.take(n));
                assert(b@ =~= b@.take(n));
                return true;
            },
            (Some(c), Some(d)) => {
                if c != d {
                    assert(a@[n] != b@[n]);
                    return false;
                }
                proof {
                    assert(a@.take(n + 1) =~= a@.take(n).push(a@[n]));
                    assert(b@.take(n + 1) =~= b@.take(n).push(b@[n]));
                    assert(a@.skip(n).drop_first() =~= a@.skip(n + 1));
                    assert(b@.skip(n).drop_first() =~= b@.skip(n + 1));
                    n = n + 1;
                }
            },
            _ => {
                assert(a@.len() != b@.len());
                return false;
            },
        }
    }
}

/// Whether `a` comes before `b` in the order of a dictionary, character by
/// character, where a character comes before another when its code point is
/// the smaller one and a string comes after each of its proper prefixes.
pub open spec fn lex_lt(a: Seq<char>, b: Seq<char>) -> bool
    decreases a.len(),
{
    if b.len() == 0 {
        false
    } else if a.len() == 0 {
        true
    } else if a[0] != b[0] {
        a[0] < b[0]
    } else {
        lex_lt(a.drop_first(), b.drop_first())
    }
}

/// No string comes before itself.
pub proof fn lemma_lex_irreflexive(a: Seq<char>)
    ensures
        !lex_lt(a, a),
    decreases a.len(),
{
    if a.len() > 0 {
        lemma_lex_irreflexive(a.drop_first());
    }
}

/// Of two different strings, one comes before the other.
pub proof fn lemma_lex_total(a: Seq<char>, b: Seq<char>)
    ensures
        a == b || lex_lt(a, b) || lex_lt(b, a),
    decreases a.len(),
{
    if a.len() == 0 || b.len() == 0 {
        if a.len() == 0 && b.len() == 0 {
            assert(a =~= b);
        }
    } else if a[0] == b[0] {
        lemma_lex_total(a.drop_first(), b.drop_first());
        if a.drop_first() == b.drop_first() {
            assert(a =~= seq![a[0]] + a.drop_first());
            assert(b =~= seq![b[0]] + b.drop_first());
        }
    }
}

/// The order is transitive.
pub proof fn lemma_lex_transitive(a: Seq<char>, b: Seq<char>, c: Seq<char>)
    requires
        lex_lt(a, b),
        lex_lt(b, c),
    ensures
        lex_lt(a, c),
    decreases a.len(),
{
    if a.len() > 0 && a[0] == b[0] && b[0] == c[0] {
        lemma_lex_transitive(a.drop_first(), b.drop_first(), c.drop_first());
    }
}

/// No two strings come before each other.
pub proof fn lemma_lex_asymmetric(a: Seq<char>, b: Seq<char>)
    requires
        lex_lt(a, b),
    ensures
        !lex_lt(b, a),
        a != b,
    decreases a.len(),
{
    if a.len() > 0 && b.len() > 0 && a[0] == b[0] {
        lemma_lex_asymmetric(a.drop_first(), b.drop_first());
    }
    lemma_lex_irreflexive(a);
}

/// Whether `a` comes before `b` in the order of `lex_lt`.
pub fn str_lt(a: &str, b: &str) -> (r: bool)
    ensures
        r == lex_lt(a@, b@),
{
    let mut ia = a.chars();
    let mut ib = b.chars();
    let ghost mut n: int = 0;
    loop
        invariant
            0 <= n <= a@.len(),
            n <= b@.len(),
            ia.remaining() == a@.skip(n),
            ib.remaining() == b@.skip(n),
            lex_lt(a@, b@) == lex_lt(a@.skip(n), b@.skip(n)),
            ia.obeys_prophetic_iter_laws(),
            ib.obeys_prophetic_iter_laws(),
        decreases a@.len() - n,
    {
        let x = ia.next();
        let y = ib.next();
        match (x, y) {
            (_, None) => {
                return false;
            },
            (None, Some(_)) => {
                return true;
            },
            (Some(c), Some(d)) => {
                if c != d {
                    return c < d;
                }
                proof {
                    assert(a@.skip(n).drop_first() =~= a@.skip(n + 1));
                    assert(b@.skip(n).drop_first() =~= b@.skip(n + 1));
                    n = n + 1;
                }
            },
        }
    }
}

/// `s` without the whitespace at its start.
pub open spec fn trim_start(s: Seq<char>) -> Seq<char>
    decreases s.len(),
{
    if s.len() > 0 && white_space(s.first()) {
        trim_start(s.drop_first())
    } else {
        s
    }
}

/// `s` without the whitespace at its end.
pub open spec fn trim_end(s: Seq<char>) -> Seq<char>
    decreases s.len(),
{
    if s.len() > 0 && white_space(s.last()) {
        trim_end(s.drop_last())
    } else {
        s
    }
}

/// `s` without the whitespace at its start and at its end.
pub open spec fn trimmed(s: Seq<char>) -> Seq<char> {
    trim_end(trim_start(s))
}

/// The bounds of `trimmed(chars[from..to])` within `chars`.
pub fn trim_range(chars: &[char], from: usize, to: usize) -> (r: (usize, usize))
    requires
        from <= to <= chars@.len(),
    ensures
        from <= r.0 <= r.1 <= to,
        chars@.subrange(r.0 as int, r.1 as int) == trimmed(chars@.subrange(from as int, to as int)),
{
    let mut lo: usize = from;
    while lo < to && chars[lo].is_whitespace()
        invariant
            from <= lo <= to <= chars@.len(),
            trim_start(chars@.subrange(from as int, to as int)) == trim_start(
                chars@.subrange(lo as int, to as int),
            ),
        decreases to - lo,
    {
        assert(chars@.subrange(lo as int, to as int).drop_first() =~= chars@.subrange(
            lo + 1,
            to as int,
        ));
        lo += 1;
    }
    let mut hi: usize = to;
    while hi > lo && chars[hi - 1].is_whitespace()
        invariant
            lo <= hi <= to <= chars@.len(),
            trim_end(chars@.subrange(lo as int, to as int)) == trim_end(
                chars@.subrange(lo as int, hi as int),
            ),
        decreases hi - lo,
    {
        assert(chars@.subrange(lo as int, hi as int).drop_last() =~= chars@.subrange(
            lo as int,
            hi - 1,
        ));
        hi -= 1;
    }
    (lo, hi)
}

/// `s` without the whitespace at its start and at its end.
pub fn trim(s: &str) -> (out: String)
    ensures
        out@ == trimmed(s@),
{
    let chars = chars_of(s);
    let (lo, hi) = trim_range(chars.as_slice(), 0, chars.len());
    assert(chars@.subrange(0, chars@.len() as int) =~= chars@);
    string_of(chars.as_slice(), lo, hi)
}

/// Whether `i` is the place of the first `c` in `s`.
pub open spec fn is_first(s: Seq<char>, c: char, i: int) -> bool {
    &&& 0 <= i < s.len()
    &&& s[i] == c
    &&& forall|j: int| 0 <= j < i ==> s[j] != c
}

/// The place of the first `c` in `s`, if `c` occurs in `s`.
pub open spec fn index_of(s: Seq<char>, c: char) -> Option<int> {
    if exists|i: int| is_first(s, c, i) {
        Some(choose|i: int| is_first(s, c, i))
    } else {
        None
    }
}

/// The first occurrence is unique.
pub proof fn lemma_index_of_first(s: Seq<char>, c: char, i: int)
    requires
        is_first(s, c, i),
    ensures
        index_of(s, c) == Some(i),
{
    let k = choose|k: int| is_first(s, c, k);
    assert(is_first(s, c, k));
    if k < i {
        assert(s[k] != c);
    }
    if i < k {
        assert(s[i] != c);
    }
}

/// Where `c` does not occur there is no first occurrence.
pub proof fn lemma_index_of_absent(s: Seq<char>, c: char)
    requires
        forall|j: int| 0 <= j < s.len() ==> s[j] != c,
    ensures
        index_of(s, c) is None,
{
}

/// The place of the first `c` in `chars[from..]`, counted from `from`.
pub fn find(chars: &[char], from: usize, c: char) -> (r: Option<usize>)
    requires
        from <= chars@.len(),
    ensures
        match r {
            Some(i) => from + i < chars@.len() && index_of(chars@.skip(from as int), c) == Some(
                i as int,
            ),
            None => index_of(chars@.skip(from as int), c) is None,
        },
{
    let mut i: usize = from;
    while i < chars.len()
        invariant
            from <= i <= chars@.len(),
            forall|j: int| 0 <= j < i - from ==> chars@.skip(from as int)[j] != c,
        decreases chars@.len() - i,
    {
        if chars[i] == c {
            proof {
                lemma_index_of_first(chars@.skip(from as int), c, i - from);
            }
            return Some(i - from);
        }
        i += 1;
    }
    proof {
        lemma_index_of_absent(chars@.skip(from as int), c);
    }
    None
}

/// What stands in front of the first `c` in `s`; all of `s` where there is
/// no `c`.
pub open spec fn until(s: Seq<char>, c: char) -> Seq<char> {
    match index_of(s, c) {
        Some(i) => s.take(i),
        None => s,
    }
}

/// What stands behind the first `c` in `s`; nothing where there is no `c`.
pub open spec fn past(s: Seq<char>, c: char) -> Seq<char> {
    match index_of(s, c) {
        Some(i) => s.skip(i + 1),
        None => Seq::empty(),
    }
}

/// `line` without one carriage return at its end.
pub open spec fn strip_cr(line: Seq<char>) -> Seq<char> {
    if line.len() > 0 && line.last() == '\r' {
        line.drop_last()
    } else {
        line
    }
}

/// The lines of `s`. A line ends at a line feed, or at a carriage return
/// directly followed by a line feed; the ending is not part of the line. What
/// follows the last line feed is a line too, unless it is empty; a carriage
/// return at its end stays.
pub open spec fn lines(s: Seq<char>) -> Seq<Seq<char>>
    decreases s.len(),
{
    if s.len() == 0 {
        seq![]
    } else {
        match index_of(s, '\n') {
            Some(i) => if 0 <= i < s.len() {
                seq![strip_cr(s.take(i))] + lines(s.skip(i + 1))
            } else {
                seq![]
            },
            None => seq![s],
        }
    }
}

/// The pieces of `s` between the occurrences of `sep`: one more than there
/// are occurrences, so an empty `s` has one empty piece.
pub open spec fn pieces(s: Seq<char>, sep: char) -> Seq<Seq<char>>
    decreases s.len(),
{
    match index_of(s, sep) {
        Some(i) => if 0 <= i < s.len() {
            seq![s.take(i)] + pieces(s.skip(i + 1), sep)
        } else {
            seq![s]
        },
        None => seq![s],
    }
}

/// The character sequences that the vectors hold.
pub open spec fn views(v: Seq<Vec<char>>) -> Seq<Seq<char>> {
    v.map_values(|x: Vec<char>| x@)
}

/// The lines of `chars`, as `lines` tells them.
pub fn split_lines(chars: &[char]) -> (out: Vec<Vec<char>>)
    ensures
        views(out@) == lines(chars@),
{
    let mut out: Vec<Vec<char>> = Vec::new();
    let mut start: usize = 0;
    let n = chars.len();
    assert(chars@.skip(0) =~= chars@);
    assert(views(out@) + lines(chars@) =~= lines(chars@));
    while start < n
        invariant
            start <= n == chars@.len(),
            lines(chars@) == views(out@) + lines(chars@.skip(start as int)),
        decreases n - start,
    {
        let ghost rest = chars@.skip(start as int);
        let ghost before = out@;
        let stop = match find(chars, start, '\n') {
            Some(i) => start + i,
            None => n,
        };
        let end = if stop < n && stop > start && chars[stop - 1] == '\r' {
            stop - 1
        } else {
            stop
        };
        let mut line: Vec<char> = Vec::new();
        let mut j: usize = start;
        while j < end
            invariant
                start <= j <= end <= n == chars@.len(),
                line@ == chars@.subrange(start as int, j as int),
            decreases end - j,
        {
            line.push(chars[j]);
            j += 1;
            assert(chars@.subrange(start as int, j as int) == chars@.subrange(
                start as int,
                j - 1,
            ).push(chars@[j - 1]));
        }
        let next = if stop < n {
            stop + 1
        } else {
            n
        };
        proof {
            if stop < n {
                assert(rest.take(stop - start) =~= chars@.subrange(start as int, stop as int));
                assert(line@ =~= strip_cr(rest.take(stop - start)));
                assert(rest.skip(stop - start + 1) =~= chars@.skip(next as int));
            } else {
                assert(line@ =~= rest);
                assert(chars@.skip(n as int) =~= Seq::<char>::empty());
                assert(lines(chars@.skip(n as int)) =~= Seq::<Seq<char>>::empty());
            }
            assert(lines(rest) =~= seq![line@] + lines(chars@.skip(next as int)));
            assert(views(before.push(line)) =~= views(before).push(line@));
        }
        out.push(line);
        start = next;
    }
    assert(chars@.skip(n as int) =~= Seq::<char>::empty());
    assert(views(out@) + lines(chars@.skip(n as int)) =~= views(out@));
    out
}

/// The pieces of `chars`, as `pieces` tells them.
pub fn split(chars: &[char], sep: char) -> (out: Vec<Vec<char>>)
    ensures
        views(out@) == pieces(chars@, sep),
{
    let mut out: Vec<Vec<char>> = Vec::new();
    let mut start: usize = 0;
    let n = chars.len();
    assert(chars@.skip(0) =~= chars@);
    assert(views(out@) + pieces(chars@, sep) =~= pieces(chars@, sep));
    loop
        invariant
            start <= n == chars@.len(),
            pieces(chars@, sep) == views(out@) + pieces(chars@.skip(start as int), sep),
        decreases n - start,
    {
        let ghost rest = chars@.skip(start as int);
        let ghost before = out@;
        let found = find(chars, start, sep);
        let stop = match found {
            Some(i) => start + i,
            None => n,
        };
        let mut piece: Vec<char> = Vec::new();
        let mut j: usize = start;
        while j < stop
            invariant
                start <= j <= stop <= n == chars@.len(),
                piece@ == chars@.subrange(start as int, j as int),
            decreases stop - j,
        {
            piece.push(chars[j]);
            j += 1;
            assert(chars@.subrange(start as int, j as int) == chars@.subrange(
                start as int,
                j - 1,
            ).push(chars@[j - 1]));
        }
        proof {
            assert(views(before.push(piece)) =~= views(before).push(piece@));
            if found is Some {
                assert(rest.take(stop - start) =~= chars@.subrange(start as int, stop as int));
                assert(rest.skip(stop - start + 1) =~= chars@.skip(stop + 1));
                assert(pieces(rest, sep) =~= seq![piece@] + pieces(chars@.skip(stop + 1), sep));
            } else {
                assert(piece@ =~= rest);
                assert(pieces(rest, sep) =~= seq![piece@]);
            }
        }
        out.push(piece);
        if found.is_none() {
            return out;
        }
        start = stop + 1;
    }
}

/// A cursor over characters with one character of lookahead. Its view is
/// what is left in front of it.
pub struct Cursor {
    chars: Vec<char>,
    pos: usize,
}

impl View for Cursor {
    type V = Seq<char>;

    closed spec fn view(&self) -> Seq<char> {
        self.chars@.skip(self.pos as int)
    }
}

impl Cursor {
    #[verifier::type_invariant]
    spec fn inv(&self) -> bool {
        self.pos <= self.chars@.len()
    }

    /// A cursor in front of the first character of `s`.
    pub fn new(s: &str) -> (c: Cursor)
        ensures
            c@ == s@,
    {
        let chars = chars_of(s);
        assert(chars@.skip(0) =~= chars@);
        Cursor { chars, pos: 0 }
    }

    /// A cursor in front of the first of `chars`.
    pub fn over(chars: Vec<char>) -> (c: Cursor)
        ensures
            c@ == chars@,
    {
        assert(chars@.skip(0) =~= chars@);
        Cursor { chars, pos: 0 }
    }

    /// The next character, which stays where it is.
    pub fn peek(&self) -> (r: Option<char>)
        ensures
            r == (if self@.len() > 0 {
                Some(self@[0])
            } else {
                None
            }),
    {
        proof {
            use_type_invariant(self);
        }
        if self.pos < self.chars.len() {
            Some(self.chars[self.pos])
        } else {
            None
        }
    }

    /// The number of characters that are left.
    pub fn len(&self) -> (n: usize)
        ensures
            n == self@.len(),
    {
        proof {
            use_type_invariant(self);
        }
        self.chars.len() - self.pos
    }

    /// Takes the next character.
    pub fn next(&mut self) -> (r: Option<char>)
        ensures
            r == (if old(self)@.len() > 0 {
                Some(old(self)@[0])
            } else {
                None
            }),
            final(self)@ == (if old(self)@.len() > 0 {
                old(self)@.drop_first()
            } else {
                old(self)@
            }),
    {
        proof {
            use_type_invariant(&*self);
        }
        if self.pos < self.chars.len() {
            let c = self.chars[self.pos];
            assert(self.chars@.skip(self.pos as int).drop_first() =~= self.chars@.skip(
                self.pos + 1,
            ));
            self.pos += 1;
            Some(c)
        } else {
            None
        }
    }

    /// Takes the characters in front of the first `to`, and that `to` with
    /// them; the result holds what stood in front of it. Where there is no
    /// `to`, everything is taken.
    pub fn take_until(&mut self, to: char) -> (out: String)
        ensures
            out@ == until(old(self)@, to),
            final(self)@ == past(old(self)@, to),
    {
        proof {
            use_type_invariant(&*self);
        }
        let from = self.pos;
        let end = self.chars.len();
        let stop = match find(self.chars.as_slice(), from, to) {
            Some(i) => from + i,
            None => end,
        };
        let out = string_of(self.chars.as_slice(), from, stop);
        let next = if stop < self.chars.len() {
            stop + 1
        } else {
            stop
        };
        proof {
            let s = self.chars@.skip(self.pos as int);
            assert(self.chars@.subrange(self.pos as int, stop as int) =~= s.take(stop - self.pos));
            assert(s.take(s.len() as int) =~= s);
            assert(self.chars@.skip(next as int) =~= s.skip(next - self.pos));
            assert(s.skip(s.len() as int) =~= Seq::<char>::empty());
        }
        self.pos = next;
        out
    }

    /// Takes everything that is left.
    pub fn rest(&mut self) -> (out: String)
        ensures
            out@ == old(self)@,
            final(self)@ == Seq::<char>::empty(),
    {
        proof {
            use_type_invariant(&*self);
        }
        let out = string_of(self.chars.as_slice(), self.pos, self.chars.len());
        assert(self.chars@.subrange(self.pos as int, self.chars@.len() as int) =~= self.chars@.skip(
            self.pos as int,
        ));
        self.pos = self.chars.len();
        assert(self.chars@.skip(self.pos as int) =~= Seq::<char>::empty());
        out
    }
}

} // verus!
