//! A lexer for Rainbow source text. The parser does not use it.
use vstd::prelude::*;
use vstd::string::*;
use vstd::utf8::*;

verus! {

#[derive(Debug, PartialEq, Eq, Clone, Copy, Structural)]
pub enum TokenKind {
    Colon,
    Dot,
    LCurly,
    RCurly,
    LSquare,
    RSquare,
    Arrow,
    Equals,
    Ident,
    Bool,
    String,
    Number,
    UnclosedString,
    Unknown,
}

/// A token: its kind, and the bytes of the input from `start_pos` up to `end_pos`.
#[derive(Debug, PartialEq, Clone, Copy)]
pub struct Token<'i> {
    pub input: &'i str,
    pub kind: TokenKind,
    pub start_pos: usize,
    pub end_pos: usize,
}

/// Whether a character is white space: one of the characters with the property
/// `White_Space` of Unicode.
pub open spec fn whitespace(c: char) -> bool {
    ('\u{9}' <= c <= '\u{d}') || c == ' ' || c == '\u{85}' || c == '\u{a0}' || c == '\u{1680}' || (
    '\u{2000}' <= c <= '\u{200a}') || c == '\u{2028}' || c == '\u{2029}' || c == '\u{202f}' || c
        == '\u{205f}' || c == '\u{3000}'
}

/// Whether a character is a letter.
pub uninterp spec fn alphabetic(c: char) -> bool;

/// Whether a character is a letter or a digit.
pub uninterp spec fn alphanumeric(c: char) -> bool;

/// Whether a character is white space.
fn is_whitespace(c: char) -> (r: bool)
    ensures
        r == whitespace(c),
{
    ('\u{9}' <= c && c <= '\u{d}') || c == ' ' || c == '\u{85}' || c == '\u{a0}' || c == '\u{1680}'
        || ('\u{2000}' <= c && c <= '\u{200a}') || c == '\u{2028}' || c == '\u{2029}' || c
        == '\u{202f}' || c == '\u{205f}' || c == '\u{3000}'
}

/// Whether a character is a letter.
///
/// Stands for `char::is_alphabetic`.
#[verifier::external_body]
fn is_alphabetic(c: char) -> (r: bool)
    ensures
        r == alphabetic(c),
{
    c.is_alphabetic()
}

/// Whether a character is a letter or a digit.
///
/// Stands for `char::is_alphanumeric`.
#[verifier::external_body]
fn is_alphanumeric(c: char) -> (r: bool)
    ensures
        r == alphanumeric(c),
{
    c.is_alphanumeric()
}

/// The characters of a text, each with the position of its first byte.
///
/// Stands for `str::char_indices`, which gives the characters in their order, each
/// with the byte position at which it starts.
#[verifier::external_body]
fn char_table(s: &str) -> (table: Vec<(usize, char)>)
    ensures
        table@.len() == s@.len(),
        forall|i: int| 0 <= i < table@.len() ==> (#[trigger] table@[i]).1 == s@[i],
        forall|i: int|
            0 <= i < table@.len() ==> (#[trigger] table@[i]).0 == encode_utf8(s@.take(i)).len(),
{
    s.char_indices().collect()
}

/// What the lexer looks for.
#[derive(Clone, Copy, Debug, PartialEq, Eq, Structural)]
pub enum Sought {
    NotWhitespace,
    Whitespace,
    Quote,
    NotDigit,
    NotIdentChar,
}

pub open spec fn is_decimal_digit(c: char) -> bool {
    '0' <= c <= '9'
}

/// Whether the character is what is looked for.
pub open spec fn found(what: Sought, c: char) -> bool {
    match what {
        Sought::NotWhitespace => !whitespace(c),
        Sought::Whitespace => whitespace(c),
        Sought::Quote => c == '"',
        Sought::NotDigit => !is_decimal_digit(c),
        Sought::NotIdentChar => !(alphanumeric(c) || c == '-' || c == '_'),
    }
}

/// The first position at or after `i` that holds what is looked for, or the length
/// of the table where none does.
pub open spec fn first_found(table: Seq<(usize, char)>, what: Sought, i: int) -> int
    decreases table.len() - i,
{
    if i < 0 || i >= table.len() {
        table.len() as int
    } else if found(what, table[i].1) {
        i
    } else {
        first_found(table, what, i + 1)
    }
}

/// The byte position of the character at position `k`, or the length of the input
/// behind the last character.
pub open spec fn byte_at(table: Seq<(usize, char)>, total: usize, k: int) -> usize {
    if 0 <= k < table.len() {
        table[k].0
    } else {
        total
    }
}

/// Whether the characters of `word` stand at position `k`.
pub open spec fn word_at(table: Seq<(usize, char)>, k: int, word: Seq<char>) -> bool {
    0 <= k && k + word.len() <= table.len() && forall|j: int|
        0 <= j < word.len() ==> (#[trigger] table[k + j]).1 == word[j]
}

/// The kind of the token that starts at position `k`, and the position of the first
/// character behind it.
pub open spec fn token_at(table: Seq<(usize, char)>, k: int) -> (TokenKind, int) {
    let c = table[k].1;
    let n = table.len() as int;
    if c == '"' {
        let q = first_found(table, Sought::Quote, k + 1);
        if q < n {
            (TokenKind::String, q + 1)
        } else {
            (TokenKind::UnclosedString, n)
        }
    } else if is_decimal_digit(c) {
        let e = first_found(table, Sought::NotDigit, k + 1);
        if e < n && (table[e].1 == '.' || table[e].1 == ',') {
            (TokenKind::Number, first_found(table, Sought::NotDigit, e + 1))
        } else {
            (TokenKind::Number, e)
        }
    } else if c == '{' {
        (TokenKind::LCurly, k + 1)
    } else if c == '}' {
        (TokenKind::RCurly, k + 1)
    } else if c == '[' {
        (TokenKind::LSquare, k + 1)
    } else if c == ']' {
        (TokenKind::RSquare, k + 1)
    } else if c == ':' {
        (TokenKind::Colon, k + 1)
    } else if c == '.' {
        (TokenKind::Dot, k + 1)
    } else if c == '=' {
        if k + 1 < n && table[k + 1].1 == '>' {
            (TokenKind::Arrow, k + 2)
        } else {
            (TokenKind::Equals, k + 1)
        }
    } else if word_at(table, k, seq!['t', 'r', 'u', 'e']) {
        (TokenKind::Bool, k + 4)
    } else if word_at(table, k, seq!['f', 'a', 'l', 's', 'e']) {
        (TokenKind::Bool, k + 5)
    } else if alphabetic(c) {
        (TokenKind::Ident, first_found(table, Sought::NotIdentChar, k + 1))
    } else {
        (TokenKind::Unknown, first_found(table, Sought::Whitespace, k + 1))
    }
}

/// The next token from position `i` on: its kind, where it starts and where it ends in
/// bytes, and the position of the first character behind it. There is none where only
/// white space is left.
pub open spec fn next_spec(table: Seq<(usize, char)>, total: usize, i: int) -> Option<
    (TokenKind, usize, usize, int),
> {
    let k = first_found(table, Sought::NotWhitespace, i);
    if 0 <= k < table.len() {
        let (kind, behind) = token_at(table, k);
        Some((kind, table[k].0, byte_at(table, total, behind), behind))
    } else {
        None
    }
}

/// A lexer: the input, and how far it was read.
pub struct Lexer<'i> {
    input: &'i str,
    table: Vec<(usize, char)>,
    index: usize,
}

impl<'i> Lexer<'i> {
    /// The characters of the input with their byte positions.
    pub closed spec fn table(&self) -> Seq<(usize, char)> {
        self.table@
    }

    /// The length of the input in bytes.
    pub closed spec fn total(&self) -> usize {
        self.input.spec_bytes().len() as usize
    }

    /// How many characters were read.
    pub closed spec fn index(&self) -> int {
        self.index as int
    }

    /// The input.
    pub closed spec fn input(&self) -> &'i str {
        self.input
    }

    /// Whether the lexer has not read beyond the input.
    pub closed spec fn wf(&self) -> bool {
        self.index <= self.table@.len()
    }

    /// The first position at or after `from` that holds what is looked for.
    pub fn search(&self, what: Sought, from: usize) -> (k: usize)
        ensures
            k == first_found(self.table(), what, from as int),
            k <= self.table().len(),
            from <= k || from > self.table().len(),
    {
        let mut k = from;
        while k < self.table.len()
            invariant
                from <= k,
                first_found(self.table(), what, k as int) == first_found(
                    self.table(),
                    what,
                    from as int,
                ),
            decreases self.table@.len() - k,
        {
            let c = self.table[k].1;
            let hit = match what {
                Sought::NotWhitespace => !is_whitespace(c),
                Sought::Whitespace => is_whitespace(c),
                Sought::Quote => c == '"',
                Sought::NotDigit => !('0' <= c && c <= '9'),
                Sought::NotIdentChar => !(is_alphanumeric(c) || c == '-' || c == '_'),
            };
            if hit {
                return k;
            }
            k += 1;
        }
        self.table.len()
    }

    /// Reads on to the next character that is what is looked for.
    pub fn seek(&mut self, what: Sought)
        requires
            old(self).wf(),
        ensures
            final(self).wf(),
            final(self).table() == old(self).table(),
            final(self).input() == old(self).input(),
            final(self).index() == first_found(old(self).table(), what, old(self).index()),
    {
        self.index = self.search(what, self.index);
    }

    /// The position of the first character behind the next one that is what is
    /// looked for.
    pub fn distance_to_next(&self, what: Sought) -> (k: usize)
        requires
            self.wf(),
            self.index() < self.table().len(),
        ensures
            k == first_found(self.table(), what, self.index() + 1),
            k <= self.table().len(),
    {
        let n = self.table.len();
        assert(self.index < n);
        self.search(what, self.index + 1)
    }

    fn byte_of(&self, k: usize) -> (b: usize)
        ensures
            b == byte_at(self.table(), self.total(), k as int),
    {
        if k < self.table.len() {
            self.table[k].0
        } else {
            self.input.len()
        }
    }

    /// The token of the given kind from the current position up to the character at
    /// position `behind`, behind which the lexer reads on.
    pub fn token(&mut self, kind: TokenKind, behind: usize) -> (token: Token<'i>)
        requires
            old(self).wf(),
            old(self).index() < old(self).table().len(),
            behind <= old(self).table().len(),
        ensures
            final(self).wf(),
            final(self).table() == old(self).table(),
            final(self).input() == old(self).input(),
            final(self).index() == behind,
            token.kind == kind,
            token.input == old(self).input(),
            token.start_pos == old(self).table()[old(self).index()].0,
            token.end_pos == byte_at(old(self).table(), old(self).total(), behind as int),
    {
        let token = Token {
            kind,
            input: self.input,
            start_pos: self.table[self.index].0,
            end_pos: self.byte_of(behind),
        };
        self.index = behind;
        token
    }

    fn has_word(&self, k: usize, word: &[char]) -> (r: bool)
        ensures
            r == word_at(self.table(), k as int, word@),
    {
        if word.len() > self.table.len() || k > self.table.len() - word.len() {
            return false;
        }
        let mut j: usize = 0;
        while j < word.len()
            invariant
                j <= word@.len(),
                k + word@.len() <= self.table@.len(),
                forall|i: int| 0 <= i < j ==> (#[trigger] self.table@[k + i]).1 == word@[i],
            decreases word.len() - j,
        {
            let n = self.table.len();
            assert(k + j < n);
            if self.table[k + j].1 != word[j] {
                return false;
            }
            j += 1;
        }
        true
    }

    /// The next token, if there is one: see `next_spec`.
    pub fn next(&mut self) -> (token: Option<Token<'i>>)
        requires
            old(self).wf(),
        ensures
            final(self).wf(),
            final(self).table() == old(self).table(),
            final(self).input() == old(self).input(),
            match token {
                Some(t) => next_spec(old(self).table(), old(self).total(), old(self).index())
                    == Some((t.kind, t.start_pos, t.end_pos, final(self).index())) && t.input
                    == old(self).input(),
                None => next_spec(old(self).table(), old(self).total(), old(self).index()) is None,
            },
    {
        self.seek(Sought::NotWhitespace);
        if self.index >= self.table.len() {
            return None;
        }
        let k = self.index;
        let n = self.table.len();
        let c = self.table[k].1;
        let true_word: [char; 4] = ['t', 'r', 'u', 'e'];
        let false_word: [char; 5] = ['f', 'a', 'l', 's', 'e'];
        assert(true_word@ =~= seq!['t', 'r', 'u', 'e']);
        assert(false_word@ =~= seq!['f', 'a', 'l', 's', 'e']);
        let token = if c == '"' {
            let q = self.distance_to_next(Sought::Quote);
            if q < n {
                self.token(TokenKind::String, q + 1)
            } else {
                self.token(TokenKind::UnclosedString, n)
            }
        } else if '0' <= c && c <= '9' {
            let e = self.distance_to_next(Sought::NotDigit);
            if e < n && (self.table[e].1 == '.' || self.table[e].1 == ',') {
                let full = self.search(Sought::NotDigit, e + 1);
                self.token(TokenKind::Number, full)
            } else {
                self.token(TokenKind::Number, e)
            }
        } else if c == '{' {
            self.token(TokenKind::LCurly, k + 1)
        } else if c == '}' {
            self.token(TokenKind::RCurly, k + 1)
        } else if c == '[' {
            self.token(TokenKind::LSquare, k + 1)
        } else if c == ']' {
            self.token(TokenKind::RSquare, k + 1)
        } else if c == ':' {
            self.token(TokenKind::Colon, k + 1)
        } else if c == '.' {
            self.token(TokenKind::Dot, k + 1)
        } else if c == '=' {
            if k + 1 < n && self.table[k + 1].1 == '>' {
                self.token(TokenKind::Arrow, k + 2)
            } else {
                self.token(TokenKind::Equals, k + 1)
            }
        } else if self.has_word(k, true_word.as_slice()) {
            self.token(TokenKind::Bool, k + 4)
        } else if self.has_word(k, false_word.as_slice()) {
            self.token(TokenKind::Bool, k + 5)
        } else if is_alphabetic(c) {
            let e = self.distance_to_next(Sought::NotIdentChar);
            self.token(TokenKind::Ident, e)
        } else {
            let e = self.distance_to_next(Sought::Whitespace);
            self.token(TokenKind::Unknown, e)
        };
        Some(token)
    }
}

/// A lexer at the start of the input. Its table holds the characters of the input,
/// each with the number of bytes that the characters before it take.
pub fn lex<'i>(input: &'i str) -> (lexer: Lexer<'i>)
    ensures
        lexer.wf(),
        lexer.index() == 0,
        lexer.input() == input,
        lexer.table().len() == input@.len(),
        forall|i: int| 0 <= i < input@.len() ==> (#[trigger] lexer.table()[i]).1 == input@[i],
        forall|i: int|
            0 <= i < input@.len() ==> (#[trigger] lexer.table()[i]).0 == encode_utf8(
                input@.take(i),
            ).len(),
        lexer.total() == input.spec_bytes().len() as usize,
{
    Lexer { input, table: char_table(input), index: 0 }
}

} // verus!
