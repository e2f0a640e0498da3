//! The lexer: source text in, tokens out, one per step.

use vstd::prelude::*;
pub use crate::error::ReadError;
use crate::name::{is_name, Name};
use crate::text::{
    chars_of, fold_char, is_name_char, is_name_start, is_space, is_whitespace, string_of,
};

verus! {

/// A token of the source format.
#[derive(Debug, PartialEq, Eq, Clone)]
pub enum Token {
    Config(String),
    Comment(String),
    Key(Name),
    Locale(Name),
    Value(String),
}

/// What a token holds, as characters.
pub enum TokenV {
    Config(Seq<char>),
    Comment(Seq<char>),
    Key(Seq<char>),
    Locale(Seq<char>),
    Value(Seq<char>),
}

impl View for Token {
    type V = TokenV;

    open spec fn view(&self) -> TokenV {
        match self {
            Token::Config(s) => TokenV::Config(s@),
            Token::Comment(s) => TokenV::Comment(s@),
            Token::Key(n) => TokenV::Key(n@),
            Token::Locale(n) => TokenV::Locale(n@),
            Token::Value(s) => TokenV::Value(s@),
        }
    }
}

impl Token {
    /// A copy of the token.
    pub fn duplicate(&self) -> (r: Token)
        ensures
            r@ == self@,
    {
        match self {
            Token::Config(s) => Token::Config(s.clone()),
            Token::Comment(s) => Token::Comment(s.clone()),
            Token::Key(n) => Token::Key(n.duplicate()),
            Token::Locale(n) => Token::Locale(n.duplicate()),
            Token::Value(s) => Token::Value(s.clone()),
        }
    }
}

pub open spec fn item_view(r: Result<Token, ReadError>) -> Result<TokenV, ReadError> {
    match r {
        Ok(t) => Ok(t@),
        Err(e) => Err(e),
    }
}

pub open spec fn items_view(rs: Seq<Result<Token, ReadError>>) -> Seq<Result<TokenV, ReadError>> {
    rs.map_values(|r: Result<Token, ReadError>| item_view(r))
}

/// First position at or after `i` that holds no whitespace.
pub open spec fn skip_space(s: Seq<char>, i: int) -> int
    decreases s.len() - i,
{
    if i < 0 || i >= s.len() {
        i
    } else if is_space(s[i]) {
        skip_space(s, i + 1)
    } else {
        i
    }
}

/// First position at or after `i` that holds `c`, or the end.
pub open spec fn find_char(s: Seq<char>, i: int, c: char) -> int
    decreases s.len() - i,
{
    if i < 0 || i >= s.len() {
        i
    } else if s[i] == c {
        i
    } else {
        find_char(s, i + 1, c)
    }
}

/// A quoted value read from `i` (after the opening quote) with `acc` read so
/// far: its text and the position after the closing quote, or nothing when
/// the input ends first. A quote right after a backslash is kept and the
/// backslash dropped.
pub open spec fn scan_value(s: Seq<char>, i: int, acc: Seq<char>) -> Option<(Seq<char>, int)>
    decreases s.len() - i,
{
    if i < 0 || i >= s.len() {
        None
    } else if s[i] == '"' {
        if acc.len() > 0 && acc.last() == '\\' {
            scan_value(s, i + 1, acc.drop_last().push('"'))
        } else {
            Some((acc, i + 1))
        }
    } else {
        scan_value(s, i + 1, acc.push(s[i]))
    }
}

/// After a name and whitespace: `:` closes a key, `"` a locale (the quote
/// stays for the value).
pub open spec fn scan_delimiter(s: Seq<char>, i: int, acc: Seq<char>) -> Result<(TokenV, int), ReadError>
    decreases s.len() - i,
{
    if i < 0 || i >= s.len() {
        Err(ReadError::EOF)
    } else if is_space(s[i]) {
        scan_delimiter(s, i + 1, acc)
    } else if s[i] == ':' {
        Ok((TokenV::Key(acc), i + 1))
    } else if s[i] == '"' {
        Ok((TokenV::Locale(acc), i))
    } else {
        Err(ReadError::InvalidChar(s[i]))
    }
}

/// The characters of a name from `i`, with `acc` built so far.
pub open spec fn scan_name(s: Seq<char>, i: int, acc: Seq<char>) -> Result<(TokenV, int), ReadError>
    decreases s.len() - i,
{
    if i < 0 || i >= s.len() {
        scan_delimiter(s, i, acc)
    } else if is_space(s[i]) {
        scan_delimiter(s, i + 1, acc)
    } else if is_name_char(s[i]) {
        scan_name(s, i + 1, acc.push(fold_char(s[i])))
    } else if s[i] == ':' {
        Ok((TokenV::Key(acc), i + 1))
    } else if s[i] == '"' {
        Ok((TokenV::Locale(acc), i))
    } else {
        Err(ReadError::InvalidChar(s[i]))
    }
}

/// The position after the line that holds `i`.
pub open spec fn after_line(s: Seq<char>, i: int) -> int {
    let e = find_char(s, i, '\n');
    if e < s.len() { e + 1 } else { e }
}

/// One step of the lexer at position `i`: the next token or error, and the
/// position after it (the end, after an error); nothing at the end.
pub open spec fn lex_step(s: Seq<char>, i: int) -> Option<(Result<TokenV, ReadError>, int)> {
    let j = skip_space(s, i);
    if j < 0 || j >= s.len() {
        None
    } else {
        let c = s[j];
        if c == '#' {
            let e = find_char(s, j + 1, '\n');
            Some((Ok(TokenV::Comment(s.subrange(j + 1, e))), after_line(s, j + 1)))
        } else if c == '!' {
            let e = find_char(s, j + 1, '\n');
            let h = find_char(s.subrange(0, e), j + 1, '#');
            Some((Ok(TokenV::Config(s.subrange(j + 1, h))), after_line(s, j + 1)))
        } else if c == '"' {
            match scan_value(s, j + 1, seq![]) {
                Some((v, k)) => Some((Ok(TokenV::Value(v)), k)),
                None => Some((Err(ReadError::UnmatchedQuote), s.len() as int)),
            }
        } else if is_name_start(c) {
            match scan_name(s, j + 1, seq![fold_char(c)]) {
                Ok((t, k)) => Some((Ok(t), k)),
                Err(e) => Some((Err(e), s.len() as int)),
            }
        } else {
            Some((Err(ReadError::InvalidChar(c)), s.len() as int))
        }
    }
}

/// Every token of `s` from position `i`, up to the first error.
pub open spec fn lex_from(s: Seq<char>, i: int) -> Seq<Result<TokenV, ReadError>>
    decreases s.len() - i,
{
    match lex_step(s, i) {
        None => seq![],
        Some((t, k)) => if i < k <= s.len() {
            seq![t] + lex_from(s, k)
        } else {
            seq![t]
        },
    }
}

proof fn lemma_skip_space(s: Seq<char>, i: int)
    requires
        0 <= i <= s.len(),
    ensures
        i <= skip_space(s, i) <= s.len(),
    decreases s.len() - i,
{
    if i < s.len() && is_space(s[i]) {
        lemma_skip_space(s, i + 1);
    }
}

proof fn lemma_find_char(s: Seq<char>, i: int, c: char)
    requires
        0 <= i <= s.len(),
    ensures
        i <= find_char(s, i, c) <= s.len(),
    decreases s.len() - i,
{
    if i < s.len() && s[i] != c {
        lemma_find_char(s, i + 1, c);
    }
}

proof fn lemma_scan_value(s: Seq<char>, i: int, acc: Seq<char>)
    requires
        0 <= i,
    ensures
        scan_value(s, i, acc) matches Some((v, k)) ==> i < k <= s.len(),
    decreases s.len() - i,
{
    if i < s.len() {
        if s[i] == '"' {
            if acc.len() > 0 && acc.last() == '\\' {
                lemma_scan_value(s, i + 1, acc.drop_last().push('"'));
            }
        } else {
            lemma_scan_value(s, i + 1, acc.push(s[i]));
        }
    }
}

proof fn lemma_scan_delimiter(s: Seq<char>, i: int, acc: Seq<char>)
    requires
        0 <= i,
    ensures
        scan_delimiter(s, i, acc) matches Ok((t, k)) ==> i <= k <= s.len(),
    decreases s.len() - i,
{
    if i < s.len() && is_space(s[i]) {
        lemma_scan_delimiter(s, i + 1, acc);
    }
}

proof fn lemma_scan_name(s: Seq<char>, i: int, acc: Seq<char>)
    requires
        0 <= i,
    ensures
        scan_name(s, i, acc) matches Ok((t, k)) ==> i <= k <= s.len(),
    decreases s.len() - i,
{
    if i >= s.len() {
        lemma_scan_delimiter(s, i, acc);
    } else if is_space(s[i]) {
        lemma_scan_delimiter(s, i + 1, acc);
    } else if is_name_char(s[i]) {
        lemma_scan_name(s, i + 1, acc.push(fold_char(s[i])));
    }
}

/// Each step of the lexer moves forward and stays in the input.
pub proof fn lemma_lex_step_progress(s: Seq<char>, i: int)
    requires
        0 <= i <= s.len(),
    ensures
        lex_step(s, i) matches Some((t, k)) ==> i < k <= s.len(),
{
    lemma_skip_space(s, i);
    let j = skip_space(s, i);
    if j < s.len() {
        lemma_find_char(s, j + 1, '\n');
        lemma_scan_value(s, j + 1, seq![]);
        lemma_scan_name(s, j + 1, seq![fold_char(s[j])]);
    }
}

/// Reads tokens from source text.
pub struct CharReader {
    chars: Vec<char>,
    pos: usize,
}

impl View for CharReader {
    type V = (Seq<char>, int);

    closed spec fn view(&self) -> (Seq<char>, int) {
        (self.chars@, self.pos as int)
    }
}

/// First position in `[from, end)` that holds `c`, or `end`.
fn find_in(chars: &Vec<char>, from: usize, end: usize, c: char) -> (r: usize)
    requires
        from <= end <= chars@.len(),
    ensures
        r == find_char(chars@.subrange(0, end as int), from as int, c),
        from <= r <= end,
{
    let ghost s = chars@.subrange(0, end as int);
    let mut i = from;
    while i < end && chars[i] != c
        invariant
            from <= i <= end,
            end <= chars@.len(),
            s == chars@.subrange(0, end as int),
            find_char(s, from as int, c) == find_char(s, i as int, c),
        decreases end - i,
    {
        i += 1;
    }
    i
}

impl CharReader {
    pub fn new(source: &str) -> (r: Self)
        ensures
            r@ == (source@, 0int),
    {
        CharReader { chars: chars_of(source), pos: 0 }
    }

    fn skip_space(&mut self)
        requires
            old(self).pos <= old(self).chars@.len(),
        ensures
            final(self).chars == old(self).chars,
            final(self).pos == skip_space(old(self).chars@, old(self).pos as int),
            final(self).pos <= final(self).chars@.len(),
    {
        let ghost start = self.pos as int;
        while self.pos < self.chars.len() && is_whitespace(self.chars[self.pos])
            invariant
                self.chars == old(self).chars,
                start <= self.pos <= self.chars@.len(),
                skip_space(self.chars@, start) == skip_space(self.chars@, self.pos as int),
            decreases self.chars@.len() - self.pos,
        {
            self.pos += 1;
        }
    }

    /// The end of the line from `self.pos`, and the position after it.
    fn line_end(&self) -> (r: (usize, usize))
        requires
            self.pos <= self.chars@.len(),
        ensures
            r.0 == find_char(self.chars@, self.pos as int, '\n'),
            r.1 == after_line(self.chars@, self.pos as int),
            self.pos <= r.0 <= r.1 <= self.chars@.len(),
    {
        assert(self.chars@.subrange(0, self.chars@.len() as int) == self.chars@);
        let e = find_in(&self.chars, self.pos, self.chars.len(), '\n');
        if e < self.chars.len() {
            (e, e + 1)
        } else {
            (e, e)
        }
    }

    fn read_comment(&mut self) -> (r: Token)
        requires
            old(self).pos <= old(self).chars@.len(),
        ensures
            final(self).chars == old(self).chars,
            r@ == TokenV::Comment(
                old(self).chars@.subrange(
                    old(self).pos as int,
                    find_char(old(self).chars@, old(self).pos as int, '\n'),
                ),
            ),
            final(self).pos == after_line(old(self).chars@, old(self).pos as int),
            final(self).pos <= final(self).chars@.len(),
    {
        let (e, next) = self.line_end();
        let text = string_of(&self.chars.as_slice()[self.pos..e]);
        self.pos = next;
        Token::Comment(text)
    }

    fn read_config(&mut self) -> (r: Token)
        requires
            old(self).pos <= old(self).chars@.len(),
        ensures
            final(self).chars == old(self).chars,
            r@ == TokenV::Config(
                old(self).chars@.subrange(
                    old(self).pos as int,
                    find_char(
                        old(self).chars@.subrange(
                            0,
                            find_char(old(self).chars@, old(self).pos as int, '\n'),
                        ),
                        old(self).pos as int,
                        '#',
                    ),
                ),
            ),
            final(self).pos == after_line(old(self).chars@, old(self).pos as int),
            final(self).pos <= final(self).chars@.len(),
    {
        let (e, next) = self.line_end();
        let h = find_in(&self.chars, self.pos, e, '#');
        let text = string_of(&self.chars.as_slice()[self.pos..h]);
        self.pos = next;
        Token::Config(text)
    }

    fn read_value(&mut self) -> (r: Result<Token, ReadError>)
        requires
            old(self).pos <= old(self).chars@.len(),
        ensures
            final(self).chars == old(self).chars,
            final(self).pos <= final(self).chars@.len(),
            match scan_value(old(self).chars@, old(self).pos as int, seq![]) {
                Some((v, k)) => r is Ok && r->Ok_0@ == TokenV::Value(v) && final(self).pos == k,
                None => r == Err::<Token, ReadError>(ReadError::UnmatchedQuote),
            },
    {
        let ghost s = self.chars@;
        let ghost start = self.pos as int;
        let mut acc: Vec<char> = Vec::new();
        while self.pos < self.chars.len()
            invariant
                self.chars == old(self).chars,
                s == self.chars@,
                start == old(self).pos,
                start <= self.pos <= s.len(),
                scan_value(s, start, seq![]) == scan_value(s, self.pos as int, acc@),
            decreases s.len() - self.pos,
        {
            let c = self.chars[self.pos];
            self.pos += 1;
            if c == '"' {
                if acc.len() > 0 && acc[acc.len() - 1] == '\\' {
                    let ghost before = acc@;
                    acc.pop();
                    acc.push('"');
                    assert(acc@ =~= before.drop_last().push('"'));
                } else {
                    assert(scan_value(s, self.pos - 1, acc@) == Some((acc@, self.pos as int)));
                    let v = string_of(acc.as_slice());
                    assert(scan_value(s, start, seq![]) == Some((v@, self.pos as int)));
                    return Ok(Token::Value(v));
                }
            } else {
                acc.push(c);
            }
        }
        Err(ReadError::UnmatchedQuote)
    }

    fn read_param(&mut self, first: char) -> (r: Result<Token, ReadError>)
        requires
            old(self).pos <= old(self).chars@.len(),
            is_name_start(first),
        ensures
            final(self).chars == old(self).chars,
            final(self).pos <= final(self).chars@.len(),
            match scan_name(old(self).chars@, old(self).pos as int, seq![fold_char(first)]) {
                Ok((t, k)) => r is Ok && r->Ok_0@ == t && final(self).pos == k,
                Err(e) => r == Err::<Token, ReadError>(e),
            },
    {
        let ghost s = self.chars@;
        let ghost start = self.pos as int;
        let mut name = match Name::new(first) {
            Ok(n) => n,
            Err(e) => return Err(e),
        };
        let mut spaced = false;
        while !spaced && self.pos < self.chars.len()
            invariant
                self.chars == old(self).chars,
                s == self.chars@,
                start == old(self).pos,
                start <= self.pos <= s.len(),
                is_name(name@),
                !spaced ==> scan_name(s, start, seq![fold_char(first)]) == scan_name(
                    s,
                    self.pos as int,
                    name@,
                ),
                spaced ==> scan_name(s, start, seq![fold_char(first)]) == scan_delimiter(
                    s,
                    self.pos as int,
                    name@,
                ),
            decreases s.len() - self.pos,
        {
            let c = self.chars[self.pos];
            if is_whitespace(c) {
                self.pos += 1;
                spaced = true;
            } else if Name::is_valid(c) {
                let _ = name.add(c);
                self.pos += 1;
            } else if c == ':' {
                self.pos += 1;
                return Ok(Token::Key(name));
            } else if c == '"' {
                return Ok(Token::Locale(name));
            } else {
                return Err(ReadError::InvalidChar(c));
            }
        }
        while self.pos < self.chars.len()
            invariant
                self.chars == old(self).chars,
                s == self.chars@,
                start == old(self).pos,
                start <= self.pos <= s.len(),
                scan_name(s, start, seq![fold_char(first)]) == scan_delimiter(
                    s,
                    self.pos as int,
                    name@,
                ),
            decreases s.len() - self.pos,
        {
            let c = self.chars[self.pos];
            if is_whitespace(c) {
                self.pos += 1;
            } else if c == ':' {
                self.pos += 1;
                return Ok(Token::Key(name));
            } else if c == '"' {
                return Ok(Token::Locale(name));
            } else {
                return Err(ReadError::InvalidChar(c));
            }
        }
        Err(ReadError::EOF)
    }

    /// The next token, or the first error; nothing once the input is used up
    /// or an error was given.
    pub fn next(&mut self) -> (r: Option<Result<Token, ReadError>>)
        ensures
            final(self)@.0 == old(self)@.0,
            match lex_step(old(self)@.0, old(self)@.1) {
                None => r is None,
                Some((t, k)) => r is Some && item_view(r->Some_0) == t && final(self)@.1 == k,
            },
    {
        if self.pos >= self.chars.len() {
            return None;
        }
        self.skip_space();
        if self.pos >= self.chars.len() {
            return None;
        }
        let c = self.chars[self.pos];
        self.pos += 1;
        if c == '#' {
            Some(Ok(self.read_comment()))
        } else if c == '!' {
            Some(Ok(self.read_config()))
        } else if c == '"' {
            let r = self.read_value();
            if r.is_err() {
                self.pos = self.chars.len();
            }
            Some(r)
        } else if 'a' <= c && c <= 'z' || 'A' <= c && c <= 'Z' {
            let r = self.read_param(c);
            if r.is_err() {
                self.pos = self.chars.len();
            }
            Some(r)
        } else {
            self.pos = self.chars.len();
            Some(Err(ReadError::InvalidChar(c)))
        }
    }
}

/// Every token of `source`, up to and including the first error.
pub fn tokenize(source: &str) -> (r: Vec<Result<Token, ReadError>>)
    ensures
        items_view(r@) == lex_from(source@, 0),
{
    let mut reader = CharReader::new(source);
    let mut out: Vec<Result<Token, ReadError>> = Vec::new();
    loop
        invariant
            reader@.0 == source@,
            0 <= reader@.1 <= source@.len(),
            items_view(out@) + lex_from(source@, reader@.1) == lex_from(source@, 0),
        decreases source@.len() - reader@.1,
    {
        let ghost before = reader@.1;
        proof {
            lemma_lex_step_progress(source@, before);
        }
        match reader.next() {
            None => {
                assert(items_view(out@) =~= lex_from(source@, 0));
                return out;
            },
            Some(t) => {
                let ghost prev = out@;
                out.push(t);
                assert(items_view(out@) =~= items_view(prev).push(item_view(t)));
                assert(items_view(out@) + lex_from(source@, reader@.1) =~= items_view(prev)
                    + lex_from(source@, before));
            },
        }
    }
}

} // verus!