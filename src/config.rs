//! Directive lines: the declared locales and the queue of further sources.

use vstd::prelude::*;
use crate::error::{strings_view, Error, ErrorV, ParseError, ParseErrorV};
use crate::name::{name_of, names_view, Name};
use crate::text::{chars_of, is_space, is_whitespace, string_of};


verus! {

/// The whitespace-separated words of `s` from `i`, with the word `cur` begun
/// and the words `acc` found before.
pub open spec fn words_from(s: Seq<char>, i: int, cur: Seq<char>, acc: Seq<Seq<char>>) -> Seq<
    Seq<char>,
>
    decreases s.len() - i,
{
    if i < 0 || i >= s.len() {
        if cur.len() > 0 {
            acc.push(cur)
        } else {
            acc
        }
    } else if is_space(s[i]) {
        words_from(s, i + 1, seq![], if cur.len() > 0 { acc.push(cur) } else { acc })
    } else {
        words_from(s, i + 1, cur.push(s[i]), acc)
    }
}

/// The whitespace-separated words of `s`.
pub open spec fn words(s: Seq<char>) -> Seq<Seq<char>> {
    words_from(s, 0, seq![], seq![])
}

pub open spec fn locales_word() -> Seq<char> {
    seq!['l', 'o', 'c', 'a', 'l', 'e', 's']
}

/// The directive that queues further sources.
pub open spec fn queue_word() -> Seq<char> {
    seq!['i', 'n', 'c', 'l', 'u', 'd', 'e']
}

/// The first position of `x` in `s` at or after `i`.
pub open spec fn position_from<T>(s: Seq<T>, x: T, i: int) -> Option<int>
    decreases s.len() - i,
{
    if i < 0 || i >= s.len() {
        None
    } else if s[i] == x {
        Some(i)
    } else {
        position_from(s, x, i + 1)
    }
}

/// A position found holds the element sought.
pub proof fn lemma_position_from<T>(s: Seq<T>, x: T, i: int)
    ensures
        position_from(s, x, i) matches Some(p) ==> i <= p < s.len() && 0 <= p && s[p] == x,
    decreases s.len() - i,
{
    if 0 <= i < s.len() && s[i] != x {
        lemma_position_from(s, x, i + 1);
    }
}

pub open spec fn position<T>(s: Seq<T>, x: T) -> Option<int> {
    position_from(s, x, 0)
}

/// `locales` with the names built from `parts[k..]` added in order; a part
/// that is no name, or names a declared locale, is refused.
pub open spec fn add_locales_from(locales: Seq<Seq<char>>, parts: Seq<Seq<char>>, k: int) -> Result<
    Seq<Seq<char>>,
    ErrorV,
>
    decreases parts.len() - k,
{
    if k < 0 || k >= parts.len() {
        Ok(locales)
    } else {
        match name_of(parts[k]) {
            Err(e) => Err(ErrorV::Read(e)),
            Ok(n) => if locales.contains(n) {
                Err(ErrorV::Parse(ParseErrorV::DuplicateLocale(n)))
            } else {
                add_locales_from(locales.push(n), parts, k + 1)
            },
        }
    }
}

pub open spec fn add_locales(locales: Seq<Seq<char>>, parts: Seq<Seq<char>>) -> Result<
    Seq<Seq<char>>,
    ErrorV,
> {
    if parts.len() == 0 {
        Err(ErrorV::Parse(ParseErrorV::MissingValues(locales_word())))
    } else {
        add_locales_from(locales, parts, 0)
    }
}

/// The length of the directory part of `s`: up to and with its last `/`.
pub open spec fn dir_len(s: Seq<char>, n: int) -> int
    decreases n,
{
    if n <= 0 || n > s.len() {
        0
    } else if s[n - 1] == '/' {
        n
    } else {
        dir_len(s, n - 1)
    }
}

/// `path` read from the source `source`: as it is when absolute, else in the
/// directory of `source`.
pub open spec fn resolve(source: Seq<char>, path: Seq<char>) -> Seq<char> {
    if path.len() > 0 && path[0] == '/' {
        path
    } else {
        source.subrange(0, dir_len(source, source.len() as int)) + path
    }
}

/// The configuration as values.
pub struct ConfigV {
    pub locales: Seq<Seq<char>>,
    pub source: Seq<char>,
    pub queue: Seq<Seq<char>>,
}

/// What a directive line does to the configuration.
pub open spec fn config_step(c: ConfigV, line: Seq<char>) -> Result<ConfigV, ErrorV> {
    let w = words(line);
    if w.len() == 0 {
        Err(ErrorV::Parse(ParseErrorV::EmptyKey))
    } else if w[0] == locales_word() {
        match add_locales(c.locales, w.drop_first()) {
            Ok(l) => Ok(ConfigV { locales: l, ..c }),
            Err(e) => Err(e),
        }
    } else if w[0] == queue_word() {
        if w.len() == 1 {
            Err(ErrorV::Parse(ParseErrorV::MissingValues(queue_word())))
        } else {
            Ok(
                ConfigV {
                    queue: w.drop_first().map_values(|p: Seq<char>| resolve(c.source, p))
                        + c.queue,
                    ..c
                },
            )
        }
    } else {
        Err(ErrorV::Parse(ParseErrorV::UnknownKey(w[0])))
    }
}

/// The declared locales, the source being read, and the sources queued to be
/// read next.
pub struct Configuration {
    pub locales: Vec<Name>,
    pub source: String,
    pub queue: Vec<String>,
}

impl View for Configuration {
    type V = ConfigV;

    open spec fn view(&self) -> ConfigV {
        ConfigV {
            locales: names_view(self.locales@),
            source: self.source@,
            queue: strings_view(self.queue@),
        }
    }
}

fn same_chars(a: &Vec<char>, b: &[char]) -> (r: bool)
    ensures
        r == (a@ == b@),
{
    if a.len() != b.len() {
        return false;
    }
    let mut i: usize = 0;
    while i < a.len()
        invariant
            a@.len() == b@.len(),
            i <= a@.len(),
            forall|j: int| 0 <= j < i ==> a@[j] == b@[j],
        decreases a@.len() - i,
    {
        if a[i] != b[i] {
            return false;
        }
        i += 1;
    }
    assert(a@ =~= b@);
    true
}

/// The whitespace-separated words of `line`.
pub fn split_words(line: &str) -> (r: Vec<Vec<char>>)
    ensures
        r@.map_values(|w: Vec<char>| w@) == words(line@),
{
    let cs = chars_of(line);
    let mut out: Vec<Vec<char>> = Vec::new();
    let mut cur: Vec<char> = Vec::new();
    let mut i: usize = 0;
    assert(out@.map_values(|w: Vec<char>| w@) =~= Seq::<Seq<char>>::empty());
    assert(cur@ =~= Seq::<char>::empty());
    while i < cs.len()
        invariant
            cs@ == line@,
            i <= cs@.len(),
            words(line@) == words_from(line@, i as int, cur@, out@.map_values(|w: Vec<char>| w@)),
        decreases cs@.len() - i,
    {
        let ghost prev = out@.map_values(|w: Vec<char>| w@);
        if is_whitespace(cs[i]) {
            if cur.len() > 0 {
                let ghost cw = cur@;
                out.push(cur);
                assert(out@.map_values(|w: Vec<char>| w@) =~= prev.push(cw));
                cur = Vec::new();
            } else {
                cur = Vec::new();
            }
            assert(cur@ =~= Seq::<char>::empty());
        } else {
            cur.push(cs[i]);
        }
        i += 1;
    }
    if cur.len() > 0 {
        let ghost prev = out@.map_values(|w: Vec<char>| w@);
        let ghost cw = cur@;
        out.push(cur);
        assert(out@.map_values(|w: Vec<char>| w@) =~= prev.push(cw));
    }
    out
}

/// The directory part of `source`: up to and with its last `/`.
fn dir_end(source: &Vec<char>) -> (r: usize)
    ensures
        r == dir_len(source@, source@.len() as int),
        r <= source@.len(),
{
    let mut n = source.len();
    while n > 0 && source[n - 1] != '/'
        invariant
            n <= source@.len(),
            dir_len(source@, source@.len() as int) == dir_len(source@, n as int),
        decreases n,
    {
        n -= 1;
    }
    n
}

/// `path` read from the source `source`: as it is when absolute, else in the
/// directory of `source`.
pub fn resolve_path(source: &str, path: &Vec<char>) -> (r: String)
    ensures
        r@ == resolve(source@, path@),
{
    if path.len() > 0 && path[0] == '/' {
        return string_of(path.as_slice());
    }
    let src = chars_of(source);
    let d = dir_end(&src);
    let mut out: Vec<char> = Vec::new();
    let mut i: usize = 0;
    while i < d
        invariant
            i <= d <= src@.len(),
            out@ == src@.subrange(0, i as int),
        decreases d - i,
    {
        out.push(src[i]);
        i += 1;
        assert(out@ =~= src@.subrange(0, i as int));
    }
    let mut j: usize = 0;
    while j < path.len()
        invariant
            j <= path@.len(),
            out@ == src@.subrange(0, d as int) + path@.subrange(0, j as int),
        decreases path@.len() - j,
    {
        out.push(path[j]);
        j += 1;
        assert(out@ =~= src@.subrange(0, d as int) + path@.subrange(0, j as int));
    }
    assert(path@.subrange(0, path@.len() as int) =~= path@);
    string_of(out.as_slice())
}

impl Configuration {
    /// No locales, no source, nothing queued.
    pub fn new() -> (r: Self)
        ensures
            r@.locales.len() == 0,
            r@.source.len() == 0,
            r@.queue.len() == 0,
    {
        Configuration { locales: Vec::new(), source: String::new(), queue: Vec::new() }
    }

    /// The number of declared locales.
    pub fn locale_count(&self) -> (r: usize)
        ensures
            r == self@.locales.len(),
    {
        self.locales.len()
    }

    /// Parses a directive line.
    pub fn parse_config(&mut self, line: &str) -> (r: Result<(), Error>)
        ensures
            match config_step(old(self)@, line@) {
                Ok(c) => r is Ok && final(self)@ == c,
                Err(e) => r is Err && r->Err_0@ == e,
            },
    {
        let w = split_words(line);
        let ghost ws = w@.map_values(|v: Vec<char>| v@);
        if w.len() == 0 {
            return Err(Error::Parse(ParseError::EmptyKey));
        }
        assert(ws[0] == w@[0]@);
        if same_chars(&w[0], &['l', 'o', 'c', 'a', 'l', 'e', 's']) {
            let mut parts: Vec<String> = Vec::new();
            let mut k: usize = 1;
            while k < w.len()
                invariant
                    1 <= k <= w@.len(),
                    ws == w@.map_values(|v: Vec<char>| v@),
                    strings_view(parts@) == ws.drop_first().subrange(0, k - 1),
                decreases w@.len() - k,
            {
                let ghost prev = parts@;
                assert(ws[k as int] == w@[k as int]@);
                let part = string_of(w[k].as_slice());
                parts.push(part);
                assert(strings_view(parts@) =~= strings_view(prev).push(part@));
                assert(strings_view(parts@) =~= ws.drop_first().subrange(0, k as int));
                k += 1;
            }
            assert(ws.drop_first().subrange(0, w@.len() - 1) =~= ws.drop_first());
            self.set_locales(parts)
        } else if same_chars(&w[0], &['i', 'n', 'c', 'l', 'u', 'd', 'e']) {
            if w.len() == 1 {
                return Err(
                    Error::Parse(
                        ParseError::MissingValues(
                            string_of(&['i', 'n', 'c', 'l', 'u', 'd', 'e']),
                        ),
                    ),
                );
            }
            let ghost f = |p: Seq<char>| resolve(self.source@, p);
            let mut queued: Vec<String> = Vec::new();
            let mut k: usize = 1;
            while k < w.len()
                invariant
                    1 <= k <= w@.len(),
                    ws == w@.map_values(|v: Vec<char>| v@),
                    f == (|p: Seq<char>| resolve(self.source@, p)),
                    self@ == old(self)@,
                    strings_view(queued@) == ws.drop_first().subrange(0, k - 1).map_values(f),
                decreases w@.len() - k,
            {
                let ghost prev = queued@;
                assert(ws[k as int] == w@[k as int]@);
                let q = resolve_path(self.source.as_str(), &w[k]);
                queued.push(q);
                assert(strings_view(queued@) =~= strings_view(prev).push(q@));
                assert(strings_view(queued@) =~= ws.drop_first().subrange(0, k as int).map_values(
                    f,
                ));
                k += 1;
            }
            assert(ws.drop_first().subrange(0, w@.len() - 1) =~= ws.drop_first());
            let ghost front = strings_view(queued@);
            let ghost back = strings_view(self.queue@);
            queued.append(&mut self.queue);
            self.queue = queued;
            assert(strings_view(self.queue@) =~= front + back);
            Ok(())
        } else {
            Err(Error::Parse(ParseError::UnknownKey(string_of(w[0].as_slice()))))
        }
    }

    /// The position of `locale` among the declared locales.
    pub fn find_locale(&self, locale: &Name) -> (r: Option<usize>)
        ensures
            r matches Some(i) ==> position(self@.locales, locale@) == Some(i as int) && i
                < self@.locales.len(),
            r is None ==> position(self@.locales, locale@) is None,
    {
        let mut i: usize = 0;
        while i < self.locales.len()
            invariant
                i <= self.locales@.len(),
                position(self@.locales, locale@) == position_from(self@.locales, locale@, i as int),
            decreases self.locales@.len() - i,
        {
            if self.locales[i].same(locale) {
                return Some(i);
            }
            i += 1;
        }
        None
    }

    /// Declares locales, in order.
    pub fn set_locales(&mut self, parts: Vec<String>) -> (r: Result<(), Error>)
        ensures
            final(self)@.source == old(self)@.source,
            final(self)@.queue == old(self)@.queue,
            match add_locales(old(self)@.locales, strings_view(parts@)) {
                Ok(l) => r is Ok && final(self)@.locales == l,
                Err(e) => r is Err && r->Err_0@ == e,
            },
    {
        if parts.len() == 0 {
            return Err(
                Error::Parse(
                    ParseError::MissingValues(string_of(&['l', 'o', 'c', 'a', 'l', 'e', 's'])),
                ),
            );
        }
        let ghost ps = strings_view(parts@);
        let mut k: usize = 0;
        while k < parts.len()
            invariant
                k <= parts@.len(),
                ps == strings_view(parts@),
                self@.source == old(self)@.source,
                self@.queue == old(self)@.queue,
                add_locales(old(self)@.locales, ps) == add_locales_from(self@.locales, ps, k as int),
            decreases parts@.len() - k,
        {
            assert(ps[k as int] == parts@[k as int]@);
            let name = match Name::try_from(parts[k].as_str()) {
                Ok(n) => n,
                Err(e) => return Err(Error::Read(e)),
            };
            let mut j: usize = 0;
            while j < self.locales.len()
                invariant
                    j <= self.locales@.len(),
                    k < parts@.len(),
                    ps == strings_view(parts@),
                    self@.source == old(self)@.source,
                    self@.queue == old(self)@.queue,
                    add_locales(old(self)@.locales, ps) == add_locales_from(
                        self@.locales,
                        ps,
                        k as int,
                    ),
                    name_of(ps[k as int]) == Ok::<Seq<char>, crate::error::ReadError>(name@),
                    forall|x: int| 0 <= x < j ==> self@.locales[x] != name@,
                decreases self.locales@.len() - j,
            {
                if self.locales[j].same(&name) {
                    assert(self@.locales[j as int] == name@);
                    return Err(Error::Parse(ParseError::DuplicateLocale(name.to_string())));
                }
                j += 1;
            }
            let ghost prev = self@.locales;
            self.locales.push(name);
            assert(self@.locales =~= prev.push(name@));
            k += 1;
        }
        Ok(())
    }

    /// Takes the next queued source, if any.
    pub fn next_source(&mut self) -> (r: Option<String>)
        ensures
            final(self)@.locales == old(self)@.locales,
            final(self)@.source == old(self)@.source,
            old(self)@.queue.len() == 0 ==> r is None && final(self)@.queue == old(self)@.queue,
            old(self)@.queue.len() > 0 ==> r is Some && r->Some_0@ == old(self)@.queue[0]
                && final(self)@.queue == old(self)@.queue.drop_first(),
    {
        if self.queue.len() == 0 {
            return None;
        }
        let ghost prev = self.queue@;
        let s = self.queue.remove(0);
        assert(strings_view(self.queue@) =~= strings_view(prev).drop_first());
        Some(s)
    }
}

} // verus!
