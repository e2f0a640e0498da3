//! Checks of assembled keys: every locale filled, placeholders well formed
//! and alike in every locale, comments merged.

use vstd::prelude::*;
use crate::error::{strings_view, ParseError, ParseErrorV};
use crate::name::{names_view, Name};
use crate::parser::{clone_opt, opt_view, slot_view, slots_view, Entry, EntryV, TempKey, TempKeyV};
use crate::text::{
    chars_of, decimal, decimal_string, fold_char, is_digit, is_folded_char, is_lower, is_name_char, shorten,
    push_char, shortened, string_of, validate_char,
};

verus! {

pub open spec fn all_digits(s: Seq<char>) -> bool {
    forall|i: int| 0 <= i < s.len() ==> is_digit(#[trigger] s[i])
}

/// What a closed placeholder names: its own text, or the next number when it
/// is empty.
pub open spec fn placeholder_name(cur: Seq<char>, counter: nat) -> Seq<char> {
    if cur.len() == 0 {
        decimal(counter)
    } else {
        cur
    }
}

/// `args` with `a` at its end, unless it is there already.
pub open spec fn add_unique(args: Seq<Seq<char>>, a: Seq<char>) -> Seq<Seq<char>> {
    if args.contains(a) {
        args
    } else {
        args.push(a)
    }
}

/// The placeholders of `line` from position `i`, given what was read before:
/// the arguments found (`args`), the open placeholder's name so far (`cur`),
/// whether a placeholder is open and in its formatting suffix, and the number
/// of empty placeholders met.
pub open spec fn scan_args(
    line: Seq<char>,
    i: int,
    args: Seq<Seq<char>>,
    cur: Seq<char>,
    opened: bool,
    formatting: bool,
    counter: nat,
) -> Result<Seq<Seq<char>>, ParseErrorV>
    decreases line.len() - i,
{
    if i < 0 || i >= line.len() {
        if opened {
            Err(ParseErrorV::NestedBrace)
        } else {
            Ok(args)
        }
    } else {
        let c = line[i];
        if c == '{' {
            if opened {
                Err(ParseErrorV::NestedBrace)
            } else {
                scan_args(line, i + 1, args, seq![], true, false, counter)
            }
        } else if c == '}' {
            if !opened {
                Err(ParseErrorV::ExtraClosingBrace)
            } else if cur.len() > 0 && !is_lower(cur[0]) && !all_digits(cur) {
                Err(ParseErrorV::ArgBadStart(shortened(line), shortened(cur), c))
            } else {
                let next = if cur.len() == 0 { counter + 1 } else { counter };
                scan_args(
                    line,
                    i + 1,
                    add_unique(args, placeholder_name(cur, counter)),
                    seq![],
                    false,
                    false,
                    next,
                )
            }
        } else if c == ':' && opened {
            scan_args(line, i + 1, args, cur, true, true, counter)
        } else if opened && !formatting {
            if is_name_char(c) {
                scan_args(line, i + 1, args, cur.push(fold_char(c)), true, false, counter)
            } else {
                Err(ParseErrorV::ArgBadChar(shortened(line), shortened(cur), c))
            }
        } else {
            scan_args(line, i + 1, args, cur, opened, formatting, counter)
        }
    }
}

/// The placeholders of a template, each once, in the order of first
/// appearance.
pub open spec fn arguments_of(line: Seq<char>) -> Result<Seq<Seq<char>>, ParseErrorV> {
    scan_args(line, 0, seq![], seq![], false, false, 0)
}

/// A placeholder name as extraction gives it: folded characters, opened by a
/// letter or made of digits alone.
pub open spec fn is_argument(a: Seq<char>) -> bool {
    &&& a.len() > 0
    &&& is_lower(a[0]) || all_digits(a)
    &&& forall|i: int| 0 <= i < a.len() ==> is_folded_char(#[trigger] a[i])
}

/// A template that names each of `names` once, in order, each in braces.
pub open spec fn braced(names: Seq<Seq<char>>) -> Seq<char>
    decreases names.len(),
{
    if names.len() == 0 {
        seq![]
    } else {
        braced(names.drop_last()) + seq!['{'] + names.last() + seq!['}']
    }
}

proof fn lemma_braced_prefix(names: Seq<Seq<char>>, k: int)
    requires
        0 <= k <= names.len(),
    ensures
        braced(names.subrange(0, k)).len() <= braced(names).len(),
        braced(names).subrange(0, braced(names.subrange(0, k)).len() as int) == braced(
            names.subrange(0, k),
        ),
    decreases names.len(),
{
    if k == names.len() {
        assert(names.subrange(0, k) == names);
        assert(braced(names).subrange(0, braced(names).len() as int) == braced(names));
    } else {
        let d = names.drop_last();
        assert(d.subrange(0, k) == names.subrange(0, k));
        lemma_braced_prefix(d, k);
        let b = braced(names.subrange(0, k));
        assert(braced(names).subrange(0, b.len() as int) == braced(d).subrange(0, b.len() as int));
    }
}

proof fn lemma_scan_word(
    line: Seq<char>,
    p: int,
    a: Seq<char>,
    args: Seq<Seq<char>>,
    j: int,
)
    requires
        0 <= p,
        0 <= j <= a.len(),
        p + a.len() <= line.len(),
        line.subrange(p, p + a.len()) == a,
        forall|i: int| 0 <= i < a.len() ==> is_folded_char(#[trigger] a[i]),
    ensures
        scan_args(line, p + j, args, a.subrange(0, j), true, false, 0) == scan_args(
            line,
            p + a.len(),
            args,
            a,
            true,
            false,
            0,
        ),
    decreases a.len() - j,
{
    if j == a.len() {
        assert(a.subrange(0, j) == a);
    } else {
        let c = line[p + j];
        assert(c == a[j]);
        assert(is_folded_char(a[j]));
        assert(a.subrange(0, j).push(fold_char(c)) == a.subrange(0, j + 1));
        lemma_scan_word(line, p, a, args, j + 1);
    }
}

proof fn lemma_scan_braced(names: Seq<Seq<char>>, k: int)
    requires
        0 <= k <= names.len(),
        names.no_duplicates(),
        forall|i: int| 0 <= i < names.len() ==> is_argument(#[trigger] names[i]),
    ensures
        arguments_of(braced(names)) == scan_args(
            braced(names),
            braced(names.subrange(0, k)).len() as int,
            names.subrange(0, k),
            seq![],
            false,
            false,
            0,
        ),
    decreases k,
{
    let line = braced(names);
    if k == 0 {
        assert(names.subrange(0, 0) == Seq::<Seq<char>>::empty());
        assert(braced(names.subrange(0, 0)) == Seq::<char>::empty());
    } else {
        lemma_scan_braced(names, k - 1);
        lemma_braced_prefix(names, k);
        let prev = names.subrange(0, k - 1);
        let cur = names.subrange(0, k);
        assert(cur.drop_last() == prev);
        let a = names[k - 1];
        assert(cur.last() == a);
        let off = braced(prev).len() as int;
        let bk = braced(cur);
        assert(bk == braced(prev) + seq!['{'] + a + seq!['}']);
        assert(line.subrange(0, bk.len() as int) == bk);
        assert(line[off] == bk[off]);
        assert(line[off] == '{');
        assert(line.subrange(off + 1, off + 1 + a.len()) == bk.subrange(off + 1, off + 1 + a.len()));
        assert(bk.subrange(off + 1, off + 1 + a.len()) == a);
        assert(line[off + 1 + a.len()] == bk[off + 1 + a.len()]);
        assert(line[off + 1 + a.len()] == '}');
        assert(is_argument(a));
        assert(a.subrange(0, 0) == Seq::<char>::empty());
        lemma_scan_word(line, off + 1, a, prev, 0);
        assert(!prev.contains(a)) by {
            if prev.contains(a) {
                let i = choose|i: int| 0 <= i < prev.len() && prev[i] == a;
                assert(names[i] == names[k - 1]);
            }
        }
        assert(add_unique(prev, a) == cur);
    }
}

proof fn lemma_decimal_digits(n: nat)
    ensures
        decimal(n).len() > 0,
        all_digits(decimal(n)),
    decreases n,
{
    if n >= 10 {
        lemma_decimal_digits(n / 10);
        let d = decimal(n / 10);
        assert forall|i: int| 0 <= i < decimal(n).len() implies is_digit(#[trigger] decimal(n)[i]) by {
            if i < d.len() {
                assert(decimal(n)[i] == d[i]);
            }
        }
    }
}

proof fn lemma_scan_args_yields_arguments(
    line: Seq<char>,
    i: int,
    args: Seq<Seq<char>>,
    cur: Seq<char>,
    opened: bool,
    formatting: bool,
    counter: nat,
)
    requires
        args.no_duplicates(),
        forall|j: int| 0 <= j < args.len() ==> is_argument(#[trigger] args[j]),
        forall|j: int| 0 <= j < cur.len() ==> is_folded_char(#[trigger] cur[j]),
    ensures
        scan_args(line, i, args, cur, opened, formatting, counter) matches Ok(a) ==> (
        a.no_duplicates() && forall|j: int| 0 <= j < a.len() ==> is_argument(#[trigger] a[j])),
    decreases line.len() - i,
{
    if 0 <= i < line.len() {
        let c = line[i];
        if c == '{' {
            if !opened {
                lemma_scan_args_yields_arguments(line, i + 1, args, seq![], true, false, counter);
            }
        } else if c == '}' {
            if opened && !(cur.len() > 0 && !is_lower(cur[0]) && !all_digits(cur)) {
                let name = placeholder_name(cur, counter);
                lemma_decimal_digits(counter);
                if cur.len() == 0 {
                    assert forall|j: int| 0 <= j < name.len() implies is_folded_char(#[trigger] name[j]) by {
                        assert(is_digit(name[j]));
                    }
                }
                assert(is_argument(name));
                let next_args = add_unique(args, name);
                if !args.contains(name) {
                    assert forall|x: int, y: int| 0 <= x < y < next_args.len() implies next_args[x]
                        != next_args[y] by {
                        if y == args.len() {
                            assert(next_args[x] == args[x]);
                        }
                    }
                    assert forall|j: int| 0 <= j < next_args.len() implies is_argument(
                        #[trigger] next_args[j],
                    ) by {
                        if j < args.len() {
                            assert(next_args[j] == args[j]);
                        }
                    }
                }
                let next = if cur.len() == 0 { counter + 1 } else { counter };
                lemma_scan_args_yields_arguments(line, i + 1, next_args, seq![], false, false, next);
            }
        } else if c == ':' && opened {
            lemma_scan_args_yields_arguments(line, i + 1, args, cur, true, true, counter);
        } else if opened && !formatting {
            if is_name_char(c) {
                let n = cur.push(fold_char(c));
                assert forall|j: int| 0 <= j < n.len() implies is_folded_char(#[trigger] n[j]) by {
                    if j < cur.len() {
                        assert(n[j] == cur[j]);
                    }
                }
                lemma_scan_args_yields_arguments(line, i + 1, args, n, true, false, counter);
            }
        } else {
            lemma_scan_args_yields_arguments(line, i + 1, args, cur, opened, formatting, counter);
        }
    }
}

/// Extraction keeps the order of first appearance: a template that names
/// distinct valid arguments once each, in braces, gives exactly those
/// arguments in that order.
pub proof fn lemma_arguments_in_order(names: Seq<Seq<char>>)
    requires
        names.no_duplicates(),
        forall|i: int| 0 <= i < names.len() ==> is_argument(#[trigger] names[i]),
    ensures
        arguments_of(braced(names)) == Ok::<Seq<Seq<char>>, ParseErrorV>(names),
{
    lemma_scan_braced(names, names.len() as int);
    assert(names.subrange(0, names.len() as int) == names);
}

/// Extraction is idempotent: what it gives, written back as a template of
/// placeholders, gives the same arguments again.
pub proof fn lemma_arguments_idempotent(line: Seq<char>)
    requires
        arguments_of(line) is Ok,
    ensures
        arguments_of(braced(arguments_of(line)->Ok_0)) == arguments_of(line),
{
    lemma_scan_args_yields_arguments(line, 0, seq![], seq![], false, false, 0);
    lemma_arguments_in_order(arguments_of(line)->Ok_0);
}

fn contains_string(v: &Vec<String>, a: &String) -> (r: bool)
    ensures
        r == strings_view(v@).contains(a@),
{
    let mut i: usize = 0;
    while i < v.len()
        invariant
            i <= v@.len(),
            forall|j: int| 0 <= j < i ==> v@[j]@ != a@,
        decreases v@.len() - i,
    {
        if v[i] == *a {
            assert(strings_view(v@)[i as int] == a@);
            return true;
        }
        i += 1;
    }
    assert forall|j: int| 0 <= j < strings_view(v@).len() implies strings_view(v@)[j] != a@ by {
        assert(v@[j]@ != a@);
    }
    false
}

fn is_all_digits(cs: &Vec<char>) -> (r: bool)
    ensures
        r == all_digits(cs@),
{
    let mut i: usize = 0;
    while i < cs.len()
        invariant
            i <= cs@.len(),
            forall|j: int| 0 <= j < i ==> is_digit(#[trigger] cs@[j]),
        decreases cs@.len() - i,
    {
        if !('0' <= cs[i] && cs[i] <= '9') {
            return false;
        }
        i += 1;
    }
    true
}

/// The placeholders of a template, each once, in the order of first
/// appearance.
pub fn extract_arguments(line: &str) -> (r: Result<Vec<String>, ParseError>)
    ensures
        match arguments_of(line@) {
            Ok(a) => r is Ok && strings_view(r->Ok_0@) == a,
            Err(e) => r is Err && r->Err_0@ == e,
        },
{
    let cs = chars_of(line);
    let mut args: Vec<String> = Vec::new();
    let mut cur: Vec<char> = Vec::new();
    let mut opened = false;
    let mut formatting = false;
    let mut counter: usize = 0;
    let mut i: usize = 0;
    assert(strings_view(args@) =~= seq![]);
    assert(cur@ =~= seq![]);
    while i < cs.len()
        invariant
            cs@ == line@,
            i <= cs@.len(),
            counter <= i,
            arguments_of(line@) == scan_args(
                line@,
                i as int,
                strings_view(args@),
                cur@,
                opened,
                formatting,
                counter as nat,
            ),
        decreases cs@.len() - i,
    {
        let c = cs[i];
        if c == '{' {
            if opened {
                return Err(ParseError::NestedBrace);
            }
            opened = true;
            formatting = false;
            cur = Vec::new();
        } else if c == '}' {
            if !opened {
                return Err(ParseError::ExtraClosingBrace);
            }
            let name = if cur.len() == 0 {
                let n = decimal_string(counter);
                counter += 1;
                n
            } else {
                if !('a' <= cur[0] && cur[0] <= 'z') && !is_all_digits(&cur) {
                    return Err(ParseError::ArgBadStart(shorten(line), shorten_chars(&cur), c));
                }
                string_of(cur.as_slice())
            };
            if !contains_string(&args, &name) {
                let ghost before = args@;
                args.push(name);
                assert(strings_view(args@) =~= strings_view(before).push(name@));
            }
            cur = Vec::new();
            opened = false;
            formatting = false;
        } else if c == ':' && opened {
            formatting = true;
        } else if opened && !formatting {
            match validate_char(c) {
                Ok(f) => {
                    cur.push(f);
                },
                Err(_) => {
                    return Err(ParseError::ArgBadChar(shorten(line), shorten_chars(&cur), c));
                },
            }
        }
        i += 1;
    }
    if opened {
        return Err(ParseError::NestedBrace);
    }
    Ok(args)
}

fn shorten_chars(cs: &Vec<char>) -> (r: String)
    ensures
        r@ == shortened(cs@),
{
    let s = string_of(cs.as_slice());
    shorten(s.as_str())
}

/// A validated key: its arguments, its merged comment, and one template per
/// locale, in the order the locales were declared.
#[derive(Debug, PartialEq, Eq, Clone)]
pub struct Key {
    pub id: Name,
    pub arguments: Vec<String>,
    pub comment: Option<String>,
    pub entries: Vec<String>,
}

pub struct KeyV {
    pub id: Seq<char>,
    pub arguments: Seq<Seq<char>>,
    pub comment: Option<Seq<char>>,
    pub entries: Seq<Seq<char>>,
}

impl View for Key {
    type V = KeyV;

    open spec fn view(&self) -> KeyV {
        KeyV {
            id: self.id@,
            arguments: strings_view(self.arguments@),
            comment: opt_view(self.comment),
            entries: strings_view(self.entries@),
        }
    }
}

pub open spec fn keys_view(v: Seq<Key>) -> Seq<KeyV> {
    v.map_values(|k: Key| k@)
}

/// The first locale slot below `n`, from `x` on, that holds no entry.
pub open spec fn first_missing(entries: Seq<Option<EntryV>>, n: int, x: int) -> Option<int>
    decreases n - x,
{
    if x < 0 || x >= n {
        None
    } else if x >= entries.len() || entries[x] is None {
        Some(x)
    } else {
        first_missing(entries, n, x + 1)
    }
}

/// The line that cites a locale's comment in a key's merged comment.
pub open spec fn locale_note(locale: Seq<char>, c: Seq<char>) -> Seq<char> {
    seq!['-', ' ', '*'] + locale + seq!['*', ':', ' '] + c + seq!['\n']
}

pub open spec fn notes_header() -> Seq<char> {
    seq![' ', '#', ' ', 'L', 'o', 'c', 'a', 'l', 'e', ' ', 'n', 'o', 't', 'e', 's', '\n']
}

/// The notes of the first `n` locales whose entries carry a comment.
pub open spec fn notes(entries: Seq<Option<EntryV>>, locales: Seq<Seq<char>>, n: int) -> Seq<char>
    decreases n,
{
    if n <= 0 {
        seq![]
    } else {
        let prev = notes(entries, locales, n - 1);
        if n - 1 < entries.len() && entries[n - 1] is Some && entries[n - 1]->Some_0.comment is Some {
            prev + locale_note(locales[n - 1], entries[n - 1]->Some_0.comment->Some_0)
        } else {
            prev
        }
    }
}

/// The key's comment, followed by a block of per-locale notes when any entry
/// carries a comment.
pub open spec fn merged_comment(
    key_comment: Option<Seq<char>>,
    entries: Seq<Option<EntryV>>,
    locales: Seq<Seq<char>>,
) -> Option<Seq<char>> {
    let block = notes(entries, locales, locales.len() as int);
    if block.len() == 0 {
        key_comment
    } else {
        Some(
            match key_comment {
                Some(c) => c,
                None => seq![],
            } + notes_header() + block,
        )
    }
}

/// The first locale from `x` on whose template does not give `canonical`.
pub open spec fn first_mismatch(values: Seq<Seq<char>>, canonical: Seq<Seq<char>>, x: int) -> Option<
    int,
>
    decreases values.len() - x,
{
    if x < 0 || x >= values.len() {
        None
    } else if arguments_of(values[x]) != Ok::<Seq<Seq<char>>, ParseErrorV>(canonical) {
        Some(x)
    } else {
        first_mismatch(values, canonical, x + 1)
    }
}

/// The arguments of a key: those of the first locale's template, which every
/// other template must give too, in the same order.
pub open spec fn key_arguments(values: Seq<Seq<char>>, id: Seq<char>, locales: Seq<Seq<char>>) -> Result<
    Seq<Seq<char>>,
    ParseErrorV,
> {
    match arguments_of(values[0]) {
        Err(e) => Err(e),
        Ok(c) => match first_mismatch(values, c, 1) {
            None => Ok(c),
            Some(x) => match arguments_of(values[x]) {
                Err(e) => Err(e),
                Ok(a) => Err(ParseErrorV::ArgumentMismatch(id, locales[x], a, c)),
            },
        },
    }
}

/// The templates of the first `n` slots.
pub open spec fn values_of(entries: Seq<Option<EntryV>>, n: int) -> Seq<Seq<char>> {
    Seq::new(n as nat, |x: int| entries[x]->Some_0.value)
}

/// An assembled key checked against the declared locales.
pub open spec fn validate_key(k: TempKeyV, locales: Seq<Seq<char>>) -> Result<KeyV, ParseErrorV> {
    let n = locales.len() as int;
    if n == 0 {
        Err(ParseErrorV::NoLocales)
    } else {
        match first_missing(k.entries, n, 0) {
            Some(x) => Err(ParseErrorV::MissingLocale(shortened(k.id), locales[x])),
            None => {
                let values = values_of(k.entries, n);
                match key_arguments(values, k.id, locales) {
                    Err(e) => Err(e),
                    Ok(args) => Ok(
                        KeyV {
                            id: k.id,
                            arguments: args,
                            comment: merged_comment(k.comment, k.entries, locales),
                            entries: values,
                        },
                    ),
                }
            },
        }
    }
}

/// Every key checked, in order; the first failure wins.
pub open spec fn validate_keys(keys: Seq<TempKeyV>, locales: Seq<Seq<char>>) -> Result<
    Seq<KeyV>,
    ParseErrorV,
>
    decreases keys.len(),
{
    if keys.len() == 0 {
        Ok(seq![])
    } else {
        match validate_keys(keys.drop_last(), locales) {
            Err(e) => Err(e),
            Ok(ks) => match validate_key(keys.last(), locales) {
                Err(e) => Err(e),
                Ok(k) => Ok(ks.push(k)),
            },
        }
    }
}

fn append_chars(s: &mut String, cs: &[char])
    ensures
        final(s)@ == old(s)@ + cs@,
{
    let mut i: usize = 0;
    while i < cs.len()
        invariant
            i <= cs@.len(),
            s@ == old(s)@ + cs@.subrange(0, i as int),
        decreases cs@.len() - i,
    {
        push_char(s, cs[i]);
        i += 1;
        assert(s@ =~= old(s)@ + cs@.subrange(0, i as int));
    }
    assert(cs@.subrange(0, cs@.len() as int) =~= cs@);
}

fn append_str(s: &mut String, t: &str)
    ensures
        final(s)@ == old(s)@ + t@,
{
    let cs = chars_of(t);
    append_chars(s, cs.as_slice());
}

fn strings_equal(a: &Vec<String>, b: &Vec<String>) -> (r: bool)
    ensures
        r == (strings_view(a@) == strings_view(b@)),
{
    if a.len() != b.len() {
        assert(strings_view(a@).len() != strings_view(b@).len());
        return false;
    }
    let mut i: usize = 0;
    while i < a.len()
        invariant
            a@.len() == b@.len(),
            i <= a@.len(),
            forall|j: int| 0 <= j < i ==> a@[j]@ == b@[j]@,
        decreases a@.len() - i,
    {
        if a[i] != b[i] {
            assert(strings_view(a@)[i as int] != strings_view(b@)[i as int]);
            return false;
        }
        i += 1;
    }
    assert(strings_view(a@) =~= strings_view(b@));
    true
}

/// The arguments of a key: those of its first template, which every other
/// template must give too, in the same order.
pub fn get_arguments(entries: &Vec<String>, id: &Name, locales: &Vec<Name>) -> (r: Result<
    Vec<String>,
    ParseError,
>)
    requires
        entries@.len() > 0,
        entries@.len() <= locales@.len(),
    ensures
        match key_arguments(strings_view(entries@), id@, names_view(locales@)) {
            Ok(a) => r is Ok && strings_view(r->Ok_0@) == a,
            Err(e) => r is Err && r->Err_0@ == e,
        },
{
    let ghost values = strings_view(entries@);
    assert(values[0] == entries@[0]@);
    let canonical = match extract_arguments(entries[0].as_str()) {
        Ok(a) => a,
        Err(e) => return Err(e),
    };
    let ghost c = strings_view(canonical@);
    let mut x: usize = 1;
    while x < entries.len()
        invariant
            1 <= x <= entries@.len(),
            entries@.len() <= locales@.len(),
            values == strings_view(entries@),
            c == strings_view(canonical@),
            arguments_of(values[0]) == Ok::<Seq<Seq<char>>, ParseErrorV>(c),
            first_mismatch(values, c, 1) == first_mismatch(values, c, x as int),
        decreases entries@.len() - x,
    {
        assert(values[x as int] == entries@[x as int]@);
        let a = match extract_arguments(entries[x].as_str()) {
            Ok(a) => a,
            Err(e) => return Err(e),
        };
        if !strings_equal(&a, &canonical) {
            assert(names_view(locales@)[x as int] == locales@[x as int]@);
            return Err(ParseError::ArgumentMismatch(id.to_string(), locales[x].to_string(), a, canonical));
        }
        x += 1;
    }
    Ok(canonical)
}

/// The key's comment, followed by a block of per-locale notes when any entry
/// carries a comment.
pub fn get_comment(entries: &Vec<Option<Entry>>, key_comment: &Option<String>, locales: &Vec<Name>) -> (r:
    Option<String>)
    ensures
        opt_view(r) == merged_comment(opt_view(*key_comment), slots_view(entries@), names_view(locales@)),
{
    let ghost es = slots_view(entries@);
    let ghost ls = names_view(locales@);
    let mut block = String::new();
    let mut x: usize = 0;
    while x < locales.len()
        invariant
            x <= locales@.len(),
            es == slots_view(entries@),
            ls == names_view(locales@),
            block@ == notes(es, ls, x as int),
        decreases locales@.len() - x,
    {
        if x < entries.len() {
            assert(es[x as int] == slot_view(entries@[x as int]));
            match &entries[x] {
                Some(e) => match &e.comment {
                    Some(c) => {
                        assert(ls[x as int] == locales@[x as int]@);
                        append_chars(&mut block, &['-', ' ', '*']);
                        append_str(&mut block, locales[x].to_str());
                        append_chars(&mut block, &['*', ':', ' ']);
                        append_str(&mut block, c.as_str());
                        push_char(&mut block, '\n');
                        assert(block@ =~= notes(es, ls, x as int + 1));
                    },
                    None => {},
                },
                None => {},
            }
        }
        x += 1;
    }
    if block.as_str().is_empty() {
        return clone_opt(key_comment);
    }
    let mut out = match key_comment {
        Some(c) => c.clone(),
        None => String::new(),
    };
    append_chars(&mut out, &[' ', '#', ' ', 'L', 'o', 'c', 'a', 'l', 'e', ' ', 'n', 'o', 't', 'e', 's', '\n']);
    append_str(&mut out, block.as_str());
    Some(out)
}

impl TempKey {
    /// Checks the key against the declared locales.
    pub fn validate(&self, locales: &Vec<Name>) -> (r: Result<Key, ParseError>)
        ensures
            match validate_key(self@, names_view(locales@)) {
                Ok(k) => r is Ok && r->Ok_0@ == k,
                Err(e) => r is Err && r->Err_0@ == e,
            },
    {
        if locales.len() == 0 {
            return Err(ParseError::NoLocales);
        }
        let ghost es = slots_view(self.entries@);
        let ghost n = locales@.len() as int;
        let mut values: Vec<String> = Vec::new();
        let mut x: usize = 0;
        while x < locales.len()
            invariant
                x <= locales@.len(),
                n == locales@.len(),
                es == slots_view(self.entries@),
                first_missing(es, n, 0) == first_missing(es, n, x as int),
                strings_view(values@) == values_of(es, x as int),
            decreases locales@.len() - x,
        {
            if x >= self.entries.len() || self.entries[x].is_none() {
                assert(names_view(locales@)[x as int] == locales@[x as int]@);
                return Err(ParseError::MissingLocale(shorten(self.id.to_str()), locales[x].to_string()));
            }
            assert(es[x as int] == slot_view(self.entries@[x as int]));
            let ghost prev = values@;
            match &self.entries[x] {
                Some(e) => {
                    let v = e.value.clone();
                    assert(es[x as int]->Some_0.value == v@);
                    values.push(v);
                    assert(strings_view(values@) =~= strings_view(prev).push(v@));
                },
                None => {},
            }
            assert(strings_view(values@) =~= values_of(es, x as int + 1));
            x += 1;
        }
        let arguments = match get_arguments(&values, &self.id, locales) {
            Ok(a) => a,
            Err(e) => return Err(e),
        };
        let comment = get_comment(&self.entries, &self.comment, locales);
        Ok(Key { id: self.id.duplicate(), arguments, comment, entries: values })
    }
}

} // verus!
