//! The assembler: tokens of one or more sources in, keys with their
//! per-locale entries out.

use vstd::prelude::*;
use vstd::string::StringExecFns;
use crate::config::{config_step, position, position_from, ConfigV, Configuration};
use crate::error::{strings_view, Error, ErrorV, ParseError, ParseErrorV, ReadError};
use crate::name::{names_view, Name};
use crate::reader::{item_view, items_view, lex_from, tokenize, Token, TokenV};
use crate::validate::{keys_view, validate_keys, Key, KeyV};

verus! {

pub open spec fn opt_view(o: Option<String>) -> Option<Seq<char>> {
    match o {
        Some(s) => Some(s@),
        None => None,
    }
}

/// A value and its comment, as characters.
pub struct EntryV {
    pub value: Seq<char>,
    pub comment: Option<Seq<char>>,
}

/// A key while it is assembled, as values.
pub struct TempKeyV {
    pub id: Seq<char>,
    pub comment: Option<Seq<char>>,
    pub entries: Seq<Option<EntryV>>,
}

/// The assembler's state, as values.
pub struct ParserV {
    pub config: ConfigV,
    pub keys: Seq<TempKeyV>,
    pub comment: Option<Seq<char>>,
    pub consumed: Seq<Seq<char>>,
}

/// Two comments joined, the earlier first.
pub open spec fn join_comments(a: Option<Seq<char>>, b: Option<Seq<char>>) -> Option<Seq<char>> {
    match (a, b) {
        (None, None) => None,
        (None, Some(c)) => Some(c),
        (Some(c), None) => Some(c),
        (Some(c1), Some(c2)) => Some(c1 + c2),
    }
}

/// The first locale slot from `x` on that both `a` and `b` fill.
pub open spec fn first_overlap(a: Seq<Option<EntryV>>, b: Seq<Option<EntryV>>, x: int) -> Option<
    int,
>
    decreases b.len() - x,
{
    if x < 0 || x >= b.len() {
        None
    } else if b[x] is Some && x < a.len() && a[x] is Some {
        Some(x)
    } else {
        first_overlap(a, b, x + 1)
    }
}

/// The slots of `a` with those that `b` fills laid over them.
pub open spec fn merge_entries(a: Seq<Option<EntryV>>, b: Seq<Option<EntryV>>) -> Seq<
    Option<EntryV>,
> {
    Seq::new(
        if a.len() >= b.len() { a.len() } else { b.len() },
        |x: int|
            if x < b.len() && b[x] is Some {
                b[x]
            } else if x < a.len() {
                a[x]
            } else {
                None
            },
    )
}

pub open spec fn key_ids(keys: Seq<TempKeyV>) -> Seq<Seq<char>> {
    keys.map_values(|k: TempKeyV| k.id)
}

/// `key` added to `keys`: a new key at the end, or its entries laid into the
/// key of the same id, where filling a slot twice is refused.
pub open spec fn merge_key(keys: Seq<TempKeyV>, key: TempKeyV, locales: Seq<Seq<char>>) -> Result<
    Seq<TempKeyV>,
    ParseErrorV,
> {
    match position(key_ids(keys), key.id) {
        None => Ok(keys.push(key)),
        Some(p) => {
            let old = keys[p];
            match first_overlap(old.entries, key.entries, 0) {
                Some(x) => Err(ParseErrorV::DuplicateEntry(key.id, locales[x])),
                None => Ok(
                    keys.update(
                        p,
                        TempKeyV {
                            id: old.id,
                            comment: join_comments(old.comment, key.comment),
                            entries: merge_entries(old.entries, key.entries),
                        },
                    ),
                ),
            }
        },
    }
}

/// The locale and value pairs of key `id` from token `i`: `entries` filled so
/// far, whether a pair was read, and the slot of a locale read whose value is
/// still to come. Gives the state (its comment buffer), the slots, and the
/// position of the token that ends the key.
pub open spec fn scan_pairs(
    st: ParserV,
    id: Seq<char>,
    toks: Seq<Result<TokenV, ReadError>>,
    i: int,
    entries: Seq<Option<EntryV>>,
    did: bool,
    pending: Option<int>,
) -> Result<(ParserV, Seq<Option<EntryV>>, int), ErrorV>
    decreases toks.len() - i,
{
    if i < 0 || i >= toks.len() {
        if pending is Some {
            Err(ErrorV::Parse(ParseErrorV::ExpectedValue))
        } else if !did {
            Err(ErrorV::Parse(ParseErrorV::ExpectedLocale))
        } else {
            Ok((st, entries, i))
        }
    } else {
        match toks[i] {
            Err(e) => Err(ErrorV::Read(e)),
            Ok(TokenV::Comment(c)) => scan_pairs(
                ParserV { comment: Some(c), ..st },
                id,
                toks,
                i + 1,
                entries,
                did,
                pending,
            ),
            Ok(TokenV::Locale(l)) => if pending is None {
                match position(st.config.locales, l) {
                    None => if st.config.locales.len() == 0 {
                        Err(ErrorV::Parse(ParseErrorV::NoLocales))
                    } else {
                        Err(ErrorV::Parse(ParseErrorV::UndeclaredLocale(l)))
                    },
                    Some(p) => scan_pairs(st, id, toks, i + 1, entries, did, Some(p)),
                }
            } else {
                Err(ErrorV::Parse(ParseErrorV::UnexpectedToken(TokenV::Locale(l))))
            },
            Ok(TokenV::Key(k)) => if pending is None {
                if !did {
                    Err(ErrorV::Parse(ParseErrorV::ExpectedLocale))
                } else {
                    Ok((st, entries, i))
                }
            } else {
                Err(ErrorV::Parse(ParseErrorV::UnexpectedToken(TokenV::Key(k))))
            },
            Ok(TokenV::Value(v)) => if pending is Some {
                let p = pending->0;
                if 0 <= p < entries.len() && entries[p] is Some {
                    Err(ErrorV::Parse(ParseErrorV::DuplicateEntry(id, st.config.locales[p])))
                } else {
                    scan_pairs(
                        ParserV { comment: None, ..st },
                        id,
                        toks,
                        i + 1,
                        entries.update(p, Some(EntryV { value: v, comment: st.comment })),
                        true,
                        None,
                    )
                }
            } else {
                Err(ErrorV::Parse(ParseErrorV::UnexpectedToken(TokenV::Value(v))))
            },
            Ok(t) => Err(ErrorV::Parse(ParseErrorV::UnexpectedToken(t))),
        }
    }
}

/// Key `id`, whose token stands before position `i`: its pairs read, the key
/// merged into the state. Gives the state and the position after the key.
pub open spec fn key_step(st: ParserV, id: Seq<char>, toks: Seq<Result<TokenV, ReadError>>, i: int) -> Result<
    (ParserV, int),
    ErrorV,
> {
    let st0 = ParserV { comment: None, ..st };
    let empty = Seq::new(st.config.locales.len(), |x: int| None::<EntryV>);
    match scan_pairs(st0, id, toks, i, empty, false, None) {
        Err(e) => Err(e),
        Ok((st1, entries, j)) => match merge_key(
            st1.keys,
            TempKeyV { id, comment: st.comment, entries },
            st1.config.locales,
        ) {
            Err(e) => Err(ErrorV::Parse(e)),
            Ok(keys) => Ok((ParserV { keys, ..st1 }, j)),
        },
    }
}

/// The state after the tokens of `toks` from position `i`, or the first error.
pub open spec fn parse_from(st: ParserV, toks: Seq<Result<TokenV, ReadError>>, i: int) -> Result<
    ParserV,
    ErrorV,
>
    decreases toks.len() - i,
{
    if i < 0 || i >= toks.len() {
        Ok(st)
    } else {
        match toks[i] {
            Err(e) => Err(ErrorV::Read(e)),
            Ok(TokenV::Config(c)) => match config_step(st.config, c) {
                Ok(cfg) => parse_from(ParserV { config: cfg, comment: None, ..st }, toks, i + 1),
                Err(e) => Err(e),
            },
            Ok(TokenV::Comment(c)) => parse_from(ParserV { comment: Some(c), ..st }, toks, i + 1),
            Ok(TokenV::Key(id)) => match key_step(st, id, toks, i + 1) {
                Err(e) => Err(e),
                Ok((st1, j)) => if i < j <= toks.len() {
                    parse_from(st1, toks, j)
                } else {
                    Ok(st1)
                },
            },
            Ok(t) => Err(ErrorV::Parse(ParseErrorV::UnexpectedToken(t))),
        }
    }
}

/// The state after reading source `id` with text `text`; a source read
/// before is refused.
pub open spec fn source_step(st: ParserV, id: Seq<char>, text: Seq<char>) -> Result<ParserV, ErrorV> {
    if st.consumed.contains(id) {
        Err(ErrorV::Parse(ParseErrorV::Reincluded(id)))
    } else {
        parse_from(
            ParserV {
                config: ConfigV { source: id, ..st.config },
                consumed: st.consumed.push(id),
                ..st
            },
            lex_from(text, 0),
            0,
        )
    }
}

proof fn lemma_scan_pairs_end(
    st: ParserV,
    id: Seq<char>,
    toks: Seq<Result<TokenV, ReadError>>,
    i: int,
    entries: Seq<Option<EntryV>>,
    did: bool,
    pending: Option<int>,
)
    requires
        0 <= i <= toks.len(),
    ensures
        scan_pairs(st, id, toks, i, entries, did, pending) matches Ok((s, e, j)) ==> i <= j
            <= toks.len() && s.config == st.config && s.keys == st.keys && s.consumed
            == st.consumed,
    decreases toks.len() - i,
{
    if i < toks.len() {
        match toks[i] {
            Ok(TokenV::Comment(c)) => lemma_scan_pairs_end(
                ParserV { comment: Some(c), ..st },
                id,
                toks,
                i + 1,
                entries,
                did,
                pending,
            ),
            Ok(TokenV::Locale(l)) => if pending is None {
                if let Some(p) = position(st.config.locales, l) {
                    lemma_scan_pairs_end(st, id, toks, i + 1, entries, did, Some(p));
                }
            },
            Ok(TokenV::Value(v)) => if pending is Some {
                let p = pending->0;
                lemma_scan_pairs_end(
                    ParserV { comment: None, ..st },
                    id,
                    toks,
                    i + 1,
                    entries.update(p, Some(EntryV { value: v, comment: st.comment })),
                    true,
                    None,
                );
            },
            _ => {},
        }
    }
}

/// Reading a source leaves the record of sources read as it was.
pub proof fn lemma_parse_keeps_consumed(
    st: ParserV,
    toks: Seq<Result<TokenV, ReadError>>,
    i: int,
)
    requires
        0 <= i <= toks.len(),
    ensures
        parse_from(st, toks, i) matches Ok(s) ==> s.consumed == st.consumed,
    decreases toks.len() - i,
{
    if i < toks.len() {
        match toks[i] {
            Ok(TokenV::Config(c)) => {
                if let Ok(cfg) = config_step(st.config, c) {
                    lemma_parse_keeps_consumed(
                        ParserV { config: cfg, comment: None, ..st },
                        toks,
                        i + 1,
                    );
                }
            },
            Ok(TokenV::Comment(c)) => {
                lemma_parse_keeps_consumed(ParserV { comment: Some(c), ..st }, toks, i + 1);
            },
            Ok(TokenV::Key(id)) => {
                let st0 = ParserV { comment: None, ..st };
                let empty = Seq::new(st.config.locales.len(), |x: int| None::<EntryV>);
                lemma_scan_pairs_end(st0, id, toks, i + 1, empty, false, None);
                if let Ok((st1, j)) = key_step(st, id, toks, i + 1) {
                    if i < j <= toks.len() {
                        lemma_parse_keeps_consumed(st1, toks, j);
                    }
                }
            },
            _ => {},
        }
    }
}

proof fn lemma_first_overlap(a: Seq<Option<EntryV>>, b: Seq<Option<EntryV>>, x: int)
    requires
        0 <= x,
    ensures
        first_overlap(a, b, x) is None <==> forall|y: int|
            x <= y < b.len() && y < a.len() ==> !(#[trigger] b[y] is Some && a[y] is Some),
        first_overlap(a, b, x) matches Some(y) ==> x <= y < b.len() && y < a.len() && b[y] is Some
            && a[y] is Some,
    decreases b.len() - x,
{
    if x < b.len() {
        lemma_first_overlap(a, b, x + 1);
    }
}

/// A key may have its locales split over two declarations, as over two
/// sources: when no locale slot is filled by both, the later declaration is
/// merged into the earlier one, every slot it fills taken over and every
/// other slot kept; when some slot is filled by both, the merge is refused
/// as a duplicate entry for the key at such a slot.
pub proof fn lemma_merge_split_key(
    keys: Seq<TempKeyV>,
    key: TempKeyV,
    locales: Seq<Seq<char>>,
    p: int,
)
    requires
        0 <= p < keys.len(),
        keys[p].id == key.id,
        forall|q: int| 0 <= q < p ==> keys[q].id != key.id,
    ensures
        (forall|y: int|
            0 <= y < key.entries.len() && y < keys[p].entries.len() ==> !(
            #[trigger] key.entries[y] is Some && keys[p].entries[y] is Some)) ==> (merge_key(
            keys,
            key,
            locales,
        ) matches Ok(ks) && ks.len() == keys.len() && ks[p].id == key.id && (forall|y: int|
            0 <= y < key.entries.len() && #[trigger] key.entries[y] is Some ==> ks[p].entries[y]
                == key.entries[y]) && (forall|y: int|
            0 <= y < keys[p].entries.len() && #[trigger] keys[p].entries[y] is Some
                ==> ks[p].entries[y] == keys[p].entries[y])),
        (exists|y: int|
            0 <= y < key.entries.len() && y < keys[p].entries.len() && #[trigger] key.entries[y] is Some
                && keys[p].entries[y] is Some) ==> (merge_key(keys, key, locales) matches Err(e)
            && exists|y: int|
            0 <= y < key.entries.len() && y < keys[p].entries.len() && #[trigger] key.entries[y] is Some
                && keys[p].entries[y] is Some && e == ParseErrorV::DuplicateEntry(key.id, locales[y])),
{
    let ids = key_ids(keys);
    assert forall|q: int| 0 <= q < p implies ids[q] != key.id by {
        assert(ids[q] == keys[q].id);
    }
    assert(ids[p] == key.id);
    lemma_position_at(ids, key.id, 0, p);
    lemma_first_overlap(keys[p].entries, key.entries, 0);
}

proof fn lemma_position_at(s: Seq<Seq<char>>, x: Seq<char>, i: int, p: int)
    requires
        0 <= i <= p < s.len(),
        s[p] == x,
        forall|q: int| i <= q < p ==> s[q] != x,
    ensures
        position_from(s, x, i) == Some(p),
    decreases p - i,
{
    if i < p {
        lemma_position_at(s, x, i + 1, p);
    }
}

/// Validation at the end of assembly: no locale declared is an error, else
/// every key is checked, in order.
pub open spec fn collect_spec(st: ParserV) -> Result<(Seq<Seq<char>>, Seq<KeyV>), ErrorV> {
    if st.config.locales.len() == 0 {
        Err(ErrorV::Parse(ParseErrorV::NoLocales))
    } else {
        match validate_keys(st.keys, st.config.locales) {
            Err(e) => Err(ErrorV::Parse(e)),
            Ok(ks) => Ok((st.config.locales, ks)),
        }
    }
}

proof fn lemma_validate_keys_err_prefix(keys: Seq<TempKeyV>, locales: Seq<Seq<char>>, k: int)
    requires
        0 <= k <= keys.len(),
        validate_keys(keys.subrange(0, k), locales) is Err,
    ensures
        validate_keys(keys, locales) == validate_keys(keys.subrange(0, k), locales),
    decreases keys.len(),
{
    if k < keys.len() {
        assert(keys.drop_last().subrange(0, k) == keys.subrange(0, k));
        lemma_validate_keys_err_prefix(keys.drop_last(), locales, k);
    } else {
        assert(keys.subrange(0, k) == keys);
    }
}

/// What assembly and validation give: the locales, in order, and the keys.
#[derive(Debug, PartialEq, Eq, Clone)]
pub struct ParsedData {
    pub locales: Vec<Name>,
    pub keys: Vec<Key>,
}

pub fn clone_opt(o: &Option<String>) -> (r: Option<String>)
    ensures
        opt_view(r) == opt_view(*o),
{
    match o {
        Some(s) => Some(s.clone()),
        None => None,
    }
}

/// A value and the comment given with it.
#[derive(Debug, Default, Clone, PartialEq, Eq)]
pub struct Entry {
    pub value: String,
    pub comment: Option<String>,
}

impl View for Entry {
    type V = EntryV;

    open spec fn view(&self) -> EntryV {
        EntryV { value: self.value@, comment: opt_view(self.comment) }
    }
}

pub open spec fn slot_view(e: Option<Entry>) -> Option<EntryV> {
    match e {
        Some(x) => Some(x@),
        None => None,
    }
}

pub open spec fn slots_view(v: Seq<Option<Entry>>) -> Seq<Option<EntryV>> {
    v.map_values(|e: Option<Entry>| slot_view(e))
}

fn clone_slot(e: &Option<Entry>) -> (r: Option<Entry>)
    ensures
        slot_view(r) == slot_view(*e),
{
    match e {
        Some(x) => Some(Entry { value: x.value.clone(), comment: clone_opt(&x.comment) }),
        None => None,
    }
}

/// A key while it is assembled: one slot per locale declared so far.
#[derive(Debug, PartialEq, Eq)]
pub struct TempKey {
    pub id: Name,
    pub comment: Option<String>,
    pub entries: Vec<Option<Entry>>,
}

impl View for TempKey {
    type V = TempKeyV;

    open spec fn view(&self) -> TempKeyV {
        TempKeyV { id: self.id@, comment: opt_view(self.comment), entries: slots_view(self.entries@) }
    }
}

pub open spec fn temp_keys_view(v: Seq<TempKey>) -> Seq<TempKeyV> {
    v.map_values(|k: TempKey| k@)
}

pub open spec fn pending_view(p: Option<usize>) -> Option<int> {
    match p {
        Some(x) => Some(x as int),
        None => None,
    }
}

/// Assembles the tokens of one or more sources.
pub struct Parser {
    config: Configuration,
    keys: Vec<TempKey>,
    comment: Option<String>,
    consumed: Vec<String>,
}

impl View for Parser {
    type V = ParserV;

    closed spec fn view(&self) -> ParserV {
        ParserV {
            config: self.config@,
            keys: temp_keys_view(self.keys@),
            comment: opt_view(self.comment),
            consumed: strings_view(self.consumed@),
        }
    }
}

impl Parser {
    /// No locales, no keys, no source read.
    pub fn new() -> (r: Self)
        ensures
            r@.config.locales.len() == 0,
            r@.config.source.len() == 0,
            r@.config.queue.len() == 0,
            r@.keys.len() == 0,
            r@.comment is None,
            r@.consumed.len() == 0,
    {
        let r = Parser {
            config: Configuration::new(),
            keys: Vec::new(),
            comment: None,
            consumed: Vec::new(),
        };
        assert(temp_keys_view(r.keys@).len() == 0);
        assert(strings_view(r.consumed@).len() == 0);
        r
    }

    fn add_key(&mut self, key: TempKey) -> (r: Result<(), ParseError>)
        requires
            key@.entries.len() <= old(self)@.config.locales.len(),
        ensures
            final(self)@.config == old(self)@.config,
            final(self)@.comment == old(self)@.comment,
            final(self)@.consumed == old(self)@.consumed,
            match merge_key(old(self)@.keys, key@, old(self)@.config.locales) {
                Ok(k) => r is Ok && final(self)@.keys == k,
                Err(e) => r is Err && r->Err_0@ == e,
            },
    {
        let ghost ids = key_ids(self@.keys);
        let mut p: usize = 0;
        while p < self.keys.len() && !self.keys[p].id.same(&key.id)
            invariant
                p <= self.keys@.len(),
                ids == key_ids(self@.keys),
                self@ == old(self)@,
                position(ids, key@.id) == position_from(ids, key@.id, p as int),
            decreases self.keys@.len() - p,
        {
            assert(ids[p as int] == self.keys@[p as int]@.id);
            p += 1;
        }
        if p == self.keys.len() {
            let ghost prev = self.keys@;
            let ghost kv = key@;
            self.keys.push(key);
            assert(temp_keys_view(self.keys@) =~= temp_keys_view(prev).push(kv));
            return Ok(());
        }
        assert(ids[p as int] == self.keys@[p as int]@.id);
        assert(position(ids, key@.id) == Some(p as int));
        let ghost a = self.keys@[p as int]@.entries;
        let ghost b = key@.entries;
        let old_len = self.keys[p].entries.len();
        let mut x: usize = 0;
        while x < key.entries.len()
            invariant
                x <= b.len(),
                b == key@.entries,
                a == self.keys@[p as int]@.entries,
                old_len == a.len(),
                p < self.keys@.len(),
                self@ == old(self)@,
                position(key_ids(old(self)@.keys), key@.id) == Some(p as int),
                b.len() <= self@.config.locales.len(),
                first_overlap(a, b, 0) == first_overlap(a, b, x as int),
            decreases b.len() - x,
        {
            assert(b[x as int] == slot_view(key.entries@[x as int]));
            if key.entries[x].is_some() && x < old_len && self.keys[p].entries[x].is_some() {
                assert(a[x as int] == slot_view(self.keys@[p as int].entries@[x as int]));
                assert(self@.config.locales[x as int] == self.config.locales@[x as int]@);
                return Err(
                    ParseError::DuplicateEntry(key.id.to_string(), self.config.locales[x].to_string()),
                );
            }
            x += 1;
        }
        let m = if old_len >= key.entries.len() { old_len } else { key.entries.len() };
        let mut merged: Vec<Option<Entry>> = Vec::new();
        let mut y: usize = 0;
        while y < m
            invariant
                y <= m,
                b == key@.entries,
                a == self.keys@[p as int]@.entries,
                old_len == a.len(),
                p < self.keys@.len(),
                self@ == old(self)@,
                position(key_ids(old(self)@.keys), key@.id) == Some(p as int),
                m == (if a.len() >= b.len() { a.len() } else { b.len() }),
                slots_view(merged@) == merge_entries(a, b).subrange(0, y as int),
            decreases m - y,
        {
            let ghost prev = merged@;
            let e = if y < key.entries.len() && key.entries[y].is_some() {
                assert(b[y as int] == slot_view(key.entries@[y as int]));
                clone_slot(&key.entries[y])
            } else if y < old_len {
                assert(b.len() <= y || b[y as int] == slot_view(key.entries@[y as int]));
                assert(a[y as int] == slot_view(self.keys@[p as int].entries@[y as int]));
                clone_slot(&self.keys[p].entries[y])
            } else {
                None
            };
            merged.push(e);
            assert(slots_view(merged@) =~= slots_view(prev).push(slot_view(e)));
            y += 1;
            assert(slots_view(merged@) =~= merge_entries(a, b).subrange(0, y as int));
        }
        assert(merge_entries(a, b).subrange(0, m as int) =~= merge_entries(a, b));
        let comment = match (&self.keys[p].comment, &key.comment) {
            (None, None) => None,
            (None, Some(c)) => Some(c.clone()),
            (Some(c), None) => Some(c.clone()),
            (Some(c1), Some(c2)) => Some(c1.clone().concat(c2.as_str())),
        };
        let merged_key = TempKey { id: self.keys[p].id.duplicate(), comment, entries: merged };
        let ghost prev = self.keys@;
        self.keys.set(p, merged_key);
        assert(temp_keys_view(self.keys@) =~= temp_keys_view(prev).update(p as int, merged_key@));
        Ok(())
    }

    fn parse_key(&mut self, id: Name, tokens: &Vec<Result<Token, ReadError>>, start: usize) -> (r:
        Result<usize, Error>)
        requires
            start <= tokens@.len(),
        ensures
            match key_step(old(self)@, id@, items_view(tokens@), start as int) {
                Ok((st, j)) => r is Ok && r->Ok_0 == j && final(self)@ == st,
                Err(e) => r is Err && r->Err_0@ == e,
            },
    {
        let ghost toks = items_view(tokens@);
        let ghost st = self@;
        let mut key_comment: Option<String> = None;
        std::mem::swap(&mut key_comment, &mut self.comment);
        let n = self.config.locale_count();
        let mut entries: Vec<Option<Entry>> = Vec::new();
        while entries.len() < n
            invariant
                entries@.len() <= n,
                slots_view(entries@) == Seq::new(entries@.len(), |x: int| None::<EntryV>),
            decreases n - entries@.len(),
        {
            let ghost prev = entries@;
            entries.push(None);
            assert(slots_view(entries@) =~= slots_view(prev).push(None::<EntryV>));
            assert(slots_view(entries@) =~= Seq::new(entries@.len(), |x: int| None::<EntryV>));
        }
        let ghost st0 = self@;
        let ghost empty = Seq::new(st.config.locales.len(), |x: int| None::<EntryV>);
        assert(st0 == ParserV { comment: None, ..st });
        assert(slots_view(entries@) == empty);
        let mut did = false;
        let mut pending: Option<usize> = None;
        let mut j = start;
        let mut done = false;
        while !done && j < tokens.len()
            invariant
                start <= j <= tokens@.len(),
                toks == items_view(tokens@),
                st == old(self)@,
                empty == Seq::new(st.config.locales.len(), |x: int| None::<EntryV>),
                entries@.len() == n,
                n == st.config.locales.len(),
                opt_view(key_comment) == st.comment,
                self@ == (ParserV { comment: self@.comment, ..st0 }),
                st0 == (ParserV { comment: None, ..st }),
                pending matches Some(p) ==> p < n,
                done ==> did && pending is None,
                scan_pairs(st0, id@, toks, start as int, empty, false, None) == (if done {
                    Ok((self@, slots_view(entries@), j as int))
                } else {
                    scan_pairs(self@, id@, toks, j as int, slots_view(entries@), did, pending_view(pending))
                }),
            decreases tokens@.len() - j + (if done { 0int } else { 1int }),
        {
            assert(toks[j as int] == item_view(tokens@[j as int]));
            match &tokens[j] {
                Err(e) => {
                    return Err(Error::Read(*e));
                },
                Ok(Token::Comment(c)) => {
                    self.comment = Some(c.clone());
                    j += 1;
                },
                Ok(Token::Locale(l)) => {
                    if pending.is_some() {
                        return Err(Error::Parse(ParseError::UnexpectedToken(Token::Locale(l.duplicate()))));
                    }
                    match self.config.find_locale(l) {
                        None => {
                            if n == 0 {
                                return Err(Error::Parse(ParseError::NoLocales));
                            }
                            return Err(Error::Parse(ParseError::UndeclaredLocale(l.to_string())));
                        },
                        Some(p) => {
                            pending = Some(p);
                            j += 1;
                        },
                    }
                },
                Ok(Token::Key(k)) => {
                    if pending.is_some() {
                        return Err(Error::Parse(ParseError::UnexpectedToken(Token::Key(k.duplicate()))));
                    }
                    if !did {
                        return Err(Error::Parse(ParseError::ExpectedLocale));
                    }
                    done = true;
                },
                Ok(Token::Value(v)) => {
                    match pending {
                        None => {
                            return Err(Error::Parse(ParseError::UnexpectedToken(Token::Value(v.clone()))));
                        },
                        Some(p) => {
                            assert(slots_view(entries@)[p as int] == slot_view(entries@[p as int]));
                            if entries[p].is_some() {
                                assert(self@.config.locales[p as int] == self.config.locales@[p as int]@);
                                return Err(
                                    Error::Parse(
                                        ParseError::DuplicateEntry(
                                            id.to_string(),
                                            self.config.locales[p].to_string(),
                                        ),
                                    ),
                                );
                            }
                            let mut c: Option<String> = None;
                            std::mem::swap(&mut c, &mut self.comment);
                            let e = Entry { value: v.clone(), comment: c };
                            let ghost prev = entries@;
                            entries.set(p, Some(e));
                            assert(slots_view(entries@) =~= slots_view(prev).update(
                                p as int,
                                Some(e@),
                            ));
                            did = true;
                            pending = None;
                            j += 1;
                        },
                    }
                },
                Ok(Token::Config(c)) => {
                    return Err(Error::Parse(ParseError::UnexpectedToken(Token::Config(c.clone()))));
                },
            }
        }
        if !done {
            if pending.is_some() {
                return Err(Error::Parse(ParseError::ExpectedValue));
            }
            if !did {
                return Err(Error::Parse(ParseError::ExpectedLocale));
            }
        }
        let key = TempKey { id, comment: key_comment, entries };
        assert(key@ == TempKeyV { id: id@, comment: st.comment, entries: slots_view(entries@) });
        match self.add_key(key) {
            Ok(()) => Ok(j),
            Err(e) => Err(Error::Parse(e)),
        }
    }

    /// Assembles the tokens of one source, up to the first error.
    pub fn parse(&mut self, tokens: Vec<Result<Token, ReadError>>) -> (r: Result<(), Error>)
        ensures
            match parse_from(old(self)@, items_view(tokens@), 0) {
                Ok(st) => r is Ok && final(self)@ == st,
                Err(e) => r is Err && r->Err_0@ == e,
            },
    {
        let ghost toks = items_view(tokens@);
        let mut i: usize = 0;
        while i < tokens.len()
            invariant
                i <= tokens@.len(),
                toks == items_view(tokens@),
                parse_from(old(self)@, toks, 0) == parse_from(self@, toks, i as int),
            decreases tokens@.len() - i,
        {
            assert(toks[i as int] == item_view(tokens@[i as int]));
            match &tokens[i] {
                Err(e) => {
                    return Err(Error::Read(*e));
                },
                Ok(Token::Config(c)) => {
                    match self.config.parse_config(c.as_str()) {
                        Ok(()) => {},
                        Err(e) => {
                            return Err(e);
                        },
                    }
                    self.comment = None;
                    i += 1;
                },
                Ok(Token::Comment(c)) => {
                    self.comment = Some(c.clone());
                    i += 1;
                },
                Ok(Token::Key(id)) => {
                    proof {
                        let st0 = ParserV { comment: None, ..self@ };
                        let empty = Seq::new(self@.config.locales.len(), |x: int| None::<EntryV>);
                        lemma_scan_pairs_end(st0, id@, toks, i + 1, empty, false, None);
                    }
                    match self.parse_key(id.duplicate(), &tokens, i + 1) {
                        Ok(j) => {
                            i = j;
                        },
                        Err(e) => {
                            return Err(e);
                        },
                    }
                },
                Ok(t) => {
                    return Err(Error::Parse(ParseError::UnexpectedToken(t.duplicate())));
                },
            }
        }
        Ok(())
    }

    /// Lexes and assembles the source `id`, whose text is `text`. A source
    /// read before is refused.
    pub fn add_source(&mut self, id: &str, text: &str) -> (r: Result<(), Error>)
        ensures
            match source_step(old(self)@, id@, text@) {
                Ok(st) => r is Ok && final(self)@ == st,
                Err(e) => r is Err && r->Err_0@ == e,
            },
    {
        let owned = id.to_owned();
        let mut k: usize = 0;
        while k < self.consumed.len()
            invariant
                k <= self.consumed@.len(),
                owned@ == id@,
                self@ == old(self)@,
                forall|x: int| 0 <= x < k ==> self@.consumed[x] != id@,
            decreases self.consumed@.len() - k,
        {
            assert(self@.consumed[k as int] == self.consumed@[k as int]@);
            if self.consumed[k] == owned {
                return Err(Error::Parse(ParseError::Reincluded(owned)));
            }
            k += 1;
        }
        proof {
            if self@.consumed.contains(id@) {
                let x = choose|x: int| 0 <= x < self@.consumed.len() && self@.consumed[x] == id@;
                assert(self@.consumed[x] != id@);
            }
        }
        let ghost prev = self.consumed@;
        self.consumed.push(owned.clone());
        assert(strings_view(self.consumed@) =~= strings_view(prev).push(id@));
        self.config.source = owned;
        let tokens = tokenize(text);
        self.parse(tokens)
    }

    /// The source being read, or read last.
    pub fn source(&self) -> (r: String)
        ensures
            r@ == self@.config.source,
    {
        self.config.source.clone()
    }

    /// Validates what was assembled.
    pub fn collect(self) -> (r: Result<ParsedData, Error>)
        ensures
            match collect_spec(self@) {
                Ok((l, ks)) => r is Ok && names_view(r->Ok_0.locales@) == l && keys_view(
                    r->Ok_0.keys@,
                ) == ks,
                Err(e) => r is Err && r->Err_0@ == e,
            },
    {
        if self.config.locales.len() == 0 {
            return Err(Error::Parse(ParseError::NoLocales));
        }
        let ghost ks = self@.keys;
        let ghost ls = self@.config.locales;
        let mut out: Vec<Key> = Vec::new();
        let mut i: usize = 0;
        assert(ks.subrange(0, 0) =~= Seq::<TempKeyV>::empty());
        assert(keys_view(out@) =~= Seq::<KeyV>::empty());
        while i < self.keys.len()
            invariant
                i <= self.keys@.len(),
                ks == temp_keys_view(self.keys@),
                ls == names_view(self.config.locales@),
                ls.len() > 0,
                validate_keys(ks.subrange(0, i as int), ls) == Ok::<Seq<KeyV>, ParseErrorV>(
                    keys_view(out@),
                ),
            decreases self.keys@.len() - i,
        {
            assert(ks.subrange(0, i + 1).drop_last() == ks.subrange(0, i as int));
            assert(ks[i as int] == self.keys@[i as int]@);
            match self.keys[i].validate(&self.config.locales) {
                Ok(k) => {
                    let ghost prev = out@;
                    out.push(k);
                    assert(keys_view(out@) =~= keys_view(prev).push(k@));
                },
                Err(e) => {
                    proof {
                        lemma_validate_keys_err_prefix(ks, ls, i + 1);
                    }
                    return Err(Error::Parse(e));
                },
            }
            i += 1;
        }
        assert(ks.subrange(0, self.keys@.len() as int) == ks);
        Ok(ParsedData { locales: self.config.locales, keys: out })
    }

    /// Takes the next queued source, if any.
    pub fn next_source(&mut self) -> (r: Option<String>)
        ensures
            final(self)@.keys == old(self)@.keys,
            final(self)@.config.locales == old(self)@.config.locales,
            old(self)@.config.queue.len() == 0 ==> r is None && final(self)@ == old(self)@,
            old(self)@.config.queue.len() > 0 ==> r is Some && r->Some_0@
                == old(self)@.config.queue[0] && final(self)@ == (ParserV {
                config: (ConfigV { queue: old(self)@.config.queue.drop_first(), ..old(self)@.config }),
                ..old(self)@
            }),
    {
        self.config.next_source()
    }
}

} // verus!