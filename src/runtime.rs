//! Looking up and filling templates at run time: the current locale, and an
//! accessor's template with values in place of its placeholders.

use vstd::prelude::*;
use crate::config::{position, position_from};
use crate::emit::{parameter_of, Accessor, AccessorV, Artifact};
use crate::error::strings_view;
use crate::text::{
    chars_of, decimal_string, fold_char, is_digit, push_char, string_of, validate_char,
};
use crate::validate::placeholder_name;

verus! {

/// The value given for parameter `p`, or nothing when `p` is no parameter.
pub open spec fn value_for(params: Seq<Seq<char>>, values: Seq<Seq<char>>, p: Seq<char>) -> Seq<char> {
    match position(params, p) {
        Some(k) => if k < values.len() {
            values[k]
        } else {
            seq![]
        },
        None => seq![],
    }
}

/// The text of `t` from position `i`, each placeholder replaced by the value
/// of the parameter that fills it; `cur`, `opened`, `formatting` and
/// `counter` are as in extraction. A formatting suffix is dropped: the values
/// come formatted.
pub open spec fn render_from(
    t: Seq<char>,
    i: int,
    params: Seq<Seq<char>>,
    values: Seq<Seq<char>>,
    cur: Seq<char>,
    opened: bool,
    formatting: bool,
    counter: nat,
) -> Seq<char>
    decreases t.len() - i,
{
    if i < 0 || i >= t.len() {
        seq![]
    } else {
        let c = t[i];
        if !opened {
            if c == '{' {
                render_from(t, i + 1, params, values, seq![], true, false, counter)
            } else {
                seq![c] + render_from(t, i + 1, params, values, cur, false, false, counter)
            }
        } else if c == '}' {
            let name = placeholder_name(cur, counter);
            let next = if cur.len() == 0 { counter + 1 } else { counter };
            value_for(params, values, parameter_of(name)) + render_from(
                t,
                i + 1,
                params,
                values,
                seq![],
                false,
                false,
                next,
            )
        } else if c == ':' {
            render_from(t, i + 1, params, values, cur, true, true, counter)
        } else if formatting {
            render_from(t, i + 1, params, values, cur, true, true, counter)
        } else {
            render_from(t, i + 1, params, values, cur.push(fold_char(c)), true, false, counter)
        }
    }
}

/// The text of template `t` with the given values, one per parameter.
pub open spec fn render(t: Seq<char>, params: Seq<Seq<char>>, values: Seq<Seq<char>>) -> Seq<char> {
    render_from(t, 0, params, values, seq![], false, false, 0)
}

/// The parameters of an accessor, in the order its values are given: the
/// named ones, then the positional ones.
pub open spec fn parameters(a: AccessorV) -> Seq<Seq<char>> {
    a.named + a.positional
}

fn find_string(v: &Vec<String>, s: &Vec<char>) -> (r: Option<usize>)
    ensures
        r matches Some(k) ==> k < v@.len() && position(strings_view(v@), s@) == Some(k as int),
        r is None ==> position(strings_view(v@), s@) is None,
{
    let ghost sv = strings_view(v@);
    let target = string_of(s.as_slice());
    let mut k: usize = 0;
    while k < v.len()
        invariant
            k <= v@.len(),
            sv == strings_view(v@),
            target@ == s@,
            position(sv, s@) == position_from(sv, s@, k as int),
        decreases v@.len() - k,
    {
        assert(sv[k as int] == v@[k as int]@);
        if v[k] == target {
            return Some(k);
        }
        k += 1;
    }
    None
}

fn parameter_chars(a: &Vec<char>) -> (r: Vec<char>)
    ensures
        r@ == parameter_of(a@),
{
    let mut digits = true;
    let mut i: usize = 0;
    while i < a.len()
        invariant
            i <= a@.len(),
            digits == (forall|j: int| 0 <= j < i ==> is_digit(#[trigger] a@[j])),
        decreases a@.len() - i,
    {
        if !('0' <= a[i] && a[i] <= '9') {
            digits = false;
        }
        i += 1;
    }
    if !digits {
        return a.clone();
    }
    let mut out: Vec<char> = Vec::new();
    out.push('a');
    out.push('r');
    out.push('g');
    let mut j: usize = 0;
    while j < a.len()
        invariant
            j <= a@.len(),
            out@ == seq!['a', 'r', 'g'] + a@.subrange(0, j as int),
        decreases a@.len() - j,
    {
        out.push(a[j]);
        j += 1;
        assert(out@ =~= seq!['a', 'r', 'g'] + a@.subrange(0, j as int));
    }
    assert(a@.subrange(0, a@.len() as int) =~= a@);
    out
}

fn append_string(out: &mut String, s: &String)
    ensures
        final(out)@ == old(out)@ + s@,
{
    let cs = chars_of(s.as_str());
    let mut i: usize = 0;
    while i < cs.len()
        invariant
            i <= cs@.len(),
            cs@ == s@,
            out@ == old(out)@ + cs@.subrange(0, i as int),
        decreases cs@.len() - i,
    {
        push_char(out, cs[i]);
        i += 1;
        assert(out@ =~= old(out)@ + cs@.subrange(0, i as int));
    }
    assert(cs@.subrange(0, cs@.len() as int) =~= cs@);
}

impl Accessor {
    /// The accessor's parameters: the named ones, then the positional ones.
    pub fn parameters(&self) -> (r: Vec<String>)
        ensures
            strings_view(r@) == parameters(self@),
    {
        let mut r = self.named.clone();
        let mut p = self.positional.clone();
        assert(strings_view(r@) =~= strings_view(self.named@));
        assert(strings_view(p@) =~= strings_view(self.positional@));
        let ghost a = strings_view(r@);
        let ghost b = strings_view(p@);
        r.append(&mut p);
        assert(strings_view(r@) =~= a + b);
        r
    }

    /// The template of `locale` with `values` in place of the placeholders,
    /// one value per parameter, in the order of `parameters`.
    pub fn format(&self, locale: usize, values: &Vec<String>) -> (r: String)
        requires
            locale < self@.templates.len(),
        ensures
            r@ == render(self@.templates[locale as int], parameters(self@), strings_view(values@)),
    {
        let params = self.parameters();
        let ghost ps = strings_view(params@);
        let ghost vs = strings_view(values@);
        assert(self@.templates[locale as int] == self.templates@[locale as int]@);
        let t = chars_of(self.templates[locale].as_str());
        let mut out = String::new();
        let mut cur: Vec<char> = Vec::new();
        let mut opened = false;
        let mut formatting = false;
        let mut counter: usize = 0;
        let mut i: usize = 0;
        assert(cur@ =~= Seq::<char>::empty());
        while i < t.len()
            invariant
                i <= t@.len(),
                counter <= i,
                ps == strings_view(params@),
                vs == strings_view(values@),
                render(t@, ps, vs) == out@ + render_from(
                    t@,
                    i as int,
                    ps,
                    vs,
                    cur@,
                    opened,
                    formatting,
                    counter as nat,
                ),
            decreases t@.len() - i,
        {
            let c = t[i];
            let ghost before = out@;
            if !opened {
                if c == '{' {
                    opened = true;
                    formatting = false;
                    cur = Vec::new();
                    assert(cur@ =~= Seq::<char>::empty());
                } else {
                    push_char(&mut out, c);
                    assert(before + (seq![c] + render_from(t@, i + 1, ps, vs, cur@, false, false, counter as nat))
                        =~= out@ + render_from(t@, i + 1, ps, vs, cur@, false, false, counter as nat));
                }
            } else if c == '}' {
                let name = if cur.len() == 0 {
                    let n = decimal_string(counter);
                    counter += 1;
                    chars_of(n.as_str())
                } else {
                    cur.clone()
                };
                let ps_name = parameter_chars(&name);
                match find_string(&params, &ps_name) {
                    Some(k) => {
                        if k < values.len() {
                            assert(vs[k as int] == values@[k as int]@);
                            append_string(&mut out, &values[k]);
                        }
                    },
                    None => {},
                }
                cur = Vec::new();
                assert(cur@ =~= Seq::<char>::empty());
                opened = false;
                formatting = false;
                assert(out@ == before + value_for(ps, vs, ps_name@));
            } else if c == ':' {
                formatting = true;
            } else if !formatting {
                let f = match validate_char(c) {
                    Ok(f) => f,
                    Err(_) => c,
                };
                cur.push(f);
            }
            i += 1;
        }
        out
    }
}

pub open spec fn accessor_ids(v: Seq<AccessorV>) -> Seq<Seq<char>> {
    v.map_values(|a: AccessorV| a.id)
}

/// The text of key `key` in locale `locale` with `values`, when the key
/// exists and has that locale.
pub open spec fn text_of(art: crate::emit::ArtifactV, locale: int, key: Seq<char>, values: Seq<Seq<char>>) -> Option<
    Seq<char>,
> {
    match position(accessor_ids(art.accessors), key) {
        None => None,
        Some(p) => {
            let a = art.accessors[p];
            if 0 <= locale < a.templates.len() {
                Some(render(a.templates[locale], parameters(a), values))
            } else {
                None
            }
        },
    }
}

impl Artifact {
    /// The text of key `key` in locale `locale` (a position in the locale
    /// enumeration), with one value per parameter of the key's accessor.
    pub fn text(&self, locale: usize, key: &str, values: &Vec<String>) -> (r: Option<String>)
        ensures
            match text_of(self@, locale as int, key@, strings_view(values@)) {
                None => r is None,
                Some(t) => r is Some && r->Some_0@ == t,
            },
    {
        let ghost ids = accessor_ids(self@.accessors);
        let k = key.to_owned();
        let mut p: usize = 0;
        while p < self.accessors.len()
            invariant
                p <= self.accessors@.len(),
                k@ == key@,
                ids == accessor_ids(self@.accessors),
                position(ids, key@) == position_from(ids, key@, p as int),
            decreases self.accessors@.len() - p,
        {
            assert(ids[p as int] == self.accessors@[p as int]@.id);
            if self.accessors[p].id == k {
                let a = &self.accessors[p];
                assert(self@.accessors[p as int] == a@);
                if locale < a.templates.len() {
                    return Some(a.format(locale, values));
                }
                return None;
            }
            p += 1;
        }
        None
    }
}

/// The current locale, as a position in the locale enumeration; the first,
/// the default, to begin with.
pub struct LocaleContext {
    current: usize,
}

impl View for LocaleContext {
    type V = nat;

    closed spec fn view(&self) -> nat {
        self.current as nat
    }
}

impl LocaleContext {
    pub fn new() -> (r: Self)
        ensures
            r@ == 0,
    {
        LocaleContext { current: 0 }
    }

    /// The current locale.
    pub fn get(&self) -> (r: usize)
        ensures
            r == self@,
    {
        self.current
    }

    /// Makes `locale` the current locale.
    pub fn set(&mut self, locale: usize)
        ensures
            final(self)@ == locale,
    {
        self.current = locale;
    }
}

} // verus!
