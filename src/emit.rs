//! The emitter: validated keys in, a description of the accessors out, one
//! per key, each dispatching on the locale.

use vstd::prelude::*;
use crate::error::strings_view;
use crate::name::{names_view, variant_name_of, Name};
use crate::parser::{clone_opt, opt_view};
use crate::text::{chars_of, push_char, string_of};
use crate::validate::{all_digits, keys_view, Key, KeyV};

verus! {

/// The parameter that fills placeholder `a`: positional ones are renamed
/// `arg<N>`, named ones keep their name.
pub open spec fn parameter_of(a: Seq<char>) -> Seq<char> {
    if all_digits(a) {
        seq!['a', 'r', 'g'] + a
    } else {
        a
    }
}

/// The named arguments, in order.
pub open spec fn named_of(args: Seq<Seq<char>>) -> Seq<Seq<char>>
    decreases args.len(),
{
    if args.len() == 0 {
        seq![]
    } else if all_digits(args.last()) {
        named_of(args.drop_last())
    } else {
        named_of(args.drop_last()).push(args.last())
    }
}

/// The positional arguments, in order, as parameters.
pub open spec fn positional_of(args: Seq<Seq<char>>) -> Seq<Seq<char>>
    decreases args.len(),
{
    if args.len() == 0 {
        seq![]
    } else if all_digits(args.last()) {
        positional_of(args.drop_last()).push(parameter_of(args.last()))
    } else {
        positional_of(args.drop_last())
    }
}

/// A locale of the enumeration: its name and its variant identifier.
#[derive(Debug, PartialEq, Eq, Clone)]
pub struct LocaleVariant {
    pub name: Name,
    pub variant: String,
}

/// Which parameter fills which placeholder.
#[derive(Debug, PartialEq, Eq, Clone)]
pub struct Binding {
    pub placeholder: String,
    pub parameter: String,
}

/// How to build the accessor of one key.
#[derive(Debug, PartialEq, Eq, Clone)]
pub struct Accessor {
    pub id: String,
    pub comment: Option<String>,
    /// Parameters passed by name, in the order of the arguments.
    pub named: Vec<String>,
    /// Parameters passed by position, in the order of the arguments.
    pub positional: Vec<String>,
    /// For each argument, in order, the parameter that fills it.
    pub bindings: Vec<Binding>,
    /// One template per locale.
    pub templates: Vec<String>,
}

/// The emitted description: the locales (the first is the default) and one
/// accessor per key.
#[derive(Debug, PartialEq, Eq, Clone)]
pub struct Artifact {
    pub locales: Vec<LocaleVariant>,
    pub accessors: Vec<Accessor>,
}

pub struct AccessorV {
    pub id: Seq<char>,
    pub comment: Option<Seq<char>>,
    pub named: Seq<Seq<char>>,
    pub positional: Seq<Seq<char>>,
    pub bindings: Seq<(Seq<char>, Seq<char>)>,
    pub templates: Seq<Seq<char>>,
}

pub open spec fn bindings_view(v: Seq<Binding>) -> Seq<(Seq<char>, Seq<char>)> {
    v.map_values(|b: Binding| (b.placeholder@, b.parameter@))
}

impl View for Accessor {
    type V = AccessorV;

    open spec fn view(&self) -> AccessorV {
        AccessorV {
            id: self.id@,
            comment: opt_view(self.comment),
            named: strings_view(self.named@),
            positional: strings_view(self.positional@),
            bindings: bindings_view(self.bindings@),
            templates: strings_view(self.templates@),
        }
    }
}

pub open spec fn accessors_view(v: Seq<Accessor>) -> Seq<AccessorV> {
    v.map_values(|a: Accessor| a@)
}

pub open spec fn locale_variants_view(v: Seq<LocaleVariant>) -> Seq<(Seq<char>, Seq<char>)> {
    v.map_values(|l: LocaleVariant| (l.name@, l.variant@))
}

/// The accessor of a validated key.
pub open spec fn accessor_of(k: KeyV) -> AccessorV {
    AccessorV {
        id: k.id,
        comment: k.comment,
        named: named_of(k.arguments),
        positional: positional_of(k.arguments),
        bindings: k.arguments.map_values(|a: Seq<char>| (a, parameter_of(a))),
        templates: k.entries,
    }
}

fn is_all_digit_string(s: &String) -> (r: bool)
    ensures
        r == all_digits(s@),
{
    let cs = chars_of(s.as_str());
    let mut i: usize = 0;
    while i < cs.len()
        invariant
            i <= cs@.len(),
            cs@ == s@,
            forall|j: int| 0 <= j < i ==> crate::text::is_digit(#[trigger] cs@[j]),
        decreases cs@.len() - i,
    {
        if !('0' <= cs[i] && cs[i] <= '9') {
            return false;
        }
        i += 1;
    }
    true
}

fn parameter_for(a: &String) -> (r: String)
    ensures
        r@ == parameter_of(a@),
{
    if is_all_digit_string(a) {
        let mut out = string_of(&['a', 'r', 'g']);
        let cs = chars_of(a.as_str());
        let mut i: usize = 0;
        while i < cs.len()
            invariant
                i <= cs@.len(),
                cs@ == a@,
                out@ == seq!['a', 'r', 'g'] + cs@.subrange(0, i as int),
            decreases cs@.len() - i,
        {
            push_char(&mut out, cs[i]);
            i += 1;
            assert(out@ =~= seq!['a', 'r', 'g'] + cs@.subrange(0, i as int));
        }
        assert(cs@.subrange(0, cs@.len() as int) =~= cs@);
        out
    } else {
        a.clone()
    }
}

/// The accessor of a validated key.
pub fn accessor(key: &Key) -> (r: Accessor)
    ensures
        r@ == accessor_of(key@),
{
    let ghost args = strings_view(key.arguments@);
    let mut named: Vec<String> = Vec::new();
    let mut positional: Vec<String> = Vec::new();
    let mut bindings: Vec<Binding> = Vec::new();
    let mut i: usize = 0;
    assert(args.subrange(0, 0) =~= Seq::<Seq<char>>::empty());
    assert(strings_view(named@) =~= Seq::<Seq<char>>::empty());
    assert(strings_view(positional@) =~= Seq::<Seq<char>>::empty());
    while i < key.arguments.len()
        invariant
            i <= key.arguments@.len(),
            args == strings_view(key.arguments@),
            strings_view(named@) == named_of(args.subrange(0, i as int)),
            strings_view(positional@) == positional_of(args.subrange(0, i as int)),
            bindings_view(bindings@) == args.subrange(0, i as int).map_values(
                |a: Seq<char>| (a, parameter_of(a)),
            ),
        decreases key.arguments@.len() - i,
    {
        let a = &key.arguments[i];
        assert(args[i as int] == a@);
        assert(args.subrange(0, i + 1).drop_last() =~= args.subrange(0, i as int));
        let p = parameter_for(a);
        let ghost pn = named@;
        let ghost pp = positional@;
        let ghost pb = bindings@;
        if is_all_digit_string(a) {
            positional.push(p.clone());
            assert(strings_view(positional@) =~= strings_view(pp).push(p@));
        } else {
            named.push(a.clone());
            assert(strings_view(named@) =~= strings_view(pn).push(a@));
        }
        let ghost pv = p@;
        bindings.push(Binding { placeholder: a.clone(), parameter: p });
        assert(bindings_view(bindings@) =~= bindings_view(pb).push((a@, pv)));
        assert(bindings_view(bindings@) =~= args.subrange(0, i + 1).map_values(
            |a: Seq<char>| (a, parameter_of(a)),
        ));
        i += 1;
    }
    assert(args.subrange(0, key.arguments@.len() as int) =~= args);
    Accessor {
        id: key.id.to_string(),
        comment: clone_opt(&key.comment),
        named,
        positional,
        bindings,
        templates: key.entries.clone(),
    }
}

pub struct ArtifactV {
    pub locales: Seq<(Seq<char>, Seq<char>)>,
    pub accessors: Seq<AccessorV>,
}

impl View for Artifact {
    type V = ArtifactV;

    open spec fn view(&self) -> ArtifactV {
        ArtifactV {
            locales: locale_variants_view(self.locales@),
            accessors: accessors_view(self.accessors@),
        }
    }
}

/// The artifact of the declared locales and the validated keys.
pub open spec fn artifact_of(locales: Seq<Seq<char>>, keys: Seq<KeyV>) -> ArtifactV {
    ArtifactV {
        locales: locales.map_values(|l: Seq<char>| (l, variant_name_of(l))),
        accessors: keys.map_values(|k: KeyV| accessor_of(k)),
    }
}

/// Turns the locales and validated keys into an artifact.
pub struct Generator {
    locales: Vec<Name>,
    keys: Vec<Key>,
}

impl View for Generator {
    type V = (Seq<Seq<char>>, Seq<KeyV>);

    closed spec fn view(&self) -> (Seq<Seq<char>>, Seq<KeyV>) {
        (names_view(self.locales@), keys_view(self.keys@))
    }
}

impl Generator {
    /// Sets itself up.
    pub fn new(locales: Vec<Name>, keys: Vec<Key>) -> (r: Self)
        ensures
            r@ == (names_view(locales@), keys_view(keys@)),
    {
        Generator { locales, keys }
    }

    /// The artifact: the locale enumeration and one accessor per key.
    pub fn generate(self) -> (r: Artifact)
        ensures
            r@ == artifact_of(self@.0, self@.1),
    {
        let ghost ls = names_view(self.locales@);
        let ghost ks = keys_view(self.keys@);
        let mut locales: Vec<LocaleVariant> = Vec::new();
        let mut i: usize = 0;
        while i < self.locales.len()
            invariant
                i <= self.locales@.len(),
                ls == names_view(self.locales@),
                locale_variants_view(locales@) == ls.subrange(0, i as int).map_values(
                    |l: Seq<char>| (l, variant_name_of(l)),
                ),
            decreases self.locales@.len() - i,
        {
            let n = &self.locales[i];
            assert(ls[i as int] == n@);
            let ghost prev = locales@;
            let v = LocaleVariant { name: n.duplicate(), variant: n.variant_name() };
            locales.push(v);
            assert(locale_variants_view(locales@) =~= locale_variants_view(prev).push((n@, v.variant@)));
            i += 1;
            assert(locale_variants_view(locales@) =~= ls.subrange(0, i as int).map_values(
                |l: Seq<char>| (l, variant_name_of(l)),
            ));
        }
        let mut accessors: Vec<Accessor> = Vec::new();
        let mut j: usize = 0;
        while j < self.keys.len()
            invariant
                j <= self.keys@.len(),
                ks == keys_view(self.keys@),
                accessors_view(accessors@) == ks.subrange(0, j as int).map_values(
                    |k: KeyV| accessor_of(k),
                ),
            decreases self.keys@.len() - j,
        {
            assert(ks[j as int] == self.keys@[j as int]@);
            let ghost prev = accessors@;
            let a = accessor(&self.keys[j]);
            accessors.push(a);
            assert(accessors_view(accessors@) =~= accessors_view(prev).push(a@));
            j += 1;
            assert(accessors_view(accessors@) =~= ks.subrange(0, j as int).map_values(
                |k: KeyV| accessor_of(k),
            ));
        }
        assert(ls.subrange(0, ls.len() as int) =~= ls);
        assert(ks.subrange(0, ks.len() as int) =~= ks);
        Artifact { locales, accessors }
    }
}

} // verus!
