//! Validated identifiers, used for keys and locale tags.

use vstd::prelude::*;
use crate::error::ReadError;
use crate::text::{
    chars_of, fold_char, is_folded_char, is_lower, is_name_char, is_name_start, push_char,
    validate_char,
};

verus! {

/// A built name: non-empty, opened by a lower case letter, made of lower case
/// letters, digits and `_`.
pub open spec fn is_name(s: Seq<char>) -> bool {
    &&& s.len() > 0
    &&& is_lower(s[0])
    &&& forall|i: int| 0 <= i < s.len() ==> is_folded_char(#[trigger] s[i])
}

/// What building a name from the characters of `s`, one at a time, gives:
/// each character folded, or the first one that is refused.
pub open spec fn name_of(s: Seq<char>) -> Result<Seq<char>, ReadError>
    decreases s.len(),
{
    if s.len() == 0 {
        Err(ReadError::EmptyName)
    } else if s.len() == 1 {
        if is_name_start(s[0]) {
            Ok(seq![fold_char(s[0])])
        } else {
            Err(ReadError::NameInvalidFirst(s[0]))
        }
    } else {
        match name_of(s.drop_last()) {
            Err(e) => Err(e),
            Ok(p) => if is_name_char(s.last()) {
                Ok(p.push(fold_char(s.last())))
            } else {
                Err(ReadError::NameInvalid(s.last()))
            },
        }
    }
}

/// A character refused in a prefix is refused in the whole.
proof fn lemma_name_of_err_prefix(s: Seq<char>, k: int)
    requires
        1 <= k <= s.len(),
        name_of(s.subrange(0, k)) is Err,
    ensures
        name_of(s) == name_of(s.subrange(0, k)),
    decreases s.len(),
{
    if k < s.len() {
        assert(s.drop_last().subrange(0, k) == s.subrange(0, k));
        lemma_name_of_err_prefix(s.drop_last(), k);
    } else {
        assert(s.subrange(0, k) == s);
    }
}

/// Building a name from the text of a valid name gives that same name back.
pub proof fn lemma_name_round_trip(s: Seq<char>)
    requires
        is_name(s),
    ensures
        name_of(s) == Ok::<Seq<char>, ReadError>(s),
    decreases s.len(),
{
    if s.len() == 1 {
        assert(seq![fold_char(s[0])] == s);
    } else {
        let p = s.drop_last();
        assert(is_folded_char(s[s.len() - 1]));
        assert forall|i: int| 0 <= i < p.len() implies is_folded_char(#[trigger] p[i]) by {
            assert(p[i] == s[i]);
        }
        lemma_name_round_trip(p);
        assert(p.push(fold_char(s.last())) == s);
    }
}

/// Two texts whose characters fold alike (case, `-` against `_`) build the
/// same name, or are both refused.
pub proof fn lemma_name_folding(s: Seq<char>, t: Seq<char>)
    requires
        s.len() == t.len(),
        forall|i: int| 0 <= i < s.len() ==> fold_char(#[trigger] s[i]) == fold_char(t[i]),
    ensures
        name_of(s) is Ok <==> name_of(t) is Ok,
        name_of(s) is Ok ==> name_of(s) == name_of(t),
    decreases s.len(),
{
    if s.len() == 1 {
        assert(fold_char(s[0]) == fold_char(t[0]));
    } else if s.len() > 1 {
        let n = s.len() - 1;
        assert(fold_char(s[n]) == fold_char(t[n]));
        assert forall|i: int| 0 <= i < s.drop_last().len() implies fold_char(
            #[trigger] s.drop_last()[i],
        ) == fold_char(t.drop_last()[i]) by {
            assert(fold_char(s[i]) == fold_char(t[i]));
        }
        lemma_name_folding(s.drop_last(), t.drop_last());
    }
}

pub open spec fn upper_char(c: char) -> char {
    if is_lower(c) {
        ((c as int) - 32) as char
    } else {
        c
    }
}

/// The name as a type or variant identifier: each `_`-separated part
/// capitalised, the separators dropped.
pub open spec fn variant_name_of(s: Seq<char>) -> Seq<char>
    decreases s.len(),
{
    if s.len() == 0 {
        seq![]
    } else {
        let prev = variant_name_of(s.drop_last());
        let n = s.len() as int;
        if s.last() == '_' {
            prev
        } else if n == 1 || s[n - 2] == '_' {
            prev.push(upper_char(s.last()))
        } else {
            prev.push(s.last())
        }
    }
}

pub open spec fn names_view(v: Seq<Name>) -> Seq<Seq<char>> {
    v.map_values(|n: Name| n@)
}

/// A string where every character is guaranteed to be valid.
#[derive(Debug, PartialEq, Eq, Clone)]
pub struct Name(String);

impl View for Name {
    type V = Seq<char>;

    closed spec fn view(&self) -> Seq<char> {
        self.0@
    }
}

impl Name {
    /// Starts a name with its first character.
    pub fn new(first: char) -> (r: Result<Self, ReadError>)
        ensures
            r matches Ok(n) ==> n@ == seq![fold_char(first)] && is_name(n@),
            r matches Ok(_) <==> is_name_start(first),
            !is_name_start(first) ==> r == Err::<Name, ReadError>(ReadError::NameInvalidFirst(first)),
    {
        let c = match Self::validate_first_char(first) {
            Ok(c) => c,
            Err(e) => return Err(e),
        };
        let mut inner = String::new();
        push_char(&mut inner, c);
        Ok(Self(inner))
    }

    pub fn to_str(&self) -> (r: &str)
        ensures
            r@ == self@,
    {
        self.0.as_str()
    }

    /// A copy of the name.
    pub fn duplicate(&self) -> (r: Name)
        ensures
            r@ == self@,
    {
        Name(self.0.clone())
    }

    /// The name as an owned string.
    pub fn to_string(&self) -> (r: String)
        ensures
            r@ == self@,
    {
        self.0.clone()
    }

    /// Whether two names are the same.
    pub fn same(&self, other: &Name) -> (r: bool)
        ensures
            r == (self@ == other@),
    {
        self.0 == other.0
    }

    /// Adds a character.
    pub fn add(&mut self, c: char) -> (r: Result<(), ReadError>)
        requires
            is_name(old(self)@),
        ensures
            is_name(final(self)@),
            is_name_char(c) ==> r is Ok && final(self)@ == old(self)@.push(fold_char(c)),
            !is_name_char(c) ==> r == Err::<(), ReadError>(ReadError::NameInvalid(c))
                && final(self)@ == old(self)@,
    {
        let c = match Self::validate_char(c) {
            Ok(c) => c,
            Err(e) => return Err(e),
        };
        let ghost before = self.0@;
        let mut s = self.0.clone();
        push_char(&mut s, c);
        assert forall|i: int| 0 <= i < s@.len() implies is_folded_char(#[trigger] s@[i]) by {
            if i < before.len() {
                assert(s@[i] == before[i]);
            }
        }
        *self = Name(s);
        Ok(())
    }

    fn validate_char(c: char) -> (r: Result<char, ReadError>)
        ensures
            is_name_char(c) ==> r == Ok::<char, ReadError>(fold_char(c)),
            is_name_char(c) ==> is_folded_char(fold_char(c)),
            !is_name_char(c) ==> r == Err::<char, ReadError>(ReadError::NameInvalid(c)),
    {
        match validate_char(c) {
            Ok(f) => Ok(f),
            Err(e) => Err(ReadError::NameInvalid(e)),
        }
    }

    fn validate_first_char(c: char) -> (r: Result<char, ReadError>)
        ensures
            is_name_start(c) ==> r == Ok::<char, ReadError>(fold_char(c)),
            is_name_start(c) ==> is_lower(fold_char(c)),
            !is_name_start(c) ==> r == Err::<char, ReadError>(ReadError::NameInvalidFirst(c)),
    {
        if 'a' <= c && c <= 'z' {
            Ok(c)
        } else if 'A' <= c && c <= 'Z' {
            let l = ((c as u8) + 32) as char;
            Ok(l)
        } else {
            Err(ReadError::NameInvalidFirst(c))
        }
    }

    /// Whether `c` may stand inside a name.
    pub fn is_valid(c: char) -> (r: bool)
        ensures
            r == is_name_char(c),
    {
        validate_char(c).is_ok()
    }

    /// Gives a name suitable for a type or variant.
    pub fn variant_name(&self) -> (r: String)
        ensures
            r@ == variant_name_of(self@),
    {
        let cs = chars_of(self.0.as_str());
        let mut out = String::new();
        let mut i: usize = 0;
        while i < cs.len()
            invariant
                i <= cs@.len(),
                cs@ == self@,
                out@ == variant_name_of(cs@.subrange(0, i as int)),
            decreases cs@.len() - i,
        {
            let c = cs[i];
            let ghost pre = cs@.subrange(0, i as int);
            assert(cs@.subrange(0, i + 1).drop_last() == pre);
            if c != '_' {
                if i == 0 || cs[i - 1] == '_' {
                    let u = if 'a' <= c && c <= 'z' { ((c as u8) - 32) as char } else { c };
                    push_char(&mut out, u);
                } else {
                    push_char(&mut out, c);
                }
            }
            i += 1;
        }
        assert(cs@.subrange(0, cs@.len() as int) == cs@);
        out
    }

    /// Builds a name from a whole string.
    pub fn try_from(value: &str) -> (r: Result<Name, ReadError>)
        ensures
            r matches Ok(n) ==> name_of(value@) == Ok::<Seq<char>, ReadError>(n@) && is_name(n@),
            r matches Err(e) ==> name_of(value@) == Err::<Seq<char>, ReadError>(e),
    {
        let cs = chars_of(value);
        if cs.len() == 0 {
            return Err(ReadError::EmptyName);
        }
        assert(cs@.subrange(0, 1) == seq![cs@[0]]);
        let mut name = match Name::new(cs[0]) {
            Ok(n) => n,
            Err(e) => {
                proof {
                    lemma_name_of_err_prefix(cs@, 1);
                }
                return Err(e);
            },
        };
        let mut i: usize = 1;
        while i < cs.len()
            invariant
                1 <= i <= cs@.len(),
                cs@ == value@,
                name_of(cs@.subrange(0, i as int)) == Ok::<Seq<char>, ReadError>(name@),
                is_name(name@),
            decreases cs@.len() - i,
        {
            assert(cs@.subrange(0, i + 1).drop_last() == cs@.subrange(0, i as int));
            match name.add(cs[i]) {
                Ok(()) => {},
                Err(e) => {
                    proof {
                        lemma_name_of_err_prefix(cs@, i + 1);
                    }
                    return Err(e);
                },
            }
            i += 1;
        }
        assert(cs@.subrange(0, cs@.len() as int) == cs@);
        Ok(name)
    }
}

} // verus!
