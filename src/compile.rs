//! The whole pipeline over sources held in memory: each source read once,
//! queued sources read in turn, then validation.

use vstd::prelude::*;
use crate::config::{position, position_from, ConfigV};
use crate::error::{Error, ErrorV, ParseError, ParseErrorV};
use crate::parser::{collect_spec, lemma_parse_keeps_consumed, source_step, ParsedData, Parser, ParserV};
use crate::reader::lex_from;
use crate::name::names_view;
use crate::validate::{keys_view, KeyV};

verus! {

pub open spec fn sources_view(v: Seq<(String, String)>) -> Seq<(Seq<char>, Seq<char>)> {
    v.map_values(|p: (String, String)| (p.0@, p.1@))
}

pub open spec fn source_ids(sources: Seq<(Seq<char>, Seq<char>)>) -> Seq<Seq<char>> {
    sources.map_values(|p: (Seq<char>, Seq<char>)| p.0)
}

/// The text of the first source named `id`.
pub open spec fn lookup(sources: Seq<(Seq<char>, Seq<char>)>, id: Seq<char>) -> Option<Seq<char>> {
    match position(source_ids(sources), id) {
        Some(p) => Some(sources[p].1),
        None => None,
    }
}

pub open spec fn initial_state() -> ParserV {
    ParserV {
        config: ConfigV { locales: seq![], source: seq![], queue: seq![] },
        keys: seq![],
        comment: None,
        consumed: seq![],
    }
}

/// Source `id` read into `st`, then each queued source in turn. An error
/// comes with the source that was being read.
pub open spec fn assemble(sources: Seq<(Seq<char>, Seq<char>)>, st: ParserV, id: Seq<char>) -> Result<
    ParserV,
    (Seq<char>, ErrorV),
>
    decreases sources.len() - st.consumed.len(),
{
    match lookup(sources, id) {
        None => Err((st.config.source, ErrorV::Parse(ParseErrorV::SourceNotFound(id)))),
        Some(text) => match source_step(st, id, text) {
            Err(e) => Err((id, e)),
            Ok(st1) => if st1.config.queue.len() == 0 {
                Ok(st1)
            } else {
                let next = st1.config.queue[0];
                let st2 = ParserV {
                    config: ConfigV { queue: st1.config.queue.drop_first(), ..st1.config },
                    ..st1
                };
                if st.consumed.len() < st2.consumed.len() <= sources.len() {
                    assemble(sources, st2, next)
                } else {
                    Err((id, ErrorV::Parse(ParseErrorV::Reincluded(next))))
                }
            },
        },
    }
}

/// What compiling the sources from `root` gives: the locales and the
/// validated keys, or the first error with the source it came from.
pub open spec fn compile_spec(sources: Seq<(Seq<char>, Seq<char>)>, root: Seq<char>) -> Result<
    (Seq<Seq<char>>, Seq<KeyV>),
    (Seq<char>, ErrorV),
> {
    match assemble(sources, initial_state(), root) {
        Err(e) => Err(e),
        Ok(st) => match collect_spec(st) {
            Err(e) => Err((st.config.source, e)),
            Ok(x) => Ok(x),
        },
    }
}

/// An error, with the source that was being read when it came.
#[derive(Debug, PartialEq, Eq, Clone)]
pub struct Failure {
    pub source: String,
    pub error: Error,
}

/// The rest of a compile from state `st`, with source `id` to be read next.
pub open spec fn finish(sources: Seq<(Seq<char>, Seq<char>)>, st: ParserV, id: Seq<char>) -> Result<
    (Seq<Seq<char>>, Seq<KeyV>),
    (Seq<char>, ErrorV),
> {
    match assemble(sources, st, id) {
        Err(e) => Err(e),
        Ok(s) => match collect_spec(s) {
            Err(e) => Err((s.config.source, e)),
            Ok(x) => Ok(x),
        },
    }
}

fn find_source(sources: &Vec<(String, String)>, id: &String) -> (r: Option<usize>)
    ensures
        r matches Some(p) ==> p < sources@.len() && position(
            source_ids(sources_view(sources@)),
            id@,
        ) == Some(p as int),
        r is None ==> position(source_ids(sources_view(sources@)), id@) is None,
{
    let ghost ids = source_ids(sources_view(sources@));
    let mut i: usize = 0;
    while i < sources.len()
        invariant
            i <= sources@.len(),
            ids == source_ids(sources_view(sources@)),
            position(ids, id@) == position_from(ids, id@, i as int),
        decreases sources@.len() - i,
    {
        assert(ids[i as int] == sources@[i as int].0@);
        if sources[i].0 == *id {
            return Some(i);
        }
        i += 1;
    }
    None
}

proof fn lemma_consumed_bound(consumed: Seq<Seq<char>>, ids: Seq<Seq<char>>)
    requires
        consumed.no_duplicates(),
        forall|x: int| 0 <= x < consumed.len() ==> ids.contains(#[trigger] consumed[x]),
    ensures
        consumed.len() <= ids.len(),
{
    consumed.unique_seq_to_set();
    ids.lemma_cardinality_of_set();
    assert(consumed.to_set().subset_of(ids.to_set())) by {
        assert forall|a: Seq<char>| consumed.to_set().contains(a) implies ids.to_set().contains(
            a,
        ) by {
            let x = choose|x: int| 0 <= x < consumed.len() && consumed[x] == a;
            assert(ids.contains(consumed[x]));
        }
    }
    vstd::set_lib::lemma_len_subset(consumed.to_set(), ids.to_set());
}

/// Compiles the sources held in `sources` (an identifier and a text each),
/// starting from `root`.
pub fn compile(sources: &Vec<(String, String)>, root: &str) -> (r: Result<ParsedData, Failure>)
    ensures
        match compile_spec(sources_view(sources@), root@) {
            Ok((l, ks)) => r is Ok && names_view(r->Ok_0.locales@) == l && keys_view(
                r->Ok_0.keys@,
            ) == ks,
            Err((src, e)) => r is Err && r->Err_0.source@ == src && r->Err_0.error@ == e,
        },
{
    broadcast use vstd::seq_lib::group_seq_properties;

    let ghost srcs = sources_view(sources@);
    let ghost ids = source_ids(srcs);
    let mut parser = Parser::new();
    let mut id: String = root.to_owned();
    assert(parser@ == initial_state());
    loop
        invariant
            srcs == sources_view(sources@),
            ids == source_ids(srcs),
            ids.len() == sources@.len(),
            compile_spec(srcs, root@) == finish(srcs, parser@, id@),
            parser@.consumed.no_duplicates(),
            forall|x: int| 0 <= x < parser@.consumed.len() ==> ids.contains(#[trigger] parser@.consumed[x]),
        decreases sources@.len() - parser@.consumed.len(),
    {
        let ghost st = parser@;
        let p = match find_source(sources, &id) {
            Some(p) => p,
            None => {
                return Err(
                    Failure { source: parser.source(), error: Error::Parse(ParseError::SourceNotFound(id)) },
                );
            },
        };
        proof {
            crate::config::lemma_position_from(ids, id@, 0);
        }
        assert(ids[p as int] == id@);
        assert(srcs[p as int].1 == sources@[p as int].1@);
        match parser.add_source(id.as_str(), sources[p].1.as_str()) {
            Ok(()) => {},
            Err(e) => {
                return Err(Failure { source: id, error: e });
            },
        }
        let ghost st1 = parser@;
        proof {
            let pushed = ParserV {
                config: ConfigV { source: id@, ..st.config },
                consumed: st.consumed.push(id@),
                ..st
            };
            lemma_parse_keeps_consumed(pushed, lex_from(sources@[p as int].1@, 0), 0);
            assert(!st.consumed.contains(id@));
            assert(st1.consumed == st.consumed.push(id@));
            assert forall|x: int, y: int| 0 <= x < y < st1.consumed.len() implies st1.consumed[x]
                != st1.consumed[y] by {
                if y == st.consumed.len() {
                    assert(st1.consumed[x] == st.consumed[x]);
                }
            }
            assert forall|x: int| 0 <= x < st1.consumed.len() implies ids.contains(
                #[trigger] st1.consumed[x],
            ) by {
                if x == st.consumed.len() {
                    assert(ids[p as int] == st1.consumed[x]);
                } else {
                    assert(st1.consumed[x] == st.consumed[x]);
                }
            }
            lemma_consumed_bound(st1.consumed, ids);
        }
        match parser.next_source() {
            None => {
                let src = parser.source();
                return match parser.collect() {
                    Ok(d) => Ok(d),
                    Err(e) => Err(Failure { source: src, error: e }),
                };
            },
            Some(next) => {
                id = next;
            },
        }
    }
}

} // verus!
