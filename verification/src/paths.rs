//! Paths: a subject, followed by the names of properties and by indices
//! into arrays, with blanks between them.

use vstd::prelude::*;
use vstd::string::StrSliceExecFns;

use crate::atoms::AtomView;
use crate::decimal::parse_index;
use crate::errors::ErrorView;
use crate::hierarchy::read_resource;
use crate::json_array::{is_blank, lemma_skip_blanks, skip_blanks};
use crate::mapping::{looks_like_url, mapping_or_url};
use crate::model::find_resource;
use crate::resources::{lookup, ResourceView};
use crate::schema::property_from;
use crate::storelike::PathView;
use crate::text::{to_chars, views};
use crate::values::ValueView;

verus! {

/// The first position at or after `pos` that holds a blank, or the end.
pub open spec fn token_end(s: Seq<char>, pos: int) -> int
    decreases s.len() - pos,
{
    if 0 <= pos < s.len() && !is_blank(s[pos]) {
        token_end(s, pos + 1)
    } else {
        pos
    }
}

/// A token ends at or after its start, and inside the text.
pub proof fn lemma_token_end(s: Seq<char>, pos: int)
    ensures
        pos <= token_end(s, pos),
        pos <= s.len() ==> token_end(s, pos) <= s.len(),
        0 <= pos < s.len() && !is_blank(s[pos]) ==> pos < token_end(s, pos),
    decreases s.len() - pos,
{
    if 0 <= pos < s.len() && !is_blank(s[pos]) {
        lemma_token_end(s, pos + 1);
    }
}

/// The tokens of `s` from `pos` on, added to `acc`.
pub open spec fn tokens_from(s: Seq<char>, pos: int, acc: Seq<Seq<char>>) -> Seq<Seq<char>>
    decreases s.len() - pos,
{
    let a = skip_blanks(s, pos);
    if pos < 0 || a >= s.len() {
        acc
    } else {
        proof {
            lemma_skip_blanks(s, pos);
            lemma_token_end(s, a);
        }
        tokens_from(s, token_end(s, a), acc.push(s.subrange(a, token_end(s, a))))
    }
}

/// The tokens of a path: its runs of characters that are no blanks.
pub open spec fn path_tokens(s: Seq<char>) -> Seq<Seq<char>> {
    tokens_from(s, 0, Seq::empty())
}

/// The subject that the first token of a path names. Without a mapping
/// the token is the subject. With one, it is what the mapping gives the
/// token, else the token itself where it has the shape of a URL.
pub open spec fn first_subject(token: Seq<char>, mapping: Option<Map<Seq<char>, Seq<char>>>)
    -> Option<Seq<char>> {
    match mapping {
        None => Some(token),
        Some(m) => mapping_or_url(m, token),
    }
}

/// The first property among the entries from `i` on that the store
/// describes under the short name `token`.
pub open spec fn property_named(
    rs: Seq<ResourceView>,
    pvs: Seq<(Seq<char>, ValueView)>,
    token: Seq<char>,
    i: int,
) -> Option<Seq<char>>
    decreases pvs.len() - i,
{
    if i < 0 || i >= pvs.len() {
        None
    } else {
        match find_resource(rs, pvs[i].0) {
            Some(described) => match property_from(described) {
                Ok(p) => if p.shortname == token {
                    Some(pvs[i].0)
                } else {
                    property_named(rs, pvs, token, i + 1)
                },
                Err(_) => property_named(rs, pvs, token, i + 1),
            },
            None => property_named(rs, pvs, token, i + 1),
        }
    }
}

/// The property of `r` that `token` names: the token itself where it has
/// the shape of a URL, else the first property of `r` with that short name.
pub open spec fn resolve_property(rs: Seq<ResourceView>, r: ResourceView, token: Seq<char>)
    -> Result<Seq<char>, ErrorView> {
    if looks_like_url(token) {
        Ok(token)
    } else {
        match property_named(rs, r.propvals, token, 0) {
            Some(p) => Ok(p),
            None => Err(ErrorView::NotFound(token)),
        }
    }
}

/// One step of a walk. `cursor` is where the walk stands and `resource`
/// the resource of the subject that it last stood on.
///
/// A token that reads as an index needs a cursor on an atom that holds an
/// array: the walk moves to the subject at that position, read afresh on
/// behalf of `agent`. Any other token needs a cursor on a subject: the
/// walk moves to the atom of the property that the token names.
pub open spec fn step(
    rs: Seq<ResourceView>,
    cursor: PathView,
    resource: ResourceView,
    token: Seq<char>,
    agent: Option<Seq<char>>,
) -> Result<(PathView, ResourceView), ErrorView> {
    match parse_index(token) {
        Some(i) => match cursor {
            PathView::Subject(_) => Err(ErrorView::InvalidPath),
            PathView::Atom(atom) => match atom.value {
                ValueView::ResourceArray(items) => if i < items.len() {
                    match read_resource(rs, items[i as int], agent) {
                        Ok(r) => Ok((PathView::Subject(items[i as int]), r)),
                        Err(e) => Err(e),
                    }
                } else {
                    Err(ErrorView::IndexOutOfBounds { index: i as u32, len: items.len() as usize })
                },
                _ => Err(ErrorView::InvalidPath),
            },
        },
        None => match cursor {
            PathView::Atom(_) => Err(ErrorView::InvalidPath),
            PathView::Subject(s) => match resolve_property(rs, resource, token) {
                Err(e) => Err(e),
                Ok(p) => match lookup(resource.propvals, p) {
                    None => Err(ErrorView::NotFound(p)),
                    Some(v) => Ok(
                        (PathView::Atom(AtomView { subject: s, property: p, value: v }), resource),
                    ),
                },
            },
        },
    }
}

/// The walk over the tokens from `i` on: the first step that fails ends
/// it with that error.
pub open spec fn walk(
    rs: Seq<ResourceView>,
    tokens: Seq<Seq<char>>,
    i: int,
    cursor: PathView,
    resource: ResourceView,
    agent: Option<Seq<char>>,
) -> Result<PathView, ErrorView>
    decreases tokens.len() - i,
{
    if i < 0 || i >= tokens.len() {
        Ok(cursor)
    } else {
        match step(rs, cursor, resource, tokens[i], agent) {
            Err(e) => Err(e),
            Ok((c, r)) => walk(rs, tokens, i + 1, c, r, agent),
        }
    }
}

/// What a path leads to. A path without tokens names nothing. A single
/// token is the subject that it names. With more, the subject is read on
/// behalf of `agent` and the walk starts there.
pub open spec fn path_result(
    rs: Seq<ResourceView>,
    path: Seq<char>,
    mapping: Option<Map<Seq<char>, Seq<char>>>,
    agent: Option<Seq<char>>,
) -> Result<PathView, ErrorView> {
    let tokens = path_tokens(path);
    if tokens.len() == 0 {
        Err(ErrorView::NotFound(path))
    } else {
        match first_subject(tokens[0], mapping) {
            None => Err(ErrorView::NotFound(tokens[0])),
            Some(url) => if tokens.len() == 1 {
                Ok(PathView::Subject(url))
            } else {
                match read_resource(rs, url, agent) {
                    Err(e) => Err(e),
                    Ok(r) => walk(rs, tokens, 1, PathView::Subject(url), r, agent),
                }
            },
        }
    }
}

/// On an atom that holds an array of `n` items, an index of `n` or more
/// is out of bounds, and an index below `n` leads to the subject at that
/// position wherever `agent` may read it.
pub proof fn lemma_index_bounds(
    rs: Seq<ResourceView>,
    atom: AtomView,
    resource: ResourceView,
    token: Seq<char>,
    agent: Option<Seq<char>>,
)
    requires
        atom.value is ResourceArray,
        parse_index(token) is Some,
    ensures
        ({
            let items = atom.value->ResourceArray_0;
            let i = parse_index(token)->0;
            let out = step(rs, PathView::Atom(atom), resource, token, agent);
            &&& i >= items.len() ==> out == Err::<(PathView, ResourceView), ErrorView>(
                ErrorView::IndexOutOfBounds { index: i as u32, len: items.len() as usize },
            )
            &&& i < items.len() && read_resource(rs, items[i as int], agent) is Ok ==> (out
                matches Ok(next) && next.0 == PathView::Subject(items[i as int]))
        }),
{
}

/// The tokens of a path.
pub fn split_path(path: &str) -> (r: Vec<String>)
    ensures
        views(r@) == path_tokens(path@),
{
    let chars = to_chars(path);
    let n = chars.len();
    let mut out: Vec<String> = Vec::new();
    let mut pos: usize = 0;
    assert(views(out@) =~= Seq::<Seq<char>>::empty());
    loop
        invariant
            pos <= n,
            n == chars@.len(),
            chars@ == path@,
            tokens_from(path@, pos as int, views(out@)) == path_tokens(path@),
        decreases n - pos,
    {
        let mut a: usize = pos;
        while a < n && (chars[a] == ' ' || chars[a] == '\t' || chars[a] == '\n' || chars[a]
            == '\r')
            invariant
                pos <= a <= n,
                n == chars@.len(),
                skip_blanks(chars@, a as int) == skip_blanks(chars@, pos as int),
            decreases n - a,
        {
            a = a + 1;
        }
        if a >= n {
            return out;
        }
        let mut e: usize = a;
        while e < n && !(chars[e] == ' ' || chars[e] == '\t' || chars[e] == '\n' || chars[e]
            == '\r')
            invariant
                a <= e <= n,
                n == chars@.len(),
                token_end(chars@, e as int) == token_end(chars@, a as int),
            decreases n - e,
        {
            e = e + 1;
        }
        proof {
            lemma_token_end(chars@, a as int);
        }
        let token = path.substring_char(a, e).to_owned();
        let ghost before = views(out@);
        out.push(token);
        assert(views(out@) =~= before.push(path@.subrange(a as int, e as int)));
        pos = e;
    }
}

} // verus!
