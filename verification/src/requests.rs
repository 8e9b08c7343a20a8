//! What a request for a resource asks for.

use vstd::prelude::*;
use vstd::string::StringExecFns;

use crate::agents::option_text;

verus! {

/// The subject that a request names: the base URL alone where the request
/// has no path; else the base URL, a slash and the path, and after them a
/// question mark and the query where there is one.
pub open spec fn request_subject(base: Seq<char>, path: Option<Seq<char>>, query: Seq<char>)
    -> Seq<char> {
    match path {
        None => base,
        Some(p) => if query.len() == 0 {
            base + seq!['/'] + p
        } else {
            base + seq!['/'] + p + seq!['?'] + query
        },
    }
}

/// The subject that a request names.
pub fn subject_from_request(base_url: &str, path: Option<&str>, query: &str) -> (r: String)
    ensures
        r@ == request_subject(base_url@, option_text(path), query@),
{
    proof {
        reveal_strlit("/");
        reveal_strlit("?");
    }
    let mut subject = base_url.to_owned();
    match path {
        None => {},
        Some(p) => {
            subject.append("/");
            subject.append(p);
            if !query.is_empty() {
                subject.append("?");
                subject.append(query);
                assert(subject@ =~= base_url@ + seq!['/'] + p@ + seq!['?'] + query@);
            } else {
                assert(subject@ =~= base_url@ + seq!['/'] + p@);
            }
        },
    }
    subject
}

} // verus!
