//! Maps a request target to the endpoint that serves it.
use vstd::prelude::*;

use crate::conv::{chars_of, string_of};
use crate::text::{lemma_split_all_nonempty, same_chars, split_all, split_all_exec};

verus! {

/// The endpoint that a request target names.
#[derive(Debug, Clone, PartialEq, Eq)]
pub enum Endpoint {
    /// `/`
    Index,
    /// `/echo/<segment>`
    Echo(String),
    /// `/user-agent`
    UserAgent,
    /// `/files/<filename>`
    File(String),
    /// Anything else.
    NotFound,
}

/// What an endpoint says, as text.
pub enum EndpointModel {
    Index,
    Echo(Seq<char>),
    UserAgent,
    File(Seq<char>),
    NotFound,
}

impl View for Endpoint {
    type V = EndpointModel;

    open spec fn view(&self) -> EndpointModel {
        match self {
            Endpoint::Index => EndpointModel::Index,
            Endpoint::Echo(s) => EndpointModel::Echo(s@),
            Endpoint::UserAgent => EndpointModel::UserAgent,
            Endpoint::File(s) => EndpointModel::File(s@),
            Endpoint::NotFound => EndpointModel::NotFound,
        }
    }
}

/// The segments of a path, between its slashes.
pub open spec fn segments(target: Seq<char>) -> Seq<Seq<char>> {
    split_all(target, seq!['/'])
}

/// The endpoint of a target: the path must start with `/`; its first segment
/// picks the endpoint, and `echo` and `files` take the segment after it.
pub open spec fn route(target: Seq<char>) -> EndpointModel {
    let segs = segments(target);
    if segs[0].len() != 0 || segs.len() < 2 {
        EndpointModel::NotFound
    } else if segs[1].len() == 0 {
        EndpointModel::Index
    } else if segs[1] == "echo"@ {
        if segs.len() >= 3 {
            EndpointModel::Echo(segs[2])
        } else {
            EndpointModel::NotFound
        }
    } else if segs[1] == "user-agent"@ {
        EndpointModel::UserAgent
    } else if segs[1] == "files"@ {
        if segs.len() >= 3 {
            EndpointModel::File(segs[2])
        } else {
            EndpointModel::NotFound
        }
    } else {
        EndpointModel::NotFound
    }
}

/// Finds the endpoint that a request target names.
pub fn parse_target(target: String) -> (r: Endpoint)
    ensures
        r@ == route(target@),
{
    let t = chars_of(target.as_str());
    let mut slash: Vec<char> = Vec::new();
    slash.push('/');
    assert(slash@ =~= seq!['/']);
    let segs = split_all_exec(t.as_slice(), slash.as_slice());
    let ghost model = segments(target@);
    proof {
        lemma_split_all_nonempty(target@, seq!['/']);
        assert(model.len() == segs@.len());
        assert(forall|k: int| 0 <= k < segs@.len() ==> #[trigger] model[k] == segs@[k]@);
    }
    if segs[0].len() != 0 || segs.len() < 2 {
        return Endpoint::NotFound;
    }
    let route_name = &segs[1];
    if route_name.len() == 0 {
        return Endpoint::Index;
    }
    if same_chars(route_name.as_slice(), chars_of("echo").as_slice()) {
        if segs.len() >= 3 {
            Endpoint::Echo(string_of(segs[2].as_slice()))
        } else {
            Endpoint::NotFound
        }
    } else if same_chars(route_name.as_slice(), chars_of("user-agent").as_slice()) {
        Endpoint::UserAgent
    } else if same_chars(route_name.as_slice(), chars_of("files").as_slice()) {
        if segs.len() >= 3 {
            Endpoint::File(string_of(segs[2].as_slice()))
        } else {
            Endpoint::NotFound
        }
    } else {
        Endpoint::NotFound
    }
}

} // verus!
