//! The backend registry: catalog records of the storage nodes, loaded once
//! and then only read.

use vstd::prelude::*;
use crate::text::same_text;

verus! {

/// A storage node as the catalog registers it.
#[derive(Debug, Clone)]
pub struct Backend {
    pub server_id: String,
    pub provider: String,
    pub server_name: String,
    pub server_url: String,
}

/// What a `Backend` holds, as text.
pub struct BackendView {
    pub server_id: Seq<char>,
    pub provider: Seq<char>,
    pub server_name: Seq<char>,
    pub server_url: Seq<char>,
}

impl View for Backend {
    type V = BackendView;

    open spec fn view(&self) -> BackendView {
        BackendView {
            server_id: self.server_id@,
            provider: self.provider@,
            server_name: self.server_name@,
            server_url: self.server_url@,
        }
    }
}

impl Backend {
    pub fn new(server_id: &str, provider: &str, server_name: &str, server_url: &str) -> (r: Backend)
        ensures
            r.server_id@ == server_id@,
            r.provider@ == provider@,
            r.server_name@ == server_name@,
            r.server_url@ == server_url@,
    {
        Backend {
            server_id: String::from_str(server_id),
            provider: String::from_str(provider),
            server_name: String::from_str(server_name),
            server_url: String::from_str(server_url),
        }
    }

    /// A copy of this record.
    pub fn duplicate(&self) -> (r: Backend)
        ensures
            r@ == self@,
    {
        Backend {
            server_id: self.server_id.clone(),
            provider: self.provider.clone(),
            server_name: self.server_name.clone(),
            server_url: self.server_url.clone(),
        }
    }
}

/// A file whose deletion time has passed, with the backend that holds it.
#[derive(Debug, Clone)]
pub struct ExpiredFile {
    pub file_id: String,
    pub server_id: String,
}

/// The records of a sequence of backends.
pub open spec fn views(bs: Seq<Backend>) -> Seq<BackendView> {
    bs.map_values(|b: Backend| b@)
}

/// The first position in `bs` whose `server_id` is `id`, if any.
pub open spec fn first_with_id(bs: Seq<BackendView>, id: Seq<char>) -> Option<int>
    decreases bs.len(),
{
    if bs.len() == 0 {
        None
    } else if bs[0].server_id == id {
        Some(0)
    } else {
        match first_with_id(bs.drop_first(), id) {
            Some(i) => Some(i + 1),
            None => None,
        }
    }
}

pub proof fn lemma_first_with_id(bs: Seq<BackendView>, id: Seq<char>)
    ensures
        match first_with_id(bs, id) {
            Some(i) => 0 <= i < bs.len() && bs[i].server_id == id
                && forall|j: int| 0 <= j < i ==> bs[j].server_id != id,
            None => forall|j: int| 0 <= j < bs.len() ==> bs[j].server_id != id,
        },
    decreases bs.len(),
{
    if bs.len() > 0 {
        lemma_first_with_id(bs.drop_first(), id);
        if bs[0].server_id != id {
            assert forall|j: int| 1 <= j < bs.len() implies bs[j] == bs.drop_first()[j - 1] by {}
        }
    }
}

/// The first registered backend whose identifier is `server_id`.
pub fn find_backend(backends: &[Backend], server_id: &str) -> (r: Option<Backend>)
    ensures
        match first_with_id(views(backends@), server_id@) {
            Some(i) => r is Some && r->Some_0@ == backends@[i]@,
            None => r is None,
        },
{
    proof {
        lemma_first_with_id(views(backends@), server_id@);
    }
    let mut i: usize = 0;
    while i < backends.len()
        invariant
            i <= backends@.len(),
            forall|j: int| 0 <= j < i ==> backends@[j].server_id@ != server_id@,
        decreases backends.len() - i,
    {
        if same_text(backends[i].server_id.as_str(), server_id) {
            assert(views(backends@)[i as int] == backends@[i as int]@);
            assert(forall|j: int| 0 <= j < i ==> views(backends@)[j] == backends@[j]@);
            proof {
                lemma_first_with_id(views(backends@), server_id@);
                match first_with_id(views(backends@), server_id@) {
                    Some(k) => {
                        if k < i {
                            assert(backends@[k].server_id@ != server_id@);
                        }
                        if k > i {
                            assert(views(backends@)[i as int].server_id != server_id@);
                        }
                    },
                    None => {
                        assert(views(backends@)[i as int].server_id != server_id@);
                    },
                }
            }
            return Some(backends[i].duplicate());
        }
        i = i + 1;
    }
    assert(forall|j: int| 0 <= j < backends@.len() ==> views(backends@)[j] == backends@[j]@);
    None
}

} // verus!
