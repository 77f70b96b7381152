//! Route resolution: which backend serves a request, by the file it names
//! or by the load balancer over the healthy backends.

use vstd::prelude::*;
use crate::backend::{find_backend, first_with_id, views, Backend, BackendView};
use crate::health::HealthChecker;
use crate::load_balancer::Balancer;
use crate::text::{join_on, lemma_split_join, same_text, split_on, split_text, strip_leading_slashes, trim_leading_slashes};

verus! {

/// The segments of a request path: leading slashes dropped, then split at `'/'`.
pub open spec fn path_segments(path: Seq<char>) -> Seq<Seq<char>> {
    split_on(strip_leading_slashes(path), '/')
}

/// The segment that the recognised path shapes designate as the file ID:
/// `api/v1/files/download/{id}`, `api/v1/files/{id}`, `files/download/{id}`,
/// `files/{id}` and `download/{id}`, each with nothing after the ID; the
/// first that matches.
pub open spec fn file_id_segment(segs: Seq<Seq<char>>) -> Option<Seq<char>> {
    let api_files = segs.len() >= 4 && segs[0] == "api"@ && segs[1] == "v1"@ && segs[2] == "files"@;
    let files = segs.len() >= 2 && segs[0] == "files"@;
    if api_files && segs.len() == 5 && segs[3] == "download"@ {
        Some(segs[4])
    } else if api_files && segs.len() == 4 {
        Some(segs[3])
    } else if files && segs.len() == 3 && segs[1] == "download"@ {
        Some(segs[2])
    } else if files && segs.len() == 2 {
        Some(segs[1])
    } else if segs.len() == 2 && segs[0] == "download"@ {
        Some(segs[1])
    } else {
        None
    }
}

/// The file ID that a request path names; an empty segment names none.
pub open spec fn file_id_of_path(path: Seq<char>) -> Option<Seq<char>> {
    match file_id_segment(path_segments(path)) {
        Some(id) => if id.len() > 0 {
            Some(id)
        } else {
            None
        },
        None => None,
    }
}

/// Extracts the file ID from a request path (without its query string).
pub fn extract_file_id_from_path(path: &str) -> (r: Option<String>)
    ensures
        match file_id_of_path(path@) {
            Some(id) => r is Some && r->Some_0@ == id,
            None => r is None,
        },
{
    let segments = split_text(trim_leading_slashes(path), '/');
    let ghost segs = segments@.map_values(|p: String| p@);
    assert(segs == path_segments(path@));
    let n = segments.len();
    assert(forall|i: int| 0 <= i < n ==> segs[i] == segments@[i]@);
    let api_files = n >= 4 && same_text(segments[0].as_str(), "api") && same_text(
        segments[1].as_str(),
        "v1",
    ) && same_text(segments[2].as_str(), "files");
    let files = n >= 2 && same_text(segments[0].as_str(), "files");
    let chosen: Option<usize> = if api_files && n == 5 && same_text(segments[3].as_str(), "download") {
        Some(4)
    } else if api_files && n == 4 {
        Some(3)
    } else if files && n == 3 && same_text(segments[1].as_str(), "download") {
        Some(2)
    } else if files && n == 2 {
        Some(1)
    } else if n == 2 && same_text(segments[0].as_str(), "download") {
        Some(1)
    } else {
        None
    };
    match chosen {
        Some(k) => {
            let id = &segments[k];
            if id.as_str().unicode_len() > 0 {
                Some(id.clone())
            } else {
                None
            }
        },
        None => None,
    }
}


proof fn lemma_segments_of_joined(w: Seq<Seq<char>>)
    requires
        w.len() >= 1,
        w[0].len() > 0,
        w[0][0] != '/',
        forall|i: int| 0 <= i < w.len() ==> !(#[trigger] w[i]).contains('/'),
    ensures
        path_segments(seq!['/'] + join_on(w, '/')) == w,
    decreases w.len(),
{
    let t = join_on(w, '/');
    lemma_join_head(w);
    let s = seq!['/'] + t;
    assert(s.drop_first() =~= t);
    assert(strip_leading_slashes(t) == t);
    assert(strip_leading_slashes(s) == t);
    lemma_split_join(w, '/');
}

proof fn lemma_join_head(w: Seq<Seq<char>>)
    requires
        w.len() >= 1,
        w[0].len() > 0,
    ensures
        join_on(w, '/').len() > 0,
        join_on(w, '/')[0] == w[0][0],
    decreases w.len(),
{
    if w.len() > 1 {
        let w0 = w.drop_last();
        lemma_join_head(w0);
    }
}

/// A path made by appending a non-empty ID free of `'/'` to any of the
/// recognised prefixes yields exactly that ID.
pub proof fn lemma_file_id_round_trip(id: Seq<char>)
    requires
        id.len() > 0,
        !id.contains('/'),
    ensures
        file_id_of_path("/api/v1/files/download/"@ + id) == Some(id),
        file_id_of_path("/api/v1/files/"@ + id) == Some(id),
        file_id_of_path("/files/download/"@ + id) == Some(id),
        file_id_of_path("/files/"@ + id) == Some(id),
        file_id_of_path("/download/"@ + id) == Some(id),
{
    reveal_strlit("/api/v1/files/download/");
    reveal_strlit("/api/v1/files/");
    reveal_strlit("/files/download/");
    reveal_strlit("/files/");
    reveal_strlit("/download/");
    reveal_strlit("api");
    reveal_strlit("v1");
    reveal_strlit("files");
    reveal_strlit("download");
    let api = "api"@;
    let v1 = "v1"@;
    let files = "files"@;
    let download = "download"@;
    assert(!api.contains('/')) by {
        assert(forall|i: int| 0 <= i < api.len() ==> api[i] != '/');
    }
    assert(!v1.contains('/')) by {
        assert(forall|i: int| 0 <= i < v1.len() ==> v1[i] != '/');
    }
    assert(!files.contains('/')) by {
        assert(forall|i: int| 0 <= i < files.len() ==> files[i] != '/');
    }
    assert(!download.contains('/')) by {
        assert(forall|i: int| 0 <= i < download.len() ==> download[i] != '/');
    }

    let w1 = seq![api, v1, files, download, id];
    reveal_with_fuel(join_on, 6);
    assert("/api/v1/files/download/"@ + id =~= seq!['/'] + join_on(w1, '/'));
    lemma_segments_of_joined(w1);

    let w2 = seq![api, v1, files, id];
    assert("/api/v1/files/"@ + id =~= seq!['/'] + join_on(w2, '/'));
    lemma_segments_of_joined(w2);

    let w3 = seq![files, download, id];
    assert("/files/download/"@ + id =~= seq!['/'] + join_on(w3, '/'));
    lemma_segments_of_joined(w3);

    let w4 = seq![files, id];
    assert("/files/"@ + id =~= seq!['/'] + join_on(w4, '/'));
    lemma_segments_of_joined(w4);

    let w5 = seq![download, id];
    assert("/download/"@ + id =~= seq!['/'] + join_on(w5, '/'));
    lemma_segments_of_joined(w5);
}


/// The bare prefixes `/api/v1/files/`, `/files/` and `/` name no file.
pub proof fn lemma_no_file_id_on_bare_prefixes()
    ensures
        file_id_of_path("/api/v1/files/"@) is None,
        file_id_of_path("/files/"@) is None,
        file_id_of_path("/"@) is None,
{
    reveal_strlit("/api/v1/files/");
    reveal_strlit("/files/");
    reveal_strlit("/");
    reveal_strlit("api");
    reveal_strlit("v1");
    reveal_strlit("files");
    let api = "api"@;
    let v1 = "v1"@;
    let files = "files"@;
    let empty = Seq::<char>::empty();
    assert(!api.contains('/')) by {
        assert(forall|i: int| 0 <= i < api.len() ==> api[i] != '/');
    }
    assert(!v1.contains('/')) by {
        assert(forall|i: int| 0 <= i < v1.len() ==> v1[i] != '/');
    }
    assert(!files.contains('/')) by {
        assert(forall|i: int| 0 <= i < files.len() ==> files[i] != '/');
    }
    reveal_with_fuel(join_on, 5);

    let w1 = seq![api, v1, files, empty];
    assert("/api/v1/files/"@ =~= seq!['/'] + join_on(w1, '/'));
    lemma_segments_of_joined(w1);

    let w2 = seq![files, empty];
    assert("/files/"@ =~= seq!['/'] + join_on(w2, '/'));
    lemma_segments_of_joined(w2);

    let root = "/"@;
    assert(root.drop_first() =~= empty);
    assert(strip_leading_slashes(empty) == empty);
    assert(strip_leading_slashes(root) == empty);
    assert(path_segments(root) == seq![empty]);
}


/// Why a request could not be routed or forwarded.
#[derive(Debug, Clone, Copy, PartialEq, Eq, Structural)]
pub enum RouteError {
    /// The healthy subset was empty at selection time.
    NoBackends,
    /// The backend chosen by file or by URL is unhealthy.
    BackendUnhealthy,
    /// The URL names a backend that the registry lacks.
    BackendUnknown,
    /// The catalog names a backend that the registry lacks.
    ConfigurationMismatch,
    /// The forward URI could not be built.
    BadUri,
    /// The backend could not be reached.
    TransportFailure,
    /// The request's token is over its rate limit.
    RateExceeded,
}

impl RouteError {
    /// The HTTP status answered for this error.
    pub fn status_code(&self) -> (r: u16)
        ensures
            r == match *self {
                RouteError::NoBackends => 503u16,
                RouteError::BackendUnhealthy => 503u16,
                RouteError::BackendUnknown => 404u16,
                RouteError::ConfigurationMismatch => 500u16,
                RouteError::BadUri => 500u16,
                RouteError::TransportFailure => 502u16,
                RouteError::RateExceeded => 429u16,
            },
    {
        match self {
            RouteError::NoBackends => 503,
            RouteError::BackendUnhealthy => 503,
            RouteError::BackendUnknown => 404,
            RouteError::ConfigurationMismatch => 500,
            RouteError::BadUri => 500,
            RouteError::TransportFailure => 502,
            RouteError::RateExceeded => 429,
        }
    }
}

/// What the catalog answered for the owner of a file.
pub enum CatalogLookup {
    Owner(String),
    NotFound,
    Unavailable,
}

/// The backend that serves a request, and how it was chosen.
pub enum RoutingDecision {
    ContentAddressed(Backend),
    LoadBalanced(Backend),
}

impl RoutingDecision {
    pub open spec fn target(&self) -> Backend {
        match self {
            RoutingDecision::ContentAddressed(b) => *b,
            RoutingDecision::LoadBalanced(b) => *b,
        }
    }

    /// The backend that serves the request.
    pub fn backend(&self) -> (r: &Backend)
        ensures
            *r == self.target(),
    {
        match self {
            RoutingDecision::ContentAddressed(b) => b,
            RoutingDecision::LoadBalanced(b) => b,
        }
    }

    /// Whether the balancer made this choice, so must hear of its release.
    pub fn via_balancer(&self) -> (r: bool)
        ensures
            r == (self is LoadBalanced),
    {
        match self {
            RoutingDecision::ContentAddressed(_) => false,
            RoutingDecision::LoadBalanced(_) => true,
        }
    }
}

/// The backends that health bookkeeping lets the balancer choose from.
pub open spec fn healthy_subset(backends: Seq<Backend>, health: HealthChecker) -> Seq<BackendView> {
    views(backends).filter(|b: BackendView| health.healthy(b.server_id))
}

/// Lets the balancer pick among the healthy backends.
pub fn select_backend_via_load_balancer(
    backends: &[Backend],
    health: &HealthChecker,
    balancer: &mut Balancer,
) -> (r: Result<Backend, RouteError>)
    ensures
        healthy_subset(backends@, *health).len() == 0 ==> r == Err::<Backend, RouteError>(
            RouteError::NoBackends,
        ) && *final(balancer) == *old(balancer),
        healthy_subset(backends@, *health).len() > 0 ==> r is Ok && old(balancer).selects(
            final(balancer),
            healthy_subset(backends@, *health),
            Some(r->Ok_0),
        ),
{
    let healthy = health.get_healthy_backends(backends);
    if healthy.len() == 0 {
        return Err(RouteError::NoBackends);
    }
    match balancer.select(healthy.as_slice()) {
        Some(b) => Ok(b),
        None => Err(RouteError::NoBackends),
    }
}

/// Routes a request whose path named `file_lookup`'s file (or none, when
/// `file_lookup` is `None`): to the owning backend when the catalog names
/// one, else by the balancer.
pub fn resolve_route(
    file_lookup: Option<CatalogLookup>,
    backends: &[Backend],
    health: &HealthChecker,
    balancer: &mut Balancer,
) -> (r: Result<RoutingDecision, RouteError>)
    ensures
        match file_lookup {
            Some(CatalogLookup::Owner(id)) => *final(balancer) == *old(balancer) && match first_with_id(
                views(backends@),
                id@,
            ) {
                None => r == Err::<RoutingDecision, RouteError>(RouteError::ConfigurationMismatch),
                Some(i) => if health.healthy(id@) {
                    r is Ok && r->Ok_0 is ContentAddressed && r->Ok_0.target()@ == backends@[i]@
                } else {
                    r == Err::<RoutingDecision, RouteError>(RouteError::BackendUnhealthy)
                },
            },
            _ => if healthy_subset(backends@, *health).len() == 0 {
                r == Err::<RoutingDecision, RouteError>(RouteError::NoBackends) && *final(balancer)
                    == *old(balancer)
            } else {
                r is Ok && r->Ok_0 is LoadBalanced && old(balancer).selects(
                    final(balancer),
                    healthy_subset(backends@, *health),
                    Some(r->Ok_0.target()),
                )
            },
        },
{
    match file_lookup {
        Some(CatalogLookup::Owner(id)) => match find_backend(backends, id.as_str()) {
            Some(b) => {
                if health.is_backend_healthy(id.as_str()) {
                    Ok(RoutingDecision::ContentAddressed(b))
                } else {
                    Err(RouteError::BackendUnhealthy)
                }
            },
            None => Err(RouteError::ConfigurationMismatch),
        },
        _ => match select_backend_via_load_balancer(backends, health, balancer) {
            Ok(b) => Ok(RoutingDecision::LoadBalanced(b)),
            Err(e) => Err(e),
        },
    }
}

/// The backend that a request naming `server_id` in its URL goes to.
pub fn resolve_specific_backend(server_id: &str, backends: &[Backend], health: &HealthChecker) -> (r: Result<
    Backend,
    RouteError,
>)
    ensures
        match first_with_id(views(backends@), server_id@) {
            None => r == Err::<Backend, RouteError>(RouteError::BackendUnknown),
            Some(i) => if health.healthy(server_id@) {
                r is Ok && r->Ok_0@ == backends@[i]@
            } else {
                r == Err::<Backend, RouteError>(RouteError::BackendUnhealthy)
            },
        },
{
    match find_backend(backends, server_id) {
        Some(b) => {
            if health.is_backend_healthy(server_id) {
                Ok(b)
            } else {
                Err(RouteError::BackendUnhealthy)
            }
        },
        None => Err(RouteError::BackendUnknown),
    }
}


/// With an empty registry there is nothing healthy to balance over and no
/// backend to find by identifier: a request routed by the balancer gets
/// `NoBackends` (503).
pub proof fn lemma_empty_registry(health: HealthChecker, id: Seq<char>)
    ensures
        healthy_subset(Seq::<Backend>::empty(), health).len() == 0,
        first_with_id(views(Seq::<Backend>::empty()), id) is None,
{
    reveal(Seq::filter);
    assert(views(Seq::<Backend>::empty()) =~= Seq::<BackendView>::empty());
}

} // verus!
