use vstd::prelude::*;
use crate::principal::{check_principal, principal_valid};
use crate::text::{find_char, has_prefix, index_of, lemma_index_at_end, lemma_index_in_range, starts_with};

verus! {

/// Number of leading `'/'` characters.
pub open spec fn leading_slashes(s: Seq<char>) -> nat
    decreases s.len(),
{
    if s.len() == 0 || s[0] != '/' {
        0
    } else {
        1 + leading_slashes(s.skip(1))
    }
}

/// The path of a request target: the text before any `?`, without its
/// leading slashes.
pub open spec fn request_path(url: Seq<char>) -> Seq<char> {
    let p = url.take(index_of(url, '?') as int);
    p.skip(leading_slashes(p) as int)
}

/// Where a request goes.
#[derive(Debug)]
pub enum Route {
    Holdings(String),
    Summary(String),
    Metrics,
    Graphql,
    NotFound,
}

/// The view of a route: the principal text of the user routes.
pub enum RouteView {
    Holdings(Seq<char>),
    Summary(Seq<char>),
    Metrics,
    Graphql,
    NotFound,
}

impl View for Route {
    type V = RouteView;

    open spec fn view(&self) -> RouteView {
        match self {
            Route::Holdings(p) => RouteView::Holdings(p@),
            Route::Summary(p) => RouteView::Summary(p@),
            Route::Metrics => RouteView::Metrics,
            Route::Graphql => RouteView::Graphql,
            Route::NotFound => RouteView::NotFound,
        }
    }
}

/// The second segment of `path` when its first is `head`: what follows
/// `head/`, provided it holds no further `/`.
pub open spec fn user_segment(path: Seq<char>, head: Seq<char>) -> Option<Seq<char>> {
    let prefix = head.push('/');
    if has_prefix(path, prefix) && !path.skip(prefix.len() as int).contains('/') {
        Some(path.skip(prefix.len() as int))
    } else {
        None
    }
}

/// The route of a request target. `/holdings/{p}` and `/summary/{p}` need a
/// valid principal `p`; anything else that is not `/metrics` or `/graphql`
/// is not found.
pub open spec fn route_of(url: Seq<char>) -> RouteView {
    let p = request_path(url);
    if p == "metrics"@ {
        RouteView::Metrics
    } else if p == "graphql"@ {
        RouteView::Graphql
    } else if user_segment(p, "holdings"@) is Some && principal_valid(
        user_segment(p, "holdings"@)->Some_0,
    ) {
        RouteView::Holdings(user_segment(p, "holdings"@)->Some_0)
    } else if user_segment(p, "summary"@) is Some && principal_valid(
        user_segment(p, "summary"@)->Some_0,
    ) {
        RouteView::Summary(user_segment(p, "summary"@)->Some_0)
    } else {
        RouteView::NotFound
    }
}

proof fn lemma_leading_slashes(s: Seq<char>, i: int)
    requires
        0 <= i <= s.len(),
        forall|j: int| 0 <= j < i ==> s[j] == '/',
        i == s.len() || s[i] != '/',
    ensures
        leading_slashes(s) == i,
    decreases i,
{
    if i > 0 {
        lemma_leading_slashes(s.skip(1), i - 1);
    }
}

fn count_slashes(s: &str) -> (r: usize)
    ensures
        r == leading_slashes(s@),
{
    let n = s.unicode_len();
    let mut i: usize = 0;
    while i < n
        invariant
            n == s@.len(),
            i <= n,
            forall|j: int| 0 <= j < i ==> s@[j] == '/',
        decreases n - i,
    {
        if s.get_char(i) != '/' {
            proof {
                lemma_leading_slashes(s@, i as int);
            }
            return i;
        }
        i = i + 1;
    }
    proof {
        lemma_leading_slashes(s@, i as int);
    }
    i
}

fn user_part<'a>(path: &'a str, prefix: &str) -> (r: Option<&'a str>)
    ensures
        match r {
            Some(t) => has_prefix(path@, prefix@) && !path@.skip(prefix@.len() as int).contains('/')
                && t@ == path@.skip(prefix@.len() as int),
            None => !(has_prefix(path@, prefix@) && !path@.skip(prefix@.len() as int).contains(
                '/',
            )),
        },
{
    if !starts_with(path, prefix) {
        return None;
    }
    let n = path.unicode_len();
    let m = prefix.unicode_len();
    let rest = path.substring_char(m, n);
    let k = find_char(rest, '/');
    proof {
        assert(rest@ =~= path@.skip(m as int));
    }
    if k < rest.unicode_len() {
        proof {
            lemma_index_in_range(rest@, '/');
        }
        None
    } else {
        proof {
            lemma_index_at_end(rest@, '/');
        }
        Some(rest)
    }
}

/// Routes a request target.
pub fn route(url: &str) -> (r: Route)
    ensures
        r@ == route_of(url@),
{
    let q = find_char(url, '?');
    proof {
        lemma_index_in_range(url@, '?');
    }
    let p = url.substring_char(0, q);
    let s = count_slashes(p);
    proof {
        assert(leading_slashes(p@) <= p@.len()) by {
            lemma_slashes_bound(p@);
        }
    }
    let path = p.substring_char(s, p.unicode_len());
    proof {
        assert(path@ =~= request_path(url@));
        reveal_strlit("metrics");
        reveal_strlit("graphql");
        reveal_strlit("holdings/");
        reveal_strlit("summary/");
        assert("holdings"@.push('/') =~= "holdings/"@) by {
            reveal_strlit("holdings");
        }
        assert("summary"@.push('/') =~= "summary/"@) by {
            reveal_strlit("summary");
        }
    }
    let metrics = String::from_str("metrics");
    let graphql = String::from_str("graphql");
    let path_text = String::from_str(path);
    if path_text == metrics {
        return Route::Metrics;
    }
    if path_text == graphql {
        return Route::Graphql;
    }
    match user_part(path, "holdings/") {
        Some(user) => {
            let u = String::from_str(user);
            if check_principal(&u) {
                return Route::Holdings(u);
            }
        },
        None => {},
    }
    match user_part(path, "summary/") {
        Some(user) => {
            let u = String::from_str(user);
            if check_principal(&u) {
                return Route::Summary(u);
            }
        },
        None => {},
    }
    Route::NotFound
}

proof fn lemma_slashes_bound(s: Seq<char>)
    ensures
        leading_slashes(s) <= s.len(),
    decreases s.len(),
{
    if s.len() > 0 && s[0] == '/' {
        lemma_slashes_bound(s.skip(1));
    }
}

/// Status of a reply to a route that answered.
pub const STATUS_OK: u16 = 200;

/// Status of a reply to a route that was not found.
pub const STATUS_NOT_FOUND: u16 = 404;

/// Content type of every reply.
pub const JSON_CONTENT_TYPE: &'static str = "application/json";

/// Body of a reply to a route that was not found.
pub fn not_found_body() -> (r: String)
    ensures
        r@ == "{\"error\":\"not found\"}"@,
{
    String::from_str("{\"error\":\"not found\"}")
}

/// The status of a reply to `r`.
pub fn status_of(r: &Route) -> (s: u16)
    ensures
        s == if r@ is NotFound {
            STATUS_NOT_FOUND
        } else {
            STATUS_OK
        },
{
    match r {
        Route::NotFound => STATUS_NOT_FOUND,
        _ => STATUS_OK,
    }
}

/// A `/holdings/{p}` or `/summary/{p}` request whose `p` is not a valid
/// principal is not found, like any path that names no route.
pub proof fn lemma_bad_principal_not_found(url: Seq<char>, user: Seq<char>)
    requires
        request_path(url) == "holdings/"@ + user || request_path(url) == "summary/"@ + user,
        !principal_valid(user),
    ensures
        route_of(url) is NotFound,
{
    let p = request_path(url);
    reveal_strlit("holdings/");
    reveal_strlit("summary/");
    reveal_strlit("holdings");
    reveal_strlit("summary");
    reveal_strlit("metrics");
    reveal_strlit("graphql");
    let h = "holdings"@.push('/');
    let su = "summary"@.push('/');
    assert(h =~= "holdings/"@);
    assert(su =~= "summary/"@);
    if p == "holdings/"@ + user {
        assert(p[0] == 'h');
        assert(p != "metrics"@ && p != "graphql"@) by {
            assert("metrics"@[0] == 'm');
            assert("graphql"@[0] == 'g');
        }
        assert(p.skip(9) =~= user);
        assert(!has_prefix(p, su)) by {
            assert(su[0] == 's');
            if su.len() <= p.len() {
                assert(p.subrange(0, su.len() as int)[0] == 'h');
            }
        }
    } else {
        assert(p[0] == 's');
        assert(p != "metrics"@ && p != "graphql"@) by {
            assert("metrics"@[0] == 'm');
            assert("graphql"@[0] == 'g');
        }
        assert(p.skip(8) =~= user);
        assert(!has_prefix(p, h)) by {
            assert(h[0] == 'h');
            if h.len() <= p.len() {
                assert(p.subrange(0, h.len() as int)[0] == 's');
            }
        }
    }
}

} // verus!
