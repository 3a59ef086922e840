//! Keystone: the login request, the service catalog (which endpoint URL to
//! use for each service type), and the URLs that requests go to.

use vstd::prelude::*;
use crate::auth::{opt_str, CloudAuth, CloudAuthView};
use crate::text::{chars_of, extend_str, string_from_chars, trim_end_char, trim_end_char_of};

verus! {

/// One entry of a service's `endpoints`: each field is the member's string,
/// or `None` where the member is absent or not a string.
pub struct CatalogEndpoint {
    pub url: Option<String>,
    pub interface: Option<String>,
    pub region: Option<String>,
}

/// One entry of the catalog: its `type` and its `endpoints` array, each
/// `None` where the member is absent or of another kind.
pub struct CatalogService {
    pub service_type: Option<String>,
    pub endpoints: Option<Vec<CatalogEndpoint>>,
}

/// Whether an endpoint may serve: it has a URL, and where a region is asked
/// for, it names no other region.
pub open spec fn usable(ep: CatalogEndpoint, region: Option<Seq<char>>) -> bool {
    &&& ep.url is Some
    &&& !(region is Some && ep.region is Some && opt_str(ep.region) != region)
}

/// An endpoint's preference: 2 for the `public` interface, 1 otherwise.
pub open spec fn priority_of(ep: CatalogEndpoint) -> int {
    if opt_str(ep.interface) == Some("public"@) {
        2
    } else {
        1
    }
}

/// The best (url, priority) among the usable endpoints from index `i` on,
/// given the best so far: a later endpoint wins only with a higher priority.
pub open spec fn best_from(
    eps: Seq<CatalogEndpoint>,
    region: Option<Seq<char>>,
    i: int,
    best: Option<(Seq<char>, int)>,
) -> Option<(Seq<char>, int)>
    decreases eps.len() - i,
{
    if i < 0 || i >= eps.len() {
        best
    } else if usable(eps[i], region) {
        let p = priority_of(eps[i]);
        let next = match best {
            Some(b) => if p > b.1 {
                Some((eps[i].url->0@, p))
            } else {
                best
            },
            None => Some((eps[i].url->0@, p)),
        };
        best_from(eps, region, i + 1, next)
    } else {
        best_from(eps, region, i + 1, best)
    }
}

/// The URL chosen among a service's endpoints: the first usable `public`
/// one, else the first usable one.
pub open spec fn best_url_of(eps: Seq<CatalogEndpoint>, region: Option<Seq<char>>) -> Option<
    Seq<char>,
> {
    match best_from(eps, region, 0, None) {
        Some(b) => Some(b.0),
        None => None,
    }
}

/// The index of the first pair with key `k` from `i` on (`m.len()` if none).
pub open spec fn key_index_from(m: Seq<(Seq<char>, Seq<char>)>, k: Seq<char>, i: int) -> int
    decreases m.len() - i,
{
    if i < 0 || i >= m.len() {
        m.len() as int
    } else if m[i].0 == k {
        i
    } else {
        key_index_from(m, k, i + 1)
    }
}

/// `m` with `k` mapped to `v`: the pair for `k` replaced where there is one,
/// else a new pair at the end, as a map insert leaves it.
pub open spec fn assoc_insert(m: Seq<(Seq<char>, Seq<char>)>, k: Seq<char>, v: Seq<char>) -> Seq<
    (Seq<char>, Seq<char>),
> {
    let i = key_index_from(m, k, 0);
    if 0 <= i < m.len() {
        m.update(i, (k, v))
    } else {
        m.push((k, v))
    }
}

/// The endpoint map that `services` give: for each service with a type, an
/// endpoints array and a usable endpoint, its type mapped to the chosen URL;
/// a later service of the same type replaces an earlier one.
pub open spec fn endpoints_of(services: Seq<CatalogService>, region: Option<Seq<char>>) -> Seq<
    (Seq<char>, Seq<char>),
>
    decreases services.len(),
{
    if services.len() == 0 {
        Seq::empty()
    } else {
        let m = endpoints_of(services.drop_last(), region);
        let s = services.last();
        match (s.service_type, s.endpoints) {
            (Some(t), Some(eps)) => match best_url_of(eps@, region) {
                Some(u) => assoc_insert(m, t@, u),
                None => m,
            },
            _ => m,
        }
    }
}

/// The endpoint map of a token response whose `/token/catalog` is
/// `catalog` (`None` where that is not an array): empty without a catalog.
pub open spec fn parse_catalog_of(catalog: Option<Vec<CatalogService>>, region: Option<Seq<char>>) -> Seq<
    (Seq<char>, Seq<char>),
> {
    match catalog {
        Some(services) => endpoints_of(services@, region),
        None => Seq::empty(),
    }
}

/// The view of a list of string pairs.
pub open spec fn pairs_view(v: Seq<(String, String)>) -> Seq<(Seq<char>, Seq<char>)> {
    v.map_values(|p: (String, String)| (p.0@, p.1@))
}

fn best_url(eps: &Vec<CatalogEndpoint>, region: &Option<String>) -> (r: Option<String>)
    ensures
        opt_str(r) == best_url_of(eps@, opt_str(*region)),
{
    let ghost reg = opt_str(*region);
    let public = String::from_str("public");
    let mut best: Option<(String, u8)> = None;
    let mut i: usize = 0;
    while i < eps.len()
        invariant
            i <= eps.len(),
            reg == opt_str(*region),
            public@ == "public"@,
            best_from(eps@, reg, 0, None) == best_from(
                eps@,
                reg,
                i as int,
                match best {
                    Some(b) => Some((b.0@, b.1 as int)),
                    None => None,
                },
            ),
        decreases eps.len() - i,
    {
        let ep = &eps[i];
        let region_ok = match (region, &ep.region) {
            (Some(want), Some(have)) => *have == *want,
            _ => true,
        };
        match &ep.url {
            Some(url) => {
                if region_ok {
                    let p: u8 = match &ep.interface {
                        Some(s) => if *s == public {
                            2
                        } else {
                            1
                        },
                        None => 1,
                    };
                    assert(p == priority_of(eps@[i as int]));
                    let better = match &best {
                        Some(b) => p > b.1,
                        None => true,
                    };
                    if better {
                        best = Some((url.clone(), p));
                    }
                }
            },
            None => {},
        }
        i += 1;
    }
    match best {
        Some(b) => Some(b.0),
        None => None,
    }
}

/// The index of the pair whose key is `k`, if any.
fn key_index(m: &Vec<(String, String)>, k: &String) -> (r: usize)
    ensures
        r as int == key_index_from(pairs_view(m@), k@, 0),
{
    let ghost mv = pairs_view(m@);
    let mut i: usize = 0;
    while i < m.len()
        invariant
            i <= m.len(),
            mv == pairs_view(m@),
            key_index_from(mv, k@, 0) == key_index_from(mv, k@, i as int),
        decreases m.len() - i,
    {
        if m[i].0 == *k {
            return i;
        }
        i += 1;
    }
    i
}

/// The endpoint URL of each service type in the catalog of a token response
/// (see `parse_catalog_of`): per service the first usable `public` endpoint,
/// else the first usable one, where usable means it has a URL and, if
/// `region` is given, names no other region.
pub fn parse_catalog(catalog: &Option<Vec<CatalogService>>, region: Option<&str>) -> (r: Vec<
    (String, String),
>)
    ensures
        pairs_view(r@) == parse_catalog_of(*catalog, match region {
            Some(s) => Some(s@),
            None => None,
        }),
{
    let region: Option<String> = match region {
        Some(s) => Some(String::from_str(s)),
        None => None,
    };
    let mut out: Vec<(String, String)> = Vec::new();
    let services = match catalog {
        Some(s) => s,
        None => {
            return out;
        },
    };
    let ghost reg = opt_str(region);
    let mut i: usize = 0;
    while i < services.len()
        invariant
            i <= services.len(),
            reg == opt_str(region),
            pairs_view(out@) == endpoints_of(services@.take(i as int), reg),
        decreases services.len() - i,
    {
        assert(services@.take(i + 1).drop_last() =~= services@.take(i as int));
        assert(services@.take(i + 1).last() == services@[i as int]);
        let s = &services[i];
        match (&s.service_type, &s.endpoints) {
            (Some(t), Some(eps)) => match best_url(eps, &region) {
                Some(u) => {
                    let ghost before = pairs_view(out@);
                    let k = key_index(&out, t);
                    if k < out.len() {
                        out.set(k, (t.clone(), u));
                        assert(pairs_view(out@) =~= assoc_insert(before, t@, u@));
                    } else {
                        out.push((t.clone(), u));
                        assert(pairs_view(out@) =~= assoc_insert(before, t@, u@));
                    }
                },
                None => {},
            },
            _ => {},
        }
        i += 1;
    }
    assert(services@.take(i as int) =~= services@);
    out
}


/// The value that `m` maps `k` to, if any.
pub open spec fn lookup_of(m: Seq<(Seq<char>, Seq<char>)>, k: Seq<char>) -> Option<Seq<char>> {
    let i = key_index_from(m, k, 0);
    if 0 <= i < m.len() {
        Some(m[i].1)
    } else {
        None
    }
}

/// The endpoint URL of `service_type`, if the catalog has one.
pub fn find_endpoint(endpoints: &Vec<(String, String)>, service_type: &str) -> (r: Option<String>)
    ensures
        opt_str(r) == lookup_of(pairs_view(endpoints@), service_type@),
{
    let k = String::from_str(service_type);
    let i = key_index(endpoints, &k);
    if i < endpoints.len() {
        Some(endpoints[i].1.clone())
    } else {
        None
    }
}

/// The URL of `path` on the endpoint of `service_type` (the endpoint without
/// trailing slashes, then `path`), or the error for a service the catalog
/// lacks.
pub open spec fn service_url_of(
    endpoints: Seq<(Seq<char>, Seq<char>)>,
    service_type: Seq<char>,
    path: Seq<char>,
) -> Result<Seq<char>, Seq<char>> {
    match lookup_of(endpoints, service_type) {
        Some(base) => Ok(trim_end_char_of(base, '/') + path),
        None => Err("no '"@ + service_type + "' endpoint in this cloud's service catalog"@),
    }
}

/// The URL that a request for `path` on `service_type` goes to (see
/// `service_url_of`).
pub fn service_url(endpoints: &Vec<(String, String)>, service_type: &str, path: &str) -> (r: Result<
    String,
    String,
>)
    ensures
        match r {
            Ok(u) => service_url_of(pairs_view(endpoints@), service_type@, path@) == Ok::<
                Seq<char>,
                Seq<char>,
            >(u@),
            Err(e) => service_url_of(pairs_view(endpoints@), service_type@, path@) == Err::<
                Seq<char>,
                Seq<char>,
            >(e@),
        },
{
    match find_endpoint(endpoints, service_type) {
        Some(base) => {
            let mut v = trim_end_char(&chars_of(base.as_str()), '/');
            extend_str(&mut v, path);
            Ok(string_from_chars(&v))
        },
        None => {
            let mut v: Vec<char> = Vec::new();
            extend_str(&mut v, "no '");
            extend_str(&mut v, service_type);
            extend_str(&mut v, "' endpoint in this cloud's service catalog");
            Err(string_from_chars(&v))
        },
    }
}

/// Keystone's token URL: the auth URL without trailing slashes, then
/// `/auth/tokens`.
pub open spec fn auth_tokens_url_of(auth_url: Seq<char>) -> Seq<char> {
    trim_end_char_of(auth_url, '/') + "/auth/tokens"@
}

/// Keystone's token URL for `auth_url` (see `auth_tokens_url_of`).
pub fn auth_tokens_url(auth_url: &str) -> (r: String)
    ensures
        r@ == auth_tokens_url_of(auth_url@),
{
    let mut v = trim_end_char(&chars_of(auth_url), '/');
    extend_str(&mut v, "/auth/tokens");
    string_from_chars(&v)
}

/// No key occurs twice in `m`.
pub open spec fn keys_distinct(m: Seq<(Seq<char>, Seq<char>)>) -> bool {
    forall|i: int, j: int| 0 <= i < j < m.len() ==> #[trigger] m[i].0 != #[trigger] m[j].0
}

proof fn lemma_key_index_from(m: Seq<(Seq<char>, Seq<char>)>, k: Seq<char>, i: int)
    requires
        0 <= i <= m.len(),
    ensures
        i <= key_index_from(m, k, i) <= m.len(),
        key_index_from(m, k, i) < m.len() ==> m[key_index_from(m, k, i)].0 == k,
        forall|j: int| i <= j < key_index_from(m, k, i) ==> m[j].0 != k,
    decreases m.len() - i,
{
    if i < m.len() && m[i].0 != k {
        lemma_key_index_from(m, k, i + 1);
    }
}

proof fn lemma_endpoints_keys_distinct(services: Seq<CatalogService>, region: Option<Seq<char>>)
    ensures
        keys_distinct(endpoints_of(services, region)),
    decreases services.len(),
{
    if services.len() > 0 {
        let m = endpoints_of(services.drop_last(), region);
        lemma_endpoints_keys_distinct(services.drop_last(), region);
        let s = services.last();
        match (s.service_type, s.endpoints) {
            (Some(t), Some(eps)) => match best_url_of(eps@, region) {
                Some(u) => {
                    lemma_key_index_from(m, t@, 0);
                    let r = assoc_insert(m, t@, u);
                    assert forall|i: int, j: int| 0 <= i < j < r.len() implies #[trigger] r[i].0
                        != #[trigger] r[j].0 by {
                        if j < m.len() {
                            assert(r[i].0 == m[i].0 && r[j].0 == m[j].0);
                        }
                    }
                },
                None => {},
            },
            _ => {},
        }
    }
}

/// The catalog maps each service type to one URL: no type occurs twice.
pub proof fn lemma_catalog_keys_distinct(
    catalog: Option<Vec<CatalogService>>,
    region: Option<Seq<char>>,
)
    ensures
        keys_distinct(parse_catalog_of(catalog, region)),
{
    if let Some(services) = catalog {
        lemma_endpoints_keys_distinct(services@, region);
    }
}

proof fn lemma_best_from_usable(
    eps: Seq<CatalogEndpoint>,
    region: Option<Seq<char>>,
    i: int,
    best: Option<(Seq<char>, int)>,
)
    requires
        0 <= i <= eps.len(),
        best matches Some(b) ==> exists|j: int|
            0 <= j < eps.len() && usable(#[trigger] eps[j], region) && eps[j].url->0@ == b.0,
    ensures
        best_from(eps, region, i, best) matches Some(b) ==> exists|j: int|
            0 <= j < eps.len() && usable(#[trigger] eps[j], region) && eps[j].url->0@ == b.0,
    decreases eps.len() - i,
{
    if i < eps.len() {
        if usable(eps[i], region) {
            let p = priority_of(eps[i]);
            let next = match best {
                Some(b) => if p > b.1 {
                    Some((eps[i].url->0@, p))
                } else {
                    best
                },
                None => Some((eps[i].url->0@, p)),
            };
            lemma_best_from_usable(eps, region, i + 1, next);
        } else {
            lemma_best_from_usable(eps, region, i + 1, best);
        }
    }
}

/// The chosen URL is that of an endpoint that has a URL and, where a region
/// is asked for, names no other region.
pub proof fn lemma_best_url_usable(eps: Seq<CatalogEndpoint>, region: Option<Seq<char>>)
    ensures
        best_url_of(eps, region) matches Some(u) ==> exists|j: int|
            0 <= j < eps.len() && usable(#[trigger] eps[j], region) && eps[j].url->0@ == u,
{
    lemma_best_from_usable(eps, region, 0, None);
}

/// A usable `public` endpoint at index `j`.
pub open spec fn usable_public(eps: Seq<CatalogEndpoint>, region: Option<Seq<char>>, j: int) -> bool {
    0 <= j < eps.len() && usable(eps[j], region) && priority_of(eps[j]) == 2
}

proof fn lemma_best_from_keeps_top(
    eps: Seq<CatalogEndpoint>,
    region: Option<Seq<char>>,
    i: int,
    b: (Seq<char>, int),
)
    requires
        0 <= i <= eps.len(),
        b.1 == 2,
    ensures
        best_from(eps, region, i, Some(b)) == Some(b),
    decreases eps.len() - i,
{
    if i < eps.len() {
        lemma_best_from_keeps_top(eps, region, i + 1, b);
    }
}

proof fn lemma_best_from_public(
    eps: Seq<CatalogEndpoint>,
    region: Option<Seq<char>>,
    i: int,
    best: Option<(Seq<char>, int)>,
    j: int,
)
    requires
        0 <= i <= j,
        usable_public(eps, region, j),
        forall|k: int| i <= k < j ==> !usable_public(eps, region, k),
        best matches Some(b) ==> b.1 < 2,
    ensures
        best_from(eps, region, i, best) == Some((eps[j].url->0@, 2int)),
    decreases eps.len() - i,
{
    if i < j {
        assert(!usable_public(eps, region, i));
        if usable(eps[i], region) {
            let p = priority_of(eps[i]);
            let next = match best {
                Some(b) => if p > b.1 {
                    Some((eps[i].url->0@, p))
                } else {
                    best
                },
                None => Some((eps[i].url->0@, p)),
            };
            lemma_best_from_public(eps, region, i + 1, next, j);
        } else {
            lemma_best_from_public(eps, region, i + 1, best, j);
        }
    } else {
        lemma_best_from_keeps_top(eps, region, j + 1, (eps[j].url->0@, 2int));
    }
}

/// A service's chosen URL is that of its first usable `public` endpoint,
/// wherever it has one.
pub proof fn lemma_best_url_prefers_public(
    eps: Seq<CatalogEndpoint>,
    region: Option<Seq<char>>,
    j: int,
)
    requires
        usable_public(eps, region, j),
        forall|k: int| 0 <= k < j ==> !usable_public(eps, region, k),
    ensures
        best_url_of(eps, region) == Some(eps[j].url->0@),
{
    lemma_best_from_public(eps, region, 0, None, j);
}


/// The JSON text of the string `s` (quoted and escaped), as `serde_json`
/// writes it.
pub uninterp spec fn json_string_of(s: Seq<char>) -> Seq<char>;

/// `serde_json`'s `Display` of `Value::String`: `s` as a JSON string
/// literal. The contract claims only that the result is `json_string_of(s)`;
/// the escaping is left to the name.
#[verifier::external_body]
pub(crate) fn json_string(s: &str) -> (r: String)
    ensures
        r@ == json_string_of(s@),
{
    serde_json::Value::String(s.to_string()).to_string()
}

/// The body of a password-scoped Keystone v3 token request for `a`, as
/// `serde_json` writes the request object (members in key order, no
/// spaces).
pub open spec fn login_body_of(a: CloudAuthView) -> Seq<char> {
    "{\"auth\":{\"identity\":{\"methods\":[\"password\"],\"password\":{\"user\":{\"domain\":{\"name\":"@
        + json_string_of(a.user_domain_name) + "},\"name\":"@ + json_string_of(a.username)
        + ",\"password\":"@ + json_string_of(a.password)
        + "}}},\"scope\":{\"project\":{\"domain\":{\"name\":"@ + json_string_of(
        a.project_domain_name,
    ) + "},\"name\":"@ + json_string_of(a.project_name) + "}}}}"@
}

/// The JSON body of the token request for `auth` (see `login_body_of`).
pub fn login_request_body(auth: &CloudAuth) -> (r: String)
    ensures
        r@ == login_body_of(auth@),
{
    let mut v: Vec<char> = Vec::new();
    extend_str(
        &mut v,
        "{\"auth\":{\"identity\":{\"methods\":[\"password\"],\"password\":{\"user\":{\"domain\":{\"name\":",
    );
    extend_str(&mut v, json_string(auth.user_domain_name.as_str()).as_str());
    extend_str(&mut v, "},\"name\":");
    extend_str(&mut v, json_string(auth.username.as_str()).as_str());
    extend_str(&mut v, ",\"password\":");
    extend_str(&mut v, json_string(auth.password.as_str()).as_str());
    extend_str(&mut v, "}}},\"scope\":{\"project\":{\"domain\":{\"name\":");
    extend_str(&mut v, json_string(auth.project_domain_name.as_str()).as_str());
    extend_str(&mut v, "},\"name\":");
    extend_str(&mut v, json_string(auth.project_name.as_str()).as_str());
    extend_str(&mut v, "}}}}");
    assert(v@ =~= login_body_of(auth@));
    string_from_chars(&v)
}

} // verus!
