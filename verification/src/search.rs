//! Web search and extract logic: the backend chain (keyed backends join the
//! front only when their keyring account resolves), the order a search tries
//! them in, what each backend is asked and what its reply yields, and the
//! readability-lite extraction of a page's text.
//!
//! Auto order: tavily > exa > brave > searxng > ddgs. Failures rotate the
//! chain for the lifetime of the registry.
use vstd::prelude::*;
use crate::json::{Json, JsonV, items_view, fields_view, jobj, jstr, no_members, push_member, str_field};
use crate::config::SearchCfg;
use crate::llm::rotation;
use crate::text::{owned, trim, trim_ws, trim_end_class, CharClass, u64_to_string, decimal};

verus! {

/// One search result.
#[derive(Debug, PartialEq)]
pub struct SearchHit {
    pub title: String,
    pub url: String,
    pub snippet: String,
}

/// The mathematical value of a [`SearchHit`].
pub struct SearchHitV {
    pub title: Seq<char>,
    pub url: Seq<char>,
    pub snippet: Seq<char>,
}

impl View for SearchHit {
    type V = SearchHitV;

    open spec fn view(&self) -> SearchHitV {
        SearchHitV { title: self.title@, url: self.url@, snippet: self.snippet@ }
    }
}

pub open spec fn hits_view(h: Seq<SearchHit>) -> Seq<SearchHitV> {
    h.map_values(|x: SearchHit| x@)
}

/// The user agent sent with every search and extract request.
pub const BROWSER_UA: &'static str = "Mozilla/5.0 (X11; Linux x86_64) AppleWebKit/537.36 (KHTML, like Gecko) Chrome/126.0 Safari/537.36";

/// A search backend with what it needs to run.
#[derive(Debug, PartialEq)]
pub enum Backend {
    Ddgs,
    /// instance base url
    Searxng(String),
    /// api key
    Brave(String),
    /// api key
    Tavily(String),
    /// api key
    Exa(String),
}

/// The mathematical value of a [`Backend`].
pub enum BackendK {
    Ddgs,
    Searxng(Seq<char>),
    Brave(Seq<char>),
    Tavily(Seq<char>),
    Exa(Seq<char>),
}

impl View for Backend {
    type V = BackendK;

    open spec fn view(&self) -> BackendK {
        match self {
            Backend::Ddgs => BackendK::Ddgs,
            Backend::Searxng(s) => BackendK::Searxng(s@),
            Backend::Brave(s) => BackendK::Brave(s@),
            Backend::Tavily(s) => BackendK::Tavily(s@),
            Backend::Exa(s) => BackendK::Exa(s@),
        }
    }
}

pub open spec fn backends_view(s: Seq<Backend>) -> Seq<BackendK> {
    s.map_values(|b: Backend| b@)
}

pub open spec fn backend_name(b: BackendK) -> Seq<char> {
    match b {
        BackendK::Ddgs => "ddgs"@,
        BackendK::Searxng(_) => "searxng"@,
        BackendK::Brave(_) => "brave"@,
        BackendK::Tavily(_) => "tavily"@,
        BackendK::Exa(_) => "exa"@,
    }
}

impl Backend {
    /// The backend's name as configured in `search_backend`.
    pub fn name(&self) -> (r: &'static str)
        ensures
            r@ == backend_name(self@),
    {
        match self {
            Backend::Ddgs => "ddgs",
            Backend::Searxng(_) => "searxng",
            Backend::Brave(_) => "brave",
            Backend::Tavily(_) => "tavily",
            Backend::Exa(_) => "exa",
        }
    }
}

fn clone_backend(b: &Backend) -> (r: Backend)
    ensures
        r@ == b@,
{
    match b {
        Backend::Ddgs => Backend::Ddgs,
        Backend::Searxng(s) => Backend::Searxng(s.clone()),
        Backend::Brave(s) => Backend::Brave(s.clone()),
        Backend::Tavily(s) => Backend::Tavily(s.clone()),
        Backend::Exa(s) => Backend::Exa(s.clone()),
    }
}

// --- the chain --------------------------------------------------------------

/// The chain: keyed backends whose key resolved (tavily, exa, brave), a
/// SearXNG instance when one is configured (its url without trailing
/// slashes), and DuckDuckGo, which needs nothing, last.
pub open spec fn chain_spec(
    tavily: Option<Seq<char>>,
    exa: Option<Seq<char>>,
    brave: Option<Seq<char>>,
    searxng_url: Seq<char>,
) -> Seq<BackendK> {
    (match tavily {
        Some(k) => seq![BackendK::Tavily(k)],
        None => Seq::empty(),
    }) + (match exa {
        Some(k) => seq![BackendK::Exa(k)],
        None => Seq::empty(),
    }) + (match brave {
        Some(k) => seq![BackendK::Brave(k)],
        None => Seq::empty(),
    }) + (if searxng_url.len() > 0 {
        seq![BackendK::Searxng(trim_end_class(searxng_url, CharClass::Exactly('/')))]
    } else {
        Seq::empty()
    }) + seq![BackendK::Ddgs]
}

/// The backends of `s` whose name is `name` (`same`), or whose name is not.
pub open spec fn by_name(s: Seq<BackendK>, name: Seq<char>, same: bool) -> Seq<BackendK>
    decreases s.len(),
{
    if s.len() == 0 {
        Seq::empty()
    } else {
        let rest = by_name(s.drop_last(), name, same);
        if (backend_name(s.last()) == name) == same {
            rest.push(s.last())
        } else {
            rest
        }
    }
}

/// Whether the registry picks backends itself ("auto", or nothing configured).
pub open spec fn is_auto(fixed: Seq<char>) -> bool {
    fixed == "auto"@ || fixed.len() == 0
}

/// The order a search tries the backends in: the chain from its rotation
/// point on when automatic; else the configured backend first, then (with
/// fallback) the rest of the chain in order.
pub open spec fn search_order(chain: Seq<BackendK>, start: usize, fixed: Seq<char>, fallback: bool) -> Seq<
    BackendK,
> {
    if is_auto(fixed) {
        rotation(
            chain,
            if chain.len() == 0 {
                0
            } else {
                start as int % chain.len() as int
            },
        )
    } else {
        by_name(chain, fixed, true) + if fallback {
            by_name(chain, fixed, false)
        } else {
            Seq::empty()
        }
    }
}

/// The web search registry: its backend chain and rotation point.
#[derive(Debug)]
pub struct WebSearchRegistry {
    pub chain: Vec<Backend>,
    pub start: usize,
    /// hits wanted per search, at least 1
    pub count: u32,
    /// the configured backend ("auto" or a backend name)
    pub fixed: String,
    pub fallback: bool,
}

/// What a search is: the trimmed query and the backends to try in order, or
/// the error that stops it before any request.
pub open spec fn plan_spec(reg: WebSearchRegistry, query: Seq<char>) -> Result<(Seq<char>, Seq<BackendK>), Seq<char>> {
    let q = trim_ws(query);
    let order = search_order(backends_view(reg.chain@), reg.start, reg.fixed@, reg.fallback);
    if q.len() == 0 {
        Err("empty query"@)
    } else if !is_auto(reg.fixed@) && order.len() == 0 {
        Err("backend '"@ + reg.fixed@ + "' not available (no key / no url?)"@)
    } else {
        Ok((q, order))
    }
}

fn push_backend(chain: &mut Vec<Backend>, b: Backend)
    ensures
        backends_view(final(chain)@) == backends_view(old(chain)@).push(b@),
{
    let ghost bv = b@;
    chain.push(b);
    assert(backends_view(chain@) =~= backends_view(old(chain)@).push(bv));
}

fn by_name_exec(chain: &Vec<Backend>, name: &str, same: bool) -> (r: Vec<Backend>)
    ensures
        backends_view(r@) == by_name(backends_view(chain@), name@, same),
{
    let mut out: Vec<Backend> = Vec::new();
    let mut i: usize = 0;
    while i < chain.len()
        invariant
            i <= chain.len(),
            backends_view(out@) == by_name(backends_view(chain@).take(i as int), name@, same),
        decreases chain.len() - i,
    {
        let ghost pre = backends_view(chain@).take(i as int);
        assert(backends_view(chain@).take(i + 1).drop_last() =~= pre);
        assert(backends_view(chain@).take(i + 1).last() == chain@[i as int]@);
        let n = chain[i].name();
        let eq = crate::text::same_text(n, name);
        if eq == same {
            push_backend(&mut out, clone_backend(&chain[i]));
        }
        i += 1;
    }
    assert(backends_view(chain@).take(chain.len() as int) =~= backends_view(chain@));
    out
}

impl WebSearchRegistry {
    /// Build the chain from the settings and the keyring answers for the
    /// `tavily`, `exa` and `brave` accounts.
    pub fn new(cfg: &SearchCfg, tavily: Option<String>, exa: Option<String>, brave: Option<String>) -> (r:
        WebSearchRegistry)
        ensures
            backends_view(r.chain@) == chain_spec(
                tavily.deep_view(),
                exa.deep_view(),
                brave.deep_view(),
                cfg.searxng_url@,
            ),
            r.start == 0,
            r.count == (if cfg.count == 0 {
                1
            } else {
                cfg.count
            }),
            r.fixed@ == cfg.search_backend@,
            r.fallback == cfg.keyless_fallback,
    {
        let mut chain: Vec<Backend> = Vec::new();
        let ghost c0 = backends_view(chain@);
        match tavily {
            Some(k) => push_backend(&mut chain, Backend::Tavily(k)),
            None => {},
        }
        match exa {
            Some(k) => push_backend(&mut chain, Backend::Exa(k)),
            None => {},
        }
        match brave {
            Some(k) => push_backend(&mut chain, Backend::Brave(k)),
            None => {},
        }
        if cfg.searxng_url.as_str().unicode_len() > 0 {
            push_backend(
                &mut chain,
                Backend::Searxng(crate::text::trim_end_char(cfg.searxng_url.as_str(), '/')),
            );
        }
        push_backend(&mut chain, Backend::Ddgs);
        assert(backends_view(chain@) =~= chain_spec(
            tavily.deep_view(),
            exa.deep_view(),
            brave.deep_view(),
            cfg.searxng_url@,
        ));
        WebSearchRegistry {
            chain,
            start: 0,
            count: if cfg.count == 0 {
                1
            } else {
                cfg.count
            },
            fixed: cfg.search_backend.clone(),
            fallback: cfg.keyless_fallback,
        }
    }

    /// The backends in the order a search tries them.
    pub fn order(&self) -> (r: Vec<Backend>)
        ensures
            backends_view(r@) == search_order(
                backends_view(self.chain@),
                self.start,
                self.fixed@,
                self.fallback,
            ),
    {
        let auto = crate::text::same_text(self.fixed.as_str(), "auto") || self.fixed.as_str().unicode_len()
            == 0;
        if auto {
            let n = self.chain.len();
            let s = if n == 0 {
                0
            } else {
                self.start % n
            };
            let mut out: Vec<Backend> = Vec::new();
            let mut i: usize = s;
            while i < n
                invariant
                    s <= i <= n,
                    n == self.chain@.len(),
                    backends_view(out@) == backends_view(self.chain@).subrange(s as int, i as int),
                decreases n - i,
            {
                let ghost before = backends_view(out@);
                push_backend(&mut out, clone_backend(&self.chain[i]));
                assert(backends_view(out@) =~= backends_view(self.chain@).subrange(s as int, i + 1));
                i += 1;
            }
            let mut j: usize = 0;
            while j < s
                invariant
                    j <= s <= n,
                    n == self.chain@.len(),
                    backends_view(out@) == backends_view(self.chain@).subrange(s as int, n as int)
                        + backends_view(self.chain@).take(j as int),
                decreases s - j,
            {
                push_backend(&mut out, clone_backend(&self.chain[j]));
                assert(backends_view(out@) =~= backends_view(self.chain@).subrange(
                    s as int,
                    n as int,
                ) + backends_view(self.chain@).take(j + 1));
                j += 1;
            }
            assert(backends_view(out@) =~= search_order(
                backends_view(self.chain@),
                self.start,
                self.fixed@,
                self.fallback,
            ));
            out
        } else {
            let mut out = by_name_exec(&self.chain, self.fixed.as_str(), true);
            let ghost first = backends_view(out@);
            if self.fallback {
                let mut rest = by_name_exec(&self.chain, self.fixed.as_str(), false);
                let ghost second = backends_view(rest@);
                out.append(&mut rest);
                assert(backends_view(out@) =~= first + second);
            } else {
                assert(backends_view(out@) =~= first + Seq::<BackendK>::empty());
            }
            out
        }
    }

    /// Start one `web_search`: the query trimmed, the backends in order.
    pub fn plan(&self, query: &str) -> (r: Result<SearchRun, String>)
        ensures
            match r {
                Ok(run) => plan_spec(*self, query@) == Ok::<(Seq<char>, Seq<BackendK>), Seq<char>>(
                    (run.query@, backends_view(run.order@)),
                ) && run.next == 0 && run.last_err@ == Seq::<char>::empty(),
                Err(e) => plan_spec(*self, query@) == Err::<(Seq<char>, Seq<BackendK>), Seq<char>>(
                    e@,
                ),
            },
    {
        let q = trim(query);
        if q.as_str().unicode_len() == 0 {
            return Err(owned("empty query"));
        }
        let order = self.order();
        let auto = crate::text::same_text(self.fixed.as_str(), "auto") || self.fixed.as_str().unicode_len()
            == 0;
        if !auto && order.len() == 0 {
            let mut e = owned("backend '");
            e.append(self.fixed.as_str());
            e.append("' not available (no key / no url?)");
            return Err(e);
        }
        Ok(SearchRun { query: q, order, next: 0, last_err: String::new() })
    }

    /// The chain's names joined by " > " (for the startup log).
    pub fn chain_label(&self) -> (r: String)
        ensures
            r@ == join_names(backends_view(self.chain@)),
    {
        let mut out = String::new();
        let mut i: usize = 0;
        while i < self.chain.len()
            invariant
                i <= self.chain.len(),
                out@ == join_names(backends_view(self.chain@).take(i as int)),
            decreases self.chain.len() - i,
        {
            assert(backends_view(self.chain@).take(i + 1).drop_last() =~= backends_view(
                self.chain@,
            ).take(i as int));
            if i > 0 {
                out.append(" > ");
            }
            out.append(self.chain[i].name());
            i += 1;
        }
        assert(backends_view(self.chain@).take(self.chain.len() as int) =~= backends_view(
            self.chain@,
        ));
        out
    }
}

/// The names of `s` joined by " > ".
pub open spec fn join_names(s: Seq<BackendK>) -> Seq<char>
    decreases s.len(),
{
    if s.len() == 0 {
        Seq::empty()
    } else if s.len() == 1 {
        backend_name(s[0])
    } else {
        join_names(s.drop_last()) + " > "@ + backend_name(s.last())
    }
}

// --- one search ----------------------------------------------------------------

/// One `web_search` across the backends: which to ask next and what each
/// answer means. The first backend that returns hits wins.
#[derive(Debug)]
pub struct SearchRun {
    pub query: String,
    pub order: Vec<Backend>,
    pub next: usize,
    pub last_err: String,
}

/// What the search does next.
#[derive(Debug, PartialEq)]
pub enum SearchStep {
    /// the hits and the name of the backend that found them
    Found(Vec<SearchHit>, &'static str),
    /// that backend failed or found nothing; ask the next one (or give up)
    Next,
}

impl SearchRun {
    /// The backend to ask next, if any is left.
    pub fn current(&self) -> (r: Option<&Backend>)
        ensures
            match r {
                Some(b) => self.next < self.order@.len() && *b == self.order@[self.next as int],
                None => self.next >= self.order@.len(),
            },
    {
        if self.next < self.order.len() {
            Some(&self.order[self.next])
        } else {
            None
        }
    }

    /// Take the current backend's answer: hits win; no hits or an error is
    /// recorded in `last_err`, and the registry's rotation point moves on.
    pub fn outcome(&mut self, reg: &mut WebSearchRegistry, result: Result<Vec<SearchHit>, String>) -> (step:
        SearchStep)
        requires
            old(self).next < old(self).order@.len(),
        ensures
            final(self).order == old(self).order,
            final(self).query == old(self).query,
            ({
                let name = backend_name(old(self).order@[old(self).next as int]@);
                match result {
                    Ok(hits) => if hits@.len() > 0 {
                        step matches SearchStep::Found(h, n) && h == hits && n@ == name
                            && *final(reg) == *old(reg) && final(self).next == old(self).next
                            && final(self).last_err == old(self).last_err
                    } else {
                        step is Next && final(self).last_err@ == name + " returned 0 hits"@
                            && final(self).next == old(self).next + 1
                    },
                    Err(e) => step is Next && final(self).last_err@ == name + " failed: "@ + e@
                        && final(self).next == old(self).next + 1,
                }
            }),
            step is Next ==> {
                &&& final(reg).chain == old(reg).chain
                &&& final(reg).count == old(reg).count
                &&& final(reg).fixed == old(reg).fixed
                &&& final(reg).fallback == old(reg).fallback
                &&& final(reg).start == (if old(reg).start == usize::MAX {
                    0
                } else {
                    old(reg).start + 1
                })
            },
    {
        let len = self.order.len();
        let name = self.order[self.next].name();
        match result {
            Ok(hits) => {
                if hits.len() > 0 {
                    return SearchStep::Found(hits, name);
                }
                let mut e = owned(name);
                e.append(" returned 0 hits");
                self.last_err = e;
            },
            Err(x) => {
                let mut e = owned(name);
                e.append(" failed: ");
                e.append(x.as_str());
                self.last_err = e;
            },
        }
        assert(self.next < len);
        self.next = self.next + 1;
        reg.start = reg.start.wrapping_add(1);
        SearchStep::Next
    }

    /// The error once every backend failed.
    pub fn give_up(&self) -> (r: String)
        ensures
            r@ == "all search backends failed; last: "@ + self.last_err@,
    {
        let mut r = owned("all search backends failed; last: ");
        r.append(self.last_err.as_str());
        r
    }
}

// --- asking a backend ------------------------------------------------------------

/// An HTTP request to a search backend.
#[derive(Debug)]
pub struct SearchRequest {
    /// POST with a JSON body, else GET
    pub post: bool,
    pub url: String,
    /// query-string parameters
    pub params: Vec<(String, String)>,
    pub headers: Vec<(String, String)>,
    pub bearer: Option<String>,
    pub body: Option<Json>,
    /// the reply is an HTML page (DuckDuckGo), else JSON
    pub html: bool,
}

pub open spec fn pairs_view(h: Seq<(String, String)>) -> Seq<(Seq<char>, Seq<char>)> {
    h.map_values(|p: (String, String)| (p.0@, p.1@))
}

pub open spec fn num(n: u32) -> JsonV {
    JsonV::Num(Some(n as i64))
}

/// What a backend is asked for query `q` wanting `count` hits.
pub open spec fn request_is(r: SearchRequest, b: BackendK, q: Seq<char>, count: u32) -> bool {
    match b {
        BackendK::Ddgs => {
            &&& !r.post && r.html
            &&& r.url@ == "https://html.duckduckgo.com/html/"@
            &&& pairs_view(r.params@) == seq![("q"@, q)]
            &&& r.headers@.len() == 0 && r.bearer is None && r.body is None
        },
        BackendK::Searxng(base) => {
            &&& !r.post && !r.html
            &&& r.url@ == base + "/search"@
            &&& pairs_view(r.params@) == seq![("q"@, q), ("format"@, "json"@)]
            &&& r.headers@.len() == 0 && r.bearer is None && r.body is None
        },
        BackendK::Brave(key) => {
            &&& !r.post && !r.html
            &&& r.url@ == "https://api.search.brave.com/res/v1/web/search"@
            &&& pairs_view(r.params@) == seq![("q"@, q), ("count"@, decimal(count as nat))]
            &&& pairs_view(r.headers@) == seq![("X-Subscription-Token"@, key)]
            &&& r.bearer is None && r.body is None
        },
        BackendK::Tavily(key) => {
            &&& r.post && !r.html
            &&& r.url@ == "https://api.tavily.com/search"@
            &&& r.params@.len() == 0 && r.headers@.len() == 0
            &&& r.bearer.deep_view() == Some(key)
            &&& r.body matches Some(j) && j@ == JsonV::Obj(
                seq![("query"@, JsonV::Str(q)), ("max_results"@, num(count))],
            )
        },
        BackendK::Exa(key) => {
            &&& r.post && !r.html
            &&& r.url@ == "https://api.exa.ai/search"@
            &&& r.params@.len() == 0
            &&& pairs_view(r.headers@) == seq![("x-api-key"@, key)]
            &&& r.bearer is None
            &&& r.body matches Some(j) && j@ == JsonV::Obj(
                seq![
                    ("query"@, JsonV::Str(q)),
                    ("numResults"@, num(count)),
                    (
                        "contents"@,
                        JsonV::Obj(
                            seq![("text"@, JsonV::Obj(seq![("maxCharacters"@, num(400))]))],
                        ),
                    ),
                ],
            )
        },
    }
}

fn pair(a: &str, b: &str) -> (r: (String, String))
    ensures
        r.0@ == a@,
        r.1@ == b@,
{
    (owned(a), owned(b))
}

/// The request for backend `b`, query `q`, `count` hits.
pub fn request_for(b: &Backend, q: &str, count: u32) -> (r: SearchRequest)
    ensures
        request_is(r, b@, q@, count),
{
    let mut params: Vec<(String, String)> = Vec::new();
    let mut headers: Vec<(String, String)> = Vec::new();
    match b {
        Backend::Ddgs => {
            params.push(pair("q", q));
            assert(pairs_view(params@) =~= seq![("q"@, q@)]);
            SearchRequest {
                post: false,
                url: owned("https://html.duckduckgo.com/html/"),
                params,
                headers,
                bearer: None,
                body: None,
                html: true,
            }
        },
        Backend::Searxng(base) => {
            params.push(pair("q", q));
            params.push(pair("format", "json"));
            assert(pairs_view(params@) =~= seq![("q"@, q@), ("format"@, "json"@)]);
            let mut url = owned(base.as_str());
            url.append("/search");
            SearchRequest { post: false, url, params, headers, bearer: None, body: None, html: false }
        },
        Backend::Brave(key) => {
            let n = u64_to_string(count as u64);
            params.push(pair("q", q));
            params.push(pair("count", n.as_str()));
            headers.push(pair("X-Subscription-Token", key.as_str()));
            assert(pairs_view(params@) =~= seq![("q"@, q@), ("count"@, decimal(count as nat))]);
            assert(pairs_view(headers@) =~= seq![("X-Subscription-Token"@, key@)]);
            SearchRequest {
                post: false,
                url: owned("https://api.search.brave.com/res/v1/web/search"),
                params,
                headers,
                bearer: None,
                body: None,
                html: false,
            }
        },
        Backend::Tavily(key) => {
            let mut f = no_members();
            push_member(&mut f, "query", jstr(q));
            push_member(&mut f, "max_results", Json::Num(Some(count as i64)));
            assert(fields_view(f@) =~= seq![("query"@, JsonV::Str(q@)), ("max_results"@, num(count))]);
            assert(params@ =~= Seq::<(String, String)>::empty());
            SearchRequest {
                post: true,
                url: owned("https://api.tavily.com/search"),
                params,
                headers,
                bearer: Some(key.clone()),
                body: Some(jobj(f)),
                html: false,
            }
        },
        Backend::Exa(key) => {
            let mut t = no_members();
            push_member(&mut t, "maxCharacters", Json::Num(Some(400)));
            let mut c = no_members();
            let tj = jobj(t);
            let ghost tv = tj@;
            push_member(&mut c, "text", tj);
            let cj = jobj(c);
            let ghost cv = cj@;
            let mut f = no_members();
            push_member(&mut f, "query", jstr(q));
            push_member(&mut f, "numResults", Json::Num(Some(count as i64)));
            push_member(&mut f, "contents", cj);
            headers.push(pair("x-api-key", key.as_str()));
            assert(pairs_view(headers@) =~= seq![("x-api-key"@, key@)]);
            assert(fields_view(t@) =~= seq![("maxCharacters"@, num(400))]);
            assert(tv =~~= JsonV::Obj(seq![("maxCharacters"@, num(400))]));
            assert(fields_view(c@) =~= seq![("text"@, tv)]);
            assert(fields_view(f@) =~= seq![
                    ("query"@, JsonV::Str(q@)),
                    ("numResults"@, num(count)),
                    ("contents"@, cv),
                ]);
            let body = jobj(f);
            assert(body@ =~~= JsonV::Obj(
                seq![
                    ("query"@, JsonV::Str(q@)),
                    ("numResults"@, num(count)),
                    (
                        "contents"@,
                        JsonV::Obj(
                            seq![("text"@, JsonV::Obj(seq![("maxCharacters"@, num(400))]))],
                        ),
                    ),
                ],
            ));
            SearchRequest {
                post: true,
                url: owned("https://api.exa.ai/search"),
                params,
                headers,
                bearer: None,
                body: Some(body),
                html: false,
            }
        },
    }
}

/// A JSON result entry as a hit: its `title`, `url` and snippet member
/// (each `""` when missing or not a string).
pub open spec fn hit_of(r: JsonV, snippet_key: Seq<char>) -> SearchHitV {
    SearchHitV {
        title: str_or_empty(str_field(r, "title"@)),
        url: str_or_empty(str_field(r, "url"@)),
        snippet: str_or_empty(str_field(r, snippet_key)),
    }
}

pub open spec fn str_or_empty(s: Option<Seq<char>>) -> Seq<char> {
    match s {
        Some(x) => x,
        None => Seq::empty(),
    }
}

/// The first `count` entries of a results array, as hits.
pub open spec fn hits_from(results: JsonV, count: u32, snippet_key: Seq<char>) -> Seq<SearchHitV> {
    match results.as_array() {
        Some(items) => items.take(
            if count as int <= items.len() {
                count as int
            } else {
                items.len() as int
            },
        ).map_values(|r: JsonV| hit_of(r, snippet_key)),
        None => Seq::empty(),
    }
}

/// The hits in a JSON backend's reply: SearXNG and Tavily list `results`
/// with a `content` snippet, Brave lists `web.results` with a `description`,
/// Exa lists `results` with a `text`.
pub open spec fn reply_hits(b: BackendK, v: JsonV, count: u32) -> Seq<SearchHitV> {
    match b {
        BackendK::Searxng(_) => hits_from(v.field("results"@), count, "content"@),
        BackendK::Brave(_) => hits_from(v.field("web"@).field("results"@), count, "description"@),
        BackendK::Tavily(_) => hits_from(v.field("results"@), count, "content"@),
        BackendK::Exa(_) => hits_from(v.field("results"@), count, "text"@),
        BackendK::Ddgs => Seq::empty(),
    }
}

fn hits_from_exec(results: Option<&Json>, count: u32, snippet_key: &str) -> (r: Vec<SearchHit>)
    ensures
        hits_view(r@) == hits_from(
            match results {
                Some(j) => j@,
                None => JsonV::Null,
            },
            count,
            snippet_key@,
        ),
{
    let mut out: Vec<SearchHit> = Vec::new();
    let items = match results {
        Some(j) => match j.as_array() {
            Some(a) => a,
            None => {
                assert(hits_view(out@) =~= Seq::<SearchHitV>::empty());
                return out;
            },
        },
        None => {
            assert(hits_view(out@) =~= Seq::<SearchHitV>::empty());
            return out;
        },
    };
    proof {
        crate::json::lemma_items_view(items@);
    }
    let ghost iv = items_view(items@);
    let n: usize = if (count as u64) < (items.len() as u64) {
        count as usize
    } else {
        items.len()
    };
    let mut i: usize = 0;
    while i < n
        invariant
            i <= n <= items@.len(),
            iv == items_view(items@),
            iv.len() == items@.len(),
            forall|k: int| 0 <= k < items@.len() ==> #[trigger] iv[k] == crate::json::json_view(items@[k]),
            hits_view(out@) == iv.take(i as int).map_values(|r: JsonV| hit_of(r, snippet_key@)),
        decreases n - i,
    {
        let r = &items[i];
        let h = SearchHit {
            title: crate::json::get_str_or_empty(r, "title"),
            url: crate::json::get_str_or_empty(r, "url"),
            snippet: crate::json::get_str_or_empty(r, snippet_key),
        };
        let ghost before = out@;
        let ghost hv = h@;
        out.push(h);
        assert(hits_view(out@) =~= hits_view(before).push(hv));
        assert(iv.take(i + 1).map_values(|r: JsonV| hit_of(r, snippet_key@)) =~= iv.take(
            i as int,
        ).map_values(|r: JsonV| hit_of(r, snippet_key@)).push(hit_of(iv[i as int], snippet_key@)));
        i += 1;
    }
    out
}

/// The hits a JSON backend replied with.
pub fn hits_in_reply(b: &Backend, v: &Json, count: u32) -> (r: Vec<SearchHit>)
    ensures
        hits_view(r@) == reply_hits(b@, v@, count),
{
    match b {
        Backend::Searxng(_) => hits_from_exec(v.get("results"), count, "content"),
        Backend::Brave(_) => {
            let web = v.get("web");
            let res = match web {
                Some(w) => w.get("results"),
                None => None,
            };
            hits_from_exec(res, count, "description")
        },
        Backend::Tavily(_) => hits_from_exec(v.get("results"), count, "content"),
        Backend::Exa(_) => hits_from_exec(v.get("results"), count, "text"),
        Backend::Ddgs => {
            let out: Vec<SearchHit> = Vec::new();
            assert(hits_view(out@) =~= Seq::<SearchHitV>::empty());
            out
        },
    }
}

/// A JSON backend's hits are its reply's first `count` result entries, in
/// order. Each hit's title and url are the entry's `title` and `url`
/// members; its snippet is SearXNG's and Tavily's `content`, Brave's
/// `description` (Brave lists its results under `web`), or Exa's `text`; a
/// member that is missing or not a string reads as empty.
pub proof fn lemma_reply_hits_fields(b: BackendK, v: JsonV, count: u32)
    requires
        !(b is Ddgs),
    ensures
        ({
            let results = match b {
                BackendK::Brave(_) => v.field("web"@).field("results"@),
                _ => v.field("results"@),
            };
            let snippet_key = match b {
                BackendK::Brave(_) => "description"@,
                BackendK::Exa(_) => "text"@,
                _ => "content"@,
            };
            let hs = reply_hits(b, v, count);
            &&& hs.len() == match results {
                JsonV::Arr(items) => if count <= items.len() {
                    count as int
                } else {
                    items.len() as int
                },
                _ => 0,
            }
            &&& forall|i: int|
                0 <= i < hs.len() ==> {
                    &&& (#[trigger] hs[i]).title == match results.item(i).field("title"@) {
                        JsonV::Str(t) => t,
                        _ => Seq::empty(),
                    }
                    &&& hs[i].url == match results.item(i).field("url"@) {
                        JsonV::Str(u) => u,
                        _ => Seq::empty(),
                    }
                    &&& hs[i].snippet == match results.item(i).field(snippet_key) {
                        JsonV::Str(x) => x,
                        _ => Seq::empty(),
                    }
                }
        }),
{
    let results = match b {
        BackendK::Brave(_) => v.field("web"@).field("results"@),
        _ => v.field("results"@),
    };
    let snippet_key = match b {
        BackendK::Brave(_) => "description"@,
        BackendK::Exa(_) => "text"@,
        _ => "content"@,
    };
    assert(reply_hits(b, v, count) == hits_from(results, count, snippet_key));
    let hs = reply_hits(b, v, count);
    assert forall|i: int| 0 <= i < hs.len() implies {
        &&& (#[trigger] hs[i]).title == match results.item(i).field("title"@) {
            JsonV::Str(t) => t,
            _ => Seq::<char>::empty(),
        }
        &&& hs[i].url == match results.item(i).field("url"@) {
            JsonV::Str(u) => u,
            _ => Seq::<char>::empty(),
        }
        &&& hs[i].snippet == match results.item(i).field(snippet_key) {
            JsonV::Str(x) => x,
            _ => Seq::<char>::empty(),
        }
    } by {
        if let JsonV::Arr(items) = results {
            let n = if count as int <= items.len() { count as int } else { items.len() as int };
            assert(hs == items.take(n).map_values(|r: JsonV| hit_of(r, snippet_key)));
            assert(hs[i] == hit_of(items[i], snippet_key));
            assert(results.item(i) == items[i]);
        }
    }
}

// --- whitespace ------------------------------------------------------------------

/// The text as words and the word being read: the state of reading `s`
/// left to right, splitting at Unicode whitespace.
pub open spec fn split_state(s: Seq<char>) -> (Seq<Seq<char>>, Seq<char>)
    decreases s.len(),
{
    if s.len() == 0 {
        (Seq::empty(), Seq::empty())
    } else {
        let (ws, cur) = split_state(s.drop_last());
        let c = s.last();
        if crate::text::is_ws(c) {
            if cur.len() > 0 {
                (ws.push(cur), Seq::empty())
            } else {
                (ws, cur)
            }
        } else {
            (ws, cur.push(c))
        }
    }
}

/// The whitespace-separated words of `s` (`str::split_whitespace`).
pub open spec fn words(s: Seq<char>) -> Seq<Seq<char>> {
    let (ws, cur) = split_state(s);
    if cur.len() > 0 {
        ws.push(cur)
    } else {
        ws
    }
}

/// The words joined by single spaces.
pub open spec fn join_space(ws: Seq<Seq<char>>) -> Seq<char>
    decreases ws.len(),
{
    if ws.len() == 0 {
        Seq::empty()
    } else if ws.len() == 1 {
        ws[0]
    } else {
        join_space(ws.drop_last()) + seq![' '] + ws.last()
    }
}

/// `s` read left to right with every whitespace run replaced by one space,
/// and whether the last character read was whitespace.
pub open spec fn squash(s: Seq<char>) -> (Seq<char>, bool)
    decreases s.len(),
{
    if s.len() == 0 {
        (Seq::empty(), false)
    } else {
        let (out, prev) = squash(s.drop_last());
        let c = s.last();
        let sp = crate::text::is_ws(c);
        if sp && prev {
            (out, true)
        } else {
            (out.push(if sp { ' ' } else { c }), sp)
        }
    }
}

/// What `collapse` yields: whitespace runs squashed to one space, the ends trimmed.
pub open spec fn collapsed(s: Seq<char>) -> Seq<char> {
    trim_ws(squash(s).0)
}

/// Squash whitespace runs to single spaces and trim the ends.
pub fn collapse(s: &str) -> (r: String)
    ensures
        r@ == collapsed(s@),
{
    let v = crate::text::chars_of(s);
    let mut out: Vec<char> = Vec::new();
    let mut prev_space = false;
    let mut i: usize = 0;
    while i < v.len()
        invariant
            i <= v.len(),
            v@ == s@,
            (out@, prev_space) == squash(v@.take(i as int)),
        decreases v.len() - i,
    {
        assert(v@.take(i + 1).drop_last() =~= v@.take(i as int));
        let ch = v[i];
        let sp = crate::text::is_whitespace(ch);
        if sp && prev_space {
        } else {
            out.push(if sp { ' ' } else { ch });
        }
        prev_space = sp;
        i += 1;
    }
    assert(v@.take(v.len() as int) =~= v@);
    let joined = crate::text::string_of_all(&out);
    trim(joined.as_str())
}

/// The words of `s` joined by single spaces (`split_whitespace().join(" ")`).
pub fn clean(s: &str) -> (r: String)
    ensures
        r@ == join_space(words(s@)),
{
    let v = crate::text::chars_of(s);
    let mut ws: Vec<String> = Vec::new();
    let mut cur: Vec<char> = Vec::new();
    let mut i: usize = 0;
    while i < v.len()
        invariant
            i <= v.len(),
            v@ == s@,
            (ws.deep_view(), cur@) == split_state(v@.take(i as int)),
        decreases v.len() - i,
    {
        assert(v@.take(i + 1).drop_last() =~= v@.take(i as int));
        let ch = v[i];
        if crate::text::is_whitespace(ch) {
            if cur.len() > 0 {
                let w = crate::text::string_of_all(&cur);
                let ghost before = ws.deep_view();
                ws.push(w);
                assert(ws.deep_view() =~= before.push(cur@));
                cur = Vec::new();
                assert(cur@ =~= Seq::<char>::empty());
            }
        } else {
            cur.push(ch);
        }
        i += 1;
    }
    assert(v@.take(v.len() as int) =~= v@);
    if cur.len() > 0 {
        let w = crate::text::string_of_all(&cur);
        let ghost before = ws.deep_view();
        ws.push(w);
        assert(ws.deep_view() =~= before.push(cur@));
    }
    let ghost all = ws.deep_view();
    assert(all == words(s@));
    let mut out = String::new();
    let mut k: usize = 0;
    while k < ws.len()
        invariant
            k <= ws.len(),
            all == ws.deep_view(),
            out@ == join_space(all.take(k as int)),
        decreases ws.len() - k,
    {
        assert(all.take(k + 1).drop_last() =~= all.take(k as int));
        assert(all[k as int] == ws@[k as int]@);
        assert(all.take(k + 1).last() == all[k as int]);
        proof {
            reveal_strlit(" ");
        }
        if k > 0 {
            out.append(" ");
        }
        out.append(ws[k].as_str());
        proof {
            if k == 0 {
                assert(all.take(1) =~= seq![all[0]]);
            }
        }
        k += 1;
    }
    assert(all.take(ws.len() as int) =~= all);
    out
}

// --- the two whitespace normalizations agree ----------------------------------------------

pub open spec fn no_ws(w: Seq<char>) -> bool {
    forall|i: int| 0 <= i < w.len() ==> !crate::text::is_ws(#[trigger] w[i])
}

/// A space when `s` starts with whitespace.
pub open spec fn lead_space(s: Seq<char>) -> Seq<char> {
    if s.len() > 0 && crate::text::is_ws(s[0]) {
        seq![' ']
    } else {
        Seq::empty()
    }
}

/// The words joined, then a space when `s` ends in whitespace.
pub open spec fn squash_body(s: Seq<char>) -> Seq<char> {
    let j = join_space(words(s));
    if j.len() == 0 {
        Seq::empty()
    } else if squash(s).1 {
        j + seq![' ']
    } else {
        j
    }
}

proof fn lemma_join_ends(ws: Seq<Seq<char>>)
    requires
        forall|i: int| 0 <= i < ws.len() ==> (#[trigger] ws[i]).len() > 0 && no_ws(ws[i]),
    ensures
        ws.len() == 0 ==> join_space(ws).len() == 0,
        ws.len() > 0 ==> {
            &&& join_space(ws).len() > 0
            &&& join_space(ws)[0] == ws[0][0]
            &&& join_space(ws).last() == ws.last().last()
        },
    decreases ws.len(),
{
    if ws.len() > 1 {
        let d = ws.drop_last();
        assert forall|i: int| 0 <= i < d.len() implies (#[trigger] d[i]).len() > 0 && no_ws(d[i]) by {
            assert(d[i] == ws[i]);
        }
        lemma_join_ends(d);
        assert(d[0] == ws[0]);
        let j = join_space(ws);
        assert(j == join_space(d) + seq![' '] + ws.last());
        assert(j[0] == join_space(d)[0]);
        assert(j.last() == ws.last().last());
    }
}

/// How both readings of `s` look: whether the last character is
/// whitespace, what the words are made of, and `squash(s)` as a leading
/// space, the words joined, and a trailing space.
proof fn lemma_squash_shape(s: Seq<char>)
    ensures
        squash(s).1 == (s.len() > 0 && crate::text::is_ws(s.last())),
        (split_state(s).1.len() > 0) == (s.len() > 0 && !crate::text::is_ws(s.last())),
        no_ws(split_state(s).1),
        forall|i: int|
            0 <= i < split_state(s).0.len() ==> (#[trigger] split_state(s).0[i]).len() > 0 && no_ws(
                split_state(s).0[i],
            ),
        squash(s).0 == lead_space(s) + squash_body(s),
    decreases s.len(),
{
    if s.len() > 0 {
        let p = s.drop_last();
        let c = s.last();
        lemma_squash_shape(p);
        let (ws, cur) = split_state(p);
        let (out, prev) = squash(p);
        let wp = words(p);
        assert forall|i: int| 0 <= i < wp.len() implies (#[trigger] wp[i]).len() > 0 && no_ws(wp[i]) by {
            if i < ws.len() {
                assert(wp[i] == ws[i]);
            }
        }
        lemma_join_ends(wp);
        if p.len() > 0 {
            assert(s[0] == p[0]);
            assert(lead_space(s) == lead_space(p));
        }
        if crate::text::is_ws(c) {
            assert(words(s) =~= wp);
            if p.len() == 0 {
                assert(wp =~= Seq::<Seq<char>>::empty());
                assert(squash(s).0 =~= lead_space(s) + squash_body(s));
            } else if prev {
                assert(squash(s).0 =~= lead_space(s) + squash_body(s));
            } else {
                assert(cur.len() > 0);
                assert(squash(s).0 =~= lead_space(s) + squash_body(s));
            }
            let (ws2, cur2) = split_state(s);
            assert forall|i: int| 0 <= i < ws2.len() implies (#[trigger] ws2[i]).len() > 0 && no_ws(ws2[i]) by {
                if i < ws.len() {
                    assert(ws2[i] == ws[i]);
                }
            }
        } else {
            let cur2 = cur.push(c);
            assert(split_state(s) == (ws, cur2));
            assert(no_ws(cur2)) by {
                assert forall|i: int| 0 <= i < cur2.len() implies !crate::text::is_ws(#[trigger] cur2[i]) by {
                    if i < cur.len() {
                        assert(cur2[i] == cur[i]);
                    }
                }
            }
            assert(words(s) == ws.push(cur2));
            let j2 = join_space(ws.push(cur2));
            if cur.len() > 0 {
                assert(wp == ws.push(cur));
                if ws.len() == 0 {
                    assert(ws.push(cur2) =~= seq![cur2]);
                    assert(ws.push(cur) =~= seq![cur]);
                    assert(j2 == cur2);
                    assert(join_space(wp) == cur);
                } else {
                    assert(ws.push(cur2).drop_last() =~= ws);
                    assert(ws.push(cur).drop_last() =~= ws);
                    assert(j2 =~= (join_space(ws) + seq![' '] + cur).push(c));
                }
                assert(j2 =~= join_space(wp).push(c));
                assert(squash(s).0 =~= lead_space(s) + squash_body(s));
            } else {
                assert(wp == ws);
                if ws.len() == 0 {
                    assert(ws.push(cur2) =~= seq![cur2]);
                    assert(cur2 =~= seq![c]);
                    assert(squash(s).0 =~= lead_space(s) + squash_body(s));
                } else {
                    assert(ws.push(cur2).drop_last() =~= ws);
                    assert(j2 =~= join_space(ws) + seq![' '] + seq![c]);
                    assert(prev);
                    assert(squash(s).0 =~= lead_space(s) + squash_body(s));
                }
            }
        }
    } else {
        assert(words(s) =~= Seq::<Seq<char>>::empty());
        assert(squash(s).0 =~= lead_space(s) + squash_body(s));
    }
}

/// Trimming a space-padded run that starts and ends with non-whitespace
/// leaves the run.
proof fn lemma_trim_padded(a: Seq<char>, j: Seq<char>, b: Seq<char>)
    requires
        a.len() <= 1,
        b.len() <= 1,
        forall|i: int| 0 <= i < a.len() ==> crate::text::is_ws(#[trigger] a[i]),
        forall|i: int| 0 <= i < b.len() ==> crate::text::is_ws(#[trigger] b[i]),
        j.len() > 0 ==> !crate::text::is_ws(j[0]) && !crate::text::is_ws(j.last()),
    ensures
        trim_ws(a + j + b) == j,
{
    let x = a + j + b;
    let ws = CharClass::Whitespace;
    crate::text::lemma_lead_count_bound(x, ws);
    let l = crate::text::lead_count(x, ws);
    if j.len() > 0 {
        if l < a.len() {
            assert(crate::text::is_ws(x[l as int]));
        }
        if l > a.len() {
            assert(x[a.len() as int] == j[0]);
        }
        assert(l == a.len());
        let y = x.skip(l as int);
        assert(y =~= j + b);
        crate::text::lemma_trail_count_bound(y, ws);
        let t = crate::text::trail_count(y, ws);
        if t < b.len() {
            assert(y[y.len() - t - 1] == b[b.len() - t - 1]);
        }
        if t > b.len() {
            assert(y[y.len() - b.len() - 1] == j.last());
        }
        assert(t == b.len());
        assert(y.take(y.len() - t) =~= j);
    } else {
        if l < x.len() {
            assert(crate::text::is_ws(x[l as int]));
        }
        assert(x.skip(l as int) =~= Seq::<char>::empty());
        assert(trim_ws(x) =~= Seq::<char>::empty());
    }
}

/// `clean` and `collapse` normalize whitespace the same way: the words of a
/// text joined by single spaces.
pub proof fn lemma_clean_is_collapse(s: Seq<char>)
    ensures
        join_space(words(s)) == collapsed(s),
{
    lemma_squash_shape(s);
    let wp = words(s);
    let (ws, cur) = split_state(s);
    assert forall|i: int| 0 <= i < wp.len() implies (#[trigger] wp[i]).len() > 0 && no_ws(wp[i]) by {
        if i < ws.len() {
            assert(wp[i] == ws[i]);
        }
    }
    lemma_join_ends(wp);
    let j = join_space(wp);
    if j.len() > 0 {
        assert(wp.len() > 0);
        assert(!crate::text::is_ws(j[0])) by {
            assert(no_ws(wp[0]));
        }
        assert(!crate::text::is_ws(j.last())) by {
            assert(no_ws(wp.last()));
            assert(wp.last() == wp[wp.len() - 1]);
        }
    }
    let b = if j.len() > 0 && squash(s).1 {
        seq![' ']
    } else {
        Seq::<char>::empty()
    };
    assert(squash_body(s) =~= j + b);
    assert(squash(s).0 =~= lead_space(s) + j + b);
    lemma_trim_padded(lead_space(s), j, b);
}

/// Normalized whitespace: every whitespace character is a single space
/// between two characters that are not whitespace.
pub open spec fn tidy(t: Seq<char>) -> bool {
    forall|i: int|
        0 <= i < t.len() && crate::text::is_ws(#[trigger] t[i]) ==> {
            &&& t[i] == ' '
            &&& 0 < i && i + 1 < t.len()
            &&& !crate::text::is_ws(t[i - 1])
            &&& !crate::text::is_ws(t[i + 1])
        }
}

/// The characters of `s` that are not whitespace, in order.
pub open spec fn letters(s: Seq<char>) -> Seq<char>
    decreases s.len(),
{
    if s.len() == 0 {
        Seq::empty()
    } else if crate::text::is_ws(s.last()) {
        letters(s.drop_last())
    } else {
        letters(s.drop_last()).push(s.last())
    }
}

proof fn lemma_join_tidy(ws: Seq<Seq<char>>)
    requires
        forall|i: int| 0 <= i < ws.len() ==> (#[trigger] ws[i]).len() > 0 && no_ws(ws[i]),
    ensures
        tidy(join_space(ws)),
    decreases ws.len(),
{
    if ws.len() == 1 {
        assert(no_ws(ws[0]));
    } else if ws.len() > 1 {
        let d = ws.drop_last();
        assert forall|i: int| 0 <= i < d.len() implies (#[trigger] d[i]).len() > 0 && no_ws(d[i]) by {
            assert(d[i] == ws[i]);
        }
        lemma_join_tidy(d);
        lemma_join_ends(d);
        let jd = join_space(d);
        let w = ws.last();
        assert(w == ws[ws.len() - 1]);
        assert(no_ws(w) && w.len() > 0);
        let j = join_space(ws);
        assert(j == jd + seq![' '] + w);
        assert forall|i: int| 0 <= i < j.len() && crate::text::is_ws(#[trigger] j[i]) implies {
            &&& j[i] == ' '
            &&& 0 < i && i + 1 < j.len()
            &&& !crate::text::is_ws(j[i - 1])
            &&& !crate::text::is_ws(j[i + 1])
        } by {
            if i < jd.len() {
                assert(j[i] == jd[i]);
                assert(j[i - 1] == jd[i - 1]);
                assert(j[i + 1] == jd[i + 1]);
            } else if i == jd.len() {
                assert(j[i - 1] == jd.last());
                assert(j[i + 1] == w[0]);
            } else {
                assert(j[i] == w[i - jd.len() - 1]);
            }
        }
    }
}

/// Squashing a text with no whitespace run and only spaces changes nothing.
proof fn lemma_squash_keeps(t: Seq<char>)
    requires
        forall|i: int|
            0 <= i < t.len() && crate::text::is_ws(#[trigger] t[i]) ==> t[i] == ' ' && (i + 1
                < t.len() ==> !crate::text::is_ws(t[i + 1])),
    ensures
        squash(t) == (t, t.len() > 0 && crate::text::is_ws(t.last())),
    decreases t.len(),
{
    if t.len() > 0 {
        let p = t.drop_last();
        assert forall|i: int|
            0 <= i < p.len() && crate::text::is_ws(#[trigger] p[i]) implies p[i] == ' ' && (i + 1
                < p.len() ==> !crate::text::is_ws(p[i + 1])) by {
            assert(p[i] == t[i]);
            if i + 1 < p.len() {
                assert(p[i + 1] == t[i + 1]);
            }
        }
        lemma_squash_keeps(p);
        if p.len() > 0 {
            assert(p.last() == t[p.len() - 1]);
        }
        assert(p.push(t.last()) =~= t);
    }
}

/// A tidy text is its own collapse.
proof fn lemma_tidy_fixed(t: Seq<char>)
    requires
        tidy(t),
    ensures
        collapsed(t) == t,
{
    assert forall|i: int|
        0 <= i < t.len() && crate::text::is_ws(#[trigger] t[i]) implies t[i] == ' ' && (i + 1
            < t.len() ==> !crate::text::is_ws(t[i + 1])) by {}
    lemma_squash_keeps(t);
    let ws = CharClass::Whitespace;
    crate::text::lemma_lead_count_bound(t, ws);
    crate::text::lemma_trail_count_bound(t, ws);
    if t.len() > 0 {
        if crate::text::lead_count(t, ws) > 0 {
            assert(crate::text::is_ws(t[0]));
        }
        if crate::text::trail_count(t, ws) > 0 {
            assert(crate::text::is_ws(t[t.len() - 1]));
        }
    }
    assert(t.skip(0) =~= t);
    assert(t.take(t.len() as int) =~= t);
}

proof fn lemma_letters_add(a: Seq<char>, b: Seq<char>)
    ensures
        letters(a + b) == letters(a) + letters(b),
    decreases b.len(),
{
    if b.len() == 0 {
        assert(a + b =~= a);
        assert(letters(a) + letters(b) =~= letters(a));
    } else {
        lemma_letters_add(a, b.drop_last());
        assert((a + b).drop_last() =~= a + b.drop_last());
        assert((a + b).last() == b.last());
        if !crate::text::is_ws(b.last()) {
            assert(letters(a) + letters(b.drop_last()).push(b.last()) =~= (letters(a) + letters(
                b.drop_last(),
            )).push(b.last()));
        }
    }
}

proof fn lemma_letters_of_space(a: Seq<char>)
    requires
        forall|i: int| 0 <= i < a.len() ==> crate::text::is_ws(#[trigger] a[i]),
    ensures
        letters(a) == Seq::<char>::empty(),
    decreases a.len(),
{
    if a.len() > 0 {
        let p = a.drop_last();
        assert forall|i: int| 0 <= i < p.len() implies crate::text::is_ws(#[trigger] p[i]) by {
            assert(p[i] == a[i]);
        }
        lemma_letters_of_space(p);
        assert(crate::text::is_ws(a[a.len() - 1]));
    }
}

proof fn lemma_letters_squash(s: Seq<char>)
    ensures
        letters(squash(s).0) == letters(s),
    decreases s.len(),
{
    if s.len() > 0 {
        lemma_letters_squash(s.drop_last());
        let (out, prev) = squash(s.drop_last());
        let c = s.last();
        if !(crate::text::is_ws(c) && prev) {
            let x = if crate::text::is_ws(c) { ' ' } else { c };
            assert(out.push(x).drop_last() =~= out);
            assert(crate::text::is_ws(' ')) by {
                assert((' ' as u32) == 0x20);
            }
        }
    }
}

proof fn lemma_letters_trim(x: Seq<char>)
    ensures
        letters(trim_ws(x)) == letters(x),
{
    let ws = CharClass::Whitespace;
    crate::text::lemma_lead_count_bound(x, ws);
    let l = crate::text::lead_count(x, ws) as int;
    let y = x.skip(l);
    assert(x =~= x.take(l) + y);
    lemma_letters_add(x.take(l), y);
    assert forall|i: int| 0 <= i < x.take(l).len() implies crate::text::is_ws(#[trigger] x.take(l)[i]) by {
        assert(x.take(l)[i] == x[i]);
    }
    lemma_letters_of_space(x.take(l));
    assert(letters(x.take(l)) + letters(y) =~= letters(y));
    crate::text::lemma_trail_count_bound(y, ws);
    let k = y.len() - crate::text::trail_count(y, ws);
    assert(y =~= y.take(k) + y.skip(k));
    lemma_letters_add(y.take(k), y.skip(k));
    assert forall|i: int| 0 <= i < y.skip(k).len() implies crate::text::is_ws(#[trigger] y.skip(k)[i]) by {
        assert(y.skip(k)[i] == y[k + i]);
    }
    lemma_letters_of_space(y.skip(k));
    assert(letters(y.take(k)) + letters(y.skip(k)) =~= letters(y.take(k)));
}

/// What `collapse` yields: whitespace only as single spaces between other
/// characters (none leading, trailing or doubled), the other characters of
/// the text all kept in order, and a text that collapsing again leaves as
/// it is.
pub proof fn lemma_collapse_normalizes(s: Seq<char>)
    ensures
        tidy(collapsed(s)),
        collapsed(s).len() > 0 ==> !crate::text::is_ws(collapsed(s)[0]) && !crate::text::is_ws(
            collapsed(s).last(),
        ),
        forall|i: int|
            0 <= i && i + 1 < collapsed(s).len() ==> !(crate::text::is_ws(#[trigger] collapsed(s)[i])
                && crate::text::is_ws(collapsed(s)[i + 1])),
        letters(collapsed(s)) == letters(s),
        collapsed(collapsed(s)) == collapsed(s),
{
    lemma_clean_is_collapse(s);
    lemma_squash_shape(s);
    let wp = words(s);
    let (ws, cur) = split_state(s);
    assert forall|i: int| 0 <= i < wp.len() implies (#[trigger] wp[i]).len() > 0 && no_ws(wp[i]) by {
        if i < ws.len() {
            assert(wp[i] == ws[i]);
        }
    }
    lemma_join_tidy(wp);
    let c = collapsed(s);
    if c.len() > 0 {
        assert(!crate::text::is_ws(c[0]));
        assert(!crate::text::is_ws(c[c.len() - 1]));
    }
    lemma_letters_squash(s);
    lemma_letters_trim(squash(s).0);
    lemma_tidy_fixed(c);
}

// --- DuckDuckGo ----------------------------------------------------------------------

/// The value of an ASCII hex digit.
pub open spec fn hex_val(b: u8) -> Option<u8> {
    if 48 <= b <= 57 {
        Some((b - 48) as u8)
    } else if 97 <= b <= 102 {
        Some((b - 87) as u8)
    } else if 65 <= b <= 70 {
        Some((b - 55) as u8)
    } else {
        None
    }
}

/// Percent-decoding of bytes: every `%` followed by two hex digits becomes
/// the byte they spell; everything else is kept.
pub open spec fn pct_decode_bytes(b: Seq<u8>) -> Seq<u8>
    decreases b.len(),
{
    if b.len() == 0 {
        Seq::empty()
    } else if b[0] == 37 && b.len() >= 3 && hex_val(b[1]) is Some && hex_val(b[2]) is Some {
        seq![(hex_val(b[1]).unwrap() * 16 + hex_val(b[2]).unwrap()) as u8] + pct_decode_bytes(
            b.skip(3),
        )
    } else {
        seq![b[0]] + pct_decode_bytes(b.skip(1))
    }
}

/// `s` percent-decoded, the bytes then read as UTF-8 with invalid
/// sequences replaced.
pub open spec fn pct_decoded(s: Seq<char>) -> Seq<char> {
    crate::text::utf8_lossy(pct_decode_bytes(vstd::utf8::encode_utf8(s)))
}

/// `percent_encoding::percent_decode_str(s).decode_utf8_lossy()`. Its
/// contract claims what the crate's source shows: `%` and two hex digits
/// decode to that byte, other bytes pass through, and the bytes are then
/// decoded by `String::from_utf8_lossy`, which gives valid UTF-8 back
/// unchanged.
#[verifier::external_body]
fn percent_decode(s: &str) -> (r: String)
    ensures
        r@ == pct_decoded(s@),
        vstd::utf8::valid_utf8(pct_decode_bytes(vstd::utf8::encode_utf8(s@))) ==> r@
            == vstd::utf8::decode_utf8(pct_decode_bytes(vstd::utf8::encode_utf8(s@))),
{
    percent_encoding::percent_decode_str(s).decode_utf8_lossy().into_owned()
}

/// `s` up to its first `&` (`split('&').next()`).
pub open spec fn upto_amp(s: Seq<char>) -> Seq<char> {
    match crate::text::first_occurrence(s, seq!['&']) {
        Some(j) => s.take(j),
        None => s,
    }
}

/// A DuckDuckGo result link as the page it leads to: the `uddg` parameter
/// of a `//duckduckgo.com/l/` redirect, percent-decoded; else a
/// protocol-relative link made https; else the link itself.
pub open spec fn ddg_href(raw: Seq<char>) -> Seq<char> {
    let p = "//duckduckgo.com/l/"@;
    let rest = raw.skip(p.len() as int);
    if crate::text::has_prefix(raw, p) && crate::text::first_occurrence(rest, "uddg="@) is Some {
        pct_decoded(upto_amp(rest.skip(crate::text::first_occurrence(rest, "uddg="@).unwrap() + 5)))
    } else if crate::text::has_prefix(raw, "//"@) {
        "https:"@ + raw
    } else {
        raw
    }
}

/// The percent-decoded bytes of a DuckDuckGo redirect's `uddg`
/// parameter, when `raw` is such a redirect.
pub open spec fn uddg_bytes(raw: Seq<char>) -> Option<Seq<u8>> {
    let p = "//duckduckgo.com/l/"@;
    let rest = raw.skip(p.len() as int);
    if crate::text::has_prefix(raw, p) && crate::text::first_occurrence(rest, "uddg="@) is Some {
        Some(
            pct_decode_bytes(
                vstd::utf8::encode_utf8(
                    upto_amp(rest.skip(crate::text::first_occurrence(rest, "uddg="@).unwrap() + 5)),
                ),
            ),
        )
    } else {
        None
    }
}

/// Unwrap a DuckDuckGo result link.
pub fn decode_ddg_href(raw: &str) -> (r: String)
    ensures
        r@ == ddg_href(raw@),
        uddg_bytes(raw@) matches Some(b) ==> (vstd::utf8::valid_utf8(b) ==> r@ == vstd::utf8::decode_utf8(
            b,
        )),
{
    proof {
        reveal_strlit("uddg=");
    }
    match crate::text::strip_prefix(raw, "//duckduckgo.com/l/") {
        Some(rest) => {
            let rv = crate::text::chars_of(rest.as_str());
            let pat = crate::text::chars_of("uddg=");
            assert(pat@.len() == 5);
            match crate::text::find_in(&rv, &pat) {
                Some(i) => {
                    let n = rv.len();
                    assert(i + 5 <= n);
                    let ev = crate::text::string_of(&rv, i + 5, n);
                    let evc = crate::text::chars_of(ev.as_str());
                    let amp = vec!['&'];
                    assert(amp@ =~= seq!['&']);
                    let end = match crate::text::find_in(&evc, &amp) {
                        Some(j) => j,
                        None => evc.len(),
                    };
                    let piece = crate::text::string_of(&evc, 0, end);
                    assert(rv@.subrange(i + 5, rv@.len() as int) =~= rest@.skip(i + 5));
                    assert(evc@.subrange(0, end as int) =~= upto_amp(evc@));
                    return percent_decode(piece.as_str());
                },
                None => {},
            }
        },
        None => {},
    }
    if crate::text::starts_with(raw, "//") {
        crate::text::join_str("https:", raw)
    } else {
        owned(raw)
    }
}

/// A DuckDuckGo result block: its link's text and `href` (when the block
/// has a link) and its snippet's text (when it has one).
pub type DdgBlock = Option<(String, Option<String>, Option<String>)>;

/// The result blocks the parser finds in a page: for each element matching
/// `block`, its first element matching `link` (its text and its attribute
/// `attr`) and its first element matching `snippet` (its text); `None` when
/// a selector does not parse.
pub uninterp spec fn html_blocks(
    html: Seq<char>,
    block: Seq<char>,
    link: Seq<char>,
    attr: Seq<char>,
    snippet: Seq<char>,
) -> Option<Seq<Option<(Seq<char>, Option<Seq<char>>, Option<Seq<char>>)>>>;

/// `scraper::Html::parse_document(html)`, then for each element selected by
/// `block`: the text and attribute `attr` of its first `link` match and the
/// text of its first `snippet` match. Its contract names the result; the
/// parse depends on nothing but its arguments.
#[verifier::external_body]
fn select_blocks(html: &str, block: &str, link: &str, attr: &str, snippet: &str) -> (r: Option<
    Vec<DdgBlock>,
>)
    ensures
        r.deep_view() == html_blocks(html@, block@, link@, attr@, snippet@),
{
    let doc = scraper::Html::parse_document(html);
    let b = scraper::Selector::parse(block).ok()?;
    let l = scraper::Selector::parse(link).ok()?;
    let s = scraper::Selector::parse(snippet).ok()?;
    Some(doc.select(&b).map(|e| e.select(&l).next().map(|a| (
        a.text().collect::<String>(),
        a.value().attr(attr).map(|h| h.to_string()),
        e.select(&s).next().map(|x| x.text().collect::<String>()),
    ))).collect())
}

/// The hit a result block makes: its link text cleaned, its link unwrapped,
/// its snippet cleaned (or `""`).
pub open spec fn ddg_hit(b: (Seq<char>, Option<Seq<char>>, Option<Seq<char>>)) -> SearchHitV {
    SearchHitV {
        title: join_space(words(b.0)),
        url: ddg_href(str_or_empty(b.1)),
        snippet: match b.2 {
            Some(x) => join_space(words(x)),
            None => Seq::empty(),
        },
    }
}

/// A hit is kept when it has a title and an http(s) link.
pub open spec fn ddg_keep(h: SearchHitV) -> bool {
    h.title.len() > 0 && crate::text::has_prefix(h.url, "http"@)
}

/// The hits of the result blocks, in page order, after `acc`: blocks without
/// a link are passed over; collection stops once `count` hits are held.
pub open spec fn ddg_collect(
    blocks: Seq<Option<(Seq<char>, Option<Seq<char>>, Option<Seq<char>>)>>,
    count: u32,
    acc: Seq<SearchHitV>,
) -> Seq<SearchHitV>
    decreases blocks.len(),
{
    if blocks.len() == 0 {
        acc
    } else {
        match blocks[0] {
            None => ddg_collect(blocks.drop_first(), count, acc),
            Some(b) => {
                let h = ddg_hit(b);
                let acc2 = if ddg_keep(h) {
                    acc.push(h)
                } else {
                    acc
                };
                if acc2.len() >= count {
                    acc2
                } else {
                    ddg_collect(blocks.drop_first(), count, acc2)
                }
            },
        }
    }
}

/// The hits in DuckDuckGo's result blocks.
pub fn ddg_hits(blocks: &Vec<DdgBlock>, count: u32) -> (r: Vec<SearchHit>)
    ensures
        hits_view(r@) == ddg_collect(blocks.deep_view(), count, Seq::empty()),
{
    let ghost bs = blocks.deep_view();
    let mut out: Vec<SearchHit> = Vec::new();
    let mut i: usize = 0;
    assert(bs.skip(0) =~= bs);
    assert(hits_view(out@) =~= Seq::<SearchHitV>::empty());
    while i < blocks.len()
        invariant
            i <= blocks.len(),
            bs == blocks.deep_view(),
            bs.len() == blocks@.len(),
            ddg_collect(bs, count, Seq::empty()) == ddg_collect(bs.skip(i as int), count, hits_view(out@)),
        decreases blocks.len() - i,
    {
        assert(bs.skip(i as int)[0] == bs[i as int]);
        assert(bs.skip(i as int).drop_first() =~= bs.skip(i + 1));
        assert(bs[i as int] == blocks@[i as int].deep_view());
        let ghost acc = hits_view(out@);
        match &blocks[i] {
            None => {
                assert(ddg_collect(bs.skip(i as int), count, acc) == ddg_collect(bs.skip(i + 1), count, acc));
            },
            Some(b) => {
                let ghost bv = (b.0@, b.1.deep_view(), b.2.deep_view());
                assert(bs[i as int] == Some(bv));
                let title = clean(b.0.as_str());
                let raw = match &b.1 {
                    Some(h) => owned(h.as_str()),
                    None => String::new(),
                };
                let url = decode_ddg_href(raw.as_str());
                let snippet = match &b.2 {
                    Some(x) => clean(x.as_str()),
                    None => String::new(),
                };
                let keep = title.as_str().unicode_len() > 0 && crate::text::starts_with(
                    url.as_str(),
                    "http",
                );
                let h = SearchHit { title, url, snippet };
                assert(h@ == ddg_hit(bv));
                assert(keep == ddg_keep(h@));
                if keep {
                    let ghost hv = h@;
                    out.push(h);
                    assert(hits_view(out@) =~= acc.push(hv));
                }
                assert(ddg_collect(bs.skip(i as int), count, acc) == if hits_view(out@).len() >= count {
                    hits_view(out@)
                } else {
                    ddg_collect(bs.skip(i + 1), count, hits_view(out@))
                });
                if out.len() as u64 >= count as u64 {
                    return out;
                }
            },
        }
        i += 1;
    }
    out
}

/// DuckDuckGo's HTML result page as hits: the `.result__body` blocks, each
/// with its `a.result__a` link (and its `href`) and `a.result__snippet`.
pub fn ddg_page_hits(html: &str, count: u32) -> (r: Vec<SearchHit>)
    ensures
        hits_view(r@) == match html_blocks(
            html@,
            ".result__body"@,
            "a.result__a"@,
            "href"@,
            "a.result__snippet"@,
        ) {
            Some(bs) => ddg_collect(bs, count, Seq::empty()),
            None => Seq::empty(),
        },
{
    match select_blocks(html, ".result__body", "a.result__a", "href", "a.result__snippet") {
        Some(bs) => ddg_hits(&bs, count),
        None => {
            let out: Vec<SearchHit> = Vec::new();
            assert(hits_view(out@) =~= Seq::<SearchHitV>::empty());
            out
        },
    }
}

// --- web_extract ---------------------------------------------------------------------

/// A descendant of the chosen element: `None` for anything but a text
/// node; for a text node, its text and the names of its ancestors from the
/// nearest up (`None` for an ancestor that is not an element).
pub type PageNode = Option<(String, Vec<Option<String>>)>;

/// The descendants (in document order) of the first element of `html`
/// matching the selector `scope`: `None` when the selector does not parse,
/// `Some(None)` when nothing matches.
pub uninterp spec fn scope_nodes(html: Seq<char>, scope: Seq<char>) -> Option<
    Option<Seq<Option<(Seq<char>, Seq<Option<Seq<char>>>)>>>,
>;

/// `scraper::Html::parse_document(html)`, the first element matching
/// `scope`, and its descendants: each text node with its text and its
/// ancestors' element names. Its contract names the result; the parse
/// depends on nothing but its arguments.
#[verifier::external_body]
fn select_scope(html: &str, scope: &str) -> (r: Option<Option<Vec<PageNode>>>)
    ensures
        r.deep_view() == scope_nodes(html@, scope@),
{
    let doc = scraper::Html::parse_document(html);
    let sel = scraper::Selector::parse(scope).ok()?;
    Some(doc.select(&sel).next().map(|el| el.descendants().map(|n| n.value().as_text().map(|t| (
        t.to_string(),
        n.ancestors().map(|a| a.value().as_element().map(|e| e.name().to_string())).collect(),
    ))).collect()))
}

/// Page chrome whose text is left out.
pub open spec fn skip_tag(n: Seq<char>) -> bool {
    ||| n == "script"@
    ||| n == "style"@
    ||| n == "noscript"@
    ||| n == "svg"@
    ||| n == "nav"@
    ||| n == "footer"@
    ||| n == "header"@
    ||| n == "aside"@
    ||| n == "form"@
}

fn is_skip_tag(n: &str) -> (r: bool)
    ensures
        r == skip_tag(n@),
{
    crate::text::same_text(n, "script") || crate::text::same_text(n, "style")
        || crate::text::same_text(n, "noscript") || crate::text::same_text(n, "svg")
        || crate::text::same_text(n, "nav") || crate::text::same_text(n, "footer")
        || crate::text::same_text(n, "header") || crate::text::same_text(n, "aside")
        || crate::text::same_text(n, "form")
}

/// Walking up from a text node: `None` when an ancestor is page chrome,
/// `Some(true)` when a `br` is met first (a space goes before the text),
/// `Some(false)` when neither is met.
pub open spec fn walk_up(ancestors: Seq<Option<Seq<char>>>) -> Option<bool>
    decreases ancestors.len(),
{
    if ancestors.len() == 0 {
        Some(false)
    } else {
        match ancestors[0] {
            Some(n) => if skip_tag(n) {
                None
            } else if n == "br"@ {
                Some(true)
            } else {
                walk_up(ancestors.drop_first())
            },
            None => walk_up(ancestors.drop_first()),
        }
    }
}

/// What a descendant contributes to the page text.
pub open spec fn node_text(n: Option<(Seq<char>, Seq<Option<Seq<char>>>)>) -> Seq<char> {
    match n {
        None => Seq::empty(),
        Some((t, ancestors)) => match walk_up(ancestors) {
            None => Seq::empty(),
            Some(true) => seq![' '] + t,
            Some(false) => t,
        },
    }
}

/// The text of a scope: its descendants' contributions in order.
pub open spec fn scope_text(nodes: Seq<Option<(Seq<char>, Seq<Option<Seq<char>>>)>>) -> Seq<char>
    decreases nodes.len(),
{
    if nodes.len() == 0 {
        Seq::empty()
    } else {
        scope_text(nodes.drop_last()) + node_text(nodes.last())
    }
}

spec fn chrome_name(n: Seq<char>) -> bool {
    n == "script"@ || n == "style"@ || n == "noscript"@ || n == "svg"@ || n == "nav"@
        || n == "footer"@ || n == "header"@ || n == "aside"@ || n == "form"@
}

proof fn lemma_walk_meets_chrome(ancestors: Seq<Option<Seq<char>>>, j: int)
    requires
        0 <= j < ancestors.len(),
        ancestors[j] matches Some(n) && chrome_name(n),
        forall|k: int| 0 <= k < j ==> ancestors[k] != Some("br"@),
    ensures
        walk_up(ancestors) is None,
    decreases j,
{
    if j > 0 {
        let rest = ancestors.drop_first();
        assert forall|k: int| 0 <= k < j - 1 implies rest[k] != Some("br"@) by {
            assert(rest[k] == ancestors[k + 1]);
        }
        assert(rest[j - 1] == ancestors[j]);
        lemma_walk_meets_chrome(rest, j - 1);
        assert(ancestors[0] != Some("br"@));
    }
}

proof fn lemma_walk_clear(ancestors: Seq<Option<Seq<char>>>)
    requires
        forall|k: int|
            0 <= k < ancestors.len() ==> (#[trigger] ancestors[k] matches Some(n) ==> !chrome_name(n)
                && n != "br"@),
    ensures
        walk_up(ancestors) == Some(false),
    decreases ancestors.len(),
{
    if ancestors.len() > 0 {
        let rest = ancestors.drop_first();
        assert forall|k: int| 0 <= k < rest.len() implies (#[trigger] rest[k] matches Some(n) ==> !chrome_name(n)
            && n != "br"@) by {
            assert(rest[k] == ancestors[k + 1]);
        }
        lemma_walk_clear(rest);
        assert(ancestors[0] matches Some(n) ==> !chrome_name(n) && n != "br"@);
    }
}

/// Page chrome is left out of the readable text: a text node with a
/// `script`, `style`, `noscript`, `svg`, `nav`, `footer`, `header`,
/// `aside` or `form` ancestor (and no nearer `br`) contributes nothing;
/// a text node with neither chrome nor `br` among its ancestors
/// contributes exactly its text.
pub proof fn lemma_chrome_left_out(t: Seq<char>, ancestors: Seq<Option<Seq<char>>>)
    ensures
        ({
            let chrome = |n: Seq<char>|
                n == "script"@ || n == "style"@ || n == "noscript"@ || n == "svg"@ || n == "nav"@
                    || n == "footer"@ || n == "header"@ || n == "aside"@ || n == "form"@;
            &&& (exists|j: int|
                0 <= j < ancestors.len() && (#[trigger] ancestors[j] matches Some(n) && chrome(n))
                    && forall|k: int| 0 <= k < j ==> ancestors[k] != Some("br"@)) ==> node_text(
                Some((t, ancestors)),
            ) == Seq::<char>::empty()
            &&& (forall|k: int|
                0 <= k < ancestors.len() ==> (#[trigger] ancestors[k] matches Some(n) ==> !chrome(n)
                    && n != "br"@)) ==> node_text(Some((t, ancestors))) == t
        }),
{
    if exists|j: int|
        0 <= j < ancestors.len() && (#[trigger] ancestors[j] matches Some(n) && chrome_name(n))
            && forall|k: int| 0 <= k < j ==> ancestors[k] != Some("br"@) {
        let j = choose|j: int|
            0 <= j < ancestors.len() && (#[trigger] ancestors[j] matches Some(n) && chrome_name(n))
                && forall|k: int| 0 <= k < j ==> ancestors[k] != Some("br"@);
        lemma_walk_meets_chrome(ancestors, j);
    }
    if forall|k: int|
        0 <= k < ancestors.len() ==> (#[trigger] ancestors[k] matches Some(n) ==> !chrome_name(n)
            && n != "br"@) {
        lemma_walk_clear(ancestors);
    }
}

/// The collapsed text a scope offers, when the page has that scope.
pub open spec fn scope_candidate(html: Seq<char>, scope: Seq<char>) -> Option<Seq<char>> {
    match scope_nodes(html, scope) {
        Some(Some(nodes)) => Some(collapsed(scope_text(nodes))),
        _ => None,
    }
}

/// Keep `best` unless the candidate is longer in UTF-8 bytes.
pub open spec fn denser(best: Seq<char>, cand: Option<Seq<char>>) -> Seq<char> {
    match cand {
        Some(t) => if vstd::utf8::encode_utf8(t).len() > vstd::utf8::encode_utf8(best).len() {
            t
        } else {
            best
        },
        None => best,
    }
}

/// The densest of `<main>`, `<article>`, `[role=main]` and `<body>` (the
/// first of equally long ones), or `""`.
pub open spec fn readable_spec(html: Seq<char>) -> Seq<char> {
    denser(
        denser(
            denser(denser(Seq::empty(), scope_candidate(html, "main"@)), scope_candidate(html, "article"@)),
            scope_candidate(html, "[role=main]"@),
        ),
        scope_candidate(html, "body"@),
    )
}

fn node_text_exec(t: &String, ancestors: &Vec<Option<String>>) -> (r: String)
    ensures
        r@ == node_text(Some((t@, ancestors.deep_view()))),
{
    let ghost av = ancestors.deep_view();
    let mut i: usize = 0;
    assert(av.skip(0) =~= av);
    let mut space = false;
    while i < ancestors.len()
        invariant_except_break
            i <= ancestors.len(),
            walk_up(av) == walk_up(av.skip(i as int)),
            !space,
        invariant
            av == ancestors.deep_view(),
            av.len() == ancestors@.len(),
        ensures
            space ==> walk_up(av) == Some(true),
            !space ==> walk_up(av) == Some(false),
        decreases ancestors.len() - i,
    {
        assert(av.skip(i as int)[0] == av[i as int]);
        assert(av.skip(i as int).drop_first() =~= av.skip(i + 1));
        assert(av[i as int] == ancestors@[i as int].deep_view());
        match &ancestors[i] {
            Some(n) => {
                if is_skip_tag(n.as_str()) {
                    return String::new();
                }
                if crate::text::same_text(n.as_str(), "br") {
                    space = true;
                    break;
                }
            },
            None => {},
        }
        i += 1;
        if i == ancestors.len() {
            assert(av.skip(i as int) =~= Seq::<Option<Seq<char>>>::empty());
        }
    }
    proof {
        reveal_strlit(" ");
    }
    if space {
        crate::text::join_str(" ", t.as_str())
    } else {
        owned(t.as_str())
    }
}

fn scope_text_exec(nodes: &Vec<PageNode>) -> (r: String)
    ensures
        r@ == scope_text(nodes.deep_view()),
{
    let ghost nv = nodes.deep_view();
    let mut out = String::new();
    let mut i: usize = 0;
    while i < nodes.len()
        invariant
            i <= nodes.len(),
            nv == nodes.deep_view(),
            nv.len() == nodes@.len(),
            out@ == scope_text(nv.take(i as int)),
        decreases nodes.len() - i,
    {
        assert(nv.take(i + 1).drop_last() =~= nv.take(i as int));
        assert(nv.take(i + 1).last() == nodes@[i as int].deep_view());
        match &nodes[i] {
            Some(n) => {
                let piece = node_text_exec(&n.0, &n.1);
                out.append(piece.as_str());
            },
            None => {},
        }
        i += 1;
    }
    assert(nv.take(nodes.len() as int) =~= nv);
    out
}

fn candidate(html: &str, scope: &str) -> (r: Option<String>)
    ensures
        r.deep_view() == scope_candidate(html@, scope@),
{
    match select_scope(html, scope) {
        Some(Some(nodes)) => {
            let t = scope_text_exec(&nodes);
            Some(collapse(t.as_str()))
        },
        _ => None,
    }
}

fn pick_denser(best: String, cand: Option<String>) -> (r: String)
    ensures
        r@ == denser(best@, cand.deep_view()),
{
    match cand {
        Some(t) => if t.as_str().as_bytes().len() > best.as_str().as_bytes().len() {
            t
        } else {
            best
        },
        None => best,
    }
}

/// The readable text of an HTML page: text nodes of the densest content
/// scope, page chrome (script, style, nav, …) left out, whitespace collapsed.
pub fn readable_text(html: &str) -> (r: String)
    ensures
        r@ == readable_spec(html@),
{
    let mut best = String::new();
    best = pick_denser(best, candidate(html, "main"));
    best = pick_denser(best, candidate(html, "article"));
    best = pick_denser(best, candidate(html, "[role=main]"));
    best = pick_denser(best, candidate(html, "body"));
    best
}

/// `web_extract` takes only http(s) urls.
pub fn check_extract_url(url: &str) -> (r: Result<(), String>)
    ensures
        match r {
            Ok(_) => crate::text::has_prefix(url@, "http://"@) || crate::text::has_prefix(
                url@,
                "https://"@,
            ),
            Err(e) => !crate::text::has_prefix(url@, "http://"@) && !crate::text::has_prefix(
                url@,
                "https://"@,
            ) && e@ == "not an http(s) url: "@ + url@,
        },
{
    if !crate::text::starts_with(url, "http://") && !crate::text::starts_with(url, "https://") {
        Err(crate::text::join_str("not an http(s) url: ", url))
    } else {
        Ok(())
    }
}

/// Whether a reply's content type is JSON (then it is returned as text).
pub fn is_json_reply(content_type: &str) -> (r: bool)
    ensures
        r == exists|i: int| crate::text::occurs_at(content_type@, "application/json"@, i),
{
    crate::text::contains(content_type, "application/json")
}

/// A JSON reply as extracted text: `[json] ` and the body cut at 6000 bytes.
pub fn json_extract(body: &str) -> (r: String)
    requires
        crate::text::truncate_defined(body@, 6000),
    ensures
        r@ == "[json] "@ + crate::text::truncated(body@, 6000),
{
    let t = crate::text::truncate(body, 6000);
    crate::text::join_str("[json] ", t.as_str())
}

/// The extracted text of a page at `url` given its readable text: an error
/// when there is none, else the text cut at 8000 bytes.
pub fn finish_extract(url: &str, best: &str) -> (r: Result<String, String>)
    requires
        crate::text::truncate_defined(best@, 8000),
    ensures
        match r {
            Ok(t) => best@.len() > 0 && t@ == crate::text::truncated(best@, 8000),
            Err(e) => best@.len() == 0 && e@ == "no readable text at "@ + url@,
        },
{
    if best.unicode_len() == 0 {
        Err(crate::text::join_str("no readable text at ", url))
    } else {
        Ok(crate::text::truncate(best, 8000))
    }
}

// --- properties --------------------------------------------------------------------

/// DuckDuckGo, which needs no key, is always the last backend of the chain,
/// so an automatic search always has a backend to ask.
pub proof fn lemma_ddg_always_last(
    tavily: Option<Seq<char>>,
    exa: Option<Seq<char>>,
    brave: Option<Seq<char>>,
    searxng_url: Seq<char>,
    start: usize,
)
    ensures
        chain_spec(tavily, exa, brave, searxng_url).len() > 0,
        chain_spec(tavily, exa, brave, searxng_url).last() == BackendK::Ddgs,
        search_order(chain_spec(tavily, exa, brave, searxng_url), start, "auto"@, true).len()
            == chain_spec(tavily, exa, brave, searxng_url).len(),
{
    let c = chain_spec(tavily, exa, brave, searxng_url);
    let k = start as int % c.len() as int;
    vstd::arithmetic::div_mod::lemma_mod_bound(start as int, c.len() as int);
    crate::llm::lemma_rotation_index_len(c, k);
}

/// The backends named `name` and the others, together, are the chain.
proof fn lemma_by_name_split(s: Seq<BackendK>, name: Seq<char>)
    ensures
        (by_name(s, name, true) + by_name(s, name, false)).to_multiset() == s.to_multiset(),
    decreases s.len(),
{
    broadcast use vstd::multiset::group_multiset_axioms;

    if s.len() == 0 {
        assert(by_name(s, name, true) + by_name(s, name, false) =~= s);
    } else {
        let p = s.drop_last();
        let x = s.last();
        lemma_by_name_split(p, name);
        let a = by_name(p, name, true);
        let b = by_name(p, name, false);
        vstd::seq_lib::lemma_multiset_commutative(a, b);
        p.to_multiset_ensures();
        a.to_multiset_ensures();
        b.to_multiset_ensures();
        assert(s =~= p.push(x));
        if backend_name(x) == name {
            vstd::seq_lib::lemma_multiset_commutative(a.push(x), b);
        } else {
            vstd::seq_lib::lemma_multiset_commutative(a, b.push(x));
        }
        assert((by_name(s, name, true) + by_name(s, name, false)).to_multiset() =~= s.to_multiset());
    }
}

/// With fallback on, a search tries every backend of the chain exactly
/// once, whichever backend is configured.
pub proof fn lemma_fallback_tries_all(chain: Seq<BackendK>, start: usize, fixed: Seq<char>)
    ensures
        search_order(chain, start, fixed, true).to_multiset() == chain.to_multiset(),
{
    if is_auto(fixed) {
        if chain.len() > 0 {
            vstd::arithmetic::div_mod::lemma_mod_bound(start as int, chain.len() as int);
        }
        crate::llm::lemma_rotation_same_items(
            chain,
            if chain.len() == 0 {
                0
            } else {
                start as int % chain.len() as int
            },
        );
    } else {
        lemma_by_name_split(chain, fixed);
    }
}

/// A backend that fails an automatic search demotes itself: the next
/// search tries the chain in the previous order rotated by one. (At
/// `start == usize::MAX` the counter wraps to 0 instead.)
pub proof fn lemma_failure_rotates_chain(before: WebSearchRegistry, after: WebSearchRegistry)
    requires
        after.chain == before.chain,
        after.fixed == before.fixed,
        after.fallback == before.fallback,
        is_auto(before.fixed@),
        after.start == before.start + 1,
        before.chain@.len() > 0,
    ensures
        search_order(backends_view(after.chain@), after.start, after.fixed@, after.fallback) == rotation(
            search_order(backends_view(before.chain@), before.start, before.fixed@, before.fallback),
            1,
        ),
{
    crate::llm::lemma_rotate_step(backends_view(before.chain@), before.start as int);
}

} // verus!
