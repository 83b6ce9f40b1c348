use squeaky::config::SearchCfg;
use squeaky::json::Json;
use squeaky::search::{
    check_extract_url, clean, collapse, ddg_hits, ddg_page_hits, decode_ddg_href, finish_extract, hits_in_reply,
    is_json_reply, json_extract, readable_text, request_for, Backend, SearchHit, SearchStep, WebSearchRegistry,
};

fn s(x: &str) -> Json {
    Json::Str(x.to_string())
}

fn obj(fields: Vec<(&str, Json)>) -> Json {
    Json::Obj(fields.into_iter().map(|(k, v)| (k.to_string(), v)).collect())
}

fn cfg(backend: &str, url: &str, count: u32, fallback: bool) -> SearchCfg {
    SearchCfg {
        search_backend: backend.into(),
        extract_backend: "auto".into(),
        searxng_url: url.into(),
        count,
        keyless_fallback: fallback,
    }
}

fn names(v: &[Backend]) -> Vec<&'static str> {
    v.iter().map(|b| b.name()).collect()
}

fn hit(t: &str) -> SearchHit {
    SearchHit { title: t.into(), url: format!("https://{}.example", t), snippet: "s".into() }
}

#[test]
fn backend_names() {
    assert_eq!(Backend::Ddgs.name(), "ddgs");
    assert_eq!(Backend::Searxng("u".into()).name(), "searxng");
    assert_eq!(Backend::Brave("k".into()).name(), "brave");
    assert_eq!(Backend::Tavily("k".into()).name(), "tavily");
    assert_eq!(Backend::Exa("k".into()).name(), "exa");
}

#[test]
fn chain_is_key_aware() {
    let r = WebSearchRegistry::new(&cfg("auto", "https://sx.example//", 0, true), Some("tk".into()), None, Some("bk".into()));
    assert_eq!(names(&r.chain), vec!["tavily", "brave", "searxng", "ddgs"]);
    assert_eq!(r.chain[2], Backend::Searxng("https://sx.example".into()));
    assert_eq!(r.chain_label(), "tavily > brave > searxng > ddgs");
    assert_eq!(r.count, 1);
    assert_eq!(r.start, 0);
    // zero config: DuckDuckGo alone
    let z = WebSearchRegistry::new(&SearchCfg::default(), None, None, None);
    assert_eq!(names(&z.chain), vec!["ddgs"]);
    assert_eq!(z.count, 5);
}

#[test]
fn search_plans() {
    let mut r = WebSearchRegistry::new(&cfg("auto", "https://sx", 5, true), None, Some("ek".into()), None);
    assert_eq!(r.plan("   ").unwrap_err(), "empty query");
    let p = r.plan("  rust  ").unwrap();
    assert_eq!(p.query, "rust");
    assert_eq!(names(&p.order), vec!["exa", "searxng", "ddgs"]);
    r.start = 4;
    assert_eq!(names(&r.order()), vec!["searxng", "ddgs", "exa"]);

    let fixed = WebSearchRegistry::new(&cfg("ddgs", "https://sx", 5, true), None, Some("ek".into()), None);
    assert_eq!(names(&fixed.order()), vec!["ddgs", "exa", "searxng"]);
    let only = WebSearchRegistry::new(&cfg("ddgs", "https://sx", 5, false), None, Some("ek".into()), None);
    assert_eq!(names(&only.order()), vec!["ddgs"]);
    let missing = WebSearchRegistry::new(&cfg("brave", "", 5, false), None, None, None);
    assert_eq!(missing.plan("q").unwrap_err(), "backend 'brave' not available (no key / no url?)");
    let missing_fallback = WebSearchRegistry::new(&cfg("brave", "", 5, true), None, None, None);
    assert_eq!(names(&missing_fallback.plan("q").unwrap().order), vec!["ddgs"]);
}

#[test]
fn search_run_falls_through() {
    let mut r = WebSearchRegistry::new(&cfg("auto", "https://sx", 5, true), Some("tk".into()), None, Some("bk".into()));
    let mut run = r.plan("q").unwrap();
    assert_eq!(run.current().unwrap().name(), "tavily");
    assert_eq!(run.outcome(&mut r, Ok(vec![])), SearchStep::Next);
    assert_eq!(run.last_err, "tavily returned 0 hits");
    assert_eq!(r.start, 1);
    assert_eq!(run.outcome(&mut r, Err("HTTP 500".into())), SearchStep::Next);
    assert_eq!(run.last_err, "brave failed: HTTP 500");
    assert_eq!(r.start, 2);
    match run.outcome(&mut r, Ok(vec![hit("a")])) {
        SearchStep::Found(h, name) => {
            assert_eq!(h, vec![hit("a")]);
            assert_eq!(name, "searxng");
        }
        other => panic!("unexpected {:?}", other),
    }
    assert_eq!(r.start, 2);
    // the next automatic search starts past the two demoted backends
    assert_eq!(names(&r.order()), vec!["searxng", "ddgs", "tavily", "brave"]);
}

#[test]
fn search_run_gives_up() {
    let mut r = WebSearchRegistry::new(&SearchCfg::default(), None, None, None);
    let mut run = r.plan("q").unwrap();
    assert_eq!(run.outcome(&mut r, Err("down".into())), SearchStep::Next);
    assert!(run.current().is_none());
    assert_eq!(run.give_up(), "all search backends failed; last: ddgs failed: down");
    assert_eq!(r.start, 1);
}

#[test]
fn backend_requests() {
    let q = request_for(&Backend::Ddgs, "rust lang", 5);
    assert!(!q.post && q.html);
    assert_eq!(q.url, "https://html.duckduckgo.com/html/");
    assert_eq!(q.params, vec![("q".to_string(), "rust lang".to_string())]);

    let q = request_for(&Backend::Searxng("https://sx".into()), "r", 5);
    assert_eq!(q.url, "https://sx/search");
    assert_eq!(q.params, vec![("q".to_string(), "r".to_string()), ("format".to_string(), "json".to_string())]);

    let q = request_for(&Backend::Brave("bk".into()), "r", 7);
    assert_eq!(q.url, "https://api.search.brave.com/res/v1/web/search");
    assert_eq!(q.params, vec![("q".to_string(), "r".to_string()), ("count".to_string(), "7".to_string())]);
    assert_eq!(q.headers, vec![("X-Subscription-Token".to_string(), "bk".to_string())]);

    let q = request_for(&Backend::Tavily("tk".into()), "r", 3);
    assert!(q.post);
    assert_eq!(q.bearer.as_deref(), Some("tk"));
    assert_eq!(q.body, Some(obj(vec![("query", s("r")), ("max_results", Json::Num(Some(3)))])));

    let q = request_for(&Backend::Exa("ek".into()), "r", 3);
    assert_eq!(q.url, "https://api.exa.ai/search");
    assert_eq!(q.headers, vec![("x-api-key".to_string(), "ek".to_string())]);
    assert_eq!(
        q.body,
        Some(obj(vec![
            ("query", s("r")),
            ("numResults", Json::Num(Some(3))),
            ("contents", obj(vec![("text", obj(vec![("maxCharacters", Json::Num(Some(400)))]))])),
        ]))
    );
}

#[test]
fn json_replies_as_hits() {
    let results = Json::Arr(vec![
        obj(vec![("title", s("A")), ("url", s("https://a")), ("content", s("ca")), ("description", s("da"))]),
        obj(vec![("url", s("https://b")), ("content", Json::Num(Some(1)))]),
        obj(vec![("title", s("C"))]),
    ]);
    let v = obj(vec![("results", results)]);
    let h = hits_in_reply(&Backend::Searxng("u".into()), &v, 2);
    assert_eq!(
        h,
        vec![
            SearchHit { title: "A".into(), url: "https://a".into(), snippet: "ca".into() },
            SearchHit { title: "".into(), url: "https://b".into(), snippet: "".into() },
        ]
    );
    assert_eq!(hits_in_reply(&Backend::Exa("k".into()), &v, 10).len(), 3);
    assert_eq!(hits_in_reply(&Backend::Exa("k".into()), &v, 10)[0].snippet, "");
    let brave = obj(vec![("web", obj(vec![("results", Json::Arr(vec![obj(vec![("title", s("B")), ("description", s("d"))])]))]))]);
    let h = hits_in_reply(&Backend::Brave("k".into()), &brave, 5);
    assert_eq!(h, vec![SearchHit { title: "B".into(), url: "".into(), snippet: "d".into() }]);
    assert!(hits_in_reply(&Backend::Tavily("k".into()), &obj(vec![]), 5).is_empty());
}

#[test]
fn whitespace_collapses() {
    assert_eq!(collapse("  a \t\n b  "), "a b");
    assert_eq!(clean("  a \t\n b  "), "a b");
    assert_eq!(collapse(""), "");
    assert_eq!(clean("\n\n"), "");
    for t in ["x", " two  words ", "a\u{3000}b\u{a0}c", "\tlead", "trail\n"] {
        assert_eq!(clean(t), collapse(t));
    }
}

#[test]
fn duckduckgo_links() {
    assert_eq!(
        decode_ddg_href("//duckduckgo.com/l/?uddg=https%3A%2F%2Fexample.com%2Fa%3Fb%3D1&rut=abc"),
        "https://example.com/a?b=1"
    );
    assert_eq!(decode_ddg_href("//duckduckgo.com/l/?uddg=caf%C3%A9"), "café");
    assert_eq!(decode_ddg_href("//duckduckgo.com/l/?uddg=%zz%41"), "%zzA");
    assert_eq!(decode_ddg_href("//duckduckgo.com/l/?x=1"), "https://duckduckgo.com/l/?x=1");
    assert_eq!(decode_ddg_href("//example.com/x"), "https://example.com/x");
    assert_eq!(decode_ddg_href("https://a.b/c"), "https://a.b/c");
    assert_eq!(decode_ddg_href(""), "");
}

const DDG_PAGE: &str = r#"<html><body>
<div class="result__body"><a class="result__a" href="//duckduckgo.com/l/?uddg=https%3A%2F%2Fa.example%2F&amp;rut=x">  A   <b>title</b> </a>
<a class="result__snippet" href="x">snip
 text</a></div>
<div class="result__body"><a class="result__a" href="/relative">Rel</a></div>
<div class="result__body"><span>no link</span></div>
<div class="result__body"><a class="result__a" href="https://b.example/">B</a></div>
</body></html>"#;

#[test]
fn duckduckgo_page() {
    let h = ddg_page_hits(DDG_PAGE, 5);
    assert_eq!(
        h,
        vec![
            SearchHit { title: "A title".into(), url: "https://a.example/".into(), snippet: "snip text".into() },
            SearchHit { title: "B".into(), url: "https://b.example/".into(), snippet: "".into() },
        ]
    );
    assert_eq!(ddg_page_hits(DDG_PAGE, 1).len(), 1);
    assert!(ddg_page_hits("<html></html>", 5).is_empty());
}

#[test]
fn duckduckgo_blocks() {
    let blocks = vec![
        None,
        Some(("  T ".to_string(), Some("https://t".to_string()), None)),
        Some(("".to_string(), Some("https://empty-title".to_string()), None)),
        Some(("U".to_string(), None, Some(" s ".to_string()))),
        Some(("V".to_string(), Some("http://v".to_string()), Some("sv".to_string()))),
    ];
    let h = ddg_hits(&blocks, 10);
    assert_eq!(
        h,
        vec![
            SearchHit { title: "T".into(), url: "https://t".into(), snippet: "".into() },
            SearchHit { title: "V".into(), url: "http://v".into(), snippet: "sv".into() },
        ]
    );
    // the count is checked after a block is read, so even 0 takes one hit
    assert_eq!(ddg_hits(&blocks, 0).len(), 1);
}

#[test]
fn readable_page_text() {
    let page = "<html><head><title>t</title></head><body><nav>menu</nav><main><p>Hello  <b>world</b></p><script>x()</script></main><footer>f</footer></body></html>";
    assert_eq!(readable_text(page), "Hello world");
    let body_only = "<html><body><header>h</header><p>Body text is here</p><aside>side</aside></body></html>";
    assert_eq!(readable_text(body_only), "Body text is here");
    let article = "<html><body><main>short</main><article>a much longer article text</article></body></html>";
    // <body> holds both texts run together, which is longer still
    assert_eq!(readable_text(article), "shorta much longer article text");
    assert_eq!(readable_text("<html><body><script>only()</script></body></html>"), "");
}

#[test]
fn extract_steps() {
    assert_eq!(check_extract_url("ftp://x"), Err("not an http(s) url: ftp://x".to_string()));
    assert_eq!(check_extract_url("https://x"), Ok(()));
    assert_eq!(check_extract_url("http://x"), Ok(()));
    assert!(is_json_reply("application/json; charset=utf-8"));
    assert!(!is_json_reply("text/html"));
    assert_eq!(json_extract("{\"a\":1}"), "[json] {\"a\":1}");
    assert_eq!(json_extract(&"y".repeat(6001)), format!("[json] {}…", "y".repeat(6000)));
    assert_eq!(finish_extract("u", ""), Err("no readable text at u".to_string()));
    assert_eq!(finish_extract("u", "text"), Ok("text".to_string()));
    assert_eq!(finish_extract("u", &"z".repeat(8005)), Ok(format!("{}…", "z".repeat(8000))));
}
