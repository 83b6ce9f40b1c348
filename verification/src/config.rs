//! Agent configuration: the provider ring and search settings read from
//! `settings.json`, zero-config defaults, and keyring answers.
//!
//! API keys never live in the file; the keyring is asked at the edge and its
//! output is interpreted here.
use vstd::prelude::*;
use crate::text::{owned, trim, trim_ws, utf8_lossy, from_utf8_lossy};

verus! {

/// One OpenAI-compatible provider.
#[derive(Clone, Debug)]
pub struct ProviderCfg {
    /// display id, e.g. "zen", "ollama", "openai"
    pub id: String,
    /// OpenAI-compatible base url (…/v1)
    pub base_url: String,
    /// models to rotate through on failure
    pub models: Vec<String>,
    /// keyring account holding this provider's API key; `None` = keyless
    pub key_account: Option<String>,
}

/// Web search / extract settings.
#[derive(Clone, Debug)]
pub struct SearchCfg {
    /// "auto" (key-aware chain) or a fixed backend: ddgs | searxng | brave | tavily | exa
    pub search_backend: String,
    /// "auto" = direct fetch + readability-lite extraction
    pub extract_backend: String,
    pub searxng_url: String,
    pub count: u32,
    /// fall through the chain when the chosen backend fails
    pub keyless_fallback: bool,
}

/// The agent's configuration.
#[derive(Clone, Debug)]
pub struct Config {
    /// LLM providers in preference order.
    pub providers: Vec<ProviderCfg>,
    pub search: SearchCfg,
}

/// The default of `keyless_fallback` when the file omits it.
pub fn default_true() -> (r: bool)
    ensures
        r,
{
    true
}

impl SearchCfg {
    /// The default search settings: auto backends, no SearXNG, five hits, fallback on.
    pub open spec fn is_default(&self) -> bool {
        &&& self.search_backend@ == "auto"@
        &&& self.extract_backend@ == "auto"@
        &&& self.searxng_url@ == Seq::<char>::empty()
        &&& self.count == 5
        &&& self.keyless_fallback
    }
}

impl Default for SearchCfg {
    fn default() -> (r: SearchCfg)
        ensures
            r.is_default(),
    {
        SearchCfg {
            search_backend: owned("auto"),
            extract_backend: owned("auto"),
            searxng_url: String::new(),
            count: 5,
            keyless_fallback: default_true(),
        }
    }
}

impl Default for Config {
    fn default() -> (r: Config)
        ensures
            r.providers@.len() == 0,
            r.search.is_default(),
    {
        Config { providers: Vec::new(), search: SearchCfg::default() }
    }
}

/// A provider given by its four fields.
pub open spec fn provider_is(
    p: ProviderCfg,
    id: Seq<char>,
    base_url: Seq<char>,
    models: Seq<Seq<char>>,
    key_account: Option<Seq<char>>,
) -> bool {
    &&& p.id@ == id
    &&& p.base_url@ == base_url
    &&& p.models.deep_view() == models
    &&& p.key_account.deep_view() == key_account
}

impl Config {
    /// The zero-config ring: the opencode zen free tier (rotating models), then
    /// a local ollama whose models are discovered at runtime.
    pub open spec fn is_default_ring(&self) -> bool {
        &&& self.providers@.len() == 2
        &&& provider_is(
            self.providers@[0],
            "zen-free"@,
            "https://opencode.ai/zen/v1"@,
            seq![
                "big-pickle"@,
                "deepseek-v4-flash-free"@,
                "mimo-v2.5-free"@,
                "nemotron-3-super-free"@,
            ],
            None,
        )
        &&& provider_is(
            self.providers@[1],
            "ollama"@,
            "http://localhost:11434/v1"@,
            Seq::empty(),
            None,
        )
    }

    /// Zero-config defaults: the default ring and default search settings.
    pub fn with_defaults() -> (c: Config)
        ensures
            c.is_default_ring(),
            c.search.is_default(),
    {
        let models = vec![
            owned("big-pickle"),
            owned("deepseek-v4-flash-free"),
            owned("mimo-v2.5-free"),
            owned("nemotron-3-super-free"),
        ];
        let zen = ProviderCfg {
            id: owned("zen-free"),
            base_url: owned("https://opencode.ai/zen/v1"),
            models,
            key_account: None,
        };
        let ollama = ProviderCfg {
            id: owned("ollama"),
            base_url: owned("http://localhost:11434/v1"),
            models: Vec::new(),
            key_account: None,
        };
        let c = Config { providers: vec![zen, ollama], search: SearchCfg::default() };
        assert(c.providers@[0].models.deep_view() =~= seq![
            "big-pickle"@,
            "deepseek-v4-flash-free"@,
            "mimo-v2.5-free"@,
            "nemotron-3-super-free"@,
        ]);
        assert(c.providers@[1].models.deep_view() =~= Seq::<Seq<char>>::empty());
        c
    }
}

/// `~/.config/heyclicky/settings.json`: the agent reads its additive fields.
pub fn config_path(home: &str) -> (r: String)
    ensures
        r@ == crate::settings::join_path(home@, ".config/heyclicky/settings.json"@),
{
    crate::settings::join(home, ".config/heyclicky/settings.json")
}

/// The configuration in effect given what `settings.json` held: `None` when
/// the file is missing or not valid JSON. A file's provider list replaces the
/// default ring only when it is non-empty; its search settings always apply.
pub fn config_from_file(file: Option<Config>) -> (c: Config)
    ensures
        match file {
            None => c.is_default_ring() && c.search.is_default(),
            Some(f) => {
                &&& (f.providers@.len() > 0 ==> c.providers == f.providers)
                &&& (f.providers@.len() == 0 ==> c.is_default_ring())
                &&& c.search == f.search
            },
        },
{
    let mut cfg = Config::with_defaults();
    match file {
        Some(f) => {
            if f.providers.len() > 0 {
                cfg.providers = f.providers;
            }
            cfg.search = f.search;
        },
        None => {},
    }
    cfg
}

/// The API key in what `secret-tool lookup` printed: the output trimmed,
/// `None` when that leaves nothing (keyless mode).
pub fn key_from_lookup(stdout: &[u8]) -> (r: Option<String>)
    ensures
        match r {
            Some(k) => k@ == trim_ws(utf8_lossy(stdout@)) && k@.len() > 0,
            None => trim_ws(utf8_lossy(stdout@)).len() == 0,
        },
        vstd::utf8::valid_utf8(stdout@) ==> match r {
            Some(k) => k@ == trim_ws(vstd::utf8::decode_utf8(stdout@)),
            None => trim_ws(vstd::utf8::decode_utf8(stdout@)).len() == 0,
        },
{
    let text = from_utf8_lossy(stdout);
    let key = trim(text.as_str());
    if key.as_str().unicode_len() == 0 {
        None
    } else {
        Some(key)
    }
}

} // verus!
