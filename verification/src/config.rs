//! The server's settings, and how a requested model is turned into one the
//! ChatGPT-account backend will accept.

use vstd::prelude::*;
use crate::json::str_eq;
use crate::text::{spec_trim, trim};

verus! {

broadcast use vstd::string::group_string_axioms;

/// The model used when a request names none the backend accepts.
pub const DEFAULT_MODEL: &'static str = "gpt-5.6-luna";

/// Where the files live is overridden by this environment variable.
pub const HOME_ENV: &'static str = "AUTH2API_HOME";

/// The views of a list of strings.
pub open spec fn views(s: Seq<String>) -> Seq<Seq<char>> {
    s.map_values(|x: String| x@)
}

/// The target of the first alias whose source is `key`.
pub open spec fn alias_of(a: Seq<(String, String)>, key: Seq<char>) -> Option<Seq<char>>
    decreases a.len(),
{
    if a.len() == 0 {
        None
    } else if a[0].0@ == key {
        Some(a[0].1@)
    } else {
        alias_of(a.drop_first(), key)
    }
}

pub open spec fn opt_str(o: Option<&str>) -> Option<Seq<char>> {
    match o {
        Some(s) => Some(s@),
        None => None,
    }
}

/// A requested model, trimmed, with an empty one counting as none.
pub open spec fn requested_model(requested: Option<Seq<char>>) -> Option<Seq<char>> {
    match requested {
        Some(r) => if spec_trim(r).len() > 0 { Some(spec_trim(r)) } else { None },
        None => None,
    }
}

/// The settings of one server.
pub struct Config {
    /// Bind address; loopback unless the user chose otherwise.
    pub host: String,
    pub port: u16,
    /// The legacy single key from `config.toml`; empty means none.
    pub api_key: String,
    /// Upstream proxy URL; empty means a direct connection.
    pub proxy: String,
    /// Model used when the client asks for one this login cannot serve.
    pub default_model: String,
    /// Models advertised and accepted verbatim.
    pub models: Vec<String>,
    /// Client-model to upstream-model rewrites, applied before the check.
    /// A map: no two entries share a client model (see `distinct_aliases`).
    pub model_aliases: Vec<(String, String)>,
    /// Sent as `instructions` when the client sends no system message.
    pub default_instructions: String,
}

/// No two aliases rewrite the same client model.
pub open spec fn distinct_aliases(a: Seq<(String, String)>) -> bool {
    forall|i: int, j: int| 0 <= i < a.len() && 0 <= j < a.len() && i != j ==> (#[trigger] a[i]).0@ != (#[trigger] a[j]).0@
}

/// The target of the first alias for `key`.
pub fn find_alias<'a>(aliases: &'a Vec<(String, String)>, key: &str) -> (r: Option<&'a str>)
    ensures
        opt_str(r) == alias_of(aliases@, key@),
{
    let mut i: usize = 0;
    assert(aliases@.skip(0) =~= aliases@);
    while i < aliases.len()
        invariant
            i <= aliases.len(),
            alias_of(aliases@, key@) == alias_of(aliases@.skip(i as int), key@),
        decreases aliases.len() - i,
    {
        let ghost rest = aliases@.skip(i as int);
        assert(rest[0] == aliases@[i as int]);
        if str_eq(aliases[i].0.as_str(), key) {
            return Some(aliases[i].1.as_str());
        }
        assert(rest.drop_first() =~= aliases@.skip(i + 1));
        i = i + 1;
    }
    assert(aliases@.skip(i as int).len() == 0);
    None
}

impl Config {
    /// The model a request for `requested` is served with.
    pub open spec fn resolved_model(self, requested: Option<Seq<char>>) -> Seq<char> {
        match requested_model(requested) {
            None => self.default_model@,
            Some(q) => {
                let mapped = match alias_of(self.model_aliases@, q) {
                    Some(m) => m,
                    None => q,
                };
                if views(self.models@).contains(mapped) {
                    mapped
                } else {
                    self.default_model@
                }
            },
        }
    }

    /// Rewrites a client-requested model into one this login can use: the
    /// alias target if there is one, kept only if it is in `models`, and the
    /// default model otherwise.
    pub fn resolve_model(&self, requested: Option<&str>) -> (r: String)
        ensures
            r@ == self.resolved_model(opt_str(requested)),
    {
        let trimmed = match requested {
            Some(r) => {
                let t = trim(r);
                if t.is_empty() {
                    None
                } else {
                    Some(t)
                }
            },
            None => None,
        };
        let q = match trimmed {
            None => return self.default_model.clone(),
            Some(q) => q,
        };
        let mapped: &str = match find_alias(&self.model_aliases, q) {
            Some(m) => m,
            None => q,
        };
        let mut j: usize = 0;
        while j < self.models.len()
            invariant
                j <= self.models.len(),
                forall|k: int| 0 <= k < j ==> self.models@[k]@ != mapped@,
                requested_model(opt_str(requested)) == Some(q@),
                mapped@ == match alias_of(self.model_aliases@, q@) {
                    Some(m) => m,
                    None => q@,
                },
            decreases self.models.len() - j,
        {
            if str_eq(self.models[j].as_str(), mapped) {
                assert(views(self.models@)[j as int] == mapped@);
                assert(views(self.models@).contains(mapped@));
                assert(requested_model(opt_str(requested)) == Some(q@));
                return mapped.to_string();
            }
            j = j + 1;
        }
        assert(!views(self.models@).contains(mapped@));
        self.default_model.clone()
    }
}

} // verus!

verus! {

/// The models the ChatGPT-account backend is known to accept.
pub fn default_models() -> (r: Vec<String>)
    ensures
        views(r@) == seq!["gpt-5.6-sol"@, "gpt-5.6-terra"@, "gpt-5.6-luna"@],
{
    let r = vec!["gpt-5.6-sol".to_string(), "gpt-5.6-terra".to_string(), "gpt-5.6-luna".to_string()];
    assert(views(r@) =~= seq!["gpt-5.6-sol"@, "gpt-5.6-terra"@, "gpt-5.6-luna"@]);
    r
}

impl Default for Config {
    fn default() -> (r: Self)
        ensures
            r.host@ == "127.0.0.1"@,
            r.port == 8787,
            r.api_key@.len() == 0,
            r.proxy@.len() == 0,
            r.default_model@ == DEFAULT_MODEL@,
            views(r.models@) == seq!["gpt-5.6-sol"@, "gpt-5.6-terra"@, "gpt-5.6-luna"@],
            r.model_aliases@.len() == 0,
            distinct_aliases(r.model_aliases@),
            r.default_instructions@ == "You are a helpful assistant."@,
    {
        Config {
            host: "127.0.0.1".to_string(),
            port: 8787,
            api_key: String::new(),
            proxy: String::new(),
            default_model: DEFAULT_MODEL.to_string(),
            models: default_models(),
            model_aliases: Vec::new(),
            default_instructions: "You are a helpful assistant.".to_string(),
        }
    }
}

impl Config {
    /// Sets the alias for `from`, replacing the one already there, as a map
    /// insert does.
    pub fn insert_alias(&mut self, from: &str, to: &str)
        ensures
            alias_of(final(self).model_aliases@, from@) == Some(to@),
            forall|k: Seq<char>|
                k != from@ ==> alias_of(final(self).model_aliases@, k) == alias_of(
                    old(self).model_aliases@,
                    k,
                ),
            distinct_aliases(old(self).model_aliases@) ==> distinct_aliases(final(self).model_aliases@),
            final(self).host == old(self).host,
            final(self).port == old(self).port,
            final(self).api_key == old(self).api_key,
            final(self).proxy == old(self).proxy,
            final(self).default_model == old(self).default_model,
            final(self).models == old(self).models,
            final(self).default_instructions == old(self).default_instructions,
    {
        let ghost old_a = self.model_aliases@;
        let mut i: usize = 0;
        while i < self.model_aliases.len()
            invariant
                i <= self.model_aliases.len(),
                self.model_aliases@ == old_a,
                old_a == old(self).model_aliases@,
                self.host == old(self).host,
                self.port == old(self).port,
                self.api_key == old(self).api_key,
                self.proxy == old(self).proxy,
                self.default_model == old(self).default_model,
                self.models == old(self).models,
                self.default_instructions == old(self).default_instructions,
                forall|k: int| 0 <= k < i ==> old_a[k].0@ != from@,
            decreases self.model_aliases.len() - i,
        {
            if str_eq(self.model_aliases[i].0.as_str(), from) {
                let entry = (self.model_aliases[i].0.clone(), to.to_string());
                self.model_aliases.set(i, entry);
                proof {
                    lemma_alias_update(old_a, i as int, entry, from@);
                    assert forall|x: int| 0 <= x < old_a.len() implies (#[trigger] self.model_aliases@[x]).0@
                        == old_a[x].0@ by {}
                }
                return;
            }
            i = i + 1;
        }
        let entry = (from.to_string(), to.to_string());
        proof {
            lemma_alias_push(old_a, entry, from@);
        }
        self.model_aliases.push(entry);
        proof {
            assert forall|x: int| 0 <= x < old_a.len() implies (#[trigger] self.model_aliases@[x]).0@
                == old_a[x].0@ by {}
        }
    }
}

proof fn lemma_alias_update(a: Seq<(String, String)>, i: int, e: (String, String), key: Seq<char>)
    requires
        0 <= i < a.len(),
        forall|k: int| 0 <= k < i ==> a[k].0@ != key,
        a[i].0@ == key,
        e.0@ == key,
    ensures
        alias_of(a.update(i, e), key) == Some(e.1@),
        forall|k: Seq<char>| k != key ==> alias_of(a.update(i, e), k) == alias_of(a, k),
    decreases a.len(),
{
    if i > 0 {
        lemma_alias_update(a.drop_first(), i - 1, e, key);
        assert(a.update(i, e).drop_first() =~= a.drop_first().update(i - 1, e));
        assert forall|k: Seq<char>| k != key implies alias_of(a.update(i, e), k) == alias_of(a, k) by {
            assert(a.update(i, e)[0] == a[0]);
            assert(alias_of(a.drop_first().update(i - 1, e), k) == alias_of(a.drop_first(), k));
            assert(alias_of(a.update(i, e).drop_first(), k) == alias_of(a.drop_first(), k));
        }
    } else {
        assert(a.update(i, e).drop_first() =~= a.drop_first());
        assert forall|k: Seq<char>| k != key implies alias_of(a.update(i, e), k) == alias_of(a, k) by {
            assert(a.update(i, e)[0] == e);
        }
    }
}

proof fn lemma_alias_push(a: Seq<(String, String)>, e: (String, String), key: Seq<char>)
    requires
        forall|k: int| 0 <= k < a.len() ==> a[k].0@ != key,
        e.0@ == key,
    ensures
        alias_of(a.push(e), key) == Some(e.1@),
        forall|k: Seq<char>| k != key ==> alias_of(a.push(e), k) == alias_of(a, k),
    decreases a.len(),
{
    if a.len() > 0 {
        lemma_alias_push(a.drop_first(), e, key);
        assert(a.push(e).drop_first() =~= a.drop_first().push(e));
        assert forall|k: Seq<char>| k != key implies alias_of(a.push(e), k) == alias_of(a, k) by {
            assert(a.push(e)[0] == a[0]);
            assert(alias_of(a.drop_first().push(e), k) == alias_of(a.drop_first(), k));
            assert(alias_of(a.push(e).drop_first(), k) == alias_of(a.drop_first(), k));
        }
    } else {
        assert(a.push(e).drop_first() =~= a);
        assert forall|k: Seq<char>| k != key implies alias_of(a.push(e), k) == alias_of(a, k) by {
            assert(a.push(e)[0] == e);
            assert(alias_of(a.push(e).drop_first(), k) == None::<Seq<char>>);
        }
    }
}

/// The serve flags a user can pass; each one given replaces the setting.
pub struct ServeArgs {
    pub host: Option<String>,
    pub port: Option<u16>,
    pub proxy: Option<String>,
    pub model: Option<String>,
}

/// Applies the serve flags over the file's settings: a flag that was given
/// wins, one that was not leaves the setting as the file has it.
pub fn apply_overrides(config: Config, args: &ServeArgs) -> (r: Config)
    ensures
        r.host == (match &args.host { Some(h) => *h, None => config.host }),
        r.port == (match args.port { Some(p) => p, None => config.port }),
        r.proxy == (match &args.proxy { Some(p) => *p, None => config.proxy }),
        r.default_model == (match &args.model { Some(m) => *m, None => config.default_model }),
        r.api_key == config.api_key,
        r.models == config.models,
        r.model_aliases == config.model_aliases,
        r.default_instructions == config.default_instructions,
{
    let mut config = config;
    if let Some(host) = &args.host {
        config.host = host.clone();
    }
    if let Some(port) = args.port {
        config.port = port;
    }
    if let Some(proxy) = &args.proxy {
        config.proxy = proxy.clone();
    }
    if let Some(model) = &args.model {
        config.default_model = model.clone();
    }
    config
}


/// Applies the settings a window can change. Each one omitted is left as
/// written, so saving a port never overwrites a proxy or a model that was
/// set by hand in the file.
pub fn apply_settings(config: Config, port: Option<u16>, default_model: Option<String>, proxy: Option<String>) -> (r: Config)
    ensures
        r.port == (match port { Some(p) => p, None => config.port }),
        r.default_model == (match default_model { Some(m) => m, None => config.default_model }),
        r.proxy == (match proxy { Some(p) => p, None => config.proxy }),
        r.host == config.host,
        r.api_key == config.api_key,
        r.models == config.models,
        r.model_aliases == config.model_aliases,
        r.default_instructions == config.default_instructions,
{
    let mut config = config;
    if let Some(p) = port {
        config.port = p;
    }
    if let Some(m) = default_model {
        config.default_model = m;
    }
    if let Some(p) = proxy {
        config.proxy = p;
    }
    config
}


/// Whatever a client asks for, the model served is one the login lists,
/// or the configured default: a request never fails for its model.
pub proof fn law_served_model_is_listed_or_default(config: Config, requested: Option<Seq<char>>)
    ensures
        views(config.models@).contains(config.resolved_model(requested)) || config.resolved_model(requested)
            == config.default_model@,
{
}

/// Aliases are applied before the check against the list: an alias whose
/// target is listed serves the target.
pub proof fn law_aliases_apply_before_the_check(config: Config, requested: Option<Seq<char>>, target: Seq<char>)
    requires
        requested_model(requested) matches Some(q) && alias_of(config.model_aliases@, q) == Some(target),
        views(config.models@).contains(target),
    ensures
        config.resolved_model(requested) == target,
{
}


/// The files, side by side in the config directory.
pub const CONFIG_FILE: &'static str = "config.toml";

pub const KEYS_FILE: &'static str = "keys.json";

pub const AUTH_FILE: &'static str = "auth.json";

pub const LOG_FILE: &'static str = "usage.jsonl";

pub const NO_CONFIG_DIR: &'static str = "cannot determine a config directory on this platform";

/// Where every file lives: the directory named by `AUTH2API_HOME` when it
/// is set to something other than blanks, else the platform's config
/// directory for the app, where the platform has one.
pub fn choose_config_dir(home: Option<&str>, platform: Option<&str>) -> (r: Result<String, String>)
    ensures
        match home {
            Some(h) if spec_trim(h@).len() > 0 => r matches Ok(d) && d@ == h@,
            _ => match platform {
                Some(p) => r matches Ok(d) && d@ == p@,
                None => r matches Err(e) && e@ == NO_CONFIG_DIR@,
            },
        },
{
    if let Some(h) = home {
        if !trim(h).is_empty() {
            return Ok(h.to_string());
        }
    }
    match platform {
        Some(p) => Ok(p.to_string()),
        None => Err(NO_CONFIG_DIR.to_string()),
    }
}

} // verus!
