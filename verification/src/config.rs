//! Configuration for the resolver and the completion engine: the workspace
//! base path, the default domain, whether clone URLs default to HTTPS, and
//! the depth bound of the fuzzy completion search. A configuration starts
//! from built-in defaults and is amended by the top-level entries of a TOML
//! document, handed in as text by the caller.

use vstd::prelude::*;
use crate::strings::eq_str;

verus! {

/// The settings both components consult. Immutable once built.
pub struct Config {
    pub base_path: String,
    pub default_https: bool,
    pub default_domain: String,
    pub default_search_depth: usize,
}

/// Mathematical model of a `Config`.
pub struct ConfigV {
    pub base_path: Seq<char>,
    pub default_https: bool,
    pub default_domain: Seq<char>,
    pub default_search_depth: nat,
}

impl View for Config {
    type V = ConfigV;

    open spec fn view(&self) -> ConfigV {
        ConfigV {
            base_path: self.base_path@,
            default_https: self.default_https,
            default_domain: self.default_domain@,
            default_search_depth: self.default_search_depth as nat,
        }
    }
}

/// The built-in default domain.
pub open spec fn default_domain_spec() -> Seq<char> {
    "github.com"@
}

/// The configuration before any file entry is applied.
pub open spec fn default_config_spec(base: Seq<char>) -> ConfigV {
    ConfigV {
        base_path: base,
        default_https: false,
        default_domain: default_domain_spec(),
        default_search_depth: 2,
    }
}

impl Config {
    /// A configuration holding the built-in defaults over the given base path.
    pub fn new(base_path: String) -> (c: Config)
        ensures
            c@ == default_config_spec(base_path@),
    {
        Config {
            base_path,
            default_domain: String::from_str(get_default_domain()),
            default_https: get_default_is_https(),
            default_search_depth: get_default_search_depth(),
        }
    }

    /// The workspace root under which one directory per domain lives.
    pub fn get_base_path(&self) -> (r: &String)
        ensures
            r@ == self@.base_path,
    {
        &self.base_path
    }

    /// The domain assumed when the input names none.
    pub fn get_domain(&self) -> (r: &String)
        ensures
            r@ == self@.default_domain,
    {
        &self.default_domain
    }

    /// Whether clone URLs default to HTTPS.
    pub fn get_is_https(&self) -> (b: bool)
        ensures
            b == self@.default_https,
    {
        self.default_https
    }

    /// How many directory levels the fuzzy completion search descends.
    pub fn get_default_search_depth(&self) -> (d: usize)
        ensures
            d as nat == self@.default_search_depth,
    {
        self.default_search_depth
    }
}

/// The built-in default domain.
pub fn get_default_domain() -> (r: &'static str)
    ensures
        r@ == default_domain_spec(),
{
    "github.com"
}

/// Whether clone URLs default to HTTPS when nothing says otherwise.
pub fn get_default_is_https() -> (b: bool)
    ensures
        b == false,
{
    false
}

/// The built-in depth bound of the fuzzy completion search.
pub fn get_default_search_depth() -> (d: usize)
    ensures
        d == 2,
{
    2
}

/// One top-level value of the configuration document, reduced to the kinds
/// the configuration reads; any other kind is `Other`.
pub enum ConfigItem {
    Text(String),
    Flag(bool),
    Number(i64),
    Other,
}

/// Mathematical model of a `ConfigItem`.
pub enum ItemV {
    Text(Seq<char>),
    Flag(bool),
    Number(i64),
    Other,
}

impl View for ConfigItem {
    type V = ItemV;

    open spec fn view(&self) -> ItemV {
        match self {
            ConfigItem::Text(t) => ItemV::Text(t@),
            ConfigItem::Flag(b) => ItemV::Flag(*b),
            ConfigItem::Number(n) => ItemV::Number(*n),
            ConfigItem::Other => ItemV::Other,
        }
    }
}

/// The views of a sequence of key/value pairs.
pub open spec fn entries_view(v: Seq<(String, ConfigItem)>) -> Seq<(Seq<char>, ItemV)> {
    Seq::new(v.len(), |i: int| (v[i].0@, v[i].1@))
}

/// What toml yields for this text: the top-level table as key/value pairs
/// in the table's iteration order — a function of the document alone — or
/// None when the text is not a TOML table.
pub uninterp spec fn toml_entries_of(s: Seq<char>) -> Option<Seq<(Seq<char>, ItemV)>>;

/// Relies on toml's `FromStr` for `toml::Table` and on `Map::iter`: parses
/// the text as a TOML document and hands back its top-level table as
/// key/value pairs (string, boolean and integer values kept, every other
/// kind marked `Other`), in the table's iteration order, which is a
/// deterministic function of the document and of nothing else. None when
/// the text is not a valid TOML document.
#[verifier::external_body]
fn parse_toml_entries(s: &str) -> (r: Option<Vec<(String, ConfigItem)>>)
    ensures
        r is Some <==> toml_entries_of(s@) is Some,
        r is Some ==> entries_view(r.unwrap()@) == toml_entries_of(s@).unwrap(),
{
    let table = match s.parse::<toml::Table>() {
        Ok(t) => t,
        _ => return None,
    };
    Some(table.iter().map(|(k, v)| (k.clone(), match v {
        toml::Value::String(x) => ConfigItem::Text(x.clone()),
        toml::Value::Boolean(b) => ConfigItem::Flag(*b),
        toml::Value::Integer(n) => ConfigItem::Number(*n),
        _ => ConfigItem::Other,
    })).collect())
}

/// How one key/value entry amends the configuration: `basePath` and
/// `defaultDomain` take a string, `defaultHttps` a boolean, `defaultDepth`
/// a non-negative integer that fits a `usize`; everything else is ignored.
pub open spec fn parse_value_spec(c: ConfigV, key: Seq<char>, val: ItemV) -> ConfigV {
    match val {
        ItemV::Text(t) => if key == "basePath"@ {
            ConfigV { base_path: t, ..c }
        } else if key == "defaultDomain"@ {
            ConfigV { default_domain: t, ..c }
        } else {
            c
        },
        ItemV::Flag(b) => if key == "defaultHttps"@ {
            ConfigV { default_https: b, ..c }
        } else {
            c
        },
        ItemV::Number(n) => if key == "defaultDepth"@ && 0 <= n <= usize::MAX {
            ConfigV { default_search_depth: n as nat, ..c }
        } else {
            c
        },
        ItemV::Other => c,
    }
}

/// Applies one configuration entry to `conf`.
pub fn parse_value(conf: &mut Config, key_name: &str, val: &ConfigItem)
    ensures
        final(conf)@ == parse_value_spec(old(conf)@, key_name@, val@),
{
    match val {
        ConfigItem::Text(t) => {
            if eq_str(key_name, "basePath") {
                conf.base_path = t.clone();
            } else if eq_str(key_name, "defaultDomain") {
                conf.default_domain = t.clone();
            }
        },
        ConfigItem::Flag(b) => {
            if eq_str(key_name, "defaultHttps") {
                conf.default_https = *b;
            }
        },
        ConfigItem::Number(n) => {
            if eq_str(key_name, "defaultDepth") && *n >= 0 {
                let wide = *n as u64;
                if wide <= usize::MAX as u64 {
                    conf.default_search_depth = wide as usize;
                }
            }
        },
        ConfigItem::Other => {},
    }
}

/// The configuration entries applied in order, first to last.
pub open spec fn apply_entries_spec(c: ConfigV, entries: Seq<(Seq<char>, ItemV)>) -> ConfigV
    decreases entries.len(),
{
    if entries.len() == 0 {
        c
    } else {
        apply_entries_spec(
            parse_value_spec(c, entries[0].0, entries[0].1),
            entries.drop_first(),
        )
    }
}

/// The configuration a base path and an optional configuration text yield:
/// the defaults, amended by the text's top-level entries when the text is a
/// TOML table, and the defaults alone otherwise.
pub open spec fn get_config_spec(base: Seq<char>, contents: Option<Seq<char>>) -> ConfigV {
    let c = default_config_spec(base);
    match contents {
        None => c,
        Some(s) => match toml_entries_of(s) {
            None => c,
            Some(es) => apply_entries_spec(c, es),
        },
    }
}

/// Builds the configuration from the given base path and the text of the
/// configuration file, where one was readable.
pub fn get_config(default_base_path: String, contents: Option<&str>) -> (c: Config)
    ensures
        c@ == get_config_spec(
            default_base_path@,
            match contents {
                Some(s) => Some(s@),
                None => None,
            },
        ),
{
    let mut conf = Config::new(default_base_path);
    let text = match contents {
        Some(s) => s,
        None => {
            return conf;
        },
    };
    let entries = match parse_toml_entries(text) {
        Some(es) => es,
        None => {
            return conf;
        },
    };
    let ghost ev = entries_view(entries@);
    let ghost target = apply_entries_spec(conf@, ev);
    let mut i: usize = 0;
    proof {
        assert(ev.skip(0) =~= ev);
    }
    while i < entries.len()
        invariant
            0 <= i <= entries@.len(),
            ev == entries_view(entries@),
            apply_entries_spec(conf@, ev.skip(i as int)) == target,
        decreases entries@.len() - i,
    {
        let pair = &entries[i];
        proof {
            assert(ev.skip(i as int)[0] == ev[i as int]);
            assert(ev.skip(i as int).drop_first() =~= ev.skip(i + 1));
        }
        parse_value(&mut conf, pair.0.as_str(), &pair.1);
        i = i + 1;
    }
    proof {
        assert(ev.skip(entries@.len() as int) =~= Seq::<(Seq<char>, ItemV)>::empty());
    }
    conf
}

} // verus!
