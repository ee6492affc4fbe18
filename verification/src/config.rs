//! Plugin configuration: the runtime function name that rewritten calls
//! target, decoded from the host's raw options string.

use vstd::prelude::*;
use vstd::string::StringExecFns;

verus! {

/// The default runtime function name, used when the options string is
/// absent, malformed, or holds no `runtimeFunction` field.
pub open spec fn default_runtime_name() -> Seq<char> {
    "__i18n_lookup"@
}

/// What the `runtimeFunction` field of a raw options string decodes to: a
/// function of the string alone, `None` when the string is not a JSON
/// object with a string-valued `runtimeFunction` field.
pub uninterp spec fn options_runtime_function(raw: Seq<char>) -> Option<Seq<char>>;

/// Relies on `serde_json::from_str` and `serde_json::Value`'s accessors:
/// parses the raw options string and reads its `runtimeFunction` string
/// field. Parsing is deterministic, so the result is a function of the
/// string alone.
#[verifier::external_body]
fn parse_runtime_function(raw: &str) -> (r: Option<String>)
    ensures
        (r is Some) == (options_runtime_function(raw@) is Some),
        r is Some ==> r.unwrap()@ == options_runtime_function(raw@).unwrap(),
{
    match serde_json::from_str::<serde_json::Value>(raw) {
        Ok(v) => match v.get("runtimeFunction") {
            Some(f) => f.as_str().map(|s| s.to_string()),
            None => None,
        },
        Err(_) => None,
    }
}

/// The runtime function name that a raw options string resolves to:
/// its `runtimeFunction` field where one decodes, the default otherwise.
/// An absent options string resolves to the default.
pub open spec fn resolved_runtime_name(raw: Option<Seq<char>>) -> Seq<char> {
    match raw {
        Some(s) => match options_runtime_function(s) {
            Some(name) => name,
            None => default_runtime_name(),
        },
        None => default_runtime_name(),
    }
}

/// The default runtime function name.
pub fn default_runtime_function() -> (r: String)
    ensures
        r@ == default_runtime_name(),
{
    String::from_str("__i18n_lookup")
}

/// The transform's configuration: the runtime function name that rewritten
/// calls target.
pub struct PluginConfig {
    pub runtime_function: String,
}

impl PluginConfig {
    /// Decodes the configuration from the host's raw options string. A
    /// missing or malformed string, or one without a string-valued
    /// `runtimeFunction` field, yields the default; this never fails.
    pub fn from_options(raw: Option<&str>) -> (r: PluginConfig)
        ensures
            r.runtime_function@ == resolved_runtime_name(
                match raw {
                    Some(s) => Some(s@),
                    None => None,
                },
            ),
    {
        match raw {
            Some(s) => match parse_runtime_function(s) {
                Some(name) => PluginConfig { runtime_function: name },
                None => PluginConfig { runtime_function: default_runtime_function() },
            },
            None => PluginConfig { runtime_function: default_runtime_function() },
        }
    }
}

} // verus!
