//! The registry of vision-model providers, and the decisions of the shared
//! retry engine and of the availability checks.
//!
//! The network calls themselves are made outside the library; these
//! functions decide what to do with their outcomes.
use vstd::prelude::*;
use crate::fmt::{decimal, decimal_chars, join, join_chars};
use crate::text::{
    chars_of, contains_chars, extend_chars, has_sub, same_chars, string_of, trim, trim_chars,
    views,
};

verus! {

/// How a provider's availability is checked.
#[derive(Clone, Copy, Debug)]
pub enum ProviderKind {
    /// A local server: its health endpoint must list the model.
    Local { host_env: &'static str, default_host: &'static str },
    /// A cloud service: its credential must be present in the environment.
    Cloud { api_key_env: &'static str, env_hint: &'static str },
}

/// A registry entry.
#[derive(Clone, Debug)]
pub struct ProviderMeta {
    /// Identifier used in flags and configuration.
    pub name: &'static str,
    pub display_name: &'static str,
    pub kind: ProviderKind,
    /// The model used when none is named.
    pub default_model: &'static str,
    /// The models offered for choice.
    pub models: Vec<&'static str>,
    /// Approximate cost of describing one image, in millionths of a USD.
    pub cost_per_image_micro_usd: u64,
}

/// The registered providers' identifiers, in registry order.
pub open spec fn provider_names() -> Seq<Seq<char>> {
    seq!["ollama"@, "openai"@, "gemini"@, "xai"@, "groq"@]
}

/// The registered providers' default models, in registry order.
pub open spec fn default_models() -> Seq<Seq<char>> {
    seq![
        "qwen2.5vl"@,
        "gpt-4o"@,
        "gemini-2.0-flash"@,
        "grok-2-vision"@,
        "groq::llama-3.2-90b-vision-preview"@,
    ]
}

/// The registered providers' display names, in registry order.
pub open spec fn display_names() -> Seq<Seq<char>> {
    seq!["Ollama (Local)"@, "OpenAI"@, "Google Gemini"@, "xAI Grok"@, "Groq"@]
}

/// Every registered provider, in registry order: the first is checked as a
/// local server, the others as cloud services.
pub fn all_providers() -> (r: Vec<ProviderMeta>)
    ensures
        r@.len() == provider_names().len(),
        forall|i: int|
            0 <= i < r@.len() ==> (#[trigger] r@[i]).name@ == provider_names()[i]
                && r@[i].default_model@ == default_models()[i] && r@[i].display_name@
                == display_names()[i] && (r@[i].kind is Local <==> i == 0),
{
    let r = vec![
        ProviderMeta {
            name: "ollama",
            display_name: "Ollama (Local)",
            kind: ProviderKind::Local {
                host_env: "OLLAMA_HOST",
                default_host: "http://localhost:11434",
            },
            default_model: "qwen2.5vl",
            models: vec!["qwen2.5vl", "qwen2.5vl:72b", "llama3.2-vision", "minicpm-v"],
            cost_per_image_micro_usd: 0,
        },
        ProviderMeta {
            name: "openai",
            display_name: "OpenAI",
            kind: ProviderKind::Cloud {
                api_key_env: "OPENAI_API_KEY",
                env_hint: "export OPENAI_API_KEY='sk-...'",
            },
            default_model: "gpt-4o",
            models: vec!["gpt-4o", "gpt-4o-mini"],
            cost_per_image_micro_usd: 10000,
        },
        ProviderMeta {
            name: "gemini",
            display_name: "Google Gemini",
            kind: ProviderKind::Cloud {
                api_key_env: "GEMINI_API_KEY",
                env_hint: "export GEMINI_API_KEY='...'",
            },
            default_model: "gemini-2.0-flash",
            models: vec!["gemini-2.0-flash", "gemini-2.5-flash", "gemini-2.5-pro"],
            cost_per_image_micro_usd: 2500,
        },
        ProviderMeta {
            name: "xai",
            display_name: "xAI Grok",
            kind: ProviderKind::Cloud {
                api_key_env: "XAI_API_KEY",
                env_hint: "export XAI_API_KEY='...'",
            },
            default_model: "grok-2-vision",
            models: vec!["grok-2-vision"],
            cost_per_image_micro_usd: 5000,
        },
        ProviderMeta {
            name: "groq",
            display_name: "Groq",
            kind: ProviderKind::Cloud {
                api_key_env: "GROQ_API_KEY",
                env_hint: "export GROQ_API_KEY='...'",
            },
            default_model: "groq::llama-3.2-90b-vision-preview",
            models: vec![
                "groq::llama-3.2-90b-vision-preview",
                "groq::llama-3.2-11b-vision-preview",
            ],
            cost_per_image_micro_usd: 2000,
        },
    ];
    r
}

/// The registry entry named `name`.
pub fn find_provider(name: &str) -> (r: Option<ProviderMeta>)
    ensures
        match r {
            Some(m) => m.name@ == name@ && exists|i: int|
                0 <= i < provider_names().len() && provider_names()[i] == name@
                    && m.default_model@ == default_models()[i] && forall|k: int|
                    0 <= k < i ==> provider_names()[k] != name@,
            None => forall|i: int|
                0 <= i < provider_names().len() ==> provider_names()[i] != name@,
        },
{
    let mut all = all_providers();
    let wanted = chars_of(name);
    let ghost names = provider_names();
    let n = all.len();
    let mut i: usize = 0;
    while i < n
        invariant
            n == all@.len() == names.len(),
            names == provider_names(),
            wanted@ == name@,
            i <= n,
            forall|k: int|
                0 <= k < all@.len() ==> (#[trigger] all@[k]).name@ == names[k]
                    && all@[k].default_model@ == default_models()[k],
            forall|k: int| 0 <= k < i ==> names[k] != name@,
        decreases n - i,
    {
        if same_chars(&chars_of(all[i].name), &wanted) {
            let m = all.remove(i);
            return Some(m);
        }
        i = i + 1;
    }
    None
}

/// The default model of the provider `name`; `qwen2.5vl` for a name the
/// registry lacks.
pub fn default_model(provider_name: &str) -> (r: &'static str)
    ensures
        (exists|i: int|
            0 <= i < provider_names().len() && provider_names()[i] == provider_name@)
            ==> exists|i: int|
            0 <= i < provider_names().len() && provider_names()[i] == provider_name@ && r@
                == default_models()[i] && forall|k: int|
                0 <= k < i ==> provider_names()[k] != provider_name@,
        (forall|i: int|
            0 <= i < provider_names().len() ==> provider_names()[i] != provider_name@)
            ==> r@ == "qwen2.5vl"@,
{
    match find_provider(provider_name) {
        Some(m) => m.default_model,
        None => "qwen2.5vl",
    }
}

/// The error for a provider name the registry lacks: it lists the names
/// that it has.
pub fn unknown_provider_message(provider_name: &str) -> (r: String)
    ensures
        r@ == "Unknown provider '"@ + provider_name@ + "'. Use: "@ + join(
            provider_names(),
            " | "@,
        ),
{
    let all = all_providers();
    let mut names: Vec<Vec<char>> = Vec::new();
    let mut i: usize = 0;
    while i < all.len()
        invariant
            i <= all@.len(),
            all@.len() == provider_names().len(),
            forall|k: int|
                0 <= k < all@.len() ==> (#[trigger] all@[k]).name@ == provider_names()[k]
                    && all@[k].default_model@ == default_models()[k],
            views(names@) == provider_names().subrange(0, i as int),
        decreases all@.len() - i,
    {
        let ghost before = views(names@);
        names.push(chars_of(all[i].name));
        assert(views(names@) =~= before.push(all@[i as int].name@));
        assert(provider_names().subrange(0, i as int + 1) =~= provider_names().subrange(
            0,
            i as int,
        ).push(provider_names()[i as int]));
        i = i + 1;
    }
    assert(provider_names().subrange(0, all@.len() as int) =~= provider_names());
    let mut m = chars_of("Unknown provider '");
    extend_chars(&mut m, &chars_of(provider_name));
    extend_chars(&mut m, &chars_of("'. Use: "));
    extend_chars(&mut m, &join_chars(&names, &chars_of(" | ")));
    string_of(&m)
}

/// A local server lists the model when one of its model names contains the
/// model's name.
pub open spec fn lists_model(names: Seq<String>, model: Seq<char>) -> bool {
    exists|i: int| 0 <= i < names.len() && has_sub(#[trigger] names[i]@, model)
}

/// Tests `lists_model(names@, model@)`.
pub fn model_listed(names: &Vec<String>, model: &str) -> (r: bool)
    ensures
        r == lists_model(names@, model@),
{
    let m = chars_of(model);
    let mut i: usize = 0;
    while i < names.len()
        invariant
            i <= names.len(),
            m@ == model@,
            forall|k: int| 0 <= k < i ==> !has_sub(#[trigger] names@[k]@, model@),
        decreases names.len() - i,
    {
        if contains_chars(&chars_of(names[i].as_str()), &m) {
            return true;
        }
        i = i + 1;
    }
    false
}

/// The outcome of a provider's availability check. A cloud provider is
/// ready when its credential is present; a local one when its server lists
/// the model. `credential_present` and `listed` are what the caller found in
/// the environment and in the server's model listing.
pub fn check_availability(
    kind: &ProviderKind,
    display_name: &str,
    model: &str,
    credential_present: bool,
    listed: &Vec<String>,
) -> (r: Result<(), String>)
    ensures
        kind is Cloud ==> (r is Ok <==> credential_present),
        kind is Cloud && !credential_present ==> r->Err_0@ == "Missing "@
            + kind->Cloud_api_key_env@ + " environment variable.\nRun: "@ + kind->Cloud_env_hint@,
        kind is Local ==> (r is Ok <==> lists_model(listed@, model@)),
        kind is Local && !lists_model(listed@, model@) ==> r->Err_0@ == "Model '"@ + model@
            + "' not found in "@ + display_name@ + ".\nRun: ollama pull "@ + model@
            + "\nAvailable: "@ + if listed@.len() == 0 {
            "none"@
        } else {
            join(listed@.map_values(|n: String| n@), ", "@)
        },
{
    match kind {
        ProviderKind::Cloud { api_key_env, env_hint } => {
            if credential_present {
                Ok(())
            } else {
                let mut m = chars_of("Missing ");
                extend_chars(&mut m, &chars_of(api_key_env));
                extend_chars(&mut m, &chars_of(" environment variable.\nRun: "));
                extend_chars(&mut m, &chars_of(env_hint));
                Err(string_of(&m))
            }
        },
        ProviderKind::Local { .. } => {
            if model_listed(listed, model) {
                return Ok(());
            }
            let mut m = chars_of("Model '");
            extend_chars(&mut m, &chars_of(model));
            extend_chars(&mut m, &chars_of("' not found in "));
            extend_chars(&mut m, &chars_of(display_name));
            extend_chars(&mut m, &chars_of(".\nRun: ollama pull "));
            extend_chars(&mut m, &chars_of(model));
            extend_chars(&mut m, &chars_of("\nAvailable: "));
            if listed.len() == 0 {
                extend_chars(&mut m, &chars_of("none"));
            } else {
                let mut names: Vec<Vec<char>> = Vec::new();
                let mut i: usize = 0;
                while i < listed.len()
                    invariant
                        i <= listed@.len(),
                        views(names@) == listed@.subrange(0, i as int).map_values(
                            |n: String| n@,
                        ),
                    decreases listed@.len() - i,
                {
                    let ghost before = views(names@);
                    let c = chars_of(listed[i].as_str());
                    names.push(c);
                    assert(views(names@) =~= before.push(c@));
                    assert(listed@.subrange(0, i as int + 1).map_values(|n: String| n@)
                        =~= listed@.subrange(0, i as int).map_values(|n: String| n@).push(
                        listed@[i as int]@,
                    ));
                    i = i + 1;
                }
                assert(listed@.subrange(0, listed@.len() as int) =~= listed@);
                extend_chars(&mut m, &join_chars(&names, &chars_of(", ")));
            }
            Err(string_of(&m))
        },
    }
}

/// A model's answer as the document keeps it: without surrounding
/// whitespace.
pub fn clean_answer(text: &str) -> (r: String)
    ensures
        r@ == trim(text@),
{
    string_of(&trim_chars(&chars_of(text)))
}

/// What the retry engine does after a failed attempt.
#[derive(Clone, Copy, Debug, PartialEq, Eq, Structural)]
pub enum RetryStep {
    /// Wait this many milliseconds, then try again.
    Retry { delay_ms: u64 },
    /// All attempts are spent: report the last failure.
    GiveUp,
}

/// `base` doubled `attempt` times, at most `u64::MAX`.
pub open spec fn backoff(base: u64, attempt: nat) -> nat
    decreases attempt,
{
    if attempt == 0 {
        base as nat
    } else {
        let prev = backoff(base, (attempt - 1) as nat);
        if prev * 2 > u64::MAX {
            u64::MAX as nat
        } else {
            prev * 2
        }
    }
}

/// Computes `backoff(base, attempt)`.
pub fn backoff_delay(base: u64, attempt: u32) -> (r: u64)
    ensures
        r == backoff(base, attempt as nat),
{
    let mut d = base;
    let mut k: u32 = 0;
    while k < attempt
        invariant
            k <= attempt,
            d == backoff(base, k as nat),
        decreases attempt - k,
    {
        d = if d > u64::MAX / 2 {
            u64::MAX
        } else {
            d * 2
        };
        k = k + 1;
    }
    d
}

/// The decision after attempt `attempt` (counted from 0) of `max_attempts`
/// failed: wait `backoff(base_delay_ms, attempt)` and retry while attempts
/// remain, else give up.
pub fn after_failure(attempt: u32, max_attempts: u32, base_delay_ms: u64) -> (r: RetryStep)
    ensures
        attempt as int + 1 < max_attempts as int ==> r == (RetryStep::Retry {
            delay_ms: backoff(base_delay_ms, attempt as nat) as u64,
        }),
        attempt as int + 1 >= max_attempts as int ==> r == RetryStep::GiveUp,
{
    if attempt < max_attempts && attempt < max_attempts - 1 {
        RetryStep::Retry { delay_ms: backoff_delay(base_delay_ms, attempt) }
    } else {
        RetryStep::GiveUp
    }
}

/// The error that the retry engine reports once every attempt failed.
pub fn exhausted_message(display_name: &str, attempts: u32, last_error: &str) -> (r: String)
    ensures
        r@ == display_name@ + " failed after "@ + decimal(attempts as nat) + " attempts: "@
            + last_error@,
{
    let mut v = chars_of(display_name);
    extend_chars(&mut v, &chars_of(" failed after "));
    extend_chars(&mut v, &decimal_chars(attempts as u64));
    extend_chars(&mut v, &chars_of(" attempts: "));
    extend_chars(&mut v, &chars_of(last_error));
    string_of(&v)
}

} // verus!
