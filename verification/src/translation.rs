//! Text translation through an OpenAI-compatible chat endpoint: configuration, request
//! shaping, and reading the reply.
use vstd::prelude::*;

use crate::text::{
    blank, chars_of, ends_with, is_blank, push_range, push_str, string_from_range, trim, trimmed,
};

verus! {

/// A translation request.
pub struct TranslationRequest {
    pub text: String,
    pub source_lang: String,
    pub target_lang: String,
}

/// A translation reply.
pub struct TranslationResponse {
    pub translated_text: String,
}

/// Connection settings of the chat endpoint.
pub struct LlmConfig {
    pub base_url: String,
    pub api_key: String,
    pub model: String,
}

/// The environment values the configuration is read from: each setting has a preferred
/// variable and a fallback one.
pub struct LlmEnv {
    pub kanban_api_base: Option<String>,
    pub openai_api_base: Option<String>,
    pub kanban_api_key: Option<String>,
    pub openai_api_key: Option<String>,
    pub kanban_default_model: Option<String>,
    pub openai_default_model: Option<String>,
}

/// Why a translation could not be made.
#[derive(Debug, PartialEq, Eq)]
pub enum TranslationError {
    EmptyText,
    MissingBaseUrl,
    MissingApiKey,
    MissingModel,
    Failed(String),
    Unavailable,
}

/// `base` with every trailing `/` removed.
pub open spec fn trim_trailing_slashes(s: Seq<char>) -> Seq<char>
    decreases s.len(),
{
    if s.len() > 0 && s.last() == '/' {
        trim_trailing_slashes(s.drop_last())
    } else {
        s
    }
}

/// The chat-completions URL for a base URL: `/v1` is added unless the base already ends in it.
pub open spec fn spec_openai_url(base: Seq<char>) -> Seq<char> {
    let t = trim_trailing_slashes(base);
    if ends_with(t, "/v1"@) {
        t + "/chat/completions"@
    } else {
        t + "/v1/chat/completions"@
    }
}

/// Builds the chat-completions URL from the configured base URL.
pub fn format_openai_url(base: &str) -> (res: String)
    ensures
        res@ == spec_openai_url(base@),
{
    let v = chars_of(base);
    let mut end = v.len();
    proof {
        assert(v@.take(end as int) =~= v@);
    }
    while end > 0 && v[end - 1] == '/'
        invariant
            end <= v.len(),
            trim_trailing_slashes(v@) == trim_trailing_slashes(v@.take(end as int)),
        decreases end,
    {
        proof {
            assert(v@.take(end as int).drop_last() =~= v@.take(end - 1));
        }
        end = end - 1;
    }
    let ghost t = v@.take(end as int);
    proof {
        assert(trim_trailing_slashes(t) == t);
        assert(v@.subrange(0, end as int) =~= t);
    }
    let suffix = chars_of("/v1");
    let has_v1 = end >= suffix.len() && crate::text::range_eq(&v, end - suffix.len(), end, &suffix);
    proof {
        if end >= suffix.len() {
            assert(t.skip(t.len() - suffix.len()) =~= v@.subrange(end - suffix.len(), end as int));
        }
    }
    let mut out = String::new();
    push_range(&mut out, &v, 0, end);
    if has_v1 {
        push_str(&mut out, "/chat/completions");
    } else {
        push_str(&mut out, "/v1/chat/completions");
    }
    out
}

/// The system prompt of a translation request.
pub open spec fn spec_system_prompt(source: Seq<char>, target: Seq<char>) -> Seq<char> {
    "You are a translation engine. Translate"@ + " from "@ + source + " to "@ + target
        + ". Return only the translated text with original formatting preserved. Do not add commentary."@
}

/// Builds the system prompt naming both languages.
pub fn build_system_prompt(source_lang: &str, target_lang: &str) -> (res: String)
    ensures
        res@ == spec_system_prompt(source_lang@, target_lang@),
{
    let mut out = String::new();
    push_str(&mut out, "You are a translation engine. Translate");
    push_str(&mut out, " from ");
    push_str(&mut out, source_lang);
    push_str(&mut out, " to ");
    push_str(&mut out, target_lang);
    push_str(
        &mut out,
        ". Return only the translated text with original formatting preserved. Do not add commentary.",
    );
    out
}

/// An environment value, trimmed, when it is set and not blank.
pub open spec fn usable(value: Option<String>) -> Option<Seq<char>> {
    match value {
        Some(v) if !is_blank(v@) => Some(trim(v@)),
        _ => None,
    }
}

/// The preferred value when usable, else the fallback when usable.
pub open spec fn spec_resolve_env(primary: Option<String>, fallback: Option<String>) -> Option<Seq<char>> {
    match usable(primary) {
        Some(v) => Some(v),
        None => usable(fallback),
    }
}

fn usable_value(value: &Option<String>) -> (res: Option<String>)
    ensures
        match res {
            Some(s) => usable(*value) == Some(s@),
            None => usable(*value) is None,
        },
{
    match value {
        Some(v) => {
            if blank(v.as_str()) {
                None
            } else {
                Some(trimmed(v.as_str()))
            }
        },
        None => None,
    }
}

/// Reads one setting from its preferred and fallback environment values.
pub fn resolve_env(primary: &Option<String>, fallback: &Option<String>) -> (res: Option<String>)
    ensures
        match res {
            Some(s) => spec_resolve_env(*primary, *fallback) == Some(s@),
            None => spec_resolve_env(*primary, *fallback) is None,
        },
{
    match usable_value(primary) {
        Some(v) => Some(v),
        None => usable_value(fallback),
    }
}

/// Reads the endpoint settings; each missing one is an error, checked in the order base URL,
/// API key, model.
pub fn resolve_llm_config(env: &LlmEnv) -> (res: Result<LlmConfig, TranslationError>)
    ensures
        match res {
            Ok(c) => {
                &&& spec_resolve_env(env.kanban_api_base, env.openai_api_base) == Some(c.base_url@)
                &&& spec_resolve_env(env.kanban_api_key, env.openai_api_key) == Some(c.api_key@)
                &&& spec_resolve_env(env.kanban_default_model, env.openai_default_model) == Some(
                    c.model@,
                )
            },
            Err(e) => {
                ||| (e == TranslationError::MissingBaseUrl && spec_resolve_env(
                    env.kanban_api_base,
                    env.openai_api_base,
                ) is None)
                ||| (e == TranslationError::MissingApiKey && spec_resolve_env(
                    env.kanban_api_base,
                    env.openai_api_base,
                ) is Some && spec_resolve_env(env.kanban_api_key, env.openai_api_key) is None)
                ||| (e == TranslationError::MissingModel && spec_resolve_env(
                    env.kanban_api_base,
                    env.openai_api_base,
                ) is Some && spec_resolve_env(env.kanban_api_key, env.openai_api_key) is Some
                    && spec_resolve_env(env.kanban_default_model, env.openai_default_model) is None)
            },
        },
{
    let base_url = match resolve_env(&env.kanban_api_base, &env.openai_api_base) {
        Some(v) => v,
        None => return Err(TranslationError::MissingBaseUrl),
    };
    let api_key = match resolve_env(&env.kanban_api_key, &env.openai_api_key) {
        Some(v) => v,
        None => return Err(TranslationError::MissingApiKey),
    };
    let model = match resolve_env(&env.kanban_default_model, &env.openai_default_model) {
        Some(v) => v,
        None => return Err(TranslationError::MissingModel),
    };
    Ok(LlmConfig { base_url, api_key, model })
}

/// A request with only whitespace to translate is refused.
pub fn check_translation_text(request: &TranslationRequest) -> (res: Result<(), TranslationError>)
    ensures
        res is Ok <==> !is_blank(request.text@),
        res is Err ==> res == Err::<(), TranslationError>(TranslationError::EmptyText),
{
    if blank(request.text.as_str()) {
        Err(TranslationError::EmptyText)
    } else {
        Ok(())
    }
}

/// The first choice that carries content, when that content is not blank.
pub open spec fn spec_translated_text(contents: Seq<Option<String>>) -> Option<Seq<char>>
    decreases contents.len(),
{
    if contents.len() == 0 {
        None
    } else {
        match contents[0] {
            Some(c) => if is_blank(c@) {
                None
            } else {
                Some(c@)
            },
            None => spec_translated_text(contents.drop_first()),
        }
    }
}

/// Picks the translated text from the reply's choices (each given as the content of its
/// message, if any). Only the first choice with content counts; a blank one gives no text.
pub fn pick_translated_text(contents: &Vec<Option<String>>) -> (res: Result<String, TranslationError>)
    ensures
        match spec_translated_text(contents@) {
            Some(t) => res matches Ok(s) && s@ == t,
            None => res == Err::<String, TranslationError>(TranslationError::Unavailable),
        },
{
    let mut i: usize = 0;
    proof {
        assert(contents@.skip(0) =~= contents@);
    }
    while i < contents.len()
        invariant
            i <= contents.len(),
            spec_translated_text(contents@) == spec_translated_text(contents@.skip(i as int)),
        decreases contents.len() - i,
    {
        proof {
            assert(contents@.skip(i as int)[0] == contents@[i as int]);
            assert(contents@.skip(i as int).drop_first() =~= contents@.skip(i + 1));
        }
        match &contents[i] {
            Some(c) => {
                if blank(c.as_str()) {
                    return Err(TranslationError::Unavailable);
                }
                let v = chars_of(c.as_str());
                let s = string_from_range(&v, 0, v.len());
                proof {
                    assert(v@.subrange(0, v@.len() as int) =~= v@);
                }
                return Ok(s);
            },
            None => {},
        }
        i = i + 1;
    }
    Err(TranslationError::Unavailable)
}

/// The error message for a failed reply: the endpoint's own message when it sent one,
/// else the reply body; both trimmed. When that is empty, a message naming the status.
pub open spec fn spec_failure_message(parsed: Option<Seq<char>>, body: Seq<char>, status: Seq<char>) -> Seq<char> {
    let m = match parsed {
        Some(p) => trim(p),
        None => trim(trim(body)),
    };
    if m.len() == 0 {
        "Translation failed with status "@ + status
    } else {
        m
    }
}

/// Message of a failed translation reply, from the parsed error message (if the body held
/// one), the raw body, and the status line.
pub fn failure_message(parsed: Option<String>, body: &str, status: &str) -> (res: String)
    ensures
        res@ == spec_failure_message(
            match parsed {
                Some(p) => Some(p@),
                None => None,
            },
            body@,
            status@,
        ),
{
    let m = match &parsed {
        Some(p) => trimmed(p.as_str()),
        None => {
            let b = trimmed(body);
            trimmed(b.as_str())
        },
    };
    if m.as_str().is_empty() {
        let mut out = String::new();
        push_str(&mut out, "Translation failed with status ");
        push_str(&mut out, status);
        out
    } else {
        m
    }
}

} // verus!
