//! Executor profiles as the API shows them: values that may hold secrets (command
//! overrides, extra parameters, sensitive environment variables) are replaced by a marker.
use vstd::prelude::*;

use crate::text::{chars_of, codes, codes_of, contains_seq, ends_with, trim, trimmed_chars, upper_code, upper_codes};

verus! {

/// A JSON value. Numbers are kept as the text that writes them.
#[derive(Debug)]
pub enum JsonValue {
    Null,
    Bool(bool),
    Num(String),
    Str(String),
    Array(Vec<JsonValue>),
    Object(Vec<(String, JsonValue)>),
}

/// A JSON value over character sequences.
pub enum JsonView {
    Null,
    Bool(bool),
    Num(Seq<char>),
    Str(Seq<char>),
    Array(Seq<JsonView>),
    Object(Seq<(Seq<char>, JsonView)>),
}

pub open spec fn json_view(j: JsonValue) -> JsonView
    decreases j,
{
    match j {
        JsonValue::Null => JsonView::Null,
        JsonValue::Bool(b) => JsonView::Bool(b),
        JsonValue::Num(n) => JsonView::Num(n@),
        JsonValue::Str(s) => JsonView::Str(s@),
        JsonValue::Array(items) => JsonView::Array(
            Seq::new(
                items@.len(),
                |i: int|
                    if 0 <= i < items@.len() {
                        json_view(items@[i])
                    } else {
                        JsonView::Null
                    },
            ),
        ),
        JsonValue::Object(entries) => JsonView::Object(
            Seq::new(
                entries@.len(),
                |i: int|
                    if 0 <= i < entries@.len() {
                        (entries@[i].0@, json_view(entries@[i].1))
                    } else {
                        (Seq::empty(), JsonView::Null)
                    },
            ),
        ),
    }
}

impl View for JsonValue {
    type V = JsonView;

    open spec fn view(&self) -> JsonView {
        json_view(*self)
    }
}

/// What replaces a hidden value.
pub const REDACTED: &'static str = "<redacted>";

/// An environment variable whose name (trimmed, in upper case) mentions a token, a password,
/// a secret or a personal access token, or ends in `_KEY`, or holds `API_KEY`, `ACCESS_KEY`
/// or `PRIVATE_KEY`.
pub open spec fn sensitive_key(key: Seq<char>) -> bool {
    let u = upper_codes(trim(key));
    contains_seq(u, codes("TOKEN"@)) || contains_seq(u, codes("PASSWORD"@)) || contains_seq(
        u,
        codes("PASSWD"@),
    ) || contains_seq(u, codes("SECRET"@)) || contains_seq(u, codes("PAT"@)) || ends_with_codes(
        u,
        codes("_KEY"@),
    ) || contains_seq(u, codes("API_KEY"@)) || contains_seq(u, codes("ACCESS_KEY"@))
        || contains_seq(u, codes("PRIVATE_KEY"@))
}

pub open spec fn ends_with_codes(s: Seq<u32>, p: Seq<u32>) -> bool {
    p.len() <= s.len() && s.skip(s.len() - p.len()) == p
}

fn upper_code_exec(c: char) -> (r: u32)
    ensures
        r == upper_code(c),
{
    if 'a' <= c && c <= 'z' {
        c as u32 - 32
    } else {
        c as u32
    }
}

fn trimmed_upper_codes(s: &str) -> (r: Vec<u32>)
    ensures
        r@ == upper_codes(trim(s@)),
{
    let v = trimmed_chars(s);
    let mut out: Vec<u32> = Vec::new();
    let mut i: usize = 0;
    while i < v.len()
        invariant
            i <= v.len(),
            out@ == upper_codes(v@).take(i as int),
        decreases v.len() - i,
    {
        out.push(upper_code_exec(v[i]));
        proof {
            assert(upper_codes(v@).take(i + 1) =~= upper_codes(v@).take(i as int).push(upper_code(v@[i as int])));
        }
        i = i + 1;
    }
    proof {
        assert(upper_codes(v@).take(i as int) =~= upper_codes(v@));
    }
    out
}

/// Whether `needle` occurs in `hay`.
pub fn contains_codes(hay: &Vec<u32>, needle: &Vec<u32>) -> (r: bool)
    ensures
        r == contains_seq(hay@, needle@),
{
    if needle.len() > hay.len() {
        proof {
            assert forall|i: int| 0 <= i && i + needle@.len() <= hay@.len() implies #[trigger] hay@.subrange(
                i,
                i + needle@.len(),
            ) != needle@ by {}
        }
        return false;
    }
    let last = hay.len() - needle.len();
    let mut i: usize = 0;
    while i <= last
        invariant
            last == hay.len() - needle.len(),
            i <= last + 1,
            forall|k: int| 0 <= k < i ==> #[trigger] hay@.subrange(k, k + needle@.len()) != needle@,
        decreases last + 1 - i,
    {
        let mut j: usize = 0;
        while j < needle.len() && hay[i + j] == needle[j]
            invariant
                j <= needle.len(),
                i <= last,
                last == hay.len() - needle.len(),
                forall|q: int| 0 <= q < j ==> hay@[i + q] == needle@[q],
            decreases needle.len() - j,
        {
            j = j + 1;
        }
        if j == needle.len() {
            proof {
                assert(hay@.subrange(i as int, i + needle@.len()) =~= needle@);
            }
            return true;
        }
        proof {
            assert(hay@.subrange(i as int, i + needle@.len())[j as int] != needle@[j as int]);
        }
        i = i + 1;
    }
    proof {
        assert forall|k: int| 0 <= k && k + needle@.len() <= hay@.len() implies #[trigger] hay@.subrange(
            k,
            k + needle@.len(),
        ) != needle@ by {
            assert(k < i);
        }
    }
    false
}

fn ends_with_exec(hay: &Vec<u32>, suffix: &Vec<u32>) -> (r: bool)
    ensures
        r == ends_with_codes(hay@, suffix@),
{
    if suffix.len() > hay.len() {
        return false;
    }
    let start = hay.len() - suffix.len();
    let mut j: usize = 0;
    while j < suffix.len()
        invariant
            j <= suffix.len(),
            start == hay.len() - suffix.len(),
            forall|q: int| 0 <= q < j ==> hay@[start + q] == suffix@[q],
        decreases suffix.len() - j,
    {
        if hay[start + j] != suffix[j] {
            proof {
                assert(hay@.skip(start as int)[j as int] != suffix@[j as int]);
            }
            return false;
        }
        j = j + 1;
    }
    proof {
        assert(hay@.skip(start as int) =~= suffix@);
    }
    true
}

/// Whether an environment variable of this name should be hidden (see `sensitive_key`).
pub fn is_sensitive_env_key(key: &str) -> (r: bool)
    ensures
        r == sensitive_key(key@),
{
    let upper = trimmed_upper_codes(key);
    contains_codes(&upper, &codes_of("TOKEN")) || contains_codes(&upper, &codes_of("PASSWORD"))
        || contains_codes(&upper, &codes_of("PASSWD")) || contains_codes(&upper, &codes_of("SECRET"))
        || contains_codes(&upper, &codes_of("PAT")) || ends_with_exec(&upper, &codes_of("_KEY"))
        || contains_codes(&upper, &codes_of("API_KEY")) || contains_codes(
        &upper,
        &codes_of("ACCESS_KEY"),
    ) || contains_codes(&upper, &codes_of("PRIVATE_KEY"))
}

/// The marker that replaces a hidden value.
pub open spec fn marker() -> JsonView {
    JsonView::Str(REDACTED@)
}

/// A value with every object entry redacted (see `redact_entry`), at any depth.
pub open spec fn redact(v: JsonView) -> JsonView
    decreases v, 0nat,
{
    match v {
        JsonView::Array(items) => JsonView::Array(
            Seq::new(
                items.len(),
                |i: int|
                    if 0 <= i < items.len() {
                        redact(items[i])
                    } else {
                        JsonView::Null
                    },
            ),
        ),
        JsonView::Object(es) => JsonView::Object(
            Seq::new(
                es.len(),
                |i: int|
                    if 0 <= i < es.len() {
                        (es[i].0, redact_entry(es[i].0, es[i].1))
                    } else {
                        (Seq::empty(), JsonView::Null)
                    },
            ),
        ),
        _ => v,
    }
}

/// The value of an object entry once redacted: a string `base_command_override` is hidden;
/// under `additional_params` a string, or each string of an array, is hidden; under `env`
/// (an object) each variable with a sensitive name is hidden; everything else is redacted
/// in turn.
pub open spec fn redact_entry(k: Seq<char>, v: JsonView) -> JsonView
    decreases v, 1nat,
{
    if k == "base_command_override"@ && v is Str {
        marker()
    } else if k == "additional_params"@ && v is Str {
        marker()
    } else if k == "additional_params"@ && v is Array {
        let items = v->Array_0;
        JsonView::Array(
            Seq::new(
                items.len(),
                |i: int|
                    if 0 <= i < items.len() {
                        if items[i] is Str {
                            marker()
                        } else {
                            redact(items[i])
                        }
                    } else {
                        JsonView::Null
                    },
            ),
        )
    } else if k == "env"@ && v is Object {
        let es = v->Object_0;
        JsonView::Object(
            Seq::new(
                es.len(),
                |i: int|
                    if 0 <= i < es.len() {
                        (
                            es[i].0,
                            if sensitive_key(es[i].0) {
                                marker()
                            } else {
                                redact_entry(es[i].0, es[i].1)
                            },
                        )
                    } else {
                        (Seq::empty(), JsonView::Null)
                    },
            ),
        )
    } else {
        redact(v)
    }
}

fn redacted_value() -> (r: JsonValue)
    ensures
        r@ == marker(),
{
    JsonValue::Str(REDACTED.to_owned())
}

fn str_is(s: &String, lit: &str) -> (r: bool)
    ensures
        r == (s@ == lit@),
{
    *s == lit.to_owned()
}

/// Redacts a value (see `redact`).
#[verifier::loop_isolation(false)]
pub fn redact_json(v: JsonValue) -> (r: JsonValue)
    ensures
        r@ == redact(v@),
    decreases v, 0nat,
{
    let ghost v0 = v;
    match v {
        JsonValue::Array(items) => {
            let ghost orig = items@;
            let mut rest = items;
            let mut out: Vec<JsonValue> = Vec::new();
            let mut i: usize = 0;
            let n0 = rest.len();
            proof {
                assert(orig.skip(0) =~= orig);
                assert(orig.len() == n0);
            }
            while rest.len() > 0
                invariant
                    rest@ == orig.skip(i as int),
                    i <= orig.len(),
                    orig.len() <= usize::MAX,
                    out@.len() == i,
                    forall|k: int| 0 <= k < i ==> (#[trigger] out@[k])@ == redact(orig[k]@),
                decreases rest.len(),
            {
                let it = rest.remove(0);
                proof {
                    assert(it == orig[i as int]);
                    assert(orig.skip(i as int).remove(0) =~= orig.skip(i + 1));
                    assert(decreases_to!(v0 => orig[i as int]));
                }
                let r = redact_json(it);
                out.push(r);
                i = i + 1;
            }
            let res = JsonValue::Array(out);
            proof {
                assert(res@ == redact(v0@)) by {
                    assert(i == orig.len());
                    let a = res@->Array_0;
                    let b = redact(v0@)->Array_0;
                    assert(a =~= b);
                }
            }
            res
        },
        JsonValue::Object(entries) => {
            let ghost orig = entries@;
            let mut rest = entries;
            let mut out: Vec<(String, JsonValue)> = Vec::new();
            let mut i: usize = 0;
            let n0 = rest.len();
            proof {
                assert(orig.skip(0) =~= orig);
                assert(orig.len() == n0);
            }
            while rest.len() > 0
                invariant
                    rest@ == orig.skip(i as int),
                    i <= orig.len(),
                    orig.len() <= usize::MAX,
                    out@.len() == i,
                    forall|k: int|
                        0 <= k < i ==> (#[trigger] out@[k]).0@ == orig[k].0@ && out@[k].1@ == redact_entry(
                            orig[k].0@,
                            orig[k].1@,
                        ),
                decreases rest.len(),
            {
                let (key, value) = rest.remove(0);
                proof {
                    assert((key, value) == orig[i as int]);
                    assert(orig.skip(i as int).remove(0) =~= orig.skip(i + 1));
                    assert(decreases_to!(v0 => orig[i as int].1));
                }
                let r = redact_entry_json(&key, value);
                out.push((key, r));
                i = i + 1;
            }
            let res = JsonValue::Object(out);
            proof {
                assert(res@ == redact(v0@)) by {
                    assert(i == orig.len());
                    let a = res@->Object_0;
                    let b = redact(v0@)->Object_0;
                    assert(a =~= b);
                }
            }
            res
        },
        other => other,
    }
}

/// Redacts the value of an object entry with key `key` (see `redact_entry`).
#[verifier::loop_isolation(false)]
fn redact_entry_json(key: &String, v: JsonValue) -> (r: JsonValue)
    ensures
        r@ == redact_entry(key@, v@),
    decreases v, 1nat,
{
    let ghost v0 = v;
    proof {
        reveal_strlit("base_command_override");
        reveal_strlit("additional_params");
        reveal_strlit("env");
    }
    let is_override = str_is(key, "base_command_override");
    let is_params = str_is(key, "additional_params");
    let is_env = str_is(key, "env");
    match v {
        JsonValue::Str(s) => {
            if is_override || is_params {
                redacted_value()
            } else {
                proof {
                    assert(redact_entry(key@, v0@) == redact(v0@));
                }
                JsonValue::Str(s)
            }
        },
        JsonValue::Array(items) => {
            if is_params {
                let ghost orig = items@;
                let mut rest = items;
                let mut out: Vec<JsonValue> = Vec::new();
                let mut i: usize = 0;
                let n0 = rest.len();
                proof {
                    assert(orig.skip(0) =~= orig);
                    assert(orig.len() == n0);
                }
                while rest.len() > 0
                    invariant
                        rest@ == orig.skip(i as int),
                        i <= orig.len(),
                        orig.len() <= usize::MAX,
                    orig.len() <= usize::MAX,
                        out@.len() == i,
                        forall|k: int|
                            0 <= k < i ==> (#[trigger] out@[k])@ == (if orig[k]@ is Str {
                                marker()
                            } else {
                                redact(orig[k]@)
                            }),
                    decreases rest.len(),
                {
                    let it = rest.remove(0);
                    proof {
                        assert(it == orig[i as int]);
                        assert(orig.skip(i as int).remove(0) =~= orig.skip(i + 1));
                        assert(decreases_to!(v0 => orig[i as int]));
                    }
                    let r = match it {
                        JsonValue::Str(_) => redacted_value(),
                        other => redact_json(other),
                    };
                    out.push(r);
                    i = i + 1;
                }
                let res = JsonValue::Array(out);
                proof {
                    assert(res@ == redact_entry(key@, v0@)) by {
                        let a = res@->Array_0;
                        let b = redact_entry(key@, v0@)->Array_0;
                        assert(a =~= b);
                    }
                }
                res
            } else {
                redact_json(JsonValue::Array(items))
            }
        },
        JsonValue::Object(entries) => {
            if is_env {
                let ghost orig = entries@;
                let mut rest = entries;
                let mut out: Vec<(String, JsonValue)> = Vec::new();
                let mut i: usize = 0;
                let n0 = rest.len();
                proof {
                    assert(orig.skip(0) =~= orig);
                    assert(orig.len() == n0);
                }
                while rest.len() > 0
                    invariant
                        rest@ == orig.skip(i as int),
                        i <= orig.len(),
                        orig.len() <= usize::MAX,
                    orig.len() <= usize::MAX,
                        out@.len() == i,
                        forall|k: int|
                            0 <= k < i ==> (#[trigger] out@[k]).0@ == orig[k].0@ && out@[k].1@ == (if sensitive_key(
                                orig[k].0@,
                            ) {
                                marker()
                            } else {
                                redact_entry(orig[k].0@, orig[k].1@)
                            }),
                    decreases rest.len(),
                {
                    let (ek, ev) = rest.remove(0);
                    proof {
                        assert((ek, ev) == orig[i as int]);
                        assert(orig.skip(i as int).remove(0) =~= orig.skip(i + 1));
                        assert(decreases_to!(v0 => orig[i as int].1));
                    }
                    let r = if is_sensitive_env_key(ek.as_str()) {
                        redacted_value()
                    } else {
                        redact_entry_json(&ek, ev)
                    };
                    out.push((ek, r));
                    i = i + 1;
                }
                let res = JsonValue::Object(out);
                proof {
                    assert(res@ == redact_entry(key@, v0@)) by {
                        let a = res@->Object_0;
                        let b = redact_entry(key@, v0@)->Object_0;
                        assert(a =~= b);
                    }
                }
                res
            } else {
                redact_json(JsonValue::Object(entries))
            }
        },
        other => {
            let r = redact_json(other);
            r
        },
    }
}

/// Replaces the secrets of executor profiles in place (see `redact`).
pub fn redact_secrets_in_env_objects(value: &mut JsonValue)
    ensures
        final(value)@ == redact(old(value)@),
{
    let mut taken = JsonValue::Null;
    std::mem::swap(value, &mut taken);
    *value = redact_json(taken);
}

/// Nothing secret shows in a value: in every object, at any depth, a string
/// `base_command_override` and the strings under `additional_params` are hidden, and so is
/// each sensitive variable of an `env` object.
pub open spec fn exposes_nothing(v: JsonView) -> bool
    decreases v, 0nat,
{
    match v {
        JsonView::Array(items) => forall|i: int| 0 <= i < items.len() ==> exposes_nothing(#[trigger] items[i]),
        JsonView::Object(es) => forall|i: int|
            0 <= i < es.len() ==> entry_exposes_nothing(#[trigger] es[i].0, es[i].1),
        _ => true,
    }
}

/// Nothing secret shows in an object entry (see `exposes_nothing`).
pub open spec fn entry_exposes_nothing(k: Seq<char>, v: JsonView) -> bool
    decreases v, 1nat,
{
    &&& (k == "base_command_override"@ && v is Str ==> v == marker())
    &&& (k == "additional_params"@ && v is Str ==> v == marker())
    &&& (k == "additional_params"@ && v is Array ==> forall|i: int|
        0 <= i < v->Array_0.len() && (#[trigger] v->Array_0[i]) is Str ==> v->Array_0[i] == marker())
    &&& (k == "env"@ && v is Object ==> forall|i: int|
        0 <= i < v->Object_0.len() && sensitive_key(#[trigger] v->Object_0[i].0) ==> v->Object_0[i].1
            == marker())
    &&& exposes_nothing(v)
}

proof fn lemma_redact_keeps_kind(v: JsonView)
    ensures
        (redact(v) is Str) == (v is Str),
        (redact(v) is Array) == (v is Array),
        (redact(v) is Object) == (v is Object),
{
}

proof fn lemma_redact_entry_exposes_nothing(k: Seq<char>, v: JsonView)
    ensures
        entry_exposes_nothing(k, redact_entry(k, v)),
    decreases v, 1nat,
{
    reveal_strlit("base_command_override");
    reveal_strlit("additional_params");
    reveal_strlit("env");
    reveal_strlit("<redacted>");
    let r = redact_entry(k, v);
    if k == "base_command_override"@ && v is Str {
        assert(r == marker());
    } else if k == "additional_params"@ && v is Str {
        assert(r == marker());
    } else if k == "additional_params"@ && v is Array {
        let items = v->Array_0;
        let out = r->Array_0;
        assert forall|i: int| 0 <= i < out.len() implies exposes_nothing(#[trigger] out[i]) && (out[i] is Str
            ==> out[i] == marker()) by {
            if items[i] is Str {
                assert(out[i] == marker());
            } else {
                assert(out[i] == redact(items[i]));
                lemma_redact_keeps_kind(items[i]);
                law_redaction_exposes_nothing(items[i]);
            }
        }
    } else if k == "env"@ && v is Object {
        let es = v->Object_0;
        let out = r->Object_0;
        assert forall|i: int| 0 <= i < out.len() implies entry_exposes_nothing(#[trigger] out[i].0, out[i].1) && (
        sensitive_key(out[i].0) ==> out[i].1 == marker()) by {
            assert(out[i].0 == es[i].0);
            if sensitive_key(es[i].0) {
                assert(out[i].1 == marker());
            } else {
                lemma_redact_entry_exposes_nothing(es[i].0, es[i].1);
            }
        }
    } else {
        lemma_redact_keeps_kind(v);
        law_redaction_exposes_nothing(v);
    }
}

/// Redaction leaves nothing secret showing, whatever the value (the promise of the profiles
/// endpoint).
pub proof fn law_redaction_exposes_nothing(v: JsonView)
    ensures
        exposes_nothing(redact(v)),
    decreases v, 0nat,
{
    match v {
        JsonView::Array(items) => {
            let out = redact(v)->Array_0;
            assert forall|i: int| 0 <= i < out.len() implies exposes_nothing(#[trigger] out[i]) by {
                law_redaction_exposes_nothing(items[i]);
            }
        },
        JsonView::Object(es) => {
            let out = redact(v)->Object_0;
            assert forall|i: int| 0 <= i < out.len() implies entry_exposes_nothing(#[trigger] out[i].0, out[i].1) by {
                lemma_redact_entry_exposes_nothing(es[i].0, es[i].1);
            }
        },
        _ => {},
    }
}

} // verus!
