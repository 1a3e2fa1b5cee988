use vstd::prelude::*;

verus! {

use vstd::string::StrSliceExecFns;
use crate::scan::{extract_ip_spec, extract_ip_from_text, quad_valid_at, lemma_extract_some_iff};
use crate::views::opt_str_view;

/// What serde_json yields for the string field `key` of the text `raw`:
/// `Some` of that string exactly when `raw` parses as a JSON object whose
/// field `key` holds a string. A function of the two arguments alone.
pub uninterp spec fn json_string_field_of(raw: Seq<char>, key: Seq<char>) -> Option<Seq<char>>;

/// Relies on serde_json::from_str::<Value>, Value::get and Value::as_str:
/// together they look up the string field `key` of the JSON text `raw`, and
/// what they return depends on `raw` and `key` alone.
#[verifier::external_body]
fn json_string_field(raw: &str, key: &str) -> (r: Option<String>)
    ensures
        opt_str_view(r) == json_string_field_of(raw@, key@),
{
    serde_json::from_str::<serde_json::Value>(raw).ok().and_then(
        |v| v.get(key).and_then(|f| f.as_str()).map(|s| s.to_string()),
    )
}

/// Index of the first comma or colon at or after `i`, or the length if none.
pub open spec fn first_sep_from(s: Seq<char>, i: int) -> int
    decreases s.len() - i,
{
    if i >= s.len() {
        s.len() as int
    } else if s[i] == ',' || s[i] == ':' {
        i
    } else {
        first_sep_from(s, i + 1)
    }
}

/// The text before the first comma or colon.
pub open spec fn before_sep(s: Seq<char>) -> Seq<char> {
    s.subrange(0, first_sep_from(s, 0))
}

/// The prefix of `s` before its first comma or colon.
fn clip_at_sep(s: &String) -> (r: String)
    ensures
        r@ == before_sep(s@),
{
    let n = s.as_str().unicode_len();
    let mut i: usize = 0;
    while i < n
        invariant
            n == s@.len(),
            i <= n,
            first_sep_from(s@, 0) == first_sep_from(s@, i as int),
        decreases n - i,
    {
        let c = s.as_str().get_char(i);
        if c == ',' || c == ':' {
            return s.as_str().substring_char(0, i).to_owned();
        }
        i = i + 1;
    }
    proof {
        assert(s@.subrange(0, n as int) =~= s@);
    }
    s.as_str().substring_char(0, n).to_owned()
}

/// What `normalize` finds in a raw body: the JSON string field `ip` taken
/// verbatim; else the JSON string field `origin` clipped at its first comma
/// or colon; else the first valid dotted quad of the plain text.
pub open spec fn normalize_spec(raw: Seq<char>) -> Option<Seq<char>> {
    match json_string_field_of(raw, "ip"@) {
        Some(ip) => Some(ip),
        None => match json_string_field_of(raw, "origin"@) {
            Some(origin) => Some(before_sep(origin)),
            None => extract_ip_spec(raw),
        },
    }
}

/// Extract one candidate address from a raw response body, trying the three
/// tolerated shapes in order: a JSON object with a string field `ip`, a JSON
/// object with a string field `origin` (clipped at the first comma or colon),
/// and free-form text holding a dotted quad. Anything else yields `None`;
/// nothing fails.
pub fn normalize(raw: &str) -> (r: Option<String>)
    ensures
        opt_str_view(r) == normalize_spec(raw@),
{
    if let Some(ip) = json_string_field(raw, "ip") {
        return Some(ip);
    }
    if let Some(origin) = json_string_field(raw, "origin") {
        return Some(clip_at_sep(&origin));
    }
    extract_ip_from_text(raw)
}

/// A structured `ip` field is returned unchanged: no octet validation is
/// applied on that path.
pub proof fn lemma_normalize_ip_field(raw: Seq<char>)
    ensures
        json_string_field_of(raw, "ip"@) is Some ==> normalize_spec(raw) == json_string_field_of(
            raw,
            "ip"@,
        ),
{
}

/// Without an `ip` field, an `origin` string field is returned clipped at its
/// first comma or colon.
pub proof fn lemma_normalize_origin_field(raw: Seq<char>)
    ensures
        (json_string_field_of(raw, "ip"@) is None && json_string_field_of(raw, "origin"@) is Some)
            ==> normalize_spec(raw) == Some(
            before_sep(json_string_field_of(raw, "origin"@)->0),
        ),
{
}

/// Where neither JSON field is found and no position of the text starts a
/// valid dotted quad, no candidate is produced.
pub proof fn lemma_normalize_absent(raw: Seq<char>)
    ensures
        (json_string_field_of(raw, "ip"@) is None && json_string_field_of(raw, "origin"@) is None
            && (forall|i: int| 0 <= i < raw.len() ==> !quad_valid_at(raw, i)))
            ==> normalize_spec(raw) is None,
{
    lemma_extract_some_iff(raw);
}

} // verus!
