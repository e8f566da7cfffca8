//! Queries and their results: requests, endpoints and result rows.
use vstd::prelude::*;

use crate::json::{entry_index, JsonValue};
use crate::text::{char_is_whitespace, chars_of, is_whitespace, push_chars, push_str, string_from_range};

verus! {

broadcast use vstd::string::group_string_axioms;

/// A column of a result's schema.
pub struct SchemaColumn {
    pub name: String,
}

/// The rows of a query result, in the JDBC layout: a schema, and one array
/// of values per row.
pub struct PplResponse {
    pub schema: Vec<SchemaColumn>,
    pub datarows: Vec<Vec<JsonValue>>,
}

/// `entries` with `key` set to `value`: an existing entry keeps its place
/// and takes the new value, a new key is added at the end.
pub open spec fn object_insert(entries: Seq<(String, JsonValue)>, key: String, value: JsonValue) -> Seq<
    (String, JsonValue),
> {
    match entry_index(entries, key@, 0) {
        Some(i) => entries.update(i, (entries[i].0, value)),
        None => entries.push((key, value)),
    }
}

/// The entries of the object for the first `n` values of a row, each under
/// the name of its column.
pub open spec fn row_entries(schema: Seq<SchemaColumn>, row: Seq<JsonValue>, n: int) -> Seq<
    (String, JsonValue),
>
    decreases n,
{
    if n <= 0 {
        Seq::empty()
    } else {
        object_insert(row_entries(schema, row, n - 1), schema[n - 1].name, row[n - 1])
    }
}

/// The smaller of two integers.
pub open spec fn min(a: int, b: int) -> int {
    if a <= b {
        a
    } else {
        b
    }
}

/// The object for a row: the row's values paired with the schema's names, as
/// far as both go.
pub open spec fn row_object(schema: Seq<SchemaColumn>, row: Seq<JsonValue>, entries: Seq<(String, JsonValue)>) -> bool {
    entries == row_entries(schema, row, min(schema.len() as int, row.len() as int))
}

/// Sets `key` to `value` in the entries of an object.
fn insert_entry(entries: &mut Vec<(String, JsonValue)>, key: String, value: JsonValue)
    ensures
        final(entries)@ == object_insert(old(entries)@, key, value),
{
    let mut i: usize = 0;
    while i < entries.len()
        invariant
            i <= entries@.len(),
            entries@ == old(entries)@,
            entry_index(entries@, key@, 0) == entry_index(entries@, key@, i as int),
        decreases entries@.len() - i,
    {
        if crate::text::str_eq(entries[i].0.as_str(), key.as_str()) {
            assert(entry_index(entries@, key@, i as int) == Some(i as int));
            let name = entries[i].0.clone();
            entries.set(i, (name, value));
            return;
        }
        i = i + 1;
    }
    entries.push((key, value));
}

/// Converts the rows of a result into JSON objects keyed by column name.
pub fn format_jdbc_to_json(response: PplResponse) -> (r: Vec<JsonValue>)
    ensures
        r@.len() == response.datarows@.len(),
        forall|i: int|
            0 <= i < r@.len() ==> match #[trigger] r@[i] {
                JsonValue::Object(entries) => row_object(
                    response.schema@,
                    response.datarows@[i]@,
                    entries@,
                ),
                _ => false,
            },
{
    let ghost rows = response.datarows@;
    let schema = response.schema;
    let mut results: Vec<JsonValue> = Vec::new();
    for row in it: response.datarows
        invariant
            it.seq() == rows,
            results@.len() == it.index(),
            forall|j: int|
                0 <= j < results@.len() ==> match #[trigger] results@[j] {
                    JsonValue::Object(entries) => row_object(schema@, rows[j]@, entries@),
                    _ => false,
                },
    {
        let ghost row_view = row@;
        let ghost k = it.index();
        let mut obj: Vec<(String, JsonValue)> = Vec::new();
        let mut c: usize = 0;
        let n_row = row.len();
        for value in vt: row
            invariant
                vt.seq() == row_view,
                row_view.len() == n_row,
                c == vt.index(),
                obj@ == row_entries(schema@, row_view, min(c as int, schema@.len() as int)),
        {
            if c < schema.len() {
                let name = schema[c].name.clone();
                insert_entry(&mut obj, name, value);
            }
            c = c + 1;
        }
        let ghost before = results@;
        results.push(JsonValue::Object(obj));
        proof {
            assert forall|j: int| 0 <= j < results@.len() implies match #[trigger] results@[j] {
                JsonValue::Object(entries) => row_object(schema@, rows[j]@, entries@),
                _ => false,
            } by {
                if j < before.len() {
                    assert(results@[j] == before[j]);
                }
            }
        }
    }
    results
}

/// The endpoint used when none is given.
pub open spec fn default_endpoint() -> Seq<char> {
    "http://localhost:9200"@
}

/// `s` without one trailing `/`, if it has one.
pub open spec fn strip_slash(s: Seq<char>) -> Seq<char> {
    if s.len() > 0 && s.last() == '/' {
        s.drop_last()
    } else {
        s
    }
}

/// The URL that a query is sent to: the endpoint, without a trailing `/`,
/// followed by the PPL path, or its explain path.
pub open spec fn spec_query_url(endpoint: Option<Seq<char>>, explain: bool) -> Seq<char> {
    let base = match endpoint {
        Some(e) => e,
        None => default_endpoint(),
    };
    strip_slash(base) + if explain {
        "/_plugins/_ppl/_explain"@
    } else {
        "/_plugins/_ppl"@
    }
}

/// The URL that a query is sent to.
pub fn query_url(endpoint: Option<&str>, explain: bool) -> (r: String)
    ensures
        r@ == spec_query_url(
            match endpoint {
                Some(e) => Some(e@),
                None => None,
            },
            explain,
        ),
{
    let base = match endpoint {
        Some(e) => e,
        None => "http://localhost:9200",
    };
    let cs = chars_of(base);
    let end = if cs.len() > 0 && cs[cs.len() - 1] == '/' {
        cs.len() - 1
    } else {
        cs.len()
    };
    let mut url = string_from_range(cs.as_slice(), 0, end);
    proof {
        if end < cs@.len() {
            assert(cs@.subrange(0, end as int) =~= cs@.drop_last());
        } else {
            assert(cs@.subrange(0, end as int) =~= cs@);
        }
    }
    if explain {
        push_str(&mut url, "/_plugins/_ppl/_explain");
    } else {
        push_str(&mut url, "/_plugins/_ppl");
    }
    url
}

/// The `curl` command that sends a query, for `--export`.
pub open spec fn spec_curl_command(url: Seq<char>, json_body: Seq<char>, auth: Option<Seq<char>>) -> Seq<char> {
    "curl -X POST '"@ + url + "' -H 'Content-Type: application/json' -d '"@ + json_body
        + "' --max-time 120"@ + match auth {
        Some(a) => " -u '"@ + a + "'"@,
        None => Seq::empty(),
    }
}

/// The `curl` command that sends the JSON body `json_body` to `url`, with
/// basic authentication when `auth` is given.
pub fn curl_command(url: &str, json_body: &str, auth: Option<&str>) -> (r: String)
    ensures
        r@ == spec_curl_command(
            url@,
            json_body@,
            match auth {
                Some(a) => Some(a@),
                None => None,
            },
        ),
{
    let mut cmd = String::new();
    push_str(&mut cmd, "curl -X POST '");
    push_str(&mut cmd, url);
    push_str(&mut cmd, "' -H 'Content-Type: application/json' -d '");
    push_str(&mut cmd, json_body);
    push_str(&mut cmd, "' --max-time 120");
    if let Some(a) = auth {
        push_str(&mut cmd, " -u '");
        push_str(&mut cmd, a);
        push_str(&mut cmd, "'");
    }
    proof {
        match auth {
            Some(a) => {
                assert(cmd@ =~= spec_curl_command(url@, json_body@, Some(a@)));
            },
            None => {
                assert(cmd@ =~= spec_curl_command(url@, json_body@, None));
            },
        }
    }
    cmd
}

/// The first `:` of `s` at or after `i`.
pub open spec fn colon_from(s: Seq<char>, i: int) -> Option<int>
    decreases s.len() - i,
{
    if i < 0 || i >= s.len() {
        None
    } else if s[i] == ':' {
        Some(i)
    } else {
        colon_from(s, i + 1)
    }
}

/// The user name and password of `username:password`: split at the first
/// `:`; `None` when there is none.
pub open spec fn spec_basic_auth(auth: Seq<char>) -> Option<(Seq<char>, Seq<char>)> {
    match colon_from(auth, 0) {
        Some(i) => Some((auth.take(i), auth.skip(i + 1))),
        None => None,
    }
}

/// Splits `username:password` at the first `:`.
pub fn split_basic_auth(auth: &str) -> (r: Option<(String, String)>)
    ensures
        match r {
            Some((u, p)) => spec_basic_auth(auth@) == Some((u@, p@)),
            None => spec_basic_auth(auth@) is None,
        },
{
    let cs = chars_of(auth);
    let mut i: usize = 0;
    while i < cs.len() && cs[i] != ':'
        invariant
            cs@ == auth@,
            i <= cs@.len(),
            colon_from(cs@, 0) == colon_from(cs@, i as int),
        decreases cs@.len() - i,
    {
        i = i + 1;
    }
    if i == cs.len() {
        return None;
    }
    let user = string_from_range(cs.as_slice(), 0, i);
    let pass = string_from_range(cs.as_slice(), i + 1, cs.len());
    proof {
        assert(cs@.subrange(0, i as int) =~= cs@.take(i as int));
        assert(cs@.subrange(i + 1, cs@.len() as int) =~= cs@.skip(i + 1));
    }
    Some((user, pass))
}

/// Whether a file argument is a glob pattern rather than a path.
pub open spec fn spec_is_glob_pattern(p: Seq<char>) -> bool {
    p.contains('*') || p.contains('?') || p.contains('[')
}

/// Whether a file argument is a glob pattern rather than a path.
pub fn is_glob_pattern(pattern: &str) -> (r: bool)
    ensures
        r == spec_is_glob_pattern(pattern@),
{
    let cs = chars_of(pattern);
    let mut i: usize = 0;
    while i < cs.len()
        invariant
            cs@ == pattern@,
            i <= cs@.len(),
            forall|j: int| 0 <= j < i ==> cs@[j] != '*' && cs@[j] != '?' && cs@[j] != '[',
        decreases cs@.len() - i,
    {
        let c = cs[i];
        if c == '*' || c == '?' || c == '[' {
            assert(cs@[i as int] == c);
            return true;
        }
        i = i + 1;
    }
    false
}

/// The output options of batch mode, over several files: compact output
/// unless a table or compact output was asked for, and at most 10 results
/// per query unless a limit was given.
pub fn batch_options(compact: bool, table: bool, limit: Option<usize>) -> (r: (bool, Option<usize>))
    ensures
        r.0 == (compact || !table),
        r.1 == match limit {
            Some(l) => Some(l),
            None => Some(10usize),
        },
{
    let compact = if !compact && !table {
        true
    } else {
        compact
    };
    let limit = if limit.is_none() {
        Some(10)
    } else {
        limit
    };
    (compact, limit)
}

/// The end of the run of whitespace at the start of `s`.
pub open spec fn leading_ws(s: Seq<char>, i: int) -> int
    decreases s.len() - i,
{
    if 0 <= i < s.len() && char_is_whitespace(s[i]) {
        leading_ws(s, i + 1)
    } else {
        i
    }
}

/// The start of the run of whitespace at the end of `s[..j]`.
pub open spec fn trailing_ws(s: Seq<char>, j: int) -> int
    decreases j,
{
    if 0 < j <= s.len() && char_is_whitespace(s[j - 1]) {
        trailing_ws(s, j - 1)
    } else {
        j
    }
}

/// `s` without leading and trailing whitespace, as `str::trim` makes it.
pub open spec fn spec_trim(s: Seq<char>) -> Seq<char> {
    let a = leading_ws(s, 0);
    if a == s.len() {
        Seq::empty()
    } else {
        s.subrange(a, trailing_ws(s, s.len() as int))
    }
}

proof fn lemma_leading_ws(s: Seq<char>, i: int)
    requires
        0 <= i <= s.len(),
    ensures
        i <= leading_ws(s, i) <= s.len(),
        leading_ws(s, i) < s.len() ==> !char_is_whitespace(s[leading_ws(s, i)]),
    decreases s.len() - i,
{
    if i < s.len() && char_is_whitespace(s[i]) {
        lemma_leading_ws(s, i + 1);
    }
}

proof fn lemma_trailing_ws(s: Seq<char>, j: int, a: int)
    requires
        0 <= a < j <= s.len(),
        !char_is_whitespace(s[a]),
    ensures
        a < trailing_ws(s, j) <= j,
    decreases j,
{
    if char_is_whitespace(s[j - 1]) {
        lemma_trailing_ws(s, j - 1, a);
    }
}

/// The query text without surrounding whitespace; `None` when nothing is left.
pub fn prepare_query(query: &str) -> (r: Option<String>)
    ensures
        match r {
            Some(q) => q@ == spec_trim(query@) && q@.len() > 0,
            None => spec_trim(query@).len() == 0,
        },
{
    let cs = chars_of(query);
    let n = cs.len();
    let mut a: usize = 0;
    while a < n && is_whitespace(cs[a])
        invariant
            cs@ == query@,
            n == cs@.len(),
            a <= n,
            leading_ws(cs@, 0) == leading_ws(cs@, a as int),
        decreases n - a,
    {
        a = a + 1;
    }
    if a == n {
        return None;
    }
    proof {
        assert(leading_ws(cs@, a as int) == a);
        lemma_leading_ws(cs@, 0);
        lemma_trailing_ws(cs@, n as int, a as int);
    }
    let mut b: usize = n;
    while b > a && is_whitespace(cs[b - 1])
        invariant
            cs@ == query@,
            n == cs@.len(),
            a < n,
            !char_is_whitespace(cs@[a as int]),
            leading_ws(cs@, 0) == a,
            a < b <= n,
            trailing_ws(cs@, n as int) == trailing_ws(cs@, b as int),
        decreases b,
    {
        b = b - 1;
    }
    let q = string_from_range(cs.as_slice(), a, b);
    proof {
        assert(trailing_ws(cs@, b as int) == b);
    }
    Some(q)
}

} // verus!
