//! The argument handling of a tiny HTTP client: `key=value` pairs for a JSON
//! body, URL checking, and how a response body is shown.
use vstd::prelude::*;
use vstd::string::StrSliceExecFns;

verus! {

/// Where the field that starts at `start` ends in `s`: at the first `=` from
/// `start` on, or at the end of `s`.
pub open spec fn field_end(s: Seq<char>, start: int) -> int
    decreases s.len() - start,
{
    if start >= s.len() {
        s.len() as int
    } else if s[start] == '=' {
        start
    } else {
        field_end(s, start + 1)
    }
}

/// The key and the value of a `key=value` argument: the text before the first
/// `=`, and the text between it and the next `=` (or the end). An argument
/// without `=` has neither.
pub open spec fn kv_fields(s: Seq<char>) -> Option<(Seq<char>, Seq<char>)> {
    let i = field_end(s, 0);
    if i >= s.len() {
        None
    } else {
        Some((s.subrange(0, i), s.subrange(i + 1, field_end(s, i + 1))))
    }
}

/// The field from `i` ends at `e` when no `=` lies in between and `e` is the
/// end of `s` or holds a `=`.
proof fn lemma_field_end_at(s: Seq<char>, i: int, e: int)
    requires
        0 <= i <= e <= s.len(),
        forall|j: int| i <= j < e ==> s[j] != '=',
        e == s.len() || s[e] == '=',
    ensures
        field_end(s, i) == e,
    decreases e - i,
{
    if i < e {
        lemma_field_end_at(s, i + 1, e);
    }
}

/// An argument written as a key, `=` and a value, neither of which holds a
/// `=`, splits back into that key and that value.
pub proof fn lemma_kv_fields_roundtrip(k: Seq<char>, v: Seq<char>)
    requires
        !k.contains('='),
        !v.contains('='),
    ensures
        kv_fields(k + seq!['='] + v) == Some((k, v)),
{
    let s = k + seq!['='] + v;
    assert forall|j: int| 0 <= j < k.len() implies s[j] != '=' by {
        assert(s[j] == k[j]);
    }
    lemma_field_end_at(s, 0, k.len() as int);
    assert forall|j: int| k.len() + 1 <= j < s.len() implies s[j] != '=' by {
        assert(s[j] == v[j - k.len() - 1]);
    }
    lemma_field_end_at(s, k.len() + 1int, s.len() as int);
    assert(s.subrange(0, k.len() as int) =~= k);
    assert(s.subrange(k.len() + 1int, s.len() as int) =~= v);
}

/// One `key=value` argument of the client.
#[derive(Debug, PartialEq, Eq)]
pub struct KvPair {
    pub k: String,
    pub v: String,
}

/// A `key=value` argument that could not be split.
#[derive(Debug, PartialEq, Eq)]
pub struct KvPairError {
    /// The argument as it was given.
    pub input: String,
}

impl KvPairError {
    /// The text of the error: `Failed to parse ` and the argument.
    pub fn message(&self) -> (m: String)
        ensures
            m@ == "Failed to parse "@ + self.input@,
    {
        let prefix = "Failed to parse ".to_owned();
        prefix.concat(self.input.as_str())
    }
}

/// Where the field that starts at `start` ends in `s`; `n` is the number of
/// characters of `s`.
fn find_field_end(s: &str, start: usize, n: usize) -> (i: usize)
    requires
        n == s@.len(),
        start <= n,
    ensures
        i == field_end(s@, start as int),
        start <= i <= n,
{
    let mut i = start;
    while i < n
        invariant
            n == s@.len(),
            start <= i <= n,
            field_end(s@, start as int) == field_end(s@, i as int),
        decreases n - i,
    {
        if s.get_char(i) == '=' {
            return i;
        }
        i = i + 1;
    }
    i
}

impl KvPair {
    /// Splits a `key=value` argument as `kv_fields` says, or fails with the
    /// argument when it has no `=`.
    pub fn parse_pair(s: &str) -> (r: Result<KvPair, KvPairError>)
        ensures
            match kv_fields(s@) {
                Some((k, v)) => r matches Ok(p) && p.k@ == k && p.v@ == v,
                None => r matches Err(e) && e.input@ == s@,
            },
    {
        let n = s.unicode_len();
        let i = find_field_end(s, 0, n);
        if i >= n {
            return Err(KvPairError { input: s.to_owned() });
        }
        let j = find_field_end(s, i + 1, n);
        let k = s.substring_char(0, i).to_owned();
        let v = s.substring_char(i + 1, j).to_owned();
        Ok(KvPair { k, v })
    }
}

impl std::str::FromStr for KvPair {
    type Err = KvPairError;

    /// Splits a `key=value` argument as `kv_fields` says, or fails with the
    /// argument when it has no `=`.
    fn from_str(s: &str) -> (r: Result<Self, Self::Err>)
        ensures
            match kv_fields(s@) {
                Some((k, v)) => r matches Ok(p) && p.k@ == k && p.v@ == v,
                None => r matches Err(e) && e.input@ == s@,
            },
    {
        KvPair::parse_pair(s)
    }
}

/// Parses a `key=value` command-line argument.
pub fn parse_kv_pair(s: &str) -> (r: Result<KvPair, KvPairError>)
    ensures
        match kv_fields(s@) {
            Some((k, v)) => r matches Ok(p) && p.k@ == k && p.v@ == v,
            None => r matches Err(e) && e.input@ == s@,
        },
{
    KvPair::parse_pair(s)
}

/// What parsing `s` as a URL reports, by the rules of `reqwest::Url`:
/// `None` when `s` is a valid URL, otherwise the description of the error.
pub uninterp spec fn url_parse_error(s: Seq<char>) -> Option<Seq<char>>;

/// Parses `s` as a `reqwest::Url` (its `FromStr`, i.e. `Url::parse`) and keeps
/// only whether that worked, or the text of the error.
#[verifier::external_body]
fn check_url(s: &str) -> (r: Option<String>)
    ensures
        match r {
            None => url_parse_error(s@) is None,
            Some(e) => url_parse_error(s@) == Some(e@),
        },
{
    match s.parse::<reqwest::Url>() {
        Ok(_) => None,
        Err(e) => Some(e.to_string()),
    }
}

/// Accepts a URL argument when it parses as a URL, and gives it back as it
/// was written; otherwise fails with the parser's error text.
pub fn parse_url(s: &str) -> (r: Result<String, String>)
    ensures
        match url_parse_error(s@) {
            None => r matches Ok(u) && u@ == s@,
            Some(e) => r matches Err(t) && t@ == e,
        },
{
    match check_url(s) {
        None => Ok(s.to_owned()),
        Some(e) => Err(e),
    }
}

/// The JSON object that `key=value` arguments make: each key with the value
/// of its last occurrence.
pub open spec fn body_map(pairs: Seq<KvPair>) -> Map<Seq<char>, Seq<char>>
    decreases pairs.len(),
{
    if pairs.len() == 0 {
        Map::empty()
    } else {
        body_map(pairs.drop_last()).insert(pairs.last().k@, pairs.last().v@)
    }
}

/// No key occurs twice.
pub open spec fn distinct_keys(pairs: Seq<KvPair>) -> bool {
    forall|i: int, j: int| 0 <= i < j < pairs.len() ==> pairs[i].k@ != pairs[j].k@
}

/// The keys of the pairs.
pub open spec fn keys_of(pairs: Seq<KvPair>) -> Set<Seq<char>> {
    Set::new(|key: Seq<char>| exists|i: int| 0 <= i < pairs.len() && pairs[i].k@ == key)
}

/// The JSON body made of `key=value` arguments has exactly the keys that the
/// arguments give.
pub proof fn lemma_body_map_keys(pairs: Seq<KvPair>)
    ensures
        body_map(pairs).dom() == keys_of(pairs),
    decreases pairs.len(),
{
    if pairs.len() > 0 {
        let front = pairs.drop_last();
        lemma_body_map_keys(front);
        assert forall|key: Seq<char>| #[trigger] keys_of(pairs).contains(key) implies body_map(pairs).dom().contains(key) by {
            let i = choose|i: int| 0 <= i < pairs.len() && pairs[i].k@ == key;
            if i < pairs.len() - 1 {
                assert(front[i].k@ == key);
                assert(keys_of(front).contains(key));
            }
        }
        assert forall|key: Seq<char>| #[trigger] body_map(pairs).dom().contains(key) implies keys_of(pairs).contains(key) by {
            if key != pairs.last().k@ {
                assert(keys_of(front).contains(key));
                let i = choose|i: int| 0 <= i < front.len() && front[i].k@ == key;
                assert(pairs[i].k@ == key);
            } else {
                assert(pairs[pairs.len() - 1].k@ == key);
            }
        }
        assert(body_map(pairs).dom() =~= keys_of(pairs));
    } else {
        assert(body_map(pairs).dom() =~= keys_of(pairs));
    }
}

/// In the JSON body, a key given by the arguments holds the value of its last
/// occurrence among them.
pub proof fn lemma_body_map_last_wins(pairs: Seq<KvPair>, i: int)
    requires
        0 <= i < pairs.len(),
        forall|j: int| i < j < pairs.len() ==> pairs[j].k@ != pairs[i].k@,
    ensures
        body_map(pairs).contains_key(pairs[i].k@),
        body_map(pairs)[pairs[i].k@] == pairs[i].v@,
    decreases pairs.len(),
{
    if i < pairs.len() - 1 {
        let front = pairs.drop_last();
        assert(front[i] == pairs[i]);
        assert forall|j: int| i < j < front.len() implies front[j].k@ != front[i].k@ by {
            assert(front[j] == pairs[j]);
        }
        lemma_body_map_last_wins(front, i);
        assert(pairs.last().k@ != pairs[i].k@);
    }
}

/// Replacing the value of a key in pairs whose keys are distinct changes the
/// object they make at that key only.
proof fn lemma_body_map_update(pairs: Seq<KvPair>, idx: int, p: KvPair)
    requires
        distinct_keys(pairs),
        0 <= idx < pairs.len(),
        pairs[idx].k@ == p.k@,
    ensures
        body_map(pairs.update(idx, p)) == body_map(pairs).insert(p.k@, p.v@),
    decreases pairs.len(),
{
    let updated = pairs.update(idx, p);
    if idx == pairs.len() - 1 {
        assert(updated.drop_last() =~= pairs.drop_last());
        assert(body_map(updated) =~= body_map(pairs).insert(p.k@, p.v@));
    } else {
        let front = pairs.drop_last();
        assert(updated.drop_last() =~= front.update(idx, p));
        lemma_body_map_update(front, idx, p);
        assert(pairs.last().k@ != p.k@);
        assert(body_map(updated) =~= body_map(pairs).insert(p.k@, p.v@));
    }
}

/// The keys of the pairs, each once, in the order of their first occurrence.
pub open spec fn first_keys(pairs: Seq<KvPair>) -> Seq<Seq<char>>
    decreases pairs.len(),
{
    if pairs.len() == 0 {
        Seq::empty()
    } else if keys_of(pairs.drop_last()).contains(pairs.last().k@) {
        first_keys(pairs.drop_last())
    } else {
        first_keys(pairs.drop_last()).push(pairs.last().k@)
    }
}

/// The keys of the pairs, in their order.
pub open spec fn key_seq(pairs: Seq<KvPair>) -> Seq<Seq<char>> {
    pairs.map_values(|p: KvPair| p.k@)
}

/// The entries of the JSON body that `key=value` arguments make: one pair per
/// key, holding the value of that key's last occurrence, in the order in which
/// the keys first occur.
pub fn json_body(pairs: &Vec<KvPair>) -> (r: Vec<KvPair>)
    ensures
        distinct_keys(r@),
        body_map(r@) == body_map(pairs@),
        key_seq(r@) == first_keys(pairs@),
{
    let mut out: Vec<KvPair> = Vec::new();
    let mut i: usize = 0;
    while i < pairs.len()
        invariant
            i <= pairs.len(),
            distinct_keys(out@),
            body_map(out@) == body_map(pairs@.take(i as int)),
            key_seq(out@) == first_keys(pairs@.take(i as int)),
        decreases pairs.len() - i,
    {
        let pair = &pairs[i];
        let entry = KvPair { k: pair.k.clone(), v: pair.v.clone() };
        let mut j: usize = 0;
        let mut found = false;
        while j < out.len()
            invariant_except_break
                !found,
            invariant
                j <= out.len(),
                forall|m: int| 0 <= m < j ==> out@[m].k@ != pair.k@,
            ensures
                found ==> j < out.len() && out@[j as int].k@ == pair.k@,
                !found ==> forall|m: int| 0 <= m < out.len() ==> out@[m].k@ != pair.k@,
            decreases out.len() - j,
        {
            if out[j].k == pair.k {
                found = true;
                break;
            }
            j = j + 1;
        }
        proof {
            assert(pairs@.take(i + 1).drop_last() =~= pairs@.take(i as int));
            assert(pairs@.take(i + 1).last() == pairs@[i as int]);
            lemma_body_map_keys(out@);
            lemma_body_map_keys(pairs@.take(i as int));
            if found {
                assert(keys_of(out@).contains(pair.k@));
            } else {
                assert(!keys_of(out@).contains(pair.k@));
            }
        }
        if found {
            let ghost before = out@;
            out.set(j, entry);
            proof {
                lemma_body_map_update(before, j as int, entry);
                assert(out@ == before.update(j as int, entry));
                assert(key_seq(out@) =~= key_seq(before));
            }
        } else {
            let ghost before = out@;
            out.push(entry);
            proof {
                assert(out@.drop_last() =~= before);
                assert(key_seq(out@) =~= key_seq(before).push(entry.k@));
            }
        }
        i = i + 1;
    }
    proof {
        assert(pairs@.take(pairs@.len() as int) =~= pairs@);
    }
    out
}

/// How `jsonxf` pretty-prints the JSON text `s`: the pretty text, or the
/// error message when `s` is not valid JSON.
pub uninterp spec fn json_pretty(s: Seq<char>) -> Result<Seq<char>, Seq<char>>;

/// `jsonxf::pretty_print`: the result is exactly `json_pretty(s)`.
#[verifier::external_body]
fn pretty_print_json(s: &str) -> (r: Result<String, String>)
    ensures
        match r {
            Ok(p) => json_pretty(s@) == Ok::<Seq<char>, Seq<char>>(p@),
            Err(e) => json_pretty(s@) == Err::<Seq<char>, Seq<char>>(e@),
        },
{
    jsonxf::pretty_print(s)
}

/// The text of a response body as it is shown: pretty-printed when the
/// response is JSON, as it is otherwise. JSON that does not pretty-print gives
/// the printer's error message.
pub fn format_body(is_json: bool, body: &str) -> (r: Result<String, String>)
    ensures
        !is_json ==> (r matches Ok(t) && t@ == body@),
        is_json ==> match json_pretty(body@) {
            Ok(p) => r matches Ok(t) && t@ == p,
            Err(e) => r matches Err(t) && t@ == e,
        },
{
    if is_json {
        pretty_print_json(body)
    } else {
        Ok(body.to_owned())
    }
}

} // verus!
