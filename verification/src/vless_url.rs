use vstd::prelude::*;

verus! {

/// The parts of a parsed URL that a VLESS profile is read from.
pub struct UrlParts {
    /// The scheme, without `:`.
    pub scheme: String,
    /// The user name (percent-encoded), empty when absent.
    pub username: String,
    /// The host as written in the URL, when there is one.
    pub host: Option<String>,
    /// The explicit port, when there is one.
    pub port: Option<u16>,
    /// The query's `name=value` pairs, decoded, in order.
    pub query: Vec<(String, String)>,
}

pub struct UrlPartsView {
    pub scheme: Seq<char>,
    pub username: Seq<char>,
    pub host: Option<Seq<char>>,
    pub port: Option<u16>,
    pub query: Seq<(Seq<char>, Seq<char>)>,
}

pub open spec fn pairs_view(q: Seq<(String, String)>) -> Seq<(Seq<char>, Seq<char>)> {
    q.map_values(|p: (String, String)| (p.0@, p.1@))
}

pub open spec fn opt_text(o: Option<String>) -> Option<Seq<char>> {
    match o {
        Some(s) => Some(s@),
        None => None,
    }
}

impl View for UrlParts {
    type V = UrlPartsView;

    open spec fn view(&self) -> UrlPartsView {
        UrlPartsView {
            scheme: self.scheme@,
            username: self.username@,
            host: opt_text(self.host),
            port: self.port,
            query: pairs_view(self.query@),
        }
    }
}

pub open spec fn parts_result(r: Result<UrlParts, String>) -> Result<UrlPartsView, Seq<char>> {
    match r {
        Ok(p) => Ok(p@),
        Err(e) => Err(e@),
    }
}

/// What `url::Url::parse` makes of a text: the parts read from the URL, or
/// the text of its parse error.
pub uninterp spec fn url_parse_outcome(input: Seq<char>) -> Result<UrlPartsView, Seq<char>>;

/// `url::Url::parse`, with the parsed URL read out through `scheme`,
/// `username`, `host_str`, `port` and `query_pairs`, and a parse error
/// turned into its message. Claimed of it: the outcome depends on the input
/// text alone; what that outcome is (the WHATWG URL parsing rules) is left
/// unsaid.
#[verifier::external_body]
pub(crate) fn parse_url(input: &str) -> (r: Result<UrlParts, String>)
    ensures
        parts_result(r) == url_parse_outcome(input@),
{
    match url::Url::parse(input) {
        Ok(u) => Ok(UrlParts {
            scheme: u.scheme().to_string(),
            username: u.username().to_string(),
            host: u.host_str().map(String::from),
            port: u.port(),
            query: u.query_pairs().into_owned().collect(),
        }),
        Err(e) => Err(e.to_string()),
    }
}

/// The value of the last query pair named `key`, as a lookup in a map that
/// the pairs were inserted into in order gives it.
pub open spec fn query_value(q: Seq<(Seq<char>, Seq<char>)>, key: Seq<char>) -> Option<Seq<char>>
    decreases q.len(),
{
    if q.len() == 0 {
        None
    } else if q.last().0 == key {
        Some(q.last().1)
    } else {
        query_value(q.drop_last(), key)
    }
}

/// The value named `key`, unless it is missing or empty.
pub open spec fn non_empty_value(q: Seq<(Seq<char>, Seq<char>)>, key: Seq<char>) -> Option<Seq<char>> {
    match query_value(q, key) {
        Some(v) => if v.len() > 0 { Some(v) } else { None },
        None => None,
    }
}

/// Looks up the last query value named `key`.
pub fn lookup_query(q: &Vec<(String, String)>, key: &str) -> (r: Option<String>)
    ensures
        opt_text(r) == query_value(pairs_view(q@), key@),
{
    let k = String::from_str(key);
    let mut found: Option<String> = None;
    let mut i: usize = 0;
    while i < q.len()
        invariant
            i <= q.len(),
            k@ == key@,
            opt_text(found) == query_value(pairs_view(q@.take(i as int)), key@),
        decreases q.len() - i,
    {
        assert(q@.take(i + 1).drop_last() =~= q@.take(i as int));
        assert(pairs_view(q@.take(i + 1)).drop_last() =~= pairs_view(q@.take(i as int)));
        if q[i].0 == k {
            found = Some(q[i].1.clone());
        }
        i = i + 1;
    }
    assert(q@.take(q.len() as int) =~= q@);
    found
}

/// Looks up the query value named `key`, treating an empty one as missing.
pub fn lookup_non_empty(q: &Vec<(String, String)>, key: &str) -> (r: Option<String>)
    ensures
        opt_text(r) == non_empty_value(pairs_view(q@), key@),
{
    match lookup_query(q, key) {
        Some(v) => if v.as_str().is_empty() { None } else { Some(v) },
        None => None,
    }
}

} // verus!
