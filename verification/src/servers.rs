//! Requests about the other servers of the mesh: which servers a token may
//! reach, and the requests passed on to them.
use vstd::prelude::*;
use crate::access::{AccessData, authorized};
use crate::http::Error;
use crate::text::{concat_str, push_char, equals_chars};
use crate::logs::LogsRequest;

verus! {

/// The text refusing access to `server`.
pub open spec fn server_denied_text(server: Seq<char>) -> Seq<char> {
    "You do not have access to server `"@ + server + "`."@
}

/// Checks that the token's server patterns grant every server of a request;
/// the first server refused is named in the answer.
pub fn validate_server_access(req_servers: &Vec<String>, access_data: &AccessData) -> (r: Result<(), Error>)
    ensures
        r is Ok <==> forall|i: int| 0 <= i < req_servers@.len()
            ==> authorized(access_data.servers.deep_view(), #[trigger] req_servers.deep_view()[i]),
        r is Err ==> exists|k: int| 0 <= k < req_servers@.len()
            && !authorized(access_data.servers.deep_view(), #[trigger] req_servers.deep_view()[k])
            && (forall|j: int| 0 <= j < k ==> authorized(access_data.servers.deep_view(), #[trigger] req_servers.deep_view()[j]))
            && (r matches Err(Error::Forbidden(m)) && m@ == server_denied_text(req_servers.deep_view()[k])),
{
    let mut i: usize = 0;
    while i < req_servers.len()
        invariant
            i <= req_servers.len(),
            forall|j: int| 0 <= j < i ==> authorized(access_data.servers.deep_view(), #[trigger] req_servers.deep_view()[j]),
        decreases req_servers.len() - i,
    {
        if !access_data.server_access_authorized(req_servers[i].as_str()) {
            let m = concat_str(concat_str("You do not have access to server `", req_servers[i].as_str()).as_str(), "`.");
            proof {
                assert(req_servers.deep_view()[i as int] == req_servers@[i as int]@);
            }
            return Err(Error::Forbidden(m));
        }
        i = i + 1;
    }
    Ok(())
}

/// The servers, among those the registry lists, that the token's server
/// patterns grant, in order.
pub open spec fn reachable(hostnames: Seq<Seq<char>>, patterns: Seq<Seq<char>>) -> Seq<Seq<char>> {
    hostnames.filter(|h: Seq<char>| authorized(patterns, h))
}

/// The servers that a token may reach, given the registry's answer
/// (`None` when the registry could not be reached or answered nonsense,
/// which makes the service unavailable).
pub fn servers_handle(access_data: &AccessData, registered: Option<Vec<String>>) -> (r: Result<Vec<String>, Error>)
    ensures
        registered is None ==> r == Err::<Vec<String>, Error>(Error::ServiceUnavailable),
        registered matches Some(h) ==> (r matches Ok(v) && v.deep_view() == reachable(h.deep_view(), access_data.servers.deep_view())),
{
    match registered {
        None => Err(Error::ServiceUnavailable),
        Some(hostnames) => {
            let mut out: Vec<String> = Vec::new();
            let mut i: usize = 0;
            while i < hostnames.len()
                invariant
                    i <= hostnames.len(),
                    out.deep_view() == reachable(hostnames.deep_view().take(i as int), access_data.servers.deep_view()),
                decreases hostnames.len() - i,
            {
                let ghost before = out.deep_view();
                let ghost h = hostnames.deep_view()[i as int];
                proof {
                    assert(hostnames.deep_view().take(i + 1) =~= hostnames.deep_view().take(i as int).push(h));
                    hostnames.deep_view().take(i as int).lemma_filter_push(h, |x: Seq<char>| authorized(access_data.servers.deep_view(), x));
                }
                if access_data.server_access_authorized(hostnames[i].as_str()) {
                    out.push(hostnames[i].clone());
                    assert(out.deep_view() =~= before.push(h));
                }
                i = i + 1;
            }
            assert(hostnames.deep_view().take(hostnames.len() as int) =~= hostnames.deep_view());
            Ok(out)
        },
    }
}

/// The servers named by a query: the values of its `server` keys, in order.
pub open spec fn queried_servers(pairs: Seq<(Seq<char>, Seq<char>)>) -> Seq<Seq<char>>
    decreases pairs.len(),
{
    if pairs.len() == 0 {
        Seq::empty()
    } else {
        let rest = queried_servers(pairs.drop_last());
        if pairs.last().0 == server_key() {
            rest.push(pairs.last().1)
        } else {
            rest
        }
    }
}

/// The query key that names a server.
pub open spec fn server_key() -> Seq<char> {
    seq!['s', 'e', 'r', 'v', 'e', 'r']
}

/// The contents of each key-value pair.
pub open spec fn pair_views(pairs: Seq<(String, String)>) -> Seq<(Seq<char>, Seq<char>)> {
    pairs.map_values(|p: (String, String)| (p.0@, p.1@))
}

/// The servers a request for logs of several servers names.
#[derive(Debug, Clone)]
pub struct ServersLogsRequest {
    pub servers: Vec<String>,
}

impl ServersLogsRequest {
    /// The request a query string's key-value pairs make: each value under
    /// the key `server` names a server, other keys are passed over.
    pub fn from_query_pairs(pairs: Vec<(String, String)>) -> (r: Self)
        ensures
            r.servers.deep_view() == queried_servers(pair_views(pairs@)),
    {
        let mut servers: Vec<String> = Vec::new();
        let key = vec!['s', 'e', 'r', 'v', 'e', 'r'];
        assert(key@ =~= server_key());
        let mut i: usize = 0;
        while i < pairs.len()
            invariant
                i <= pairs.len(),
                key@ == server_key(),
                servers.deep_view() == queried_servers(pair_views(pairs@.take(i as int))),
            decreases pairs.len() - i,
        {
            let ghost before = servers.deep_view();
            proof {
                assert(pair_views(pairs@.take(i + 1)).drop_last() =~= pair_views(pairs@.take(i as int)));
                assert(pair_views(pairs@.take(i + 1)).last() == (pairs@[i as int].0@, pairs@[i as int].1@));
            }
            let (k, v) = &pairs[i];
            if equals_chars(k.as_str(), &key) {
                servers.push(v.clone());
                assert(servers.deep_view() =~= before.push(v@));
            }
            i = i + 1;
        }
        assert(pairs@.take(pairs.len() as int) =~= pairs@);
        ServersLogsRequest { servers }
    }
}

/// What a server answers for, when it could not be asked or its answer
/// could not be read.
pub open spec fn fallback_text() -> Seq<char> {
    "Could not find log file."@
}

/// The entry of one server in a gathered answer: its logs, or the fallback.
pub fn server_entry(result: Option<Vec<String>>) -> (v: Vec<String>)
    ensures
        result matches Some(l) ==> v == l,
        result is None ==> v@.len() == 1 && v@[0]@ == fallback_text(),
{
    match result {
        Some(l) => l,
        None => vec!["Could not find log file.".to_owned()],
    }
}

/// The answer gathered from several servers: each server with its entry,
/// in the order the servers were asked.
pub fn gather_server_logs(servers: Vec<String>, results: Vec<Option<Vec<String>>>) -> (out: Vec<(String, Vec<String>)>)
    requires
        servers@.len() == results@.len(),
    ensures
        out@.len() == servers@.len(),
        forall|i: int| 0 <= i < out@.len() ==> (#[trigger] out@[i]).0 == servers@[i],
        forall|i: int| 0 <= i < out@.len() ==> (results@[i] matches Some(l) ==> (#[trigger] out@[i]).1 == l),
        forall|i: int| 0 <= i < out@.len() ==> (results@[i] is None ==> (#[trigger] out@[i]).1@.len() == 1
            && out@[i].1@[0]@ == fallback_text()),
{
    let mut out: Vec<(String, Vec<String>)> = Vec::new();
    let mut servers = servers;
    let mut results = results;
    let ghost s0 = servers@;
    let ghost r0 = results@;
    let n = servers.len();
    let mut i: usize = 0;
    while i < n
        invariant
            i <= n,
            n == s0.len(),
            n == r0.len(),
            servers@ == s0.skip(i as int),
            results@ == r0.skip(i as int),
            out@.len() == i,
            forall|j: int| 0 <= j < i ==> (#[trigger] out@[j]).0 == s0[j],
            forall|j: int| 0 <= j < i ==> (r0[j] matches Some(l) ==> (#[trigger] out@[j]).1 == l),
            forall|j: int| 0 <= j < i ==> (r0[j] is None ==> (#[trigger] out@[j]).1@.len() == 1
                && out@[j].1@[0]@ == fallback_text()),
        decreases n - i,
    {
        let s = servers.remove(0);
        let r = results.remove(0);
        proof {
            assert(servers@ =~= s0.skip(i + 1));
            assert(results@ =~= r0.skip(i + 1));
        }
        let entry = server_entry(r);
        out.push((s, entry));
        i = i + 1;
    }
    out
}

/// The URL of a server's list of log files.
pub fn logs_url(server: &str) -> (u: String)
    ensures
        u@ == "http://"@ + server@ + "/v1/logs"@,
{
    concat_str(concat_str("http://", server).as_str(), "/v1/logs")
}

/// The URL of one log file on a server.
pub fn log_url(server: &str, filename: &str) -> (u: String)
    ensures
        u@ == "http://"@ + server@ + "/v1/logs/"@ + filename@,
{
    concat_str(concat_str(concat_str("http://", server).as_str(), "/v1/logs/").as_str(), filename)
}

/// The decimal digit for `d`.
pub open spec fn digit(d: nat) -> char {
    (48 + d) as char
}

/// The decimal writing of `n`, without leading zeros.
pub open spec fn decimal(n: nat) -> Seq<char>
    decreases n,
{
    if n < 10 {
        seq![digit(n)]
    } else {
        decimal(n / 10).push(digit(n % 10))
    }
}

/// `n` written in decimal, as `format!("{}", n)` writes it.
pub fn decimal_string(n: usize) -> (s: String)
    ensures
        s@ == decimal(n as nat),
{
    let mut digits: Vec<char> = Vec::new();
    let mut m = n;
    // digits holds the last digits of n, least significant first
    while m >= 10
        invariant
            decimal(n as nat) == decimal(m as nat) + digits@.reverse(),
        decreases m,
    {
        let d = m % 10;
        let c = ((48 + d) as u8) as char;
        proof {
            assert(c == digit(d as nat));
            assert(decimal(m as nat) == decimal((m / 10) as nat).push(digit((m % 10) as nat)));
        }
        let ghost before = digits@;
        digits.push(c);
        proof {
            assert(digits@.reverse() =~= seq![c] + before.reverse());
            assert(decimal((m / 10) as nat).push(c) + before.reverse() =~= decimal((m / 10) as nat) + digits@.reverse());
        }
        m = m / 10;
    }
    let c = ((48 + m) as u8) as char;
    assert(c == digit(m as nat));
    let mut s = String::new();
    push_char(&mut s, c);
    let mut i = digits.len();
    while i > 0
        invariant
            i <= digits.len(),
            s@ + digits@.take(i as int).reverse() == decimal(n as nat),
        decreases i,
    {
        let ghost s0 = s@;
        push_char(&mut s, digits[i - 1]);
        proof {
            assert(digits@.take(i as int).reverse() =~= seq![digits@[i - 1]] + digits@.take(i - 1).reverse());
            assert(s@ + digits@.take(i - 1).reverse() =~= s0 + digits@.take(i as int).reverse());
        }
        i = i - 1;
    }
    assert(digits@.take(0).reverse() =~= Seq::<char>::empty());
    assert(s@ =~= decimal(n as nat));
    s
}

impl LogsRequest {
    /// The query passed on to another server for the same lines: the
    /// pattern, how many to skip and how many to take, with their defaults.
    pub fn query_pairs(&self) -> (q: Vec<(String, String)>)
        ensures
            pair_views(q@) == seq![
                ("pattern"@, self.pattern_text()),
                ("skip"@, decimal(self.skip_count() as nat)),
                ("take"@, decimal(self.take_count() as nat)),
            ],
    {
        let q = vec![
            ("pattern".to_owned(), self.pattern_or_default()),
            ("skip".to_owned(), decimal_string(self.skip_or_default())),
            ("take".to_owned(), decimal_string(self.take_or_default())),
        ];
        assert(pair_views(q@) =~= seq![
            ("pattern"@, self.pattern_text()),
            ("skip"@, decimal(self.skip_count() as nat)),
            ("take"@, decimal(self.take_count() as nat)),
        ]);
        q
    }
}

} // verus!
