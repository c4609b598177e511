//! The browser client's decisions: the requests it makes, the servers it
//! has ticked, what it checks before asking for logs, and how it shows them.
use vstd::prelude::*;
use crate::text::{chars_of, concat_str, string_from_chars, equals_chars};
use crate::servers::{decimal, decimal_string, pair_views};

verus! {

/// `str::to_lowercase`: the Unicode lowercase of a text.
pub uninterp spec fn lowercase(s: Seq<char>) -> Seq<char>;

/// `str::to_lowercase`, which maps each character to its Unicode lowercase.
/// Claimed of it: the result is `lowercase` of the text; the mapping itself
/// is Unicode's and is not stated.
#[verifier::external_body]
fn to_lowercase(s: &str) -> (r: String)
    ensures
        r@ == lowercase(s@),
{
    s.to_lowercase()
}

/// `s` with each space made a dash.
pub open spec fn dashed(s: Seq<char>) -> Seq<char> {
    s.map_values(|c: char| if c == ' ' { '-' } else { c })
}

/// The identifier of a page element named after `value`: lowercase, with
/// dashes for spaces.
pub fn element_id(value: &str) -> (id: String)
    ensures
        id@ == dashed(lowercase(value@)),
{
    let lower = to_lowercase(value);
    let v = chars_of(lower.as_str());
    let mut out: Vec<char> = Vec::new();
    let mut i: usize = 0;
    while i < v.len()
        invariant
            i <= v.len(),
            out@ == dashed(v@.take(i as int)),
        decreases v.len() - i,
    {
        let c = if v[i] == ' ' { '-' } else { v[i] };
        out.push(c);
        i = i + 1;
        assert(out@ =~= dashed(v@.take(i as int)));
    }
    assert(v@.take(v.len() as int) =~= v@);
    string_from_chars(&out)
}

/// The identifiers of a tab named `title`: its button, the target of its
/// button, and its pane.
pub fn tab_ids(title: &str) -> (ids: (String, String, String))
    ensures
        ids.0@ == dashed(lowercase(title@)) + "-tab"@,
        ids.1@ == "#"@ + dashed(lowercase(title@)) + "-tab-pane"@,
        ids.2@ == dashed(lowercase(title@)) + "-tab-pane"@,
{
    let lower = element_id(title);
    let tab = concat_str(lower.as_str(), "-tab");
    let target = concat_str(concat_str("#", lower.as_str()).as_str(), "-tab-pane");
    let pane = concat_str(lower.as_str(), "-tab-pane");
    (tab, target, pane)
}

/// The identifier of the help text of a form input labelled `label`.
pub fn help_id(label: &str) -> (id: String)
    ensures
        id@ == label@ + "Help"@,
{
    concat_str(label, "Help")
}

/// Whether the radio button for `value` is the selected one.
pub fn radio_checked(selected: &Option<String>, value: &str) -> (b: bool)
    ensures
        b == (match selected {
            Some(s) => s@ == value@,
            None => value@.len() == 0,
        }),
{
    match selected {
        Some(s) => {
            let v = chars_of(value);
            equals_chars(s.as_str(), &v)
        },
        None => {
            let v = chars_of(value);
            v.len() == 0
        },
    }
}

/// `s` without the first occurrence of `x`, or `s` when it has none.
pub open spec fn without_first(s: Seq<Seq<char>>, x: Seq<char>) -> Seq<Seq<char>>
    decreases s.len(),
{
    if s.len() == 0 {
        s
    } else if s[0] == x {
        s.drop_first()
    } else {
        seq![s[0]] + without_first(s.drop_first(), x)
    }
}

/// The ticked servers after the box of `server` was ticked (`checked`) or
/// cleared: ticking adds it at the end, clearing removes its first entry.
pub fn toggle_server(servers: Vec<String>, checked: bool, server: String) -> (out: Vec<String>)
    ensures
        checked ==> out.deep_view() == servers.deep_view().push(server@),
        !checked ==> out.deep_view() == without_first(servers.deep_view(), server@),
{
    let ghost orig = servers.deep_view();
    let mut ticked = servers;
    if checked {
        let ghost d0 = ticked.deep_view();
        ticked.push(server);
        assert(ticked.deep_view() =~= d0.push(server@));
        return ticked;
    }
    let target = chars_of(server.as_str());
    let mut i: usize = 0;
    while i < ticked.len()
        invariant
            i <= ticked.len(),
            !checked,
            ticked.deep_view() == orig,
            orig == servers.deep_view(),
            target@ == server@,
            forall|j: int| 0 <= j < i ==> ticked.deep_view()[j] != server@,
        decreases ticked.len() - i,
    {
        if equals_chars(ticked[i].as_str(), &target) {
            let ghost d0 = ticked.deep_view();
            ticked.remove(i);
            proof {
                assert(d0[i as int] == server@);
                assert(d0 == orig);
                lemma_without_first_at(d0, server@, i as int);
                assert(ticked.deep_view() =~= d0.take(i as int) + d0.skip(i + 1));
                assert(ticked.deep_view() == without_first(orig, server@));
            }
            return ticked;
        }
        i = i + 1;
    }
    proof {
        lemma_without_first_absent(ticked.deep_view(), server@);
    }
    ticked
}

/// Removing the first occurrence at `i`.
pub proof fn lemma_without_first_at(s: Seq<Seq<char>>, x: Seq<char>, i: int)
    requires
        0 <= i < s.len(),
        s[i] == x,
        forall|j: int| 0 <= j < i ==> s[j] != x,
    ensures
        without_first(s, x) == s.take(i) + s.skip(i + 1),
    decreases i,
{
    if i == 0 {
        assert(s.take(0) + s.skip(1) =~= s.drop_first());
    } else {
        assert forall|j: int| 0 <= j < i - 1 implies s.drop_first()[j] != x by {
            assert(s.drop_first()[j] == s[j + 1]);
        }
        lemma_without_first_at(s.drop_first(), x, i - 1);
        assert(seq![s[0]] + (s.drop_first().take(i - 1) + s.drop_first().skip(i)) =~= s.take(i) + s.skip(i + 1));
    }
}

/// Removing what is not there changes nothing.
pub proof fn lemma_without_first_absent(s: Seq<Seq<char>>, x: Seq<char>)
    requires
        forall|j: int| 0 <= j < s.len() ==> s[j] != x,
    ensures
        without_first(s, x) == s,
    decreases s.len(),
{
    if s.len() > 0 {
        assert forall|j: int| 0 <= j < s.drop_first().len() implies s.drop_first()[j] != x by {
            assert(s.drop_first()[j] == s[j + 1]);
        }
        lemma_without_first_absent(s.drop_first(), x);
        assert(seq![s[0]] + s.drop_first() =~= s);
    }
}

/// Ticking a server that was not ticked and clearing it again gives back
/// the servers ticked before.
pub proof fn lemma_tick_then_clear(s: Seq<Seq<char>>, x: Seq<char>)
    requires
        !s.contains(x),
    ensures
        without_first(s.push(x), x) == s,
{
    let t = s.push(x);
    assert forall|j: int| 0 <= j < s.len() implies t[j] != x by {
        if t[j] == x {
            assert(s[j] == x);
        }
    }
    lemma_without_first_at(t, x, s.len() as int);
    assert(t.take(s.len() as int) + t.skip(s.len() as int + 1) =~= s);
}

/// The ticked servers after a run of checkbox events, each a box's new
/// state and its server, starting from none: each event applied as
/// `toggle_server` applies it.
pub open spec fn ticked_after(events: Seq<(bool, Seq<char>)>) -> Seq<Seq<char>>
    decreases events.len(),
{
    if events.len() == 0 {
        Seq::empty()
    } else {
        let r = ticked_after(events.drop_last());
        let (checked, server) = events.last();
        if checked {
            r.push(server)
        } else {
            without_first(r, server)
        }
    }
}

/// Whether the box of `server` is ticked after the events.
pub open spec fn box_ticked(events: Seq<(bool, Seq<char>)>, server: Seq<char>) -> bool
    decreases events.len(),
{
    if events.len() == 0 {
        false
    } else if events.last().1 == server {
        events.last().0
    } else {
        box_ticked(events.drop_last(), server)
    }
}

/// The index of the last event that ticked the box of `server`, or -1.
pub open spec fn last_tick(events: Seq<(bool, Seq<char>)>, server: Seq<char>) -> int
    decreases events.len(),
{
    if events.len() == 0 {
        -1
    } else if events.last().1 == server && events.last().0 {
        events.len() - 1
    } else {
        last_tick(events.drop_last(), server)
    }
}

/// Events as checkboxes send them: each one flips its box.
pub open spec fn box_events(events: Seq<(bool, Seq<char>)>) -> bool
    decreases events.len(),
{
    events.len() == 0 || (box_events(events.drop_last()) && events.last().0 == !box_ticked(
        events.drop_last(),
        events.last().1,
    ))
}

/// A tick is an event of the run.
proof fn lemma_last_tick_bound(events: Seq<(bool, Seq<char>)>, server: Seq<char>)
    ensures
        -1 <= last_tick(events, server) < events.len(),
    decreases events.len(),
{
    if events.len() > 0 {
        lemma_last_tick_bound(events.drop_last(), server);
    }
}

/// Whatever checkbox events come, the ticked servers hold each server at
/// most once, are exactly those whose box is ticked, and come in the order
/// in which their boxes were last ticked.
pub proof fn lemma_ticked_servers_follow_boxes(events: Seq<(bool, Seq<char>)>)
    requires
        box_events(events),
    ensures
        forall|i: int, j: int|
            0 <= i < j < ticked_after(events).len() ==> ticked_after(events)[i] != ticked_after(events)[j],
        forall|x: Seq<char>| ticked_after(events).contains(x) <==> box_ticked(events, x),
        forall|i: int, j: int|
            0 <= i < j < ticked_after(events).len() ==> last_tick(events, ticked_after(events)[i]) < last_tick(
                events,
                ticked_after(events)[j],
            ),
    decreases events.len(),
{
    if events.len() > 0 {
        let prev = events.drop_last();
        lemma_ticked_servers_follow_boxes(prev);
        let r = ticked_after(prev);
        let (checked, x) = events.last();
        let r2 = ticked_after(events);
        assert forall|y: Seq<char>| y != x implies box_ticked(events, y) == box_ticked(prev, y)
            && last_tick(events, y) == last_tick(prev, y) by {}
        if checked {
            assert(!r.contains(x));
            assert(r2 == r.push(x));
            assert forall|y: Seq<char>| r2.contains(y) <==> box_ticked(events, y) by {
                if y != x && r2.contains(y) {
                    let k = choose|k: int| 0 <= k < r2.len() && r2[k] == y;
                    assert(r[k] == y);
                }
                if y != x && r.contains(y) {
                    let k = choose|k: int| 0 <= k < r.len() && r[k] == y;
                    assert(r2[k] == y);
                }
                if y == x {
                    assert(r2[r.len() as int] == x);
                }
            }
            assert forall|i: int, j: int| 0 <= i < j < r2.len() implies last_tick(events, r2[i]) < last_tick(
                events,
                r2[j],
            ) by {
                if j == r.len() {
                    assert(r2[i] == r[i]);
                    assert(r[i] != x);
                    lemma_last_tick_bound(prev, r[i]);
                } else {
                    assert(r2[i] == r[i] && r2[j] == r[j]);
                    assert(r[i] != x) by {
                        assert(r.contains(r[i]));
                    }
                    assert(r[j] != x) by {
                        assert(r.contains(r[j]));
                    }
                }
            }
            assert forall|i: int, j: int| 0 <= i < j < r2.len() implies r2[i] != r2[j] by {
                if j == r.len() {
                    assert(r.contains(r[i]));
                } else {
                    assert(r2[i] == r[i] && r2[j] == r[j]);
                }
            }
        } else {
            assert(r.contains(x));
            let k = choose|k: int| 0 <= k < r.len() && r[k] == x;
            assert forall|j: int| 0 <= j < k implies r[j] != x by {}
            lemma_without_first_at(r, x, k);
            assert(r2 == r.take(k) + r.skip(k + 1));
            assert forall|i: int| 0 <= i < r2.len() implies #[trigger] r2[i] == (if i < k {
                r[i]
            } else {
                r[i + 1]
            }) by {}
            assert forall|y: Seq<char>| r2.contains(y) <==> box_ticked(events, y) by {
                if r2.contains(y) {
                    let m = choose|m: int| 0 <= m < r2.len() && r2[m] == y;
                    if m < k {
                        assert(r[m] == y);
                        assert(m != k);
                    } else {
                        assert(r[m + 1] == y);
                    }
                    assert(y != x);
                    assert(r.contains(y));
                }
                if y != x && r.contains(y) {
                    let m = choose|m: int| 0 <= m < r.len() && r[m] == y;
                    assert(m != k);
                    if m < k {
                        assert(r2[m] == y);
                    } else {
                        assert(r2[m - 1] == y);
                    }
                }
            }
            assert forall|i: int, j: int| 0 <= i < j < r2.len() implies r2[i] != r2[j] && last_tick(
                events,
                r2[i],
            ) < last_tick(events, r2[j]) by {
                let i2 = if i < k { i } else { i + 1 };
                let j2 = if j < k { j } else { j + 1 };
                assert(r2[i] == r[i2] && r2[j] == r[j2]);
                assert(i2 != k && j2 != k);
                assert(r[i2] != x && r[j2] != x);
            }
        }
    }
}

/// The value of a count typed into a form: an optional `+` and then
/// decimal digits only; `None` for anything else.
pub open spec fn count_text(s: Seq<char>) -> Option<int> {
    let d = if s.len() > 0 && s[0] == '+' { s.drop_first() } else { s };
    if d.len() > 0 && all_digits(d) { Some(digits_value(d)) } else { None }
}

/// Every character is a decimal digit.
pub open spec fn all_digits(s: Seq<char>) -> bool {
    forall|i: int| 0 <= i < s.len() ==> 48 <= (#[trigger] s[i] as u32) <= 57
}

/// The number that decimal digits write.
pub open spec fn digits_value(s: Seq<char>) -> int
    decreases s.len(),
{
    if s.len() == 0 {
        0
    } else {
        digits_value(s.drop_last()) * 10 + (s.last() as u32 - 48)
    }
}

/// `str::parse::<usize>`: documented to take an optional `+` followed by
/// digits only, and to fail when the value does not fit. Claimed of it
/// exactly that.
#[verifier::external_body]
fn parse_usize(s: &str) -> (r: Option<usize>)
    ensures
        match count_text(s@) {
            Some(v) => if v <= usize::MAX { r == Some(v as usize) } else { r is None },
            None => r is None,
        },
{
    s.parse::<usize>().ok()
}

/// The skip or take count typed into the form, or `None` when the text is
/// not a count.
pub fn parse_count(value: &str) -> (r: Option<usize>)
    ensures
        match count_text(value@) {
            Some(v) => if v <= usize::MAX { r == Some(v as usize) } else { r is None },
            None => r is None,
        },
{
    parse_usize(value)
}

/// The message shown when no log file was chosen.
pub open spec fn no_logfile_text() -> Seq<char> {
    "You must select a logfile."@
}

/// The message shown when no server was ticked.
pub open spec fn no_server_text() -> Seq<char> {
    "You must select at least 1 server."@
}

/// Checks what is to be asked for before asking: a log file must be chosen
/// and at least one server ticked. Gives the chosen file.
pub fn check_submission(logfile: &Option<String>, servers: &Vec<String>) -> (r: Result<String, String>)
    ensures
        logfile is None ==> (r matches Err(m) && m@ == no_logfile_text()),
        logfile is Some && servers@.len() == 0 ==> (r matches Err(m) && m@ == no_server_text()),
        logfile matches Some(f) ==> (servers@.len() > 0 ==> (r matches Ok(g) && g@ == f@)),
{
    match logfile {
        None => Err("You must select a logfile.".to_owned()),
        Some(f) => {
            if servers.len() == 0 {
                Err("You must select at least 1 server.".to_owned())
            } else {
                Ok(f.clone())
            }
        },
    }
}

/// `parts` joined by `sep`.
pub open spec fn joined(parts: Seq<Seq<char>>, sep: Seq<char>) -> Seq<char>
    decreases parts.len(),
{
    if parts.len() == 0 {
        Seq::empty()
    } else if parts.len() == 1 {
        parts[0]
    } else {
        joined(parts.drop_last(), sep) + sep + parts.last()
    }
}

/// The total length of the parts.
pub open spec fn total_len(parts: Seq<Seq<char>>) -> int
    decreases parts.len(),
{
    if parts.len() == 0 {
        0
    } else {
        total_len(parts.drop_last()) + parts.last().len()
    }
}

/// Joining puts `sep` between every two parts, whatever they hold, empty
/// ones included: one more part adds `sep` and that part, and the joined
/// text is as long as the parts together with one `sep` fewer than parts.
pub proof fn lemma_join_separates_every_part(parts: Seq<Seq<char>>, x: Seq<char>, sep: Seq<char>)
    ensures
        parts.len() >= 1 ==> joined(parts.push(x), sep) == joined(parts, sep) + sep + x,
        joined(seq![x], sep) == x,
        parts.len() >= 1 ==> joined(parts, sep).len() == total_len(parts) + (parts.len() - 1) * sep.len(),
    decreases parts.len(),
{
    let q = parts.push(x);
    assert(q.drop_last() =~= parts);
    assert(seq![x].drop_last() =~= Seq::<Seq<char>>::empty());
    if parts.len() == 1 {
        assert((parts.len() - 1) * sep.len() == 0) by (nonlinear_arith)
            requires parts.len() == 1;
        assert(parts.drop_last() =~= Seq::<Seq<char>>::empty());
        assert(total_len(parts.drop_last()) == 0);
        assert(total_len(parts) == parts[0].len());
        assert(joined(parts, sep) == parts[0]);
    }
    if parts.len() >= 2 {
        lemma_join_separates_every_part(parts.drop_last(), parts.last(), sep);
        assert(parts.drop_last().push(parts.last()) =~= parts);
        let dl = parts.drop_last();
        let n: int = parts.len() - 1;
        let k: int = sep.len() as int;
        assert(dl.len() == n);
        assert(joined(dl, sep).len() == total_len(dl) + (n - 1) * k);
        assert(joined(parts, sep) == joined(dl, sep) + sep + parts.last());
        assert(total_len(parts) == total_len(dl) + parts.last().len());
        assert((n - 1) * k + k == n * k) by (nonlinear_arith);
        assert(joined(parts, sep).len() == total_len(parts) + n * k);
        assert((parts.len() - 1) * sep.len() == n * k);
    }
}

/// The strings of `parts` joined by `sep`.
pub fn join(parts: &Vec<String>, sep: &str) -> (s: String)
    ensures
        s@ == joined(parts.deep_view(), sep@),
{
    let mut s = String::new();
    let mut i: usize = 0;
    while i < parts.len()
        invariant
            i <= parts.len(),
            s@ == joined(parts.deep_view().take(i as int), sep@),
        decreases parts.len() - i,
    {
        let ghost s0 = s@;
        let ghost p = parts.deep_view().take(i + 1);
        proof {
            assert(p.drop_last() =~= parts.deep_view().take(i as int));
            assert(p.last() == parts@[i as int]@);
        }
        if i > 0 {
            s.append(sep);
        }
        s.append(parts[i].as_str());
        proof {
            if i == 0 {
                assert(s@ =~= p[0]);
            } else {
                assert(s@ =~= s0 + sep@ + p.last());
            }
        }
        i = i + 1;
    }
    assert(parts.deep_view().take(parts.len() as int) =~= parts.deep_view());
    s
}

/// The block showing one server's lines: a rule, the server, a rule, then
/// its lines.
pub open spec fn server_block(server: Seq<char>, lines: Seq<Seq<char>>) -> Seq<char> {
    joined(seq!["---"@, server, "---"@, joined(lines, "\t\n"@)], "\n"@)
}

/// What the client shows of the lines gathered from several servers.
pub open spec fn shown_logs(entries: Seq<(Seq<char>, Seq<Seq<char>>)>) -> Seq<char> {
    joined(entries.map_values(|e: (Seq<char>, Seq<Seq<char>>)| server_block(e.0, e.1)), "\n"@)
}

/// The contents of each entry.
pub open spec fn entry_views(entries: Seq<(String, Vec<String>)>) -> Seq<(Seq<char>, Seq<Seq<char>>)> {
    entries.map_values(|e: (String, Vec<String>)| (e.0@, e.1.deep_view()))
}

/// What the client shows of the lines gathered from several servers.
pub fn format_server_logs(entries: &Vec<(String, Vec<String>)>) -> (s: String)
    ensures
        s@ == shown_logs(entry_views(entries@)),
{
    let mut blocks: Vec<String> = Vec::new();
    let mut i: usize = 0;
    while i < entries.len()
        invariant
            i <= entries.len(),
            blocks.deep_view() == entry_views(entries@.take(i as int)).map_values(
                |e: (Seq<char>, Seq<Seq<char>>)| server_block(e.0, e.1),
            ),
        decreases entries.len() - i,
    {
        let (server, lines) = &entries[i];
        let body = join(lines, "\t\n");
        let parts = vec!["---".to_owned(), server.clone(), "---".to_owned(), body];
        let block = join(&parts, "\n");
        proof {
            assert(parts.deep_view() =~= seq!["---"@, server@, "---"@, joined(lines.deep_view(), "\t\n"@)]);
        }
        let ghost b0 = blocks.deep_view();
        blocks.push(block);
        proof {
            assert(blocks.deep_view() =~= b0.push(block@));
            assert(entry_views(entries@.take(i + 1)) =~= entry_views(entries@.take(i as int)).push((server@, lines.deep_view())));
        }
        i = i + 1;
        assert(blocks.deep_view() =~= entry_views(entries@.take(i as int)).map_values(
            |e: (Seq<char>, Seq<Seq<char>>)| server_block(e.0, e.1),
        ));
    }
    assert(entries@.take(entries.len() as int) =~= entries@);
    join(&blocks, "\n")
}

/// What the client asks the server for when looking at one log file on
/// several servers.
#[derive(Debug, Clone)]
pub struct GetLogsRequest {
    pub filename: String,
    pub servers: Vec<String>,
    pub pattern: String,
    pub skip: usize,
    pub take: usize,
}

/// The client's connection to the server: the `Authorization` header it
/// sends.
#[derive(Debug, Clone)]
pub struct VarlogClient {
    token: String,
}

/// The message shown when a request could not be made or its answer read.
pub open spec fn snag_text() -> Seq<char> {
    "Looks like we hit a snag.."@
}

impl VarlogClient {
    /// The `Authorization` header the client sends.
    pub closed spec fn header(&self) -> Seq<char> {
        self.token@
    }

    /// A client holding `token`: it sends `Bearer ` and the token.
    pub fn new(token: &str) -> (c: Self)
        ensures
            c.header() == "Bearer "@ + token@,
    {
        VarlogClient { token: concat_str("Bearer ", token) }
    }

    /// The `Authorization` header the client sends.
    pub fn authorization(&self) -> (s: &str)
        ensures
            s@ == self.header(),
    {
        self.token.as_str()
    }

    /// The path of the request for a log file on several servers.
    pub fn servers_log_path(req: &GetLogsRequest) -> (p: String)
        ensures
            p@ == "/v1/servers/logs/"@ + req.filename@,
    {
        concat_str("/v1/servers/logs/", req.filename.as_str())
    }

    /// The query of the request for a log file on several servers: a
    /// `server` pair for each server, then the pattern, the skip and the take.
    pub fn servers_log_query(req: &GetLogsRequest) -> (q: Vec<(String, String)>)
        ensures
            pair_views(q@) == req.servers.deep_view().map_values(|s: Seq<char>| ("server"@, s)) + seq![
                ("pattern"@, req.pattern@),
                ("skip"@, decimal(req.skip as nat)),
                ("take"@, decimal(req.take as nat)),
            ],
    {
        let mut q: Vec<(String, String)> = Vec::new();
        let mut i: usize = 0;
        while i < req.servers.len()
            invariant
                i <= req.servers.len(),
                pair_views(q@) == req.servers.deep_view().take(i as int).map_values(|s: Seq<char>| ("server"@, s)),
            decreases req.servers.len() - i,
        {
            let ghost q0 = pair_views(q@);
            q.push(("server".to_owned(), req.servers[i].clone()));
            proof {
                assert(pair_views(q@) =~= q0.push(("server"@, req.servers@[i as int]@)));
                assert(req.servers.deep_view().take(i + 1).map_values(|s: Seq<char>| ("server"@, s))
                    =~= req.servers.deep_view().take(i as int).map_values(|s: Seq<char>| ("server"@, s)).push(("server"@, req.servers@[i as int]@)));
            }
            i = i + 1;
        }
        assert(req.servers.deep_view().take(req.servers.len() as int) =~= req.servers.deep_view());
        let ghost q0 = pair_views(q@);
        q.push(("pattern".to_owned(), req.pattern.clone()));
        q.push(("skip".to_owned(), decimal_string(req.skip)));
        q.push(("take".to_owned(), decimal_string(req.take)));
        assert(pair_views(q@) =~= q0 + seq![
            ("pattern"@, req.pattern@),
            ("skip"@, decimal(req.skip as nat)),
            ("take"@, decimal(req.take as nat)),
        ]);
        q
    }

    /// The outcome of a request, given whether it could be sent, the answer
    /// read as the expected data, and the answer read as an error message.
    /// An answer that is not the expected data shows the server's error
    /// message when it carries one, and the snag message otherwise.
    pub fn resolve<T>(sent: bool, data: Option<T>, error: Option<String>) -> (r: Result<T, String>)
        ensures
            !sent ==> (r matches Err(m) && m@ == snag_text()),
            sent && data is Some ==> r == Ok::<T, String>(data->0),
            sent && data is None && error is Some ==> r == Err::<T, String>(error->0),
            sent && data is None && error is None ==> (r matches Err(m) && m@ == snag_text()),
    {
        if !sent {
            return Err("Looks like we hit a snag..".to_owned());
        }
        match data {
            Some(d) => Ok(d),
            None => match error {
                Some(e) => Err(e),
                None => Err("Looks like we hit a snag..".to_owned()),
            },
        }
    }
}

/// What the client sends to ask for access: one log path pattern and one
/// server pattern.
#[derive(Debug, Clone)]
pub struct AuthRequest {
    pub paths: Vec<String>,
    pub servers: Vec<String>,
}

impl AuthRequest {
    /// The request for the patterns typed into the form.
    pub fn from_inputs(logs: String, servers: String) -> (r: Self)
        ensures
            r.paths@ == seq![logs],
            r.servers@ == seq![servers],
    {
        AuthRequest { paths: vec![logs], servers: vec![servers] }
    }
}

/// A user's name and password, as a sign-in form holds them.
#[derive(Debug, Clone, PartialEq, Eq)]
pub struct UserDetails {
    pub username: String,
    pub password: String,
}

/// The token the server answers with, and when it expires.
#[derive(Debug, Clone)]
pub struct AuthResponse {
    pub token: String,
    pub expires: u64,
}

} // verus!
