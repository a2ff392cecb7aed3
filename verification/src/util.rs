//! The server's host dispatch and request-metrics bookkeeping: which router
//! or redirect a request's host selects, how a redirect target and a metrics
//! handler name are spelled, and how long a duration reads in words.

use vstd::prelude::*;
use vstd::string::StringExecFns;

use crate::text;

verus! {

/// What a host resolves to: one of the registered routers, or a redirect to
/// another host.
pub enum HostAction {
    Serve { slot: usize },
    RedirectTo { host: String },
}

/// The abstract value of a host action.
pub open spec fn spec_action_view(a: HostAction) -> (Option<int>, Seq<char>) {
    match a {
        HostAction::Serve { slot } => (Option::Some(slot as int), Seq::empty()),
        HostAction::RedirectTo { host } => (Option::None, host@),
    }
}

/// The action the table's entries give a host: the first entry whose name
/// matches, so that a later registration shadows an earlier one.
pub open spec fn spec_table_lookup(entries: Seq<(Seq<char>, (Option<int>, Seq<char>))>, host: Seq<
    char,
>) -> Option<(Option<int>, Seq<char>)>
    decreases entries.len(),
{
    if entries.len() == 0 {
        Option::None
    } else if entries[0].0 == host {
        Option::Some(entries[0].1)
    } else {
        spec_table_lookup(entries.subrange(1, entries.len() as int), host)
    }
}

/// A table with redirect entries for a run of aliases prepended, later
/// aliases first.
pub open spec fn spec_redirects(
    entries: Seq<(Seq<char>, (Option<int>, Seq<char>))>,
    host: Seq<char>,
    aliases: Seq<Seq<char>>,
) -> Seq<(Seq<char>, (Option<int>, Seq<char>))>
    decreases aliases.len(),
{
    if aliases.len() == 0 {
        entries
    } else {
        seq![(aliases.last(), (Option::<int>::None, host))] + spec_redirects(
            entries,
            host,
            aliases.drop_last(),
        )
    }
}

/// What registering a host with aliases leaves in the table: the serving
/// entry for the host, then one redirect per alias, each shadowing
/// whatever came before.
pub open spec fn spec_add_entries(
    entries: Seq<(Seq<char>, (Option<int>, Seq<char>))>,
    host: Seq<char>,
    aliases: Seq<Seq<char>>,
    slot: int,
) -> Seq<(Seq<char>, (Option<int>, Seq<char>))> {
    spec_redirects(
        seq![(host, (Option::Some(slot), Seq::<char>::empty()))] + entries,
        host,
        aliases,
    )
}

/// A table dispatching requests by their host name, as the server's
/// multiplexer does: hosts map to routers or to host redirects, and a host
/// the table does not know falls through to the caller's fallback.
pub struct HostTable {
    entries: Vec<(String, HostAction)>,
}

impl HostTable {
    /// The table's entries, by view, newest first.
    pub closed spec fn entries_view(&self) -> Seq<(Seq<char>, (Option<int>, Seq<char>))> {
        self.entries@.map_values(|e: (String, HostAction)| (e.0@, spec_action_view(e.1)))
    }

    /// An empty table: every host falls through.
    pub fn new() -> (r: HostTable)
        ensures
            r.entries_view() =~= Seq::<(Seq<char>, (Option<int>, Seq<char>))>::empty(),
    {
        let r = HostTable { entries: Vec::new() };
        proof {
            assert(r.entries_view() =~= Seq::<(Seq<char>, (Option<int>, Seq<char>))>::empty());
        }
        r
    }

    /// Routes a host to the router in `slot`, shadowing any earlier entry
    /// for it.
    pub fn handle(&mut self, host: String, slot: usize)
        ensures
            final(self).entries_view() =~= seq![(host@, (Option::Some(slot as int), Seq::<
                char,
            >::empty()))] + old(self).entries_view(),
    {
        self.entries.insert(0, (host, HostAction::Serve { slot }));
    }

    /// Redirects requests for `from` to the host `to`, shadowing any earlier
    /// entry for `from`.
    pub fn redirect_temporary(&mut self, from: String, to: String)
        ensures
            final(self).entries_view() =~= seq![(from@, (Option::<int>::None, to@))] + old(
                self,
            ).entries_view(),
    {
        self.entries.insert(0, (from, HostAction::RedirectTo { host: to }));
    }

    /// Routes a host to the router in `slot` and redirects every alias to
    /// it, as [`spec_add_entries`] lays the entries out.
    pub fn add(&mut self, host: String, aliases: Vec<String>, slot: usize)
        ensures
            final(self).entries_view() =~= spec_add_entries(
                old(self).entries_view(),
                host@,
                aliases@.map_values(|a: String| a@),
                slot as int,
            ),
    {
        let ghost alias_views = aliases@.map_values(|a: String| a@);
        self.handle(host.clone(), slot);
        let n = aliases.len();
        proof {
            assert(alias_views.subrange(0, 0) =~= Seq::<Seq<char>>::empty());
            assert(self.entries_view() =~= spec_redirects(
                seq![(host@, (Option::Some(slot as int), Seq::<char>::empty()))] + old(
                    self,
                ).entries_view(),
                host@,
                alias_views.subrange(0, 0),
            ));
        }
        let mut i: usize = 0;
        while i < n
            invariant
                n == aliases@.len(),
                alias_views == aliases@.map_values(|a: String| a@),
                i <= n,
                self.entries_view() =~= spec_redirects(
                    seq![(host@, (Option::Some(slot as int), Seq::<char>::empty()))] + old(
                        self,
                    ).entries_view(),
                    host@,
                    alias_views.subrange(0, i as int),
                ),
            decreases n - i,
        {
            let ghost before = self.entries_view();
            self.redirect_temporary(aliases[i].clone(), host.clone());
            proof {
                assert(alias_views.subrange(0, i + 1).drop_last() =~= alias_views.subrange(
                    0,
                    i as int,
                ));
                assert(alias_views.subrange(0, i + 1).last() == alias_views[i as int]);
                assert(self.entries_view() =~= spec_redirects(
                    seq![(host@, (Option::Some(slot as int), Seq::<char>::empty()))] + old(
                        self,
                    ).entries_view(),
                    host@,
                    alias_views.subrange(0, i + 1),
                ));
            }
            i = i + 1;
        }
        proof {
            assert(alias_views.subrange(0, n as int) =~= alias_views);
        }
    }

    /// The action registered for `host`, if any: the most recent entry wins.
    pub fn lookup(&self, host: &str) -> (r: Option<HostAction>)
        ensures
            match r {
                Option::Some(a) => spec_table_lookup(self.entries_view(), host@)
                    == Option::Some(spec_action_view(a)),
                Option::None => spec_table_lookup(self.entries_view(), host@) is None,
            },
    {
        let n = self.entries.len();
        proof {
            assert(self.entries_view().subrange(0, n as int) =~= self.entries_view());
        }
        let mut i: usize = 0;
        while i < n
            invariant
                n == self.entries@.len(),
                i <= n,
                spec_table_lookup(self.entries_view(), host@) == spec_table_lookup(
                    self.entries_view().subrange(i as int, n as int),
                    host@,
                ),
            decreases n - i,
        {
            let ghost rem = self.entries_view().subrange(i as int, n as int);
            proof {
                assert(rem[0] == self.entries_view()[i as int]);
                assert(rem.subrange(1, rem.len() as int) =~= self.entries_view().subrange(
                    i + 1,
                    n as int,
                ));
            }
            if text::str_eq(self.entries[i].0.as_str(), host) {
                let action = match &self.entries[i].1 {
                    HostAction::Serve { slot } => HostAction::Serve { slot: *slot },
                    HostAction::RedirectTo { host: h } => HostAction::RedirectTo {
                        host: h.clone(),
                    },
                };
                proof {
                    assert(spec_action_view(action) == spec_action_view(
                        self.entries@[i as int].1,
                    ));
                }
                return Some(action);
            }
            i = i + 1;
        }
        proof {
            assert(spec_table_lookup(
                self.entries_view().subrange(n as int, n as int),
                host@,
            ) is None);
        }
        None
    }
}

/// The address a host redirect sends a request to: the target host with the
/// request's own path and query.
pub fn redirect_target(to: &str, path_and_query: &str) -> (r: String)
    ensures
        r@ == "https://"@ + to@ + path_and_query@,
{
    let mut r: String = "https://".to_owned();
    r.append(to);
    r.append(path_and_query);
    r
}

/// The host a request addresses: the one in its request target when there
/// is one, else the one in its `Host` header.
pub fn request_host(uri_host: Option<String>, header_host: Option<String>) -> (r: Option<String>)
    ensures
        match (uri_host, header_host) {
            (Option::Some(u), _) => r == Option::Some(u),
            (Option::None, h) => r == h,
        },
{
    match uri_host {
        Some(u) => Some(u),
        None => header_host,
    }
}

/// The label under which a request is counted: its host (empty when absent)
/// followed by its path and query (a bare slash when absent).
pub fn handler_name(host: Option<&str>, path_and_query: Option<&str>) -> (r: String)
    ensures
        r@ == (match host {
            Option::Some(h) => h@,
            Option::None => Seq::<char>::empty(),
        }) + (match path_and_query {
            Option::Some(p) => p@,
            Option::None => "/"@,
        }),
{
    let mut r: String = match host {
        Some(h) => h.to_owned(),
        None => {
            let e = String::new();
            e
        },
    };
    match path_and_query {
        Some(p) => r.append(p),
        None => r.append("/"),
    }
    r
}

/// The query string of forwarded parameters: a question mark before the
/// first pair, ampersands before the rest.
pub open spec fn spec_query_params(params: Seq<(Seq<char>, Seq<char>)>, first: bool) -> Seq<char>
    decreases params.len(),
{
    if params.len() == 0 {
        Seq::empty()
    } else {
        (if first {
            "?"@
        } else {
            "&"@
        }) + params[0].0 + "="@ + params[0].1 + spec_query_params(
            params.subrange(1, params.len() as int),
            false,
        )
    }
}

/// The address a clone of a project's repository is redirected to: the
/// project's upstream refs endpoint, with the request's own parameters
/// forwarded.
pub fn clone_refs_url(project: &str, params: &Vec<(String, String)>) -> (r: String)
    ensures
        r@ == "https://github.com/"@ + project@ + ".git/info/refs"@ + spec_query_params(
            params@.map_values(|p: (String, String)| (p.0@, p.1@)),
            true,
        ),
{
    let ghost all = params@.map_values(|p: (String, String)| (p.0@, p.1@));
    let mut r: String = "https://github.com/".to_owned();
    r.append(project);
    r.append(".git/info/refs");
    let n = params.len();
    proof {
        assert(all.subrange(0, n as int) =~= all);
    }
    let mut i: usize = 0;
    while i < n
        invariant
            n == params@.len(),
            all == params@.map_values(|p: (String, String)| (p.0@, p.1@)),
            i <= n,
            r@ + spec_query_params(all.subrange(i as int, n as int), i == 0) == "https://github.com/"@
                + project@ + ".git/info/refs"@ + spec_query_params(all, true),
        decreases n - i,
    {
        let ghost rem = all.subrange(i as int, n as int);
        proof {
            assert(rem[0] == all[i as int]);
            assert(rem.subrange(1, rem.len() as int) =~= all.subrange(i + 1, n as int));
        }
        if i == 0 {
            r.append("?");
        } else {
            r.append("&");
        }
        r.append(params[i].0.as_str());
        r.append("=");
        r.append(params[i].1.as_str());
        i = i + 1;
    }
    proof {
        assert(spec_query_params(all.subrange(n as int, n as int), n == 0) =~= Seq::<
            char,
        >::empty());
        assert(r@ =~= "https://github.com/"@ + project@ + ".git/info/refs"@ + spec_query_params(
            all,
            true,
        ));
    }
    r
}

/// True when `status` is an HTTP status code whose request is counted: a
/// success (2xx) or a redirection (3xx).
pub fn should_record_request(status: u16) -> (r: bool)
    ensures
        r == (200 <= status < 400),
{
    200 <= status && status < 400
}

/// The middleware that counts handled requests; the counting itself happens
/// in the service wrapper around the routers.
pub struct MetricsLayer {}

impl MetricsLayer {
    /// The layer carries no state of its own.
    pub fn new() -> (r: MetricsLayer) {
        MetricsLayer {  }
    }
}

/// How a duration reads in words, to the granularity the firehose page
/// shows: minutes below an hour, hours above, with the hour count rounded
/// up whenever the total minutes reach thirty — so exactly one hour
/// already reads as two.
pub open spec fn spec_fmtduration(secs: int) -> Seq<char> {
    let minutes = secs / 60;
    let hours = secs / 3600;
    let half_past = minutes >= 30;
    if hours == 0 {
        if minutes == 1 {
            "minute"@
        } else {
            text::spec_decimal(minutes) + " minutes"@
        }
    } else if hours == 1 && !half_past {
        "hour"@
    } else {
        text::spec_decimal(hours + (if half_past {
            1int
        } else {
            0int
        })) + " hours"@
    }
}

/// Renders a duration in words, as [`spec_fmtduration`] defines it.
pub fn fmtduration(secs: u64) -> (r: String)
    ensures
        r@ == spec_fmtduration(secs as int),
{
    let minutes = secs / 60;
    let hours = secs / 3600;
    let half_past = minutes >= 30;
    if hours == 0 {
        if minutes == 1 {
            "minute".to_owned()
        } else {
            let mut r = text::u64_to_string(minutes);
            r.append(" minutes");
            r
        }
    } else if hours == 1 && !half_past {
        "hour".to_owned()
    } else {
        let extra: u64 = if half_past {
            1
        } else {
            0
        };
        let mut r = text::u64_to_string(hours + extra);
        r.append(" hours");
        r
    }
}

} // verus!
