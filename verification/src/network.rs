//! The known relays of the network map.

use vstd::prelude::*;

use vstd::string::StrSliceExecFns;

use crate::text;

verus! {

/// One relay: its display name, region, host, and whether the main operator
/// runs it, which its host's domain reveals.
pub struct Relay {
    pub name: String,
    pub region: String,
    pub host: String,
    pub bsky_operated: bool,
}

impl Relay {
    /// A relay from its name, region and host; the operator flag is read
    /// off the host's domain suffix.
    pub fn new(name: String, region: String, host: String) -> (r: Relay)
        ensures
            r.name@ == name@,
            r.region@ == region@,
            r.host@ == host@,
            r.bsky_operated == text::spec_ends_with(host@, ".bsky.network"@),
    {
        let bsky_operated = text::ends_with(host.as_str(), ".bsky.network");
        Relay { name, region, host, bsky_operated }
    }
}

/// One labeler of the network map.
pub struct Labeler {
    pub name: String,
    pub likes: u64,
    pub bsky_operated: bool,
}

/// One feed generator of the network map.
pub struct Feed {
    pub name: String,
    pub likes: u64,
    pub bsky_operated: bool,
}

/// A whitespace character, as string trimming recognizes one, by scalar
/// value.
pub open spec fn spec_is_whitespace(c: char) -> bool {
    ||| c as u32 == 32
    ||| (9 <= c as u32 && c as u32 <= 13)
    ||| c as u32 == 0x85
    ||| c as u32 == 0xa0
    ||| c as u32 == 0x1680
    ||| (0x2000 <= c as u32 && c as u32 <= 0x200a)
    ||| c as u32 == 0x2028
    ||| c as u32 == 0x2029
    ||| c as u32 == 0x202f
    ||| c as u32 == 0x205f
    ||| c as u32 == 0x3000
}

/// Blank: empty, or whitespace through and through.
pub open spec fn spec_blank(s: Seq<char>) -> bool {
    forall|i: int| 0 <= i < s.len() ==> spec_is_whitespace(#[trigger] s[i])
}

/// Whether a string is blank, as [`spec_blank`] defines it.
pub fn is_blank(s: &str) -> (r: bool)
    ensures
        r == spec_blank(s@),
{
    let n = s.unicode_len();
    let mut i: usize = 0;
    while i < n
        invariant
            n == s@.len(),
            i <= n,
            forall|k: int| 0 <= k < i ==> spec_is_whitespace(#[trigger] s@[k]),
        decreases n - i,
    {
        let c = s.get_char(i);
        let u = c as u32;
        let white = u == 32 || (9 <= u && u <= 13) || u == 0x85 || u == 0xa0 || u == 0x1680 || (
        0x2000 <= u && u <= 0x200a) || u == 0x2028 || u == 0x2029 || u == 0x202f || u == 0x205f
            || u == 0x3000;
        if !white {
            return false;
        }
        i = i + 1;
    }
    true
}

/// The display name a labeler or feed row shows: the creator's display
/// name, unless it is blank, in which case the handle stands in.
pub open spec fn spec_row_name(display_name: Option<Seq<char>>, handle: Seq<char>) -> Seq<char> {
    match display_name {
        Option::Some(n) => {
            if spec_blank(n) {
                handle
            } else {
                n
            }
        },
        Option::None => handle,
    }
}

impl Labeler {
    /// The map row a fetched labeler yields: labelers that label nothing
    /// are dropped unless the main operator runs them (some of those only
    /// serve regional labels), as are labelers without a valid handle.
    pub fn from_service(
        handle: String,
        display_name: Option<String>,
        has_labels: bool,
        likes: u64,
    ) -> (r: Option<Labeler>)
        ensures
            ({
                let operated = text::spec_ends_with(handle@, ".bsky.app"@);
                let dn = (match display_name {
                    Option::Some(n) => Option::Some(n@),
                    Option::None => Option::<Seq<char>>::None,
                });
                if !has_labels && !operated {
                    r is None
                } else if handle@ == "handle.invalid"@ {
                    r is None
                } else {
                    match r {
                        Option::Some(l) => l.name@ == spec_row_name(dn, handle@) && l.likes
                            == likes && l.bsky_operated == operated,
                        Option::None => false,
                    }
                }
            }),
    {
        let bsky_operated = text::ends_with(handle.as_str(), ".bsky.app");
        if !has_labels && !bsky_operated {
            return None;
        }
        let name = match &display_name {
            Some(n) => {
                if is_blank(n.as_str()) {
                    handle.clone()
                } else {
                    n.clone()
                }
            },
            None => handle.clone(),
        };
        if text::str_eq(handle.as_str(), "handle.invalid") {
            None
        } else {
            Some(Labeler { name, likes, bsky_operated })
        }
    }
}

impl Feed {
    /// The map row a suggested feed yields: its display name, its likes
    /// (zero when uncounted), and whether the main operator publishes it.
    pub fn from_service(display_name: String, like_count: Option<u64>, creator_handle: &str) -> (r:
        Feed)
        ensures
            r.name@ == display_name@,
            r.likes == (match like_count {
                Option::Some(n) => n,
                Option::None => 0u64,
            }),
            r.bsky_operated == text::spec_ends_with(creator_handle@, "bsky.app"@),
    {
        let likes = match like_count {
            Some(n) => n,
            None => 0,
        };
        let bsky_operated = text::ends_with(creator_handle, "bsky.app");
        Feed { name: display_name, likes, bsky_operated }
    }
}

/// One personal data server observed through the relays: its host name,
/// the largest account count any relay reported for it, and the relays it
/// was seen on.
pub struct Pds {
    pub hostname: String,
    pub account_count: u64,
    pub relays: Vec<usize>,
}

/// The abstract value of an observed server.
pub struct PdsV {
    pub hostname: Seq<char>,
    pub account_count: int,
    pub relays: Seq<usize>,
}

impl View for Pds {
    type V = PdsV;

    open spec fn view(&self) -> PdsV {
        PdsV {
            hostname: self.hostname@,
            account_count: self.account_count as int,
            relays: self.relays@,
        }
    }
}

/// One relay's report of a host folded into the observed servers: a known
/// host keeps the larger account count and gains the relay if it is new;
/// an unknown host joins the list with just this relay.
pub open spec fn spec_add_host(
    entries: Seq<PdsV>,
    hostname: Seq<char>,
    count: int,
    relay: usize,
) -> Seq<PdsV>
    decreases entries.len(),
{
    if entries.len() == 0 {
        seq![(PdsV { hostname: hostname, account_count: count, relays: seq![relay] })]
    } else if entries[0].hostname == hostname {
        seq![
            (PdsV {
                hostname: entries[0].hostname,
                account_count: (if entries[0].account_count >= count {
                    entries[0].account_count
                } else {
                    count
                }),
                relays: (if entries[0].relays.contains(relay) {
                    entries[0].relays
                } else {
                    entries[0].relays.push(relay)
                }),
            }),
        ] + entries.subrange(1, entries.len() as int)
    } else {
        seq![entries[0]] + spec_add_host(
            entries.subrange(1, entries.len() as int),
            hostname,
            count,
            relay,
        )
    }
}

/// Whether the relay is already recorded.
fn relays_contain(relays: &Vec<usize>, relay: usize) -> (r: bool)
    ensures
        r == relays@.contains(relay),
{
    let mut i: usize = 0;
    while i < relays.len()
        invariant
            i <= relays@.len(),
            forall|k: int| 0 <= k < i ==> relays@[k] != relay,
        decreases relays@.len() - i,
    {
        if relays[i] == relay {
            return true;
        }
        i = i + 1;
    }
    false
}

/// Folds one relay's report of a host into the observed servers, as
/// [`spec_add_host`] defines it.
pub fn add_host(pdss: &mut Vec<Pds>, hostname: String, account_count: u64, relay_index: usize)
    ensures
        final(pdss)@.map_values(|p: Pds| p@) == spec_add_host(
            old(pdss)@.map_values(|p: Pds| p@),
            hostname@,
            account_count as int,
            relay_index,
        ),
{
    let ghost orig = old(pdss)@.map_values(|p: Pds| p@);
    let mut rest = pdss.split_off(0);
    let mut out: Vec<Pds> = Vec::new();
    let ghost mut taken: int = 0;
    proof {
        assert(rest@.map_values(|p: Pds| p@) =~= orig);
        assert(orig.subrange(0, 0) =~= Seq::<PdsV>::empty());
        assert(orig.subrange(0, orig.len() as int) =~= orig);
    }
    while rest.len() > 0
        invariant
            orig == old(pdss)@.map_values(|p: Pds| p@),
            0 <= taken <= orig.len(),
            rest@.map_values(|p: Pds| p@) == orig.subrange(taken, orig.len() as int),
            out@.map_values(|p: Pds| p@) == orig.subrange(0, taken),
            forall|k: int| 0 <= k < taken ==> (#[trigger] orig[k]).hostname != hostname@,
        decreases rest@.len(),
    {
        let ghost before_rest = rest@;
        let mut entry = rest.remove(0);
        proof {
            assert(entry == before_rest[0]);
            assert(rest@ =~= before_rest.subrange(1, before_rest.len() as int));
            assert(rest@.map_values(|p: Pds| p@) =~= before_rest.map_values(|p: Pds| p@).subrange(
                1,
                before_rest.len() as int,
            ));
            assert(entry@ == before_rest.map_values(|p: Pds| p@)[0]);
            assert(before_rest.map_values(|p: Pds| p@).len() == before_rest.len());
            assert(orig.len() - taken == before_rest.len());
            assert(orig.subrange(taken, orig.len() as int)[0] == orig[taken]);
            assert(entry@ == orig[taken]);
            assert(rest@.map_values(|p: Pds| p@) =~= orig.subrange(taken + 1, orig.len() as int));
        }
        if text::str_eq(entry.hostname.as_str(), hostname.as_str()) {
            // The host is known: keep the larger count, record the relay.
            if account_count > entry.account_count {
                entry.account_count = account_count;
            }
            if !relays_contain(&entry.relays, relay_index) {
                entry.relays.push(relay_index);
            }
            let ghost updated = entry@;
            out.push(entry);
            let ghost handoff = rest@;
            proof {
                assert(handoff.map_values(|p: Pds| p@).subrange(0, 0) =~= Seq::<PdsV>::empty());
                assert(out@.map_values(|p: Pds| p@) =~= orig.subrange(0, taken) + seq![updated]
                    + handoff.map_values(|p: Pds| p@).subrange(0, 0));
                assert(rest@ =~= handoff.subrange(0, handoff.len() as int));
            }
            while rest.len() > 0
                invariant
                    0 <= taken < orig.len(),
                    rest@.len() <= handoff.len(),
                    orig[taken].hostname == hostname@,
                    forall|k: int| 0 <= k < taken ==> (#[trigger] orig[k]).hostname != hostname@,
                    handoff.map_values(|p: Pds| p@) == orig.subrange(taken + 1, orig.len() as int),
                    updated == (PdsV {
                        hostname: orig[taken].hostname,
                        account_count: (if orig[taken].account_count >= account_count as int {
                            orig[taken].account_count
                        } else {
                            account_count as int
                        }),
                        relays: (if orig[taken].relays.contains(relay_index) {
                            orig[taken].relays
                        } else {
                            orig[taken].relays.push(relay_index)
                        }),
                    }),
                    out@.map_values(|p: Pds| p@) =~= orig.subrange(0, taken) + seq![updated]
                        + handoff.map_values(|p: Pds| p@).subrange(
                        0,
                        handoff.len() - rest@.len(),
                    ),
                    rest@ == handoff.subrange(handoff.len() - rest@.len(), handoff.len() as int),
                decreases rest@.len(),
            {
                let ghost moved = handoff.len() - rest@.len();
                let ghost inner_before = rest@;
                let next = rest.remove(0);
                proof {
                    assert(next == inner_before[0]);
                    assert(inner_before == handoff.subrange(moved, handoff.len() as int));
                    assert(inner_before.len() == handoff.len() - moved);
                    assert(inner_before[0] == handoff.subrange(moved, handoff.len() as int)[0]);
                    assert(handoff.subrange(moved, handoff.len() as int)[0] == handoff[moved]);
                    assert(next == handoff[moved]);
                    assert(rest@ =~= inner_before.subrange(1, inner_before.len() as int));
                    assert(rest@ =~= handoff.subrange(moved + 1, handoff.len() as int));
                }
                let ghost out_prior = out@.map_values(|p: Pds| p@);
                out.push(next);
                proof {
                    assert(out@.map_values(|p: Pds| p@) =~= out_prior.push(next@));
                    assert(handoff.map_values(|p: Pds| p@).subrange(0, moved + 1)
                        =~= handoff.map_values(|p: Pds| p@).subrange(0, moved).push(
                        handoff[moved]@,
                    ));
                    assert(out@.map_values(|p: Pds| p@) =~= orig.subrange(0, taken) + seq![
                        updated,
                    ] + handoff.map_values(|p: Pds| p@).subrange(0, moved + 1));
                }
            }
            proof {
                assert(rest@.len() == 0);
                assert(handoff.map_values(|p: Pds| p@).subrange(0, handoff.len() as int)
                    =~= handoff.map_values(|p: Pds| p@));
                assert(out@.map_values(|p: Pds| p@) =~= orig.subrange(0, taken) + seq![updated]
                    + handoff.map_values(|p: Pds| p@));
                assert(out@.map_values(|p: Pds| p@) =~= orig.subrange(0, taken) + seq![updated]
                    + orig.subrange(taken + 1, orig.len() as int));
                lemma_add_host_found(orig, hostname@, account_count as int, relay_index, taken);
                assert(out@.map_values(|p: Pds| p@) =~= spec_add_host(
                    orig,
                    hostname@,
                    account_count as int,
                    relay_index,
                ));
            }
            *pdss = out;
            return ;
        }
        out.push(entry);
        proof {
            assert(orig.subrange(0, taken + 1) =~= orig.subrange(0, taken).push(orig[taken]));
            assert(out@.map_values(|p: Pds| p@) =~= orig.subrange(0, taken + 1));
            taken = taken + 1;
        }
    }
    // The host is new.
    let relays = singleton_relay(relay_index);
    out.push(Pds { hostname, account_count, relays });
    proof {
        lemma_add_host_absent(orig, hostname@, account_count as int, relay_index);
        assert(out@.map_values(|p: Pds| p@) =~= spec_add_host(
            orig,
            hostname@,
            account_count as int,
            relay_index,
        ));
    }
    *pdss = out;
}

/// A relay list holding one relay.
fn singleton_relay(relay_index: usize) -> (r: Vec<usize>)
    ensures
        r@ =~= seq![relay_index],
{
    let mut r: Vec<usize> = Vec::new();
    r.push(relay_index);
    r
}

/// Folding a report of an unknown host appends it.
proof fn lemma_add_host_absent(entries: Seq<PdsV>, hostname: Seq<char>, count: int, relay: usize)
    requires
        forall|k: int| 0 <= k < entries.len() ==> (#[trigger] entries[k]).hostname != hostname,
    ensures
        spec_add_host(entries, hostname, count, relay) =~= entries + seq![
            (PdsV { hostname: hostname, account_count: count, relays: seq![relay] }),
        ],
    decreases entries.len(),
{
    if entries.len() > 0 {
        lemma_add_host_absent(entries.subrange(1, entries.len() as int), hostname, count, relay);
        assert(entries =~= seq![entries[0]] + entries.subrange(1, entries.len() as int));
    }
}

/// Folding a report of a known host updates its first entry and leaves the
/// rest alone.
proof fn lemma_add_host_found(
    entries: Seq<PdsV>,
    hostname: Seq<char>,
    count: int,
    relay: usize,
    at: int,
)
    requires
        0 <= at < entries.len(),
        forall|k: int| 0 <= k < at ==> (#[trigger] entries[k]).hostname != hostname,
        entries[at].hostname == hostname,
    ensures
        spec_add_host(entries, hostname, count, relay) =~= entries.subrange(0, at) + seq![
            (PdsV {
                hostname: entries[at].hostname,
                account_count: (if entries[at].account_count >= count {
                    entries[at].account_count
                } else {
                    count
                }),
                relays: (if entries[at].relays.contains(relay) {
                    entries[at].relays
                } else {
                    entries[at].relays.push(relay)
                }),
            }),
        ] + entries.subrange(at + 1, entries.len() as int),
    decreases entries.len(),
{
    if at > 0 {
        lemma_add_host_found(
            entries.subrange(1, entries.len() as int),
            hostname,
            count,
            relay,
            at - 1,
        );
        assert(entries.subrange(1, entries.len() as int).subrange(0, at - 1) =~= entries.subrange(
            1,
            at,
        ));
        assert(entries.subrange(1, entries.len() as int).subrange(
            at,
            entries.len() - 1,
        ) =~= entries.subrange(at + 1, entries.len() as int));
        assert(entries.subrange(0, at) =~= seq![entries[0]] + entries.subrange(1, at));
        assert(entries.subrange(1, entries.len() as int)[at - 1] == entries[at]);
    }
}

} // verus!
