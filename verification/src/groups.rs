//! The firehose page's group table: one row per application group, with
//! its address, ordered from the busiest group down.  A group's traffic is
//! its metric's summed window deltas; rows without observed records are
//! dropped.  The sums share the page's sample count, so ordering by sum is
//! ordering by rate.

use vstd::prelude::*;

use crate::firehose::FirehoseRate;
use crate::firehose::METRIC_COUNT;
use crate::sorting;

verus! {

/// An application group's display name and address.
pub struct GroupInfo {
    pub title: String,
    pub uri: String,
}

impl View for GroupInfo {
    type V = (Seq<char>, Seq<char>);

    open spec fn view(&self) -> (Seq<char>, Seq<char>) {
        (self.title@, self.uri@)
    }
}

/// One row of the table: the group, its summed deltas, and any subgroups
/// sharing the row.
pub struct FirehoseGroup {
    pub info: GroupInfo,
    pub sum: u128,
    pub subgroups: Vec<GroupInfo>,
}

/// The abstract value of a row.
pub struct GroupView {
    pub title: Seq<char>,
    pub uri: Seq<char>,
    pub sum: int,
    pub subgroups: Seq<(Seq<char>, Seq<char>)>,
}

impl View for FirehoseGroup {
    type V = GroupView;

    open spec fn view(&self) -> GroupView {
        GroupView {
            title: self.info.title@,
            uri: self.info.uri@,
            sum: self.sum as int,
            subgroups: self.subgroups@.map_values(|g: GroupInfo| g@),
        }
    }
}

/// The full table, in its fixed order, before filtering and sorting: every
/// group but the aggregate total, each with its metric's sum.
pub open spec fn spec_group_table(sums: Seq<u128>) -> Seq<GroupView> {
    let sums_int = Seq::new(sums.len(), |i: int| sums[i] as int);
    seq![
        (GroupView {
            title: "2048 game"@,
            uri: "https://2048.blue/"@,
            sum: sums_int[1],
            subgroups: Seq::empty(),
        }),
        (GroupView {
            title: "anisota"@,
            uri: "https://anisota.net/"@,
            sum: sums_int[3],
            subgroups: Seq::empty(),
        }),
        (GroupView {
            title: "ATFile"@,
            uri: "https://github.com/electricduck/atfile"@,
            sum: sums_int[4],
            subgroups: Seq::empty(),
        }),
        (GroupView {
            title: "Bluesky"@,
            uri: "https://bsky.app/"@,
            sum: sums_int[5],
            subgroups: Seq::empty(),
        }),
        (GroupView {
            title: "Blue Badge"@,
            uri: "https://badge.blue/"@,
            sum: sums_int[6],
            subgroups: Seq::empty(),
        }),
        (GroupView {
            title: "BookHive"@,
            uri: "https://bookhive.buzz/"@,
            sum: sums_int[7],
            subgroups: Seq::empty(),
        }),
        (GroupView {
            title: "Bookmarks"@,
            uri: ""@,
            sum: sums_int[8],
            subgroups: seq![
                ("Klearsky"@, "https://github.com/mimonelu/klearsky"@),
                ("Starrysky"@, "https://starrysky-console.pages.dev/"@),
            ],
        }),
        (GroupView {
            title: "Cabildo Abierto"@,
            uri: "https://www.cabildoabierto.ar/"@,
            sum: sums_int[10],
            subgroups: Seq::empty(),
        }),
        (GroupView {
            title: "Flashes"@,
            uri: "https://bsky.app/profile/flashes.blue"@,
            sum: sums_int[11],
            subgroups: Seq::empty(),
        }),
        (GroupView {
            title: "Flushes"@,
            uri: "https://flushes.app/"@,
            sum: sums_int[12],
            subgroups: Seq::empty(),
        }),
        (GroupView {
            title: "Frontpage"@,
            uri: "https://frontpage.fyi/"@,
            sum: sums_int[13],
            subgroups: Seq::empty(),
        }),
        (GroupView {
            title: "Germ"@,
            uri: "https://www.germnetwork.com/"@,
            sum: sums_int[14],
            subgroups: Seq::empty(),
        }),
        (GroupView {
            title: "Grain"@,
            uri: "https://grain.social/"@,
            sum: sums_int[15],
            subgroups: Seq::empty(),
        }),
        (GroupView {
            title: "Gridsky"@,
            uri: "https://gridsky.app/"@,
            sum: sums_int[16],
            subgroups: Seq::empty(),
        }),
        (GroupView {
            title: "Leaflet"@,
            uri: "https://leaflet.pub/"@,
            sum: sums_int[17],
            subgroups: Seq::empty(),
        }),
        (GroupView {
            title: "Linkat"@,
            uri: "https://linkat.blue/"@,
            sum: sums_int[18],
            subgroups: Seq::empty(),
        }),
        (GroupView {
            title: "Picosky"@,
            uri: "https://psky.social/"@,
            sum: sums_int[19],
            subgroups: Seq::empty(),
        }),
        (GroupView {
            title: "Pinksky"@,
            uri: "https://pinksky.app/"@,
            sum: sums_int[20],
            subgroups: Seq::empty(),
        }),
        (GroupView {
            title: "Popsky"@,
            uri: "https://popsky.social/"@,
            sum: sums_int[21],
            subgroups: Seq::empty(),
        }),
        (GroupView {
            title: "ProtoScript"@,
            uri: "https://protoscript.atdev.pro/"@,
            sum: sums_int[22],
            subgroups: Seq::empty(),
        }),
        (GroupView {
            title: "Rocksky"@,
            uri: "https://rocksky.app/"@,
            sum: sums_int[23],
            subgroups: Seq::empty(),
        }),
        (GroupView {
            title: "Roomy"@,
            uri: "https://roomy.chat/"@,
            sum: sums_int[24],
            subgroups: Seq::empty(),
        }),
        (GroupView {
            title: "Scrapboard"@,
            uri: "https://scrapboard.org/"@,
            sum: sums_int[25],
            subgroups: Seq::empty(),
        }),
        (GroupView {
            title: "ShadowSky"@,
            uri: "https://shadowsky.io/"@,
            sum: sums_int[26],
            subgroups: Seq::empty(),
        }),
        (GroupView {
            title: "Skyblur"@,
            uri: "https://skyblur.uk/"@,
            sum: sums_int[27],
            subgroups: Seq::empty(),
        }),
        (GroupView {
            title: "Skyrdle"@,
            uri: "https://skyrdle.com/"@,
            sum: sums_int[28],
            subgroups: Seq::empty(),
        }),
        (GroupView {
            title: "SkySpace"@,
            uri: "https://skyspace.me/"@,
            sum: sums_int[29],
            subgroups: Seq::empty(),
        }),
        (GroupView {
            title: "Slices"@,
            uri: "https://bsky.app/profile/chadtmiller.com/post/3lxb6wem4622j"@,
            sum: sums_int[30],
            subgroups: Seq::empty(),
        }),
        (GroupView {
            title: "Smoke Signal"@,
            uri: "https://smokesignal.events/"@,
            sum: sums_int[31],
            subgroups: Seq::empty(),
        }),
        (GroupView {
            title: "SonaSky"@,
            uri: "https://sonasky.app/"@,
            sum: sums_int[32],
            subgroups: Seq::empty(),
        }),
        (GroupView {
            title: "Spark"@,
            uri: "https://sprk.so/"@,
            sum: sums_int[33],
            subgroups: Seq::empty(),
        }),
        (GroupView {
            title: "Statusphere"@,
            uri: "https://atproto.com/guides/applications"@,
            sum: sums_int[34],
            subgroups: Seq::empty(),
        }),
        (GroupView {
            title: "Streamplace"@,
            uri: "https://stream.place/"@,
            sum: sums_int[35],
            subgroups: Seq::empty(),
        }),
        (GroupView {
            title: "Tangled"@,
            uri: "https://tangled.sh/"@,
            sum: sums_int[36],
            subgroups: Seq::empty(),
        }),
        (GroupView {
            title: "teal.fm"@,
            uri: "https://teal.fm/"@,
            sum: sums_int[37],
            subgroups: Seq::empty(),
        }),
        (GroupView {
            title: "Void Bot"@,
            uri: "https://cameron.pfiffer.org/blog/void/"@,
            sum: sums_int[9],
            subgroups: Seq::empty(),
        }),
        (GroupView {
            title: "WhiteWind"@,
            uri: "https://whtwnd.com/"@,
            sum: sums_int[38],
            subgroups: Seq::empty(),
        }),
        (GroupView {
            title: "Yōten"@,
            uri: "https://yoten.app/"@,
            sum: sums_int[39],
            subgroups: Seq::empty(),
        }),
        (GroupView {
            title: "Some kind of sync from Mastodon"@,
            uri: ""@,
            sum: sums_int[2],
            subgroups: Seq::empty(),
        }),
    ]
}

/// A sorted row sequence with `e` inserted after rows of equal or smaller
/// sum: the insertion step of the stable ordering.
pub open spec fn spec_insert_group(s: Seq<GroupView>, e: GroupView) -> Seq<GroupView>
    decreases s.len(),
{
    if s.len() == 0 {
        seq![e]
    } else if s.last().sum <= e.sum {
        s.push(e)
    } else {
        spec_insert_group(s.drop_last(), e).push(s.last())
    }
}

/// The stable sort of rows by sum, ascending.
pub open spec fn spec_sort_groups(s: Seq<GroupView>) -> Seq<GroupView>
    decreases s.len(),
{
    if s.len() == 0 {
        Seq::empty()
    } else {
        spec_insert_group(spec_sort_groups(s.drop_last()), s.last())
    }
}

/// Sorted by sum, non-decreasing.
pub open spec fn spec_groups_sorted(s: Seq<GroupView>) -> bool {
    forall|i: int, j: int| 0 <= i <= j < s.len() ==> s[i].sum <= s[j].sum
}

/// Inserting at the position the scan finds is what [`spec_insert_group`]
/// computes.
proof fn lemma_insert_group_at(s: Seq<GroupView>, e: GroupView, p: int)
    requires
        spec_groups_sorted(s),
        0 <= p <= s.len(),
        forall|i: int| 0 <= i < p ==> (#[trigger] s[i]).sum <= e.sum,
        forall|i: int| p <= i < s.len() ==> (#[trigger] s[i]).sum > e.sum,
    ensures
        spec_insert_group(s, e) =~= s.subrange(0, p) + seq![e] + s.subrange(p, s.len() as int),
    decreases s.len(),
{
    if s.len() == 0 {
    } else if s.last().sum <= e.sum {
        assert(p == s.len());
    } else {
        lemma_insert_group_at(s.drop_last(), e, p);
    }
}

/// A row for a group without subgroups.
fn plain_group(title: &str, uri: &str, sum: u128) -> (r: FirehoseGroup)
    ensures
        r@ == (GroupView { title: title@, uri: uri@, sum: sum as int, subgroups: Seq::empty() }),
{
    let r = FirehoseGroup {
        info: GroupInfo { title: title.to_owned(), uri: uri.to_owned() },
        sum,
        subgroups: Vec::new(),
    };
    proof {
        assert(r@.subgroups =~= Seq::<(Seq<char>, Seq<char>)>::empty());
    }
    r
}

/// The clients that share the bookmarks row.
fn bookmark_subgroups() -> (r: Vec<GroupInfo>)
    ensures
        r@.map_values(|g: GroupInfo| g@) =~= seq![
            ("Klearsky"@, "https://github.com/mimonelu/klearsky"@),
            ("Starrysky"@, "https://starrysky-console.pages.dev/"@),
        ],
{
    let mut r: Vec<GroupInfo> = Vec::new();
    r.push(
        GroupInfo {
            title: "Klearsky".to_owned(),
            uri: "https://github.com/mimonelu/klearsky".to_owned(),
        },
    );
    r.push(
        GroupInfo {
            title: "Starrysky".to_owned(),
            uri: "https://starrysky-console.pages.dev/".to_owned(),
        },
    );
    proof {
        assert(r@.map_values(|g: GroupInfo| g@) =~= seq![
            ("Klearsky"@, "https://github.com/mimonelu/klearsky"@),
            ("Starrysky"@, "https://starrysky-console.pages.dev/"@),
        ]);
    }
    r
}

impl FirehoseRate {
    /// The full table in its fixed order, as [`spec_group_table`] lays it
    /// out.
    #[verifier::rlimit(80)]
    fn table(&self) -> (r: Vec<FirehoseGroup>)
        requires
            self.wf(),
        ensures
            r@.map_values(|g: FirehoseGroup| g@) == spec_group_table(self.spec_sums()),
    {
        let mut table: Vec<FirehoseGroup> = Vec::new();
        table.push(plain_group("2048 game", "https://2048.blue/", self.sum(1)));
        table.push(plain_group("anisota", "https://anisota.net/", self.sum(3)));
        table.push(plain_group("ATFile", "https://github.com/electricduck/atfile", self.sum(4)));
        table.push(plain_group("Bluesky", "https://bsky.app/", self.sum(5)));
        table.push(plain_group("Blue Badge", "https://badge.blue/", self.sum(6)));
        table.push(plain_group("BookHive", "https://bookhive.buzz/", self.sum(7)));
        table.push(
            FirehoseGroup {
                info: GroupInfo { title: "Bookmarks".to_owned(), uri: "".to_owned() },
                sum: self.sum(8),
                subgroups: bookmark_subgroups(),
            },
        );
        table.push(plain_group("Cabildo Abierto", "https://www.cabildoabierto.ar/", self.sum(10)));
        table.push(plain_group("Flashes", "https://bsky.app/profile/flashes.blue", self.sum(11)));
        table.push(plain_group("Flushes", "https://flushes.app/", self.sum(12)));
        table.push(plain_group("Frontpage", "https://frontpage.fyi/", self.sum(13)));
        table.push(plain_group("Germ", "https://www.germnetwork.com/", self.sum(14)));
        table.push(plain_group("Grain", "https://grain.social/", self.sum(15)));
        table.push(plain_group("Gridsky", "https://gridsky.app/", self.sum(16)));
        table.push(plain_group("Leaflet", "https://leaflet.pub/", self.sum(17)));
        table.push(plain_group("Linkat", "https://linkat.blue/", self.sum(18)));
        table.push(plain_group("Picosky", "https://psky.social/", self.sum(19)));
        table.push(plain_group("Pinksky", "https://pinksky.app/", self.sum(20)));
        table.push(plain_group("Popsky", "https://popsky.social/", self.sum(21)));
        table.push(plain_group("ProtoScript", "https://protoscript.atdev.pro/", self.sum(22)));
        table.push(plain_group("Rocksky", "https://rocksky.app/", self.sum(23)));
        table.push(plain_group("Roomy", "https://roomy.chat/", self.sum(24)));
        table.push(plain_group("Scrapboard", "https://scrapboard.org/", self.sum(25)));
        table.push(plain_group("ShadowSky", "https://shadowsky.io/", self.sum(26)));
        table.push(plain_group("Skyblur", "https://skyblur.uk/", self.sum(27)));
        table.push(plain_group("Skyrdle", "https://skyrdle.com/", self.sum(28)));
        table.push(plain_group("SkySpace", "https://skyspace.me/", self.sum(29)));
        table.push(plain_group("Slices", "https://bsky.app/profile/chadtmiller.com/post/3lxb6wem4622j", self.sum(30)));
        table.push(plain_group("Smoke Signal", "https://smokesignal.events/", self.sum(31)));
        table.push(plain_group("SonaSky", "https://sonasky.app/", self.sum(32)));
        table.push(plain_group("Spark", "https://sprk.so/", self.sum(33)));
        table.push(plain_group("Statusphere", "https://atproto.com/guides/applications", self.sum(34)));
        table.push(plain_group("Streamplace", "https://stream.place/", self.sum(35)));
        table.push(plain_group("Tangled", "https://tangled.sh/", self.sum(36)));
        table.push(plain_group("teal.fm", "https://teal.fm/", self.sum(37)));
        table.push(plain_group("Void Bot", "https://cameron.pfiffer.org/blog/void/", self.sum(9)));
        table.push(plain_group("WhiteWind", "https://whtwnd.com/", self.sum(38)));
        table.push(plain_group("Yōten", "https://yoten.app/", self.sum(39)));
        table.push(plain_group("Some kind of sync from Mastodon", "", self.sum(2)));
        proof {
            assert(table@.map_values(|g: FirehoseGroup| g@) =~= spec_group_table(
                self.spec_sums(),
            ));
        }
        table
    }

    /// The page's rows: the fixed table, rows without observed records
    /// dropped, the busiest group first; rows of equal sums keep the
    /// reverse of their table order.
    pub fn groups(&self) -> (r: Vec<FirehoseGroup>)
        requires
            self.wf(),
        ensures
            r@.map_values(|g: FirehoseGroup| g@) == sorting::spec_reverse(
                spec_sort_groups(
                    spec_group_table(self.spec_sums()).filter(|g: GroupView| g.sum > 0),
                ),
            ),
    {
        let table = self.table();
        let kept = filter_observed(table);
        let sorted = sort_groups(kept);
        sorting::reverse_vec(sorted)
    }
}

/// The rows with observed records, in order.
fn filter_observed(v: Vec<FirehoseGroup>) -> (r: Vec<FirehoseGroup>)
    ensures
        r@.map_values(|g: FirehoseGroup| g@) == v@.map_values(|g: FirehoseGroup| g@).filter(
            |g: GroupView| g.sum > 0,
        ),
{
    let ghost full = v@.map_values(|g: FirehoseGroup| g@);
    let mut kept: Vec<FirehoseGroup> = Vec::new();
    let mut rest = v;
    let ghost mut taken: int = 0;
    proof {
        reveal(Seq::filter);
        assert(full.subrange(0, 0) =~= Seq::<GroupView>::empty());
        assert(kept@.map_values(|g: FirehoseGroup| g@) =~= full.subrange(0, 0).filter(
            |g: GroupView| g.sum > 0,
        ));
        assert(full.subrange(0, full.len() as int) =~= full);
    }
    while rest.len() > 0
        invariant
            0 <= taken <= full.len(),
            rest@.map_values(|g: FirehoseGroup| g@) == full.subrange(taken, full.len() as int),
            kept@.map_values(|g: FirehoseGroup| g@) == full.subrange(0, taken).filter(
                |g: GroupView| g.sum > 0,
            ),
        decreases rest@.len(),
    {
        let ghost before_rest = rest@;
        let g = rest.remove(0);
        proof {
            assert(g == before_rest[0]);
            assert(rest@ =~= before_rest.subrange(1, before_rest.len() as int));
            assert(rest@.map_values(|gg: FirehoseGroup| gg@) =~= before_rest.map_values(
                |gg: FirehoseGroup| gg@,
            ).subrange(1, before_rest.len() as int));
            assert(g@ == before_rest.map_values(|gg: FirehoseGroup| gg@)[0]);
            assert(before_rest.map_values(|gg: FirehoseGroup| gg@).len() == before_rest.len());
            assert(full.len() - taken == before_rest.len());
            assert(full.subrange(taken, full.len() as int)[0] == full[taken]);
            assert(g@ == full[taken]);
            assert(rest@.map_values(|gg: FirehoseGroup| gg@) =~= full.subrange(
                taken + 1,
                full.len() as int,
            ));
            assert(full.subrange(0, taken + 1) =~= full.subrange(0, taken).push(full[taken]));
            sorting::lemma_filter_push(
                full.subrange(0, taken),
                |gg: GroupView| gg.sum > 0,
                full[taken],
            );
        }
        if g.sum > 0 {
            kept.push(g);
            proof {
                assert(kept@.map_values(|gg: FirehoseGroup| gg@) =~= full.subrange(
                    0,
                    taken + 1,
                ).filter(|gg: GroupView| gg.sum > 0));
            }
        }
        proof {
            taken = taken + 1;
        }
    }
    kept
}

/// Sorts rows by sum with a stable insertion sort, as [`spec_sort_groups`]
/// defines it.
fn sort_groups(v: Vec<FirehoseGroup>) -> (r: Vec<FirehoseGroup>)
    ensures
        r@.map_values(|g: FirehoseGroup| g@) == spec_sort_groups(
            v@.map_values(|g: FirehoseGroup| g@),
        ),
{
    let ghost input = v@.map_values(|g: FirehoseGroup| g@);
    let mut rest = v;
    let mut out: Vec<FirehoseGroup> = Vec::new();
    let ghost mut taken: int = 0;
    proof {
        assert(input.subrange(0, 0) =~= Seq::<GroupView>::empty());
        assert(out@.map_values(|g: FirehoseGroup| g@) =~= spec_sort_groups(input.subrange(0, 0)));
        assert(input.subrange(0, input.len() as int) =~= input);
    }
    while rest.len() > 0
        invariant
            0 <= taken <= input.len(),
            rest@.map_values(|g: FirehoseGroup| g@) == input.subrange(taken, input.len() as int),
            out@.map_values(|g: FirehoseGroup| g@) == spec_sort_groups(input.subrange(0, taken)),
            spec_groups_sorted(out@.map_values(|g: FirehoseGroup| g@)),
        decreases rest@.len(),
    {
        let ghost before_rest = rest@;
        let item = rest.remove(0);
        proof {
            assert(item == before_rest[0]);
            assert(rest@ =~= before_rest.subrange(1, before_rest.len() as int));
            assert(rest@.map_values(|g: FirehoseGroup| g@) =~= before_rest.map_values(
                |g: FirehoseGroup| g@,
            ).subrange(1, before_rest.len() as int));
            assert(item@ == before_rest.map_values(|g: FirehoseGroup| g@)[0]);
            assert(before_rest.map_values(|g: FirehoseGroup| g@).len() == before_rest.len());
            assert(input.len() - taken == before_rest.len());
            assert(before_rest.len() > 0);
            assert(input.subrange(taken, input.len() as int)[0] == input[taken]);
            assert(item@ == input[taken]);
            assert(rest@.map_values(|g: FirehoseGroup| g@) =~= input.subrange(
                taken + 1,
                input.len() as int,
            ));
        }
        let ghost prior = out@.map_values(|g: FirehoseGroup| g@);
        let e = item.sum;
        let mut p: usize = 0;
        while p < out.len() && group_sum_at(&out, p) <= e
            invariant
                p <= out@.len(),
                prior == out@.map_values(|g: FirehoseGroup| g@),
                forall|k: int| 0 <= k < p ==> (#[trigger] prior[k]).sum <= e,
                e as int == item@.sum,
                item@ == input[taken],
                spec_groups_sorted(prior),
            decreases out@.len() - p,
        {
            p = p + 1;
        }
        proof {
            assert(forall|k: int| p <= k < prior.len() ==> (#[trigger] prior[k]).sum > e) by {
                assert forall|k: int| p <= k < prior.len() implies (#[trigger] prior[k]).sum
                    > e by {
                    if p < prior.len() {
                        assert(prior[p as int].sum > e);
                        assert(prior[p as int].sum <= prior[k].sum);
                    }
                }
            }
            lemma_insert_group_at(prior, item@, p as int);
        }
        out.insert(p, item);
        proof {
            assert(out@.map_values(|g: FirehoseGroup| g@) =~= prior.subrange(0, p as int) + seq![
                input[taken],
            ] + prior.subrange(p as int, prior.len() as int));
            assert(input.subrange(0, taken + 1).drop_last() =~= input.subrange(0, taken));
            assert(input.subrange(0, taken + 1).last() == input[taken]);
            assert(out@.map_values(|g: FirehoseGroup| g@) == spec_insert_group(
                prior,
                input[taken],
            ));
            assert(spec_groups_sorted(out@.map_values(|g: FirehoseGroup| g@))) by {
                let cur = out@.map_values(|g: FirehoseGroup| g@);
                assert(forall|k: int|
                    0 <= k < cur.len() ==> (#[trigger] cur[k]).sum == (if k < p {
                        prior[k].sum
                    } else if k == p {
                        input[taken].sum
                    } else {
                        prior[k - 1].sum
                    }));
            }
            taken = taken + 1;
        }
    }
    proof {
        assert(input.subrange(0, input.len() as int) =~= input);
        assert(taken == input.len());
    }
    out
}

/// The sum of the row at one position.
fn group_sum_at(v: &Vec<FirehoseGroup>, p: usize) -> (r: u128)
    requires
        p < v@.len(),
    ensures
        r as int == v@.map_values(|g: FirehoseGroup| g@)[p as int].sum,
{
    v[p].sum
}

} // verus!
