//! The author directory: each listed author's display data, derived from
//! their name, identifier and avatar address.

use vstd::prelude::*;
use vstd::string::StrSliceExecFns;
use vstd::string::StringExecFns;

use crate::sorting;
use crate::text;

verus! {

/// One listed author: display name, profile address, and a thumbnail-sized
/// avatar address when one is known.
pub struct User {
    pub name: String,
    pub profile: String,
    pub avatar: Option<String>,
}

impl User {
    /// A user from their name, identifier and avatar address: the profile
    /// points at the identifier's profile page, and the avatar address is
    /// rewritten to its thumbnail form.
    pub fn new(name: &str, did: &str, avatar: Option<String>) -> (r: User)
        ensures
            r.name@ == name@,
            r.profile@ == "https://bsky.app/profile/"@ + did@,
            match (avatar, r.avatar) {
                (Option::Some(a), Option::Some(ra)) => ra@ == text::spec_replace(
                    a@,
                    "img/avatar"@,
                    "img/avatar_thumbnail"@,
                ),
                (Option::None, Option::None) => true,
                _ => false,
            },
    {
        let mut profile: String = "https://bsky.app/profile/".to_owned();
        profile.append(did);
        let avatar = match avatar {
            Some(a) => {
                proof {
                    reveal_strlit("img/avatar");
                }
                Some(text::replace(a.as_str(), "img/avatar", "img/avatar_thumbnail"))
            },
            None => None,
        };
        User { name: name.to_owned(), profile, avatar }
    }
}

/// The abstract value of a listed author.
pub struct UserView {
    pub name: Seq<char>,
    pub profile: Seq<char>,
    pub avatar: Option<Seq<char>>,
}

impl View for User {
    type V = UserView;

    open spec fn view(&self) -> UserView {
        UserView {
            name: self.name@,
            profile: self.profile@,
            avatar: match self.avatar {
                Option::Some(a) => Option::Some(a@),
                Option::None => Option::None,
            },
        }
    }
}

/// Lexicographic order on character sequences by scalar value, the order
/// string comparison gives.
pub open spec fn spec_str_le(a: Seq<char>, b: Seq<char>) -> bool
    decreases a.len(),
{
    if a.len() == 0 {
        true
    } else if b.len() == 0 {
        false
    } else if a[0] as u32 != b[0] as u32 {
        (a[0] as u32) < (b[0] as u32)
    } else {
        spec_str_le(a.subrange(1, a.len() as int), b.subrange(1, b.len() as int))
    }
}

/// The order is reflexive.
pub proof fn lemma_str_le_refl(a: Seq<char>)
    ensures
        spec_str_le(a, a),
    decreases a.len(),
{
    if a.len() > 0 {
        lemma_str_le_refl(a.subrange(1, a.len() as int));
    }
}

/// The order is total.
pub proof fn lemma_str_le_total(a: Seq<char>, b: Seq<char>)
    ensures
        spec_str_le(a, b) || spec_str_le(b, a),
    decreases a.len(),
{
    if a.len() > 0 && b.len() > 0 && a[0] as u32 == b[0] as u32 {
        lemma_str_le_total(a.subrange(1, a.len() as int), b.subrange(1, b.len() as int));
    }
}

/// The order is transitive.
pub proof fn lemma_str_le_trans(a: Seq<char>, b: Seq<char>, c: Seq<char>)
    requires
        spec_str_le(a, b),
        spec_str_le(b, c),
    ensures
        spec_str_le(a, c),
    decreases a.len(),
{
    if a.len() > 0 && b.len() > 0 && c.len() > 0 {
        if a[0] as u32 == b[0] as u32 && b[0] as u32 == c[0] as u32 {
            lemma_str_le_trans(
                a.subrange(1, a.len() as int),
                b.subrange(1, b.len() as int),
                c.subrange(1, c.len() as int),
            );
        }
    }
}

/// Whether `a` orders at or before `b`, as [`spec_str_le`] defines it.
pub fn str_le(a: &str, b: &str) -> (r: bool)
    ensures
        r == spec_str_le(a@, b@),
{
    let an = a.unicode_len();
    let bn = b.unicode_len();
    proof {
        assert(a@.subrange(0, an as int) =~= a@);
        assert(b@.subrange(0, bn as int) =~= b@);
    }
    let mut i: usize = 0;
    while i < an && i < bn
        invariant
            an == a@.len(),
            bn == b@.len(),
            i <= an,
            i <= bn,
            spec_str_le(a@, b@) == spec_str_le(
                a@.subrange(i as int, an as int),
                b@.subrange(i as int, bn as int),
            ),
        decreases an - i,
    {
        let ghost ra = a@.subrange(i as int, an as int);
        let ghost rb = b@.subrange(i as int, bn as int);
        proof {
            assert(ra[0] == a@[i as int]);
            assert(rb[0] == b@[i as int]);
            assert(ra.subrange(1, ra.len() as int) =~= a@.subrange(i + 1, an as int));
            assert(rb.subrange(1, rb.len() as int) =~= b@.subrange(i + 1, bn as int));
        }
        let ca = a.get_char(i) as u32;
        let cb = b.get_char(i) as u32;
        if ca != cb {
            return ca < cb;
        }
        i = i + 1;
    }
    proof {
        if i == an {
            assert(a@.subrange(i as int, an as int).len() == 0);
        } else {
            assert(b@.subrange(i as int, bn as int).len() == 0);
            assert(a@.subrange(i as int, an as int).len() > 0);
        }
    }
    i == an
}

/// The view of one pooled profile entry.
pub open spec fn spec_profile_view(p: (String, Option<String>)) -> (Seq<char>, Option<Seq<char>>) {
    (
        p.0@,
        match p.1 {
            Option::Some(s) => Option::Some(s@),
            Option::None => Option::None,
        },
    )
}

/// The avatar of `did` among the fetched profiles: the value of its last
/// entry, the one a keyed collection of the responses would keep.
pub open spec fn spec_lookup_last(
    profiles: Seq<(Seq<char>, Option<Seq<char>>)>,
    did: Seq<char>,
) -> Option<Option<Seq<char>>>
    decreases profiles.len(),
{
    if profiles.len() == 0 {
        Option::None
    } else if profiles.last().0 == did {
        Option::Some(profiles.last().1)
    } else {
        spec_lookup_last(profiles.drop_last(), did)
    }
}

/// The profiles without every entry of `did`, once an author consumed it.
pub open spec fn spec_without(
    profiles: Seq<(Seq<char>, Option<Seq<char>>)>,
    did: Seq<char>,
) -> Seq<(Seq<char>, Option<Seq<char>>)> {
    profiles.filter(|p: (Seq<char>, Option<Seq<char>>)| p.0 != did)
}

/// The listed users of the author roll: each author joined with their
/// profile's avatar, consumed on first use, in author order.
pub open spec fn spec_assemble(
    authors: Seq<(Seq<char>, Seq<char>)>,
    profiles: Seq<(Seq<char>, Option<Seq<char>>)>,
) -> Seq<UserView>
    decreases authors.len(),
{
    if authors.len() == 0 {
        Seq::empty()
    } else {
        let name = authors[0].0;
        let did = authors[0].1;
        let avatar = match spec_lookup_last(profiles, did) {
            Option::Some(av) => av,
            Option::None => Option::None,
        };
        seq![spec_user(name, did, avatar)] + spec_assemble(
            authors.subrange(1, authors.len() as int),
            spec_without(profiles, did),
        )
    }
}

/// The listed form of one author, as [`User::new`] builds it.
pub open spec fn spec_user(name: Seq<char>, did: Seq<char>, avatar: Option<Seq<char>>) -> UserView {
    UserView {
        name: name,
        profile: "https://bsky.app/profile/"@ + did,
        avatar: match avatar {
            Option::Some(a) => Option::Some(
                text::spec_replace(a, "img/avatar"@, "img/avatar_thumbnail"@),
            ),
            Option::None => Option::None,
        },
    }
}

/// A sorted user sequence with `e` inserted after users of equal or earlier
/// name: the insertion step of the stable ordering.
pub open spec fn spec_insert_user(s: Seq<UserView>, e: UserView) -> Seq<UserView>
    decreases s.len(),
{
    if s.len() == 0 {
        seq![e]
    } else if spec_str_le(s.last().name, e.name) {
        s.push(e)
    } else {
        spec_insert_user(s.drop_last(), e).push(s.last())
    }
}

/// The stable sort of users by name.
pub open spec fn spec_sort_users(s: Seq<UserView>) -> Seq<UserView>
    decreases s.len(),
{
    if s.len() == 0 {
        Seq::empty()
    } else {
        spec_insert_user(spec_sort_users(s.drop_last()), s.last())
    }
}

/// Sorted by name, non-decreasing.
pub open spec fn spec_users_sorted(s: Seq<UserView>) -> bool {
    forall|i: int, j: int| 0 <= i <= j < s.len() ==> spec_str_le(s[i].name, s[j].name)
}

/// Inserting at the position the scan finds is what [`spec_insert_user`]
/// computes.
proof fn lemma_insert_user_at(s: Seq<UserView>, e: UserView, p: int)
    requires
        spec_users_sorted(s),
        0 <= p <= s.len(),
        forall|i: int| 0 <= i < p ==> spec_str_le((#[trigger] s[i]).name, e.name),
        forall|i: int| p <= i < s.len() ==> !spec_str_le((#[trigger] s[i]).name, e.name),
    ensures
        spec_insert_user(s, e) =~= s.subrange(0, p) + seq![e] + s.subrange(p, s.len() as int),
    decreases s.len(),
{
    if s.len() == 0 {
    } else if spec_str_le(s.last().name, e.name) {
        if p < s.len() {
            lemma_str_le_trans(s[p].name, s.last().name, e.name);
        }
        assert(p == s.len());
    } else {
        lemma_insert_user_at(s.drop_last(), e, p);
    }
}

/// Joins the author roll with the fetched profiles and sorts the listing by
/// name, so the page reads easily.
pub fn assemble_authors(authors: &Vec<(String, String)>, profiles: Vec<(String, Option<String>)>)
-> (r: Vec<User>)
    ensures
        r@.map_values(|u: User| u@) == spec_sort_users(
            spec_assemble(
                authors@.map_values(|a: (String, String)| (a.0@, a.1@)),
                profiles@.map_values(|p: (String, Option<String>)| spec_profile_view(p)),
            ),
        ),
{
    let ghost all_authors = authors@.map_values(|a: (String, String)| (a.0@, a.1@));
    let ghost initial_profiles = profiles@.map_values(
        |p: (String, Option<String>)| spec_profile_view(p),
    );
    let mut pool = profiles;
    let mut listed: Vec<User> = Vec::new();
    let n = authors.len();
    proof {
        assert(all_authors.subrange(0, n as int) =~= all_authors);
        assert(listed@.map_values(|u: User| u@) + spec_assemble(
            all_authors.subrange(0, n as int),
            initial_profiles,
        ) =~= spec_assemble(all_authors, initial_profiles));
    }
    let mut i: usize = 0;
    while i < n
        invariant
            n == authors@.len(),
            all_authors == authors@.map_values(|a: (String, String)| (a.0@, a.1@)),
            i <= n,
            listed@.map_values(|u: User| u@) + spec_assemble(
                all_authors.subrange(i as int, n as int),
                pool@.map_values(|p: (String, Option<String>)| spec_profile_view(p)),
            ) == spec_assemble(all_authors, initial_profiles),
        decreases n - i,
    {
        let ghost rem = all_authors.subrange(i as int, n as int);
        let ghost pool_view = pool@.map_values(
            |p: (String, Option<String>)| spec_profile_view(p),
        );
        proof {
            assert(rem[0] == all_authors[i as int]);
            assert(rem.subrange(1, rem.len() as int) =~= all_authors.subrange(i + 1, n as int));
        }
        let name = authors[i].0.as_str();
        let did = authors[i].1.as_str();
        let avatar = take_avatar(&mut pool, did);
        let user = User::new(name, did, avatar);
        let ghost before = listed@.map_values(|u: User| u@);
        listed.push(user);
        proof {
            assert(listed@.map_values(|u: User| u@) =~= before.push(user@));
            assert(user@ == spec_user(
                name@,
                did@,
                match spec_lookup_last(pool_view, did@) {
                    Option::Some(av) => av,
                    Option::None => Option::<Seq<char>>::None,
                },
            ));
            assert(before + (seq![user@] + spec_assemble(
                all_authors.subrange(i + 1, n as int),
                spec_without(pool_view, did@),
            )) =~= before.push(user@) + spec_assemble(
                all_authors.subrange(i + 1, n as int),
                spec_without(pool_view, did@),
            ));
        }
        i = i + 1;
    }
    proof {
        assert(spec_assemble(
            all_authors.subrange(n as int, n as int),
            pool@.map_values(|p: (String, Option<String>)| spec_profile_view(p)),
        ) =~= Seq::<UserView>::empty());
        assert(listed@.map_values(|u: User| u@) + Seq::<UserView>::empty() =~= listed@.map_values(
            |u: User| u@,
        ));
    }
    sort_users(listed)
}

/// The avatar of `did` among the pooled profiles, consuming every entry of
/// the identifier: the lookup reads the last entry, as a keyed collection
/// of the responses would.
fn take_avatar(pool: &mut Vec<(String, Option<String>)>, did: &str) -> (r: Option<String>)
    ensures
        ({
            let before = old(pool)@.map_values(
                |p: (String, Option<String>)| spec_profile_view(p),
            );
            let after = final(pool)@.map_values(
                |p: (String, Option<String>)| spec_profile_view(p),
            );
            &&& after == spec_without(before, did@)
            &&& (match r {
                Option::Some(s) => Option::Some(s@),
                Option::None => Option::<Seq<char>>::None,
            }) == (match spec_lookup_last(before, did@) {
                Option::Some(av) => av,
                Option::None => Option::<Seq<char>>::None,
            })
        }),
{
    let ghost before = old(pool)@.map_values(
        |p: (String, Option<String>)| spec_profile_view(p),
    );
    let n = pool.len();

    // The last entry of the identifier, if any.
    let mut found: Option<usize> = None;
    let mut j: usize = 0;
    while j < n
        invariant
            n == pool@.len(),
            pool@ == old(pool)@,
            before == old(pool)@.map_values(|p: (String, Option<String>)| spec_profile_view(p)),
            j <= n,
            (match found {
                Option::Some(k) => k < j && spec_lookup_last(before.subrange(0, j as int), did@)
                    == Option::Some(before[k as int].1) && before[k as int].0 == did@,
                Option::None => spec_lookup_last(before.subrange(0, j as int), did@) is None,
            }),
        decreases n - j,
    {
        proof {
            assert(before.subrange(0, j + 1).drop_last() =~= before.subrange(0, j as int));
            assert(before.subrange(0, j + 1).last() == before[j as int]);
            assert(before[j as int] == spec_profile_view(pool@[j as int]));
        }
        if text::str_eq(pool[j].0.as_str(), did) {
            found = Some(j);
        }
        j = j + 1;
    }
    proof {
        assert(before.subrange(0, n as int) =~= before);
    }
    let avatar = match found {
        Some(k) => match &pool[k].1 {
            Some(s) => Some(s.clone()),
            None => None,
        },
        None => None,
    };

    // Every entry of the identifier leaves the pool.
    let mut kept: Vec<(String, Option<String>)> = Vec::new();
    let mut rest = pool.split_off(0);
    let ghost mut taken: int = 0;
    proof {
        reveal(Seq::filter);
        assert(rest@.map_values(|p: (String, Option<String>)| spec_profile_view(p)) =~= before);
        assert(before.subrange(0, 0) =~= Seq::<(Seq<char>, Option<Seq<char>>)>::empty());
        assert(kept@.map_values(|p: (String, Option<String>)| spec_profile_view(p)) =~= before.subrange(0, 0).filter(
            |p: (Seq<char>, Option<Seq<char>>)| p.0 != did@,
        ));
        assert(before.subrange(0, before.len() as int) =~= before);
    }
    while rest.len() > 0
        invariant
            0 <= taken <= before.len(),
            rest@.map_values(|p: (String, Option<String>)| spec_profile_view(p)) == before.subrange(taken, before.len() as int),
            kept@.map_values(|p: (String, Option<String>)| spec_profile_view(p)) == before.subrange(0, taken).filter(
                |p: (Seq<char>, Option<Seq<char>>)| p.0 != did@,
            ),
        decreases rest@.len(),
    {
        let ghost before_rest = rest@;
        let entry = rest.remove(0);
        proof {
            assert(entry == before_rest[0]);
            assert(rest@ =~= before_rest.subrange(1, before_rest.len() as int));
            assert(rest@.map_values(|p: (String, Option<String>)| spec_profile_view(p)) =~= before_rest.map_values(|p: (String, Option<String>)| spec_profile_view(p)).subrange(
                1,
                before_rest.len() as int,
            ));
            assert(spec_profile_view(entry) == before_rest.map_values(|p: (String, Option<String>)| spec_profile_view(p))[0]);
            assert(before_rest.map_values(|p: (String, Option<String>)| spec_profile_view(p)).len() == before_rest.len());
            assert(before.len() - taken == before_rest.len());
            assert(before.subrange(taken, before.len() as int)[0] == before[taken]);
            assert(spec_profile_view(entry) == before[taken]);
            assert(rest@.map_values(|p: (String, Option<String>)| spec_profile_view(p)) =~= before.subrange(
                taken + 1,
                before.len() as int,
            ));
            assert(before.subrange(0, taken + 1) =~= before.subrange(0, taken).push(
                before[taken],
            ));
            sorting::lemma_filter_push(
                before.subrange(0, taken),
                |p: (Seq<char>, Option<Seq<char>>)| p.0 != did@,
                before[taken],
            );
        }
        if !text::str_eq(entry.0.as_str(), did) {
            kept.push(entry);
            proof {
                assert(kept@.map_values(|p: (String, Option<String>)| spec_profile_view(p)) =~= before.subrange(0, taken + 1).filter(
                    |p: (Seq<char>, Option<Seq<char>>)| p.0 != did@,
                ));
            }
        }
        proof {
            taken = taken + 1;
        }
    }
    *pool = kept;
    avatar
}

/// Sorts users by name with a stable insertion sort, as
/// [`spec_sort_users`] defines it.
fn sort_users(v: Vec<User>) -> (r: Vec<User>)
    ensures
        r@.map_values(|u: User| u@) == spec_sort_users(v@.map_values(|u: User| u@)),
{
    let ghost input = v@.map_values(|u: User| u@);
    let mut rest = v;
    let mut out: Vec<User> = Vec::new();
    let ghost mut taken: int = 0;
    proof {
        assert(input.subrange(0, 0) =~= Seq::<UserView>::empty());
        assert(out@.map_values(|u: User| u@) =~= spec_sort_users(input.subrange(0, 0)));
        assert(input.subrange(0, input.len() as int) =~= input);
    }
    while rest.len() > 0
        invariant
            0 <= taken <= input.len(),
            rest@.map_values(|u: User| u@) == input.subrange(taken, input.len() as int),
            out@.map_values(|u: User| u@) == spec_sort_users(input.subrange(0, taken)),
            spec_users_sorted(out@.map_values(|u: User| u@)),
        decreases rest@.len(),
    {
        let ghost before_rest = rest@;
        let item = rest.remove(0);
        proof {
            assert(item == before_rest[0]);
            assert(rest@ =~= before_rest.subrange(1, before_rest.len() as int));
            assert(rest@.map_values(|u: User| u@) =~= before_rest.map_values(
                |u: User| u@,
            ).subrange(1, before_rest.len() as int));
            assert(item@ == before_rest.map_values(|u: User| u@)[0]);
            assert(before_rest.map_values(|u: User| u@).len() == before_rest.len());
            assert(input.len() - taken == before_rest.len());
            assert(input.subrange(taken, input.len() as int)[0] == input[taken]);
            assert(item@ == input[taken]);
            assert(rest@.map_values(|u: User| u@) =~= input.subrange(
                taken + 1,
                input.len() as int,
            ));
        }
        let ghost prior = out@.map_values(|u: User| u@);
        let mut p: usize = 0;
        while p < out.len() && user_name_le(&out, p, &item)
            invariant
                p <= out@.len(),
                prior == out@.map_values(|u: User| u@),
                forall|k: int|
                    0 <= k < p ==> spec_str_le((#[trigger] prior[k]).name, item@.name),
                item@ == input[taken],
                spec_users_sorted(prior),
            decreases out@.len() - p,
        {
            p = p + 1;
        }
        proof {
            assert(forall|k: int|
                p <= k < prior.len() ==> !spec_str_le((#[trigger] prior[k]).name, item@.name))
                by {
                assert forall|k: int| p <= k < prior.len() implies !spec_str_le(
                    (#[trigger] prior[k]).name,
                    item@.name,
                ) by {
                    if p < prior.len() && spec_str_le(prior[k].name, item@.name) {
                        assert(spec_str_le(prior[p as int].name, prior[k].name));
                        lemma_str_le_trans(prior[p as int].name, prior[k].name, item@.name);
                    }
                }
            }
            lemma_insert_user_at(prior, item@, p as int);
        }
        out.insert(p, item);
        proof {
            assert(out@.map_values(|u: User| u@) =~= prior.subrange(0, p as int) + seq![
                input[taken],
            ] + prior.subrange(p as int, prior.len() as int));
            assert(input.subrange(0, taken + 1).drop_last() =~= input.subrange(0, taken));
            assert(input.subrange(0, taken + 1).last() == input[taken]);
            assert(out@.map_values(|u: User| u@) == spec_insert_user(prior, input[taken]));
            assert(spec_users_sorted(out@.map_values(|u: User| u@))) by {
                let cur = out@.map_values(|u: User| u@);
                assert(forall|k: int|
                    0 <= k < cur.len() ==> (#[trigger] cur[k]).name == (if k < p {
                        prior[k].name
                    } else if k == p {
                        input[taken].name
                    } else {
                        prior[k - 1].name
                    }));
                assert forall|x: int, y: int| 0 <= x <= y < cur.len() implies spec_str_le(
                    cur[x].name,
                    cur[y].name,
                ) by {
                    if x == y {
                        lemma_str_le_refl(cur[x].name);
                    } else if x == p && y > p {
                        assert(!spec_str_le(prior[y - 1].name, input[taken].name));
                        lemma_str_le_total(prior[y - 1].name, input[taken].name);
                    } else if y == p && x < p {
                    } else if x < p && y > p {
                        assert(spec_str_le(prior[x].name, prior[y - 1].name));
                    }
                }
            }
            taken = taken + 1;
        }
    }
    proof {
        assert(taken == input.len());
    }
    out
}

/// Whether the user at `p` orders at or before `item` by name.
fn user_name_le(v: &Vec<User>, p: usize, item: &User) -> (r: bool)
    requires
        p < v@.len(),
    ensures
        r == spec_str_le(v@.map_values(|u: User| u@)[p as int].name, item@.name),
{
    str_le(v[p].name.as_str(), item.name.as_str())
}

} // verus!
