//! The roadmap page's issue classification: issues of the social app's
//! repository are fetched by a paged GraphQL query, and each issue lands in
//! one of four roadmap stages according to its first recognized stage label,
//! split by whether its author is one of the app's developers.

use vstd::prelude::*;

use crate::github;
use crate::github::PaginatedQuery;
use crate::text;

verus! {

/// The paged query for the social app's roadmap issues.
pub struct SocialAppQuery;

/// Its variables: only the paging cursor.
pub struct SocialAppVariables {
    pub after: Option<String>,
}

/// An issue of the roadmap query: number, title, author and stage labels.
pub struct SocialAppIssue {
    pub number: i64,
    pub title: String,
    pub author: Option<SocialAppAuthor>,
    pub labels: Option<SocialAppLabelConnection>,
}

/// The author of an issue, by login.
pub struct SocialAppAuthor {
    pub login: String,
}

/// The labels attached to an issue.
pub struct SocialAppLabelConnection {
    pub edges: Option<Vec<Option<SocialAppLabelsEdge>>>,
}

/// One label edge; the node may be absent.
pub struct SocialAppLabelsEdge {
    pub node: Option<SocialAppLabelNode>,
}

/// One label, by name.
pub struct SocialAppLabelNode {
    pub name: String,
}

/// The response payload of the roadmap query.
pub type SocialAppResponseData = github::ResponseData<SocialAppIssue>;

impl PaginatedQuery for SocialAppQuery {
    type Variables = SocialAppVariables;

    type ResponseData = SocialAppResponseData;

    type Edge = Option<github::IssueEdge<SocialAppIssue>>;

    open spec fn data_wf(data: &SocialAppResponseData) -> bool {
        data.repository is Some
    }

    open spec fn spec_edges(data: &SocialAppResponseData) -> Seq<
        Option<github::IssueEdge<SocialAppIssue>>,
    > {
        github::spec_conn_edges(data)
    }

    open spec fn spec_page_info(data: &SocialAppResponseData) -> (Option<Seq<char>>, bool) {
        github::spec_conn_page_info(data)
    }

    open spec fn spec_after(variables: &SocialAppVariables) -> Option<Seq<char>> {
        github::spec_opt_str(variables.after)
    }

    open spec fn same_query(a: &SocialAppVariables, b: &SocialAppVariables) -> bool {
        true
    }

    fn page_info(data: &SocialAppResponseData) -> (r: github::PageInfo) {
        github::conn_page_info(data)
    }

    fn with_after(variables: &SocialAppVariables, after: Option<String>) -> (r: SocialAppVariables) {
        SocialAppVariables { after }
    }

    fn merge_page(acc: &mut SocialAppResponseData, page: SocialAppResponseData) {
        github::conn_merge_page(acc, page);
    }
}

/// The four roadmap stages an issue's label can put it in.
#[derive(Clone, Copy, Debug, PartialEq, Eq, Structural)]
pub enum Label {
    Discussing,
    OnTheRoadmap,
    Planned,
    PuttingThisOff,
}

/// The stage a label edge denotes, `None` for any other label.
pub open spec fn spec_label_parse(val: Option<SocialAppLabelsEdge>) -> Option<Label> {
    match val {
        Option::None => Option::None,
        Option::Some(edge) => match edge.node {
            Option::None => Option::None,
            Option::Some(node) => {
                if node.name@ == "x:discussing"@ {
                    Option::Some(Label::Discussing)
                } else if node.name@ == "x:on-the-roadmap"@ {
                    Option::Some(Label::OnTheRoadmap)
                } else if node.name@ == "x:planned"@ {
                    Option::Some(Label::Planned)
                } else if node.name@ == "x:putting-this-off"@ {
                    Option::Some(Label::PuttingThisOff)
                } else {
                    Option::None
                }
            },
        },
    }
}

impl Label {
    /// The stage a label edge denotes, as [`spec_label_parse`] defines it.
    pub fn parse(val: &Option<SocialAppLabelsEdge>) -> (r: Option<Label>)
        ensures
            r == spec_label_parse(*val),
    {
        match val {
            None => None,
            Some(edge) => match &edge.node {
                None => None,
                Some(node) => {
                    if text::str_eq(node.name.as_str(), "x:discussing") {
                        Some(Label::Discussing)
                    } else if text::str_eq(node.name.as_str(), "x:on-the-roadmap") {
                        Some(Label::OnTheRoadmap)
                    } else if text::str_eq(node.name.as_str(), "x:planned") {
                        Some(Label::Planned)
                    } else if text::str_eq(node.name.as_str(), "x:putting-this-off") {
                        Some(Label::PuttingThisOff)
                    } else {
                        None
                    }
                },
            },
        }
    }
}

/// Whether an issue's author is one of the app's developers.
pub open spec fn spec_is_dev(val: Option<SocialAppAuthor>) -> bool {
    match val {
        Option::None => false,
        Option::Some(author) => {
            ||| author.login@ == "ansh"@
            ||| author.login@ == "bnewbold"@
            ||| author.login@ == "devinivy"@
            ||| author.login@ == "dholms"@
            ||| author.login@ == "emilyliu7321"@
            ||| author.login@ == "ericvolp12"@
            ||| author.login@ == "estrattonbailey"@
            ||| author.login@ == "haileyok"@
            ||| author.login@ == "gaearon"@
            ||| author.login@ == "Jacob2161"@
            ||| author.login@ == "matthieusieben"@
            ||| author.login@ == "mozzius"@
            ||| author.login@ == "pfrazee"@
            ||| author.login@ == "renahlee"@
            ||| author.login@ == "whyrusleeping"@
        },
    }
}

/// Which side of the roadmap an issue sits on: the developers' or the
/// community's.
#[derive(Clone, Copy, Debug, PartialEq, Eq, Structural)]
pub enum Author {
    Devs,
    Community,
}

impl Author {
    /// Classifies an issue's author, as [`spec_is_dev`] defines it; an
    /// absent author counts as community.
    pub fn parse(val: &Option<SocialAppAuthor>) -> (r: Author)
        ensures
            (r == Author::Devs) == spec_is_dev(*val),
    {
        match val {
            None => Author::Community,
            Some(author) => {
                let login = author.login.as_str();
                if text::str_eq(login, "ansh") || text::str_eq(login, "bnewbold") || text::str_eq(
                    login,
                    "devinivy",
                ) || text::str_eq(login, "dholms") || text::str_eq(login, "emilyliu7321")
                    || text::str_eq(login, "ericvolp12") || text::str_eq(login, "estrattonbailey")
                    || text::str_eq(login, "haileyok") || text::str_eq(login, "gaearon")
                    || text::str_eq(login, "Jacob2161") || text::str_eq(login, "matthieusieben")
                    || text::str_eq(login, "mozzius") || text::str_eq(login, "pfrazee")
                    || text::str_eq(login, "renahlee") || text::str_eq(login, "whyrusleeping") {
                    Author::Devs
                } else {
                    Author::Community
                }
            },
        }
    }
}

/// One issue as the roadmap shows it.
pub struct Issue {
    number: i64,
    title: String,
}

impl View for Issue {
    type V = (int, Seq<char>);

    closed spec fn view(&self) -> (int, Seq<char>) {
        (self.number as int, self.title@)
    }
}

impl Issue {
    /// An issue from its number and title.
    pub fn new(number: i64, title: String) -> (r: Issue)
        ensures
            r@ == (number as int, title@),
    {
        Issue { number, title }
    }

    /// The issue's title.
    pub fn title(&self) -> (r: &str)
        ensures
            r@ == self@.1,
    {
        self.title.as_str()
    }

    /// The issue's address in the social app's repository.
    pub fn uri(&self) -> (r: String)
        ensures
            r@ == "https://github.com/bluesky-social/social-app/issues/"@ + text::spec_decimal_signed(
                self@.0,
            ),
    {
        let mut r: String = "https://github.com/bluesky-social/social-app/issues/".to_owned();
        r.append(text::i64_to_string(self.number).as_str());
        r
    }
}

/// The issues of one roadmap stage, split by author kind.
pub struct Issues {
    pub devs: Vec<Issue>,
    pub community: Vec<Issue>,
}

impl Issues {
    /// The developers' issues, by view.
    pub open spec fn spec_devs(&self) -> Seq<(int, Seq<char>)> {
        self.devs@.map_values(|i: Issue| i@)
    }

    /// The community's issues, by view.
    pub open spec fn spec_community(&self) -> Seq<(int, Seq<char>)> {
        self.community@.map_values(|i: Issue| i@)
    }

    /// A stage with no issues.
    pub fn new() -> (r: Issues)
        ensures
            r.spec_devs() =~= Seq::<(int, Seq<char>)>::empty(),
            r.spec_community() =~= Seq::<(int, Seq<char>)>::empty(),
    {
        let r = Issues { devs: Vec::new(), community: Vec::new() };
        proof {
            assert(r.spec_devs() =~= Seq::<(int, Seq<char>)>::empty());
            assert(r.spec_community() =~= Seq::<(int, Seq<char>)>::empty());
        }
        r
    }

    /// Appends an issue on the side its author kind selects.
    pub fn push(&mut self, author: Author, issue: Issue)
        ensures
            author == Author::Devs ==> final(self).spec_devs() == old(self).spec_devs().push(
                issue@,
            ) && final(self).spec_community() == old(self).spec_community(),
            author == Author::Community ==> final(self).spec_community() == old(
                self,
            ).spec_community().push(issue@) && final(self).spec_devs() == old(self).spec_devs(),
    {
        let ghost prior = *self;
        match author {
            Author::Devs => {
                self.devs.push(issue);
                proof {
                    assert(self.spec_devs() =~= prior.spec_devs().push(issue@));
                }
            },
            Author::Community => {
                self.community.push(issue);
                proof {
                    assert(self.spec_community() =~= prior.spec_community().push(issue@));
                }
            },
        }
    }
}

/// The abstract contents of a roadmap: each stage's issues, by view.
pub struct RoadmapLists {
    pub discussing_devs: Seq<(int, Seq<char>)>,
    pub discussing_community: Seq<(int, Seq<char>)>,
    pub planned_devs: Seq<(int, Seq<char>)>,
    pub planned_community: Seq<(int, Seq<char>)>,
    pub on_roadmap_devs: Seq<(int, Seq<char>)>,
    pub on_roadmap_community: Seq<(int, Seq<char>)>,
    pub putting_off_devs: Seq<(int, Seq<char>)>,
    pub putting_off_community: Seq<(int, Seq<char>)>,
}

/// A roadmap with no issues, abstractly.
pub open spec fn spec_empty_roadmap() -> RoadmapLists {
    RoadmapLists {
        discussing_devs: Seq::empty(),
        discussing_community: Seq::empty(),
        planned_devs: Seq::empty(),
        planned_community: Seq::empty(),
        on_roadmap_devs: Seq::empty(),
        on_roadmap_community: Seq::empty(),
        putting_off_devs: Seq::empty(),
        putting_off_community: Seq::empty(),
    }
}

/// The issues grouped by stage, as the roadmap page shows them.
pub struct Roadmap {
    pub discussing: Issues,
    pub planned: Issues,
    pub on_roadmap: Issues,
    pub putting_off: Issues,
}

impl View for Roadmap {
    type V = RoadmapLists;

    open spec fn view(&self) -> RoadmapLists {
        RoadmapLists {
            discussing_devs: self.discussing.spec_devs(),
            discussing_community: self.discussing.spec_community(),
            planned_devs: self.planned.spec_devs(),
            planned_community: self.planned.spec_community(),
            on_roadmap_devs: self.on_roadmap.spec_devs(),
            on_roadmap_community: self.on_roadmap.spec_community(),
            putting_off_devs: self.putting_off.spec_devs(),
            putting_off_community: self.putting_off.spec_community(),
        }
    }
}

impl Roadmap {
    /// A roadmap with no issues.
    pub fn new() -> (r: Roadmap)
        ensures
            r@ == spec_empty_roadmap(),
    {
        let r = Roadmap {
            discussing: Issues::new(),
            planned: Issues::new(),
            on_roadmap: Issues::new(),
            putting_off: Issues::new(),
        };
        proof {
            assert(r@ =~= spec_empty_roadmap());
        }
        r
    }
}

/// The first recognized stage label among an issue's label edges.
pub open spec fn spec_first_label(edges: Seq<Option<SocialAppLabelsEdge>>) -> Option<Label>
    decreases edges.len(),
{
    if edges.len() == 0 {
        Option::None
    } else {
        match spec_label_parse(edges[0]) {
            Option::Some(l) => Option::Some(l),
            Option::None => spec_first_label(edges.subrange(1, edges.len() as int)),
        }
    }
}

/// The stage of an issue: the first recognized label, if any.
pub open spec fn spec_issue_label(issue: SocialAppIssue) -> Option<Label> {
    match issue.labels {
        Option::None => Option::None,
        Option::Some(lc) => match lc.edges {
            Option::None => Option::None,
            Option::Some(v) => spec_first_label(v@),
        },
    }
}

/// Adds one issue view to the stage and side its label and author select.
pub open spec fn spec_push_issue(
    acc: RoadmapLists,
    label: Label,
    dev: bool,
    issue: (int, Seq<char>),
) -> RoadmapLists {
    match label {
        Label::Discussing => {
            if dev {
                RoadmapLists { discussing_devs: acc.discussing_devs.push(issue), ..acc }
            } else {
                RoadmapLists { discussing_community: acc.discussing_community.push(issue), ..acc }
            }
        },
        Label::Planned => {
            if dev {
                RoadmapLists { planned_devs: acc.planned_devs.push(issue), ..acc }
            } else {
                RoadmapLists { planned_community: acc.planned_community.push(issue), ..acc }
            }
        },
        Label::OnTheRoadmap => {
            if dev {
                RoadmapLists { on_roadmap_devs: acc.on_roadmap_devs.push(issue), ..acc }
            } else {
                RoadmapLists { on_roadmap_community: acc.on_roadmap_community.push(issue), ..acc }
            }
        },
        Label::PuttingThisOff => {
            if dev {
                RoadmapLists { putting_off_devs: acc.putting_off_devs.push(issue), ..acc }
            } else {
                RoadmapLists { putting_off_community: acc.putting_off_community.push(issue), ..acc }
            }
        },
    }
}

/// The effect of one issue edge on the roadmap: nothing without a node or a
/// recognized stage label.
pub open spec fn spec_classify(
    acc: RoadmapLists,
    e: Option<github::IssueEdge<SocialAppIssue>>,
) -> RoadmapLists {
    match e {
        Option::None => acc,
        Option::Some(edge) => match edge.node {
            Option::None => acc,
            Option::Some(node) => match spec_issue_label(node) {
                Option::None => acc,
                Option::Some(l) => spec_push_issue(
                    acc,
                    l,
                    spec_is_dev(node.author),
                    (node.number as int, node.title@),
                ),
            },
        },
    }
}

/// The roadmap built from a sequence of issue edges, in order.
pub open spec fn spec_build(
    acc: RoadmapLists,
    edges: Seq<Option<github::IssueEdge<SocialAppIssue>>>,
) -> RoadmapLists
    decreases edges.len(),
{
    if edges.len() == 0 {
        acc
    } else {
        spec_build(spec_classify(acc, edges[0]), edges.subrange(1, edges.len() as int))
    }
}

/// The first recognized stage label among an issue's label edges, as
/// [`spec_first_label`] defines it.
fn first_label(edges: &Vec<Option<SocialAppLabelsEdge>>) -> (r: Option<Label>)
    ensures
        r == spec_first_label(edges@),
{
    let n = edges.len();
    proof {
        assert(edges@.subrange(0, n as int) =~= edges@);
    }
    let mut k: usize = 0;
    while k < n
        invariant
            n == edges@.len(),
            k <= n,
            spec_first_label(edges@) == spec_first_label(edges@.subrange(k as int, n as int)),
        decreases n - k,
    {
        let ghost rem = edges@.subrange(k as int, n as int);
        proof {
            assert(rem[0] == edges@[k as int]);
            assert(rem.subrange(1, rem.len() as int) =~= edges@.subrange(k + 1, n as int));
        }
        match Label::parse(&edges[k]) {
            Some(l) => {
                return Some(l);
            },
            None => {},
        }
        k = k + 1;
    }
    proof {
        assert(spec_first_label(edges@.subrange(n as int, n as int)) is None);
    }
    None
}

/// Classifies every issue of a fetched response into the roadmap, as
/// [`spec_build`] defines it.
pub fn build_roadmap(data: SocialAppResponseData) -> (r: Roadmap)
    ensures
        r@ == spec_build(spec_empty_roadmap(), github::spec_conn_edges(&data)),
{
    let ghost all = github::spec_conn_edges(&data);
    let mut roadmap = Roadmap::new();
    match data.repository {
        None => {
            proof {
                assert(all =~= Seq::<Option<github::IssueEdge<SocialAppIssue>>>::empty());
            }
            roadmap
        },
        Some(repo) => match repo.issues.edges {
            None => {
                proof {
                    assert(all =~= Seq::<Option<github::IssueEdge<SocialAppIssue>>>::empty());
                }
                roadmap
            },
            Some(edges) => {
                let n = edges.len();
                let mut i: usize = 0;
                proof {
                    assert(all == edges@);
                    assert(all.subrange(0, n as int) =~= all);
                }
                while i < n
                    invariant
                        n == edges@.len(),
                        i <= n,
                        all == edges@,
                        spec_build(roadmap@, all.subrange(i as int, n as int)) == spec_build(
                            spec_empty_roadmap(),
                            all,
                        ),
                    decreases n - i,
                {
                    let ghost rem = all.subrange(i as int, n as int);
                    let ghost before = roadmap@;
                    proof {
                        assert(rem[0] == all[i as int]);
                        assert(rem.subrange(1, rem.len() as int) =~= all.subrange(
                            i + 1,
                            n as int,
                        ));
                    }
                    match &edges[i] {
                        None => {},
                        Some(edge) => match &edge.node {
                            None => {},
                            Some(node) => {
                                let label = match &node.labels {
                                    None => None,
                                    Some(lc) => match &lc.edges {
                                        None => None,
                                        Some(v) => first_label(v),
                                    },
                                };
                                match label {
                                    None => {},
                                    Some(l) => {
                                        let author = Author::parse(&node.author);
                                        let issue = Issue::new(node.number, node.title.clone());
                                        proof {
                                            assert(issue@ == (
                                                node.number as int,
                                                node.title@,
                                            ));
                                        }
                                        match l {
                                            Label::Discussing => roadmap.discussing.push(
                                                author,
                                                issue,
                                            ),
                                            Label::OnTheRoadmap => roadmap.on_roadmap.push(
                                                author,
                                                issue,
                                            ),
                                            Label::Planned => roadmap.planned.push(author, issue),
                                            Label::PuttingThisOff => roadmap.putting_off.push(
                                                author,
                                                issue,
                                            ),
                                        }
                                    },
                                }
                            },
                        },
                    }
                    proof {
                        assert(roadmap@ =~= spec_classify(before, all[i as int]));
                    }
                    i = i + 1;
                }
                proof {
                    assert(all.subrange(n as int, n as int) =~= Seq::<
                        Option<github::IssueEdge<SocialAppIssue>>,
                    >::empty());
                }
                roadmap
            },
        },
    }
}

} // verus!
