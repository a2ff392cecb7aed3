//! The pieces of the GitHub GraphQL client that are pure bookkeeping: the
//! cursor state of a paged query, the merging of errors and of pages, and
//! the extraction of a response's payload.  The HTTP transport lives outside
//! the library and hands response values in.

use vstd::prelude::*;

verus! {

/// Cursor state of one fetched page.
pub struct PageInfo {
    pub end_cursor: Option<String>,
    pub has_next_page: bool,
}

/// The character view of an optional string.
pub open spec fn spec_opt_str(o: Option<String>) -> Option<Seq<char>> {
    match o {
        Option::Some(s) => Option::Some(s@),
        Option::None => Option::None,
    }
}

/// One error reported in a GraphQL response body.
#[derive(Debug)]
pub struct GraphQlError {
    pub message: String,
}

/// A decoded GraphQL response: an optional payload and optional errors.
pub struct GraphQlResponse<D> {
    pub data: Option<D>,
    pub errors: Option<Vec<GraphQlError>>,
}

impl<D> GraphQlResponse<D> {
    /// The payload if the response carries one; otherwise the reported
    /// errors, or no errors at all when the server sent neither.
    pub fn into_data(self) -> (r: Result<D, Vec<GraphQlError>>)
        ensures
            match r {
                Result::Ok(d) => self.data == Option::Some(d),
                Result::Err(e) => self.data is None && e@ == (match self.errors {
                    Option::Some(errs) => errs@,
                    Option::None => Seq::<GraphQlError>::empty(),
                }),
            },
    {
        match self.data {
            Some(d) => Ok(d),
            None => match self.errors {
                Some(errs) => Err(errs),
                None => {
                    let empty: Vec<GraphQlError> = Vec::new();
                    proof {
                        assert(empty@ =~= Seq::<GraphQlError>::empty());
                    }
                    Err(empty)
                },
            },
        }
    }
}

/// The error view of an optional error list.
pub open spec fn spec_opt_errors(o: &Option<Vec<GraphQlError>>) -> Option<Seq<GraphQlError>> {
    match o {
        Option::Some(v) => Option::Some(v@),
        Option::None => Option::None,
    }
}

/// How errors of a later page fold into the accumulated response: nothing
/// new changes nothing, the first errors are adopted, later ones appended.
pub open spec fn spec_merge_errors(
    acc: Option<Seq<GraphQlError>>,
    add: Option<Seq<GraphQlError>>,
) -> Option<Seq<GraphQlError>> {
    match add {
        Option::None => acc,
        Option::Some(a) => match acc {
            Option::None => Option::Some(a),
            Option::Some(c) => Option::Some(c + a),
        },
    }
}

/// Folds a later page's errors into the accumulated ones, as
/// [`spec_merge_errors`] describes.
pub fn merge_errors(acc: &mut Option<Vec<GraphQlError>>, add: Option<Vec<GraphQlError>>)
    ensures
        spec_opt_errors(final(acc)) == spec_merge_errors(
            spec_opt_errors(old(acc)),
            spec_opt_errors(&add),
        ),
{
    let cur = acc.take();
    match (cur, add) {
        (c, None) => {
            *acc = c;
        },
        (None, Some(a)) => {
            *acc = Some(a);
        },
        (Some(mut c), Some(mut a)) => {
            c.append(&mut a);
            *acc = Some(c);
        },
    }
}

/// Cursor state as it sits inside a fetched issue connection.
pub struct IssuePageInfo {
    pub end_cursor: Option<String>,
    pub has_next_page: bool,
}

/// One edge of an issue connection; the node may be absent.
pub struct IssueEdge<N> {
    pub node: Option<N>,
}

/// A page of issues: its cursor state and its edges.
pub struct IssueConnection<N> {
    pub page_info: IssuePageInfo,
    pub edges: Option<Vec<Option<IssueEdge<N>>>>,
}

/// The repository object of a response.
pub struct Repository<N> {
    pub issues: IssueConnection<N>,
}

/// The payload of an issue query: the repository, if the server knew it.
pub struct ResponseData<N> {
    pub repository: Option<Repository<N>>,
}

/// The edges a response carries; none when the repository or the edge list
/// is absent.
pub open spec fn spec_conn_edges<N>(d: &ResponseData<N>) -> Seq<Option<IssueEdge<N>>> {
    match d.repository {
        Option::Some(r) => match r.issues.edges {
            Option::Some(v) => v@,
            Option::None => Seq::empty(),
        },
        Option::None => Seq::empty(),
    }
}

/// The cursor state a response carries.
pub open spec fn spec_conn_page_info<N>(d: &ResponseData<N>) -> (Option<Seq<char>>, bool) {
    match d.repository {
        Option::Some(r) => (
            spec_opt_str(r.issues.page_info.end_cursor),
            r.issues.page_info.has_next_page,
        ),
        Option::None => (Option::None, false),
    }
}

/// Reads the cursor state out of a response that carries a repository.
pub fn conn_page_info<N>(data: &ResponseData<N>) -> (r: PageInfo)
    requires
        data.repository is Some,
    ensures
        spec_opt_str(r.end_cursor) == spec_conn_page_info(data).0,
        r.has_next_page == spec_conn_page_info(data).1,
{
    match &data.repository {
        Some(repo) => {
            let cursor = match &repo.issues.page_info.end_cursor {
                Some(c) => Some(c.clone()),
                None => None,
            };
            PageInfo { end_cursor: cursor, has_next_page: repo.issues.page_info.has_next_page }
        },
        None => vstd::pervasive::unreached(),
    }
}

/// Folds a later page's edges onto the accumulated response: nothing when
/// the page brought none, adoption when the accumulator had none, otherwise
/// concatenation.  The accumulated cursor state stays as it was.
pub fn conn_merge_page<N>(acc: &mut ResponseData<N>, page: ResponseData<N>)
    requires
        old(acc).repository is Some,
        page.repository is Some,
    ensures
        final(acc).repository is Some,
        spec_conn_edges(final(acc)) =~= spec_conn_edges(old(acc)) + spec_conn_edges(&page),
        spec_conn_page_info(final(acc)) == spec_conn_page_info(old(acc)),
{
    let arepo = acc.repository.take();
    match (arepo, page.repository) {
        (Some(mut ar), Some(pr)) => {
            let aedges = ar.issues.edges.take();
            match (aedges, pr.issues.edges) {
                (None, None) => {
                    ar.issues.edges = None;
                },
                (None, Some(pe)) => {
                    ar.issues.edges = Some(pe);
                },
                (Some(ae), None) => {
                    ar.issues.edges = Some(ae);
                },
                (Some(mut ae), Some(mut pe)) => {
                    ae.append(&mut pe);
                    ar.issues.edges = Some(ae);
                },
            }
            acc.repository = Some(ar);
        },
        (a, _) => {
            acc.repository = a;
            proof {
                assert(false);
            }
        },
    }
}

/// A GraphQL query whose response pages over an issue connection.  The
/// transport fetches page after page; these operations say how variables
/// carry the cursor, where the cursor state sits in a response, and how a
/// later page folds into the accumulated one.
pub trait PaginatedQuery {
    type Variables;

    type ResponseData;

    type Edge;

    /// The response carries the repository object the query pages over.
    spec fn data_wf(data: &Self::ResponseData) -> bool;

    /// The issue edges a response carries.
    spec fn spec_edges(data: &Self::ResponseData) -> Seq<Self::Edge>;

    /// The cursor state a response carries.
    spec fn spec_page_info(data: &Self::ResponseData) -> (Option<Seq<char>>, bool);

    /// The cursor a variables value carries.
    spec fn spec_after(variables: &Self::Variables) -> Option<Seq<char>>;

    /// Whether two variables values ask the same query, cursor aside.
    spec fn same_query(a: &Self::Variables, b: &Self::Variables) -> bool;

    /// Reads the cursor state out of a response.
    fn page_info(data: &Self::ResponseData) -> (r: PageInfo)
        requires
            Self::data_wf(data),
        ensures
            spec_opt_str(r.end_cursor) == Self::spec_page_info(data).0,
            r.has_next_page == Self::spec_page_info(data).1,
    ;

    /// The same query again, pointed at the page after `after`.
    fn with_after(variables: &Self::Variables, after: Option<String>) -> (r: Self::Variables)
        ensures
            Self::spec_after(&r) == spec_opt_str(after),
            Self::same_query(variables, &r),
    ;

    /// Folds a later page's edges onto the accumulated response, leaving the
    /// accumulated cursor state alone.
    fn merge_page(acc: &mut Self::ResponseData, page: Self::ResponseData)
        requires
            Self::data_wf(old(acc)),
            Self::data_wf(&page),
        ensures
            Self::data_wf(final(acc)),
            Self::spec_edges(final(acc)) =~= Self::spec_edges(old(acc)) + Self::spec_edges(&page),
            Self::spec_page_info(final(acc)) == Self::spec_page_info(old(acc)),
    ;
}

} // verus!
