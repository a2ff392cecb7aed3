//! The personal site's feed client logic: where an XRPC method is queried,
//! what each response status means, and how a post is rendered — its text
//! as paragraphs, its images as blob addresses, its age in words.

use vstd::prelude::*;
use vstd::string::StringExecFns;

use crate::text;

verus! {

/// The address of an XRPC method on the session host.
pub fn query_url(method_id: &str) -> (r: String)
    ensures
        r@ == "https://bsky.social/xrpc/"@ + method_id@,
{
    let mut r: String = "https://bsky.social/xrpc/".to_owned();
    r.append(method_id);
    r
}

/// What a failed XRPC call reports, by response status.
#[derive(Clone, Copy, Debug, PartialEq, Eq, Structural)]
pub enum XrpcError {
    /// The request is invalid and was not processed.
    InvalidRequest,
    /// The request cannot be processed without authentication.
    AuthRequired,
    /// The user lacks the needed permissions to access the method.
    Forbidden,
    /// The server speaks no XRPC at this address.
    XrpcNotSupported,
    /// The payload of the request is larger than the server is willing to
    /// process.
    PayloadTooLarge,
    /// The client has sent too many requests.
    RateLimitExceeded,
    /// The server reached an unexpected condition during processing.
    InternalServerError,
    /// The server does not implement the requested method.
    MethodNotImplemented,
    /// A call to another server, which the procedure depends on, failed.
    UpstreamRequestFailed,
    /// The server is under heavy load and cannot complete the request.
    NotEnoughResources,
    /// A call to another server, which the procedure depends on, timed out.
    UpstreamRequestTimeout,
}

/// Sorts a response status into success or one of the XRPC failure kinds,
/// exactly as the protocol's status table reads.
pub fn classify_status(status: u16) -> (r: Result<(), XrpcError>)
    requires
        100 <= status < 600,
    ensures
        r == (if 200 <= status < 300 {
            Result::<(), XrpcError>::Ok(())
        } else if status == 401 {
            Result::<(), XrpcError>::Err(XrpcError::AuthRequired)
        } else if status == 403 {
            Result::<(), XrpcError>::Err(XrpcError::Forbidden)
        } else if status == 404 || 100 <= status < 200 || 300 <= status < 400 {
            Result::<(), XrpcError>::Err(XrpcError::XrpcNotSupported)
        } else if status == 413 {
            Result::<(), XrpcError>::Err(XrpcError::PayloadTooLarge)
        } else if status == 429 {
            Result::<(), XrpcError>::Err(XrpcError::RateLimitExceeded)
        } else if 400 <= status < 500 {
            Result::<(), XrpcError>::Err(XrpcError::InvalidRequest)
        } else if status == 501 {
            Result::<(), XrpcError>::Err(XrpcError::MethodNotImplemented)
        } else if status == 502 {
            Result::<(), XrpcError>::Err(XrpcError::UpstreamRequestFailed)
        } else if status == 503 {
            Result::<(), XrpcError>::Err(XrpcError::NotEnoughResources)
        } else if status == 504 {
            Result::<(), XrpcError>::Err(XrpcError::UpstreamRequestTimeout)
        } else {
            Result::<(), XrpcError>::Err(XrpcError::InternalServerError)
        }),
{
    if 200 <= status && status < 300 {
        Ok(())
    } else if status == 401 {
        Err(XrpcError::AuthRequired)
    } else if status == 403 {
        Err(XrpcError::Forbidden)
    } else if status == 404 || status < 200 || (300 <= status && status < 400) {
        Err(XrpcError::XrpcNotSupported)
    } else if status == 413 {
        Err(XrpcError::PayloadTooLarge)
    } else if status == 429 {
        Err(XrpcError::RateLimitExceeded)
    } else if 400 <= status && status < 500 {
        Err(XrpcError::InvalidRequest)
    } else if status == 501 {
        Err(XrpcError::MethodNotImplemented)
    } else if status == 502 {
        Err(XrpcError::UpstreamRequestFailed)
    } else if status == 503 {
        Err(XrpcError::NotEnoughResources)
    } else if status == 504 {
        Err(XrpcError::UpstreamRequestTimeout)
    } else {
        Err(XrpcError::InternalServerError)
    }
}

/// One image attached to a post: its alt text and its blob link.
pub struct PostImage {
    pub alt: String,
    pub link: String,
}

/// One feed post: its text, its images, and when it was created (Unix
/// seconds).
pub struct Post {
    pub text: String,
    pub images: Vec<PostImage>,
    pub created_at: i64,
}

/// What [`timeago_between`] returns: how long before `now` the time `from`
/// lies, in words.
pub uninterp spec fn ago_text(from: int, now: int) -> Seq<char>;

/// Relies on `timeago::Formatter::convert_chrono` with the default English
/// formatter: the rendered age depends only on the two times, and the bound
/// keeps both within the range `chrono` accepts for a timestamp.
#[verifier::external_body]
fn timeago_between(from: i64, now: i64) -> (r: String)
    requires
        -8_000_000_000_000 <= from <= 8_000_000_000_000,
        -8_000_000_000_000 <= now <= 8_000_000_000_000,
    ensures
        r@ == ago_text(from as int, now as int),
{
    let f = chrono::DateTime::<chrono::Utc>::from_timestamp(from, 0).unwrap();
    let t = chrono::DateTime::<chrono::Utc>::from_timestamp(now, 0).unwrap();
    timeago::Formatter::new().convert_chrono(f, t)
}

impl Post {
    /// The post's text as HTML paragraphs: blank lines split paragraphs and
    /// single newlines become line breaks.
    pub fn formatted_text(&self) -> (r: String)
        ensures
            r@ == "<p>"@ + text::spec_replace(
                text::spec_replace(self.text@, "\n\n"@, "</p><p>"@),
                "\n"@,
                "<br>"@,
            ) + "</p>"@,
    {
        proof {
            reveal_strlit("\n\n");
            reveal_strlit("\n");
        }
        let paragraphs = text::replace(self.text.as_str(), "\n\n", "</p><p>");
        let breaks = text::replace(paragraphs.as_str(), "\n", "<br>");
        let mut r: String = "<p>".to_owned();
        r.append(breaks.as_str());
        r.append("</p>");
        r
    }

    /// The blob address of each image, with its alt text: the `getBlob`
    /// call of the fixed repository, keyed by the image's link.
    pub fn images(&self) -> (r: Vec<(String, String)>)
        ensures
            r@.len() == self.images@.len(),
            forall|i: int|
                0 <= i < r@.len() ==> (#[trigger] r@[i]).0@ == "https://bsky.social/xrpc/"@
                    + "com.atproto.sync.getBlob?did=did:plc:mzwculbn44rdeouyzjp4y6gx&cid="@
                    + self.images@[i].link@ && r@[i].1@ == self.images@[i].alt@,
    {
        let mut r: Vec<(String, String)> = Vec::new();
        let mut i: usize = 0;
        while i < self.images.len()
            invariant
                i <= self.images@.len(),
                r@.len() == i,
                forall|k: int|
                    0 <= k < i ==> (#[trigger] r@[k]).0@ == "https://bsky.social/xrpc/"@
                        + "com.atproto.sync.getBlob?did=did:plc:mzwculbn44rdeouyzjp4y6gx&cid="@
                        + self.images@[k].link@ && r@[k].1@ == self.images@[k].alt@,
            decreases self.images@.len() - i,
        {
            let mut method: String =
                "com.atproto.sync.getBlob?did=did:plc:mzwculbn44rdeouyzjp4y6gx&cid=".to_owned();
            method.append(self.images[i].link.as_str());
            let url = query_url(method.as_str());
            r.push((url, self.images[i].alt.clone()));
            i = i + 1;
        }
        r
    }

    /// How long ago the post was created, in words, relative to `now`.
    pub fn ago(&self, now: i64) -> (r: String)
        requires
            -8_000_000_000_000 <= self.created_at <= 8_000_000_000_000,
            -8_000_000_000_000 <= now <= 8_000_000_000_000,
        ensures
            r@ == ago_text(self.created_at as int, now as int),
    {
        timeago_between(self.created_at, now)
    }
}

} // verus!
