//! The directory-listing responder: request path handling, the listing page
//! for one request, and the mapping of the listing outcome to an HTTP status
//! and body.

use vstd::prelude::*;

use crate::entry::{all_wf, models, unique_names, ListEntry};
use crate::listing::{build_listing, listing_spec, no_parent_name};
use crate::render::{render_html, render_spec};
use crate::sizefmt::{human_size, human_size_string};
use crate::time::{clamp_ts, current_timestamp, ts_in_range};

verus! {

/// Leading path separators removed, as the responder derives the subpath from
/// the request path.
pub open spec fn strip_slashes_spec(s: Seq<char>) -> Seq<char>
    decreases s.len(),
{
    if s.len() > 0 && s[0] == '/' {
        strip_slashes_spec(s.drop_first())
    } else {
        s
    }
}

/// Whether a stripped subpath denotes the served root.
pub open spec fn is_root_spec(sub: Seq<char>) -> bool {
    sub.len() == 0 || sub == "/"@
}

proof fn lemma_strip_skip(s: Seq<char>, i: int)
    requires
        0 <= i <= s.len(),
        forall|j: int| 0 <= j < i ==> s[j] == '/',
    ensures
        strip_slashes_spec(s) == strip_slashes_spec(s.skip(i)),
    decreases i,
{
    if i > 0 {
        lemma_strip_skip(s.drop_first(), i - 1);
        assert(s.drop_first().skip(i - 1) =~= s.skip(i));
    } else {
        assert(s.skip(0) =~= s);
    }
}

/// Strips every leading path separator from a request path.
pub fn strip_leading_slashes(path: &str) -> (r: &str)
    ensures
        r@ == strip_slashes_spec(path@),
{
    let len = path.unicode_len();
    let mut i: usize = 0;
    while i < len && path.get_char(i) == '/'
        invariant
            len == path@.len(),
            i <= len,
            forall|j: int| 0 <= j < i ==> path@[j] == '/',
        decreases len - i,
    {
        i += 1;
    }
    let r = path.substring_char(i, len);
    proof {
        lemma_strip_skip(path@, i as int);
        assert(r@ =~= path@.skip(i as int));
        if i < len {
            assert(path@.skip(i as int)[0] == path@[i as int]);
        } else {
            assert(path@.skip(i as int).len() == 0);
        }
    }
    r
}

/// Whether the stripped subpath `sub` denotes the served root.
pub fn is_root_path(sub: &str) -> (r: bool)
    ensures
        r == is_root_spec(sub@),
{
    proof {
        reveal_strlit("/");
    }
    let len = sub.unicode_len();
    if len == 0 {
        true
    } else if len == 1 {
        let c = sub.get_char(0);
        proof {
            if c == '/' {
                assert(sub@ =~= "/"@);
            } else {
                assert(sub@[0] != "/"@[0]);
            }
        }
        c == '/'
    } else {
        proof {
            assert(sub@.len() != "/"@.len());
        }
        false
    }
}

/// A plain HTTP reply: a status code and a body.
pub struct HttpReply {
    /// The HTTP status code.
    pub status: u16,
    /// The response body.
    pub body: String,
}

/// The decision at the responder boundary: a successful listing becomes a
/// 200 reply carrying the page; any listing failure becomes a 500 reply with
/// a fixed plain-text body, never a success.
pub fn respond(outcome: Result<String, String>) -> (r: HttpReply)
    ensures
        outcome matches Result::Ok(page) ==> r.status == 200 && r.body@ == page@,
        outcome matches Result::Err(_) ==> r.status == 500 && r.body@
            == "internal server error"@,
{
    match outcome {
        Result::Ok(page) => HttpReply { status: 200, body: page },
        Result::Err(_) => HttpReply {
            status: 500,
            body: String::from_str("internal server error"),
        },
    }
}

/// The directory-listing responder: serves listings for the subtree under
/// its root.
#[derive(Debug, Clone)]
pub struct DirListService {
    /// The configured root directory path.
    pub root: String,
}

impl DirListService {
    /// A responder for the subtree under `root`.
    pub fn new(root: String) -> (s: Self)
        ensures
            s.root@ == root@,
    {
        DirListService { root }
    }

    /// Appends the human-readable rendering of `size` bytes to `output`.
    pub fn push_human_size(size: u64, output: &mut String)
        ensures
            final(output)@ == old(output)@ + human_size(size),
    {
        let s = human_size_string(size);
        output.append(s.as_str());
    }

    /// The listing page for the children of one directory, dated `now`: the
    /// parent row is injected if and only if `subpath` is not the root, the
    /// rows are sorted under the ordering policy, and the page is rendered
    /// row by row.
    pub fn render_listing(subpath: &str, children: Vec<ListEntry>, now: i64) -> (r: String)
        requires
            all_wf(models(children@)),
            unique_names(models(children@)),
            no_parent_name(models(children@)),
        ensures
            r@ == render_spec(
                listing_spec(models(children@), is_root_spec(subpath@), clamp_ts(now as int)),
            ),
    {
        let is_root = is_root_path(subpath);
        let rows = build_listing(children, is_root, now);
        render_html(&rows)
    }

    /// The listing page for one request, with the parent row dated by the
    /// current clock: some in-range instant dates the page, and everything
    /// else is fixed by the children and the subpath.
    pub fn render_directory_listing(&self, subpath: &str, children: Vec<ListEntry>) -> (r:
        String)
        requires
            all_wf(models(children@)),
            unique_names(models(children@)),
            no_parent_name(models(children@)),
        ensures
            exists|now: int|
                ts_in_range(now) && r@ == render_spec(
                    #[trigger] listing_spec(models(children@), is_root_spec(subpath@), now),
                ),
    {
        let now = current_timestamp();
        let r = Self::render_listing(subpath, children, now);
        proof {
            assert(clamp_ts(now as int) == now as int);
        }
        r
    }
}

} // verus!
