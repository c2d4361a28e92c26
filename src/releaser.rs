//! Choosing the next version and tagging HEAD with it.
use vstd::prelude::*;

use git2::Error;
use git2::Oid;
use vstd::string::StringExecFns;

use crate::calver::format_text;
use crate::calver::next_in;
use crate::calver::CalDate;
use crate::calver::CalVer;
use crate::repo::error_with_message;
use crate::repo::is_zero_commit;
use crate::repo::same_commit;
use crate::repo::zero_id;
use crate::repo::RepositoryExt;
use crate::repo_release::find_latest_release;
use crate::repo_release::is_last_release;
use crate::repo_release::Release;

verus! {

/// Whether HEAD may get a new release tag: there is a HEAD commit, and it is
/// not the commit of the last release, unless that release is the sentinel.
pub fn releasable(head: Option<Oid>, last_id: &Oid, last_is_sentinel: bool) -> (r: bool)
    ensures
        r == (head matches Some(h) && (h != *last_id || last_is_sentinel)),
{
    match head {
        Some(h) => !same_commit(&h, last_id) || last_is_sentinel,
        None => false,
    }
}

/// HEAD may get a release tag: it exists, and it is not the commit of `last`
/// unless `last` sits on the all-zero id of the sentinel.
pub open spec fn may_release(head: Option<Oid>, last: Release) -> bool {
    head matches Some(h) && (h != last.commit_id || last.commit_id == zero_id())
}

/// Decides and records releases of one repository.
pub struct Releaser<'a, R: RepositoryExt> {
    pub repo: &'a R,
}

impl<'a, R: RepositoryExt> Releaser<'a, R> {
    pub fn new(repo: &'a R) -> (r: Releaser<'a, R>)
        ensures
            r.repo == repo,
    {
        Releaser { repo }
    }

    /// The newest release on HEAD's first-parent line, or the sentinel
    /// release when there is none.
    pub fn last_release(&self) -> (r: Release)
        ensures
            is_last_release(r),
    {
        match find_latest_release(self.repo) {
            Some(r) => r,
            None => Release::zero(),
        }
    }

    /// The version that follows the last release at the current local time;
    /// `None` when the current month has no revision left above it.
    pub fn next_version(&self) -> (r: Option<CalVer>)
        ensures
            exists|last: Release, d: CalDate| is_last_release(last) && 1 <= d.month <= 12 && r
                == #[trigger] next_in(last.version, d),
    {
        let last = self.last_release();
        last.version.next_version()
    }

    /// Whether HEAD can be tagged: it exists and does not already carry the
    /// last release, or no release was ever made.
    pub fn is_releasable(&self) -> (r: bool)
        ensures
            exists|head: Option<Oid>, last: Release| is_last_release(last) && r == #[trigger] may_release(head, last),
    {
        let last = self.last_release();
        let head = match self.repo.head_commit() {
            Ok(id) => Some(id),
            Err(_) => None,
        };
        let r = releasable(head, &last.commit_id, is_zero_commit(&last.commit_id));
        assert(r == may_release(head, last));
        r
    }

    /// Tags HEAD with the next version; fails without tagging when the
    /// current month has no revision left above the last release.
    pub fn bump(&self, message: &str, lightweight: bool) -> (r: Result<CalVer, Error>)
        ensures
            exists|last: Release, d: CalDate| is_last_release(last) && 1 <= d.month <= 12 && match #[trigger] next_in(last.version, d) {
                Some(v) => r matches Ok(w) ==> w == v,
                None => r is Err,
            },
    {
        match self.next_version() {
            Some(v) => self.bump_to(v, message, lightweight),
            None => Err(error_with_message("no revision is left for this month")),
        }
    }

    /// Tags HEAD with the text form of `version`: a bare tag when
    /// `lightweight`, else an annotated one with `message` and the
    /// repository's default identity. Failures of the repository come back
    /// as they are.
    pub fn bump_to(&self, version: CalVer, message: &str, lightweight: bool) -> (r: Result<CalVer, Error>)
        ensures
            r matches Ok(v) ==> v == version,
    {
        let request = tag_request(version, message, lightweight);
        let head = match self.repo.head_commit() {
            Ok(id) => id,
            Err(e) => return Err(e),
        };
        let result = if request.lightweight {
            self.repo.create_lightweight_tag(request.name.as_str(), head)
        } else {
            self.repo.create_annotated_tag(request.name.as_str(), head, request.message.as_str())
        };
        match result {
            Ok(_) => Ok(version),
            Err(e) => Err(e),
        }
    }
}

/// The tag that records a release: its name, whether it is a bare tag, and
/// the message of an annotated one.
pub struct TagRequest {
    pub name: String,
    pub lightweight: bool,
    pub message: String,
}

/// The tag for `version`: named by its text form; a bare tag without message
/// when `lightweight`, else an annotated tag with `message`.
pub fn tag_request(version: CalVer, message: &str, lightweight: bool) -> (r: TagRequest)
    ensures
        r.name@ == format_text(version),
        r.lightweight == lightweight,
        r.message@ == if lightweight { Seq::<char>::empty() } else { message@ },
{
    let text = if lightweight { String::new() } else { <String as StringExecFns>::from_str(message) };
    TagRequest { name: version.to_string(), lightweight, message: text }
}

} // verus!
