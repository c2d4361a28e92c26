//! The repository primitives that the release logic consumes, and their
//! implementation on a git repository.
use vstd::prelude::*;

use git2::Error;
use git2::Oid;
use git2::Repository;

verus! {

#[verifier::external_type_specification]
#[verifier::external_body]
pub struct ExOid(Oid);

#[verifier::external_type_specification]
#[verifier::external_body]
pub struct ExError(Error);

#[verifier::external_type_specification]
#[verifier::external_body]
pub struct ExRepository(Repository);

/// Relies on `Oid`'s `PartialEq`, which compares the raw object ids byte by
/// byte (`git_oid_equal`).
#[verifier::external_body]
pub(crate) fn same_commit(a: &Oid, b: &Oid) -> (r: bool)
    ensures
        r == (*a == *b),
{
    *a == *b
}

/// The all-zero object id, which no commit has.
pub closed spec fn zero_id() -> Oid {
    arbitrary()
}

/// Relies on `Oid::ZERO_SHA1`: the all-zero object id.
#[verifier::external_body]
pub(crate) fn zero_commit() -> (r: Oid)
    ensures
        r == zero_id(),
{
    Oid::ZERO_SHA1
}

/// Relies on `Oid::is_zero`: whether every byte of the id is zero, that is,
/// whether it equals the all-zero id (`Oid`'s equality compares bytes).
#[verifier::external_body]
pub(crate) fn is_zero_commit(id: &Oid) -> (r: bool)
    ensures
        r == (*id == zero_id()),
{
    id.is_zero()
}

/// Relies on `Error::from_str`: an error that carries the given message.
#[verifier::external_body]
pub(crate) fn error_with_message(message: &str) -> Error {
    Error::from_str(message)
}

/// What the release logic needs from a repository. Every answer comes from
/// the store as it is at the time of the call.
pub trait RepositoryExt {
    /// The commit that HEAD resolves to.
    fn head_commit(&self) -> Result<Oid, Error>;

    /// The first parent of the commit `id`, if it has one.
    fn first_parent(&self, id: Oid) -> Option<Oid>;

    /// The names of all tags.
    fn tag_list(&self) -> Vec<String>;

    /// The commit that the tag `name` points at, if it resolves to one.
    fn resolve_tag(&self, name: &str) -> Option<Oid>;

    /// Creates the bare tag `name` at `target`.
    fn create_lightweight_tag(&self, name: &str, target: Oid) -> Result<(), Error>;

    /// Creates the tag `name` at `target` with `message`, signed by the
    /// repository's default identity.
    fn create_annotated_tag(&self, name: &str, target: Oid, message: &str) -> Result<(), Error>;
}

/// Relies on `Repository::head` and `Reference::peel_to_commit`.
#[verifier::external_body]
fn git_head_commit(repo: &Repository) -> Result<Oid, Error> {
    Ok(repo.head()?.peel_to_commit()?.id())
}

/// Relies on `Repository::find_commit` and `Commit::parent_id`.
#[verifier::external_body]
fn git_first_parent(repo: &Repository, id: Oid) -> Option<Oid> {
    repo.find_commit(id).ok()?.parent_id(0).ok()
}

/// Relies on `Repository::tag_names`; names that are not UTF-8 are left out,
/// and a failed listing gives no names.
#[verifier::external_body]
fn git_tag_names(repo: &Repository) -> Vec<String> {
    match repo.tag_names(None) {
        Ok(names) => names.iter().flat_map(|s| s.ok().flatten().map(String::from)).collect(),
        Err(_) => Vec::new(),
    }
}

/// Relies on `Repository::resolve_reference_from_short_name` and
/// `Reference::peel_to_commit`.
#[verifier::external_body]
fn git_resolve_tag(repo: &Repository, name: &str) -> Option<Oid> {
    let reference = repo.resolve_reference_from_short_name(name).ok()?;
    Some(reference.peel_to_commit().ok()?.id())
}

/// Relies on `Repository::find_object` and `Repository::tag_lightweight`.
#[verifier::external_body]
fn git_tag_lightweight(repo: &Repository, name: &str, target: Oid) -> Result<(), Error> {
    let object = repo.find_object(target, None)?;
    repo.tag_lightweight(name, &object, false).map(|_| ())
}

/// Relies on `Repository::signature`, `Repository::find_object` and
/// `Repository::tag`.
#[verifier::external_body]
fn git_tag_annotated(repo: &Repository, name: &str, target: Oid, message: &str) -> Result<(), Error> {
    let tagger = repo.signature()?;
    let object = repo.find_object(target, None)?;
    repo.tag(name, &object, &tagger, message, false).map(|_| ())
}

impl RepositoryExt for Repository {
    fn head_commit(&self) -> Result<Oid, Error> {
        git_head_commit(self)
    }

    fn first_parent(&self, id: Oid) -> Option<Oid> {
        git_first_parent(self, id)
    }

    fn tag_list(&self) -> Vec<String> {
        git_tag_names(self)
    }

    fn resolve_tag(&self, name: &str) -> Option<Oid> {
        git_resolve_tag(self, name)
    }

    fn create_lightweight_tag(&self, name: &str, target: Oid) -> Result<(), Error> {
        git_tag_lightweight(self, name, target)
    }

    fn create_annotated_tag(&self, name: &str, target: Oid, message: &str) -> Result<(), Error> {
        git_tag_annotated(self, name, target, message)
    }
}

/// Calls `callback` on `start` and then on each first parent in turn, and
/// returns the first answer that is not `None`.
pub fn walk_history<R: RepositoryExt, T, C: Fn(Oid) -> Option<T>>(repo: &R, start: Oid, callback: C) -> (r: Option<T>)
    requires
        forall|id: Oid| callback.requires((id,)),
    ensures
        r is None ==> exists|ids: Seq<Oid>| ids.len() >= 1 && ids[0] == start && forall|i: int|
            0 <= i < ids.len() ==> callback.ensures((#[trigger] ids[i],), None::<T>),
        r matches Some(t) ==> exists|ids: Seq<Oid>| ids.len() >= 1 && ids[0] == start
            && callback.ensures((ids.last(),), Some(t)) && forall|i: int| 0 <= i < ids.len() - 1
            ==> callback.ensures((#[trigger] ids[i],), None::<T>),
{
    let mut cursor = start;
    let ghost mut visited: Seq<Oid> = Seq::empty();
    // A first-parent line is shorter than the u64 range: the bound only
    // gives the walk a measure.
    let mut steps: u64 = 0;
    while steps < u64::MAX
        invariant
            forall|id: Oid| callback.requires((id,)),
            visited.len() == steps,
            steps == 0 ==> cursor == start,
            steps > 0 ==> visited[0] == start,
            forall|i: int| 0 <= i < visited.len() ==> callback.ensures((#[trigger] visited[i],), None::<T>),
        decreases u64::MAX - steps,
    {
        let answer = callback(cursor);
        let ghost ids = visited.push(cursor);
        match answer {
            Some(t) => {
                assert(ids.last() == cursor);
                assert(forall|i: int| 0 <= i < ids.len() - 1 ==> ids[i] == visited[i]);
                return Some(t);
            },
            None => {},
        }
        proof {
            assert(forall|i: int| 0 <= i < visited.len() ==> ids[i] == visited[i]);
            visited = ids;
        }
        match repo.first_parent(cursor) {
            Some(parent) => cursor = parent,
            None => {
                assert(visited.len() >= 1 && visited[0] == start);
                return None;
            },
        }
        steps = steps + 1;
    }
    None
}

/// Walks commit ids along first parents: the start commit, then its first
/// parent, and so on up to a root.
pub struct CommitIdIter {
    pub started: bool,
    pub cursor: Oid,
}

impl CommitIdIter {
    pub fn new(start: Oid) -> (r: CommitIdIter)
        ensures
            !r.started,
            r.cursor == start,
    {
        CommitIdIter { started: false, cursor: start }
    }

    /// The next commit id of the walk, or `None` past the root.
    pub fn next<R: RepositoryExt>(&mut self, repo: &R) -> (r: Option<Oid>)
        ensures
            final(self).started,
            !old(self).started ==> r == Some(old(self).cursor) && final(self).cursor == old(
                self,
            ).cursor,
            old(self).started ==> match r {
                Some(id) => final(self).cursor == id,
                None => final(self).cursor == old(self).cursor,
            },
    {
        if !self.started {
            self.started = true;
            Some(self.cursor)
        } else {
            match repo.first_parent(self.cursor) {
                Some(id) => {
                    self.cursor = id;
                    Some(id)
                },
                None => None,
            }
        }
    }
}

} // verus!
