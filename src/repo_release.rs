//! The release history: version tags on the first-parent line of HEAD,
//! newest first.
use vstd::prelude::*;

use git2::Oid;
use git2::Repository;

use crate::calver::parse_text;
use crate::calver::precedes;
use crate::calver::zero_version;
use crate::calver::CalVer;
use crate::calver::ToCalVer;
use crate::repo::same_commit;
use crate::repo::zero_commit;
use crate::repo::zero_id;
use crate::repo::CommitIdIter;
use crate::repo::RepositoryExt;

verus! {

broadcast use vstd::seq_lib::group_to_multiset_ensures;

/// A version paired with the commit that its tag points at.
#[derive(Clone, Copy, Debug, PartialEq, Eq, PartialOrd, Ord)]
pub struct Release {
    pub version: CalVer,
    pub commit_id: Oid,
}

impl Release {
    /// The sentinel release: the zero version at the all-zero commit id.
    pub fn zero() -> (r: Release)
        ensures
            r == sentinel(),
    {
        Release { commit_id: zero_commit(), version: CalVer::zero() }
    }
}

/// The sentinel release: the zero version at the all-zero commit id.
pub open spec fn sentinel() -> Release {
    Release { version: zero_version(), commit_id: zero_id() }
}

/// The releases that tags name, in tag order: for each tag name that reads as
/// a version and whose tag resolves to a commit (`found`), that pair.
pub open spec fn candidates(names: Seq<String>, found: Seq<Option<Oid>>) -> Seq<Release>
    decreases names.len(),
{
    if names.len() == 0 || found.len() != names.len() {
        Seq::empty()
    } else {
        let n = names.len() - 1;
        let earlier = candidates(names.subrange(0, n), found.subrange(0, n));
        match (parse_text(names[n]@), found[n]) {
            (Some(v), Some(c)) => earlier.push(Release { version: v, commit_id: c }),
            _ => earlier,
        }
    }
}

/// The first release of `cands`, from index `k` on, tagged on commit `id`.
pub open spec fn first_match_from(cands: Seq<Release>, id: Oid, k: int) -> Option<Release>
    decreases cands.len() - k,
{
    if k < 0 || k >= cands.len() {
        None
    } else if cands[k].commit_id == id {
        Some(cands[k])
    } else {
        first_match_from(cands, id, k + 1)
    }
}

/// For each commit of `line` in turn, the first release of `cands` tagged on it.
pub open spec fn hits(cands: Seq<Release>, line: Seq<Oid>) -> Seq<Release>
    decreases line.len(),
{
    if line.len() == 0 {
        Seq::empty()
    } else {
        let earlier = hits(cands, line.drop_last());
        match first_match_from(cands, line.last(), 0) {
            Some(r) => earlier.push(r),
            None => earlier,
        }
    }
}

/// No release comes before a later one in the version order.
pub open spec fn newest_first(s: Seq<Release>) -> bool {
    forall|i: int, j: int| 0 <= i < j < s.len() ==> !precedes(#[trigger] s[i].version, #[trigger] s[j].version)
}

/// `r` is the history of releases found from the tag `names`, the commits
/// `found` that those tags resolve to, and the first-parent `line` of HEAD.
pub open spec fn release_history(r: Seq<Release>, names: Seq<String>, found: Seq<Option<Oid>>, line: Seq<Oid>) -> bool {
    &&& names.len() == found.len()
    &&& newest_first(r)
    &&& r.to_multiset() == hits(candidates(names, found), line).to_multiset()
}

fn first_match(cands: &Vec<Release>, id: &Oid) -> (r: Option<Release>)
    ensures
        r == first_match_from(cands@, *id, 0),
{
    let mut k: usize = 0;
    while k < cands.len()
        invariant
            k <= cands@.len(),
            first_match_from(cands@, *id, 0) == first_match_from(cands@, *id, k as int),
        decreases cands@.len() - k,
    {
        if same_commit(&cands[k].commit_id, id) {
            return Some(cands[k]);
        }
        k = k + 1;
    }
    None
}

fn insert_newest_first(out: &mut Vec<Release>, x: Release)
    requires
        newest_first(old(out)@),
    ensures
        newest_first(final(out)@),
        final(out)@.to_multiset() == old(out)@.to_multiset().insert(x),
{
    let mut p: usize = 0;
    while p < out.len()
        invariant
            p <= out@.len(),
            forall|q: int| 0 <= q < p ==> !precedes(#[trigger] out@[q].version, x.version),
        ensures
            p <= out@.len(),
            forall|q: int| 0 <= q < p ==> !precedes(#[trigger] out@[q].version, x.version),
            p < out@.len() ==> precedes(out@[p as int].version, x.version),
        decreases out@.len() - p,
    {
        if x.version.newer_than(&out[p].version) {
            break;
        }
        p = p + 1;
    }
    let ghost before = out@;
    out.insert(p, x);
    assert forall|i: int, j: int| 0 <= i < j < out@.len() implies !precedes(
        #[trigger] out@[i].version,
        #[trigger] out@[j].version,
    ) by {
        if j < p {
            assert(out@[i] == before[i] && out@[j] == before[j]);
        } else if j == p {
            assert(out@[i] == before[i]);
        } else if i == p {
            assert(out@[j] == before[j - 1]);
            assert(precedes(before[p as int].version, x.version));
            if j - 1 > p {
                assert(!precedes(before[p as int].version, before[j - 1].version));
            }
        } else if i < p {
            assert(out@[i] == before[i] && out@[j] == before[j - 1]);
        } else {
            assert(out@[i] == before[i - 1] && out@[j] == before[j - 1]);
        }
    }
}

/// The releases that `line` meets in `candidates`, newest first: for each
/// commit of `line`, the first candidate tagged on it.
pub fn select_releases(candidates: &Vec<Release>, line: &Vec<Oid>) -> (r: Vec<Release>)
    ensures
        newest_first(r@),
        r@.to_multiset() == hits(candidates@, line@).to_multiset(),
{
    let mut out: Vec<Release> = Vec::new();
    let mut k: usize = 0;
    while k < line.len()
        invariant
            k <= line@.len(),
            newest_first(out@),
            out@.to_multiset() == hits(candidates@, line@.subrange(0, k as int)).to_multiset(),
        decreases line@.len() - k,
    {
        let ghost prefix = line@.subrange(0, k + 1);
        assert(prefix.drop_last() =~= line@.subrange(0, k as int));
        match first_match(candidates, &line[k]) {
            Some(r) => insert_newest_first(&mut out, r),
            None => {},
        }
        k = k + 1;
    }
    assert(line@.subrange(0, line@.len() as int) =~= line@);
    out
}


/// Every release of the history is a candidate, tagged on a commit of the line.
pub proof fn lemma_hits_on_line(cands: Seq<Release>, line: Seq<Oid>)
    ensures
        forall|r: Release| #[trigger] hits(cands, line).contains(r) ==> cands.contains(r)
            && line.contains(r.commit_id),
    decreases line.len(),
{
    if line.len() > 0 {
        let earlier = line.drop_last();
        lemma_hits_on_line(cands, earlier);
        lemma_first_match(cands, line.last(), 0);
        assert forall|r: Release| #[trigger] hits(cands, line).contains(r) implies cands.contains(r)
            && line.contains(r.commit_id) by {
            if hits(cands, earlier).contains(r) {
                let k = choose|k: int| 0 <= k < earlier.len() && earlier[k] == r.commit_id;
                assert(line[k] == r.commit_id);
            } else {
                assert(line[line.len() - 1] == r.commit_id);
            }
        }
    }
}

proof fn lemma_first_match(cands: Seq<Release>, id: Oid, k: int)
    requires
        0 <= k,
    ensures
        first_match_from(cands, id, k) matches Some(r) ==> cands.contains(r) && r.commit_id == id,
    decreases cands.len() - k,
{
    if k < cands.len() && cands[k].commit_id != id {
        lemma_first_match(cands, id, k + 1);
    }
}

/// Resolves each tag of `names` that reads as a version to its commit.
fn resolve_version_tags<R: RepositoryExt>(repo: &R, names: &Vec<String>) -> (r: Vec<Option<Oid>>)
    ensures
        r@.len() == names@.len(),
{
    let mut found: Vec<Option<Oid>> = Vec::new();
    let mut i: usize = 0;
    while i < names.len()
        invariant
            i <= names@.len(),
            found@.len() == i,
        decreases names@.len() - i,
    {
        let c = match names[i].calver() {
            Some(_) => repo.resolve_tag(names[i].as_str()),
            None => None,
        };
        found.push(c);
        i = i + 1;
    }
    found
}

/// The releases that tags name, in tag order, given the commit that each tag
/// resolves to.
pub fn pair_candidates(names: &Vec<String>, found: &Vec<Option<Oid>>) -> (r: Vec<Release>)
    requires
        names@.len() == found@.len(),
    ensures
        r@ == candidates(names@, found@),
{
    let mut cands: Vec<Release> = Vec::new();
    let mut i: usize = 0;
    while i < names.len()
        invariant
            i <= names@.len() == found@.len(),
            cands@ == candidates(names@.subrange(0, i as int), found@.subrange(0, i as int)),
        decreases names@.len() - i,
    {
        let ghost pn = names@.subrange(0, i + 1);
        let ghost pf = found@.subrange(0, i + 1);
        assert(pn.subrange(0, i as int) =~= names@.subrange(0, i as int));
        assert(pf.subrange(0, i as int) =~= found@.subrange(0, i as int));
        assert(pn[i as int] == names@[i as int] && pf[i as int] == found@[i as int]);
        match names[i].calver() {
            Some(v) => match found[i] {
                Some(c) => cands.push(Release { version: v, commit_id: c }),
                None => {},
            },
            None => {},
        }
        i = i + 1;
    }
    assert(names@.subrange(0, names@.len() as int) =~= names@);
    assert(found@.subrange(0, found@.len() as int) =~= found@);
    cands
}

/// Every candidate was named by a tag that reads as its version.
proof fn lemma_candidates_from_tags(names: Seq<String>, found: Seq<Option<Oid>>)
    ensures
        forall|x: Release| #[trigger] candidates(names, found).contains(x) ==> exists|j: int|
            0 <= j < names.len() && parse_text(#[trigger] names[j]@) == Some(x.version),
    decreases names.len(),
{
    if names.len() > 0 && found.len() == names.len() {
        let n = names.len() - 1;
        let pn = names.subrange(0, n);
        lemma_candidates_from_tags(pn, found.subrange(0, n));
        assert forall|x: Release| #[trigger] candidates(names, found).contains(x) implies exists|j: int|
            0 <= j < names.len() && parse_text(#[trigger] names[j]@) == Some(x.version) by {
            if candidates(pn, found.subrange(0, n)).contains(x) {
                let j = choose|j: int| 0 <= j < pn.len() && parse_text(#[trigger] pn[j]@) == Some(x.version);
                assert(names[j] == pn[j]);
            } else {
                assert(parse_text(names[n]@) == Some(x.version));
            }
        }
    }
}

/// The first-parent line from `head`: `head`, its first parent, and so on.
fn first_parent_line<R: RepositoryExt>(repo: &R, head: Oid) -> (r: Vec<Oid>)
    ensures
        r@.len() >= 1,
        r@[0] == head,
{
    let mut walk = CommitIdIter::new(head);
    let mut line: Vec<Oid> = Vec::new();
    let first = walk.next(repo);
    line.push(first.unwrap());
    // A first-parent line is shorter than the u64 range: the bound only
    // gives the walk a measure.
    let mut steps: u64 = 1;
    while steps < u64::MAX
        invariant
            line@.len() >= 1,
            line@[0] == head,
            walk.started,
        decreases u64::MAX - steps,
    {
        match walk.next(repo) {
            Some(id) => line.push(id),
            None => break,
        }
        steps = steps + 1;
    }
    line
}

/// The releases on the first-parent line from `head`, newest first; none
/// when there is no `head`.
pub fn find_releases_from<R: RepositoryExt>(repo: &R, head: Option<Oid>) -> (r: Vec<Release>)
    ensures
        head is None ==> r@.len() == 0,
        exists|names: Seq<String>, found: Seq<Option<Oid>>, line: Seq<Oid>| #[trigger] release_history(
            r@,
            names,
            found,
            line,
        ) && match head {
            Some(h) => line.len() >= 1 && line[0] == h,
            None => line.len() == 0,
        },
{
    let names = repo.tag_list();
    let found = resolve_version_tags(repo, &names);
    let cands = pair_candidates(&names, &found);
    let line = match head {
        Some(h) => first_parent_line(repo, h),
        None => Vec::new(),
    };
    let out = select_releases(&cands, &line);
    proof {
        if head is None {
            assert(hits(cands@, line@) =~= Seq::<Release>::empty());
            assert(out@.to_multiset().len() == 0);
        }
    }
    assert(release_history(out@, names@, found@, line@));
    out
}

/// All releases on the first-parent line of HEAD, newest first; none when the
/// repository has no HEAD commit.
pub fn find_releases<R: RepositoryExt>(repo: &R) -> (r: Vec<Release>)
    ensures
        exists|names: Seq<String>, found: Seq<Option<Oid>>, line: Seq<Oid>| #[trigger] release_history(
            r@,
            names,
            found,
            line,
        ),
{
    let head = match repo.head_commit() {
        Ok(h) => Some(h),
        Err(_) => None,
    };
    find_releases_from(repo, head)
}

/// Each release of a history was named by a tag that reads as its version, and
/// sits on a commit of the first-parent line: tags that are no version, and
/// tags off the line, are left out.
pub proof fn lemma_history_members(r: Seq<Release>, names: Seq<String>, found: Seq<Option<Oid>>, line: Seq<Oid>)
    requires
        release_history(r, names, found, line),
    ensures
        forall|x: Release| #[trigger] r.contains(x) ==> line.contains(x.commit_id) && exists|j: int|
            0 <= j < names.len() && parse_text(#[trigger] names[j]@) == Some(x.version),
{
    let cands = candidates(names, found);
    lemma_hits_on_line(cands, line);
    lemma_candidates_from_tags(names, found);
    assert forall|x: Release| #[trigger] r.contains(x) implies line.contains(x.commit_id) && exists|j: int|
        0 <= j < names.len() && parse_text(#[trigger] names[j]@) == Some(x.version) by {
        assert(r.to_multiset().count(x) > 0);
        assert(hits(cands, line).contains(x));
        assert(cands.contains(x));
    }
}

/// The newest of a history, or the sentinel when it is empty.
pub open spec fn latest_or_sentinel(all: Seq<Release>) -> Release {
    if all.len() == 0 {
        sentinel()
    } else {
        all[0]
    }
}

/// `r` is the newest release of some history of the repository, or the
/// sentinel when that history is empty.
pub open spec fn is_last_release(r: Release) -> bool {
    exists|names: Seq<String>, found: Seq<Option<Oid>>, line: Seq<Oid>, all: Seq<Release>|
        #[trigger] release_history(all, names, found, line) && r == latest_or_sentinel(all)
}

/// The newest release on the first-parent line of HEAD.
pub fn find_latest_release<R: RepositoryExt>(repo: &R) -> (r: Option<Release>)
    ensures
        exists|names: Seq<String>, found: Seq<Option<Oid>>, line: Seq<Oid>, all: Seq<Release>|
            #[trigger] release_history(all, names, found, line) && r == if all.len() == 0 {
                None::<Release>
            } else {
                Some(all[0])
            },
{
    let all = find_releases(repo);
    if all.len() == 0 {
        None
    } else {
        Some(all[0])
    }
}

/// The release history of a repository.
pub trait RepositoryWithRelease {
    fn find_releases(&self) -> Vec<Release>;

    fn find_latest_release(&self) -> Option<Release>;
}

impl RepositoryWithRelease for Repository {
    fn find_releases(&self) -> Vec<Release> {
        find_releases(self)
    }

    fn find_latest_release(&self) -> Option<Release> {
        find_latest_release(self)
    }
}

} // verus!
