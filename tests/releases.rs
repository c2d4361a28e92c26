use std::cell::RefCell;

use git2::Error;
use git2::Oid;

use git_calver::calver::CalVer;
use git_calver::releaser::releasable;
use git_calver::releaser::tag_request;
use git_calver::releaser::Releaser;
use git_calver::repo::CommitIdIter;
use git_calver::repo::walk_history;
use git_calver::repo::RepositoryExt;
use git_calver::repo_release::find_latest_release;
use git_calver::repo_release::find_releases;
use git_calver::repo_release::find_releases_from;
use git_calver::repo_release::pair_candidates;
use git_calver::repo_release::select_releases;
use git_calver::repo_release::Release;

fn id(n: u8) -> Oid {
    Oid::from_bytes(&[n; 20]).unwrap()
}

fn ver(year: u16, month: u8, revision: i8) -> CalVer {
    CalVer { year, month, revision }
}

/// An in-memory store: commits with their first parents, tags and a HEAD.
struct FakeRepo {
    head: RefCell<Option<Oid>>,
    parents: RefCell<Vec<(Oid, Oid)>>,
    tags: RefCell<Vec<(String, Oid)>>,
    has_identity: bool,
}

impl FakeRepo {
    fn new(has_identity: bool) -> FakeRepo {
        FakeRepo {
            head: RefCell::new(None),
            parents: RefCell::new(Vec::new()),
            tags: RefCell::new(Vec::new()),
            has_identity,
        }
    }

    /// Adds a commit on top of HEAD and moves HEAD to it.
    fn commit(&self, n: u8) -> Oid {
        let c = id(n);
        if let Some(h) = *self.head.borrow() {
            self.parents.borrow_mut().push((c, h));
        }
        *self.head.borrow_mut() = Some(c);
        c
    }

    fn tag(&self, name: &str, target: Oid) {
        self.tags.borrow_mut().push((name.to_string(), target));
    }
}

impl RepositoryExt for FakeRepo {
    fn head_commit(&self) -> Result<Oid, Error> {
        self.head.borrow().ok_or_else(|| Error::from_str("no HEAD"))
    }

    fn first_parent(&self, id: Oid) -> Option<Oid> {
        self.parents.borrow().iter().find(|(c, _)| *c == id).map(|(_, p)| *p)
    }

    fn tag_list(&self) -> Vec<String> {
        self.tags.borrow().iter().map(|(n, _)| n.clone()).collect()
    }

    fn resolve_tag(&self, name: &str) -> Option<Oid> {
        self.tags.borrow().iter().find(|(n, _)| n == name).map(|(_, c)| *c)
    }

    fn create_lightweight_tag(&self, name: &str, target: Oid) -> Result<(), Error> {
        if self.resolve_tag(name).is_some() {
            return Err(Error::from_str("tag exists"));
        }
        self.tag(name, target);
        Ok(())
    }

    fn create_annotated_tag(&self, name: &str, target: Oid, _message: &str) -> Result<(), Error> {
        if !self.has_identity {
            return Err(Error::from_str("no identity configured"));
        }
        self.create_lightweight_tag(name, target)
    }
}

fn versions(releases: &[Release]) -> Vec<CalVer> {
    releases.iter().map(|r| r.version).collect()
}

#[test]
fn no_head_gives_no_releases() {
    let repo = FakeRepo::new(true);
    repo.tag("20.2.1", id(1));
    assert!(find_releases(&repo).is_empty());
    assert_eq!(find_latest_release(&repo), None);
    let releaser = Releaser::new(&repo);
    assert!(!releaser.is_releasable());
    assert_eq!(releaser.last_release().version, CalVer::zero());
}

#[test]
fn history_skips_foreign_and_unreachable_tags() {
    let repo = FakeRepo::new(true);
    let c1 = repo.commit(1);
    let c2 = repo.commit(2);
    let c3 = repo.commit(3);
    repo.tag("20.2.0", c1);
    repo.tag("v1.0", c2);
    repo.tag("20.3.0", c3);
    // a tag on a commit that is not on HEAD's first-parent line
    repo.tag("21.1.0", id(9));
    let all = find_releases(&repo);
    assert_eq!(versions(&all), vec![ver(2020, 3, 0), ver(2020, 2, 0)]);
    assert_eq!(all[0].commit_id, c3);
    assert_eq!(all[1].commit_id, c1);
    assert_eq!(find_latest_release(&repo).unwrap().version, ver(2020, 3, 0));
}

#[test]
fn history_is_newest_first_by_version() {
    let repo = FakeRepo::new(true);
    let c1 = repo.commit(1);
    let c2 = repo.commit(2);
    let c3 = repo.commit(3);
    repo.tag("20.2.5", c1);
    repo.tag("19.12.0", c2);
    repo.tag("20.2.10", c3);
    let all = find_releases(&repo);
    assert_eq!(versions(&all), vec![ver(2020, 2, 10), ver(2020, 2, 5), ver(2019, 12, 0)]);
}

#[test]
fn select_keeps_first_candidate_per_commit() {
    let cands = vec![
        Release { version: ver(2020, 1, 0), commit_id: id(1) },
        Release { version: ver(2020, 1, 1), commit_id: id(1) },
        Release { version: ver(2020, 5, 0), commit_id: id(2) },
        Release { version: ver(2021, 1, 0), commit_id: id(7) },
    ];
    let out = select_releases(&cands, &vec![id(2), id(3), id(1)]);
    assert_eq!(versions(&out), vec![ver(2020, 5, 0), ver(2020, 1, 0)]);
    assert!(select_releases(&cands, &vec![]).is_empty());
    assert!(select_releases(&vec![], &vec![id(1)]).is_empty());
}

#[test]
fn commit_walk_follows_first_parents() {
    let repo = FakeRepo::new(true);
    let c1 = repo.commit(1);
    let c2 = repo.commit(2);
    let mut walk = CommitIdIter::new(c2);
    assert_eq!(walk.next(&repo), Some(c2));
    assert_eq!(walk.next(&repo), Some(c1));
    assert_eq!(walk.next(&repo), None);
}

#[test]
fn releasable_decision() {
    assert!(!releasable(None, &id(1), false));
    assert!(!releasable(None, &id(1), true));
    assert!(releasable(Some(id(2)), &id(1), false));
    assert!(!releasable(Some(id(1)), &id(1), false));
    assert!(releasable(Some(id(0)), &id(0), true));
    assert!(Release::zero().commit_id.is_zero());
    assert_eq!(Release::zero().version, CalVer::zero());
}

#[test]
fn bump_blocks_retag_until_head_moves() {
    let repo = FakeRepo::new(true);
    repo.commit(1);
    let releaser = Releaser::new(&repo);
    assert!(releaser.is_releasable());
    let v = releaser.bump("first", false).unwrap();
    assert_eq!(v.revision, 0);
    assert!(!releaser.is_releasable());
    repo.commit(2);
    assert!(releaser.is_releasable());
    let w = releaser.bump("", true).unwrap();
    assert_eq!(w.revision, 1);
    assert!(w.newer_than(&v));
    assert!(!releaser.is_releasable());
    assert_eq!(releaser.last_release().version, w);
}

#[test]
fn bump_to_names_tag_by_text_form() {
    let repo = FakeRepo::new(true);
    let c = repo.commit(4);
    let releaser = Releaser::new(&repo);
    assert_eq!(releaser.bump_to(ver(2024, 3, 0), "m", false).unwrap(), ver(2024, 3, 0));
    assert_eq!(repo.resolve_tag("24.3.0"), Some(c));
    assert!(!releaser.is_releasable());
    assert_eq!(releaser.last_release().commit_id, c);
    assert!(releaser.bump_to(ver(2024, 3, 0), "m", true).is_err());
}

#[test]
fn lightweight_needs_no_identity() {
    let repo = FakeRepo::new(false);
    repo.commit(1);
    let releaser = Releaser::new(&repo);
    assert!(releaser.bump_to(ver(2024, 3, 0), "", true).is_ok());
    repo.commit(2);
    assert!(releaser.bump_to(ver(2024, 3, 1), "annotated", false).is_err());
    assert_eq!(repo.resolve_tag("24.3.1"), None);
}

#[test]
fn bump_to_without_head_fails() {
    let repo = FakeRepo::new(true);
    let releaser = Releaser::new(&repo);
    assert!(releaser.bump_to(ver(2024, 3, 0), "", true).is_err());
    assert!(repo.tag_list().is_empty());
}

#[test]
fn walk_history_stops_at_first_answer() {
    let repo = FakeRepo::new(true);
    let c1 = repo.commit(1);
    let c2 = repo.commit(2);
    let c3 = repo.commit(3);
    let found = walk_history(&repo, c3, |id| if id == c2 || id == c1 { Some(id) } else { None });
    assert_eq!(found, Some(c2));
    let none: Option<Oid> = walk_history(&repo, c3, |_| None);
    assert_eq!(none, None);
}

#[test]
fn four_digit_tags_resolve_by_their_own_name() {
    let repo = FakeRepo::new(true);
    let c1 = repo.commit(1);
    let c2 = repo.commit(2);
    repo.tag("2020.2.1", c1);
    repo.tag("20.02.2", c2);
    let all = find_releases(&repo);
    assert_eq!(versions(&all), vec![ver(2020, 2, 2), ver(2020, 2, 1)]);
    assert_eq!(all[0].commit_id, c2);
    assert_eq!(all[1].commit_id, c1);
}

#[test]
fn dangling_tag_keeps_other_releases() {
    let repo = FakeRepo::new(true);
    let c1 = repo.commit(1);
    repo.tag("20.2.0", c1);
    let names = vec!["20.2.1".to_string(), "20.2.0".to_string()];
    let found = vec![None, Some(c1)];
    let cands = pair_candidates(&names, &found);
    assert_eq!(cands, vec![Release { version: ver(2020, 2, 0), commit_id: c1 }]);
    assert_eq!(versions(&find_releases_from(&repo, Some(c1))), vec![ver(2020, 2, 0)]);
    assert!(find_releases_from(&repo, None).is_empty());
}

#[test]
fn candidates_follow_tag_order() {
    let names = vec!["x".to_string(), "20.1.0".to_string(), "20.1.1".to_string()];
    let found = vec![Some(id(5)), Some(id(1)), Some(id(1))];
    let cands = pair_candidates(&names, &found);
    assert_eq!(versions(&cands), vec![ver(2020, 1, 0), ver(2020, 1, 1)]);
    assert_eq!(versions(&select_releases(&cands, &vec![id(1)])), vec![ver(2020, 1, 0)]);
}

#[test]
fn tag_request_kinds() {
    let light = tag_request(ver(2024, 3, 0), "ignored", true);
    assert_eq!(light.name, "24.3.0");
    assert!(light.lightweight);
    assert_eq!(light.message, "");
    let annotated = tag_request(ver(2024, 3, 1), "release notes", false);
    assert_eq!(annotated.name, "24.3.1");
    assert!(!annotated.lightweight);
    assert_eq!(annotated.message, "release notes");
}
