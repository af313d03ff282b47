//! The commit walk: which commits of a tag's ancestry belong to its release.

use crate::error::ErrorKind;
use crate::range::{opt_text, CommitRange, Tag};
use crate::text::same_text;
use vstd::prelude::*;

verus! {

/// A git commit.
#[derive(Debug)]
pub struct Commit {
    message: String,
    hash: String,
    author: Option<String>,
    datetime: i64,
}

/// What a [`Commit`] holds.
pub struct CommitView {
    /// The full message; its first line is the subject.
    pub message: Seq<char>,
    /// The full commit id.
    pub hash: Seq<char>,
    /// The author's name, where the commit records one.
    pub author: Option<Seq<char>>,
    /// Commit time in seconds since the Unix epoch, UTC.
    pub datetime: i64,
}

impl View for Commit {
    type V = CommitView;

    closed spec fn view(&self) -> CommitView {
        CommitView {
            message: self.message@,
            hash: self.hash@,
            author: opt_text(self.author),
            datetime: self.datetime,
        }
    }
}

impl Clone for Commit {
    fn clone(&self) -> (r: Self)
        ensures
            r == *self,
    {
        Commit {
            message: self.message.clone(),
            hash: self.hash.clone(),
            author: self.author.clone(),
            datetime: self.datetime,
        }
    }
}

impl Commit {
    /// A snapshot of a commit. `datetime` is the commit time in seconds
    /// since the Unix epoch, UTC.
    pub fn new(message: String, hash: String, author: Option<String>, datetime: i64) -> (r: Commit)
        ensures
            r@ == (CommitView {
                message: message@,
                hash: hash@,
                author: opt_text(author),
                datetime,
            }),
    {
        Commit { message, hash, author, datetime }
    }

    /// Access the commit message.
    pub fn message(&self) -> (r: &str)
        ensures
            r@ == self@.message,
    {
        self.message.as_str()
    }

    /// Access the commit hash.
    pub fn hash(&self) -> (r: &str)
        ensures
            r@ == self@.hash,
    {
        self.hash.as_str()
    }

    /// Access the commit author.
    pub fn author(&self) -> (r: &Option<String>)
        ensures
            opt_text(*r) == self@.author,
    {
        &self.author
    }

    /// Access the commit time: seconds since the Unix epoch, UTC.
    pub fn datetime(&self) -> (r: i64)
        ensures
            r == self@.datetime,
    {
        self.datetime
    }
}

/// The view of an ancestry entry: a commit, or `None` for one that could not
/// be read.
pub open spec fn entry_view(entry: Option<Commit>) -> Option<CommitView> {
    match entry {
        Some(c) => Some(c@),
        None => None,
    }
}

/// The views of an ancestry, in order.
pub open spec fn ancestry_views(entries: Seq<Option<Commit>>) -> Seq<Option<CommitView>> {
    Seq::new(entries.len(), |i: int| entry_view(entries[i]))
}

/// The views of a list of commits, in order.
pub open spec fn commit_views(commits: Seq<Commit>) -> Seq<CommitView> {
    Seq::new(commits.len(), |i: int| commits[i]@)
}

/// The commits of a range, newest first.
///
/// `ancestry` is what a walk from the range's start yields. The walk takes
/// commits up to the range's end. Where the end is the root of the history
/// the end itself is taken too; where it is the previous release it is left
/// out, since that release has reported it. An ancestry that never meets the
/// end is taken whole. Meeting an unreadable entry first is an error.
pub open spec fn walk(ancestry: Seq<Option<CommitView>>, end: Seq<char>, end_is_root: bool)
    -> Result<Seq<CommitView>, ErrorKind>
    decreases ancestry.len(),
{
    if ancestry.len() == 0 {
        Ok(Seq::empty())
    } else {
        match ancestry[0] {
            None => Err(ErrorKind::RepositoryRead),
            Some(c) => if c.hash == end {
                if end_is_root {
                    Ok(seq![c])
                } else {
                    Ok(Seq::empty())
                }
            } else {
                match walk(ancestry.drop_first(), end, end_is_root) {
                    Ok(rest) => Ok(seq![c] + rest),
                    Err(e) => Err(e),
                }
            },
        }
    }
}

/// The first `n` entries of an ancestry, as commits.
pub open spec fn leading(ancestry: Seq<Option<CommitView>>, n: int) -> Seq<CommitView> {
    Seq::new(n as nat, |i: int| ancestry[i]->0)
}

/// The entries before position `k` are readable commits other than `end`.
pub open spec fn clear_before(ancestry: Seq<Option<CommitView>>, end: Seq<char>, k: int) -> bool {
    forall|j: int| 0 <= j < k ==> (#[trigger] ancestry[j]) is Some && ancestry[j]->0.hash != end
}

/// Where the walk meets the end at position `k`, having read every entry
/// before it, it yields the `k` commits before the end, and the end itself
/// exactly where the end is the root.
pub proof fn lemma_walk_meets_end(
    ancestry: Seq<Option<CommitView>>,
    end: Seq<char>,
    end_is_root: bool,
    k: int,
)
    requires
        0 <= k < ancestry.len(),
        clear_before(ancestry, end, k),
        ancestry[k] is Some,
        ancestry[k]->0.hash == end,
    ensures
        walk(ancestry, end, end_is_root) == Ok::<Seq<CommitView>, ErrorKind>(
            if end_is_root {
                leading(ancestry, k + 1)
            } else {
                leading(ancestry, k)
            },
        ),
    decreases k,
{
    if k == 0 {
        assert(leading(ancestry, 1) =~= seq![ancestry[0]->0]);
        assert(leading(ancestry, 0) =~= Seq::empty());
    } else {
        let rest = ancestry.drop_first();
        assert(ancestry[0] is Some && ancestry[0]->0.hash != end);
        assert forall|j: int| 0 <= j < k - 1 implies (#[trigger] rest[j]) is Some && rest[j]->0.hash
            != end by {
            assert(rest[j] == ancestry[j + 1]);
        }
        lemma_walk_meets_end(rest, end, end_is_root, k - 1);
        assert(seq![ancestry[0]->0] + leading(rest, k) =~= leading(ancestry, k + 1));
        assert(seq![ancestry[0]->0] + leading(rest, k - 1) =~= leading(ancestry, k));
    }
}

/// Where the ancestry never shows the end and every entry is readable, the
/// walk yields the whole ancestry.
pub proof fn lemma_walk_whole(ancestry: Seq<Option<CommitView>>, end: Seq<char>, end_is_root: bool)
    requires
        clear_before(ancestry, end, ancestry.len() as int),
    ensures
        walk(ancestry, end, end_is_root) == Ok::<Seq<CommitView>, ErrorKind>(
            leading(ancestry, ancestry.len() as int),
        ),
    decreases ancestry.len(),
{
    if ancestry.len() == 0 {
        assert(leading(ancestry, 0) =~= Seq::empty());
    } else {
        let rest = ancestry.drop_first();
        assert(ancestry[0] is Some && ancestry[0]->0.hash != end);
        assert forall|j: int| 0 <= j < rest.len() implies (#[trigger] rest[j]) is Some
            && rest[j]->0.hash != end by {
            assert(rest[j] == ancestry[j + 1]);
        }
        lemma_walk_whole(rest, end, end_is_root);
        assert(seq![ancestry[0]->0] + leading(rest, rest.len() as int) =~= leading(
            ancestry,
            ancestry.len() as int,
        ));
    }
}

/// The walk fails exactly where an unreadable entry comes before the end.
pub proof fn lemma_walk_unreadable(
    ancestry: Seq<Option<CommitView>>,
    end: Seq<char>,
    end_is_root: bool,
    k: int,
)
    requires
        0 <= k < ancestry.len(),
        clear_before(ancestry, end, k),
        ancestry[k] is None,
    ensures
        walk(ancestry, end, end_is_root) == Err::<Seq<CommitView>, ErrorKind>(
            ErrorKind::RepositoryRead,
        ),
    decreases k,
{
    if k > 0 {
        let rest = ancestry.drop_first();
        assert(ancestry[0] is Some && ancestry[0]->0.hash != end);
        assert forall|j: int| 0 <= j < k - 1 implies (#[trigger] rest[j]) is Some && rest[j]->0.hash
            != end by {
            assert(rest[j] == ancestry[j + 1]);
        }
        lemma_walk_unreadable(rest, end, end_is_root, k - 1);
    }
}

/// A range that ends at the previous release never reports that release's
/// commit.
pub proof fn lemma_walk_excludes_previous(ancestry: Seq<Option<CommitView>>, end: Seq<char>)
    requires
        walk(ancestry, end, false) is Ok,
    ensures
        forall|i: int|
            0 <= i < walk(ancestry, end, false)->Ok_0.len() ==> (#[trigger] walk(
                ancestry,
                end,
                false,
            )->Ok_0[i]).hash != end,
    decreases ancestry.len(),
{
    if ancestry.len() > 0 && ancestry[0]->0.hash != end {
        let rest = ancestry.drop_first();
        lemma_walk_excludes_previous(rest, end);
        let tail = walk(rest, end, false)->Ok_0;
        let whole = walk(ancestry, end, false)->Ok_0;
        assert forall|i: int| 0 <= i < whole.len() implies (#[trigger] whole[i]).hash != end by {
            if i > 0 {
                assert(whole[i] == tail[i - 1]);
            }
        }
    }
}

/// A range that ends at the root reports the root: where the walk succeeds
/// and the ancestry shows the end, the last commit reported is the end.
pub proof fn lemma_walk_includes_root(ancestry: Seq<Option<CommitView>>, end: Seq<char>, k: int)
    requires
        0 <= k < ancestry.len(),
        ancestry[k] is Some,
        ancestry[k]->0.hash == end,
        walk(ancestry, end, true) is Ok,
    ensures
        walk(ancestry, end, true)->Ok_0.len() > 0,
        walk(ancestry, end, true)->Ok_0.last().hash == end,
    decreases ancestry.len(),
{
    if ancestry[0]->0.hash != end {
        let rest = ancestry.drop_first();
        assert(rest[k - 1] == ancestry[k]);
        lemma_walk_includes_root(rest, end, k - 1);
        let tail = walk(rest, end, true)->Ok_0;
        assert((seq![ancestry[0]->0] + tail).last() == tail.last());
    }
}

/// Two releases in a row share no commit and leave none out: the commits
/// of the newer release, followed by what the walk from the previous
/// release's commit down to the root reports, are what a walk from the newer
/// release down to the root reports. Here the previous release's commit
/// stands at `k` and the root at `m` of a readable ancestry.
pub proof fn lemma_walks_cover(
    ancestry: Seq<Option<CommitView>>,
    previous: Seq<char>,
    root: Seq<char>,
    k: int,
    m: int,
)
    requires
        0 <= k <= m < ancestry.len(),
        clear_before(ancestry, previous, k),
        ancestry[k] is Some,
        ancestry[k]->0.hash == previous,
        clear_before(ancestry, root, m),
        ancestry[m] is Some,
        ancestry[m]->0.hash == root,
    ensures
        walk(ancestry, previous, false) is Ok,
        walk(ancestry.skip(k), root, true) is Ok,
        walk(ancestry, root, true) is Ok,
        walk(ancestry, previous, false)->Ok_0 + walk(ancestry.skip(k), root, true)->Ok_0 == walk(
            ancestry,
            root,
            true,
        )->Ok_0,
{
    let older = ancestry.skip(k);
    lemma_walk_meets_end(ancestry, previous, false, k);
    lemma_walk_meets_end(ancestry, root, true, m);
    assert forall|j: int| 0 <= j < m - k implies (#[trigger] older[j]) is Some && older[j]->0.hash
        != root by {
        assert(older[j] == ancestry[j + k]);
    }
    assert(older[m - k] == ancestry[m]);
    lemma_walk_meets_end(older, root, true, m - k);
    assert(leading(ancestry, k) + leading(older, m - k + 1) =~= leading(ancestry, m + 1));
}

/// A walk that reads its first entry and goes on is the walk of the rest
/// with that entry in front.
proof fn lemma_walk_skip(
    ancestry: Seq<Option<CommitView>>,
    end: Seq<char>,
    end_is_root: bool,
    i: int,
    taken: Seq<CommitView>,
)
    requires
        0 <= i < ancestry.len(),
        ancestry[i] is Some,
        ancestry[i]->0.hash != end,
        walk(ancestry, end, end_is_root) == match walk(ancestry.skip(i), end, end_is_root) {
            Ok(rest) => Ok(taken + rest),
            Err(e) => Err(e),
        },
    ensures
        walk(ancestry, end, end_is_root) == match walk(ancestry.skip(i + 1), end, end_is_root) {
            Ok(rest) => Ok(taken.push(ancestry[i]->0) + rest),
            Err(e) => Err(e),
        },
{
    let here = ancestry.skip(i);
    assert(here.drop_first() =~= ancestry.skip(i + 1));
    assert(here[0] == ancestry[i]);
    match walk(ancestry.skip(i + 1), end, end_is_root) {
        Ok(rest) => {
            assert(taken + (seq![ancestry[i]->0] + rest) =~= taken.push(ancestry[i]->0) + rest);
        },
        Err(e) => {},
    }
}

/// Walks a commit range: from the ancestry of the range's start, newest
/// first, takes the commits of the release.
pub fn walk_range(range: &CommitRange, ancestry: &Vec<Option<Commit>>) -> (r: Result<
    Vec<Commit>,
    ErrorKind,
>)
    ensures
        r is Ok <==> walk(ancestry_views(ancestry@), range@.end, range@.end_is_root) is Ok,
        r matches Ok(commits) ==> Ok::<Seq<CommitView>, ErrorKind>(commit_views(commits@)) == walk(
            ancestry_views(ancestry@),
            range@.end,
            range@.end_is_root,
        ),
        r matches Err(e) ==> e == ErrorKind::RepositoryRead,
{
    let ghost all = ancestry_views(ancestry@);
    let ghost end = range@.end;
    let ghost at_root = range@.end_is_root;
    let end_is_root = range.end_is_root();
    let mut commits: Vec<Commit> = Vec::new();
    let mut i: usize = 0;
    assert(all.skip(0) =~= all);
    assert(commit_views(commits@) =~= Seq::empty());
    while i < ancestry.len()
        invariant
            i <= ancestry.len(),
            all == ancestry_views(ancestry@),
            end == range@.end,
            at_root == range@.end_is_root,
            end_is_root == at_root,
            walk(all, end, at_root) == match walk(all.skip(i as int), end, at_root) {
                Ok(rest) => Ok(commit_views(commits@) + rest),
                Err(e) => Err(e),
            },
        decreases ancestry.len() - i,
    {
        assert(all.skip(i as int)[0] == all[i as int]);
        match &ancestry[i] {
            None => {
                return Err(ErrorKind::RepositoryRead);
            },
            Some(commit) => {
                let at_end = same_text(commit.hash(), range.end());
                if at_end {
                    if end_is_root {
                        assert(commit_views(commits@.push(*commit)) =~= commit_views(commits@)
                            + seq![commit@]);
                        commits.push(commit.clone());
                    } else {
                        assert(commit_views(commits@) + Seq::<CommitView>::empty() =~= commit_views(
                            commits@,
                        ));
                    }
                    return Ok(commits);
                }
                proof {
                    lemma_walk_skip(all, end, at_root, i as int, commit_views(commits@));
                    assert(commit_views(commits@.push(*commit)) =~= commit_views(commits@).push(
                        commit@,
                    ));
                }
                commits.push(commit.clone());
            },
        }
        i += 1;
    }
    assert(all.skip(i as int).len() == 0);
    assert(commit_views(commits@) + Seq::<CommitView>::empty() =~= commit_views(commits@));
    Ok(commits)
}

/// The commits of the latest release of a package, with its tag.
///
/// `range` is the package's latest range and `ancestry` what a walk from the
/// range's start yields, newest first, with `None` for each commit that could
/// not be read.
pub fn latest_commits(range: &CommitRange, ancestry: &Vec<Option<Commit>>) -> (r: Result<
    (Tag, Vec<Commit>),
    ErrorKind,
>)
    ensures
        r is Ok <==> walk(ancestry_views(ancestry@), range@.end, range@.end_is_root) is Ok,
        r matches Ok((tag, commits)) ==> tag == range.tag_spec() && Ok::<
            Seq<CommitView>,
            ErrorKind,
        >(commit_views(commits@)) == walk(
            ancestry_views(ancestry@),
            range@.end,
            range@.end_is_root,
        ),
        r matches Err(e) ==> e == ErrorKind::RepositoryRead,
{
    match walk_range(range, ancestry) {
        Ok(commits) => Ok((range.latest_tag().clone(), commits)),
        Err(e) => Err(e),
    }
}

/// A release tag with the commits of its release, newest first.
#[derive(Debug)]
pub struct TagAndCommit {
    pub tag: Tag,
    pub commit_list: Vec<Commit>,
}

/// A commit range with the ancestry of its start, newest first; `None`
/// stands for a commit that could not be read.
#[derive(Debug)]
pub struct RangeHistory {
    pub range: CommitRange,
    pub ancestry: Vec<Option<Commit>>,
}

/// The walk of one range over its own ancestry.
pub open spec fn walk_history(h: RangeHistory) -> Result<Seq<CommitView>, ErrorKind> {
    walk(ancestry_views(h.ancestry@), h.range@.end, h.range@.end_is_root)
}

/// The commits of every release of a package, one result per range and in
/// the order of the ranges. A range whose walk meets an unreadable commit
/// fails alone; the other ranges are walked all the same.
pub fn full_commits(histories: &Vec<RangeHistory>) -> (r: Vec<Result<TagAndCommit, ErrorKind>>)
    ensures
        r.len() == histories.len(),
        forall|k: int|
            0 <= k < r.len() ==> match #[trigger] r[k] {
                Ok(release) => release.tag == histories[k].range.tag_spec() && Ok::<
                    Seq<CommitView>,
                    ErrorKind,
                >(commit_views(release.commit_list@)) == walk_history(histories[k]),
                Err(e) => e == ErrorKind::RepositoryRead && walk_history(histories[k]) is Err,
            },
{
    let mut commit_list: Vec<Result<TagAndCommit, ErrorKind>> = Vec::new();
    let mut index: usize = 0;
    while index < histories.len()
        invariant
            index <= histories.len(),
            commit_list.len() == index,
            forall|k: int|
                0 <= k < index ==> match #[trigger] commit_list[k] {
                    Ok(release) => release.tag == histories[k].range.tag_spec() && Ok::<
                        Seq<CommitView>,
                        ErrorKind,
                    >(commit_views(release.commit_list@)) == walk_history(histories[k]),
                    Err(e) => e == ErrorKind::RepositoryRead && walk_history(histories[k]) is Err,
                },
        decreases histories.len() - index,
    {
        let history = &histories[index];
        let entry = match latest_commits(&history.range, &history.ancestry) {
            Ok((tag, commits)) => Ok(TagAndCommit { tag, commit_list: commits }),
            Err(e) => Err(e),
        };
        commit_list.push(entry);
        index += 1;
    }
    commit_list
}

} // verus!
