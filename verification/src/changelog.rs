//! The changelog builder: which commits of a release belong to a package and
//! how each becomes a line of markdown.

use crate::error::ErrorKind;
use crate::subject::{find_pr_reference, pr_reference, qualifies, subject_of, subject_qualifies};
use crate::text::{chars_of, find_line_end, same_text, trim, trim_bounds};
use crate::range::Tag;
use crate::walk::{commit_views, Commit, CommitView, TagAndCommit};
use vstd::prelude::*;

verus! {

/// The changelog of one package, as markdown.
#[derive(Debug)]
pub struct MARKDOWN {
    pub package: String,
    pub content: String,
}

/// The identity recorded for `name` in a list of `(name, identity)` pairs:
/// that of the first pair with this name.
pub open spec fn lookup(entries: Seq<(String, String)>, name: Seq<char>) -> Option<Seq<char>>
    decreases entries.len(),
{
    if entries.len() == 0 {
        None
    } else if entries[0].0@ == name {
        Some(entries[0].1@)
    } else {
        lookup(entries.drop_first(), name)
    }
}

/// Appending a pair records it for its name unless the name is known, and
/// changes nothing for any other name.
proof fn lemma_lookup_push(entries: Seq<(String, String)>, pair: (String, String), name: Seq<char>)
    ensures
        lookup(entries.push(pair), name) == if lookup(entries, name) is None && pair.0@ == name {
            Some(pair.1@)
        } else {
            lookup(entries, name)
        },
    decreases entries.len(),
{
    if entries.len() == 0 {
        assert(entries.push(pair).drop_first() =~= entries);
    } else {
        assert(entries.push(pair).drop_first() =~= entries.drop_first().push(pair));
        lemma_lookup_push(entries.drop_first(), pair, name);
    }
}

/// The first seven characters of a commit id, or all of it where it is
/// shorter; whitespace around the id does not count.
pub open spec fn short_hash(hash: Seq<char>) -> Seq<char> {
    let h = trim(hash);
    if h.len() <= 7 {
        h
    } else {
        h.take(7)
    }
}

/// The label of the link that a line carries: `#` and the digits of the
/// pull request that the subject names, else the short commit id.
pub open spec fn ref_label(subject: Seq<char>, hash: Seq<char>) -> Seq<char> {
    match pr_reference(subject) {
        Some(digits) => "#"@ + digits,
        None => short_hash(hash),
    }
}

/// The address of the link that a line carries: the pull request that the
/// subject names, else the commit.
pub open spec fn ref_url(subject: Seq<char>, hash: Seq<char>, html_url: Seq<char>) -> Seq<char> {
    match pr_reference(subject) {
        Some(digits) => html_url + "/pull/"@ + digits,
        None => html_url + "/commit/"@ + short_hash(hash),
    }
}

/// One changelog line, without its bullet:
/// `<subject>. [<label>](<url>) [@<identity>](https://github.com/<identity>)`.
pub open spec fn md_message(
    subject: Seq<char>,
    hash: Seq<char>,
    html_url: Seq<char>,
    identity: Seq<char>,
) -> Seq<char> {
    subject + ". ["@ + ref_label(subject, hash) + "]("@ + ref_url(subject, hash, html_url) + ") [@"@
        + identity + "](https://github.com/"@ + identity + ")"@
}

/// Whether one of the commits has the id `hash`.
pub open spec fn has_hash(commits: Seq<CommitView>, hash: Seq<char>) -> bool {
    exists|i: int| 0 <= i < commits.len() && (#[trigger] commits[i]).hash == hash
}

/// The commits that a package's changelog reports, in the order in which
/// they came: those whose subject belongs to the package, each commit id
/// once, at its first such occurrence.
pub open spec fn selected(commits: Seq<CommitView>, package: Seq<char>) -> Seq<CommitView>
    decreases commits.len(),
{
    if commits.len() == 0 {
        Seq::empty()
    } else {
        let before = selected(commits.drop_last(), package);
        let c = commits.last();
        if qualifies(subject_of(c.message), package) && !has_hash(before, c.hash) {
            before.push(c)
        } else {
            before
        }
    }
}

/// The bulleted lines of a block: each line after `* `, each followed by a
/// line feed.
pub open spec fn bullets(lines: Seq<Seq<char>>) -> Seq<char>
    decreases lines.len(),
{
    if lines.len() == 0 {
        Seq::empty()
    } else {
        bullets(lines.drop_last()) + "* "@ + lines.last() + "\n"@
    }
}

/// The block of one release: `## <tag>`, an empty line, then the bullets.
pub open spec fn md_block(tag_name: Seq<char>, lines: Seq<Seq<char>>) -> Seq<char> {
    "## "@ + tag_name + "\n\n"@ + bullets(lines)
}

/// The subject of a commit message.
pub fn subject_text(message: &str) -> (r: String)
    ensures
        r@ == subject_of(message@),
{
    let chars = chars_of(message);
    let end = find_line_end(&chars);
    assert(chars@.subrange(0, end as int) =~= chars@.take(end as int));
    let (from, to) = trim_bounds(&chars, 0, end);
    message.substring_char(from, to).to_owned()
}

/// The short form of a commit id.
pub fn short_hash_text(hash: &str) -> (r: String)
    ensures
        r@ == short_hash(hash@),
{
    let chars = chars_of(hash);
    let (from, to) = trim_bounds(&chars, 0, chars.len());
    assert(chars@.subrange(0, chars@.len() as int) =~= chars@);
    let stop = if to - from <= 7 {
        to
    } else {
        from + 7
    };
    assert(chars@.subrange(from as int, stop as int) =~= short_hash(hash@));
    hash.substring_char(from, stop).to_owned()
}

/// Whether one of the strings holds exactly `text`.
fn contains_text(list: &Vec<String>, text: &str) -> (r: bool)
    ensures
        r == exists|k: int| 0 <= k < list.len() && (#[trigger] list[k])@ == text@,
{
    let mut i: usize = 0;
    while i < list.len()
        invariant
            i <= list.len(),
            forall|k: int| 0 <= k < i ==> (#[trigger] list[k])@ != text@,
        decreases list.len() - i,
    {
        if same_text(list[i].as_str(), text) {
            return true;
        }
        i += 1;
    }
    false
}

/// Every selected commit is one of the commits given and belongs to the
/// package.
pub proof fn lemma_selected_sound(commits: Seq<CommitView>, package: Seq<char>)
    ensures
        forall|i: int|
            0 <= i < selected(commits, package).len() ==> {
                let c = #[trigger] selected(commits, package)[i];
                qualifies(subject_of(c.message), package) && commits.contains(c)
            },
    decreases commits.len(),
{
    if commits.len() > 0 {
        let front = commits.drop_last();
        lemma_selected_sound(front, package);
        let before = selected(front, package);
        assert forall|i: int| 0 <= i < selected(commits, package).len() implies {
            let c = #[trigger] selected(commits, package)[i];
            qualifies(subject_of(c.message), package) && commits.contains(c)
        } by {
            let c = selected(commits, package)[i];
            if i < before.len() {
                assert(c == before[i]);
                let k = choose|k: int| 0 <= k < front.len() && front[k] == c;
                assert(commits[k] == c);
            } else {
                assert(c == commits[commits.len() - 1]);
            }
        }
    }
}

/// No commit id is reported twice.
pub proof fn lemma_selected_distinct(commits: Seq<CommitView>, package: Seq<char>)
    ensures
        forall|i: int, j: int|
            0 <= i < j < selected(commits, package).len() ==> (#[trigger] selected(
                commits,
                package,
            )[i]).hash != (#[trigger] selected(commits, package)[j]).hash,
    decreases commits.len(),
{
    if commits.len() > 0 {
        lemma_selected_distinct(commits.drop_last(), package);
    }
}

/// Every commit that belongs to the package is reported: its id is among
/// the selected ones.
pub proof fn lemma_selected_complete(commits: Seq<CommitView>, package: Seq<char>)
    ensures
        forall|k: int|
            0 <= k < commits.len() && qualifies(
                subject_of((#[trigger] commits[k]).message),
                package,
            ) ==> has_hash(selected(commits, package), commits[k].hash),
    decreases commits.len(),
{
    if commits.len() > 0 {
        let front = commits.drop_last();
        lemma_selected_complete(front, package);
        let before = selected(front, package);
        let now = selected(commits, package);
        assert forall|k: int|
            0 <= k < commits.len() && qualifies(
                subject_of((#[trigger] commits[k]).message),
                package,
            ) implies has_hash(now, commits[k].hash) by {
            if k < front.len() {
                assert(front[k] == commits[k]);
                let i = choose|i: int|
                    0 <= i < before.len() && (#[trigger] before[i]).hash == commits[k].hash;
                assert(now[i] == before[i]);
            } else if has_hash(before, commits[k].hash) {
                let i = choose|i: int|
                    0 <= i < before.len() && (#[trigger] before[i]).hash == commits[k].hash;
                assert(now[i] == before[i]);
            } else {
                assert(now[now.len() - 1].hash == commits[k].hash);
            }
        }
    }
}

/// Commits that come a second time add nothing: where every commit of
/// `more` is already among `commits`, the selection from both together is
/// the selection from `commits`.
pub proof fn lemma_selected_repeat(
    commits: Seq<CommitView>,
    more: Seq<CommitView>,
    package: Seq<char>,
)
    requires
        forall|k: int| 0 <= k < more.len() ==> commits.contains(#[trigger] more[k]),
    ensures
        selected(commits + more, package) == selected(commits, package),
    decreases more.len(),
{
    if more.len() == 0 {
        assert(commits + more =~= commits);
    } else {
        let front = more.drop_last();
        assert((commits + more).drop_last() =~= commits + front);
        assert forall|k: int| 0 <= k < front.len() implies commits.contains(
            #[trigger] front[k],
        ) by {
            assert(front[k] == more[k]);
        }
        lemma_selected_repeat(commits, front, package);
        let c = more.last();
        assert((commits + more).last() == c);
        assert(commits.contains(more[more.len() - 1]));
        let k = choose|k: int| 0 <= k < commits.len() && commits[k] == c;
        lemma_selected_complete(commits, package);
    }
}

/// Building twice from the same commits gives the same lines: what is
/// selected from a sequence followed by itself is what is selected from it
/// once.
pub proof fn lemma_selected_twice(commits: Seq<CommitView>, package: Seq<char>)
    ensures
        selected(commits + commits, package) == selected(commits, package),
{
    assert forall|k: int| 0 <= k < commits.len() implies commits.contains(
        #[trigger] commits[k],
    ) by {}
    lemma_selected_repeat(commits, commits, package);
}

/// The latest release of one package.
#[derive(Debug)]
pub struct PackageRelease {
    /// The package's name; commits belong to it by their scope.
    pub package: String,
    pub release: TagAndCommit,
}

/// All releases of one package, newest first.
#[derive(Debug)]
pub struct PackageHistory {
    /// The package's name; commits belong to it by their scope.
    pub package: String,
    pub releases: Vec<TagAndCommit>,
}

/// The name of a tag; empty for a tag without one.
pub open spec fn tag_text(tag: Tag) -> Seq<char> {
    match tag@ {
        Some(name) => name,
        None => Seq::empty(),
    }
}

/// The blocks of a package's history joined by an empty line.
pub open spec fn join_blocks(blocks: Seq<Seq<char>>) -> Seq<char>
    decreases blocks.len(),
{
    if blocks.len() == 0 {
        Seq::empty()
    } else if blocks.len() == 1 {
        blocks[0]
    } else {
        join_blocks(blocks.drop_last()) + "\n\n"@ + blocks.last()
    }
}

/// The prefix that the tags of `package` carry.
pub fn tag_scope(package: &str) -> (r: String)
    ensures
        r@ == "@ant-design/pro-"@ + package@,
{
    let mut scope = String::new();
    scope.append("@ant-design/pro-");
    scope.append(package);
    assert(scope@ =~= "@ant-design/pro-"@ + package@);
    scope
}

/// The file that holds the changelog of `package`.
pub fn md_file_path(package: &str) -> (r: String)
    ensures
        r@ == ".changelog/"@ + package@ + ".md"@,
{
    let mut path = String::new();
    path.append(".changelog/");
    path.append(package);
    path.append(".md");
    assert(path@ =~= ".changelog/"@ + package@ + ".md"@);
    path
}

/// The packages of the monorepo that get a changelog, in the order of the
/// documents.
pub fn package_names() -> (r: Vec<String>)
    ensures
        crate::text::texts(r@) == seq![
            "utils"@,
            "layout"@,
            "form"@,
            "table"@,
            "field"@,
            "card"@,
            "descriptions"@,
        ],
{
    let mut names: Vec<String> = Vec::new();
    names.push("utils".to_owned());
    names.push("layout".to_owned());
    names.push("form".to_owned());
    names.push("table".to_owned());
    names.push("field".to_owned());
    names.push("card".to_owned());
    names.push("descriptions".to_owned());
    assert(crate::text::texts(names@) =~= seq![
        "utils"@,
        "layout"@,
        "form"@,
        "table"@,
        "field"@,
        "card"@,
        "descriptions"@,
    ]);
    names
}

/// A package whose changelog could not be built, with the reason.
#[derive(Debug)]
pub struct PackageError {
    pub package: String,
    pub kind: ErrorKind,
}

/// What an outcome says: the package's name with the content of its
/// document, or with the error.
pub open spec fn doc_view(doc: Result<MARKDOWN, PackageError>) -> Result<
    (Seq<char>, Seq<char>),
    (Seq<char>, ErrorKind),
> {
    match doc {
        Ok(d) => Ok((d.package@, d.content@)),
        Err(e) => Err((e.package@, e.kind)),
    }
}

/// What each outcome says, in order.
pub open spec fn doc_views(docs: Seq<Result<MARKDOWN, PackageError>>) -> Seq<
    Result<(Seq<char>, Seq<char>), (Seq<char>, ErrorKind)>,
> {
    Seq::new(docs.len(), |i: int| doc_view(docs[i]))
}

/// Whether one of the names is `author`.
pub open spec fn listed(names: Seq<String>, author: Seq<char>) -> bool {
    exists|i: int| 0 <= i < names.len() && (#[trigger] names[i])@ == author
}

/// Whether one of the commits names `author` as its author.
pub open spec fn authored(commits: Seq<CommitView>, author: Seq<char>) -> bool {
    exists|k: int| 0 <= k < commits.len() && (#[trigger] commits[k]).author == Some(author)
}

/// A name that is listed stays listed when the list grows at its end.
proof fn lemma_listed_more(names: Seq<String>, longer: Seq<String>, author: Seq<char>)
    requires
        listed(names, author),
        names.is_prefix_of(longer),
    ensures
        listed(longer, author),
{
    let i = choose|i: int| 0 <= i < names.len() && (#[trigger] names[i])@ == author;
    assert(longer[i] == names[i]);
}

/// The commits that a package's changelog reports: see [`selected`].
pub fn select_commits(commit_list: &Vec<Commit>, package: &str) -> (r: Vec<Commit>)
    ensures
        commit_views(r@) == selected(commit_views(commit_list@), package@),
{
    let ghost all = commit_views(commit_list@);
    let mut chosen: Vec<Commit> = Vec::new();
    let mut seen: Vec<String> = Vec::new();
    let mut index: usize = 0;
    assert(all.take(0) =~= Seq::empty());
    assert(commit_views(chosen@) =~= selected(all.take(0), package@));
    while index < commit_list.len()
        invariant
            index <= commit_list.len(),
            all == commit_views(commit_list@),
            commit_views(chosen@) == selected(all.take(index as int), package@),
            seen.len() == chosen.len(),
            forall|i: int| 0 <= i < seen.len() ==> (#[trigger] seen[i])@ == chosen[i]@.hash,
        decreases commit_list.len() - index,
    {
        let commit = &commit_list[index];
        let ghost before = selected(all.take(index as int), package@);
        assert(all.take(index + 1).drop_last() =~= all.take(index as int));
        assert(all.take(index + 1).last() == commit@);
        let message = subject_text(commit.message());
        if subject_qualifies(message.as_str(), package) {
            let known = contains_text(&seen, commit.hash());
            proof {
                if known {
                    let k = choose|k: int| 0 <= k < seen.len() && seen[k]@ == commit@.hash;
                    assert(before[k] == chosen[k]@);
                }
                if has_hash(before, commit@.hash) {
                    let k = choose|k: int|
                        0 <= k < before.len() && (#[trigger] before[k]).hash == commit@.hash;
                    assert(before[k] == chosen[k]@);
                    assert(seen[k]@ == commit@.hash);
                }
            }
            if !known {
                assert(commit_views(chosen@.push(*commit)) =~= before.push(commit@));
                chosen.push(commit.clone());
                seen.push(commit.hash().to_owned());
            }
        }
        index += 1;
    }
    assert(all.take(all.len() as int) =~= all);
    chosen
}

/// Builds changelogs: knows the web address of the repository and the
/// identities of the authors resolved so far.
#[derive(Debug)]
pub struct Changelogs {
    author_github_map: Vec<(String, String)>,
    github_html_url: String,
}

impl Changelogs {
    /// The web address of the repository.
    pub closed spec fn html_url(&self) -> Seq<char> {
        self.github_html_url@
    }

    /// The identity resolved for an author name, if any.
    pub closed spec fn identity(&self, author: Seq<char>) -> Option<Seq<char>> {
        lookup(self.author_github_map@, author)
    }

    /// A builder for the repository at `github_html_url`, with no author
    /// resolved yet.
    pub fn new(github_html_url: String) -> (r: Changelogs)
        ensures
            r.html_url() == github_html_url@,
            forall|author: Seq<char>| r.identity(author) is None,
    {
        Changelogs { author_github_map: Vec::new(), github_html_url }
    }

    /// The identity resolved for `author`, or `None` where the author has
    /// not been resolved yet.
    pub fn get_github_user_id(&self, author: &str) -> (r: Option<String>)
        ensures
            r is Some <==> self.identity(author@) is Some,
            r matches Some(id) ==> Some(id@) == self.identity(author@),
    {
        let mut i: usize = 0;
        assert(self.author_github_map@.skip(0) =~= self.author_github_map@);
        while i < self.author_github_map.len()
            invariant
                i <= self.author_github_map.len(),
                self.identity(author@) == lookup(self.author_github_map@.skip(i as int), author@),
            decreases self.author_github_map.len() - i,
        {
            assert(self.author_github_map@.skip(i as int).drop_first()
                =~= self.author_github_map@.skip(i + 1));
            if same_text(self.author_github_map[i].0.as_str(), author) {
                return Some(self.author_github_map[i].1.clone());
            }
            i += 1;
        }
        None
    }

    /// The commit names an author who has no identity yet.
    pub open spec fn awaits(&self, commit: CommitView) -> bool {
        commit.author is Some && self.identity(commit.author->0) is None
    }

    /// The line that a commit contributes, where its author is resolved.
    pub open spec fn line_of(&self, commit: CommitView) -> Option<Seq<char>> {
        match commit.author {
            Some(author) => match self.identity(author) {
                Some(id) => Some(
                    md_message(subject_of(commit.message), commit.hash, self.html_url(), id),
                ),
                None => None,
            },
            None => None,
        }
    }

    /// The markdown line of one commit, without its bullet. Fails where the
    /// commit names no author or the author has no resolved identity.
    pub fn get_md_message(&self, commit: &Commit) -> (r: Result<String, ErrorKind>)
        ensures
            r is Ok <==> self.line_of(commit@) is Some,
            r matches Ok(line) ==> Some(line@) == self.line_of(commit@),
            r matches Err(e) ==> e == ErrorKind::ExternalService,
    {
        let github_user_id = match commit.author() {
            Some(author) => match self.get_github_user_id(author.as_str()) {
                Some(id) => id,
                None => {
                    return Err(ErrorKind::ExternalService);
                },
            },
            None => {
                return Err(ErrorKind::ExternalService);
            },
        };
        let message = subject_text(commit.message());
        let short_md_hash = short_hash_text(commit.hash());
        let mut label = String::new();
        let mut url = self.github_html_url.clone();
        match find_pr_reference(message.as_str()) {
            Some(pr_id) => {
                label.append("#");
                label.append(pr_id.as_str());
                url.append("/pull/");
                url.append(pr_id.as_str());
            },
            None => {
                label.append(short_md_hash.as_str());
                url.append("/commit/");
                url.append(short_md_hash.as_str());
            },
        }
        assert(label@ =~= ref_label(message@, commit@.hash));
        assert(url@ =~= ref_url(message@, commit@.hash, self.html_url()));
        let mut md_message = message.clone();
        md_message.append(". [");
        md_message.append(label.as_str());
        md_message.append("](");
        md_message.append(url.as_str());
        md_message.append(") [@");
        md_message.append(github_user_id.as_str());
        md_message.append("](https://github.com/");
        md_message.append(github_user_id.as_str());
        md_message.append(")");
        Ok(md_message)
    }

    /// The changelog lines of one release for one package: one line for each
    /// commit of [`selected`], in order. Fails where one of those commits has
    /// no resolved author.
    pub fn gen_change_log_by_commit_list(&self, commit_list: &Vec<Commit>, package: &str) -> (r:
        Result<Vec<String>, ErrorKind>)
        ensures
            r is Ok <==> self.lines_of(commit_views(commit_list@), package@) is Some,
            r matches Ok(lines) ==> Some(crate::text::texts(lines@)) == self.lines_of(
                commit_views(commit_list@),
                package@,
            ),
            r matches Err(e) ==> e == ErrorKind::ExternalService,
    {
        let chosen = select_commits(commit_list, package);
        let ghost sel = selected(commit_views(commit_list@), package@);
        let mut changelog_list: Vec<String> = Vec::new();
        let mut index: usize = 0;
        while index < chosen.len()
            invariant
                index <= chosen.len(),
                sel == commit_views(chosen@),
                sel == selected(commit_views(commit_list@), package@),
                changelog_list.len() == index,
                forall|i: int|
                    0 <= i < index ==> Some((#[trigger] changelog_list[i])@) == self.line_of(sel[i]),
            decreases chosen.len() - index,
        {
            assert(sel[index as int] == chosen[index as int]@);
            match self.get_md_message(&chosen[index]) {
                Ok(md_message) => {
                    changelog_list.push(md_message);
                },
                Err(e) => {
                    assert(self.line_of(sel[index as int]) is None);
                    return Err(e);
                },
            }
            index += 1;
        }
        assert forall|i: int| 0 <= i < sel.len() implies self.line_of(#[trigger] sel[i]) is Some by {
            assert(Some(changelog_list[i]@) == self.line_of(sel[i]));
        }
        assert(crate::text::texts(changelog_list@) =~= Seq::new(
            sel.len(),
            |i: int| self.line_of(sel[i])->0,
        ));
        Ok(changelog_list)
    }

    /// The author names among `commits` that have no identity yet, each
    /// name once, in the order of first appearance.
    pub open spec fn pending(&self, commits: Seq<CommitView>) -> Seq<Seq<char>>
        decreases commits.len(),
    {
        if commits.len() == 0 {
            Seq::empty()
        } else {
            let before = self.pending(commits.drop_last());
            let c = commits.last();
            if self.awaits(c) && !before.contains(c.author->0) {
                before.push(c.author->0)
            } else {
                before
            }
        }
    }

    /// The authors that must be resolved before the lines of a release can
    /// be built: the author names of the selected commits that have no
    /// identity yet, each name once, in the order of first appearance.
    pub fn unresolved_authors(&self, commit_list: &Vec<Commit>, package: &str) -> (r: Vec<String>)
        ensures
            crate::text::texts(r@) == self.pending(selected(commit_views(commit_list@), package@)),
            forall|i: int|
                0 <= i < r.len() ==> self.identity((#[trigger] r[i])@) is None && authored(
                    selected(commit_views(commit_list@), package@),
                    r[i]@,
                ),
            forall|i: int, j: int|
                0 <= i < j < r.len() ==> (#[trigger] r[i])@ != (#[trigger] r[j])@,
            forall|k: int|
                0 <= k < selected(commit_views(commit_list@), package@).len() ==> self.awaits(
                    #[trigger] selected(commit_views(commit_list@), package@)[k],
                ) ==> listed(r@, selected(commit_views(commit_list@), package@)[k].author->0),
    {
        let chosen = select_commits(commit_list, package);
        let ghost sel = selected(commit_views(commit_list@), package@);
        let mut names: Vec<String> = Vec::new();
        let mut index: usize = 0;
        assert(sel.take(0) =~= Seq::empty());
        assert(crate::text::texts(names@) =~= Seq::empty());
        while index < chosen.len()
            invariant
                index <= chosen.len(),
                sel == commit_views(chosen@),
                crate::text::texts(names@) == self.pending(sel.take(index as int)),
                forall|i: int|
                    0 <= i < names.len() ==> self.identity((#[trigger] names[i])@) is None
                        && authored(sel, names[i]@),
                forall|i: int, j: int|
                    0 <= i < j < names.len() ==> (#[trigger] names[i])@ != (#[trigger] names[j])@,
                forall|k: int|
                    0 <= k < index ==> self.awaits(#[trigger] sel[k]) ==> listed(
                        names@,
                        sel[k].author->0,
                    ),
            decreases chosen.len() - index,
        {
            assert(sel[index as int] == chosen[index as int]@);
            assert(sel.take(index + 1).drop_last() =~= sel.take(index as int));
            assert(sel.take(index + 1).last() == sel[index as int]);
            let ghost old_names = names@;
            match chosen[index].author() {
                Some(author) => {
                    let known = contains_text(&names, author.as_str());
                    proof {
                        let before = crate::text::texts(names@);
                        if known {
                            let k = choose|k: int| 0 <= k < names.len() && names[k]@ == author@;
                            assert(before[k] == author@);
                        }
                        if before.contains(author@) {
                            let k = choose|k: int| 0 <= k < before.len() && before[k] == author@;
                            assert(names[k]@ == author@);
                        }
                    }
                    if self.get_github_user_id(author.as_str()).is_none() && !known {
                        assert(crate::text::texts(names@.push(*author)) =~= crate::text::texts(
                            names@,
                        ).push(author@));
                        names.push(author.clone());
                    }
                },
                None => {},
            }
            proof {
                assert forall|k: int| 0 <= k < index + 1 && self.awaits(
                    #[trigger] sel[k],
                ) implies listed(names@, sel[k].author->0) by {
                    if k < index {
                        lemma_listed_more(old_names, names@, sel[k].author->0);
                    } else if names.len() > old_names.len() {
                        assert(names[names.len() - 1]@ == sel[k].author->0);
                    }
                }
            }
            index += 1;
        }
        assert(sel.take(sel.len() as int) =~= sel);
        names
    }

    /// The markdown block of one release: its heading and one bullet for
    /// each line.
    pub fn gen_change_log_to_md(&self, tag_name: &str, change_logs: &Vec<String>) -> (r: String)
        ensures
            r@ == md_block(tag_name@, crate::text::texts(change_logs@)),
    {
        let mut md_file_content = String::new();
        md_file_content.append("## ");
        md_file_content.append(tag_name);
        md_file_content.append("\n\n");
        let ghost lines = crate::text::texts(change_logs@);
        let ghost head = md_file_content@;
        assert(head =~= "## "@ + tag_name@ + "\n\n"@);
        let mut index: usize = 0;
        assert(lines.take(0) =~= Seq::empty());
        assert(head + bullets(lines.take(0)) =~= head);
        while index < change_logs.len()
            invariant
                index <= change_logs.len(),
                lines == crate::text::texts(change_logs@),
                md_file_content@ == head + bullets(lines.take(index as int)),
            decreases change_logs.len() - index,
        {
            assert(lines.take(index + 1).drop_last() =~= lines.take(index as int));
            assert(lines.take(index + 1).last() == change_logs[index as int]@);
            md_file_content.append("* ");
            md_file_content.append(change_logs[index].as_str());
            md_file_content.append("\n");
            assert(md_file_content@ =~= head + bullets(lines.take(index + 1)));
            index += 1;
        }
        assert(lines.take(lines.len() as int) =~= lines);
        md_file_content
    }

    /// The lines of the selected commits, where every one of them has a
    /// resolved author.
    pub open spec fn lines_of(&self, commits: Seq<CommitView>, package: Seq<char>) -> Option<
        Seq<Seq<char>>,
    > {
        let sel = selected(commits, package);
        if forall|i: int| 0 <= i < sel.len() ==> self.line_of(#[trigger] sel[i]) is Some {
            Some(Seq::new(sel.len(), |i: int| self.line_of(sel[i])->0))
        } else {
            None
        }
    }

    /// The block of one release for one package: an error where a selected
    /// commit has no resolved author, no block where no commit is selected,
    /// else the heading with one bullet for each selected commit.
    pub open spec fn block_of(&self, package: Seq<char>, release: TagAndCommit) -> Result<
        Option<Seq<char>>,
        ErrorKind,
    > {
        match self.lines_of(commit_views(release.commit_list@), package) {
            None => Err(ErrorKind::ExternalService),
            Some(lines) => if lines.len() == 0 {
                Ok(None)
            } else {
                Ok(Some(md_block(tag_text(release.tag), lines)))
            },
        }
    }

    /// The outcome of the latest releases: for each package whose release
    /// has a block or fails, in order, the package's name with that block or
    /// with the error.
    pub open spec fn latest_docs(&self, packages: Seq<PackageRelease>) -> Seq<
        Result<(Seq<char>, Seq<char>), (Seq<char>, ErrorKind)>,
    >
        decreases packages.len(),
    {
        if packages.len() == 0 {
            Seq::empty()
        } else {
            let p = packages.last();
            let docs = self.latest_docs(packages.drop_last());
            match self.block_of(p.package@, p.release) {
                Err(e) => docs.push(Err((p.package@, e))),
                Ok(None) => docs,
                Ok(Some(block)) => docs.push(Ok((p.package@, block))),
            }
        }
    }

    /// The blocks of a package's releases, in order; releases without a
    /// block are passed over.
    pub open spec fn history_blocks(&self, package: Seq<char>, releases: Seq<TagAndCommit>)
        -> Result<Seq<Seq<char>>, ErrorKind>
        decreases releases.len(),
    {
        if releases.len() == 0 {
            Ok(Seq::empty())
        } else {
            match self.history_blocks(package, releases.drop_last()) {
                Err(e) => Err(e),
                Ok(blocks) => match self.block_of(package, releases.last()) {
                    Err(e) => Err(e),
                    Ok(None) => Ok(blocks),
                    Ok(Some(block)) => Ok(blocks.push(block)),
                },
            }
        }
    }

    /// The outcome of whole histories: for each package, in order, its name
    /// with its blocks joined by an empty line, or with the error of the
    /// first release that fails.
    pub open spec fn all_docs(&self, packages: Seq<PackageHistory>) -> Seq<
        Result<(Seq<char>, Seq<char>), (Seq<char>, ErrorKind)>,
    >
        decreases packages.len(),
    {
        if packages.len() == 0 {
            Seq::empty()
        } else {
            let p = packages.last();
            let docs = self.all_docs(packages.drop_last());
            match self.history_blocks(p.package@, p.releases@) {
                Err(e) => docs.push(Err((p.package@, e))),
                Ok(blocks) => docs.push(Ok((p.package@, join_blocks(blocks)))),
            }
        }
    }

    /// The markdown block of one release for one package, or `None` where
    /// no commit of the release belongs to the package.
    pub fn gen_release_block(&self, package: &str, release: &TagAndCommit) -> (r: Result<
        Option<String>,
        ErrorKind,
    >)
        ensures
            r is Ok <==> self.block_of(package@, *release) is Ok,
            r matches Ok(block) ==> Ok::<Option<Seq<char>>, ErrorKind>(crate::range::opt_text(block))
                == self.block_of(package@, *release),
            r matches Err(e) ==> e == ErrorKind::ExternalService,
    {
        match self.gen_change_log_by_commit_list(&release.commit_list, package) {
            Err(e) => Err(e),
            Ok(change_logs) => {
                if change_logs.len() < 1 {
                    return Ok(None);
                }
                let name = match release.tag.name() {
                    Some(name) => name.as_str(),
                    None => "",
                };
                proof {
                    reveal_strlit("");
                }
                assert(name@ =~= tag_text(release.tag));
                Ok(Some(self.gen_change_log_to_md(name, &change_logs)))
            },
        }
    }

    /// The changelogs of the latest release of each package, in order. A
    /// package whose release has no commit of its own gets no document; one
    /// whose lines cannot be built is reported with its error, and the
    /// packages after it are built all the same.
    pub fn get_change_log_list(&self, packages: &Vec<PackageRelease>) -> (r: Vec<
        Result<MARKDOWN, PackageError>,
    >)
        ensures
            doc_views(r@) == self.latest_docs(packages@),
    {
        let mut md_packages: Vec<Result<MARKDOWN, PackageError>> = Vec::new();
        let mut index: usize = 0;
        assert(packages@.take(0) =~= Seq::empty());
        assert(doc_views(md_packages@) =~= Seq::empty());
        while index < packages.len()
            invariant
                index <= packages.len(),
                doc_views(md_packages@) == self.latest_docs(packages@.take(index as int)),
            decreases packages.len() - index,
        {
            let entry = &packages[index];
            assert(packages@.take(index + 1).drop_last() =~= packages@.take(index as int));
            assert(packages@.take(index + 1).last() == *entry);
            match self.gen_release_block(entry.package.as_str(), &entry.release) {
                Err(kind) => {
                    let failure = Err(PackageError { package: entry.package.clone(), kind });
                    assert(doc_views(md_packages@.push(failure)) =~= doc_views(md_packages@).push(
                        Err((entry.package@, kind)),
                    ));
                    md_packages.push(failure);
                },
                Ok(None) => {},
                Ok(Some(md_file_content)) => {
                    let doc = Ok(
                        MARKDOWN { package: entry.package.clone(), content: md_file_content },
                    );
                    assert(doc_views(md_packages@.push(doc)) =~= doc_views(md_packages@).push(
                        Ok((entry.package@, md_file_content@)),
                    ));
                    md_packages.push(doc);
                },
            }
            index += 1;
        }
        assert(packages@.take(packages@.len() as int) =~= packages@);
        md_packages
    }

    /// The content of one package's document over its whole history: the
    /// blocks of its releases, in order, joined by an empty line.
    pub fn gen_history_content(&self, package: &str, releases: &Vec<TagAndCommit>) -> (r: Result<
        String,
        ErrorKind,
    >)
        ensures
            r is Ok <==> self.history_blocks(package@, releases@) is Ok,
            r matches Ok(content) ==> content@ == join_blocks(
                self.history_blocks(package@, releases@)->Ok_0,
            ),
            r matches Err(e) ==> e == ErrorKind::ExternalService,
    {
        let mut content = String::new();
        let mut has_blocks = false;
        let ghost mut blocks: Seq<Seq<char>> = Seq::empty();
        let mut index: usize = 0;
        assert(releases@.take(0) =~= Seq::empty());
        while index < releases.len()
            invariant
                index <= releases.len(),
                self.history_blocks(package@, releases@.take(index as int)) == Ok::<
                    Seq<Seq<char>>,
                    ErrorKind,
                >(blocks),
                content@ == join_blocks(blocks),
                has_blocks == (blocks.len() > 0),
            decreases releases.len() - index,
        {
            assert(releases@.take(index + 1).drop_last() =~= releases@.take(index as int));
            assert(releases@.take(index + 1).last() == releases[index as int]);
            match self.gen_release_block(package, &releases[index]) {
                Err(e) => {
                    proof {
                        self.lemma_history_blocks_fail(package@, releases@, index + 1);
                    }
                    return Err(e);
                },
                Ok(None) => {},
                Ok(Some(md_file_content)) => {
                    proof {
                        let longer = blocks.push(md_file_content@);
                        assert(longer.drop_last() =~= blocks);
                        if blocks.len() > 0 {
                            assert(join_blocks(longer) == join_blocks(blocks) + "\n\n"@
                                + md_file_content@);
                        } else {
                            assert(join_blocks(longer) == md_file_content@);
                        }
                    }
                    if has_blocks {
                        content.append("\n\n");
                    }
                    content.append(md_file_content.as_str());
                    has_blocks = true;
                    proof {
                        blocks = blocks.push(md_file_content@);
                    }
                },
            }
            index += 1;
        }
        assert(releases@.take(releases@.len() as int) =~= releases@);
        Ok(content)
    }

    /// The changelogs of every release of each package: one outcome for
    /// each package, in order. A package with a release whose lines cannot
    /// be built is reported with its error, and the packages after it are
    /// built all the same.
    pub fn get_all_change_log_list(&self, packages: &Vec<PackageHistory>) -> (r: Vec<
        Result<MARKDOWN, PackageError>,
    >)
        ensures
            doc_views(r@) == self.all_docs(packages@),
    {
        let mut md_packages: Vec<Result<MARKDOWN, PackageError>> = Vec::new();
        let mut index: usize = 0;
        assert(packages@.take(0) =~= Seq::empty());
        assert(doc_views(md_packages@) =~= Seq::empty());
        while index < packages.len()
            invariant
                index <= packages.len(),
                doc_views(md_packages@) == self.all_docs(packages@.take(index as int)),
            decreases packages.len() - index,
        {
            let entry = &packages[index];
            assert(packages@.take(index + 1).drop_last() =~= packages@.take(index as int));
            assert(packages@.take(index + 1).last() == *entry);
            proof {
                self.lemma_history_blocks_error(entry.package@, entry.releases@);
            }
            let outcome = match self.gen_history_content(entry.package.as_str(), &entry.releases) {
                Err(kind) => Err(PackageError { package: entry.package.clone(), kind }),
                Ok(content) => Ok(MARKDOWN { package: entry.package.clone(), content }),
            };
            assert(doc_views(md_packages@.push(outcome)) =~= doc_views(md_packages@).push(
                doc_view(outcome),
            ));
            md_packages.push(outcome);
            index += 1;
        }
        assert(packages@.take(packages@.len() as int) =~= packages@);
        md_packages
    }

    /// Once a release fails, the blocks of any longer history fail too.
    pub proof fn lemma_history_blocks_fail(
        &self,
        package: Seq<char>,
        releases: Seq<TagAndCommit>,
        n: int,
    )
        requires
            0 <= n <= releases.len(),
            self.history_blocks(package, releases.take(n)) is Err,
        ensures
            self.history_blocks(package, releases) == Err::<Seq<Seq<char>>, ErrorKind>(
                ErrorKind::ExternalService,
            ),
        decreases releases.len() - n,
    {
        self.lemma_history_blocks_error(package, releases.take(n));
        if n == releases.len() {
            assert(releases.take(n) =~= releases);
        } else {
            assert(releases.take(n + 1).drop_last() =~= releases.take(n));
            self.lemma_history_blocks_fail(package, releases, n + 1);
        }
    }

    /// The only error of a history is that of an author without identity.
    pub proof fn lemma_history_blocks_error(&self, package: Seq<char>, releases: Seq<TagAndCommit>)
        ensures
            self.history_blocks(package, releases) matches Err(e) ==> e
                == ErrorKind::ExternalService,
        decreases releases.len(),
    {
        if releases.len() > 0 {
            self.lemma_history_blocks_error(package, releases.drop_last());
        }
    }

    /// The outcome of a list of packages is the outcome of its front
    /// followed by the outcome of its back.
    pub proof fn lemma_latest_docs_concat(
        &self,
        front: Seq<PackageRelease>,
        back: Seq<PackageRelease>,
    )
        ensures
            self.latest_docs(front + back) == self.latest_docs(front) + self.latest_docs(back),
        decreases back.len(),
    {
        if back.len() == 0 {
            assert(front + back =~= front);
            assert(self.latest_docs(front) + self.latest_docs(back) =~= self.latest_docs(front));
        } else {
            assert((front + back).drop_last() =~= front + back.drop_last());
            assert((front + back).last() == back.last());
            self.lemma_latest_docs_concat(front, back.drop_last());
            let p = back.last();
            let a = self.latest_docs(front);
            let b = self.latest_docs(back.drop_last());
            match self.block_of(p.package@, p.release) {
                Err(e) => {
                    assert((a + b).push(Err((p.package@, e))) =~= a + b.push(Err((p.package@, e))));
                },
                Ok(None) => {},
                Ok(Some(block)) => {
                    assert((a + b).push(Ok((p.package@, block))) =~= a + b.push(
                        Ok((p.package@, block)),
                    ));
                },
            }
        }
    }

    /// A package whose release has no commit of its own gets no document,
    /// wherever it stands among the packages, and changes no other
    /// package's document.
    pub proof fn lemma_latest_docs_skip(
        &self,
        front: Seq<PackageRelease>,
        package: PackageRelease,
        back: Seq<PackageRelease>,
    )
        requires
            self.block_of(package.package@, package.release) == Ok::<Option<Seq<char>>, ErrorKind>(
                None,
            ),
        ensures
            self.latest_docs(front + seq![package] + back) == self.latest_docs(front + back),
    {
        let one = seq![package];
        let none = Seq::<PackageRelease>::empty();
        assert(one.drop_last() =~= none);
        assert(one.last() == package);
        assert(self.latest_docs(none).len() == 0);
        assert(self.latest_docs(one) == self.latest_docs(one.drop_last()));
        assert(self.latest_docs(one) =~= Seq::empty());
        self.lemma_latest_docs_concat(front, one);
        self.lemma_latest_docs_concat(front + one, back);
        self.lemma_latest_docs_concat(front, back);
        assert(self.latest_docs(front) + self.latest_docs(one) =~= self.latest_docs(front));
    }

    /// Building from the same commits twice over gives the lines of
    /// building from them once: no line comes twice.
    pub proof fn lemma_build_twice(&self, commits: Seq<CommitView>, package: Seq<char>)
        ensures
            self.lines_of(commits + commits, package) == self.lines_of(commits, package),
    {
        lemma_selected_twice(commits, package);
    }

    /// Where every author of the selected commits is resolved, the lines
    /// can be built.
    pub proof fn lemma_build_succeeds(&self, commits: Seq<CommitView>, package: Seq<char>)
        requires
            forall|i: int|
                0 <= i < selected(commits, package).len() ==> {
                    let c = #[trigger] selected(commits, package)[i];
                    c.author is Some && !self.awaits(c)
                },
        ensures
            self.lines_of(commits, package) is Some,
            self.lines_of(commits, package)->0.len() == selected(commits, package).len(),
    {
    }

    /// Records the identity resolved for `author`. An author that is known
    /// keeps the identity recorded first; no other author is touched. From
    /// then on no commit of this author awaits a lookup.
    pub fn set_github_user_id(&mut self, author: &str, id: String)
        ensures
            final(self).html_url() == old(self).html_url(),
            final(self).identity(author@) is Some,
            forall|commit: CommitView|
                commit.author == Some(author@) ==> !#[trigger] final(self).awaits(commit),
            forall|name: Seq<char>|
                #[trigger] final(self).identity(name) == if name == author@ && old(self).identity(
                    name,
                ) is None {
                    Some(id@)
                } else {
                    old(self).identity(name)
                },
    {
        let pair = (author.to_owned(), id);
        proof {
            assert forall|name: Seq<char>|
                #[trigger] lookup(self.author_github_map@.push(pair), name) == if name == author@
                    && lookup(self.author_github_map@, name) is None {
                    Some(id@)
                } else {
                    lookup(self.author_github_map@, name)
                } by {
                lemma_lookup_push(self.author_github_map@, pair, name);
            }
        }
        self.author_github_map.push(pair);
    }
}

} // verus!
