//! Commit ranges: for each release tag, the commit it points to and the
//! commit at which its changelog ends.

use crate::error::ErrorKind;
use vstd::prelude::*;

verus! {

/// The text of an optional string.
pub open spec fn opt_text(o: Option<String>) -> Option<Seq<char>> {
    match o {
        Some(s) => Some(s@),
        None => None,
    }
}

/// A git tag.
#[derive(Debug)]
pub struct Tag {
    name: Option<String>,
}

impl Clone for Tag {
    fn clone(&self) -> (r: Self)
        ensures
            r == *self,
    {
        Tag { name: self.name.clone() }
    }
}

impl View for Tag {
    type V = Option<Seq<char>>;

    closed spec fn view(&self) -> Option<Seq<char>> {
        opt_text(self.name)
    }
}

impl Tag {
    /// A tag of the given name.
    pub fn new(name: String) -> (r: Tag)
        ensures
            r@ == Some(name@),
    {
        Tag { name: Some(name) }
    }

    /// Access the tag name.
    pub fn name(&self) -> (r: &Option<String>)
        ensures
            opt_text(*r) == self@,
    {
        &self.name
    }
}

/// A tag of a package together with the commit it resolves to, if any.
#[derive(Debug)]
pub struct ResolvedTag {
    name: String,
    commit: Option<String>,
}

/// What a [`ResolvedTag`] holds.
pub struct ResolvedTagView {
    pub name: Seq<char>,
    pub commit: Option<Seq<char>>,
}

impl View for ResolvedTag {
    type V = ResolvedTagView;

    closed spec fn view(&self) -> ResolvedTagView {
        ResolvedTagView { name: self.name@, commit: opt_text(self.commit) }
    }
}

impl ResolvedTag {
    /// A tag name with the id of the commit it points to; `None` for a tag
    /// that resolves to no commit.
    pub fn new(name: String, commit: Option<String>) -> (r: ResolvedTag)
        ensures
            r@.name == name@,
            r@.commit == opt_text(commit),
    {
        ResolvedTag { name, commit }
    }

    /// The tag's name.
    pub fn name(&self) -> (r: &str)
        ensures
            r@ == self@.name,
    {
        self.name.as_str()
    }

    /// Id of the commit the tag points to, if it points to one.
    pub fn commit(&self) -> (r: &Option<String>)
        ensures
            opt_text(*r) == self@.commit,
    {
        &self.commit
    }
}

/// A commit range for a tagged release.
#[derive(Debug)]
pub struct CommitRange {
    latest_tag: Tag,
    start: String,
    end: String,
    end_is_root: bool,
}

/// What a [`CommitRange`] holds.
pub struct CommitRangeView {
    /// Name of the release tag.
    pub tag: Seq<char>,
    /// The commit the tag points to.
    pub start: Seq<char>,
    /// The commit at which the range ends.
    pub end: Seq<char>,
    /// Whether the range ends at the root of the history rather than at the
    /// previous release.
    pub end_is_root: bool,
}

impl View for CommitRange {
    type V = CommitRangeView;

    closed spec fn view(&self) -> CommitRangeView {
        CommitRangeView {
            tag: match self.latest_tag@ {
                Some(n) => n,
                None => Seq::empty(),
            },
            start: self.start@,
            end: self.end@,
            end_is_root: self.end_is_root,
        }
    }
}

impl Clone for CommitRange {
    fn clone(&self) -> (r: Self)
        ensures
            r == *self,
    {
        CommitRange {
            latest_tag: self.latest_tag.clone(),
            start: self.start.clone(),
            end: self.end.clone(),
            end_is_root: self.end_is_root,
        }
    }
}

impl CommitRange {
    /// The range of the release `tag`, from the commit `start` back to `end`.
    pub fn new(tag: String, start: String, end: String, end_is_root: bool) -> (r: CommitRange)
        ensures
            r@ == (CommitRangeView { tag: tag@, start: start@, end: end@, end_is_root }),
            r.tag_spec()@ == Some(tag@),
    {
        CommitRange { latest_tag: Tag::new(tag), start, end, end_is_root }
    }

    /// The release tag, as a value.
    pub closed spec fn tag_spec(&self) -> Tag {
        self.latest_tag
    }

    /// The release tag.
    pub fn latest_tag(&self) -> (r: &Tag)
        ensures
            *r == self.tag_spec(),
    {
        &self.latest_tag
    }

    /// Id of the commit the release tag points to.
    pub fn start(&self) -> (r: &str)
        ensures
            r@ == self@.start,
    {
        self.start.as_str()
    }

    /// Id of the commit at which the range ends.
    pub fn end(&self) -> (r: &str)
        ensures
            r@ == self@.end,
    {
        self.end.as_str()
    }

    /// Whether the range ends at the root of the history.
    pub fn end_is_root(&self) -> (r: bool)
        ensures
            r == self@.end_is_root,
    {
        self.end_is_root
    }
}

/// The views of a list of resolved tags, in order.
pub open spec fn tag_views(tags: Seq<ResolvedTag>) -> Seq<ResolvedTagView> {
    Seq::new(tags.len(), |i: int| tags[i]@)
}

/// The views of a list of ranges, in order.
pub open spec fn range_views(ranges: Seq<CommitRange>) -> Seq<CommitRangeView> {
    Seq::new(ranges.len(), |i: int| ranges[i]@)
}

/// The range of the tag at position `i` of a list in ascending version
/// order: from its own commit back to the commit of the tag before it, or to
/// `root` for the first tag. A boundary that resolves to no commit is an
/// error.
pub open spec fn range_of(tags: Seq<ResolvedTagView>, root: Option<Seq<char>>, i: int) -> Result<
    CommitRangeView,
    ErrorKind,
> {
    let end = if i == 0 {
        root
    } else {
        tags[i - 1].commit
    };
    match (tags[i].commit, end) {
        (Some(start), Some(end)) => Ok(
            CommitRangeView { tag: tags[i].name, start, end, end_is_root: i == 0 },
        ),
        _ => Err(ErrorKind::AmbiguousBoundary),
    }
}

/// The range of the highest tag.
pub open spec fn latest_range(tags: Seq<ResolvedTagView>, root: Option<Seq<char>>) -> Result<
    CommitRangeView,
    ErrorKind,
> {
    if tags.len() == 0 {
        Err(ErrorKind::NoTags)
    } else {
        range_of(tags, root, tags.len() - 1)
    }
}

/// One range per tag, from the highest tag down to the lowest, whose range
/// ends at the root.
pub open spec fn all_ranges(tags: Seq<ResolvedTagView>, root: Option<Seq<char>>) -> Result<
    Seq<CommitRangeView>,
    ErrorKind,
> {
    if tags.len() == 0 {
        Err(ErrorKind::NoTags)
    } else if exists|i: int| 0 <= i < tags.len() && range_of(tags, root, i) is Err {
        Err(ErrorKind::AmbiguousBoundary)
    } else {
        Ok(Seq::new(tags.len(), |k: int| range_of(tags, root, tags.len() - 1 - k)->Ok_0))
    }
}

/// The latest range ends at the root exactly where the package has a single
/// tag; with two tags or more it ends at the previous release.
pub proof fn lemma_latest_end_is_root(tags: Seq<ResolvedTagView>, root: Option<Seq<char>>)
    requires
        latest_range(tags, root) is Ok,
    ensures
        latest_range(tags, root)->Ok_0.end_is_root == (tags.len() == 1),
        tags.len() >= 2 ==> latest_range(tags, root)->Ok_0.end == tags[tags.len() - 2].commit->0,
        latest_range(tags, root)->Ok_0.start == tags[tags.len() - 1].commit->0,
{
}

/// Every tag gets exactly one range: the ranges come newest first, each
/// ends at the commit of the tag below it, and only the last one, that of
/// the lowest tag, ends at the root.
pub proof fn lemma_one_range_per_tag(tags: Seq<ResolvedTagView>, root: Option<Seq<char>>)
    requires
        all_ranges(tags, root) is Ok,
    ensures
        all_ranges(tags, root)->Ok_0.len() == tags.len(),
        forall|k: int|
            0 <= k < tags.len() ==> {
                let range = #[trigger] all_ranges(tags, root)->Ok_0[k];
                &&& range.tag == tags[tags.len() - 1 - k].name
                &&& range.start == tags[tags.len() - 1 - k].commit->0
                &&& range.end_is_root == (k == tags.len() - 1)
                &&& k < tags.len() - 1 ==> range.end == tags[tags.len() - 2 - k].commit->0
                &&& k == tags.len() - 1 ==> Some(range.end) == root
            },
{
    assert forall|k: int| 0 <= k < tags.len() implies {
        let range = #[trigger] all_ranges(tags, root)->Ok_0[k];
        &&& range.tag == tags[tags.len() - 1 - k].name
        &&& range.start == tags[tags.len() - 1 - k].commit->0
        &&& range.end_is_root == (k == tags.len() - 1)
        &&& k < tags.len() - 1 ==> range.end == tags[tags.len() - 2 - k].commit->0
        &&& k == tags.len() - 1 ==> Some(range.end) == root
    } by {
        let i = tags.len() - 1 - k;
        assert(range_of(tags, root, i) is Ok);
    }
}

/// Where every tag has a range, the first of all ranges is the latest
/// range.
pub proof fn lemma_first_range_is_latest(tags: Seq<ResolvedTagView>, root: Option<Seq<char>>)
    requires
        all_ranges(tags, root) is Ok,
    ensures
        latest_range(tags, root) == Ok::<CommitRangeView, ErrorKind>(all_ranges(tags, root)->Ok_0[0]),
{
    assert(range_of(tags, root, tags.len() - 1) is Ok);
}

/// Builds the range of the tag at position `i`.
fn range_at(tags: &Vec<ResolvedTag>, root: &Option<String>, i: usize) -> (r: Result<
    CommitRange,
    ErrorKind,
>)
    requires
        i < tags.len(),
    ensures
        r is Ok <==> range_of(tag_views(tags@), opt_text(*root), i as int) is Ok,
        r matches Ok(range) ==> Ok::<CommitRangeView, ErrorKind>(range@) == range_of(
            tag_views(tags@),
            opt_text(*root),
            i as int,
        ) && range.tag_spec()@ == Some(tags[i as int]@.name),
        r matches Err(e) ==> e == ErrorKind::AmbiguousBoundary,
{
    let end = if i == 0 {
        root
    } else {
        &tags[i - 1].commit
    };
    match (&tags[i].commit, end) {
        (Some(start), Some(end)) => Ok(
            CommitRange::new(tags[i].name.clone(), start.clone(), end.clone(), i == 0),
        ),
        _ => Err(ErrorKind::AmbiguousBoundary),
    }
}

/// The commit range of the latest release of a package.
///
/// `ordered_tags` are the package's tags in ascending version order, each
/// with the commit it resolves to. `root` is the root-most commit reachable
/// from the lowest tag; it bounds the range where the package has a single
/// tag. With two tags or more the range ends at the second highest tag.
pub fn get_commit_latest_range(ordered_tags: &Vec<ResolvedTag>, root: &Option<String>) -> (r:
    Result<CommitRange, ErrorKind>)
    ensures
        r is Ok <==> latest_range(tag_views(ordered_tags@), opt_text(*root)) is Ok,
        r matches Ok(range) ==> Ok::<CommitRangeView, ErrorKind>(range@) == latest_range(
            tag_views(ordered_tags@),
            opt_text(*root),
        ) && range.tag_spec()@ == Some(ordered_tags[ordered_tags.len() - 1]@.name),
        r matches Err(e) ==> Err::<CommitRangeView, ErrorKind>(e) == latest_range(
            tag_views(ordered_tags@),
            opt_text(*root),
        ),
{
    let len = ordered_tags.len();
    if len == 0 {
        return Err(ErrorKind::NoTags);
    }
    range_at(ordered_tags, root, len - 1)
}

/// The commit ranges of all releases of a package, newest first: every tag
/// gets exactly one range, and the range of the lowest tag ends at `root`.
pub fn get_all_tag_range(ordered_tags: &Vec<ResolvedTag>, root: &Option<String>) -> (r: Result<
    Vec<CommitRange>,
    ErrorKind,
>)
    ensures
        r is Ok <==> all_ranges(tag_views(ordered_tags@), opt_text(*root)) is Ok,
        r matches Ok(ranges) ==> Ok::<Seq<CommitRangeView>, ErrorKind>(range_views(ranges@))
            == all_ranges(tag_views(ordered_tags@), opt_text(*root)) && forall|k: int|
            0 <= k < ranges.len() ==> (#[trigger] ranges[k]).tag_spec()@ == Some(
                ordered_tags[ordered_tags.len() - 1 - k]@.name,
            ),
        r matches Err(e) ==> Err::<Seq<CommitRangeView>, ErrorKind>(e) == all_ranges(
            tag_views(ordered_tags@),
            opt_text(*root),
        ),
{
    let len = ordered_tags.len();
    if len == 0 {
        return Err(ErrorKind::NoTags);
    }
    let ghost tags = tag_views(ordered_tags@);
    let ghost root_text = opt_text(*root);
    let mut cr_list: Vec<CommitRange> = Vec::new();
    let mut index: usize = 0;
    while index < len
        invariant
            index <= len,
            len == ordered_tags.len(),
            tags == tag_views(ordered_tags@),
            root_text == opt_text(*root),
            cr_list.len() == index,
            forall|k: int|
                0 <= k < index ==> Ok::<CommitRangeView, ErrorKind>((#[trigger] cr_list[k])@)
                    == range_of(tags, root_text, len - 1 - k),
            forall|k: int|
                0 <= k < index ==> (#[trigger] cr_list[k]).tag_spec()@ == Some(
                    ordered_tags[len - 1 - k]@.name,
                ),
        decreases len - index,
    {
        match range_at(ordered_tags, root, len - 1 - index) {
            Ok(range) => {
                cr_list.push(range);
            },
            Err(e) => {
                assert(range_of(tags, root_text, len - 1 - index) is Err);
                return Err(e);
            },
        }
        index += 1;
    }
    proof {
        assert forall|i: int| 0 <= i < tags.len() implies range_of(tags, root_text, i) is Ok by {
            let k = len - 1 - i;
            assert(Ok::<CommitRangeView, ErrorKind>(cr_list[k]@) == range_of(
                tags,
                root_text,
                len - 1 - k,
            ));
        }
        assert(range_views(cr_list@) =~= Seq::new(
            tags.len(),
            |k: int| range_of(tags, root_text, tags.len() - 1 - k)->Ok_0,
        ));
    }
    Ok(cr_list)
}

} // verus!
