//! The tag index: which tags belong to a package, what version each carries,
//! and their order by semantic version.

use crate::text::{chars_of, lemma_filter_step, starts_with, texts};
use crate::version::{semver_core, semver_order, SemVer};
use vstd::prelude::*;

verus! {

/// Position of the last `@` in `s`, or `-1` where there is none.
pub open spec fn last_at(s: Seq<char>) -> int
    decreases s.len(),
{
    if s.len() == 0 {
        -1
    } else if s.last() == '@' {
        s.len() - 1
    } else {
        last_at(s.drop_last())
    }
}

/// The final `@`-delimited segment of a tag name: the version text.
pub open spec fn version_part(s: Seq<char>) -> Seq<char> {
    s.subrange(last_at(s) + 1, s.len() as int)
}

/// Everything before the final `@`-delimited segment: the package scope.
/// Empty where the name holds no `@`.
pub open spec fn scope_part(s: Seq<char>) -> Seq<char> {
    if last_at(s) < 0 {
        Seq::empty()
    } else {
        s.subrange(0, last_at(s))
    }
}

/// `last_at` is in range, points at an `@`, and no `@` follows it.
pub proof fn lemma_last_at(s: Seq<char>)
    ensures
        -1 <= last_at(s) < s.len(),
        last_at(s) >= 0 ==> s[last_at(s)] == '@',
        forall|i: int| last_at(s) < i < s.len() ==> s[i] != '@',
    decreases s.len(),
{
    if s.len() > 0 && s.last() != '@' {
        let front = s.drop_last();
        lemma_last_at(front);
        assert forall|i: int| last_at(s) < i < s.len() implies s[i] != '@' by {
            if i < front.len() {
                assert(front[i] == s[i]);
            }
        }
    }
}

/// The two parts of a name put it together again around its last `@`, and
/// the version part holds no `@`. A name without `@` is all version.
pub proof fn lemma_split_parts(s: Seq<char>)
    ensures
        forall|i: int| 0 <= i < version_part(s).len() ==> version_part(s)[i] != '@',
        last_at(s) >= 0 ==> s == scope_part(s) + seq!['@'] + version_part(s),
        last_at(s) < 0 ==> version_part(s) == s && scope_part(s).len() == 0,
{
    lemma_last_at(s);
    if last_at(s) >= 0 {
        assert(s =~= scope_part(s) + seq!['@'] + version_part(s));
    } else {
        assert(version_part(s) =~= s);
    }
}

/// A tag name split at its last `@`.
#[derive(Debug)]
pub struct TagAndVersion {
    package: String,
    version: String,
}

impl Clone for TagAndVersion {
    fn clone(&self) -> (r: Self)
        ensures
            r == *self,
    {
        TagAndVersion { package: self.package.clone(), version: self.version.clone() }
    }
}

impl TagAndVersion {
    /// The text before the last `@`.
    pub closed spec fn package_view(&self) -> Seq<char> {
        self.package@
    }

    /// The text after the last `@`.
    pub closed spec fn version_view(&self) -> Seq<char> {
        self.version@
    }

    /// The package scope, without the separating `@`.
    pub fn package(&self) -> (r: &str)
        ensures
            r@ == self.package_view(),
    {
        self.package.as_str()
    }

    /// The version text, not yet parsed.
    pub fn version(&self) -> (r: &str)
        ensures
            r@ == self.version_view(),
    {
        self.version.as_str()
    }
}

/// Splits a tag name at its last `@` into package scope and version text.
pub fn get_version(tag: &str) -> (r: TagAndVersion)
    ensures
        r.package_view() == scope_part(tag@),
        r.version_view() == version_part(tag@),
{
    let chars = chars_of(tag);
    let n = chars.len();
    let mut i: usize = n;
    assert(tag@.take(n as int) =~= tag@);
    while i > 0 && chars[i - 1] != '@'
        invariant
            i <= n,
            n == chars@.len(),
            chars@ == tag@,
            last_at(tag@) == last_at(tag@.take(i as int)),
        decreases i,
    {
        assert(tag@.take(i as int).drop_last() =~= tag@.take(i - 1));
        i -= 1;
    }
    let version = tag.substring_char(i, n).to_owned();
    let package = if i == 0 {
        String::new()
    } else {
        tag.substring_char(0, i - 1).to_owned()
    };
    TagAndVersion { package, version }
}

/// A tag name is usable where its version part is a semantic version.
pub open spec fn tag_parses(name: Seq<char>) -> bool {
    semver_core(version_part(name)) is Some
}

/// A tag that carries a semantic version.
#[derive(Debug)]
pub struct ParsedTagVersion {
    raw_tag: String,
    package_scope: String,
    version: SemVer,
}

impl Clone for ParsedTagVersion {
    fn clone(&self) -> (r: Self)
        ensures
            r == *self,
    {
        ParsedTagVersion {
            raw_tag: self.raw_tag.clone(),
            package_scope: self.package_scope.clone(),
            version: self.version.clone(),
        }
    }
}

impl ParsedTagVersion {
    /// The whole tag name.
    pub closed spec fn raw_view(&self) -> Seq<char> {
        self.raw_tag@
    }

    /// The package scope.
    pub closed spec fn scope_view(&self) -> Seq<char> {
        self.package_scope@
    }

    /// The version the tag carries.
    pub closed spec fn version_spec(&self) -> SemVer {
        self.version
    }

    /// Scope and version are the two parts of the raw name, and the version
    /// is a semantic version.
    pub open spec fn wf(&self) -> bool {
        &&& self.version_spec().wf()
        &&& self.version_spec().text_view() == version_part(self.raw_view())
        &&& self.scope_view() == scope_part(self.raw_view())
    }

    /// Reads a tag name; `None` where its last `@`-segment is no semantic
    /// version.
    pub fn parse(tag: &str) -> (r: Option<ParsedTagVersion>)
        ensures
            r is Some <==> tag_parses(tag@),
            r matches Some(p) ==> p.wf() && p.raw_view() == tag@,
    {
        let parts = get_version(tag);
        match SemVer::parse(parts.version.as_str()) {
            Some(version) => Some(
                ParsedTagVersion {
                    raw_tag: tag.to_owned(),
                    package_scope: parts.package,
                    version,
                },
            ),
            None => None,
        }
    }

    /// The tag name as it stands in the repository.
    pub fn raw_tag(&self) -> (r: &str)
        ensures
            r@ == self.raw_view(),
    {
        self.raw_tag.as_str()
    }

    /// The part of the name before its last `@`.
    pub fn package_scope(&self) -> (r: &str)
        ensures
            r@ == self.scope_view(),
    {
        self.package_scope.as_str()
    }

    /// The parsed version.
    pub fn version(&self) -> (r: &SemVer)
        ensures
            *r == self.version_spec(),
    {
        &self.version
    }
}

/// Every entry is well formed.
pub open spec fn all_wf(s: Seq<ParsedTagVersion>) -> bool {
    forall|i: int| 0 <= i < s.len() ==> (#[trigger] s[i]).wf()
}

/// Each entry's version is at most that of every entry after it.
pub open spec fn ascending(s: Seq<ParsedTagVersion>) -> bool {
    forall|i: int, j: int|
        0 <= i < j < s.len() ==> (#[trigger] s[i]).version_spec().at_most(
            &(#[trigger] s[j]).version_spec(),
        )
}

/// The raw names of the entries, in order.
pub open spec fn raw_names(s: Seq<ParsedTagVersion>) -> Seq<Seq<char>> {
    Seq::new(s.len(), |i: int| s[i].raw_view())
}

/// How two tag names compare by the versions they carry.
pub open spec fn name_order(a: Seq<char>, b: Seq<char>) -> int {
    semver_order(version_part(a), version_part(b))
}

/// Where a name goes into an ordered list of names: behind the last name
/// whose version is not higher than its own.
pub open spec fn insert_point(names: Seq<Seq<char>>, name: Seq<char>) -> int
    decreases names.len(),
{
    if names.len() > 0 && name_order(name, names.last()) < 0 {
        insert_point(names.drop_last(), name)
    } else {
        names.len() as int
    }
}

/// The names ordered by ascending version; names of equal version keep the
/// order in which they came.
pub open spec fn sorted_names(names: Seq<Seq<char>>) -> Seq<Seq<char>>
    decreases names.len(),
{
    if names.len() == 0 {
        names
    } else {
        let before = sorted_names(names.drop_last());
        before.insert(insert_point(before, names.last()), names.last())
    }
}

/// Inserting at a position adds one occurrence of the element and nothing else.
proof fn lemma_insert_multiset<A>(s: Seq<A>, i: int, x: A)
    requires
        0 <= i <= s.len(),
    ensures
        s.insert(i, x).to_multiset() == s.to_multiset().insert(x),
{
    let t = s.insert(i, x);
    assert(t.remove(i) =~= s);
    vstd::seq_lib::to_multiset_remove(t, i);
    t.to_multiset_ensures();
    assert(t.contains(t[i]));
    assert(t.to_multiset() =~= s.to_multiset().insert(x));
}

/// Orders entries by ascending version. Entries of equal version keep the
/// order in which they came.
pub fn sort_parsed(entries: &Vec<ParsedTagVersion>) -> (out: Vec<ParsedTagVersion>)
    requires
        all_wf(entries@),
    ensures
        all_wf(out@),
        ascending(out@),
        raw_names(out@) == sorted_names(raw_names(entries@)),
        out@.to_multiset() == entries@.to_multiset(),
        raw_names(out@).to_multiset() == raw_names(entries@).to_multiset(),
{
    let mut out: Vec<ParsedTagVersion> = Vec::new();
    assert(raw_names(entries@.take(0)) =~= raw_names(out@));
    let mut i: usize = 0;
    assert(entries@.take(0) =~= Seq::empty());
    while i < entries.len()
        invariant
            i <= entries.len(),
            all_wf(entries@),
            all_wf(out@),
            ascending(out@),
            raw_names(out@) == sorted_names(raw_names(entries@.take(i as int))),
            out@.to_multiset() == entries@.take(i as int).to_multiset(),
            raw_names(out@).to_multiset() == raw_names(entries@.take(i as int)).to_multiset(),
        decreases entries.len() - i,
    {
        let item = entries[i].clone();
        let mut j: usize = out.len();
        let mut placed = false;
        assert(raw_names(out@).take(j as int) =~= raw_names(out@));
        while j > 0 && !placed
            invariant
                j <= out.len(),
                all_wf(out@),
                item.wf(),
                ascending(out@),
                insert_point(raw_names(out@), item.raw_view()) == insert_point(
                    raw_names(out@).take(j as int),
                    item.raw_view(),
                ),
                forall|k: int|
                    j <= k < out.len() ==> item.version_spec().at_most(
                        &(#[trigger] out[k]).version_spec(),
                    ),
                placed ==> j > 0 && name_order(item.raw_view(), out[j - 1].raw_view()) >= 0,
                placed ==> forall|k: int|
                    0 <= k < j ==> (#[trigger] out[k]).version_spec().at_most(&item.version_spec()),
            decreases j + (if placed { 0int } else { 1int }),
        {
            let c = item.version.compare(&out[j - 1].version);
            assert(raw_names(out@).take(j as int).last() == out[j - 1].raw_view());
            assert(raw_names(out@).take(j as int).drop_last() =~= raw_names(out@).take(j - 1));
            if c < 0 {
                j -= 1;
            } else {
                assert forall|k: int| 0 <= k < j implies (#[trigger] out[k]).version_spec().at_most(
                    &item.version_spec(),
                ) by {
                    if k < j - 1 {
                        assert(out[k].version_spec().at_most(&out[j - 1].version_spec()));
                    }
                }
                placed = true;
            }
        }
        proof {
            let before = out@;
            let after = before.insert(j as int, item);
            lemma_insert_multiset(before, j as int, item);
            assert(entries@.take(i + 1) =~= entries@.take(i as int).push(entries@[i as int]));
            vstd::seq_lib::to_multiset_build(entries@.take(i as int), entries@[i as int]);
            assert(raw_names(after) =~= raw_names(before).insert(j as int, item.raw_view()));
            assert(raw_names(entries@.take(i + 1)).drop_last() =~= raw_names(
                entries@.take(i as int),
            ));
            assert(insert_point(raw_names(before), item.raw_view()) == j) by {
                let front = raw_names(before).take(j as int);
                assert(front.len() == j);
                if j > 0 {
                    assert(front.last() == before[j - 1].raw_view());
                }
            }
            lemma_insert_multiset(raw_names(before), j as int, item.raw_view());
            assert(raw_names(entries@.take(i + 1)) =~= raw_names(entries@.take(i as int)).push(
                item.raw_view(),
            ));
            vstd::seq_lib::to_multiset_build(
                raw_names(entries@.take(i as int)),
                item.raw_view(),
            );
            assert forall|k: int| 0 <= k < after.len() implies (#[trigger] after[k]).wf() by {
                if k < j {
                    assert(after[k] == before[k]);
                } else if k > j {
                    assert(after[k] == before[k - 1]);
                }
            }
            assert forall|a: int, b: int| 0 <= a < b < after.len() implies (#[trigger] after[a])
                .version_spec().at_most(&(#[trigger] after[b]).version_spec()) by {
                let x = if a < j {
                    a
                } else {
                    a - 1
                };
                let y = if b < j {
                    b
                } else {
                    b - 1
                };
                if a != j && b != j {
                    assert(after[a] == before[x] && after[b] == before[y]);
                } else if a == j {
                    assert(after[b] == before[y]);
                } else {
                    assert(after[a] == before[x]);
                }
            }
        }
        out.insert(j, item);
        i += 1;
    }
    assert(entries@.take(entries@.len() as int) =~= entries@);
    out
}

/// Whether a tag name belongs to a package and carries a semantic version.
pub open spec fn belongs(name: Seq<char>, scope: Seq<char>) -> bool {
    scope.is_prefix_of(name) && tag_parses(name)
}

/// The names among `names` that belong to the package `scope`, in the order
/// in which they came.
pub open spec fn package_tags(names: Seq<Seq<char>>, scope: Seq<char>) -> Seq<Seq<char>> {
    names.filter(|n: Seq<char>| belongs(n, scope))
}

/// The tags of one package, ordered by ascending version: the names that
/// start with `package_scope` and whose last `@`-segment is a semantic
/// version. Names that do not parse are left out; no tag at all is no error.
pub fn list_package_tags(tag_names: &Vec<String>, package_scope: &str) -> (out: Vec<
    ParsedTagVersion,
>)
    ensures
        all_wf(out@),
        ascending(out@),
        raw_names(out@) == sorted_names(package_tags(texts(tag_names@), package_scope@)),
        raw_names(out@).to_multiset() == package_tags(texts(tag_names@), package_scope@).to_multiset(),
{
    let scope = chars_of(package_scope);
    let mut kept: Vec<ParsedTagVersion> = Vec::new();
    let mut i: usize = 0;
    let ghost names = texts(tag_names@);
    let ghost pred = |n: Seq<char>| belongs(n, package_scope@);
    proof {
        reveal(Seq::filter);
        assert(names.take(0).filter(pred) =~= raw_names(kept@));
    }
    while i < tag_names.len()
        invariant
            i <= tag_names.len(),
            names == texts(tag_names@),
            pred == (|n: Seq<char>| belongs(n, package_scope@)),
            scope@ == package_scope@,
            all_wf(kept@),
            raw_names(kept@) == names.take(i as int).filter(pred),
        decreases tag_names.len() - i,
    {
        let name = tag_names[i].as_str();
        proof {
            lemma_filter_step(names, i as int, pred);
        }
        if starts_with(&chars_of(name), &scope) {
            match ParsedTagVersion::parse(name) {
                Some(parsed) => {
                    assert(raw_names(kept@.push(parsed)) =~= raw_names(kept@).push(name@));
                    kept.push(parsed);
                },
                None => {},
            }
        }
        i += 1;
    }
    assert(names.take(names.len() as int) =~= names);
    sort_parsed(&kept)
}

/// All tags that carry a semantic version, whatever their package, ordered
/// by ascending version.
pub fn sort_tags(tags: &Vec<String>) -> (out: Vec<ParsedTagVersion>)
    ensures
        all_wf(out@),
        ascending(out@),
        raw_names(out@) == sorted_names(package_tags(texts(tags@), Seq::empty())),
        raw_names(out@).to_multiset() == package_tags(texts(tags@), Seq::empty()).to_multiset(),
{
    proof {
        reveal_strlit("");
    }
    assert(""@ =~= Seq::<char>::empty());
    list_package_tags(tags, "")
}

} // verus!
