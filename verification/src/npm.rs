//! What the registry check needs from the library: the packages of the
//! monorepo and the addresses at which the registry answers for them.

use crate::tags::{raw_names, ParsedTagVersion};
use crate::text::{
    chars_of, contains_seq, find_char, index_from, lemma_filter_step, text_contains,
};
use vstd::prelude::*;

verus! {

/// Name and version of a package, as its manifest states them.
#[derive(Debug)]
pub struct NpmPackageInfo {
    name: String,
    version: String,
}

impl Clone for NpmPackageInfo {
    fn clone(&self) -> (r: Self)
        ensures
            r == *self,
    {
        NpmPackageInfo { name: self.name.clone(), version: self.version.clone() }
    }
}

impl NpmPackageInfo {
    /// The package's name.
    pub closed spec fn name_view(&self) -> Seq<char> {
        self.name@
    }

    /// The package's version, as written.
    pub closed spec fn version_view(&self) -> Seq<char> {
        self.version@
    }

    /// A package of the given name and version.
    pub fn new(name: String, version: String) -> (r: NpmPackageInfo)
        ensures
            r.name_view() == name@,
            r.version_view() == version@,
    {
        NpmPackageInfo { name, version }
    }

    /// The package's name.
    pub fn name(&self) -> (r: &str)
        ensures
            r@ == self.name_view(),
    {
        self.name.as_str()
    }

    /// The package's version, as written.
    pub fn version(&self) -> (r: &str)
        ensures
            r@ == self.version_view(),
    {
        self.version.as_str()
    }
}

/// The tags whose name holds `package`, in the order of `ordered`.
pub open spec fn tags_naming(ordered: Seq<ParsedTagVersion>, package: Seq<char>) -> Seq<Seq<char>> {
    raw_names(ordered).filter(|tag: Seq<char>| contains_seq(tag, package))
}

/// The tag before the highest one among the tags that name `package`, where
/// `ordered` is in ascending version order; `None` where fewer than two
/// tags name the package.
pub open spec fn previous_tag(ordered: Seq<ParsedTagVersion>, package: Seq<char>) -> Option<
    Seq<char>,
> {
    let tags = tags_naming(ordered, package);
    if tags.len() >= 2 {
        Some(tags[tags.len() - 2])
    } else {
        None
    }
}

/// Whether the registry has at least one of the versions asked for.
pub open spec fn any_published(published: Seq<bool>) -> bool {
    exists|i: int| 0 <= i < published.len() && #[trigger] published[i]
}

/// The first `;`-separated entry of a search path that holds `nodejs`.
pub open spec fn node_dir(path: Seq<char>) -> Option<Seq<char>>
    decreases path.len(),
{
    let end = index_from(path, ';', 0);
    let entry = path.take(end);
    if contains_seq(entry, "nodejs"@) {
        Some(entry)
    } else if 0 <= end < path.len() {
        node_dir(path.skip(end + 1))
    } else {
        None
    }
}

/// The address at which the registry answers for one version of a package.
pub fn publish_endpoint(name: &str, version: &str) -> (r: String)
    ensures
        r@ == "https://registry.npmjs.org/"@ + name@ + "/"@ + version@,
{
    let mut endpoint = String::new();
    endpoint.append("https://registry.npmjs.org/");
    endpoint.append(name);
    endpoint.append("/");
    endpoint.append(version);
    assert(endpoint@ =~= "https://registry.npmjs.org/"@ + name@ + "/"@ + version@);
    endpoint
}

/// The address at which the registry answers for the latest version of a
/// package.
pub fn latest_endpoint(name: &str) -> (r: String)
    ensures
        r@ == "https://registry.npmjs.org/"@ + name@ + "/latest"@,
{
    let mut endpoint = String::new();
    endpoint.append("https://registry.npmjs.org/");
    endpoint.append(name);
    endpoint.append("/latest");
    assert(endpoint@ =~= "https://registry.npmjs.org/"@ + name@ + "/latest"@);
    endpoint
}

/// The directory that holds the packages of the monorepo at `path`.
pub fn packages_dir(path: &str) -> (r: String)
    ensures
        r@ == path@ + "/packages/"@,
{
    let mut dir = String::new();
    dir.append(path);
    dir.append("/packages/");
    assert(dir@ =~= path@ + "/packages/"@);
    dir
}

/// The manifest of the package in the directory `dir`.
pub fn manifest_path(dir: &str) -> (r: String)
    ensures
        r@ == dir@ + "/package.json"@,
{
    let mut file = String::new();
    file.append(dir);
    file.append("/package.json");
    assert(file@ =~= dir@ + "/package.json"@);
    file
}

/// The entry of a `;`-separated search path that holds the node tools.
pub fn find_node_dir(path: &str) -> (r: Option<String>)
    ensures
        r is Some <==> node_dir(path@) is Some,
        r matches Some(dir) ==> Some(dir@) == node_dir(path@),
{
    let chars = chars_of(path);
    let needle = chars_of("nodejs");
    let len = chars.len();
    let mut from: usize = 0;
    assert(chars@.skip(0) =~= chars@);
    loop
        invariant
            from <= len,
            len == chars.len(),
            chars@ == path@,
            needle@ == "nodejs"@,
            node_dir(path@) == node_dir(chars@.skip(from as int)),
        decreases len - from,
    {
        let end = find_char(&chars, ';', from);
        let ghost rest = chars@.skip(from as int);
        proof {
            lemma_index_from_skip(chars@, ';', from as int, from as int);
            assert(rest.take(end - from) =~= chars@.subrange(from as int, end as int));
        }
        let entry = chars_of(path.substring_char(from, end));
        if text_contains(&entry, &needle) {
            return Some(path.substring_char(from, end).to_owned());
        }
        if end >= len {
            return None;
        }
        assert(rest.skip(end - from + 1) =~= chars@.skip(end + 1));
        from = end + 1;
    }
}

/// Searching a suffix of a text finds what searching the text from the
/// suffix's start finds.
pub proof fn lemma_index_from_skip(s: Seq<char>, c: char, start: int, from: int)
    requires
        0 <= start <= from <= s.len(),
    ensures
        index_from(s.skip(start), c, from - start) == index_from(s, c, from) - start,
    decreases s.len() - from,
{
    if from < s.len() {
        assert(s.skip(start)[from - start] == s[from]);
        if s[from] != c {
            lemma_index_from_skip(s, c, start, from + 1);
        }
    }
}

/// The registry check of a monorepo: where the repository lies and which
/// packages it holds.
#[derive(Debug)]
pub struct Npm {
    path: String,
    package_list: Vec<NpmPackageInfo>,
}

impl Npm {
    /// Where the repository lies.
    pub closed spec fn path_view(&self) -> Seq<char> {
        self.path@
    }

    /// The packages of the repository.
    pub closed spec fn packages(&self) -> Seq<NpmPackageInfo> {
        self.package_list@
    }

    /// The check of the repository at `path` with the packages found there.
    pub fn new(path: String, package_list: Vec<NpmPackageInfo>) -> (r: Npm)
        ensures
            r.path_view() == path@,
            r.packages() == package_list@,
    {
        Npm { path, package_list }
    }

    /// Where the repository lies.
    pub fn path(&self) -> (r: &str)
        ensures
            r@ == self.path_view(),
    {
        self.path.as_str()
    }

    /// The packages of the repository.
    pub fn package_list(&self) -> (r: &Vec<NpmPackageInfo>)
        ensures
            r@ == self.packages(),
    {
        &self.package_list
    }

    /// The registry addresses to ask, one for each package and in their
    /// order: that of the package's own version.
    pub fn publish_endpoints(&self) -> (r: Vec<String>)
        ensures
            r.len() == self.packages().len(),
            forall|i: int|
                0 <= i < r.len() ==> (#[trigger] r[i])@ == "https://registry.npmjs.org/"@
                    + self.packages()[i].name_view() + "/"@ + self.packages()[i].version_view(),
    {
        let mut endpoints: Vec<String> = Vec::new();
        let mut index: usize = 0;
        while index < self.package_list.len()
            invariant
                index <= self.package_list.len(),
                endpoints.len() == index,
                forall|i: int|
                    0 <= i < index ==> (#[trigger] endpoints[i])@ == "https://registry.npmjs.org/"@
                        + self.packages()[i].name_view() + "/"@ + self.packages()[i].version_view(),
            decreases self.package_list.len() - index,
        {
            let package_info = &self.package_list[index];
            endpoints.push(publish_endpoint(package_info.name(), package_info.version()));
            index += 1;
        }
        endpoints
    }

    /// Whether the publish went through: at least one of the versions
    /// asked for is in the registry.
    pub fn check(&self, published: &Vec<bool>) -> (r: bool)
        ensures
            r == any_published(published@),
    {
        let mut index: usize = 0;
        while index < published.len()
            invariant
                index <= published.len(),
                forall|i: int| 0 <= i < index ==> !#[trigger] published[i],
            decreases published.len() - index,
        {
            if published[index] {
                return true;
            }
            index += 1;
        }
        false
    }

    /// For each package, in order, the tag to fall back to: the one before
    /// the highest among the tags that name the package. `ordered_tags` are
    /// the tags of the repository in ascending version order.
    pub fn get_pre_package_version(&self, ordered_tags: &Vec<ParsedTagVersion>) -> (r: Vec<
        Option<String>,
    >)
        ensures
            r.len() == self.packages().len(),
            forall|i: int|
                0 <= i < r.len() ==> crate::range::opt_text(#[trigger] r[i]) == previous_tag(
                    ordered_tags@,
                    self.packages()[i].name_view(),
                ),
    {
        let mut pre_package_version: Vec<Option<String>> = Vec::new();
        let mut index: usize = 0;
        while index < self.package_list.len()
            invariant
                index <= self.package_list.len(),
                pre_package_version.len() == index,
                forall|i: int|
                    0 <= i < index ==> crate::range::opt_text(#[trigger] pre_package_version[i])
                        == previous_tag(ordered_tags@, self.packages()[i].name_view()),
            decreases self.package_list.len() - index,
        {
            let tag = find_previous_tag(ordered_tags, self.package_list[index].name());
            pre_package_version.push(tag);
            index += 1;
        }
        pre_package_version
    }
}

/// The tag before the highest one among those that name `package`.
pub fn find_previous_tag(ordered_tags: &Vec<ParsedTagVersion>, package: &str) -> (r: Option<String>)
    ensures
        crate::range::opt_text(r) == previous_tag(ordered_tags@, package@),
{
    let needle = chars_of(package);
    let ghost names = raw_names(ordered_tags@);
    let ghost pred = |tag: Seq<char>| contains_seq(tag, package@);
    let mut last: Option<String> = None;
    let mut previous: Option<String> = None;
    let mut index: usize = 0;
    proof {
        reveal(Seq::filter);
        assert(names.take(0).filter(pred) =~= Seq::empty());
    }
    while index < ordered_tags.len()
        invariant
            index <= ordered_tags.len(),
            names == raw_names(ordered_tags@),
            pred == (|tag: Seq<char>| contains_seq(tag, package@)),
            needle@ == package@,
            ({
                let found = names.take(index as int).filter(pred);
                &&& last is Some <==> found.len() >= 1
                &&& previous is Some <==> found.len() >= 2
                &&& last matches Some(t) ==> t@ == found[found.len() - 1]
                &&& previous matches Some(t) ==> t@ == found[found.len() - 2]
            }),
        decreases ordered_tags.len() - index,
    {
        proof {
            lemma_filter_step(names, index as int, pred);
        }
        let tag = ordered_tags[index].raw_tag();
        if text_contains(&chars_of(tag), &needle) {
            previous = last;
            last = Some(tag.to_owned());
        }
        index += 1;
    }
    assert(names.take(names.len() as int) =~= names);
    previous
}

} // verus!
