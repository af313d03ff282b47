//! Commit subjects: the conventional-commit form `type(scope): description`
//! and the pull-request reference `(#digits)`, which holds at least one
//! digit.

use crate::text::{
    chars_of, digit_run, eq_ignoring_case, first_line, same_ignoring_case, scan_digits, scan_word,
    trim, trim_bounds, word_run,
};
use vstd::prelude::*;

verus! {

/// The kinds of change that a changelog reports.
#[derive(Clone, Copy, Debug, PartialEq, Eq, Structural)]
pub enum CommitKind {
    Fix,
    Feat,
}

/// The kind a subject starts with, and the length of its word.
pub open spec fn kind_of(s: Seq<char>) -> Option<(CommitKind, int)> {
    if seq!['f', 'i', 'x'].is_prefix_of(s) {
        Some((CommitKind::Fix, 3))
    } else if seq!['f', 'e', 'a', 't'].is_prefix_of(s) {
        Some((CommitKind::Feat, 4))
    } else {
        None
    }
}

/// What a conventional subject says.
pub struct SubjectView {
    pub kind: CommitKind,
    pub scope: Seq<char>,
    pub description: Seq<char>,
}

/// Reads `type(scope): description`. The type is `fix` or `feat` and stands
/// at the very start; the scope is a possibly empty run of ASCII letters,
/// digits and underscores; the description is what follows the colon,
/// without whitespace at its ends.
pub open spec fn parse_subject(s: Seq<char>) -> Option<SubjectView> {
    match kind_of(s) {
        None => None,
        Some((kind, n)) => {
            let close = word_run(s, n + 1);
            if n < s.len() && s[n] == '(' && close + 1 < s.len() && s[close] == ')' && s[close + 1]
                == ':' {
                Some(
                    SubjectView {
                        kind,
                        scope: s.subrange(n + 1, close),
                        description: trim(s.subrange(close + 2, s.len() as int)),
                    },
                )
            } else {
                None
            }
        },
    }
}

/// A subject belongs to a package where it is conventional and its scope is
/// the package's name, letter case aside.
pub open spec fn qualifies(subject: Seq<char>, package: Seq<char>) -> bool {
    match parse_subject(subject) {
        Some(v) => same_ignoring_case(v.scope, package),
        None => false,
    }
}

/// The subject of a commit message: its first line, without whitespace at
/// its ends.
pub open spec fn subject_of(message: Seq<char>) -> Seq<char> {
    trim(first_line(message))
}

/// A pull-request reference that starts at `p`: `(#`, one digit or more,
/// `)`. Gives the digits.
pub open spec fn pr_at(s: Seq<char>, p: int) -> Option<Seq<char>> {
    let e = digit_run(s, p + 2);
    if 0 <= p && p + 1 < s.len() && s[p] == '(' && s[p + 1] == '#' && e > p + 2 && e < s.len()
        && s[e] == ')' {
        Some(s.subrange(p + 2, e))
    } else {
        None
    }
}

/// The digits of the first pull-request reference at or after `from`.
pub open spec fn pr_reference_from(s: Seq<char>, from: int) -> Option<Seq<char>>
    decreases s.len() - from,
{
    if from < 0 || from >= s.len() {
        None
    } else if pr_at(s, from) is Some {
        pr_at(s, from)
    } else {
        pr_reference_from(s, from + 1)
    }
}

/// The digits of the first pull-request reference in `s`.
pub open spec fn pr_reference(s: Seq<char>) -> Option<Seq<char>> {
    pr_reference_from(s, 0)
}

/// A subject in conventional form.
#[derive(Debug)]
pub struct ConventionalCommit {
    kind: CommitKind,
    scope: String,
    description: String,
}

impl View for ConventionalCommit {
    type V = SubjectView;

    closed spec fn view(&self) -> SubjectView {
        SubjectView { kind: self.kind, scope: self.scope@, description: self.description@ }
    }
}

impl ConventionalCommit {
    /// The kind of change.
    pub fn kind(&self) -> (r: CommitKind)
        ensures
            r == self@.kind,
    {
        self.kind
    }

    /// The scope between the parentheses.
    pub fn scope(&self) -> (r: &str)
        ensures
            r@ == self@.scope,
    {
        self.scope.as_str()
    }

    /// What follows the colon.
    pub fn description(&self) -> (r: &str)
        ensures
            r@ == self@.description,
    {
        self.description.as_str()
    }
}

/// Reads the kind at the start of a subject.
fn read_kind(chars: &Vec<char>) -> (r: Option<(CommitKind, usize)>)
    ensures
        match r {
            Some((kind, n)) => kind_of(chars@) == Some((kind, n as int)) && n <= chars.len(),
            None => kind_of(chars@) is None,
        },
{
    let n = chars.len();
    if n >= 3 && chars[0] == 'f' && chars[1] == 'i' && chars[2] == 'x' {
        assert(chars@.subrange(0, 3) =~= seq!['f', 'i', 'x']);
        Some((CommitKind::Fix, 3))
    } else if n >= 4 && chars[0] == 'f' && chars[1] == 'e' && chars[2] == 'a' && chars[3] == 't' {
        assert(chars@.subrange(0, 4) =~= seq!['f', 'e', 'a', 't']);
        proof {
            if seq!['f', 'i', 'x'].is_prefix_of(chars@) {
                assert(chars@.subrange(0, 3)[1] == seq!['f', 'i', 'x'][1]);
            }
        }
        Some((CommitKind::Feat, 4))
    } else {
        proof {
            if seq!['f', 'i', 'x'].is_prefix_of(chars@) {
                let p = chars@.subrange(0, 3);
                assert(p[0] == 'f' && p[1] == 'i' && p[2] == 'x');
            }
            if seq!['f', 'e', 'a', 't'].is_prefix_of(chars@) {
                let p = chars@.subrange(0, 4);
                assert(p[0] == 'f' && p[1] == 'e' && p[2] == 'a' && p[3] == 't');
            }
        }
        None
    }
}

/// Reads a subject in conventional form; `None` where it has another form.
pub fn parse_conventional(subject: &str) -> (r: Option<ConventionalCommit>)
    ensures
        r is Some <==> parse_subject(subject@) is Some,
        r matches Some(c) ==> Some(c@) == parse_subject(subject@),
{
    let chars = chars_of(subject);
    let len = chars.len();
    match read_kind(&chars) {
        None => None,
        Some((kind, n)) => {
            if n >= len || chars[n] != '(' {
                return None;
            }
            let close = scan_word(&chars, n + 1);
            if close >= len || len - close < 2 || chars[close] != ')' || chars[close + 1] != ':' {
                return None;
            }
            let (from, to) = trim_bounds(&chars, close + 2, len);
            let scope = subject.substring_char(n + 1, close).to_owned();
            let description = subject.substring_char(from, to).to_owned();
            Some(ConventionalCommit { kind, scope, description })
        },
    }
}

/// Whether a subject belongs to a package.
pub fn subject_qualifies(subject: &str, package: &str) -> (r: bool)
    ensures
        r == qualifies(subject@, package@),
{
    match parse_conventional(subject) {
        Some(c) => eq_ignoring_case(&chars_of(c.scope()), &chars_of(package)),
        None => false,
    }
}

/// The digits of the first pull-request reference in a subject, if any.
pub fn find_pr_reference(subject: &str) -> (r: Option<String>)
    ensures
        r is Some <==> pr_reference(subject@) is Some,
        r matches Some(digits) ==> Some(digits@) == pr_reference(subject@),
{
    let chars = chars_of(subject);
    let len = chars.len();
    let mut p: usize = 0;
    while p < len
        invariant
            p <= len,
            len == chars.len(),
            chars@ == subject@,
            pr_reference(subject@) == pr_reference_from(subject@, p as int),
        decreases len - p,
    {
        if len - p >= 2 && chars[p] == '(' && chars[p + 1] == '#' {
            let e = scan_digits(&chars, p + 2);
            if e > p + 2 && e < len && chars[e] == ')' {
                return Some(subject.substring_char(p + 2, e).to_owned());
            }
        }
        p += 1;
    }
    None
}

} // verus!
