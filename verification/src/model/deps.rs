//! The pure read-path for git and local dependencies: revision selectors,
//! dependency sources, package identities and their `pds_modules/` slugs, and
//! the resolver mapping direct dependencies to name-prefixed modules.
//!
//! A package's identity is `(source, rev, path)`: the same repository at
//! different revisions or sub-paths are distinct packages. This module works
//! on values already read from `pds.toml`/`pds.lock`; it does no reading of
//! its own.

use crate::strs::{chars_of, push_char, str_eq, string_of};
use vstd::prelude::*;
use vstd::string::{StrSliceExecFns, StringExecFns, StringSliceAdditionalSpecFns};
use vstd::utf8::{decode_utf8, encode_utf8, encode_utf8_decode_utf8, is_char_boundary};

verus! {

/// Which rule a dependency entry or path broke.
#[derive(Debug, Clone, Copy, PartialEq, Eq, Structural)]
pub enum DepErrorKind {
    /// More than one of `tag`/`rev`/`branch` is set.
    MultipleSelectors,
    /// An entry sets neither `git` nor `path`.
    NoSource,
    /// A local `path` source sets a revision selector.
    LocalWithSelector,
    /// A local `path` is empty.
    EmptyLocalPath,
    /// A local `path` is absolute.
    AbsoluteLocalPath,
    /// A path inside a repository is absolute.
    AbsolutePath,
    /// A path inside a repository climbs out through `..`.
    Traversal,
}

/// Why a dependency entry or path was rejected.
#[derive(Debug, Clone, PartialEq, Eq)]
pub struct DepError {
    /// The broken rule.
    pub kind: DepErrorKind,
    /// The human-readable reason, context first.
    pub message: String,
}

/// A resolved revision selector: at most one of tag/rev/branch.
#[derive(Debug, Clone, PartialEq, Eq)]
pub enum Rev {
    Tag(String),
    Branch(String),
    Commit(String),
    /// No selector: the remote's default-branch HEAD.
    Default,
}

/// The selector the three flags denote, or `None` when more than one is set.
pub open spec fn rev_of_flags(tag: Option<String>, rev: Option<String>, branch: Option<String>) -> Option<Rev> {
    match (tag, rev, branch) {
        (None, None, None) => Some(Rev::Default),
        (Some(t), None, None) => Some(Rev::Tag(t)),
        (None, Some(r), None) => Some(Rev::Commit(r)),
        (None, None, Some(b)) => Some(Rev::Branch(b)),
        _ => None,
    }
}

/// The `(tag, rev, branch)` flags a selector corresponds to.
pub open spec fn flags_of_rev(r: Rev) -> (Option<String>, Option<String>, Option<String>) {
    match r {
        Rev::Tag(t) => (Some(t), None, None),
        Rev::Commit(c) => (None, Some(c), None),
        Rev::Branch(b) => (None, None, Some(b)),
        Rev::Default => (None, None, None),
    }
}

/// The error text for more than one revision flag.
pub open spec fn multiple_flags_message() -> Seq<char> {
    "set at most one of --tag, --rev, --branch"@
}

/// The error text for a rejected in-repo path.
pub open spec fn rel_path_message(path: Seq<char>, k: DepErrorKind) -> Seq<char> {
    if k == DepErrorKind::AbsolutePath {
        "`"@ + path + "` must be a relative path inside the repo, not absolute"@
    } else {
        "`"@ + path + "` must be a relative path inside the repo, without `..` or a leading `/`"@
    }
}

/// `a`, `b` and `c` in sequence, as a new string.
fn joined3(a: &str, b: &str, c: &str) -> (s: String)
    ensures
        s@ == a@ + b@ + c@,
{
    let mut s = String::from_str(a);
    s.append(b);
    s.append(c);
    s
}

/// `a` followed by `b`, as a new string.
fn joined(a: &str, b: &str) -> (s: String)
    ensures
        s@ == a@ + b@,
{
    let mut s = String::from_str(a);
    s.append(b);
    s
}

impl Rev {
    /// Builds a selector from the three mutually-exclusive flags; more than
    /// one set flag is an error.
    pub fn from_flags(tag: Option<String>, rev: Option<String>, branch: Option<String>) -> (r: Result<Rev, DepError>)
        ensures
            r matches Ok(v) ==> rev_of_flags(tag, rev, branch) == Some(v),
            r is Err <==> rev_of_flags(tag, rev, branch) is None,
            r matches Err(e) ==> e.kind == DepErrorKind::MultipleSelectors && e.message@
                == multiple_flags_message(),
    {
        match (tag, rev, branch) {
            (None, None, None) => Ok(Rev::Default),
            (Some(t), None, None) => Ok(Rev::Tag(t)),
            (None, Some(r), None) => Ok(Rev::Commit(r)),
            (None, None, Some(b)) => Ok(Rev::Branch(b)),
            _ => {
                proof {
                    reveal_strlit("set at most one of --tag, --rev, --branch");
                }
                Err(
                    DepError {
                        kind: DepErrorKind::MultipleSelectors,
                        message: String::from_str("set at most one of --tag, --rev, --branch"),
                    },
                )
            },
        }
    }

    /// The `(tag, rev, branch)` flags this selector corresponds to: the
    /// inverse of [`Rev::from_flags`].
    pub fn to_flags(&self) -> (f: (Option<String>, Option<String>, Option<String>))
        ensures
            f == flags_of_rev(*self),
    {
        match self {
            Rev::Tag(t) => (Some(t.clone()), None, None),
            Rev::Commit(r) => (None, Some(r.clone()), None),
            Rev::Branch(b) => (None, None, Some(b.clone())),
            Rev::Default => (None, None, None),
        }
    }

    /// A stable key distinguishing selectors: `tag:…`, `branch:…`, `rev:…`
    /// or `default`.
    pub fn key(&self) -> (k: String)
        ensures
            k@ == rev_key(*self),
    {
        match self {
            Rev::Tag(t) => joined("tag:", t.as_str()),
            Rev::Branch(b) => joined("branch:", b.as_str()),
            Rev::Commit(c) => joined("rev:", c.as_str()),
            Rev::Default => String::from_str("default"),
        }
    }
}

/// The stable key of a selector.
pub open spec fn rev_key(r: Rev) -> Seq<char> {
    match r {
        Rev::Tag(t) => "tag:"@ + t@,
        Rev::Branch(b) => "branch:"@ + b@,
        Rev::Commit(c) => "rev:"@ + c@,
        Rev::Default => "default"@,
    }
}

/// A selector as plain values: its variant and its text.
pub open spec fn rev_view(r: Rev) -> (int, Seq<char>) {
    match r {
        Rev::Tag(t) => (0, t@),
        Rev::Branch(b) => (1, b@),
        Rev::Commit(c) => (2, c@),
        Rev::Default => (3, seq![]),
    }
}

/// Distinct selectors have distinct keys: equal keys mean the same variant
/// with the same text.
pub proof fn law_rev_key_injective(a: Rev, b: Rev)
    requires
        rev_key(a) == rev_key(b),
    ensures
        rev_view(a) == rev_view(b),
{
    reveal_strlit("tag:");
    reveal_strlit("branch:");
    reveal_strlit("rev:");
    reveal_strlit("default");
    let ka = rev_key(a);
    assert(ka[0] == rev_key(b)[0]);
    match (a, b) {
        (Rev::Tag(x), Rev::Tag(y)) => {
            assert(x@ =~= ka.skip(4));
            assert(y@ =~= rev_key(b).skip(4));
        },
        (Rev::Branch(x), Rev::Branch(y)) => {
            assert(x@ =~= ka.skip(7));
            assert(y@ =~= rev_key(b).skip(7));
        },
        (Rev::Commit(x), Rev::Commit(y)) => {
            assert(x@ =~= ka.skip(4));
            assert(y@ =~= rev_key(b).skip(4));
        },
        _ => {},
    }
}

/// Selecting by flags and reading the flags back are inverse: every selector
/// round-trips through its flags, and every accepted flag triple is the
/// triple of the selector it builds.
pub proof fn lemma_flags_round_trip(r: Rev, tag: Option<String>, rev: Option<String>, branch: Option<String>)
    ensures
        rev_of_flags(flags_of_rev(r).0, flags_of_rev(r).1, flags_of_rev(r).2) == Some(r),
        rev_of_flags(tag, rev, branch) matches Some(v) ==> flags_of_rev(v) == (tag, rev, branch),
{
}

/// `s` without its trailing `c` characters.
pub open spec fn trim_end_all(s: Seq<char>, c: char) -> Seq<char>
    decreases s.len(),
{
    if s.len() > 0 && s.last() == c {
        trim_end_all(s.drop_last(), c)
    } else {
        s
    }
}

/// `s` without its leading `c` characters.
pub open spec fn trim_start_all(s: Seq<char>, c: char) -> Seq<char>
    decreases s.len(),
{
    if s.len() > 0 && s[0] == c {
        trim_start_all(s.drop_first(), c)
    } else {
        s
    }
}

/// The `/`-separated segments of `s` after position `from`, the segment in
/// progress being `cur`.
pub open spec fn segments_from(s: Seq<char>, cur: Seq<char>) -> Seq<Seq<char>>
    decreases s.len(),
{
    if s.len() == 0 {
        seq![cur]
    } else if s[0] == '/' {
        seq![cur] + segments_from(s.drop_first(), seq![])
    } else {
        segments_from(s.drop_first(), cur.push(s[0]))
    }
}

/// The `/`-separated segments of `s` (empty ones included).
pub open spec fn segments(s: Seq<char>) -> Seq<Seq<char>> {
    segments_from(s, seq![])
}

/// Whether a path is absolute: it starts at the root `/`.
pub open spec fn is_absolute(p: Seq<char>) -> bool {
    p.len() > 0 && p[0] == '/'
}

/// Whether some `/`-separated segment of `p` is `..`.
pub open spec fn climbs(p: Seq<char>) -> bool {
    exists|i: int| 0 <= i < segments(p).len() && #[trigger] segments(p)[i] == seq!['.', '.']
}

/// A path inside a repository, cleaned: not absolute, trimmed of slashes at
/// both ends, and without a `..` segment.
pub open spec fn clean_rel_path(p: Seq<char>) -> Result<Seq<char>, DepErrorKind> {
    if is_absolute(p) {
        Err(DepErrorKind::AbsolutePath)
    } else if climbs(trim_end_all(trim_start_all(p, '/'), '/')) {
        Err(DepErrorKind::Traversal)
    } else {
        Ok(trim_end_all(trim_start_all(p, '/'), '/'))
    }
}

/// `s` without its trailing `c` characters.
fn trim_end_char(s: &Vec<char>, c: char) -> (r: Vec<char>)
    ensures
        r@ == trim_end_all(s@, c),
{
    let mut n = s.len();
    assert(s@.take(n as int) =~= s@);
    while n > 0 && s[n - 1] == c
        invariant
            n <= s@.len(),
            trim_end_all(s@, c) == trim_end_all(s@.take(n as int), c),
        decreases n,
    {
        assert(s@.take(n as int).drop_last() =~= s@.take(n - 1));
        n = n - 1;
    }
    let mut r: Vec<char> = Vec::new();
    let mut i: usize = 0;
    while i < n
        invariant
            i <= n <= s@.len(),
            r@ == s@.take(i as int),
        decreases n - i,
    {
        r.push(s[i]);
        i = i + 1;
        assert(r@ =~= s@.take(i as int));
    }
    r
}

/// `s` without its leading `c` characters.
fn trim_start_char(s: &Vec<char>, c: char) -> (r: Vec<char>)
    ensures
        r@ == trim_start_all(s@, c),
{
    let mut k: usize = 0;
    assert(s@.skip(0) =~= s@);
    while k < s.len() && s[k] == c
        invariant
            k <= s@.len(),
            trim_start_all(s@, c) == trim_start_all(s@.skip(k as int), c),
        decreases s@.len() - k,
    {
        assert(s@.skip(k as int).drop_first() =~= s@.skip(k + 1));
        k = k + 1;
    }
    let mut r: Vec<char> = Vec::new();
    let mut i: usize = k;
    while i < s.len()
        invariant
            k <= i <= s@.len(),
            r@ == s@.subrange(k as int, i as int),
        decreases s@.len() - i,
    {
        r.push(s[i]);
        i = i + 1;
        assert(r@ =~= s@.subrange(k as int, i as int));
    }
    assert(r@ =~= s@.skip(k as int));
    r
}

/// Whether `cs` is the two characters `..`.
fn is_dotdot(cs: &Vec<char>) -> (b: bool)
    ensures
        b == (cs@ == seq!['.', '.']),
{
    let b = cs.len() == 2 && cs[0] == '.' && cs[1] == '.';
    if b {
        assert(cs@ =~= seq!['.', '.']);
    }
    b
}

/// Whether some `/`-separated segment of `p` is `..`.
fn has_dotdot_segment(p: &Vec<char>) -> (b: bool)
    ensures
        b == climbs(p@),
{
    let mut cur: Vec<char> = Vec::new();
    let ghost mut done: Seq<Seq<char>> = seq![];
    let mut found = false;
    let mut i: usize = 0;
    assert(p@.skip(0) =~= p@);
    assert(segments(p@) =~= seq![] + segments_from(p@.skip(0), seq![]));
    while i < p.len()
        invariant
            i <= p@.len(),
            segments(p@) == done + segments_from(p@.skip(i as int), cur@),
            found == exists|j: int| 0 <= j < done.len() && #[trigger] done[j] == seq!['.', '.'],
        decreases p@.len() - i,
    {
        let c = p[i];
        let ghost rest = p@.skip(i as int);
        assert(rest[0] == c);
        assert(rest.drop_first() =~= p@.skip(i + 1));
        if c == '/' {
            let dd = is_dotdot(&cur);
            let ghost d0 = done;
            proof {
                done = done.push(cur@);
                assert(d0 + (seq![cur@] + segments_from(p@.skip(i + 1), seq![])) =~= done
                    + segments_from(p@.skip(i + 1), seq![]));
                if dd {
                    assert(done[d0.len() as int] == seq!['.', '.']);
                }
                if found {
                    let j = choose|j: int| 0 <= j < d0.len() && #[trigger] d0[j] == seq!['.', '.'];
                    assert(done[j] == d0[j]);
                }
                assert((exists|j: int| 0 <= j < done.len() && #[trigger] done[j] == seq!['.', '.'])
                    ==> (found || dd)) by {
                    if exists|j: int| 0 <= j < done.len() && #[trigger] done[j] == seq!['.', '.'] {
                        let j = choose|j: int| 0 <= j < done.len() && #[trigger] done[j] == seq!['.', '.'];
                        if j < d0.len() {
                            assert(d0[j] == done[j]);
                        }
                    }
                }
            }
            found = found || dd;
            cur = Vec::new();
            assert(cur@ =~= seq![]);
        } else {
            cur.push(c);
        }
        i = i + 1;
    }
    assert(p@.skip(i as int) =~= seq![]);
    let dd = is_dotdot(&cur);
    let ghost d0 = done;
    proof {
        done = done.push(cur@);
        assert(segments(p@) =~= done);
        if dd {
            assert(done[d0.len() as int] == seq!['.', '.']);
        }
        if found {
            let j = choose|j: int| 0 <= j < d0.len() && #[trigger] d0[j] == seq!['.', '.'];
            assert(done[j] == d0[j]);
        }
        if exists|j: int| 0 <= j < done.len() && #[trigger] done[j] == seq!['.', '.'] {
            let j = choose|j: int| 0 <= j < done.len() && #[trigger] done[j] == seq!['.', '.'];
            if j < d0.len() {
                assert(d0[j] == done[j]);
            }
        }
        if found || dd {
            let j = choose|j: int| 0 <= j < done.len() && #[trigger] done[j] == seq!['.', '.'];
            assert(segments(p@)[j] == seq!['.', '.']);
        } else {
            assert forall|j: int| 0 <= j < segments(p@).len() implies #[trigger] segments(p@)[j] != seq![
                '.',
                '.',
            ] by {
                assert(segments(p@)[j] == done[j]);
            }
        }
    }
    found || dd
}

/// Normalises a relative dependency path and rejects traversal: an absolute
/// path is rejected, surrounding slashes are trimmed, and a `..` segment is
/// rejected. Returns the cleaned path (`""` for the repository root).
pub fn sanitize_rel_path(path: &str) -> (r: Result<String, DepError>)
    ensures
        r matches Ok(s) ==> clean_rel_path(path@) == Ok::<Seq<char>, DepErrorKind>(s@),
        r matches Err(e) ==> clean_rel_path(path@) == Err::<Seq<char>, DepErrorKind>(e.kind),
        r matches Err(e) ==> e.message@ == rel_path_message(path@, e.kind),
{
    let cs = crate::strs::chars_of(path);
    if cs.len() > 0 && cs[0] == '/' {
        let msg = joined3("`", path, "` must be a relative path inside the repo, not absolute");
        return Err(DepError { kind: DepErrorKind::AbsolutePath, message: msg });
    }
    let trimmed = trim_end_char(&trim_start_char(&cs, '/'), '/');
    if has_dotdot_segment(&trimmed) {
        let msg = joined3("`", path, "` must be a relative path inside the repo, without `..` or a leading `/`");
        return Err(DepError { kind: DepErrorKind::Traversal, message: msg });
    }
    Ok(crate::strs::string_of(&trimmed))
}

/// A `[dependencies]` entry as written in `pds.toml`. The source is
/// selected by `git`: present, a git source; absent, a local source whose
/// `path` names a sibling workspace. Under git, `path` is the in-repo
/// subdirectory; under local, the manifest-relative directory.
#[derive(Debug, Clone, PartialEq, Eq, Default)]
pub struct DepSpec {
    /// The git source URL, or `None` for a local source.
    pub git: Option<String>,
    pub tag: Option<String>,
    pub rev: Option<String>,
    pub branch: Option<String>,
    /// The in-repo subdirectory (git) or the sibling workspace's path (local).
    pub path: Option<String>,
}

/// The resolved source of a `[dependencies]` entry.
#[derive(Debug, Clone, PartialEq, Eq)]
pub enum Source {
    /// A git source: a remote URL, a revision selector, and an in-repo subdir.
    Git { url: String, selector: Rev, sub: String },
    /// A local source: a manifest-relative path to a sibling workspace.
    Local { path: String },
}

/// The local source an entry without `git` names: its `path` without
/// trailing slashes, which must be present, free of revision selectors,
/// non-empty and relative.
pub open spec fn local_source_of(spec: DepSpec) -> Result<Seq<char>, DepErrorKind> {
    match spec.path {
        None => Err(DepErrorKind::NoSource),
        Some(p) => if spec.tag is Some || spec.rev is Some || spec.branch is Some {
            Err(DepErrorKind::LocalWithSelector)
        } else if trim_end_all(p@, '/').len() == 0 {
            Err(DepErrorKind::EmptyLocalPath)
        } else if is_absolute(trim_end_all(p@, '/')) {
            Err(DepErrorKind::AbsoluteLocalPath)
        } else {
            Ok(trim_end_all(p@, '/'))
        },
    }
}

/// The `path` of an entry, or the empty path.
pub open spec fn path_or_root(spec: DepSpec) -> Seq<char> {
    match spec.path {
        Some(p) => p@,
        None => seq![],
    }
}

/// Why the entry `spec` has no source, if it has none: for a git entry, more
/// than one selector or an unclean path; for a local one, the rule of
/// [`local_source_of`] it breaks.
pub open spec fn source_error(spec: DepSpec) -> Option<DepErrorKind> {
    if spec.git is Some {
        if rev_of_flags(spec.tag, spec.rev, spec.branch) is None {
            Some(DepErrorKind::MultipleSelectors)
        } else {
            match clean_rel_path(path_or_root(spec)) {
                Ok(_) => None,
                Err(k) => Some(k),
            }
        }
    } else {
        match local_source_of(spec) {
            Ok(_) => None,
            Err(k) => Some(k),
        }
    }
}

/// The error text for an entry named `name` that breaks rule `k`: the
/// entry's context, then the reason.
pub open spec fn source_message(name: Seq<char>, spec: DepSpec, k: DepErrorKind) -> Seq<char> {
    let head = "dependency `"@ + name;
    match k {
        DepErrorKind::MultipleSelectors => head + "`: "@ + multiple_flags_message(),
        DepErrorKind::AbsolutePath => head + "` `path`: "@ + rel_path_message(path_or_root(spec), k),
        DepErrorKind::Traversal => head + "` `path`: "@ + rel_path_message(path_or_root(spec), k),
        DepErrorKind::NoSource => head + "` declares no source: set `git` or `path`"@,
        DepErrorKind::LocalWithSelector => head + "`: a local `path` source takes no `tag`/`rev`/`branch`"@,
        DepErrorKind::EmptyLocalPath => head + "`: local `path` is empty"@,
        DepErrorKind::AbsoluteLocalPath => head + "`: local `path` `"@ + trim_end_all(path_or_root(spec), '/')
            + "` must be relative to the manifest"@,
    }
}

/// `` dependency `name` `` followed by `rest`.
fn context(name: &str, rest: &str) -> (s: String)
    ensures
        s@ == "dependency `"@ + name@ + rest@,
{
    let mut s = String::from_str("dependency `");
    s.append(name);
    s.append(rest);
    s
}

impl DepSpec {
    /// The dependency's resolved source: a git source with its selector and
    /// cleaned in-repo path, or a local source.
    pub fn source(&self, name: &str) -> (r: Result<Source, DepError>)
        ensures
            r is Ok <==> source_error(*self) is None,
            r matches Err(e) ==> source_error(*self) == Some(e.kind),
            r matches Err(e) ==> e.message@ == source_message(name@, *self, e.kind),
            r matches Ok(Source::Git { url, selector, sub }) ==> self.git matches Some(u) && url@ == u@
                && rev_of_flags(self.tag, self.rev, self.branch) == Some(selector) && clean_rel_path(
                path_or_root(*self),
            ) == Ok::<Seq<char>, DepErrorKind>(sub@),
            r matches Ok(Source::Local { path }) ==> self.git is None && local_source_of(*self) == Ok::<
                Seq<char>,
                DepErrorKind,
            >(path@),
    {
        let url = match &self.git {
            Some(u) => u,
            None => return self.local_source(name),
        };
        let selector = match Rev::from_flags(self.tag.clone(), self.rev.clone(), self.branch.clone()) {
            Ok(s) => s,
            Err(e) => {
                let rest = joined("`: ", e.message.as_str());
                return Err(DepError { kind: e.kind, message: context(name, rest.as_str()) });
            },
        };
        let p = match &self.path {
            Some(p) => p.as_str(),
            None => {
                proof {
                    reveal_strlit("");
                }
                assert(""@ =~= seq![]);
                ""
            },
        };
        assert(p@ == path_or_root(*self));
        let sub = match sanitize_rel_path(p) {
            Ok(s) => s,
            Err(e) => {
                let rest = joined("` `path`: ", e.message.as_str());
                return Err(DepError { kind: e.kind, message: context(name, rest.as_str()) });
            },
        };
        Ok(Source::Git { url: url.clone(), selector, sub })
    }

    /// The local source of an entry with no `git`: `path` names a sibling
    /// workspace and no revision selector is allowed. `..` is the normal way
    /// to reach a sibling, so only an absolute path is rejected.
    fn local_source(&self, name: &str) -> (r: Result<Source, DepError>)
        ensures
            r matches Ok(Source::Local { path }) ==> local_source_of(*self) == Ok::<Seq<char>, DepErrorKind>(
                path@,
            ),
            r matches Ok(s) ==> s is Local,
            r matches Err(e) ==> local_source_of(*self) == Err::<Seq<char>, DepErrorKind>(e.kind),
            r matches Err(e) ==> e.message@ == source_message(name@, *self, e.kind),
    {
        let path = match &self.path {
            Some(p) => p,
            None => {
                return Err(
                    DepError {
                        kind: DepErrorKind::NoSource,
                        message: context(name, "` declares no source: set `git` or `path`"),
                    },
                );
            },
        };
        if self.tag.is_some() || self.rev.is_some() || self.branch.is_some() {
            return Err(
                DepError {
                    kind: DepErrorKind::LocalWithSelector,
                    message: context(name, "`: a local `path` source takes no `tag`/`rev`/`branch`"),
                },
            );
        }
        let trimmed = trim_end_char(&chars_of(path.as_str()), '/');
        if trimmed.len() == 0 {
            return Err(
                DepError { kind: DepErrorKind::EmptyLocalPath, message: context(name, "`: local `path` is empty") },
            );
        }
        if trimmed[0] == '/' {
            let tp = string_of(&trimmed);
            let rest = joined3("`: local `path` `", tp.as_str(), "` must be relative to the manifest");
            return Err(DepError { kind: DepErrorKind::AbsoluteLocalPath, message: context(name, rest.as_str()) });
        }
        Ok(Source::Local { path: string_of(&trimmed) })
    }
}

/// A git URL normalised for identity: one trailing `/` and then one `.git`
/// suffix removed.
pub open spec fn normalized_source(url: Seq<char>) -> Seq<char> {
    let a = if url.len() > 0 && url.last() == '/' { url.drop_last() } else { url };
    if a.len() >= 4 && a.subrange(a.len() - 4, a.len() as int) == seq!['.', 'g', 'i', 't'] {
        a.subrange(0, a.len() - 4)
    } else {
        a
    }
}

/// The characters of `s` after its last `/` or `:` (all of `s` if none).
pub open spec fn last_segment(s: Seq<char>) -> Seq<char>
    decreases s.len(),
{
    if s.len() == 0 {
        s
    } else if s.last() == '/' || s.last() == ':' {
        seq![]
    } else {
        last_segment(s.drop_last()).push(s.last())
    }
}

/// Normalises a git URL for identity: trims a trailing `/` and one `.git`.
pub fn normalize_source(url: &str) -> (r: String)
    ensures
        r@ == normalized_source(url@),
{
    let cs = chars_of(url);
    let mut n = cs.len();
    if n > 0 && cs[n - 1] == '/' {
        n = n - 1;
    }
    let ghost a = cs@.take(n as int);
    assert(a == if url@.len() > 0 && url@.last() == '/' { url@.drop_last() } else { url@ });
    if n >= 4 && cs[n - 4] == '.' && cs[n - 3] == 'g' && cs[n - 2] == 'i' && cs[n - 1] == 't' {
        assert(a.subrange(a.len() - 4, a.len() as int) =~= seq!['.', 'g', 'i', 't']);
        n = n - 4;
    } else {
        assert(a.len() >= 4 ==> a.subrange(a.len() - 4, a.len() as int) != seq!['.', 'g', 'i', 't']) by {
            if a.len() >= 4 {
                if a.subrange(a.len() - 4, a.len() as int) == seq!['.', 'g', 'i', 't'] {
                    assert(a.subrange(a.len() - 4, a.len() as int)[0] == '.');
                    assert(a.subrange(a.len() - 4, a.len() as int)[1] == 'g');
                    assert(a.subrange(a.len() - 4, a.len() as int)[2] == 'i');
                    assert(a.subrange(a.len() - 4, a.len() as int)[3] == 't');
                }
            }
        }
    }
    let mut out: Vec<char> = Vec::new();
    let mut i: usize = 0;
    while i < n
        invariant
            i <= n <= cs@.len(),
            out@ == cs@.take(i as int),
        decreases n - i,
    {
        out.push(cs[i]);
        i = i + 1;
        assert(out@ =~= cs@.take(i as int));
    }
    let r = string_of(&out);
    assert(r@ =~= normalized_source(url@));
    r
}

/// The repository's last path segment without `.git`, e.g.
/// `https://x/acme/banking.git` is `banking`.
pub fn repo_slug(url: &str) -> (r: String)
    ensures
        r@ == last_segment(normalized_source(url@)),
{
    let norm = chars_of(normalize_source(url).as_str());
    let mut k = norm.len();
    assert(norm@.take(k as int) =~= norm@);
    while k > 0 && norm[k - 1] != '/' && norm[k - 1] != ':'
        invariant
            k <= norm@.len(),
            last_segment(norm@) == last_segment(norm@.take(k as int)) + norm@.subrange(
                k as int,
                norm@.len() as int,
            ),
        decreases k,
    {
        let ghost t = norm@.take(k as int);
        assert(t.drop_last() =~= norm@.take(k - 1));
        assert(norm@.subrange(k - 1, norm@.len() as int) =~= seq![t.last()] + norm@.subrange(
            k as int,
            norm@.len() as int,
        ));
        assert(last_segment(t) == last_segment(t.drop_last()).push(t.last()));
        assert(last_segment(t.drop_last()).push(t.last()) + norm@.subrange(k as int, norm@.len() as int)
            =~= last_segment(t.drop_last()) + norm@.subrange(k - 1, norm@.len() as int));
        k = k - 1;
    }
    assert(last_segment(norm@.take(k as int)) =~= seq![]);
    let mut out: Vec<char> = Vec::new();
    let mut i: usize = k;
    while i < norm.len()
        invariant
            k <= i <= norm@.len(),
            out@ == norm@.subrange(k as int, i as int),
        decreases norm@.len() - i,
    {
        out.push(norm[i]);
        i = i + 1;
        assert(out@ =~= norm@.subrange(k as int, i as int));
    }
    let r = string_of(&out);
    assert(r@ =~= last_segment(normalized_source(url@)));
    r
}

/// A resolved package's identity: normalised source, resolved commit, and
/// in-repo path.
#[derive(Debug, Clone, PartialEq, Eq, PartialOrd, Ord)]
pub struct PackageId {
    pub source: String,
    pub rev: String,
    pub path: String,
}

/// How many bytes of a revision its slug keeps: at most twelve.
pub open spec fn short_len(rev: Seq<char>) -> int {
    let n = encode_utf8(rev).len() as int;
    if n < 12 { n } else { 12 }
}

/// `s` with every `from` replaced by `to`.
pub open spec fn replaced(s: Seq<char>, from: char, to: char) -> Seq<char> {
    s.map_values(|c: char| if c == from { to } else { c })
}

/// The `pds_modules/` directory a package materialises into: the repository
/// slug, the in-repo path with `/` as `_` (when present), and the first
/// twelve bytes of the revision, joined by `-`.
pub open spec fn slug_of(source: Seq<char>, rev: Seq<char>, path: Seq<char>) -> Seq<char> {
    let repo = last_segment(normalized_source(source));
    let short = decode_utf8(encode_utf8(rev).take(short_len(rev)));
    if path.len() == 0 {
        repo + seq!['-'] + short
    } else {
        repo + seq!['-'] + replaced(path, '/', '_') + seq!['-'] + short
    }
}

/// `s` with every `/` replaced by `_`.
fn slashes_to_underscores(s: &str) -> (r: Vec<char>)
    ensures
        r@ == replaced(s@, '/', '_'),
{
    let cs = chars_of(s);
    let mut r: Vec<char> = Vec::new();
    let mut i: usize = 0;
    while i < cs.len()
        invariant
            i <= cs@.len(),
            cs@ == s@,
            r@ == replaced(cs@.take(i as int), '/', '_'),
        decreases cs@.len() - i,
    {
        let c = cs[i];
        r.push(if c == '/' { '_' } else { c });
        i = i + 1;
        assert(r@ =~= replaced(cs@.take(i as int), '/', '_'));
    }
    assert(cs@.take(cs@.len() as int) =~= cs@);
    r
}

impl PackageId {
    /// The `pds_modules/` sub-directory this package materialises into:
    /// readable and unique per identity. The revision is cut after its
    /// twelfth byte, which must end a character.
    pub fn slug(&self) -> (r: String)
        requires
            is_char_boundary(encode_utf8(self.rev@), short_len(self.rev@)),
        ensures
            r@ == slug_of(self.source@, self.rev@, self.path@),
    {
        let repo = repo_slug(self.source.as_str());
        let bytes = self.rev.as_str().as_bytes();
        let n: usize = if bytes.len() < 12 { bytes.len() } else { 12 };
        let (short, _) = self.rev.as_str().split_at(n);
        proof {
            encode_utf8_decode_utf8(short@);
        }
        let mut out = repo;
        push_char(&mut out, '-');
        if self.path.as_str().unicode_len() > 0 {
            let p = slashes_to_underscores(self.path.as_str());
            let mut i: usize = 0;
            let ghost base = out@;
            while i < p.len()
                invariant
                    i <= p@.len(),
                    out@ == base + p@.take(i as int),
                decreases p@.len() - i,
            {
                push_char(&mut out, p[i]);
                i = i + 1;
                assert(out@ =~= base + p@.take(i as int));
            }
            assert(p@.take(p@.len() as int) =~= p@);
            push_char(&mut out, '-');
        }
        out.append(short);
        proof {
            assert(short@ == decode_utf8(encode_utf8(self.rev@).take(short_len(self.rev@))));
        }
        assert(out@ =~= slug_of(self.source@, self.rev@, self.path@));
        out
    }
}

/// The parsed `pds.lock`.
#[derive(Debug, Clone, PartialEq, Eq, Default)]
pub struct Lock {
    pub version: u32,
    /// The consumer workspace's direct-dependency edges (name to package):
    /// the only dependencies addressable from the consumer's models.
    pub root: Vec<LockEdge>,
    pub packages: Vec<LockPackage>,
}

/// One resolved package in `pds.lock`.
#[derive(Debug, Clone, PartialEq, Eq, Default)]
pub struct LockPackage {
    /// The dependency name that introduced this package (informational).
    pub name: String,
    pub source: String,
    pub rev: String,
    pub path: String,
    pub dependencies: Vec<LockEdge>,
}

/// A dependency edge: the name a package declares, and the package it
/// resolves to.
#[derive(Debug, Clone, PartialEq, Eq, Default)]
pub struct LockEdge {
    pub name: String,
    pub source: String,
    pub rev: String,
    pub path: String,
}

impl LockPackage {
    /// The package identity.
    pub fn id(&self) -> (p: PackageId)
        ensures
            p.source@ == self.source@ && p.rev@ == self.rev@ && p.path@ == self.path@,
    {
        PackageId { source: self.source.clone(), rev: self.rev.clone(), path: self.path.clone() }
    }
}

impl LockEdge {
    /// The package identity this edge resolves to.
    pub fn id(&self) -> (p: PackageId)
        ensures
            p.source@ == self.source@ && p.rev@ == self.rev@ && p.path@ == self.path@,
    {
        PackageId { source: self.source.clone(), rev: self.rev.clone(), path: self.path.clone() }
    }
}

/// One dependency module's in-memory form: its FQN within the dependency
/// workspace and its source.
#[derive(Debug, Clone, PartialEq, Eq)]
pub struct DepFile {
    pub fqn: String,
    pub source: String,
}

impl DepFile {
    /// A dependency file from its FQN and source.
    pub fn new(fqn: &str, source: &str) -> (f: DepFile)
        ensures
            f.fqn@ == fqn@ && f.source@ == source@,
    {
        DepFile { fqn: String::from_str(fqn), source: String::from_str(source) }
    }
}

/// One module of a workspace: its fully-qualified name and its source.
#[derive(Debug, Clone, PartialEq, Eq)]
pub struct WorkspaceModule {
    /// The module's fully-qualified name (`banking::core`).
    pub fqn: String,
    /// The module's `.pds` source text.
    pub source: String,
}

impl WorkspaceModule {
    /// A module from its FQN and source.
    pub fn new(fqn: &str, source: &str) -> (m: WorkspaceModule)
        ensures
            m.fqn@ == fqn@ && m.source@ == source@,
    {
        WorkspaceModule { fqn: String::from_str(fqn), source: String::from_str(source) }
    }
}

/// The `(fqn, source)` a dependency file contributes under dependency
/// `name`: its FQN prefixed with `name::`.
pub open spec fn prefixed_view(name: Seq<char>, f: DepFile) -> (Seq<char>, Seq<char>) {
    (name + seq![':', ':'] + f.fqn@, f.source@)
}

/// The `(fqn, source)` of each module.
pub open spec fn module_views(ms: Seq<WorkspaceModule>) -> Seq<(Seq<char>, Seq<char>)> {
    ms.map_values(|m: WorkspaceModule| (m.fqn@, m.source@))
}

/// The modules a lock edge contributes: each vendored file whose slug is
/// the edge's package slug, in order, prefixed with the edge's name.
pub open spec fn edge_modules(edge: LockEdge, vendored: Seq<(String, DepFile)>) -> Seq<(Seq<char>, Seq<char>)>
    decreases vendored.len(),
{
    if vendored.len() == 0 {
        seq![]
    } else {
        edge_modules(edge, vendored.drop_last()) + if vendored.last().0@ == slug_of(
            edge.source@,
            edge.rev@,
            edge.path@,
        ) {
            seq![prefixed_view(edge.name@, vendored.last().1)]
        } else {
            seq![]
        }
    }
}

/// The modules the lock edges contribute, edge by edge.
pub open spec fn edges_modules(edges: Seq<LockEdge>, vendored: Seq<(String, DepFile)>) -> Seq<(Seq<char>, Seq<char>)>
    decreases edges.len(),
{
    if edges.len() == 0 {
        seq![]
    } else {
        edges_modules(edges.drop_last(), vendored) + edge_modules(edges.last(), vendored)
    }
}

/// The modules the local dependencies contribute, each prefixed with its
/// dependency name.
pub open spec fn local_modules(local: Seq<(String, DepFile)>) -> Seq<(Seq<char>, Seq<char>)> {
    local.map_values(|e: (String, DepFile)| prefixed_view(e.0@, e.1))
}

/// Every root edge's revision can be cut for its slug.
pub open spec fn lock_slugs_ok(lock: Lock) -> bool {
    forall|i: int|
        0 <= i < lock.root@.len() ==> is_char_boundary(
            encode_utf8((#[trigger] lock.root@[i]).rev@),
            short_len(lock.root@[i].rev@),
        )
}

/// Prefixes a dependency file's FQN with `name::`.
fn prefixed(name: &str, file: &DepFile) -> (m: WorkspaceModule)
    ensures
        (m.fqn@, m.source@) == prefixed_view(name@, *file),
{
    let mut fqn = String::from_str(name);
    push_char(&mut fqn, ':');
    push_char(&mut fqn, ':');
    fqn.append(file.fqn.as_str());
    assert(fqn@ =~= name@ + seq![':', ':'] + file.fqn@);
    WorkspaceModule { fqn, source: file.source.clone() }
}

/// Appends `m` to `out`.
fn push_module(out: &mut Vec<WorkspaceModule>, m: WorkspaceModule)
    ensures
        module_views(final(out)@) == module_views(old(out)@).push((m.fqn@, m.source@)),
{
    out.push(m);
    assert(module_views(out@) =~= module_views(old(out)@).push((m.fqn@, m.source@)));
}

/// Maps direct dependencies to their name-prefixed workspace modules: for
/// each root edge of `lock` (an empty lock when there is no `pds.lock`),
/// every vendored file whose slug is the edge's package slug; then every
/// local dependency file under its dependency name.
pub fn resolve_dependency_modules(
    lock: &Lock,
    vendored: &Vec<(String, DepFile)>,
    local: &Vec<(String, DepFile)>,
) -> (modules: Vec<WorkspaceModule>)
    requires
        lock_slugs_ok(*lock),
    ensures
        module_views(modules@) == edges_modules(lock.root@, vendored@) + local_modules(local@),
{
    let mut modules: Vec<WorkspaceModule> = Vec::new();
    let mut e: usize = 0;
    assert(lock.root@.take(0) =~= seq![]);
    assert(module_views(modules@) =~= seq![]);
    while e < lock.root.len()
        invariant
            e <= lock.root@.len(),
            lock_slugs_ok(*lock),
            module_views(modules@) == edges_modules(lock.root@.take(e as int), vendored@),
        decreases lock.root@.len() - e,
    {
        let edge = &lock.root[e];
        let slug = edge.id().slug();
        let ghost before = module_views(modules@);
        let mut v: usize = 0;
        assert(vendored@.take(0) =~= seq![]);
        assert(before + seq![] =~= before);
        while v < vendored.len()
            invariant
                v <= vendored@.len(),
                e < lock.root@.len(),
                *edge == lock.root@[e as int],
                slug@ == slug_of(edge.source@, edge.rev@, edge.path@),
                module_views(modules@) == before + edge_modules(*edge, vendored@.take(v as int)),
            decreases vendored@.len() - v,
        {
            let entry = &vendored[v];
            assert(vendored@.take(v + 1).drop_last() =~= vendored@.take(v as int));
            if str_eq(entry.0.as_str(), slug.as_str()) {
                let m = prefixed(edge.name.as_str(), &entry.1);
                push_module(&mut modules, m);
            }
            v = v + 1;
        }
        assert(vendored@.take(vendored@.len() as int) =~= vendored@);
        assert(lock.root@.take(e + 1).drop_last() =~= lock.root@.take(e as int));
        e = e + 1;
    }
    assert(lock.root@.take(lock.root@.len() as int) =~= lock.root@);
    let ghost git = module_views(modules@);
    let mut l: usize = 0;
    assert(local@.take(0) =~= seq![]);
    assert(git + local_modules(local@.take(0)) =~= git);
    while l < local.len()
        invariant
            l <= local@.len(),
            module_views(modules@) == git + local_modules(local@.take(l as int)),
        decreases local@.len() - l,
    {
        let entry = &local[l];
        let m = prefixed(entry.0.as_str(), &entry.1);
        push_module(&mut modules, m);
        l = l + 1;
        assert(local_modules(local@.take(l as int)) =~= local_modules(local@.take(l - 1)).push(
            prefixed_view(entry.0@, entry.1),
        ));
    }
    assert(local@.take(local@.len() as int) =~= local@);
    modules
}

/// Trimming trailing `c` leaves a prefix that does not end in `c`.
proof fn lemma_trim_end_all(s: Seq<char>, c: char)
    ensures
        trim_end_all(s, c).len() <= s.len(),
        trim_end_all(s, c) =~= s.take(trim_end_all(s, c).len() as int),
        trim_end_all(s, c).len() > 0 ==> trim_end_all(s, c).last() != c,
    decreases s.len(),
{
    if s.len() > 0 && s.last() == c {
        lemma_trim_end_all(s.drop_last(), c);
        let r = trim_end_all(s, c);
        assert(s.drop_last().take(r.len() as int) =~= s.take(r.len() as int));
    } else {
        assert(s.take(s.len() as int) =~= s);
    }
}

/// Cleaning a relative path is idempotent: a cleaned path cleans to itself.
pub proof fn law_clean_rel_path_idempotent(p: Seq<char>)
    requires
        clean_rel_path(p) is Ok,
    ensures
        clean_rel_path(clean_rel_path(p)->Ok_0) == clean_rel_path(p),
{
    let q = trim_start_all(p, '/');
    assert(!is_absolute(p));
    assert(q == p);
    let s = trim_end_all(p, '/');
    lemma_trim_end_all(p, '/');
    if s.len() > 0 {
        assert(s[0] == p[0]);
    }
    assert(trim_start_all(s, '/') == s);
    assert(trim_end_all(s, '/') == s);
}

/// A path is rejected exactly when it is absolute or, trimmed, has a `..`
/// segment; an accepted path comes back with no leading or trailing `/`
/// and no `..` segment.
pub proof fn law_clean_rel_path_shape(p: Seq<char>)
    ensures
        clean_rel_path(p) is Err <==> (is_absolute(p) || climbs(trim_end_all(trim_start_all(p, '/'), '/'))),
        clean_rel_path(p) matches Ok(s) ==> {
            &&& !(s.len() > 0 && s[0] == '/')
            &&& !(s.len() > 0 && s.last() == '/')
            &&& !climbs(s)
        },
{
    if clean_rel_path(p) is Ok {
        let s = trim_end_all(p, '/');
        assert(trim_start_all(p, '/') == p);
        lemma_trim_end_all(p, '/');
        if s.len() > 0 {
            assert(s[0] == p[0]);
        }
    }
}

} // verus!
