//! Module names from project paths: a `.pds` file's fully-qualified name is
//! its path relative to the project root, each component a `::`-joined
//! segment, with the `.pds` extension stripped from the filename and every
//! hyphen normalised to `_`.
//!
//! Paths are `/`-separated. A leading `/` is a root component and a
//! leading `.` a current-directory component; elsewhere empty and `.`
//! components are skipped, as a path normalises them away.

use crate::model::deps::{is_absolute, replaced};
use crate::strs::{chars_of, push_char, string_of};
use vstd::prelude::*;
use vstd::string::{StrSliceExecFns, StringExecFns};

verus! {

/// The project-root manifest filename.
pub const MANIFEST: &'static str = "pds.toml";

/// The lockfile filename.
pub const LOCKFILE: &'static str = "pds.lock";

/// The project-local directory dependency packages are materialised into.
pub const VENDOR_DIR: &'static str = "pds_modules";

/// The components of `s` after its start, `cur` being the component in
/// progress: `/`-separated, skipping empty and `.` components.
pub open spec fn components_from(s: Seq<char>, cur: Seq<char>) -> Seq<Seq<char>>
    decreases s.len(),
{
    if s.len() == 0 {
        keep(cur)
    } else if s[0] == '/' {
        keep(cur) + components_from(s.drop_first(), seq![])
    } else {
        components_from(s.drop_first(), cur.push(s[0]))
    }
}

/// `c` as a component list: nothing for an empty or `.` component.
pub open spec fn keep(c: Seq<char>) -> Seq<Seq<char>> {
    if c.len() == 0 || c == seq!['.'] {
        seq![]
    } else {
        seq![c]
    }
}

/// The components of the path `s` after its lead, skipping empty and `.`
/// ones.
pub open spec fn plain_components(s: Seq<char>) -> Seq<Seq<char>> {
    components_from(s, seq![])
}

/// The lead component of the path `s`: the root `/` of an absolute path,
/// or `.` for a path that starts with the current directory.
pub open spec fn lead(s: Seq<char>) -> Seq<Seq<char>> {
    if s.len() > 0 && s[0] == '/' {
        seq![seq!['/']]
    } else if s == seq!['.'] || (s.len() >= 2 && s[0] == '.' && s[1] == '/') {
        seq![seq!['.']]
    } else {
        seq![]
    }
}

/// The components of the path `s`: its lead, then the rest.
pub open spec fn components(s: Seq<char>) -> Seq<Seq<char>> {
    lead(s) + plain_components(s)
}

/// Whether a component names a file: not the root, `.` or `..`.
pub open spec fn names_file(c: Seq<char>) -> bool {
    c != seq!['.', '.'] && c != seq!['.'] && c != seq!['/']
}

/// The index of the last `.` of `s`, or `-1`.
pub open spec fn last_dot(s: Seq<char>) -> int
    decreases s.len(),
{
    if s.len() == 0 {
        -1
    } else if s.last() == '.' {
        s.len() - 1
    } else {
        last_dot(s.drop_last())
    }
}

/// A filename without its extension: the part before its last `.`, unless
/// that `.` leads the name.
pub open spec fn stem(name: Seq<char>) -> Seq<char> {
    if last_dot(name) > 0 {
        name.take(last_dot(name))
    } else {
        name
    }
}

/// `segs` joined by `::`.
pub open spec fn join_fqn(segs: Seq<Seq<char>>) -> Seq<char>
    decreases segs.len(),
{
    if segs.len() == 0 {
        seq![]
    } else if segs.len() == 1 {
        segs[0]
    } else {
        join_fqn(segs.drop_last()) + seq![':', ':'] + segs.last()
    }
}

/// The FQN of a module whose path has the components `comps`: the parent
/// components then the filename's stem, each with hyphens as `_`, joined by
/// `::`; none when there is no filename (no component, or a last one that
/// is the root, `.` or `..`).
pub open spec fn fqn_of(comps: Seq<Seq<char>>) -> Option<Seq<char>> {
    if comps.len() == 0 || !names_file(comps.last()) {
        None
    } else {
        Some(
            join_fqn(
                comps.drop_last().map_values(|c: Seq<char>| replaced(c, '-', '_')).push(
                    replaced(stem(comps.last()), '-', '_'),
                ),
            ),
        )
    }
}

/// Normalises one path segment into an FQN segment: a hyphen becomes `_`;
/// other characters pass through unchanged.
pub fn normalize_segment(segment: &str) -> (r: String)
    ensures
        r@ == replaced(segment@, '-', '_'),
{
    let cs = chars_of(segment);
    string_of(&normalized(&cs))
}

/// `cs` with every hyphen replaced by `_`.
fn normalized(cs: &Vec<char>) -> (r: Vec<char>)
    ensures
        r@ == replaced(cs@, '-', '_'),
{
    let mut r: Vec<char> = Vec::new();
    let mut i: usize = 0;
    while i < cs.len()
        invariant
            i <= cs@.len(),
            r@ == replaced(cs@.take(i as int), '-', '_'),
        decreases cs@.len() - i,
    {
        let c = cs[i];
        r.push(if c == '-' { '_' } else { c });
        i = i + 1;
        assert(r@ =~= replaced(cs@.take(i as int), '-', '_'));
    }
    assert(cs@.take(cs@.len() as int) =~= cs@);
    r
}

/// The components of a path after its lead.
fn split_components(cs: &Vec<char>) -> (comps: Vec<Vec<char>>)
    ensures
        comps@.map_values(|c: Vec<char>| c@) == plain_components(cs@),
{
    let mut comps: Vec<Vec<char>> = Vec::new();
    let mut cur: Vec<char> = Vec::new();
    let mut i: usize = 0;
    assert(cs@.skip(0) =~= cs@);
    assert(plain_components(cs@) =~= comps@.map_values(|c: Vec<char>| c@) + components_from(cs@.skip(0), cur@));
    while i < cs.len()
        invariant
            i <= cs@.len(),
            plain_components(cs@) == comps@.map_values(|c: Vec<char>| c@) + components_from(
                cs@.skip(i as int),
                cur@,
            ),
        decreases cs@.len() - i,
    {
        let c = cs[i];
        let ghost rest = cs@.skip(i as int);
        assert(rest[0] == c);
        assert(rest.drop_first() =~= cs@.skip(i + 1));
        if c == '/' {
            let ghost before = comps@.map_values(|c: Vec<char>| c@);
            let ghost cv = cur@;
            let ghost tail = components_from(cs@.skip(i + 1), seq![]);
            let is_dot = cur.len() == 1 && cur[0] == '.';
            if cur.len() > 0 && !is_dot {
                comps.push(cur);
                assert(comps@.map_values(|c: Vec<char>| c@) =~= before.push(cv));
                assert(keep(cv) == seq![cv]);
                assert(before + (seq![cv] + tail) =~= before.push(cv) + tail);
            } else {
                if is_dot {
                    assert(cv =~= seq!['.']);
                }
                assert(keep(cv) == Seq::<Seq<char>>::empty());
                assert(before + (seq![] + tail) =~= before + tail);
            }
            cur = Vec::new();
            assert(cur@ =~= seq![]);
        } else {
            cur.push(c);
        }
        i = i + 1;
    }
    assert(cs@.skip(i as int) =~= seq![]);
    let ghost before = comps@.map_values(|c: Vec<char>| c@);
    let ghost cv = cur@;
    let is_dot = cur.len() == 1 && cur[0] == '.';
    if cur.len() > 0 && !is_dot {
        comps.push(cur);
        assert(comps@.map_values(|c: Vec<char>| c@) =~= before.push(cv));
        assert(before + seq![cv] =~= before.push(cv));
    } else {
        if is_dot {
            assert(cv =~= seq!['.']);
        }
        assert(before + seq![] =~= before);
    }
    comps
}

/// The stem of the filename `name`, as [`stem`] describes it.
fn stem_of(name: &Vec<char>) -> (r: Vec<char>)
    ensures
        r@ == stem(name@),
{
    let mut k = name.len();
    assert(name@.take(k as int) =~= name@);
    while k > 0 && name[k - 1] != '.'
        invariant
            k <= name@.len(),
            last_dot(name@) == last_dot(name@.take(k as int)),
        decreases k,
    {
        assert(name@.take(k as int).drop_last() =~= name@.take(k - 1));
        k = k - 1;
    }
    // `k - 1` is the last dot, or there is none (`k == 0`).
    if k > 1 {
        assert(last_dot(name@.take(k as int)) == k - 1);
        let mut r: Vec<char> = Vec::new();
        let mut i: usize = 0;
        while i < k - 1
            invariant
                i <= k - 1,
                k <= name@.len(),
                r@ == name@.take(i as int),
            decreases k - 1 - i,
        {
            r.push(name[i]);
            i = i + 1;
            assert(r@ =~= name@.take(i as int));
        }
        r
    } else {
        assert(k == 0 ==> last_dot(name@.take(0)) == -1);
        let mut r: Vec<char> = Vec::new();
        let mut i: usize = 0;
        while i < name.len()
            invariant
                i <= name@.len(),
                r@ == name@.take(i as int),
            decreases name@.len() - i,
        {
            r.push(name[i]);
            i = i + 1;
            assert(r@ =~= name@.take(i as int));
        }
        assert(name@.take(name@.len() as int) =~= name@);
        r
    }
}

/// `segs` joined by `::`.
fn join_segments(segs: &Vec<Vec<char>>) -> (r: String)
    ensures
        r@ == join_fqn(segs@.map_values(|c: Vec<char>| c@)),
{
    let ghost all = segs@.map_values(|c: Vec<char>| c@);
    let mut out = String::new();
    let mut i: usize = 0;
    assert(all.take(0) =~= seq![]);
    while i < segs.len()
        invariant
            i <= segs@.len(),
            all == segs@.map_values(|c: Vec<char>| c@),
            out@ == join_fqn(all.take(i as int)),
        decreases segs@.len() - i,
    {
        let ghost t = all.take(i + 1);
        assert(t.drop_last() =~= all.take(i as int));
        assert(t.last() == segs@[i as int]@);
        if i > 0 {
            push_char(&mut out, ':');
            push_char(&mut out, ':');
        }
        let seg = &segs[i];
        let mut j: usize = 0;
        let ghost base = out@;
        while j < seg.len()
            invariant
                j <= seg@.len(),
                out@ == base + seg@.take(j as int),
            decreases seg@.len() - j,
        {
            push_char(&mut out, seg[j]);
            j = j + 1;
            assert(out@ =~= base + seg@.take(j as int));
        }
        assert(seg@.take(seg@.len() as int) =~= seg@);
        if i == 0 {
            assert(t.len() == 1 && t[0] == seg@);
            assert(out@ =~= seg@);
        } else {
            assert(out@ =~= join_fqn(all.take(i as int)) + seq![':', ':'] + seg@);
        }
        i = i + 1;
    }
    assert(all.take(segs@.len() as int) =~= all);
    out
}

/// The components of a path, its lead first.
fn path_components(cs: &Vec<char>) -> (comps: Vec<Vec<char>>)
    ensures
        comps@.map_values(|c: Vec<char>| c@) == components(cs@),
{
    let rest = split_components(cs);
    let mut comps: Vec<Vec<char>> = Vec::new();
    if cs.len() > 0 && cs[0] == '/' {
        let mut root: Vec<char> = Vec::new();
        root.push('/');
        assert(root@ =~= seq!['/']);
        comps.push(root);
    } else if (cs.len() == 1 && cs[0] == '.') || (cs.len() >= 2 && cs[0] == '.' && cs[1] == '/') {
        let mut dot: Vec<char> = Vec::new();
        dot.push('.');
        assert(dot@ =~= seq!['.']);
        comps.push(dot);
        if cs.len() == 1 {
            assert(cs@ =~= seq!['.']);
        }
    } else {
        assert(cs@ != seq!['.']) by {
            if cs@ == seq!['.'] {
                assert(cs@.len() == 1 && cs@[0] == '.');
            }
        }
    }
    let ghost l = comps@.map_values(|c: Vec<char>| c@);
    assert(l =~= lead(cs@));
    let mut k: usize = 0;
    while k < rest.len()
        invariant
            k <= rest@.len(),
            l == lead(cs@),
            comps@.map_values(|c: Vec<char>| c@) == l + rest@.take(k as int).map_values(|c: Vec<char>| c@),
        decreases rest@.len() - k,
    {
        let ghost before = comps@.map_values(|c: Vec<char>| c@);
        comps.push(rest[k].clone());
        assert(rest@.take(k + 1).map_values(|c: Vec<char>| c@) =~= rest@.take(k as int).map_values(|c: Vec<char>| c@).push(
            rest@[k as int]@,
        ));
        assert(comps@.map_values(|c: Vec<char>| c@) =~= before.push(rest@[k as int]@));
        k = k + 1;
    }
    assert(rest@.take(rest@.len() as int) =~= rest@);
    comps
}

/// The FQN of the module at the components `comps`, as [`fqn_of`]
/// describes it.
fn fqn_of_components(comps: &Vec<Vec<char>>) -> (r: Option<String>)
    ensures
        r matches Some(s) ==> fqn_of(comps@.map_values(|c: Vec<char>| c@)) == Some(s@),
        r is None ==> fqn_of(comps@.map_values(|c: Vec<char>| c@)) is None,
{
    let ghost cv = comps@.map_values(|c: Vec<char>| c@);
    let n = comps.len();
    if n == 0 {
        return None;
    }
    let last = &comps[n - 1];
    let is_up = last.len() == 2 && last[0] == '.' && last[1] == '.';
    let is_dot = last.len() == 1 && last[0] == '.';
    let is_root = last.len() == 1 && last[0] == '/';
    assert(cv.last() == last@);
    if is_up || is_dot || is_root {
        if is_up {
            assert(last@ =~= seq!['.', '.']);
        } else if is_dot {
            assert(last@ =~= seq!['.']);
        } else {
            assert(last@ =~= seq!['/']);
        }
        return None;
    }
    assert(names_file(last@)) by {
        if last@ == seq!['.', '.'] {
            assert(last@.len() == 2 && last@[0] == '.' && last@[1] == '.');
        }
        if last@ == seq!['.'] {
            assert(last@.len() == 1 && last@[0] == '.');
        }
        if last@ == seq!['/'] {
            assert(last@.len() == 1 && last@[0] == '/');
        }
    }
    let ghost want = cv.drop_last().map_values(|c: Seq<char>| replaced(c, '-', '_')).push(
        replaced(stem(cv.last()), '-', '_'),
    );
    assert forall|k: int| 0 <= k < n - 1 implies #[trigger] want[k] == replaced(comps@[k]@, '-', '_') by {
        assert(cv.drop_last()[k] == comps@[k]@);
    }
    let mut segs: Vec<Vec<char>> = Vec::new();
    let mut i: usize = 0;
    assert(segs@.map_values(|c: Vec<char>| c@) =~= want.take(0));
    while i < n - 1
        invariant
            i <= n - 1,
            n == comps@.len(),
            n >= 1,
            cv == comps@.map_values(|c: Vec<char>| c@),
            want.len() == n,
            segs@.map_values(|c: Vec<char>| c@) == want.take(i as int),
            forall|k: int| 0 <= k < n - 1 ==> #[trigger] want[k] == replaced(comps@[k]@, '-', '_'),
        decreases n - 1 - i,
    {
        let ghost before = segs@.map_values(|c: Vec<char>| c@);
        let seg = normalized(&comps[i]);
        assert(want[i as int] == seg@);
        segs.push(seg);
        assert(segs@.map_values(|c: Vec<char>| c@) =~= before.push(seg@));
        assert(want.take(i + 1) =~= want.take(i as int).push(want[i as int]));
        i = i + 1;
    }
    let ghost before = segs@.map_values(|c: Vec<char>| c@);
    let seg = normalized(&stem_of(last));
    assert(want[n - 1] == seg@);
    segs.push(seg);
    assert(segs@.map_values(|c: Vec<char>| c@) =~= before.push(seg@));
    assert(want =~= want.take(n - 1).push(want[n - 1]));
    Some(join_segments(&segs))
}

/// Derives a module FQN from a `.pds` path relative to the project root:
/// each directory component becomes a `::`-joined segment and the filename
/// contributes its stem, every hyphen normalised to `_`. `banking/core.pds`
/// gives `banking::core`. Returns `None` when the path has no filename.
pub fn module_fqn(relative: &str) -> (r: Option<String>)
    ensures
        r matches Some(s) ==> fqn_of(components(relative@)) == Some(s@),
        r is None ==> fqn_of(components(relative@)) is None,
{
    let cs = chars_of(relative);
    let comps = path_components(&cs);
    fqn_of_components(&comps)
}

/// The module FQN of `path` inside the project at `root`: its path relative
/// to the root, as [`module_fqn`] names it; none when `path` is not under
/// `root`.
pub open spec fn path_fqn_of(root: Seq<char>, path: Seq<char>) -> Option<Seq<char>> {
    let rc = components(root);
    let pc = components(path);
    if is_absolute(root) == is_absolute(path) && rc.len() <= pc.len() && pc.take(rc.len() as int) == rc {
        fqn_of(pc.skip(rc.len() as int))
    } else {
        None
    }
}

/// The module FQN of `path` inside the project at `root`.
pub fn path_fqn(root: &str, path: &str) -> (r: Option<String>)
    ensures
        r matches Some(s) ==> path_fqn_of(root@, path@) == Some(s@),
        r is None ==> path_fqn_of(root@, path@) is None,
{
    let rcs = chars_of(root);
    let pcs = chars_of(path);
    let root_abs = rcs.len() > 0 && rcs[0] == '/';
    let path_abs = pcs.len() > 0 && pcs[0] == '/';
    if root_abs != path_abs {
        return None;
    }
    let rc = path_components(&rcs);
    let pc = path_components(&pcs);
    let ghost rv = rc@.map_values(|c: Vec<char>| c@);
    let ghost pv = pc@.map_values(|c: Vec<char>| c@);
    if rc.len() > pc.len() {
        return None;
    }
    let mut k: usize = 0;
    while k < rc.len()
        invariant
            k <= rc@.len() <= pc@.len(),
            rv == rc@.map_values(|c: Vec<char>| c@),
            pv == pc@.map_values(|c: Vec<char>| c@),
            forall|q: int| 0 <= q < k ==> #[trigger] rv[q] == pv[q],
            rv == components(root@),
            pv == components(path@),
            is_absolute(root@) == is_absolute(path@),
        decreases rc@.len() - k,
    {
        if !crate::strs::str_eq(string_of(&rc[k]).as_str(), string_of(&pc[k]).as_str()) {
            assert(rv[k as int] == rc@[k as int]@ && pv[k as int] == pc@[k as int]@);
            assert(pv.take(rv.len() as int)[k as int] != rv[k as int]);
            assert(pv.take(rv.len() as int) != rv);
            return None;
        }
        k = k + 1;
    }
    assert(pv.take(rv.len() as int) =~= rv);
    let mut rest: Vec<Vec<char>> = Vec::new();
    let mut i: usize = rc.len();
    while i < pc.len()
        invariant
            rc@.len() <= i <= pc@.len(),
            pv == pc@.map_values(|c: Vec<char>| c@),
            rest@.map_values(|c: Vec<char>| c@) == pv.subrange(rc@.len() as int, i as int),
        decreases pc@.len() - i,
    {
        let mut copy: Vec<char> = Vec::new();
        crate::strs::push_chars(&mut copy, &pc[i]);
        assert(copy@ =~= pv[i as int]);
        let ghost before = rest@.map_values(|c: Vec<char>| c@);
        rest.push(copy);
        assert(rest@.map_values(|c: Vec<char>| c@) =~= before.push(pv[i as int]));
        i = i + 1;
        assert(rest@.map_values(|c: Vec<char>| c@) =~= pv.subrange(rc@.len() as int, i as int));
    }
    assert(pv.subrange(rc@.len() as int, pc@.len() as int) =~= pv.skip(rv.len() as int));
    fqn_of_components(&rest)
}

/// `b` joined onto the path `a`: `b` itself when absolute or when `a` is
/// empty, else `a`, a `/` unless `a` ends in one, and `b`.
pub open spec fn joined_path(a: Seq<char>, b: Seq<char>) -> Seq<char> {
    if is_absolute(b) || a.len() == 0 {
        b
    } else if a.last() == '/' {
        a + b
    } else {
        a + seq!['/'] + b
    }
}

/// Joins `b` onto the path `a`.
fn join_path(a: &str, b: &str) -> (r: String)
    ensures
        r@ == joined_path(a@, b@),
{
    let acs = chars_of(a);
    let bcs = chars_of(b);
    if (bcs.len() > 0 && bcs[0] == '/') || acs.len() == 0 {
        return string_of(&bcs);
    }
    let mut out = string_of(&acs);
    if acs[acs.len() - 1] != '/' {
        push_char(&mut out, '/');
    }
    let mut i: usize = 0;
    let ghost base = out@;
    while i < bcs.len()
        invariant
            i <= bcs@.len(),
            out@ == base + bcs@.take(i as int),
        decreases bcs@.len() - i,
    {
        push_char(&mut out, bcs[i]);
        i = i + 1;
        assert(out@ =~= base + bcs@.take(i as int));
    }
    assert(bcs@.take(bcs@.len() as int) =~= bcs@);
    out
}

/// The workspace manifest path for a fetched package:
/// `<dir>/<sub>/pds.toml`, or `<dir>/pds.toml` for the repository root.
pub fn workspace_manifest(dir: &str, sub: &str) -> (r: String)
    ensures
        r@ == if sub@.len() == 0 {
            joined_path(dir@, "pds.toml"@)
        } else {
            joined_path(joined_path(dir@, sub@), "pds.toml"@)
        },
{
    if sub.unicode_len() == 0 {
        join_path(dir, MANIFEST)
    } else {
        let d = join_path(dir, sub);
        join_path(d.as_str(), MANIFEST)
    }
}

/// `s` holds no hyphen.
pub open spec fn hyphen_free(s: Seq<char>) -> bool {
    forall|i: int| 0 <= i < s.len() ==> s[i] != '-'
}

/// Joining hyphen-free segments by `::` gives a hyphen-free name.
proof fn lemma_join_hyphen_free(segs: Seq<Seq<char>>)
    requires
        forall|k: int| 0 <= k < segs.len() ==> hyphen_free(#[trigger] segs[k]),
    ensures
        hyphen_free(join_fqn(segs)),
    decreases segs.len(),
{
    if segs.len() > 1 {
        lemma_join_hyphen_free(segs.drop_last());
        let j = join_fqn(segs.drop_last());
        let f = j + seq![':', ':'] + segs.last();
        assert forall|i: int| 0 <= i < f.len() implies f[i] != '-' by {
            if i < j.len() {
            } else if i >= j.len() + 2 {
                assert(f[i] == segs.last()[i - j.len() - 2]);
            }
        }
    } else if segs.len() == 1 {
        assert(hyphen_free(segs[0]));
    }
}

/// Every module FQN is hyphen-free: a hyphen in any path segment
/// normalises to `_`.
pub proof fn lemma_fqn_hyphen_free(comps: Seq<Seq<char>>)
    ensures
        fqn_of(comps) matches Some(f) ==> hyphen_free(f),
{
    if comps.len() > 0 && names_file(comps.last()) {
        let segs = comps.drop_last().map_values(|c: Seq<char>| replaced(c, '-', '_')).push(
            replaced(stem(comps.last()), '-', '_'),
        );
        assert forall|k: int| 0 <= k < segs.len() implies hyphen_free(#[trigger] segs[k]) by {
            let c = if k < segs.len() - 1 { comps.drop_last()[k] } else { stem(comps.last()) };
            assert(segs[k] == replaced(c, '-', '_'));
        }
        lemma_join_hyphen_free(segs);
    }
}

} // verus!
