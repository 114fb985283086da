//! Flycast (Dreamcast) launch planning: where the emucap-owned runtime copy of the emulator goes,
//! and the isolated `emu.cfg` it is started with.
use vstd::prelude::*;
use crate::ini::{config_name, find_from, first_line_eq, lines, set_ini, set_ini_result};
use crate::ini_laws::{
    config_headers, config_value, keys_apart, lemma_plain_setting, set_ini_keeps_the_section,
    set_ini_then_read, settled,
};
use crate::text::is_ws;
use crate::text::chars_of;

verus! {

/// A filesystem path as its components: whether it starts at the root, then its names in order.
pub struct PathParts {
    pub absolute: bool,
    pub parts: Vec<String>,
}

/// The views of the strings `v`.
pub open spec fn names(v: Seq<String>) -> Seq<Seq<char>> {
    v.map_values(|p: String| p@)
}

proof fn lemma_names(v: Seq<String>)
    ensures
        names(v).len() == v.len(),
        forall|j: int| 0 <= j < v.len() ==> #[trigger] names(v)[j] == v[j]@,
{
}

impl View for PathParts {
    type V = (bool, Seq<Seq<char>>);

    open spec fn view(&self) -> (bool, Seq<Seq<char>>) {
        (self.absolute, names(self.parts@))
    }
}

/// What the runtime copy of Flycast is, once prepared.
pub struct PreparedRuntimeBinary {
    /// The executable to start.
    pub binary: PathParts,
    /// The emucap-owned directory that holds the copy (and, on Windows, its config).
    pub portable_dir: PathParts,
}

/// The parameters of one Flycast launch.
pub struct Launch<'a> {
    pub binary: &'a PathParts,
    pub content: &'a str,
    pub log_path: &'a PathParts,
    pub port: u16,
    pub name: Option<&'a str>,
    pub session_token: Option<&'a str>,
    /// Mute audio (the default for debugging).
    pub mute: bool,
    /// Enable Flycast's GDB stub (for the exec-breakpoint path).
    pub gdb: bool,
}

/// Whether `c` is `lower` or its ASCII upper-case form.
pub open spec fn ascii_ci_eq(c: char, lower: char) -> bool {
    c == lower || c as int == lower as int - 32
}

/// Whether the file name `name` has the extension `app`, in any ASCII case, as
/// `Path::extension` splits it: the text after the last `.`, with something before that dot.
pub open spec fn is_app_name(name: Seq<char>) -> bool {
    &&& name.len() >= 5
    &&& name[name.len() - 4] == '.'
    &&& ascii_ci_eq(name[name.len() - 3], 'a')
    &&& ascii_ci_eq(name[name.len() - 2], 'p')
    &&& ascii_ci_eq(name[name.len() - 1], 'p')
}

/// Decides [`is_app_name`].
pub fn has_app_extension(name: &str) -> (b: bool)
    ensures
        b == is_app_name(name@),
{
    let v = chars_of(name);
    let n = v.len();
    n >= 5 && v[n - 4] == '.' && (v[n - 3] == 'a' || v[n - 3] == 'A') && (v[n - 2] == 'p'
        || v[n - 2] == 'P') && (v[n - 1] == 'p' || v[n - 1] == 'P')
}

/// The names inside an app bundle that lead to its Flycast executable.
pub open spec fn bundle_executable_parts() -> Seq<Seq<char>> {
    seq![
        seq!['C', 'o', 'n', 't', 'e', 'n', 't', 's'],
        seq!['M', 'a', 'c', 'O', 'S'],
        seq!['F', 'l', 'y', 'c', 'a', 's', 't'],
    ]
}

fn copy_parts(v: &Vec<String>, from: usize, to: usize) -> (r: Vec<String>)
    requires
        from <= to <= v.len(),
    ensures
        names(r@) == names(v@).subrange(
            from as int,
            to as int,
        ),
{
    let mut r: Vec<String> = Vec::new();
    let mut i = from;
    while i < to
        invariant
            from <= i <= to <= v.len(),
            names(r@) == names(v@).subrange(
                from as int,
                i as int,
            ),
        decreases to - i,
    {
        let ghost before = r@;
        r.push(v[i].clone());
        proof {
            assert(r@ == before.push(v@[i as int]));
            lemma_names(r@);
            lemma_names(before);
            lemma_names(v@);
            assert forall|j: int| 0 <= j < r@.len() implies #[trigger] names(r@)[j] == names(
                v@,
            ).subrange(from as int, i + 1)[j] by {
                if j < before.len() {
                    assert(names(before)[j] == names(v@).subrange(from as int, i as int)[j]);
                    assert(r@[j] == before[j]);
                }
            }
            assert(names(r@) =~= names(v@).subrange(
                from as int,
                i + 1,
            ));
        }
        i = i + 1;
    }
    r
}

/// The Flycast executable inside `path`, when `path` names an app bundle
/// (`<bundle>.app/Contents/MacOS/Flycast`); none otherwise.
pub fn app_bundle_executable(path: &PathParts) -> (r: Option<PathParts>)
    ensures
        match r {
            Some(p) => path@.1.len() > 0 && is_app_name(path@.1.last()) && p@ == (
                path@.0,
                path@.1 + bundle_executable_parts(),
            ),
            None => !(path@.1.len() > 0 && is_app_name(path@.1.last())),
        },
{
    let n = path.parts.len();
    if n == 0 || !has_app_extension(path.parts[n - 1].as_str()) {
        return None;
    }
    let mut parts = copy_parts(&path.parts, 0, n);
    let ghost before = parts@;
    let c1 = String::from_str("Contents");
    let c2 = String::from_str("MacOS");
    let c3 = String::from_str("Flycast");
    proof {
        reveal_strlit("Contents");
        reveal_strlit("MacOS");
        reveal_strlit("Flycast");
        assert(c1@ =~= bundle_executable_parts()[0]);
        assert(c2@ =~= bundle_executable_parts()[1]);
        assert(c3@ =~= bundle_executable_parts()[2]);
    }
    parts.push(c1);
    parts.push(c2);
    parts.push(c3);
    proof {
        assert(path@.1.subrange(0, n as int) =~= path@.1);
        lemma_names(parts@);
        lemma_names(before);
        lemma_names(path.parts@);
        assert(names(parts@) =~= path@.1 + bundle_executable_parts());
    }
    Some(PathParts { absolute: path.absolute, parts })
}

/// The number of leading names of `parts` that make up the innermost-to-the-file app bundle:
/// the largest `k` such that name `k - 1` is an app bundle name, if any.
pub open spec fn bundle_depth(parts: Seq<Seq<char>>) -> Option<int>
    decreases parts.len(),
{
    if parts.len() == 0 {
        None
    } else if is_app_name(parts.last()) {
        Some(parts.len() as int)
    } else {
        bundle_depth(parts.drop_last())
    }
}

proof fn lemma_bundle_depth_range(parts: Seq<Seq<char>>)
    ensures
        bundle_depth(parts) matches Some(k) ==> 1 <= k <= parts.len() && is_app_name(
            parts[k - 1],
        ),
    decreases parts.len(),
{
    if parts.len() > 0 && !is_app_name(parts.last()) {
        lemma_bundle_depth_range(parts.drop_last());
        assert(parts.drop_last().len() == parts.len() - 1);
    }
}

/// The deepest ancestor of `binary` (`binary` itself first) that is an app bundle, with the
/// path of `binary` relative to it.
pub fn app_bundle_root(binary: &PathParts) -> (r: Option<(PathParts, PathParts)>)
    ensures
        match bundle_depth(binary@.1) {
            Some(k) => r matches Some((root, rel)) && root@ == (binary@.0, binary@.1.take(k))
                && rel@ == (false, binary@.1.skip(k)),
            None => r is None,
        },
{
    let n = binary.parts.len();
    let mut k = n;
    proof {
        assert(binary@.1.take(n as int) =~= binary@.1);
    }
    while k > 0
        invariant
            k <= n == binary.parts.len(),
            bundle_depth(binary@.1) == bundle_depth(binary@.1.take(k as int)),
        decreases k,
    {
        proof {
            assert(binary@.1.take(k as int).last() == binary.parts@[k - 1]@);
            assert(binary@.1.take(k as int).drop_last() =~= binary@.1.take(k - 1));
        }
        if has_app_extension(binary.parts[k - 1].as_str()) {
            let root = copy_parts(&binary.parts, 0, k);
            let rel = copy_parts(&binary.parts, k, n);
            proof {
                assert(binary@.1.subrange(0, k as int) =~= binary@.1.take(k as int));
                assert(binary@.1.subrange(k as int, n as int) =~= binary@.1.skip(k as int));
            }
            return Some(
                (PathParts { absolute: binary.absolute, parts: root }, PathParts {
                    absolute: false,
                    parts: rel,
                }),
            );
        }
        k = k - 1;
    }
    None
}

/// The name of the emucap-owned directory that holds the runtime copy.
pub open spec fn portable_name() -> Seq<char> {
    seq!['p', 'o', 'r', 't', 'a', 'b', 'l', 'e']
}

/// `<iso_home>/portable`.
pub open spec fn portable_dir_of(iso_home: (bool, Seq<Seq<char>>)) -> (bool, Seq<Seq<char>>) {
    (iso_home.0, iso_home.1.push(portable_name()))
}

/// Whether `base` is a leading part of `p`, component by component (`Path::starts_with`).
pub open spec fn path_starts_with(p: (bool, Seq<Seq<char>>), base: (bool, Seq<Seq<char>>)) -> bool {
    p.0 == base.0 && base.1.len() <= p.1.len() && p.1.take(base.1.len() as int) == base.1
}

/// The last name of `p`, unless `p` ends in `.`, `..` or has no names (`Path::file_name`).
pub open spec fn file_name_of(p: (bool, Seq<Seq<char>>)) -> Option<Seq<char>> {
    if p.1.len() > 0 && p.1.last() != seq!['.'] && p.1.last() != seq!['.', '.'] {
        Some(p.1.last())
    } else {
        None
    }
}

/// The file work that preparing the runtime copy takes.
pub enum RuntimePlan {
    /// The binary already lies inside the portable directory: it is used where it is, once it
    /// is known to reach no symlink there.
    InPlace,
    /// The whole app bundle is copied over `dest`, replacing what was there.
    CopyBundle { bundle: PathParts, dest: PathParts },
    /// The binary alone is copied over `dest`, replacing what was there.
    CopyFile { dest: PathParts },
}

/// Why no runtime copy can be planned.
#[derive(Debug, PartialEq, Eq)]
pub enum PlanError {
    /// The binary path names no file.
    InvalidBinaryPath,
}

/// The plan for `source` under `iso_home`, as a view: the kind of work, with its paths, and the
/// binary that results.
pub open spec fn runtime_plan(source: (bool, Seq<Seq<char>>), iso_home: (bool, Seq<Seq<char>>))
    -> Option<(int, (bool, Seq<Seq<char>>), (bool, Seq<Seq<char>>), (bool, Seq<Seq<char>>))> {
    let portable = portable_dir_of(iso_home);
    if path_starts_with(source, portable) {
        Some((0, source, source, source))
    } else {
        match bundle_depth(source.1) {
            Some(k) => {
                let dest = (portable.0, portable.1.push(source.1[k - 1]));
                Some((1, (source.0, source.1.take(k)), dest, (dest.0, dest.1 + source.1.skip(k))))
            },
            None => match file_name_of(source) {
                Some(f) => {
                    let dest = (portable.0, portable.1.push(f));
                    Some((2, source, dest, dest))
                },
                None => None,
            },
        }
    }
}

fn clone_path(p: &PathParts) -> (r: PathParts)
    ensures
        r@ == p@,
{
    let n = p.parts.len();
    let parts = copy_parts(&p.parts, 0, n);
    proof {
        assert(p@.1.subrange(0, n as int) =~= p@.1);
    }
    PathParts { absolute: p.absolute, parts }
}

/// `base` with the names `names(v)[from..to]` appended.
fn join_parts(base: &PathParts, v: &Vec<String>, from: usize, to: usize) -> (r: PathParts)
    requires
        from <= to <= v.len(),
    ensures
        r@ == (base@.0, base@.1 + names(v@).subrange(from as int, to as int)),
{
    let mut r = clone_path(base);
    let mut i = from;
    while i < to
        invariant
            from <= i <= to <= v.len(),
            r@ == (base@.0, base@.1 + names(v@).subrange(from as int, i as int)),
        decreases to - i,
    {
        let ghost before = r.parts@;
        r.parts.push(v[i].clone());
        proof {
            lemma_names(r.parts@);
            lemma_names(before);
            lemma_names(v@);
            assert(r.parts@ == before.push(v@[i as int]));
            let target = base@.1 + names(v@).subrange(from as int, i + 1);
            assert(names(before) == base@.1 + names(v@).subrange(from as int, i as int));
            assert forall|j: int| 0 <= j < r.parts@.len() implies #[trigger] names(r.parts@)[j]
                == target[j] by {
                if j < before.len() {
                    assert(r.parts@[j] == before[j]);
                    assert(names(before)[j] == target[j]);
                }
            }
            assert(names(r.parts@) =~= target);
        }
        i = i + 1;
    }
    r
}

/// Whether the name is `.` or `..`.
fn is_dot_name(name: &str) -> (b: bool)
    ensures
        b == (name@ == seq!['.'] || name@ == seq!['.', '.']),
{
    let v = chars_of(name);
    proof {
        if v.len() == 1 {
            assert(v@ =~= seq![v@[0]]);
        }
        if v.len() == 2 {
            assert(v@ =~= seq![v@[0], v@[1]]);
        }
    }
    (v.len() == 1 && v[0] == '.') || (v.len() == 2 && v[0] == '.' && v[1] == '.')
}

/// Whether `base` is a leading part of `p` (see [`path_starts_with`]).
pub fn starts_with_path(p: &PathParts, base: &PathParts) -> (b: bool)
    ensures
        b == path_starts_with(p@, base@),
{
    if p.absolute != base.absolute || base.parts.len() > p.parts.len() {
        return false;
    }
    let mut i: usize = 0;
    while i < base.parts.len()
        invariant
            i <= base.parts.len() <= p.parts.len(),
            forall|k: int| 0 <= k < i ==> p@.1[k] == base@.1[k],
        decreases base.parts.len() - i,
    {
        proof {
            lemma_names(p.parts@);
            lemma_names(base.parts@);
        }
        if p.parts[i] != base.parts[i] {
            proof {
                assert(p@.1.take(base@.1.len() as int)[i as int] == p@.1[i as int]);
            }
            return false;
        }
        i = i + 1;
    }
    proof {
        lemma_names(p.parts@);
        lemma_names(base.parts@);
        assert(p@.1.take(base@.1.len() as int) =~= base@.1);
    }
    true
}

/// Plans the emucap-owned runtime copy of the Flycast binary `source` for the isolated home
/// `iso_home` (see [`runtime_plan`]): a binary already inside `<iso_home>/portable` is used in
/// place; one inside an app bundle has the whole bundle copied into the portable directory;
/// any other is copied there alone. Fails when `source` names no file.
pub fn plan_runtime_binary(source: &PathParts, iso_home: &PathParts) -> (r: Result<
    (RuntimePlan, PreparedRuntimeBinary),
    PlanError,
>)
    ensures
        match runtime_plan(source@, iso_home@) {
            Some((kind, from, dest, bin)) => r matches Ok((plan, prepared)) && prepared.binary@
                == bin && prepared.portable_dir@ == portable_dir_of(iso_home@) && match plan {
                RuntimePlan::InPlace => kind == 0,
                RuntimePlan::CopyBundle { bundle, dest: d } => kind == 1 && bundle@ == from
                    && d@ == dest,
                RuntimePlan::CopyFile { dest: d } => kind == 2 && d@ == dest,
            },
            None => r == Err::<(RuntimePlan, PreparedRuntimeBinary), PlanError>(
                PlanError::InvalidBinaryPath,
            ),
        },
{
    let mut portable_dir = clone_path(iso_home);
    let pn = String::from_str("portable");
    proof {
        reveal_strlit("portable");
        assert(pn@ =~= portable_name());
        lemma_names(portable_dir.parts@);
    }
    let ghost before = portable_dir.parts@;
    portable_dir.parts.push(pn);
    proof {
        lemma_names(portable_dir.parts@);
        lemma_names(before);
        assert(names(portable_dir.parts@) =~= names(before).push(portable_name()));
    }
    if starts_with_path(source, &portable_dir) {
        let binary = clone_path(source);
        return Ok((RuntimePlan::InPlace, PreparedRuntimeBinary { binary, portable_dir }));
    }
    let n = source.parts.len();
    match app_bundle_root(source) {
        Some((bundle, _rel)) => {
            proof {
                lemma_bundle_depth_range(source@.1);
                lemma_names(bundle.parts@);
                lemma_names(source.parts@);
            }
            let k = bundle.parts.len();
            let dest = join_parts(&portable_dir, &source.parts, k - 1, k);
            let binary = join_parts(&dest, &source.parts, k, n);
            proof {
                lemma_names(source.parts@);
                assert(names(source.parts@).subrange(k - 1, k as int) =~= seq![source@.1[k - 1]]);
                assert(names(source.parts@).subrange(k as int, n as int) =~= source@.1.skip(
                    k as int,
                ));
            }
            Ok((RuntimePlan::CopyBundle { bundle, dest }, PreparedRuntimeBinary { binary, portable_dir }))
        },
        None => {
            if n == 0 || is_dot_name(source.parts[n - 1].as_str()) {
                proof {
                    lemma_names(source.parts@);
                }
                return Err(PlanError::InvalidBinaryPath);
            }
            let dest = join_parts(&portable_dir, &source.parts, n - 1, n);
            let binary = clone_path(&dest);
            proof {
                lemma_names(source.parts@);
                assert(names(source.parts@).subrange(n - 1, n as int) =~= seq![source@.1.last()]);
            }
            Ok((RuntimePlan::CopyFile { dest }, PreparedRuntimeBinary { binary, portable_dir }))
        },
    }
}

/// `p` with the names `more` appended.
pub open spec fn joined(p: (bool, Seq<Seq<char>>), more: Seq<Seq<char>>) -> (bool, Seq<Seq<char>>) {
    (p.0, p.1 + more)
}

/// The places under the build home where the emucap-owned Flycast build leaves its binary:
/// `work/build/` then `Flycast.app/Contents/MacOS/Flycast`, `flycast` or `Flycast.exe`.
pub open spec fn build_candidates() -> Seq<Seq<Seq<char>>> {
    seq![
        seq!["work"@, "build"@, "Flycast.app"@, "Contents"@, "MacOS"@, "Flycast"@],
        seq!["work"@, "build"@, "flycast"@],
        seq!["work"@, "build"@, "Flycast.exe"@],
    ]
}

/// The places under the home directory where a legacy build leaves its binary:
/// `flycast/build/` then `Flycast.app/Contents/MacOS/Flycast` or `flycast`.
pub open spec fn home_candidates() -> Seq<Seq<Seq<char>>> {
    seq![
        seq!["flycast"@, "build"@, "Flycast.app"@, "Contents"@, "MacOS"@, "Flycast"@],
        seq!["flycast"@, "build"@, "flycast"@],
    ]
}

/// The binaries that resolving Flycast tries, in order, before the platform's default install
/// places and `PATH`: the explicit path (`FLYCAST_APP`) and, for an app bundle, its executable;
/// then the emucap-owned build under `build_home`; then a legacy build under `home`.
pub open spec fn binary_candidate_list(
    explicit: Option<(bool, Seq<Seq<char>>)>,
    build_home: (bool, Seq<Seq<char>>),
    home: Option<(bool, Seq<Seq<char>>)>,
) -> Seq<(bool, Seq<Seq<char>>)> {
    let first = match explicit {
        Some(e) => if e.1.len() > 0 && is_app_name(e.1.last()) {
            seq![e, joined(e, bundle_executable_parts())]
        } else {
            seq![e]
        },
        None => Seq::empty(),
    };
    let built = build_candidates().map_values(|c: Seq<Seq<char>>| joined(build_home, c));
    let legacy = match home {
        Some(h) => home_candidates().map_values(|c: Seq<Seq<char>>| joined(h, c)),
        None => Seq::empty(),
    };
    first + built + legacy
}

/// The views of the paths `v`.
pub open spec fn path_views(v: Seq<PathParts>) -> Seq<(bool, Seq<Seq<char>>)> {
    v.map_values(|p: PathParts| p@)
}

/// `p` with the name `name` appended.
fn with_name(p: PathParts, name: &str) -> (r: PathParts)
    ensures
        r@ == (p@.0, p@.1.push(name@)),
{
    let mut r = p;
    let ghost before = r.parts@;
    r.parts.push(String::from_str(name));
    proof {
        lemma_names(r.parts@);
        lemma_names(before);
        assert forall|j: int| 0 <= j < r.parts@.len() implies #[trigger] names(r.parts@)[j]
            == names(before).push(name@)[j] by {
            if j < before.len() {
                assert(r.parts@[j] == before[j]);
            }
        }
        assert(names(r.parts@) =~= names(before).push(name@));
    }
    r
}

proof fn lemma_path_views_push(v: Seq<PathParts>, x: PathParts)
    ensures
        path_views(v.push(x)) == path_views(v).push(x@),
{
    assert(path_views(v.push(x)) =~= path_views(v).push(x@));
}

/// The binaries to try when resolving Flycast, in order (see [`binary_candidate_list`]).
pub fn binary_candidates(
    explicit: Option<&PathParts>,
    build_home: &PathParts,
    home: Option<&PathParts>,
) -> (r: Vec<PathParts>)
    ensures
        path_views(r@) == binary_candidate_list(
            match explicit {
                Some(e) => Some(e@),
                None => None,
            },
            build_home@,
            match home {
                Some(h) => Some(h@),
                None => None,
            },
        ),
{
    let mut out: Vec<PathParts> = Vec::new();
    if let Some(e) = explicit {
        out.push(clone_path(e));
        if let Some(inner) = app_bundle_executable(e) {
            out.push(inner);
        }
    }
    let ghost ex = match explicit {
        Some(e) => Some(e@),
        None => None,
    };
    let ghost ho = match home {
        Some(h) => Some(h@),
        None => None,
    };
    let ghost first = path_views(out@);
    proof {
        reveal_strlit("Contents");
        reveal_strlit("MacOS");
        reveal_strlit("Flycast");
        match explicit {
            Some(e) => {
                if e@.1.len() > 0 && is_app_name(e@.1.last()) {
                    assert(first =~= seq![e@, joined(e@, bundle_executable_parts())]);
                } else {
                    assert(first =~= seq![e@]);
                }
            },
            None => {
                assert(first =~= Seq::<(bool, Seq<Seq<char>>)>::empty());
            },
        }
    }
    let w = with_name(with_name(clone_path(build_home), "work"), "build");
    let c0 = with_name(with_name(with_name(with_name(clone_path(&w), "Flycast.app"), "Contents"), "MacOS"), "Flycast");
    let c1 = with_name(clone_path(&w), "flycast");
    let c2 = with_name(w, "Flycast.exe");
    proof {
        let bc = build_candidates();
        assert(c0@ == joined(build_home@, bc[0]));
        assert(c1@ == joined(build_home@, bc[1]));
        assert(c2@ == joined(build_home@, bc[2]));
        lemma_path_views_push(out@, c0);
        lemma_path_views_push(out@.push(c0), c1);
        lemma_path_views_push(out@.push(c0).push(c1), c2);
    }
    out.push(c0);
    out.push(c1);
    out.push(c2);
    let ghost built = build_candidates().map_values(|c: Seq<Seq<char>>| joined(build_home@, c));
    proof {
        assert(path_views(out@) =~= first + built);
    }
    if let Some(h) = home {
        let hb = with_name(with_name(clone_path(h), "flycast"), "build");
        let d0 = with_name(with_name(with_name(with_name(clone_path(&hb), "Flycast.app"), "Contents"), "MacOS"), "Flycast");
        let d1 = with_name(hb, "flycast");
        proof {
            let hc = home_candidates();
            assert(d0@ == joined(h@, hc[0]));
            assert(d1@ == joined(h@, hc[1]));
            lemma_path_views_push(out@, d0);
            lemma_path_views_push(out@.push(d0), d1);
        }
        out.push(d0);
        out.push(d1);
        proof {
            assert(path_views(out@) =~= first + built + home_candidates().map_values(
                |c: Seq<Seq<char>>| joined(h@, c),
            ));
        }
    } else {
        proof {
            assert(first + built + Seq::<(bool, Seq<Seq<char>>)>::empty() =~= first + built);
        }
    }
    out
}

/// The operating system family of a launch, as far as where Flycast keeps its config goes.
#[derive(Debug, Clone, Copy, PartialEq, Eq, Structural)]
pub enum HostOs {
    MacOs,
    /// A Unix other than macOS, which follows the XDG base directories.
    Unix,
    Windows,
}

/// The view of an optional path.
pub open spec fn opt_path(o: Option<&PathParts>) -> Option<(bool, Seq<Seq<char>>)> {
    match o {
        Some(p) => Some(p@),
        None => None,
    }
}

/// The directory the isolated Flycast reads `emu.cfg` from: `.flycast` under the isolated home
/// on macOS, `config/flycast` under it on other Unixes, the portable directory on Windows.
pub open spec fn layout_dir(os: HostOs, iso_home: (bool, Seq<Seq<char>>), portable_dir: (
    bool,
    Seq<Seq<char>>,
)) -> (bool, Seq<Seq<char>>) {
    match os {
        HostOs::MacOs => joined(iso_home, seq![".flycast"@]),
        HostOs::Unix => joined(iso_home, seq!["config"@, "flycast"@]),
        HostOs::Windows => portable_dir,
    }
}

/// The environment that points the isolated Flycast at its config: `HOME` on macOS, the XDG
/// config and data homes on other Unixes, nothing on Windows.
pub open spec fn layout_env(os: HostOs, iso_home: (bool, Seq<Seq<char>>)) -> Seq<
    (Seq<char>, (bool, Seq<Seq<char>>)),
> {
    match os {
        HostOs::MacOs => seq![("HOME"@, iso_home)],
        HostOs::Unix => seq![
            ("XDG_CONFIG_HOME"@, joined(iso_home, seq!["config"@])),
            ("XDG_DATA_HOME"@, joined(iso_home, seq!["data"@])),
        ],
        HostOs::Windows => Seq::empty(),
    }
}

/// Where the user's own `emu.cfg` may be, in the order they are tried: on macOS three places
/// under the home directory; on other Unixes `flycast/emu.cfg` under the XDG config home, or
/// else under `.config` in the home directory; on Windows beside the Flycast binary.
pub open spec fn layout_sources(
    os: HostOs,
    home: Option<(bool, Seq<Seq<char>>)>,
    xdg_config_home: Option<(bool, Seq<Seq<char>>)>,
    binary_dir: Option<(bool, Seq<Seq<char>>)>,
) -> Seq<(bool, Seq<Seq<char>>)> {
    match os {
        HostOs::MacOs => match home {
            Some(h) => seq![
                joined(h, seq![".flycast"@, "emu.cfg"@]),
                joined(h, seq!["Library"@, "Application Support"@, "flycast"@, "emu.cfg"@]),
                joined(h, seq!["Library"@, "Application Support"@, "Flycast"@, "emu.cfg"@]),
            ],
            None => Seq::empty(),
        },
        HostOs::Unix => {
            let base = match xdg_config_home {
                Some(x) => Some(x),
                None => match home {
                    Some(h) => Some(joined(h, seq![".config"@])),
                    None => None,
                },
            };
            match base {
                Some(b) => seq![joined(b, seq!["flycast"@, "emu.cfg"@])],
                None => Seq::empty(),
            }
        },
        HostOs::Windows => match binary_dir {
            Some(d) => seq![joined(d, seq!["emu.cfg"@])],
            None => Seq::empty(),
        },
    }
}

/// Where an isolated Flycast reads its config, the environment that points it there, and where
/// the user's own config may be.
pub struct ConfigLayout {
    pub cfg_dir: PathParts,
    pub env: Vec<(String, PathParts)>,
    pub user_sources: Vec<PathParts>,
}

/// The views of environment entries.
pub open spec fn env_views(v: Seq<(String, PathParts)>) -> Seq<(Seq<char>, (bool, Seq<Seq<char>>))> {
    v.map_values(|e: (String, PathParts)| (e.0@, e.1@))
}

proof fn lemma_env_views_push(v: Seq<(String, PathParts)>, x: (String, PathParts))
    ensures
        env_views(v.push(x)) == env_views(v).push((x.0@, x.1@)),
{
    assert(env_views(v.push(x)) =~= env_views(v).push((x.0@, x.1@)));
}

/// The config layout of a launch on `os` with the isolated home `iso_home` and the runtime
/// copy's `portable_dir`, given the user's home directory, XDG config home and the directory of
/// the Flycast binary, where there are any (see [`layout_dir`], [`layout_env`] and
/// [`layout_sources`]).
pub fn config_layout(
    os: HostOs,
    iso_home: &PathParts,
    portable_dir: &PathParts,
    home: Option<&PathParts>,
    xdg_config_home: Option<&PathParts>,
    binary_dir: Option<&PathParts>,
) -> (r: ConfigLayout)
    ensures
        r.cfg_dir@ == layout_dir(os, iso_home@, portable_dir@),
        env_views(r.env@) == layout_env(os, iso_home@),
        path_views(r.user_sources@) == layout_sources(
            os,
            opt_path(home),
            opt_path(xdg_config_home),
            opt_path(binary_dir),
        ),
{
    let mut env: Vec<(String, PathParts)> = Vec::new();
    let mut srcs: Vec<PathParts> = Vec::new();
    proof {
        assert(env_views(env@) =~= Seq::<(Seq<char>, (bool, Seq<Seq<char>>))>::empty());
        assert(path_views(srcs@) =~= Seq::<(bool, Seq<Seq<char>>)>::empty());
    }
    let cfg_dir = match os {
        HostOs::MacOs => {
            let e0 = (String::from_str("HOME"), clone_path(iso_home));
            proof {
                lemma_env_views_push(env@, e0);
            }
            env.push(e0);
            if let Some(h) = home {
                let a = with_name(with_name(clone_path(h), ".flycast"), "emu.cfg");
                let b = with_name(
                    with_name(with_name(with_name(clone_path(h), "Library"), "Application Support"), "flycast"),
                    "emu.cfg",
                );
                let c = with_name(
                    with_name(with_name(with_name(clone_path(h), "Library"), "Application Support"), "Flycast"),
                    "emu.cfg",
                );
                proof {
                    lemma_path_views_push(srcs@, a);
                    lemma_path_views_push(srcs@.push(a), b);
                    lemma_path_views_push(srcs@.push(a).push(b), c);
                    assert(a@ == joined(h@, seq![".flycast"@, "emu.cfg"@]));
                    assert(b@ == joined(h@, seq!["Library"@, "Application Support"@, "flycast"@, "emu.cfg"@]));
                    assert(c@ == joined(h@, seq!["Library"@, "Application Support"@, "Flycast"@, "emu.cfg"@]));
                }
                srcs.push(a);
                srcs.push(b);
                srcs.push(c);
            }
            let d = with_name(clone_path(iso_home), ".flycast");
            proof {
                assert(d@ == joined(iso_home@, seq![".flycast"@]));
            }
            d
        },
        HostOs::Unix => {
            let e0 = (String::from_str("XDG_CONFIG_HOME"), with_name(clone_path(iso_home), "config"));
            let e1 = (String::from_str("XDG_DATA_HOME"), with_name(clone_path(iso_home), "data"));
            proof {
                lemma_env_views_push(env@, e0);
                lemma_env_views_push(env@.push(e0), e1);
                assert(e0.1@ == joined(iso_home@, seq!["config"@]));
                assert(e1.1@ == joined(iso_home@, seq!["data"@]));
            }
            env.push(e0);
            env.push(e1);
            let base = match xdg_config_home {
                Some(x) => Some(clone_path(x)),
                None => match home {
                    Some(h) => Some(with_name(clone_path(h), ".config")),
                    None => None,
                },
            };
            proof {
                if xdg_config_home is None && home is Some {
                    assert(base.unwrap()@ == joined(home.unwrap()@, seq![".config"@]));
                }
            }
            if let Some(b) = base {
                let a = with_name(with_name(b, "flycast"), "emu.cfg");
                proof {
                    lemma_path_views_push(srcs@, a);
                    assert(a@ == joined(b@, seq!["flycast"@, "emu.cfg"@]));
                }
                srcs.push(a);
            }
            let d = with_name(with_name(clone_path(iso_home), "config"), "flycast");
            proof {
                assert(d@ == joined(iso_home@, seq!["config"@, "flycast"@]));
            }
            d
        },
        HostOs::Windows => {
            if let Some(b) = binary_dir {
                let a = with_name(clone_path(b), "emu.cfg");
                proof {
                    lemma_path_views_push(srcs@, a);
                    assert(a@ == joined(b@, seq!["emu.cfg"@]));
                }
                srcs.push(a);
            }
            clone_path(portable_dir)
        },
    };
    ConfigLayout { cfg_dir, env, user_sources: srcs }
}

/// The isolated Flycast reads its config at the place where Flycast reads the user's, once
/// its environment points it at the isolated home. On macOS `HOME` is set to the isolated home,
/// and the isolated config directory lies at the same place under it (`.flycast`) as the
/// user's first config source lies under the user's home; the other two sources are the
/// `flycast` and `Flycast` directories under `Library/Application Support`, each file named
/// `emu.cfg`. On other Unixes the XDG config home is set to `config` under the isolated home,
/// the isolated config directory is `flycast` under it, and the user's config is `flycast/emu.cfg`
/// under the user's XDG config home (`.config` in the home directory when unset). On Windows
/// nothing is set: the config sits beside the executable, in the runtime copy's directory for
/// the isolated Flycast and beside the user's binary for the user's config.
pub proof fn isolated_config_mirrors_user_config(
    iso: (bool, Seq<Seq<char>>),
    portable: (bool, Seq<Seq<char>>),
    h: (bool, Seq<Seq<char>>),
    x: (bool, Seq<Seq<char>>),
    d: (bool, Seq<Seq<char>>),
)
    ensures
        ({
            let rel = seq![".flycast"@];
            let s = layout_sources(HostOs::MacOs, Some(h), None, None);
            &&& layout_env(HostOs::MacOs, iso) == seq![("HOME"@, iso)]
            &&& layout_dir(HostOs::MacOs, iso, portable) == joined(iso, rel)
            &&& s.len() == 3
            &&& s[0] == joined(h, rel.push("emu.cfg"@))
            &&& s[1] == joined(h, seq!["Library"@, "Application Support"@, "flycast"@, "emu.cfg"@])
            &&& s[2] == joined(h, seq!["Library"@, "Application Support"@, "Flycast"@, "emu.cfg"@])
        }),
        layout_sources(HostOs::MacOs, None, Some(x), Some(d)).len() == 0,
        ({
            let env = layout_env(HostOs::Unix, iso);
            &&& env.len() == 2
            &&& env[0].0 == "XDG_CONFIG_HOME"@
            &&& env[1].0 == "XDG_DATA_HOME"@
            &&& env[0].1 == joined(iso, seq!["config"@])
            &&& env[1].1 == joined(iso, seq!["data"@])
            &&& layout_dir(HostOs::Unix, iso, portable) == joined(env[0].1, seq!["flycast"@])
            &&& layout_sources(HostOs::Unix, Some(h), Some(x), None) == seq![
                joined(x, seq!["flycast"@, "emu.cfg"@]),
            ]
            &&& layout_sources(HostOs::Unix, Some(h), None, Some(d)) == seq![
                joined(joined(h, seq![".config"@]), seq!["flycast"@, "emu.cfg"@]),
            ]
            &&& layout_sources(HostOs::Unix, None, None, Some(d)).len() == 0
        }),
        layout_env(HostOs::Windows, iso).len() == 0,
        layout_dir(HostOs::Windows, iso, portable) == portable,
        layout_sources(HostOs::Windows, Some(h), Some(x), Some(d)) == seq![joined(d, seq!["emu.cfg"@])],
        layout_sources(HostOs::Windows, Some(h), Some(x), None).len() == 0,
{
    assert(seq![".flycast"@].push("emu.cfg"@) =~= seq![".flycast"@, "emu.cfg"@]);
}

/// The views of optional paths.
pub open spec fn opt_paths(v: Seq<Option<PathParts>>) -> Seq<Option<(bool, Seq<Seq<char>>)>> {
    v.map_values(
        |o: Option<PathParts>|
            match o {
                Some(p) => Some(p@),
                None => None,
            },
    )
}

/// The default Windows install places under the directories `bases` (the values of
/// `LOCALAPPDATA`, `ProgramFiles`, `ProgramFiles(x86)` and `USERPROFILE`, where set): under each,
/// `Programs/Flycast/Flycast.exe`, then `Flycast/Flycast.exe`.
pub open spec fn windows_install_candidates(bases: Seq<Option<(bool, Seq<Seq<char>>)>>) -> Seq<
    (bool, Seq<Seq<char>>),
>
    decreases bases.len(),
{
    if bases.len() == 0 {
        Seq::empty()
    } else {
        let prev = windows_install_candidates(bases.drop_last());
        match bases.last() {
            Some(b) => prev.push(joined(b, seq!["Programs"@, "Flycast"@, "Flycast.exe"@])).push(
                joined(b, seq!["Flycast"@, "Flycast.exe"@]),
            ),
            None => prev,
        }
    }
}

/// The places where `os` installs Flycast by default, in the order they are tried: the
/// application bundle's executable on macOS, the places under `windows_bases` on Windows (see
/// [`windows_install_candidates`]), and `.local/bin/flycast` under the home directory on other
/// Unixes.
pub open spec fn install_candidate_list(
    os: HostOs,
    windows_bases: Seq<Option<(bool, Seq<Seq<char>>)>>,
    home: Option<(bool, Seq<Seq<char>>)>,
) -> Seq<(bool, Seq<Seq<char>>)> {
    match os {
        HostOs::MacOs => seq![
            (true, seq!["Applications"@, "Flycast.app"@, "Contents"@, "MacOS"@, "Flycast"@]),
        ],
        HostOs::Windows => windows_install_candidates(windows_bases),
        HostOs::Unix => match home {
            Some(h) => seq![joined(h, seq![".local"@, "bin"@, "flycast"@])],
            None => Seq::empty(),
        },
    }
}

/// The default install places of Flycast on `os` (see [`install_candidate_list`]).
pub fn install_candidates(
    os: HostOs,
    windows_bases: &Vec<Option<PathParts>>,
    home: Option<&PathParts>,
) -> (r: Vec<PathParts>)
    ensures
        path_views(r@) == install_candidate_list(os, opt_paths(windows_bases@), opt_path(home)),
{
    let mut out: Vec<PathParts> = Vec::new();
    proof {
        assert(path_views(out@) =~= Seq::<(bool, Seq<Seq<char>>)>::empty());
    }
    match os {
        HostOs::MacOs => {
            let root = PathParts { absolute: true, parts: Vec::new() };
            proof {
                assert(root@ =~= (true, Seq::<Seq<char>>::empty()));
            }
            let a = with_name(
                with_name(with_name(with_name(with_name(root, "Applications"), "Flycast.app"), "Contents"), "MacOS"),
                "Flycast",
            );
            proof {
                lemma_path_views_push(out@, a);
                assert(a@ =~= (true, seq!["Applications"@, "Flycast.app"@, "Contents"@, "MacOS"@, "Flycast"@]));
            }
            out.push(a);
        },
        HostOs::Windows => {
            let mut i: usize = 0;
            proof {
                assert(opt_paths(windows_bases@.take(0)) =~= Seq::<Option<(bool, Seq<Seq<char>>)>>::empty());
            }
            while i < windows_bases.len()
                invariant
                    i <= windows_bases.len(),
                    path_views(out@) == windows_install_candidates(opt_paths(windows_bases@.take(i as int))),
                decreases windows_bases.len() - i,
            {
                proof {
                    assert(opt_paths(windows_bases@.take(i + 1)).drop_last() =~= opt_paths(
                        windows_bases@.take(i as int),
                    ));
                }
                match &windows_bases[i] {
                    Some(b) => {
                        let a = with_name(with_name(with_name(clone_path(b), "Programs"), "Flycast"), "Flycast.exe");
                        let c = with_name(with_name(clone_path(b), "Flycast"), "Flycast.exe");
                        proof {
                            lemma_path_views_push(out@, a);
                            lemma_path_views_push(out@.push(a), c);
                            assert(a@ == joined(b@, seq!["Programs"@, "Flycast"@, "Flycast.exe"@]));
                            assert(c@ == joined(b@, seq!["Flycast"@, "Flycast.exe"@]));
                        }
                        out.push(a);
                        out.push(c);
                    },
                    None => {},
                }
                i = i + 1;
            }
            proof {
                assert(windows_bases@.take(windows_bases.len() as int) =~= windows_bases@);
            }
        },
        HostOs::Unix => {
            if let Some(h) = home {
                let a = with_name(with_name(with_name(clone_path(h), ".local"), "bin"), "flycast");
                proof {
                    lemma_path_views_push(out@, a);
                    assert(a@ == joined(h@, seq![".local"@, "bin"@, "flycast"@]));
                }
                out.push(a);
            }
        },
    }
    out
}

/// The isolated `emu.cfg` for a launch, seeded from the user's config `user_cfg` (empty when the
/// user has none): a `[config]` header is put in front unless the text holds one, then the
/// interpreter is selected, audio muted or not, and the GDB stub enabled or not.
pub open spec fn seeded_config(user_cfg: Seq<char>, mute: bool, gdb: bool) -> Seq<char> {
    let t0 = if find_from(user_cfg, "[config]"@, 0) is Some {
        user_cfg
    } else {
        "[config]\n"@ + user_cfg
    };
    let t1 = set_ini_result(t0, "Dynarec.Enabled"@, "no"@);
    let t2 = set_ini_result(t1, "aica.Volume"@, if mute { "0"@ } else { "100"@ });
    set_ini_result(t2, "Debug.GDBEnabled"@, if gdb { "yes"@ } else { "no"@ })
}

proof fn lemma_literal_plain(key: Seq<char>, value: Seq<char>)
    requires
        key.len() > 0,
        value.len() > 0,
        !is_ws(key[0]),
        !is_ws(value.last()),
        value.last() != ']',
        forall|i: int| 0 <= i < key.len() ==> key[i] != '\n',
        forall|i: int| 0 <= i < value.len() ==> value[i] != '\n',
    ensures
        crate::ini_laws::plain_setting(key, value),
{
    lemma_plain_setting(key, value);
}

/// Seeding keeps the user's own `[config]` section: for a user config that holds a `[config]`
/// header line (and so the text `[config]`) and none of whose lines keeps a carriage return at
/// its end, no header is added. The lines up to and including the first header line stay as
/// they are, that line stays the first header line, the text holds as many `[config]` header
/// lines as the user's, and the section reads back the interpreter selected, audio muted or
/// not, and the GDB stub enabled or not.
pub proof fn seeding_keeps_the_users_config_section(user_cfg: Seq<char>, mute: bool, gdb: bool)
    requires
        settled(user_cfg),
        first_line_eq(lines(user_cfg), config_name(), 0) is Some,
        find_from(user_cfg, "[config]"@, 0) is Some,
    ensures
        ({
            let s = seeded_config(user_cfg, mute, gdb);
            let h = first_line_eq(lines(user_cfg), config_name(), 0).unwrap();
            &&& first_line_eq(lines(s), config_name(), 0) == Some(h)
            &&& lines(s).take(h + 1) == lines(user_cfg).take(h + 1)
            &&& config_headers(lines(s)) == config_headers(lines(user_cfg))
            &&& settled(s)
            &&& config_value(s, "Dynarec.Enabled"@) == Some("no"@)
            &&& config_value(s, "aica.Volume"@) == Some(
                if mute {
                    "0"@
                } else {
                    "100"@
                },
            )
            &&& config_value(s, "Debug.GDBEnabled"@) == Some(
                if gdb {
                    "yes"@
                } else {
                    "no"@
                },
            )
        }),
{
    reveal_strlit("Dynarec.Enabled");
    reveal_strlit("aica.Volume");
    reveal_strlit("Debug.GDBEnabled");
    reveal_strlit("no");
    reveal_strlit("0");
    reveal_strlit("100");
    reveal_strlit("yes");
    let d = "Dynarec.Enabled"@;
    let a = "aica.Volume"@;
    let g = "Debug.GDBEnabled"@;
    let vd = "no"@;
    let va = if mute {
        "0"@
    } else {
        "100"@
    };
    let vg = if gdb {
        "yes"@
    } else {
        "no"@
    };
    lemma_literal_plain(d, vd);
    lemma_literal_plain(a, va);
    lemma_literal_plain(g, vg);
    assert(d[0] != a[0]);
    assert(a[0] != d[0]);
    assert(d[1] != g[1]);
    assert(g[1] != d[1]);
    assert(a[0] != g[0]);
    assert(g[0] != a[0]);
    assert(keys_apart(d, a));
    assert(keys_apart(a, d));
    assert(keys_apart(g, d));
    assert(keys_apart(g, a));
    let t0 = user_cfg;
    let t1 = set_ini_result(t0, d, vd);
    let t2 = set_ini_result(t1, a, va);
    let t3 = set_ini_result(t2, g, vg);
    assert(seeded_config(user_cfg, mute, gdb) == t3);
    set_ini_then_read(t0, d, vd);
    set_ini_keeps_the_section(t0, d, vd, a);
    set_ini_then_read(t1, a, va);
    set_ini_keeps_the_section(t1, a, va, d);
    set_ini_then_read(t2, g, vg);
    set_ini_keeps_the_section(t2, g, vg, d);
    set_ini_keeps_the_section(t2, g, vg, a);
}

/// Builds the isolated `emu.cfg` text for launch `l` (see [`seeded_config`]).
pub fn seed_config(l: &Launch, user_cfg: &str) -> (r: String)
    ensures
        r@ == seeded_config(user_cfg@, l.mute, l.gdb),
{
    let v = chars_of(user_cfg);
    let header = chars_of("[config]");
    let mut text = if crate::ini::find_first(&v, &header).is_some() {
        String::from_str(user_cfg)
    } else {
        let mut t = String::from_str("[config]\n");
        t.append(user_cfg);
        t
    };
    set_ini(&mut text, "Dynarec.Enabled", "no");
    set_ini(&mut text, "aica.Volume", if l.mute { "0" } else { "100" });
    set_ini(&mut text, "Debug.GDBEnabled", if l.gdb { "yes" } else { "no" });
    text
}

} // verus!
