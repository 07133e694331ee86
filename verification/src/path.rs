//! The path resolver: derives an ordered list of candidate directories from
//! an [`Environment`] snapshot and picks the first candidate file that the
//! caller reports as present on disk.

use vstd::prelude::*;

use crate::environment::Environment;
use crate::environment::EnvironmentView;
use crate::text::{
    digit_char, drop_prefixes, find_line_with_prefix, first_line_with_prefix, is_digit,
    join_hyphen, join_with, last_index_of, lemma_last_index_of, lemma_split_on_first,
    lemma_split_on_len, lemma_split_on_no_sep, rfind_char, split_on, split_str, str_eq,
    strip_prefixes, trim, trimmed,
};

verus! {

// ---------------------------------------------------------------------------
// Path segments
// ---------------------------------------------------------------------------
// A path is modelled as a plain string of segments separated by `/`, with no
// normalization: a trailing `/` reads as a final empty segment and a leading
// `/` as an empty first segment, so `parent_dir("/a")` is `""` (not `"/"`)
// and `base_name("a/b/")` is empty. Inputs are expected in canonical form,
// without trailing separators.

/// Everything before the last `/`, or the empty string when there is none:
/// one step up from `p`.
pub open spec fn parent_dir(p: Seq<char>) -> Seq<char> {
    if last_index_of(p, '/') < 0 {
        Seq::empty()
    } else {
        p.take(last_index_of(p, '/'))
    }
}

/// Everything after the last `/`: the final segment of `p`, possibly empty.
pub open spec fn base_name(p: Seq<char>) -> Seq<char> {
    p.skip(last_index_of(p, '/') + 1)
}

/// `b` appended to `a` as one more segment; a path with no segments so far
/// gains no separator.
pub open spec fn join_path(a: Seq<char>, b: Seq<char>) -> Seq<char> {
    if a.len() == 0 {
        b
    } else {
        a + seq!['/'] + b
    }
}

/// One step up from `p`: the path without its final segment.
pub fn parent_dir_of(p: &str) -> (r: String)
    ensures
        r@ == parent_dir(p@),
{
    proof {
        lemma_last_index_of(p@, '/');
    }
    match rfind_char(p, '/') {
        Some(j) => p.substring_char(0, j).to_owned(),
        None => String::new(),
    }
}

/// The final segment of `p`, when it is not empty.
pub fn file_name_of(p: &str) -> (r: Option<String>)
    ensures
        match r {
            Some(f) => f@ == base_name(p@) && base_name(p@).len() > 0,
            None => base_name(p@).len() == 0,
        },
{
    proof {
        lemma_last_index_of(p@, '/');
    }
    let n = p.unicode_len();
    let start: usize = match rfind_char(p, '/') {
        Some(j) => j + 1,
        None => 0,
    };
    proof {
        assert(p@.skip(start as int) =~= p@.subrange(start as int, n as int));
    }
    if start == n {
        None
    } else {
        Some(p.substring_char(start, n).to_owned())
    }
}

/// Appends `b` to `a` as one more path segment.
pub fn path_join(a: &str, b: &str) -> (r: String)
    ensures
        r@ == join_path(a@, b@),
{
    if a.unicode_len() == 0 {
        b.to_owned()
    } else {
        proof {
            reveal_strlit("/");
            assert("/"@ =~= seq!['/']);
        }
        let mut r = a.to_owned();
        r.append("/");
        r.append(b);
        r
    }
}

// ---------------------------------------------------------------------------
// Toolchain identifiers
// ---------------------------------------------------------------------------
// An identifier is hyphen-delimited: a release channel, then optional
// version or date segments that begin with a decimal digit, then the
// architecture triple.

/// A segment that architecture extraction skips after the channel: one that
/// begins with a decimal digit.
pub open spec fn skipped_segment(seg: Seq<char>) -> bool {
    seg.len() > 0 && is_digit(seg[0])
}

/// Drops the leading run of skipped segments.
pub open spec fn drop_version_segments(parts: Seq<Seq<char>>) -> Seq<Seq<char>>
    decreases parts.len(),
{
    if parts.len() > 0 && skipped_segment(parts[0]) {
        drop_version_segments(parts.drop_first())
    } else {
        parts
    }
}

/// The architecture triple carried by a toolchain identifier: split on
/// hyphens, drop the channel, drop the leading version or date segments,
/// rejoin what remains.
pub open spec fn arch_of_toolchain(tc: Seq<char>) -> Seq<char> {
    join_with(drop_version_segments(split_on(tc, '-').drop_first()), '-')
}

proof fn lemma_drop_version_segments(parts: Seq<Seq<char>>, i: int)
    requires
        0 <= i <= parts.len(),
        forall|k: int| 0 <= k < i ==> skipped_segment(#[trigger] parts[k]),
        i < parts.len() ==> !skipped_segment(parts[i]),
    ensures
        drop_version_segments(parts) == parts.skip(i),
    decreases i,
{
    if i == 0 {
        assert(parts.skip(0) =~= parts);
    } else {
        lemma_drop_version_segments(parts.drop_first(), i - 1);
        assert(parts.drop_first().skip(i - 1) =~= parts.skip(i));
    }
}

/// Whether extraction skips this segment: digit-led.
pub fn skipped_seg(seg: &str) -> (r: bool)
    ensures
        r == skipped_segment(seg@),
{
    let n = seg.unicode_len();
    if n == 0 {
        false
    } else {
        digit_char(seg.get_char(0))
    }
}

/// The architecture triple named by a toolchain identifier.
pub fn extract_arch(toolchain: &str) -> (r: String)
    ensures
        r@ == arch_of_toolchain(toolchain@),
{
    let parts = split_str(toolchain, '-');
    proof {
        lemma_split_on_len(toolchain@, '-');
    }
    let mut i: usize = 1;
    while i < parts.len() && skipped_seg(parts[i].as_str())
        invariant
            parts.deep_view() == split_on(toolchain@, '-'),
            1 <= i <= parts@.len(),
            forall|k: int| 1 <= k < i ==> skipped_segment(#[trigger] parts.deep_view()[k]),
        decreases parts@.len() - i,
    {
        i += 1;
    }
    proof {
        let pv = parts.deep_view();
        let tail = pv.drop_first();
        assert(tail =~= pv.skip(1));
        assert forall|k: int| 0 <= k < i - 1 implies skipped_segment(#[trigger] tail[k]) by {
            assert(tail[k] == pv[k + 1]);
        }
        if i < pv.len() {
            assert(tail[i - 1] == pv[i as int]);
        }
        lemma_drop_version_segments(tail, i - 1);
        assert(tail.skip(i - 1) =~= pv.skip(i as int));
    }
    let mut rest: Vec<String> = Vec::new();
    proof {
        assert(rest.deep_view() =~= parts.deep_view().subrange(i as int, i as int));
    }
    let mut j: usize = i;
    while j < parts.len()
        invariant
            i <= j <= parts@.len(),
            rest.deep_view() == parts.deep_view().subrange(i as int, j as int),
            parts.deep_view() == split_on(toolchain@, '-'),
        decreases parts@.len() - j,
    {
        let ghost rd = rest.deep_view();
        rest.push(parts[j].clone());
        proof {
            assert(rest.deep_view() =~= rd.push(parts.deep_view()[j as int]));
            assert(rest.deep_view() =~= parts.deep_view().subrange(i as int, j + 1));
        }
        j += 1;
    }
    proof {
        assert(parts.deep_view().subrange(i as int, parts@.len() as int) =~= parts.deep_view().skip(
            i as int,
        ));
    }
    join_hyphen(&rest)
}

// ---------------------------------------------------------------------------
// The shape law for architecture extraction
// ---------------------------------------------------------------------------

/// Splitting undoes joining when no part contains the separator.
pub proof fn lemma_split_join_inverse(parts: Seq<Seq<char>>, c: char)
    requires
        parts.len() > 0,
        forall|k: int| 0 <= k < parts.len() ==> !(#[trigger] parts[k]).contains(c),
    ensures
        split_on(join_with(parts, c), c) == parts,
    decreases parts.len(),
{
    let j = join_with(parts, c);
    let p0 = parts[0];
    assert forall|k: int| 0 <= k < p0.len() implies p0[k] != c by {
        if p0[k] == c {
            assert(p0.contains(c));
        }
    }
    if parts.len() == 1 {
        assert(j == p0);
        lemma_split_on_no_sep(j, c);
        assert(seq![p0] =~= parts);
    } else {
        let rest = parts.drop_first();
        assert(j == p0 + seq![c] + join_with(rest, c));
        assert(j[p0.len() as int] == c);
        assert forall|k: int| 0 <= k < p0.len() implies j[k] != c by {
            assert(j[k] == p0[k]);
        }
        lemma_split_on_first(j, c, p0.len() as int);
        assert(j.take(p0.len() as int) =~= p0);
        assert(j.skip(p0.len() as int + 1) =~= join_with(rest, c));
        assert forall|k: int| 0 <= k < rest.len() implies !(#[trigger] rest[k]).contains(c) by {
            assert(rest[k] == parts[k + 1]);
        }
        lemma_split_join_inverse(rest, c);
        assert(seq![p0] + rest =~= parts);
    }
}

proof fn lemma_drop_version_concat(versions: Seq<Seq<char>>, arch: Seq<Seq<char>>)
    requires
        forall|k: int| 0 <= k < versions.len() ==> skipped_segment(#[trigger] versions[k]),
        arch.len() > 0,
        !skipped_segment(arch[0]),
    ensures
        drop_version_segments(versions + arch) == arch,
    decreases versions.len(),
{
    if versions.len() == 0 {
        assert(versions + arch =~= arch);
    } else {
        assert((versions + arch)[0] == versions[0]);
        assert((versions + arch).drop_first() =~= versions.drop_first() + arch);
        lemma_drop_version_concat(versions.drop_first(), arch);
    }
}

/// Law: for any toolchain identifier assembled from a channel, any number of
/// version or date segments that begin with a decimal digit, and a non-empty
/// architecture triple whose first segment does not, architecture extraction
/// returns exactly the triple.
pub proof fn lemma_arch_of_well_formed_toolchain(
    channel: Seq<char>,
    versions: Seq<Seq<char>>,
    arch: Seq<Seq<char>>,
)
    requires
        !channel.contains('-'),
        forall|k: int| 0 <= k < versions.len() ==> {
            &&& !(#[trigger] versions[k]).contains('-')
            &&& versions[k].len() > 0
            &&& is_digit(versions[k][0])
        },
        arch.len() > 0,
        forall|k: int| 0 <= k < arch.len() ==> !(#[trigger] arch[k]).contains('-'),
        arch[0].len() > 0,
        !is_digit(arch[0][0]),
    ensures
        arch_of_toolchain(join_with(seq![channel] + versions + arch, '-')) == join_with(arch, '-'),
{
    let parts = seq![channel] + versions + arch;
    assert forall|k: int| 0 <= k < parts.len() implies !(#[trigger] parts[k]).contains('-') by {
        if k == 0 {
            assert(parts[k] == channel);
        } else if k < 1 + versions.len() {
            assert(parts[k] == versions[k - 1]);
        } else {
            assert(parts[k] == arch[k - 1 - versions.len()]);
        }
    }
    lemma_split_join_inverse(parts, '-');
    assert(parts.drop_first() =~= versions + arch);
    lemma_drop_version_concat(versions, arch);
}

// ---------------------------------------------------------------------------
// Errors
// ---------------------------------------------------------------------------

/// Why resolution failed.
pub enum ResolveError {
    /// The version-manager root is configured but its companion
    /// active-toolchain variable is missing: the environment is corrupt.
    InconsistentEnvironment,
    /// No candidate directory held the library under any recognized file
    /// name; carries every probed directory, in generation order.
    NotFound(Vec<String>),
}

/// The version-manager root is set without its active-toolchain companion.
pub open spec fn env_inconsistent(e: EnvironmentView) -> bool {
    e.rustup_home is Some && e.rustup_toolchain is None
}

// ---------------------------------------------------------------------------
// Candidate directories, strategy by strategy
// ---------------------------------------------------------------------------

/// The `lib/rustlib/<arch>/codegen-backends` suffix under a toolchain root.
pub open spec fn rustlib_candidate(base: Seq<char>, arch: Seq<char>) -> Seq<char> {
    join_path(join_path(join_path(join_path(base, "lib"@), "rustlib"@), arch), "codegen-backends"@)
}

fn rustlib_candidate_of(base: &str, arch: &str) -> (r: String)
    ensures
        r@ == rustlib_candidate(base@, arch@),
{
    let a = path_join(base, "lib");
    let b = path_join(a.as_str(), "rustlib");
    let c = path_join(b.as_str(), arch);
    path_join(c.as_str(), "codegen-backends")
}

/// For every directory on the executable search path: its parent, plus a
/// `codegen-backends` segment.
pub open spec fn search_path_items(items: Seq<Seq<char>>) -> Seq<Seq<char>>
    decreases items.len(),
{
    if items.len() == 0 {
        Seq::empty()
    } else {
        seq![join_path(parent_dir(items[0]), "codegen-backends"@)] + search_path_items(
            items.drop_first(),
        )
    }
}

pub open spec fn search_path_strategy(e: EnvironmentView) -> Seq<Seq<char>> {
    match e.path {
        Some(p) => search_path_items(split_on(p, ':')),
        None => Seq::empty(),
    }
}

/// Under the version-manager root: `toolchains/<id>/lib/rustlib/<arch>/...`,
/// with the architecture parsed from the active toolchain identifier. Only
/// meaningful when the environment is consistent.
pub open spec fn rustup_home_strategy(e: EnvironmentView) -> Seq<Seq<char>> {
    match (e.rustup_home, e.rustup_toolchain) {
        (Some(home), Some(tc)) => seq![
            rustlib_candidate(
                join_path(join_path(home, "toolchains"@), tc),
                arch_of_toolchain(tc),
            ),
        ],
        _ => Seq::empty(),
    }
}

/// One shared-library search-path entry: its parent is taken for a toolchain
/// root and the parent's final segment for a toolchain identifier.
pub open spec fn ld_item(item: Seq<char>) -> Seq<Seq<char>> {
    let parent = parent_dir(item);
    if base_name(parent).len() > 0 {
        seq![rustlib_candidate(parent, arch_of_toolchain(base_name(parent)))]
    } else {
        Seq::empty()
    }
}

pub open spec fn ld_items(items: Seq<Seq<char>>) -> Seq<Seq<char>>
    decreases items.len(),
{
    if items.len() == 0 {
        Seq::empty()
    } else {
        ld_item(items[0]) + ld_items(items.drop_first())
    }
}

pub open spec fn ld_library_strategy(e: EnvironmentView) -> Seq<Seq<char>> {
    match e.ld_library_path {
        Some(l) => ld_items(split_on(l, ':')),
        None => Seq::empty(),
    }
}

/// Two directories up from the build tool; the host override wins over the
/// architecture parsed from that directory's final segment.
pub open spec fn cargo_strategy(e: EnvironmentView) -> Seq<Seq<char>> {
    match e.cargo {
        Some(cargo) => {
            let base = parent_dir(parent_dir(cargo));
            if base_name(base).len() > 0 {
                let arch = match e.host {
                    Some(h) => h,
                    None => arch_of_toolchain(base_name(base)),
                };
                seq![rustlib_candidate(base, arch)]
            } else {
                Seq::empty()
            }
        },
        None => Seq::empty(),
    }
}

/// The compiler consulted for introspection: the explicit override, else the
/// one the version manager reports (trimmed).
pub open spec fn resolved_rustc(e: EnvironmentView) -> Option<Seq<char>> {
    match e.rustc {
        Some(r) => Some(r),
        None => match e.rustup_which_rustc {
            Some(o) => Some(trimmed(o)),
            None => None,
        },
    }
}

/// The architecture for the compiler-introspection strategy, by preference
/// order: the host override; else the `host:` line of the verbose version
/// report; else — when there is no report or it carries no such line — the
/// installation root's final segment read as a toolchain identifier.
pub open spec fn arch_for_sysroot(e: EnvironmentView, sysroot: Seq<char>) -> Option<Seq<char>> {
    match e.host {
        Some(h) => Some(h),
        None => {
            let host_line = match e.rustc_verbose_version {
                Some(vv) => first_line_with_prefix(split_on(vv, '\n'), "host"@),
                None => None,
            };
            match host_line {
                Some(line) => Some(trimmed(drop_prefixes(line, "host:"@))),
                None => {
                    let name = base_name(sysroot);
                    if name.len() > 0 {
                        Some(arch_of_toolchain(name))
                    } else {
                        None
                    }
                },
            }
        },
    }
}

/// Under the resolved compiler's installation root, when both the compiler
/// and its reported root are known and an architecture can be determined.
pub open spec fn rustc_strategy(e: EnvironmentView) -> Seq<Seq<char>> {
    match resolved_rustc(e) {
        None => Seq::empty(),
        Some(_) => match e.rustc_sysroot {
            None => Seq::empty(),
            Some(raw) => {
                let sysroot = trimmed(raw);
                match arch_for_sysroot(e, sysroot) {
                    Some(arch) => seq![rustlib_candidate(sysroot, arch)],
                    None => Seq::empty(),
                }
            },
        },
    }
}

/// Two directories up from the compiler the version manager reports, with
/// the architecture parsed from that directory's final segment.
pub open spec fn rustup_which_strategy(e: EnvironmentView) -> Seq<Seq<char>> {
    match e.rustup_which_rustc {
        Some(raw) => {
            let base = parent_dir(parent_dir(trimmed(raw)));
            if base_name(base).len() > 0 {
                seq![rustlib_candidate(base, arch_of_toolchain(base_name(base)))]
            } else {
                Seq::empty()
            }
        },
        None => Seq::empty(),
    }
}

/// Every candidate directory, in strategy priority order.
pub open spec fn spec_candidates(e: EnvironmentView) -> Seq<Seq<char>> {
    search_path_strategy(e) + rustup_home_strategy(e) + ld_library_strategy(e) + cargo_strategy(e)
        + rustc_strategy(e) + rustup_which_strategy(e)
}

/// Law: candidate generation is a function of the environment snapshot
/// alone, so two resolutions over equal snapshots probe the identical
/// directory sequence.
pub proof fn lemma_candidates_deterministic(a: EnvironmentView, b: EnvironmentView)
    requires
        a == b,
    ensures
        spec_candidates(a) == spec_candidates(b),
{
}

// ---------------------------------------------------------------------------
// Collecting the candidates
// ---------------------------------------------------------------------------

fn search_path_candidates(env: &Environment) -> (r: Vec<String>)
    ensures
        r.deep_view() == search_path_strategy(env@),
{
    let mut r: Vec<String> = Vec::new();
    match &env.path {
        None => {
            proof {
                assert(r.deep_view() =~= search_path_strategy(env@));
            }
            r
        },
        Some(p) => {
            let items = split_str(p.as_str(), ':');
            let ghost iv = items.deep_view();
            proof {
                assert(iv.skip(0) =~= iv);
                assert(r.deep_view() + search_path_items(iv) =~= search_path_items(iv));
            }
            let mut i: usize = 0;
            while i < items.len()
                invariant
                    i <= items@.len(),
                    items.deep_view() == iv,
                    search_path_items(iv) == r.deep_view() + search_path_items(
                        iv.skip(i as int),
                    ),
                decreases items@.len() - i,
            {
                let parent = parent_dir_of(items[i].as_str());
                let cand = path_join(parent.as_str(), "codegen-backends");
                let ghost rd = r.deep_view();
                r.push(cand);
                proof {
                    let sk = iv.skip(i as int);
                    assert(sk[0] == iv[i as int]);
                    assert(sk.drop_first() =~= iv.skip(i + 1));
                    assert(r.deep_view() =~= rd.push(cand@));
                    assert(rd + search_path_items(sk) =~= r.deep_view() + search_path_items(
                        iv.skip(i + 1),
                    ));
                }
                i += 1;
            }
            proof {
                assert(iv.skip(items@.len() as int) =~= Seq::<Seq<char>>::empty());
                assert(r.deep_view() + search_path_items(iv.skip(items@.len() as int))
                    =~= r.deep_view());
            }
            r
        },
    }
}

fn rustup_home_candidates(env: &Environment) -> (r: Result<Vec<String>, ResolveError>)
    ensures
        match r {
            Ok(v) => !env_inconsistent(env@) && v.deep_view() == rustup_home_strategy(env@),
            Err(e) => env_inconsistent(env@) && e is InconsistentEnvironment,
        },
{
    let mut r: Vec<String> = Vec::new();
    match &env.rustup_home {
        None => {
            proof {
                assert(r.deep_view() =~= rustup_home_strategy(env@));
            }
            Ok(r)
        },
        Some(home) => match &env.rustup_toolchain {
            None => Err(ResolveError::InconsistentEnvironment),
            Some(tc) => {
                let base = path_join(path_join(home.as_str(), "toolchains").as_str(), tc.as_str());
                let arch = extract_arch(tc.as_str());
                let cand = rustlib_candidate_of(base.as_str(), arch.as_str());
                r.push(cand);
                proof {
                    assert(r.deep_view() =~= rustup_home_strategy(env@));
                }
                Ok(r)
            },
        },
    }
}

fn ld_library_candidates(env: &Environment) -> (r: Vec<String>)
    ensures
        r.deep_view() == ld_library_strategy(env@),
{
    let mut r: Vec<String> = Vec::new();
    match &env.ld_library_path {
        None => {
            proof {
                assert(r.deep_view() =~= ld_library_strategy(env@));
            }
            r
        },
        Some(l) => {
            let items = split_str(l.as_str(), ':');
            let ghost iv = items.deep_view();
            proof {
                assert(iv.skip(0) =~= iv);
                assert(r.deep_view() + ld_items(iv) =~= ld_items(iv));
            }
            let mut i: usize = 0;
            while i < items.len()
                invariant
                    i <= items@.len(),
                    items.deep_view() == iv,
                    ld_items(iv) == r.deep_view() + ld_items(iv.skip(i as int)),
                decreases items@.len() - i,
            {
                proof {
                    let sk = iv.skip(i as int);
                    assert(sk[0] == iv[i as int]);
                    assert(sk.drop_first() =~= iv.skip(i + 1));
                }
                let parent = parent_dir_of(items[i].as_str());
                match file_name_of(parent.as_str()) {
                    Some(tc) => {
                        let arch = extract_arch(tc.as_str());
                        let cand = rustlib_candidate_of(parent.as_str(), arch.as_str());
                        let ghost rd = r.deep_view();
                        r.push(cand);
                        proof {
                            assert(r.deep_view() =~= rd + ld_item(iv[i as int]));
                            assert(rd + ld_items(iv.skip(i as int)) =~= r.deep_view() + ld_items(
                                iv.skip(i + 1),
                            ));
                        }
                    },
                    None => {
                        proof {
                            assert(ld_item(iv[i as int]) =~= Seq::<Seq<char>>::empty());
                            assert(r.deep_view() + ld_items(iv.skip(i as int)) =~= r.deep_view()
                                + ld_items(iv.skip(i + 1)));
                        }
                    },
                }
                i += 1;
            }
            proof {
                assert(iv.skip(items@.len() as int) =~= Seq::<Seq<char>>::empty());
                assert(r.deep_view() + ld_items(iv.skip(items@.len() as int)) =~= r.deep_view());
            }
            r
        },
    }
}

fn cargo_candidates(env: &Environment) -> (r: Vec<String>)
    ensures
        r.deep_view() == cargo_strategy(env@),
{
    let mut r: Vec<String> = Vec::new();
    match &env.cargo {
        None => {
            proof {
                assert(r.deep_view() =~= cargo_strategy(env@));
            }
            r
        },
        Some(cargo) => {
            let base = parent_dir_of(parent_dir_of(cargo.as_str()).as_str());
            match file_name_of(base.as_str()) {
                Some(tc) => {
                    let arch = match &env.host {
                        Some(h) => h.clone(),
                        None => extract_arch(tc.as_str()),
                    };
                    let cand = rustlib_candidate_of(base.as_str(), arch.as_str());
                    r.push(cand);
                    proof {
                        assert(r.deep_view() =~= cargo_strategy(env@));
                    }
                },
                None => {
                    proof {
                        assert(r.deep_view() =~= cargo_strategy(env@));
                    }
                },
            }
            r
        },
    }
}

/// The compiler consulted for introspection: the explicit override when set,
/// else the one the version manager reported, trimmed of whitespace.
pub fn find_rustc(env: &Environment) -> (r: Option<String>)
    ensures
        r.deep_view() == resolved_rustc(env@),
{
    match &env.rustc {
        Some(p) => Some(p.clone()),
        None => match &env.rustup_which_rustc {
            Some(o) => Some(trim(o.as_str())),
            None => None,
        },
    }
}

/// The architecture used with an installation root, by preference order:
/// explicit host override, then the verbose version report's `host:` line,
/// then the root's final path segment read as a toolchain identifier.
pub fn find_arch(env: &Environment, sysroot: &str) -> (r: Option<String>)
    ensures
        r.deep_view() == arch_for_sysroot(env@, sysroot@),
{
    match &env.host {
        Some(h) => Some(h.clone()),
        None => {
            let host_line: Option<String> = match &env.rustc_verbose_version {
                Some(vv) => {
                    let lines = split_str(vv.as_str(), '\n');
                    find_line_with_prefix(&lines, "host")
                },
                None => None,
            };
            match host_line {
                Some(line) => Some(trim(strip_prefixes(line.as_str(), "host:").as_str())),
                None => match file_name_of(sysroot) {
                    Some(tc) => Some(extract_arch(tc.as_str())),
                    None => None,
                },
            }
        },
    }
}

fn rustc_candidates(env: &Environment) -> (r: Vec<String>)
    ensures
        r.deep_view() == rustc_strategy(env@),
{
    let mut r: Vec<String> = Vec::new();
    let rustc = find_rustc(env);
    if rustc.is_some() {
        match &env.rustc_sysroot {
            Some(raw) => {
                let sysroot = trim(raw.as_str());
                match find_arch(env, sysroot.as_str()) {
                    Some(arch) => {
                        let cand = rustlib_candidate_of(sysroot.as_str(), arch.as_str());
                        r.push(cand);
                        proof {
                            assert(r.deep_view() =~= rustc_strategy(env@));
                        }
                    },
                    None => {
                        proof {
                            assert(r.deep_view() =~= rustc_strategy(env@));
                        }
                    },
                }
            },
            None => {
                proof {
                    assert(r.deep_view() =~= rustc_strategy(env@));
                }
            },
        }
    } else {
        proof {
            assert(r.deep_view() =~= rustc_strategy(env@));
        }
    }
    r
}

fn rustup_which_candidates(env: &Environment) -> (r: Vec<String>)
    ensures
        r.deep_view() == rustup_which_strategy(env@),
{
    let mut r: Vec<String> = Vec::new();
    match &env.rustup_which_rustc {
        None => {
            proof {
                assert(r.deep_view() =~= rustup_which_strategy(env@));
            }
            r
        },
        Some(raw) => {
            let p = trim(raw.as_str());
            let base = parent_dir_of(parent_dir_of(p.as_str()).as_str());
            match file_name_of(base.as_str()) {
                Some(tc) => {
                    let arch = extract_arch(tc.as_str());
                    let cand = rustlib_candidate_of(base.as_str(), arch.as_str());
                    r.push(cand);
                    proof {
                        assert(r.deep_view() =~= rustup_which_strategy(env@));
                    }
                },
                None => {
                    proof {
                        assert(r.deep_view() =~= rustup_which_strategy(env@));
                    }
                },
            }
            r
        },
    }
}

/// Every candidate directory derived from the snapshot, in strategy priority
/// order, duplicates included. Fails only on an inconsistent environment.
pub fn collect_possible_paths(env: &Environment) -> (r: Result<Vec<String>, ResolveError>)
    ensures
        match r {
            Ok(v) => !env_inconsistent(env@) && v.deep_view() == spec_candidates(env@),
            Err(e) => env_inconsistent(env@) && e is InconsistentEnvironment,
        },
{
    let mut out = search_path_candidates(env);
    let ghost d1 = out.deep_view();
    let mut v2 = match rustup_home_candidates(env) {
        Ok(v) => v,
        Err(e) => {
            return Err(e);
        },
    };
    let ghost d2 = v2.deep_view();
    out.append(&mut v2);
    proof {
        assert(out.deep_view() =~= d1 + d2);
    }
    let ghost d12 = out.deep_view();
    let mut v3 = ld_library_candidates(env);
    let ghost d3 = v3.deep_view();
    out.append(&mut v3);
    proof {
        assert(out.deep_view() =~= d12 + d3);
    }
    let ghost d13 = out.deep_view();
    let mut v4 = cargo_candidates(env);
    let ghost d4 = v4.deep_view();
    out.append(&mut v4);
    proof {
        assert(out.deep_view() =~= d13 + d4);
    }
    let ghost d14 = out.deep_view();
    let mut v5 = rustc_candidates(env);
    let ghost d5 = v5.deep_view();
    out.append(&mut v5);
    proof {
        assert(out.deep_view() =~= d14 + d5);
    }
    let ghost d15 = out.deep_view();
    let mut v6 = rustup_which_candidates(env);
    let ghost d6 = v6.deep_view();
    out.append(&mut v6);
    proof {
        assert(out.deep_view() =~= d15 + d6);
        assert(out.deep_view() =~= spec_candidates(env@));
    }
    Ok(out)
}

// ---------------------------------------------------------------------------
// Probing for the library file
// ---------------------------------------------------------------------------

/// The three candidate files inside one directory, in the fixed probe order:
/// the `.so` name, the `.dylib` name, the `.dll` name.
pub open spec fn probes_of(dir: Seq<char>) -> Seq<Seq<char>> {
    seq![
        join_path(dir, "librustc_codegen_llvm-llvm.so"@),
        join_path(dir, "librustc_codegen_llvm-llvm.dylib"@),
        join_path(dir, "rustc_codegen_llvm-llvm.dll"@),
    ]
}

/// Every probe, in directory order and, within a directory, in the fixed
/// file-name order.
pub open spec fn probe_sequence(dirs: Seq<Seq<char>>) -> Seq<Seq<char>>
    decreases dirs.len(),
{
    if dirs.len() == 0 {
        Seq::empty()
    } else {
        probes_of(dirs[0]) + probe_sequence(dirs.drop_first())
    }
}

/// Position of the first probe that is present, or the number of probes when
/// none is.
pub open spec fn first_hit(probes: Seq<Seq<char>>, present: Seq<Seq<char>>) -> int
    decreases probes.len(),
{
    if probes.len() == 0 {
        0
    } else if present.contains(probes[0]) {
        0
    } else {
        1 + first_hit(probes.drop_first(), present)
    }
}

/// Law: probing stops at the first present probe — everything before the
/// first hit is absent, and the hit itself is present unless every probe
/// missed.
pub proof fn lemma_first_hit(probes: Seq<Seq<char>>, present: Seq<Seq<char>>)
    ensures
        0 <= first_hit(probes, present) <= probes.len(),
        forall|k: int| 0 <= k < first_hit(probes, present) ==> !present.contains(
            #[trigger] probes[k],
        ),
        first_hit(probes, present) < probes.len() ==> present.contains(
            probes[first_hit(probes, present)],
        ),
    decreases probes.len(),
{
    if probes.len() == 0 {
    } else if present.contains(probes[0]) {
    } else {
        lemma_first_hit(probes.drop_first(), present);
        let f = first_hit(probes, present);
        assert forall|k: int| 0 <= k < f implies !present.contains(#[trigger] probes[k]) by {
            if k > 0 {
                assert(probes.drop_first()[k - 1] == probes[k]);
            }
        }
        if f < probes.len() {
            assert(probes.drop_first()[f - 1] == probes[f]);
        }
    }
}

pub proof fn lemma_first_hit_unique(probes: Seq<Seq<char>>, present: Seq<Seq<char>>, i: int)
    requires
        0 <= i <= probes.len(),
        forall|k: int| 0 <= k < i ==> !present.contains(#[trigger] probes[k]),
        i < probes.len() ==> present.contains(probes[i]),
    ensures
        first_hit(probes, present) == i,
{
    lemma_first_hit(probes, present);
    let f = first_hit(probes, present);
    if f < i {
        assert(!present.contains(probes[f]));
        assert(present.contains(probes[f]));
    }
    if i < f {
        assert(!present.contains(probes[i]));
        assert(present.contains(probes[i]));
    }
}

/// Law: inside one candidate directory the three file names are checked in
/// the fixed order `.so`, `.dylib`, `.dll`, and the first present one wins,
/// even when several are present at once.
pub proof fn lemma_probe_order_within_dir(dir: Seq<char>, present: Seq<Seq<char>>)
    ensures
        present.contains(join_path(dir, "librustc_codegen_llvm-llvm.so"@)) ==> first_hit(
            probes_of(dir),
            present,
        ) == 0,
        !present.contains(join_path(dir, "librustc_codegen_llvm-llvm.so"@)) && present.contains(
            join_path(dir, "librustc_codegen_llvm-llvm.dylib"@),
        ) ==> first_hit(probes_of(dir), present) == 1,
        !present.contains(join_path(dir, "librustc_codegen_llvm-llvm.so"@)) && !present.contains(
            join_path(dir, "librustc_codegen_llvm-llvm.dylib"@),
        ) && present.contains(join_path(dir, "rustc_codegen_llvm-llvm.dll"@)) ==> first_hit(
            probes_of(dir),
            present,
        ) == 2,
        !present.contains(join_path(dir, "librustc_codegen_llvm-llvm.so"@)) && !present.contains(
            join_path(dir, "librustc_codegen_llvm-llvm.dylib"@),
        ) && !present.contains(join_path(dir, "rustc_codegen_llvm-llvm.dll"@)) ==> first_hit(
            probes_of(dir),
            present,
        ) == 3,
{
    let ps = probes_of(dir);
    if present.contains(ps[0]) {
        lemma_first_hit_unique(ps, present, 0);
    } else if present.contains(ps[1]) {
        lemma_first_hit_unique(ps, present, 1);
    } else if present.contains(ps[2]) {
        lemma_first_hit_unique(ps, present, 2);
    } else {
        lemma_first_hit_unique(ps, present, 3);
    }
}

proof fn lemma_probe_sequence_len(dirs: Seq<Seq<char>>)
    ensures
        probe_sequence(dirs).len() == 3 * dirs.len(),
    decreases dirs.len(),
{
    if dirs.len() > 0 {
        lemma_probe_sequence_len(dirs.drop_first());
    }
}

/// Law: the probes run through the candidate directories in generation
/// order, three per directory — probe `3*i + j` tests directory `i`'s `j`-th
/// file name. So an earlier directory's hit always beats a later one's.
pub proof fn lemma_probe_sequence_structure(dirs: Seq<Seq<char>>, i: int, j: int)
    requires
        0 <= i < dirs.len(),
        0 <= j < 3,
    ensures
        probe_sequence(dirs).len() == 3 * dirs.len(),
        probe_sequence(dirs)[3 * i + j] == probes_of(dirs[i])[j],
    decreases i,
{
    lemma_probe_sequence_len(dirs);
    lemma_probe_sequence_len(dirs.drop_first());
    if i == 0 {
    } else {
        lemma_probe_sequence_structure(dirs.drop_first(), i - 1, j);
        assert(dirs.drop_first()[i - 1] == dirs[i]);
        assert(probe_sequence(dirs)[3 * i + j] == probe_sequence(dirs.drop_first())[3 * (i - 1)
            + j]);
    }
}

/// The three candidate file paths inside one directory, in probe order.
pub fn candidate_files(dir: &str) -> (r: Vec<String>)
    ensures
        r.deep_view() == probes_of(dir@),
{
    let mut r: Vec<String> = Vec::new();
    r.push(path_join(dir, "librustc_codegen_llvm-llvm.so"));
    r.push(path_join(dir, "librustc_codegen_llvm-llvm.dylib"));
    r.push(path_join(dir, "rustc_codegen_llvm-llvm.dll"));
    proof {
        assert(r.deep_view() =~= probes_of(dir@));
    }
    r
}

/// Whether some element of `v` equals `s`, character for character.
pub fn contains_str(v: &Vec<String>, s: &str) -> (r: bool)
    ensures
        r == v.deep_view().contains(s@),
{
    let mut i: usize = 0;
    while i < v.len()
        invariant
            i <= v@.len(),
            forall|k: int| 0 <= k < i ==> v.deep_view()[k] != s@,
        decreases v@.len() - i,
    {
        if str_eq(v[i].as_str(), s) {
            proof {
                assert(v.deep_view()[i as int] == s@);
            }
            return true;
        }
        i += 1;
    }
    proof {
        assert forall|k: int| 0 <= k < v.deep_view().len() implies v.deep_view()[k] != s@ by {}
    }
    false
}

/// Resolves the library: derives the candidate directories from the
/// snapshot, then walks the probes in order and returns the first one the
/// caller's `present` list contains. `present` stands for the files that
/// exist on disk. On failure, `NotFound` carries every candidate directory,
/// in generation order, duplicates included.
pub fn find_lib_path(env: &Environment, present: &Vec<String>) -> (r: Result<
    String,
    ResolveError,
>)
    ensures
        match r {
            Ok(p) => {
                &&& !env_inconsistent(env@)
                &&& present.deep_view().contains(p@)
                &&& {
                    let probes = probe_sequence(spec_candidates(env@));
                    let h = first_hit(probes, present.deep_view());
                    h < probes.len() && p@ == probes[h]
                }
            },
            Err(e) => match e {
                ResolveError::InconsistentEnvironment => env_inconsistent(env@),
                ResolveError::NotFound(dirs) => {
                    &&& !env_inconsistent(env@)
                    &&& dirs.deep_view() == spec_candidates(env@)
                    &&& first_hit(
                        probe_sequence(spec_candidates(env@)),
                        present.deep_view(),
                    ) == probe_sequence(spec_candidates(env@)).len()
                    &&& forall|k: int|
                        0 <= k < probe_sequence(spec_candidates(env@)).len()
                            ==> !present.deep_view().contains(
                            #[trigger] probe_sequence(spec_candidates(env@))[k],
                        )
                },
            },
        },
{
    let dirs = match collect_possible_paths(env) {
        Ok(d) => d,
        Err(e) => {
            return Err(e);
        },
    };
    let ghost dv = dirs.deep_view();
    let mut probes: Vec<String> = Vec::new();
    proof {
        assert(dv.skip(0) =~= dv);
        assert(probes.deep_view() + probe_sequence(dv) =~= probe_sequence(dv));
    }
    let mut i: usize = 0;
    while i < dirs.len()
        invariant
            i <= dirs@.len(),
            dirs.deep_view() == dv,
            probe_sequence(dv) == probes.deep_view() + probe_sequence(dv.skip(i as int)),
        decreases dirs@.len() - i,
    {
        let d = &dirs[i];
        let ghost pd = probes.deep_view();
        probes.push(path_join(d.as_str(), "librustc_codegen_llvm-llvm.so"));
        probes.push(path_join(d.as_str(), "librustc_codegen_llvm-llvm.dylib"));
        probes.push(path_join(d.as_str(), "rustc_codegen_llvm-llvm.dll"));
        proof {
            let sk = dv.skip(i as int);
            assert(sk[0] == dv[i as int]);
            assert(sk.drop_first() =~= dv.skip(i + 1));
            assert(probes.deep_view() =~= pd + probes_of(dv[i as int]));
            assert(pd + probe_sequence(sk) =~= probes.deep_view() + probe_sequence(dv.skip(i + 1)));
        }
        i += 1;
    }
    proof {
        assert(dv.skip(dirs@.len() as int) =~= Seq::<Seq<char>>::empty());
        assert(probes.deep_view() + probe_sequence(dv.skip(dirs@.len() as int))
            =~= probes.deep_view());
    }
    let mut k: usize = 0;
    while k < probes.len()
        invariant
            k <= probes@.len(),
            probes.deep_view() == probe_sequence(dv),
            dirs.deep_view() == dv,
            dv == spec_candidates(env@),
            !env_inconsistent(env@),
            forall|j: int| 0 <= j < k ==> !present.deep_view().contains(
                #[trigger] probes.deep_view()[j],
            ),
        decreases probes@.len() - k,
    {
        if contains_str(present, probes[k].as_str()) {
            proof {
                lemma_first_hit_unique(probes.deep_view(), present.deep_view(), k as int);
                lemma_first_hit(probes.deep_view(), present.deep_view());
            }
            let p = probes[k].clone();
            proof {
                assert(p@ == probes.deep_view()[k as int]);
            }
            return Ok(p);
        }
        k += 1;
    }
    proof {
        lemma_first_hit_unique(probes.deep_view(), present.deep_view(), probes@.len() as int);
        lemma_first_hit(probes.deep_view(), present.deep_view());
    }
    Err(ResolveError::NotFound(dirs))
}

} // verus!
