use vstd::prelude::*;

use crate::fingerprint::{
    extension_of, contains_path, derive_fingerprint, paths_view, FilePath, Fingerprint, FingerprintView,
};
use crate::locked::{locked_map, member_deps, pairs_map, LockedDeps, ProjectMetadata};
use crate::text::strs;
use crate::SkepticError;

verus! {

/// One file seen in the build cache's fingerprint tree, with the time it was
/// last modified, in nanoseconds.
pub struct CacheEntry {
    pub path: FilePath,
    pub mtime: u128,
}

/// What the build cache holds at one point in time: the files of its
/// fingerprint tree, and the compiled artifacts that exist.
pub struct CacheSnapshot {
    pub entries: Vec<CacheEntry>,
    pub artifacts: Vec<FilePath>,
}

/// The views of a list of fingerprints.
pub open spec fn fps_view(s: Seq<Fingerprint>) -> Seq<FingerprintView> {
    s.map_values(|f: Fingerprint| f@)
}

/// The fingerprints that the cache entries yield, in the order of the entries.
pub open spec fn scan(entries: Seq<CacheEntry>, existing: Seq<Seq<Seq<char>>>) -> Seq<
    FingerprintView,
>
    decreases entries.len(),
{
    if entries.len() == 0 {
        Seq::empty()
    } else {
        let rest = scan(entries.drop_last(), existing);
        match derive_fingerprint(entries.last().path@, entries.last().mtime, existing) {
            Some(f) => rest.push(f),
            None => rest,
        }
    }
}

/// Index of the last entry named `n`, or -1 when there is none.
pub open spec fn find_name(s: Seq<FingerprintView>, n: Seq<char>) -> int
    decreases s.len(),
{
    if s.len() == 0 {
        -1
    } else if s.last().libname == n {
        s.len() - 1
    } else {
        find_name(s.drop_last(), n)
    }
}

/// Whether a first candidate for a name is taken: it has no version, or
/// exactly the locked one.
pub open spec fn accepts_first(f: FingerprintView, locked_ver: Seq<char>) -> bool {
    match f.version {
        None => true,
        Some(v) => v == locked_ver,
    }
}

/// Whether a candidate replaces the one already chosen: it has exactly the
/// locked version and is strictly more recent.
pub open spec fn replaces(cur: FingerprintView, f: FingerprintView, locked_ver: Seq<char>) -> bool {
    match f.version {
        None => false,
        Some(v) => v == locked_ver && cur.mtime < f.mtime,
    }
}

/// One step of selection: the chosen fingerprints after candidate `f`.
pub open spec fn select_step(
    locked: Map<Seq<char>, Seq<char>>,
    acc: Seq<FingerprintView>,
    f: FingerprintView,
) -> Seq<FingerprintView> {
    if !locked.contains_key(f.libname) {
        acc
    } else if find_name(acc, f.libname) >= 0 {
        if replaces(acc[find_name(acc, f.libname)], f, locked[f.libname]) {
            acc.update(find_name(acc, f.libname), f)
        } else {
            acc
        }
    } else if accepts_first(f, locked[f.libname]) {
        acc.push(f)
    } else {
        acc
    }
}

/// The fingerprints chosen from the candidates `fps`, taken in order.
pub open spec fn select(locked: Map<Seq<char>, Seq<char>>, fps: Seq<FingerprintView>) -> Seq<
    FingerprintView,
>
    decreases fps.len(),
{
    if fps.len() == 0 {
        Seq::empty()
    } else {
        select_step(locked, select(locked, fps.drop_last()), fps.last())
    }
}

/// The fingerprints of `s` whose artifact is among the `existing` paths.
pub open spec fn keep_existing(s: Seq<FingerprintView>, existing: Seq<Seq<Seq<char>>>) -> Seq<
    FingerprintView,
>
    decreases s.len(),
{
    if s.len() == 0 {
        Seq::empty()
    } else {
        let rest = keep_existing(s.drop_last(), existing);
        if existing.contains(s.last().rlib) {
            rest.push(s.last())
        } else {
            rest
        }
    }
}

/// The resolved dependencies: selection, then only those whose artifact exists.
pub open spec fn resolve(
    locked: Map<Seq<char>, Seq<char>>,
    fps: Seq<FingerprintView>,
    existing: Seq<Seq<Seq<char>>>,
) -> Seq<FingerprintView> {
    keep_existing(select(locked, fps), existing)
}

/// The locked versions that a project's metadata gives, where it has a
/// resolved graph.
pub open spec fn locked_of(meta: ProjectMetadata) -> Map<Seq<char>, Seq<char>> {
    locked_map(
        member_deps(strs(meta.workspace_members@), meta.resolve->Some_0@) + strs(
            meta.workspace_members@,
        ),
    )
}

/// The locked version of `name`, where there is one; a later pair overrides
/// an earlier one.
pub fn lookup_locked(pairs: &Vec<(String, String)>, name: &String) -> (r: Option<String>)
    ensures
        match r {
            Some(v) => pairs_map(pairs@).contains_key(name@) && pairs_map(pairs@)[name@] == v@,
            None => !pairs_map(pairs@).contains_key(name@),
        },
{
    let mut i: usize = pairs.len();
    assert(pairs@.take(i as int) =~= pairs@);
    while i > 0
        invariant
            i <= pairs.len(),
            pairs_map(pairs@).contains_key(name@) == pairs_map(pairs@.take(i as int)).contains_key(
                name@,
            ),
            pairs_map(pairs@).contains_key(name@) ==> pairs_map(pairs@)[name@] == pairs_map(
                pairs@.take(i as int),
            )[name@],
        decreases i,
    {
        assert(pairs@.take(i as int).drop_last() =~= pairs@.take(i - 1));
        if pairs[i - 1].0 == *name {
            return Some(pairs[i - 1].1.clone());
        }
        i = i - 1;
    }
    None
}

/// Index of the last chosen fingerprint named `name`, if any.
fn find_chosen(acc: &Vec<Fingerprint>, name: &String) -> (r: Option<usize>)
    ensures
        match r {
            Some(i) => i as int == find_name(fps_view(acc@), name@) && i < acc.len(),
            None => find_name(fps_view(acc@), name@) == -1,
        },
{
    let mut i: usize = acc.len();
    assert(fps_view(acc@).take(i as int) =~= fps_view(acc@));
    while i > 0
        invariant
            i <= acc.len(),
            find_name(fps_view(acc@), name@) == find_name(fps_view(acc@).take(i as int), name@),
        decreases i,
    {
        assert(fps_view(acc@).take(i as int).drop_last() =~= fps_view(acc@).take(i - 1));
        if acc[i - 1].libname == *name {
            return Some(i - 1);
        }
        i = i - 1;
    }
    None
}

impl Fingerprint {
    /// A copy of the fingerprint.
    pub fn duplicate(&self) -> (r: Fingerprint)
        ensures
            r@ == self@,
    {
        let version = match &self.version {
            Some(v) => Some(v.clone()),
            None => None,
        };
        Fingerprint {
            libname: self.libname.clone(),
            version,
            rlib: self.rlib.duplicate(),
            mtime: self.mtime,
        }
    }
}

proof fn lemma_fps_push(v: Seq<Fingerprint>, x: Fingerprint)
    ensures
        fps_view(v.push(x)) == fps_view(v).push(x@),
{
    assert(fps_view(v.push(x)) =~= fps_view(v).push(x@));
}

proof fn lemma_fps_update(v: Seq<Fingerprint>, i: int, x: Fingerprint)
    requires
        0 <= i < v.len(),
    ensures
        fps_view(v.update(i, x)) == fps_view(v).update(i, x@),
{
    assert(fps_view(v.update(i, x)) =~= fps_view(v).update(i, x@));
}

/// Chooses, for every locked name, at most one of the candidates `fps`
/// taken in order: a first candidate is taken when it has no version or the
/// locked one; a later one replaces it only when it has exactly the locked
/// version and is strictly more recent. Chosen fingerprints whose artifact is
/// not among the `existing` paths are then dropped.
pub fn resolve_fingerprints(
    locked: &Vec<(String, String)>,
    fps: &Vec<Fingerprint>,
    existing: &Vec<FilePath>,
) -> (r: Vec<Fingerprint>)
    ensures
        fps_view(r@) == resolve(pairs_map(locked@), fps_view(fps@), paths_view(existing@)),
{
    let ghost lm = pairs_map(locked@);
    let mut acc: Vec<Fingerprint> = Vec::new();
    let mut i: usize = 0;
    assert(fps_view(fps@).take(0) =~= Seq::<FingerprintView>::empty());
    while i < fps.len()
        invariant
            i <= fps.len(),
            lm == pairs_map(locked@),
            fps_view(acc@) == select(lm, fps_view(fps@).take(i as int)),
        decreases fps.len() - i,
    {
        let f = &fps[i];
        let ghost before = fps_view(acc@);
        assert(fps_view(fps@).take(i + 1).drop_last() =~= fps_view(fps@).take(i as int));
        assert(fps_view(fps@).take(i + 1).last() == f@);
        match lookup_locked(locked, &f.libname) {
            None => {},
            Some(locked_ver) => {
                match find_chosen(&acc, &f.libname) {
                    Some(k) => {
                        let newer = match &f.version {
                            Some(v) => *v == locked_ver && acc[k].mtime < f.mtime,
                            None => false,
                        };
                        assert(before[k as int] == acc@[k as int]@);
                        if newer {
                            let g = f.duplicate();
                            proof {
                                lemma_fps_update(acc@, k as int, g);
                            }
                            acc.set(k, g);
                        }
                    },
                    None => {
                        let first = match &f.version {
                            Some(v) => *v == locked_ver,
                            None => true,
                        };
                        if first {
                            let g = f.duplicate();
                            proof {
                                lemma_fps_push(acc@, g);
                            }
                            acc.push(g);
                        }
                    },
                }
            },
        }
        i = i + 1;
    }
    assert(fps_view(fps@).take(i as int) =~= fps_view(fps@));
    let ghost chosen = fps_view(acc@);
    let mut r: Vec<Fingerprint> = Vec::new();
    let mut j: usize = 0;
    assert(chosen.take(0) =~= Seq::<FingerprintView>::empty());
    while j < acc.len()
        invariant
            j <= acc.len(),
            chosen == fps_view(acc@),
            fps_view(r@) == keep_existing(chosen.take(j as int), paths_view(existing@)),
        decreases acc.len() - j,
    {
        assert(chosen.take(j + 1).drop_last() =~= chosen.take(j as int));
        assert(chosen.take(j + 1).last() == acc@[j as int]@);
        if contains_path(existing, &acc[j].rlib) {
            let g = acc[j].duplicate();
            proof {
                lemma_fps_push(r@, g);
            }
            r.push(g);
        }
        j = j + 1;
    }
    assert(chosen.take(j as int) =~= chosen);
    r
}

/// The dependencies to hand to the compiler: the locked dependencies of the
/// project (read from `primary`, or from `fallback` where `primary` has no
/// resolved graph), each matched to at most one compiled artifact found in
/// the cache. Fails only when neither metadata has a resolved graph.
pub fn get_rlib_dependencies(
    primary: &ProjectMetadata,
    fallback: &ProjectMetadata,
    cache: &CacheSnapshot,
) -> (r: Result<Vec<Fingerprint>, SkepticError>)
    ensures
        (primary.resolve is None && fallback.resolve is None) <==> r is Err,
        r is Err ==> r == Err::<Vec<Fingerprint>, SkepticError>(SkepticError::Metadata),
        r matches Ok(v) ==> fps_view(v@) == resolve(
            if primary.resolve is Some {
                locked_of(*primary)
            } else {
                locked_of(*fallback)
            },
            scan(cache.entries@, paths_view(cache.artifacts@)),
            paths_view(cache.artifacts@),
        ),
        r matches Ok(v) ==> names_unique(fps_view(v@)),
        r matches Ok(v) ==> forall|i: int|
            0 <= i < v@.len() ==> paths_view(cache.artifacts@).contains(#[trigger] v@[i].rlib@),
{
    let lock = match LockedDeps::from_path(primary) {
        Ok(l) => l,
        Err(_) => match LockedDeps::from_path(fallback) {
            Ok(l) => l,
            Err(e) => return Err(e),
        },
    };
    let locked = lock.collect_pairs();
    let ghost existing = paths_view(cache.artifacts@);
    let mut found: Vec<Fingerprint> = Vec::new();
    let mut i: usize = 0;
    assert(cache.entries@.take(0) =~= Seq::<CacheEntry>::empty());
    while i < cache.entries.len()
        invariant
            i <= cache.entries.len(),
            existing == paths_view(cache.artifacts@),
            fps_view(found@) == scan(cache.entries@.take(i as int), existing),
        decreases cache.entries.len() - i,
    {
        let entry = &cache.entries[i];
        assert(cache.entries@.take(i + 1).drop_last() =~= cache.entries@.take(i as int));
        assert(cache.entries@.take(i + 1).last() == *entry);
        match Fingerprint::from_path(&entry.path, entry.mtime, &cache.artifacts) {
            Ok(f) => {
                proof {
                    lemma_fps_push(found@, f);
                }
                found.push(f);
            },
            Err(_) => {},
        }
        i = i + 1;
    }
    assert(cache.entries@.take(i as int) =~= cache.entries@);
    let r = resolve_fingerprints(&locked, &found, &cache.artifacts);
    proof {
        lemma_resolved_names_unique(pairs_map(locked@), fps_view(found@), existing);
        lemma_resolved_artifacts_exist(pairs_map(locked@), fps_view(found@), existing);
        assert forall|i: int| 0 <= i < r@.len() implies existing.contains(#[trigger] r@[i].rlib@) by {
            assert(fps_view(r@)[i] == r@[i]@);
            let q = resolve(pairs_map(locked@), fps_view(found@), existing)[i];
            assert(existing.contains(q.rlib));
        }
    }
    Ok(r)
}

/// A file whose name does not end in the metadata extension yields no
/// fingerprint.
pub proof fn lemma_non_metadata_yields_nothing(
    p: Seq<Seq<char>>,
    mtime: u128,
    existing: Seq<Seq<Seq<char>>>,
)
    requires
        p.len() == 0 || extension_of(p.last()) != Some(seq!['j', 's', 'o', 'n']),
    ensures
        derive_fingerprint(p, mtime, existing) is None,
{
}

proof fn lemma_keep_existing(s: Seq<FingerprintView>, existing: Seq<Seq<Seq<char>>>)
    ensures
        forall|i: int|
            0 <= i < keep_existing(s, existing).len() ==> existing.contains(
                #[trigger] keep_existing(s, existing)[i].rlib,
            ),
        forall|i: int|
            0 <= i < keep_existing(s, existing).len() ==> s.contains(
                #[trigger] keep_existing(s, existing)[i],
            ),
    decreases s.len(),
{
    if s.len() > 0 {
        lemma_keep_existing(s.drop_last(), existing);
        let rest = keep_existing(s.drop_last(), existing);
        assert forall|i: int| 0 <= i < rest.len() implies s.contains(#[trigger] rest[i]) by {
            let k = choose|k: int| 0 <= k < s.drop_last().len() && s.drop_last()[k] == rest[i];
            assert(s[k] == rest[i]);
        }
        assert(s[s.len() - 1] == s.last());
    }
}

/// Every resolved dependency points at an artifact that exists: a candidate
/// whose artifact is missing is never resolved, whatever its version.
pub proof fn lemma_resolved_artifacts_exist(
    locked: Map<Seq<char>, Seq<char>>,
    fps: Seq<FingerprintView>,
    existing: Seq<Seq<Seq<char>>>,
)
    ensures
        forall|i: int|
            0 <= i < resolve(locked, fps, existing).len() ==> existing.contains(
                #[trigger] resolve(locked, fps, existing)[i].rlib,
            ),
{
    lemma_keep_existing(select(locked, fps), existing);
}

proof fn lemma_find_name(s: Seq<FingerprintView>, n: Seq<char>)
    ensures
        -1 <= find_name(s, n) < s.len(),
        find_name(s, n) >= 0 ==> s[find_name(s, n)].libname == n,
        find_name(s, n) == -1 ==> forall|j: int| 0 <= j < s.len() ==> (#[trigger] s[j]).libname != n,
    decreases s.len(),
{
    if s.len() > 0 && s.last().libname != n {
        lemma_find_name(s.drop_last(), n);
        if find_name(s, n) == -1 {
            assert forall|j: int| 0 <= j < s.len() implies (#[trigger] s[j]).libname != n by {
                if j < s.len() - 1 {
                    assert(s[j] == s.drop_last()[j]);
                }
            }
        }
    }
}

/// No two entries of `s` share a name.
pub open spec fn names_unique(s: Seq<FingerprintView>) -> bool {
    forall|i: int, j: int|
        0 <= i < j < s.len() ==> (#[trigger] s[i]).libname != (#[trigger] s[j]).libname
}

proof fn lemma_select_unique(locked: Map<Seq<char>, Seq<char>>, fps: Seq<FingerprintView>)
    ensures
        names_unique(select(locked, fps)),
    decreases fps.len(),
{
    if fps.len() > 0 {
        lemma_select_unique(locked, fps.drop_last());
        let acc = select(locked, fps.drop_last());
        let f = fps.last();
        lemma_find_name(acc, f.libname);
        let r = select(locked, fps);
        if locked.contains_key(f.libname) && find_name(acc, f.libname) >= 0 {
            let k = find_name(acc, f.libname);
            assert forall|i: int, j: int| 0 <= i < j < r.len() implies (#[trigger] r[i]).libname
                != (#[trigger] r[j]).libname by {
                assert(r[i].libname == acc[i].libname);
                assert(r[j].libname == acc[j].libname);
            }
        }
    }
}

proof fn lemma_keep_unique(s: Seq<FingerprintView>, existing: Seq<Seq<Seq<char>>>)
    requires
        names_unique(s),
    ensures
        names_unique(keep_existing(s, existing)),
    decreases s.len(),
{
    if s.len() > 0 {
        assert(names_unique(s.drop_last())) by {
            assert forall|i: int, j: int|
                0 <= i < j < s.drop_last().len() implies (#[trigger] s.drop_last()[i]).libname
                != (#[trigger] s.drop_last()[j]).libname by {
                assert(s.drop_last()[i] == s[i]);
                assert(s.drop_last()[j] == s[j]);
            }
        }
        lemma_keep_unique(s.drop_last(), existing);
        lemma_keep_existing(s.drop_last(), existing);
        let rest = keep_existing(s.drop_last(), existing);
        let r = keep_existing(s, existing);
        if existing.contains(s.last().rlib) {
            assert forall|i: int, j: int| 0 <= i < j < r.len() implies (#[trigger] r[i]).libname
                != (#[trigger] r[j]).libname by {
                if j == r.len() - 1 {
                    assert(s.drop_last().contains(rest[i]));
                    let k = choose|k: int|
                        0 <= k < s.drop_last().len() && s.drop_last()[k] == rest[i];
                    assert(s[k] == rest[i]);
                    assert(s[s.len() - 1] == s.last());
                } else {
                    assert(r[i] == rest[i]);
                    assert(r[j] == rest[j]);
                }
            }
        }
    }
}

/// The resolved set holds at most one dependency per library name.
pub proof fn lemma_resolved_names_unique(
    locked: Map<Seq<char>, Seq<char>>,
    fps: Seq<FingerprintView>,
    existing: Seq<Seq<Seq<char>>>,
)
    ensures
        names_unique(resolve(locked, fps, existing)),
{
    lemma_select_unique(locked, fps);
    lemma_keep_unique(select(locked, fps), existing);
}

/// Resolution depends on its inputs alone: two resolutions of the same
/// locked dependencies against the same cache snapshot agree.
pub proof fn lemma_resolution_repeats(
    locked: Map<Seq<char>, Seq<char>>,
    entries: Seq<CacheEntry>,
    existing: Seq<Seq<Seq<char>>>,
    first: Seq<FingerprintView>,
    second: Seq<FingerprintView>,
)
    requires
        first == resolve(locked, scan(entries, existing), existing),
        second == resolve(locked, scan(entries, existing), existing),
    ensures
        first == second,
{
}

} // verus!
