use vstd::prelude::*;

use crate::text::{
    chars_eq, chars_of, lemma_strs_push, lemma_strs_take, strs, find_last, last_index_of, lemma_last_index_of_bounds, push_all,
    slice_chars, string_of, underscore_chars, underscored,
};
use crate::SkepticError;

verus! {

/// A file system path, held as its components in order. An absolute path
/// starts with the root component `/`.
pub struct FilePath {
    pub parts: Vec<String>,
}

impl View for FilePath {
    type V = Seq<Seq<char>>;

    open spec fn view(&self) -> Seq<Seq<char>> {
        strs(self.parts@)
    }
}

/// A component that names a file or directory (not the root, `.` or `..`).
pub open spec fn is_normal(c: Seq<char>) -> bool {
    c.len() > 0 && c != seq!['/'] && c != seq!['.'] && c != seq!['.', '.']
}

/// Index of the dot that separates a file name's stem from its extension,
/// or -1 when the name has no extension.
pub open spec fn ext_dot(name: Seq<char>) -> int {
    if name == seq!['.', '.'] || last_index_of(name, '.') <= 0 {
        -1
    } else {
        last_index_of(name, '.')
    }
}

/// The stem of a file name: all of it but its extension and the dot.
pub open spec fn stem_of(name: Seq<char>) -> Seq<char> {
    if ext_dot(name) < 0 {
        name
    } else {
        name.take(ext_dot(name))
    }
}

/// The extension of a file name, if it has one.
pub open spec fn extension_of(name: Seq<char>) -> Option<Seq<char>> {
    if ext_dot(name) < 0 {
        None
    } else {
        Some(name.skip(ext_dot(name) + 1))
    }
}

/// The path with the extension of its last component set to `ext`; a path
/// that does not end in a file name is left as it is.
pub open spec fn with_ext(p: Seq<Seq<char>>, ext: Seq<char>) -> Seq<Seq<char>> {
    if p.len() > 0 && is_normal(p.last()) {
        p.drop_last().push(
            stem_of(p.last()) + if ext.len() > 0 {
                seq!['.'] + ext
            } else {
                Seq::empty()
            },
        )
    } else {
        p
    }
}

/// The first of `exts` under which `p` is among the `existing` paths.
pub open spec fn first_present(
    p: Seq<Seq<char>>,
    exts: Seq<Seq<char>>,
    existing: Seq<Seq<Seq<char>>>,
) -> Option<Seq<Seq<char>>>
    decreases exts.len(),
{
    if exts.len() == 0 {
        None
    } else if existing.contains(with_ext(p, exts[0])) {
        Some(with_ext(p, exts[0]))
    } else {
        first_present(p, exts.skip(1), existing)
    }
}

/// The views of a list of paths.
pub open spec fn paths_view(v: Seq<FilePath>) -> Seq<Seq<Seq<char>>> {
    v.map_values(|p: FilePath| p@)
}

/// The extensions that a compiled library may carry, in the order they are
/// tried.
pub open spec fn artifact_exts() -> Seq<Seq<char>> {
    seq![seq!['r', 'l', 'i', 'b'], seq!['s', 'o'], seq!['d', 'y', 'l', 'i', 'b'], seq!['d', 'l', 'l']]
}

/// The library name encoded in a fingerprint directory's stem: the segments
/// before its last `-`, joined by `_`.
pub open spec fn libname_of(stem: Seq<char>) -> Seq<char> {
    if last_index_of(stem, '-') < 0 {
        Seq::empty()
    } else {
        underscored(stem.take(last_index_of(stem, '-')))
    }
}

/// The content hash encoded in a fingerprint directory's stem: its segment
/// after the last `-`.
pub open spec fn hash_of(stem: Seq<char>) -> Seq<char> {
    stem.skip(last_index_of(stem, '-') + 1)
}

/// Whether a path has the shape of a fingerprint metadata file: a file
/// ending in `.json`, inside a named unit directory, inside one more
/// directory that is not the root.
pub open spec fn is_metadata_path(p: Seq<Seq<char>>) -> bool {
    &&& p.len() >= 3
    &&& is_normal(p.last())
    &&& extension_of(p.last()) == Some(seq!['j', 's', 'o', 'n'])
    &&& is_normal(p[p.len() - 2])
    &&& p[p.len() - 3] != seq!['/']
}

/// The unit directory's stem of a metadata file path.
pub open spec fn unit_stem(p: Seq<Seq<char>>) -> Seq<char> {
    stem_of(p[p.len() - 2])
}

/// The artifact path, before its extension, that a metadata file points
/// at: three levels up, then `deps/lib<name>-<hash>`.
pub open spec fn artifact_base(p: Seq<Seq<char>>) -> Seq<Seq<char>> {
    p.take(p.len() - 3).push(seq!['d', 'e', 'p', 's']).push(
        seq!['l', 'i', 'b'] + libname_of(unit_stem(p)) + seq!['-'] + hash_of(unit_stem(p)),
    )
}

/// A compiled library found in the build cache.
pub struct Fingerprint {
    pub libname: String,
    /// Absent where the cache's layout does not tell the version.
    pub version: Option<String>,
    pub rlib: FilePath,
    /// When the metadata file was last modified, in nanoseconds.
    pub mtime: u128,
}

/// The view of a fingerprint: name, version, artifact path, timestamp.
pub struct FingerprintView {
    pub libname: Seq<char>,
    pub version: Option<Seq<char>>,
    pub rlib: Seq<Seq<char>>,
    pub mtime: u128,
}

impl View for Fingerprint {
    type V = FingerprintView;

    open spec fn view(&self) -> FingerprintView {
        FingerprintView {
            libname: self.libname@,
            version: match self.version {
                Some(v) => Some(v@),
                None => None,
            },
            rlib: self.rlib@,
            mtime: self.mtime,
        }
    }
}

/// The fingerprint that a metadata file at `p`, modified at `mtime`,
/// yields when the `existing` paths are on disk.
pub open spec fn derive_fingerprint(
    p: Seq<Seq<char>>,
    mtime: u128,
    existing: Seq<Seq<Seq<char>>>,
) -> Option<FingerprintView> {
    if !is_metadata_path(p) {
        None
    } else {
        match first_present(artifact_base(p), artifact_exts(), existing) {
            None => None,
            Some(rlib) => Some(
                FingerprintView { libname: libname_of(unit_stem(p)), version: None, rlib, mtime },
            ),
        }
    }
}

/// The views of a list of string slices.
pub open spec fn strs_view(v: Seq<&str>) -> Seq<Seq<char>> {
    v.map_values(|e: &str| e@)
}

/// Index of the dot before a file name's extension, if it has one.
fn find_ext_dot(name: &Vec<char>) -> (r: Option<usize>)
    ensures
        match r {
            Some(k) => k as int == ext_dot(name@) && k >= 1,
            None => ext_dot(name@) == -1,
        },
{
    let dots = vec!['.', '.'];
    if chars_eq(name, &dots) {
        assert(dots@ =~= seq!['.', '.']);
        return None;
    }
    assert(dots@ =~= seq!['.', '.']);
    match find_last(name, '.') {
        Some(k) => {
            if k > 0 {
                Some(k)
            } else {
                None
            }
        },
        None => None,
    }
}

/// Whether a component names a file or directory.
fn is_normal_part(c: &Vec<char>) -> (r: bool)
    ensures
        r == is_normal(c@),
{
    let root = vec!['/'];
    let cur = vec!['.'];
    let up = vec!['.', '.'];
    assert(root@ =~= seq!['/']);
    assert(cur@ =~= seq!['.']);
    assert(up@ =~= seq!['.', '.']);
    c.len() > 0 && !chars_eq(c, &root) && !chars_eq(c, &cur) && !chars_eq(c, &up)
}

/// The stem of a file name.
fn stem_chars(name: &Vec<char>) -> (r: Vec<char>)
    ensures
        r@ == stem_of(name@),
{
    proof {
        lemma_last_index_of_bounds(name@, '.');
    }
    match find_ext_dot(name) {
        Some(k) => slice_chars(name, 0, k),
        None => slice_chars(name, 0, name.len()),
    }
}

impl FilePath {
    /// A copy of the path.
    pub fn duplicate(&self) -> (r: FilePath)
        ensures
            r@ == self@,
    {
        let mut parts: Vec<String> = Vec::new();
        let mut i: usize = 0;
        while i < self.parts.len()
            invariant
                i <= self.parts.len(),
                strs(parts@) == self@.take(i as int),
            decreases self.parts.len() - i,
        {
            let part = self.parts[i].clone();
            proof {
                lemma_strs_push(parts@, part);
            }
            parts.push(part);
            i = i + 1;
            assert(strs(parts@) =~= self@.take(i as int));
        }
        assert(self@.take(i as int) =~= self@);
        FilePath { parts }
    }

    /// Whether two paths have the same components.
    pub fn same_as(&self, other: &FilePath) -> (r: bool)
        ensures
            r == (self@ == other@),
    {
        if self.parts.len() != other.parts.len() {
            assert(self@.len() != other@.len());
            return false;
        }
        let mut i: usize = 0;
        while i < self.parts.len()
            invariant
                self.parts.len() == other.parts.len(),
                i <= self.parts.len(),
                forall|j: int| 0 <= j < i ==> self@[j] == other@[j],
            decreases self.parts.len() - i,
        {
            if self.parts[i] != other.parts[i] {
                assert(self@[i as int] != other@[i as int]);
                return false;
            }
            i = i + 1;
        }
        assert(self@ =~= other@);
        true
    }

    /// The path with the extension of its last component set to `ext`.
    pub fn with_extension(&self, ext: &Vec<char>) -> (r: FilePath)
        ensures
            r@ == with_ext(self@, ext@),
    {
        let n = self.parts.len();
        if n == 0 {
            return self.duplicate();
        }
        let last = chars_of(self.parts[n - 1].as_str());
        assert(last@ == self@.last());
        if !is_normal_part(&last) {
            return self.duplicate();
        }
        let mut name = stem_chars(&last);
        if ext.len() > 0 {
            name.push('.');
            push_all(&mut name, ext);
            assert(name@ =~= stem_of(self@.last()) + (seq!['.'] + ext@));
        } else {
            assert(name@ =~= stem_of(self@.last()) + Seq::<char>::empty());
        }
        let mut r = self.duplicate();
        let ghost copied = r.parts@;
        r.parts.pop();
        proof {
            lemma_strs_take(copied, n - 1);
        }
        assert(r.parts@ =~= copied.take(n - 1));
        let named = string_of(&name);
        proof {
            lemma_strs_push(r.parts@, named);
        }
        r.parts.push(named);
        assert(r@ =~= with_ext(self@, ext@));
        r
    }
}

/// Whether `p` is among `v`.
pub fn contains_path(v: &Vec<FilePath>, p: &FilePath) -> (r: bool)
    ensures
        r == paths_view(v@).contains(p@),
{
    let mut i: usize = 0;
    while i < v.len()
        invariant
            i <= v.len(),
            forall|j: int| 0 <= j < i ==> v@[j]@ != p@,
        decreases v.len() - i,
    {
        if v[i].same_as(p) {
            assert(paths_view(v@)[i as int] == p@);
            return true;
        }
        i = i + 1;
    }
    proof {
        if paths_view(v@).contains(p@) {
            let k = choose|k: int| 0 <= k < v@.len() && #[trigger] paths_view(v@)[k] == p@;
            assert(v@[k]@ == p@);
        }
    }
    false
}

/// Tries each extension in turn on `pth` and returns the first path that
/// is among the `existing` ones; fails when none is.
pub fn guess_ext(pth: FilePath, exts: &[&str], existing: &Vec<FilePath>) -> (r: Result<
    FilePath,
    SkepticError,
>)
    ensures
        match first_present(pth@, strs_view(exts@), paths_view(existing@)) {
            Some(q) => r is Ok && r->Ok_0@ == q,
            None => r == Err::<FilePath, SkepticError>(SkepticError::Fingerprint),
        },
{
    let mut i: usize = 0;
    assert(strs_view(exts@).skip(0) =~= strs_view(exts@));
    while i < exts.len()
        invariant
            i <= exts@.len(),
            first_present(pth@, strs_view(exts@), paths_view(existing@)) == first_present(
                pth@,
                strs_view(exts@).skip(i as int),
                paths_view(existing@),
            ),
        decreases exts@.len() - i,
    {
        let ext = chars_of(exts[i]);
        let candidate = pth.with_extension(&ext);
        let ghost rest = strs_view(exts@).skip(i as int);
        assert(rest[0] == ext@);
        assert(rest.skip(1) =~= strs_view(exts@).skip(i + 1));
        if contains_path(existing, &candidate) {
            return Ok(candidate);
        }
        i = i + 1;
    }
    assert(strs_view(exts@).skip(i as int).len() == 0);
    Err(SkepticError::Fingerprint)
}

impl Fingerprint {
    /// Derives a fingerprint from a metadata file at `pth`, modified at
    /// `mtime`: the unit directory names the library and its hash, and the
    /// artifact must be among the `existing` paths under one of the known
    /// extensions.
    pub fn from_path(pth: &FilePath, mtime: u128, existing: &Vec<FilePath>) -> (r: Result<
        Fingerprint,
        SkepticError,
    >)
        ensures
            match derive_fingerprint(pth@, mtime, paths_view(existing@)) {
                Some(f) => r is Ok && r->Ok_0@ == f,
                None => r == Err::<Fingerprint, SkepticError>(SkepticError::Fingerprint),
            },
    {
        let n = pth.parts.len();
        if n < 3 {
            return Err(SkepticError::Fingerprint);
        }
        let file = chars_of(pth.parts[n - 1].as_str());
        let unit = chars_of(pth.parts[n - 2].as_str());
        let above = chars_of(pth.parts[n - 3].as_str());
        assert(file@ == pth@[n - 1]);
        assert(unit@ == pth@[n - 2]);
        assert(above@ == pth@[n - 3]);
        if !is_normal_part(&file) || !is_normal_part(&unit) {
            return Err(SkepticError::Fingerprint);
        }
        let root = vec!['/'];
        assert(root@ =~= seq!['/']);
        if chars_eq(&above, &root) {
            return Err(SkepticError::Fingerprint);
        }
        proof {
            lemma_last_index_of_bounds(file@, '.');
        }
        let json = vec!['j', 's', 'o', 'n'];
        assert(json@ =~= seq!['j', 's', 'o', 'n']);
        match find_ext_dot(&file) {
            None => {
                return Err(SkepticError::Fingerprint);
            },
            Some(k) => {
                assert(k < file.len());
                let ext = slice_chars(&file, k + 1, file.len());
                if !chars_eq(&ext, &json) {
                    return Err(SkepticError::Fingerprint);
                }
            },
        }
        let stem = stem_chars(&unit);
        proof {
            lemma_last_index_of_bounds(stem@, '-');
        }
        let (libname, hash) = match find_last(&stem, '-') {
            Some(k) => {
                assert(k < stem.len());
                (
                underscore_chars(&slice_chars(&stem, 0, k)),
                slice_chars(&stem, k + 1, stem.len()),
            )
            },
            None => (Vec::new(), slice_chars(&stem, 0, stem.len())),
        };
        assert(libname@ =~= libname_of(stem@));
        assert(hash@ =~= hash_of(stem@));
        let mut name = vec!['l', 'i', 'b'];
        push_all(&mut name, &libname);
        name.push('-');
        push_all(&mut name, &hash);
        assert(stem@ == unit_stem(pth@));
        assert(name@ =~= seq!['l', 'i', 'b'] + libname_of(unit_stem(pth@)) + seq!['-'] + hash_of(
            unit_stem(pth@),
        ));
        let mut base = pth.duplicate();
        let ghost copied = base.parts@;
        base.parts.truncate(n - 3);
        proof {
            lemma_strs_take(copied, n - 3);
        }
        assert(base.parts@ =~= copied.take(n - 3));
        let deps = vec!['d', 'e', 'p', 's'];
        let deps = string_of(&deps);
        proof {
            lemma_strs_push(base.parts@, deps);
        }
        base.parts.push(deps);
        let file_name = string_of(&name);
        proof {
            lemma_strs_push(base.parts@, file_name);
        }
        base.parts.push(file_name);
        assert(base@ =~= artifact_base(pth@));
        let exts: Vec<&str> = vec!["rlib", "so", "dylib", "dll"];
        proof {
            reveal_strlit("rlib");
            reveal_strlit("so");
            reveal_strlit("dylib");
            reveal_strlit("dll");
        }
        assert(exts@[0]@ == seq!['r', 'l', 'i', 'b']);
        assert(exts@[1]@ == seq!['s', 'o']);
        assert(exts@[2]@ == seq!['d', 'y', 'l', 'i', 'b']);
        assert(exts@[3]@ == seq!['d', 'l', 'l']);
        assert(strs_view(exts@) =~= artifact_exts());
        let rlib = match guess_ext(base, exts.as_slice(), existing) {
            Ok(p) => p,
            Err(e) => return Err(e),
        };
        let libname = string_of(&libname);
        Ok(Fingerprint { libname, version: None, rlib, mtime })
    }

    /// The library name.
    pub fn name(&self) -> (r: String)
        ensures
            r@ == self.libname@,
    {
        self.libname.clone()
    }

    /// The version, where known.
    pub fn version(&self) -> (r: Option<String>)
        ensures
            r == self.version,
    {
        self.version.clone()
    }
}

} // verus!
