use vstd::prelude::*;

use crate::edition::edition_flag;
use crate::fingerprint::{FilePath, Fingerprint};
use crate::resolve::fps_view;
use crate::text::{chars_of, lemma_strs_push, lemma_strs_take, push_all, string_of, strs};

verus! {

/// What the compiler is asked to produce.
#[derive(Clone, Copy, Debug, PartialEq, Eq, Structural)]
pub enum CompileType {
    /// A linked executable.
    Full,
    /// Dependency info and metadata only, with no link step.
    Check,
}

/// The text of a path: its components joined by `/`, with no extra `/`
/// after the root.
pub open spec fn path_text(p: Seq<Seq<char>>) -> Seq<char>
    decreases p.len(),
{
    if p.len() == 0 {
        Seq::empty()
    } else {
        let r = path_text(p.drop_last());
        if r.len() == 0 {
            p.last()
        } else if r.last() == '/' {
            r + p.last()
        } else {
            r + seq!['/'] + p.last()
        }
    }
}

/// The path after one `pop`: without its last component, unless it is
/// empty or the root alone.
pub open spec fn pop_once(p: Seq<Seq<char>>) -> Seq<Seq<char>> {
    if p.len() > 0 && p.last() != seq!['/'] {
        p.drop_last()
    } else {
        p
    }
}

/// The path after `n` pops.
pub open spec fn pop_times(p: Seq<Seq<char>>, n: nat) -> Seq<Seq<char>>
    decreases n,
{
    if n == 0 {
        p
    } else {
        pop_once(pop_times(p, (n - 1) as nat))
    }
}

/// The arguments that bind each resolved library name to its artifact.
pub open spec fn extern_args(deps: Seq<crate::fingerprint::FingerprintView>) -> Seq<Seq<char>>
    decreases deps.len(),
{
    if deps.len() == 0 {
        Seq::empty()
    } else {
        extern_args(deps.drop_last()).push("--extern"@).push(
            deps.last().libname + "="@ + path_text(deps.last().rlib),
        )
    }
}

/// The arguments that name the compiler's output.
pub open spec fn output_args(out: Seq<char>, kind: CompileType) -> Seq<Seq<char>> {
    match kind {
        CompileType::Full => seq!["-o"@, out],
        CompileType::Check => seq!["--emit=dep-info="@ + out + ".d,metadata="@ + out + ".m"@],
    }
}

impl FilePath {
    /// The text of the path.
    pub fn to_text(&self) -> (r: String)
        ensures
            r@ == path_text(self@),
    {
        let mut acc: Vec<char> = Vec::new();
        let mut i: usize = 0;
        while i < self.parts.len()
            invariant
                i <= self.parts.len(),
                acc@ == path_text(self@.take(i as int)),
            decreases self.parts.len() - i,
        {
            assert(self@.take(i + 1).drop_last() =~= self@.take(i as int));
            let part = chars_of(self.parts[i].as_str());
            assert(part@ == self@[i as int]);
            if acc.len() > 0 && acc[acc.len() - 1] != '/' {
                acc.push('/');
            }
            push_all(&mut acc, &part);
            i = i + 1;
            assert(acc@ =~= path_text(self@.take(i as int)));
        }
        assert(self@.take(i as int) =~= self@);
        string_of(&acc)
    }

    /// The path with its last component removed `n` times, as repeated
    /// `PathBuf::pop` does: the root and the empty path stay as they are.
    pub fn pop_levels(&self, n: usize) -> (r: FilePath)
        ensures
            r@ == pop_times(self@, n as nat),
    {
        let mut r = self.duplicate();
        let mut k: usize = 0;
        while k < n
            invariant
                k <= n,
                r@ == pop_times(self@, k as nat),
            decreases n - k,
        {
            let len = r.parts.len();
            if len > 0 && r.parts[len - 1].as_str().unicode_len() == 1 && r.parts[len - 1].as_str().get_char(0) == '/' {
                assert(r@.last() =~= seq!['/']);
            } else if len > 0 {
                let ghost before = r.parts@;
                r.parts.pop();
                proof {
                    lemma_strs_take(before, len - 1);
                }
                assert(r.parts@ =~= before.take(len - 1));
                assert(r@ =~= pop_once(strs(before)));
            }
            k = k + 1;
        }
        r
    }
}

/// Appends the text of `b` to `a`.
fn append_text(a: &mut Vec<char>, b: &str)
    ensures
        final(a)@ == old(a)@ + b@,
{
    let c = chars_of(b);
    push_all(a, &c);
}

/// The compiler's arguments: the source file, the crate type, the edition
/// flag where one is needed, the two library search paths, the target, one
/// `--extern name=path` pair per resolved dependency, and the output request.
pub fn compile_args(
    in_path: &FilePath,
    out_path: &FilePath,
    target_dir: &FilePath,
    deps_dir: &FilePath,
    target_triple: &String,
    edition: &String,
    deps: &Vec<Fingerprint>,
    kind: CompileType,
) -> (r: Vec<String>)
    ensures
        strs(r@) == seq![path_text(in_path@), "--verbose"@, "--crate-type=bin"@] + (if edition@
            == "2015"@ {
            Seq::empty()
        } else {
            seq!["--edition="@ + edition@]
        }) + seq![
            "-L"@,
            path_text(target_dir@),
            "-L"@,
            path_text(deps_dir@),
            "--target"@,
            target_triple@,
        ] + extern_args(fps_view(deps@)) + output_args(path_text(out_path@), kind),
{
    let mut r: Vec<String> = Vec::new();
    let ghost head = seq![path_text(in_path@), "--verbose"@, "--crate-type=bin"@];
    push_arg(&mut r, in_path.to_text());
    push_arg(&mut r, String::from_str("--verbose"));
    push_arg(&mut r, String::from_str("--crate-type=bin"));
    assert(strs(r@) =~= head);
    let ghost ed = if edition@ == "2015"@ {
        Seq::<Seq<char>>::empty()
    } else {
        seq!["--edition="@ + edition@]
    };
    match edition_flag(edition) {
        Some(flag) => push_arg(&mut r, flag),
        None => {},
    }
    assert(strs(r@) =~= head + ed);
    let ghost mid = seq![
        "-L"@,
        path_text(target_dir@),
        "-L"@,
        path_text(deps_dir@),
        "--target"@,
        target_triple@,
    ];
    push_arg(&mut r, String::from_str("-L"));
    push_arg(&mut r, target_dir.to_text());
    push_arg(&mut r, String::from_str("-L"));
    push_arg(&mut r, deps_dir.to_text());
    push_arg(&mut r, String::from_str("--target"));
    push_arg(&mut r, target_triple.clone());
    assert(strs(r@) =~= head + ed + mid);
    let ghost start = strs(r@);
    let mut i: usize = 0;
    assert(fps_view(deps@).take(0) =~= Seq::<crate::fingerprint::FingerprintView>::empty());
    assert(start =~= start + extern_args(fps_view(deps@).take(0)));
    while i < deps.len()
        invariant
            i <= deps.len(),
            strs(r@) == start + extern_args(fps_view(deps@).take(i as int)),
        decreases deps.len() - i,
    {
        let d = &deps[i];
        assert(fps_view(deps@).take(i + 1).drop_last() =~= fps_view(deps@).take(i as int));
        assert(fps_view(deps@).take(i + 1).last() == d@);
        push_arg(&mut r, String::from_str("--extern"));
        let mut bind = chars_of(d.libname.as_str());
        append_text(&mut bind, "=");
        let rlib = d.rlib.to_text();
        append_text(&mut bind, rlib.as_str());
        push_arg(&mut r, string_of(&bind));
        i = i + 1;
        assert(strs(r@) =~= start + extern_args(fps_view(deps@).take(i as int)));
    }
    assert(fps_view(deps@).take(i as int) =~= fps_view(deps@));
    let ghost body = strs(r@);
    let out = out_path.to_text();
    match kind {
        CompileType::Full => {
            push_arg(&mut r, String::from_str("-o"));
            push_arg(&mut r, out);
        },
        CompileType::Check => {
            let mut emit = chars_of("--emit=dep-info=");
            append_text(&mut emit, out.as_str());
            append_text(&mut emit, ".d,metadata=");
            append_text(&mut emit, out.as_str());
            append_text(&mut emit, ".m");
            push_arg(&mut r, string_of(&emit));
        },
    }
    assert(strs(r@) =~= body + output_args(path_text(out_path@), kind));
    r
}

/// Appends one argument.
fn push_arg(r: &mut Vec<String>, a: String)
    ensures
        strs(final(r)@) == strs(old(r)@).push(a@),
{
    proof {
        lemma_strs_push(r@, a);
    }
    r.push(a);
}

} // verus!
