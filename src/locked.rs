use vstd::prelude::*;

use crate::text::{lemma_strs_push, strs, chars_of, split_words, string_of, underscore_chars, underscored, words};
use crate::SkepticError;

verus! {

/// One node of the resolved dependency graph: a package id and the ids of
/// the packages it depends on.
pub struct PackageNode {
    pub id: String,
    pub dependencies: Vec<String>,
}

/// What the build-metadata query reports of a project.
pub struct ProjectMetadata {
    /// The ids of the workspace members.
    pub workspace_members: Vec<String>,
    /// The resolved graph; absent for a project without a lock.
    pub resolve: Option<Vec<PackageNode>>,
    /// The declared edition of every package.
    pub editions: Vec<String>,
}


proof fn lemma_union_step(
    p: Map<Seq<char>, Seq<char>>,
    n: Seq<char>,
    v: Seq<char>,
    l: Map<Seq<char>, Seq<char>>,
)
    ensures
        p.union_prefer_right(map![n => v].union_prefer_right(l)) == p.insert(n, v).union_prefer_right(l),
{
    assert(p.union_prefer_right(map![n => v].union_prefer_right(l)) =~= p.insert(n, v).union_prefer_right(l));
}

/// The dependency ids of the nodes that are workspace members, node by node.
pub open spec fn member_deps(members: Seq<Seq<char>>, nodes: Seq<PackageNode>) -> Seq<Seq<char>>
    decreases nodes.len(),
{
    if nodes.len() == 0 {
        Seq::empty()
    } else {
        let rest = member_deps(members, nodes.drop_last());
        let n = nodes.last();
        if members.contains(n.id@) {
            rest + strs(n.dependencies@)
        } else {
            rest
        }
    }
}

/// The parsed `(name, version)` of a package id written `name version ...`,
/// with the name's `-` turned into `_`.
pub open spec fn parse_dep(repr: Seq<char>) -> Option<(Seq<char>, Seq<char>)> {
    let ws = words(repr);
    if ws.len() >= 2 {
        Some((underscored(ws[0]), ws[1]))
    } else {
        None
    }
}

/// The locked versions, read from the end of `deps` back to its start until
/// an id fails to parse; where a name repeats, the entry read last wins.
pub open spec fn locked_map(deps: Seq<Seq<char>>) -> Map<Seq<char>, Seq<char>>
    decreases deps.len(),
{
    if deps.len() == 0 {
        Map::empty()
    } else {
        match parse_dep(deps.last()) {
            None => Map::empty(),
            Some((n, v)) => map![n => v].union_prefer_right(locked_map(deps.drop_last())),
        }
    }
}

/// The view of a list of `(name, version)` pairs as a map: a later pair
/// overrides an earlier one of the same name.
pub open spec fn pairs_map(s: Seq<(String, String)>) -> Map<Seq<char>, Seq<char>>
    decreases s.len(),
{
    if s.len() == 0 {
        Map::empty()
    } else {
        pairs_map(s.drop_last()).insert(s.last().0@, s.last().1@)
    }
}

/// The package ids of the workspace members' dependencies, followed by the
/// members themselves.
pub struct LockedDeps {
    pub dependencies: Vec<String>,
}

/// Whether `s` occurs in `v`.
fn contains_string(v: &Vec<String>, s: &String) -> (r: bool)
    ensures
        r == strs(v@).contains(s@),
{
    let mut i: usize = 0;
    while i < v.len()
        invariant
            i <= v.len(),
            forall|j: int| 0 <= j < i ==> v@[j]@ != s@,
        decreases v.len() - i,
    {
        if v[i] == *s {
            assert(strs(v@)[i as int] == s@);
            return true;
        }
        i = i + 1;
    }
    proof {
        if strs(v@).contains(s@) {
            let k = choose|k: int| 0 <= k < v@.len() && #[trigger] strs(v@)[k] == s@;
            assert(v@[k]@ == s@);
        }
    }
    false
}

impl LockedDeps {
    /// Collects the locked dependencies of a project from its metadata: the
    /// dependencies of every workspace member, then the members themselves.
    /// Fails when the metadata holds no resolved graph.
    pub fn from_path(meta: &ProjectMetadata) -> (r: Result<LockedDeps, SkepticError>)
        ensures
            meta.resolve is None <==> r is Err,
            r is Err ==> r == Err::<LockedDeps, SkepticError>(SkepticError::Metadata),
            r matches Ok(l) ==> strs(l.dependencies@) == member_deps(
                strs(meta.workspace_members@),
                meta.resolve->Some_0@,
            ) + strs(meta.workspace_members@),
    {
        let nodes = match &meta.resolve {
            None => return Err(SkepticError::Metadata),
            Some(nodes) => nodes,
        };
        let members = &meta.workspace_members;
        let mut deps: Vec<String> = Vec::new();
        let mut i: usize = 0;
        while i < nodes.len()
            invariant
                i <= nodes.len(),
                strs(deps@) == member_deps(strs(members@), nodes@.take(i as int)),
            decreases nodes.len() - i,
        {
            assert(nodes@.take(i + 1).drop_last() =~= nodes@.take(i as int));
            let node = &nodes[i];
            if contains_string(members, &node.id) {
                let ghost before = strs(deps@);
                let mut j: usize = 0;
                while j < node.dependencies.len()
                    invariant
                        j <= node.dependencies.len(),
                        strs(deps@) == before + strs(node.dependencies@).take(j as int),
                    decreases node.dependencies.len() - j,
                {
                    let d = node.dependencies[j].clone();
                    proof {
                        lemma_strs_push(deps@, d);
                    }
                    deps.push(d);
                    j = j + 1;
                    assert(strs(deps@) =~= before + strs(node.dependencies@).take(j as int));
                }
                assert(strs(node.dependencies@).take(j as int) =~= strs(node.dependencies@));
            }
            i = i + 1;
        }
        assert(nodes@.take(nodes.len() as int) =~= nodes@);
        let ghost before = strs(deps@);
        let mut k: usize = 0;
        while k < members.len()
            invariant
                k <= members.len(),
                strs(deps@) == before + strs(members@).take(k as int),
            decreases members.len() - k,
        {
            let m = members[k].clone();
            proof {
                lemma_strs_push(deps@, m);
            }
            deps.push(m);
            k = k + 1;
            assert(strs(deps@) =~= before + strs(members@).take(k as int));
        }
        assert(strs(members@).take(k as int) =~= strs(members@));
        Ok(LockedDeps { dependencies: deps })
    }

    /// Takes the last package id off the list and parses it into a
    /// `(name, version)` pair; `None` when the list is empty or the id has
    /// fewer than two words.
    pub fn next(&mut self) -> (r: Option<(String, String)>)
        ensures
            old(self).dependencies@.len() == 0 ==> r is None && final(self).dependencies@ == old(
                self,
            ).dependencies@,
            old(self).dependencies@.len() > 0 ==> final(self).dependencies@ == old(
                self,
            ).dependencies@.drop_last(),
            old(self).dependencies@.len() > 0 ==> match r {
                Some(p) => parse_dep(old(self).dependencies@.last()@) == Some((p.0@, p.1@)),
                None => parse_dep(old(self).dependencies@.last()@) is None,
            },
    {
        match self.dependencies.pop() {
            None => None,
            Some(val) => {
                let ws = split_words(&chars_of(val.as_str()));
                if ws.len() >= 2 {
                    assert(ws@.map_values(|w: Vec<char>| w@)[0] == ws@[0]@);
                    assert(ws@.map_values(|w: Vec<char>| w@)[1] == ws@[1]@);
                    let name = string_of(&underscore_chars(&ws[0]));
                    let version = string_of(&ws[1]);
                    Some((name, version))
                } else {
                    None
                }
            },
        }
    }

    /// Reads every parsable pair, from the last package id back to the first,
    /// stopping at the first id that does not parse.
    pub fn collect_pairs(self) -> (r: Vec<(String, String)>)
        ensures
            pairs_map(r@) == locked_map(strs(self.dependencies@)),
    {
        let mut it = self;
        let mut r: Vec<(String, String)> = Vec::new();
        let ghost full = locked_map(strs(it.dependencies@));
        assert(pairs_map(r@).union_prefer_right(full) =~= full);
        loop
            invariant
                full == locked_map(strs(self.dependencies@)),
                full == pairs_map(r@).union_prefer_right(locked_map(strs(it.dependencies@))),
            decreases it.dependencies.len(),
        {
            let ghost prev = strs(it.dependencies@);
            let ghost before = it.dependencies@;
            let ghost old_r = r@;
            match it.next() {
                None => {
                    proof {
                        if before.len() > 0 {
                            assert(prev.last() == before.last()@);
                        }
                    }
                    assert(locked_map(prev) =~= Map::<Seq<char>, Seq<char>>::empty());
                    assert(pairs_map(r@).union_prefer_right(locked_map(prev)) =~= pairs_map(r@));
                    return r;
                },
                Some(p) => {
                    assert(strs(it.dependencies@) =~= prev.drop_last());
                    assert(prev.last() == before.last()@);
                    assert(locked_map(prev) == map![p.0@ => p.1@].union_prefer_right(
                        locked_map(prev.drop_last()),
                    ));
                    let ghost n = p.0@;
                    let ghost v = p.1@;
                    r.push(p);
                    assert(r@.drop_last() =~= old_r);
                    assert(pairs_map(r@) == pairs_map(old_r).insert(n, v));
                    proof {
                        lemma_union_step(pairs_map(old_r), n, v, locked_map(prev.drop_last()));
                    }
                    assert(pairs_map(r@).union_prefer_right(locked_map(strs(it.dependencies@)))
                        =~= full);
                },
            }
        }
    }
}

} // verus!
