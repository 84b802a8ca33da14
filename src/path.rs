use vstd::prelude::*;
use vstd::string::StringExecFns;

verus! {

/// A path given as its components, each as characters.
pub open spec fn comps(v: Seq<String>) -> Seq<Seq<char>> {
    v.map_values(|s: String| s@)
}

/// The components written out with `/` between each two.
pub open spec fn joined(c: Seq<Seq<char>>) -> Seq<char>
    decreases c.len(),
{
    if c.len() == 0 {
        seq![]
    } else if c.len() == 1 {
        c[0]
    } else {
        joined(c.drop_last()) + seq!['/'] + c.last()
    }
}

/// The part of `path` below `base`, when `base` is a leading run of its components.
pub open spec fn relative_to(base: Seq<Seq<char>>, path: Seq<Seq<char>>) -> Option<
    Seq<Seq<char>>,
> {
    if base.len() <= path.len() && path.subrange(0, base.len() as int) == base {
        Some(path.subrange(base.len() as int, path.len() as int))
    } else {
        None
    }
}

/// Appending a string appends its characters as one more component.
pub proof fn lemma_comps_push(v: Seq<String>, s: String)
    ensures
        comps(v.push(s)) == comps(v).push(s@),
{
    assert(comps(v.push(s)) =~= comps(v).push(s@));
}

/// The components written out with `/` between each two.
pub fn join_components(parts: &Vec<String>) -> (r: String)
    ensures
        r@ == joined(comps(parts@)),
{
    let mut r = String::new();
    let mut i: usize = 0;
    while i < parts.len()
        invariant
            0 <= i <= parts@.len(),
            r@ == joined(comps(parts@).subrange(0, i as int)),
        decreases parts@.len() - i,
    {
        let ghost before = comps(parts@).subrange(0, i as int);
        let ghost after = comps(parts@).subrange(0, i + 1);
        assert(after.drop_last() =~= before);
        if i > 0 {
            r.append("/");
            proof {
                reveal_strlit("/");
            }
        }
        r.append(parts[i].as_str());
        proof {
            if i == 0 {
                assert(before.len() == 0);
            }
        }
        i = i + 1;
    }
    assert(comps(parts@).subrange(0, parts@.len() as int) =~= comps(parts@));
    r
}

/// The components of `path` below `base`, or `None` when `path` does not lie under `base`.
pub fn strip_base(base: &Vec<String>, path: &Vec<String>) -> (r: Option<Vec<String>>)
    ensures
        match r {
            Some(rest) => relative_to(comps(base@), comps(path@)) == Some(comps(rest@)),
            None => relative_to(comps(base@), comps(path@)) is None,
        },
{
    let ghost b = comps(base@);
    let ghost p = comps(path@);
    if base.len() > path.len() {
        return None;
    }
    let mut i: usize = 0;
    while i < base.len()
        invariant
            base@.len() <= path@.len(),
            0 <= i <= base@.len(),
            b == comps(base@),
            p == comps(path@),
            forall|j: int| 0 <= j < i ==> #[trigger] b[j] == p[j],
        decreases base@.len() - i,
    {
        if base[i] != path[i] {
            assert(p.subrange(0, b.len() as int)[i as int] != b[i as int]);
            return None;
        }
        i = i + 1;
    }
    assert(p.subrange(0, b.len() as int) =~= b);
    let mut rest: Vec<String> = Vec::new();
    let mut k: usize = base.len();
    while k < path.len()
        invariant
            base@.len() <= k <= path@.len(),
            p == comps(path@),
            comps(rest@) =~= p.subrange(base@.len() as int, k as int),
        decreases path@.len() - k,
    {
        let ghost before = rest@;
        rest.push(path[k].clone());
        proof {
            lemma_comps_push(before, rest@.last());
            assert(p.subrange(base@.len() as int, k + 1) =~= p.subrange(
                base@.len() as int,
                k as int,
            ).push(p[k as int]));
        }
        k = k + 1;
    }
    Some(rest)
}

/// The root of a subtree: `root` followed by one more component.
pub fn subtree_root(root: &Vec<String>, name: &String) -> (r: Vec<String>)
    ensures
        comps(r@) == comps(root@).push(name@),
{
    let mut r: Vec<String> = Vec::new();
    let mut k: usize = 0;
    while k < root.len()
        invariant
            0 <= k <= root@.len(),
            comps(r@) =~= comps(root@).subrange(0, k as int),
        decreases root@.len() - k,
    {
        let ghost before = r@;
        r.push(root[k].clone());
        proof {
            lemma_comps_push(before, r@.last());
            assert(comps(root@).subrange(0, k + 1) =~= comps(root@).subrange(0, k as int).push(
                root@[k as int]@,
            ));
        }
        k = k + 1;
    }
    let ghost before = r@;
    r.push(name.clone());
    proof {
        lemma_comps_push(before, r@.last());
        assert(comps(root@).subrange(0, root@.len() as int) =~= comps(root@));
    }
    r
}

} // verus!
