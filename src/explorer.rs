use vstd::prelude::*;
use crate::path::{
    comps, join_components, joined, lemma_comps_push, relative_to, strip_base, subtree_root,
};
use crate::pattern::{
    all_globs_valid, all_regexes_valid, compiled_globs, compiled_regexes, first_bad_glob,
    first_bad_regex, glob_match, parse_include, parse_include_regex, path_matches_include,
    path_matches_include_regex, regex_match, ExplorerBuilderError, Glob, Rx,
};

verus! {

/// The generation of a cgroup hierarchy.
#[derive(Clone, Copy, Debug, PartialEq, Eq, Structural)]
pub enum Generation {
    /// One subtree per controller.
    V1,
    /// One unified tree.
    V2,
}

/// One item that a directory walk reports.
pub enum WalkItem {
    /// An entry below the walk's root: its full path as components, and
    /// whether it is a directory.
    Entry { path: Vec<String>, is_dir: bool },
    /// The walk could not go on.
    Failed,
}

/// What a unified-tree enumeration does with one walk item.
#[derive(Debug, PartialEq, Eq)]
pub enum V2Step {
    /// Not a cgroup that passes the filter: go on with the next item.
    Skip,
    /// A cgroup: its path relative to the hierarchy root.
    Yield(String),
    /// The walk failed: the enumeration ends.
    Stop,
}

/// Relies on `cgroups_rs::hierarchies::is_cgroup2_unified_mode`: whether the
/// system runs the unified hierarchy.
#[verifier::external_body]
fn unified_mode() -> (r: bool) {
    cgroups_rs::hierarchies::is_cgroup2_unified_mode()
}

/// Configuration of an explorer, before its patterns are compiled.
pub struct ExplorerBuilder {
    generation: Generation,
    globs: Vec<String>,
    regexes: Vec<String>,
}

/// An immutable configuration that decides which directories of a walk are
/// cgroups to report.
pub struct Explorer {
    generation: Generation,
    globs: Vec<Glob>,
    regexes: Vec<Rx>,
}

/// Whether some item of `items` is a failure.
pub open spec fn has_failure(items: Seq<WalkItem>) -> bool {
    exists|i: int| 0 <= i < items.len() && #[trigger] items[i] is Failed
}

/// The relative path of a walk item, when it is a directory strictly below `base`.
pub open spec fn candidate(base: Seq<Seq<char>>, item: WalkItem) -> Option<Seq<char>> {
    match item {
        WalkItem::Failed => None,
        WalkItem::Entry { path, is_dir } => {
            if !is_dir {
                None
            } else {
                match relative_to(base, comps(path@)) {
                    Some(rel) => if rel.len() > 0 {
                        Some(joined(rel))
                    } else {
                        None
                    },
                    None => None,
                }
            }
        },
    }
}

/// The candidates of a walk up to its first failure, in walk order.
pub open spec fn candidates_before_failure(base: Seq<Seq<char>>, items: Seq<WalkItem>) -> Seq<
    Seq<char>,
>
    decreases items.len(),
{
    if items.len() == 0 {
        seq![]
    } else {
        let prev = candidates_before_failure(base, items.drop_last());
        if has_failure(items.drop_last()) {
            prev
        } else {
            match candidate(base, items.last()) {
                Some(p) => prev.push(p),
                None => prev,
            }
        }
    }
}

impl ExplorerBuilder {
    pub closed spec fn spec_generation(&self) -> Generation {
        self.generation
    }

    pub closed spec fn glob_texts(&self) -> Seq<String> {
        self.globs@
    }

    pub closed spec fn regex_texts(&self) -> Seq<String> {
        self.regexes@
    }

    /// A builder for the given generation, with no patterns.
    pub fn for_generation(generation: Generation) -> (r: ExplorerBuilder)
        ensures
            r.spec_generation() == generation,
            r.glob_texts().len() == 0,
            r.regex_texts().len() == 0,
    {
        ExplorerBuilder { generation, globs: Vec::new(), regexes: Vec::new() }
    }

    /// Sets the globs that relative paths are matched against.
    pub fn include_globs(self, globs: Vec<String>) -> (r: ExplorerBuilder)
        ensures
            r.spec_generation() == self.spec_generation(),
            r.glob_texts() == globs@,
            r.regex_texts() == self.regex_texts(),
    {
        ExplorerBuilder { generation: self.generation, globs, regexes: self.regexes }
    }

    /// Sets the regular expressions that relative paths are matched against.
    pub fn include_regex(self, regexes: Vec<String>) -> (r: ExplorerBuilder)
        ensures
            r.spec_generation() == self.spec_generation(),
            r.glob_texts() == self.glob_texts(),
            r.regex_texts() == regexes@,
    {
        ExplorerBuilder { generation: self.generation, globs: self.globs, regexes }
    }

    /// Compiles the patterns: the globs first, then the regular expressions.
    /// Fails on the first pattern that does not compile.
    pub fn build(self) -> (r: Result<Explorer, ExplorerBuilderError>)
        ensures
            r is Ok <==> all_globs_valid(self.glob_texts()) && all_regexes_valid(
                self.regex_texts(),
            ),
            r matches Ok(e) ==> e.spec_generation() == self.spec_generation() && e.glob_texts()
                == comps(self.glob_texts()) && e.regex_texts() == comps(self.regex_texts()),
            r matches Err(err) ==> if !all_globs_valid(self.glob_texts()) {
                first_bad_glob(err, self.glob_texts())
            } else {
                first_bad_regex(err, self.regex_texts())
            },
    {
        let ghost gt = self.globs@;
        let ghost rt = self.regexes@;
        let globs = match parse_include(self.globs) {
            Ok(g) => g,
            Err(e) => {
                return Err(e);
            },
        };
        let regexes = match parse_include_regex(self.regexes) {
            Ok(x) => x,
            Err(e) => {
                return Err(e);
            },
        };
        let r = Explorer { generation: self.generation, globs, regexes };
        assert(r.glob_texts() =~= comps(gt));
        assert(r.regex_texts() =~= comps(rt));
        Ok(r)
    }
}

impl Explorer {
    pub closed spec fn spec_generation(&self) -> Generation {
        self.generation
    }

    /// The texts of the globs, in order.
    pub closed spec fn glob_texts(&self) -> Seq<Seq<char>> {
        self.globs@.map_values(|g: Glob| g@)
    }

    /// The texts of the regular expressions, in order.
    pub closed spec fn regex_texts(&self) -> Seq<Seq<char>> {
        self.regexes@.map_values(|x: Rx| x@)
    }

    /// Whether the filter lets `text` through: with no patterns at all every
    /// path passes; otherwise a path passes when any glob or any regular
    /// expression matches it.
    pub open spec fn accepts_spec(&self, text: Seq<char>) -> bool {
        (self.glob_texts().len() == 0 && self.regex_texts().len() == 0) || (exists|i: int|
            0 <= i < self.glob_texts().len() && glob_match(#[trigger] self.glob_texts()[i], text))
            || (exists|i: int|
            0 <= i < self.regex_texts().len() && regex_match(
                #[trigger] self.regex_texts()[i],
                text,
            ))
    }

    /// The relative path that a walk item under `base` contributes, if any.
    pub open spec fn accepted_spec(&self, base: Seq<Seq<char>>, item: WalkItem) -> Option<
        Seq<char>,
    > {
        match candidate(base, item) {
            Some(p) => if self.accepts_spec(p) {
                Some(p)
            } else {
                None
            },
            None => None,
        }
    }

    /// The paths that a unified-tree enumeration yields from a walk, in order.
    pub open spec fn v2_found(&self, base: Seq<Seq<char>>, items: Seq<WalkItem>) -> Seq<
        Seq<char>,
    >
        decreases items.len(),
    {
        if items.len() == 0 {
            seq![]
        } else {
            let prev = self.v2_found(base, items.drop_last());
            if has_failure(items.drop_last()) {
                prev
            } else {
                match self.accepted_spec(base, items.last()) {
                    Some(p) => prev.push(p),
                    None => prev,
                }
            }
        }
    }

    /// Whether a per-controller enumeration finds `p`: some controller whose
    /// walk did not fail holds a directory at relative path `p` that passes
    /// the filter.
    pub open spec fn v1_finds(
        &self,
        root: Seq<Seq<char>>,
        names: Seq<Seq<char>>,
        walks: Seq<Seq<WalkItem>>,
        p: Seq<char>,
    ) -> bool {
        exists|k: int, j: int|
            0 <= k < walks.len() && !has_failure(walks[k]) && 0 <= j < walks[k].len()
                && #[trigger] self.accepted_spec(root.push(names[k]), walks[k][j]) == Some(p)
    }
}

/// Whether some item of the walk is a failure.
fn walk_failed(items: &Vec<WalkItem>) -> (r: bool)
    ensures
        r == has_failure(items@),
{
    let mut i: usize = 0;
    while i < items.len()
        invariant
            0 <= i <= items@.len(),
            forall|j: int| 0 <= j < i ==> !(#[trigger] items@[j] is Failed),
        decreases items@.len() - i,
    {
        if let WalkItem::Failed = &items[i] {
            return true;
        }
        i = i + 1;
    }
    false
}

/// Whether `v` holds a string with the characters of `s`.
fn holds_text(v: &Vec<String>, s: &String) -> (r: bool)
    ensures
        r == comps(v@).contains(s@),
{
    let mut i: usize = 0;
    while i < v.len()
        invariant
            0 <= i <= v@.len(),
            forall|j: int| 0 <= j < i ==> #[trigger] comps(v@)[j] != s@,
        decreases v@.len() - i,
    {
        if v[i] == *s {
            assert(comps(v@)[i as int] == s@);
            return true;
        }
        i = i + 1;
    }
    false
}

impl Explorer {
    /// A builder for the per-controller (v1) hierarchy.
    pub fn v1() -> (r: ExplorerBuilder)
        ensures
            r.spec_generation() == Generation::V1,
            r.glob_texts().len() == 0,
            r.regex_texts().len() == 0,
    {
        ExplorerBuilder::for_generation(Generation::V1)
    }

    /// A builder for the unified (v2) hierarchy.
    pub fn v2() -> (r: ExplorerBuilder)
        ensures
            r.spec_generation() == Generation::V2,
            r.glob_texts().len() == 0,
            r.regex_texts().len() == 0,
    {
        ExplorerBuilder::for_generation(Generation::V2)
    }

    /// A builder for the generation that the system runs: v2 when the
    /// unified hierarchy is mounted, v1 otherwise.
    pub fn detect_version() -> (r: ExplorerBuilder)
        ensures
            r.glob_texts().len() == 0,
            r.regex_texts().len() == 0,
    {
        Explorer::for_unified_mode(unified_mode())
    }

    /// A builder for the generation that a system runs, given whether its
    /// unified hierarchy is active: v2 when it is, v1 otherwise.
    pub fn for_unified_mode(unified: bool) -> (r: ExplorerBuilder)
        ensures
            r.spec_generation() == (if unified {
                Generation::V2
            } else {
                Generation::V1
            }),
            r.glob_texts().len() == 0,
            r.regex_texts().len() == 0,
    {
        if unified {
            ExplorerBuilder::for_generation(Generation::V2)
        } else {
            ExplorerBuilder::for_generation(Generation::V1)
        }
    }

    /// The hierarchy generation this explorer walks.
    pub fn generation(&self) -> (r: Generation)
        ensures
            r == self.spec_generation(),
    {
        self.generation
    }

    /// Whether the filter lets the relative path `text` through.
    pub fn accepts(&self, text: &str) -> (r: bool)
        ensures
            r == self.accepts_spec(text@),
    {
        proof {
            assert forall|i: int| 0 <= i < self.globs@.len() implies #[trigger] self.glob_texts()[i]
                == self.globs@[i]@ by {}
            assert forall|i: int| 0 <= i < self.regexes@.len() implies
                #[trigger] self.regex_texts()[i] == self.regexes@[i]@ by {}
        }
        if self.globs.len() == 0 && self.regexes.len() == 0 {
            return true;
        }
        if self.globs.len() > 0 && path_matches_include(&self.globs, text) {
            proof {
                let i = choose|i: int|
                    0 <= i < self.globs@.len() && glob_match(#[trigger] self.globs@[i]@, text@);
                assert(glob_match(self.glob_texts()[i], text@));
            }
            return true;
        }
        if self.regexes.len() > 0 && path_matches_include_regex(&self.regexes, text) {
            proof {
                let i = choose|i: int|
                    0 <= i < self.regexes@.len() && regex_match(#[trigger] self.regexes@[i]@, text@);
                assert(regex_match(self.regex_texts()[i], text@));
            }
            return true;
        }
        proof {
            assert forall|i: int| 0 <= i < self.glob_texts().len() implies !glob_match(
                #[trigger] self.glob_texts()[i],
                text@,
            ) by {
                assert(glob_match(self.globs@[i]@, text@) ==> glob_match(self.glob_texts()[i], text@));
            }
            assert forall|i: int| 0 <= i < self.regex_texts().len() implies !regex_match(
                #[trigger] self.regex_texts()[i],
                text@,
            ) by {
                assert(regex_match(self.regexes@[i]@, text@) ==> regex_match(self.regex_texts()[i], text@));
            }
        }
        false
    }

    /// The relative path that a walk item under `base` contributes: the item
    /// must be a directory strictly below `base` whose relative path passes
    /// the filter.
    pub fn accepted_path(&self, base: &Vec<String>, item: &WalkItem) -> (r: Option<String>)
        ensures
            match r {
                Some(s) => self.accepted_spec(comps(base@), *item) == Some(s@),
                None => self.accepted_spec(comps(base@), *item) is None,
            },
    {
        match item {
            WalkItem::Failed => None,
            WalkItem::Entry { path, is_dir } => {
                if !*is_dir {
                    return None;
                }
                match strip_base(base, path) {
                    None => None,
                    Some(rel) => {
                        if rel.len() == 0 {
                            return None;
                        }
                        let text = join_components(&rel);
                        if self.accepts(text.as_str()) {
                            Some(text)
                        } else {
                            None
                        }
                    },
                }
            },
        }
    }

    /// What a unified-tree enumeration does with one walk item of the
    /// hierarchy rooted at `base`: a failure ends it, an accepted directory
    /// is yielded, anything else is skipped.
    pub fn v2_step(&self, base: &Vec<String>, item: &WalkItem) -> (r: V2Step)
        ensures
            match r {
                V2Step::Stop => *item is Failed,
                V2Step::Yield(s) => !(*item is Failed) && self.accepted_spec(comps(base@), *item)
                    == Some(s@),
                V2Step::Skip => !(*item is Failed) && self.accepted_spec(comps(base@), *item) is None,
            },
    {
        if let WalkItem::Failed = item {
            return V2Step::Stop;
        }
        match self.accepted_path(base, item) {
            Some(s) => V2Step::Yield(s),
            None => V2Step::Skip,
        }
    }

    /// The paths that a unified-tree enumeration yields from a whole walk of
    /// the hierarchy rooted at `base`, in walk order, up to its first failure.
    pub fn collect_v2(&self, base: &Vec<String>, items: &Vec<WalkItem>) -> (r: Vec<String>)
        ensures
            comps(r@) == self.v2_found(comps(base@), items@),
    {
        let ghost b = comps(base@);
        let mut out: Vec<String> = Vec::new();
        let mut i: usize = 0;
        while i < items.len()
            invariant
                0 <= i <= items@.len(),
                b == comps(base@),
                !has_failure(items@.subrange(0, i as int)),
                comps(out@) == self.v2_found(b, items@.subrange(0, i as int)),
            decreases items@.len() - i,
        {
            let ghost pre = items@.subrange(0, i as int);
            let ghost next = items@.subrange(0, i + 1);
            assert(next.drop_last() =~= pre);
            match self.v2_step(base, &items[i]) {
                V2Step::Stop => {
                    proof {
                        self.lemma_found_stops(b, items@, i as int);
                        assert(items@.subrange(0, items@.len() as int) =~= items@);
                    }
                    return out;
                },
                V2Step::Yield(s) => {
                    let ghost before = out@;
                    out.push(s);
                    proof {
                        lemma_comps_push(before, out@.last());
                    }
                },
                V2Step::Skip => {},
            }
            proof {
                assert(!(items@[i as int] is Failed));
                assert forall|j: int| 0 <= j < next.len() implies !(#[trigger] next[j] is Failed) by {
                    if j < i {
                        assert(next[j] == pre[j]);
                    }
                }
            }
            i = i + 1;
        }
        assert(items@.subrange(0, items@.len() as int) =~= items@);
        out
    }

    /// Once the walk has failed at `i`, later items change nothing.
    proof fn lemma_found_stops(&self, base: Seq<Seq<char>>, items: Seq<WalkItem>, i: int)
        requires
            0 <= i < items.len(),
            items[i] is Failed,
        ensures
            forall|n: int|
                i < n <= items.len() ==> #[trigger] self.v2_found(base, items.subrange(0, n))
                    == self.v2_found(base, items.subrange(0, i)),
        decreases items.len() - i,
    {
        assert forall|n: int| i < n <= items.len() implies #[trigger] self.v2_found(
            base,
            items.subrange(0, n),
        ) == self.v2_found(base, items.subrange(0, i)) by {
            self.lemma_found_stops_at(base, items, i, n);
        }
    }

    proof fn lemma_found_stops_at(&self, base: Seq<Seq<char>>, items: Seq<WalkItem>, i: int, n: int)
        requires
            0 <= i < n <= items.len(),
            items[i] is Failed,
        ensures
            self.v2_found(base, items.subrange(0, n)) == self.v2_found(base, items.subrange(0, i)),
        decreases n,
    {
        assert(items.subrange(0, n).drop_last() =~= items.subrange(0, n - 1));
        if n == i + 1 {
            assert(items.subrange(0, n).last() == items[i]);
        } else {
            self.lemma_found_stops_at(base, items, i, n - 1);
            assert(items.subrange(0, n - 1)[i] is Failed);
        }
    }
}

impl Explorer {
    /// The distinct relative paths that a per-controller enumeration finds.
    /// `walks[k]` is the walk of the subtree `root/names[k]`; a walk that
    /// reports any failure contributes nothing. Each path appears once; the
    /// order carries no meaning.
    pub fn collect_v1(
        &self,
        root: &Vec<String>,
        names: &Vec<String>,
        walks: &Vec<Vec<WalkItem>>,
    ) -> (r: Vec<String>)
        requires
            names@.len() == walks@.len(),
        ensures
            comps(r@).no_duplicates(),
            forall|p: Seq<char>|
                #[trigger] comps(r@).contains(p) <==> self.v1_finds(
                    comps(root@),
                    comps(names@),
                    walks@.map_values(|w: Vec<WalkItem>| w@),
                    p,
                ),
    {
        let ghost ws = walks@.map_values(|w: Vec<WalkItem>| w@);
        let ghost rt = comps(root@);
        let ghost ns = comps(names@);
        let mut out: Vec<String> = Vec::new();
        let mut k: usize = 0;
        while k < walks.len()
            invariant
                0 <= k <= walks@.len(),
                names@.len() == walks@.len(),
                ws == walks@.map_values(|w: Vec<WalkItem>| w@),
                rt == comps(root@),
                ns == comps(names@),
                ns.len() == walks@.len(),
                comps(out@).no_duplicates(),
                forall|p: Seq<char>|
                    #[trigger] comps(out@).contains(p) <==> self.v1_finds(
                        rt,
                        ns,
                        ws.subrange(0, k as int),
                        p,
                    ),
            decreases walks@.len() - k,
        {
            let walk = &walks[k];
            assert(ws[k as int] == walk@);
            let base = subtree_root(root, &names[k]);
            assert(comps(base@) == rt.push(ns[k as int]));
            let ghost prev = ws.subrange(0, k as int);
            let failed = walk_failed(walk);
            let mut j: usize = 0;
            while j < walk.len() && !failed
                invariant
                    0 <= k < walks@.len(),
                    0 <= j <= walk@.len(),
                    failed ==> j == 0,
                    comps(base@) == rt.push(ns[k as int]),
                    comps(out@).no_duplicates(),
                    forall|p: Seq<char>|
                        #[trigger] comps(out@).contains(p) <==> (self.v1_finds(rt, ns, prev, p)
                            || exists|jj: int|
                            0 <= jj < j && #[trigger] self.accepted_spec(comps(base@), walk@[jj])
                                == Some(p)),
                decreases walk@.len() - j,
            {
                let ghost old_out = comps(out@);
                let ghost here = self.accepted_spec(comps(base@), walk@[j as int]);
                match self.accepted_path(&base, &walk[j]) {
                    Some(s) => {
                        if !holds_text(&out, &s) {
                            let ghost before = out@;
                            out.push(s);
                            proof {
                                lemma_comps_push(before, out@.last());
                                lemma_push_no_dup(comps(before), out@.last()@);
                            }
                        }
                    },
                    None => {},
                }
                assert forall|p: Seq<char>|
                    #[trigger] comps(out@).contains(p) <==> (old_out.contains(p) || here == Some(p))
                    by {
                    if here == Some(p) && old_out.contains(p) {
                    }
                    if comps(out@).contains(p) && !old_out.contains(p) {
                        let i = choose|i: int| 0 <= i < comps(out@).len() && comps(out@)[i] == p;
                        if i < old_out.len() {
                            assert(old_out[i] == p);
                        }
                    }
                    if old_out.contains(p) {
                        let i = choose|i: int| 0 <= i < old_out.len() && old_out[i] == p;
                        assert(comps(out@)[i] == p);
                    }
                    if here == Some(p) && !old_out.contains(p) {
                        assert(comps(out@).last() == p);
                    }
                }
                assert forall|p: Seq<char>|
                    #[trigger] comps(out@).contains(p) <==> (self.v1_finds(rt, ns, prev, p)
                        || exists|jj: int|
                        0 <= jj < j + 1 && #[trigger] self.accepted_spec(comps(base@), walk@[jj])
                            == Some(p)) by {
                    if exists|jj: int|
                        0 <= jj < j + 1 && #[trigger] self.accepted_spec(comps(base@), walk@[jj])
                            == Some(p) {
                        let jj = choose|jj: int|
                            0 <= jj < j + 1 && #[trigger] self.accepted_spec(
                                comps(base@),
                                walk@[jj],
                            ) == Some(p);
                        if jj < j {
                            assert(old_out.contains(p));
                        }
                    }
                }
                j = j + 1;
            }
            proof {
                let next = ws.subrange(0, k + 1);
                assert(next.len() == k + 1);
                assert(next[k as int] == walk@);
                assert forall|p: Seq<char>|
                    #[trigger] comps(out@).contains(p) <==> self.v1_finds(rt, ns, next, p) by {
                    if self.v1_finds(rt, ns, prev, p) {
                        let (a, b) = choose|a: int, b: int|
                            0 <= a < prev.len() && !has_failure(prev[a]) && 0 <= b < prev[a].len()
                                && #[trigger] self.accepted_spec(rt.push(ns[a]), prev[a][b])
                                == Some(p);
                        assert(next[a] == prev[a]);
                        assert(self.v1_finds(rt, ns, next, p));
                    }
                    if exists|jj: int|
                        0 <= jj < j && #[trigger] self.accepted_spec(comps(base@), walk@[jj])
                            == Some(p) {
                        let jj = choose|jj: int|
                            0 <= jj < j && #[trigger] self.accepted_spec(comps(base@), walk@[jj])
                                == Some(p);
                        assert(!has_failure(next[k as int]));
                        assert(self.accepted_spec(rt.push(ns[k as int]), next[k as int][jj]) == Some(p));
                        assert(self.v1_finds(rt, ns, next, p));
                    }
                    if self.v1_finds(rt, ns, next, p) {
                        let (a, b) = choose|a: int, b: int|
                            0 <= a < next.len() && !has_failure(next[a]) && 0 <= b < next[a].len()
                                && #[trigger] self.accepted_spec(rt.push(ns[a]), next[a][b])
                                == Some(p);
                        if a < k {
                            assert(next[a] == prev[a]);
                            assert(self.v1_finds(rt, ns, prev, p));
                        } else {
                            assert(!failed);
                            assert(j == walk@.len());
                            assert(self.accepted_spec(comps(base@), walk@[b]) == Some(p));
                        }
                    }
                }
            }
            k = k + 1;
        }
        assert(ws.subrange(0, walks@.len() as int) =~= ws);
        out
    }
}

/// Adding an element that is not there keeps a sequence free of duplicates.
proof fn lemma_push_no_dup(s: Seq<Seq<char>>, x: Seq<char>)
    requires
        s.no_duplicates(),
        !s.contains(x),
    ensures
        s.push(x).no_duplicates(),
{
    assert forall|i: int, j: int|
        0 <= i < s.push(x).len() && 0 <= j < s.push(x).len() && i != j implies s.push(x)[i]
        != s.push(x)[j] by {
        if i < s.len() && j < s.len() {
        } else if i < s.len() {
            assert(s.contains(s[i]));
        } else if j < s.len() {
            assert(s.contains(s[j]));
        }
    }
}

/// With no patterns configured, a unified-tree enumeration yields every
/// directory strictly below the root that the walk reports before it fails,
/// and a per-controller enumeration finds every such relative path of every
/// controller whose walk did not fail.
pub proof fn lemma_no_patterns_finds_all(
    e: Explorer,
    base: Seq<Seq<char>>,
    items: Seq<WalkItem>,
    root: Seq<Seq<char>>,
    names: Seq<Seq<char>>,
    walks: Seq<Seq<WalkItem>>,
)
    requires
        e.glob_texts().len() == 0,
        e.regex_texts().len() == 0,
    ensures
        e.v2_found(base, items) == candidates_before_failure(base, items),
        forall|p: Seq<char>|
            #[trigger] e.v1_finds(root, names, walks, p) <==> exists|k: int, j: int|
                0 <= k < walks.len() && !has_failure(walks[k]) && 0 <= j < walks[k].len()
                    && #[trigger] candidate(root.push(names[k]), walks[k][j]) == Some(p),
    decreases items.len(),
{
    if items.len() > 0 {
        lemma_no_patterns_finds_all(e, base, items.drop_last(), root, names, walks);
    }
    assert forall|p: Seq<char>|
        #[trigger] e.v1_finds(root, names, walks, p) <==> exists|k: int, j: int|
            0 <= k < walks.len() && !has_failure(walks[k]) && 0 <= j < walks[k].len()
                && #[trigger] candidate(root.push(names[k]), walks[k][j]) == Some(p) by {
        if exists|k: int, j: int|
            0 <= k < walks.len() && !has_failure(walks[k]) && 0 <= j < walks[k].len()
                && #[trigger] candidate(root.push(names[k]), walks[k][j]) == Some(p) {
            let (k, j) = choose|k: int, j: int|
                0 <= k < walks.len() && !has_failure(walks[k]) && 0 <= j < walks[k].len()
                    && #[trigger] candidate(root.push(names[k]), walks[k][j]) == Some(p);
            assert(e.accepted_spec(root.push(names[k]), walks[k][j]) == Some(p));
        }
        if e.v1_finds(root, names, walks, p) {
            let (k, j) = choose|k: int, j: int|
                0 <= k < walks.len() && !has_failure(walks[k]) && 0 <= j < walks[k].len()
                    && #[trigger] e.accepted_spec(root.push(names[k]), walks[k][j]) == Some(p);
            assert(candidate(root.push(names[k]), walks[k][j]) == Some(p));
        }
    }
}

/// The root of the walk is never reported: an entry whose path is the root
/// itself contributes nothing, whatever the filter.
pub proof fn lemma_root_never_found(e: Explorer, base: Seq<String>, is_dir: bool, path: Vec<String>)
    requires
        path@ == base,
    ensures
        e.accepted_spec(comps(base), WalkItem::Entry { path, is_dir }) is None,
{
    let b = comps(base);
    assert(b.subrange(0, b.len() as int) =~= b);
    assert(b.subrange(b.len() as int, b.len() as int).len() == 0);
}

/// An entry that is not a directory contributes nothing, whatever the filter.
pub proof fn lemma_non_directory_never_found(e: Explorer, base: Seq<Seq<char>>, path: Vec<String>)
    ensures
        e.accepted_spec(base, WalkItem::Entry { path, is_dir: false }) is None,
{
}

/// Two explorers with the same patterns yield the same paths, in the same
/// order, from the same walk of a unified tree.
pub proof fn lemma_v2_deterministic(
    e1: Explorer,
    e2: Explorer,
    base: Seq<Seq<char>>,
    items: Seq<WalkItem>,
)
    requires
        e1.glob_texts() == e2.glob_texts(),
        e1.regex_texts() == e2.regex_texts(),
    ensures
        e1.v2_found(base, items) == e2.v2_found(base, items),
    decreases items.len(),
{
    if items.len() > 0 {
        lemma_v2_deterministic(e1, e2, base, items.drop_last());
        assert(e1.accepted_spec(base, items.last()) == e2.accepted_spec(base, items.last()));
    }
}

/// A unified-tree enumeration keeps the walk's order and filters each
/// directory on its own: its paths are the walk's candidates before the first
/// failure, in walk order, less those that the filter rejects. A rejected
/// directory does not hide its descendants.
pub proof fn lemma_v2_walk_order_kept(e: Explorer, base: Seq<Seq<char>>, items: Seq<WalkItem>)
    ensures
        e.v2_found(base, items) == candidates_before_failure(base, items).filter(
            |p: Seq<char>| e.accepts_spec(p),
        ),
    decreases items.len(),
{
    reveal(Seq::filter);
    if items.len() > 0 {
        lemma_v2_walk_order_kept(e, base, items.drop_last());
        let prev = candidates_before_failure(base, items.drop_last());
        if !has_failure(items.drop_last()) {
            if let Some(p) = candidate(base, items.last()) {
                assert(prev.push(p).drop_last() =~= prev);
            }
        }
    }
}

} // verus!
