//! Configuration resolution: walk a path's ancestor directories for the
//! lexicographically smallest candidate configuration file, with results
//! cached per directory in which a file was found.
//!
//! Probing the filesystem and parsing a file are the caller's side of the
//! protocol: the loader answers each step with what to do next, so every
//! decision — cache use, candidate selection, the upward walk, the
//! parse-failure cutoff — is made here.

use vstd::prelude::*;

use crate::config::NovelSagaConfig;
use crate::text::last_index;
use crate::text::lemma_last_index_bounds;
use crate::text::rfind;

verus! {

/// Lexicographic order on character sequences, by code point; a proper
/// prefix comes first.
pub open spec fn lex_le(a: Seq<char>, b: Seq<char>) -> bool
    decreases a.len(),
{
    if a.len() == 0 {
        true
    } else if b.len() == 0 {
        false
    } else if (a[0] as u32) < (b[0] as u32) {
        true
    } else if (a[0] as u32) > (b[0] as u32) {
        false
    } else {
        lex_le(a.drop_first(), b.drop_first())
    }
}

pub proof fn lemma_lex_le_total(a: Seq<char>, b: Seq<char>)
    ensures
        lex_le(a, b) || lex_le(b, a),
    decreases a.len(),
{
    if a.len() > 0 && b.len() > 0 && (a[0] as u32) == (b[0] as u32) {
        lemma_lex_le_total(a.drop_first(), b.drop_first());
    }
}

pub proof fn lemma_lex_le_trans(a: Seq<char>, b: Seq<char>, c: Seq<char>)
    requires
        lex_le(a, b),
        lex_le(b, c),
    ensures
        lex_le(a, c),
    decreases a.len(),
{
    if a.len() > 0 && b.len() > 0 && c.len() > 0 && (a[0] as u32) == (b[0] as u32) && (b[0]
        as u32) == (c[0] as u32) {
        lemma_lex_le_trans(a.drop_first(), b.drop_first(), c.drop_first());
    }
}

/// Whether `a` comes at or before `b` in lexicographic order.
pub fn str_lex_le(a: &str, b: &str) -> (r: bool)
    ensures
        r == lex_le(a@, b@),
{
    let an = a.unicode_len();
    let bn = b.unicode_len();
    let mut i: usize = 0;
    proof {
        assert(a@.skip(0) =~= a@);
        assert(b@.skip(0) =~= b@);
    }
    while i < an && i < bn
        invariant
            i <= an == a@.len(),
            i <= bn == b@.len(),
            lex_le(a@, b@) == lex_le(a@.skip(i as int), b@.skip(i as int)),
        decreases an - i,
    {
        let ca = a.get_char(i);
        let cb = b.get_char(i);
        proof {
            assert(a@.skip(i as int)[0] == a@[i as int]);
            assert(b@.skip(i as int)[0] == b@[i as int]);
            assert(a@.skip(i as int).drop_first() =~= a@.skip(i as int + 1));
            assert(b@.skip(i as int).drop_first() =~= b@.skip(i as int + 1));
        }
        if (ca as u32) < (cb as u32) {
            return true;
        }
        if (ca as u32) > (cb as u32) {
            return false;
        }
        i = i + 1;
    }
    proof {
        if i == an {
            assert(a@.skip(i as int).len() == 0);
        } else {
            assert(b@.skip(i as int).len() == 0);
            assert(a@.skip(i as int).len() > 0);
        }
    }
    i == an
}

/// `dir` and `name` joined with a single separating slash.
pub open spec fn join_path_spec(dir: Seq<char>, name: Seq<char>) -> Seq<char> {
    if dir.len() > 0 && dir.last() == '/' {
        dir + name
    } else {
        dir + seq!['/'] + name
    }
}

/// Join a directory path and a file name, per [`join_path_spec`].
pub fn join_path(dir: &str, name: &str) -> (r: String)
    ensures
        r@ == join_path_spec(dir@, name@),
{
    let n = dir.unicode_len();
    let mut r = String::from_str(dir);
    if n == 0 || dir.get_char(n - 1) != '/' {
        r.append("/");
        proof {
            reveal_strlit("/");
            assert(dir@ + "/"@ =~= dir@ + seq!['/']);
        }
    }
    r.append(name);
    proof {
        if !(dir@.len() > 0 && dir@.last() == '/') {
            assert(dir@ + seq!['/'] + name@ =~= (dir@ + seq!['/']) + name@);
        }
    }
    r
}

/// `p` with trailing slashes removed, the leading one excepted.
pub open spec fn strip_trailing_slashes(p: Seq<char>) -> Seq<char>
    decreases p.len(),
{
    if p.len() > 1 && p.last() == '/' {
        strip_trailing_slashes(p.drop_last())
    } else {
        p
    }
}

/// The parent directory of `p`: the part before the last slash, the root
/// `/` being its own last ancestor. A path without a slash has no parent
/// here.
pub open spec fn parent_dir_spec(p: Seq<char>) -> Option<Seq<char>> {
    let q = strip_trailing_slashes(p);
    let i = last_index(q, '/');
    if q.len() <= 1 {
        None
    } else if i == -1 {
        None
    } else if i == 0 {
        Some(seq!['/'])
    } else {
        Some(q.take(i))
    }
}

/// The parent directory of `p`, per [`parent_dir_spec`].
pub fn parent_dir(p: &str) -> (r: Option<String>)
    ensures
        match r {
            Some(d) => parent_dir_spec(p@) == Some(d@),
            None => parent_dir_spec(p@) is None,
        },
{
    let total = p.unicode_len();
    let mut n: usize = total;
    proof {
        assert(p@.take(total as int) =~= p@);
        assert(strip_trailing_slashes(p@) == strip_trailing_slashes(p@.take(n as int)));
    }
    while n > 1 && p.get_char(n - 1) == '/'
        invariant
            n <= total == p@.len(),
            strip_trailing_slashes(p@) == strip_trailing_slashes(p@.take(n as int)),
        decreases n,
    {
        proof {
            assert(p@.take(n as int).last() == p@[n - 1]);
            assert(p@.take(n as int).drop_last() =~= p@.take(n as int - 1));
        }
        n = n - 1;
    }
    proof {
        assert(strip_trailing_slashes(p@) == p@.take(n as int));
    }
    let q = p.substring_char(0, n);
    proof {
        assert(q@ =~= p@.take(n as int));
    }
    if n <= 1 {
        return None;
    }
    match rfind(q, '/') {
        None => None,
        Some(0) => {
            let root = String::from_str("/");
            proof {
                reveal_strlit("/");
                assert(root@ =~= seq!['/']);
            }
            Some(root)
        },
        Some(i) => Some(String::from_str(q.substring_char(0, i))),
    }
}


/// `f` is `dir` joined with a present candidate name that is
/// lexicographically least among all present names.
pub open spec fn min_candidate(f: Seq<char>, dir: Seq<char>, present: Seq<String>) -> bool {
    exists|i: int|
        0 <= i < present.len() && f == join_path_spec(dir, (#[trigger] present[i])@) && (forall|
            j: int,
        |
            0 <= j < present.len() ==> lex_le((present[i])@, (#[trigger] present[j])@))
}

/// Among the candidate configuration files present in `dir`, the full path
/// of the lexicographically smallest file name, if any is present.
pub fn find_config_in_directory(dir: &str, present: &Vec<String>) -> (r: Option<String>)
    ensures
        match r {
            None => present@.len() == 0,
            Some(f) => min_candidate(f@, dir@, present@),
        },
{
    if present.len() == 0 {
        return None;
    }
    let mut best: usize = 0;
    let mut j: usize = 1;
    proof {
        lemma_lex_le_total(present@[0]@, present@[0]@);
    }
    while j < present.len()
        invariant
            best < j <= present@.len(),
            forall|t: int| 0 <= t < j ==> lex_le(present@[best as int]@, (#[trigger] present@[t])@),
        decreases present@.len() - j,
    {
        if str_lex_le(present[j].as_str(), present[best].as_str()) {
            proof {
                assert forall|t: int| 0 <= t < j + 1 implies lex_le(
                    present@[j as int]@,
                    (#[trigger] present@[t])@,
                ) by {
                    if t < j {
                        lemma_lex_le_trans(present@[j as int]@, present@[best as int]@, present@[t]@);
                    } else {
                        lemma_lex_le_total(present@[j as int]@, present@[j as int]@);
                    }
                }
            }
            best = j;
        } else {
            proof {
                lemma_lex_le_total(present@[j as int]@, present@[best as int]@);
            }
        }
        j = j + 1;
    }
    Some(join_path(dir, present[best].as_str()))
}

/// What the caller must do next to carry a resolution forward.
pub enum ResolveStep {
    /// Resolution is finished, with the configuration found, or nothing on
    /// absence or parse failure.
    Done(Option<NovelSagaConfig>),
    /// Report, via `on_probe`, which candidate configuration file names
    /// exist as regular files in this directory.
    Probe(String),
    /// Read and parse this file, found in this directory, and report the
    /// outcome via `on_parse`.
    Parse { dir: String, file: String },
}

/// The map described by an association list, later entries overriding
/// earlier ones.
spec fn entries_map(s: Seq<(String, NovelSagaConfig)>) -> Map<Seq<char>, NovelSagaConfig>
    decreases s.len(),
{
    if s.len() == 0 {
        Map::empty()
    } else {
        entries_map(s.drop_last()).insert(s.last().0@, s.last().1)
    }
}

spec fn unique_keys(s: Seq<(String, NovelSagaConfig)>) -> bool {
    forall|i: int, j: int| 0 <= i < j < s.len() ==> (#[trigger] s[i]).0@ != (#[trigger] s[j]).0@
}

proof fn lemma_entries_contains(s: Seq<(String, NovelSagaConfig)>, k: Seq<char>)
    ensures
        entries_map(s).contains_key(k) <==> (exists|i: int|
            0 <= i < s.len() && (#[trigger] s[i]).0@ == k),
    decreases s.len(),
{
    if s.len() > 0 {
        let d = s.drop_last();
        lemma_entries_contains(d, k);
        if s.last().0@ == k {
            assert(s[s.len() - 1].0@ == k);
        } else {
            if entries_map(s).contains_key(k) {
                let i = choose|i: int| 0 <= i < d.len() && (#[trigger] d[i]).0@ == k;
                assert(s[i].0@ == k);
            }
            if exists|i: int| 0 <= i < s.len() && (#[trigger] s[i]).0@ == k {
                let i = choose|i: int| 0 <= i < s.len() && (#[trigger] s[i]).0@ == k;
                assert(d[i].0@ == k);
            }
        }
    }
}

proof fn lemma_entries_at(s: Seq<(String, NovelSagaConfig)>, i: int)
    requires
        unique_keys(s),
        0 <= i < s.len(),
    ensures
        entries_map(s).contains_key(s[i].0@),
        entries_map(s)[s[i].0@] == s[i].1,
    decreases s.len(),
{
    if i < s.len() - 1 {
        let d = s.drop_last();
        assert forall|a: int, b: int| 0 <= a < b < d.len() implies (#[trigger] d[a]).0@ != (
        #[trigger] d[b]).0@ by {
            assert(d[a] == s[a] && d[b] == s[b]);
        }
        lemma_entries_at(d, i);
        assert(s.last().0@ != s[i].0@);
    }
}

proof fn lemma_entries_set(s: Seq<(String, NovelSagaConfig)>, i: int, v: (String, NovelSagaConfig))
    requires
        unique_keys(s),
        0 <= i < s.len(),
        v.0@ == s[i].0@,
    ensures
        entries_map(s.update(i, v)) == entries_map(s).insert(v.0@, v.1),
    decreases s.len(),
{
    let k = v.0@;
    let d = s.drop_last();
    assert forall|a: int, b: int| 0 <= a < b < d.len() implies (#[trigger] d[a]).0@ != (
    #[trigger] d[b]).0@ by {
        assert(d[a] == s[a] && d[b] == s[b]);
    }
    if i == s.len() - 1 {
        assert(s.update(i, v).drop_last() =~= d);
        assert(s.update(i, v).last() == v);
        assert(entries_map(d).insert(v.0@, v.1) =~= entries_map(d).insert(k, s.last().1).insert(
            k,
            v.1,
        ));
    } else {
        lemma_entries_set(d, i, v);
        assert(s.update(i, v).last() == s.last());
        assert(s.update(i, v).drop_last() =~= d.update(i, v));
        assert(s.last().0@ != k);
        assert(entries_map(d).insert(k, v.1).insert(s.last().0@, s.last().1) =~= entries_map(
            d,
        ).insert(s.last().0@, s.last().1).insert(k, v.1));
    }
}

/// Configuration loader: the per-directory cache, and the decision logic of
/// the upward search.
pub struct ConfigLoader {
    config_tree_cache: Vec<(String, NovelSagaConfig)>,
}

impl View for ConfigLoader {
    type V = Map<Seq<char>, NovelSagaConfig>;

    /// The cache: directory path to the configuration found there.
    closed spec fn view(&self) -> Map<Seq<char>, NovelSagaConfig> {
        entries_map(self.config_tree_cache@)
    }
}

impl ConfigLoader {
    /// Each directory appears at most once in the cache.
    pub closed spec fn wf(&self) -> bool {
        unique_keys(self.config_tree_cache@)
    }

    /// A loader with an empty cache.
    pub fn new() -> (r: ConfigLoader)
        ensures
            r.wf(),
            r@ == Map::<Seq<char>, NovelSagaConfig>::empty(),
    {
        ConfigLoader { config_tree_cache: Vec::new() }
    }

    fn find(&self, dir: &String) -> (r: Option<usize>)
        ensures
            match r {
                Some(i) => i < self.config_tree_cache@.len() && self.config_tree_cache@[
                    i as int
                ].0@ == dir@,
                None => forall|j: int|
                    0 <= j < self.config_tree_cache@.len() ==> (
                    #[trigger] self.config_tree_cache@[j]).0@ != dir@,
            },
    {
        let mut i: usize = 0;
        while i < self.config_tree_cache.len()
            invariant
                i <= self.config_tree_cache@.len(),
                forall|j: int|
                    0 <= j < i ==> (#[trigger] self.config_tree_cache@[j]).0@ != dir@,
            decreases self.config_tree_cache@.len() - i,
        {
            if self.config_tree_cache[i].0.eq(dir) {
                return Some(i);
            }
            i = i + 1;
        }
        None
    }

    /// The configuration cached for this directory, if any.
    pub fn get_config(&self, dir: &String) -> (r: Option<&NovelSagaConfig>)
        requires
            self.wf(),
        ensures
            match r {
                Some(c) => self@.contains_key(dir@) && *c == self@[dir@],
                None => !self@.contains_key(dir@),
            },
    {
        let found = self.find(dir);
        match found {
            Some(i) => {
                proof {
                    lemma_entries_at(self.config_tree_cache@, i as int);
                }
                Some(&self.config_tree_cache[i].1)
            },
            None => {
                proof {
                    lemma_entries_contains(self.config_tree_cache@, dir@);
                }
                None
            },
        }
    }

    fn cache_insert(&mut self, dir: &String, config: NovelSagaConfig)
        requires
            old(self).wf(),
        ensures
            final(self).wf(),
            final(self)@ == old(self)@.insert(dir@, config),
    {
        let found = self.find(dir);
        match found {
            Some(i) => {
                let ghost olds = self.config_tree_cache@;
                self.config_tree_cache.set(i, (dir.clone(), config));
                proof {
                    lemma_entries_set(olds, i as int, self.config_tree_cache@[i as int]);
                    assert(self.config_tree_cache@ =~= olds.update(
                        i as int,
                        self.config_tree_cache@[i as int],
                    ));
                    assert forall|a: int, b: int|
                        0 <= a < b < self.config_tree_cache@.len() implies (
                    #[trigger] self.config_tree_cache@[a]).0@ != (
                    #[trigger] self.config_tree_cache@[b]).0@ by {
                        if a != i && b != i {
                            assert(self.config_tree_cache@[a] == olds[a]
                                && self.config_tree_cache@[b] == olds[b]);
                        }
                    }
                }
            },
            None => {
                self.config_tree_cache.push((dir.clone(), config));
                proof {
                    assert(self.config_tree_cache@.drop_last() =~= old(self).config_tree_cache@);
                }
            },
        }
    }

    /// Start resolving for `dir`: answered from the cache, or else the
    /// caller must probe `dir`.
    pub fn begin_resolve(&self, dir: &String) -> (r: ResolveStep)
        requires
            self.wf(),
        ensures
            self@.contains_key(dir@) ==> r == ResolveStep::Done(Some(self@[dir@])),
            !self@.contains_key(dir@) ==> match r {
                ResolveStep::Probe(d) => d@ == dir@,
                _ => false,
            },
    {
        let found = self.get_config(dir);
        match found {
            Some(c) => ResolveStep::Done(Some(*c)),
            None => ResolveStep::Probe(dir.clone()),
        }
    }

    /// Continue after probing `dir`: `present` holds the candidate file
    /// names that exist there. A present candidate is parsed — the
    /// lexicographically smallest —, otherwise the walk moves to the parent
    /// directory (cache first), and ends with nothing at the root.
    pub fn on_probe(&self, dir: &String, present: &Vec<String>) -> (r: ResolveStep)
        requires
            self.wf(),
        ensures
            present@.len() > 0 ==> match r {
                ResolveStep::Parse { dir: d, file: f } => d@ == dir@ && min_candidate(
                    f@,
                    dir@,
                    present@,
                ),
                _ => false,
            },
            present@.len() == 0 ==> match parent_dir_spec(dir@) {
                None => r == ResolveStep::Done(None::<NovelSagaConfig>),
                Some(p) => {
                    &&& self@.contains_key(p) ==> r == ResolveStep::Done(Some(self@[p]))
                    &&& !self@.contains_key(p) ==> match r {
                        ResolveStep::Probe(d) => d@ == p,
                        _ => false,
                    }
                },
            },
    {
        if present.len() > 0 {
            let found = find_config_in_directory(dir.as_str(), present);
            match found {
                Some(f) => ResolveStep::Parse { dir: dir.clone(), file: f },
                None => ResolveStep::Done(None),
            }
        } else {
            let parent = parent_dir(dir.as_str());
            match parent {
                None => ResolveStep::Done(None),
                Some(p) => {
                    let cached = self.get_config(&p);
                    match cached {
                        Some(c) => ResolveStep::Done(Some(*c)),
                        None => ResolveStep::Probe(p),
                    }
                },
            }
        }
    }

    /// Finish after parsing a candidate found in `dir`: a successful parse
    /// is cached under `dir` and returned; a parse failure ends the whole
    /// resolution with nothing — the error is treated as an error, not as
    /// absence, so no ancestor is searched and nothing is cached.
    pub fn on_parse(&mut self, dir: &String, parsed: Option<NovelSagaConfig>) -> (r: ResolveStep)
        requires
            old(self).wf(),
        ensures
            final(self).wf(),
            r == ResolveStep::Done(parsed),
            match parsed {
                Some(c) => final(self)@ == old(self)@.insert(dir@, c),
                None => final(self)@ == old(self)@,
            },
    {
        match parsed {
            Some(c) => {
                self.cache_insert(dir, c);
                ResolveStep::Done(Some(c))
            },
            None => ResolveStep::Done(None),
        }
    }
}

} // verus!
