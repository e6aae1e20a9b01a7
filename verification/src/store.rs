//! In-memory document store: each open document's URI mapped to its full
//! current text, replaced wholesale on change and removed on close.

use vstd::prelude::*;

verus! {

/// The map described by an association list, later entries overriding
/// earlier ones.
spec fn entries_map(s: Seq<(String, String)>) -> Map<Seq<char>, Seq<char>>
    decreases s.len(),
{
    if s.len() == 0 {
        Map::empty()
    } else {
        entries_map(s.drop_last()).insert(s.last().0@, s.last().1@)
    }
}

spec fn unique_keys(s: Seq<(String, String)>) -> bool {
    forall|i: int, j: int| 0 <= i < j < s.len() ==> (#[trigger] s[i]).0@ != (#[trigger] s[j]).0@
}

proof fn lemma_entries_contains(s: Seq<(String, String)>, k: Seq<char>)
    ensures
        entries_map(s).contains_key(k) <==> (exists|i: int|
            0 <= i < s.len() && (#[trigger] s[i]).0@ == k),
    decreases s.len(),
{
    if s.len() > 0 {
        let d = s.drop_last();
        lemma_entries_contains(d, k);
        if s.last().0@ == k {
            assert(s[s.len() - 1].0@ == k);
        } else {
            if entries_map(s).contains_key(k) {
                let i = choose|i: int| 0 <= i < d.len() && (#[trigger] d[i]).0@ == k;
                assert(s[i].0@ == k);
            }
            if exists|i: int| 0 <= i < s.len() && (#[trigger] s[i]).0@ == k {
                let i = choose|i: int| 0 <= i < s.len() && (#[trigger] s[i]).0@ == k;
                assert(d[i].0@ == k);
            }
        }
    }
}

proof fn lemma_entries_at(s: Seq<(String, String)>, i: int)
    requires
        unique_keys(s),
        0 <= i < s.len(),
    ensures
        entries_map(s).contains_key(s[i].0@),
        entries_map(s)[s[i].0@] == s[i].1@,
    decreases s.len(),
{
    if i < s.len() - 1 {
        let d = s.drop_last();
        assert forall|a: int, b: int| 0 <= a < b < d.len() implies (#[trigger] d[a]).0@ != (
        #[trigger] d[b]).0@ by {
            assert(d[a] == s[a] && d[b] == s[b]);
        }
        lemma_entries_at(d, i);
        assert(s.last().0@ != s[i].0@);
    }
}

proof fn lemma_entries_remove_at(s: Seq<(String, String)>, i: int)
    requires
        unique_keys(s),
        0 <= i < s.len(),
    ensures
        entries_map(s.remove(i)) == entries_map(s).remove(s[i].0@),
    decreases s.len(),
{
    let k = s[i].0@;
    let d = s.drop_last();
    assert forall|a: int, b: int| 0 <= a < b < d.len() implies (#[trigger] d[a]).0@ != (
    #[trigger] d[b]).0@ by {
        assert(d[a] == s[a] && d[b] == s[b]);
    }
    if i == s.len() - 1 {
        assert(s.remove(i) =~= d);
        lemma_entries_contains(d, k);
        assert(forall|j: int| 0 <= j < d.len() ==> (#[trigger] d[j]).0@ != k);
        assert(!entries_map(d).contains_key(k));
        assert(entries_map(d).insert(k, s.last().1@).remove(k) =~= entries_map(d));
    } else {
        lemma_entries_remove_at(d, i);
        assert(s.remove(i).last() == s.last());
        assert(s.remove(i).drop_last() =~= d.remove(i));
        assert(s.last().0@ != k);
        assert(entries_map(d).remove(k).insert(s.last().0@, s.last().1@) =~= entries_map(d).insert(
            s.last().0@,
            s.last().1@,
        ).remove(k));
    }
}

proof fn lemma_entries_set(s: Seq<(String, String)>, i: int, v: (String, String))
    requires
        unique_keys(s),
        0 <= i < s.len(),
        v.0@ == s[i].0@,
    ensures
        entries_map(s.update(i, v)) == entries_map(s).insert(v.0@, v.1@),
    decreases s.len(),
{
    let k = v.0@;
    let d = s.drop_last();
    assert forall|a: int, b: int| 0 <= a < b < d.len() implies (#[trigger] d[a]).0@ != (
    #[trigger] d[b]).0@ by {
        assert(d[a] == s[a] && d[b] == s[b]);
    }
    if i == s.len() - 1 {
        assert(s.update(i, v).drop_last() =~= d);
        assert(s.update(i, v).last() == v);
        assert(entries_map(d).insert(v.0@, v.1@) =~= entries_map(d).insert(k, s.last().1@).insert(
            k,
            v.1@,
        ));
    } else {
        lemma_entries_set(d, i, v);
        assert(s.update(i, v).last() == s.last());
        assert(s.update(i, v).drop_last() =~= d.update(i, v));
        assert(s.last().0@ != k);
        assert(entries_map(d).insert(k, v.1@).insert(s.last().0@, s.last().1@) =~= entries_map(
            d,
        ).insert(s.last().0@, s.last().1@).insert(k, v.1@));
    }
}

/// Store of open documents, the sole owner of their current text.
pub struct DocumentStore {
    docs: Vec<(String, String)>,
}

impl View for DocumentStore {
    type V = Map<Seq<char>, Seq<char>>;

    closed spec fn view(&self) -> Map<Seq<char>, Seq<char>> {
        entries_map(self.docs@)
    }
}

impl DocumentStore {
    /// Each URI appears at most once.
    pub closed spec fn wf(&self) -> bool {
        unique_keys(self.docs@)
    }

    /// An empty store.
    pub fn new() -> (r: DocumentStore)
        ensures
            r.wf(),
            r@ == Map::<Seq<char>, Seq<char>>::empty(),
    {
        DocumentStore { docs: Vec::new() }
    }

    fn find(&self, uri: &String) -> (r: Option<usize>)
        ensures
            match r {
                Some(i) => i < self.docs@.len() && self.docs@[i as int].0@ == uri@,
                None => forall|j: int|
                    0 <= j < self.docs@.len() ==> (#[trigger] self.docs@[j]).0@ != uri@,
            },
    {
        let mut i: usize = 0;
        while i < self.docs.len()
            invariant
                i <= self.docs@.len(),
                forall|j: int| 0 <= j < i ==> (#[trigger] self.docs@[j]).0@ != uri@,
            decreases self.docs@.len() - i,
        {
            if self.docs[i].0.eq(uri) {
                return Some(i);
            }
            i = i + 1;
        }
        None
    }

    /// Insert the document, or overwrite the text it maps to.
    pub fn open(&mut self, uri: &String, text: String)
        requires
            old(self).wf(),
        ensures
            final(self).wf(),
            final(self)@ == old(self)@.insert(uri@, text@),
    {
        let found = self.find(uri);
        match found {
            Some(i) => {
                let ghost olds = self.docs@;
                self.docs.set(i, (uri.clone(), text));
                proof {
                    lemma_entries_set(olds, i as int, self.docs@[i as int]);
                    assert(self.docs@ =~= olds.update(i as int, self.docs@[i as int]));
                    assert forall|a: int, b: int|
                        0 <= a < b < self.docs@.len() implies (#[trigger] self.docs@[a]).0@ != (
                    #[trigger] self.docs@[b]).0@ by {
                        if a != i && b != i {
                            assert(self.docs@[a] == olds[a] && self.docs@[b] == olds[b]);
                        }
                    }
                }
            },
            None => {
                self.docs.push((uri.clone(), text));
                proof {
                    assert(self.docs@.drop_last() =~= old(self).docs@);
                }
            },
        }
    }

    /// Replace the full text of the document; full-document sync only.
    pub fn replace(&mut self, uri: &String, text: String)
        requires
            old(self).wf(),
        ensures
            final(self).wf(),
            final(self)@ == old(self)@.insert(uri@, text@),
    {
        self.open(uri, text);
    }

    /// Remove the document; a later lookup finds nothing.
    pub fn close(&mut self, uri: &String)
        requires
            old(self).wf(),
        ensures
            final(self).wf(),
            final(self)@ == old(self)@.remove(uri@),
    {
        let found = self.find(uri);
        match found {
            Some(i) => {
                proof {
                    lemma_entries_remove_at(self.docs@, i as int);
                }
                let ghost olds = self.docs@;
                self.docs.remove(i);
                proof {
                    assert(self.docs@ =~= olds.remove(i as int));
                    assert forall|a: int, b: int|
                        0 <= a < b < self.docs@.len() implies (#[trigger] self.docs@[a]).0@ != (
                    #[trigger] self.docs@[b]).0@ by {
                        let a0 = if a < i { a } else { a + 1 };
                        let b0 = if b < i { b } else { b + 1 };
                        assert(self.docs@[a] == olds[a0] && self.docs@[b] == olds[b0]);
                    }
                }
            },
            None => {
                proof {
                    lemma_entries_contains(self.docs@, uri@);
                    assert(self@.remove(uri@) =~= self@);
                }
            },
        }
    }

    /// The current full text of the document, if it is open.
    pub fn get(&self, uri: &String) -> (r: Option<&String>)
        requires
            self.wf(),
        ensures
            match r {
                Some(t) => self@.contains_key(uri@) && t@ == self@[uri@],
                None => !self@.contains_key(uri@),
            },
    {
        let found = self.find(uri);
        match found {
            Some(i) => {
                proof {
                    lemma_entries_at(self.docs@, i as int);
                }
                Some(&self.docs[i].1)
            },
            None => {
                proof {
                    lemma_entries_contains(self.docs@, uri@);
                }
                None
            },
        }
    }
}

} // verus!
