//! In-memory secret vault: one secret per identity, keyed by an opaque
//! identity string. It is the reference backend for the vault surface
//! (`store` / `retrieve` / `delete` / `contains`), substitutable for the
//! platform-backed store when no host credential facility is wanted.

use vstd::prelude::*;

verus! {

/// A keyed store holding at most one secret per identity.
///
/// The abstract state is a map from identity (as a character sequence) to
/// the stored secret. Internally the entries are held as a vector of
/// `(identity, secret)` pairs with pairwise-distinct identities.
pub struct MemoryVault {
    entries: Vec<(String, String)>,
}

/// The map described by a prefix of the entry list: later pairs win,
/// though under distinctness every identity occurs at most once.
pub open spec fn entries_map(s: Seq<(String, String)>) -> Map<Seq<char>, Seq<char>>
    decreases s.len(),
{
    if s.len() == 0 {
        Map::empty()
    } else {
        entries_map(s.drop_last()).insert(s.last().0@, s.last().1@)
    }
}

/// Pairwise-distinct identities in the entry list.
pub open spec fn distinct_keys(s: Seq<(String, String)>) -> bool {
    forall|i: int, j: int| 0 <= i < j < s.len() ==> s[i].0@ != s[j].0@
}

/// An identity occurs in the entry list.
pub open spec fn has_key(s: Seq<(String, String)>, k: Seq<char>) -> bool {
    exists|i: int| 0 <= i < s.len() && s[i].0@ == k
}

proof fn lemma_entries_map_has_key(s: Seq<(String, String)>, k: Seq<char>)
    ensures
        entries_map(s).contains_key(k) <==> has_key(s, k),
    decreases s.len(),
{
    if s.len() > 0 {
        lemma_entries_map_has_key(s.drop_last(), k);
        if has_key(s.drop_last(), k) {
            let i = choose|i: int| 0 <= i < s.drop_last().len() && s.drop_last()[i].0@ == k;
            assert(s[i].0@ == k);
        }
        if has_key(s, k) && s.last().0@ != k {
            let i = choose|i: int| 0 <= i < s.len() && s[i].0@ == k;
            assert(s.drop_last()[i].0@ == k);
        }
    }
}

proof fn lemma_entries_map_at(s: Seq<(String, String)>, i: int)
    requires
        distinct_keys(s),
        0 <= i < s.len(),
    ensures
        entries_map(s).contains_key(s[i].0@),
        entries_map(s)[s[i].0@] == s[i].1@,
    decreases s.len(),
{
    lemma_entries_map_has_key(s, s[i].0@);
    if i < s.len() - 1 {
        assert(s.drop_last()[i] == s[i]);
        lemma_entries_map_at(s.drop_last(), i);
        assert(s.last().0@ != s[i].0@);
    }
}

impl MemoryVault {
    /// Abstract contents: identity -> secret.
    pub closed spec fn view(&self) -> Map<Seq<char>, Seq<char>> {
        entries_map(self.entries@)
    }

    /// Internal well-formedness: identities are pairwise distinct.
    pub closed spec fn wf(&self) -> bool {
        distinct_keys(self.entries@)
    }

    /// An empty vault: no identity has a secret.
    pub fn new() -> (v: MemoryVault)
        ensures
            v.wf(),
            v@ == Map::<Seq<char>, Seq<char>>::empty(),
    {
        MemoryVault { entries: Vec::new() }
    }

    /// Index of the entry holding `identity`, if any.
    fn find(&self, identity: &str) -> (r: Option<usize>)
        requires
            self.wf(),
        ensures
            match r {
                Some(i) => i < self.entries@.len() && self.entries@[i as int].0@ == identity@,
                None => !has_key(self.entries@, identity@),
            },
    {
        let n = self.entries.len();
        for i in 0..n
            invariant
                n == self.entries@.len(),
                forall|j: int| 0 <= j < i ==> self.entries@[j].0@ != identity@,
        {
            let probe = String::from_str(identity);
            if self.entries[i].0 == probe {
                return Some(i);
            }
        }
        None
    }

    /// Creates or overwrites the secret for `identity`; no history is kept.
    pub fn store(&mut self, identity: &str, secret: &str)
        requires
            old(self).wf(),
            identity@.len() > 0,
            secret@.len() > 0,
        ensures
            final(self).wf(),
            final(self)@ == old(self)@.insert(identity@, secret@),
    {
        let ghost s0 = self.entries@;
        match self.find(identity) {
            Some(i) => {
                let pair = (String::from_str(identity), String::from_str(secret));
                self.entries.set(i, pair);
                proof {
                    lemma_set_updates_map(s0, self.entries@, i as int, identity@, secret@);
                }
            },
            None => {
                let pair = (String::from_str(identity), String::from_str(secret));
                self.entries.push(pair);
                proof {
                    assert(self.entries@.drop_last() =~= s0);
                }
            },
        }
    }

    /// The secret stored for `identity`, or `None` when nothing is stored;
    /// absence is a normal outcome, not a failure.
    pub fn retrieve(&self, identity: &str) -> (r: Option<String>)
        requires
            self.wf(),
        ensures
            match r {
                Some(s) => self@.contains_key(identity@) && s@ == self@[identity@],
                None => !self@.contains_key(identity@),
            },
    {
        proof {
            lemma_entries_map_has_key(self.entries@, identity@);
        }
        match self.find(identity) {
            Some(i) => {
                proof {
                    lemma_entries_map_at(self.entries@, i as int);
                }
                Some(self.entries[i].1.clone())
            },
            None => None,
        }
    }

    /// Whether a secret is stored for `identity`; the secret itself is not
    /// exposed.
    pub fn contains(&self, identity: &str) -> (r: bool)
        requires
            self.wf(),
        ensures
            r == self@.contains_key(identity@),
    {
        proof {
            lemma_entries_map_has_key(self.entries@, identity@);
        }
        match self.find(identity) {
            Some(_) => true,
            None => false,
        }
    }

    /// Removes the secret for `identity`; removing an absent secret is a
    /// no-op success.
    pub fn delete(&mut self, identity: &str)
        requires
            old(self).wf(),
        ensures
            final(self).wf(),
            final(self)@ == old(self)@.remove(identity@),
    {
        let ghost s0 = self.entries@;
        proof {
            lemma_entries_map_has_key(s0, identity@);
        }
        match self.find(identity) {
            Some(i) => {
                self.entries.remove(i);
                proof {
                    lemma_remove_updates_map(s0, self.entries@, i as int, identity@);
                }
            },
            None => {
                proof {
                    assert(self@ =~= old(self)@.remove(identity@));
                }
            },
        }
    }
}

proof fn lemma_set_updates_map(s0: Seq<(String, String)>, s1: Seq<(String, String)>, i: int, k: Seq<char>, v: Seq<char>)
    requires
        distinct_keys(s0),
        0 <= i < s0.len(),
        s0[i].0@ == k,
        s1.len() == s0.len(),
        s1[i].0@ == k,
        s1[i].1@ == v,
        forall|j: int| 0 <= j < s0.len() && j != i ==> s1[j] == s0[j],
    ensures
        distinct_keys(s1),
        entries_map(s1) == entries_map(s0).insert(k, v),
    decreases s0.len(),
{
    assert forall|a: int, b: int| 0 <= a < b < s1.len() implies s1[a].0@ != s1[b].0@ by {
        assert(s0[a].0@ != s0[b].0@);
    }
    if i == s0.len() - 1 {
        assert(s1.drop_last() =~= s0.drop_last());
        assert(entries_map(s1) =~= entries_map(s0).insert(k, v));
    } else {
        assert(s1.drop_last()[i] == s1[i]);
        lemma_set_updates_map(s0.drop_last(), s1.drop_last(), i, k, v);
        assert(s1.last() == s0.last());
        assert(s0.last().0@ != k);
        assert(entries_map(s1) =~= entries_map(s0).insert(k, v));
    }
}

proof fn lemma_remove_updates_map(s0: Seq<(String, String)>, s1: Seq<(String, String)>, i: int, k: Seq<char>)
    requires
        distinct_keys(s0),
        0 <= i < s0.len(),
        s0[i].0@ == k,
        s1 =~= s0.subrange(0, i) + s0.subrange(i + 1, s0.len() as int),
    ensures
        distinct_keys(s1),
        entries_map(s1) == entries_map(s0).remove(k),
    decreases s0.len(),
{
    assert forall|a: int, b: int| 0 <= a < b < s1.len() implies s1[a].0@ != s1[b].0@ by {
        let a0: int = if a < i { a } else { a + 1 };
        let b0: int = if b < i { b } else { b + 1 };
        assert(s1[a] == s0[a0]);
        assert(s1[b] == s0[b0]);
    }
    if i == s0.len() - 1 {
        assert(s1 =~= s0.drop_last());
        lemma_entries_map_has_key(s1, k);
        assert(!entries_map(s1).contains_key(k));
        assert(entries_map(s1) =~= entries_map(s0).remove(k));
    } else {
        assert(s1.last() == s0.last());
        assert(s1.drop_last() =~= s0.drop_last().subrange(0, i) + s0.drop_last().subrange(
            i + 1,
            s0.drop_last().len() as int,
        ));
        lemma_remove_updates_map(s0.drop_last(), s1.drop_last(), i, k);
        assert(s0.last().0@ != k);
        assert(entries_map(s1) =~= entries_map(s0).remove(k));
    }
}

/// Law: storing a secret for an identity and then retrieving that identity
/// yields exactly that secret.
pub proof fn lemma_store_then_retrieve(m: Map<Seq<char>, Seq<char>>, i: Seq<char>, s: Seq<char>)
    ensures
        m.insert(i, s).contains_key(i),
        m.insert(i, s)[i] == s,
{
}

/// Law: in a vault where an identity was never stored, retrieval finds
/// nothing and the existence probe is false.
pub proof fn lemma_never_stored_absent(i: Seq<char>)
    ensures
        !Map::<Seq<char>, Seq<char>>::empty().contains_key(i),
{
}

/// Law: deleting an identity that holds no secret leaves the vault
/// unchanged (deletion is idempotent on absent entries).
pub proof fn lemma_delete_absent_no_op(m: Map<Seq<char>, Seq<char>>, i: Seq<char>)
    requires
        !m.contains_key(i),
    ensures
        m.remove(i) == m,
{
    assert(m.remove(i) =~= m);
}

/// Law: a second store for the same identity overwrites the first; no
/// history is kept, and retrieval yields only the second secret.
pub proof fn lemma_store_overwrites(
    m: Map<Seq<char>, Seq<char>>,
    i: Seq<char>,
    s1: Seq<char>,
    s2: Seq<char>,
)
    ensures
        m.insert(i, s1).insert(i, s2) == m.insert(i, s2),
        m.insert(i, s1).insert(i, s2)[i] == s2,
{
    assert(m.insert(i, s1).insert(i, s2) =~= m.insert(i, s2));
}

} // verus!
