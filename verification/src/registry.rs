//! The context registry: which conversations have translation on, and
//! between which languages.
//!
//! The registry maps a conversation's identity — network and channel, both
//! exact strings — to its active language pair. It is the single source of
//! truth for "is translation on here": an activation inserts or overwrites
//! the entry, a deactivation removes it (silently when absent), and a
//! lookup is a pure read. An activation whose source and target are the
//! same language is rejected and leaves the registry unchanged.

use vstd::prelude::*;

verus! {

/// One conversation surface: its network and channel identity. Equality
/// is exact string equality on both parts.
pub struct ContextKey {
    pub network: String,
    pub channel: String,
}

impl View for ContextKey {
    type V = (Seq<char>, Seq<char>);

    open spec fn view(&self) -> (Seq<char>, Seq<char>) {
        (self.network@, self.channel@)
    }
}

/// An active translation choice: the user's language and the language to
/// translate to.
pub struct LanguagePair {
    pub source: String,
    pub target: String,
}

impl View for LanguagePair {
    type V = (Seq<char>, Seq<char>);

    open spec fn view(&self) -> (Seq<char>, Seq<char>) {
        (self.source@, self.target@)
    }
}

/// The registry's mathematical content: a map from context identity to
/// language pair.
spec fn map_of(es: Seq<(ContextKey, LanguagePair)>) -> Map<
    (Seq<char>, Seq<char>),
    (Seq<char>, Seq<char>),
>
    decreases es.len(),
{
    if es.len() == 0 {
        Map::empty()
    } else {
        map_of(es.drop_last()).insert(es.last().0@, es.last().1@)
    }
}

/// The registry of contexts with translation on. Its mathematical content
/// (the view) is the map from context identity to language pair.
pub struct Registry {
    entries: Vec<(ContextKey, LanguagePair)>,
}

impl View for Registry {
    type V = Map<(Seq<char>, Seq<char>), (Seq<char>, Seq<char>)>;

    closed spec fn view(&self) -> Map<(Seq<char>, Seq<char>), (Seq<char>, Seq<char>)> {
        map_of(self.entries@)
    }
}

/// No two entries share a key.
spec fn unique_keys(es: Seq<(ContextKey, LanguagePair)>) -> bool {
    forall|i: int, j: int| 0 <= i < j < es.len() ==> (#[trigger] es[i]).0@ != (#[trigger] es[j]).0@
}

proof fn lemma_map_of_contains(es: Seq<(ContextKey, LanguagePair)>, k: (Seq<char>, Seq<char>))
    ensures
        map_of(es).contains_key(k) <==> exists|i: int| 0 <= i < es.len() && (#[trigger] es[i]).0@
            == k,
    decreases es.len(),
{
    if es.len() > 0 {
        lemma_map_of_contains(es.drop_last(), k);
        let n = es.len() as int;
        if map_of(es).contains_key(k) {
            if k != es.last().0@ {
                let i = choose|i: int| 0 <= i < n - 1 && (#[trigger] es.drop_last()[i]).0@ == k;
                assert(es[i] == es.drop_last()[i]);
            }
        }
        if exists|i: int| 0 <= i < es.len() && (#[trigger] es[i]).0@ == k {
            let i = choose|i: int| 0 <= i < es.len() && (#[trigger] es[i]).0@ == k;
            if i < n - 1 {
                assert(es.drop_last()[i] == es[i]);
            }
        }
    }
}

proof fn lemma_map_of_value(es: Seq<(ContextKey, LanguagePair)>, i: int)
    requires
        unique_keys(es),
        0 <= i < es.len(),
    ensures
        map_of(es).contains_key(es[i].0@),
        map_of(es)[es[i].0@] == es[i].1@,
    decreases es.len(),
{
    let n = es.len() as int;
    if i == n - 1 {
        assert(es[i] == es.last());
    } else {
        assert(unique_keys(es.drop_last())) by {
            assert(forall|p: int, q: int|
                0 <= p < q < n - 1 ==> (#[trigger] es.drop_last()[p]) == es[p]
                    && (#[trigger] es.drop_last()[q]) == es[q]);
        }
        assert(es.drop_last()[i] == es[i]);
        lemma_map_of_value(es.drop_last(), i);
        assert(es[i].0@ != es.last().0@);
    }
}

impl Registry {
    /// The registry's entries have pairwise distinct keys.
    pub closed spec fn wf(&self) -> bool {
        unique_keys(self.entries@)
    }

    /// An empty registry: translation is off everywhere.
    pub fn new() -> (r: Registry)
        ensures
            r.wf(),
            r@ == Map::<(Seq<char>, Seq<char>), (Seq<char>, Seq<char>)>::empty(),
    {
        Registry { entries: Vec::new() }
    }

    /// Pure read: the active language pair for this context, or nothing
    /// when translation is off there.
    pub fn lookup(&self, key: &ContextKey) -> (r: Option<LanguagePair>)
        requires
            self.wf(),
        ensures
            match r {
                Some(p) => self@.contains_key(key@) && p@ == self@[key@],
                None => !self@.contains_key(key@),
            },
    {
        let n = self.entries.len();
        let mut i: usize = 0;
        while i < n
            invariant
                self.wf(),
                n == self.entries@.len(),
                i <= n,
                forall|j: int| 0 <= j < i ==> (#[trigger] self.entries@[j]).0@ != key@,
            decreases n - i,
        {
            let e = &self.entries[i];
            if e.0.network == key.network && e.0.channel == key.channel {
                proof {
                    assert(self.entries@[i as int].0@ == key@);
                    lemma_map_of_value(self.entries@, i as int);
                }
                return Some(
                    LanguagePair { source: e.1.source.clone(), target: e.1.target.clone() },
                );
            }
            i = i + 1;
        }
        proof {
            lemma_map_of_contains(self.entries@, key@);
        }
        None
    }

    /// Removes this context's entry, deactivating translation there; a
    /// no-op when the context has no entry.
    pub fn deactivate(&mut self, key: &ContextKey)
        requires
            old(self).wf(),
        ensures
            final(self).wf(),
            final(self)@ == old(self)@.remove(key@),
    {
        let n = self.entries.len();
        let mut i: usize = 0;
        while i < n
            invariant
                self.wf(),
                self.entries@ == old(self).entries@,
                n == self.entries@.len(),
                i <= n,
                forall|j: int| 0 <= j < i ==> (#[trigger] self.entries@[j]).0@ != key@,
            decreases n - i,
        {
            let e = &self.entries[i];
            if e.0.network == key.network && e.0.channel == key.channel {
                proof {
                    assert(self.entries@[i as int].0@ == key@);
                }
                let ghost before = self.entries@;
                self.entries.remove(i);
                proof {
                    lemma_map_of_remove(before, i as int);
                    assert(unique_keys(before.remove(i as int))) by {
                        assert(forall|p: int|
                            0 <= p < before.remove(i as int).len()
                                ==> (#[trigger] before.remove(i as int)[p]) == (if p < i {
                                before[p]
                            } else {
                                before[p + 1]
                            }));
                    }
                }
                return ;
            }
            i = i + 1;
        }
        proof {
            lemma_map_of_contains(self.entries@, key@);
            assert(!self@.contains_key(key@));
            assert(self@.remove(key@) =~= self@);
        }
    }

    /// Turns translation on for this context with the given pair,
    /// overwriting any earlier choice, unless the pair's source and
    /// target are the same language: that is rejected and the registry is
    /// left unchanged. Returns whether activation happened.
    pub fn activate(&mut self, key: &ContextKey, pair: &LanguagePair) -> (r: bool)
        requires
            old(self).wf(),
        ensures
            final(self).wf(),
            r == (pair.source@ != pair.target@),
            r ==> final(self)@ == old(self)@.insert(key@, pair@),
            !r ==> final(self)@ == old(self)@,
    {
        if pair.source == pair.target {
            return false;
        }
        self.deactivate(key);
        let ghost removed = self.entries@;
        proof {
            lemma_map_of_contains(removed, key@);
        }
        self.entries.push(
            (
                ContextKey { network: key.network.clone(), channel: key.channel.clone() },
                LanguagePair { source: pair.source.clone(), target: pair.target.clone() },
            ),
        );
        proof {
            assert(self.entries@.drop_last() =~= removed);
            assert(self.entries@.last().0@ == key@);
            assert(self.entries@.last().1@ == pair@);
            assert(unique_keys(self.entries@)) by {
                assert(forall|p: int|
                    0 <= p < removed.len() ==> (#[trigger] self.entries@[p]) == removed[p]);
                assert(forall|p: int| 0 <= p < removed.len() ==> removed[p].0@ != key@);
            }
            assert(old(self)@.remove(key@).insert(key@, pair@) =~= old(self)@.insert(key@, pair@));
        }
        true
    }
}

proof fn lemma_map_of_remove(es: Seq<(ContextKey, LanguagePair)>, i: int)
    requires
        unique_keys(es),
        0 <= i < es.len(),
    ensures
        map_of(es.remove(i)) == map_of(es).remove(es[i].0@),
    decreases es.len(),
{
    let n = es.len() as int;
    let k = es[i].0@;
    if i == n - 1 {
        assert(es.remove(i) =~= es.drop_last());
        assert(forall|j: int| 0 <= j < n - 1 ==> (#[trigger] es.drop_last()[j]) == es[j]);
        lemma_map_of_contains(es.drop_last(), k);
        assert(!map_of(es.drop_last()).contains_key(k));
        assert(map_of(es.drop_last()).insert(k, es.last().1@).remove(k) =~= map_of(
            es.drop_last(),
        ));
    } else {
        assert(unique_keys(es.drop_last())) by {
            assert(forall|p: int, q: int|
                0 <= p < q < n - 1 ==> (#[trigger] es.drop_last()[p]) == es[p]
                    && (#[trigger] es.drop_last()[q]) == es[q]);
        }
        assert(es.drop_last()[i] == es[i]);
        lemma_map_of_remove(es.drop_last(), i);
        assert(es.remove(i).drop_last() =~= es.drop_last().remove(i));
        assert(es.remove(i).last() == es.last());
        assert(map_of(es.remove(i)) == map_of(es.drop_last().remove(i)).insert(
            es.last().0@,
            es.last().1@,
        ));
        assert(k != es.last().0@);
        assert(map_of(es.drop_last()).remove(k).insert(es.last().0@, es.last().1@) =~= map_of(
            es.drop_last(),
        ).insert(es.last().0@, es.last().1@).remove(k));
    }
}

/// Round trip: after an activation, a lookup of the same context yields
/// exactly the activated pair; after a deactivation, it yields nothing.
/// Stated over the registry's map content, which `activate`, `deactivate`
/// and `lookup` are specified against.
pub proof fn lemma_registry_round_trip(
    m: Map<(Seq<char>, Seq<char>), (Seq<char>, Seq<char>)>,
    key: (Seq<char>, Seq<char>),
    pair: (Seq<char>, Seq<char>),
)
    ensures
        m.insert(key, pair).contains_key(key),
        m.insert(key, pair)[key] == pair,
        !m.remove(key).contains_key(key),
{
}

} // verus!
