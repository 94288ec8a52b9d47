use vstd::prelude::*;

use crate::module_models::Module;

verus! {

/// The title-keyed lookup of the editing shape: at most one module per
/// title. Inserting an already-present title overwrites the stored
/// module — the module inserted last wins.
#[derive(Debug)]
pub struct FieldMap {
    pub entries: Vec<(String, Module)>,
}

/// The title-keyed list lookup of the editing shape, for repeated
/// (array-style) fields: every inserted module of a title, in insertion
/// order.
#[derive(Debug)]
pub struct ArrayFieldMap {
    pub entries: Vec<(String, Vec<Module>)>,
}

/// The mapping an entry sequence denotes, built left to right, so a later
/// entry for a title overrides an earlier one.
pub open spec fn field_map_of(es: Seq<(String, Module)>) -> Map<Seq<char>, Module>
    decreases es.len(),
{
    if es.len() == 0 {
        Map::empty()
    } else {
        field_map_of(es.drop_last()).insert(es.last().0@, es.last().1)
    }
}

/// The mapping an entry sequence of lists denotes.
pub open spec fn array_map_of(es: Seq<(String, Vec<Module>)>) -> Map<Seq<char>, Seq<Module>>
    decreases es.len(),
{
    if es.len() == 0 {
        Map::empty()
    } else {
        array_map_of(es.drop_last()).insert(es.last().0@, es.last().1@)
    }
}

proof fn lemma_field_map_index(es: Seq<(String, Module)>, i: int)
    requires
        forall|a: int, b: int|
            0 <= a < b < es.len() ==> (#[trigger] es[a]).0@ != (#[trigger] es[b]).0@,
        0 <= i < es.len(),
    ensures
        field_map_of(es).contains_key(es[i].0@),
        field_map_of(es)[es[i].0@] == es[i].1,
    decreases es.len(),
{
    if i < es.len() - 1 {
        lemma_field_map_index(es.drop_last(), i);
    }
}

proof fn lemma_field_map_no_key(es: Seq<(String, Module)>, k: Seq<char>)
    requires
        forall|a: int| 0 <= a < es.len() ==> (#[trigger] es[a]).0@ != k,
    ensures
        !field_map_of(es).contains_key(k),
    decreases es.len(),
{
    if es.len() > 0 {
        lemma_field_map_no_key(es.drop_last(), k);
    }
}

proof fn lemma_field_map_update(es: Seq<(String, Module)>, i: int, e: (String, Module))
    requires
        forall|a: int, b: int|
            0 <= a < b < es.len() ==> (#[trigger] es[a]).0@ != (#[trigger] es[b]).0@,
        0 <= i < es.len(),
        es[i].0@ == e.0@,
    ensures
        field_map_of(es.update(i, e)) == field_map_of(es).insert(e.0@, e.1),
    decreases es.len(),
{
    let k = e.0@;
    let base = field_map_of(es.drop_last());
    if i == es.len() - 1 {
        assert(es.update(i, e).drop_last() =~= es.drop_last());
        assert(base.insert(es[i].0@, es[i].1).insert(k, e.1) =~= base.insert(k, e.1));
    } else {
        assert(es.update(i, e).drop_last() =~= es.drop_last().update(i, e));
        lemma_field_map_update(es.drop_last(), i, e);
        let last = es.last();
        assert(base.insert(k, e.1).insert(last.0@, last.1) =~= base.insert(last.0@, last.1).insert(
            k,
            e.1,
        ));
    }
}

proof fn lemma_array_map_index(es: Seq<(String, Vec<Module>)>, i: int)
    requires
        forall|a: int, b: int|
            0 <= a < b < es.len() ==> (#[trigger] es[a]).0@ != (#[trigger] es[b]).0@,
        0 <= i < es.len(),
    ensures
        array_map_of(es).contains_key(es[i].0@),
        array_map_of(es)[es[i].0@] == es[i].1@,
    decreases es.len(),
{
    if i < es.len() - 1 {
        lemma_array_map_index(es.drop_last(), i);
    }
}

proof fn lemma_array_map_no_key(es: Seq<(String, Vec<Module>)>, k: Seq<char>)
    requires
        forall|a: int| 0 <= a < es.len() ==> (#[trigger] es[a]).0@ != k,
    ensures
        !array_map_of(es).contains_key(k),
    decreases es.len(),
{
    if es.len() > 0 {
        lemma_array_map_no_key(es.drop_last(), k);
    }
}

proof fn lemma_array_map_update(es: Seq<(String, Vec<Module>)>, i: int, e: (String, Vec<Module>))
    requires
        forall|a: int, b: int|
            0 <= a < b < es.len() ==> (#[trigger] es[a]).0@ != (#[trigger] es[b]).0@,
        0 <= i < es.len(),
        es[i].0@ == e.0@,
    ensures
        array_map_of(es.update(i, e)) == array_map_of(es).insert(e.0@, e.1@),
    decreases es.len(),
{
    let k = e.0@;
    let base = array_map_of(es.drop_last());
    if i == es.len() - 1 {
        assert(es.update(i, e).drop_last() =~= es.drop_last());
        assert(base.insert(es[i].0@, es[i].1@).insert(k, e.1@) =~= base.insert(k, e.1@));
    } else {
        assert(es.update(i, e).drop_last() =~= es.drop_last().update(i, e));
        lemma_array_map_update(es.drop_last(), i, e);
        let last = es.last();
        assert(base.insert(k, e.1@).insert(last.0@, last.1@) =~= base.insert(
            last.0@,
            last.1@,
        ).insert(k, e.1@));
    }
}

impl View for FieldMap {
    type V = Map<Seq<char>, Module>;

    open spec fn view(&self) -> Map<Seq<char>, Module> {
        field_map_of(self.entries@)
    }
}

impl FieldMap {
    /// Entry titles are pairwise distinct, so each title denotes at most
    /// one stored module.
    pub open spec fn wf(self) -> bool {
        forall|a: int, b: int|
            0 <= a < b < self.entries@.len() ==> (#[trigger] self.entries@[a]).0@ != (
            #[trigger] self.entries@[b]).0@
    }

    /// An empty lookup.
    pub fn new() -> (r: FieldMap)
        ensures
            r.wf(),
            r@ == Map::<Seq<char>, Module>::empty(),
    {
        let r = FieldMap { entries: Vec::new() };
        proof {
            assert(r@ =~= Map::<Seq<char>, Module>::empty());
        }
        r
    }

    /// Binds `title` to `m`. On a repeated title the earlier module is
    /// overwritten: the module inserted last wins.
    pub fn insert(&mut self, title: String, m: Module)
        requires
            old(self).wf(),
        ensures
            final(self).wf(),
            final(self)@ == old(self)@.insert(title@, m),
    {
        let n = self.entries.len();
        let mut i: usize = 0;
        while i < n
            invariant
                n == self.entries@.len(),
                0 <= i <= n,
                old(self).wf(),
                self.entries@ == old(self).entries@,
                forall|j: int| 0 <= j < i ==> (#[trigger] self.entries@[j]).0@ != title@,
            decreases n - i,
        {
            if self.entries[i].0 == title {
                proof {
                    let es = self.entries@;
                    let es2 = es.update(i as int, (title, m));
                    lemma_field_map_update(es, i as int, (title, m));
                    assert forall|a: int, b: int|
                        0 <= a < b < es2.len() implies (#[trigger] es2[a]).0@ != (
                    #[trigger] es2[b]).0@ by {
                        assert((es[a]).0@ != (es[b]).0@);
                    }
                }
                self.entries.set(i, (title, m));
                return ;
            }
            i += 1;
        }
        proof {
            let es = self.entries@;
            let es2 = es.push((title, m));
            assert(es2.drop_last() =~= es);
            assert forall|a: int, b: int|
                0 <= a < b < es2.len() implies (#[trigger] es2[a]).0@ != (#[trigger] es2[b]).0@ by {
                if b < es.len() {
                    assert((es[a]).0@ != (es[b]).0@);
                } else {
                    assert((es[a]).0@ != title@);
                }
            }
        }
        self.entries.push((title, m));
    }

    /// Looks the single module of `title` up.
    pub fn get(&self, title: &String) -> (r: Option<&Module>)
        requires
            self.wf(),
        ensures
            match r {
                Some(m) => self@.contains_key(title@) && *m == self@[title@],
                None => !self@.contains_key(title@),
            },
    {
        let n = self.entries.len();
        let mut i: usize = 0;
        while i < n
            invariant
                n == self.entries@.len(),
                0 <= i <= n,
                self.wf(),
                forall|j: int| 0 <= j < i ==> (#[trigger] self.entries@[j]).0@ != title@,
            decreases n - i,
        {
            if self.entries[i].0 == *title {
                proof {
                    lemma_field_map_index(self.entries@, i as int);
                }
                return Some(&self.entries[i].1);
            }
            i += 1;
        }
        proof {
            lemma_field_map_no_key(self.entries@, title@);
        }
        None
    }

    /// How many titles are bound.
    pub fn len(&self) -> (r: usize)
        ensures
            r == self.entries@.len(),
    {
        self.entries.len()
    }
}

impl View for ArrayFieldMap {
    type V = Map<Seq<char>, Seq<Module>>;

    open spec fn view(&self) -> Map<Seq<char>, Seq<Module>> {
        array_map_of(self.entries@)
    }
}

impl ArrayFieldMap {
    /// Entry titles are pairwise distinct.
    pub open spec fn wf(self) -> bool {
        forall|a: int, b: int|
            0 <= a < b < self.entries@.len() ==> (#[trigger] self.entries@[a]).0@ != (
            #[trigger] self.entries@[b]).0@
    }

    /// An empty lookup.
    pub fn new() -> (r: ArrayFieldMap)
        ensures
            r.wf(),
            r@ == Map::<Seq<char>, Seq<Module>>::empty(),
    {
        let r = ArrayFieldMap { entries: Vec::new() };
        proof {
            assert(r@ =~= Map::<Seq<char>, Seq<Module>>::empty());
        }
        r
    }

    /// Appends `m` to the list bound to `title`, starting a fresh list
    /// when the title is new.
    pub fn insert(&mut self, title: String, m: Module)
        requires
            old(self).wf(),
        ensures
            final(self).wf(),
            final(self)@ == old(self)@.insert(
                title@,
                if old(self)@.contains_key(title@) {
                    old(self)@[title@].push(m)
                } else {
                    seq![m]
                },
            ),
    {
        let n = self.entries.len();
        let mut i: usize = 0;
        while i < n
            invariant
                n == self.entries@.len(),
                0 <= i <= n,
                old(self).wf(),
                self.entries@ == old(self).entries@,
                forall|j: int| 0 <= j < i ==> (#[trigger] self.entries@[j]).0@ != title@,
            decreases n - i,
        {
            if self.entries[i].0 == title {
                let ghost es = self.entries@;
                proof {
                    lemma_array_map_index(es, i as int);
                }
                let mut entry = self.entries.remove(i);
                entry.1.push(m);
                proof {
                    let es2 = es.update(i as int, entry);
                    assert(es.remove(i as int).insert(i as int, entry) =~= es2);
                    lemma_array_map_update(es, i as int, entry);
                    assert forall|a: int, b: int|
                        0 <= a < b < es2.len() implies (#[trigger] es2[a]).0@ != (
                    #[trigger] es2[b]).0@ by {
                        assert((es[a]).0@ != (es[b]).0@);
                    }
                }
                self.entries.insert(i, entry);
                return ;
            }
            i += 1;
        }
        proof {
            lemma_array_map_no_key(self.entries@, title@);
        }
        let mut fresh: Vec<Module> = Vec::new();
        fresh.push(m);
        proof {
            assert(fresh@ =~= seq![m]);
            let es = self.entries@;
            let es2 = es.push((title, fresh));
            assert(es2.drop_last() =~= es);
            assert forall|a: int, b: int|
                0 <= a < b < es2.len() implies (#[trigger] es2[a]).0@ != (#[trigger] es2[b]).0@ by {
                if b < es.len() {
                    assert((es[a]).0@ != (es[b]).0@);
                } else {
                    assert((es[a]).0@ != title@);
                }
            }
        }
        self.entries.push((title, fresh));
    }

    /// Looks the module list of `title` up.
    pub fn get(&self, title: &String) -> (r: Option<&Vec<Module>>)
        requires
            self.wf(),
        ensures
            match r {
                Some(v) => self@.contains_key(title@) && v@ == self@[title@],
                None => !self@.contains_key(title@),
            },
    {
        let n = self.entries.len();
        let mut i: usize = 0;
        while i < n
            invariant
                n == self.entries@.len(),
                0 <= i <= n,
                self.wf(),
                forall|j: int| 0 <= j < i ==> (#[trigger] self.entries@[j]).0@ != title@,
            decreases n - i,
        {
            if self.entries[i].0 == *title {
                proof {
                    lemma_array_map_index(self.entries@, i as int);
                }
                return Some(&self.entries[i].1);
            }
            i += 1;
        }
        proof {
            lemma_array_map_no_key(self.entries@, title@);
        }
        None
    }
}

} // verus!
