//! Values under names, each name once.
use vstd::prelude::*;

verus! {

/// Values under names. No name occurs twice.
#[derive(Debug)]
pub struct Named<V> {
    list: Vec<(String, V)>,
}

spec fn names<V>(s: Seq<(String, V)>, id: Seq<char>, i: int) -> bool {
    0 <= i < s.len() && s[i].0@ == id
}

spec fn is_named<V>(s: Seq<(String, V)>, id: Seq<char>) -> bool {
    exists|i: int| names(s, id, i)
}

spec fn distinct<V>(s: Seq<(String, V)>) -> bool {
    forall|i: int, j: int| 0 <= i < j < s.len() ==> (#[trigger] s[i]).0@ != (#[trigger] s[j]).0@
}

spec fn records<V>(s: Seq<(String, V)>) -> Map<Seq<char>, V> {
    Map::new(|id: Seq<char>| is_named(s, id), |id: Seq<char>| s[choose|i: int| names(s, id, i)].1)
}

/// `list` holds each entry of `m`, once.
pub open spec fn lists_entries<V>(list: Seq<(String, V)>, m: Map<Seq<char>, V>) -> bool {
    &&& m.dom().finite()
    &&& list.len() == m.dom().len()
    &&& forall|i: int|
        0 <= i < list.len() ==> m.contains_key((#[trigger] list[i]).0@) && m[list[i].0@] == list[i].1
    &&& forall|i: int, j: int|
        0 <= i < j < list.len() ==> (#[trigger] list[i]).0@ != (#[trigger] list[j]).0@
    &&& forall|id: Seq<char>| #[trigger] m.contains_key(id) ==> is_listed(list, id)
}

/// A name occurs in a list.
pub open spec fn is_listed<V>(list: Seq<(String, V)>, id: Seq<char>) -> bool {
    exists|i: int| 0 <= i < list.len() && (#[trigger] list[i]).0@ == id
}

impl<V> View for Named<V> {
    type V = Map<Seq<char>, V>;

    closed spec fn view(&self) -> Map<Seq<char>, V> {
        records(self.list@)
    }
}

impl<V: Copy> Named<V> {
    pub closed spec fn wf(&self) -> bool {
        distinct(self.list@)
    }

    pub fn new() -> (named: Self)
        ensures
            named.wf(),
            named@ == Map::<Seq<char>, V>::empty(),
    {
        let named = Named { list: Vec::new() };
        assert(named@ =~= Map::<Seq<char>, V>::empty());
        named
    }

    fn index_of(&self, id: &String) -> (res: Option<usize>)
        requires
            self.wf(),
        ensures
            match res {
                Some(i) => names(self.list@, id@, i as int) && self@.contains_key(id@)
                    && self@[id@] == self.list@[i as int].1,
                None => !self@.contains_key(id@),
            },
    {
        let mut i: usize = 0;
        while i < self.list.len()
            invariant
                self.wf(),
                i <= self.list.len(),
                forall|j: int| 0 <= j < i ==> (#[trigger] self.list@[j]).0@ != id@,
            decreases self.list.len() - i,
        {
            if self.list[i].0 == *id {
                proof {
                    lemma_record(self.list@, i as int);
                }
                return Some(i);
            }
            i += 1;
        }
        None
    }

    /// The value under a name.
    pub fn get(&self, id: &String) -> (res: Option<V>)
        requires
            self.wf(),
        ensures
            res == (if self@.contains_key(id@) {
                Some(self@[id@])
            } else {
                None
            }),
    {
        match self.index_of(id) {
            Some(i) => Some(self.list[i].1),
            None => None,
        }
    }

    /// Whether there is a value under a name.
    pub fn contains(&self, id: &String) -> (res: bool)
        requires
            self.wf(),
        ensures
            res == self@.contains_key(id@),
    {
        self.index_of(id).is_some()
    }

    /// Puts a value under a name, in place of the one that was there.
    pub fn set(&mut self, id: &String, b: V)
        requires
            old(self).wf(),
        ensures
            final(self).wf(),
            final(self)@ == old(self)@.insert(id@, b),
    {
        let ghost before = self.list@;
        match self.index_of(id) {
            Some(i) => {
                self.list.set(i, (id.clone(), b));
                let ghost now = self.list@;
                proof {
                    assert forall|k: Seq<char>| is_named(now, k) == is_named(before, k) by {
                        if is_named(before, k) {
                            let j = choose|j: int| names(before, k, j);
                            assert(names(now, k, j));
                        }
                        if is_named(now, k) {
                            let j = choose|j: int| names(now, k, j);
                            assert(names(before, k, j));
                        }
                    }
                    assert(distinct(now));
                    assert forall|k: Seq<char>| is_named(now, k) implies records(now)[k]
                        == records(before).insert(id@, b)[k] by {
                        let j = choose|j: int| names(now, k, j);
                        lemma_record(now, j);
                        lemma_record(before, j);
                    }
                    assert(names(now, id@, i as int));
                    assert(records(now) =~= records(before).insert(id@, b));
                }
            },
            None => {
                self.list.push((id.clone(), b));
                proof {
                    lemma_push(before, (*id, b));
                }
            },
        }
        assert(final(self)@ =~= old(self)@.insert(id@, b));
    }

    /// Takes a name away, with its value.
    pub fn remove(&mut self, id: &String)
        requires
            old(self).wf(),
        ensures
            final(self).wf(),
            final(self)@ == old(self)@.remove(id@),
    {
        let ghost before = self.list@;
        match self.index_of(id) {
            Some(i) => {
                self.list.remove(i);
                proof {
                    lemma_remove(before, i as int);
                }
            },
            None => {},
        }
        assert(final(self)@ =~= old(self)@.remove(id@));
    }

    /// The names and their values.
    pub fn entries(&self) -> (list: &Vec<(String, V)>)
        requires
            self.wf(),
        ensures
            lists_entries(list@, self@),
    {
        proof {
            lemma_records_len(self.list@);
            assert forall|i: int| 0 <= i < self.list@.len() implies self@.contains_key(
                (#[trigger] self.list@[i]).0@,
            ) && self@[self.list@[i].0@] == self.list@[i].1 by {
                lemma_record(self.list@, i);
            }
            assert forall|id: Seq<char>| #[trigger] self@.contains_key(id) implies is_listed(
                self.list@,
                id,
            ) by {
                let i = choose|i: int| names(self.list@, id, i);
                assert(self.list@[i].0@ == id);
            }
        }
        &self.list
    }
}

/// Where a name stands in the list, its value is the one under that name.
proof fn lemma_record<V>(s: Seq<(String, V)>, i: int)
    requires
        distinct(s),
        0 <= i < s.len(),
    ensures
        records(s).contains_key(s[i].0@),
        records(s)[s[i].0@] == s[i].1,
{
    let id = s[i].0@;
    assert(names(s, id, i));
    let j = choose|j: int| names(s, id, j);
    assert(names(s, id, j));
    assert(i == j) by {
        if i < j {
            assert(s[i].0@ != s[j].0@);
        } else if j < i {
            assert(s[j].0@ != s[i].0@);
        }
    }
}

proof fn lemma_records_len<V>(s: Seq<(String, V)>)
    requires
        distinct(s),
    ensures
        records(s).dom().finite(),
        records(s).dom().len() == s.len(),
    decreases s.len(),
{
    if s.len() == 0 {
        assert(records(s).dom() =~= Set::<Seq<char>>::empty());
    } else {
        let t = s.drop_last();
        lemma_records_len(t);
        assert(!is_named(t, s.last().0@)) by {
            if is_named(t, s.last().0@) {
                let j = choose|j: int| names(t, s.last().0@, j);
                assert(s[j].0@ != s[s.len() - 1].0@);
            }
        }
        lemma_push(t, s.last());
        assert(t.push(s.last()) == s);
    }
}

proof fn lemma_push_names<V>(before: Seq<(String, V)>, e: (String, V))
    ensures
        forall|k: Seq<char>|
            #[trigger] is_named(before.push(e), k) == (is_named(before, k) || k == e.0@),
{
    let now = before.push(e);
    assert forall|k: Seq<char>| #[trigger]
        is_named(now, k) == (is_named(before, k) || k == e.0@) by {
        if is_named(before, k) {
            let j = choose|j: int| names(before, k, j);
            assert(names(now, k, j));
        }
        if k == e.0@ {
            assert(names(now, k, before.len() as int));
        }
        if is_named(now, k) {
            let j = choose|j: int| names(now, k, j);
            if j < before.len() {
                assert(names(before, k, j));
            }
        }
    }
}

proof fn lemma_remove<V>(before: Seq<(String, V)>, i: int)
    requires
        distinct(before),
        0 <= i < before.len(),
    ensures
        distinct(before.remove(i)),
        records(before.remove(i)) == records(before).remove(before[i].0@),
{
    let now = before.remove(i);
    let id = before[i].0@;
    assert forall|k: Seq<char>| is_named(now, k) == (is_named(before, k) && k != id) by {
        if is_named(before, k) && k != id {
            let j = choose|j: int| names(before, k, j);
            assert(names(now, k, if j < i {
                j
            } else {
                j - 1
            }));
        }
        if is_named(now, k) {
            let j = choose|j: int| names(now, k, j);
            let h = if j < i {
                j
            } else {
                j + 1
            };
            assert(names(before, k, h));
            assert(k != id) by {
                if h < i {
                    assert(before[h].0@ != before[i].0@);
                } else {
                    assert(before[i].0@ != before[h].0@);
                }
            }
        }
    }
    assert forall|k: Seq<char>| is_named(now, k) implies records(now)[k] == records(before)[k] by {
        let j = choose|j: int| names(now, k, j);
        lemma_record(now, j);
        lemma_record(before, if j < i {
            j
        } else {
            j + 1
        });
    }
    assert(records(now) =~= records(before).remove(id));
}

proof fn lemma_push<V>(before: Seq<(String, V)>, e: (String, V))
    requires
        distinct(before),
        !is_named(before, e.0@),
    ensures
        distinct(before.push(e)),
        records(before.push(e)) == records(before).insert(e.0@, e.1),
{
    let now = before.push(e);
    assert forall|i: int, j: int| 0 <= i < j < now.len() implies (#[trigger] now[i]).0@ != (
    #[trigger] now[j]).0@ by {
        if j == before.len() {
            if now[i].0@ == e.0@ {
                assert(names(before, e.0@, i));
            }
        }
    }
    lemma_push_names(before, e);
    assert forall|k: Seq<char>| is_named(now, k) implies records(now)[k] == records(before).insert(
        e.0@,
        e.1,
    )[k] by {
        let j = choose|j: int| names(now, k, j);
        lemma_record(now, j);
        if j < before.len() {
            lemma_record(before, j);
        }
    }
    assert(records(now) =~= records(before).insert(e.0@, e.1));
}

/// A list of the entries of a map holds each name with its value, each once, and no other.
pub proof fn law_entries<V>(list: Seq<(String, V)>, m: Map<Seq<char>, V>, id: Seq<char>)
    requires
        lists_entries(list, m),
    ensures
        m.contains_key(id) <==> exists|i: int| 0 <= i < list.len() && (#[trigger] list[i]).0@ == id,
        forall|i: int| 0 <= i < list.len() && (#[trigger] list[i]).0@ == id ==> list[i].1 == m[id],
        forall|i: int, j: int|
            0 <= i < list.len() && 0 <= j < list.len() && (#[trigger] list[i]).0@ == id && (
            #[trigger] list[j]).0@ == id ==> i == j,
{
    if m.contains_key(id) {
        assert(is_listed(list, id));
    }
}

} // verus!
