//! A per-module mapping from offset name to resolved address offset.
//!
//! Entries are only ever added, never removed or overwritten: inserting a
//! name that is already present leaves the map unchanged.
use vstd::prelude::*;

verus! {

/// The mathematical content of an entry list: name view to value, the
/// earliest entry for a name winning.
pub open spec fn map_of(s: Seq<(String, u32)>) -> Map<Seq<char>, u32>
    decreases s.len(),
{
    if s.len() == 0 {
        Map::<Seq<char>, u32>::empty()
    } else {
        map_of(s.skip(1)).insert(s[0].0@, s[0].1)
    }
}

/// No two entries share a name.
pub open spec fn distinct_names(s: Seq<(String, u32)>) -> bool {
    forall|i: int, j: int| 0 <= i < j < s.len() ==> (#[trigger] s[i]).0@ != (#[trigger] s[j]).0@
}

proof fn lemma_map_of_absent(s: Seq<(String, u32)>, k: Seq<char>)
    requires
        !map_of(s).contains_key(k),
    ensures
        forall|i: int| 0 <= i < s.len() ==> (#[trigger] s[i]).0@ != k,
    decreases s.len(),
{
    if s.len() > 0 {
        lemma_map_of_absent(s.skip(1), k);
        assert forall|i: int| 0 <= i < s.len() implies (#[trigger] s[i]).0@ != k by {
            if i > 0 {
                assert(s.skip(1)[i - 1] == s[i]);
            }
        }
    }
}

proof fn lemma_map_of_push(s: Seq<(String, u32)>, e: (String, u32))
    requires
        forall|i: int| 0 <= i < s.len() ==> (#[trigger] s[i]).0@ != e.0@,
    ensures
        map_of(s.push(e)) =~= map_of(s).insert(e.0@, e.1),
    decreases s.len(),
{
    if s.len() == 0 {
        assert(s.push(e).skip(1) =~= Seq::<(String, u32)>::empty());
        assert(s.push(e)[0] == e);
        assert(map_of(s.push(e)) == map_of(s.push(e).skip(1)).insert(e.0@, e.1));
        assert(map_of(s.push(e)) =~= map_of(s).insert(e.0@, e.1));
    } else {
        assert(s.push(e).skip(1) =~= s.skip(1).push(e));
        assert forall|i: int| 0 <= i < s.skip(1).len() implies (#[trigger] s.skip(1)[i]).0@
            != e.0@ by {
            assert(s.skip(1)[i] == s[i + 1]);
        }
        lemma_map_of_push(s.skip(1), e);
        assert(s.push(e)[0] == s[0]);
        assert(s[0].0@ != e.0@);
        let m1 = map_of(s.skip(1));
        assert(map_of(s.push(e)) == map_of(s.skip(1).push(e)).insert(s[0].0@, s[0].1));
        assert(map_of(s.skip(1).push(e)) == m1.insert(e.0@, e.1));
        assert(map_of(s) == m1.insert(s[0].0@, s[0].1));
        assert(m1.insert(e.0@, e.1).insert(s[0].0@, s[0].1) =~= m1.insert(s[0].0@, s[0].1).insert(
            e.0@,
            e.1,
        ));
    }
}

/// A module's offset map: offset name to module-relative address.
#[derive(Debug)]
pub struct OffsetMap {
    entries: Vec<(String, u32)>,
}

impl OffsetMap {
    /// The map this value stands for.
    pub closed spec fn view(&self) -> Map<Seq<char>, u32> {
        map_of(self.entries@)
    }

    /// The entries in insertion order, as views.
    pub closed spec fn entries_view(&self) -> Seq<(Seq<char>, u32)> {
        self.entries@.map(|i: int, e: (String, u32)| (e.0@, e.1))
    }

    /// Names are never repeated.
    pub closed spec fn wf(&self) -> bool {
        distinct_names(self.entries@)
    }

    /// An empty map.
    pub fn new() -> (r: OffsetMap)
        ensures
            r@ =~= Map::<Seq<char>, u32>::empty(),
            r.wf(),
            r.entries_view() =~= Seq::<(Seq<char>, u32)>::empty(),
    {
        OffsetMap { entries: Vec::new() }
    }

    /// The value recorded under a name, if any.
    pub fn get(&self, name: &String) -> (r: Option<u32>)
        ensures
            match r {
                Some(v) => self@.contains_key(name@) && self@[name@] == v,
                None => !self@.contains_key(name@),
            },
    {
        let n = self.entries.len();
        let mut i: usize = 0;
        proof {
            assert(self.entries@.skip(0) =~= self.entries@);
        }
        while i < n
            invariant
                i <= n,
                n == self.entries@.len(),
                self@.get(name@) == map_of(self.entries@.skip(i as int)).get(name@),
            decreases n - i,
        {
            proof {
                assert(self.entries@.skip(i as int)[0] == self.entries@[i as int]);
                assert(self.entries@.skip(i as int).skip(1) =~= self.entries@.skip(i as int + 1));
            }
            if self.entries[i].0.eq(name) {
                return Some(self.entries[i].1);
            }
            i = i + 1;
        }
        proof {
            assert(self.entries@.skip(n as int) =~= Seq::<(String, u32)>::empty());
        }
        None
    }

    /// Whether a name is present.
    pub fn contains(&self, name: &String) -> (r: bool)
        ensures
            r == self@.contains_key(name@),
    {
        match self.get(name) {
            Some(_) => true,
            None => false,
        }
    }

    /// Records a value under a name, unless the name is already present:
    /// entries are added, never overwritten.
    pub fn insert(&mut self, name: String, value: u32)
        requires
            old(self).wf(),
        ensures
            final(self).wf(),
            final(self)@ =~= if old(self)@.contains_key(name@) {
                old(self)@
            } else {
                old(self)@.insert(name@, value)
            },
            final(self).entries_view() =~= if old(self)@.contains_key(name@) {
                old(self).entries_view()
            } else {
                old(self).entries_view().push((name@, value))
            },
    {
        if self.contains(&name) {
            return ;
        }
        proof {
            lemma_map_of_absent(self.entries@, name@);
            lemma_map_of_push(self.entries@, (name, value));
            assert(self.entries@.push((name, value)).map(
                |i: int, e: (String, u32)| (e.0@, e.1),
            ) =~= self.entries_view().push((name@, value)));
        }
        self.entries.push((name, value));
    }

    /// How many entries the map holds.
    pub fn num_entries(&self) -> (n: usize)
        ensures
            n == self.entries_view().len(),
    {
        self.entries.len()
    }

    /// The entry at an insertion-order position: its name and value.
    pub fn entry_at(&self, i: usize) -> (r: (String, u32))
        requires
            i < self.entries_view().len(),
        ensures
            (r.0@, r.1) == self.entries_view()[i as int],
    {
        let e = &self.entries[i];
        (e.0.clone(), e.1)
    }
}

} // verus!
