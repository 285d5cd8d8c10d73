use vstd::prelude::*;

use crate::error::PapError;
use crate::store::Store;
use crate::text::join;

verus! {

/// The `len` bytes of `n` in big-endian order.
pub open spec fn be_bytes(n: nat, len: nat) -> Seq<u8>
    decreases len,
{
    if len == 0 {
        Seq::empty()
    } else {
        be_bytes(n / 256, (len - 1) as nat).push((n % 256) as u8)
    }
}

/// The object key of testcase `id`: its eight big-endian bytes.
pub open spec fn corpus_key(id: nat) -> Seq<u8> {
    be_bytes(id, 8)
}

fn push_be(out: &mut Vec<u8>, n: u64, len: usize)
    ensures
        final(out)@ == old(out)@ + be_bytes(n as nat, len as nat),
    decreases len,
{
    if len > 0 {
        push_be(out, n / 256, len - 1);
        out.push((n % 256) as u8);
        assert(final(out)@ =~= old(out)@ + be_bytes(n as nat, len as nat));
    } else {
        assert(final(out)@ =~= old(out)@ + be_bytes(n as nat, len as nat));
    }
}

/// A slot holds a testcase that is in the corpus and enabled.
pub open spec fn enabled(slot: (bool, bool)) -> bool {
    slot.0 && !slot.1
}

/// The number of slots of `slots` that satisfy `f`.
pub open spec fn count_where(slots: Seq<(bool, bool)>, f: spec_fn((bool, bool)) -> bool) -> nat
    decreases slots.len(),
{
    if slots.len() == 0 {
        0
    } else {
        count_where(slots.drop_last(), f) + if f(slots.last()) {
            1nat
        } else {
            0nat
        }
    }
}

proof fn lemma_count_bound(slots: Seq<(bool, bool)>, f: spec_fn((bool, bool)) -> bool)
    ensures
        count_where(slots, f) <= slots.len(),
    decreases slots.len(),
{
    if slots.len() > 0 {
        lemma_count_bound(slots.drop_last(), f);
    }
}

fn count_slots(slots: &Vec<(bool, bool)>, f: Ghost<spec_fn((bool, bool)) -> bool>, present: bool, disabled: Option<bool>) -> (r: usize)
    requires
        forall|s: (bool, bool)| #[trigger] f@(s) == (s.0 == present && match disabled {
            Some(d) => s.1 == d,
            None => true,
        }),
    ensures
        r == count_where(slots@, f@),
{
    let mut n: usize = 0;
    let mut i: usize = 0;
    while i < slots.len()
        invariant
            0 <= i <= slots@.len(),
            n == count_where(slots@.take(i as int), f@),
            forall|s: (bool, bool)| #[trigger] f@(s) == (s.0 == present && match disabled {
                Some(d) => s.1 == d,
                None => true,
            }),
        decreases slots@.len() - i,
    {
        proof {
            assert(slots@.take(i + 1).drop_last() =~= slots@.take(i as int));
            lemma_count_bound(slots@.take(i as int), f@);
        }
        let s = slots[i];
        let hit = s.0 == present && match disabled {
            Some(d) => s.1 == d,
            None => true,
        };
        if hit {
            n = n + 1;
        }
        i = i + 1;
    }
    assert(slots@.take(i as int) =~= slots@);
    n
}

/// The bookkeeping of a fuzzing corpus whose testcases live in the object
/// store, one object per testcase in `namespace`. Ids count up from zero in
/// the order testcases are added; slot `id` records whether the testcase is
/// still in the corpus and whether it is disabled.
pub struct SqlCorpus {
    pub namespace: String,
    pub current: Option<usize>,
    pub slots: Vec<(bool, bool)>,
}

impl SqlCorpus {
    /// Only testcases in the corpus are disabled.
    pub open spec fn wf(&self) -> bool {
        forall|i: int| 0 <= i < self.slots@.len() ==> (#[trigger] self.slots@[i]).1 ==> self.slots@[i].0
    }

    pub fn new(namespace: String) -> (r: SqlCorpus)
        ensures
            r.wf(),
            r.namespace == namespace,
            r.current is None,
            r.slots@.len() == 0,
    {
        SqlCorpus { namespace, current: None, slots: Vec::new() }
    }

    /// The object key of testcase `id`.
    pub fn make_key(&self, id: usize) -> (r: Vec<u8>)
        ensures
            r@ == corpus_key(id as nat),
    {
        let mut out: Vec<u8> = Vec::new();
        push_be(&mut out, id as u64, 8);
        assert(out@ =~= corpus_key(id as nat));
        out
    }

    /// The number of enabled testcases.
    pub fn count(&self) -> (r: usize)
        ensures
            r == count_where(self.slots@, |s: (bool, bool)| s.0 && !s.1),
    {
        let ghost f = |s: (bool, bool)| s.0 == true && s.1 == false;
        let r = count_slots(&self.slots, Ghost(f), true, Some(false));
        proof {
            assert(f =~= |s: (bool, bool)| s.0 && !s.1);
        }
        r
    }

    /// The number of disabled testcases.
    pub fn count_disabled(&self) -> (r: usize)
        ensures
            r == count_where(self.slots@, |s: (bool, bool)| s.0 && s.1),
    {
        let ghost f = |s: (bool, bool)| s.0 == true && s.1 == true;
        let r = count_slots(&self.slots, Ghost(f), true, Some(true));
        proof {
            assert(f =~= |s: (bool, bool)| s.0 && s.1);
        }
        r
    }

    /// The number of testcases, enabled or not.
    pub fn count_all(&self) -> (r: usize)
        ensures
            r == count_where(self.slots@, |s: (bool, bool)| s.0),
    {
        let ghost f = |s: (bool, bool)| s.0 == true && true;
        let r = count_slots(&self.slots, Ghost(f), true, None);
        proof {
            assert(f =~= |s: (bool, bool)| s.0);
        }
        r
    }

    /// The id that the next testcase gets.
    pub fn peek_free_id(&self) -> (r: usize)
        ensures
            r == self.slots@.len(),
    {
        self.slots.len()
    }

    /// Adds a testcase with input `input`, stored under its key; returns its id.
    pub fn add(&mut self, store: &mut Store, input: Vec<u8>, disabled: bool) -> (r: usize)
        requires
            old(self).wf(),
            old(store).wf(),
        ensures
            final(self).wf(),
            final(store).wf(),
            r == old(self).slots@.len(),
            final(self).slots@ == old(self).slots@.push((true, disabled)),
            final(self).namespace == old(self).namespace,
            final(self).current == old(self).current,
            final(store)@ == old(store)@.put_object_spec(old(self).namespace@, corpus_key(r as nat), input@),
    {
        let id = self.slots.len();
        let key = self.make_key(id);
        store.put_object(self.namespace.clone(), key, input);
        self.slots.push((true, disabled));
        id
    }

    /// Replaces the input of testcase `id`.
    pub fn replace(&mut self, store: &mut Store, id: usize, input: Vec<u8>) -> (r: Result<(), PapError>)
        requires
            old(store).wf(),
        ensures
            final(store).wf(),
            *final(self) == *old(self),
            r is Ok <==> (id < old(self).slots@.len() && old(self).slots@[id as int].0),
            match r {
                Ok(_) => final(store)@ == old(store)@.put_object_spec(old(self).namespace@, corpus_key(id as nat), input@),
                Err(e) => e is NotFound && final(store)@ == old(store)@,
            },
    {
        if id >= self.slots.len() || !self.slots[id].0 {
            return Err(PapError::NotFound(join("Corpus entry ", "not found")));
        }
        let key = self.make_key(id);
        store.put_object(self.namespace.clone(), key, input);
        Ok(())
    }

    /// Takes testcase `id` out of the corpus; its stored input is cleared.
    pub fn remove(&mut self, store: &mut Store, id: usize) -> (r: Result<(), PapError>)
        requires
            old(self).wf(),
            old(store).wf(),
        ensures
            final(self).wf(),
            final(store).wf(),
            final(self).namespace == old(self).namespace,
            r is Ok <==> (id < old(self).slots@.len() && old(self).slots@[id as int].0),
            match r {
                Ok(_) => {
                    &&& final(self).slots@ == old(self).slots@.update(id as int, (false, false))
                    &&& final(store)@ == old(store)@.put_object_spec(old(self).namespace@, corpus_key(id as nat), Seq::empty())
                },
                Err(e) => e is NotFound && final(store)@ == old(store)@ && *final(self) == *old(self),
            },
    {
        if id >= self.slots.len() || !self.slots[id].0 {
            return Err(PapError::NotFound(join("Corpus entry ", "not found")));
        }
        let key = self.make_key(id);
        let empty: Vec<u8> = Vec::new();
        assert(empty@ =~= Seq::<u8>::empty());
        store.put_object(self.namespace.clone(), key, empty);
        self.slots.set(id, (false, false));
        Ok(())
    }

    /// Whether testcase `id` is in the corpus and enabled.
    pub fn is_enabled(&self, id: usize) -> (r: bool)
        ensures
            r == (id < self.slots@.len() && enabled(self.slots@[id as int])),
    {
        id < self.slots.len() && self.slots[id].0 && !self.slots[id].1
    }

    /// Whether testcase `id` is in the corpus, enabled or not.
    pub fn contains(&self, id: usize) -> (r: bool)
        ensures
            r == (id < self.slots@.len() && self.slots@[id as int].0),
    {
        id < self.slots.len() && self.slots[id].0
    }

    /// The enabled testcase after `id`.
    pub fn next(&self, id: usize) -> (r: Option<usize>)
        ensures
            r == (if id + 1 < self.slots@.len() && enabled(self.slots@[id + 1]) {
                Some((id + 1) as usize)
            } else {
                None::<usize>
            }),
    {
        if id < self.slots.len() && id + 1 < self.slots.len() && self.is_enabled(id + 1) {
            Some(id + 1)
        } else {
            None
        }
    }

    /// The enabled testcase before `id`.
    pub fn prev(&self, id: usize) -> (r: Option<usize>)
        ensures
            r == (if id > 0 && id - 1 < self.slots@.len() && enabled(self.slots@[id - 1]) {
                Some((id - 1) as usize)
            } else {
                None::<usize>
            }),
    {
        if id == 0 {
            return None;
        }
        if self.is_enabled(id - 1) {
            Some(id - 1)
        } else {
            None
        }
    }

    /// The enabled testcase with the smallest id.
    pub fn first(&self) -> (r: Option<usize>)
        ensures
            match r {
                Some(i) => i < self.slots@.len() && enabled(self.slots@[i as int]) && forall|j: int|
                    0 <= j < i ==> !enabled(#[trigger] self.slots@[j]),
                None => forall|j: int| 0 <= j < self.slots@.len() ==> !enabled(#[trigger] self.slots@[j]),
            },
    {
        let mut i: usize = 0;
        while i < self.slots.len()
            invariant
                0 <= i <= self.slots@.len(),
                forall|j: int| 0 <= j < i ==> !enabled(#[trigger] self.slots@[j]),
            decreases self.slots@.len() - i,
        {
            if self.is_enabled(i) {
                return Some(i);
            }
            i = i + 1;
        }
        None
    }

    /// The enabled testcase with the largest id.
    pub fn last(&self) -> (r: Option<usize>)
        ensures
            match r {
                Some(i) => i < self.slots@.len() && enabled(self.slots@[i as int]) && forall|j: int|
                    i < j < self.slots@.len() ==> !enabled(#[trigger] self.slots@[j]),
                None => forall|j: int| 0 <= j < self.slots@.len() ==> !enabled(#[trigger] self.slots@[j]),
            },
    {
        let mut i: usize = self.slots.len();
        while i > 0
            invariant
                0 <= i <= self.slots@.len(),
                forall|j: int| i <= j < self.slots@.len() ==> !enabled(#[trigger] self.slots@[j]),
            decreases i,
        {
            if self.is_enabled(i - 1) {
                return Some(i - 1);
            }
            i = i - 1;
        }
        None
    }

    /// The stored input of testcase `id`.
    pub fn load_input(&self, store: &Store, id: usize) -> (r: Result<Vec<u8>, PapError>)
        requires
            store.wf(),
        ensures
            r is Ok <==> store@.objects.contains_key((self.namespace@, corpus_key(id as nat))),
            match r {
                Ok(v) => v@ == store@.objects[(self.namespace@, corpus_key(id as nat))],
                Err(e) => e is NotFound,
            },
    {
        let key = self.make_key(id);
        store.get_object(self.namespace.as_str(), &key)
    }
}

} // verus!
