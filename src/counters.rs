use vstd::prelude::*;
use vstd::string::StringExecFns;

verus! {

/// The one failure the store reports: the data behind the lock can no longer
/// be trusted, because an update was abandoned part way (a counter would have
/// left the range of `i64`).
#[derive(Debug, Clone, Copy, PartialEq, Eq, Structural)]
pub enum MetricsError {
    SynchronizationFailure,
}

/// The value of `key` in `m`, where an absent key counts as zero.
pub open spec fn counter_of(m: Map<Seq<char>, int>, key: Seq<char>) -> int {
    if m.contains_key(key) {
        m[key]
    } else {
        0
    }
}

/// `+1` for an increment, `-1` for a decrement.
pub open spec fn delta_of(up: bool) -> int {
    if up {
        1
    } else {
        -1
    }
}

/// One increment (`up`) or decrement of `key`, creating the key at zero first.
pub open spec fn bump(m: Map<Seq<char>, int>, key: Seq<char>, up: bool) -> Map<Seq<char>, int> {
    m.insert(key, counter_of(m, key) + delta_of(up))
}

/// Whether a counter value fits the stored representation.
pub open spec fn fits_i64(v: int) -> bool {
    i64::MIN <= v <= i64::MAX
}

/// No two entries of a listing share a key.
pub open spec fn distinct_keys(s: Seq<(String, i64)>) -> bool {
    forall|i: int, j: int|
        0 <= i < s.len() && 0 <= j < s.len() && i != j ==> #[trigger] s[i].0@ != #[trigger] s[j].0@
}

/// A listing holds exactly the entries of `m`, each key once, in any order.
pub open spec fn lists(s: Seq<(String, i64)>, m: Map<Seq<char>, int>) -> bool {
    &&& distinct_keys(s)
    &&& forall|i: int|
        0 <= i < s.len() ==> m.contains_key(#[trigger] s[i].0@) && m[s[i].0@] == s[i].1 as int
    &&& forall|k: Seq<char>| #[trigger]
        m.contains_key(k) ==> exists|i: int| 0 <= i < s.len() && #[trigger] s[i].0@ == k
}

/// The counters themselves, without any locking: a table from key to signed
/// value, keys unique, insertion order kept. Once an update fails the table is
/// poisoned and every later operation fails without touching it.
pub struct Counters {
    keys: Vec<String>,
    values: Vec<i64>,
    poisoned: bool,
    model: Ghost<Map<Seq<char>, int>>,
}

impl View for Counters {
    type V = Map<Seq<char>, int>;

    closed spec fn view(&self) -> Map<Seq<char>, int> {
        self.model@
    }
}

impl Counters {
    pub closed spec fn wf(&self) -> bool {
        &&& self.keys@.len() == self.values@.len()
        &&& forall|i: int, j: int|
            0 <= i < self.keys@.len() && 0 <= j < self.keys@.len() && i != j
                ==> #[trigger] self.keys@[i]@ != #[trigger] self.keys@[j]@
        &&& forall|k: Seq<char>| #[trigger]
            self.model@.contains_key(k) <==> exists|i: int|
                0 <= i < self.keys@.len() && #[trigger] self.keys@[i]@ == k
        &&& forall|i: int|
            0 <= i < self.keys@.len() ==> self.model@[#[trigger] self.keys@[i]@]
                == self.values@[i] as int
    }

    pub closed spec fn is_poisoned(&self) -> bool {
        self.poisoned
    }

    /// An empty, healthy table.
    pub fn new() -> (r: Self)
        ensures
            r.wf(),
            r@ == Map::<Seq<char>, int>::empty(),
            !r.is_poisoned(),
    {
        Counters { keys: Vec::new(), values: Vec::new(), poisoned: false, model: Ghost(Map::empty()) }
    }

    fn find(&self, key: &String) -> (r: Option<usize>)
        requires
            self.wf(),
        ensures
            match r {
                Some(i) => i < self.keys@.len() && self.keys@[i as int]@ == key@,
                None => !self@.contains_key(key@),
            },
    {
        let mut i: usize = 0;
        while i < self.keys.len()
            invariant
                self.wf(),
                i <= self.keys@.len(),
                forall|j: int| 0 <= j < i ==> self.keys@[j]@ != key@,
            decreases self.keys@.len() - i,
        {
            if self.keys[i] == *key {
                return Some(i);
            }
            i = i + 1;
        }
        None
    }

    /// Adds one (`up`) or subtracts one from the counter of `key`, creating it
    /// at zero first. A poisoned table fails and stays as it is; an update that
    /// would leave the range of `i64` is not applied and poisons the table.
    pub fn adjust(&mut self, key: &str, up: bool) -> (r: Result<(), MetricsError>)
        requires
            old(self).wf(),
        ensures
            final(self).wf(),
            old(self).is_poisoned() ==> r is Err && final(self)@ == old(self)@
                && final(self).is_poisoned(),
            !old(self).is_poisoned() && fits_i64(counter_of(old(self)@, key@) + delta_of(up))
                ==> r is Ok && final(self)@ == bump(old(self)@, key@, up)
                && !final(self).is_poisoned(),
            !old(self).is_poisoned() && !fits_i64(counter_of(old(self)@, key@) + delta_of(up))
                ==> r is Err && final(self)@ == old(self)@ && final(self).is_poisoned(),
    {
        if self.poisoned {
            return Err(MetricsError::SynchronizationFailure);
        }
        let owned = <String as StringExecFns>::from_str(key);
        match self.find(&owned) {
            Some(i) => {
                let cur = self.values[i];
                let next = if up {
                    cur.checked_add(1)
                } else {
                    cur.checked_sub(1)
                };
                match next {
                    Some(v) => {
                        self.values.set(i, v);
                        self.model = Ghost(self.model@.insert(key@, v as int));
                        assert(forall|j: int|
                            0 <= j < self.keys@.len() && j != i ==> self.keys@[j]@ != key@);
                        Ok(())
                    },
                    None => {
                        self.poisoned = true;
                        Err(MetricsError::SynchronizationFailure)
                    },
                }
            },
            None => {
                let v: i64 = if up {
                    1
                } else {
                    -1
                };
                let ghost old_keys = self.keys@;
                self.keys.push(owned);
                self.values.push(v);
                self.model = Ghost(self.model@.insert(key@, v as int));
                assert forall|k: Seq<char>| #[trigger]
                    self.model@.contains_key(k) implies exists|i: int|
                        0 <= i < self.keys@.len() && #[trigger] self.keys@[i]@ == k by {
                    if k == key@ {
                        assert(self.keys@[old_keys.len() as int]@ == k);
                    } else {
                        let j = choose|j: int| 0 <= j < old_keys.len() && #[trigger] old_keys[j]@ == k;
                        assert(self.keys@[j]@ == k);
                    }
                }
                Ok(())
            },
        }
    }

    /// One increment of `key`; see `adjust`.
    pub fn inc(&mut self, key: &str) -> (r: Result<(), MetricsError>)
        requires
            old(self).wf(),
        ensures
            final(self).wf(),
            old(self).is_poisoned() ==> r is Err && final(self)@ == old(self)@
                && final(self).is_poisoned(),
            !old(self).is_poisoned() && fits_i64(counter_of(old(self)@, key@) + 1)
                ==> r is Ok && final(self)@ == bump(old(self)@, key@, true)
                && !final(self).is_poisoned(),
            !old(self).is_poisoned() && !fits_i64(counter_of(old(self)@, key@) + 1)
                ==> r is Err && final(self)@ == old(self)@ && final(self).is_poisoned(),
    {
        self.adjust(key, true)
    }

    /// One decrement of `key`; see `adjust`.
    pub fn dec(&mut self, key: &str) -> (r: Result<(), MetricsError>)
        requires
            old(self).wf(),
        ensures
            final(self).wf(),
            old(self).is_poisoned() ==> r is Err && final(self)@ == old(self)@
                && final(self).is_poisoned(),
            !old(self).is_poisoned() && fits_i64(counter_of(old(self)@, key@) - 1)
                ==> r is Ok && final(self)@ == bump(old(self)@, key@, false)
                && !final(self).is_poisoned(),
            !old(self).is_poisoned() && !fits_i64(counter_of(old(self)@, key@) - 1)
                ==> r is Err && final(self)@ == old(self)@ && final(self).is_poisoned(),
    {
        self.adjust(key, false)
    }

    /// The current value of `key`, if it was ever touched.
    pub fn get(&self, key: &str) -> (r: Option<i64>)
        requires
            self.wf(),
        ensures
            match r {
                Some(v) => self@.contains_key(key@) && self@[key@] == v as int,
                None => !self@.contains_key(key@),
            },
    {
        let owned = <String as StringExecFns>::from_str(key);
        match self.find(&owned) {
            Some(i) => Some(self.values[i]),
            None => None,
        }
    }

    /// A newly allocated copy of every entry. A poisoned table fails.
    pub fn snapshot(&self) -> (r: Result<Vec<(String, i64)>, MetricsError>)
        requires
            self.wf(),
        ensures
            self.is_poisoned() <==> r is Err,
            r matches Ok(s) ==> lists(s@, self@),
    {
        if self.poisoned {
            return Err(MetricsError::SynchronizationFailure);
        }
        let mut out: Vec<(String, i64)> = Vec::new();
        let mut i: usize = 0;
        while i < self.keys.len()
            invariant
                self.wf(),
                i <= self.keys@.len(),
                out@.len() == i,
                forall|j: int| 0 <= j < i ==> (#[trigger] out@[j]).0@ == self.keys@[j]@
                    && out@[j].1 == self.values@[j],
            decreases self.keys@.len() - i,
        {
            let k = self.keys[i].clone();
            out.push((k, self.values[i]));
            i = i + 1;
        }
        assert forall|a: int, b: int|
            0 <= a < out@.len() && 0 <= b < out@.len() && a != b
                implies #[trigger] out@[a].0@ != #[trigger] out@[b].0@ by {
            assert(self.keys@[a]@ != self.keys@[b]@);
        }
        assert forall|k: Seq<char>| #[trigger]
            self@.contains_key(k) implies exists|j: int|
                0 <= j < out@.len() && #[trigger] out@[j].0@ == k by {
            let j = choose|j: int| 0 <= j < self.keys@.len() && #[trigger] self.keys@[j]@ == k;
            assert(out@[j].0@ == k);
        }
        assert forall|j: int| 0 <= j < out@.len() implies self@.contains_key(
            #[trigger] out@[j].0@,
        ) && self@[out@[j].0@] == out@[j].1 as int by {
            assert(self.keys@[j]@ == out@[j].0@);
        }
        Ok(out)
    }
}

} // verus!
