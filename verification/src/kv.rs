use vstd::prelude::*;
use vstd::string::StringExecFns;

verus! {

/// A small key-value store of strings. Keys are unique; mutations mark the
/// store as needing a write-back to its backing file, which the host
/// performs when the store is dropped.
pub struct Storage {
    pub map: Vec<(String, String)>,
    pub file: Option<String>,
    pub update_file: bool,
}

/// True when `map` holds `key`.
pub open spec fn kv_has(map: Seq<(String, String)>, key: Seq<char>) -> bool {
    exists|k: int| 0 <= k < map.len() && map[k].0@ == key
}

impl Storage {
    /// No key occurs twice.
    pub open spec fn wf(self) -> bool {
        forall|a: int, b: int| 0 <= a < b < self.map@.len() ==> self.map@[a].0@ != self.map@[b].0@
    }

    /// An in-memory store that never touches a file.
    pub fn temporary() -> (r: Storage)
        ensures
            r.wf(),
            r.map@.len() == 0,
            r.file is None,
            !r.update_file,
    {
        Storage { map: Vec::new(), file: None, update_file: false }
    }

    /// An empty store backed by the default database file.
    pub fn new() -> (r: Storage)
        ensures
            r.wf(),
            r.map@.len() == 0,
            r.file is Some,
            !r.update_file,
    {
        Storage { map: Vec::new(), file: Some(String::from_str("storage.db")), update_file: false }
    }

    /// The index of a key.
    fn find(&self, key: &String) -> (r: Option<usize>)
        ensures
            match r {
                Some(i) => i < self.map@.len() && self.map@[i as int].0@ == key@,
                None => !kv_has(self.map@, key@),
            },
    {
        let mut i: usize = 0;
        while i < self.map.len()
            invariant
                0 <= i <= self.map@.len(),
                forall|k: int| 0 <= k < i ==> (#[trigger] self.map@[k]).0@ != key@,
            decreases self.map@.len() - i,
        {
            if self.map[i].0 == *key {
                return Some(i);
            }
            i = i + 1;
        }
        None
    }

    /// Adds a pair; fails when the key already exists, leaving the store
    /// untouched.
    pub fn insert(&mut self, key: String, val: String) -> (r: Result<(), String>)
        requires
            old(self).wf(),
        ensures
            final(self).wf(),
            r is Ok <==> !kv_has(old(self).map@, key@),
            r is Ok ==> kv_has(final(self).map@, key@) && final(self).update_file && final(self).map@.len() == old(self).map@.len() + 1,
            // the new pair is appended and every earlier pair is untouched
            r is Ok ==> (forall|k: int|
                0 <= k < old(self).map@.len() ==> #[trigger] final(self).map@[k] == old(self).map@[k]) && final(self).map@.last().0@ == key@ && final(self).map@.last().1@
                == val@,
            r is Err ==> *final(self) == *old(self),
    {
        if self.find(&key).is_some() {
            return Err(
                String::from_str("Key: ").concat(key.as_str()).concat(" already exists"),
            );
        }
        let ghost before = self.map@;
        let ghost keyv = key@;
        self.map.push((key, val));
        self.update_file = true;
        proof {
            assert(self.map@[self.map@.len() - 1].0@ == keyv);
            assert forall|a: int, b: int|
                0 <= a < b < self.map@.len() implies self.map@[a].0@ != self.map@[b].0@ by {
                if b == self.map@.len() - 1 {
                    assert(self.map@[a] == before[a]);
                    if before[a].0@ == self.map@[b].0@ {
                        assert(kv_has(before, self.map@[b].0@));
                    }
                }
            }
        }
        Ok(())
    }

    /// Removes a key; fails when it is absent, leaving the store untouched.
    pub fn delete(&mut self, key: String) -> (r: Result<(), String>)
        requires
            old(self).wf(),
        ensures
            final(self).wf(),
            r is Ok <==> kv_has(old(self).map@, key@),
            r is Ok ==> !kv_has(final(self).map@, key@) && final(self).update_file,
            // exactly the pair with this key is removed
            r is Ok ==> exists|j: int|
                0 <= j < old(self).map@.len() && (#[trigger] old(self).map@[j]).0@ == key@
                    && final(self).map@ == old(self).map@.remove(j),
            r is Err ==> *final(self) == *old(self),
    {
        match self.find(&key) {
            None => Err(
                String::from_str("Key: ").concat(key.as_str()).concat(" not found is storage"),
            ),
            Some(i) => {
                let ghost before = self.map@;
                self.map.remove(i);
                self.update_file = true;
                proof {
                    assert(before[i as int].0@ == key@ && self.map@ == before.remove(i as int));
                    assert forall|a: int, b: int|
                        0 <= a < b < self.map@.len() implies self.map@[a].0@
                        != self.map@[b].0@ by {
                        if a < i {
                            assert(self.map@[a] == before[a]);
                        } else {
                            assert(self.map@[a] == before[a + 1]);
                        }
                        if b < i {
                            assert(self.map@[b] == before[b]);
                        } else {
                            assert(self.map@[b] == before[b + 1]);
                        }
                    }
                    if kv_has(self.map@, key@) {
                        let w = choose|w: int|
                            0 <= w < self.map@.len() && self.map@[w].0@ == key@;
                        if w < i {
                            assert(before[w].0@ == key@ && before[i as int].0@ == key@);
                        } else {
                            assert(before[w + 1].0@ == key@ && before[i as int].0@ == key@);
                        }
                    }
                }
                Ok(())
            },
        }
    }

    /// Looks a key up; fails when it is absent.
    pub fn get(&self, key: String) -> (r: Result<String, String>)
        ensures
            r is Ok <==> kv_has(self.map@, key@),
            r matches Ok(v) ==> exists|k: int|
                0 <= k < self.map@.len() && (#[trigger] self.map@[k]).0@ == key@
                    && self.map@[k].1@ == v@,
    {
        match self.find(&key) {
            None => Err(
                String::from_str("Key ").concat(key.as_str()).concat(" not found in storage"),
            ),
            Some(i) => {
                let v = self.map[i].1.clone();
                proof {
                    assert(self.map@[i as int].0@ == key@ && self.map@[i as int].1@ == v@);
                }
                Ok(v)
            },
        }
    }

    /// Every pair, in insertion order.
    pub fn list(&self) -> (r: Vec<(String, String)>)
        ensures
            r@.len() == self.map@.len(),
            forall|k: int|
                0 <= k < r@.len() ==> (#[trigger] r@[k]).0@ == self.map@[k].0@ && r@[k].1@
                    == self.map@[k].1@,
    {
        let mut r: Vec<(String, String)> = Vec::new();
        let mut i: usize = 0;
        while i < self.map.len()
            invariant
                0 <= i <= self.map@.len(),
                r@.len() == i,
                forall|k: int|
                    0 <= k < i ==> (#[trigger] r@[k]).0@ == self.map@[k].0@ && r@[k].1@
                        == self.map@[k].1@,
            decreases self.map@.len() - i,
        {
            let k = self.map[i].0.clone();
            let v = self.map[i].1.clone();
            r.push((k, v));
            i = i + 1;
        }
        r
    }

    /// Loads one pair as read back from the backing file, without marking
    /// the store dirty. Pairs with a known key are ignored.
    pub fn load_entry(&mut self, key: String, val: String)
        requires
            old(self).wf(),
        ensures
            final(self).wf(),
            final(self).update_file == old(self).update_file,
            kv_has(final(self).map@, key@),
    {
        if self.find(&key).is_some() {
            proof {
                let w = choose|w: int| 0 <= w < self.map@.len() && self.map@[w].0@ == key@;
            }
            return ;
        }
        let ghost before = self.map@;
        let ghost keyv = key@;
        self.map.push((key, val));
        proof {
            assert(self.map@[self.map@.len() - 1].0@ == keyv);
            assert forall|a: int, b: int|
                0 <= a < b < self.map@.len() implies self.map@[a].0@ != self.map@[b].0@ by {
                if b == self.map@.len() - 1 {
                    assert(self.map@[a] == before[a]);
                    if before[a].0@ == self.map@[b].0@ {
                        assert(kv_has(before, self.map@[b].0@));
                    }
                }
            }
        }
    }
}

} // verus!
