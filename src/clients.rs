//! The client registry: each connected client's name and the handle used to
//! write to it.
use vstd::prelude::*;

use crate::text::text_eq;

verus! {

/// Maps each connected client's name to its write handle.
pub struct ClientRegistry<W> {
    names: Vec<String>,
    writers: Vec<W>,
    model: Ghost<Map<Seq<char>, W>>,
}

impl<W> View for ClientRegistry<W> {
    type V = Map<Seq<char>, W>;

    closed spec fn view(&self) -> Map<Seq<char>, W> {
        self.model@
    }
}

impl<W> ClientRegistry<W> {
    /// Each name is stored once, beside its handle, and the map says so.
    pub closed spec fn wf(&self) -> bool {
        &&& self.names@.len() == self.writers@.len()
        &&& forall|i: int|
            0 <= i < self.names@.len() ==> #[trigger] self@.contains_key(self.names@[i]@)
                && self@[self.names@[i]@] == self.writers@[i]
        &&& forall|k: Seq<char>|
            #[trigger] self@.contains_key(k) ==> exists|i: int|
                0 <= i < self.names@.len() && self.names@[i]@ == k
        &&& forall|i: int, j: int|
            0 <= i < j < self.names@.len() ==> self.names@[i]@ != self.names@[j]@
    }

    pub fn new() -> (r: ClientRegistry<W>)
        ensures
            r.wf(),
            r@ == Map::<Seq<char>, W>::empty(),
    {
        ClientRegistry { names: Vec::new(), writers: Vec::new(), model: Ghost(Map::empty()) }
    }

    fn find(&self, name: &str) -> (r: Option<usize>)
        requires
            self.wf(),
        ensures
            r matches Some(i) ==> i < self.names@.len() && self.names@[i as int]@ == name@,
            r is None <==> !self@.contains_key(name@),
    {
        let mut k: usize = 0;
        while k < self.names.len()
            invariant
                self.wf(),
                k <= self.names@.len(),
                forall|j: int| 0 <= j < k ==> self.names@[j]@ != name@,
            decreases self.names@.len() - k,
        {
            if text_eq(self.names[k].as_str(), name) {
                assert(self@.contains_key(self.names@[k as int]@));
                return Some(k);
            }
            k = k + 1;
        }
        None
    }

    /// Whether a client of that name is connected.
    pub fn contains(&self, name: &str) -> (r: bool)
        requires
            self.wf(),
        ensures
            r == self@.contains_key(name@),
    {
        self.find(name).is_some()
    }

    /// Number of connected clients.
    pub fn len(&self) -> (r: usize)
        requires
            self.wf(),
        ensures
            r == self@.len(),
    {
        proof {
            let keys = Seq::new(self.names@.len(), |i: int| self.names@[i]@);
            assert(keys.no_duplicates());
            assert(keys.to_set() =~= self@.dom()) by {
                assert forall|k: Seq<char>| self@.dom().contains(k) implies keys.to_set().contains(k) by {
                    let i = choose|i: int| 0 <= i < self.names@.len() && self.names@[i]@ == k;
                    assert(keys[i] == k);
                }
                assert forall|k: Seq<char>| keys.to_set().contains(k) implies self@.dom().contains(k) by {
                    let i = choose|i: int| 0 <= i < keys.len() && keys[i] == k;
                    assert(self@.contains_key(self.names@[i]@));
                }
            }
            keys.unique_seq_to_set();
        }
        self.names.len()
    }

    /// Registers `writer` under `name` unless the name is taken; a taken name
    /// hands the writer back.
    pub fn try_insert(&mut self, name: String, writer: W) -> (r: Result<(), W>)
        requires
            old(self).wf(),
        ensures
            final(self).wf(),
            r is Ok <==> !old(self)@.contains_key(name@),
            r is Ok ==> final(self)@ == old(self)@.insert(name@, writer),
            r matches Err(w) ==> w == writer && final(self)@ == old(self)@,
            final(self)@.dom() == old(self)@.dom().insert(name@),
    {
        if self.find(name.as_str()).is_some() {
            assert(old(self)@.dom().insert(name@) =~= old(self)@.dom());
            return Err(writer);
        }
        let ghost old_model = self.model@;
        let ghost key = name@;
        self.names.push(name);
        self.writers.push(writer);
        self.model = Ghost(old_model.insert(key, writer));
        proof {
            let n = self.names@.len() - 1;
            assert forall|i: int| 0 <= i < self.names@.len() implies #[trigger] self@.contains_key(
                self.names@[i]@,
            ) && self@[self.names@[i]@] == self.writers@[i] by {
                if i < n {
                    assert(self.names@[i] == old(self).names@[i]);
                    assert(old_model.contains_key(self.names@[i]@));
                }
            }
            assert forall|k: Seq<char>| #[trigger] self@.contains_key(k) implies exists|i: int|
                0 <= i < self.names@.len() && self.names@[i]@ == k by {
                if k == key {
                    assert(self.names@[n]@ == k);
                } else {
                    assert(old(self)@.contains_key(k));
                    let i = choose|i: int|
                        0 <= i < old(self).names@.len() && old(self).names@[i]@ == k;
                    assert(self.names@[i] == old(self).names@[i]);
                }
            }
            assert forall|i: int, j: int| 0 <= i < j < self.names@.len() implies self.names@[i]@
                != self.names@[j]@ by {
                assert(self.names@[i] == old(self).names@[i]);
                if j == n {
                    assert(old(self)@.contains_key(old(self).names@[i]@));
                } else {
                    assert(self.names@[j] == old(self).names@[j]);
                }
            }
            assert(self@.dom() =~= old_model.dom().insert(key));
        }
        Ok(())
    }

    /// The write handle of the named client, if it is connected.
    pub fn lookup(&self, name: &str) -> (r: Option<&W>)
        requires
            self.wf(),
        ensures
            r is None <==> !self@.contains_key(name@),
            r matches Some(w) ==> *w == self@[name@],
    {
        match self.find(name) {
            Some(i) => Some(&self.writers[i]),
            None => None,
        }
    }

    /// Unregisters the named client and gives back its write handle.
    pub fn remove(&mut self, name: &str) -> (r: Option<W>)
        requires
            old(self).wf(),
        ensures
            final(self).wf(),
            r is None <==> !old(self)@.contains_key(name@),
            r matches Some(w) ==> w == old(self)@[name@],
            final(self)@ == old(self)@.remove(name@),
    {
        let i = match self.find(name) {
            Some(i) => i,
            None => {
                assert(old(self)@.remove(name@) =~= old(self)@);
                return None;
            },
        };
        let ghost old_model = self.model@;
        let ghost old_names = self.names@;
        let ghost old_writers = self.writers@;
        let ghost last = old_names.len() - 1;
        let removed_name = self.names.swap_remove(i);
        let w = self.writers.swap_remove(i);
        self.model = Ghost(old_model.remove(name@));
        proof {
            let n = self.names@.len();
            assert forall|j: int| 0 <= j < n implies #[trigger] self@.contains_key(self.names@[j]@)
                && self@[self.names@[j]@] == self.writers@[j] by {
                let o = if j == i { last } else { j };
                assert(self.names@[j] == old_names[o]);
                assert(self.writers@[j] == old_writers[o]);
                assert(o != i);
                assert(old_model.contains_key(old_names[o]@));
            }
            assert forall|k: Seq<char>| #[trigger] self@.contains_key(k) implies exists|j: int|
                0 <= j < n && self.names@[j]@ == k by {
                assert(old_model.contains_key(k));
                let o = choose|o: int| 0 <= o < old_names.len() && old_names[o]@ == k;
                assert(o != i);
                if o == last {
                    assert(self.names@[i as int]@ == k);
                } else {
                    assert(self.names@[o]@ == k);
                }
            }
            assert forall|a: int, b: int| 0 <= a < b < n implies self.names@[a]@
                != self.names@[b]@ by {
                let oa = if a == i { last } else { a };
                let ob = if b == i { last } else { b };
                assert(self.names@[a] == old_names[oa]);
                assert(self.names@[b] == old_names[ob]);
            }
        }
        Some(w)
    }
}

/// One step in the life of the client registry.
pub enum RegistryStep {
    /// A client asked to connect under this name.
    Connect(Seq<char>),
    /// The client of this name was removed.
    Remove(Seq<char>),
}

/// The names registered after `steps`, starting from `names`: a connect adds
/// its name (a taken name leaves the set as it is), a removal takes it out.
pub open spec fn names_after(names: Set<Seq<char>>, steps: Seq<RegistryStep>) -> Set<Seq<char>>
    decreases steps.len(),
{
    if steps.len() == 0 {
        names
    } else {
        let before = names_after(names, steps.drop_last());
        match steps.last() {
            RegistryStep::Connect(n) => before.insert(n),
            RegistryStep::Remove(n) => before.remove(n),
        }
    }
}

/// The connect at `i` in `steps` was answered OK: its name was free then.
pub open spec fn connect_ok_at(steps: Seq<RegistryStep>, i: int, name: Seq<char>) -> bool {
    &&& 0 <= i < steps.len()
    &&& steps[i] == RegistryStep::Connect(name)
    &&& !names_after(Set::empty(), steps.take(i)).contains(name)
}

/// No removal of `name` comes after position `i` in `steps`.
pub open spec fn kept_after(steps: Seq<RegistryStep>, i: int, name: Seq<char>) -> bool {
    forall|j: int| i < j < steps.len() ==> steps[j] != RegistryStep::Remove(name)
}

/// After any sequence of connects and removals, starting from an empty
/// registry, a name is registered exactly when some connect of it was
/// answered OK and no removal of it came later.
pub proof fn lemma_registered_names(steps: Seq<RegistryStep>, name: Seq<char>)
    ensures
        names_after(Set::empty(), steps).contains(name) <==> exists|i: int|
            connect_ok_at(steps, i, name) && kept_after(steps, i, name),
    decreases steps.len(),
{
    if steps.len() == 0 {
        return;
    }
    let prefix = steps.drop_last();
    let last = steps.len() - 1;
    lemma_registered_names(prefix, name);
    assert forall|i: int| 0 <= i < last implies #[trigger] steps.take(i) == prefix.take(i) by {
        assert(steps.take(i) =~= prefix.take(i));
    }
    assert(steps.take(last) =~= prefix);
    let before = names_after(Set::empty(), prefix);
    if names_after(Set::empty(), steps).contains(name) {
        match steps.last() {
            RegistryStep::Connect(n) => {
                if before.contains(name) {
                    let i = choose|i: int| connect_ok_at(prefix, i, name) && kept_after(prefix, i, name);
                    assert(steps[i] == prefix[i]);
                    assert(steps.take(i) == prefix.take(i));
                    assert forall|j: int| i < j < steps.len() implies steps[j] != RegistryStep::Remove(name) by {
                        if j < last {
                            assert(steps[j] == prefix[j]);
                        }
                    }
                    assert(connect_ok_at(steps, i, name) && kept_after(steps, i, name));
                } else {
                    assert(n == name);
                    assert(connect_ok_at(steps, last, name) && kept_after(steps, last, name));
                }
            },
            RegistryStep::Remove(n) => {
                assert(n != name);
                assert(before.contains(name));
                let i = choose|i: int| connect_ok_at(prefix, i, name) && kept_after(prefix, i, name);
                assert(steps[i] == prefix[i]);
                assert(steps.take(i) == prefix.take(i));
                assert forall|j: int| i < j < steps.len() implies steps[j] != RegistryStep::Remove(name) by {
                    if j < last {
                        assert(steps[j] == prefix[j]);
                    }
                }
                assert(connect_ok_at(steps, i, name) && kept_after(steps, i, name));
            },
        }
    }
    if exists|i: int| connect_ok_at(steps, i, name) && kept_after(steps, i, name) {
        let i = choose|i: int| connect_ok_at(steps, i, name) && kept_after(steps, i, name);
        if i < last {
            assert(connect_ok_at(prefix, i, name) && kept_after(prefix, i, name));
            assert(steps[last] != RegistryStep::Remove(name));
        }
    }
}

} // verus!
