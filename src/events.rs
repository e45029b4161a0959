//! The event registry: for each event name, the names of its subscribers.
use vstd::prelude::*;

use crate::text::{copy_texts, position_of, text_eq, texts};

verus! {

/// Result of creating an event.
#[derive(Clone, Copy, Debug, PartialEq, Eq, Structural)]
pub enum CreateOutcome {
    Created,
    AlreadyExists,
}

/// Result of subscribing a client to an event.
#[derive(Clone, Copy, Debug, PartialEq, Eq, Structural)]
pub enum SubscribeOutcome {
    Subscribed,
    NotFound,
    AlreadySubscribed,
}

/// Result of unsubscribing a client from an event.
#[derive(Clone, Copy, Debug, PartialEq, Eq, Structural)]
pub enum UnsubscribeOutcome {
    Unsubscribed,
    NotFound,
    NotASubscriber,
}

/// `s` with `x` taken out, the last element taking its place.
pub open spec fn without(s: Seq<Seq<char>>, x: Seq<char>) -> Seq<Seq<char>> {
    if s.contains(x) {
        s.update(s.index_of(x), s.last()).drop_last()
    } else {
        s
    }
}

/// Taking a name out of a list without duplicates leaves none.
pub proof fn lemma_without_distinct(s: Seq<Seq<char>>, x: Seq<char>)
    requires
        s.no_duplicates(),
    ensures
        without(s, x).no_duplicates(),
        !without(s, x).contains(x),
{
    if s.contains(x) {
        let p = s.index_of(x);
        let t = without(s, x);
        assert forall|a: int, b: int| 0 <= a < b < t.len() implies t[a] != t[b] by {
            let ia = if a == p { s.len() - 1 } else { a };
            let ib = if b == p { s.len() - 1 } else { b };
            assert(t[a] == s[ia]);
            assert(t[b] == s[ib]);
        }
        if t.contains(x) {
            let a = choose|a: int| 0 <= a < t.len() && t[a] == x;
            let ia = if a == p { s.len() - 1 } else { a };
            assert(t[a] == s[ia]);
        }
    }
}

/// Maps each event name to the list of its subscribers' names.
pub struct EventRegistry {
    names: Vec<String>,
    subscribers: Vec<Vec<String>>,
    model: Ghost<Map<Seq<char>, Seq<Seq<char>>>>,
}

impl View for EventRegistry {
    type V = Map<Seq<char>, Seq<Seq<char>>>;

    closed spec fn view(&self) -> Map<Seq<char>, Seq<Seq<char>>> {
        self.model@
    }
}

impl EventRegistry {
    /// The stored names and lists agree with the map, one entry per event.
    pub closed spec fn inv(&self) -> bool {
        &&& self.names@.len() == self.subscribers@.len()
        &&& forall|i: int|
            0 <= i < self.names@.len() ==> #[trigger] self@.contains_key(self.names@[i]@)
                && self@[self.names@[i]@] == texts(self.subscribers@[i]@)
        &&& forall|k: Seq<char>|
            #[trigger] self@.contains_key(k) ==> exists|i: int|
                0 <= i < self.names@.len() && self.names@[i]@ == k
        &&& forall|i: int, j: int|
            0 <= i < j < self.names@.len() ==> self.names@[i]@ != self.names@[j]@
    }

    /// Well formed: no subscriber appears twice in one event's list.
    pub open spec fn wf(&self) -> bool {
        &&& self.inv()
        &&& forall|e: Seq<char>| #[trigger] self@.contains_key(e) ==> self@[e].no_duplicates()
    }

    pub fn new() -> (r: EventRegistry)
        ensures
            r.wf(),
            r@ == Map::<Seq<char>, Seq<Seq<char>>>::empty(),
    {
        EventRegistry { names: Vec::new(), subscribers: Vec::new(), model: Ghost(Map::empty()) }
    }

    /// Where the event is stored, if it exists.
    fn find(&self, event: &str) -> (r: Option<usize>)
        requires
            self.inv(),
        ensures
            r matches Some(i) ==> i < self.names@.len() && self.names@[i as int]@ == event@,
            r is None <==> !self@.contains_key(event@),
    {
        let mut k: usize = 0;
        while k < self.names.len()
            invariant
                self.inv(),
                k <= self.names@.len(),
                forall|j: int| 0 <= j < k ==> self.names@[j]@ != event@,
            decreases self.names@.len() - k,
        {
            if text_eq(self.names[k].as_str(), event) {
                assert(self@.contains_key(self.names@[k as int]@));
                return Some(k);
            }
            k = k + 1;
        }
        None
    }

    /// Whether the event exists.
    pub fn contains(&self, event: &str) -> (r: bool)
        requires
            self.wf(),
        ensures
            r == self@.contains_key(event@),
    {
        self.find(event).is_some()
    }

    /// Number of events.
    pub fn len(&self) -> (r: usize)
        requires
            self.wf(),
        ensures
            r == self@.len(),
    {
        proof {
            self.lemma_len();
        }
        self.names.len()
    }

    proof fn lemma_len(&self)
        requires
            self.inv(),
        ensures
            self@.len() == self.names@.len(),
    {
        let keys = Seq::new(self.names@.len(), |i: int| self.names@[i]@);
        assert(keys.no_duplicates());
        assert(keys.to_set() =~= self@.dom()) by {
            assert forall|k: Seq<char>| self@.dom().contains(k) implies keys.to_set().contains(k) by {
                let i = choose|i: int| 0 <= i < self.names@.len() && self.names@[i]@ == k;
                assert(keys[i] == k);
            }
            assert forall|k: Seq<char>| keys.to_set().contains(k) implies self@.dom().contains(k) by {
                let i = choose|i: int| 0 <= i < keys.len() && keys[i] == k;
                assert(self@.contains_key(self.names@[i]@));
            }
        }
        keys.unique_seq_to_set();
    }

    /// Creates an event with no subscribers, unless it already exists.
    pub fn create(&mut self, event: &str) -> (r: CreateOutcome)
        requires
            old(self).wf(),
        ensures
            final(self).wf(),
            r == CreateOutcome::Created <==> !old(self)@.contains_key(event@),
            r == CreateOutcome::Created ==> final(self)@ == old(self)@.insert(event@, seq![]),
            r == CreateOutcome::AlreadyExists ==> final(self)@ == old(self)@,
    {
        if self.find(event).is_some() {
            return CreateOutcome::AlreadyExists;
        }
        let ghost old_model = self.model@;
        self.names.push(event.to_string());
        self.subscribers.push(Vec::new());
        self.model = Ghost(old_model.insert(event@, seq![]));
        proof {
            let n = self.names@.len() - 1;
            assert(texts(self.subscribers@[n]@) =~= seq![]);
            assert forall|i: int| 0 <= i < self.names@.len() implies #[trigger] self@.contains_key(
                self.names@[i]@,
            ) && self@[self.names@[i]@] == texts(self.subscribers@[i]@) by {
                if i < n {
                    assert(old_model.contains_key(self.names@[i]@));
                }
            }
            assert forall|k: Seq<char>| #[trigger] self@.contains_key(k) implies exists|i: int|
                0 <= i < self.names@.len() && self.names@[i]@ == k by {
                if k == event@ {
                    assert(self.names@[n]@ == k);
                } else {
                    assert(old_model.contains_key(k));
                    assert(old(self)@.contains_key(k));
                    let i = choose|i: int| 0 <= i < old(self).names@.len() && old(self).names@[i]@ == k;
                    assert(self.names@[i] == old(self).names@[i]);
                    assert(self.names@[i]@ == k);
                }
            }
            assert forall|i: int, j: int| 0 <= i < j < self.names@.len() implies self.names@[i]@
                != self.names@[j]@ by {
                if j == n {
                    assert(old_model.contains_key(self.names@[i]@));
                }
            }
            assert forall|e: Seq<char>| #[trigger] self@.contains_key(e) implies self@[e].no_duplicates() by {
                if e != event@ {
                    assert(old_model.contains_key(e));
                }
            }
        }
        CreateOutcome::Created
    }

    /// Adds `name` at the end of the event's subscribers, unless the event is
    /// missing or `name` already subscribes.
    pub fn subscribe(&mut self, event: &str, name: &str) -> (r: SubscribeOutcome)
        requires
            old(self).wf(),
        ensures
            final(self).wf(),
            r == SubscribeOutcome::NotFound <==> !old(self)@.contains_key(event@),
            r == SubscribeOutcome::AlreadySubscribed <==> old(self)@.contains_key(event@)
                && old(self)@[event@].contains(name@),
            r == SubscribeOutcome::Subscribed ==> final(self)@ == old(self)@.insert(
                event@,
                old(self)@[event@].push(name@),
            ),
            r != SubscribeOutcome::Subscribed ==> final(self)@ == old(self)@,
    {
        let i = match self.find(event) {
            Some(i) => i,
            None => return SubscribeOutcome::NotFound,
        };
        if position_of(&self.subscribers[i], name).is_some() {
            return SubscribeOutcome::AlreadySubscribed;
        }
        let ghost old_model = self.model@;
        let ghost old_names = self.names@;
        let ghost old_subs = self.subscribers@;
        self.subscribers[i].push(name.to_string());
        self.model = Ghost(old_model.insert(event@, old_model[event@].push(name@)));
        proof {
            assert(self.names@ == old_names);
            assert(texts(self.subscribers@[i as int]@) =~= texts(old_subs[i as int]@).push(name@));
            assert forall|j: int| 0 <= j < self.names@.len() implies #[trigger] self@.contains_key(
                self.names@[j]@,
            ) && self@[self.names@[j]@] == texts(self.subscribers@[j]@) by {
                assert(old_model.contains_key(old_names[j]@));
                if j != i {
                    assert(self.subscribers@[j] == old_subs[j]);
                }
            }
            assert forall|k: Seq<char>| #[trigger] self@.contains_key(k) implies exists|j: int|
                0 <= j < self.names@.len() && self.names@[j]@ == k by {
                assert(old_model.contains_key(k));
            }
            assert forall|e: Seq<char>| #[trigger] self@.contains_key(e) implies self@[e].no_duplicates() by {
                assert(old_model.contains_key(e));
                if e == event@ {
                    let s = old_model[e];
                    assert(!s.contains(name@));
                    assert forall|a: int, b: int| 0 <= a < b < s.push(name@).len() implies s.push(name@)[a]
                        != s.push(name@)[b] by {
                        if b == s.len() {
                            assert(s[a] == s.push(name@)[a]);
                        }
                    }
                }
            }
        }
        SubscribeOutcome::Subscribed
    }

    /// Removes `name` from the event's subscribers: the last subscriber takes
    /// its place. Nothing changes when the event is missing or `name` does not
    /// subscribe.
    pub fn unsubscribe(&mut self, event: &str, name: &str) -> (r: UnsubscribeOutcome)
        requires
            old(self).wf(),
        ensures
            final(self).wf(),
            r == UnsubscribeOutcome::NotFound <==> !old(self)@.contains_key(event@),
            r == UnsubscribeOutcome::NotASubscriber <==> old(self)@.contains_key(event@)
                && !old(self)@[event@].contains(name@),
            r == UnsubscribeOutcome::Unsubscribed ==> final(self)@ == old(self)@.insert(
                event@,
                without(old(self)@[event@], name@),
            ),
            r != UnsubscribeOutcome::Unsubscribed ==> final(self)@ == old(self)@,
    {
        let i = match self.find(event) {
            Some(i) => i,
            None => return UnsubscribeOutcome::NotFound,
        };
        let p = match position_of(&self.subscribers[i], name) {
            Some(p) => p,
            None => return UnsubscribeOutcome::NotASubscriber,
        };
        let ghost old_model = self.model@;
        let ghost old_names = self.names@;
        let ghost old_subs = self.subscribers@;
        let ghost s = old_model[event@];
        let ghost t = s.update(p as int, s.last()).drop_last();
        self.subscribers[i].swap_remove(p);
        self.model = Ghost(old_model.insert(event@, t));
        proof {
            assert(self.names@ == old_names);
            assert(texts(old_subs[i as int]@) == s);
            assert(texts(self.subscribers@[i as int]@) =~= t);
            assert forall|j: int| 0 <= j < self.names@.len() implies #[trigger] self@.contains_key(
                self.names@[j]@,
            ) && self@[self.names@[j]@] == texts(self.subscribers@[j]@) by {
                assert(old_model.contains_key(old_names[j]@));
                if j != i {
                    assert(self.subscribers@[j] == old_subs[j]);
                }
            }
            assert forall|k: Seq<char>| #[trigger] self@.contains_key(k) implies exists|j: int|
                0 <= j < self.names@.len() && self.names@[j]@ == k by {
                assert(old_model.contains_key(k));
            }
            assert forall|e: Seq<char>| #[trigger] self@.contains_key(e) implies self@[e].no_duplicates() by {
                assert(old_model.contains_key(e));
                if e == event@ {
                    assert(s[p as int] == name@);
                    assert(s.no_duplicates());
                    assert(s.contains(name@));
                    let q = s.index_of(name@);
                    assert(s[q] == name@);
                    assert(q == p);
                    lemma_without_distinct(s, name@);
                }
            }
            assert(s[p as int] == name@);
            assert(s.contains(name@));
            assert(s[s.index_of(name@)] == name@);
            assert(s.index_of(name@) == p);
        }
        UnsubscribeOutcome::Unsubscribed
    }

    /// Removes `name` from every event's subscribers, as when that client
    /// disconnects; in each list the last subscriber takes its place.
    pub fn unsubscribe_everywhere(&mut self, name: &str)
        requires
            old(self).wf(),
        ensures
            final(self).wf(),
            final(self)@.dom() == old(self)@.dom(),
            forall|e: Seq<char>| #[trigger] final(self)@.contains_key(e) ==> final(self)@[e] == without(
                old(self)@[e],
                name@,
            ),
    {
        let ghost old_model = self.model@;
        let ghost names = self.names@;
        assert forall|j: int| 0 <= j < names.len() implies #[trigger] self@[names[j]@] == texts(
            self.subscribers@[j]@,
        ) by {
            assert(self@.contains_key(self.names@[j]@));
        }
        let mut k: usize = 0;
        while k < self.names.len()
            invariant
                old(self).wf(),
                old_model == old(self)@,
                names == old(self).names@,
                self.names@ == names,
                self.subscribers@.len() == names.len(),
                k <= names.len(),
                self@.dom() == old_model.dom(),
                forall|j: int| 0 <= j < names.len() ==> #[trigger] self@[names[j]@] == texts(self.subscribers@[j]@),
                forall|j: int| 0 <= j < k ==> #[trigger] self@[names[j]@] == without(old_model[names[j]@], name@),
                forall|j: int| k <= j < names.len() ==> #[trigger] self.subscribers@[j] == old(self).subscribers@[j],
            decreases names.len() - k,
        {
            let ghost key = names[k as int]@;
            assert(old_model.contains_key(key));
            assert(self@[key] == old_model[key]);
            match position_of(&self.subscribers[k], name) {
                Some(p) => {
                    let ghost s = self@[key];
                    let ghost before = self.subscribers@;
                    self.subscribers[k].swap_remove(p);
                    proof {
                        assert(s[p as int] == name@);
                        assert(s.no_duplicates());
                        assert(s.contains(name@));
                        let q = s.index_of(name@);
                        assert(s[q] == name@);
                        assert(q == p);
                        assert(texts(self.subscribers@[k as int]@) =~= s.update(p as int, s.last()).drop_last());
                    }
                    self.model = Ghost(self.model@.insert(key, without(old_model[key], name@)));
                    proof {
                        assert forall|j: int| 0 <= j < names.len() implies #[trigger] self@[names[j]@] == texts(self.subscribers@[j]@) by {
                            if j != k {
                                assert(names[j]@ != key);
                                assert(self.subscribers@[j] == before[j]);
                            }
                        }
                        assert forall|j: int| 0 <= j < k + 1 implies #[trigger] self@[names[j]@] == without(old_model[names[j]@], name@) by {
                            if j != k {
                                assert(names[j]@ != key);
                            }
                        }
                        assert(self@.dom() =~= old_model.dom());
                    }
                },
                None => {
                    proof {
                        assert(!self@[key].contains(name@));
                    }
                },
            }
            k = k + 1;
        }
        proof {
            assert forall|e: Seq<char>| #[trigger] self@.contains_key(e) implies self@[e] == without(old_model[e], name@) by {
                assert(old_model.contains_key(e));
                let j = choose|j: int| 0 <= j < names.len() && names[j]@ == e;
                assert(self@[names[j]@] == without(old_model[names[j]@], name@));
            }
            assert forall|i: int| 0 <= i < self.names@.len() implies #[trigger] self@.contains_key(
                self.names@[i]@,
            ) && self@[self.names@[i]@] == texts(self.subscribers@[i]@) by {
                assert(old_model.contains_key(names[i]@));
            }
            assert forall|e: Seq<char>| #[trigger] self@.contains_key(e) implies self@[e].no_duplicates() by {
                assert(old_model.contains_key(e));
                lemma_without_distinct(old_model[e], name@);
            }
        }
    }

    /// A copy of the event's subscriber list, if the event exists.
    pub fn snapshot_subscribers(&self, event: &str) -> (r: Option<Vec<String>>)
        requires
            self.wf(),
        ensures
            r is None <==> !self@.contains_key(event@),
            r matches Some(v) ==> texts(v@) == self@[event@],
    {
        match self.find(event) {
            Some(i) => Some(copy_texts(&self.subscribers[i])),
            None => None,
        }
    }
}

} // verus!
