//! A map from strings to strings (query parameters, headers), as a list of
//! entries in which no key occurs twice.
use vstd::prelude::*;
use crate::strings::push_str;

verus! {

/// `a` and `b` hold the same characters.
pub fn str_eq(a: &str, b: &str) -> (r: bool)
    ensures
        r == (a@ == b@),
{
    let x = crate::strings::str_chars(a);
    let y = crate::strings::str_chars(b);
    if x.len() != y.len() {
        return false;
    }
    let mut k: usize = 0;
    while k < x.len()
        invariant
            k <= x@.len() == y@.len(),
            x@ == a@,
            y@ == b@,
            forall|m: int| 0 <= m < k ==> x@[m] == y@[m],
        decreases x@.len() - k,
    {
        if x[k] != y[k] {
            return false;
        }
        k = k + 1;
    }
    assert(x@ =~= y@);
    true
}

/// `needle` occurs in `hay` starting at `i`.
pub open spec fn occurs_at(hay: Seq<char>, needle: Seq<char>, i: int) -> bool {
    0 <= i && i + needle.len() <= hay.len() && hay.subrange(i, i + needle.len()) == needle
}

/// `needle` occurs somewhere in `hay`.
pub open spec fn contains_str(hay: Seq<char>, needle: Seq<char>) -> bool {
    exists|i: int| occurs_at(hay, needle, i)
}

/// Whether `needle` occurs in `hay`.
pub fn str_contains(hay: &str, needle: &str) -> (r: bool)
    ensures
        r == contains_str(hay@, needle@),
{
    let h = crate::strings::str_chars(hay);
    let n = crate::strings::str_chars(needle);
    if n.len() > h.len() {
        assert forall|i: int| !occurs_at(hay@, needle@, i) by {}
        return false;
    }
    let mut i: usize = 0;
    let hl = h.len();
    while i <= h.len() - n.len()
        invariant
            hl == h@.len(),
            h@ == hay@,
            n@ == needle@,
            n@.len() <= h@.len(),
            i <= h@.len() - n@.len() + 1,
            forall|j: int| 0 <= j < i ==> !occurs_at(hay@, needle@, j),
        decreases h@.len() - i,
    {
        let mut k: usize = 0;
        let mut same = true;
        while k < n.len()
            invariant
                hl == h@.len(),
                h@ == hay@,
                n@ == needle@,
                i + n@.len() <= hl,
                k <= n@.len(),
                same == (forall|m: int| 0 <= m < k ==> h@[i + m] == n@[m]),
            decreases n@.len() - k,
        {
            let idx = i + k;
            if h[idx] != n[k] {
                same = false;
            }
            k = k + 1;
        }
        if same {
            assert(h@.subrange(i as int, i + n@.len()) =~= n@);
            assert(occurs_at(hay@, needle@, i as int));
            return true;
        }
        assert(!occurs_at(hay@, needle@, i as int)) by {
            if occurs_at(hay@, needle@, i as int) {
                assert forall|m: int| 0 <= m < n@.len() implies h@[i + m] == n@[m] by {
                    assert(h@.subrange(i as int, i + n@.len())[m] == h@[i + m]);
                }
            }
        }
        i = i + 1;
    }
    assert forall|j: int| !occurs_at(hay@, needle@, j) by {
        if 0 <= j < i {
        }
    }
    false
}

/// A copy of `s`.
pub fn copy_string(s: &String) -> (r: String)
    ensures
        r@ == s@,
{
    s.clone()
}

/// A new string holding the characters of `s`.
pub fn owned(s: &str) -> (r: String)
    ensures
        r@ == s@,
{
    let mut r = String::new();
    push_str(&mut r, s);
    assert(r@ =~= s@);
    r
}

/// A map from strings to strings; no key occurs twice.
#[derive(Debug)]
pub struct StringMap {
    entries: Vec<(String, String)>,
}

impl View for StringMap {
    type V = Map<Seq<char>, Seq<char>>;

    closed spec fn view(&self) -> Map<Seq<char>, Seq<char>> {
        Map::new(
            |k: Seq<char>| exists|i: int| 0 <= i < self.entries@.len() && self.entries@[i].0@ == k,
            |k: Seq<char>|
                self.entries@[choose|i: int| 0 <= i < self.entries@.len() && self.entries@[i].0@ == k].1@,
        )
    }
}

impl StringMap {
    /// No key occurs twice among the entries.
    pub closed spec fn wf(&self) -> bool {
        forall|i: int, j: int|
            0 <= i < j < self.entries@.len() ==> self.entries@[i].0@ != self.entries@[j].0@
    }

    /// The number of entries.
    pub closed spec fn spec_len(&self) -> nat {
        self.entries@.len()
    }

    proof fn lemma_view(&self, i: int)
        requires
            self.wf(),
            0 <= i < self.entries@.len(),
        ensures
            self@.contains_key(self.entries@[i].0@),
            self@[self.entries@[i].0@] == self.entries@[i].1@,
    {
        let k = self.entries@[i].0@;
        assert(exists|j: int| 0 <= j < self.entries@.len() && self.entries@[j].0@ == k);
        let j = choose|j: int| 0 <= j < self.entries@.len() && self.entries@[j].0@ == k;
        assert(i == j);
    }

    /// An empty map.
    pub fn new() -> (m: StringMap)
        ensures
            m.wf(),
            m@ == Map::<Seq<char>, Seq<char>>::empty(),
            m.spec_len() == 0,
    {
        let m = StringMap { entries: Vec::new() };
        assert(m@ =~= Map::<Seq<char>, Seq<char>>::empty());
        m
    }

    /// The number of entries (as many as keys).
    pub fn len(&self) -> (n: usize)
        requires
            self.wf(),
        ensures
            n == self.spec_len(),
            n == self@.len(),
    {
        proof {
            self.lemma_len();
        }
        self.entries.len()
    }

    proof fn lemma_len(&self)
        requires
            self.wf(),
        ensures
            self@.dom().finite(),
            self@.len() == self.spec_len(),
    {
        let keys = self.entries@.map_values(|e: (String, String)| e.0@);
        assert(keys.no_duplicates()) by {
            assert forall|i: int, j: int| 0 <= i < keys.len() && 0 <= j < keys.len() && i != j implies keys[i] != keys[j] by {
                if i < j {
                } else {
                }
            }
        }
        assert(self@.dom() =~= keys.to_set()) by {
            assert forall|k: Seq<char>| self@.dom().contains(k) <==> keys.to_set().contains(k) by {
                if self@.dom().contains(k) {
                    let i = choose|i: int| 0 <= i < self.entries@.len() && self.entries@[i].0@ == k;
                    assert(keys[i] == k);
                }
                if keys.to_set().contains(k) {
                    let i = choose|i: int| 0 <= i < keys.len() && keys[i] == k;
                    assert(self.entries@[i].0@ == k);
                }
            }
        }
        keys.unique_seq_to_set();
    }

    /// The index of the entry with key `key`.
    fn find(&self, key: &str) -> (r: Option<usize>)
        requires
            self.wf(),
        ensures
            r matches Some(i) ==> i < self.entries@.len() && self.entries@[i as int].0@ == key@,
            r is None ==> !self@.contains_key(key@),
    {
        let mut i: usize = 0;
        while i < self.entries.len()
            invariant
                i <= self.entries@.len(),
                forall|j: int| 0 <= j < i ==> self.entries@[j].0@ != key@,
            decreases self.entries@.len() - i,
        {
            if str_eq(self.entries[i].0.as_str(), key) {
                return Some(i);
            }
            i = i + 1;
        }
        None
    }

    /// Whether `key` has a value.
    pub fn contains_key(&self, key: &str) -> (r: bool)
        requires
            self.wf(),
        ensures
            r == self@.contains_key(key@),
    {
        match self.find(key) {
            Some(i) => {
                proof {
                    self.lemma_view(i as int);
                }
                true
            },
            None => false,
        }
    }

    /// The value of `key`, if it has one.
    pub fn get(&self, key: &str) -> (r: Option<&String>)
        requires
            self.wf(),
        ensures
            r is Some == self@.contains_key(key@),
            r matches Some(v) ==> v@ == self@[key@],
    {
        match self.find(key) {
            Some(i) => {
                proof {
                    self.lemma_view(i as int);
                }
                Some(&self.entries[i].1)
            },
            None => None,
        }
    }

    /// Removes `key` and its value, if it has one.
    pub fn remove(&mut self, key: &str)
        requires
            old(self).wf(),
        ensures
            final(self).wf(),
            final(self)@ == old(self)@.remove(key@),
    {
        match self.find(key) {
            Some(i) => {
                self.entries.remove(i);
                proof {
                    assert forall|a: int, b: int| 0 <= a < b < self.entries@.len() implies self.entries@[a].0@
                        != self.entries@[b].0@ by {
                        let a0 = if a < i { a } else { a + 1 };
                        let b0 = if b < i { b } else { b + 1 };
                        assert(old(self).entries@[a0] == self.entries@[a]);
                        assert(old(self).entries@[b0] == self.entries@[b]);
                    }
                    assert forall|k: Seq<char>| #![auto] self@.contains_key(k) == old(self)@.remove(key@).contains_key(k) by {
                        if self@.contains_key(k) {
                            let a = choose|a: int| 0 <= a < self.entries@.len() && self.entries@[a].0@ == k;
                            let a0 = if a < i { a } else { a + 1 };
                            assert(old(self).entries@[a0] == self.entries@[a]);
                            if k == key@ {
                                assert(old(self).entries@[i as int].0@ == key@);
                            }
                        }
                        if old(self)@.contains_key(k) && k != key@ {
                            let b = choose|b: int| 0 <= b < old(self).entries@.len() && old(self).entries@[b].0@ == k;
                            assert(b != i);
                            let b1 = if b < i { b } else { b - 1 };
                            assert(self.entries@[b1] == old(self).entries@[b]);
                        }
                    }
                    assert forall|k: Seq<char>| #![auto] self@.contains_key(k) implies self@[k] == old(self)@[k] by {
                        let a = choose|a: int| 0 <= a < self.entries@.len() && self.entries@[a].0@ == k;
                        self.lemma_view(a);
                        let a0 = if a < i { a } else { a + 1 };
                        assert(old(self).entries@[a0] == self.entries@[a]);
                        old(self).lemma_view(a0);
                    }
                    assert(self@ =~= old(self)@.remove(key@));
                }
            },
            None => {
                assert(self@ =~= old(self)@.remove(key@));
            },
        }
    }

    /// Sets the value of `key` to `value`, replacing any value it had.
    pub fn insert(&mut self, key: String, value: String)
        requires
            old(self).wf(),
        ensures
            final(self).wf(),
            final(self)@ == old(self)@.insert(key@, value@),
    {
        match self.find(key.as_str()) {
            Some(i) => {
                let ghost old_entries = self.entries@;
                self.entries.set(i, (key, value));
                proof {
                    assert forall|a: int, b: int| 0 <= a < b < self.entries@.len() implies self.entries@[a].0@
                        != self.entries@[b].0@ by {
                        assert(old_entries[a].0@ != old_entries[b].0@);
                    }
                    assert forall|k: Seq<char>| #![auto] self@.contains_key(k) == old(self)@.insert(key@, value@).contains_key(k) by {
                        if self@.contains_key(k) {
                            let j = choose|j: int| 0 <= j < self.entries@.len() && self.entries@[j].0@ == k;
                            if j != i {
                                assert(old_entries[j].0@ == k);
                            }
                        }
                        if old(self)@.contains_key(k) {
                            let j = choose|j: int| 0 <= j < old_entries.len() && old_entries[j].0@ == k;
                            if j != i {
                                assert(self.entries@[j].0@ == k);
                            } else {
                                assert(self.entries@[i as int].0@ == k);
                            }
                        }
                        if k == key@ {
                            assert(self.entries@[i as int].0@ == k);
                        }
                    }
                    assert forall|k: Seq<char>| #![auto] self@.contains_key(k) implies self@[k] == old(self)@.insert(key@, value@)[k] by {
                        let j = choose|j: int| 0 <= j < self.entries@.len() && self.entries@[j].0@ == k;
                        self.lemma_view(j);
                        if j != i {
                            old(self).lemma_view(j);
                        }
                    }
                    assert(self@ =~= old(self)@.insert(key@, value@));
                }
            },
            None => {
                let ghost old_entries = self.entries@;
                self.entries.push((key, value));
                proof {
                    let n = old_entries.len() as int;
                    assert forall|a: int, b: int| 0 <= a < b < self.entries@.len() implies self.entries@[a].0@
                        != self.entries@[b].0@ by {
                        if b < n {
                            assert(old_entries[a].0@ != old_entries[b].0@);
                        } else {
                            assert(old(self)@.contains_key(old_entries[a].0@)) by {
                                old(self).lemma_view(a);
                            }
                        }
                    }
                    assert forall|k: Seq<char>| #![auto] self@.contains_key(k) == old(self)@.insert(key@, value@).contains_key(k) by {
                        if self@.contains_key(k) {
                            let j = choose|j: int| 0 <= j < self.entries@.len() && self.entries@[j].0@ == k;
                            if j < n {
                                assert(old_entries[j].0@ == k);
                            }
                        }
                        if old(self)@.contains_key(k) {
                            let j = choose|j: int| 0 <= j < old_entries.len() && old_entries[j].0@ == k;
                            assert(self.entries@[j].0@ == k);
                        }
                        if k == key@ {
                            assert(self.entries@[n].0@ == k);
                        }
                    }
                    assert forall|k: Seq<char>| #![auto] self@.contains_key(k) implies self@[k] == old(self)@.insert(key@, value@)[k] by {
                        let j = choose|j: int| 0 <= j < self.entries@.len() && self.entries@[j].0@ == k;
                        self.lemma_view(j);
                        if j < n {
                            old(self).lemma_view(j);
                        }
                    }
                    assert(self@ =~= old(self)@.insert(key@, value@));
                }
            },
        }
    }

    /// A copy of the map.
    pub fn copy(&self) -> (r: StringMap)
        requires
            self.wf(),
        ensures
            r.wf(),
            r@ == self@,
    {
        let mut entries: Vec<(String, String)> = Vec::new();
        let mut i: usize = 0;
        while i < self.entries.len()
            invariant
                i <= self.entries@.len(),
                entries@.len() == i,
                forall|j: int| 0 <= j < i ==> #[trigger] entries@[j].0@ == self.entries@[j].0@
                    && entries@[j].1@ == self.entries@[j].1@,
            decreases self.entries@.len() - i,
        {
            entries.push((copy_string(&self.entries[i].0), copy_string(&self.entries[i].1)));
            i = i + 1;
        }
        let r = StringMap { entries };
        proof {
            assert forall|a: int, b: int| 0 <= a < b < r.entries@.len() implies r.entries@[a].0@
                != r.entries@[b].0@ by {
                assert(self.entries@[a].0@ != self.entries@[b].0@);
            }
            assert forall|k: Seq<char>| #![auto] r@.contains_key(k) == self@.contains_key(k) by {
                if r@.contains_key(k) {
                    let j = choose|j: int| 0 <= j < r.entries@.len() && r.entries@[j].0@ == k;
                    assert(self.entries@[j].0@ == k);
                }
                if self@.contains_key(k) {
                    let j = choose|j: int| 0 <= j < self.entries@.len() && self.entries@[j].0@ == k;
                    assert(r.entries@[j].0@ == k);
                }
            }
            assert forall|k: Seq<char>| #![auto] r@.contains_key(k) implies r@[k] == self@[k] by {
                let j = choose|j: int| 0 <= j < r.entries@.len() && r.entries@[j].0@ == k;
                r.lemma_view(j);
                self.lemma_view(j);
            }
            assert(r@ =~= self@);
        }
        r
    }
}

} // verus!

verus! {

/// A set of strings, kept in the order they were added.
#[derive(Debug)]
pub struct StringSet {
    items: Vec<String>,
}

impl View for StringSet {
    type V = Set<Seq<char>>;

    closed spec fn view(&self) -> Set<Seq<char>> {
        Set::new(|k: Seq<char>| exists|i: int| 0 <= i < self.items@.len() && #[trigger] self.items@[i]@ == k)
    }
}

impl StringSet {
    /// The members, in the order they were added.
    pub closed spec fn spec_items(&self) -> Seq<Seq<char>> {
        Seq::new(self.items@.len(), |i: int| self.items@[i]@)
    }

    /// No member occurs twice.
    pub closed spec fn wf(&self) -> bool {
        forall|i: int, j: int|
            0 <= i < j < self.items@.len() ==> #[trigger] self.items@[i]@ != #[trigger] self.items@[j]@
    }

    /// The view is the set of the members in order.
    pub proof fn lemma_items(&self)
        ensures
            forall|k: Seq<char>| self@.contains(k) <==> self.spec_items().contains(k),
    {
        assert forall|k: Seq<char>| self@.contains(k) <==> self.spec_items().contains(k) by {
            if self@.contains(k) {
                let i = choose|i: int| 0 <= i < self.items@.len() && #[trigger] self.items@[i]@ == k;
                assert(self.spec_items()[i] == k);
            }
            if self.spec_items().contains(k) {
                let i = choose|i: int| 0 <= i < self.spec_items().len() && self.spec_items()[i] == k;
                assert(self.items@[i]@ == k);
            }
        }
    }

    /// The empty set.
    pub fn new() -> (s: StringSet)
        ensures
            s.wf(),
            s@ == Set::<Seq<char>>::empty(),
    {
        let s = StringSet { items: Vec::new() };
        assert(s@ =~= Set::<Seq<char>>::empty());
        s
    }

    /// The position of `k` among the members, if it is one.
    fn find(&self, k: &str) -> (r: Option<usize>)
        ensures
            r is None <==> !self@.contains(k@),
            r matches Some(i) ==> i < self.items@.len() && self.items@[i as int]@ == k@,
    {
        let mut i: usize = 0;
        while i < self.items.len()
            invariant
                i <= self.items@.len(),
                forall|j: int| 0 <= j < i ==> #[trigger] self.items@[j]@ != k@,
            decreases self.items@.len() - i,
        {
            if str_eq(self.items[i].as_str(), k) {
                return Some(i);
            }
            i = i + 1;
        }
        None
    }

    /// Whether `k` is a member.
    pub fn contains(&self, k: &str) -> (r: bool)
        ensures
            r == self@.contains(k@),
    {
        self.find(k).is_some()
    }

    /// Adds `k`; a member is not added twice.
    pub fn insert(&mut self, k: String)
        requires
            old(self).wf(),
        ensures
            final(self).wf(),
            final(self)@ == old(self)@.insert(k@),
    {
        if self.find(k.as_str()).is_none() {
            let ghost kv = k@;
            self.items.push(k);
            assert forall|i: int, j: int| 0 <= i < j < self.items@.len() implies
                #[trigger] self.items@[i]@ != #[trigger] self.items@[j]@ by {
                if j == self.items@.len() - 1 {
                    assert(old(self).items@[i] == self.items@[i]);
                    if self.items@[i]@ == kv {
                        assert(old(self)@.contains(kv));
                    }
                } else {
                    assert(old(self).items@[i] == self.items@[i]);
                    assert(old(self).items@[j] == self.items@[j]);
                }
            }
            assert forall|x: Seq<char>| self@.contains(x) == old(self)@.insert(kv).contains(x) by {
                if self@.contains(x) {
                    let i = choose|i: int| 0 <= i < self.items@.len() && #[trigger] self.items@[i]@ == x;
                    if i < old(self).items@.len() {
                        assert(old(self).items@[i] == self.items@[i]);
                    }
                }
                if old(self)@.contains(x) {
                    let i = choose|i: int| 0 <= i < old(self).items@.len() && #[trigger] old(self).items@[i]@ == x;
                    assert(old(self).items@[i] == self.items@[i]);
                }
                if x == kv {
                    assert(self.items@[self.items@.len() - 1]@ == kv);
                }
            }
            assert(self@ =~= old(self)@.insert(kv));
        } else {
            assert(self@ =~= old(self)@.insert(k@));
        }
    }

    /// Takes `k` out.
    pub fn remove(&mut self, k: &str)
        requires
            old(self).wf(),
        ensures
            final(self).wf(),
            final(self)@ == old(self)@.remove(k@),
    {
        match self.find(k) {
            Some(i) => {
                self.items.remove(i);
                assert forall|a: int, b: int| 0 <= a < b < self.items@.len() implies
                    #[trigger] self.items@[a]@ != #[trigger] self.items@[b]@ by {
                    let a0 = if a < i { a } else { a + 1 };
                    let b0 = if b < i { b } else { b + 1 };
                    assert(old(self).items@[a0] == self.items@[a]);
                    assert(old(self).items@[b0] == self.items@[b]);
                }
                assert forall|x: Seq<char>| self@.contains(x) == old(self)@.remove(k@).contains(x) by {
                    if self@.contains(x) {
                        let a = choose|a: int| 0 <= a < self.items@.len() && #[trigger] self.items@[a]@ == x;
                        let a0 = if a < i { a } else { a + 1 };
                        assert(old(self).items@[a0] == self.items@[a]);
                        if x == k@ {
                            assert(old(self).items@[i as int]@ == k@);
                        }
                    }
                    if old(self)@.contains(x) && x != k@ {
                        let b = choose|b: int| 0 <= b < old(self).items@.len() && #[trigger] old(self).items@[b]@ == x;
                        assert(b != i);
                        let b1 = if b < i { b } else { b - 1 };
                        assert(self.items@[b1] == old(self).items@[b]);
                    }
                }
                assert(self@ =~= old(self)@.remove(k@));
            },
            None => {
                assert(self@ =~= old(self)@.remove(k@));
            },
        }
    }

    /// Copies of the members, in the order they were added.
    pub fn to_vec(&self) -> (v: Vec<String>)
        ensures
            v@.len() == self.spec_items().len(),
            forall|i: int| 0 <= i < v@.len() ==> #[trigger] v@[i]@ == self.spec_items()[i],
            self.wf() ==> forall|i: int, j: int| 0 <= i < j < v@.len() ==> #[trigger] v@[i]@ != #[trigger] v@[j]@,
    {
        let mut v: Vec<String> = Vec::new();
        let mut i: usize = 0;
        while i < self.items.len()
            invariant
                i <= self.items@.len(),
                v@.len() == i,
                forall|j: int| 0 <= j < i ==> #[trigger] v@[j]@ == self.items@[j]@,
            decreases self.items@.len() - i,
        {
            v.push(copy_string(&self.items[i]));
            i = i + 1;
        }
        proof {
            if self.wf() {
                assert forall|a: int, b: int| 0 <= a < b < v@.len() implies #[trigger] v@[a]@ != #[trigger] v@[b]@ by {
                    assert(self.items@[a]@ != self.items@[b]@);
                }
            }
        }
        v
    }
}

} // verus!
