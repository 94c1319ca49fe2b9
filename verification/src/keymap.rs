//! Verified association-list registries.
//!
//! The engine keys its catalogs by `String` and its token table by `char`.
//! Both are modelled as sequences of entries whose abstract view is a
//! `Map` from key view to value view; a lookup returns the most recently
//! inserted binding for a key, and an insert first drops every older
//! binding for that key, so the entry list never grows stale duplicates.

use vstd::prelude::*;

verus! {

/// A type whose values can be duplicated without changing their view.
pub trait Dup: View + Sized {
    fn dup(&self) -> (r: Self)
        ensures
            r@ == self@,
    ;
}

impl Dup for i16 {
    fn dup(&self) -> (r: Self)
        ensures
            r@ == self@,
    {
        *self
    }
}

/// The map denoted by a list of string-keyed entries: later entries win.
pub open spec fn kv_map<T: View>(es: Seq<(String, T)>) -> Map<Seq<char>, T::V>
    decreases es.len(),
{
    if es.len() == 0 {
        Map::empty()
    } else {
        kv_map(es.drop_last()).insert(es.last().0@, es.last().1@)
    }
}

/// The entries of `es` whose key view differs from `k`, in order.
pub open spec fn filter_key<T>(es: Seq<(String, T)>, k: Seq<char>) -> Seq<(String, T)>
    decreases es.len(),
{
    if es.len() == 0 {
        es
    } else if es.last().0@ == k {
        filter_key(es.drop_last(), k)
    } else {
        filter_key(es.drop_last(), k).push(es.last())
    }
}

pub proof fn lemma_kv_map_filter<T: View>(es: Seq<(String, T)>, k: Seq<char>)
    ensures
        kv_map(filter_key(es, k)) == kv_map(es).remove(k),
    decreases es.len(),
{
    if es.len() == 0 {
        assert(kv_map(filter_key(es, k)) =~= kv_map(es).remove(k));
    } else {
        let s = es.drop_last();
        let e = es.last();
        lemma_kv_map_filter::<T>(s, k);
        if e.0@ == k {
            assert(kv_map(filter_key(es, k)) =~= kv_map(es).remove(k));
        } else {
            assert(filter_key(es, k).last() == e);
            assert(filter_key(es, k).drop_last() =~= filter_key(s, k));
            assert(kv_map(filter_key(es, k)) == kv_map(filter_key(s, k)).insert(e.0@, e.1@));
            assert(kv_map(filter_key(es, k)) =~= kv_map(es).remove(k));
        }
    }
}

pub proof fn lemma_kv_map_congruent<T: View>(es1: Seq<(String, T)>, es2: Seq<(String, T)>)
    requires
        es1.len() == es2.len(),
        forall|i: int|
            0 <= i < es1.len() ==> #[trigger] es1[i].0@ == es2[i].0@ && es1[i].1@ == es2[i].1@,
    ensures
        kv_map(es1) == kv_map(es2),
    decreases es1.len(),
{
    if es1.len() > 0 {
        lemma_kv_map_congruent::<T>(es1.drop_last(), es2.drop_last());
        assert(es1[es1.len() - 1].0@ == es2[es2.len() - 1].0@);
        assert(es1[es1.len() - 1].1@ == es2[es2.len() - 1].1@);
    }
}

/// A registry keyed by strings.
pub struct KeyMap<T> {
    pub entries: Vec<(String, T)>,
}

impl<T: View> View for KeyMap<T> {
    type V = Map<Seq<char>, T::V>;

    open spec fn view(&self) -> Map<Seq<char>, T::V> {
        kv_map(self.entries@)
    }
}

impl<T: View> KeyMap<T> {
    pub fn new() -> (r: Self)
        ensures
            r@ == Map::<Seq<char>, T::V>::empty(),
            r.entries@.len() == 0,
    {
        KeyMap { entries: Vec::new() }
    }

    /// Returns the binding for `k`, if any.
    pub fn get<'a>(&'a self, k: &String) -> (r: Option<&'a T>)
        ensures
            match r {
                Some(v) => self@.contains_key(k@) && v@ == self@[k@],
                None => !self@.contains_key(k@),
            },
    {
        let n = self.entries.len();
        let mut i: usize = n;
        assert(self.entries@.take(n as int) =~= self.entries@);
        while i > 0
            invariant
                0 <= i <= n,
                n == self.entries@.len(),
                self@.contains_key(k@) == kv_map(self.entries@.take(i as int)).contains_key(k@),
                self@.contains_key(k@) ==> self@[k@] == kv_map(
                    self.entries@.take(i as int),
                )[k@],
            decreases i,
        {
            i = i - 1;
            assert(self.entries@.take(i as int + 1).drop_last() =~= self.entries@.take(i as int));
            assert(self.entries@.take(i as int + 1).last() == self.entries@[i as int]);
            if self.entries[i].0 == *k {
                return Some(&self.entries[i].1);
            }
        }
        assert(self.entries@.take(0).len() == 0);
        None
    }

    pub fn contains_key(&self, k: &String) -> (r: bool)
        ensures
            r == self@.contains_key(k@),
    {
        self.get(k).is_some()
    }

    /// Drops every binding for a key.
    pub fn remove(&mut self, k: &String)
        ensures
            final(self).entries@ == filter_key(old(self).entries@, k@),
            final(self)@ == old(self)@.remove(k@),
    {
        let ghost orig = self.entries@;
        let mut i: usize = 0;
        let ghost mut j: int = 0;
        while i < self.entries.len()
            invariant
                0 <= i <= j,
                j - i <= orig.len(),
                self.entries@.len() == orig.len() - (j - i),
                j <= orig.len(),
                self.entries@ =~= filter_key(orig.take(j), k@) + orig.skip(j),
                i == filter_key(orig.take(j), k@).len(),
            decreases self.entries@.len() - i,
        {
            assert(orig.take(j + 1).drop_last() =~= orig.take(j));
            assert(orig.take(j + 1).last() == orig[j]);
            assert(self.entries@[i as int] == orig[j]);
            if self.entries[i].0 == *k {
                self.entries.remove(i);
                assert(self.entries@ =~= filter_key(orig.take(j + 1), k@) + orig.skip(j + 1));
            } else {
                i = i + 1;
                assert(self.entries@ =~= filter_key(orig.take(j + 1), k@) + orig.skip(j + 1));
            }
            proof {
                j = j + 1;
            }
        }
        assert(orig.take(orig.len() as int) =~= orig);
        assert(self.entries@ =~= filter_key(orig, k@));
        proof {
            lemma_kv_map_filter::<T>(orig, k@);
        }
    }

    /// Binds `k` to `v`, dropping any previous binding.
    pub fn insert(&mut self, k: String, v: T)
        ensures
            final(self)@ == old(self)@.insert(k@, v@),
            final(self).entries@ == filter_key(old(self).entries@, k@).push((k, v)),
    {
        self.remove(&k);
        let ghost filtered = self.entries@;
        self.entries.push((k, v));
        assert(self.entries@.drop_last() =~= filtered);
        proof {
            lemma_kv_map_filter::<T>(old(self).entries@, k@);
            assert(final(self)@ =~= old(self)@.insert(k@, v@));
        }
    }

    pub fn entry_count(&self) -> (r: usize)
        ensures
            r == self.entries@.len(),
    {
        self.entries.len()
    }

    pub fn key_at(&self, i: usize) -> (r: &String)
        requires
            i < self.entries@.len(),
        ensures
            r@ == self.entries@[i as int].0@,
    {
        &self.entries[i].0
    }

    pub fn val_at(&self, i: usize) -> (r: &T)
        requires
            i < self.entries@.len(),
        ensures
            r@ == self.entries@[i as int].1@,
    {
        &self.entries[i].1
    }
}

impl<T: Dup> Dup for KeyMap<T> {
    fn dup(&self) -> (r: Self)
        ensures
            r@ == self@,
    {
        let n = self.entries.len();
        let mut entries: Vec<(String, T)> = Vec::new();
        let mut i: usize = 0;
        while i < n
            invariant
                0 <= i <= n,
                n == self.entries@.len(),
                entries@.len() == i,
                forall|m: int|
                    0 <= m < i ==> #[trigger] entries@[m].0@ == self.entries@[m].0@
                        && entries@[m].1@ == self.entries@[m].1@,
            decreases n - i,
        {
            let key = self.entries[i].0.clone();
            let val = self.entries[i].1.dup();
            entries.push((key, val));
            i = i + 1;
        }
        proof {
            lemma_kv_map_congruent::<T>(entries@, self.entries@);
        }
        KeyMap { entries }
    }
}

} // verus!

verus! {

/// The map denoted by a list of char-keyed entries: later entries win.
pub open spec fn ck_map<T: View>(es: Seq<(char, T)>) -> Map<char, T::V>
    decreases es.len(),
{
    if es.len() == 0 {
        Map::empty()
    } else {
        ck_map(es.drop_last()).insert(es.last().0, es.last().1@)
    }
}

/// The entries of `es` whose key differs from `k`, in order.
pub open spec fn cfilter_key<T>(es: Seq<(char, T)>, k: char) -> Seq<(char, T)>
    decreases es.len(),
{
    if es.len() == 0 {
        es
    } else if es.last().0 == k {
        cfilter_key(es.drop_last(), k)
    } else {
        cfilter_key(es.drop_last(), k).push(es.last())
    }
}

pub proof fn lemma_ck_map_filter<T: View>(es: Seq<(char, T)>, k: char)
    ensures
        ck_map(cfilter_key(es, k)) == ck_map(es).remove(k),
    decreases es.len(),
{
    if es.len() == 0 {
        assert(ck_map(cfilter_key(es, k)) =~= ck_map(es).remove(k));
    } else {
        let s = es.drop_last();
        let e = es.last();
        lemma_ck_map_filter::<T>(s, k);
        if e.0 == k {
            assert(ck_map(cfilter_key(es, k)) =~= ck_map(es).remove(k));
        } else {
            assert(cfilter_key(es, k).last() == e);
            assert(cfilter_key(es, k).drop_last() =~= cfilter_key(s, k));
            assert(ck_map(cfilter_key(es, k)) == ck_map(cfilter_key(s, k)).insert(e.0, e.1@));
            assert(ck_map(cfilter_key(es, k)) =~= ck_map(es).remove(k));
        }
    }
}

pub proof fn lemma_ck_map_congruent<T: View>(es1: Seq<(char, T)>, es2: Seq<(char, T)>)
    requires
        es1.len() == es2.len(),
        forall|i: int|
            0 <= i < es1.len() ==> (#[trigger] es1[i]).0 == (#[trigger] es2[i]).0 && es1[i].1@
                == es2[i].1@,
    ensures
        ck_map(es1) == ck_map(es2),
    decreases es1.len(),
{
    if es1.len() > 0 {
        assert forall|i: int| 0 <= i < es1.drop_last().len() implies (#[trigger] es1.drop_last()[i]).0
            == (#[trigger] es2.drop_last()[i]).0 && es1.drop_last()[i].1@ == es2.drop_last()[i].1@ by {
            assert(es1.drop_last()[i] == es1[i]);
            assert(es2.drop_last()[i] == es2[i]);
        }
        lemma_ck_map_congruent::<T>(es1.drop_last(), es2.drop_last());
        assert(es1[es1.len() - 1].0 == es2[es2.len() - 1].0);
        assert(es1[es1.len() - 1].1@ == es2[es2.len() - 1].1@);
    }
}

/// A registry keyed by single-character identifiers.
pub struct CharMap<T> {
    pub entries: Vec<(char, T)>,
}

impl<T: View> View for CharMap<T> {
    type V = Map<char, T::V>;

    open spec fn view(&self) -> Map<char, T::V> {
        ck_map(self.entries@)
    }
}

impl<T: View> CharMap<T> {
    /// The entry list with values abstracted, for iteration contracts.
    pub open spec fn kv(&self) -> Seq<(char, T::V)> {
        self.entries@.map_values(|e: (char, T)| (e.0, e.1@))
    }

    pub fn new() -> (r: Self)
        ensures
            r@ == Map::<char, T::V>::empty(),
            r.entries@.len() == 0,
    {
        CharMap { entries: Vec::new() }
    }

    /// Returns the binding for `k`, if any.
    pub fn get<'a>(&'a self, k: char) -> (r: Option<&'a T>)
        ensures
            match r {
                Some(v) => self@.contains_key(k) && v@ == self@[k],
                None => !self@.contains_key(k),
            },
    {
        let n = self.entries.len();
        let mut i: usize = n;
        assert(self.entries@.take(n as int) =~= self.entries@);
        while i > 0
            invariant
                0 <= i <= n,
                n == self.entries@.len(),
                self@.contains_key(k) == ck_map(self.entries@.take(i as int)).contains_key(k),
                self@.contains_key(k) ==> self@[k] == ck_map(self.entries@.take(i as int))[k],
            decreases i,
        {
            i = i - 1;
            assert(self.entries@.take(i as int + 1).drop_last() =~= self.entries@.take(i as int));
            assert(self.entries@.take(i as int + 1).last() == self.entries@[i as int]);
            if self.entries[i].0 == k {
                return Some(&self.entries[i].1);
            }
        }
        assert(self.entries@.take(0).len() == 0);
        None
    }

    /// Finds the position of the winning binding for `k`, if any.
    fn position_of(&self, k: char) -> (r: Option<usize>)
        ensures
            match r {
                Some(i) => {
                    &&& i < self.entries@.len()
                    &&& self.entries@[i as int].0 == k
                    &&& self@.contains_key(k)
                    &&& self.entries@[i as int].1@ == self@[k]
                    &&& forall|m: int|
                        i < m < self.entries@.len() ==> #[trigger] self.entries@[m].0 != k
                },
                None => !self@.contains_key(k),
            },
    {
        let n = self.entries.len();
        let mut i: usize = n;
        assert(self.entries@.take(n as int) =~= self.entries@);
        while i > 0
            invariant
                0 <= i <= n,
                n == self.entries@.len(),
                self@.contains_key(k) == ck_map(self.entries@.take(i as int)).contains_key(k),
                self@.contains_key(k) ==> self@[k] == ck_map(self.entries@.take(i as int))[k],
                forall|m: int| i <= m < n ==> #[trigger] self.entries@[m].0 != k,
            decreases i,
        {
            i = i - 1;
            assert(self.entries@.take(i as int + 1).drop_last() =~= self.entries@.take(i as int));
            assert(self.entries@.take(i as int + 1).last() == self.entries@[i as int]);
            if self.entries[i].0 == k {
                return Some(i);
            }
        }
        assert(self.entries@.take(0).len() == 0);
        None
    }

    pub fn contains_key(&self, k: char) -> (r: bool)
        ensures
            r == self@.contains_key(k),
    {
        self.get(k).is_some()
    }

    /// Drops every binding for a key.
    pub fn remove(&mut self, k: char)
        ensures
            final(self).entries@ == cfilter_key(old(self).entries@, k),
            final(self)@ == old(self)@.remove(k),
    {
        let ghost orig = self.entries@;
        let mut i: usize = 0;
        let ghost mut j: int = 0;
        while i < self.entries.len()
            invariant
                0 <= i <= j,
                j - i <= orig.len(),
                self.entries@.len() == orig.len() - (j - i),
                j <= orig.len(),
                self.entries@ =~= cfilter_key(orig.take(j), k) + orig.skip(j),
                i == cfilter_key(orig.take(j), k).len(),
            decreases self.entries@.len() - i,
        {
            assert(orig.take(j + 1).drop_last() =~= orig.take(j));
            assert(orig.take(j + 1).last() == orig[j]);
            assert(self.entries@[i as int] == orig[j]);
            if self.entries[i].0 == k {
                self.entries.remove(i);
                assert(self.entries@ =~= cfilter_key(orig.take(j + 1), k) + orig.skip(j + 1));
            } else {
                i = i + 1;
                assert(self.entries@ =~= cfilter_key(orig.take(j + 1), k) + orig.skip(j + 1));
            }
            proof {
                j = j + 1;
            }
        }
        assert(orig.take(orig.len() as int) =~= orig);
        assert(self.entries@ =~= cfilter_key(orig, k));
        proof {
            lemma_ck_map_filter::<T>(orig, k);
        }
    }

    /// Binds `k` to `v`, dropping any previous binding.
    pub fn insert(&mut self, k: char, v: T)
        ensures
            final(self)@ == old(self)@.insert(k, v@),
            final(self).entries@ == cfilter_key(old(self).entries@, k).push((k, v)),
    {
        self.remove(k);
        let ghost filtered = self.entries@;
        self.entries.push((k, v));
        assert(self.entries@.drop_last() =~= filtered);
        proof {
            lemma_ck_map_filter::<T>(old(self).entries@, k);
            assert(final(self)@ =~= old(self)@.insert(k, v@));
        }
    }

    /// Removes and returns the binding for `k`, if any.
    pub fn take_out(&mut self, k: char) -> (r: Option<T>)
        ensures
            final(self)@ == old(self)@.remove(k),
            match r {
                Some(v) => old(self)@.contains_key(k) && v@ == old(self)@[k],
                None => !old(self)@.contains_key(k) && *final(self) == *old(self),
            },
    {
        let pos = self.position_of(k);
        match pos {
            None => {
                assert(final(self)@ =~= old(self)@.remove(k));
                None
            },
            Some(i) => {
                let ghost orig = self.entries@;
                let (_, v) = self.entries.remove(i);
                proof {
                    lemma_cfilter_drop_match::<T>(orig, i as int, k);
                    lemma_ck_map_filter::<T>(orig, k);
                }
                self.remove(k);
                Some(v)
            },
        }
    }

    pub fn entry_count(&self) -> (r: usize)
        ensures
            r == self.entries@.len(),
            r == self.kv().len(),
    {
        self.entries.len()
    }

    pub fn key_at(&self, i: usize) -> (r: char)
        requires
            i < self.kv().len(),
        ensures
            r == self.kv()[i as int].0,
    {
        self.entries[i].0
    }

    pub fn val_at(&self, i: usize) -> (r: &T)
        requires
            i < self.kv().len(),
        ensures
            r@ == self.kv()[i as int].1,
    {
        &self.entries[i].1
    }
}

/// Dropping one entry whose key is `k` does not change the key-filtered list.
pub proof fn lemma_cfilter_drop_match<T>(es: Seq<(char, T)>, i: int, k: char)
    requires
        0 <= i < es.len(),
        es[i].0 == k,
    ensures
        cfilter_key(es.remove(i), k) == cfilter_key(es, k),
    decreases es.len(),
{
    if i == es.len() - 1 {
        assert(es.remove(i) =~= es.drop_last());
    } else {
        assert(es.remove(i).drop_last() =~= es.drop_last().remove(i));
        assert(es.remove(i).last() == es.last());
        lemma_cfilter_drop_match::<T>(es.drop_last(), i, k);
    }
}

impl<T: Dup> Dup for CharMap<T> {
    fn dup(&self) -> (r: Self)
        ensures
            r@ == self@,
    {
        let n = self.entries.len();
        let mut entries: Vec<(char, T)> = Vec::new();
        let mut i: usize = 0;
        while i < n
            invariant
                0 <= i <= n,
                n == self.entries@.len(),
                entries@.len() == i,
                forall|m: int|
                    0 <= m < i ==> (#[trigger] entries@[m]).0 == (#[trigger] self.entries@[m]).0
                        && entries@[m].1@ == self.entries@[m].1@,
            decreases n - i,
        {
            let key = self.entries[i].0;
            let val = self.entries[i].1.dup();
            let ghost prev = entries@;
            entries.push((key, val));
            proof {
                assert forall|m: int| 0 <= m < i + 1 implies (#[trigger] entries@[m]).0 == (
                #[trigger] self.entries@[m]).0 && entries@[m].1@ == self.entries@[m].1@ by {
                    if m < i {
                        assert(entries@[m] == prev[m]);
                    } else {
                        assert(entries@[m] == (key, val));
                    }
                }
            }
            i = i + 1;
        }
        proof {
            lemma_ck_map_congruent::<T>(entries@, self.entries@);
        }
        CharMap { entries }
    }
}

} // verus!

verus! {

/// Whether `k` occurs in `s`.
pub open spec fn seq_has(s: Seq<Seq<char>>, k: Seq<char>) -> bool {
    exists|i: int| 0 <= i < s.len() && s[i] == k
}

/// `s` extended with `k`, unless `k` is already present.
pub open spec fn set_insert(s: Seq<Seq<char>>, k: Seq<char>) -> Seq<Seq<char>> {
    if seq_has(s, k) {
        s
    } else {
        s.push(k)
    }
}

/// The names of `s` other than `k`, in order.
pub open spec fn name_filter(s: Seq<Seq<char>>, k: Seq<char>) -> Seq<Seq<char>>
    decreases s.len(),
{
    if s.len() == 0 {
        s
    } else if s.last() == k {
        name_filter(s.drop_last(), k)
    } else {
        name_filter(s.drop_last(), k).push(s.last())
    }
}

/// The views of a sequence of strings.
pub open spec fn names_of(es: Seq<String>) -> Seq<Seq<char>> {
    Seq::new(es.len(), |i: int| es[i]@)
}

/// String-level analogue of `name_filter`, matching the executable loop.
pub open spec fn sfilter_name(es: Seq<String>, k: Seq<char>) -> Seq<String>
    decreases es.len(),
{
    if es.len() == 0 {
        es
    } else if es.last()@ == k {
        sfilter_name(es.drop_last(), k)
    } else {
        sfilter_name(es.drop_last(), k).push(es.last())
    }
}

pub proof fn lemma_sfilter_view(es: Seq<String>, k: Seq<char>)
    ensures
        names_of(sfilter_name(es, k)) == name_filter(names_of(es), k),
    decreases es.len(),
{
    if es.len() == 0 {
        assert(names_of(sfilter_name(es, k)) =~= name_filter(names_of(es), k));
    } else {
        lemma_sfilter_view(es.drop_last(), k);
        assert(names_of(es).drop_last() =~= names_of(es.drop_last()));
        assert(names_of(es).last() == es.last()@);
        if es.last()@ == k {
            assert(names_of(sfilter_name(es, k)) =~= name_filter(names_of(es), k));
        } else {
            assert(names_of(sfilter_name(es, k)) =~= names_of(sfilter_name(es.drop_last(), k)).push(
                es.last()@,
            ));
            assert(names_of(sfilter_name(es, k)) =~= name_filter(names_of(es), k));
        }
    }
}

pub proof fn lemma_name_filter_has(s: Seq<Seq<char>>, k: Seq<char>, k2: Seq<char>)
    ensures
        seq_has(name_filter(s, k), k2) == (k2 != k && seq_has(s, k2)),
    decreases s.len(),
{
    if s.len() == 0 {
    } else {
        lemma_name_filter_has(s.drop_last(), k, k2);
        let f = name_filter(s, k);
        let fd = name_filter(s.drop_last(), k);
        if s.last() == k {
            assert(seq_has(s, k2) == (s.last() == k2 || seq_has(s.drop_last(), k2))) by {
                if seq_has(s, k2) {
                    let i = choose|i: int| 0 <= i < s.len() && s[i] == k2;
                    if i < s.len() - 1 {
                        assert(s.drop_last()[i] == k2);
                    }
                } else {
                    if seq_has(s.drop_last(), k2) {
                        let i = choose|i: int| 0 <= i < s.drop_last().len() && s.drop_last()[i] == k2;
                        assert(s[i] == k2);
                    }
                }
            }
        } else {
            assert(f == fd.push(s.last()));
            assert(seq_has(f, k2) == (s.last() == k2 || seq_has(fd, k2))) by {
                if seq_has(f, k2) {
                    let i = choose|i: int| 0 <= i < f.len() && f[i] == k2;
                    if i < f.len() - 1 {
                        assert(fd[i] == k2);
                    } else {
                        assert(f[i] == s.last());
                    }
                } else {
                    assert(f[f.len() - 1] == s.last());
                    if seq_has(fd, k2) {
                        let i = choose|i: int| 0 <= i < fd.len() && fd[i] == k2;
                        assert(f[i] == k2);
                    }
                }
            }
            assert(seq_has(s, k2) == (s.last() == k2 || seq_has(s.drop_last(), k2))) by {
                if seq_has(s, k2) {
                    let i = choose|i: int| 0 <= i < s.len() && s[i] == k2;
                    if i < s.len() - 1 {
                        assert(s.drop_last()[i] == k2);
                    }
                } else {
                    if seq_has(s.drop_last(), k2) {
                        let i = choose|i: int| 0 <= i < s.drop_last().len() && s.drop_last()[i] == k2;
                        assert(s[i] == k2);
                    }
                }
            }
        }
    }
}

/// An insertion-ordered collection of distinct names.
pub struct KeySet {
    pub elems: Vec<String>,
}

impl View for KeySet {
    type V = Seq<Seq<char>>;

    open spec fn view(&self) -> Seq<Seq<char>> {
        self.elems.deep_view()
    }
}

impl KeySet {
    pub fn new() -> (r: Self)
        ensures
            r@ == Seq::<Seq<char>>::empty(),
    {
        let r = KeySet { elems: Vec::new() };
        assert(r@ =~= Seq::<Seq<char>>::empty());
        r
    }

    pub fn len(&self) -> (r: usize)
        ensures
            r == self@.len(),
    {
        self.elems.len()
    }

    pub fn at(&self, i: usize) -> (r: &String)
        requires
            i < self@.len(),
        ensures
            r@ == self@[i as int],
    {
        &self.elems[i]
    }

    pub fn member(&self, k: &String) -> (r: bool)
        ensures
            r == seq_has(self@, k@),
    {
        let n = self.elems.len();
        let mut i: usize = 0;
        while i < n
            invariant
                0 <= i <= n,
                n == self@.len(),
                forall|m: int| 0 <= m < i ==> self@[m] != k@,
            decreases n - i,
        {
            if self.elems[i] == *k {
                assert(self@[i as int] == k@);
                return true;
            }
            i = i + 1;
        }
        false
    }

    /// Adds `k` if it is not present yet.
    pub fn insert(&mut self, k: String)
        ensures
            final(self)@ == set_insert(old(self)@, k@),
    {
        if !self.member(&k) {
            self.elems.push(k);
            assert(final(self)@ =~= old(self)@.push(k@));
        }
    }

    /// Drops `k` from the collection.
    pub fn remove(&mut self, k: &String)
        ensures
            final(self)@ == name_filter(old(self)@, k@),
    {
        let ghost orig = self.elems@;
        let mut i: usize = 0;
        let ghost mut j: int = 0;
        while i < self.elems.len()
            invariant
                0 <= i <= j,
                j - i <= orig.len(),
                self.elems@.len() == orig.len() - (j - i),
                j <= orig.len(),
                self.elems@ =~= sfilter_name(orig.take(j), k@) + orig.skip(j),
                i == sfilter_name(orig.take(j), k@).len(),
            decreases self.elems@.len() - i,
        {
            assert(orig.take(j + 1).drop_last() =~= orig.take(j));
            assert(orig.take(j + 1).last() == orig[j]);
            assert(self.elems@[i as int] == orig[j]);
            if self.elems[i] == *k {
                self.elems.remove(i);
                assert(self.elems@ =~= sfilter_name(orig.take(j + 1), k@) + orig.skip(j + 1));
            } else {
                i = i + 1;
                assert(self.elems@ =~= sfilter_name(orig.take(j + 1), k@) + orig.skip(j + 1));
            }
            proof {
                j = j + 1;
            }
        }
        assert(orig.take(orig.len() as int) =~= orig);
        assert(self.elems@ =~= sfilter_name(orig, k@));
        proof {
            lemma_sfilter_view(orig, k@);
            assert(old(self)@ =~= names_of(orig));
            assert(final(self)@ =~= names_of(sfilter_name(orig, k@)));
        }
    }
}

impl Dup for KeySet {
    fn dup(&self) -> (r: Self)
        ensures
            r@ == self@,
    {
        let n = self.elems.len();
        let mut elems: Vec<String> = Vec::new();
        let mut i: usize = 0;
        while i < n
            invariant
                0 <= i <= n,
                n == self.elems@.len(),
                elems@.len() == i,
                forall|m: int| 0 <= m < i ==> (#[trigger] elems@[m])@ == self.elems@[m]@,
            decreases n - i,
        {
            elems.push(self.elems[i].clone());
            i = i + 1;
        }
        let r = KeySet { elems };
        assert(r@ =~= self@);
        r
    }
}

} // verus!

verus! {

/// Compares a string against a character vector.
pub fn eq_chars(s: &String, v: &Vec<char>) -> (r: bool)
    ensures
        r == (s@ == v@),
{
    let n = s.as_str().unicode_len();
    if n != v.len() {
        return false;
    }
    let mut i: usize = 0;
    while i < n
        invariant
            0 <= i <= n,
            n == s@.len(),
            n == v@.len(),
            forall|m: int| 0 <= m < i ==> s@[m] == v@[m],
        decreases n - i,
    {
        if s.as_str().get_char(i) != v[i] {
            return false;
        }
        i = i + 1;
    }
    assert(s@ =~= v@);
    true
}

/// Updating the winning entry for a key rebinds that key in the map.
pub proof fn lemma_kv_map_update_last<T: View>(
    es: Seq<(String, T)>,
    i: int,
    e2: (String, T),
    k: Seq<char>,
)
    requires
        0 <= i < es.len(),
        es[i].0@ == k,
        e2.0@ == k,
        forall|m: int| i < m < es.len() ==> (#[trigger] es[m]).0@ != k,
    ensures
        kv_map(es.update(i, e2)) == kv_map(es).insert(k, e2.1@),
    decreases es.len(),
{
    if i == es.len() - 1 {
        assert(es.update(i, e2).drop_last() =~= es.drop_last());
        assert(es.update(i, e2).last() == e2);
        assert(kv_map(es.update(i, e2)) =~= kv_map(es).insert(k, e2.1@));
    } else {
        assert(es.update(i, e2).drop_last() =~= es.drop_last().update(i, e2));
        assert(es.update(i, e2).last() == es.last());
        assert forall|m: int| i < m < es.drop_last().len() implies (#[trigger] es.drop_last()[m]).0@
            != k by {
            assert(es.drop_last()[m] == es[m]);
        }
        lemma_kv_map_update_last::<T>(es.drop_last(), i, e2, k);
        assert(es.last().0@ != k);
        assert(kv_map(es.update(i, e2)) =~= kv_map(es).insert(k, e2.1@));
    }
}

impl<T: View> KeyMap<T> {
    /// Returns the binding for the key spelled by `k`, if any.
    pub fn get_chars<'a>(&'a self, k: &Vec<char>) -> (r: Option<&'a T>)
        ensures
            match r {
                Some(v) => self@.contains_key(k@) && v@ == self@[k@],
                None => !self@.contains_key(k@),
            },
    {
        let n = self.entries.len();
        let mut i: usize = n;
        assert(self.entries@.take(n as int) =~= self.entries@);
        while i > 0
            invariant
                0 <= i <= n,
                n == self.entries@.len(),
                self@.contains_key(k@) == kv_map(self.entries@.take(i as int)).contains_key(k@),
                self@.contains_key(k@) ==> self@[k@] == kv_map(
                    self.entries@.take(i as int),
                )[k@],
            decreases i,
        {
            i = i - 1;
            assert(self.entries@.take(i as int + 1).drop_last() =~= self.entries@.take(i as int));
            assert(self.entries@.take(i as int + 1).last() == self.entries@[i as int]);
            if eq_chars(&self.entries[i].0, k) {
                return Some(&self.entries[i].1);
            }
        }
        assert(self.entries@.take(0).len() == 0);
        None
    }

    /// Rebinds the key spelled by `k` to `v` if it is bound, leaving the
    /// registry unchanged otherwise.
    pub fn update_chars(&mut self, k: &Vec<char>, v: T) -> (r: bool)
        ensures
            r == old(self)@.contains_key(k@),
            r ==> final(self)@ == old(self)@.insert(k@, v@),
            !r ==> *final(self) == *old(self),
    {
        let n = self.entries.len();
        let mut i: usize = n;
        assert(self.entries@.take(n as int) =~= self.entries@);
        while i > 0
            invariant
                0 <= i <= n,
                n == self.entries@.len(),
                self == old(self),
                self@.contains_key(k@) == kv_map(self.entries@.take(i as int)).contains_key(k@),
                forall|m: int| i <= m < n ==> (#[trigger] self.entries@[m]).0@ != k@,
            decreases i,
        {
            i = i - 1;
            assert(self.entries@.take(i as int + 1).drop_last() =~= self.entries@.take(i as int));
            assert(self.entries@.take(i as int + 1).last() == self.entries@[i as int]);
            if eq_chars(&self.entries[i].0, k) {
                let ghost orig = self.entries@;
                let key2 = self.entries[i].0.clone();
                self.entries.set(i, (key2, v));
                proof {
                    let e2 = self.entries@[i as int];
                    assert(self.entries@ =~= orig.update(i as int, e2));
                    lemma_kv_map_update_last::<T>(orig, i as int, e2, k@);
                }
                return true;
            }
        }
        assert(self.entries@.take(0).len() == 0);
        false
    }
}

} // verus!
