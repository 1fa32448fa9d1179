//! Lists and sets of names.

use vstd::prelude::*;
use vstd::string::*;

use crate::text;

verus! {

/// A set of names. No name occurs twice in it.
#[derive(Debug)]
pub struct NameSet {
    names: Vec<String>,
}

impl View for NameSet {
    type V = Set<Seq<char>>;

    closed spec fn view(&self) -> Set<Seq<char>> {
        text::views(self.names@).to_set()
    }
}

/// The index of `name` in `names`, from index `i` on.
pub open spec fn index_from(names: Seq<Seq<char>>, name: Seq<char>, i: int) -> Option<int>
    decreases names.len() - i,
{
    if i >= names.len() {
        None
    } else if names[i] == name {
        Some(i)
    } else {
        index_from(names, name, i + 1)
    }
}

/// What `index_from` finds: the first occurrence, with none before it.
pub proof fn lemma_index_from(names: Seq<Seq<char>>, name: Seq<char>, i: int)
    requires
        0 <= i <= names.len(),
    ensures
        match index_from(names, name, i) {
            Some(k) => i <= k < names.len() && names[k] == name && forall|j: int| i <= j < k ==> names[j] != name,
            None => forall|j: int| i <= j < names.len() ==> names[j] != name,
        },
    decreases names.len() - i,
{
    if i < names.len() && names[i] != name {
        lemma_index_from(names, name, i + 1);
    }
}

/// The index of the first `name` in `names`.
pub fn position(names: &Vec<String>, name: &str) -> (r: Option<usize>)
    ensures
        match r {
            Some(k) => index_from(text::views(names@), name@, 0) == Some(k as int),
            None => index_from(text::views(names@), name@, 0) is None,
        },
        r matches Some(k) ==> k < names.len() && names@[k as int]@ == name@,
        r is Some <==> text::views(names@).contains(name@),
{
    let wanted = name.to_owned();
    let mut i: usize = 0;
    while i < names.len()
        invariant
            i <= names.len(),
            wanted@ == name@,
            index_from(text::views(names@), name@, 0) == index_from(text::views(names@), name@, i as int),
            forall|j: int| 0 <= j < i ==> text::views(names@)[j] != name@,
        decreases names.len() - i,
    {
        if names[i] == wanted {
            assert(text::views(names@)[i as int] == name@);
            return Some(i);
        }
        i += 1;
    }
    None
}

/// Whether `name` is among `names`.
pub fn contains(names: &Vec<String>, name: &str) -> (r: bool)
    ensures
        r == text::views(names@).contains(name@),
{
    position(names, name).is_some()
}

/// The same names once more.
pub fn copy(names: &Vec<String>) -> (r: Vec<String>)
    ensures
        text::views(r@) == text::views(names@),
{
    let mut out: Vec<String> = Vec::new();
    let mut i: usize = 0;
    while i < names.len()
        invariant
            i <= names.len(),
            out@.len() == i,
            forall|j: int| 0 <= j < i ==> out@[j]@ == names@[j]@,
        decreases names.len() - i,
    {
        out.push(names[i].clone());
        i += 1;
    }
    assert(text::views(out@) =~= text::views(names@));
    out
}

/// The names in `list` that are neither in `seen` nor further in front in `list`.
pub open spec fn fresh(list: Seq<Seq<char>>, seen: Set<Seq<char>>) -> Seq<Seq<char>>
    decreases list.len(),
{
    if list.len() == 0 {
        Seq::empty()
    } else {
        let before = fresh(list.drop_last(), seen);
        if seen.contains(list.last()) || list.drop_last().contains(list.last()) {
            before
        } else {
            before.push(list.last())
        }
    }
}

/// The names in `list` that are not in `seen` and not further in front in `list`; all of them are then seen.
pub fn keep_fresh(list: &Vec<String>, seen: &mut NameSet) -> (r: Vec<String>)
    ensures
        text::views(r@) == fresh(text::views(list@), old(seen)@),
        final(seen)@ == old(seen)@.union(text::views(list@).to_set()),
{
    let ghost all = text::views(list@);
    let mut out: Vec<String> = Vec::new();
    let mut i: usize = 0;
    assert(text::views(out@) =~= fresh(all.take(0), seen@));
    assert(seen@ =~= seen@.union(all.take(0).to_set()));
    while i < list.len()
        invariant
            i <= list.len(),
            all == text::views(list@),
            text::views(out@) == fresh(all.take(i as int), old(seen)@),
            seen@ == old(seen)@.union(all.take(i as int).to_set()),
        decreases list.len() - i,
    {
        proof {
            assert(all.take(i + 1) =~= all.take(i as int).push(all[i as int]));
            assert(all.take(i + 1).drop_last() =~= all.take(i as int));
            lemma_push_to_set(all.take(i as int), all[i as int]);
        }
        if !seen.contains(&list[i]) {
            let ghost kept = text::views(out@);
            out.push(list[i].clone());
            assert(text::views(out@) =~= kept.push(all[i as int]));
            seen.insert(list[i].clone());
        }
        assert(seen@ =~= old(seen)@.union(all.take(i + 1).to_set()));
        i += 1;
    }
    assert(all.take(i as int) =~= all);
    out
}

/// Nothing is dropped from a list without repetitions and without a name that was seen.
pub proof fn lemma_fresh_keeps(list: Seq<Seq<char>>, seen: Set<Seq<char>>)
    requires
        list.no_duplicates(),
        forall|s: Seq<char>| #[trigger] list.contains(s) ==> !seen.contains(s),
    ensures
        fresh(list, seen) == list,
    decreases list.len(),
{
    if list.len() > 0 {
        let front = list.drop_last();
        assert forall|s: Seq<char>| #[trigger] front.contains(s) implies !seen.contains(s) by {
            let k = front.index_of(s);
            assert(list[k] == s);
            assert(list.contains(s));
        }
        lemma_fresh_keeps(front, seen);
        assert(list[list.len() - 1] == list.last());
        assert(list.contains(list.last()));
        assert(!front.contains(list.last())) by {
            if front.contains(list.last()) {
                let k = front.index_of(list.last());
                assert(list[k] == list[list.len() - 1]);
            }
        }
        assert(front.push(list.last()) =~= list);
    } else {
        assert(list =~= Seq::empty());
    }
}

/// What is left of a list has no repetitions, no name that was seen, and no other name than the list had.
pub proof fn lemma_fresh(list: Seq<Seq<char>>, seen: Set<Seq<char>>)
    ensures
        fresh(list, seen).no_duplicates(),
        forall|n: Seq<char>| #[trigger] fresh(list, seen).contains(n) <==> list.contains(n) && !seen.contains(n),
    decreases list.len(),
{
    let kept = fresh(list, seen);
    if list.len() > 0 {
        let front = list.drop_last();
        let last = list.last();
        let before = fresh(front, seen);
        lemma_fresh(front, seen);
        assert(list[list.len() - 1] == last);
        assert forall|n: Seq<char>| #[trigger] kept.contains(n) <==> list.contains(n) && !seen.contains(n) by {
            if kept.contains(n) {
                let k = kept.index_of(n);
                if k < before.len() {
                    assert(before[k] == n);
                    assert(before.contains(n));
                    let j = front.index_of(n);
                    assert(list[j] == n);
                } else {
                    assert(list[list.len() - 1] == n);
                }
            }
            if list.contains(n) && !seen.contains(n) {
                let j = list.index_of(n);
                if j < front.len() {
                    assert(front[j] == n);
                }
                if front.contains(n) {
                    assert(before.contains(n));
                    let k = before.index_of(n);
                    assert(kept[k] == n);
                } else {
                    assert(kept[before.len() as int] == n);
                }
            }
        }
        assert forall|a: int, b: int| 0 <= a < b < kept.len() implies kept[a] != kept[b] by {
            assert(kept[a] == before[a]);
            assert(before.contains(before[a]));
            if b < before.len() {
                assert(kept[b] == before[b]);
            }
        }
    }
}

impl NameSet {
    #[verifier::type_invariant]
    spec fn distinct(self) -> bool {
        text::views(self.names@).no_duplicates()
    }

    pub fn new() -> (r: NameSet)
        ensures
            r@ == Set::<Seq<char>>::empty(),
    {
        let r = NameSet { names: Vec::new() };
        assert(r@ =~= Set::empty());
        r
    }

    /// The set of the names in a list.
    pub fn of(names: &Vec<String>) -> (r: NameSet)
        ensures
            r@ == text::views(names@).to_set(),
    {
        let mut r = NameSet::new();
        let mut i: usize = 0;
        while i < names.len()
            invariant
                i <= names.len(),
                r@ == text::views(names@).take(i as int).to_set(),
            decreases names.len() - i,
        {
            r.insert(names[i].clone());
            proof {
                let all = text::views(names@);
                assert(all.take(i + 1) =~= all.take(i as int).push(all[i as int]));
                lemma_push_to_set(all.take(i as int), all[i as int]);
            }
            i += 1;
        }
        assert(text::views(names@).take(i as int) =~= text::views(names@));
        r
    }

    pub fn contains(&self, name: &str) -> (r: bool)
        ensures
            r == self@.contains(name@),
    {
        contains(&self.names, name)
    }

    pub fn is_empty(&self) -> (r: bool)
        ensures
            r == (self@ == Set::<Seq<char>>::empty()),
    {
        if self.names.len() == 0 {
            assert(self@ =~= Set::empty());
            true
        } else {
            assert(self@.contains(text::views(self.names@)[0]));
            false
        }
    }

    /// How many names there are.
    pub fn len(&self) -> (r: usize)
        ensures
            self@.finite(),
            r == self@.len(),
    {
        proof {
            use_type_invariant(self);
            text::views(self.names@).unique_seq_to_set();
        }
        self.names.len()
    }

    pub fn insert(&mut self, name: String)
        ensures
            final(self)@ == old(self)@.insert(name@),
    {
        proof {
            use_type_invariant(&*self);
        }
        if self.contains(&name) {
            assert(self@ =~= old(self)@.insert(name@));
        } else {
            let mut names: Vec<String> = Vec::new();
            core::mem::swap(&mut names, &mut self.names);
            let ghost before = text::views(names@);
            names.push(name);
            proof {
                assert(text::views(names@) =~= before.push(name@));
                lemma_push_to_set(before, name@);
            }
            self.names = names;
        }
    }

    /// Takes `name` out, and says whether it was in.
    pub fn remove(&mut self, name: &str) -> (r: bool)
        ensures
            final(self)@ == old(self)@.remove(name@),
            r == old(self)@.contains(name@),
    {
        proof {
            use_type_invariant(&*self);
        }
        match position(&self.names, name) {
            None => {
                assert(self@ =~= old(self)@.remove(name@));
                false
            },
            Some(k) => {
                let mut names: Vec<String> = Vec::new();
                core::mem::swap(&mut names, &mut self.names);
                let ghost before = text::views(names@);
                let _ = names.remove(k);
                proof {
                    assert(text::views(names@) =~= before.remove(k as int));
                    lemma_remove_to_set(before, k as int);
                }
                self.names = names;
                true
            },
        }
    }

    /// Keeps only the names that are in `live`.
    pub fn retain_in(&mut self, live: &Vec<String>)
        ensures
            final(self)@ == old(self)@.intersect(text::views(live@).to_set()),
    {
        let mut kept = NameSet::new();
        let mut i: usize = 0;
        while i < self.names.len()
            invariant
                i <= self.names.len(),
                *self == *old(self),
                kept@ == text::views(self.names@).take(i as int).to_set().intersect(text::views(live@).to_set()),
            decreases self.names.len() - i,
        {
            let ghost all = text::views(self.names@);
            proof {
                assert(all.take(i + 1) =~= all.take(i as int).push(all[i as int]));
                lemma_push_to_set(all.take(i as int), all[i as int]);
            }
            if contains(live, &self.names[i]) {
                kept.insert(self.names[i].clone());
            }
            assert(kept@ =~= all.take(i + 1).to_set().intersect(text::views(live@).to_set()));
            i += 1;
        }
        assert(text::views(self.names@).take(i as int) =~= text::views(self.names@));
        *self = kept;
    }

    pub fn clear(&mut self)
        ensures
            final(self)@ == Set::<Seq<char>>::empty(),
    {
        *self = NameSet::new();
    }
}

pub(crate) proof fn lemma_push_to_set(s: Seq<Seq<char>>, x: Seq<char>)
    ensures
        s.push(x).to_set() == s.to_set().insert(x),
{
    assert forall|y: Seq<char>| s.push(x).to_set().contains(y) == s.to_set().insert(x).contains(y) by {
        if s.contains(y) {
            let i = s.index_of(y);
            assert(s.push(x)[i] == y);
        }
        if y == x {
            assert(s.push(x)[s.len() as int] == y);
        }
    }
    assert(s.push(x).to_set() =~= s.to_set().insert(x));
}

proof fn lemma_remove_to_set(s: Seq<Seq<char>>, k: int)
    requires
        0 <= k < s.len(),
        s.no_duplicates(),
    ensures
        s.remove(k).to_set() == s.to_set().remove(s[k]),
        s.remove(k).no_duplicates(),
{
    assert forall|y: Seq<char>| s.remove(k).to_set().contains(y) == s.to_set().remove(s[k]).contains(y) by {
        if s.contains(y) && y != s[k] {
            let i = s.index_of(y);
            if i < k {
                assert(s.remove(k)[i] == y);
            } else {
                assert(s.remove(k)[i - 1] == y);
            }
        }
    }
    assert(s.remove(k).to_set() =~= s.to_set().remove(s[k]));
}

} // verus!
