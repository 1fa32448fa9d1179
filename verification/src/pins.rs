//! Laws of the order in which sessions are listed, and of pins.

use vstd::prelude::*;

use crate::sessions;
use crate::sessions::SessionView;

verus! {

proof fn lemma_drawn_within(s: Seq<SessionView>, names: Seq<Seq<char>>, i: int, x: SessionView)
    requires
        0 <= i <= names.len(),
        sessions::drawn(s, names, i).0.contains(x) || sessions::drawn(s, names, i).1.contains(x),
    ensures
        s.contains(x),
{
    broadcast use vstd::seq_lib::group_to_multiset_ensures;

    let (d, l) = sessions::drawn(s, names, i);
    sessions::lemma_drawn(s, names, i);
    assert(d.to_multiset().add(l.to_multiset()).count(x) == d.to_multiset().count(x) + l.to_multiset().count(x));
}

/// The sessions that were drawn are drawn again from in front of what has no
/// pinned session but those that were left.
proof fn lemma_redraw(s: Seq<SessionView>, names: Seq<Seq<char>>, i: int, r: Seq<SessionView>)
    requires
        0 <= i <= names.len(),
        forall|k: int|
            0 <= k < r.len() && (#[trigger] r[k]).pinned ==> sessions::drawn(s, names, i).1.contains(r[k]),
    ensures
        sessions::drawn(sessions::drawn(s, names, i).0 + r, names, i) == (sessions::drawn(s, names, i).0, r),
    decreases names.len() - i,
{
    let (d, l) = sessions::drawn(s, names, i);
    let t = d + r;
    if i >= names.len() {
        assert(t =~= r);
    } else {
        sessions::lemma_pinned_from(s, names[i], 0);
        match sessions::pinned_from(s, names[i], 0) {
            None => {
                lemma_redraw(s, names, i + 1, r);
                sessions::lemma_pinned_from(t, names[i], 0);
                if let Some(k) = sessions::pinned_from(t, names[i], 0) {
                    if k < d.len() {
                        assert(d[k] == t[k]);
                        assert(d.contains(t[k]));
                    } else {
                        assert(r[k - d.len()] == t[k]);
                    }
                    lemma_drawn_within(s, names, i, t[k]);
                    let j = s.index_of(t[k]);
                    assert(s[j].pinned && s[j].name == names[i]);
                }
            },
            Some(k) => {
                lemma_redraw(s.remove(k), names, i + 1, r);
                let rest = sessions::drawn(s.remove(k), names, i + 1).0;
                assert(t[0] == s[k]);
                assert(sessions::pinned_from(t, names[i], 0) == Some(0int));
                assert(t.remove(0) =~= rest + r);
            },
        }
    }
}

proof fn lemma_part_within(s: Seq<SessionView>, x: SessionView)
    requires
        sessions::pinned_part(s).contains(x),
    ensures
        s.contains(x),
{
    broadcast use vstd::seq_lib::group_to_multiset_ensures;

    sessions::lemma_parts(s);
    let p = sessions::pinned_part(s).to_multiset();
    let u = sessions::unpinned_part(s).to_multiset();
    assert(p.add(u).count(x) == p.count(x) + u.count(x));
}

/// The pinned sessions, in their order.
#[verifier::opaque]
spec fn pins(l: Seq<SessionView>) -> Seq<SessionView> {
    sessions::pinned_part(l)
}

/// The sessions that are not pinned, sorted.
#[verifier::opaque]
spec fn others(l: Seq<SessionView>) -> Seq<SessionView> {
    sessions::sorted(sessions::unpinned_part(l))
}

proof fn lemma_arranged(s: Seq<SessionView>, names: Seq<Seq<char>>, d: Seq<SessionView>, l: Seq<SessionView>)
    requires
        sessions::drawn(s, names, 0) == (d, l),
    ensures
        sessions::arranged(s, names) == d + (pins(l) + others(l)),
{
    reveal(pins);
    reveal(others);
    assert(d + pins(l) + others(l) =~= d + (pins(l) + others(l)));
}

proof fn lemma_pins(l: Seq<SessionView>, k: int)
    requires
        0 <= k < pins(l).len(),
    ensures
        pins(l)[k].pinned,
        l.contains(pins(l)[k]),
{
    reveal(pins);
    sessions::lemma_parts(l);
    assert(pins(l).contains(pins(l)[k]));
    lemma_part_within(l, pins(l)[k]);
}

proof fn lemma_others(l: Seq<SessionView>, k: int)
    requires
        0 <= k < others(l).len(),
    ensures
        !others(l)[k].pinned,
{
    broadcast use vstd::seq_lib::group_to_multiset_ensures;

    reveal(others);
    let u = others(l);
    sessions::sorting_orders(sessions::unpinned_part(l));
    sessions::lemma_parts(l);
    assert(u.contains(u[k]));
    assert(u.to_multiset().count(u[k]) > 0);
    assert(sessions::unpinned_part(l).contains(u[k]));
}

proof fn lemma_parts_stay(l: Seq<SessionView>)
    ensures
        pins(pins(l) + others(l)) == pins(l),
        others(pins(l) + others(l)) == others(l),
{
    let p = pins(l);
    let u = others(l);
    assert forall|k: int| 0 <= k < p.len() implies (#[trigger] p[k]).pinned by {
        lemma_pins(l, k);
    }
    assert forall|k: int| 0 <= k < u.len() implies !(#[trigger] u[k]).pinned by {
        lemma_others(l, k);
    }
    lemma_front_and_back(p, u);
    lemma_others_stay(l, p + u);
}

/// What stands in front and is pinned, and what stands behind and is not, are the two parts.
proof fn lemma_front_and_back(p: Seq<SessionView>, u: Seq<SessionView>)
    requires
        forall|k: int| 0 <= k < p.len() ==> (#[trigger] p[k]).pinned,
        forall|k: int| 0 <= k < u.len() ==> !(#[trigger] u[k]).pinned,
    ensures
        pins(p + u) == p,
        sessions::unpinned_part(p + u) == u,
{
    reveal(pins);
    sessions::lemma_all_pinned(p);
    sessions::lemma_none_pinned(u);
    sessions::lemma_join(p, u);
    assert(p + Seq::<SessionView>::empty() =~= p);
    assert(Seq::<SessionView>::empty() + u =~= u);
}

proof fn lemma_others_stay(l: Seq<SessionView>, t: Seq<SessionView>)
    requires
        sessions::unpinned_part(t) == others(l),
    ensures
        others(t) == others(l),
{
    reveal(others);
    sessions::sorting_orders(sessions::unpinned_part(l));
    sessions::sorting_keeps_order(others(l));
}

/// Sessions that were arranged by some names do not change when they are arranged by them once more.
pub proof fn arranging_twice_changes_nothing(s: Seq<SessionView>, names: Seq<Seq<char>>)
    ensures
        sessions::arranged(sessions::arranged(s, names), names) == sessions::arranged(s, names),
{
    let (d, l) = sessions::drawn(s, names, 0);
    let r = pins(l) + others(l);
    assert forall|k: int| 0 <= k < r.len() && (#[trigger] r[k]).pinned implies l.contains(r[k]) by {
        if k < pins(l).len() {
            lemma_pins(l, k);
        } else {
            lemma_others(l, k - pins(l).len());
        }
    }
    lemma_redraw(s, names, 0, r);
    lemma_arranged(s, names, d, l);
    lemma_arranged(d + r, names, d, r);
    lemma_parts_stay(l);
}

/// The names that are in the set, in their order.
#[verifier::opaque]
pub open spec fn only(names: Seq<Seq<char>>, kept: Set<Seq<char>>) -> Seq<Seq<char>> {
    names.filter(|name: Seq<char>| kept.contains(name))
}

proof fn lemma_only_push(a: Seq<Seq<char>>, x: Seq<char>, kept: Set<Seq<char>>)
    ensures
        only(Seq::empty(), kept) == Seq::<Seq<char>>::empty(),
        only(a.push(x), kept) == (if kept.contains(x) { only(a, kept).push(x) } else { only(a, kept) }),
{
    reveal(only);
    reveal_with_fuel(Seq::filter, 1);
    assert(a.push(x).drop_last() =~= a);
}

proof fn lemma_only_join(a: Seq<Seq<char>>, b: Seq<Seq<char>>, kept: Set<Seq<char>>)
    ensures
        only(a + b, kept) == only(a, kept) + only(b, kept),
    decreases b.len(),
{
    if b.len() == 0 {
        lemma_only_push(a, Seq::empty(), kept);
        assert(b =~= Seq::empty());
        assert(a + b =~= a);
    } else {
        let x = b.last();
        lemma_only_join(a, b.drop_last(), kept);
        lemma_only_push(a + b.drop_last(), x, kept);
        lemma_only_push(b.drop_last(), x, kept);
        assert(a + b =~= (a + b.drop_last()).push(x));
        assert(b =~= b.drop_last().push(x));
    }
}

proof fn lemma_only_one(x: Seq<char>, kept: Set<Seq<char>>)
    ensures
        only(seq![x], kept) == (if kept.contains(x) { seq![x] } else { Seq::empty() }),
{
    lemma_only_push(Seq::empty(), x, kept);
    assert(seq![x] =~= Seq::empty().push(x));
}

proof fn lemma_only_same(a: Seq<Seq<char>>, s: Set<Seq<char>>, t: Set<Seq<char>>)
    requires
        forall|k: int| 0 <= k < a.len() ==> (s.contains(#[trigger] a[k]) <==> t.contains(a[k])),
    ensures
        only(a, s) == only(a, t),
    decreases a.len(),
{
    if a.len() == 0 {
        assert(a =~= Seq::empty());
        lemma_only_push(a, Seq::empty(), s);
        lemma_only_push(a, Seq::empty(), t);
    } else {
        let front = a.drop_last();
        assert forall|k: int| 0 <= k < front.len() implies (s.contains(#[trigger] front[k]) <==> t.contains(front[k])) by {
            assert(front[k] == a[k]);
        }
        lemma_only_same(front, s, t);
        lemma_only_push(front, a.last(), s);
        lemma_only_push(front, a.last(), t);
        assert(a =~= front.push(a.last()));
    }
}

proof fn lemma_only_all(a: Seq<Seq<char>>, s: Set<Seq<char>>)
    requires
        forall|k: int| 0 <= k < a.len() ==> s.contains(#[trigger] a[k]),
    ensures
        only(a, s) == a,
    decreases a.len(),
{
    if a.len() == 0 {
        assert(a =~= Seq::empty());
        lemma_only_push(a, Seq::empty(), s);
    } else {
        let front = a.drop_last();
        assert forall|k: int| 0 <= k < front.len() implies s.contains(#[trigger] front[k]) by {
            assert(front[k] == a[k]);
        }
        lemma_only_all(front, s);
        lemma_only_push(front, a.last(), s);
        assert(a =~= front.push(a.last()));
    }
}

proof fn lemma_only_twice(a: Seq<Seq<char>>, s: Set<Seq<char>>, t: Set<Seq<char>>)
    ensures
        only(only(a, s), t) == only(a, s.intersect(t)),
    decreases a.len(),
{
    if a.len() == 0 {
        assert(a =~= Seq::empty());
        lemma_only_push(a, Seq::empty(), s);
        lemma_only_push(a, Seq::empty(), t);
        lemma_only_push(a, Seq::empty(), s.intersect(t));
    } else {
        let front = a.drop_last();
        lemma_only_twice(front, s, t);
        lemma_only_push(front, a.last(), s);
        lemma_only_push(only(front, s), a.last(), t);
        lemma_only_push(front, a.last(), s.intersect(t));
        assert(a =~= front.push(a.last()));
    }
}

/// Where a pinned session stands, its name stands among the names of the pinned.
proof fn lemma_pin_split(s: Seq<SessionView>, k: int) -> (r: (Seq<Seq<char>>, Seq<Seq<char>>))
    requires
        0 <= k < s.len(),
        s[k].pinned,
    ensures
        sessions::pinned_names(s) == r.0 + (seq![s[k].name] + r.1),
        sessions::pinned_names(s.remove(k)) == r.0 + r.1,
{
    let a = s.take(k);
    let b = s.skip(k + 1);
    assert(s =~= a + (seq![s[k]] + b));
    assert(s.remove(k) =~= a + b);
    sessions::lemma_join(a, seq![s[k]] + b);
    sessions::lemma_join(seq![s[k]], b);
    sessions::lemma_join(a, b);
    sessions::lemma_all_pinned(seq![s[k]]);
    let left = sessions::pinned_names(a);
    let right = sessions::pinned_names(b);
    assert(sessions::pinned_names(s) =~= left + (seq![s[k].name] + right));
    assert(sessions::pinned_names(s.remove(k)) =~= left + right);
    (left, right)
}

/// Without one of the pinned sessions the names of the pinned are those without its name.
proof fn lemma_pin_removed(s: Seq<SessionView>, k: int)
    requires
        0 <= k < s.len(),
        s[k].pinned,
        sessions::pinned_names(s).no_duplicates(),
    ensures
        sessions::pinned_names(s).contains(s[k].name),
        sessions::pinned_names(s.remove(k)).no_duplicates(),
        sessions::pinned_names(s.remove(k)) == only(sessions::pinned_names(s), set![s[k].name].complement()),
        forall|x: Seq<char>|
            #![auto]
            x != s[k].name ==> (sessions::pinned_names(s.remove(k)).contains(x) <==> sessions::pinned_names(
                s,
            ).contains(x)),
{
    let n = s[k].name;
    let (a, b) = lemma_pin_split(s, k);
    let all = a + (seq![n] + b);
    let at = a.len() as int;
    assert(all[at] == n);
    assert(a + b =~= all.remove(at));
    let but = set![n].complement();
    assert forall|j: int| 0 <= j < a.len() implies but.contains(#[trigger] a[j]) by {
        assert(all[j] == a[j]);
    }
    assert forall|j: int| 0 <= j < b.len() implies but.contains(#[trigger] b[j]) by {
        assert(all[at + 1 + j] == b[j]);
    }
    lemma_only_all(a, but);
    lemma_only_all(b, but);
    lemma_only_one(n, but);
    lemma_only_join(seq![n], b, but);
    lemma_only_join(a, seq![n] + b, but);
    assert(Seq::<Seq<char>>::empty() + b =~= b);
    assert forall|x: Seq<char>| x != n implies (#[trigger] (a + b).contains(x) <==> all.contains(x)) by {
        if all.contains(x) {
            let j = all.index_of(x);
            assert((a + b)[if j < at { j } else { j - 1 }] == x);
        }
        if (a + b).contains(x) {
            let j = (a + b).index_of(x);
            assert(all[if j < at { j } else { j + 1 }] == x);
        }
    }
}

proof fn lemma_named_pin(s: Seq<SessionView>, name: Seq<char>) -> (k: int)
    requires
        sessions::pinned_names(s).contains(name),
    ensures
        0 <= k < s.len(),
        s[k].pinned,
        s[k].name == name,
{
    let j = sessions::pinned_names(s).index_of(name);
    let x = sessions::pinned_part(s)[j];
    sessions::lemma_parts(s);
    assert(sessions::pinned_part(s).contains(x));
    lemma_part_within(s, x);
    s.index_of(x)
}

/// The names from `i` on that are names of pinned sessions, and the names of pinned sessions without them.
spec fn split_names(names: Seq<Seq<char>>, i: int, pinned: Seq<Seq<char>>) -> (Seq<Seq<char>>, Seq<Seq<char>>) {
    (only(names.skip(i), pinned.to_set()), only(pinned, names.skip(i).to_set().complement()))
}

proof fn lemma_split_other(names: Seq<Seq<char>>, i: int, pinned: Seq<Seq<char>>)
    requires
        0 <= i < names.len(),
        !pinned.contains(names[i]),
    ensures
        split_names(names, i, pinned) == split_names(names, i + 1, pinned),
{
    let rest = names.skip(i + 1);
    let here = names.skip(i);
    let kept = pinned.to_set();
    assert(here =~= seq![names[i]] + rest);
    lemma_only_join(seq![names[i]], rest, kept);
    lemma_only_one(names[i], kept);
    assert(Seq::<Seq<char>>::empty() + only(rest, kept) =~= only(rest, kept));
    assert forall|j: int| 0 <= j < pinned.len() implies (here.to_set().complement().contains(#[trigger] pinned[j])
        <==> rest.to_set().complement().contains(pinned[j])) by {
        assert(pinned.contains(pinned[j]));
        lemma_tail_contains(names, i, pinned[j]);
    }
    lemma_only_same(pinned, here.to_set().complement(), rest.to_set().complement());
}

proof fn lemma_tail_contains(names: Seq<Seq<char>>, i: int, x: Seq<char>)
    requires
        0 <= i < names.len(),
    ensures
        names.skip(i).contains(x) <==> x == names[i] || names.skip(i + 1).contains(x),
{
    let here = names.skip(i);
    let rest = names.skip(i + 1);
    if here.contains(x) && x != names[i] {
        let j = here.index_of(x);
        assert(rest[j - 1] == x);
    }
    if rest.contains(x) {
        let j = rest.index_of(x);
        assert(here[j + 1] == x);
    }
    assert(here[0] == names[i]);
}

proof fn lemma_split_pinned(names: Seq<Seq<char>>, i: int, pinned: Seq<Seq<char>>, left: Seq<Seq<char>>)
    requires
        0 <= i < names.len(),
        names.no_duplicates(),
        pinned.contains(names[i]),
        left == only(pinned, set![names[i]].complement()),
        forall|x: Seq<char>| #![auto] x != names[i] ==> (left.contains(x) <==> pinned.contains(x)),
    ensures
        split_names(names, i, pinned).0 == seq![names[i]] + split_names(names, i + 1, left).0,
        split_names(names, i, pinned).1 == split_names(names, i + 1, left).1,
{
    let rest = names.skip(i + 1);
    let here = names.skip(i);
    assert(here =~= seq![names[i]] + rest);
    lemma_only_join(seq![names[i]], rest, pinned.to_set());
    lemma_only_one(names[i], pinned.to_set());
    assert forall|j: int| 0 <= j < rest.len() implies (left.to_set().contains(#[trigger] rest[j])
        <==> pinned.to_set().contains(rest[j])) by {
        assert(rest[j] == names[i + 1 + j]);
        assert(rest[j] != names[i]);
    }
    lemma_only_same(rest, left.to_set(), pinned.to_set());
    let but = set![names[i]].complement();
    lemma_only_twice(pinned, but, rest.to_set().complement());
    assert(but.intersect(rest.to_set().complement()) =~= here.to_set().complement()) by {
        assert forall|x: Seq<char>| but.intersect(rest.to_set().complement()).contains(x)
            <==> here.to_set().complement().contains(x) by {
            lemma_tail_contains(names, i, x);
        }
    }
}

proof fn lemma_draw_names(s: Seq<SessionView>, names: Seq<Seq<char>>, i: int)
    requires
        0 <= i <= names.len(),
        names.no_duplicates(),
        sessions::pinned_names(s).no_duplicates(),
    ensures
        sessions::names_of(sessions::drawn(s, names, i).0) == split_names(names, i, sessions::pinned_names(s)).0,
        sessions::pinned_names(sessions::drawn(s, names, i).1) == split_names(names, i, sessions::pinned_names(s)).1,
    decreases names.len() - i,
{
    let pinned = sessions::pinned_names(s);
    if i >= names.len() {
        let none = names.skip(i);
        assert(none =~= Seq::empty());
        lemma_only_push(none, Seq::empty(), pinned.to_set());
        lemma_only_all(pinned, none.to_set().complement());
        assert(sessions::names_of(Seq::empty()) =~= Seq::empty());
    } else {
        sessions::lemma_pinned_from(s, names[i], 0);
        match sessions::pinned_from(s, names[i], 0) {
            None => {
                if pinned.contains(names[i]) {
                    let k = lemma_named_pin(s, names[i]);
                    assert(s[k].pinned);
                }
                lemma_split_other(names, i, pinned);
                lemma_draw_names(s, names, i + 1);
            },
            Some(k) => {
                lemma_pin_removed(s, k);
                lemma_draw_names(s.remove(k), names, i + 1);
                lemma_split_pinned(names, i, pinned, sessions::pinned_names(s.remove(k)));
                let rest = sessions::drawn(s.remove(k), names, i + 1).0;
                assert(sessions::names_of(seq![s[k]] + rest) =~= seq![names[i]] + sessions::names_of(rest));
            },
        }
    }
}

proof fn lemma_front(p: Seq<SessionView>, u: Seq<SessionView>)
    requires
        forall|k: int| 0 <= k < p.len() ==> (#[trigger] p[k]).pinned,
        forall|k: int| 0 <= k < u.len() ==> !(#[trigger] u[k]).pinned,
    ensures
        pins(p + u) == p,
{
    lemma_front_and_back(p, u);
}

proof fn lemma_arranged_pins(s: Seq<SessionView>, names: Seq<Seq<char>>)
    ensures
        pins(sessions::arranged(s, names)) == sessions::drawn(s, names, 0).0 + pins(sessions::drawn(s, names, 0).1),
{
    let (d, l) = sessions::drawn(s, names, 0);
    lemma_arranged(s, names, d, l);
    let front = d + pins(l);
    assert forall|k: int| 0 <= k < front.len() implies (#[trigger] front[k]).pinned by {
        if k < d.len() {
            sessions::lemma_drawn(s, names, 0);
            assert(front[k] == d[k]);
        } else {
            lemma_pins(l, k - d.len());
        }
    }
    assert forall|k: int| 0 <= k < others(l).len() implies !(#[trigger] others(l)[k]).pinned by {
        lemma_others(l, k);
    }
    lemma_front(front, others(l));
    assert(d + (pins(l) + others(l)) =~= front + others(l));
}

proof fn lemma_pin_names(l: Seq<SessionView>)
    ensures
        sessions::pinned_names(l) == sessions::names_of(pins(l)),
{
    reveal(pins);
}

proof fn lemma_names_join(a: Seq<SessionView>, b: Seq<SessionView>)
    ensures
        sessions::names_of(a + b) == sessions::names_of(a) + sessions::names_of(b),
{
    assert(sessions::names_of(a + b) =~= sessions::names_of(a) + sessions::names_of(b));
}

/// Arranging puts the pinned sessions that `names` has first, as `names` has them,
/// and then the other pinned sessions in the order that they had.
pub proof fn arranging_follows_names(s: Seq<SessionView>, names: Seq<Seq<char>>)
    requires
        names.no_duplicates(),
        sessions::pinned_names(s).no_duplicates(),
    ensures
        sessions::pinned_names(sessions::arranged(s, names)) == only(names, sessions::pinned_names(s).to_set()) + only(
            sessions::pinned_names(s),
            names.to_set().complement(),
        ),
{
    let (d, l) = sessions::drawn(s, names, 0);
    lemma_pin_names(sessions::arranged(s, names));
    lemma_pin_names(l);
    lemma_arranged_pins(s, names);
    lemma_names_join(d, pins(l));
    lemma_draw_names(s, names, 0);
    assert(names.skip(0) =~= names);
}

proof fn lemma_text_total(a: Seq<char>, b: Seq<char>, i: int)
    requires
        0 <= i <= a.len(),
        i <= b.len(),
        a != b,
        forall|k: int| 0 <= k < i ==> a[k] == b[k],
    ensures
        sessions::text_before(a, b, i) || sessions::text_before(b, a, i),
    decreases a.len() - i,
{
    if i >= a.len() && i >= b.len() {
        assert(a =~= b);
    } else if i < a.len() && i < b.len() && a[i] == b[i] {
        lemma_text_total(a, b, i + 1);
    }
}

/// Of two sessions with different names one has to stand before the other.
pub proof fn order_is_total(a: SessionView, b: SessionView)
    requires
        a.name != b.name,
    ensures
        sessions::before(a, b) || sessions::before(b, a),
{
    reveal(sessions::before);
    lemma_text_total(a.name, b.name, 0);
}

proof fn lemma_same_first(a: Seq<SessionView>, b: Seq<SessionView>)
    requires
        a.len() > 0,
        b.len() > 0,
        sessions::in_order(a),
        sessions::in_order(b),
        a.to_multiset() == b.to_multiset(),
        sessions::names_of(a).no_duplicates(),
    ensures
        a[0] == b[0],
{
    broadcast use vstd::seq_lib::group_to_multiset_ensures;

    if a[0] != b[0] {
        assert(a.contains(a[0]) && b.contains(b[0]));
        assert(a.to_multiset().count(a[0]) > 0);
        assert(b.to_multiset().count(b[0]) > 0);
        assert(b.contains(a[0]));
        assert(a.contains(b[0]));
        let i = a.index_of(b[0]);
        let j = b.index_of(a[0]);
        assert(!sessions::before(a[i], a[0]));
        assert(!sessions::before(b[j], b[0]));
        assert(sessions::names_of(a)[0] != sessions::names_of(a)[i]);
        order_is_total(a[0], b[0]);
    }
}

/// Sessions with different names can stand in the order of their activity in one way only.
pub proof fn order_is_unique(a: Seq<SessionView>, b: Seq<SessionView>)
    requires
        sessions::in_order(a),
        sessions::in_order(b),
        a.to_multiset() == b.to_multiset(),
        sessions::names_of(a).no_duplicates(),
    ensures
        a == b,
    decreases a.len(),
{
    broadcast use vstd::seq_lib::group_to_multiset_ensures;

    assert(a.len() == a.to_multiset().len());
    assert(b.len() == b.to_multiset().len());
    if a.len() > 0 {
        lemma_same_first(a, b);
        let x = a.remove(0);
        let y = b.remove(0);
        assert(a =~= x.insert(0, a[0]));
        assert(b =~= y.insert(0, a[0]));
        assert(x.to_multiset() =~= y.to_multiset());
        assert(sessions::in_order(x)) by {
            assert forall|i: int, j: int| 0 <= i < j < x.len() implies !sessions::before(
                #[trigger] x[j],
                #[trigger] x[i],
            ) by {
                assert(!sessions::before(a[j + 1], a[i + 1]));
            }
        }
        assert(sessions::in_order(y)) by {
            assert forall|i: int, j: int| 0 <= i < j < y.len() implies !sessions::before(
                #[trigger] y[j],
                #[trigger] y[i],
            ) by {
                assert(!sessions::before(b[j + 1], b[i + 1]));
            }
        }
        assert(sessions::names_of(x).no_duplicates()) by {
            assert forall|i: int, j: int| 0 <= i < x.len() && 0 <= j < x.len() && i != j implies sessions::names_of(
                x,
            )[i] != sessions::names_of(x)[j] by {
                assert(sessions::names_of(a)[i + 1] != sessions::names_of(a)[j + 1]);
            }
        }
        order_is_unique(x, y);
    }
}

/// The session at `i` pinned, or no longer pinned, and the sessions in the order that their pins then ask for.
pub open spec fn repinned(s: Seq<SessionView>, i: int) -> Seq<SessionView> {
    let changed = s.update(i, SessionView { pinned: !s[i].pinned, ..s[i] });
    sessions::arranged(changed, sessions::pinned_names(changed))
}

proof fn lemma_by_own_pins(t: Seq<SessionView>, p: Seq<SessionView>, u: Seq<SessionView>)
    requires
        pins(t) == p,
        sessions::unpinned_part(t) == u,
    ensures
        sessions::arranged(t, sessions::pinned_names(t)) == p + sessions::sorted(u),
{
    reveal(pins);
    sessions::arranging_keeps_pin_order(t);
}

proof fn lemma_one_pinned_behind(p: Seq<SessionView>, a: Seq<SessionView>, x: SessionView, b: Seq<SessionView>)
    requires
        forall|k: int| 0 <= k < p.len() ==> (#[trigger] p[k]).pinned,
        forall|k: int| 0 <= k < a.len() ==> !(#[trigger] a[k]).pinned,
        forall|k: int| 0 <= k < b.len() ==> !(#[trigger] b[k]).pinned,
        x.pinned,
    ensures
        pins(p + (a + (seq![x] + b))) == p.push(x),
        sessions::unpinned_part(p + (a + (seq![x] + b))) == a + b,
{
    reveal(pins);
    sessions::lemma_all_pinned(p);
    sessions::lemma_none_pinned(a);
    sessions::lemma_none_pinned(b);
    sessions::lemma_all_pinned(seq![x]);
    sessions::lemma_join(seq![x], b);
    sessions::lemma_join(a, seq![x] + b);
    sessions::lemma_join(p, a + (seq![x] + b));
    let none = Seq::<SessionView>::empty();
    assert(p + (none + (seq![x] + none)) =~= p.push(x));
    assert(none + (a + (none + b)) =~= a + b);
}

/// Pinning the first session of `x` and `b` behind `a` puts it behind the pinned ones.
proof fn lemma_pin(p: Seq<SessionView>, a: Seq<SessionView>, x: SessionView, b: Seq<SessionView>)
    requires
        forall|k: int| 0 <= k < p.len() ==> (#[trigger] p[k]).pinned,
        forall|k: int| 0 <= k < a.len() ==> !(#[trigger] a[k]).pinned,
        forall|k: int| 0 <= k < b.len() ==> !(#[trigger] b[k]).pinned,
        !x.pinned,
        sessions::in_order(a + b),
    ensures
        repinned(p + (a + (seq![x] + b)), (p.len() + a.len()) as int) == p.push(
            (SessionView { pinned: true, ..x }),
        ) + (a + b),
{
    let y = SessionView { pinned: true, ..x };
    let s = p + (a + (seq![x] + b));
    let t = p + (a + (seq![y] + b));
    assert(s.update((p.len() + a.len()) as int, y) =~= t);
    lemma_one_pinned_behind(p, a, y, b);
    lemma_by_own_pins(t, p.push(y), a + b);
    sessions::sorting_keeps_order(a + b);
}

/// Taking the pin from the last of the pinned sessions puts it back to its place among the others.
proof fn lemma_unpin(p: Seq<SessionView>, a: Seq<SessionView>, x: SessionView, b: Seq<SessionView>)
    requires
        forall|k: int| 0 <= k < p.len() ==> (#[trigger] p[k]).pinned,
        forall|k: int| 0 <= k < a.len() ==> !(#[trigger] a[k]).pinned,
        forall|k: int| 0 <= k < b.len() ==> !(#[trigger] b[k]).pinned,
        !x.pinned,
        sessions::in_order(a + (seq![x] + b)),
        sessions::names_of(a + (seq![x] + b)).no_duplicates(),
    ensures
        repinned(p.push((SessionView { pinned: true, ..x })) + (a + b), p.len() as int) == p + (a + (seq![x] + b)),
{
    let y = SessionView { pinned: true, ..x };
    let u = a + (seq![x] + b);
    let v = seq![x] + (a + b);
    assert((p.push(y) + (a + b)).update(p.len() as int, x) =~= p + v);
    lemma_front_and_back(p, v);
    lemma_by_own_pins(p + v, p, v);
    sessions::sorting_orders(v);
    assert(u.to_multiset() =~= v.to_multiset()) by {
        vstd::seq_lib::lemma_multiset_commutative(seq![x], b);
        vstd::seq_lib::lemma_multiset_commutative(a, seq![x] + b);
        vstd::seq_lib::lemma_multiset_commutative(a, b);
        vstd::seq_lib::lemma_multiset_commutative(seq![x], a + b);
    }
    order_is_unique(u, sessions::sorted(v));
}

proof fn lemma_own_pins(p: Seq<SessionView>, u: Seq<SessionView>)
    requires
        forall|k: int| 0 <= k < p.len() ==> (#[trigger] p[k]).pinned,
        forall|k: int| 0 <= k < u.len() ==> !(#[trigger] u[k]).pinned,
    ensures
        sessions::pinned_names(p + u) == sessions::names_of(p),
{
    lemma_front(p, u);
    lemma_pin_names(p + u);
}

proof fn lemma_repinned(p: Seq<SessionView>, a: Seq<SessionView>, x: SessionView, b: Seq<SessionView>)
    requires
        forall|k: int| 0 <= k < p.len() ==> (#[trigger] p[k]).pinned,
        forall|k: int| 0 <= k < a.len() ==> !(#[trigger] a[k]).pinned,
        forall|k: int| 0 <= k < b.len() ==> !(#[trigger] b[k]).pinned,
        !x.pinned,
        sessions::in_order(a + (seq![x] + b)),
        sessions::names_of(a + (seq![x] + b)).no_duplicates(),
    ensures
        ({
            let s = p + (a + (seq![x] + b));
            let once = p.push((SessionView { pinned: true, ..x })) + (a + b);
            &&& repinned(s, (p.len() + a.len()) as int) == once
            &&& repinned(once, p.len() as int) == s
            &&& sessions::pinned_names(s) == sessions::names_of(p)
            &&& sessions::pinned_names(once) == sessions::names_of(p).push(x.name)
        }),
{
    let y = SessionView { pinned: true, ..x };
    let u = a + (seq![x] + b);
    let v = a + b;
    assert(sessions::in_order(v)) by {
        assert forall|i: int, j: int| 0 <= i < j < v.len() implies !sessions::before(
            #[trigger] v[j],
            #[trigger] v[i],
        ) by {
            let i0 = if i < a.len() { i } else { i + 1 };
            let j0 = if j < a.len() { j } else { j + 1 };
            assert(!sessions::before(u[j0], u[i0]));
        }
    }
    lemma_pin(p, a, x, b);
    lemma_unpin(p, a, x, b);
    lemma_own_pins(p, u);
    lemma_own_pins(p.push(y), v);
    assert(sessions::names_of(p.push(y)) =~= sessions::names_of(p).push(x.name));
}

/// Pinning a session makes it the last of the pinned ones, and leaves the others
/// and their order as they were. Taking the pin away again restores all of it.
pub proof fn pinning_can_be_undone(s: Seq<SessionView>, i: int)
    requires
        sessions::is_arranged(s),
        sessions::names_of(s).no_duplicates(),
        0 <= i < s.len(),
        !s[i].pinned,
    ensures
        ({
            let n = sessions::pinned_names(s).len() as int;
            let once = repinned(s, i);
            &&& n <= i
            &&& once == s.remove(i).insert(n, (SessionView { pinned: true, ..s[i] }))
            &&& sessions::pinned_names(once) == sessions::pinned_names(s).push(s[i].name)
            &&& repinned(once, n) == s
        }),
{
    let n = sessions::lemma_arranged_end(s, 0);
    let x = s[i];
    let p = s.take(n);
    let a = s.subrange(n, i);
    let b = s.skip(i + 1);
    let u = a + (seq![x] + b);
    assert(s =~= p + u);
    assert(u =~= s.skip(n));
    assert forall|k: int| 0 <= k < b.len() implies !(#[trigger] b[k]).pinned by {
        assert(b[k] == s[i + 1 + k]);
    }
    assert(sessions::in_order(u)) by {
        assert forall|j: int, k: int| 0 <= j < k < u.len() implies !sessions::before(
            #[trigger] u[k],
            #[trigger] u[j],
        ) by {
            assert(u[j] == s[n + j] && u[k] == s[n + k]);
        }
    }
    assert(sessions::names_of(u).no_duplicates()) by {
        assert forall|j: int, k: int| 0 <= j < u.len() && 0 <= k < u.len() && j != k implies sessions::names_of(
            u,
        )[j] != sessions::names_of(u)[k] by {
            assert(sessions::names_of(s)[n + j] != sessions::names_of(s)[n + k]);
        }
    }
    lemma_repinned(p, a, x, b);
    let y = SessionView { pinned: true, ..x };
    assert(s.remove(i).insert(n, y) =~= p.push(y) + (a + b));
}

} // verus!
