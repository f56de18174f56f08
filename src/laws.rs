use vstd::prelude::*;

use crate::app_event::{EventView, MessageView};
use crate::event::{
    broadcasted, has_name, index_of, joined, lemma_index_of, left, names_unique, polled,
    polled_event, RegistryView,
};

verus! {

/// Joining a name keeps the names unique.
pub proof fn lemma_joined_unique(s: RegistryView, n: Seq<char>)
    requires
        names_unique(s),
    ensures
        names_unique(joined(s, n)),
        has_name(joined(s, n), n),
{
    if !has_name(s, n) {
        let r = joined(s, n);
        assert(r[s.len() as int].0 == n);
        assert forall|i: int, j: int|
            0 <= i < r.len() && 0 <= j < r.len() && i != j implies #[trigger] r[i].0
            != #[trigger] r[j].0 by {
            if i < s.len() && j < s.len() {
                assert(r[i] == s[i] && r[j] == s[j]);
            } else if i < s.len() {
                assert(r[i] == s[i]);
            } else {
                assert(r[j] == s[j]);
            }
        }
    }
}

/// After a leave, the name is no member, the names stay unique, and every
/// other member is still there.
pub proof fn lemma_left(s: RegistryView, n: Seq<char>)
    requires
        names_unique(s),
    ensures
        names_unique(left(s, n)),
        !has_name(left(s, n), n),
        forall|m: Seq<char>| m != n ==> (has_name(left(s, n), m) <==> has_name(s, m)),
{
    if has_name(s, n) {
        let k = index_of(s, n);
        let r = left(s, n);
        assert(r == s.remove(k));
        assert forall|i: int| 0 <= i < r.len() implies #[trigger] r[i] == (if i < k {
            s[i]
        } else {
            s[i + 1]
        }) by {}
        assert forall|i: int, j: int|
            0 <= i < r.len() && 0 <= j < r.len() && i != j implies #[trigger] r[i].0
            != #[trigger] r[j].0 by {
            let a = if i < k { i } else { i + 1 };
            let b = if j < k { j } else { j + 1 };
            assert(r[i] == s[a] && r[j] == s[b]);
        }
        if has_name(r, n) {
            let i = choose|i: int| 0 <= i < r.len() && #[trigger] r[i].0 == n;
            let a = if i < k { i } else { i + 1 };
            assert(r[i] == s[a]);
        }
        assert forall|m: Seq<char>| m != n implies (has_name(r, m) <==> has_name(s, m)) by {
            if has_name(s, m) {
                let j = choose|j: int| 0 <= j < s.len() && #[trigger] s[j].0 == m;
                let i = if j < k { j } else { j - 1 };
                assert(r[i] == s[j]);
            }
            if has_name(r, m) {
                let i = choose|i: int| 0 <= i < r.len() && #[trigger] r[i].0 == m;
                let a = if i < k { i } else { i + 1 };
                assert(r[i] == s[a]);
            }
        }
    }
}

/// A name that is free is accepted; joining it a second time, before it
/// leaves, is refused and changes nothing.
pub proof fn lemma_join_twice(s: RegistryView, n: Seq<char>)
    requires
        names_unique(s),
        !has_name(s, n),
    ensures
        joined(s, n) == s.push((n, Seq::<EventView>::empty())),
        has_name(joined(s, n), n),
        joined(joined(s, n), n) == joined(s, n),
{
    lemma_joined_unique(s, n);
}

/// Once a joined name has left, the name is free again: a second join of it
/// is accepted.
pub proof fn lemma_rejoin_after_leave(s: RegistryView, n: Seq<char>)
    requires
        names_unique(s),
    ensures
        !has_name(left(joined(s, n), n), n),
        joined(left(joined(s, n), n), n) == left(joined(s, n), n).push(
            (n, Seq::<EventView>::empty()),
        ),
{
    lemma_joined_unique(s, n);
    lemma_left(joined(s, n), n);
}

/// A broadcast reaches every member, the sender included: each mailbox keeps
/// what it held and gains exactly one envelope, the message, with the same id,
/// author and content for all. Membership does not change.
pub proof fn lemma_broadcast_reaches_all(s: RegistryView, m: MessageView)
    requires
        names_unique(s),
    ensures
        broadcasted(s, m).len() == s.len(),
        names_unique(broadcasted(s, m)),
        forall|i: int|
            0 <= i < s.len() ==> {
                let e = #[trigger] broadcasted(s, m)[i];
                &&& e.0 == s[i].0
                &&& e.1.len() == s[i].1.len() + 1
                &&& e.1.take(s[i].1.len() as int) == s[i].1
                &&& e.1.last() == EventView::Message(m)
            },
{
    let r = broadcasted(s, m);
    assert forall|i: int| 0 <= i < s.len() implies #[trigger] r[i].1.take(s[i].1.len() as int)
        == s[i].1 by {
        assert(r[i].1.take(s[i].1.len() as int) =~= s[i].1);
    }
}

/// A member whose mailbox is idle gets a heartbeat from each poll, and the
/// poll leaves the registry as it was, so every later poll does the same
/// until a message arrives.
pub proof fn lemma_idle_heartbeat(s: RegistryView, n: Seq<char>)
    requires
        names_unique(s),
        has_name(s, n),
        s[index_of(s, n)].1.len() == 0,
    ensures
        polled_event(s, n) == Some(EventView::Heartbeat),
        polled(s, n) == s,
{
}

/// Polling hands out the envelopes of a mailbox in the order they arrived:
/// after a broadcast of `m`, a poll yields the oldest waiting envelope, or
/// `m` itself if the mailbox was empty.
pub proof fn lemma_fifo(s: RegistryView, m: MessageView, i: int)
    requires
        names_unique(s),
        0 <= i < s.len(),
    ensures
        polled_event(broadcasted(s, m), s[i].0) == Some(
            if s[i].1.len() == 0 {
                EventView::Message(m)
            } else {
                s[i].1[0]
            },
        ),
{
    lemma_broadcast_reaches_all(s, m);
    lemma_index_of(broadcasted(s, m), s[i].0, i);
}

/// The registry after the joins of `ns`, in that order.
pub open spec fn joined_all(s: RegistryView, ns: Seq<Seq<char>>) -> RegistryView
    decreases ns.len(),
{
    if ns.len() == 0 {
        s
    } else {
        joined(joined_all(s, ns.drop_last()), ns.last())
    }
}

/// Joins of pairwise distinct free names, in whatever order they are taken,
/// all succeed: each name gets one entry with an empty mailbox, nothing is
/// lost or doubled, and the registry grows by exactly their number.
pub proof fn lemma_join_distinct(s: RegistryView, ns: Seq<Seq<char>>)
    requires
        names_unique(s),
        forall|a: int, b: int|
            0 <= a < ns.len() && 0 <= b < ns.len() && a != b ==> #[trigger] ns[a] != #[trigger] ns[b],
        forall|k: int| 0 <= k < ns.len() ==> !has_name(s, #[trigger] ns[k]),
    ensures
        joined_all(s, ns) == s + ns.map_values(|n: Seq<char>| (n, Seq::<EventView>::empty())),
        joined_all(s, ns).len() == s.len() + ns.len(),
        names_unique(joined_all(s, ns)),
    decreases ns.len(),
{
    let f = |n: Seq<char>| (n, Seq::<EventView>::empty());
    if ns.len() == 0 {
        assert(s + ns.map_values(f) =~= s);
    } else {
        let p = ns.drop_last();
        let x = ns.last();
        lemma_join_distinct(s, p);
        let r = joined_all(s, p);
        assert(r == s + p.map_values(f));
        if has_name(r, x) {
            let i = choose|i: int| 0 <= i < r.len() && #[trigger] r[i].0 == x;
            if i < s.len() {
                assert(r[i] == s[i]);
                assert(has_name(s, ns[ns.len() - 1]));
            } else {
                assert(r[i] == f(p[i - s.len()]));
                assert(ns[i - s.len()] == ns[ns.len() - 1]);
            }
        }
        lemma_joined_unique(r, x);
        assert(joined_all(s, ns) =~= s + ns.map_values(f));
    }
}

} // verus!
