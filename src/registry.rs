//! The insertion-ordered table of live connections.

use vstd::prelude::*;

verus! {

/// One registered connection: its identity and the handle it is written through.
pub struct Conn<H> {
    pub id: u64,
    pub handle: H,
}

/// Some entry of `s` carries identity `id`.
pub open spec fn listed<H>(s: Seq<Conn<H>>, id: u64) -> bool {
    exists|i: int| 0 <= i < s.len() && s[i].id == id
}

/// No identity appears twice in `s`.
pub open spec fn distinct_ids<H>(s: Seq<Conn<H>>) -> bool {
    forall|i: int, j: int| 0 <= i < s.len() && 0 <= j < s.len() && i != j ==> s[i].id != s[j].id
}

/// `s` with every entry whose identity is in `gone` taken out, order kept.
pub open spec fn without<H>(s: Seq<Conn<H>>, gone: Set<u64>) -> Seq<Conn<H>> {
    s.filter(|c: Conn<H>| !gone.contains(c.id))
}

/// The identities of `s`, in order.
pub open spec fn ids_of<H>(s: Seq<Conn<H>>) -> Seq<u64> {
    s.map_values(|c: Conn<H>| c.id)
}

/// Removing identities that `s` does not hold leaves `s` as it is.
pub proof fn lemma_without_unlisted<H>(s: Seq<Conn<H>>, gone: Set<u64>)
    requires
        forall|i: int| 0 <= i < s.len() ==> !gone.contains(#[trigger] s[i].id),
    ensures
        without(s, gone) == s,
    decreases s.len(),
{
    if s.len() > 0 {
        let p = |c: Conn<H>| !gone.contains(c.id);
        lemma_without_unlisted(s.drop_last(), gone);
        assert(s.drop_last().push(s.last()) =~= s);
        s.drop_last().lemma_filter_push(s.last(), p);
    }
}

/// Every entry of `without(s, gone)` is an entry of `s` whose identity is not in `gone`,
/// and every such entry of `s` stays.
pub proof fn lemma_without_members<H>(s: Seq<Conn<H>>, gone: Set<u64>)
    ensures
        forall|c: Conn<H>|
            #[trigger] without(s, gone).contains(c) <==> (s.contains(c) && !gone.contains(c.id)),
{
    broadcast use vstd::seq_lib::group_filter_ensures;

    let p = |c: Conn<H>| !gone.contains(c.id);
    assert forall|c: Conn<H>| #[trigger] without(s, gone).contains(c) <==> (s.contains(c) && !gone.contains(c.id)) by {
        if without(s, gone).contains(c) {
            s.lemma_filter_contains_rev(p, c);
            let k = choose|k: int| 0 <= k < without(s, gone).len() && without(s, gone)[k] == c;
            assert(p(without(s, gone)[k]));
        }
        if s.contains(c) && !gone.contains(c.id) {
            let k = choose|k: int| 0 <= k < s.len() && s[k] == c;
            s.lemma_filter_contains(p, k);
        }
    }
}

/// Taking identities out keeps the remaining identities distinct.
pub proof fn lemma_without_distinct<H>(s: Seq<Conn<H>>, gone: Set<u64>)
    requires
        distinct_ids(s),
    ensures
        distinct_ids(without(s, gone)),
    decreases s.len(),
{
    if s.len() > 0 {
        let p = |c: Conn<H>| !gone.contains(c.id);
        let t = s.drop_last();
        lemma_without_distinct(t, gone);
        assert(t.push(s.last()) =~= s);
        t.lemma_filter_push(s.last(), p);
        if p(s.last()) {
            lemma_without_members(t, gone);
            let w = without(t, gone);
            assert forall|i: int| 0 <= i < w.len() implies w[i].id != s.last().id by {
                assert(w.contains(w[i]));
                let k = choose|k: int| 0 <= k < t.len() && t[k] == w[i];
                assert(s[k] == t[k]);
            }
        }
    }
}

/// Taking out a single identity that `s` holds once shortens `s` by one.
pub proof fn lemma_without_listed_len<H>(s: Seq<Conn<H>>, id: u64)
    requires
        distinct_ids(s),
        listed(s, id),
    ensures
        without(s, set![id]).len() == s.len() - 1,
    decreases s.len(),
{
    let p = |c: Conn<H>| !set![id].contains(c.id);
    let t = s.drop_last();
    assert(t.push(s.last()) =~= s);
    t.lemma_filter_push(s.last(), p);
    if s.last().id == id {
        assert forall|i: int| 0 <= i < t.len() implies !set![id].contains(#[trigger] t[i].id) by {
            assert(s[i] == t[i]);
        }
        lemma_without_unlisted(t, set![id]);
    } else {
        let i = choose|i: int| 0 <= i < s.len() && s[i].id == id;
        assert(t[i] == s[i]);
        lemma_without_listed_len(t, id);
    }
}


/// Live connections keyed by identity, in the order they registered.
pub struct Registry<H> {
    entries: Vec<Conn<H>>,
}

impl<H> View for Registry<H> {
    type V = Seq<Conn<H>>;

    closed spec fn view(&self) -> Seq<Conn<H>> {
        self.entries@
    }
}

impl<H> Registry<H> {
    /// Every identity is registered at most once.
    pub open spec fn wf(&self) -> bool {
        distinct_ids(self@)
    }

    /// An empty registry.
    pub fn new() -> (r: Self)
        ensures
            r@ == Seq::<Conn<H>>::empty(),
            r.wf(),
    {
        Registry { entries: Vec::new() }
    }

    /// The number of registered connections.
    pub fn len(&self) -> (r: usize)
        ensures
            r == self@.len(),
    {
        self.entries.len()
    }

    /// Position of `id` in the table, if registered.
    fn position(&self, id: u64) -> (r: Option<usize>)
        ensures
            r matches Some(i) ==> i < self@.len() && self@[i as int].id == id,
            r is None ==> !listed(self@, id),
    {
        let mut i: usize = 0;
        while i < self.entries.len()
            invariant
                i <= self.entries@.len(),
                forall|k: int| 0 <= k < i ==> self.entries@[k].id != id,
            decreases self.entries@.len() - i,
        {
            if self.entries[i].id == id {
                return Some(i);
            }
            i = i + 1;
        }
        None
    }

    /// Whether `id` is registered.
    pub fn contains(&self, id: u64) -> (r: bool)
        ensures
            r == listed(self@, id),
    {
        self.position(id).is_some()
    }

    /// The registered identities, in registration order.
    pub fn ids(&self) -> (r: Vec<u64>)
        ensures
            r@ == ids_of(self@),
    {
        let mut r: Vec<u64> = Vec::new();
        let mut i: usize = 0;
        while i < self.entries.len()
            invariant
                i <= self.entries@.len(),
                r@.len() == i,
                forall|k: int| 0 <= k < i ==> r@[k] == self.entries@[k].id,
            decreases self.entries@.len() - i,
        {
            r.push(self.entries[i].id);
            i = i + 1;
        }
        assert(r@ =~= ids_of(self@));
        r
    }

    /// The handle registered under `id`, if any.
    pub fn handle_of(&self, id: u64) -> (r: Option<&H>)
        ensures
            r is Some == listed(self@, id),
            r matches Some(h) ==> self@.contains((Conn { id, handle: *h })),
    {
        match self.position(id) {
            Some(i) => {
                let c = &self.entries[i];
                assert(self@[i as int] == (Conn { id, handle: c.handle }));
                Some(&c.handle)
            },
            None => None,
        }
    }

    /// Adds a connection under a fresh identity, after all present ones.
    pub fn register(&mut self, id: u64, handle: H)
        requires
            old(self).wf(),
            !listed(old(self)@, id),
        ensures
            final(self).wf(),
            final(self)@ == old(self)@.push((Conn { id, handle })),
    {
        self.entries.push(Conn { id, handle });
    }

    /// Removes `id` and hands back its handle; `None`, with nothing changed, when absent.
    pub fn take(&mut self, id: u64) -> (r: Option<H>)
        requires
            old(self).wf(),
        ensures
            final(self).wf(),
            final(self)@ == without(old(self)@, set![id]),
            r is Some == listed(old(self)@, id),
            r matches Some(h) ==> old(self)@.contains((Conn { id, handle: h })),
    {
        proof {
            lemma_without_distinct(self@, set![id]);
        }
        match self.position(id) {
            None => {
                proof {
                    lemma_without_unlisted(self@, set![id]);
                }
                None
            },
            Some(i) => {
                let ghost s = self@;
                let ghost a = s.subrange(0, i as int);
                let ghost b = s.subrange(i as int + 1, s.len() as int);
                let c = self.entries.remove(i);
                proof {
                    let p = |c: Conn<H>| !set![id].contains(c.id);
                    assert(s =~= a + seq![c] + b);
                    assert(self@ =~= a + b);
                    assert forall|k: int| 0 <= k < a.len() implies !set![id].contains(#[trigger] a[k].id) by {
                        assert(a[k] == s[k]);
                    }
                    assert forall|k: int| 0 <= k < b.len() implies !set![id].contains(#[trigger] b[k].id) by {
                        assert(b[k] == s[k + i + 1]);
                    }
                    lemma_without_unlisted(a, set![id]);
                    lemma_without_unlisted(b, set![id]);
                    Seq::<Conn<H>>::empty().lemma_filter_push(c, p);
                    assert(seq![c] =~= Seq::<Conn<H>>::empty().push(c));
                    assert(Seq::<Conn<H>>::empty().filter(p) =~= Seq::<Conn<H>>::empty()) by {
                        reveal(Seq::filter);
                    }
                    Seq::filter_distributes_over_add(a + seq![c], b, p);
                    Seq::filter_distributes_over_add(a, seq![c], p);
                    assert(a.filter(p) + seq![c].filter(p) =~= a);
                    assert(s[i as int] == c);
                }
                Some(c.handle)
            },
        }
    }

    /// Removes `id` if registered and says whether it was; a second call is a no-op.
    pub fn unregister(&mut self, id: u64) -> (r: bool)
        requires
            old(self).wf(),
        ensures
            final(self).wf(),
            final(self)@ == without(old(self)@, set![id]),
            r == listed(old(self)@, id),
    {
        self.take(id).is_some()
    }

    /// Removes every connection whose identity is in `gone`, keeping the order of the rest.
    pub fn drop_all(&mut self, gone: &Vec<u64>)
        requires
            old(self).wf(),
        ensures
            final(self).wf(),
            final(self)@ == without(old(self)@, gone@.to_set()),
    {
        let ghost s = self@;
        let ghost g = gone@.to_set();
        let ghost p = |c: Conn<H>| !g.contains(c.id);
        let mut rest: Vec<Conn<H>> = Vec::new();
        std::mem::swap(&mut self.entries, &mut rest);
        let ghost k: int = 0;
        while rest.len() > 0
            invariant
                0 <= k <= s.len(),
                rest@ == s.subrange(k, s.len() as int),
                self.entries@ == s.subrange(0, k).filter(p),
                g == gone@.to_set(),
                p == (|c: Conn<H>| !g.contains(c.id)),
            decreases rest@.len(),
        {
            let c = rest.remove(0);
            proof {
                assert(s.subrange(0, k).push(c) =~= s.subrange(0, k + 1));
                s.subrange(0, k).lemma_filter_push(c, p);
                assert(rest@ =~= s.subrange(k + 1, s.len() as int));
                k = k + 1;
            }
            let mut hit = false;
            let mut j: usize = 0;
            while j < gone.len()
                invariant
                    j <= gone@.len(),
                    hit == exists|m: int| 0 <= m < j && gone@[m] == c.id,
                decreases gone@.len() - j,
            {
                if gone[j] == c.id {
                    hit = true;
                }
                j = j + 1;
            }
            if !hit {
                self.entries.push(c);
            }
        }
        proof {
            assert(s.subrange(0, s.len() as int) =~= s);
            lemma_without_distinct(s, g);
        }
    }
}

} // verus!
