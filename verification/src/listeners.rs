//! The listener registry: who is watching a subject, and who a broadcast
//! reaches.
//!
//! The registry keeps subscriber identities only; the transport layer keeps
//! the matching weak client handles and resolves them at broadcast time. A
//! handle that no longer resolves marks a dead subscriber: the transport
//! reports the dead identities here, `recipients` leaves them out of the
//! delivery set, and `prune` removes them after the iteration — never in
//! its middle. Echo suppression is part of the delivery set itself: the
//! subscriber that caused a change is excluded, so it never receives its
//! own echo.

use vstd::prelude::*;

use crate::ids::ClientId;

verus! {

/// The subscribers of one subject: a project, or one file's source or
/// compiled view.
#[derive(Debug)]
pub struct Registry {
    pub ids: Vec<ClientId>,
}

impl Registry {
    /// Well-formedness: each subscriber is registered at most once.
    /// Constructors establish this and every method preserves it.
    pub open spec fn wf(self) -> bool {
        self.ids@.no_duplicates()
    }

    /// Whether `id` is subscribed.
    pub open spec fn subscribed(self, id: ClientId) -> bool {
        self.ids@.contains(id)
    }

    /// An empty registry.
    pub fn new() -> (r: Registry)
        ensures
            r.wf(),
            r.ids@ =~= Seq::<ClientId>::empty(),
    {
        Registry { ids: Vec::new() }
    }

    /// Whether `id` is subscribed.
    pub fn contains(&self, id: ClientId) -> (r: bool)
        ensures
            r == self.subscribed(id),
    {
        let mut i: usize = 0;
        while i < self.ids.len()
            invariant
                i <= self.ids@.len(),
                forall|k: int| 0 <= k < i ==> self.ids@[k] != id,
            decreases self.ids@.len() - i,
        {
            if self.ids[i] == id {
                return true;
            }
            i = i + 1;
        }
        false
    }

    /// Subscribe `id` and report whether it was new. Re-subscribing an
    /// already-subscribed id is a no-op returning `false`: callers use this
    /// to decide whether an initial full-state push is owed, which only new
    /// subscribers receive.
    pub fn subscribe(&mut self, id: ClientId) -> (is_new: bool)
        requires
            old(self).wf(),
        ensures
            final(self).wf(),
            is_new == !old(self).subscribed(id),
            is_new ==> final(self).ids@ == old(self).ids@.push(id),
            !is_new ==> final(self).ids@ == old(self).ids@,
    {
        if self.contains(id) {
            false
        } else {
            self.ids.push(id);
            true
        }
    }

    /// Unsubscribe `id`; unknown ids are a no-op.
    pub fn unsubscribe(&mut self, id: ClientId)
        requires
            old(self).wf(),
        ensures
            final(self).wf(),
            forall|c: ClientId|
                final(self).subscribed(c) == (old(self).subscribed(c) && c != id),
    {
        let ghost orig = self.ids@;
        let mut kept: Vec<ClientId> = Vec::new();
        let mut i: usize = 0;
        while i < self.ids.len()
            invariant
                self.ids@ == orig,
                orig.no_duplicates(),
                i <= orig.len(),
                kept@.no_duplicates(),
                forall|c: ClientId|
                    kept@.contains(c) == (orig.take(i as int).contains(c) && c != id),
            decreases orig.len() - i,
        {
            let c = self.ids[i];
            let ghost before = kept@;
            if c != id {
                kept.push(c);
            }
            proof {
                if c != id {
                    assert(!before.contains(c)) by {
                        if before.contains(c) {
                            assert(orig.take(i as int).contains(c));
                            let w = choose|w: int| 0 <= w < i && orig.take(i as int)[w] == c;
                            assert(orig[w] == c);
                            assert(orig[i as int] == c);
                        }
                    }
                    assert forall|a: int, b: int|
                        0 <= a < b < kept@.len() implies kept@[a] != kept@[b] by {
                        if b < kept@.len() - 1 {
                            assert(before[a] == kept@[a] && before[b] == kept@[b]);
                        } else {
                            assert(kept@[b] == c);
                            assert(before.contains(before[a]));
                        }
                    }
                }
                assert forall|x: ClientId|
                    kept@.contains(x) == (orig.take(i as int + 1).contains(x) && x != id) by {
                    let t0 = orig.take(i as int);
                    let t1 = orig.take(i as int + 1);
                    assert(t1 =~= t0.push(orig[i as int]));
                    if t1.contains(x) {
                        let w = choose|w: int| 0 <= w < t1.len() && t1[w] == x;
                        if w < i {
                            assert(t0[w] == x);
                            assert(t0.contains(x));
                        }
                    }
                    if t0.contains(x) {
                        let w = choose|w: int| 0 <= w < t0.len() && t0[w] == x;
                        assert(t1[w] == x);
                        assert(t1.contains(x));
                    }
                    if x == orig[i as int] {
                        assert(t1[i as int] == x);
                        assert(t1.contains(x));
                    }
                    if kept@.contains(x) {
                        if !before.contains(x) {
                            assert(kept@.last() == x);
                        }
                    }
                    if before.contains(x) {
                        assert(kept@.contains(x)) by {
                            let w = choose|w: int| 0 <= w < before.len() && before[w] == x;
                            assert(kept@[w] == x);
                        }
                    }
                    if c != id && x == c {
                        assert(kept@.last() == c);
                        assert(kept@.contains(x));
                    }
                }
            }
            i = i + 1;
        }
        proof {
            assert(orig.take(orig.len() as int) =~= orig);
        }
        self.ids = kept;
    }

    /// The delivery set of one broadcast: every subscriber that still
    /// resolves, except the one the change came from. Dead subscribers are
    /// skipped here and removed by `prune` after the iteration.
    pub fn recipients(&self, except: Option<ClientId>, dead: &Vec<ClientId>) -> (r: Vec<ClientId>)
        requires
            self.wf(),
        ensures
            recipients_ok(*self, except, dead@, r@),
    {
        let mut out: Vec<ClientId> = Vec::new();
        let mut i: usize = 0;
        while i < self.ids.len()
            invariant
                self.wf(),
                i <= self.ids@.len(),
                out@.no_duplicates(),
                forall|c: ClientId|
                    out@.contains(c) == (self.ids@.take(i as int).contains(c) && !dead@.contains(c)
                        && Some(c) != except),
            decreases self.ids@.len() - i,
        {
            let c = self.ids[i];
            let is_dead = ids_contain_client(dead, c);
            let skip = match except {
                Some(e) => e == c,
                None => false,
            };
            let ghost before = out@;
            if !is_dead && !skip {
                out.push(c);
            }
            proof {
                if !is_dead && !skip {
                    assert(!before.contains(c)) by {
                        if before.contains(c) {
                            assert(self.ids@.take(i as int).contains(c));
                            let w = choose|w: int| 0 <= w < i && self.ids@.take(i as int)[w] == c;
                            assert(self.ids@[w] == c);
                            assert(self.ids@[i as int] == c);
                        }
                    }
                    assert forall|a: int, b: int|
                        0 <= a < b < out@.len() implies out@[a] != out@[b] by {
                        if b < out@.len() - 1 {
                            assert(before[a] == out@[a] && before[b] == out@[b]);
                        } else {
                            assert(out@[b] == c);
                            assert(before.contains(before[a]));
                        }
                    }
                }
                assert forall|x: ClientId|
                    out@.contains(x) == (self.ids@.take(i as int + 1).contains(x)
                        && !dead@.contains(x) && Some(x) != except) by {
                    let t0 = self.ids@.take(i as int);
                    let t1 = self.ids@.take(i as int + 1);
                    assert(t1 =~= t0.push(self.ids@[i as int]));
                    if t1.contains(x) {
                        let w = choose|w: int| 0 <= w < t1.len() && t1[w] == x;
                        if w < i {
                            assert(t0[w] == x);
                            assert(t0.contains(x));
                        }
                    }
                    if t0.contains(x) {
                        let w = choose|w: int| 0 <= w < t0.len() && t0[w] == x;
                        assert(t1[w] == x);
                        assert(t1.contains(x));
                    }
                    if x == self.ids@[i as int] {
                        assert(t1[i as int] == x);
                        assert(t1.contains(x));
                    }
                    if out@.contains(x) {
                        if !before.contains(x) {
                            assert(out@.last() == x);
                        }
                    }
                    if before.contains(x) {
                        assert(out@.contains(x)) by {
                            let w = choose|w: int| 0 <= w < before.len() && before[w] == x;
                            assert(out@[w] == x);
                        }
                    }
                    if !is_dead && !skip && x == c {
                        assert(out@.last() == c);
                        assert(out@.contains(x));
                    }
                }
            }
            i = i + 1;
        }
        proof {
            assert(self.ids@.take(self.ids@.len() as int) =~= self.ids@);
        }
        out
    }

    /// Remove every subscriber the transport found dead: the designed-in
    /// removal signal for disconnected clients, applied after a broadcast's
    /// iteration completes.
    pub fn prune(&mut self, dead: &Vec<ClientId>)
        requires
            old(self).wf(),
        ensures
            final(self).wf(),
            forall|c: ClientId|
                final(self).subscribed(c) == (old(self).subscribed(c) && !dead@.contains(c)),
    {
        let ghost orig = self.ids@;
        let mut kept: Vec<ClientId> = Vec::new();
        let mut i: usize = 0;
        while i < self.ids.len()
            invariant
                self.ids@ == orig,
                orig.no_duplicates(),
                i <= orig.len(),
                kept@.no_duplicates(),
                forall|c: ClientId|
                    kept@.contains(c) == (orig.take(i as int).contains(c) && !dead@.contains(c)),
            decreases orig.len() - i,
        {
            let c = self.ids[i];
            let ghost before = kept@;
            if !ids_contain_client(dead, c) {
                kept.push(c);
            }
            proof {
                if !dead@.contains(c) {
                    assert(!before.contains(c)) by {
                        if before.contains(c) {
                            assert(orig.take(i as int).contains(c));
                            let w = choose|w: int| 0 <= w < i && orig.take(i as int)[w] == c;
                            assert(orig[w] == c);
                            assert(orig[i as int] == c);
                        }
                    }
                    assert forall|a: int, b: int|
                        0 <= a < b < kept@.len() implies kept@[a] != kept@[b] by {
                        if b < kept@.len() - 1 {
                            assert(before[a] == kept@[a] && before[b] == kept@[b]);
                        } else {
                            assert(kept@[b] == c);
                            assert(before.contains(before[a]));
                        }
                    }
                }
                assert forall|x: ClientId|
                    kept@.contains(x) == (orig.take(i as int + 1).contains(x) && !dead@.contains(
                        x,
                    )) by {
                    let t0 = orig.take(i as int);
                    let t1 = orig.take(i as int + 1);
                    assert(t1 =~= t0.push(orig[i as int]));
                    if t1.contains(x) {
                        let w = choose|w: int| 0 <= w < t1.len() && t1[w] == x;
                        if w < i {
                            assert(t0[w] == x);
                            assert(t0.contains(x));
                        }
                    }
                    if t0.contains(x) {
                        let w = choose|w: int| 0 <= w < t0.len() && t0[w] == x;
                        assert(t1[w] == x);
                        assert(t1.contains(x));
                    }
                    if x == orig[i as int] {
                        assert(t1[i as int] == x);
                        assert(t1.contains(x));
                    }
                    if kept@.contains(x) {
                        if !before.contains(x) {
                            assert(kept@.last() == x);
                        }
                    }
                    if before.contains(x) {
                        assert(kept@.contains(x)) by {
                            let w = choose|w: int| 0 <= w < before.len() && before[w] == x;
                            assert(kept@[w] == x);
                        }
                    }
                    if !dead@.contains(c) && x == c {
                        assert(kept@.last() == c);
                        assert(kept@.contains(x));
                    }
                }
            }
            i = i + 1;
        }
        proof {
            assert(orig.take(orig.len() as int) =~= orig);
        }
        self.ids = kept;
    }
}

/// A correct delivery set for one broadcast: duplicate-free, and holding
/// exactly the live subscribers other than the change's originator.
pub open spec fn recipients_ok(
    reg: Registry,
    except: Option<ClientId>,
    dead: Seq<ClientId>,
    v: Seq<ClientId>,
) -> bool {
    &&& v.no_duplicates()
    &&& forall|c: ClientId|
        v.contains(c) == (reg.subscribed(c) && !dead.contains(c) && Some(c) != except)
}

/// Whether a client id occurs in a list.
fn ids_contain_client(v: &Vec<ClientId>, id: ClientId) -> (r: bool)
    ensures
        r == v@.contains(id),
{
    let mut i: usize = 0;
    while i < v.len()
        invariant
            i <= v@.len(),
            forall|k: int| 0 <= k < i ==> v@[k] != id,
        decreases v@.len() - i,
    {
        if v[i] == id {
            return true;
        }
        i = i + 1;
    }
    false
}

/// Echo suppression, push path: the delivery set of a broadcast for a
/// change caused by `source` never includes `source`, and reaches every
/// other live subscriber.
pub proof fn lemma_broadcast_echo_suppression(
    r: Registry,
    source: ClientId,
    dead: Seq<ClientId>,
    targets: Seq<ClientId>,
)
    requires
        forall|c: ClientId|
            targets.contains(c) == (r.subscribed(c) && !dead.contains(c) && Some(c) != Some(
                source,
            )),
    ensures
        !targets.contains(source),
        forall|c: ClientId|
            r.subscribed(c) && !dead.contains(c) && c != source ==> targets.contains(c),
{
}

} // verus!
