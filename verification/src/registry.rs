//! The relay's registry of currently-registered device identities: an
//! ordered collection in which an identity appears at most once and
//! every entry is a device. One registry value is shared (behind the
//! caller's lock) by every connection task of the relay.

use vstd::prelude::*;
use crate::messages::ID;

verus! {

/// The registry invariant: every entry is a `Device` and no identity
/// appears twice.
pub open spec fn registry_wf(s: Seq<ID>) -> bool {
    (forall|i: int| 0 <= i < s.len() ==> #[trigger] s[i] is Device) && (forall|i: int, j: int|
        0 <= i < j < s.len() ==> s[i] != s[j])
}

/// What is left after removing the first occurrence of one value.
pub open spec fn remove_first(s: Seq<ID>, x: ID) -> Seq<ID>
    decreases s.len(),
{
    if s.len() == 0 {
        Seq::empty()
    } else if s[0] == x {
        s.drop_first()
    } else {
        seq![s[0]] + remove_first(s.drop_first(), x)
    }
}

/// The entries other than one's own, in registry order.
pub open spec fn others_of(s: Seq<ID>, own: ID) -> Seq<ID>
    decreases s.len(),
{
    if s.len() == 0 {
        Seq::empty()
    } else if s[0] == own {
        others_of(s.drop_first(), own)
    } else {
        seq![s[0]] + others_of(s.drop_first(), own)
    }
}

/// Membership steps through the head of a sequence.
pub proof fn lemma_contains_step(s: Seq<ID>, y: ID)
    requires
        s.len() > 0,
    ensures
        s.contains(y) <==> (s[0] == y || s.drop_first().contains(y)),
{
    if s.contains(y) {
        let i = choose|i: int| 0 <= i < s.len() && s[i] == y;
        if i > 0 {
            assert(s.drop_first()[i - 1] == y);
        }
    }
    if s.drop_first().contains(y) {
        let i = choose|i: int| 0 <= i < s.drop_first().len() && s.drop_first()[i] == y;
        assert(s[i + 1] == y);
    }
}

/// Removing one value keeps the invariant, removes that value, leaves
/// every other value's membership alone, and shortens the sequence by
/// one exactly when the value was there.
pub proof fn lemma_remove_first(s: Seq<ID>, x: ID)
    requires
        registry_wf(s),
    ensures
        registry_wf(remove_first(s, x)),
        !remove_first(s, x).contains(x),
        s.contains(x) ==> remove_first(s, x).len() == s.len() - 1,
        !s.contains(x) ==> remove_first(s, x) == s,
        forall|y: ID| y != x ==> remove_first(s, x).contains(y) == s.contains(y),
    decreases s.len(),
{
    lemma_wf_drop_first(s);
    if s.len() == 0 {
        assert(remove_first(s, x) =~= s);
        assert forall|y: ID| y != x implies remove_first(s, x).contains(y) == s.contains(y) by {}
    } else if s[0] == x {
        lemma_contains_step(s, x);
        assert(s.contains(x));
        if s.drop_first().contains(x) {
            let i = choose|i: int|
                0 <= i < s.drop_first().len() && s.drop_first()[i] == x;
            assert(s[i + 1] == s[0]);
            assert(false);
        }
        assert forall|y: ID| y != x implies remove_first(s, x).contains(y) == s.contains(y) by {
            lemma_contains_step(s, y);
        }
    } else {
        lemma_remove_first(s.drop_first(), x);
        let r = seq![s[0]] + remove_first(s.drop_first(), x);
        assert(remove_first(s, x) == r);
        assert(r.drop_first() =~= remove_first(s.drop_first(), x));
        lemma_contains_step(s, x);
        assert forall|i: int| 0 <= i < r.len() implies #[trigger] r[i] is Device by {
            if i > 0 {
                assert(r[i] == remove_first(s.drop_first(), x)[i - 1]);
            }
        }
        assert forall|i: int, j: int| 0 <= i < j < r.len() implies r[i] != r[j] by {
            if i == 0 {
                assert(r[j] == remove_first(s.drop_first(), x)[j - 1]);
                assert(remove_first(s.drop_first(), x).contains(r[j]));
                if s[0] == r[j] {
                    if r[j] == x {
                        assert(!remove_first(s.drop_first(), x).contains(x));
                        assert(false);
                    } else {
                        assert(s.drop_first().contains(r[j]));
                        let k = choose|k: int|
                            0 <= k < s.drop_first().len() && s.drop_first()[k] == r[j];
                        assert(s[k + 1] == s[0]);
                        assert(false);
                    }
                }
            } else {
                assert(r[i] == remove_first(s.drop_first(), x)[i - 1]);
                assert(r[j] == remove_first(s.drop_first(), x)[j - 1]);
            }
        }
        lemma_contains_step(r, x);
        if !s.contains(x) {
            assert(remove_first(s, x) =~= s);
        }
        assert forall|y: ID| y != x implies remove_first(s, x).contains(y) == s.contains(y) by {
            lemma_contains_step(s, y);
            lemma_contains_step(r, y);
        }
    }
}

/// The invariant carries over to the tail of a sequence.
proof fn lemma_wf_drop_first(s: Seq<ID>)
    requires
        registry_wf(s),
        s.len() > 0 ==> true,
    ensures
        s.len() > 0 ==> registry_wf(s.drop_first()),
{
    if s.len() > 0 {
        let t = s.drop_first();
        assert forall|i: int| 0 <= i < t.len() implies #[trigger] t[i] is Device by {
            assert(t[i] == s[i + 1]);
        }
        assert forall|i: int, j: int| 0 <= i < j < t.len() implies t[i] != t[j] by {
            assert(t[i] == s[i + 1] && t[j] == s[j + 1]);
        }
    }
}

/// What `others_of` holds: never one's own identity, exactly the other
/// members, without duplicates when the input had none.
pub proof fn lemma_others_of(s: Seq<ID>, own: ID)
    requires
        registry_wf(s),
    ensures
        registry_wf(others_of(s, own)),
        !others_of(s, own).contains(own),
        forall|y: ID| y != own ==> others_of(s, own).contains(y) == s.contains(y),
        !s.contains(own) ==> others_of(s, own) == s,
        others_of(s, own).len() <= s.len(),
    decreases s.len(),
{
    lemma_wf_drop_first(s);
    if s.len() == 0 {
        assert(others_of(s, own) =~= s);
    } else {
        lemma_others_of(s.drop_first(), own);
        lemma_contains_step(s, own);
        if s[0] == own {
            assert forall|y: ID| y != own implies others_of(s, own).contains(y) == s.contains(
                y,
            ) by {
                lemma_contains_step(s, y);
            }
        } else {
            let r = seq![s[0]] + others_of(s.drop_first(), own);
            assert(others_of(s, own) == r);
            assert(r.drop_first() =~= others_of(s.drop_first(), own));
            lemma_contains_step(r, own);
            assert forall|i: int| 0 <= i < r.len() implies #[trigger] r[i] is Device by {
                if i > 0 {
                    assert(r[i] == others_of(s.drop_first(), own)[i - 1]);
                }
            }
            assert forall|i: int, j: int| 0 <= i < j < r.len() implies r[i] != r[j] by {
                if i == 0 {
                    assert(r[j] == others_of(s.drop_first(), own)[j - 1]);
                    assert(others_of(s.drop_first(), own).contains(r[j]));
                    if s[0] == r[j] {
                        assert(s.drop_first().contains(r[j]));
                        let k = choose|k: int|
                            0 <= k < s.drop_first().len() && s.drop_first()[k] == r[j];
                        assert(s[k + 1] == s[0]);
                        assert(false);
                    }
                } else {
                    assert(r[i] == others_of(s.drop_first(), own)[i - 1]);
                    assert(r[j] == others_of(s.drop_first(), own)[j - 1]);
                }
            }
            if !s.contains(own) {
                assert(others_of(s.drop_first(), own) == s.drop_first());
                assert(others_of(s, own) =~= s);
            }
            assert forall|y: ID| y != own implies others_of(s, own).contains(y) == s.contains(
                y,
            ) by {
                lemma_contains_step(s, y);
                lemma_contains_step(r, y);
            }
        }
    }
}

/// `others_of` over a sequence grown by one entry at the end.
pub proof fn lemma_others_of_snoc(s: Seq<ID>, own: ID, y: ID)
    ensures
        others_of(s.push(y), own) == (if y == own {
            others_of(s, own)
        } else {
            others_of(s, own).push(y)
        }),
    decreases s.len(),
{
    if s.len() == 0 {
        reveal_with_fuel(others_of, 3);
        assert(s.push(y)[0] == y);
        assert(s.push(y).drop_first() =~= Seq::<ID>::empty());
        if y == own {
            assert(others_of(s.push(y), own) =~= others_of(s, own));
        } else {
            assert(others_of(s.push(y), own) =~= others_of(s, own).push(y));
        }
    } else {
        assert(s.push(y).drop_first() =~= s.drop_first().push(y));
        assert(s.push(y)[0] == s[0]);
        lemma_others_of_snoc(s.drop_first(), own, y);
        if y == own {
            assert(others_of(s.push(y), own) =~= others_of(s, own));
        } else if s[0] == own {
            assert(others_of(s.push(y), own) =~= others_of(s, own).push(y));
        } else {
            assert(others_of(s.push(y), own) =~= others_of(s, own).push(y));
        }
    }
}

/// The registry itself: the ordered collection the relay shares.
pub struct Registry {
    ids: Vec<ID>,
}

impl View for Registry {
    type V = Seq<ID>;

    closed spec fn view(&self) -> Seq<ID> {
        self.ids@
    }
}

impl Registry {
    pub open spec fn wf(&self) -> bool {
        registry_wf(self@)
    }

    /// An empty registry, made once at server start.
    pub fn new() -> (r: Registry)
        ensures
            r@ == Seq::<ID>::empty(),
            r.wf(),
    {
        let r = Registry { ids: Vec::new() };
        proof {
            assert(r@ =~= Seq::<ID>::empty());
        }
        r
    }

    pub fn len(&self) -> (r: usize)
        ensures
            r == self@.len(),
    {
        self.ids.len()
    }

    /// Whether an identity is currently registered.
    pub fn contains(&self, id: &ID) -> (r: bool)
        ensures
            r == self@.contains(*id),
    {
        let mut i: usize = 0;
        while i < self.ids.len()
            invariant
                i <= self@.len(),
                forall|k: int| 0 <= k < i ==> self@[k] != *id,
            decreases self@.len() - i,
        {
            if self.ids[i] == *id {
                return true;
            }
            i += 1;
        }
        false
    }

    /// Append a freshly minted device identity. Nothing happens — and
    /// `false` comes back — if the identity is not a device or is
    /// already present, so the invariant holds over every sequence of
    /// operations.
    pub fn register(&mut self, id: ID) -> (r: bool)
        requires
            old(self).wf(),
        ensures
            final(self).wf(),
            r == (id is Device && !old(self)@.contains(id)),
            r ==> final(self)@ == old(self)@.push(id),
            !r ==> final(self)@ == old(self)@,
    {
        let is_device = match id {
            ID::Device(_) => true,
            _ => false,
        };
        if !is_device || self.contains(&id) {
            return false;
        }
        let ghost before = self@;
        self.ids.push(id);
        proof {
            assert(self@ =~= before.push(id));
            assert forall|i: int| 0 <= i < self@.len() implies #[trigger] self@[i] is Device by {
                if i < before.len() {
                    assert(self@[i] == before[i]);
                }
            }
            assert forall|i: int, j: int| 0 <= i < j < self@.len() implies self@[i]
                != self@[j] by {
                if j == before.len() {
                    assert(before.contains(before[i]) == false || true);
                    assert(self@[i] == before[i]);
                    if self@[i] == id {
                        assert(before.contains(id));
                        assert(false);
                    }
                }
            }
        }
        true
    }

    /// Remove one identity, for a close. Yields `false` — and leaves
    /// the registry alone — when the identity is not there.
    pub fn close(&mut self, id: &ID) -> (r: bool)
        requires
            old(self).wf(),
        ensures
            final(self).wf(),
            r == old(self)@.contains(*id),
            final(self)@ == remove_first(old(self)@, *id),
            !final(self)@.contains(*id),
    {
        proof {
            lemma_remove_first(self@, *id);
        }
        let ghost before = self@;
        let mut i: usize = 0;
        while i < self.ids.len()
            invariant
                i <= self@.len(),
                self@ == before,
                before == old(self)@,
                registry_wf(before),
                !remove_first(before, *id).contains(*id),
                registry_wf(remove_first(before, *id)),
                forall|k: int| 0 <= k < i ==> before[k] != *id,
            decreases self@.len() - i,
        {
            if self.ids[i] == *id {
                self.ids.remove(i);
                proof {
                    lemma_remove_at_is_remove_first(before, *id, i as int);
                }
                return true;
            }
            i += 1;
        }
        proof {
            assert(!before.contains(*id));
        }
        false
    }

    /// The registered identities other than one's own, in order.
    pub fn others(&self, own: &ID) -> (r: Vec<ID>)
        ensures
            r@ == others_of(self@, *own),
    {
        let mut out: Vec<ID> = Vec::new();
        let mut i: usize = 0;
        while i < self.ids.len()
            invariant
                i <= self@.len(),
                out@ == others_of(self@.take(i as int), *own),
            decreases self@.len() - i,
        {
            proof {
                assert(self@.take(i + 1) =~= self@.take(i as int).push(self@[i as int]));
                lemma_others_of_snoc(self@.take(i as int), *own, self@[i as int]);
            }
            if self.ids[i] != *own {
                out.push(self.ids[i]);
            }
            i += 1;
        }
        proof {
            assert(self@.take(self@.len() as int) =~= self@);
        }
        out
    }
}

/// Removing by position, at the first position holding a value, is
/// removing the first occurrence of that value.
pub proof fn lemma_remove_at_is_remove_first(s: Seq<ID>, x: ID, i: int)
    requires
        0 <= i < s.len(),
        s[i] == x,
        forall|k: int| 0 <= k < i ==> s[k] != x,
    ensures
        s.remove(i) == remove_first(s, x),
    decreases i,
{
    if i == 0 {
        assert(s.remove(0) =~= s.drop_first());
    } else {
        lemma_remove_at_is_remove_first(s.drop_first(), x, i - 1);
        assert(s.drop_first()[i - 1] == x);
        assert(s.remove(i) =~= seq![s[0]] + s.drop_first().remove(i - 1));
    }
}

/// Removing a value that is not there changes nothing. This needs no
/// invariant on the sequence.
pub proof fn lemma_remove_first_absent(s: Seq<ID>, x: ID)
    requires
        !s.contains(x),
    ensures
        remove_first(s, x) == s,
    decreases s.len(),
{
    if s.len() == 0 {
        assert(remove_first(s, x) =~= s);
    } else {
        lemma_contains_step(s, x);
        lemma_remove_first_absent(s.drop_first(), x);
        assert(remove_first(s, x) =~= s);
    }
}

} // verus!
