//! The bind table: a fixed `name -> channel-pair` map owned by the nameserver.
//!
//! A channel is unidirectional, so a request/reply runs over a *pair*: the
//! client sends on the server's inbound channel and receives on its outbound
//! channel.  A bind entry therefore stores the pair, not one handle.
//!
//! A linear scan over `NENT` entries (no hash, no tree).

use vstd::prelude::*;
use crate::bytes::{bytes_eq, prefix};

verus! {

/// A channel pair: the server's inbound channel (clients send here) and
/// outbound channel (clients receive the reply here).
#[derive(Clone, Copy, Debug, PartialEq, Eq, Structural)]
pub struct Pair {
    pub in_h: u32,
    pub out_h: u32,
}

/// The result codes a nameserver reply carries in its opcode.
pub const R_OK: u16 = 0;
pub const R_ENOENT: u16 = 1;
pub const R_EFULL: u16 = 2;

/// A name's maximum length: 32 covers `/dev/console` and friends with room.
pub const NAME_MAX: usize = 32;
/// The bind table's size: a server's bind set is tiny, so a fixed number of
/// slots.
pub const NENT: usize = 8;

/// A bind-table entry: a name and the channel pair bound to it.
#[derive(Debug)]
struct Entry {
    name: Vec<u8>,
    pair: Pair,
    used: bool,
}

/// The bind table: a fixed `name -> channel-pair` map.
#[derive(Debug)]
pub struct BindTable {
    entries: Vec<Entry>,
}

/// The name `bind` stores for `name`: at most `NAME_MAX` bytes of it.
pub open spec fn stored_name(name: Seq<u8>) -> Seq<u8> {
    if name.len() <= NAME_MAX {
        name
    } else {
        name.subrange(0, NAME_MAX as int)
    }
}

/// The number of slots of `s` that hold a binding.
spec fn used_in(s: Seq<Entry>) -> nat
    decreases s.len(),
{
    if s.len() == 0 {
        0
    } else {
        used_in(s.drop_last()) + if s.last().used {
            1nat
        } else {
            0nat
        }
    }
}

/// No slot holds a binding: the count is zero.
proof fn lemma_used_in_none(s: Seq<Entry>)
    requires
        forall|i: int| 0 <= i < s.len() ==> !(#[trigger] s[i]).used,
    ensures
        used_in(s) == 0,
    decreases s.len(),
{
    if s.len() > 0 {
        lemma_used_in_none(s.drop_last());
    }
}

/// Overwriting one slot changes the count by that slot alone.
proof fn lemma_used_in_update(s: Seq<Entry>, j: int, x: Entry)
    requires
        0 <= j < s.len(),
    ensures
        used_in(s.update(j, x)) + (if s[j].used {
            1int
        } else {
            0int
        }) == used_in(s) + (if x.used {
            1int
        } else {
            0int
        }),
    decreases s.len(),
{
    let u = s.update(j, x);
    if j == s.len() - 1 {
        assert(u.drop_last() =~= s.drop_last());
    } else {
        assert(u.drop_last() =~= s.drop_last().update(j, x));
        lemma_used_in_update(s.drop_last(), j, x);
    }
}

impl BindTable {
    /// The number of slots that hold a binding.
    pub closed spec fn used_slots(&self) -> nat {
        used_in(self.entries@)
    }

    /// Slot `i` holds a binding.
    spec fn used_at(&self, i: int) -> bool {
        self.entries@[i].used
    }

    /// Slot `i` holds a binding for `k`.
    spec fn binds_at(&self, i: int, k: Seq<u8>) -> bool {
        0 <= i < self.entries@.len() && self.entries@[i].used && self.entries@[i].name@ == k
    }

    /// The table's invariant: a fixed number of slots, stored names within
    /// the bound, and no name bound twice.
    pub closed spec fn wf(&self) -> bool {
        &&& self.entries@.len() == NENT
        &&& forall|i: int|
            0 <= i < NENT && #[trigger] self.used_at(i) ==> self.entries@[i].name@.len() <= NAME_MAX
        &&& forall|i: int, j: int|
            0 <= i < NENT && 0 <= j < NENT && i != j && #[trigger] self.used_at(i)
                && #[trigger] self.used_at(j) ==> self.entries@[i].name@ != self.entries@[j].name@
    }

    /// Every slot holds a binding.
    pub closed spec fn is_full(&self) -> bool {
        forall|i: int| 0 <= i < NENT ==> #[trigger] self.used_at(i)
    }

    /// The bindings, as a map from name to pair.
    pub closed spec fn bindings(&self) -> Map<Seq<u8>, Pair> {
        Map::new(
            |k: Seq<u8>| exists|i: int| #[trigger] self.binds_at(i, k),
            |k: Seq<u8>| self.entries@[choose|i: int| #[trigger] self.binds_at(i, k)].pair,
        )
    }

    proof fn lemma_binding_at(&self, i: int)
        requires
            self.wf(),
            0 <= i < NENT,
            self.entries@[i].used,
        ensures
            self.bindings().dom().contains(self.entries@[i].name@),
            self.bindings()[self.entries@[i].name@] == self.entries@[i].pair,
    {
        let k = self.entries@[i].name@;
        assert(self.binds_at(i, k));
        let j = choose|j: int| #[trigger] self.binds_at(j, k);
        assert(self.used_at(i) && self.used_at(j));
    }

    pub fn new() -> (r: Self)
        ensures
            r.wf(),
            r.bindings() == Map::<Seq<u8>, Pair>::empty(),
            !r.is_full(),
            r.used_slots() == 0,
    {
        let mut entries: Vec<Entry> = Vec::new();
        let mut i: usize = 0;
        while i < NENT
            invariant
                i <= NENT,
                entries@.len() == i,
                forall|j: int| 0 <= j < i ==> !(#[trigger] entries@[j]).used,
            decreases NENT - i,
        {
            entries.push(Entry { name: Vec::new(), pair: Pair { in_h: 0, out_h: 0 }, used: false });
            i = i + 1;
        }
        let r = Self { entries };
        proof {
            lemma_used_in_none(r.entries@);
        }
        assert(!r.used_at(0));
        assert(r.bindings() =~= Map::<Seq<u8>, Pair>::empty());
        r
    }

    /// `BIND`: add or replace the entry for `name` with `pair`.  Returns
    /// [`R_OK`], or [`R_EFULL`] if the table is full with no free slot.
    pub fn bind(&mut self, name: &[u8], pair: Pair) -> (r: u16)
        requires
            old(self).wf(),
        ensures
            final(self).wf(),
            old(self).bindings().dom().contains(stored_name(name@)) || !old(self).is_full() ==> {
                &&& r == R_OK
                &&& final(self).bindings() == old(self).bindings().insert(stored_name(name@), pair)
            },
            old(self).bindings().dom().contains(stored_name(name@)) ==> (final(self).is_full()
                <==> old(self).is_full()) && final(self).used_slots() == old(self).used_slots(),
            !old(self).bindings().dom().contains(stored_name(name@)) && !old(self).is_full()
                ==> final(self).used_slots() == old(self).used_slots() + 1,
            !old(self).bindings().dom().contains(stored_name(name@)) && old(self).is_full()
                ==> final(self).used_slots() == old(self).used_slots(),
            !old(self).bindings().dom().contains(stored_name(name@)) && old(self).is_full() ==> {
                &&& r == R_EFULL
                &&& final(self).bindings() == old(self).bindings()
                &&& final(self).is_full()
            },
    {
        let namelen = if name.len() < NAME_MAX {
            name.len()
        } else {
            NAME_MAX
        };
        let key = prefix(name, namelen);
        let ghost k = key@;
        assert(k == stored_name(name@));
        assert(k.len() <= NAME_MAX);
        // Replace an existing entry for the same name in place.
        let mut i: usize = 0;
        while i < NENT
            invariant
                self.wf(),
                self == old(self),
                i <= NENT,
                key@ == k,
                k == stored_name(name@),
                k.len() <= NAME_MAX,
                forall|j: int| 0 <= j < i ==> !#[trigger] self.binds_at(j, k),
            decreases NENT - i,
        {
            if self.entries[i].used && bytes_eq(self.entries[i].name.as_slice(), key.as_slice()) {
                proof {
                    self.lemma_binding_at(i as int);
                }
                let ghost before = *self;
                let e = Entry { name: key, pair, used: true };
                assert(e.name@ == k);
                self.entries.set(i, e);
                assert(self.entries@[i as int] == e);
                proof {
                    lemma_used_in_update(before.entries@, i as int, e);
                    assert(self.entries@ == before.entries@.update(i as int, e));
                    assert(before.used_at(i as int));
                    assert forall|j: int| 0 <= j < NENT && j != i implies !#[trigger] before.binds_at(
                        j,
                        k,
                    ) by {
                        if before.binds_at(j, k) {
                            assert(before.used_at(j) && before.used_at(i as int));
                        }
                    }
                    self.lemma_bindings_after_set(before, i as int, k, pair);
                    assert(before.binds_at(i as int, k));
                    assert(before.bindings().dom().contains(k));
                    assert forall|j: int| 0 <= j < NENT implies #[trigger] self.used_at(j)
                        == before.used_at(j) by {
                        if j == i {
                            assert(before.used_at(j));
                        }
                    }
                    if before.is_full() {
                        assert forall|j: int| 0 <= j < NENT implies #[trigger] self.used_at(j) by {
                            assert(before.used_at(j));
                        }
                    }
                    if self.is_full() {
                        assert forall|j: int| 0 <= j < NENT implies #[trigger] before.used_at(j) by {
                            assert(self.used_at(j));
                        }
                    }
                }
                return R_OK;
            }
            i = i + 1;
        }
        assert(!self.bindings().dom().contains(k)) by {
            if self.bindings().dom().contains(k) {
                let j = choose|j: int| #[trigger] self.binds_at(j, k);
                assert(self.binds_at(j, k));
            }
        }
        // No existing entry: take a free slot.
        let mut i: usize = 0;
        while i < NENT
            invariant
                self.wf(),
                self == old(self),
                i <= NENT,
                !self.bindings().dom().contains(k),
                key@ == k,
                k == stored_name(name@),
                k.len() <= NAME_MAX,
                forall|j: int| 0 <= j < i ==> #[trigger] self.used_at(j),
            decreases NENT - i,
        {
            if !self.entries[i].used {
                let ghost before = *self;
                let e = Entry { name: key, pair, used: true };
                assert(e.name@ == k);
                self.entries.set(i, e);
                assert(self.entries@[i as int] == e);
                proof {
                    lemma_used_in_update(before.entries@, i as int, e);
                    assert(self.entries@ == before.entries@.update(i as int, e));
                    assert(!before.used_at(i as int));
                    assert forall|j: int| 0 <= j < NENT && j != i implies !#[trigger] before.binds_at(
                        j,
                        k,
                    ) by {
                        if before.binds_at(j, k) {
                            assert(before.bindings().dom().contains(k));
                        }
                    }
                    self.lemma_bindings_after_set(before, i as int, k, pair);
                }
                return R_OK;
            }
            i = i + 1;
        }
        R_EFULL
    }

    /// After slot `i` is overwritten with a binding of `k` to `pair`, where
    /// slot `i` was free or already bound `k`, and no other slot binds `k`.
    proof fn lemma_bindings_after_set(&self, before: BindTable, i: int, k: Seq<u8>, pair: Pair)
        requires
            before.wf(),
            0 <= i < NENT,
            self.entries@.len() == NENT,
            self.entries@[i].used,
            self.entries@[i].name@ == k,
            self.entries@[i].pair == pair,
            k.len() <= NAME_MAX,
            !before.entries@[i].used || before.entries@[i].name@ == k,
            forall|j: int| 0 <= j < NENT && j != i ==> self.entries@[j] == before.entries@[j],
            forall|j: int| 0 <= j < NENT && j != i ==> !#[trigger] before.binds_at(j, k),
        ensures
            self.wf(),
            self.bindings() == before.bindings().insert(k, pair),
    {
        assert forall|a: int, b: int|
            0 <= a < NENT && 0 <= b < NENT && a != b && #[trigger] self.used_at(a)
                && #[trigger] self.used_at(b) implies self.entries@[a].name@
            != self.entries@[b].name@ by {
            if a != i && b != i {
                assert(before.used_at(a) && before.used_at(b));
            } else if a == i {
                assert(!before.binds_at(b, k));
            } else {
                assert(!before.binds_at(a, k));
            }
        }
        assert forall|a: int| 0 <= a < NENT && #[trigger] self.used_at(a) implies self.entries@[
            a
        ].name@.len() <= NAME_MAX by {
            if a != i {
                assert(before.used_at(a));
            }
        }
        assert(self.wf());
        let m = before.bindings().insert(k, pair);
        assert forall|key: Seq<u8>| #[trigger] self.bindings().dom().contains(key) <==> m.dom().contains(
            key,
        ) by {
            if self.bindings().dom().contains(key) {
                let j = choose|j: int| #[trigger] self.binds_at(j, key);
                if j != i {
                    assert(before.binds_at(j, key));
                }
            }
            if m.dom().contains(key) && key != k {
                let j = choose|j: int| #[trigger] before.binds_at(j, key);
                assert(self.binds_at(j, key));
            }
            if key == k {
                assert(self.binds_at(i, k));
            }
        }
        assert forall|key: Seq<u8>| #[trigger] self.bindings().dom().contains(key) implies self.bindings()[key]
            == m[key] by {
            let j = choose|j: int| #[trigger] self.binds_at(j, key);
            self.lemma_binding_at(j);
            if key != k {
                before.lemma_binding_at(j);
            } else {
                self.lemma_binding_at(i);
            }
        }
        assert(self.bindings() =~= m);
    }

    /// `RESOLVE`: the pair bound to `name`, if any.
    pub fn resolve(&self, name: &[u8]) -> (r: Option<Pair>)
        requires
            self.wf(),
        ensures
            r == (if self.bindings().dom().contains(name@) {
                Some(self.bindings()[name@])
            } else {
                None
            }),
    {
        let mut i: usize = 0;
        while i < NENT
            invariant
                self.wf(),
                i <= NENT,
                forall|j: int| 0 <= j < i ==> !#[trigger] self.binds_at(j, name@),
            decreases NENT - i,
        {
            if self.entries[i].matches(name) {
                proof {
                    self.lemma_binding_at(i as int);
                }
                return Some(self.entries[i].pair);
            }
            i = i + 1;
        }
        assert(!self.bindings().dom().contains(name@)) by {
            if self.bindings().dom().contains(name@) {
                let j = choose|j: int| #[trigger] self.binds_at(j, name@);
                assert(self.binds_at(j, name@));
            }
        }
        None
    }

    /// `UNBIND`: clear the entry for `name`.  Returns [`R_OK`], or
    /// [`R_ENOENT`] if no entry is bound to it.
    pub fn unbind(&mut self, name: &[u8]) -> (r: u16)
        requires
            old(self).wf(),
        ensures
            final(self).wf(),
            old(self).bindings().dom().contains(name@) ==> {
                &&& r == R_OK
                &&& final(self).bindings() == old(self).bindings().remove(name@)
                &&& !final(self).is_full()
                &&& final(self).used_slots() + 1 == old(self).used_slots()
            },
            !old(self).bindings().dom().contains(name@) ==> {
                &&& r == R_ENOENT
                &&& final(self).bindings() == old(self).bindings()
                &&& final(self).is_full() == old(self).is_full()
                &&& final(self).used_slots() == old(self).used_slots()
            },
    {
        let mut i: usize = 0;
        while i < NENT
            invariant
                self.wf(),
                self == old(self),
                i <= NENT,
                forall|j: int| 0 <= j < i ==> !#[trigger] self.binds_at(j, name@),
            decreases NENT - i,
        {
            if self.entries[i].matches(name) {
                let ghost before = *self;
                let freed = Entry { name: Vec::new(), pair: Pair { in_h: 0, out_h: 0 }, used: false };
                self.entries.set(i, freed);
                proof {
                    lemma_used_in_update(before.entries@, i as int, freed);
                    assert(self.entries@ == before.entries@.update(i as int, freed));
                    let k = name@;
                    assert(before.binds_at(i as int, k));
                    assert(!self.used_at(i as int));
                    assert forall|a: int, b: int|
                        0 <= a < NENT && 0 <= b < NENT && a != b && #[trigger] self.used_at(a)
                            && #[trigger] self.used_at(b) implies self.entries@[a].name@
                        != self.entries@[b].name@ by {
                        assert(before.used_at(a) && before.used_at(b));
                    }
                    assert forall|a: int| 0 <= a < NENT && #[trigger] self.used_at(a) implies self.entries@[
                        a
                    ].name@.len() <= NAME_MAX by {
                        assert(before.used_at(a));
                    }
                    let m = before.bindings().remove(k);
                    assert forall|key: Seq<u8>| #[trigger] self.bindings().dom().contains(key)
                        <==> m.dom().contains(key) by {
                        if self.bindings().dom().contains(key) {
                            let j = choose|j: int| #[trigger] self.binds_at(j, key);
                            assert(before.binds_at(j, key));
                            assert(before.used_at(j) && before.used_at(i as int));
                        }
                        if m.dom().contains(key) {
                            let j = choose|j: int| #[trigger] before.binds_at(j, key);
                            assert(self.binds_at(j, key));
                        }
                    }
                    assert forall|key: Seq<u8>| #[trigger] self.bindings().dom().contains(key) implies self.bindings()[key]
                        == m[key] by {
                        let j = choose|j: int| #[trigger] self.binds_at(j, key);
                        self.lemma_binding_at(j);
                        before.lemma_binding_at(j);
                    }
                    assert(self.bindings() =~= m);
                }
                return R_OK;
            }
            i = i + 1;
        }
        assert(!self.bindings().dom().contains(name@)) by {
            if self.bindings().dom().contains(name@) {
                let j = choose|j: int| #[trigger] self.binds_at(j, name@);
                assert(self.binds_at(j, name@));
            }
        }
        R_ENOENT
    }
}

impl Entry {
    /// True if this entry is used and bound to `name` (exact comparison).
    fn matches(&self, name: &[u8]) -> (r: bool)
        ensures
            r == (self.used && self.name@ == name@),
    {
        self.used && bytes_eq(self.name.as_slice(), name)
    }
}

/// A name bound through `bind` resolves to the pair it was bound to, as
/// long as the name fits the stored-name bound.
pub proof fn lemma_bind_then_resolve(before: BindTable, after: BindTable, name: Seq<u8>, pair: Pair)
    requires
        before.wf(),
        name.len() <= NAME_MAX,
        before.bindings().dom().contains(name) || !before.is_full(),
        after.bindings() == before.bindings().insert(stored_name(name), pair),
    ensures
        after.bindings().dom().contains(name),
        after.bindings()[name] == pair,
{
}

/// Binding one name leaves every other name's binding as it was.
pub proof fn lemma_bind_leaves_others(
    before: BindTable,
    after: BindTable,
    name: Seq<u8>,
    pair: Pair,
    other: Seq<u8>,
)
    requires
        before.wf(),
        other != stored_name(name),
        after.bindings() == before.bindings().insert(stored_name(name), pair),
    ensures
        after.bindings().dom().contains(other) == before.bindings().dom().contains(other),
        before.bindings().dom().contains(other) ==> after.bindings()[other] == before.bindings()[other],
{
}

/// A name that was unbound no longer resolves.
pub proof fn lemma_unbind_then_unresolved(before: BindTable, after: BindTable, name: Seq<u8>)
    requires
        before.wf(),
        after.bindings() == before.bindings().remove(name),
    ensures
        !after.bindings().dom().contains(name),
{
}

} // verus!
