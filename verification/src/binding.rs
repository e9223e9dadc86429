//! The slot table behind a bind group builder: resources registered at
//! (group, binding) slots, kept in slot order.
use vstd::prelude::*;

verus! {

/// Slot order: by group, then by binding.
pub open spec fn slot_lt(a: (u32, u32), b: (u32, u32)) -> bool {
    a.0 < b.0 || (a.0 == b.0 && a.1 < b.1)
}

/// Resources registered at (group, binding) slots, at most one per slot.
pub struct BindGroupBuilder<R> {
    slots: Vec<(u32, u32, R)>,
}

pub open spec fn slot_of<R>(e: (u32, u32, R)) -> (u32, u32) {
    (e.0, e.1)
}

impl<R> BindGroupBuilder<R> {
    /// The registered slots, in slot order.
    pub closed spec fn keys_view(&self) -> Seq<(u32, u32)> {
        self.slots@.map_values(|e: (u32, u32, R)| slot_of(e))
    }

    /// The resource at each registered slot.
    pub closed spec fn view(&self) -> Map<(u32, u32), R> {
        Map::new(
            |k: (u32, u32)| exists|i: int| 0 <= i < self.slots.len() && slot_of(self.slots@[i]) == k,
            |k: (u32, u32)|
                {
                    let i = choose|i: int| 0 <= i < self.slots.len() && slot_of(self.slots@[i]) == k;
                    self.slots@[i].2
                },
        )
    }

    /// The slots are strictly increasing in slot order.
    pub closed spec fn wf(&self) -> bool {
        forall|i: int, j: int|
            0 <= i < j < self.slots.len() ==> slot_lt(slot_of(self.slots@[i]), slot_of(self.slots@[j]))
    }

    proof fn lemma_view_at(&self, i: int)
        requires
            self.wf(),
            0 <= i < self.slots.len(),
        ensures
            self.view().contains_key(slot_of(self.slots@[i])),
            self.view()[slot_of(self.slots@[i])] == self.slots@[i].2,
    {
        let k = slot_of(self.slots@[i]);
        assert(self.view().dom().contains(k));
        let j = choose|j: int| 0 <= j < self.slots.len() && slot_of(self.slots@[j]) == k;
        if j < i {
            assert(slot_lt(slot_of(self.slots@[j]), slot_of(self.slots@[i])));
        } else if j > i {
            assert(slot_lt(slot_of(self.slots@[i]), slot_of(self.slots@[j])));
        }
    }

    proof fn lemma_keys(&self)
        requires
            self.wf(),
        ensures
            self.keys_view().len() == self.slots.len(),
            forall|i: int| 0 <= i < self.slots.len() ==> #[trigger] self.keys_view()[i] == slot_of(self.slots@[i]),
            forall|k: (u32, u32)| self.view().contains_key(k) <==> self.keys_view().contains(k),
    {
        assert forall|k: (u32, u32)| self.view().contains_key(k) <==> self.keys_view().contains(k) by {
            if self.view().contains_key(k) {
                let i = choose|i: int| 0 <= i < self.slots.len() && slot_of(self.slots@[i]) == k;
                assert(self.keys_view()[i] == k);
            }
            if self.keys_view().contains(k) {
                let i = choose|i: int| 0 <= i < self.keys_view().len() && self.keys_view()[i] == k;
                assert(slot_of(self.slots@[i]) == k);
            }
        }
    }

    pub fn new() -> (r: Self)
        ensures
            r.wf(),
            r.view() == Map::<(u32, u32), R>::empty(),
            r.keys_view() == Seq::<(u32, u32)>::empty(),
    {
        let r = BindGroupBuilder { slots: Vec::new() };
        assert(r.view() =~= Map::<(u32, u32), R>::empty());
        assert(r.keys_view() =~= Seq::<(u32, u32)>::empty());
        r
    }

    /// Where slot (group, binding) is, or where it would go.
    fn position(&self, group: u32, binding: u32) -> (r: (usize, bool))
        requires
            self.wf(),
        ensures
            r.0 <= self.slots.len(),
            r.1 ==> r.0 < self.slots.len() && slot_of(self.slots@[r.0 as int]) == (group, binding),
            !r.1 ==> !self.view().contains_key((group, binding)),
            forall|i: int| 0 <= i < r.0 ==> slot_lt(#[trigger] slot_of(self.slots@[i]), (group, binding)),
            !r.1 ==> forall|i: int| r.0 <= i < self.slots.len() ==> slot_lt((group, binding), #[trigger] slot_of(self.slots@[i])),
    {
        let mut i: usize = 0;
        while i < self.slots.len()
            invariant
                i <= self.slots.len(),
                self.wf(),
                forall|j: int| 0 <= j < i ==> slot_lt(#[trigger] slot_of(self.slots@[j]), (group, binding)),
            decreases self.slots.len() - i,
        {
            let g = self.slots[i].0;
            let b = self.slots[i].1;
            if g == group && b == binding {
                return (i, true);
            }
            if g > group || (g == group && b > binding) {
                proof {
                    assert forall|j: int| i <= j < self.slots.len() implies slot_lt((group, binding), #[trigger] slot_of(self.slots@[j])) by {
                        if j > i {
                            assert(slot_lt(slot_of(self.slots@[i as int]), slot_of(self.slots@[j])));
                        }
                    }
                    if self.view().contains_key((group, binding)) {
                        let j = choose|j: int| 0 <= j < self.slots.len() && slot_of(self.slots@[j]) == (group, binding);
                        if j < i {
                            assert(slot_lt(slot_of(self.slots@[j]), (group, binding)));
                        } else {
                            assert(slot_lt((group, binding), slot_of(self.slots@[j])));
                        }
                    }
                }
                return (i, false);
            }
            i = i + 1;
        }
        proof {
            if self.view().contains_key((group, binding)) {
                let j = choose|j: int| 0 <= j < self.slots.len() && slot_of(self.slots@[j]) == (group, binding);
                assert(slot_lt(slot_of(self.slots@[j]), (group, binding)));
            }
        }
        (i, false)
    }

    /// Whether a resource is registered at (group, binding).
    pub fn contains(&self, group: u32, binding: u32) -> (r: bool)
        requires
            self.wf(),
        ensures
            r == self.view().contains_key((group, binding)),
    {
        let (i, found) = self.position(group, binding);
        proof {
            if found {
                self.lemma_view_at(i as int);
            }
        }
        found
    }

    /// The resource registered at (group, binding), if any.
    pub fn get(&self, group: u32, binding: u32) -> (r: Option<&R>)
        requires
            self.wf(),
        ensures
            match r {
                Some(v) => self.view().contains_key((group, binding)) && *v == self.view()[(group, binding)],
                None => !self.view().contains_key((group, binding)),
            },
    {
        let (i, found) = self.position(group, binding);
        if found {
            proof {
                self.lemma_view_at(i as int);
            }
            Some(&self.slots[i].2)
        } else {
            None
        }
    }

    /// Registers a resource at a free slot. Registering a slot twice is a programming
    /// error, so the slot must be free.
    pub fn insert(&mut self, group: u32, binding: u32, resource: R)
        requires
            old(self).wf(),
            !old(self).view().contains_key((group, binding)),
        ensures
            final(self).wf(),
            final(self).view() == old(self).view().insert((group, binding), resource),
    {
        let ghost old_self = *self;
        let (i, found) = self.position(group, binding);
        if found {
            proof {
                self.lemma_view_at(i as int);
            }
        }
        self.slots.insert(i, (group, binding, resource));
        let ghost n = old_self.slots.len();
        let ghost ii = i as int;
        proof {
            assert forall|a: int| 0 <= a < self.slots.len() implies #[trigger] self.slots@[a] == (if a < ii {
                old_self.slots@[a]
            } else if a == ii {
                (group, binding, resource)
            } else {
                old_self.slots@[a - 1]
            }) by {}
            assert forall|a: int, b: int| 0 <= a < b < self.slots.len() implies slot_lt(slot_of(self.slots@[a]), slot_of(self.slots@[b])) by {
                if b < ii {
                } else if b == ii {
                } else if a < ii {
                    assert(slot_lt(slot_of(old_self.slots@[a]), (group, binding)));
                    assert(slot_lt((group, binding), slot_of(old_self.slots@[b - 1])));
                } else if a == ii {
                } else {
                    assert(slot_lt(slot_of(old_self.slots@[a - 1]), slot_of(old_self.slots@[b - 1])));
                }
            }
            let key = (group, binding);
            assert forall|k: (u32, u32)| #[trigger] self.view().contains_key(k) <==> old_self.view().insert(key, resource).contains_key(k) by {
                if self.view().contains_key(k) {
                    let j = choose|j: int| 0 <= j < self.slots.len() && slot_of(self.slots@[j]) == k;
                    if j < ii {
                        assert(slot_of(old_self.slots@[j]) == k);
                    } else if j > ii {
                        assert(slot_of(old_self.slots@[j - 1]) == k);
                    }
                }
                if old_self.view().contains_key(k) {
                    let j = choose|j: int| 0 <= j < old_self.slots.len() && slot_of(old_self.slots@[j]) == k;
                    if j < ii {
                        assert(slot_of(self.slots@[j]) == k);
                    } else {
                        assert(slot_of(self.slots@[j + 1]) == k);
                    }
                }
                if k == key {
                    assert(slot_of(self.slots@[ii]) == k);
                }
            }
            assert forall|k: (u32, u32)| #[trigger] self.view().contains_key(k) implies self.view()[k] == old_self.view().insert(key, resource)[k] by {
                let j = choose|j: int| 0 <= j < self.slots.len() && slot_of(self.slots@[j]) == k;
                self.lemma_view_at(j);
                if j < ii {
                    old_self.lemma_view_at(j);
                } else if j > ii {
                    old_self.lemma_view_at(j - 1);
                }
            }
            assert(self.view() =~= old_self.view().insert(key, resource));
        }
    }

    /// Replaces the resource at a registered slot. Replacing a missing slot is a
    /// programming error, so the slot must be registered.
    pub fn replace(&mut self, group: u32, binding: u32, resource: R)
        requires
            old(self).wf(),
            old(self).view().contains_key((group, binding)),
        ensures
            final(self).wf(),
            final(self).view() == old(self).view().insert((group, binding), resource),
            final(self).keys_view() == old(self).keys_view(),
    {
        let ghost old_self = *self;
        let (i, found) = self.position(group, binding);
        self.slots.set(i, (group, binding, resource));
        let ghost ii = i as int;
        let ghost key = (group, binding);
        proof {
            assert forall|a: int, b: int| 0 <= a < b < self.slots.len() implies slot_lt(slot_of(self.slots@[a]), slot_of(self.slots@[b])) by {
                assert(slot_lt(slot_of(old_self.slots@[a]), slot_of(old_self.slots@[b])));
            }
            assert(self.keys_view() =~= old_self.keys_view());
            assert forall|k: (u32, u32)| #[trigger] self.view().contains_key(k) <==> old_self.view().insert(key, resource).contains_key(k) by {
                if self.view().contains_key(k) {
                    let j = choose|j: int| 0 <= j < self.slots.len() && slot_of(self.slots@[j]) == k;
                    assert(slot_of(old_self.slots@[j]) == k);
                }
                if old_self.view().contains_key(k) {
                    let j = choose|j: int| 0 <= j < old_self.slots.len() && slot_of(old_self.slots@[j]) == k;
                    assert(slot_of(self.slots@[j]) == k);
                }
            }
            assert forall|k: (u32, u32)| #[trigger] self.view().contains_key(k) implies self.view()[k] == old_self.view().insert(key, resource)[k] by {
                let j = choose|j: int| 0 <= j < self.slots.len() && slot_of(self.slots@[j]) == k;
                self.lemma_view_at(j);
                if j != ii {
                    old_self.lemma_view_at(j);
                    if j < ii {
                        assert(slot_lt(slot_of(old_self.slots@[j]), slot_of(old_self.slots@[ii])));
                    } else {
                        assert(slot_lt(slot_of(old_self.slots@[ii]), slot_of(old_self.slots@[j])));
                    }
                }
            }
            assert(self.view() =~= old_self.view().insert(key, resource));
        }
    }

    /// The registered slots, in slot order.
    pub fn keys(&self) -> (r: Vec<(u32, u32)>)
        requires
            self.wf(),
        ensures
            r@ == self.keys_view(),
            forall|i: int, j: int| 0 <= i < j < r@.len() ==> slot_lt(r@[i], r@[j]),
            forall|k: (u32, u32)| self.view().contains_key(k) <==> r@.contains(k),
    {
        let mut r: Vec<(u32, u32)> = Vec::new();
        let mut i: usize = 0;
        while i < self.slots.len()
            invariant
                i <= self.slots.len(),
                r@ =~= self.slots@.take(i as int).map_values(|e: (u32, u32, R)| slot_of(e)),
            decreases self.slots.len() - i,
        {
            r.push((self.slots[i].0, self.slots[i].1));
            i = i + 1;
        }
        proof {
            assert(self.slots@.take(self.slots.len() as int) =~= self.slots@);
            self.lemma_keys();
        }
        r
    }

    /// One more than the highest group with a registered slot, or zero when none is.
    pub fn group_count(&self) -> (r: u64)
        requires
            self.wf(),
        ensures
            self.keys_view().len() == 0 ==> r == 0,
            self.keys_view().len() > 0 ==> r == self.keys_view().last().0 + 1,
            forall|k: (u32, u32)| self.view().contains_key(k) ==> k.0 < r,
    {
        if self.slots.len() == 0 {
            proof {
                self.lemma_keys();
            }
            0
        } else {
            let last = self.slots[self.slots.len() - 1].0;
            proof {
                self.lemma_keys();
                assert forall|k: (u32, u32)| self.view().contains_key(k) implies k.0 < last + 1 by {
                    let j = choose|j: int| 0 <= j < self.slots.len() && slot_of(self.slots@[j]) == k;
                    if j < self.slots.len() - 1 {
                        assert(slot_lt(slot_of(self.slots@[j]), slot_of(self.slots@[self.slots.len() - 1])));
                    }
                }
            }
            last as u64 + 1
        }
    }
}

/// The bindings of group `g` among the slots `keys`, in their order there.
pub open spec fn group_bindings(keys: Seq<(u32, u32)>, g: u32) -> Seq<u32>
    decreases keys.len(),
{
    if keys.len() == 0 {
        Seq::empty()
    } else {
        let earlier = group_bindings(keys.drop_last(), g);
        if keys.last().0 == g {
            earlier.push(keys.last().1)
        } else {
            earlier
        }
    }
}

/// Of slots in slot order, the bindings of one group are exactly that group's slots, in
/// increasing order.
proof fn lemma_group_bindings(keys: Seq<(u32, u32)>, g: u32)
    requires
        forall|i: int, j: int| 0 <= i < j < keys.len() ==> slot_lt(keys[i], keys[j]),
    ensures
        forall|b: u32| group_bindings(keys, g).contains(b) <==> keys.contains((g, b)),
        forall|i: int, j: int|
            0 <= i < j < group_bindings(keys, g).len() ==> group_bindings(keys, g)[i] < group_bindings(keys, g)[j],
        forall|i: int|
            0 <= i < group_bindings(keys, g).len() ==> keys.contains((g, #[trigger] group_bindings(keys, g)[i])),
    decreases keys.len(),
{
    if keys.len() > 0 {
        let rest = keys.drop_last();
        lemma_group_bindings(rest, g);
        let earlier = group_bindings(rest, g);
        let cur = group_bindings(keys, g);
        let last = keys.last();
        assert forall|i: int| 0 <= i < earlier.len() implies slot_lt((g, #[trigger] earlier[i]), last) by {
            assert(rest.contains((g, earlier[i])));
            let k = choose|k: int| 0 <= k < rest.len() && rest[k] == (g, earlier[i]);
            assert(keys[k] == rest[k]);
            assert(slot_lt(keys[k], keys[keys.len() - 1]));
        }
        assert forall|b: u32| cur.contains(b) <==> keys.contains((g, b)) by {
            if keys.contains((g, b)) {
                let k = choose|k: int| 0 <= k < keys.len() && keys[k] == (g, b);
                if k < keys.len() - 1 {
                    assert(rest[k] == (g, b));
                    assert(rest.contains((g, b)));
                    assert(earlier.contains(b));
                    let m = choose|m: int| 0 <= m < earlier.len() && earlier[m] == b;
                    if last.0 == g {
                        assert(cur[m] == b);
                    }
                } else {
                    assert(cur[cur.len() - 1] == b);
                }
            }
            if cur.contains(b) {
                let m = choose|m: int| 0 <= m < cur.len() && cur[m] == b;
                if m < earlier.len() {
                    assert(cur[m] == earlier[m]);
                    assert(earlier.contains(b));
                    assert(rest.contains((g, b)));
                    let k = choose|k: int| 0 <= k < rest.len() && rest[k] == (g, b);
                    assert(keys[k] == (g, b));
                } else {
                    assert(keys[keys.len() - 1] == (g, b));
                }
            }
        }
        assert forall|i: int, j: int| 0 <= i < j < cur.len() implies cur[i] < cur[j] by {
            assert(cur[i] == earlier[i]);
            if j < earlier.len() {
                assert(cur[j] == earlier[j]);
            } else {
                assert(slot_lt((g, earlier[i]), last));
            }
        }
        assert forall|i: int| 0 <= i < cur.len() implies keys.contains((g, #[trigger] cur[i])) by {
            if i < earlier.len() {
                assert(cur[i] == earlier[i]);
                assert(rest.contains((g, earlier[i])));
                let k = choose|k: int| 0 <= k < rest.len() && rest[k] == (g, earlier[i]);
                assert(keys[k] == rest[k]);
            } else {
                assert(keys[keys.len() - 1] == (g, cur[i]));
            }
        }
    }
}

/// The layout of the view bind groups: for each group up to the highest one used, the
/// bindings that the view systems registered in it, in increasing order; a group that
/// none uses is empty. Two systems may not share a slot.
pub fn view_layout_groups(locations: &Vec<(u32, u32)>) -> (r: Vec<Vec<u32>>)
    requires
        forall|i: int, j: int| 0 <= i < j < locations@.len() ==> locations@[i] != locations@[j],
    ensures
        forall|l: (u32, u32)| locations@.contains(l) ==> l.0 < r@.len(),
        r@.len() > 0 ==> exists|l: (u32, u32)| locations@.contains(l) && l.0 == r@.len() - 1,
        forall|g: int, b: u32|
            0 <= g < r@.len() ==> (r@[g]@.contains(b) <==> locations@.contains((g as u32, b))),
        forall|g: int, i: int, j: int|
            0 <= g < r@.len() && 0 <= i < j < r@[g]@.len() ==> r@[g]@[i] < r@[g]@[j],
{
    let mut builder: BindGroupBuilder<()> = BindGroupBuilder::new();
    let mut i: usize = 0;
    while i < locations.len()
        invariant
            i <= locations@.len(),
            builder.wf(),
            forall|a: int, c: int| 0 <= a < c < locations@.len() ==> locations@[a] != locations@[c],
            forall|k: (u32, u32)| builder.view().contains_key(k) <==> locations@.take(i as int).contains(k),
        decreases locations@.len() - i,
    {
        let (g, b) = locations[i];
        proof {
            if locations@.take(i as int).contains((g, b)) {
                let a = choose|a: int| 0 <= a < i && locations@.take(i as int)[a] == (g, b);
                assert(locations@[a] == locations@[i as int]);
            }
        }
        builder.insert(g, b, ());
        proof {
            let before = locations@.take(i as int);
            let next = locations@.take(i + 1);
            assert forall|k: (u32, u32)| builder.view().contains_key(k) <==> next.contains(k) by {
                if next.contains(k) && k != (g, b) {
                    let a = choose|a: int| 0 <= a < next.len() && next[a] == k;
                    assert(before[a] == k);
                }
                if before.contains(k) {
                    let a = choose|a: int| 0 <= a < before.len() && before[a] == k;
                    assert(next[a] == k);
                }
                if k == (g, b) {
                    assert(next[i as int] == k);
                }
            }
        }
        i = i + 1;
    }
    assert(locations@.take(i as int) =~= locations@);
    let keys = builder.keys();
    let count = builder.group_count();
    let mut r: Vec<Vec<u32>> = Vec::new();
    let mut g: u64 = 0;
    while g < count
        invariant
            g <= count,
            r@.len() == g,
            count <= u32::MAX + 1,
            forall|h: int| 0 <= h < g ==> #[trigger] r@[h]@ == group_bindings(keys@, h as u32),
        decreases count - g,
    {
        let group = g as u32;
        let mut v: Vec<u32> = Vec::new();
        let mut j: usize = 0;
        while j < keys.len()
            invariant
                j <= keys@.len(),
                v@ == group_bindings(keys@.take(j as int), group),
            decreases keys@.len() - j,
        {
            assert(keys@.take(j + 1).drop_last() =~= keys@.take(j as int));
            if keys[j].0 == group {
                v.push(keys[j].1);
            }
            j = j + 1;
        }
        assert(keys@.take(j as int) =~= keys@);
        r.push(v);
        g = g + 1;
    }
    proof {
        assert forall|g: int| #![trigger r@[g]] 0 <= g < r@.len() implies ({
            &&& forall|b: u32| (#[trigger] r@[g]@.contains(b)) <==> locations@.contains((g as u32, b))
            &&& forall|i: int, j: int| 0 <= i < j < r@[g]@.len() ==> r@[g]@[i] < r@[g]@[j]
        }) by {
            lemma_group_bindings(keys@, g as u32);
            assert(r@[g]@ == group_bindings(keys@, g as u32));
            assert forall|b: u32| r@[g]@.contains(b) <==> locations@.contains((g as u32, b)) by {
                assert(builder.view().contains_key((g as u32, b)) <==> keys@.contains((g as u32, b)));
            }
        }
        assert forall|l: (u32, u32)| locations@.contains(l) implies l.0 < r@.len() by {
            assert(builder.view().contains_key(l));
        }
        if r@.len() > 0 {
            let l = keys@.last();
            assert(keys@.contains(l));
            assert(builder.view().contains_key(l));
            assert(locations@.contains(l));
        }
    }
    r
}

} // verus!
