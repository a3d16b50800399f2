use vstd::prelude::*;

verus! {

/// A seat: role class, slot and period.
#[derive(Debug)]
pub struct PauliKey {
    pub role_class: String,
    pub slot_id: String,
    pub period_id: String,
}

/// Spin of an accepted occupant.
#[derive(Debug, Clone, Copy, PartialEq, Eq, Structural)]
pub enum SpinTag {
    Alpha,
    Beta,
}

/// Outcome of a seating proposal.
#[derive(Debug, Clone, Copy, PartialEq, Eq, Structural)]
pub enum GateResult {
    OkSingle { sigma: SpinTag },
    OkPair { sigma: SpinTag },
    RejUnknownClass,
    RejDualHat,
    RejPauli,
    RejTermOrder,
}

/// Seating state. Each registered slot lists its occupants in arrival order; each
/// (person, period) lists the slots that person holds. Keys occur at most once in every
/// association list (see [`HundianState::wf`]).
#[derive(Debug)]
pub struct HundianState {
    pub degenerate_classes: Vec<String>,
    pub registered_slots: Vec<(PauliKey, Vec<String>)>,
    pub person_occupancies: Vec<((String, String), Vec<PauliKey>)>,
    pub open_waivers: Vec<(String, String)>,
}

pub type KeyView = (Seq<char>, Seq<char>, Seq<char>);

pub open spec fn kv(k: PauliKey) -> KeyView {
    (k.role_class@, k.slot_id@, k.period_id@)
}

pub open spec fn names(v: Seq<String>) -> Seq<Seq<char>> {
    v.map_values(|s: String| s@)
}

pub open spec fn keys_view(v: Seq<PauliKey>) -> Seq<KeyView> {
    v.map_values(|k: PauliKey| kv(k))
}

/// Position of the first slot registered under `k`, or -1.
pub open spec fn slot_pos(s: Seq<(PauliKey, Vec<String>)>, k: KeyView) -> int
    decreases s.len(),
{
    if s.len() == 0 {
        -1
    } else if slot_pos(s.drop_last(), k) >= 0 {
        slot_pos(s.drop_last(), k)
    } else if kv(s.last().0) == k {
        s.len() - 1
    } else {
        -1
    }
}

/// Position of the first occupancy record of `(person, period)`, or -1.
pub open spec fn occ_pos(s: Seq<((String, String), Vec<PauliKey>)>, p: (Seq<char>, Seq<char>)) -> int
    decreases s.len(),
{
    if s.len() == 0 {
        -1
    } else if occ_pos(s.drop_last(), p) >= 0 {
        occ_pos(s.drop_last(), p)
    } else if (s.last().0.0@, s.last().0.1@) == p {
        s.len() - 1
    } else {
        -1
    }
}

/// Slots of `period` in a degenerate class whose occupant count satisfies `want`.
pub open spec fn count_slots(
    s: Seq<(PauliKey, Vec<String>)>,
    classes: Seq<Seq<char>>,
    period: Seq<char>,
    want: nat,
) -> nat
    decreases s.len(),
{
    if s.len() == 0 {
        0
    } else {
        count_slots(s.drop_last(), classes, period, want) + if s.last().0.period_id@ == period && classes.contains(
            s.last().0.role_class@,
        ) && s.last().1@.len() == want {
            1nat
        } else {
            0nat
        }
    }
}

/// The person already holds some other slot in the period.
pub open spec fn dual_hat(st: HundianState, person: Seq<char>, period: Seq<char>, k: KeyView) -> bool {
    let j = occ_pos(st.person_occupancies@, (person, period));
    j >= 0 && st.person_occupancies@[j].1@.len() > 0 && !keys_view(st.person_occupancies@[j].1@).contains(k)
}

/// Occupancy records after `(person, period)` takes slot `k`.
pub open spec fn occupy(
    s: Seq<((String, String), Vec<PauliKey>)>,
    p: (Seq<char>, Seq<char>),
    k: KeyView,
) -> Seq<((Seq<char>, Seq<char>), Seq<KeyView>)> {
    let v = s.map_values(|e: ((String, String), Vec<PauliKey>)| ((e.0.0@, e.0.1@), keys_view(e.1@)));
    let j = occ_pos(s, p);
    if j >= 0 {
        if v[j].1.contains(k) {
            v
        } else {
            v.update(j, (v[j].0, v[j].1.push(k)))
        }
    } else {
        v.push((p, seq![k]))
    }
}

pub open spec fn occ_view(s: Seq<((String, String), Vec<PauliKey>)>) -> Seq<((Seq<char>, Seq<char>), Seq<KeyView>)> {
    s.map_values(|e: ((String, String), Vec<PauliKey>)| ((e.0.0@, e.0.1@), keys_view(e.1@)))
}

pub open spec fn slots_view(s: Seq<(PauliKey, Vec<String>)>) -> Seq<(KeyView, Seq<Seq<char>>)> {
    s.map_values(|e: (PauliKey, Vec<String>)| (kv(e.0), names(e.1@)))
}

/// Verdict of the seating gates G0 to G3 on a proposal, before any change.
pub open spec fn gate_verdict(
    st: HundianState,
    person: Seq<char>,
    k: KeyView,
    has_waiver: bool,
) -> GateResult {
    let i = slot_pos(st.registered_slots@, k);
    if i < 0 {
        GateResult::RejUnknownClass
    } else if dual_hat(st, person, k.2, k) && !has_waiver {
        GateResult::RejDualHat
    } else if st.registered_slots@[i].1@.len() >= 2 {
        GateResult::RejPauli
    } else if st.registered_slots@[i].1@.len() == 1 {
        if names(st.degenerate_classes@).contains(k.0) && count_slots(
            st.registered_slots@,
            names(st.degenerate_classes@),
            k.2,
            0,
        ) > 0 {
            GateResult::RejTermOrder
        } else {
            GateResult::OkPair { sigma: SpinTag::Beta }
        }
    } else {
        GateResult::OkSingle { sigma: SpinTag::Alpha }
    }
}

pub open spec fn accepted(r: GateResult) -> bool {
    r is OkSingle || r is OkPair
}

/// No slot holds more than two occupants.
pub open spec fn capacity_ok(st: HundianState) -> bool {
    forall|i: int| 0 <= i < st.registered_slots@.len() ==> (#[trigger] st.registered_slots@[i]).1@.len() <= 2
}

fn text_eq(a: &String, b: &String) -> (r: bool)
    ensures
        r == (a@ == b@),
{
    *a == *b
}

fn owned(s: &str) -> (r: String)
    ensures
        r@ == s@,
{
    s.to_owned()
}

fn copy_text(s: &String) -> (r: String)
    ensures
        r@ == s@,
{
    s.clone()
}

impl PauliKey {
    /// A copy of the key.
    pub fn duplicate(&self) -> (k: PauliKey)
        ensures
            kv(k) == kv(*self),
    {
        PauliKey {
            role_class: copy_text(&self.role_class),
            slot_id: copy_text(&self.slot_id),
            period_id: copy_text(&self.period_id),
        }
    }

    fn same(&self, other: &PauliKey) -> (r: bool)
        ensures
            r == (kv(*self) == kv(*other)),
    {
        text_eq(&self.role_class, &other.role_class) && text_eq(&self.slot_id, &other.slot_id) && text_eq(
            &self.period_id,
            &other.period_id,
        )
    }
}

proof fn lemma_slot_pos_step(s: Seq<(PauliKey, Vec<String>)>, k: KeyView, i: int)
    requires
        0 <= i < s.len(),
        slot_pos(s.take(i), k) < 0,
    ensures
        slot_pos(s.take(i + 1), k) == if kv(s[i].0) == k {
            i
        } else {
            -1
        },
{
    assert(s.take(i + 1).drop_last() =~= s.take(i));
}

proof fn lemma_slot_pos_bounds(s: Seq<(PauliKey, Vec<String>)>, k: KeyView)
    ensures
        -1 <= slot_pos(s, k) < s.len(),
        slot_pos(s, k) >= 0 ==> kv(s[slot_pos(s, k)].0) == k,
        slot_pos(s, k) < 0 ==> forall|i: int| 0 <= i < s.len() ==> kv(#[trigger] s[i].0) != k,
    decreases s.len(),
{
    if s.len() > 0 {
        lemma_slot_pos_bounds(s.drop_last(), k);
        assert forall|i: int| 0 <= i < s.len() - 1 implies s.drop_last()[i] == #[trigger] s[i] by {}
    }
}

proof fn lemma_slot_pos_prefix(s: Seq<(PauliKey, Vec<String>)>, k: KeyView, i: int)
    requires
        0 <= i <= s.len(),
        slot_pos(s.take(i), k) >= 0,
    ensures
        slot_pos(s, k) == slot_pos(s.take(i), k),
    decreases s.len() - i,
{
    if i < s.len() {
        assert(s.take(i + 1).drop_last() =~= s.take(i));
        lemma_slot_pos_prefix(s, k, i + 1);
    } else {
        assert(s.take(i) =~= s);
    }
}

proof fn lemma_occ_pos_prefix(s: Seq<((String, String), Vec<PauliKey>)>, p: (Seq<char>, Seq<char>), i: int)
    requires
        0 <= i <= s.len(),
        occ_pos(s.take(i), p) >= 0,
    ensures
        occ_pos(s, p) == occ_pos(s.take(i), p),
    decreases s.len() - i,
{
    if i < s.len() {
        assert(s.take(i + 1).drop_last() =~= s.take(i));
        lemma_occ_pos_prefix(s, p, i + 1);
    } else {
        assert(s.take(i) =~= s);
    }
}

proof fn lemma_occ_pos_bounds(s: Seq<((String, String), Vec<PauliKey>)>, p: (Seq<char>, Seq<char>))
    ensures
        -1 <= occ_pos(s, p) < s.len(),
        occ_pos(s, p) >= 0 ==> (s[occ_pos(s, p)].0.0@, s[occ_pos(s, p)].0.1@) == p,
    decreases s.len(),
{
    if s.len() > 0 {
        lemma_occ_pos_bounds(s.drop_last(), p);
    }
}

impl HundianState {
    pub fn new() -> (st: Self)
        ensures
            st.degenerate_classes@.len() == 0,
            st.registered_slots@.len() == 0,
            st.person_occupancies@.len() == 0,
            st.open_waivers@.len() == 0,
    {
        Self {
            degenerate_classes: Vec::new(),
            registered_slots: Vec::new(),
            person_occupancies: Vec::new(),
            open_waivers: Vec::new(),
        }
    }

    fn has_class(&self, role: &String) -> (b: bool)
        ensures
            b == names(self.degenerate_classes@).contains(role@),
    {
        let mut i: usize = 0;
        while i < self.degenerate_classes.len()
            invariant
                0 <= i <= self.degenerate_classes@.len(),
                forall|j: int| 0 <= j < i ==> self.degenerate_classes@[j]@ != role@,
            decreases self.degenerate_classes.len() - i,
        {
            if text_eq(&self.degenerate_classes[i], role) {
                assert(names(self.degenerate_classes@)[i as int] == role@);
                return true;
            }
            i = i + 1;
        }
        proof {
            if names(self.degenerate_classes@).contains(role@) {
                let j = choose|j: int| 0 <= j < names(self.degenerate_classes@).len() && names(self.degenerate_classes@)[j] == role@;
                assert(self.degenerate_classes@[j]@ == role@);
            }
        }
        false
    }

    /// Marks `role_class` as degenerate (a set: registering twice changes nothing).
    pub fn register_degenerate_class(&mut self, role_class: &str)
        ensures
            names(final(self).degenerate_classes@) == if names(old(self).degenerate_classes@).contains(role_class@) {
                names(old(self).degenerate_classes@)
            } else {
                names(old(self).degenerate_classes@).push(role_class@)
            },
            final(self).registered_slots == old(self).registered_slots,
            final(self).person_occupancies == old(self).person_occupancies,
            final(self).open_waivers == old(self).open_waivers,
    {
        let r = owned(role_class);
        if !self.has_class(&r) {
            self.degenerate_classes.push(r);
            assert(names(self.degenerate_classes@) =~= names(old(self).degenerate_classes@).push(role_class@));
        }
    }

    fn slot_index(&self, key: &PauliKey) -> (r: Option<usize>)
        ensures
            match r {
                Some(i) => i == slot_pos(self.registered_slots@, kv(*key)),
                None => slot_pos(self.registered_slots@, kv(*key)) < 0,
            },
    {
        let ghost s = self.registered_slots@;
        let mut i: usize = 0;
        assert(s.take(0) =~= Seq::<(PauliKey, Vec<String>)>::empty());
        while i < self.registered_slots.len()
            invariant
                0 <= i <= s.len(),
                s == self.registered_slots@,
                slot_pos(s.take(i as int), kv(*key)) < 0,
            decreases self.registered_slots.len() - i,
        {
            proof {
                lemma_slot_pos_step(s, kv(*key), i as int);
            }
            if self.registered_slots[i].0.same(key) {
                proof {
                    lemma_slot_pos_prefix(s, kv(*key), i + 1);
                }
                return Some(i);
            }
            i = i + 1;
        }
        assert(s.take(s.len() as int) =~= s);
        None
    }

    /// Registers an empty slot under `key`, unless one is registered already.
    pub fn register_slot(&mut self, key: PauliKey)
        ensures
            slots_view(final(self).registered_slots@) == if slot_pos(old(self).registered_slots@, kv(key)) >= 0 {
                slots_view(old(self).registered_slots@)
            } else {
                slots_view(old(self).registered_slots@).push((kv(key), Seq::<Seq<char>>::empty()))
            },
            final(self).degenerate_classes == old(self).degenerate_classes,
            final(self).person_occupancies == old(self).person_occupancies,
            final(self).open_waivers == old(self).open_waivers,
    {
        match self.slot_index(&key) {
            Some(_) => {},
            None => {
                let ghost k = kv(key);
                let occupants: Vec<String> = Vec::new();
                self.registered_slots.push((key, occupants));
                assert(names(Seq::<String>::empty()) =~= Seq::<Seq<char>>::empty());
                assert(slots_view(self.registered_slots@) =~= slots_view(old(self).registered_slots@).push(
                    (k, Seq::<Seq<char>>::empty()),
                ));
            },
        }
    }

    fn count_slots_with(&self, period_id: &str, want: usize) -> (n: usize)
        ensures
            n == count_slots(self.registered_slots@, names(self.degenerate_classes@), period_id@, want as nat),
    {
        let period = owned(period_id);
        let ghost s = self.registered_slots@;
        let ghost cl = names(self.degenerate_classes@);
        let mut n: usize = 0;
        let mut i: usize = 0;
        assert(s.take(0) =~= Seq::<(PauliKey, Vec<String>)>::empty());
        while i < self.registered_slots.len()
            invariant
                0 <= i <= s.len(),
                s == self.registered_slots@,
                cl == names(self.degenerate_classes@),
                period@ == period_id@,
                n == count_slots(s.take(i as int), cl, period_id@, want as nat),
                n <= i,
            decreases self.registered_slots.len() - i,
        {
            proof {
                assert(s.take(i + 1).drop_last() =~= s.take(i as int));
            }
            let entry = &self.registered_slots[i];
            if text_eq(&entry.0.period_id, &period) && self.has_class(&entry.0.role_class) && entry.1.len() == want {
                n = n + 1;
            }
            i = i + 1;
        }
        assert(s.take(s.len() as int) =~= s);
        n
    }

    /// Empty slots of `period_id` in degenerate classes.
    pub fn count_empty_degenerate_slots(&self, period_id: &str) -> (n: usize)
        ensures
            n == count_slots(self.registered_slots@, names(self.degenerate_classes@), period_id@, 0),
    {
        self.count_slots_with(period_id, 0)
    }

    /// Half-filled slots of `period_id` in degenerate classes.
    pub fn count_unpaired_degenerate_slots(&self, period_id: &str) -> (n: usize)
        ensures
            n == count_slots(self.registered_slots@, names(self.degenerate_classes@), period_id@, 1),
    {
        self.count_slots_with(period_id, 1)
    }

    /// Unpaired count `n` and spin multiplicity `n + 1` of `period_id` (the spin itself is
    /// `n / 2`).
    pub fn spin_multiplicity(&self, period_id: &str) -> (r: (usize, usize))
        requires
            self.registered_slots@.len() < usize::MAX,
        ensures
            r.0 == count_slots(self.registered_slots@, names(self.degenerate_classes@), period_id@, 1),
            r.1 == r.0 + 1,
    {
        let n = self.count_unpaired_degenerate_slots(period_id);
        proof {
            lemma_count_le(self.registered_slots@, names(self.degenerate_classes@), period_id@, 1);
        }
        (n, n + 1)
    }

    fn occupancy_index(&self, person: &String, period: &String) -> (r: Option<usize>)
        ensures
            match r {
                Some(i) => i == occ_pos(self.person_occupancies@, (person@, period@)),
                None => occ_pos(self.person_occupancies@, (person@, period@)) < 0,
            },
    {
        let ghost s = self.person_occupancies@;
        let ghost p = (person@, period@);
        let mut i: usize = 0;
        assert(s.take(0) =~= Seq::<((String, String), Vec<PauliKey>)>::empty());
        while i < self.person_occupancies.len()
            invariant
                0 <= i <= s.len(),
                s == self.person_occupancies@,
                p == (person@, period@),
                occ_pos(s.take(i as int), p) < 0,
            decreases self.person_occupancies.len() - i,
        {
            proof {
                assert(s.take(i + 1).drop_last() =~= s.take(i as int));
            }
            let entry = &self.person_occupancies[i];
            if text_eq(&entry.0.0, person) && text_eq(&entry.0.1, period) {
                proof {
                    lemma_occ_pos_prefix(s, p, i + 1);
                }
                return Some(i);
            }
            i = i + 1;
        }
        assert(s.take(s.len() as int) =~= s);
        None
    }

    /// Seating gate for `person_id` on slot `(role_class, slot_id, period_id)`:
    /// G0 the slot must be registered; G1 a person may not hold two slots in a period without
    /// a waiver; G2 a slot holds at most two; G3 a degenerate slot is paired only once no
    /// degenerate slot of the period is empty. An accepted proposal seats the person.
    pub fn propose_fill(
        &mut self,
        person_id: &str,
        role_class: &str,
        slot_id: &str,
        period_id: &str,
        waiver_id: Option<&str>,
    ) -> (r: GateResult)
        ensures
            ({
                let k = (role_class@, slot_id@, period_id@);
                let i = slot_pos(old(self).registered_slots@, k);
                &&& r == gate_verdict(*old(self), person_id@, k, waiver_id is Some)
                &&& !accepted(r) ==> *final(self) == *old(self)
                &&& accepted(r) ==> {
                    &&& slots_view(final(self).registered_slots@) == slots_view(old(self).registered_slots@).update(
                        i,
                        (k, names(old(self).registered_slots@[i].1@).push(person_id@)),
                    )
                    &&& occ_view(final(self).person_occupancies@) == occupy(
                        old(self).person_occupancies@,
                        (person_id@, period_id@),
                        k,
                    )
                    &&& final(self).degenerate_classes == old(self).degenerate_classes
                    &&& final(self).open_waivers == old(self).open_waivers
                }
                &&& capacity_ok(*old(self)) ==> capacity_ok(*final(self))
            }),
    {
        let key = PauliKey {
            role_class: owned(role_class),
            slot_id: owned(slot_id),
            period_id: owned(period_id),
        };
        let ghost k = kv(key);
        let i = match self.slot_index(&key) {
            None => {
                return GateResult::RejUnknownClass;
            },
            Some(i) => i,
        };
        proof {
            lemma_slot_pos_bounds(old(self).registered_slots@, k);
        }
        let person = owned(person_id);
        let period = owned(period_id);
        let occ = self.occupancy_index(&person, &period);
        proof {
            lemma_occ_pos_bounds(old(self).person_occupancies@, (person_id@, period_id@));
        }
        let other_keys = match occ {
            Some(j) => {
                let keys = &self.person_occupancies[j].1;
                let mut found = false;
                let mut q: usize = 0;
                while q < keys.len()
                    invariant
                        0 <= q <= keys@.len(),
                        k == kv(key),
                        found == keys_view(keys@).take(q as int).contains(k),
                    decreases keys.len() - q,
                {
                    proof {
                        assert(keys_view(keys@).take(q + 1) =~= keys_view(keys@).take(q as int).push(kv(keys@[q as int])));
                        lemma_push_contains(keys_view(keys@).take(q as int), kv(keys@[q as int]), k);
                    }
                    if keys[q].same(&key) {
                        found = true;
                    }
                    q = q + 1;
                }
                assert(keys_view(keys@).take(keys@.len() as int) =~= keys_view(keys@));
                keys.len() > 0 && !found
            },
            None => false,
        };
        if other_keys && waiver_id.is_none() {
            return GateResult::RejDualHat;
        }
        let n_occ = self.registered_slots[i].1.len();
        if n_occ >= 2 {
            return GateResult::RejPauli;
        }
        let is_degenerate = self.has_class(&key.role_class);
        let result = if n_occ == 1 {
            let u = self.count_empty_degenerate_slots(period_id);
            if is_degenerate && u > 0 {
                return GateResult::RejTermOrder;
            }
            GateResult::OkPair { sigma: SpinTag::Beta }
        } else {
            GateResult::OkSingle { sigma: SpinTag::Alpha }
        };
        let ghost slots0 = self.registered_slots@;
        let mut entry = self.registered_slots.remove(i);
        let ghost e0 = entry;
        entry.1.push(copy_text(&person));
        let ghost e1 = entry;
        self.registered_slots.insert(i, entry);
        proof {
            assert(e0 == slots0[i as int]);
            assert(self.registered_slots@ =~= slots0.update(i as int, e1));
            assert(kv(e1.0) == k);
            assert(names(e1.1@) =~= names(e0.1@).push(person_id@));
            assert(slots_view(self.registered_slots@) =~= slots_view(slots0).update(
                i as int,
                (k, names(slots0[i as int].1@).push(person_id@)),
            ));
            assert forall|t: int| 0 <= t < self.registered_slots@.len() && capacity_ok(*old(self)) implies (
            #[trigger] self.registered_slots@[t]).1@.len() <= 2 by {
                if t != i {
                    assert(self.registered_slots@[t] == slots0[t]);
                }
            }
        }
        let ghost occ0 = self.person_occupancies@;
        match occ {
            Some(j) => {
                let mut rec = self.person_occupancies.remove(j);
                let mut present = false;
                let mut q: usize = 0;
                while q < rec.1.len()
                    invariant
                        0 <= q <= rec.1@.len(),
                        k == kv(key),
                        present == keys_view(rec.1@).take(q as int).contains(k),
                    decreases rec.1.len() - q,
                {
                    proof {
                        assert(keys_view(rec.1@).take(q + 1) =~= keys_view(rec.1@).take(q as int).push(
                            kv(rec.1@[q as int]),
                        ));
                        lemma_push_contains(keys_view(rec.1@).take(q as int), kv(rec.1@[q as int]), k);
                    }
                    if rec.1[q].same(&key) {
                        present = true;
                    }
                    q = q + 1;
                }
                assert(keys_view(rec.1@).take(rec.1@.len() as int) =~= keys_view(rec.1@));
                let ghost before = rec.1@;
                if !present {
                    rec.1.push(key);
                    assert(keys_view(rec.1@) =~= keys_view(before).push(k));
                }
                self.person_occupancies.insert(j, rec);
                proof {
                    assert(occ_view(self.person_occupancies@) =~= occupy(occ0, (person_id@, period_id@), k));
                }
            },
            None => {
                let mut keys: Vec<PauliKey> = Vec::new();
                keys.push(key);
                assert(keys_view(keys@) =~= seq![k]);
                self.person_occupancies.push(((person, period), keys));
                proof {
                    assert(occ_view(self.person_occupancies@) =~= occupy(occ0, (person_id@, period_id@), k));
                }
            },
        }
        result
    }
}

proof fn lemma_push_contains<A>(s: Seq<A>, x: A, k: A)
    ensures
        s.push(x).contains(k) == (s.contains(k) || x == k),
{
    if s.contains(k) {
        let j = choose|j: int| 0 <= j < s.len() && s[j] == k;
        assert(s.push(x)[j] == k);
    }
    if x == k {
        assert(s.push(x)[s.len() as int] == k);
    }
    if s.push(x).contains(k) {
        let j = choose|j: int| 0 <= j < s.push(x).len() && s.push(x)[j] == k;
        if j < s.len() {
            assert(s[j] == k);
        }
    }
}

proof fn lemma_count_le(s: Seq<(PauliKey, Vec<String>)>, classes: Seq<Seq<char>>, period: Seq<char>, want: nat)
    ensures
        count_slots(s, classes, period, want) <= s.len(),
    decreases s.len(),
{
    if s.len() > 0 {
        lemma_count_le(s.drop_last(), classes, period, want);
    }
}

/// Pauli capacity: a proposal for a slot that already seats two is never accepted, so no
/// slot ever holds a third occupant.
pub proof fn law_pauli_capacity(st: HundianState, person: Seq<char>, k: KeyView, has_waiver: bool)
    requires
        slot_pos(st.registered_slots@, k) >= 0,
        st.registered_slots@[slot_pos(st.registered_slots@, k)].1@.len() >= 2,
    ensures
        !accepted(gate_verdict(st, person, k, has_waiver)),
{
}

} // verus!
