use vstd::prelude::*;
use crate::decimal::{decimal, push_decimal};

verus! {

/// Sharding of one mesh axis: free, fully replicated, or split along a tensor dimension.
#[derive(Debug, Clone, Copy, PartialEq, Eq, Structural)]
pub enum ShardingState {
    Unconstrained,
    Replicated,
    Sharded(u32),
}

/// Structured diagnostic produced when two partitions cannot be met.
#[derive(Debug, Clone, PartialEq, Eq)]
pub struct ConflictReport {
    pub mesh_axis: u32,
    pub left_state: ShardingState,
    pub right_state: ShardingState,
    pub left_lineage: Option<u64>,
    pub right_lineage: Option<u64>,
    pub diagnostic_reason: String,
}

/// Value-level picture of a [`ConflictReport`].
pub struct ConflictSpec {
    pub mesh_axis: u32,
    pub left_state: ShardingState,
    pub right_state: ShardingState,
    pub left_lineage: Option<u64>,
    pub right_lineage: Option<u64>,
    pub diagnostic_reason: Seq<char>,
}

impl View for ConflictReport {
    type V = ConflictSpec;

    open spec fn view(&self) -> ConflictSpec {
        ConflictSpec {
            mesh_axis: self.mesh_axis,
            left_state: self.left_state,
            right_state: self.right_state,
            left_lineage: self.left_lineage,
            right_lineage: self.right_lineage,
            diagnostic_reason: self.diagnostic_reason@,
        }
    }
}

/// Value-level picture of a [`TensorPartition`]: its bindings as a map and its lineage.
pub struct PartSpec {
    pub bindings: Map<u32, ShardingState>,
    pub lineage: Option<u64>,
}

/// Mesh-axis bindings of a tensor, kept as an association list sorted by strictly
/// increasing mesh axis, together with an optional lineage tag.
#[derive(Debug, Clone, PartialEq, Eq)]
pub struct TensorPartition {
    pub mesh_bindings: Vec<(u32, ShardingState)>,
    pub lineage_tag: Option<u64>,
}

/// Mesh axes strictly increase along the association list.
pub open spec fn sorted_axes(s: Seq<(u32, ShardingState)>) -> bool {
    forall|i: int, j: int| 0 <= i < j < s.len() ==> #[trigger] s[i].0 < #[trigger] s[j].0
}

/// The finite map that an association list denotes (later entries win).
pub open spec fn binding_map(s: Seq<(u32, ShardingState)>) -> Map<u32, ShardingState>
    decreases s.len(),
{
    if s.len() == 0 {
        Map::empty()
    } else {
        binding_map(s.drop_last()).insert(s.last().0, s.last().1)
    }
}

/// The state of a mesh axis; axes without a binding are unconstrained.
pub open spec fn state_of(m: Map<u32, ShardingState>, k: u32) -> ShardingState {
    if m.dom().contains(k) {
        m[k]
    } else {
        ShardingState::Unconstrained
    }
}

/// Greatest lower bound of two axis states in the sharding lattice, `None` on conflict.
pub open spec fn meet_state(s1: ShardingState, s2: ShardingState) -> Option<ShardingState> {
    match (s1, s2) {
        (ShardingState::Unconstrained, s) => Some(s),
        (s, ShardingState::Unconstrained) => Some(s),
        (ShardingState::Replicated, ShardingState::Replicated) => Some(ShardingState::Replicated),
        (ShardingState::Replicated, ShardingState::Sharded(d)) => Some(ShardingState::Sharded(d)),
        (ShardingState::Sharded(d), ShardingState::Replicated) => Some(ShardingState::Sharded(d)),
        (ShardingState::Sharded(d1), ShardingState::Sharded(d2)) => if d1 == d2 {
            Some(ShardingState::Sharded(d1))
        } else {
            None
        },
    }
}

/// Axis `k` is bound on some side and the two states have no meet.
pub open spec fn axis_conflicts(m1: Map<u32, ShardingState>, m2: Map<u32, ShardingState>, k: u32) -> bool {
    (m1.dom().contains(k) || m2.dom().contains(k)) && meet_state(state_of(m1, k), state_of(m2, k)) is None
}

pub open spec fn no_conflict(m1: Map<u32, ShardingState>, m2: Map<u32, ShardingState>) -> bool {
    forall|k: u32| !#[trigger] axis_conflicts(m1, m2, k)
}

/// The bindings of the meet: every axis bound on either side, mapped to the meet of its states.
pub open spec fn meet_map(m1: Map<u32, ShardingState>, m2: Map<u32, ShardingState>) -> Map<u32, ShardingState> {
    Map::new(
        |k: u32| m1.dom().contains(k) || m2.dom().contains(k),
        |k: u32|
            match meet_state(state_of(m1, k), state_of(m2, k)) {
                Some(s) => s,
                None => ShardingState::Unconstrained,
            },
    )
}

/// Lineage of a meet: XOR of both tags, or the one present.
pub open spec fn merge_lineage(l1: Option<u64>, l2: Option<u64>) -> Option<u64> {
    match (l1, l2) {
        (Some(a), Some(b)) => Some(a ^ b),
        (Some(a), None) => Some(a),
        (None, Some(b)) => Some(b),
        (None, None) => None,
    }
}

/// `Sharded(d)` as the `Debug` formatter renders it.
pub open spec fn state_text(s: ShardingState) -> Seq<char> {
    match s {
        ShardingState::Unconstrained => "Unconstrained"@,
        ShardingState::Replicated => "Replicated"@,
        ShardingState::Sharded(d) => "Sharded("@ + decimal(d as nat) + ")"@,
    }
}

/// Diagnostic text of a meet conflict on `axis`.
pub open spec fn conflict_reason(axis: u32, l: ShardingState, r: ShardingState) -> Seq<char> {
    "Mismatched sharded dimensions on mesh axis "@ + decimal(axis as nat) + ": "@ + state_text(l)
        + " vs "@ + state_text(r)
}

/// The smallest mesh axis on which two binding maps conflict.
pub open spec fn least_conflict(m1: Map<u32, ShardingState>, m2: Map<u32, ShardingState>) -> u32 {
    choose|k: u32|
        axis_conflicts(m1, m2, k) && forall|k2: u32| #[trigger] axis_conflicts(m1, m2, k2) ==> k <= k2
}

/// The meet of two partitions: the meet map and merged lineage, or the report on the
/// least conflicting axis.
pub open spec fn spec_meet(p1: PartSpec, p2: PartSpec) -> Result<PartSpec, ConflictSpec> {
    if no_conflict(p1.bindings, p2.bindings) {
        Ok(PartSpec { bindings: meet_map(p1.bindings, p2.bindings), lineage: merge_lineage(p1.lineage, p2.lineage) })
    } else {
        let k = least_conflict(p1.bindings, p2.bindings);
        let l = state_of(p1.bindings, k);
        let r = state_of(p2.bindings, k);
        Err(
            ConflictSpec {
                mesh_axis: k,
                left_state: l,
                right_state: r,
                left_lineage: p1.lineage,
                right_lineage: p2.lineage,
                diagnostic_reason: conflict_reason(k, l, r),
            },
        )
    }
}

/// The partition view of a meet outcome.
pub open spec fn meet_result_view(r: Result<TensorPartition, ConflictReport>) -> Result<PartSpec, ConflictSpec> {
    match r {
        Ok(p) => Ok(p@),
        Err(c) => Err(c@),
    }
}

pub proof fn lemma_binding_map_dom(s: Seq<(u32, ShardingState)>, k: u32)
    ensures
        binding_map(s).dom().contains(k) <==> exists|i: int| 0 <= i < s.len() && s[i].0 == k,
    decreases s.len(),
{
    if s.len() > 0 {
        lemma_binding_map_dom(s.drop_last(), k);
        if binding_map(s).dom().contains(k) && k != s.last().0 {
            let i = choose|i: int| 0 <= i < s.drop_last().len() && s.drop_last()[i].0 == k;
            assert(s[i].0 == k);
        }
        if exists|i: int| 0 <= i < s.len() && s[i].0 == k {
            let i = choose|i: int| 0 <= i < s.len() && s[i].0 == k;
            if i < s.len() - 1 {
                assert(s.drop_last()[i].0 == k);
            }
        }
    }
}

pub proof fn lemma_binding_map_val(s: Seq<(u32, ShardingState)>, i: int)
    requires
        sorted_axes(s),
        0 <= i < s.len(),
    ensures
        binding_map(s).dom().contains(s[i].0),
        binding_map(s)[s[i].0] == s[i].1,
    decreases s.len(),
{
    if i < s.len() - 1 {
        lemma_binding_map_val(s.drop_last(), i);
        assert(s.drop_last()[i] == s[i]);
    }
}

proof fn lemma_prefix_map(a: Seq<(u32, ShardingState)>, i: int, k: u32)
    requires
        sorted_axes(a),
        0 <= i <= a.len(),
    ensures
        binding_map(a.take(i)).dom().contains(k) ==> state_of(binding_map(a), k) == state_of(
            binding_map(a.take(i)),
            k,
        ) && binding_map(a).dom().contains(k),
        binding_map(a).dom().contains(k) && !binding_map(a.take(i)).dom().contains(k) ==> i < a.len()
            && k >= a[i].0,
{
    lemma_binding_map_dom(a, k);
    lemma_binding_map_dom(a.take(i), k);
    if binding_map(a.take(i)).dom().contains(k) {
        let p = choose|p: int| 0 <= p < a.take(i).len() && a.take(i)[p].0 == k;
        assert(a.take(i)[p] == a[p]);
        lemma_binding_map_val(a, p);
        lemma_binding_map_val(a.take(i), p);
    }
    if binding_map(a).dom().contains(k) && !binding_map(a.take(i)).dom().contains(k) {
        let p = choose|p: int| 0 <= p < a.len() && a[p].0 == k;
        if p < i {
            assert(a.take(i)[p].0 == k);
        }
        if p > i {
            assert(a[i].0 < a[p].0);
        }
    }
}

proof fn lemma_push_map(s: Seq<(u32, ShardingState)>, x: (u32, ShardingState))
    ensures
        binding_map(s.push(x)) == binding_map(s).insert(x.0, x.1),
{
    assert(s.push(x).drop_last() =~= s);
}

proof fn lemma_take_succ_map(a: Seq<(u32, ShardingState)>, i: int)
    requires
        0 <= i < a.len(),
    ensures
        binding_map(a.take(i + 1)) == binding_map(a.take(i)).insert(a[i].0, a[i].1),
{
    assert(a.take(i + 1) =~= a.take(i).push(a[i]));
    lemma_push_map(a.take(i), a[i]);
}

fn state_text_push(out: &mut String, s: ShardingState)
    ensures
        final(out)@ == old(out)@ + state_text(s),
{
    match s {
        ShardingState::Unconstrained => {
            proof {
                reveal_strlit("Unconstrained");
            }
            out.append("Unconstrained");
        },
        ShardingState::Replicated => {
            proof {
                reveal_strlit("Replicated");
            }
            out.append("Replicated");
        },
        ShardingState::Sharded(d) => {
            proof {
                reveal_strlit("Sharded(");
                reveal_strlit(")");
            }
            let ghost before = out@;
            out.append("Sharded(");
            push_decimal(out, d as u64);
            out.append(")");
            assert(out@ =~= before + ("Sharded("@ + decimal(d as nat) + ")"@));
        },
    }
}

fn conflict_reason_text(axis: u32, l: ShardingState, r: ShardingState) -> (s: String)
    ensures
        s@ == conflict_reason(axis, l, r),
{
    proof {
        reveal_strlit("Mismatched sharded dimensions on mesh axis ");
        reveal_strlit(": ");
        reveal_strlit(" vs ");
    }
    let mut s = String::new();
    s.append("Mismatched sharded dimensions on mesh axis ");
    push_decimal(&mut s, axis as u64);
    s.append(": ");
    state_text_push(&mut s, l);
    s.append(" vs ");
    state_text_push(&mut s, r);
    assert(s@ =~= conflict_reason(axis, l, r));
    s
}

fn meet_state_exec(s1: ShardingState, s2: ShardingState) -> (r: Option<ShardingState>)
    ensures
        r == meet_state(s1, s2),
{
    match (s1, s2) {
        (ShardingState::Unconstrained, s) => Some(s),
        (s, ShardingState::Unconstrained) => Some(s),
        (ShardingState::Replicated, ShardingState::Replicated) => Some(ShardingState::Replicated),
        (ShardingState::Replicated, ShardingState::Sharded(d)) => Some(ShardingState::Sharded(d)),
        (ShardingState::Sharded(d), ShardingState::Replicated) => Some(ShardingState::Sharded(d)),
        (ShardingState::Sharded(d1), ShardingState::Sharded(d2)) => {
            if d1 == d2 {
                Some(ShardingState::Sharded(d1))
            } else {
                None
            }
        },
    }
}

impl View for TensorPartition {
    type V = PartSpec;

    open spec fn view(&self) -> PartSpec {
        PartSpec { bindings: binding_map(self.mesh_bindings@), lineage: self.lineage_tag }
    }
}

impl TensorPartition {
    /// Well-formed: mesh axes strictly increase.
    pub open spec fn wf(&self) -> bool {
        sorted_axes(self.mesh_bindings@)
    }

    /// The mesh-axis bindings as a map.
    pub open spec fn bindings(&self) -> Map<u32, ShardingState> {
        binding_map(self.mesh_bindings@)
    }

    pub fn new() -> (p: Self)
        ensures
            p.wf(),
            p.bindings() == Map::<u32, ShardingState>::empty(),
            p.lineage_tag is None,
    {
        Self { mesh_bindings: Vec::new(), lineage_tag: None }
    }

    /// Binds `mesh_axis` to `state`, replacing any earlier binding of that axis.
    pub fn set_binding(&mut self, mesh_axis: u32, state: ShardingState)
        requires
            old(self).wf(),
        ensures
            final(self).wf(),
            final(self).bindings() == old(self).bindings().insert(mesh_axis, state),
            final(self).lineage_tag == old(self).lineage_tag,
    {
        let ghost s = self.mesh_bindings@;
        let mut k: usize = 0;
        while k < self.mesh_bindings.len() && self.mesh_bindings[k].0 < mesh_axis
            invariant
                self.mesh_bindings@ == s,
                sorted_axes(s),
                0 <= k <= s.len(),
                forall|p: int| 0 <= p < k ==> s[p].0 < mesh_axis,
            decreases s.len() - k,
        {
            k = k + 1;
        }
        if k < self.mesh_bindings.len() && self.mesh_bindings[k].0 == mesh_axis {
            self.mesh_bindings.set(k, (mesh_axis, state));
            proof {
                let t = self.mesh_bindings@;
                assert(sorted_axes(t));
                assert forall|key: u32| #[trigger] binding_map(t).dom().contains(key)
                    == binding_map(s).insert(mesh_axis, state).dom().contains(key) by {
                    lemma_binding_map_dom(t, key);
                    lemma_binding_map_dom(s, key);
                    if key == mesh_axis {
                        assert(t[k as int].0 == key);
                    } else if binding_map(s).dom().contains(key) {
                        let p = choose|p: int| 0 <= p < s.len() && s[p].0 == key;
                        assert(t[p].0 == key);
                    } else if binding_map(t).dom().contains(key) {
                        let p = choose|p: int| 0 <= p < t.len() && t[p].0 == key;
                        assert(s[p].0 == key);
                    }
                }
                assert forall|key: u32| #[trigger] binding_map(t).dom().contains(key) implies binding_map(t)[key]
                    == binding_map(s).insert(mesh_axis, state)[key] by {
                    lemma_binding_map_dom(t, key);
                    let p = choose|p: int| 0 <= p < t.len() && t[p].0 == key;
                    lemma_binding_map_val(t, p);
                    if p != k {
                        lemma_binding_map_val(s, p);
                    }
                }
                assert(binding_map(t) =~= binding_map(s).insert(mesh_axis, state));
            }
        } else {
            self.mesh_bindings.insert(k, (mesh_axis, state));
            proof {
                let t = self.mesh_bindings@;
                assert(t =~= s.insert(k as int, (mesh_axis, state)));
                assert forall|i: int, j: int| 0 <= i < j < t.len() implies #[trigger] t[i].0
                    < #[trigger] t[j].0 by {
                    if j < k {
                    } else if j == k {
                    } else if i < k {
                        assert(t[j] == s[j - 1]);
                    } else if i == k {
                        assert(t[j] == s[j - 1]);
                        assert(s[k as int].0 >= mesh_axis);
                        if j - 1 > k {
                            assert(s[k as int].0 < s[j - 1].0);
                        }
                    } else {
                        assert(t[j] == s[j - 1]);
                        assert(t[i] == s[i - 1]);
                    }
                }
                assert forall|key: u32| #[trigger] binding_map(t).dom().contains(key)
                    == binding_map(s).insert(mesh_axis, state).dom().contains(key) by {
                    lemma_binding_map_dom(t, key);
                    lemma_binding_map_dom(s, key);
                    if key == mesh_axis {
                        assert(t[k as int].0 == key);
                    } else if binding_map(s).dom().contains(key) {
                        let p = choose|p: int| 0 <= p < s.len() && s[p].0 == key;
                        if p < k {
                            assert(t[p].0 == key);
                        } else {
                            assert(t[p + 1].0 == key);
                        }
                    } else if binding_map(t).dom().contains(key) {
                        let p = choose|p: int| 0 <= p < t.len() && t[p].0 == key;
                        if p < k {
                            assert(s[p].0 == key);
                        } else if p > k {
                            assert(s[p - 1].0 == key);
                        }
                    }
                }
                assert forall|key: u32| #[trigger] binding_map(t).dom().contains(key) implies binding_map(t)[key]
                    == binding_map(s).insert(mesh_axis, state)[key] by {
                    lemma_binding_map_dom(t, key);
                    let p = choose|p: int| 0 <= p < t.len() && t[p].0 == key;
                    lemma_binding_map_val(t, p);
                    if p < k {
                        lemma_binding_map_val(s, p);
                    } else if p > k {
                        lemma_binding_map_val(s, p - 1);
                    }
                }
                assert(binding_map(t) =~= binding_map(s).insert(mesh_axis, state));
            }
        }
    }

    /// Builder form of [`TensorPartition::set_binding`].
    pub fn with_binding(self, mesh_axis: u32, state: ShardingState) -> (p: Self)
        requires
            self.wf(),
        ensures
            p.wf(),
            p.bindings() == self.bindings().insert(mesh_axis, state),
            p.lineage_tag == self.lineage_tag,
    {
        let mut p = self;
        p.set_binding(mesh_axis, state);
        p
    }

    /// Builder that sets the lineage tag.
    pub fn with_lineage(self, lineage: u64) -> (p: Self)
        ensures
            p.mesh_bindings == self.mesh_bindings,
            p.lineage_tag == Some(lineage),
    {
        let mut p = self;
        p.lineage_tag = Some(lineage);
        p
    }

    /// Collective reduction on `mesh_axis`: that axis becomes replicated.
    pub fn apply_allreduce(&mut self, mesh_axis: u32)
        requires
            old(self).wf(),
        ensures
            final(self).wf(),
            final(self).bindings() == old(self).bindings().insert(mesh_axis, ShardingState::Replicated),
            final(self).lineage_tag == old(self).lineage_tag,
    {
        self.set_binding(mesh_axis, ShardingState::Replicated);
    }

    /// A field-by-field copy.
    pub fn copy(&self) -> (p: Self)
        ensures
            p.mesh_bindings@ == self.mesh_bindings@,
            p.lineage_tag == self.lineage_tag,
    {
        let mut v: Vec<(u32, ShardingState)> = Vec::new();
        let mut i: usize = 0;
        while i < self.mesh_bindings.len()
            invariant
                0 <= i <= self.mesh_bindings.len(),
                v@ == self.mesh_bindings@.take(i as int),
            decreases self.mesh_bindings.len() - i,
        {
            v.push(self.mesh_bindings[i]);
            i = i + 1;
            assert(v@ =~= self.mesh_bindings@.take(i as int));
        }
        assert(v@ =~= self.mesh_bindings@);
        Self { mesh_bindings: v, lineage_tag: self.lineage_tag }
    }

    /// Greatest lower bound in the product lattice of axis states. Fails closed with a
    /// report on the smallest mesh axis whose two shardings disagree.
    pub fn meet(&self, other: &Self) -> (r: Result<Self, ConflictReport>)
        requires
            self.wf(),
            other.wf(),
        ensures
            meet_result_view(r) == spec_meet(self@, other@),
            r is Ok <==> no_conflict(self.bindings(), other.bindings()),
            r matches Ok(p) ==> p.wf() && p.bindings() == meet_map(self.bindings(), other.bindings())
                && p.lineage_tag == merge_lineage(self.lineage_tag, other.lineage_tag),
            r matches Err(rep) ==> {
                &&& axis_conflicts(self.bindings(), other.bindings(), rep.mesh_axis)
                &&& forall|k: u32| #[trigger]
                    axis_conflicts(self.bindings(), other.bindings(), k) ==> rep.mesh_axis <= k
                &&& rep.left_state == state_of(self.bindings(), rep.mesh_axis)
                &&& rep.right_state == state_of(other.bindings(), rep.mesh_axis)
                &&& rep.left_lineage == self.lineage_tag
                &&& rep.right_lineage == other.lineage_tag
                &&& rep.diagnostic_reason@ == conflict_reason(
                    rep.mesh_axis,
                    rep.left_state,
                    rep.right_state,
                )
            },
    {
        let a = &self.mesh_bindings;
        let b = &other.mesh_bindings;
        let ghost ma = binding_map(a@);
        let ghost mb = binding_map(b@);
        let mut res: Vec<(u32, ShardingState)> = Vec::new();
        let mut i: usize = 0;
        let mut j: usize = 0;
        while i < a.len() || j < b.len()
            invariant
                a@ == self.mesh_bindings@,
                b@ == other.mesh_bindings@,
                sorted_axes(a@),
                sorted_axes(b@),
                ma == binding_map(a@),
                mb == binding_map(b@),
                0 <= i <= a.len(),
                0 <= j <= b.len(),
                sorted_axes(res@),
                binding_map(res@) =~= meet_map(binding_map(a@.take(i as int)), binding_map(b@.take(j as int))),
                forall|p: int|
                    0 <= p < res.len() ==> (i < a.len() ==> #[trigger] res@[p].0 < a@[i as int].0) && (j
                        < b.len() ==> res@[p].0 < b@[j as int].0),
                forall|k: u32|
                    #[trigger] binding_map(a@.take(i as int)).dom().contains(k) ==> (i < a.len() ==> k
                        < a@[i as int].0) && (j < b.len() ==> k < b@[j as int].0),
                forall|k: u32|
                    #[trigger] binding_map(b@.take(j as int)).dom().contains(k) ==> (i < a.len() ==> k
                        < a@[i as int].0) && (j < b.len() ==> k < b@[j as int].0),
                forall|k: u32|
                    (binding_map(a@.take(i as int)).dom().contains(k) || binding_map(
                        b@.take(j as int),
                    ).dom().contains(k)) ==> !#[trigger] axis_conflicts(ma, mb, k),
            decreases a.len() - i + b.len() - j,
        {
            let ghost old_res = res@;
            let ghost ta = binding_map(a@.take(i as int));
            let ghost tb = binding_map(b@.take(j as int));
            if j >= b.len() || (i < a.len() && a[i].0 < b[j].0) {
                let (k, s) = a[i];
                proof {
                    lemma_take_succ_map(a@, i as int);
                    lemma_prefix_map(b@, j as int, k);
                    lemma_binding_map_dom(b@, k);
                    if mb.dom().contains(k) {
                        let q = choose|q: int| 0 <= q < b@.len() && b@[q].0 == k;
                        if j < b.len() && q > j {
                            assert(b@[j as int].0 < b@[q].0);
                        }
                    }
                    lemma_binding_map_val(a@, i as int);
                }
                res.push((k, s));
                proof {
                    lemma_push_map(old_res, (k, s));
                    assert(!tb.dom().contains(k));
                    assert(!ta.dom().contains(k));
                    let na = binding_map(a@.take(i + 1));
                    assert(binding_map(res@) =~= meet_map(na, tb)) by {
                        assert forall|key: u32| #[trigger] meet_map(na, tb).dom().contains(key) implies binding_map(
                            res@,
                        )[key] == meet_map(na, tb)[key] by {
                            if key != k {
                                assert(state_of(na, key) == state_of(ta, key));
                            }
                        }
                    }
                    assert(!axis_conflicts(ma, mb, k)) by {
                        lemma_prefix_map(a@, i as int + 1, k);
                    }
                    assert forall|kk: u32| #[trigger] na.dom().contains(kk) implies (i + 1 < a.len()
                        ==> kk < a@[i + 1].0) && (j < b.len() ==> kk < b@[j as int].0) by {
                        if i + 1 < a.len() {
                            assert(a@[i as int].0 < a@[i + 1].0);
                        }
                    }
                    assert forall|kk: u32| #[trigger] tb.dom().contains(kk) && i + 1 < a.len() implies kk < a@[i + 1].0 by {
                        if i + 1 < a.len() {
                            assert(a@[i as int].0 < a@[i + 1].0);
                        }
                    }
                    assert forall|p: int| 0 <= p < res.len() implies (i + 1 < a.len()
                        ==> #[trigger] res@[p].0 < a@[i + 1].0) && (j < b.len() ==> res@[p].0
                        < b@[j as int].0) by {
                        if i + 1 < a.len() {
                            assert(a@[i as int].0 < a@[i + 1].0);
                        }
                    }
                }
                i = i + 1;
            } else if i >= a.len() || b[j].0 < a[i].0 {
                let (k, s) = b[j];
                proof {
                    lemma_take_succ_map(b@, j as int);
                    lemma_prefix_map(a@, i as int, k);
                    lemma_binding_map_dom(a@, k);
                    if ma.dom().contains(k) {
                        let q = choose|q: int| 0 <= q < a@.len() && a@[q].0 == k;
                        if i < a.len() && q > i {
                            assert(a@[i as int].0 < a@[q].0);
                        }
                    }
                    lemma_binding_map_val(b@, j as int);
                }
                res.push((k, s));
                proof {
                    lemma_push_map(old_res, (k, s));
                    assert(!tb.dom().contains(k));
                    assert(!ta.dom().contains(k));
                    let nb = binding_map(b@.take(j + 1));
                    assert(binding_map(res@) =~= meet_map(ta, nb)) by {
                        assert forall|key: u32| #[trigger] meet_map(ta, nb).dom().contains(key) implies binding_map(
                            res@,
                        )[key] == meet_map(ta, nb)[key] by {
                            if key != k {
                                assert(state_of(nb, key) == state_of(tb, key));
                            }
                        }
                    }
                    assert(!axis_conflicts(ma, mb, k)) by {
                        lemma_prefix_map(b@, j as int + 1, k);
                    }
                    assert forall|kk: u32| #[trigger] nb.dom().contains(kk) implies (i < a.len() ==> kk
                        < a@[i as int].0) && (j + 1 < b.len() ==> kk < b@[j + 1].0) by {
                        if j + 1 < b.len() {
                            assert(b@[j as int].0 < b@[j + 1].0);
                        }
                    }
                    assert forall|kk: u32| #[trigger] ta.dom().contains(kk) && j + 1 < b.len() implies kk < b@[j + 1].0 by {
                        if j + 1 < b.len() {
                            assert(b@[j as int].0 < b@[j + 1].0);
                        }
                    }
                    assert forall|p: int| 0 <= p < res.len() implies (i < a.len()
                        ==> #[trigger] res@[p].0 < a@[i as int].0) && (j + 1 < b.len() ==> res@[p].0
                        < b@[j + 1].0) by {
                        if j + 1 < b.len() {
                            assert(b@[j as int].0 < b@[j + 1].0);
                        }
                    }
                }
                j = j + 1;
            } else {
                let (k, s1) = a[i];
                let (_, s2) = b[j];
                proof {
                    lemma_take_succ_map(a@, i as int);
                    lemma_take_succ_map(b@, j as int);
                    lemma_binding_map_val(a@, i as int);
                    lemma_binding_map_val(b@, j as int);
                }
                match meet_state_exec(s1, s2) {
                    None => {
                        proof {
                            assert(ma == self.bindings());
                            assert(mb == other.bindings());
                            assert(state_of(ma, k) == s1);
                            assert(state_of(mb, k) == s2);
                            assert(axis_conflicts(ma, mb, k));
                            assert(!no_conflict(ma, mb));
                            assert forall|kk: u32| #[trigger] axis_conflicts(ma, mb, kk) implies k <= kk by {
                                if kk < k {
                                    lemma_prefix_map(a@, i as int, kk);
                                    lemma_prefix_map(b@, j as int, kk);
                                    lemma_binding_map_dom(a@, kk);
                                    lemma_binding_map_dom(b@, kk);
                                }
                            }
                        }
                        proof {
                            let lc = least_conflict(ma, mb);
                            assert(axis_conflicts(ma, mb, lc));
                            assert(lc <= k && k <= lc);
                        }
                        let reason = conflict_reason_text(k, s1, s2);
                        return Err(
                            ConflictReport {
                                mesh_axis: k,
                                left_state: s1,
                                right_state: s2,
                                left_lineage: self.lineage_tag,
                                right_lineage: other.lineage_tag,
                                diagnostic_reason: reason,
                            },
                        );
                    },
                    Some(s) => {
                        res.push((k, s));
                        proof {
                            lemma_push_map(old_res, (k, s));
                            let na = binding_map(a@.take(i + 1));
                            let nb = binding_map(b@.take(j + 1));
                            assert(!tb.dom().contains(k));
                            assert(!ta.dom().contains(k));
                            assert(binding_map(res@) =~= meet_map(na, nb)) by {
                                assert forall|key: u32| #[trigger] meet_map(na, nb).dom().contains(key) implies binding_map(
                                    res@,
                                )[key] == meet_map(na, nb)[key] by {
                                    if key != k {
                                        assert(state_of(na, key) == state_of(ta, key));
                                        assert(state_of(nb, key) == state_of(tb, key));
                                    }
                                }
                            }
                            assert forall|kk: u32| #[trigger] na.dom().contains(kk) implies (i + 1 < a.len()
                                ==> kk < a@[i + 1].0) && (j + 1 < b.len() ==> kk < b@[j + 1].0) by {
                                if i + 1 < a.len() {
                                    assert(a@[i as int].0 < a@[i + 1].0);
                                }
                                if j + 1 < b.len() {
                                    assert(b@[j as int].0 < b@[j + 1].0);
                                }
                            }
                            assert forall|kk: u32| #[trigger] nb.dom().contains(kk) implies (i + 1 < a.len()
                                ==> kk < a@[i + 1].0) && (j + 1 < b.len() ==> kk < b@[j + 1].0) by {
                                if i + 1 < a.len() {
                                    assert(a@[i as int].0 < a@[i + 1].0);
                                }
                                if j + 1 < b.len() {
                                    assert(b@[j as int].0 < b@[j + 1].0);
                                }
                            }
                            assert forall|p: int| 0 <= p < res.len() implies (i + 1 < a.len()
                                ==> #[trigger] res@[p].0 < a@[i + 1].0) && (j + 1 < b.len()
                                ==> res@[p].0 < b@[j + 1].0) by {
                                if i + 1 < a.len() {
                                    assert(a@[i as int].0 < a@[i + 1].0);
                                }
                                if j + 1 < b.len() {
                                    assert(b@[j as int].0 < b@[j + 1].0);
                                }
                            }
                        }
                        i = i + 1;
                        j = j + 1;
                    },
                }
            }
        }
        proof {
            assert(a@.take(a@.len() as int) =~= a@);
            assert(b@.take(b@.len() as int) =~= b@);
            assert forall|k: u32| !#[trigger] axis_conflicts(ma, mb, k) by {
                if axis_conflicts(ma, mb, k) {
                }
            }
        }
        let lineage = match (self.lineage_tag, other.lineage_tag) {
            (Some(l1), Some(l2)) => Some(l1 ^ l2),
            (Some(l), None) => Some(l),
            (None, Some(l)) => Some(l),
            (None, None) => None,
        };
        Ok(Self { mesh_bindings: res, lineage_tag: lineage })
    }
}

} // verus!

verus! {

/// Meet is commutative: both orders succeed together with the same partition, and both
/// fail on the same axis with the two sides exchanged.
pub proof fn law_meet_commutative(p1: PartSpec, p2: PartSpec)
    ensures
        match (spec_meet(p1, p2), spec_meet(p2, p1)) {
            (Ok(x), Ok(y)) => x == y,
            (Err(x), Err(y)) => x.mesh_axis == y.mesh_axis && x.left_state == y.right_state
                && x.right_state == y.left_state && x.left_lineage == y.right_lineage
                && x.right_lineage == y.left_lineage,
            _ => false,
        },
{
    let (m1, m2) = (p1.bindings, p2.bindings);
    assert forall|k: u32| #[trigger] axis_conflicts(m1, m2, k) == axis_conflicts(m2, m1, k) by {}
    if no_conflict(m1, m2) {
        assert forall|k: u32| !#[trigger] axis_conflicts(m2, m1, k) by {
            assert(!axis_conflicts(m1, m2, k));
        }
        assert(meet_map(m1, m2) =~= meet_map(m2, m1));
        match (p1.lineage, p2.lineage) {
            (Some(a), Some(b)) => {
                assert(a ^ b == b ^ a) by (bit_vector);
            },
            _ => {},
        }
    } else {
        let k = choose|k: u32| #[trigger] axis_conflicts(m1, m2, k);
        assert(axis_conflicts(m2, m1, k));
        let a = least_conflict(m1, m2);
        let b = least_conflict(m2, m1);
        assert(axis_conflicts(m1, m2, a) && forall|k2: u32| #[trigger] axis_conflicts(m1, m2, k2) ==> a <= k2) by {
            lemma_least_conflict_exists(m1, m2, k);
        }
        assert(axis_conflicts(m2, m1, b) && forall|k2: u32| #[trigger] axis_conflicts(m2, m1, k2) ==> b <= k2) by {
            lemma_least_conflict_exists(m2, m1, k);
        }
        assert(axis_conflicts(m1, m2, b) == axis_conflicts(m2, m1, b));
        assert(axis_conflicts(m1, m2, a) == axis_conflicts(m2, m1, a));
        assert(a <= b && b <= a);
    }
}

/// A conflicting axis guarantees that the least conflicting axis is well defined.
pub proof fn lemma_least_conflict_exists(m1: Map<u32, ShardingState>, m2: Map<u32, ShardingState>, k: u32)
    requires
        axis_conflicts(m1, m2, k),
    ensures
        axis_conflicts(m1, m2, least_conflict(m1, m2)),
        forall|k2: u32| #[trigger] axis_conflicts(m1, m2, k2) ==> least_conflict(m1, m2) <= k2,
    decreases k,
{
    if exists|k2: u32| k2 < k && #[trigger] axis_conflicts(m1, m2, k2) {
        let k2 = choose|k2: u32| k2 < k && #[trigger] axis_conflicts(m1, m2, k2);
        lemma_least_conflict_exists(m1, m2, k2);
    } else {
        assert(axis_conflicts(m1, m2, k) && forall|k2: u32| #[trigger] axis_conflicts(m1, m2, k2) ==> k <= k2);
    }
}

/// Meet is idempotent on bindings: a partition met with itself never conflicts and keeps
/// every binding.
pub proof fn law_meet_idempotent(p: PartSpec)
    ensures
        spec_meet(p, p) matches Ok(q) && q.bindings == p.bindings,
{
    assert forall|k: u32| !#[trigger] axis_conflicts(p.bindings, p.bindings, k) by {}
    assert(meet_map(p.bindings, p.bindings) =~= p.bindings);
}

/// `a` constrains a mesh axis at least as much as `b`: anything refines `Unconstrained`, a
/// sharding refines `Replicated`, and every state refines itself.
pub open spec fn refines(a: ShardingState, b: ShardingState) -> bool {
    ||| b == ShardingState::Unconstrained
    ||| a == b
    ||| (b == ShardingState::Replicated && a is Sharded)
}

/// The meet of two axis states is their greatest lower bound in the refinement order: it
/// refines both, every state refining both refines it, and there is no meet exactly when no
/// state refines both.
pub proof fn law_meet_state_is_glb(s1: ShardingState, s2: ShardingState, t: ShardingState)
    ensures
        meet_state(s1, s2) matches Some(s) ==> refines(s, s1) && refines(s, s2),
        meet_state(s1, s2) matches Some(s) ==> (refines(t, s1) && refines(t, s2) ==> refines(t, s)),
        meet_state(s1, s2) is None ==> !(refines(t, s1) && refines(t, s2)),
{
}

/// The meet of two partitions is their greatest lower bound axis by axis: where it succeeds,
/// the state it gives each mesh axis refines the states of both sides, and every state that
/// refines both refines it; where it fails, the reported axis has no state refining both
/// sides.
pub proof fn law_meet_is_glb(p1: PartSpec, p2: PartSpec, k: u32, t: ShardingState)
    ensures
        spec_meet(p1, p2) matches Ok(p) ==> refines(state_of(p.bindings, k), state_of(p1.bindings, k))
            && refines(state_of(p.bindings, k), state_of(p2.bindings, k)),
        spec_meet(p1, p2) matches Ok(p) ==> (refines(t, state_of(p1.bindings, k)) && refines(
            t,
            state_of(p2.bindings, k),
        ) ==> refines(t, state_of(p.bindings, k))),
        spec_meet(p1, p2) matches Err(c) ==> !(refines(t, state_of(p1.bindings, c.mesh_axis)) && refines(
            t,
            state_of(p2.bindings, c.mesh_axis),
        )),
{
    let (m1, m2) = (p1.bindings, p2.bindings);
    law_meet_state_is_glb(state_of(m1, k), state_of(m2, k), t);
    if no_conflict(m1, m2) {
        assert(!axis_conflicts(m1, m2, k));
    } else {
        let w = choose|w: u32| #[trigger] axis_conflicts(m1, m2, w);
        lemma_least_conflict_exists(m1, m2, w);
        let c = least_conflict(m1, m2);
        law_meet_state_is_glb(state_of(m1, c), state_of(m2, c), t);
    }
}

} // verus!
