use vstd::prelude::*;
use crate::partition::{ConflictReport, ConflictSpec, PartSpec, TensorPartition, spec_meet};

verus! {

/// Identifier of an atom of the free abelian group.
pub type AtomId = u64;

/// Exponent of an atom.
pub type Exponent = i64;

/// An element of the free abelian group over atoms (a list of atom/exponent pairs),
/// decorated with the sharding partition of the tensor axis it describes.
#[derive(Debug, Clone, PartialEq, Eq)]
pub struct DecoratedSignature {
    pub atom_exponents: Vec<(AtomId, Exponent)>,
    pub partition: TensorPartition,
}

/// Value-level picture of a [`DecoratedSignature`].
pub struct SigSpec {
    pub exps: Seq<(u64, i64)>,
    pub part: PartSpec,
}

impl View for DecoratedSignature {
    type V = SigSpec;

    open spec fn view(&self) -> SigSpec {
        SigSpec { exps: self.atom_exponents@, part: self.partition@ }
    }
}

/// Sum of the exponents that `s` lists for atom `a`.
pub open spec fn atom_total(s: Seq<(u64, i64)>, a: u64) -> int
    decreases s.len(),
{
    if s.len() == 0 {
        0
    } else {
        atom_total(s.drop_last(), a) + if s.last().0 == a { s.last().1 as int } else { 0 }
    }
}

pub open spec fn atom_seen(s: Seq<(u64, i64)>, a: u64) -> bool {
    exists|i: int| 0 <= i < s.len() && s[i].0 == a
}

/// Some entry among the first `n` of `s` lists atom `a` with a nonzero exponent.
pub open spec fn live_atom(s: Seq<(u64, i64)>, n: int, a: u64) -> bool {
    exists|p: int| 0 <= p < n && s[p].0 == a && s[p].1 != 0
}

/// The group element that `s` denotes: each atom with a nonzero total exponent.
pub open spec fn exponent_map(s: Seq<(u64, i64)>) -> Map<u64, int> {
    Map::new(|a: u64| atom_seen(s, a) && atom_total(s, a) != 0, |a: u64| atom_total(s, a))
}

/// Canonical representation: atoms strictly increase and no exponent is zero.
pub open spec fn canonical(s: Seq<(u64, i64)>) -> bool {
    &&& forall|i: int, j: int| 0 <= i < j < s.len() ==> #[trigger] s[i].0 < #[trigger] s[j].0
    &&& forall|i: int| 0 <= i < s.len() ==> #[trigger] s[i].1 != 0
}

/// The canonical representation of the group element that `s` denotes.
pub open spec fn canonical_of(s: Seq<(u64, i64)>) -> Seq<(u64, i64)> {
    choose|r: Seq<(u64, i64)>| canonical(r) && exponent_map(r) == exponent_map(s)
}

/// Every running total that accumulating `s` atom by atom produces fits in `i64`.
pub open spec fn sums_fit(s: Seq<(u64, i64)>) -> bool {
    forall|n: int, a: u64|
        0 <= n <= s.len() ==> i64::MIN <= #[trigger] atom_total(s.take(n), a) <= i64::MAX
}

/// Sum of two decorated signatures: the meet of their partitions (failing on conflict),
/// and the canonical group sum of their exponents; `None` where a running total
/// overflows `i64`.
#[verifier::opaque]
pub open spec fn spec_sig_add(s1: SigSpec, s2: SigSpec) -> Option<Result<SigSpec, ConflictSpec>> {
    match spec_meet(s1.part, s2.part) {
        Err(c) => Some(Err(c)),
        Ok(p) => if sums_fit(s1.exps + s2.exps) {
            Some(Ok(SigSpec { exps: canonical_of(s1.exps + s2.exps), part: p }))
        } else {
            None
        },
    }
}

pub open spec fn sig_result_view(r: Result<DecoratedSignature, ConflictReport>) -> Result<SigSpec, ConflictSpec> {
    match r {
        Ok(s) => Ok(s@),
        Err(c) => Err(c@),
    }
}

pub proof fn lemma_atom_total_push(s: Seq<(u64, i64)>, x: (u64, i64), a: u64)
    ensures
        atom_total(s.push(x), a) == atom_total(s, a) + if x.0 == a { x.1 as int } else { 0 },
        atom_seen(s.push(x), a) == (atom_seen(s, a) || x.0 == a),
{
    assert(s.push(x).drop_last() =~= s);
    if atom_seen(s.push(x), a) && x.0 != a {
        let i = choose|i: int| 0 <= i < s.push(x).len() && s.push(x)[i].0 == a;
        assert(s[i].0 == a);
    }
    if atom_seen(s, a) {
        let i = choose|i: int| 0 <= i < s.len() && s[i].0 == a;
        assert(s.push(x)[i].0 == a);
    }
    if x.0 == a {
        assert(s.push(x)[s.len() as int].0 == a);
    }
}

pub proof fn lemma_atom_total_unseen(s: Seq<(u64, i64)>, a: u64)
    requires
        !atom_seen(s, a),
    ensures
        atom_total(s, a) == 0,
    decreases s.len(),
{
    if s.len() > 0 {
        assert(s.drop_last() =~= s.drop_last());
        if atom_seen(s.drop_last(), a) {
            let i = choose|i: int| 0 <= i < s.drop_last().len() && s.drop_last()[i].0 == a;
            assert(s[i].0 == a);
        }
        assert(s[s.len() - 1].0 != a);
        lemma_atom_total_unseen(s.drop_last(), a);
    }
}

/// In a canonical sequence every listed exponent is the total of its atom.
pub proof fn lemma_canonical_total(r: Seq<(u64, i64)>, i: int)
    requires
        canonical(r),
        0 <= i < r.len(),
    ensures
        atom_total(r, r[i].0) == r[i].1,
    decreases r.len(),
{
    let a = r[i].0;
    if i == r.len() - 1 {
        assert(!atom_seen(r.drop_last(), a)) by {
            if atom_seen(r.drop_last(), a) {
                let j = choose|j: int| 0 <= j < r.drop_last().len() && r.drop_last()[j].0 == a;
                assert(r[j].0 < r[i].0);
            }
        }
        lemma_atom_total_unseen(r.drop_last(), a);
    } else {
        assert(canonical(r.drop_last()));
        assert(r.drop_last()[i] == r[i]);
        lemma_canonical_total(r.drop_last(), i);
        assert(r.last().0 != a);
    }
}

proof fn lemma_canonical_map(r: Seq<(u64, i64)>)
    requires
        canonical(r),
    ensures
        forall|a: u64| #[trigger] exponent_map(r).dom().contains(a) <==> atom_seen(r, a),
        forall|i: int| 0 <= i < r.len() ==> #[trigger] exponent_map(r)[r[i].0] == r[i].1 as int,
{
    assert forall|a: u64| #[trigger] exponent_map(r).dom().contains(a) <==> atom_seen(r, a) by {
        if atom_seen(r, a) {
            let i = choose|i: int| 0 <= i < r.len() && r[i].0 == a;
            lemma_canonical_total(r, i);
        }
    }
    assert forall|i: int| 0 <= i < r.len() implies #[trigger] exponent_map(r)[r[i].0] == r[i].1 as int by {
        lemma_canonical_total(r, i);
    }
}

/// Two canonical sequences that denote the same group element are identical.
pub proof fn lemma_canonical_unique(r1: Seq<(u64, i64)>, r2: Seq<(u64, i64)>)
    requires
        canonical(r1),
        canonical(r2),
        exponent_map(r1) == exponent_map(r2),
    ensures
        r1 == r2,
    decreases r1.len() + r2.len(),
{
    lemma_canonical_map(r1);
    lemma_canonical_map(r2);
    if r1.len() == 0 && r2.len() == 0 {
        assert(r1 =~= r2);
    } else if r1.len() == 0 {
        assert(atom_seen(r2, r2[0].0));
        assert(exponent_map(r2).dom().contains(r2[0].0));
    } else if r2.len() == 0 {
        assert(atom_seen(r1, r1[0].0));
        assert(exponent_map(r1).dom().contains(r1[0].0));
    } else {
        let k1 = r1.last().0;
        let k2 = r2.last().0;
        assert(atom_seen(r1, k1));
        assert(atom_seen(r2, k2));
        assert(exponent_map(r2).dom().contains(k1));
        assert(exponent_map(r1).dom().contains(k2));
        let i2 = choose|i: int| 0 <= i < r2.len() && r2[i].0 == k1;
        let i1 = choose|i: int| 0 <= i < r1.len() && r1[i].0 == k2;
        if i2 < r2.len() - 1 {
            assert(r2[i2].0 < r2.last().0);
        }
        if i1 < r1.len() - 1 {
            assert(r1[i1].0 < r1.last().0);
        }
        assert(k1 == k2);
        assert(exponent_map(r1)[k1] == r1.last().1 as int);
        assert(exponent_map(r2)[k2] == r2[r2.len() - 1].1 as int);
        let d1 = r1.drop_last();
        let d2 = r2.drop_last();
        assert(canonical(d1));
        assert(canonical(d2));
        lemma_canonical_map(d1);
        lemma_canonical_map(d2);
        assert forall|a: u64| #[trigger] exponent_map(d1).dom().contains(a) == exponent_map(d2).dom().contains(a)
            by {
            lemma_atom_total_push(d1, r1.last(), a);
            lemma_atom_total_push(d2, r2.last(), a);
            assert(d1.push(r1.last()) =~= r1);
            assert(d2.push(r2.last()) =~= r2);
            assert(exponent_map(d1).dom().contains(a) == atom_seen(d1, a));
            assert(exponent_map(d2).dom().contains(a) == atom_seen(d2, a));
            assert(exponent_map(r1).dom().contains(a) == atom_seen(r1, a));
            assert(exponent_map(r2).dom().contains(a) == atom_seen(r2, a));
            if atom_seen(d1, a) {
                let j = choose|j: int| 0 <= j < d1.len() && d1[j].0 == a;
                assert(r1[j].0 < k1);
            }
            if atom_seen(d2, a) {
                let j = choose|j: int| 0 <= j < d2.len() && d2[j].0 == a;
                assert(r2[j].0 < k2);
            }
        }
        assert forall|a: u64| #[trigger] exponent_map(d1).dom().contains(a) implies exponent_map(d1)[a]
            == exponent_map(d2)[a] by {
            lemma_atom_total_push(d1, r1.last(), a);
            lemma_atom_total_push(d2, r2.last(), a);
            assert(d1.push(r1.last()) =~= r1);
            assert(d2.push(r2.last()) =~= r2);
            assert(exponent_map(d1).dom().contains(a) == atom_seen(d1, a));
            let j = choose|j: int| 0 <= j < d1.len() && d1[j].0 == a;
            assert(r1[j].0 < k1);
            assert(exponent_map(r1).dom().contains(a));
            assert(exponent_map(r2).dom().contains(a));
            assert(exponent_map(r1)[a] == atom_total(r1, a));
            assert(exponent_map(r2)[a] == atom_total(r2, a));
        }
        assert(exponent_map(d1) =~= exponent_map(d2));
        lemma_canonical_unique(d1, d2);
        assert(r1 =~= d1.push(r1.last()));
        assert(r2 =~= d2.push(r2.last()));
    }
}

fn exps_copy(v: &Vec<(u64, i64)>) -> (r: Vec<(u64, i64)>)
    ensures
        r@ == v@,
{
    let mut r: Vec<(u64, i64)> = Vec::new();
    let mut i: usize = 0;
    while i < v.len()
        invariant
            0 <= i <= v.len(),
            r@ == v@.take(i as int),
        decreases v.len() - i,
    {
        r.push(v[i]);
        i = i + 1;
        assert(r@ =~= v@.take(i as int));
    }
    assert(r@ =~= v@);
    r
}

/// Element-wise equality of two exponent lists.
pub fn exps_equal(a: &Vec<(u64, i64)>, b: &Vec<(u64, i64)>) -> (r: bool)
    ensures
        r == (a@ == b@),
{
    if a.len() != b.len() {
        return false;
    }
    let mut i: usize = 0;
    while i < a.len()
        invariant
            a.len() == b.len(),
            0 <= i <= a.len(),
            forall|m: int| 0 <= m < i ==> a@[m] == b@[m],
        decreases a.len() - i,
    {
        if a[i].0 != b[i].0 || a[i].1 != b[i].1 {
            return false;
        }
        i = i + 1;
    }
    assert(a@ =~= b@);
    true
}

/// The canonical representation of the group element that `all_v` lists: the
/// exponents of each atom summed in order, zero totals dropped, and the rest
/// sorted strictly by atom.
fn canonical_exps(all_v: &Vec<(u64, i64)>) -> (out: Vec<(u64, i64)>)
    requires
        sums_fit(all_v@),
    ensures
        out@ == canonical_of(all_v@),
        canonical(out@),
        exponent_map(out@) == exponent_map(all_v@),
{
    let ghost all = all_v@;
    let everything = all_v;
    // Running totals per atom, in first-occurrence order.
    let mut acc: Vec<(u64, i64)> = Vec::new();
    let mut i: usize = 0;
    while i < everything.len()
        invariant
            everything@ == all,
            sums_fit(all),
            0 <= i <= all.len(),
            forall|p: int, q: int| 0 <= p < q < acc.len() ==> #[trigger] acc@[p].0 != #[trigger] acc@[q].0,
            forall|p: int| 0 <= p < acc.len() ==> #[trigger] acc@[p].1 == atom_total(all.take(i as int), acc@[p].0),
            forall|a: u64| #[trigger] atom_seen(all.take(i as int), a) <==> exists|p: int| 0 <= p < acc.len() && acc@[p].0 == a,
        decreases all.len() - i,
    {
        let x = everything[i];
        let ghost prefix = all.take(i as int);
        let ghost acc_before = acc@;
        proof {
            assert(all.take(i + 1) =~= prefix.push(x));
            assert forall|a: u64| #[trigger] atom_total(all.take(i + 1), a) == atom_total(prefix, a) + if x.0
                == a { x.1 as int } else { 0 } by {
                lemma_atom_total_push(prefix, x, a);
            }
            assert forall|a: u64| #[trigger] atom_seen(all.take(i + 1), a) == (atom_seen(prefix, a) || x.0 == a) by {
                lemma_atom_total_push(prefix, x, a);
            }
        }
        let mut idx: usize = 0;
        while idx < acc.len() && acc[idx].0 != x.0
            invariant
                0 <= idx <= acc.len(),
                forall|m: int| 0 <= m < idx ==> #[trigger] acc@[m].0 != x.0,
            decreases acc.len() - idx,
        {
            idx = idx + 1;
        }
        if idx < acc.len() {
            let cur = acc[idx].1;
            proof {
                assert(i64::MIN <= atom_total(all.take(i + 1), x.0) <= i64::MAX);
            }
            acc.set(idx, (x.0, cur + x.1));
        } else {
            proof {
                assert(!atom_seen(prefix, x.0));
                lemma_atom_total_unseen(prefix, x.0);
            }
            acc.push(x);
        }
        i = i + 1;
        proof {
            assert forall|a: u64| #[trigger] atom_seen(all.take(i as int), a) <==> exists|p: int|
                0 <= p < acc.len() && acc@[p].0 == a by {
                if atom_seen(all.take(i as int), a) && a != x.0 {
                    assert(atom_seen(prefix, a));
                    let p = choose|p: int| 0 <= p < acc_before.len() && acc_before[p].0 == a;
                    assert(acc@[p].0 == a);
                }
                if a == x.0 {
                    assert(acc@[idx as int].0 == a);
                }
            }
        }
    }
    assert(all.take(all.len() as int) =~= all);
    // Keep the nonzero totals, sorted strictly by atom.
    let mut out: Vec<(u64, i64)> = Vec::new();
    let mut k: usize = 0;
    while k < acc.len()
        invariant
            0 <= k <= acc.len(),
            forall|p: int, q: int| 0 <= p < q < acc.len() ==> #[trigger] acc@[p].0 != #[trigger] acc@[q].0,
            forall|p: int| 0 <= p < acc.len() ==> #[trigger] acc@[p].1 == atom_total(all, acc@[p].0),
            canonical(out@),
            forall|q: int| 0 <= q < out.len() ==> #[trigger] out@[q].1 == atom_total(all, out@[q].0),
            forall|a: u64| #[trigger] atom_seen(out@, a) <==> live_atom(acc@, k as int, a),
        decreases acc.len() - k,
    {
        let x = acc[k];
        if x.1 != 0 {
            proof {
                assert forall|q: int| 0 <= q < out.len() implies #[trigger] out@[q].0 != x.0 by {
                    if out@[q].0 == x.0 {
                        assert(atom_seen(out@, x.0));
                        let p = choose|p: int| 0 <= p < k && acc@[p].0 == x.0 && acc@[p].1 != 0;
                        assert(acc@[p].0 != acc@[k as int].0);
                    }
                }
            }
            let mut pos: usize = out.len();
            while pos > 0 && out[pos - 1].0 > x.0
                invariant
                    0 <= pos <= out.len(),
                    forall|m: int| pos <= m < out.len() ==> #[trigger] out@[m].0 > x.0,
                decreases pos,
            {
                pos = pos - 1;
            }
            let ghost before = out@;
            out.insert(pos, x);
            proof {
                assert(out@ =~= before.insert(pos as int, x));
                assert forall|p: int, q: int| 0 <= p < q < out.len() implies #[trigger] out@[p].0
                    < #[trigger] out@[q].0 by {
                    if q < pos {
                    } else if q == pos {
                        if p < pos - 1 {
                            assert(before[p].0 < before[pos - 1].0);
                        }
                    } else if p < pos {
                        assert(out@[q] == before[q - 1]);
                        if p < pos - 1 {
                            assert(before[p].0 < before[pos - 1].0);
                        }
                    } else if p == pos {
                        assert(out@[q] == before[q - 1]);
                    } else {
                        assert(out@[q] == before[q - 1]);
                        assert(out@[p] == before[p - 1]);
                    }
                }
                assert forall|a: u64| #[trigger] atom_seen(out@, a) <==> live_atom(acc@, k + 1, a) by {
                    if atom_seen(out@, a) {
                        let q = choose|q: int| 0 <= q < out.len() && out@[q].0 == a;
                        if q < pos {
                            assert(before[q].0 == a);
                        } else if q > pos {
                            assert(before[q - 1].0 == a);
                        } else {
                            assert(acc@[k as int].0 == a);
                        }
                        if q < pos {
                            assert(atom_seen(before, a));
                        } else if q > pos {
                            assert(atom_seen(before, a));
                        }
                    }
                    if live_atom(acc@, k + 1, a) {
                        let p = choose|p: int| 0 <= p < k + 1 && acc@[p].0 == a && acc@[p].1 != 0;
                        if p < k {
                            assert(live_atom(acc@, k as int, a));
                            assert(atom_seen(before, a));
                            let q = choose|q: int| 0 <= q < before.len() && before[q].0 == a;
                            if q < pos {
                                assert(out@[q].0 == a);
                            } else {
                                assert(out@[q + 1].0 == a);
                            }
                        } else {
                            assert(out@[pos as int].0 == a);
                        }
                    }
                }
            }
        }
        k = k + 1;
    }
    proof {
        let r = out@;
        lemma_canonical_map(r);
        assert forall|a: u64| #[trigger] exponent_map(r).dom().contains(a) == exponent_map(all).dom().contains(a) by {
            if atom_seen(r, a) {
                assert(live_atom(acc@, acc.len() as int, a));
                let p = choose|p: int| 0 <= p < acc.len() && acc@[p].0 == a && acc@[p].1 != 0;
                assert(atom_seen(all, a));
            }
            if exponent_map(all).dom().contains(a) {
                let p = choose|p: int| 0 <= p < acc.len() && acc@[p].0 == a;
                assert(acc@[p].1 != 0);
                assert(live_atom(acc@, acc.len() as int, a));
                assert(atom_seen(r, a));
            }
        }
        assert forall|a: u64| #[trigger] exponent_map(r).dom().contains(a) implies exponent_map(r)[a]
            == exponent_map(all)[a] by {
            let q = choose|q: int| 0 <= q < r.len() && r[q].0 == a;
            assert(out@[q].0 == a);
        }
        assert(exponent_map(r) =~= exponent_map(all));
        let c = canonical_of(all);
        assert(canonical(c) && exponent_map(c) == exponent_map(all));
        lemma_canonical_unique(r, c);
    }
    out
}

/// What a canonical representation of the element that `s` lists says, atom by atom.
proof fn lemma_canonical_totals(s: Seq<(u64, i64)>, r: Seq<(u64, i64)>)
    requires
        canonical(r),
        exponent_map(r) == exponent_map(s),
    ensures
        forall|i: int| 0 <= i < r.len() ==> #[trigger] r[i].1 == atom_total(s, r[i].0),
        forall|a: u64| #[trigger] atom_seen(r, a) <==> atom_total(s, a) != 0,
{
    lemma_canonical_map(r);
    assert forall|i: int| 0 <= i < r.len() implies #[trigger] r[i].1 == atom_total(s, r[i].0) by {
        let a = r[i].0;
        assert(atom_seen(r, a));
        assert(exponent_map(r).dom().contains(a));
        assert(exponent_map(r)[a] == r[i].1 as int);
        assert(exponent_map(s).dom().contains(a));
        assert(exponent_map(s)[a] == atom_total(s, a));
    }
    assert forall|a: u64| #[trigger] atom_seen(r, a) <==> atom_total(s, a) != 0 by {
        if !atom_seen(s, a) {
            lemma_atom_total_unseen(s, a);
        }
        assert(exponent_map(r).dom().contains(a) == atom_seen(r, a));
        assert(exponent_map(s).dom().contains(a) == (atom_seen(s, a) && atom_total(s, a) != 0));
        assert(exponent_map(r).dom().contains(a) == exponent_map(s).dom().contains(a));
    }
}

impl DecoratedSignature {
    /// The canonical form of the listed group element: the exponents of a repeated
    /// atom are summed, atoms whose total is zero are dropped, and the rest are
    /// sorted strictly by atom.
    pub fn new(atom_exponents: Vec<(AtomId, Exponent)>, partition: TensorPartition) -> (s: Self)
        requires
            sums_fit(atom_exponents@),
        ensures
            canonical(s.atom_exponents@),
            forall|i: int|
                0 <= i < s.atom_exponents@.len() ==> #[trigger] s.atom_exponents@[i].1 == atom_total(
                    atom_exponents@,
                    s.atom_exponents@[i].0,
                ),
            forall|a: u64| #[trigger] atom_seen(s.atom_exponents@, a) <==> atom_total(atom_exponents@, a) != 0,
            s.atom_exponents@ == canonical_of(atom_exponents@),
            s.partition == partition,
    {
        let exps = canonical_exps(&atom_exponents);
        proof {
            lemma_canonical_totals(atom_exponents@, exps@);
        }
        Self { atom_exponents: exps, partition }
    }

    pub fn is_empty(&self) -> (b: bool)
        ensures
            b == (self.atom_exponents@.len() == 0),
    {
        self.atom_exponents.len() == 0
    }

    /// A field-by-field copy.
    pub fn copy(&self) -> (s: Self)
        ensures
            s@ == self@,
            s.partition.mesh_bindings@ == self.partition.mesh_bindings@,
    {
        Self { atom_exponents: exps_copy(&self.atom_exponents), partition: self.partition.copy() }
    }

    /// Group sum of two signatures over the meet of their partitions. A partition
    /// conflict is reported before any exponent is summed.
    pub fn add(&self, other: &Self) -> (r: Result<Self, ConflictReport>)
        requires
            self.partition.wf(),
            other.partition.wf(),
            spec_sig_add(self@, other@) is Some,
        ensures
            Some(sig_result_view(r)) == spec_sig_add(self@, other@),
            r matches Ok(s) ==> s.partition.wf() && canonical(s.atom_exponents@),
    {
        reveal(spec_sig_add);
        let merged = match self.partition.meet(&other.partition) {
            Ok(p) => p,
            Err(c) => {
                return Err(c);
            },
        };
        let ghost all = self.atom_exponents@ + other.atom_exponents@;
        let mut everything = exps_copy(&self.atom_exponents);
        let mut t: usize = 0;
        while t < other.atom_exponents.len()
            invariant
                0 <= t <= other.atom_exponents.len(),
                everything@ == self.atom_exponents@ + other.atom_exponents@.take(t as int),
            decreases other.atom_exponents.len() - t,
        {
            everything.push(other.atom_exponents[t]);
            t = t + 1;
            assert(everything@ =~= self.atom_exponents@ + other.atom_exponents@.take(t as int));
        }
        assert(other.atom_exponents@.take(t as int) =~= other.atom_exponents@);
        assert(everything@ == all);
        Ok(Self { atom_exponents: canonical_exps(&everything), partition: merged })
    }
}

} // verus!
