use vstd::prelude::*;
use crate::manifest::{deps_of, DependencyMeta, EnsembleManifest};
use crate::rational::{EnsembleError, PosRat};
use crate::anchor::anchor_ok;
use crate::spectral::{certify_check, certify_outcome, lemma_certify_views, Ensemble};

verus! {

/// Reasons a link is refused.
#[derive(Debug, PartialEq, Eq)]
pub enum LinkerError {
    DependencyNotFound(String),
    /// The certification failed for a reason other than the anchor or the norm.
    SpectralBudgetExceeded { ensemble: String },
    /// A dependency declared the first prime index; the registered ensemble carries the second.
    IncompatiblePrime(u64, u64),
    MissingTheoremAnchor { ensemble: String },
    NormContractivityViolation { ensemble: String, norm_1: (u64, u64) },
}

/// Value-level picture of a [`LinkerError`].
pub enum LinkerErrorView {
    DependencyNotFound(Seq<char>),
    SpectralBudgetExceeded { ensemble: Seq<char> },
    IncompatiblePrime(u64, u64),
    MissingTheoremAnchor { ensemble: Seq<char> },
    NormContractivityViolation { ensemble: Seq<char>, norm_1: (u64, u64) },
}

impl View for LinkerError {
    type V = LinkerErrorView;

    open spec fn view(&self) -> LinkerErrorView {
        match self {
            LinkerError::DependencyNotFound(s) => LinkerErrorView::DependencyNotFound(s@),
            LinkerError::SpectralBudgetExceeded { ensemble } => LinkerErrorView::SpectralBudgetExceeded {
                ensemble: ensemble@,
            },
            LinkerError::IncompatiblePrime(a, b) => LinkerErrorView::IncompatiblePrime(*a, *b),
            LinkerError::MissingTheoremAnchor { ensemble } => LinkerErrorView::MissingTheoremAnchor {
                ensemble: ensemble@,
            },
            LinkerError::NormContractivityViolation { ensemble, norm_1 } => LinkerErrorView::NormContractivityViolation {
                ensemble: ensemble@,
                norm_1: *norm_1,
            },
        }
    }
}

pub open spec fn link_result_view(r: Result<(), LinkerError>) -> Result<(), LinkerErrorView> {
    match r {
        Ok(()) => Ok(()),
        Err(e) => Err(e@),
    }
}

/// Registry of ensemble manifests, by name, and the linker over it.
pub struct SpectralGovernor {
    registry: Vec<(String, EnsembleManifest)>,
}

/// Position of the first manifest at or after `i` registered under `name`, or -1.
pub open spec fn reg_pos_from(reg: Seq<(String, EnsembleManifest)>, name: Seq<char>, i: int) -> int
    decreases reg.len() - i,
{
    if i < 0 || i >= reg.len() {
        -1
    } else if reg[i].0@ == name {
        i
    } else {
        reg_pos_from(reg, name, i + 1)
    }
}

/// Position of the manifest registered under `name`, or -1.
pub open spec fn reg_pos(reg: Seq<(String, EnsembleManifest)>, name: Seq<char>) -> int {
    reg_pos_from(reg, name, 0)
}

/// The manifest registered under `name`.
pub open spec fn manifest_of(reg: Seq<(String, EnsembleManifest)>, name: Seq<char>) -> EnsembleManifest {
    reg[reg_pos(reg, name)].1
}

pub open spec fn names_view(v: Seq<String>) -> Seq<Seq<char>> {
    v.map_values(|s: String| s@)
}

/// Depth-first collection of the ensembles that `name` depends on, appended to `nodes` in
/// visiting order; the first dependency that is not registered stops it. `fuel` bounds the
/// depth and is never exhausted with the registry's size (see [`lemma_nodes_bound`]).
pub open spec fn visit(reg: Seq<(String, EnsembleManifest)>, name: Seq<char>, nodes: Seq<Seq<char>>, fuel: nat) -> Result<
    Seq<Seq<char>>,
    Seq<char>,
>
    decreases fuel, 0int,
{
    if nodes.contains(name) {
        Ok(nodes)
    } else if fuel == 0 {
        Ok(nodes)
    } else {
        visit_deps(reg, deps_of(manifest_of(reg, name)), 0, nodes.push(name), (fuel - 1) as nat)
    }
}

/// [`visit`] over the dependencies `deps` from the `i`-th on.
pub open spec fn visit_deps(
    reg: Seq<(String, EnsembleManifest)>,
    deps: Seq<(String, DependencyMeta)>,
    i: nat,
    nodes: Seq<Seq<char>>,
    fuel: nat,
) -> Result<Seq<Seq<char>>, Seq<char>>
    decreases fuel, deps.len() + 1 - i,
{
    if i >= deps.len() {
        Ok(nodes)
    } else {
        let d = deps[i as int].0@;
        if reg_pos(reg, d) < 0 {
            Err(d)
        } else {
            match visit(reg, d, nodes, fuel) {
                Err(x) => Err(x),
                Ok(n2) => visit_deps(reg, deps, i + 1, n2, fuel),
            }
        }
    }
}

/// The first dependency, in node order and then in declaration order, that is not
/// registered or whose declared prime index differs from the registered one.
pub open spec fn scan(reg: Seq<(String, EnsembleManifest)>, nodes: Seq<Seq<char>>, i: int, k: int) -> Option<
    LinkerErrorView,
>
    decreases nodes.len() - i, deps_of(manifest_of(reg, nodes[i])).len() - k,
{
    if i < 0 || i >= nodes.len() {
        None
    } else {
        let deps = deps_of(manifest_of(reg, nodes[i]));
        if k < 0 || k >= deps.len() {
            scan(reg, nodes, i + 1, 0)
        } else {
            let d = deps[k].0@;
            if reg_pos(reg, d) < 0 {
                Some(LinkerErrorView::DependencyNotFound(d))
            } else if deps[k].1.prime_index is Some && deps[k].1.prime_index->0 != manifest_of(
                reg,
                d,
            ).ensemble.prime_index {
                Some(
                    LinkerErrorView::IncompatiblePrime(
                        deps[k].1.prime_index->0,
                        manifest_of(reg, d).ensemble.prime_index,
                    ),
                )
            } else {
                scan(reg, nodes, i, k + 1)
            }
        }
    }
}

/// Gain of the last dependency in `deps` named `name`, if any.
pub open spec fn weight_of(deps: Seq<(String, DependencyMeta)>, name: Seq<char>) -> Option<Option<PosRat>>
    decreases deps.len(),
{
    if deps.len() == 0 {
        None
    } else if deps.last().0@ == name {
        Some(deps.last().1.spectral_max)
    } else {
        weight_of(deps.drop_last(), name)
    }
}

/// Entry `(i, j)` of the interconnection matrix: the gain of node `i`'s dependency on node
/// `j`, zero when there is none; `None` for a gain that is not a number.
pub open spec fn cell(reg: Seq<(String, EnsembleManifest)>, nodes: Seq<Seq<char>>, i: int, j: int) -> Option<PosRat> {
    match weight_of(deps_of(manifest_of(reg, nodes[i])), nodes[j]) {
        Some(w) => w,
        None => Some(PosRat { num: 0, den: 1 }),
    }
}

/// The declared spectral radius of node `i`.
pub open spec fn radius(reg: Seq<(String, EnsembleManifest)>, nodes: Seq<Seq<char>>, i: int) -> Option<PosRat> {
    manifest_of(reg, nodes[i]).governance.spectral_radius
}

pub open spec fn cells_ok(reg: Seq<(String, EnsembleManifest)>, nodes: Seq<Seq<char>>) -> bool {
    forall|i: int, j: int| 0 <= i < nodes.len() && 0 <= j < nodes.len() ==> #[trigger] cell(reg, nodes, i, j) is Some
}

pub open spec fn radii_ok(reg: Seq<(String, EnsembleManifest)>, nodes: Seq<Seq<char>>) -> bool {
    forall|i: int| 0 <= i < nodes.len() ==> #[trigger] radius(reg, nodes, i) is Some
}

/// `e` is the ensemble that linking `root` over `nodes` certifies: the matrix of gains and
/// the radii, each replaced by nothing when one of its values is not a number.
pub open spec fn linked_ensemble(e: Ensemble, reg: Seq<(String, EnsembleManifest)>, root: Seq<char>, nodes: Seq<Seq<char>>) -> bool {
    &&& e.name@ == root
    &&& e.theorem_name@ == manifest_of(reg, root).governance.theorem_name@
    &&& e.adjacency@.len() == (if cells_ok(reg, nodes) {
        nodes.len()
    } else {
        0
    })
    &&& forall|i: int| 0 <= i < e.adjacency@.len() ==> (#[trigger] e.adjacency@[i])@.len() == nodes.len()
    &&& forall|i: int, j: int|
        0 <= i < e.adjacency@.len() && 0 <= j < nodes.len() ==> Some(#[trigger] e.adjacency@[i]@[j]) == cell(
            reg,
            nodes,
            i,
            j,
        )
    &&& e.lambdas@.len() == (if radii_ok(reg, nodes) {
        nodes.len()
    } else {
        0
    })
    &&& forall|i: int| 0 <= i < e.lambdas@.len() ==> Some(#[trigger] e.lambdas@[i]) == radius(reg, nodes, i)
}

/// The nodes to link under `root`, or the error that stops the link before certification.
pub open spec fn link_plan(reg: Seq<(String, EnsembleManifest)>, root: Seq<char>) -> Result<Seq<Seq<char>>, LinkerErrorView> {
    if reg_pos(reg, root) < 0 {
        Err(LinkerErrorView::DependencyNotFound(root))
    } else {
        match visit(reg, root, Seq::empty(), reg.len()) {
            Err(d) => Err(LinkerErrorView::DependencyNotFound(d)),
            Ok(nodes) => match scan(reg, nodes, 0, 0) {
                Some(x) => Err(x),
                None => Ok(nodes),
            },
        }
    }
}

/// What the linker answers for a certification outcome; an outcome that the 1-norm
/// arithmetic could not reach (`None`) is refused as over budget.
pub open spec fn link_verdict(c: Option<Result<PosRat, EnsembleError>>, root: Seq<char>) -> Result<(), LinkerErrorView> {
    match c {
        Some(Ok(_)) => Ok(()),
        Some(Err(EnsembleError::MissingTheoremAnchor)) => Err(LinkerErrorView::MissingTheoremAnchor { ensemble: root }),
        Some(Err(EnsembleError::NormContractivityViolation { .. })) => Err(
            LinkerErrorView::NormContractivityViolation { ensemble: root, norm_1: (1, 1) },
        ),
        _ => Err(LinkerErrorView::SpectralBudgetExceeded { ensemble: root }),
    }
}

/// Visited names are distinct and registered.
pub open spec fn nodes_ok(reg: Seq<(String, EnsembleManifest)>, nodes: Seq<Seq<char>>) -> bool {
    &&& nodes.no_duplicates()
    &&& forall|k: int| 0 <= k < nodes.len() ==> reg_pos(reg, #[trigger] nodes[k]) >= 0
}

proof fn lemma_reg_pos_from(reg: Seq<(String, EnsembleManifest)>, name: Seq<char>, i: int)
    requires
        0 <= i,
    ensures
        ({
            let r = reg_pos_from(reg, name, i);
            &&& r >= 0 ==> i <= r < reg.len() && reg[r].0@ == name
            &&& r < 0 ==> r == -1 && forall|j: int| i <= j < reg.len() && 0 <= j ==> reg[j].0@ != name
        }),
    decreases reg.len() - i,
{
    if 0 <= i < reg.len() && reg[i].0@ != name {
        lemma_reg_pos_from(reg, name, i + 1);
    }
}

/// Distinct registered names not including a registered `name` are fewer than the
/// registry's entries.
proof fn lemma_nodes_bound(reg: Seq<(String, EnsembleManifest)>, nodes: Seq<Seq<char>>, name: Seq<char>)
    requires
        nodes_ok(reg, nodes),
        reg_pos(reg, name) >= 0,
        !nodes.contains(name),
    ensures
        nodes.len() < reg.len(),
{
    let names = reg.map_values(|e: (String, EnsembleManifest)| e.0@);
    let grown = nodes.push(name);
    assert(grown.no_duplicates()) by {
        assert forall|a: int, b: int| 0 <= a < grown.len() && 0 <= b < grown.len() && a != b implies grown[a]
            != grown[b] by {
            if a == nodes.len() as int {
                assert(grown[b] == nodes[b]);
            } else if b == nodes.len() as int {
                assert(grown[a] == nodes[a]);
            }
        }
    }
    grown.unique_seq_to_set();
    names.lemma_cardinality_of_set();
    assert(grown.to_set().subset_of(names.to_set())) by {
        assert forall|x: Seq<char>| grown.to_set().contains(x) implies names.to_set().contains(x) by {
            let k = choose|k: int| 0 <= k < grown.len() && grown[k] == x;
            lemma_reg_pos_from(reg, x, 0);
            let r = reg_pos(reg, x);
            if k < nodes.len() {
                assert(grown[k] == nodes[k]);
            }
            assert(names[r] == x);
        }
    }
    vstd::set_lib::lemma_len_subset(grown.to_set(), names.to_set());
}

fn same_name(a: &String, b: &String) -> (r: bool)
    ensures
        r == (a@ == b@),
{
    *a == *b
}

/// Position of `name` among `nodes`, the first one.
fn position(nodes: &Vec<String>, name: &String) -> (r: Option<usize>)
    ensures
        match r {
            Some(i) => i < nodes@.len() && nodes@[i as int]@ == name@ && forall|j: int|
                0 <= j < i ==> (#[trigger] nodes@[j])@ != name@,
            None => !names_view(nodes@).contains(name@),
        },
{
    let mut i: usize = 0;
    while i < nodes.len()
        invariant
            0 <= i <= nodes@.len(),
            forall|j: int| 0 <= j < i ==> (#[trigger] nodes@[j])@ != name@,
        decreases nodes.len() - i,
    {
        if same_name(&nodes[i], name) {
            return Some(i);
        }
        i = i + 1;
    }
    proof {
        if names_view(nodes@).contains(name@) {
            let j = choose|j: int| 0 <= j < names_view(nodes@).len() && names_view(nodes@)[j] == name@;
            assert(nodes@[j]@ == name@);
        }
    }
    None
}

impl SpectralGovernor {
    /// The registered manifests, in registration order.
    pub closed spec fn registry_view(&self) -> Seq<(String, EnsembleManifest)> {
        self.registry@
    }

    pub fn new() -> (g: Self)
        ensures
            g.registry_view().len() == 0,
    {
        Self { registry: Vec::new() }
    }

    fn find(&self, name: &String) -> (r: Option<usize>)
        ensures
            match r {
                Some(i) => i as int == reg_pos(self.registry_view(), name@) && i < self.registry_view().len(),
                None => reg_pos(self.registry_view(), name@) < 0,
            },
    {
        let ghost reg = self.registry@;
        let mut i: usize = 0;
        while i < self.registry.len()
            invariant
                0 <= i <= reg.len(),
                reg == self.registry@,
                reg_pos(reg, name@) == reg_pos_from(reg, name@, i as int),
            decreases self.registry.len() - i,
        {
            if same_name(&self.registry[i].0, name) {
                return Some(i);
            }
            i = i + 1;
        }
        None
    }

    /// Registers `manifest` under its ensemble name, replacing an earlier one of that name.
    pub fn register(&mut self, manifest: EnsembleManifest)
        ensures
            ({
                let reg = old(self).registry_view();
                let name = manifest.ensemble.name@;
                let p = reg_pos(reg, name);
                &&& p >= 0 ==> final(self).registry_view() == reg.update(p, (reg[p].0, manifest))
                &&& p < 0 ==> final(self).registry_view().len() == reg.len() + 1
                    && final(self).registry_view().drop_last() == reg
                    && final(self).registry_view().last().0@ == name
                    && final(self).registry_view().last().1 == manifest
            }),
    {
        let name = manifest.ensemble.name.clone();
        match self.find(&name) {
            Some(i) => {
                let key = self.registry[i].0.clone();
                self.registry.set(i, (key, manifest));
            },
            None => {
                self.registry.push((name, manifest));
                proof {
                    assert(self.registry@.drop_last() =~= old(self).registry@);
                }
            },
        }
    }

    /// Depth-first collection from the manifest at `idx` (see [`visit`]).
    fn collect_dependencies(&self, idx: usize, nodes: &mut Vec<String>, Ghost(fuel): Ghost<nat>) -> (r: Result<
        (),
        LinkerError,
    >)
        requires
            idx < self.registry_view().len(),
            idx as int == reg_pos(self.registry_view(), self.registry_view()[idx as int].0@),
            nodes_ok(self.registry_view(), names_view(old(nodes)@)),
            fuel + old(nodes)@.len() >= self.registry_view().len(),
        ensures
            nodes_ok(self.registry_view(), names_view(final(nodes)@)),
            final(nodes)@.len() >= old(nodes)@.len(),
            match visit(self.registry_view(), self.registry_view()[idx as int].0@, names_view(old(nodes)@), fuel) {
                Ok(ns) => r is Ok && names_view(final(nodes)@) == ns,
                Err(d) => r matches Err(LinkerError::DependencyNotFound(s)) && s@ == d,
            },
        decreases fuel,
    {
        let ghost reg = self.registry@;
        let ghost nm = reg[idx as int].0@;
        let name = &self.registry[idx].0;
        let found = position(nodes, name);
        if found.is_some() {
            proof {
                let j = found->0 as int;
                assert(names_view(nodes@)[j] == nm);
            }
            return Ok(());
        }
        proof {
            lemma_reg_pos_from(reg, nm, 0);
            lemma_nodes_bound(reg, names_view(nodes@), nm);
        }
        let ghost before = names_view(nodes@);
        nodes.push(name.clone());
        proof {
            assert(names_view(nodes@) =~= before.push(nm));
            assert(nodes_ok(reg, names_view(nodes@))) by {
                let g = names_view(nodes@);
                assert forall|a: int, b: int| 0 <= a < g.len() && 0 <= b < g.len() && a != b implies g[a] != g[b] by {
                    if a == before.len() as int {
                        assert(g[b] == before[b]);
                    } else if b == before.len() as int {
                        assert(g[a] == before[a]);
                    } else {
                        assert(g[a] == before[a] && g[b] == before[b]);
                    }
                }
                assert forall|k: int| 0 <= k < g.len() implies reg_pos(reg, #[trigger] g[k]) >= 0 by {
                    if k < before.len() {
                        assert(g[k] == before[k]);
                    }
                }
            }
        }
        let ghost f1 = (fuel - 1) as nat;
        match &self.registry[idx].1.dependencies {
            None => {
                assert(deps_of(manifest_of(reg, nm)) =~= Seq::<(String, DependencyMeta)>::empty());
                Ok(())
            },
            Some(deps) => {
                let ghost ds = deps@;
                assert(deps_of(manifest_of(reg, nm)) == ds);
                let mut k: usize = 0;
                while k < deps.len()
                    invariant
                        0 <= k <= ds.len(),
                        ds == deps@,
                        reg == self.registry@,
                        idx < reg.len(),
                        nm == reg[idx as int].0@,
                        f1 + 1 == fuel,
                        nodes_ok(reg, names_view(nodes@)),
                        nodes@.len() > old(nodes)@.len(),
                        f1 + nodes@.len() >= reg.len(),
                        visit(reg, nm, names_view(old(nodes)@), fuel) == visit_deps(reg, ds, k as nat, names_view(nodes@), f1),
                    decreases deps.len() - k,
                {
                    let dn = &deps[k].0;
                    let ghost cur = names_view(nodes@);
                    proof {
                        assert(ds[k as int].0@ == dn@);
                    }
                    match self.find(dn) {
                        None => {
                            assert(visit_deps(reg, ds, k as nat, cur, f1) == Err::<Seq<Seq<char>>, Seq<char>>(dn@));
                            assert(visit(reg, nm, names_view(old(nodes)@), fuel) == Err::<Seq<Seq<char>>, Seq<char>>(dn@));
                            let e = dn.clone();
                            assert(e@ == dn@);
                            return Err(LinkerError::DependencyNotFound(e));
                        },
                        Some(di) => {
                            proof {
                                lemma_reg_pos_from(reg, dn@, 0);
                                assert(reg[di as int].0@ == dn@);
                            }
                            let res = self.collect_dependencies(di, nodes, Ghost(f1));
                            proof {
                                assert(visit_deps(reg, ds, k as nat, cur, f1) == match visit(reg, dn@, cur, f1) {
                                    Err(x) => Err(x),
                                    Ok(n2) => visit_deps(reg, ds, (k + 1) as nat, n2, f1),
                                });
                            }
                            if res.is_err() {
                                return res;
                            }
                        },
                    }
                    k = k + 1;
                }
                Ok(())
            },
        }
    }

    /// Links the ensemble registered as `root_name` with everything it depends on: collects
    /// the dependency closure depth first, checks the declared prime indices, builds the
    /// interconnection matrix and the radii over the collected nodes, and certifies
    /// `||G||_1 < 1` under the root's theorem anchor. Where the exact 1-norm arithmetic
    /// would overflow, the link is refused as over budget.
    pub fn link(&self, root_name: &str) -> (r: Result<(), LinkerError>)
        ensures
            match link_plan(self.registry_view(), root_name@) {
                Err(x) => link_result_view(r) == Err::<(), LinkerErrorView>(x),
                Ok(nodes) => forall|e: Ensemble|
                    linked_ensemble(e, self.registry_view(), root_name@, nodes) ==> link_result_view(r)
                        == link_verdict(certify_check(e), root_name@),
            },
    {
        let ghost reg = self.registry@;
        let root = root_name.to_owned();
        let root_idx = match self.find(&root) {
            Some(i) => i,
            None => {
                return Err(LinkerError::DependencyNotFound(root));
            },
        };
        proof {
            lemma_reg_pos_from(reg, root@, 0);
        }
        let mut nodes: Vec<String> = Vec::new();
        proof {
            assert(names_view(nodes@) =~= Seq::<Seq<char>>::empty());
        }
        let collected = self.collect_dependencies(root_idx, &mut nodes, Ghost(reg.len() as nat));
        proof {
            assert(reg[root_idx as int].0@ == root@);
        }
        if collected.is_err() {
            return collected;
        }
        let ghost ns = names_view(nodes@);
        proof {
            assert(visit(reg, root@, Seq::empty(), reg.len()) == Ok::<Seq<Seq<char>>, Seq<char>>(ns));
            assert(root@ == root_name@);
            assert(scan(reg, ns, 0, 0) is None ==> link_plan(reg, root_name@) == Ok::<Seq<Seq<char>>, LinkerErrorView>(ns));
        }
        self.build_and_certify(&root, root_idx, &nodes)
    }

    fn build_and_certify(&self, root: &String, root_idx: usize, nodes: &Vec<String>) -> (r: Result<(), LinkerError>)
        requires
            root_idx as int == reg_pos(self.registry_view(), root@),
            0 <= root_idx < self.registry_view().len(),
            nodes_ok(self.registry_view(), names_view(nodes@)),
        ensures
            match scan(self.registry_view(), names_view(nodes@), 0, 0) {
                Some(x) => link_result_view(r) == Err::<(), LinkerErrorView>(x),
                None => forall|e: Ensemble|
                    linked_ensemble(e, self.registry_view(), root@, names_view(nodes@)) ==> link_result_view(r)
                        == link_verdict(certify_check(e), root@),
            },
    {
        let ghost reg = self.registry@;
        let ghost ns = names_view(nodes@);
        let n = nodes.len();
        let mut rows: Vec<Vec<PosRat>> = Vec::new();
        let mut cells_good = true;
        let mut lambdas: Vec<PosRat> = Vec::new();
        let mut radii_good = true;
        let mut i: usize = 0;
        while i < n
            invariant
                0 <= i <= n == ns.len(),
                reg == self.registry@,
                ns == names_view(nodes@),
                nodes_ok(reg, ns),
                scan(reg, ns, 0, 0) == scan(reg, ns, i as int, 0),
                rows@.len() == i,
                forall|q: int| 0 <= q < i ==> (#[trigger] rows@[q])@.len() == n,
                cells_good == (forall|q: int, j: int| 0 <= q < i && 0 <= j < n ==> #[trigger] cell(reg, ns, q, j) is Some),
                cells_good ==> forall|q: int, j: int| 0 <= q < i && 0 <= j < n ==> Some(#[trigger] rows@[q]@[j]) == cell(reg, ns, q, j),
                radii_good == (forall|q: int| 0 <= q < i ==> #[trigger] radius(reg, ns, q) is Some),
                radii_good ==> lambdas@.len() == i,
                radii_good ==> forall|q: int| 0 <= q < i ==> Some(#[trigger] lambdas@[q]) == radius(reg, ns, q),
            decreases n - i,
        {
            let pos = match self.find(&nodes[i]) {
                Some(p) => p,
                None => {
                    proof {
                        assert(reg_pos(reg, ns[i as int]) >= 0);
                    }
                    return Err(LinkerError::SpectralBudgetExceeded { ensemble: root.clone() });
                },
            };
            let manifest = &self.registry[pos].1;
            let ghost m = manifest_of(reg, ns[i as int]);
            proof {
                assert(*manifest == m);
            }
            let ghost radii_before = radii_good;
            match manifest.governance.spectral_radius {
                Some(rad) => {
                    if radii_good {
                        lambdas.push(rad);
                    }
                },
                None => {
                    radii_good = false;
                },
            }
            proof {
                assert(radius(reg, ns, i as int) == manifest.governance.spectral_radius);
                assert(radii_good == (forall|q: int| 0 <= q < i + 1 ==> #[trigger] radius(reg, ns, q) is Some)) by {
                    if !radii_good {
                        if radii_before {
                            assert(!(radius(reg, ns, i as int) is Some));
                        } else {
                            let q = choose|q: int| 0 <= q < i && !(#[trigger] radius(reg, ns, q) is Some);
                            assert(!(radius(reg, ns, q) is Some));
                        }
                    }
                }
            }
            let mut row_opt: Vec<Option<PosRat>> = Vec::new();
            let mut j: usize = 0;
            while j < n
                invariant
                    0 <= j <= n,
                    row_opt@.len() == j,
                    forall|t: int| 0 <= t < j ==> #[trigger] row_opt@[t] == Some(PosRat { num: 0, den: 1 }),
                decreases n - j,
            {
                row_opt.push(Some(PosRat::zero()));
                j = j + 1;
            }
            let ghost ds = deps_of(m);
            match &manifest.dependencies {
                None => {
                    proof {
                        assert(ds =~= Seq::<(String, DependencyMeta)>::empty());
                        assert(scan(reg, ns, i as int, 0) == scan(reg, ns, i + 1, 0));
                        assert forall|t: int| 0 <= t < n implies #[trigger] row_opt@[t] == cell(reg, ns, i as int, t) by {
                            assert(weight_of(ds, ns[t]) is None);
                        }
                    }
                },
                Some(deps) => {
                    let mut k: usize = 0;
                    proof {
                        assert(deps@ == ds);
                        assert forall|t: int| 0 <= t < n implies #[trigger] row_opt@[t] == (match weight_of(ds.take(0), ns[t]) {
                            Some(w) => w,
                            None => Some(PosRat { num: 0, den: 1 }),
                        }) by {
                            assert(ds.take(0) =~= Seq::<(String, DependencyMeta)>::empty());
                        }
                    }
                    while k < deps.len()
                        invariant
                            0 <= k <= ds.len(),
                            ds == deps@,
                            ds == deps_of(manifest_of(reg, ns[i as int])),
                            0 <= i < n == ns.len(),
                            reg == self.registry@,
                            ns == names_view(nodes@),
                            nodes_ok(reg, ns),
                            scan(reg, ns, 0, 0) == scan(reg, ns, i as int, k as int),
                            row_opt@.len() == n,
                            forall|t: int| 0 <= t < n ==> #[trigger] row_opt@[t] == (match weight_of(ds.take(k as int), ns[t]) {
                                Some(w) => w,
                                None => Some(PosRat { num: 0, den: 1 }),
                            }),
                        decreases deps.len() - k,
                    {
                        let dn = &deps[k].0;
                        let ghost cur = row_opt@;
                        proof {
                            assert(ds.take(k + 1).drop_last() =~= ds.take(k as int));
                            assert(ds.take(k + 1).last() == ds[k as int]);
                        }
                        let dpos = match self.find(dn) {
                            Some(p) => p,
                            None => {
                                proof {
                                    assert(scan(reg, ns, i as int, k as int) == Some(LinkerErrorView::DependencyNotFound(dn@)));
                                }
                                return Err(LinkerError::DependencyNotFound(dn.clone()));
                            },
                        };
                        proof {
                            lemma_reg_pos_from(reg, dn@, 0);
                        }
                        match deps[k].1.prime_index {
                            Some(expected) => {
                                let actual = self.registry[dpos].1.ensemble.prime_index;
                                if expected != actual {
                                    proof {
                                        assert(scan(reg, ns, i as int, k as int) == Some(LinkerErrorView::IncompatiblePrime(expected, actual)));
                                    }
                                    return Err(LinkerError::IncompatiblePrime(expected, actual));
                                }
                            },
                            None => {},
                        }
                        proof {
                            assert(scan(reg, ns, i as int, k as int) == scan(reg, ns, i as int, k + 1));
                        }
                        let w = deps[k].1.spectral_max;
                        match position(nodes, dn) {
                            Some(jj) => {
                                row_opt.set(jj, w);
                                proof {
                                    assert forall|t: int| 0 <= t < n implies #[trigger] row_opt@[t] == (match weight_of(ds.take(k + 1), ns[t]) {
                                        Some(w) => w,
                                        None => Some(PosRat { num: 0, den: 1 }),
                                    }) by {
                                        if t != jj {
                                            assert(ns[t] != ns[jj as int]);
                                        }
                                    }
                                }
                            },
                            None => {
                                proof {
                                    assert forall|t: int| 0 <= t < n implies #[trigger] row_opt@[t] == (match weight_of(ds.take(k + 1), ns[t]) {
                                        Some(w) => w,
                                        None => Some(PosRat { num: 0, den: 1 }),
                                    }) by {
                                        assert(ns[t] != dn@);
                                    }
                                }
                            },
                        }
                        k = k + 1;
                    }
                    proof {
                        assert(ds.take(ds.len() as int) =~= ds);
                        assert(scan(reg, ns, i as int, k as int) == scan(reg, ns, i + 1, 0));
                        assert forall|t: int| 0 <= t < n implies #[trigger] row_opt@[t] == cell(reg, ns, i as int, t) by {}
                    }
                },
            }
            // turn the row of optional gains into gains, noting whether all were numbers
            let mut row: Vec<PosRat> = Vec::new();
            let mut row_good = true;
            let mut t: usize = 0;
            while t < n
                invariant
                    0 <= t <= n,
                    row_opt@.len() == n,
                    row@.len() == t,
                    row_good == (forall|u: int| 0 <= u < t ==> (#[trigger] row_opt@[u]) is Some),
                    forall|u: int| 0 <= u < t && row_opt@[u] is Some ==> Some(#[trigger] row@[u]) == row_opt@[u],
                decreases n - t,
            {
                match row_opt[t] {
                    Some(x) => {
                        row.push(x);
                    },
                    None => {
                        row.push(PosRat::zero());
                        row_good = false;
                    },
                }
                t = t + 1;
            }
            let ghost prev_rows = rows@;
            rows.push(row);
            proof {
                assert(rows@[i as int] == row);
                assert forall|q: int| 0 <= q < i + 1 implies (#[trigger] rows@[q])@.len() == n by {
                    if q < i {
                        assert(rows@[q] == prev_rows[q]);
                    }
                }
            }
            let ghost was_good = cells_good;
            cells_good = cells_good && row_good;
            proof {
                assert(cells_good == (forall|q: int, j: int| 0 <= q < i + 1 && 0 <= j < n ==> #[trigger] cell(reg, ns, q, j) is Some)) by {
                    if !row_good {
                        let u = choose|u: int| 0 <= u < n && !((#[trigger] row_opt@[u]) is Some);
                        assert(!(cell(reg, ns, i as int, u) is Some));
                    }
                    if row_good && was_good {
                        assert forall|q: int, j: int| 0 <= q < i + 1 && 0 <= j < n implies #[trigger] cell(reg, ns, q, j) is Some by {
                            if q == i {
                                assert(row_opt@[j] is Some);
                            }
                        }
                    }
                }
                if cells_good {
                    assert forall|q: int, j: int| 0 <= q < i + 1 && 0 <= j < n implies Some(#[trigger] rows@[q]@[j]) == cell(reg, ns, q, j) by {
                        if q < i {
                            assert(rows@[q] == prev_rows[q]);
                        } else {
                            assert(row_opt@[j] is Some);
                        }
                    }
                }
                if radii_good {
                    assert forall|q: int| 0 <= q < i + 1 implies Some(#[trigger] lambdas@[q]) == radius(reg, ns, q) by {}
                }
            }
            i = i + 1;
        }
        proof {
            assert(scan(reg, ns, n as int, 0) is None);
        }
        let root_manifest = &self.registry[root_idx].1;
        let adjacency = if cells_good {
            rows
        } else {
            Vec::new()
        };
        let gains = if radii_good {
            lambdas
        } else {
            Vec::new()
        };
        let ensemble = Ensemble::from_rationals(root.as_str(), adjacency, gains).with_theorem_name(
            root_manifest.governance.theorem_name.as_str(),
        );
        proof {
            assert(linked_ensemble(ensemble, reg, root@, ns));
            assert forall|e: Ensemble| linked_ensemble(e, reg, root@, ns) implies certify_check(e) == certify_check(
                ensemble,
            ) by {
                assert forall|q: int| 0 <= q < e.adjacency@.len() implies (#[trigger] e.adjacency@[q])@
                    == ensemble.adjacency@[q]@ by {
                    assert forall|j: int| 0 <= j < ns.len() implies e.adjacency@[q]@[j] == ensemble.adjacency@[q]@[j] by {
                        assert(Some(e.adjacency@[q]@[j]) == cell(reg, ns, q, j));
                        assert(Some(ensemble.adjacency@[q]@[j]) == cell(reg, ns, q, j));
                    }
                    assert(e.adjacency@[q]@ =~= ensemble.adjacency@[q]@);
                }
                assert(e.lambdas@ =~= ensemble.lambdas@) by {
                    assert forall|q: int| 0 <= q < e.lambdas@.len() implies e.lambdas@[q] == ensemble.lambdas@[q] by {
                        assert(Some(e.lambdas@[q]) == radius(reg, ns, q));
                        assert(Some(ensemble.lambdas@[q]) == radius(reg, ns, q));
                    }
                }
                lemma_certify_views(e, ensemble);
            }
        }
        match certify_outcome(&ensemble) {
            Some(Ok(_)) => Ok(()),
            Some(Err(EnsembleError::MissingTheoremAnchor)) => Err(
                LinkerError::MissingTheoremAnchor { ensemble: root.clone() },
            ),
            Some(Err(EnsembleError::NormContractivityViolation { .. })) => Err(
                LinkerError::NormContractivityViolation { ensemble: root.clone(), norm_1: (1, 1) },
            ),
            _ => Err(LinkerError::SpectralBudgetExceeded { ensemble: root.clone() }),
        }
    }
}
/// A link that succeeds has certified the linked ensemble: its theorem anchor is present
/// and its exact 1-norm is below one.
pub proof fn law_link_certifies_contractivity(e: Ensemble, root: Seq<char>)
    ensures
        link_verdict(certify_check(e), root) is Ok ==> anchor_ok(e.theorem_name@) && (certify_check(e) matches Some(
            Ok(n),
        ) && n.num < n.den),
{
}

} // verus!
