//! Validated config types — the output of a successful pipeline run.
use vstd::prelude::*;
use crate::text::{owned, str_eq, strs_view};
use crate::json::{str_lt, seq_lt, strictly_sorted, lemma_seq_lt_transitive, lemma_seq_lt_total};
use vstd::set_lib::*;
use crate::json::Json;
use crate::stages::s10_pin_conflicts::{PinMode, PullMode};

verus! {

/// Resolved firmware framework.
#[derive(Debug, Clone, Copy, PartialEq, Eq, Hash, Structural)]
pub enum FrameworkType {
    EspIdf,
    Arduino,
}

impl Default for FrameworkType {
    /// ESP-IDF is the default framework.
    fn default() -> (r: Self)
        ensures
            r == FrameworkType::EspIdf,
    {
        FrameworkType::EspIdf
    }
}

/// Target chip family.
#[derive(Debug, Clone, Copy, PartialEq, Eq, Hash, Structural)]
pub enum ChipTarget {
    Esp32,
    Esp32S2,
    Esp32S3,
    Esp32C3,
    Esp32C5,
    Esp32C6,
    Esp32H2,
    Esp32P4,
}

/// Resolved ESPHome device block.
#[derive(Debug)]
pub struct ValidatedEsphomeBlock {
    /// Device name.
    pub name: String,
    /// Resolved chip target.
    pub chip_target: ChipTarget,
    /// Board identifier.
    pub board: String,
    /// Optional friendly name.
    pub friendly_name: Option<String>,
    /// Resolved framework.
    pub framework_type: FrameworkType,
    /// OTA project identity, when declared.
    pub project: Option<ValidatedProjectConfig>,
    /// Solution id, when the config declares one.
    pub solution_id: Option<String>,
    /// Resolved solution variant id.
    pub solution_variant_id: Option<String>,
}

/// Validated OTA project identity.
#[derive(Debug, Clone)]
pub struct ValidatedProjectConfig {
    pub name: String,
    pub version: String,
}

/// A component instance after validation.
#[derive(Debug)]
pub struct ValidatedComponent {
    /// Canonical component id (`"dht"`, `"wifi"`).
    pub component_id: String,
    /// Platform type for platform components (`"sensor"` for a `dht` sensor).
    pub platform_type: Option<String>,
    /// Index of the instance among the config's components of its type.
    pub index: usize,
    /// The entity id (`id:` field), if present.
    pub entity_id: Option<String>,
    /// Validated config values.
    pub config: Json,
    /// The component was added by AUTO_LOAD rather than declared.
    pub auto_loaded: bool,
}

/// A GPIO pin allocated to a component.
#[derive(Debug, Clone)]
pub struct PinAllocation {
    pub gpio_num: u8,
    pub mode: PinMode,
    pub component: String,
    pub pull_mode: Option<PullMode>,
    pub inverted: bool,
}

/// Complete validated config — the successful output of the pipeline.
#[derive(Debug)]
pub struct ValidatedConfig {
    /// Resolved device/platform metadata.
    pub esphome: ValidatedEsphomeBlock,
    /// All component instances (including auto-loaded).
    pub components: Vec<ValidatedComponent>,
    /// Active `USE_*` flag names.
    pub active_flags: Vec<String>,
    /// Allocated GPIO pins.
    pub pin_allocations: Vec<PinAllocation>,
    /// Resolved dependency graph.
    pub dependency_graph: DependencyGraph,
}

/// Directed dependency graph over component ids: an edge `A → B` means
/// "component A depends on component B".
#[derive(Debug)]
pub struct DependencyGraph {
    /// Direct dependency edges: `component_id → [depends_on_ids]`, one entry per id.
    pub edges: Vec<(String, Vec<String>)>,
    /// Dependency order computed by [`DependencyGraph::compute_order`].
    pub order: Vec<String>,
}

/// Abstract edges: each id with its dependencies.
pub open spec fn edges_view(e: Seq<(String, Vec<String>)>) -> Seq<(Seq<char>, Seq<Seq<char>>)> {
    e.map_values(|p: (String, Vec<String>)| (p.0@, strs_view(p.1@)))
}

/// Index of the entry for `k`, or the length.
pub open spec fn edge_index(e: Seq<(Seq<char>, Seq<Seq<char>>)>, k: Seq<char>) -> int
    decreases e.len(),
{
    if e.len() == 0 {
        0
    } else if e[0].0 == k {
        0
    } else {
        1 + edge_index(e.drop_first(), k)
    }
}

/// Facts about `edge_index`.
pub proof fn lemma_edge_index(e: Seq<(Seq<char>, Seq<Seq<char>>)>, k: Seq<char>)
    ensures
        0 <= edge_index(e, k) <= e.len(),
        edge_index(e, k) < e.len() ==> e[edge_index(e, k)].0 == k,
        forall|j: int| 0 <= j < edge_index(e, k) ==> e[j].0 != k,
    decreases e.len(),
{
    if e.len() > 0 && e[0].0 != k {
        lemma_edge_index(e.drop_first(), k);
        assert forall|j: int| 0 <= j < edge_index(e, k) implies e[j].0 != k by {
            if j > 0 {
                assert(e[j] == e.drop_first()[j - 1]);
            }
        }
    }
}

/// The dependencies recorded for `k` (none when it has no entry).
pub open spec fn deps_of(e: Seq<(Seq<char>, Seq<Seq<char>>)>, k: Seq<char>) -> Seq<Seq<char>> {
    let i = edge_index(e, k);
    if i < e.len() {
        e[i].1
    } else {
        Seq::empty()
    }
}

/// `n` is a node of the graph: an id with an entry or a dependency of one.
pub open spec fn is_node(e: Seq<(Seq<char>, Seq<Seq<char>>)>, n: Seq<char>) -> bool {
    exists|i: int| 0 <= i < e.len() && (e[i].0 == n || e[i].1.contains(n))
}

/// Each of the first `k` nodes of `order` comes after all of its dependencies.
pub open spec fn settled_prefix(e: Seq<(Seq<char>, Seq<Seq<char>>)>, order: Seq<Seq<char>>, k: int) -> bool {
    forall|i: int, d: Seq<char>|
        0 <= i < k && #[trigger] deps_of(e, order[i]).contains(d) ==> exists|j: int|
            0 <= j < i && #[trigger] order[j] == d
}

/// Each node of `order` from position `k` on depends on a node that is also
/// from position `k` on.
pub open spec fn stuck_tail(e: Seq<(Seq<char>, Seq<Seq<char>>)>, order: Seq<Seq<char>>, k: int) -> bool {
    forall|i: int| k <= i < order.len() ==> #[trigger] has_later_dep(e, order, k, i)
}

/// Entry `i` of `order` depends on a node listed from position `k` on.
pub open spec fn has_later_dep(e: Seq<(Seq<char>, Seq<Seq<char>>)>, order: Seq<Seq<char>>, k: int, i: int) -> bool {
    exists|d: Seq<char>| deps_of(e, order[i]).contains(d) && order.subrange(k, order.len() as int).contains(d)
}

/// `order` splits at `k` into a settled prefix and a stuck tail.
pub open spec fn order_split(e: Seq<(Seq<char>, Seq<Seq<char>>)>, order: Seq<Seq<char>>, k: int) -> bool {
    0 <= k <= order.len() && settled_prefix(e, order, k) && stuck_tail(e, order, k)
}

/// The dependency-order law of an order over the graph: it lists every node
/// exactly once; a prefix of it lists each node after all of that node's
/// dependencies, and every node after that prefix depends on some node that
/// is also after it (so the rest is made of nodes on or behind a cycle).
pub open spec fn dependency_order(e: Seq<(Seq<char>, Seq<Seq<char>>)>, order: Seq<Seq<char>>) -> bool {
    &&& order.no_duplicates()
    &&& forall|n: Seq<char>| is_node(e, n) <==> order.contains(n)
    &&& exists|k: int| #[trigger] order_split(e, order, k)
}

fn position_of(names: &Vec<String>, k: &str) -> (r: usize)
    ensures
        r <= names@.len(),
        r < names@.len() ==> names@[r as int]@ == k@,
        forall|j: int| 0 <= j < r ==> names@[j]@ != k@,
{
    let mut i: usize = 0;
    while i < names.len()
        invariant
            i <= names@.len(),
            forall|j: int| 0 <= j < i ==> names@[j]@ != k@,
        decreases names@.len() - i,
    {
        if str_eq(names[i].as_str(), k) {
            return i;
        }
        i = i + 1;
    }
    i
}

fn edge_position(edges: &Vec<(String, Vec<String>)>, k: &str) -> (r: usize)
    ensures
        r == edge_index(edges_view(edges@), k@),
{
    let ghost e = edges_view(edges@);
    let mut i: usize = 0;
    while i < edges.len()
        invariant
            i <= edges@.len(),
            e == edges_view(edges@),
            forall|j: int| 0 <= j < i ==> e[j].0 != k@,
        decreases edges@.len() - i,
    {
        if str_eq(edges[i].0.as_str(), k) {
            proof {
                lemma_edge_index(e, k@);
                let p = edge_index(e, k@);
                if p < i {
                    assert(e[p].0 != k@);
                } else if i < p {
                    assert(e[i as int].0 == k@);
                }
            }
            return i;
        }
        i = i + 1;
    }
    proof {
        lemma_edge_index(e, k@);
        let p = edge_index(e, k@);
        if p < i {
            assert(e[p].0 != k@);
        }
    }
    i
}

impl DependencyGraph {
    /// An empty graph.
    pub fn new() -> (r: Self)
        ensures
            r.edges@.len() == 0,
            r.order@.len() == 0,
    {
        DependencyGraph { edges: Vec::new(), order: Vec::new() }
    }

    /// Record that `from` depends on `to`.
    pub fn add_dependency(&mut self, from: &str, to: &str)
        ensures
            deps_of(edges_view(final(self).edges@), from@) == deps_of(edges_view(old(self).edges@), from@).push(to@),
            forall|k: Seq<char>| k != from@ ==> deps_of(edges_view(final(self).edges@), k) == deps_of(edges_view(old(self).edges@), k),
            final(self).order == old(self).order,
    {
        let ghost e0 = edges_view(self.edges@);
        let i = edge_position(&self.edges, from);
        proof {
            lemma_edge_index(e0, from@);
        }
        if i < self.edges.len() {
            let mut deps = Vec::new();
            let m = self.edges[i].1.len();
            let mut j: usize = 0;
            while j < m
                invariant
                    j <= m,
                    i < self.edges@.len(),
                    m == self.edges@[i as int].1@.len(),
                    deps@ == self.edges@[i as int].1@.subrange(0, j as int),
                decreases m - j,
            {
                deps.push(self.edges[i].1[j].clone());
                j = j + 1;
                proof {
                    assert(deps@ =~= self.edges@[i as int].1@.subrange(0, j as int));
                }
            }
            proof {
                assert(deps@ =~= self.edges@[i as int].1@);
            }
            deps.push(owned(to));
            let key = self.edges[i].0.clone();
            self.edges.set(i, (key, deps));
            proof {
                let e1 = edges_view(self.edges@);
                assert(strs_view(self.edges@[i as int].1@) =~= e0[i as int].1.push(to@));
                assert(e1 =~= e0.update(i as int, (from@, e0[i as int].1.push(to@))));
                assert forall|j: int| 0 <= j < i implies e1[j].0 != from@ by {
                    assert(e1[j] == e0[j]);
                }
                lemma_edge_index(e1, from@);
                assert(edge_index(e1, from@) == i) by {
                    let p = edge_index(e1, from@);
                    if p < i {
                        assert(e1[p].0 != from@);
                    } else if i < p {
                        assert(e1[i as int].0 == from@);
                    }
                }
                assert forall|k: Seq<char>| k != from@ implies deps_of(e1, k) == deps_of(e0, k) by {
                    lemma_edge_index(e0, k);
                    lemma_edge_index(e1, k);
                    let p0 = edge_index(e0, k);
                    let p1 = edge_index(e1, k);
                    if p0 < p1 {
                        assert(e1[p0].0 == k);
                    } else if p1 < p0 {
                        assert(e0[p1].0 == k || p1 == i);
                        if p1 != i {
                            assert(e0[p1] == e1[p1]);
                        }
                    }
                    assert(strs_view(self.edges@[i as int].1@) == e0[i as int].1.push(to@)) by {
                        assert(strs_view(self.edges@[i as int].1@) =~= e0[i as int].1.push(to@));
                    }
                }
                assert(strs_view(self.edges@[i as int].1@) =~= e0[i as int].1.push(to@));
            }
        } else {
            let mut deps: Vec<String> = Vec::new();
            deps.push(owned(to));
            self.edges.push((owned(from), deps));
            proof {
                let e1 = edges_view(self.edges@);
                assert(strs_view(self.edges@[i as int].1@) =~= seq![to@]);
                assert(e1 =~= e0.push((from@, seq![to@])));
                assert forall|j: int| 0 <= j < i implies e1[j].0 != from@ by {
                    assert(e1[j] == e0[j]);
                }
                lemma_edge_index(e1, from@);
                assert(edge_index(e1, from@) == i) by {
                    let p = edge_index(e1, from@);
                    if p < i {
                        assert(e1[p].0 != from@);
                    } else if i < p {
                        assert(e1[i as int].0 == from@);
                    }
                }
                assert(deps_of(e0, from@) =~= Seq::<Seq<char>>::empty());
                assert forall|k: Seq<char>| k != from@ implies deps_of(e1, k) == deps_of(e0, k) by {
                    lemma_edge_index(e0, k);
                    lemma_edge_index(e1, k);
                    let p0 = edge_index(e0, k);
                    let p1 = edge_index(e1, k);
                    if p0 < e0.len() {
                        assert(e1[p0] == e0[p0]);
                        if p1 < p0 {
                            assert(e1[p1] == e0[p1]);
                        }
                    } else {
                        if p1 < e1.len() {
                            if p1 < e0.len() {
                                assert(e1[p1] == e0[p1]);
                            } else {
                                assert(e1[p1].0 == from@);
                            }
                        }
                    }
                }
                assert(strs_view(self.edges@[i as int].1@) =~= seq![to@]);
            }
        }
    }
}

/// A duplicate-free sequence of indices below `n` has at most `n` elements.
pub proof fn lemma_distinct_bounded(q: Seq<usize>, n: usize)
    requires
        q.no_duplicates(),
        forall|i: int| 0 <= i < q.len() ==> q[i] < n,
    ensures
        q.len() <= n,
{
    let qi = q.map_values(|x: usize| x as int);
    assert(qi.no_duplicates()) by {
        assert forall|a: int, b: int| 0 <= a < qi.len() && 0 <= b < qi.len() && a != b implies qi[a] != qi[b] by {
            assert(q[a] != q[b]);
        }
    }
    qi.unique_seq_to_set();
    lemma_int_range(0, n as int);
    assert(qi.to_set().subset_of(set_int_range(0, n as int))) by {
        assert forall|x: int| qi.to_set().contains(x) implies set_int_range(0, n as int).contains(x) by {
            let i = choose|i: int| 0 <= i < qi.len() && qi[i] == x;
            assert(q[i] < n);
        }
    }
    lemma_len_subset(qi.to_set(), set_int_range(0, n as int));
}

/// The nodes of the graph, each once.
fn collect_nodes(edges: &Vec<(String, Vec<String>)>) -> (r: Vec<String>)
    ensures
        strs_view(r@).no_duplicates(),
        forall|n: Seq<char>| is_node(edges_view(edges@), n) <==> strs_view(r@).contains(n),
{
    let ghost e = edges_view(edges@);
    let mut names: Vec<String> = Vec::new();
    let mut i: usize = 0;
    while i < edges.len()
        invariant
            i <= edges@.len(),
            e == edges_view(edges@),
            strs_view(names@).no_duplicates(),
            forall|n: Seq<char>|
                (exists|j: int| 0 <= j < i && (e[j].0 == n || e[j].1.contains(n))) <==> strs_view(names@).contains(n),
        decreases edges@.len() - i,
    {
        let ghost before = strs_view(names@);
        if crate::catalog::contains_str(&names, edges[i].0.as_str()) == false {
            names.push(edges[i].0.clone());
            proof {
                assert(strs_view(names@) =~= before.push(e[i as int].0));
            }
        }
        let ghost mid = strs_view(names@);
        proof {
            assert forall|n: Seq<char>| mid.contains(n) <==> (before.contains(n) || n == e[i as int].0) by {
                if mid.contains(n) && !before.contains(n) {
                    let k = choose|k: int| 0 <= k < mid.len() && mid[k] == n;
                    if k < before.len() {
                        assert(before[k] == mid[k]);
                    }
                }
                if before.contains(n) {
                    let k = choose|k: int| 0 <= k < before.len() && before[k] == n;
                    assert(mid[k] == before[k]);
                }
                if n == e[i as int].0 && !before.contains(n) {
                    assert(mid[mid.len() - 1] == n);
                }
            }
        }
        let m = edges[i].1.len();
        let mut j: usize = 0;
        while j < m
            invariant
                j <= m,
                i < edges@.len(),
                m == edges@[i as int].1@.len(),
                e == edges_view(edges@),
                strs_view(names@).no_duplicates(),
                forall|n: Seq<char>|
                    #![all_triggers]
                    strs_view(names@).contains(n) <==> (mid.contains(n) || strs_view(edges@[i as int].1@).subrange(0, j as int).contains(n)),
            decreases m - j,
        {
            let ghost b2 = strs_view(names@);
            let ghost ds = strs_view(edges@[i as int].1@);
            if crate::catalog::contains_str(&names, edges[i].1[j].as_str()) == false {
                names.push(edges[i].1[j].clone());
                proof {
                    assert(strs_view(names@) =~= b2.push(ds[j as int]));
                }
            }
            proof {
                let a = strs_view(names@);
                let s0 = ds.subrange(0, j as int);
                let s1 = ds.subrange(0, j + 1);
                assert forall|n: Seq<char>| a.contains(n) <==> (mid.contains(n) || s1.contains(n)) by {
                    if a.contains(n) {
                        let k = choose|k: int| 0 <= k < a.len() && a[k] == n;
                        if k < b2.len() {
                            assert(b2[k] == a[k]);
                            assert(b2.contains(n));
                            if !mid.contains(n) {
                                let q = choose|q: int| 0 <= q < s0.len() && s0[q] == n;
                                assert(s1[q] == n);
                            }
                        } else {
                            assert(s1[j as int] == n);
                        }
                    }
                    if s1.contains(n) {
                        let q = choose|q: int| 0 <= q < s1.len() && s1[q] == n;
                        if q < j {
                            assert(s0[q] == n);
                            assert(s0.contains(n));
                            assert(b2.contains(n));
                            let k = choose|k: int| 0 <= k < b2.len() && b2[k] == n;
                            assert(a[k] == n);
                        } else {
                            if b2.contains(n) {
                                let k = choose|k: int| 0 <= k < b2.len() && b2[k] == n;
                                assert(a[k] == n);
                            } else {
                                assert(a[a.len() - 1] == n);
                            }
                        }
                    }
                    if mid.contains(n) {
                        assert(b2.contains(n));
                        let k = choose|k: int| 0 <= k < b2.len() && b2[k] == n;
                        assert(a[k] == n);
                    }
                }
            }
            j = j + 1;
        }
        proof {
            let ds = strs_view(edges@[i as int].1@);
            assert(ds.subrange(0, m as int) =~= ds);
            assert(e[i as int].1 == ds);
            assert forall|n: Seq<char>|
                (exists|j: int| 0 <= j < i + 1 && (e[j].0 == n || e[j].1.contains(n))) <==> strs_view(names@).contains(n) by {
                if exists|j: int| 0 <= j < i + 1 && (e[j].0 == n || e[j].1.contains(n)) {
                    let jj = choose|j: int| 0 <= j < i + 1 && (e[j].0 == n || e[j].1.contains(n));
                    if jj < i {
                        assert(before.contains(n));
                    }
                }
                if before.contains(n) {
                    let jj = choose|j: int| 0 <= j < i && (e[j].0 == n || e[j].1.contains(n));
                    assert(0 <= jj < i + 1);
                }
            }
        }
        i = i + 1;
    }
    proof {
        assert forall|n: Seq<char>| is_node(e, n) <==> strs_view(names@).contains(n) by {
            if is_node(e, n) {
                let jj = choose|j: int| 0 <= j < e.len() && (e[j].0 == n || e[j].1.contains(n));
                assert(0 <= jj < i);
            }
        }
    }
    names
}

/// Removing an element keeps a sequence free of duplicates and drops
/// exactly that element.
pub proof fn lemma_remove_distinct(r: Seq<Seq<char>>, m: int)
    requires
        r.no_duplicates(),
        0 <= m < r.len(),
    ensures
        r.remove(m).no_duplicates(),
        forall|n: Seq<char>| r.remove(m).contains(n) <==> (r.contains(n) && n != r[m]),
{
    let t = r.remove(m);
    assert forall|a: int, b: int| 0 <= a < t.len() && 0 <= b < t.len() && a != b implies t[a] != t[b] by {
        let ia = if a < m { a } else { a + 1 };
        let ib = if b < m { b } else { b + 1 };
        assert(t[a] == r[ia] && t[b] == r[ib]);
    }
    assert forall|n: Seq<char>| t.contains(n) <==> (r.contains(n) && n != r[m]) by {
        if t.contains(n) {
            let k = choose|k: int| 0 <= k < t.len() && t[k] == n;
            let ik = if k < m { k } else { k + 1 };
            assert(r[ik] == n);
            assert(ik != m);
        }
        if r.contains(n) && n != r[m] {
            let k = choose|k: int| 0 <= k < r.len() && r[k] == n;
            if k < m {
                assert(t[k] == n);
            } else {
                assert(k != m);
                assert(t[k - 1] == n);
            }
        }
    }
}

/// The names in ascending order (selection sort by code points).
fn sort_names(names: Vec<String>) -> (r: Vec<String>)
    requires
        strs_view(names@).no_duplicates(),
    ensures
        strs_view(r@).no_duplicates(),
        strictly_sorted(strs_view(r@)),
        forall|n: Seq<char>| strs_view(names@).contains(n) <==> strs_view(r@).contains(n),
{
    let ghost orig = strs_view(names@);
    let mut rem = names;
    let mut out: Vec<String> = Vec::new();
    while rem.len() > 0
        invariant
            strs_view(out@).no_duplicates(),
            strs_view(rem@).no_duplicates(),
            forall|n: Seq<char>| strs_view(out@).contains(n) ==> !strs_view(rem@).contains(n),
            forall|n: Seq<char>| orig.contains(n) <==> (strs_view(out@).contains(n) || strs_view(rem@).contains(n)),
            strictly_sorted(strs_view(out@)),
            forall|i: int, j: int|
                0 <= i < out@.len() && 0 <= j < rem@.len() ==> seq_lt(
                    #[trigger] strs_view(out@)[i],
                    #[trigger] strs_view(rem@)[j],
                ),
        decreases rem@.len(),
    {
        let ghost rv = strs_view(rem@);
        let mut m: usize = 0;
        let mut k: usize = 1;
        while k < rem.len()
            invariant
                m < k <= rem@.len(),
                rv == strs_view(rem@),
                rv.no_duplicates(),
                forall|j: int| 0 <= j < k && j != m ==> seq_lt(rv[m as int], #[trigger] rv[j]),
            decreases rem@.len() - k,
        {
            let ghost m0 = m;
            if str_lt(rem[k].as_str(), rem[m].as_str()) {
                proof {
                    assert forall|j: int| 0 <= j < k + 1 && j != k implies seq_lt(rv[k as int], #[trigger] rv[j]) by {
                        if j != m0 {
                            lemma_seq_lt_transitive(rv[k as int], rv[m0 as int], rv[j]);
                        }
                    }
                }
                m = k;
            } else {
                proof {
                    assert(rv[k as int] != rv[m as int]);
                    lemma_seq_lt_total(rv[k as int], rv[m as int]);
                }
            }
            k = k + 1;
        }
        proof {
            assert forall|j: int| 0 <= j < rv.len() && j != m implies seq_lt(rv[m as int], #[trigger] rv[j]) by {}
        }
        let ghost mv = rv[m as int];
        let ghost o0 = strs_view(out@);
        let ghost r0 = strs_view(rem@);
        let x = rem.remove(m);
        out.push(x);
        proof {
            let o1 = strs_view(out@);
            let r1 = strs_view(rem@);
            let xv = r0[m as int];
            assert(o1 =~= o0.push(xv));
            assert(r1 =~= r0.remove(m as int));
            lemma_remove_distinct(r0, m as int);
            assert(r0.contains(xv));
            assert(!o0.contains(xv));
            assert forall|n: Seq<char>| o1.contains(n) <==> (o0.contains(n) || n == xv) by {
                if o1.contains(n) {
                    let q = choose|q: int| 0 <= q < o1.len() && o1[q] == n;
                    if q < o0.len() {
                        assert(o0[q] == n);
                    }
                }
                if o0.contains(n) {
                    let q = choose|q: int| 0 <= q < o0.len() && o0[q] == n;
                    assert(o1[q] == n);
                }
                if n == xv {
                    assert(o1[o0.len() as int] == n);
                }
            }
            assert(o1.no_duplicates()) by {
                assert forall|a: int, b: int| 0 <= a < o1.len() && 0 <= b < o1.len() && a != b implies o1[a] != o1[b] by {
                    if a < o0.len() && b < o0.len() {
                        assert(o1[a] == o0[a] && o1[b] == o0[b]);
                    } else if a < o0.len() {
                        assert(o1[a] == o0[a]);
                        assert(o0.contains(o0[a]));
                    } else if b < o0.len() {
                        assert(o1[b] == o0[b]);
                        assert(o0.contains(o0[b]));
                    }
                }
            }
            assert(xv == mv);
            assert(strictly_sorted(o1)) by {
                assert forall|a: int, b: int| 0 <= a < b < o1.len() implies seq_lt(#[trigger] o1[a], #[trigger] o1[b]) by {
                    if b < o0.len() {
                        assert(o1[a] == o0[a] && o1[b] == o0[b]);
                    } else {
                        assert(o1[a] == o0[a]);
                        assert(o1[b] == r0[m as int]);
                    }
                }
            }
            assert forall|i: int, j: int| 0 <= i < o1.len() && 0 <= j < r1.len() implies seq_lt(
                #[trigger] o1[i],
                #[trigger] r1[j],
            ) by {
                let jj = if j < m { j } else { j + 1 };
                assert(r1[j] == r0[jj]);
                if i < o0.len() {
                    assert(o1[i] == o0[i]);
                } else {
                    assert(o1[i] == r0[m as int]);
                    assert(jj != m);
                }
            }
        }
    }
    proof {
        assert forall|n: Seq<char>| orig.contains(n) <==> strs_view(out@).contains(n) by {
            assert(strs_view(rem@).len() == 0);
        }
    }
    out
}

/// The positions in `all` of the dependencies of each node.
fn dependency_indices(edges: &Vec<(String, Vec<String>)>, all: &Vec<String>) -> (r: Vec<Vec<usize>>)
    requires
        forall|n: Seq<char>| is_node(edges_view(edges@), n) <==> strs_view(all@).contains(n),
    ensures
        r@.len() == all@.len(),
        forall|v: int|
            0 <= v < all@.len() ==> (#[trigger] r@[v])@.len() == deps_of(edges_view(edges@), all@[v]@).len(),
        forall|v: int, j: int|
            0 <= v < all@.len() && 0 <= j < r@[v]@.len() ==> (#[trigger] r@[v]@[j]) < all@.len()
                && all@[r@[v]@[j] as int]@ == deps_of(edges_view(edges@), all@[v]@)[j],
{
    let ghost e = edges_view(edges@);
    let mut out: Vec<Vec<usize>> = Vec::new();
    let mut v: usize = 0;
    while v < all.len()
        invariant
            v <= all@.len(),
            e == edges_view(edges@),
            forall|n: Seq<char>| is_node(e, n) <==> strs_view(all@).contains(n),
            out@.len() == v,
            forall|w: int| 0 <= w < v ==> (#[trigger] out@[w])@.len() == deps_of(e, all@[w]@).len(),
            forall|w: int, j: int|
                0 <= w < v && 0 <= j < out@[w]@.len() ==> (#[trigger] out@[w]@[j]) < all@.len()
                    && all@[out@[w]@[j] as int]@ == deps_of(e, all@[w]@)[j],
        decreases all@.len() - v,
    {
        let p = edge_position(edges, all[v].as_str());
        proof {
            lemma_edge_index(e, all@[v as int]@);
        }
        let mut ds: Vec<usize> = Vec::new();
        if p < edges.len() {
            let ghost dv = e[p as int].1;
            proof {
                assert(dv == strs_view(edges@[p as int].1@));
                assert(deps_of(e, all@[v as int]@) == dv);
            }
            let m = edges[p].1.len();
            let mut j: usize = 0;
            while j < m
                invariant
                    j <= m,
                    p < edges@.len(),
                    m == edges@[p as int].1@.len(),
                    dv == strs_view(edges@[p as int].1@),
                    e == edges_view(edges@),
                    forall|n: Seq<char>| is_node(e, n) <==> strs_view(all@).contains(n),
                    dv == e[p as int].1,
                    ds@.len() == j,
                    forall|q: int| 0 <= q < j ==> (#[trigger] ds@[q]) < all@.len() && all@[ds@[q] as int]@ == dv[q],
                decreases m - j,
            {
                let k = position_of(all, edges[p].1[j].as_str());
                proof {
                    assert(dv[j as int] == edges@[p as int].1@[j as int]@);
                    assert(e[p as int].1.contains(dv[j as int]));
                    assert(is_node(e, dv[j as int]));
                    assert(strs_view(all@).contains(dv[j as int]));
                    if k == all@.len() {
                        let w = choose|w: int| 0 <= w < strs_view(all@).len() && strs_view(all@)[w] == dv[j as int];
                        assert(all@[w]@ == dv[j as int]);
                    }
                }
                ds.push(k);
                j = j + 1;
            }
        } else {
            proof {
                assert(deps_of(e, all@[v as int]@) =~= Seq::<Seq<char>>::empty());
            }
        }
        out.push(ds);
        v = v + 1;
    }
    out
}

fn all_processed(ds: &Vec<usize>, processed: &Vec<bool>) -> (r: bool)
    requires
        forall|j: int| 0 <= j < ds@.len() ==> (#[trigger] ds@[j]) < processed@.len(),
    ensures
        r == forall|j: int| 0 <= j < ds@.len() ==> processed@[#[trigger] ds@[j] as int],
{
    let mut j: usize = 0;
    while j < ds.len()
        invariant
            j <= ds@.len(),
            forall|q: int| 0 <= q < ds@.len() ==> (#[trigger] ds@[q]) < processed@.len(),
            forall|q: int| 0 <= q < j ==> processed@[#[trigger] ds@[q] as int],
        decreases ds@.len() - j,
    {
        if !processed[ds[j]] {
            return false;
        }
        j = j + 1;
    }
    true
}

fn contains_index(ds: &Vec<usize>, u: usize) -> (r: bool)
    ensures
        r == ds@.contains(u),
{
    let mut j: usize = 0;
    while j < ds.len()
        invariant
            j <= ds@.len(),
            forall|q: int| 0 <= q < j ==> ds@[q] != u,
        decreases ds@.len() - j,
    {
        if ds[j] == u {
            proof {
                assert(ds@[j as int] == u);
            }
            return true;
        }
        j = j + 1;
    }
    false
}

/// `x` occurs among the first `m` entries of `q`.
pub open spec fn in_prefix(q: Seq<usize>, m: int, x: usize) -> bool {
    exists|p: int| 0 <= p < m && q[p] == x
}

/// Node `w` waits on a dependency that is not processed yet.
pub open spec fn blocked(deps: Seq<Vec<usize>>, processed: Seq<bool>, w: int) -> bool {
    exists|j: int| 0 <= j < deps[w]@.len() && !processed[#[trigger] deps[w]@[j] as int]
}

/// Node `w` waits on a dependency that is not processed yet, or on `u`.
pub open spec fn blocked_or(deps: Seq<Vec<usize>>, processed: Seq<bool>, w: int, u: usize) -> bool {
    exists|j: int| 0 <= j < deps[w]@.len() && (!processed[#[trigger] deps[w]@[j] as int] || deps[w]@[j] == u)
}

/// Entry `i` of `o` depends on an entry at a position from `k` on.
pub open spec fn depends_later(deps: Seq<Vec<usize>>, o: Seq<usize>, k: int, i: int) -> bool {
    exists|j: int, p: int|
        #![trigger deps[o[i] as int]@[j], o[p]]
        0 <= j < deps[o[i] as int]@.len() && k <= p < o.len() && o[p] == deps[o[i] as int]@[j]
}

/// Index form of the dependency order over nodes `0..n`: `o` lists each node
/// once; each of its first `k` entries follows all of its dependencies, and
/// each later entry depends on some later entry.
pub open spec fn index_order(deps: Seq<Vec<usize>>, o: Seq<usize>, k: int) -> bool {
    &&& o.no_duplicates()
    &&& 0 <= k <= o.len()
    &&& forall|i: int| 0 <= i < o.len() ==> (#[trigger] o[i]) < deps.len()
    &&& forall|v: usize| v < deps.len() ==> o.contains(v)
    &&& forall|i: int, j: int|
        0 <= i < k && 0 <= j < deps[o[i] as int]@.len() ==> in_prefix(o, i, #[trigger] deps[o[i] as int]@[j])
    &&& forall|i: int| k <= i < o.len() ==> #[trigger] depends_later(deps, o, k, i)
}

/// The dependency lists of an index graph as sequences.
pub open spec fn index_graph_view(deps: Seq<Vec<usize>>) -> Seq<Seq<usize>> {
    deps.map_values(|x: Vec<usize>| x@)
}

/// The nodes below `v`, ascending, that have no dependencies.
pub open spec fn roots(dg: Seq<Seq<usize>>, v: int) -> Seq<usize>
    decreases v,
{
    if v <= 0 {
        Seq::empty()
    } else if dg[v - 1].len() == 0 {
        roots(dg, v - 1).push((v - 1) as usize)
    } else {
        roots(dg, v - 1)
    }
}

/// Node `w` joins the queue `q` when its `h`-th entry is processed: it is
/// not queued yet, it depends on that entry, and all of its dependencies are
/// among the first `h` entries.
pub open spec fn released(dg: Seq<Seq<usize>>, q: Seq<usize>, h: int, w: usize) -> bool {
    &&& !q.contains(w)
    &&& dg[w as int].contains(q[h - 1])
    &&& forall|j: int| 0 <= j < dg[w as int].len() ==> in_prefix(q, h, #[trigger] dg[w as int][j])
}

/// The nodes below `v`, ascending, that join the queue when its `h`-th entry
/// is processed.
pub open spec fn releases(dg: Seq<Seq<usize>>, q: Seq<usize>, h: int, v: int) -> Seq<usize>
    decreases v,
{
    if v <= 0 {
        Seq::empty()
    } else if released(dg, q, h, (v - 1) as usize) {
        releases(dg, q, h, v - 1).push((v - 1) as usize)
    } else {
        releases(dg, q, h, v - 1)
    }
}

/// The queue once every entry from position `h` on is processed in turn.
pub open spec fn kahn_run(dg: Seq<Seq<usize>>, q: Seq<usize>, h: nat) -> Seq<usize>
    decreases dg.len() - h,
{
    if h >= q.len() || h >= dg.len() {
        q
    } else {
        kahn_run(dg, q + releases(dg, q, (h + 1) as int, dg.len() as int), (h + 1) as nat)
    }
}

/// The nodes below `v`, ascending, that `q` does not hold.
pub open spec fn left_out(q: Seq<usize>, v: int) -> Seq<usize>
    decreases v,
{
    if v <= 0 {
        Seq::empty()
    } else if !q.contains((v - 1) as usize) {
        left_out(q, v - 1).push((v - 1) as usize)
    } else {
        left_out(q, v - 1)
    }
}

/// Kahn's order over nodes `0..n`: the roots ascending start the queue; each
/// queued node in turn appends, ascending, the nodes it releases; the nodes
/// never queued follow in ascending order.
pub open spec fn kahn_order(dg: Seq<Seq<usize>>) -> Seq<usize> {
    let q = kahn_run(dg, roots(dg, dg.len() as int), 0);
    q + left_out(q, dg.len() as int)
}

/// `dg` is the index graph of `e` over the node list `all`: entry `j` of
/// node `v` is the position in `all` of the `j`-th dependency of `all[v]`.
pub open spec fn index_graph_of(e: Seq<(Seq<char>, Seq<Seq<char>>)>, all: Seq<Seq<char>>, dg: Seq<Seq<usize>>) -> bool {
    &&& dg.len() == all.len()
    &&& forall|v: int| 0 <= v < all.len() ==> (#[trigger] dg[v]).len() == deps_of(e, all[v]).len()
    &&& forall|v: int, j: int|
        0 <= v < all.len() && 0 <= j < dg[v].len() ==> (#[trigger] dg[v][j]) < all.len()
            && all[dg[v][j] as int] == deps_of(e, all[v])[j]
}

/// `order` is Kahn's order by name: the nodes of `e` listed ascending are
/// numbered by position, and `order` is [`kahn_order`] of that index graph,
/// read back as names.
pub open spec fn kahn_name_order(e: Seq<(Seq<char>, Seq<Seq<char>>)>, order: Seq<Seq<char>>) -> bool {
    exists|all: Seq<Seq<char>>, dg: Seq<Seq<usize>>|
        #![trigger index_graph_of(e, all, dg)]
        strictly_sorted(all) && all.no_duplicates() && (forall|n: Seq<char>| is_node(e, n) <==> all.contains(n))
            && index_graph_of(e, all, dg) && order == kahn_order(dg).map_values(|i: usize| all[i as int])
}

/// The order by name is fixed by the edges alone: two orders that both are
/// Kahn's order by name of the same edges are equal.
pub proof fn lemma_kahn_name_order_unique(e: Seq<(Seq<char>, Seq<Seq<char>>)>, o1: Seq<Seq<char>>, o2: Seq<Seq<char>>)
    requires
        kahn_name_order(e, o1),
        kahn_name_order(e, o2),
    ensures
        o1 == o2,
{
    let (a1, d1) = choose|all: Seq<Seq<char>>, dg: Seq<Seq<usize>>|
        #![trigger index_graph_of(e, all, dg)]
        strictly_sorted(all) && all.no_duplicates() && (forall|n: Seq<char>| is_node(e, n) <==> all.contains(n))
            && index_graph_of(e, all, dg) && o1 == kahn_order(dg).map_values(|i: usize| all[i as int]);
    let (a2, d2) = choose|all: Seq<Seq<char>>, dg: Seq<Seq<usize>>|
        #![trigger index_graph_of(e, all, dg)]
        strictly_sorted(all) && all.no_duplicates() && (forall|n: Seq<char>| is_node(e, n) <==> all.contains(n))
            && index_graph_of(e, all, dg) && o2 == kahn_order(dg).map_values(|i: usize| all[i as int]);
    assert forall|x: Seq<char>| a1.contains(x) <==> a2.contains(x) by {
        assert(is_node(e, x) <==> a1.contains(x));
        assert(is_node(e, x) <==> a2.contains(x));
    }
    crate::json::lemma_sorted_unique(a1, a2);
    assert forall|v: int| 0 <= v < d1.len() implies d1[v] == d2[v] by {
        assert forall|j: int| 0 <= j < d1[v].len() implies d1[v][j] == d2[v][j] by {
            assert(a1[d1[v][j] as int] == deps_of(e, a1[v])[j]);
            assert(a2[d2[v][j] as int] == deps_of(e, a2[v])[j]);
        }
        assert(d1[v] =~= d2[v]);
    }
    assert(d1 =~= d2);
}

/// Kahn's algorithm over node indices: nodes without dependencies start the
/// queue in ascending order; when a node is taken from the queue, every node
/// (ascending) whose dependencies it completes joins the queue; the nodes
/// never queued follow in ascending order.
fn kahn(deps: &Vec<Vec<usize>>) -> (r: (Vec<usize>, usize))
    requires
        forall|v: int, j: int|
            0 <= v < deps@.len() && 0 <= j < deps@[v]@.len() ==> (#[trigger] deps@[v]@[j]) < deps@.len(),
    ensures
        index_order(deps@, r.0@, r.1 as int),
        r.0@ == kahn_order(index_graph_view(deps@)),
{
    let ghost dg = index_graph_view(deps@);
    let n = deps.len();
    let mut queued: Vec<bool> = Vec::new();
    let mut processed: Vec<bool> = Vec::new();
    let mut i: usize = 0;
    while i < n
        invariant
            i <= n,
            n == deps@.len(),
            queued@.len() == i,
            processed@.len() == i,
            forall|w: int| 0 <= w < i ==> !queued@[w] && !processed@[w],
        decreases n - i,
    {
        queued.push(false);
        processed.push(false);
        i = i + 1;
    }
    let mut queue: Vec<usize> = Vec::new();
    let mut v: usize = 0;
    while v < n
        invariant
            v <= n,
            n == deps@.len(),
            queued@.len() == n,
            processed@.len() == n,
            forall|w: int| 0 <= w < n ==> !processed@[w],
            forall|w: int| v <= w < n ==> !queued@[w],
            queue@.no_duplicates(),
            forall|p: int| 0 <= p < queue@.len() ==> (#[trigger] queue@[p]) < v,
            forall|w: int| 0 <= w < n ==> (queued@[w] <==> queue@.contains(w as usize)),
            forall|p: int| 0 <= p < queue@.len() ==> deps@[#[trigger] queue@[p] as int]@.len() == 0,
            forall|w: int| 0 <= w < v && !queued@[w] ==> deps@[w]@.len() > 0,
            dg == index_graph_view(deps@),
            queue@ == roots(dg, v as int),
        decreases n - v,
    {
        if deps[v].len() == 0 {
            let ghost q0 = queue@;
            queue.push(v);
            queued.set(v, true);
            proof {
                assert forall|w: int| 0 <= w < n implies (queued@[w] <==> queue@.contains(w as usize)) by {
                    if q0.contains(w as usize) {
                        let p = choose|p: int| 0 <= p < q0.len() && q0[p] == w as usize;
                        assert(queue@[p] == w as usize);
                    }
                    if queue@.contains(w as usize) && w != v {
                        let p = choose|p: int| 0 <= p < queue@.len() && queue@[p] == w as usize;
                        assert(q0[p] == w as usize);
                    }
                    if w == v {
                        assert(queue@[q0.len() as int] == v);
                    }
                }
            }
        }
        v = v + 1;
    }
    proof {
        assert forall|w: int| 0 <= w < n && !queued@[w] implies blocked(deps@, processed@, w) by {
            assert(deps@[w]@.len() > 0);
            let d = deps@[w]@[0];
            assert(!processed@[d as int]);
        }
        assert forall|i: int, j: int|
            0 <= i < queue@.len() && 0 <= j < deps@[queue@[i] as int]@.len() implies in_prefix(queue@, i, #[trigger] deps@[queue@[i] as int]@[j]) by {
            assert(deps@[queue@[i] as int]@.len() == 0);
        }
    }
    let ghost qrun = kahn_run(dg, queue@, 0);
    let mut head: usize = 0;
    while head < queue.len()
        invariant
            n == deps@.len(),
            dg == index_graph_view(deps@),
            kahn_run(dg, queue@, head as nat) == qrun,
            queued@.len() == n,
            processed@.len() == n,
            forall|v: int, j: int|
                0 <= v < deps@.len() && 0 <= j < deps@[v]@.len() ==> (#[trigger] deps@[v]@[j]) < deps@.len(),
            head <= queue@.len(),
            queue@.no_duplicates(),
            forall|p: int| 0 <= p < queue@.len() ==> (#[trigger] queue@[p]) < n,
            forall|w: int| 0 <= w < n ==> (queued@[w] <==> queue@.contains(w as usize)),
            forall|w: int| 0 <= w < n ==> (processed@[w] <==> in_prefix(queue@, head as int, w as usize)),
            forall|i: int, j: int|
                0 <= i < queue@.len() && 0 <= j < deps@[queue@[i] as int]@.len() ==> in_prefix(queue@, i, #[trigger] deps@[queue@[i] as int]@[j]),
            forall|w: int| 0 <= w < n && !queued@[w] ==> blocked(deps@, processed@, w),
        decreases n - head,
    {
        proof {
            lemma_distinct_bounded(queue@, n);
        }
        let u = queue[head];
        let ghost p0 = processed@;
        processed.set(u, true);
        head = head + 1;
        proof {
            assert forall|w: int| 0 <= w < n implies (processed@[w] <==> in_prefix(queue@, head as int, w as usize)) by {
                if in_prefix(queue@, head as int, w as usize) {
                    let p = choose|p: int| 0 <= p < head && queue@[p] == w as usize;
                    if p < head - 1 {
                        assert(in_prefix(queue@, head - 1, w as usize));
                    }
                }
                if in_prefix(queue@, head - 1, w as usize) {
                    let p = choose|p: int| 0 <= p < head - 1 && queue@[p] == w as usize;
                    assert(0 <= p < head && queue@[p] == w as usize);
                }
                if w == u {
                    assert(queue@[head - 1] == w as usize);
                }
            }
            assert forall|w: int| 0 <= w < n && !queued@[w] implies blocked_or(deps@, processed@, w, u) by {
                assert(blocked(deps@, p0, w));
                let j = choose|j: int| 0 <= j < deps@[w]@.len() && !p0[#[trigger] deps@[w]@[j] as int];
                let d = deps@[w]@[j];
                if d != u {
                    assert(!processed@[d as int]);
                }
            }
        }
        let ghost qh = queue@;
        let mut v: usize = 0;
        while v < n
            invariant
                v <= n,
                n == deps@.len(),
                dg == index_graph_view(deps@),
                head <= qh.len(),
                qh.len() <= n,
                u == qh[head - 1],
                kahn_run(dg, qh, (head - 1) as nat) == qrun,
                queue@ == qh + releases(dg, qh, head as int, v as int),
                forall|p: int| qh.len() <= p < queue@.len() ==> (#[trigger] queue@[p]) < v,
                queued@.len() == n,
                processed@.len() == n,
                forall|v: int, j: int|
                    0 <= v < deps@.len() && 0 <= j < deps@[v]@.len() ==> (#[trigger] deps@[v]@[j]) < deps@.len(),
                u < n,
                1 <= head <= queue@.len(),
                queue@.no_duplicates(),
                forall|p: int| 0 <= p < queue@.len() ==> (#[trigger] queue@[p]) < n,
                forall|w: int| 0 <= w < n ==> (queued@[w] <==> queue@.contains(w as usize)),
                forall|w: int| 0 <= w < n ==> (processed@[w] <==> in_prefix(queue@, head as int, w as usize)),
                forall|i: int, j: int|
                    0 <= i < queue@.len() && 0 <= j < deps@[queue@[i] as int]@.len() ==> in_prefix(queue@, i, #[trigger] deps@[queue@[i] as int]@[j]),
                forall|w: int| 0 <= w < v && !queued@[w] ==> blocked(deps@, processed@, w),
                forall|w: int| v <= w < n && !queued@[w] ==> blocked_or(deps@, processed@, w, u),
            decreases n - v,
        {
            let waits = !queued[v] && contains_index(&deps[v], u);
            let ghost qv = queue@;
            proof {
                assert(dg[v as int] == deps@[v as int]@);
                lemma_release_step(dg, qh, qv, processed@, queued@, head as int, v, n as int);
            }
            if waits && all_processed(&deps[v], &processed) {
                let ghost q0 = queue@;
                queue.push(v);
                queued.set(v, true);
                proof {
                    assert(!q0.contains(v));
                    assert(queue@ =~= q0.push(v));
                    assert(queue@.no_duplicates()) by {
                        assert forall|a: int, b: int| 0 <= a < queue@.len() && 0 <= b < queue@.len() && a != b implies queue@[a] != queue@[b] by {
                            if a < q0.len() && b < q0.len() {
                            } else if a < q0.len() {
                                assert(q0.contains(q0[a]));
                            } else if b < q0.len() {
                                assert(q0.contains(q0[b]));
                            }
                        }
                    }
                    assert forall|w: int| 0 <= w < n implies (queued@[w] <==> queue@.contains(w as usize)) by {
                        if q0.contains(w as usize) {
                            let p = choose|p: int| 0 <= p < q0.len() && q0[p] == w as usize;
                            assert(queue@[p] == w as usize);
                        }
                        if queue@.contains(w as usize) && w != v {
                            let p = choose|p: int| 0 <= p < queue@.len() && queue@[p] == w as usize;
                            assert(q0[p] == w as usize);
                        }
                        if w == v {
                            assert(queue@[q0.len() as int] == v);
                        }
                    }
                    assert forall|w: int| 0 <= w < n implies (processed@[w] <==> in_prefix(queue@, head as int, w as usize)) by {
                        if in_prefix(q0, head as int, w as usize) {
                            let p = choose|p: int| 0 <= p < head && q0[p] == w as usize;
                            assert(queue@[p] == w as usize);
                        }
                        if in_prefix(queue@, head as int, w as usize) {
                            let p = choose|p: int| 0 <= p < head && queue@[p] == w as usize;
                            assert(q0[p] == w as usize);
                        }
                    }
                    assert forall|i: int, j: int|
                        0 <= i < queue@.len() && 0 <= j < deps@[queue@[i] as int]@.len() implies in_prefix(queue@, i, #[trigger] deps@[queue@[i] as int]@[j]) by {
                        let d = deps@[queue@[i] as int]@[j];
                        if i < q0.len() {
                            assert(queue@[i] == q0[i]);
                            assert(in_prefix(q0, i, d));
                            let p = choose|p: int| 0 <= p < i && q0[p] == d;
                            assert(queue@[p] == d);
                        } else {
                            assert(queue@[i] == v);
                            assert(processed@[d as int]);
                            assert(in_prefix(q0, head as int, d));
                            let p = choose|p: int| 0 <= p < head && q0[p] == d;
                            assert(queue@[p] == d);
                        }
                    }
                }
                proof {
                    assert(released(dg, qh, head as int, v));
                    assert(queue@ =~= qh + releases(dg, qh, head as int, v + 1));
                }
            } else {
                proof {
                    assert(!released(dg, qh, head as int, v));
                    assert(queue@ =~= qh + releases(dg, qh, head as int, v + 1));
                    if !queued@[v as int] {
                        assert(blocked_or(deps@, processed@, v as int, u));
                        let j = choose|j: int|
                            0 <= j < deps@[v as int]@.len() && (!processed@[#[trigger] deps@[v as int]@[j] as int] || deps@[v as int]@[j] == u);
                        if processed@[deps@[v as int]@[j] as int] {
                            assert(deps@[v as int]@[j] == u);
                            assert(deps@[v as int]@.contains(u));
                            let jj = choose|jj: int| 0 <= jj < deps@[v as int]@.len() && !processed@[#[trigger] deps@[v as int]@[jj] as int];
                            assert(blocked(deps@, processed@, v as int));
                        } else {
                            assert(blocked(deps@, processed@, v as int));
                        }
                    }
                }
            }
            v = v + 1;
        }
        proof {
            lemma_distinct_bounded(queue@, n);
            assert(kahn_run(dg, qh, (head - 1) as nat) == kahn_run(dg, queue@, head as nat));
        }
    }
    let ghost qf = queue@;
    proof {
        assert(qf == qrun);
    }
    let k = queue.len();
    let mut order = queue;
    let mut v: usize = 0;
    while v < n
        invariant
            v <= n,
            n == deps@.len(),
            processed@.len() == n,
            queued@.len() == n,
            k == qf.len(),
            k <= order@.len(),
            order@.subrange(0, k as int) == qf,
            forall|w: int| 0 <= w < n ==> (processed@[w] <==> qf.contains(w as usize)),
            forall|p: int| k <= p < order@.len() ==> (#[trigger] order@[p]) < v && !processed@[order@[p] as int],
            forall|a: int, b: int| k <= a < b < order@.len() ==> (#[trigger] order@[a]) < (#[trigger] order@[b]),
            forall|w: int| 0 <= w < v && !processed@[w] ==> exists|p: int| k <= p < order@.len() && order@[p] == w as usize,
            dg == index_graph_view(deps@),
            qf == kahn_run(dg, roots(dg, n as int), 0),
            order@ == qf + left_out(qf, v as int),
        decreases n - v,
    {
        if !processed[v] {
            let ghost o0 = order@;
            order.push(v);
            proof {
                assert(!qf.contains(v));
                assert(order@ =~= qf + left_out(qf, v + 1));
                assert(order@.subrange(0, k as int) =~= o0.subrange(0, k as int));
                assert forall|w: int| 0 <= w < v + 1 && !processed@[w] implies exists|p: int| k <= p < order@.len() && order@[p] == w as usize by {
                    if w < v {
                        let p = choose|p: int| k <= p < o0.len() && o0[p] == w as usize;
                        assert(order@[p] == w as usize);
                    } else {
                        assert(order@[o0.len() as int] == w as usize);
                    }
                }
            }
        } else {
            proof {
                assert(qf.contains(v));
                assert(order@ =~= qf + left_out(qf, v + 1));
            }
        }
        v = v + 1;
    }
    proof {
        assert(order@ == kahn_order(dg));
        lemma_kahn_result(deps@, qf, order@, processed@, queued@, k as int);
    }
    (order, k)
}

/// Whether node `v` joins the queue, read off the flags the loop keeps.
proof fn lemma_release_step(
    dg: Seq<Seq<usize>>,
    qh: Seq<usize>,
    queue: Seq<usize>,
    processed: Seq<bool>,
    queued: Seq<bool>,
    h: int,
    v: usize,
    n: int,
)
    requires
        dg.len() == n,
        processed.len() == n,
        queued.len() == n,
        v < n,
        1 <= h <= qh.len(),
        queue == qh + releases(dg, qh, h, v as int),
        forall|p: int| qh.len() <= p < queue.len() ==> (#[trigger] queue[p]) < v,
        forall|w: int| 0 <= w < n ==> (queued[w] <==> queue.contains(w as usize)),
        forall|w: int| 0 <= w < n ==> (processed[w] <==> in_prefix(queue, h, w as usize)),
        forall|j: int| 0 <= j < dg[v as int].len() ==> (#[trigger] dg[v as int][j]) < n,
    ensures
        released(dg, qh, h, v) <==> (!queued[v as int] && dg[v as int].contains(qh[h - 1]) && forall|j: int|
            0 <= j < dg[v as int].len() ==> processed[#[trigger] dg[v as int][j] as int]),
{
    if queue.contains(v) {
        let p = choose|p: int| 0 <= p < queue.len() && queue[p] == v;
        if p >= qh.len() {
            assert(queue[p] < v);
        }
        assert(qh[p] == v);
    }
    if qh.contains(v) {
        let p = choose|p: int| 0 <= p < qh.len() && qh[p] == v;
        assert(queue[p] == v);
    }
    assert forall|x: usize| #[trigger] in_prefix(queue, h, x) <==> in_prefix(qh, h, x) by {
        if in_prefix(queue, h, x) {
            let p = choose|p: int| 0 <= p < h && queue[p] == x;
            assert(qh[p] == x);
        }
        if in_prefix(qh, h, x) {
            let p = choose|p: int| 0 <= p < h && qh[p] == x;
            assert(queue[p] == x);
        }
    }
    if forall|j: int| 0 <= j < dg[v as int].len() ==> processed[#[trigger] dg[v as int][j] as int] {
        assert forall|j: int| 0 <= j < dg[v as int].len() implies in_prefix(qh, h, #[trigger] dg[v as int][j]) by {
            assert(processed[dg[v as int][j] as int]);
            assert(in_prefix(queue, h, dg[v as int][j]));
        }
    }
    if forall|j: int| 0 <= j < dg[v as int].len() ==> in_prefix(qh, h, #[trigger] dg[v as int][j]) {
        assert forall|j: int| 0 <= j < dg[v as int].len() implies processed[#[trigger] dg[v as int][j] as int] by {
            assert(in_prefix(qh, h, dg[v as int][j]));
            assert(in_prefix(queue, h, dg[v as int][j]));
        }
    }
}

proof fn lemma_kahn_result(deps: Seq<Vec<usize>>, qf: Seq<usize>, o: Seq<usize>, processed: Seq<bool>, queued: Seq<bool>, k: int)
    requires
        processed.len() == deps.len(),
        queued.len() == deps.len(),
        qf.len() == k,
        k <= o.len(),
        o.subrange(0, k) == qf,
        qf.no_duplicates(),
        forall|p: int| 0 <= p < qf.len() ==> (#[trigger] qf[p]) < deps.len(),
        forall|w: int| 0 <= w < deps.len() ==> (queued[w] <==> qf.contains(w as usize)),
        forall|w: int| 0 <= w < deps.len() ==> (processed[w] <==> qf.contains(w as usize)),
        forall|i: int, j: int|
            0 <= i < qf.len() && 0 <= j < deps[qf[i] as int]@.len() ==> in_prefix(qf, i, #[trigger] deps[qf[i] as int]@[j]),
        forall|w: int| 0 <= w < deps.len() && !queued[w] ==> blocked(deps, processed, w),
        forall|v: int, j: int| 0 <= v < deps.len() && 0 <= j < deps[v]@.len() ==> (#[trigger] deps[v]@[j]) < deps.len(),
        forall|p: int| k <= p < o.len() ==> (#[trigger] o[p]) < deps.len() && !processed[o[p] as int],
        forall|a: int, b: int| k <= a < b < o.len() ==> (#[trigger] o[a]) < (#[trigger] o[b]),
        forall|w: int| 0 <= w < deps.len() && !processed[w] ==> exists|p: int| k <= p < o.len() && o[p] == w as usize,
    ensures
        index_order(deps, o, k),
{
    assert forall|p: int| 0 <= p < k implies o[p] == #[trigger] qf[p] by {
        assert(o.subrange(0, k)[p] == o[p]);
    }
    assert forall|i: int| 0 <= i < o.len() implies (#[trigger] o[i]) < deps.len() by {
        if i < k {
            assert(o[i] == qf[i]);
        }
    }
    assert(o.no_duplicates()) by {
        assert forall|a: int, b: int| 0 <= a < o.len() && 0 <= b < o.len() && a != b implies o[a] != o[b] by {
            if a < k && b < k {
                assert(o[a] == qf[a] && o[b] == qf[b]);
            } else if a < k {
                assert(o[a] == qf[a]);
                assert(qf.contains(qf[a]));
                assert(processed[qf[a] as int]);
            } else if b < k {
                assert(o[b] == qf[b]);
                assert(qf.contains(qf[b]));
                assert(processed[qf[b] as int]);
            } else if a < b {
                assert(o[a] < o[b]);
            } else {
                assert(o[b] < o[a]);
            }
        }
    }
    assert forall|v: usize| v < deps.len() implies o.contains(v) by {
        if processed[v as int] {
            assert(qf.contains(v));
            let p = choose|p: int| 0 <= p < qf.len() && qf[p] == v;
            assert(o[p] == v);
        } else {
            let p = choose|p: int| k <= p < o.len() && o[p] == v;
            assert(o[p] == v);
        }
    }
    assert forall|i: int, j: int|
        0 <= i < k && 0 <= j < deps[o[i] as int]@.len() implies in_prefix(o, i, #[trigger] deps[o[i] as int]@[j]) by {
        assert(o[i] == qf[i]);
        let d = deps[qf[i] as int]@[j];
        assert(in_prefix(qf, i, d));
        let p = choose|p: int| 0 <= p < i && qf[p] == d;
        assert(o[p] == d);
    }
    assert forall|i: int| k <= i < o.len() implies #[trigger] depends_later(deps, o, k, i) by {
        let w = o[i] as int;
        assert(!processed[w]);
        assert(!queued[w]);
        assert(blocked(deps, processed, w));
        let j = choose|j: int| 0 <= j < deps[w]@.len() && !processed[#[trigger] deps[w]@[j] as int];
        let d = deps[w]@[j];
        assert(d < deps.len());
        let p = choose|p: int| k <= p < o.len() && o[p] == d as usize;
        assert(deps[o[i] as int]@[j] == d && o[p] == d);
    }
}

/// An index-level dependency order over the sorted node list is a
/// dependency order over the graph.
proof fn lemma_lift_order(
    e: Seq<(Seq<char>, Seq<Seq<char>>)>,
    all: Seq<Seq<char>>,
    deps: Seq<Vec<usize>>,
    o: Seq<usize>,
    k: int,
    order: Seq<Seq<char>>,
)
    requires
        all.no_duplicates(),
        all.len() <= usize::MAX,
        forall|n: Seq<char>| is_node(e, n) <==> all.contains(n),
        deps.len() == all.len(),
        forall|v: int| 0 <= v < all.len() ==> (#[trigger] deps[v])@.len() == deps_of(e, all[v]).len(),
        forall|v: int, j: int|
            0 <= v < all.len() && 0 <= j < deps[v]@.len() ==> (#[trigger] deps[v]@[j]) < all.len()
                && all[deps[v]@[j] as int] == deps_of(e, all[v])[j],
        index_order(deps, o, k),
        order.len() == o.len(),
        forall|i: int| 0 <= i < o.len() ==> #[trigger] order[i] == all[o[i] as int],
    ensures
        dependency_order(e, order),
{
    assert(order.no_duplicates()) by {
        assert forall|a: int, b: int| 0 <= a < order.len() && 0 <= b < order.len() && a != b implies order[a] != order[b] by {
            assert(o[a] != o[b]);
            assert(o[a] < all.len() && o[b] < all.len());
        }
    }
    assert forall|n: Seq<char>| is_node(e, n) <==> order.contains(n) by {
        if is_node(e, n) {
            let v = choose|v: int| 0 <= v < all.len() && all[v] == n;
            assert(o.contains(v as usize));
            let p = choose|p: int| 0 <= p < o.len() && o[p] == v as usize;
            assert(o[p] as int == v);
            assert(order[p] == all[o[p] as int]);
            assert(order[p] == n);
        }
        if order.contains(n) {
            let p = choose|p: int| 0 <= p < order.len() && order[p] == n;
            assert(o[p] < all.len());
            assert(all[o[p] as int] == n);
            assert(all.contains(n));
        }
    }
    assert(settled_prefix(e, order, k)) by {
        assert forall|i: int, d: Seq<char>|
            0 <= i < k && #[trigger] deps_of(e, order[i]).contains(d) implies exists|j: int| 0 <= j < i && #[trigger] order[j] == d by {
            let v = o[i] as int;
            assert(order[i] == all[v]);
            let ds = deps_of(e, all[v]);
            let q = choose|q: int| 0 <= q < ds.len() && ds[q] == d;
            assert(deps[v]@.len() == ds.len());
            let x = deps[v]@[q];
            assert(all[x as int] == d);
            assert(in_prefix(o, i, deps[o[i] as int]@[q]));
            let p = choose|p: int| 0 <= p < i && o[p] == x;
            assert(order[p] == d);
        }
    }
    {
        assert forall|i: int| k <= i < order.len() implies #[trigger] has_later_dep(e, order, k, i) by {
            assert(depends_later(deps, o, k, i));
            let v = o[i] as int;
            let (j, p) = choose|j: int, p: int|
                0 <= j < deps[v]@.len() && k <= p < o.len() && o[p] == deps[v]@[j];
            let x = deps[v]@[j];
            let d = all[x as int];
            assert(order[i] == all[v]);
            assert(deps_of(e, all[v])[j] == d);
            assert(deps_of(e, order[i]).contains(d));
            assert(order[p] == d);
            assert(order.subrange(k, order.len() as int)[p - k] == d);
            assert(order.subrange(k, order.len() as int).contains(d));
            assert(deps_of(e, order[i]).contains(d));
        }
    }
    assert(stuck_tail(e, order, k));
    assert(order_split(e, order, k));
}

impl DependencyGraph {
    /// Compute [`DependencyGraph::order`] from the edges by Kahn's algorithm:
    /// nodes with no dependencies come first in ascending order; each node
    /// taken in turn releases, in ascending order, the nodes whose last
    /// missing dependency it was; nodes on or behind a cycle follow in
    /// ascending order.
    pub fn compute_order(&mut self)
        ensures
            final(self).edges == old(self).edges,
            dependency_order(edges_view(final(self).edges@), strs_view(final(self).order@)),
            kahn_name_order(edges_view(final(self).edges@), strs_view(final(self).order@)),
    {
        let ghost e = edges_view(self.edges@);
        let all = sort_names(collect_nodes(&self.edges));
        let deps = dependency_indices(&self.edges, &all);
        let (o, k) = kahn(&deps);
        let n_all = all.len();
        let mut order: Vec<String> = Vec::new();
        let mut i: usize = 0;
        while i < o.len()
            invariant
                i <= o@.len(),
                order@.len() == i,
                forall|p: int| 0 <= p < o@.len() ==> (#[trigger] o@[p]) < all@.len(),
                forall|p: int| 0 <= p < i ==> #[trigger] strs_view(order@)[p] == strs_view(all@)[o@[p] as int],
            decreases o@.len() - i,
        {
            let ghost before = strs_view(order@);
            order.push(all[o[i]].clone());
            proof {
                assert(strs_view(order@) =~= before.push(strs_view(all@)[o@[i as int] as int]));
            }
            i = i + 1;
        }
        proof {
            assert(strs_view(all@).len() == all@.len());
            assert(all@.len() == n_all);
            lemma_lift_order(e, strs_view(all@), deps@, o@, k as int, strs_view(order@));
            let av = strs_view(all@);
            let dg = index_graph_view(deps@);
            assert(index_graph_of(e, av, dg)) by {
                assert forall|v: int| 0 <= v < av.len() implies (#[trigger] dg[v]).len() == deps_of(e, av[v]).len() by {
                    assert(dg[v] == deps@[v]@);
                }
                assert forall|v: int, j: int| 0 <= v < av.len() && 0 <= j < dg[v].len() implies (#[trigger] dg[v][j]) < av.len()
                    && av[dg[v][j] as int] == deps_of(e, av[v])[j] by {
                    assert(dg[v] == deps@[v]@);
                    assert(deps@[v]@[j] < all@.len());
                }
            }
            assert(strs_view(order@) =~= kahn_order(dg).map_values(|i: usize| av[i as int]));
        }
        self.order = order;
    }
}

} // verus!
