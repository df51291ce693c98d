//! The trust/strength registry: every subsystem is a node with a weight in
//! thousandths (0 to 1000); the kernel is the only node at full weight 1000.
//! Conflicts are resolved by weight alone, and the kernel wins every tie.
use vstd::prelude::*;
use crate::strmap::{StrMap, KeyOrder, compare_keys, keys_sorted};
use crate::sort::{sort_by_weight_desc, stable_sort_by_weight_desc};

verus! {

/// Weight of the kernel node: full strength, in thousandths.
pub const KERNEL_WEIGHT: u32 = 1000;

/// Id of the kernel node.
pub open spec fn kernel_id() -> Seq<char> {
    "kernel"@
}

/// Status of a node in the hierarchy.
#[derive(Debug, Clone, Copy, PartialEq, Eq, Structural)]
pub enum TsNodeStatus {
    Active,
    Suspended,
}

/// A node of the hierarchy. Its weight is in thousandths.
#[derive(Debug, Clone)]
pub struct TsNode {
    pub id: String,
    pub weight: u32,
    pub parent: Option<String>,
    pub deps: Vec<String>,
    pub status: TsNodeStatus,
}

impl TsNode {
    pub open spec fn parent_view(&self) -> Option<Seq<char>> {
        match self.parent {
            Some(p) => Some(p@),
            None => None,
        }
    }

    pub open spec fn deps_view(&self) -> Seq<Seq<char>> {
        self.deps@.map_values(|d: String| d@)
    }
}

/// The view of an optional id.
pub open spec fn opt_view(o: Option<&str>) -> Option<Seq<char>> {
    match o {
        Some(s) => Some(s@),
        None => None,
    }
}

/// The views of a list of ids.
pub open spec fn strs_view(v: Seq<&str>) -> Seq<Seq<char>> {
    v.map_values(|s: &str| s@)
}

/// The views of a list of owned ids.
pub open spec fn strings_view(v: Seq<String>) -> Seq<Seq<char>> {
    v.map_values(|s: String| s@)
}

/// A weight that a node may carry: at most the kernel's; the kernel's
/// exactly for the kernel itself, whose weight is fixed.
pub open spec fn weight_allowed(id: Seq<char>, weight: u32) -> bool {
    &&& weight <= KERNEL_WEIGHT
    &&& (weight == KERNEL_WEIGHT <==> id == kernel_id())
}

/// A registration that the hierarchy accepts: an allowed weight, and the
/// kernel only as a root at full weight.
pub open spec fn registration_allowed(id: Seq<char>, weight: u32, parent: Option<Seq<char>>) -> bool {
    &&& weight_allowed(id, weight)
    &&& (id == kernel_id() ==> parent is None)
}

/// Central registry of all nodes, keyed by id.
pub struct TsRegistry {
    nodes: StrMap<TsNode>,
}

/// Weight of `id` in `nodes`, or 0 for an unknown node.
pub open spec fn weight_or_zero(nodes: Map<Seq<char>, TsNode>, id: Seq<char>) -> u32 {
    if nodes.dom().contains(id) {
        nodes[id].weight
    } else {
        0
    }
}

/// Winner of a conflict between `a` and `b`: the kernel when it is involved,
/// otherwise the heavier node (unknown nodes weigh 0), and the kernel on a tie.
pub open spec fn conflict_winner(nodes: Map<Seq<char>, TsNode>, a: Seq<char>, b: Seq<char>) -> Seq<char> {
    if a == kernel_id() || b == kernel_id() {
        kernel_id()
    } else if weight_or_zero(nodes, a) > weight_or_zero(nodes, b) {
        a
    } else if weight_or_zero(nodes, a) < weight_or_zero(nodes, b) {
        b
    } else {
        kernel_id()
    }
}

impl TsRegistry {
    /// The nodes by id.
    pub closed spec fn view(&self) -> Map<Seq<char>, TsNode> {
        self.nodes@
    }

    /// The ids in increasing key order.
    pub closed spec fn ids(&self) -> Seq<Seq<char>> {
        self.nodes.keys()
    }

    /// The node at position `j` of the key order.
    pub closed spec fn node_at(&self, j: int) -> TsNode {
        self.nodes.value_at_spec(j)
    }

    #[verifier::type_invariant]
    pub closed spec fn inv(&self) -> bool {
        &&& self.nodes.inv()
        &&& forall|k: Seq<char>| #[trigger]
            self.nodes@.dom().contains(k) ==> self.nodes@[k].id@ == k && registration_allowed(
                k,
                self.nodes@[k].weight,
                self.nodes@[k].parent_view(),
            )
    }

    /// Every registry holds its nodes under their own ids, lists each id once
    /// in increasing key order, and gives no node more than the kernel's weight
    /// nor the kernel's weight to any node but the kernel; the kernel, when
    /// registered, is a root at full weight.
    pub proof fn lemma_wf(&self)
        requires
            self.inv(),
        ensures
            keys_sorted(self.ids()),
            forall|k: Seq<char>| #[trigger] self@.dom().contains(k) <==> self.ids().contains(k),
            forall|k: Seq<char>|
                #[trigger] self@.dom().contains(k) ==> self@[k].id@ == k && registration_allowed(
                    k,
                    self@[k].weight,
                    self@[k].parent_view(),
                ),
            self@.dom().contains(kernel_id()) ==> self@[kernel_id()].weight == KERNEL_WEIGHT && self@[kernel_id()].parent is None,
            self@.dom().finite(),
            self.ids().len() == self@.dom().len(),
            forall|j: int| 0 <= j < self.ids().len() ==> #[trigger] self@[self.ids()[j]] == self.node_at(j),
    {
        self.nodes.lemma_keys();
    }

    /// Nothing can override the kernel: in every registry, and so after any
    /// registration that the registry accepts, a registered kernel is the
    /// root at full weight, and no other node reaches that weight.
    pub proof fn lemma_kernel_fixed(&self)
        requires
            self.inv(),
        ensures
            self@.dom().contains(kernel_id()) ==> self@[kernel_id()].weight == KERNEL_WEIGHT && self@[kernel_id()].parent is None,
            forall|k: Seq<char>| #[trigger] self@.dom().contains(k) && k != kernel_id() ==> self@[k].weight < KERNEL_WEIGHT,
    {
        self.lemma_wf();
    }

    pub fn new() -> (r: Self)
        ensures
            r@ == Map::<Seq<char>, TsNode>::empty(),
    {
        let nodes = StrMap::new();
        proof {
            use_type_invariant(&nodes);
        }
        TsRegistry { nodes }
    }

    /// Registers (or replaces) node `id` with the given weight, parent and
    /// dependencies, as an active node. Weights above the kernel's, the
    /// kernel's weight for any other node, and the kernel at any other weight
    /// or under a parent are refused.
    pub fn register_node(&mut self, id: &str, weight: u32, parent: Option<&str>, deps: Vec<&str>)
        requires
            registration_allowed(id@, weight, opt_view(parent)),
        ensures
            final(self)@.dom() == old(self)@.dom().insert(id@),
            forall|k: Seq<char>| k != id@ && #[trigger] old(self)@.dom().contains(k) ==> final(self)@[k] == old(self)@[k],
            final(self)@[id@].id@ == id@,
            final(self)@[id@].weight == weight,
            final(self)@[id@].parent_view() == opt_view(parent),
            final(self)@[id@].deps_view() == strs_view(deps@),
            final(self)@[id@].status == TsNodeStatus::Active,
    {
        let mut owned_deps: Vec<String> = Vec::new();
        let mut i: usize = 0;
        while i < deps.len()
            invariant
                0 <= i <= deps@.len(),
                strings_view(owned_deps@) == strs_view(deps@.take(i as int)),
            decreases deps@.len() - i,
        {
            let ghost before = owned_deps@;
            let d = deps[i].to_owned();
            owned_deps.push(d);
            proof {
                assert(deps@.take(i + 1) =~= deps@.take(i as int).push(deps@[i as int]));
                assert(strs_view(deps@.take(i + 1)) =~= strs_view(deps@.take(i as int)).push(deps@[i as int]@));
                assert(strings_view(owned_deps@) =~= strings_view(before).push(d@));
            }
            i = i + 1;
        }
        proof {
            assert(deps@.take(deps@.len() as int) =~= deps@);
        }
        let parent_owned: Option<String> = match parent {
            Some(p) => Some(p.to_owned()),
            None => None,
        };
        let node = TsNode {
            id: id.to_owned(),
            weight,
            parent: parent_owned,
            deps: owned_deps,
            status: TsNodeStatus::Active,
        };
        proof {
            use_type_invariant(&*self);
        }
        let mut nodes = StrMap::new();
        proof {
            use_type_invariant(&nodes);
        }
        std::mem::swap(&mut nodes, &mut self.nodes);
        nodes.insert(id.to_owned(), node);
        proof {
            use_type_invariant(&nodes);
        }
        self.nodes = nodes;
    }

    /// Registers the kernel node at full weight, unless it is already there.
    pub fn register_kernel(&mut self)
        ensures
            old(self)@.dom().contains(kernel_id()) ==> final(self)@ == old(self)@,
            !old(self)@.dom().contains(kernel_id()) ==> {
                &&& final(self)@.dom() == old(self)@.dom().insert(kernel_id())
                &&& forall|k: Seq<char>| k != kernel_id() && #[trigger] old(self)@.dom().contains(k) ==> final(self)@[k] == old(self)@[k]
                &&& final(self)@[kernel_id()].id@ == kernel_id()
                &&& final(self)@[kernel_id()].weight == KERNEL_WEIGHT
                &&& final(self)@[kernel_id()].parent is None
                &&& final(self)@[kernel_id()].deps@.len() == 0
                &&& final(self)@[kernel_id()].status == TsNodeStatus::Active
            },
    {
        if self.nodes.contains_key("kernel") {
            return;
        }
        let no_deps: Vec<&str> = Vec::new();
        self.register_node("kernel", KERNEL_WEIGHT, None, no_deps);
        assert(self@[kernel_id()].deps@.len() == strs_view(no_deps@).len());
    }

    /// Weight of node `id`, if it is registered.
    pub fn get_weight(&self, id: &str) -> (r: Option<u32>)
        ensures
            r == (if self@.dom().contains(id@) { Some(self@[id@].weight) } else { None }),
            r matches Some(w) ==> weight_allowed(id@, w),
    {
        proof {
            use_type_invariant(self);
            self.lemma_wf();
        }
        match self.nodes.get(id) {
            Some(n) => Some(n.weight),
            None => None,
        }
    }

    /// The winner of a conflict between `a` and `b`: weight comparison only,
    /// and the kernel wins whenever it is involved and on every tie.
    pub fn resolve_conflict(&self, a: &str, b: &str) -> (r: String)
        ensures
            r@ == conflict_winner(self@, a@, b@),
    {
        let a_kernel = compare_keys(a, "kernel");
        let b_kernel = compare_keys(b, "kernel");
        if matches!(a_kernel, KeyOrder::Equal) || matches!(b_kernel, KeyOrder::Equal) {
            return "kernel".to_owned();
        }
        let wa = match self.get_weight(a) {
            Some(w) => w,
            None => 0,
        };
        let wb = match self.get_weight(b) {
            Some(w) => w,
            None => 0,
        };
        if wa > wb {
            a.to_owned()
        } else if wa < wb {
            b.to_owned()
        } else {
            "kernel".to_owned()
        }
    }

    /// Ids of the nodes without a parent, in key order.
    pub fn roots(&self) -> (r: Vec<String>)
        ensures
            strings_view(r@) == self.ids().filter(|k: Seq<char>| self@[k].parent is None),
    {
        proof {
            use_type_invariant(self);
            self.lemma_wf();
        }
        let ghost pred = |k: Seq<char>| self@[k].parent is None;
        let mut out: Vec<String> = Vec::new();
        let n = self.nodes.len();
        let mut i: usize = 0;
        while i < n
            invariant
                0 <= i <= n,
                n == self.ids().len(),
                self.nodes.inv(),
                forall|j: int| 0 <= j < self.ids().len() ==> #[trigger] self@[self.ids()[j]] == self.nodes.value_at_spec(j),
                strings_view(out@) == self.ids().take(i as int).filter(pred),
                pred == (|k: Seq<char>| self@[k].parent is None),
            decreases n - i,
        {
            let node = self.nodes.value_at(i);
            let key = self.nodes.key_at(i);
            proof {
                assert(self.ids().take(i + 1) =~= self.ids().take(i as int).push(self.ids()[i as int]));
                self.ids().take(i as int).lemma_filter_push(self.ids()[i as int], pred);
                assert(*node == self@[self.ids()[i as int]]);
            }
            if node.parent.is_none() {
                let ghost before = out@;
                out.push(key.clone());
                proof {
                    assert(strings_view(out@) =~= strings_view(before).push(key@));
                }
            }
            i = i + 1;
        }
        proof {
            assert(self.ids().take(n as int) =~= self.ids());
        }
        out
    }

    /// Ids of the nodes whose parent is `id`, in key order.
    pub fn children(&self, id: &str) -> (r: Vec<String>)
        ensures
            strings_view(r@) == self.ids().filter(|k: Seq<char>| self@[k].parent_view() == Some(id@)),
    {
        proof {
            use_type_invariant(self);
            self.lemma_wf();
        }
        let ghost pred = |k: Seq<char>| self@[k].parent_view() == Some(id@);
        let mut out: Vec<String> = Vec::new();
        let n = self.nodes.len();
        let mut i: usize = 0;
        while i < n
            invariant
                0 <= i <= n,
                n == self.ids().len(),
                self.nodes.inv(),
                forall|j: int| 0 <= j < self.ids().len() ==> #[trigger] self@[self.ids()[j]] == self.nodes.value_at_spec(j),
                strings_view(out@) == self.ids().take(i as int).filter(pred),
                pred == (|k: Seq<char>| self@[k].parent_view() == Some(id@)),
            decreases n - i,
        {
            let node = self.nodes.value_at(i);
            let key = self.nodes.key_at(i);
            proof {
                assert(self.ids().take(i + 1) =~= self.ids().take(i as int).push(self.ids()[i as int]));
                self.ids().take(i as int).lemma_filter_push(self.ids()[i as int], pred);
                assert(*node == self@[self.ids()[i as int]]);
            }
            let is_child = match &node.parent {
                Some(p) => matches!(compare_keys(p.as_str(), id), KeyOrder::Equal),
                None => false,
            };
            if is_child {
                let ghost before = out@;
                out.push(key.clone());
                proof {
                    assert(strings_view(out@) =~= strings_view(before).push(key@));
                }
            }
            i = i + 1;
        }
        proof {
            assert(self.ids().take(n as int) =~= self.ids());
        }
        out
    }

    /// The node registered as `id`, if any.
    pub fn get(&self, id: &str) -> (r: Option<&TsNode>)
        ensures
            r is Some <==> self@.dom().contains(id@),
            r matches Some(n) ==> *n == self@[id@],
    {
        self.nodes.get(id)
    }
}

} // verus!

verus! {

/// A refused request: `node` (of weight `weight`) asked for `op`, which needs
/// at least `min_weight`.
pub struct TsViolation {
    pub op: String,
    pub node: String,
    pub weight: u32,
    pub min_weight: u32,
}

/// The registry together with the node of the running context and the
/// refusals not yet reported.
pub struct TsContext {
    pub registry: TsRegistry,
    /// Node of the task being run; `None` is kernel context.
    pub current: Option<String>,
    /// Refusals recorded by `enforce_min_weight`, oldest first.
    pub violations: Vec<TsViolation>,
}

/// Id of the running context: its node, or the kernel when no task runs.
pub open spec fn current_id(ctx: TsContext) -> Seq<char> {
    match ctx.current {
        Some(s) => s@,
        None => kernel_id(),
    }
}

/// Weight of the running context: the kernel's when no task runs, else the
/// registered weight of the task's node, and 0 for an unknown node.
pub open spec fn current_weight(ctx: TsContext) -> u32 {
    match ctx.current {
        Some(s) => weight_or_zero(ctx.registry@, s@),
        None => KERNEL_WEIGHT,
    }
}

/// The view of an optional owned id.
pub open spec fn opt_string_view(o: Option<String>) -> Option<Seq<char>> {
    match o {
        Some(s) => Some(s@),
        None => None,
    }
}

impl TsContext {
    pub fn new() -> (r: Self)
        ensures
            r.registry@ == Map::<Seq<char>, TsNode>::empty(),
            r.current is None,
            r.violations@.len() == 0,
    {
        TsContext { registry: TsRegistry::new(), current: None, violations: Vec::new() }
    }

    /// Hands out the recorded refusals, oldest first, and forgets them.
    pub fn take_violations(&mut self) -> (r: Vec<TsViolation>)
        ensures
            r@ == old(self).violations@,
            final(self).violations@.len() == 0,
            final(self).registry == old(self).registry,
            final(self).current == old(self).current,
    {
        let mut taken: Vec<TsViolation> = Vec::new();
        std::mem::swap(&mut taken, &mut self.violations);
        taken
    }
}

/// Sets the node of the running context; `None` is kernel context.
pub fn set_current_task_node(ctx: &mut TsContext, node_id: Option<&str>)
    ensures
        opt_string_view(final(ctx).current) == opt_view(node_id),
        final(ctx).registry == old(ctx).registry,
        final(ctx).violations == old(ctx).violations,
{
    ctx.current = match node_id {
        Some(s) => Some(s.to_owned()),
        None => None,
    };
}

/// The node of the running context; `None` is kernel context.
pub fn current_node_id(ctx: &TsContext) -> (r: Option<String>)
    ensures
        opt_string_view(r) == opt_string_view(ctx.current),
{
    match &ctx.current {
        Some(s) => Some(s.clone()),
        None => None,
    }
}

/// Weight of the running context: the kernel's when no task runs, and 0
/// for a task whose node is unknown.
pub fn current_node_weight(ctx: &TsContext) -> (w: u32)
    ensures
        w == current_weight(*ctx),
{
    match &ctx.current {
        Some(s) => match ctx.registry.get_weight(s.as_str()) {
            Some(w) => w,
            None => 0,
        },
        None => KERNEL_WEIGHT,
    }
}

/// `new` is `old` with one refusal recorded: the running context asked for
/// `op`, which needs `min_weight`.
pub open spec fn refused(old: TsContext, new: TsContext, op: Seq<char>, min_weight: u32) -> bool {
    &&& new.registry == old.registry
    &&& new.current == old.current
    &&& new.violations@.len() == old.violations@.len() + 1
    &&& new.violations@.drop_last() == old.violations@
    &&& new.violations@.last().op@ == op
    &&& new.violations@.last().node@ == current_id(old)
    &&& new.violations@.last().weight == current_weight(old)
    &&& new.violations@.last().min_weight == min_weight
}

/// Checks that the running context weighs at least `min_weight` before it
/// uses a resource. A refusal is recorded and answered with `Err(())`.
pub fn enforce_min_weight(ctx: &mut TsContext, op: &str, min_weight: u32) -> (r: Result<(), ()>)
    ensures
        r is Ok <==> current_weight(*old(ctx)) >= min_weight,
        final(ctx).registry == old(ctx).registry,
        final(ctx).current == old(ctx).current,
        r is Ok ==> final(ctx).violations == old(ctx).violations,
        r is Err ==> refused(*old(ctx), *final(ctx), op@, min_weight),
{
    let weight = current_node_weight(ctx);
    if weight < min_weight {
        let node = match &ctx.current {
            Some(s) => s.clone(),
            None => "kernel".to_owned(),
        };
        ctx.violations.push(TsViolation { op: op.to_owned(), node, weight, min_weight });
        proof {
            assert(ctx.violations@.drop_last() =~= old(ctx).violations@);
        }
        return Err(());
    }
    Ok(())
}

/// Registers the kernel node at full weight, as an active root without
/// dependencies, unless it is already registered (then nothing changes);
/// called once during early boot.
pub fn init(ctx: &mut TsContext)
    ensures
        old(ctx).registry@.dom().contains(kernel_id()) ==> final(ctx).registry@ == old(ctx).registry@,
        final(ctx).registry@.dom() == old(ctx).registry@.dom().insert(kernel_id()),
        forall|k: Seq<char>| k != kernel_id() && #[trigger] old(ctx).registry@.dom().contains(k) ==> final(ctx).registry@[k] == old(ctx).registry@[k],
        final(ctx).registry@[kernel_id()].id@ == kernel_id(),
        final(ctx).registry@[kernel_id()].weight == KERNEL_WEIGHT,
        final(ctx).registry@[kernel_id()].parent is None,
        !old(ctx).registry@.dom().contains(kernel_id()) ==> final(ctx).registry@[kernel_id()].deps_view() == Seq::<Seq<char>>::empty(),
        !old(ctx).registry@.dom().contains(kernel_id()) ==> final(ctx).registry@[kernel_id()].status == TsNodeStatus::Active,
        final(ctx).current == old(ctx).current,
        final(ctx).violations == old(ctx).violations,
{
    proof {
        use_type_invariant(&ctx.registry);
        ctx.registry.lemma_wf();
    }
    ctx.registry.register_kernel();
}

} // verus!

verus! {

/// One line of the hierarchy dump: node `id` of weight `weight`, drawn at
/// indentation `depth`.
pub struct DumpLine {
    pub depth: usize,
    pub id: String,
    pub weight: u32,
}

pub open spec fn dump_line_view(l: DumpLine) -> (nat, Seq<char>, u32) {
    (l.depth as nat, l.id@, l.weight)
}

pub open spec fn dump_lines_view(s: Seq<DumpLine>) -> Seq<(nat, Seq<char>, u32)> {
    s.map_values(|l: DumpLine| dump_line_view(l))
}

/// Children of `id`, in key order.
pub open spec fn child_ids(nodes: Map<Seq<char>, TsNode>, ids: Seq<Seq<char>>, id: Seq<char>) -> Seq<Seq<char>> {
    ids.filter(|k: Seq<char>| nodes[k].parent_view() == Some(id))
}

/// Ids paired with their weights (0 for unknown ids).
pub open spec fn with_weights(nodes: Map<Seq<char>, TsNode>, ks: Seq<Seq<char>>) -> Seq<(Seq<char>, u32)> {
    ks.map_values(|k: Seq<char>| (k, weight_or_zero(nodes, k)))
}

/// Children of `id`, heaviest first; equal weights stay in key order.
pub open spec fn ordered_children(nodes: Map<Seq<char>, TsNode>, ids: Seq<Seq<char>>, id: Seq<char>) -> Seq<Seq<char>> {
    sort_by_weight_desc(with_weights(nodes, child_ids(nodes, ids, id))).map_values(|p: (Seq<char>, u32)| p.0)
}

/// The dump of the subtree at `id`, drawn from indentation `depth`, at most
/// `fuel` levels deep: the node, then the subtrees of its children, heaviest
/// first.
pub open spec fn dump_tree(nodes: Map<Seq<char>, TsNode>, ids: Seq<Seq<char>>, id: Seq<char>, depth: nat, fuel: nat) -> Seq<(nat, Seq<char>, u32)>
    decreases fuel, 0nat,
{
    if fuel == 0 || !nodes.dom().contains(id) {
        Seq::empty()
    } else {
        seq![(depth, id, nodes[id].weight)] + dump_forest(nodes, ids, ordered_children(nodes, ids, id), depth + 1, (fuel - 1) as nat)
    }
}

/// The dumps of the subtrees at `kids`, one after another.
pub open spec fn dump_forest(nodes: Map<Seq<char>, TsNode>, ids: Seq<Seq<char>>, kids: Seq<Seq<char>>, depth: nat, fuel: nat) -> Seq<(nat, Seq<char>, u32)>
    decreases fuel, kids.len() + 1,
{
    if kids.len() == 0 {
        Seq::empty()
    } else {
        dump_tree(nodes, ids, kids[0], depth, fuel) + dump_forest(nodes, ids, kids.drop_first(), depth, fuel)
    }
}

/// Root ids for the dump: the kernel first (when it is a root), then the
/// other roots in key order.
pub open spec fn dump_roots(nodes: Map<Seq<char>, TsNode>, ids: Seq<Seq<char>>) -> Seq<Seq<char>> {
    let roots = ids.filter(|k: Seq<char>| nodes[k].parent is None);
    let others = roots.filter(|k: Seq<char>| k != kernel_id());
    if roots.contains(kernel_id()) {
        seq![kernel_id()] + others
    } else {
        others
    }
}

/// The whole dump: the trees of all roots, each as deep as there are nodes.
pub open spec fn hierarchy(nodes: Map<Seq<char>, TsNode>, ids: Seq<Seq<char>>) -> Seq<(nat, Seq<char>, u32)> {
    dump_forest(nodes, ids, dump_roots(nodes, ids), 0, ids.len())
}

pub proof fn lemma_dump_forest_push(nodes: Map<Seq<char>, TsNode>, ids: Seq<Seq<char>>, kids: Seq<Seq<char>>, x: Seq<char>, depth: nat, fuel: nat)
    ensures
        dump_forest(nodes, ids, kids.push(x), depth, fuel) == dump_forest(nodes, ids, kids, depth, fuel) + dump_tree(nodes, ids, x, depth, fuel),
    decreases kids.len(),
{
    if kids.len() == 0 {
        assert(kids.push(x).drop_first() =~= Seq::<Seq<char>>::empty());
        assert(dump_forest(nodes, ids, Seq::<Seq<char>>::empty(), depth, fuel) =~= Seq::empty());
        assert(dump_forest(nodes, ids, kids.push(x), depth, fuel) =~= dump_tree(nodes, ids, x, depth, fuel));
    } else {
        assert(kids.push(x).drop_first() =~= kids.drop_first().push(x));
        lemma_dump_forest_push(nodes, ids, kids.drop_first(), x, depth, fuel);
        assert(dump_forest(nodes, ids, kids.push(x), depth, fuel) =~= dump_forest(nodes, ids, kids, depth, fuel) + dump_tree(nodes, ids, x, depth, fuel));
    }
}

impl TsRegistry {
    /// Appends the dump of the subtree at `id` to `out`.
    fn dump_node(&self, id: &str, depth: usize, fuel: usize, out: &mut Vec<DumpLine>)
        requires
            depth + fuel <= usize::MAX,
        ensures
            dump_lines_view(final(out)@) == dump_lines_view(old(out)@) + dump_tree(self@, self.ids(), id@, depth as nat, fuel as nat),
        decreases fuel,
    {
        if fuel == 0 {
            proof {
                assert(dump_lines_view(out@) =~= dump_lines_view(old(out)@) + Seq::empty());
            }
            return;
        }
        let node = match self.get(id) {
            Some(n) => n,
            None => {
                proof {
                    assert(dump_lines_view(out@) =~= dump_lines_view(old(out)@) + Seq::empty());
                }
                return;
            },
        };
        let ghost before = dump_lines_view(out@);
        out.push(DumpLine { depth, id: id.to_owned(), weight: node.weight });
        proof {
            assert(dump_lines_view(out@) =~= before + seq![(depth as nat, id@, self@[id@].weight)]);
        }
        let kids = self.children(id);
        let mut weighted: Vec<(String, u32)> = Vec::new();
        let mut i: usize = 0;
        while i < kids.len()
            invariant
                0 <= i <= kids@.len(),
                weighted@.map_values(|p: (String, u32)| (p.0@, p.1)) == with_weights(self@, strings_view(kids@).take(i as int)),
            decreases kids@.len() - i,
        {
            let w = match self.get_weight(kids[i].as_str()) {
                Some(w) => w,
                None => 0,
            };
            let ghost wb = weighted@;
            weighted.push((kids[i].clone(), w));
            proof {
                assert(strings_view(kids@).take(i + 1) =~= strings_view(kids@).take(i as int).push(kids@[i as int]@));
                assert(weighted@.map_values(|p: (String, u32)| (p.0@, p.1)) =~= wb.map_values(|p: (String, u32)| (p.0@, p.1)).push((kids@[i as int]@, w)));
                assert(with_weights(self@, strings_view(kids@).take(i + 1)) =~= with_weights(self@, strings_view(kids@).take(i as int)).push((kids@[i as int]@, w)));
            }
            i = i + 1;
        }
        proof {
            assert(strings_view(kids@).take(kids@.len() as int) =~= strings_view(kids@));
        }
        let ghost wv = weighted@;
        let sorted = stable_sort_by_weight_desc(weighted);
        proof {
            crate::sort::lemma_sort_map_first(wv, |p: (String, u32)| (p.0@, p.1));
        }
        let ghost kid_order = ordered_children(self@, self.ids(), id@);
        assert(sorted@.map_values(|p: (String, u32)| p.0@) =~= kid_order);
        let mut j: usize = 0;
        while j < sorted.len()
            invariant
                0 <= j <= sorted@.len(),
                depth + fuel <= usize::MAX,
                fuel > 0,
                sorted@.map_values(|p: (String, u32)| p.0@) == kid_order,
                dump_lines_view(out@) == before + seq![(depth as nat, id@, self@[id@].weight)] + dump_forest(self@, self.ids(), kid_order.take(j as int), depth as nat + 1, (fuel - 1) as nat),
            decreases sorted@.len() - j,
        {
            let ghost ob = dump_lines_view(out@);
            self.dump_node(sorted[j].0.as_str(), depth + 1, fuel - 1, out);
            proof {
                assert(kid_order.take(j + 1) =~= kid_order.take(j as int).push(kid_order[j as int]));
                lemma_dump_forest_push(self@, self.ids(), kid_order.take(j as int), kid_order[j as int], depth as nat + 1, (fuel - 1) as nat);
            }
            j = j + 1;
        }
        proof {
            assert(kid_order.take(sorted@.len() as int) =~= kid_order);
        }
    }

    /// The hierarchy as an indented tree: each root (the kernel first, then
    /// the others in key order) followed by its descendants, children
    /// heaviest first.
    pub fn hierarchy_dump(&self) -> (lines: Vec<DumpLine>)
        ensures
            dump_lines_view(lines@) == hierarchy(self@, self.ids()),
    {
        let roots = self.roots();
        let ghost rv = strings_view(roots@);
        let mut ordered: Vec<String> = Vec::new();
        let mut has_kernel = false;
        let mut i: usize = 0;
        while i < roots.len()
            invariant
                0 <= i <= roots@.len(),
                strings_view(ordered@) == rv.take(i as int).filter(|k: Seq<char>| k != kernel_id()),
                has_kernel == rv.take(i as int).contains(kernel_id()),
                rv == strings_view(roots@),
            decreases roots@.len() - i,
        {
            proof {
                assert(rv.take(i + 1) =~= rv.take(i as int).push(rv[i as int]));
                rv.take(i as int).lemma_filter_push(rv[i as int], |k: Seq<char>| k != kernel_id());
            }
            proof {
                let a = rv.take(i as int);
                let b = rv.take(i + 1);
                if a.contains(kernel_id()) {
                    let j = choose|j: int| 0 <= j < a.len() && a[j] == kernel_id();
                    assert(b[j] == kernel_id());
                }
                if rv[i as int] == kernel_id() {
                    assert(b[i as int] == kernel_id());
                }
                if b.contains(kernel_id()) {
                    let j = choose|j: int| 0 <= j < b.len() && b[j] == kernel_id();
                    if j < i {
                        assert(a[j] == kernel_id());
                    }
                }
            }
            if matches!(compare_keys(roots[i].as_str(), "kernel"), KeyOrder::Equal) {
                has_kernel = true;
            } else {
                let ghost ob = ordered@;
                ordered.push(roots[i].clone());
                proof {
                    assert(strings_view(ordered@) =~= strings_view(ob).push(rv[i as int]));
                }
            }
            i = i + 1;
        }
        proof {
            assert(rv.take(roots@.len() as int) =~= rv);
        }
        if has_kernel {
            let ghost ob = strings_view(ordered@);
            ordered.insert(0, "kernel".to_owned());
            proof {
                assert(strings_view(ordered@) =~= seq![kernel_id()] + ob);
            }
        }
        let ghost order = strings_view(ordered@);
        assert(order == dump_roots(self@, self.ids()));
        let fuel = self.nodes.len();
        let mut out: Vec<DumpLine> = Vec::new();
        let mut j: usize = 0;
        while j < ordered.len()
            invariant
                0 <= j <= ordered@.len(),
                order == strings_view(ordered@),
                fuel == self.ids().len(),
                dump_lines_view(out@) == dump_forest(self@, self.ids(), order.take(j as int), 0, fuel as nat),
            decreases ordered@.len() - j,
        {
            self.dump_node(ordered[j].as_str(), 0, fuel, &mut out);
            proof {
                assert(order.take(j + 1) =~= order.take(j as int).push(order[j as int]));
                lemma_dump_forest_push(self@, self.ids(), order.take(j as int), order[j as int], 0, fuel as nat);
            }
            j = j + 1;
        }
        proof {
            assert(order.take(ordered@.len() as int) =~= order);
        }
        out
    }
}

} // verus!

verus! {

/// Conflicts are settled by weight alone: the kernel wins whenever it is
/// involved and on every tie; otherwise the heavier node wins; the winner is
/// always one of the two parties or the kernel, and the order in which the
/// parties are named does not matter.
pub proof fn lemma_conflict_laws(nodes: Map<Seq<char>, TsNode>, a: Seq<char>, b: Seq<char>)
    ensures
        (a == kernel_id() || b == kernel_id()) ==> conflict_winner(nodes, a, b) == kernel_id(),
        weight_or_zero(nodes, a) == weight_or_zero(nodes, b) ==> conflict_winner(nodes, a, b) == kernel_id(),
        conflict_winner(nodes, a, b) == a || conflict_winner(nodes, a, b) == b || conflict_winner(nodes, a, b) == kernel_id(),
        conflict_winner(nodes, a, b) == conflict_winner(nodes, b, a),
        conflict_winner(nodes, a, b) == a && a != kernel_id() ==> weight_or_zero(nodes, a) > weight_or_zero(nodes, b),
        conflict_winner(nodes, a, b) == b && b != kernel_id() ==> weight_or_zero(nodes, b) > weight_or_zero(nodes, a),
{
}

/// The heavier node wins: between two nodes other than the kernel, the one
/// of greater registered weight (an unknown node weighs nothing) wins by any
/// margin, however small; the kernel wins exactly when it is one of the two
/// or their weights are equal.
pub proof fn lemma_heavier_wins(nodes: Map<Seq<char>, TsNode>, a: Seq<char>, b: Seq<char>)
    ensures
        ({
            let wa: int = if nodes.dom().contains(a) { nodes[a].weight as int } else { 0 };
            let wb: int = if nodes.dom().contains(b) { nodes[b].weight as int } else { 0 };
            &&& a != kernel_id() && b != kernel_id() && wa > wb ==> conflict_winner(nodes, a, b) == a
            &&& a != kernel_id() && b != kernel_id() && wb > wa ==> conflict_winner(nodes, a, b) == b
            &&& conflict_winner(nodes, a, b) == kernel_id() <==> (a == kernel_id() || b == kernel_id() || wa == wb)
        }),
{
}

/// The kernel's context passes every weight check up to the kernel's
/// weight, and a task whose node is unknown passes only checks of weight 0.
pub proof fn lemma_kernel_context_passes(ctx: TsContext, min_weight: u32)
    requires
        min_weight <= KERNEL_WEIGHT,
    ensures
        ctx.current is None ==> current_weight(ctx) >= min_weight,
        ctx.current matches Some(s) && !ctx.registry@.dom().contains(s@) ==> current_weight(ctx) == 0,
{
}

} // verus!

verus! {

/// `p` lists the ancestors of `id` from a root down to its parent: each is
/// registered, none twice, `id` not among them, and each is the parent of
/// the next.
pub open spec fn ancestor_chain(nodes: Map<Seq<char>, TsNode>, p: Seq<Seq<char>>, id: Seq<char>) -> bool {
    &&& p.no_duplicates()
    &&& !p.contains(id)
    &&& forall|i: int| 0 <= i < p.len() ==> nodes.dom().contains(#[trigger] p[i])
    &&& p.len() == 0 ==> nodes[id].parent is None
    &&& p.len() > 0 ==> nodes[p[0]].parent is None && nodes[id].parent_view() == Some(p.last())
    &&& forall|i: int| 0 < i < p.len() ==> #[trigger] nodes[p[i]].parent_view() == Some(p[i - 1])
}

/// The ids of a registry: each registered id once.
pub open spec fn ids_of(nodes: Map<Seq<char>, TsNode>, ids: Seq<Seq<char>>) -> bool {
    &&& forall|k: Seq<char>| #[trigger] nodes.dom().contains(k) <==> ids.contains(k)
    &&& nodes.dom().finite()
    &&& ids.len() == nodes.dom().len()
}

proof fn lemma_children_chain(nodes: Map<Seq<char>, TsNode>, ids: Seq<Seq<char>>, p: Seq<Seq<char>>, id: Seq<char>, j: int)
    requires
        ids_of(nodes, ids),
        ancestor_chain(nodes, p, id),
        nodes.dom().contains(id),
        0 <= j < ordered_children(nodes, ids, id).len(),
    ensures
        ancestor_chain(nodes, p.push(id), ordered_children(nodes, ids, id)[j]),
{
    let pred = |k: Seq<char>| nodes[k].parent_view() == Some(id);
    let kids = child_ids(nodes, ids, id);
    let ww = with_weights(nodes, kids);
    crate::sort::lemma_sort_by_weight_desc(ww);
    crate::sort::lemma_sorted_element(ww, j);
    let k = choose|k: int| 0 <= k < ww.len() && ww[k] == sort_by_weight_desc(ww)[j];
    let x = ordered_children(nodes, ids, id)[j];
    assert(x == kids[k]);
    ids.filter_lemma(pred);
    assert(pred(kids[k]));
    assert(kids.contains(kids[k]));
    ids.lemma_filter_contains_rev(pred, kids[k]);
    let q = p.push(id);
    assert(nodes[x].parent_view() == Some(id));
    assert(q.no_duplicates()) by {
        assert forall|a: int, b: int| 0 <= a < q.len() && 0 <= b < q.len() && a != b implies q[a] != q[b] by {
            if a < p.len() && b < p.len() {
                assert(q[a] == p[a] && q[b] == p[b]);
            } else if a < p.len() {
                assert(q[a] == p[a]);
            } else {
                assert(q[b] == p[b]);
            }
        }
    }
    assert(!q.contains(x)) by {
        if q.contains(x) {
            let i = choose|i: int| 0 <= i < q.len() && q[i] == x;
            if i == p.len() {
                if p.len() > 0 {
                    assert(p[p.len() - 1] == id);
                }
            } else if i > 0 {
                assert(q[i] == p[i]);
                assert(nodes[p[i]].parent_view() == Some(p[i - 1]));
                assert(p[i - 1] == id);
            } else {
                assert(q[0] == p[0]);
            }
        }
    }
    assert forall|i: int| 0 < i < q.len() implies #[trigger] nodes[q[i]].parent_view() == Some(q[i - 1]) by {
        if i < p.len() {
            assert(q[i] == p[i] && q[i - 1] == p[i - 1]);
        } else {
            assert(q[i - 1] == p[p.len() - 1]);
        }
    }
    assert forall|i: int| 0 <= i < q.len() implies nodes.dom().contains(#[trigger] q[i]) by {
        if i < p.len() {
            assert(q[i] == p[i]);
        }
    }
    if p.len() > 0 {
        assert(q[0] == p[0]);
    }
}

proof fn lemma_tree_whole(nodes: Map<Seq<char>, TsNode>, ids: Seq<Seq<char>>, id: Seq<char>, depth: nat, fuel: nat, extra: nat, p: Seq<Seq<char>>)
    requires
        ids_of(nodes, ids),
        ancestor_chain(nodes, p, id),
        p.len() + fuel >= ids.len(),
    ensures
        dump_tree(nodes, ids, id, depth, fuel) == dump_tree(nodes, ids, id, depth, fuel + extra),
    decreases fuel, 0nat,
{
    if !nodes.dom().contains(id) {
    } else if fuel == 0 {
        let q = p.push(id);
        assert(q.no_duplicates()) by {
            assert forall|a: int, b: int| 0 <= a < q.len() && 0 <= b < q.len() && a != b implies q[a] != q[b] by {
                if a < p.len() && b < p.len() {
                    assert(q[a] == p[a] && q[b] == p[b]);
                } else if a < p.len() {
                    assert(q[a] == p[a]);
                } else {
                    assert(q[b] == p[b]);
                }
            }
        }
        q.unique_seq_to_set();
        assert(q.to_set().subset_of(nodes.dom())) by {
            assert forall|k: Seq<char>| q.to_set().contains(k) implies nodes.dom().contains(k) by {
                let i = choose|i: int| 0 <= i < q.len() && q[i] == k;
                if i < p.len() {
                    assert(q[i] == p[i]);
                }
            }
        }
        vstd::set_lib::lemma_len_subset(q.to_set(), nodes.dom());
    } else {
        let kids = ordered_children(nodes, ids, id);
        assert forall|j: int| 0 <= j < kids.len() implies ancestor_chain(nodes, p.push(id), #[trigger] kids[j]) by {
            lemma_children_chain(nodes, ids, p, id, j);
        }
        lemma_forest_whole(nodes, ids, kids, depth + 1, (fuel - 1) as nat, extra, p.push(id));
        assert((fuel + extra - 1) as nat == (fuel - 1) as nat + extra);
    }
}

proof fn lemma_forest_whole(nodes: Map<Seq<char>, TsNode>, ids: Seq<Seq<char>>, kids: Seq<Seq<char>>, depth: nat, fuel: nat, extra: nat, p: Seq<Seq<char>>)
    requires
        ids_of(nodes, ids),
        forall|j: int| 0 <= j < kids.len() ==> ancestor_chain(nodes, p, #[trigger] kids[j]),
        p.len() + fuel >= ids.len(),
    ensures
        dump_forest(nodes, ids, kids, depth, fuel) == dump_forest(nodes, ids, kids, depth, fuel + extra),
    decreases fuel, kids.len() + 1,
{
    if kids.len() > 0 {
        lemma_tree_whole(nodes, ids, kids[0], depth, fuel, extra, p);
        assert forall|j: int| 0 <= j < kids.drop_first().len() implies ancestor_chain(nodes, p, #[trigger] kids.drop_first()[j]) by {
            assert(kids.drop_first()[j] == kids[j + 1]);
        }
        lemma_forest_whole(nodes, ids, kids.drop_first(), depth, fuel, extra, p);
    }
}

impl TsRegistry {
    /// The dump holds every root's tree whole: a node's subtree is never
    /// cut short, since allowing any deeper descent draws the same lines.
    pub proof fn lemma_dump_whole(&self, extra: nat)
        requires
            self.inv(),
        ensures
            hierarchy(self@, self.ids()) == dump_forest(self@, self.ids(), dump_roots(self@, self.ids()), 0, self.ids().len() + extra),
    {
        self.lemma_wf();
        let nodes = self@;
        let ids = self.ids();
        let rpred = |k: Seq<char>| nodes[k].parent is None;
        let npred = |k: Seq<char>| k != kernel_id();
        let roots = ids.filter(rpred);
        let others = roots.filter(npred);
        ids.filter_lemma(rpred);
        roots.filter_lemma(npred);
        let rs = dump_roots(nodes, ids);
        assert forall|j: int| 0 <= j < rs.len() implies ancestor_chain(nodes, Seq::<Seq<char>>::empty(), #[trigger] rs[j]) by {
            if roots.contains(kernel_id()) {
                if j == 0 {
                    let i = choose|i: int| 0 <= i < roots.len() && roots[i] == kernel_id();
                    assert(rpred(roots[i]));
                } else {
                    assert(rs[j] == others[j - 1]);
                    assert(others.contains(others[j - 1]));
                    roots.lemma_filter_contains_rev(npred, others[j - 1]);
                    let i = choose|i: int| 0 <= i < roots.len() && roots[i] == others[j - 1];
                    assert(rpred(roots[i]));
                }
            } else {
                assert(others.contains(others[j]));
                roots.lemma_filter_contains_rev(npred, others[j]);
                let i = choose|i: int| 0 <= i < roots.len() && roots[i] == others[j];
                assert(rpred(roots[i]));
            }
        }
        lemma_forest_whole(nodes, ids, rs, 0, ids.len(), extra, Seq::empty());
    }
}

} // verus!
