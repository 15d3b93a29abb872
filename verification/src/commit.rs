use vstd::prelude::*;
use crate::chunk::ChunkKey;
use crate::config::{CommitOpKind, DeferredOpKey};
use crate::metadata::{key_code, key_code_spec};
use crate::order::{keys_strictly_sorted, sort_key_set};
use crate::lod_balance::holds_key;
use crate::surface::SurfaceClassKey;

verus! {

broadcast use vstd::seq_lib::group_to_multiset_ensures;

/// The order in which the kinds of commit run within a frame: render activations first, then
/// render updates, physics activations, render deactivations and physics deactivations.
pub open spec fn priority_group_spec(kind: CommitOpKind) -> u8 {
    match kind {
        CommitOpKind::ActivateRender => 0,
        CommitOpKind::UpdateRender => 1,
        CommitOpKind::ActivatePhysics => 2,
        CommitOpKind::DeactivateRender => 3,
        CommitOpKind::DeactivatePhysics => 4,
    }
}

/// The kind's position in the per-kind budget counts.
pub open spec fn kind_index_spec(kind: CommitOpKind) -> int {
    match kind {
        CommitOpKind::ActivateRender => 0,
        CommitOpKind::UpdateRender => 1,
        CommitOpKind::DeactivateRender => 2,
        CommitOpKind::ActivatePhysics => 3,
        CommitOpKind::DeactivatePhysics => 4,
    }
}

/// The kinds that upload a render payload.
pub open spec fn uploads_payload(kind: CommitOpKind) -> bool {
    kind == CommitOpKind::ActivateRender || kind == CommitOpKind::UpdateRender
}

pub fn commit_priority_group(kind: CommitOpKind) -> (g: u8)
    ensures
        g == priority_group_spec(kind),
{
    match kind {
        CommitOpKind::ActivateRender => 0,
        CommitOpKind::UpdateRender => 1,
        CommitOpKind::ActivatePhysics => 2,
        CommitOpKind::DeactivateRender => 3,
        CommitOpKind::DeactivatePhysics => 4,
    }
}

fn kind_index(kind: CommitOpKind) -> (i: usize)
    ensures
        i == kind_index_spec(kind),
        i < 5,
{
    match kind {
        CommitOpKind::ActivateRender => 0,
        CommitOpKind::UpdateRender => 1,
        CommitOpKind::DeactivateRender => 2,
        CommitOpKind::ActivatePhysics => 3,
        CommitOpKind::DeactivatePhysics => 4,
    }
}

/// One server commit of a frame.
#[derive(Clone, Copy, Debug, PartialEq, Eq, Structural)]
pub struct CommitOp {
    pub kind: CommitOpKind,
    pub key: ChunkKey,
    pub upload_bytes: usize,
    pub priority_group: u8,
    pub distance_key_mm: u64,
}

impl CommitOp {
    /// The commit of `kind` for `key`, `distance_key_mm` from the camera. Only render
    /// activations and updates upload: the others carry no upload bytes.
    pub fn new(kind: CommitOpKind, key: ChunkKey, payload_upload_bytes: usize, distance_key_mm: u64) -> (op: Self)
        ensures
            op == (CommitOp {
                kind,
                key,
                upload_bytes: if uploads_payload(kind) { payload_upload_bytes } else { 0 },
                priority_group: priority_group_spec(kind),
                distance_key_mm,
            }),
    {
        let upload_bytes = match kind {
            CommitOpKind::ActivateRender | CommitOpKind::UpdateRender => payload_upload_bytes,
            _ => 0,
        };
        CommitOp { kind, key, upload_bytes, priority_group: commit_priority_group(kind), distance_key_mm }
    }
}

/// `a` runs strictly before `b`: by priority group, then distance to the camera, then key.
pub open spec fn op_before(a: CommitOp, b: CommitOp) -> bool {
    ||| a.priority_group < b.priority_group
    ||| (a.priority_group == b.priority_group && a.distance_key_mm < b.distance_key_mm)
    ||| (a.priority_group == b.priority_group && a.distance_key_mm == b.distance_key_mm
        && key_code_spec(a.key) < key_code_spec(b.key))
}

/// Commits in the order they run.
pub open spec fn ops_sorted(s: Seq<CommitOp>) -> bool {
    forall|i: int, j: int| 0 <= i < j < s.len() ==> !op_before(#[trigger] s[j], #[trigger] s[i])
}

fn op_runs_before(a: &CommitOp, b: &CommitOp) -> (r: bool)
    ensures
        r == op_before(*a, *b),
{
    if a.priority_group != b.priority_group {
        return a.priority_group < b.priority_group;
    }
    if a.distance_key_mm != b.distance_key_mm {
        return a.distance_key_mm < b.distance_key_mm;
    }
    key_code(&a.key) < key_code(&b.key)
}

fn swap_adjacent_ops(v: &mut Vec<CommitOp>, j: usize)
    requires
        0 < j < old(v).len(),
    ensures
        final(v)@ == old(v)@.update(j as int, old(v)@[j - 1]).update(j - 1, old(v)@[j as int]),
        final(v)@.to_multiset() == old(v)@.to_multiset(),
{
    let x = v[j];
    let y = v[j - 1];
    proof {
        let s0 = v@;
        let s1 = s0.update(j as int, y);
        let s2 = s1.update(j - 1, x);
        assert(s2.to_multiset() =~= s0.to_multiset()) by {
            broadcast use vstd::multiset::group_multiset_properties;
            assert(s1.to_multiset() == s0.to_multiset().insert(y).remove(x));
            assert(s2.to_multiset() == s1.to_multiset().insert(x).remove(y));
        }
    }
    v.set(j, y);
    v.set(j - 1, x);
}

/// Sorts commits into the order they run: by priority group, then distance to the camera,
/// then key.
pub fn sort_commit_ops(v: &mut Vec<CommitOp>)
    ensures
        final(v)@.to_multiset() == old(v)@.to_multiset(),
        final(v)@.len() == old(v)@.len(),
        ops_sorted(final(v)@),
{
    let n = v.len();
    let mut i: usize = 0;
    while i < n
        invariant
            i <= n,
            v@.len() == n,
            v@.to_multiset() == old(v)@.to_multiset(),
            forall|a: int, b: int| 0 <= a < b < i ==> !op_before(#[trigger] v@[b], #[trigger] v@[a]),
        decreases n - i,
    {
        let mut j: usize = i;
        while j > 0 && op_runs_before(&v[j], &v[j - 1])
            invariant
                j <= i < n,
                v@.len() == n,
                v@.to_multiset() == old(v)@.to_multiset(),
                forall|a: int, b: int| 0 <= a < b <= i && a != j && b != j
                    ==> !op_before(#[trigger] v@[b], #[trigger] v@[a]),
                forall|b: int| j < b <= i ==> !op_before(#[trigger] v@[b], v@[j as int]),
            decreases j,
        {
            swap_adjacent_ops(v, j);
            j -= 1;
        }
        proof {
            assert forall|a: int, b: int| 0 <= a < b <= i implies !op_before(#[trigger] v@[b], #[trigger] v@[a]) by {
                if b == j && a + 1 < j {
                    assert(!op_before(v@[j - 1], v@[a]));
                }
            }
        }
        i += 1;
    }
}

/// `v` lists in ascending order exactly the keys that `a` holds and `b` holds too (`common`)
/// or does not hold.
pub open spec fn sorted_selection(v: Seq<ChunkKey>, a: Seq<ChunkKey>, b: Seq<ChunkKey>, common: bool) -> bool {
    &&& keys_strictly_sorted(v)
    &&& forall|k: ChunkKey| #[trigger] v.contains(k) == (a.contains(k) && b.contains(k) == common)
}

/// The keys of `a` that `b` holds too (`common`) or does not hold, ascending.
fn select_keys(a: &Vec<ChunkKey>, b: &Vec<ChunkKey>, common: bool) -> (v: Vec<ChunkKey>)
    ensures
        sorted_selection(v@, a@, b@, common),
{
    let mut v: Vec<ChunkKey> = Vec::new();
    let mut i: usize = 0;
    while i < a.len()
        invariant
            i <= a@.len(),
            v@.no_duplicates(),
            forall|k: ChunkKey| #[trigger] v@.contains(k)
                == ((exists|j: int| 0 <= j < i && a@[j] == k) && b@.contains(k) == common),
        decreases a@.len() - i,
    {
        let k = a[i];
        if holds_key(b, &k) == common && !holds_key(&v, &k) {
            proof {
                crate::lod_balance::lemma_push_members(v@, k);
            }
            v.push(k);
        }
        proof {
            assert forall|x: ChunkKey| #[trigger] v@.contains(x)
                == ((exists|j: int| 0 <= j < i + 1 && a@[j] == x) && b@.contains(x) == common) by {
                if exists|j: int| 0 <= j < i + 1 && a@[j] == x {
                    let j = choose|j: int| 0 <= j < i + 1 && a@[j] == x;
                    if j < i {
                        assert(exists|j2: int| 0 <= j2 < i && a@[j2] == x);
                    }
                }
                if exists|j: int| 0 <= j < i && a@[j] == x {
                    let j = choose|j: int| 0 <= j < i && a@[j] == x;
                    assert(exists|j2: int| 0 <= j2 < i + 1 && a@[j2] == x);
                }
            }
        }
        i += 1;
    }
    proof {
        assert forall|k: ChunkKey| #[trigger] v@.contains(k) == (a@.contains(k) && b@.contains(k) == common) by {
            if a@.contains(k) {
                let j = choose|j: int| 0 <= j < a@.len() && a@[j] == k;
                assert(exists|j2: int| 0 <= j2 < a@.len() && a@[j2] == k);
            }
        }
    }
    sort_key_set(&mut v);
    v
}

/// The keys of `a` that `b` does not hold, ascending.
pub fn keys_difference(a: &Vec<ChunkKey>, b: &Vec<ChunkKey>) -> (v: Vec<ChunkKey>)
    ensures
        sorted_selection(v@, a@, b@, false),
{
    select_keys(a, b, false)
}

/// The keys of `a` that `b` holds too, ascending.
pub fn keys_intersection(a: &Vec<ChunkKey>, b: &Vec<ChunkKey>) -> (v: Vec<ChunkKey>)
    ensures
        sorted_selection(v@, a@, b@, true),
{
    select_keys(a, b, true)
}

/// The chunks that change server state this frame, each list ascending.
pub struct CommitPlan {
    /// Desired for rendering and not rendered yet.
    pub render_activations: Vec<ChunkKey>,
    /// Desired and rendered: refreshed where the surface class changed.
    pub render_updates: Vec<ChunkKey>,
    /// Desired for collision and not active yet.
    pub physics_activations: Vec<ChunkKey>,
    /// Rendered and no longer desired.
    pub render_deactivations: Vec<ChunkKey>,
    /// Active for collision and no longer desired.
    pub physics_deactivations: Vec<ChunkKey>,
}

/// Splits the desired render and collision sets against the active ones.
pub fn plan_commit_keys(
    desired_render: &Vec<ChunkKey>,
    active_render: &Vec<ChunkKey>,
    desired_physics: &Vec<ChunkKey>,
    active_physics: &Vec<ChunkKey>,
) -> (plan: CommitPlan)
    ensures
        sorted_selection(plan.render_activations@, desired_render@, active_render@, false),
        sorted_selection(plan.render_updates@, desired_render@, active_render@, true),
        sorted_selection(plan.physics_activations@, desired_physics@, active_physics@, false),
        sorted_selection(plan.render_deactivations@, active_render@, desired_render@, false),
        sorted_selection(plan.physics_deactivations@, active_physics@, desired_physics@, false),
{
    CommitPlan {
        render_activations: keys_difference(desired_render, active_render),
        render_updates: keys_intersection(desired_render, active_render),
        physics_activations: keys_difference(desired_physics, active_physics),
        render_deactivations: keys_difference(active_render, desired_render),
        physics_deactivations: keys_difference(active_physics, desired_physics),
    }
}

/// Committing every planned op brings the active sets to the desired ones: a chunk is rendered
/// afterwards exactly when it is desired for rendering (activated, updated, or kept, and not
/// deactivated), and likewise for collision.
pub proof fn lemma_plan_reaches_desired_sets(
    desired_render: Seq<ChunkKey>,
    active_render: Seq<ChunkKey>,
    desired_physics: Seq<ChunkKey>,
    active_physics: Seq<ChunkKey>,
    plan_activations: Seq<ChunkKey>,
    plan_updates: Seq<ChunkKey>,
    plan_render_deactivations: Seq<ChunkKey>,
    plan_physics_activations: Seq<ChunkKey>,
    plan_physics_deactivations: Seq<ChunkKey>,
    k: ChunkKey,
)
    requires
        sorted_selection(plan_activations, desired_render, active_render, false),
        sorted_selection(plan_updates, desired_render, active_render, true),
        sorted_selection(plan_render_deactivations, active_render, desired_render, false),
        sorted_selection(plan_physics_activations, desired_physics, active_physics, false),
        sorted_selection(plan_physics_deactivations, active_physics, desired_physics, false),
    ensures
        ((active_render.contains(k) || plan_activations.contains(k) || plan_updates.contains(k))
            && !plan_render_deactivations.contains(k)) == desired_render.contains(k),
        ((active_physics.contains(k) || plan_physics_activations.contains(k))
            && !plan_physics_deactivations.contains(k)) == desired_physics.contains(k),
        !(plan_activations.contains(k) && plan_render_deactivations.contains(k)),
        !(plan_physics_activations.contains(k) && plan_physics_deactivations.contains(k)),
{
}

/// A rendered chunk needs new render data when it has no resident payload or the payload's
/// surface class is not the one its selection requires.
pub fn render_update_needs_refresh(resident_surface_class: Option<&SurfaceClassKey>, required: &SurfaceClassKey) -> (b: bool)
    ensures
        b == match resident_surface_class {
            Some(c) => *c != *required,
            None => true,
        },
{
    match resident_surface_class {
        Some(c) => *c != *required,
        None => true,
    }
}

/// The per-frame commit budgets: all commits, uploaded bytes, and commits of each kind.
#[derive(Clone, Copy, Debug, PartialEq, Eq, Structural)]
pub struct CommitBudget {
    pub commit_budget_per_frame: usize,
    pub upload_budget_bytes_per_frame: usize,
    pub render_activation_budget_per_frame: usize,
    pub render_update_budget_per_frame: usize,
    pub render_deactivation_budget_per_frame: usize,
    pub physics_activation_budget_per_frame: usize,
    pub physics_deactivation_budget_per_frame: usize,
}

impl CommitBudget {
    /// The budget of commits of `kind` per frame.
    pub open spec fn kind_budget(self, kind: CommitOpKind) -> usize {
        match kind {
            CommitOpKind::ActivateRender => self.render_activation_budget_per_frame,
            CommitOpKind::UpdateRender => self.render_update_budget_per_frame,
            CommitOpKind::DeactivateRender => self.render_deactivation_budget_per_frame,
            CommitOpKind::ActivatePhysics => self.physics_activation_budget_per_frame,
            CommitOpKind::DeactivatePhysics => self.physics_deactivation_budget_per_frame,
        }
    }

    pub fn budget_for_kind(&self, kind: CommitOpKind) -> (n: usize)
        ensures
            n == self.kind_budget(kind),
    {
        match kind {
            CommitOpKind::ActivateRender => self.render_activation_budget_per_frame,
            CommitOpKind::UpdateRender => self.render_update_budget_per_frame,
            CommitOpKind::DeactivateRender => self.render_deactivation_budget_per_frame,
            CommitOpKind::ActivatePhysics => self.physics_activation_budget_per_frame,
            CommitOpKind::DeactivatePhysics => self.physics_deactivation_budget_per_frame,
        }
    }
}

/// The empty per-kind counts.
pub open spec fn no_kind_counts() -> Seq<nat> {
    seq![0nat, 0nat, 0nat, 0nat, 0nat]
}

/// With `st` = (commits made, bytes uploaded, commits per kind) so far, `op` still fits the
/// frame: the commit budget is not spent, its upload (if any) fits the byte budget, and the
/// budget of its kind is not spent.
pub open spec fn admits(st: (nat, nat, Seq<nat>), op: CommitOp, b: CommitBudget) -> bool {
    &&& st.0 < b.commit_budget_per_frame
    &&& !(op.upload_bytes > 0 && st.1 + op.upload_bytes > b.upload_budget_bytes_per_frame)
    &&& st.2[kind_index_spec(op.kind)] < b.kind_budget(op.kind)
}

/// (commits made, bytes uploaded, commits per kind) after the first `n` ops, taken in order.
pub open spec fn admit_state(ops: Seq<CommitOp>, b: CommitBudget, n: nat) -> (nat, nat, Seq<nat>)
    decreases n,
{
    if n == 0 {
        (0, 0, no_kind_counts())
    } else {
        let prev = admit_state(ops, b, (n - 1) as nat);
        let op = ops[n - 1];
        if admits(prev, op, b) {
            let k = kind_index_spec(op.kind);
            (prev.0 + 1, prev.1 + op.upload_bytes as nat, prev.2.update(k, prev.2[k] + 1))
        } else {
            prev
        }
    }
}

/// The op at position `i` is committed.
pub open spec fn admitted(ops: Seq<CommitOp>, b: CommitBudget, i: int) -> bool {
    admits(admit_state(ops, b, i as nat), ops[i], b)
}

/// The committed ops among the first `n`, in order.
pub open spec fn committed_ops(ops: Seq<CommitOp>, b: CommitBudget, n: nat) -> Seq<CommitOp>
    decreases n,
{
    if n == 0 {
        Seq::empty()
    } else {
        let prev = committed_ops(ops, b, (n - 1) as nat);
        if admitted(ops, b, n - 1) { prev.push(ops[n - 1]) } else { prev }
    }
}

/// The deferred ops among the first `n`, in order.
pub open spec fn deferred_ops(ops: Seq<CommitOp>, b: CommitBudget, n: nat) -> Seq<CommitOp>
    decreases n,
{
    if n == 0 {
        Seq::empty()
    } else {
        let prev = deferred_ops(ops, b, (n - 1) as nat);
        if admitted(ops, b, n - 1) { prev } else { prev.push(ops[n - 1]) }
    }
}

/// The distinct (kind, key) pairs of a list of ops, in order of first appearance.
pub open spec fn distinct_op_keys(ops: Seq<CommitOp>) -> Seq<DeferredOpKey>
    decreases ops.len(),
{
    if ops.len() == 0 {
        Seq::empty()
    } else {
        let prev = distinct_op_keys(ops.drop_last());
        let k = DeferredOpKey { kind: ops.last().kind, key: ops.last().key };
        if prev.contains(k) { prev } else { prev.push(k) }
    }
}

/// Total upload bytes of a list of ops.
pub open spec fn upload_total(ops: Seq<CommitOp>) -> nat
    decreases ops.len(),
{
    if ops.len() == 0 {
        0
    } else {
        upload_total(ops.drop_last()) + ops.last().upload_bytes as nat
    }
}

/// What the budget lets through this frame.
pub struct CommitSchedule {
    /// The ops to apply now, in order.
    pub committed: Vec<CommitOp>,
    /// The (kind, key) of each deferred op, once.
    pub deferred: Vec<DeferredOpKey>,
    pub upload_bytes_committed: usize,
    pub upload_bytes_deferred: usize,
}

/// Takes the ops in order and commits each that still fits the frame's budgets (see
/// `admits`); the others wait for a later frame.
pub fn schedule_commit_ops(ops: &Vec<CommitOp>, budget: &CommitBudget) -> (s: CommitSchedule)
    requires
        upload_total(ops@) <= usize::MAX,
    ensures
        s.committed@ == committed_ops(ops@, *budget, ops@.len()),
        s.deferred@ == distinct_op_keys(deferred_ops(ops@, *budget, ops@.len())),
        s.upload_bytes_committed == admit_state(ops@, *budget, ops@.len()).1,
        s.upload_bytes_deferred == upload_total(deferred_ops(ops@, *budget, ops@.len())),
{
    let mut committed: Vec<CommitOp> = Vec::new();
    let mut deferred: Vec<DeferredOpKey> = Vec::new();
    let mut committed_count: usize = 0;
    let mut upload_bytes_committed: usize = 0;
    let mut upload_bytes_deferred: usize = 0;
    let mut kind_counts: Vec<usize> = vec![0, 0, 0, 0, 0];
    let ghost mut deferred_all: Seq<CommitOp> = Seq::empty();
    let mut i: usize = 0;
    while i < ops.len()
        invariant
            i <= ops@.len(),
            upload_total(ops@) <= usize::MAX,
            kind_counts@.len() == 5,
            ({
                let st = admit_state(ops@, *budget, i as nat);
                &&& committed_count == st.0
                &&& upload_bytes_committed == st.1
                &&& forall|k: int| 0 <= k < 5 ==> kind_counts@[k] == #[trigger] st.2[k]
                &&& st.2.len() == 5
            }),
            committed@ == committed_ops(ops@, *budget, i as nat),
            deferred_all == deferred_ops(ops@, *budget, i as nat),
            deferred@ == distinct_op_keys(deferred_all),
            upload_bytes_deferred == upload_total(deferred_all),
            upload_bytes_committed <= budget.upload_budget_bytes_per_frame,
            committed_count <= budget.commit_budget_per_frame,
            upload_bytes_committed + upload_bytes_deferred == upload_total(ops@.take(i as int)),
        decreases ops@.len() - i,
    {
        let op = ops[i];
        let k = kind_index(op.kind);
        proof {
            assert(ops@.take(i + 1).drop_last() =~= ops@.take(i as int));
            lemma_upload_total_prefix(ops@, (i + 1) as nat);
        }
        let over_commit_budget = committed_count >= budget.commit_budget_per_frame;
        let over_upload_budget = op.upload_bytes > 0
            && op.upload_bytes > budget.upload_budget_bytes_per_frame - upload_bytes_committed;
        let over_kind_budget = kind_counts[k] >= budget.budget_for_kind(op.kind);
        if over_commit_budget || over_upload_budget || over_kind_budget {
            let key = DeferredOpKey::new(op.kind, op.key);
            proof {
                assert(deferred_all.push(op).drop_last() =~= deferred_all);
            }
            if !holds_deferred_key(&deferred, &key) {
                deferred.push(key);
            }
            upload_bytes_deferred = upload_bytes_deferred + op.upload_bytes;
            proof {
                deferred_all = deferred_all.push(op);
            }
        } else {
            committed.push(op);
            committed_count = committed_count + 1;
            upload_bytes_committed = upload_bytes_committed + op.upload_bytes;
            let c = kind_counts[k];
            kind_counts.set(k, c + 1);
        }
        i += 1;
    }
    CommitSchedule { committed, deferred, upload_bytes_committed, upload_bytes_deferred }
}

/// The upload total of a prefix never exceeds that of the whole list.
proof fn lemma_upload_total_prefix(ops: Seq<CommitOp>, n: nat)
    requires
        n <= ops.len(),
    ensures
        upload_total(ops.take(n as int)) <= upload_total(ops),
    decreases ops.len() - n,
{
    if n < ops.len() {
        lemma_upload_total_prefix(ops, n + 1);
        assert(ops.take((n + 1) as int).drop_last() =~= ops.take(n as int));
    } else {
        assert(ops.take(n as int) =~= ops);
    }
}

fn holds_deferred_key(set: &Vec<DeferredOpKey>, k: &DeferredOpKey) -> (b: bool)
    ensures
        b == set@.contains(*k),
{
    let mut i: usize = 0;
    while i < set.len()
        invariant
            i <= set@.len(),
            forall|j: int| 0 <= j < i ==> set@[j] != *k,
        decreases set@.len() - i,
    {
        if set[i] == *k {
            return true;
        }
        i += 1;
    }
    false
}

/// Number of ops of `kind` in a list.
pub open spec fn count_kind(s: Seq<CommitOp>, kind: CommitOpKind) -> nat
    decreases s.len(),
{
    if s.len() == 0 {
        0
    } else {
        count_kind(s.drop_last(), kind) + if s.last().kind == kind { 1nat } else { 0nat }
    }
}

/// What a frame commits stays within every budget: no more commits than the commit budget,
/// no more upload bytes than the byte budget, and no more commits of each kind than that
/// kind's budget.
pub proof fn lemma_schedule_within_budgets(ops: Seq<CommitOp>, b: CommitBudget, n: nat)
    requires
        n <= ops.len(),
    ensures
        committed_ops(ops, b, n).len() <= b.commit_budget_per_frame,
        admit_state(ops, b, n).1 <= b.upload_budget_bytes_per_frame,
        forall|kind: CommitOpKind| #[trigger] count_kind(committed_ops(ops, b, n), kind) <= b.kind_budget(kind),
    decreases n,
{
    lemma_admit_state_counts(ops, b, n);
}

/// The admission counts match the committed ops.
proof fn lemma_admit_state_counts(ops: Seq<CommitOp>, b: CommitBudget, n: nat)
    requires
        n <= ops.len(),
    ensures
        admit_state(ops, b, n).2.len() == 5,
        admit_state(ops, b, n).0 == committed_ops(ops, b, n).len(),
        admit_state(ops, b, n).0 <= b.commit_budget_per_frame,
        admit_state(ops, b, n).1 <= b.upload_budget_bytes_per_frame,
        forall|kind: CommitOpKind| #[trigger] count_kind(committed_ops(ops, b, n), kind)
            == admit_state(ops, b, n).2[kind_index_spec(kind)],
        forall|kind: CommitOpKind| #[trigger] count_kind(committed_ops(ops, b, n), kind) <= b.kind_budget(kind),
    decreases n,
{
    if n > 0 {
        lemma_admit_state_counts(ops, b, (n - 1) as nat);
        let prev = committed_ops(ops, b, (n - 1) as nat);
        let st = admit_state(ops, b, (n - 1) as nat);
        let op = ops[n - 1];
        if admitted(ops, b, n - 1) {
            let cur = prev.push(op);
            assert(cur.drop_last() =~= prev);
            assert(cur.last() == op);
            let k = kind_index_spec(op.kind);
            assert forall|kind: CommitOpKind| #[trigger] count_kind(committed_ops(ops, b, n), kind)
                == admit_state(ops, b, n).2[kind_index_spec(kind)]
                && count_kind(committed_ops(ops, b, n), kind) <= b.kind_budget(kind) by {
                assert(count_kind(cur, kind) == count_kind(prev, kind) + if op.kind == kind { 1nat } else { 0nat });
                assert((kind_index_spec(kind) == k) == (kind == op.kind)) by {
                    match kind {
                        CommitOpKind::ActivateRender => {},
                        CommitOpKind::UpdateRender => {},
                        CommitOpKind::DeactivateRender => {},
                        CommitOpKind::ActivatePhysics => {},
                        CommitOpKind::DeactivatePhysics => {},
                    }
                    match op.kind {
                        CommitOpKind::ActivateRender => {},
                        CommitOpKind::UpdateRender => {},
                        CommitOpKind::DeactivateRender => {},
                        CommitOpKind::ActivatePhysics => {},
                        CommitOpKind::DeactivatePhysics => {},
                    }
                }
                assert(0 <= kind_index_spec(kind) < 5);
                if kind == op.kind {
                    assert(st.2[k] < b.kind_budget(op.kind));
                }
            }
        }
    }
}

/// Every op is either committed or deferred, and the committed and deferred upload bytes add
/// up to the upload bytes of all ops.
pub proof fn lemma_schedule_accounts_for_every_op(ops: Seq<CommitOp>, b: CommitBudget, n: nat)
    requires
        n <= ops.len(),
    ensures
        committed_ops(ops, b, n).len() + deferred_ops(ops, b, n).len() == n,
        admit_state(ops, b, n).1 + upload_total(deferred_ops(ops, b, n)) == upload_total(ops.take(n as int)),
    decreases n,
{
    if n > 0 {
        lemma_schedule_accounts_for_every_op(ops, b, (n - 1) as nat);
        assert(ops.take(n as int).drop_last() =~= ops.take(n - 1));
        let d = deferred_ops(ops, b, (n - 1) as nat);
        assert(d.push(ops[n - 1]).drop_last() =~= d);
    }
}

/// The starvation count kept for `key`: that of its first entry, if any.
pub open spec fn starvation_of(entries: Seq<(DeferredOpKey, u32)>, key: DeferredOpKey) -> Option<u32>
    decreases entries.len(),
{
    if entries.len() == 0 {
        None
    } else if entries[0].0 == key {
        Some(entries[0].1)
    } else {
        starvation_of(entries.drop_first(), key)
    }
}

/// The count after one more deferred frame: one for a newly deferred op, else one more,
/// saturating.
pub open spec fn next_starvation(previous: Option<u32>) -> u32 {
    match previous {
        Some(c) => if c < u32::MAX { (c + 1) as u32 } else { u32::MAX },
        None => 1,
    }
}

fn lookup_starvation(entries: &Vec<(DeferredOpKey, u32)>, key: &DeferredOpKey) -> (r: Option<u32>)
    ensures
        r == starvation_of(entries@, *key),
{
    let mut i: usize = 0;
    assert(entries@.skip(0) =~= entries@);
    while i < entries.len()
        invariant
            i <= entries@.len(),
            starvation_of(entries@, *key) == starvation_of(entries@.skip(i as int), *key),
        decreases entries@.len() - i,
    {
        proof {
            assert(entries@.skip(i as int).drop_first() =~= entries@.skip(i + 1));
        }
        if entries[i].0 == *key {
            return Some(entries[i].1);
        }
        i += 1;
    }
    None
}

/// The starvation counts after a frame: exactly the ops deferred now, each counted one frame
/// more than before (from one when it was not deferred the frame before). Ops that went
/// through are dropped.
pub fn update_deferred_starvation(
    previous: &Vec<(DeferredOpKey, u32)>,
    deferred_now: &Vec<DeferredOpKey>,
) -> (next: Vec<(DeferredOpKey, u32)>)
    ensures
        next@.len() == deferred_now@.len(),
        forall|i: int| 0 <= i < next@.len() ==> #[trigger] next@[i]
            == (deferred_now@[i], next_starvation(starvation_of(previous@, deferred_now@[i]))),
{
    let mut next: Vec<(DeferredOpKey, u32)> = Vec::new();
    let mut i: usize = 0;
    while i < deferred_now.len()
        invariant
            i <= deferred_now@.len(),
            next@.len() == i,
            forall|j: int| 0 <= j < i ==> #[trigger] next@[j]
                == (deferred_now@[j], next_starvation(starvation_of(previous@, deferred_now@[j]))),
        decreases deferred_now@.len() - i,
    {
        let key = deferred_now[i];
        let count = match lookup_starvation(previous, &key) {
            Some(c) => c.saturating_add(1),
            None => 1,
        };
        next.push((key, count));
        i += 1;
    }
    next
}

/// The largest starvation count, or zero.
pub open spec fn max_starvation(entries: Seq<(DeferredOpKey, u32)>) -> u32
    decreases entries.len(),
{
    if entries.len() == 0 {
        0
    } else {
        let m = max_starvation(entries.drop_last());
        if entries.last().1 > m { entries.last().1 } else { m }
    }
}

pub fn max_deferred_starvation(entries: &Vec<(DeferredOpKey, u32)>) -> (m: u32)
    ensures
        m == max_starvation(entries@),
        forall|i: int| 0 <= i < entries@.len() ==> (#[trigger] entries@[i]).1 <= m,
{
    let mut m: u32 = 0;
    let mut i: usize = 0;
    while i < entries.len()
        invariant
            i <= entries@.len(),
            m == max_starvation(entries@.take(i as int)),
            forall|j: int| 0 <= j < i ==> (#[trigger] entries@[j]).1 <= m,
        decreases entries@.len() - i,
    {
        proof {
            assert(entries@.take(i + 1).drop_last() =~= entries@.take(i as int));
        }
        if entries[i].1 > m {
            m = entries[i].1;
        }
        i += 1;
    }
    proof {
        assert(entries@.take(entries@.len() as int) =~= entries@);
    }
    m
}

/// The resident payloads to evict to get down to `max_payloads`: the payloads not retained,
/// smallest keys first, as many as needed (or all of them, where there are too few).
pub fn payload_evictions(resident: &Vec<ChunkKey>, retained: &Vec<ChunkKey>, max_payloads: usize) -> (evicted: Vec<ChunkKey>)
    ensures
        resident@.len() <= max_payloads ==> evicted@.len() == 0,
        resident@.len() > max_payloads ==> {
            &&& keys_strictly_sorted(evicted@)
            &&& evicted@.len() <= resident@.len() - max_payloads
            &&& forall|k: ChunkKey| #[trigger] evicted@.contains(k) ==> resident@.contains(k) && !retained@.contains(k)
            &&& forall|k: ChunkKey| resident@.contains(k) && !retained@.contains(k) && !(#[trigger] evicted@.contains(k))
                ==> evicted@.len() == resident@.len() - max_payloads
                && forall|j: int| 0 <= j < evicted@.len() ==> key_code_spec(#[trigger] evicted@[j]) < key_code_spec(k)
        },
{
    let mut evicted: Vec<ChunkKey> = Vec::new();
    if resident.len() <= max_payloads {
        return evicted;
    }
    let eviction_candidates = keys_difference(resident, retained);
    let excess = resident.len() - max_payloads;
    let mut i: usize = 0;
    while i < eviction_candidates.len() && i < excess
        invariant
            i <= eviction_candidates@.len(),
            i <= excess,
            evicted@ == eviction_candidates@.take(i as int),
        decreases eviction_candidates@.len() - i,
    {
        evicted.push(eviction_candidates[i]);
        i += 1;
        assert(evicted@ =~= eviction_candidates@.take(i as int));
    }
    proof {
        let c = eviction_candidates@;
        assert forall|k: ChunkKey| #[trigger] evicted@.contains(k) implies resident@.contains(k) && !retained@.contains(k) by {
            let j = choose|j: int| 0 <= j < evicted@.len() && evicted@[j] == k;
            assert(c[j] == k);
            assert(c.contains(k));
        }
        assert forall|k: ChunkKey| resident@.contains(k) && !retained@.contains(k) && !(#[trigger] evicted@.contains(k))
            implies evicted@.len() == resident@.len() - max_payloads
                && forall|j: int| 0 <= j < evicted@.len() ==> key_code_spec(#[trigger] evicted@[j]) < key_code_spec(k) by {
            assert(c.contains(k));
            let p = choose|p: int| 0 <= p < c.len() && c[p] == k;
            if p < i {
                assert(evicted@[p] == k);
            }
            assert forall|j: int| 0 <= j < evicted@.len() implies key_code_spec(#[trigger] evicted@[j]) < key_code_spec(k) by {
                assert(evicted@[j] == c[j]);
            }
        }
    }
    evicted
}

} // verus!
