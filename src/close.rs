use vstd::prelude::*;

use crate::audit::string_views;
use crate::text::{owned, text_less, str_less};

verus! {

#[derive(Debug, Clone, Copy, PartialEq, Eq, Structural)]
pub enum CloseDependencyStatus {
    Pending,
    InProgress,
    Satisfied,
    Blocked,
}

#[derive(Debug, Clone, PartialEq, Eq)]
pub struct CloseChecklistDependency {
    pub dependency_id: String,
    pub description: String,
    pub required_for_close: bool,
    pub status: CloseDependencyStatus,
}

#[derive(Debug, Clone, Copy, PartialEq, Eq, Structural)]
pub enum CloseChecklistStatus {
    InProgress,
    Blocked,
    ReadyToClose,
    Closed,
}

/// One entity's close checklist. `updated_at` is seconds since the Unix
/// epoch (UTC).
#[derive(Debug, Clone, PartialEq, Eq)]
pub struct EntityCloseChecklist {
    pub checklist_id: String,
    pub legal_entity_id: String,
    pub period_id: String,
    pub status: CloseChecklistStatus,
    pub dependencies: Vec<CloseChecklistDependency>,
    pub updated_at: i64,
}

#[derive(Debug, Clone, PartialEq, Eq)]
pub struct CloseChecklistProgression {
    pub checklist_id: String,
    pub legal_entity_id: String,
    pub period_id: String,
    pub status: CloseChecklistStatus,
    pub can_progress: bool,
    pub unresolved_blockers: Vec<String>,
}

#[derive(Debug, Clone, PartialEq, Eq)]
pub struct CloseChecklistActorContext {
    pub actor_id: String,
    pub actor_role: String,
}

#[derive(Debug, Clone, PartialEq, Eq)]
pub struct MultiEntityCloseDryRunInput {
    pub run_id: String,
    pub run_started_at: i64,
    pub checklists: Vec<EntityCloseChecklist>,
}

#[derive(Debug, Clone, PartialEq, Eq)]
pub struct EntityCloseDryRunResult {
    pub checklist_id: String,
    pub legal_entity_id: String,
    pub status: CloseChecklistStatus,
    pub can_progress: bool,
    pub close_ready: bool,
    pub unresolved_blockers: Vec<String>,
}

#[derive(Debug, Clone, PartialEq, Eq)]
pub struct MultiEntityCloseDryRunResult {
    pub run_id: String,
    pub run_started_at: i64,
    pub entity_results: Vec<EntityCloseDryRunResult>,
    pub passed: bool,
    pub failed_entities: Vec<String>,
}

#[derive(Debug, Clone, PartialEq, Eq)]
pub enum CloseChecklistError {
    DependencyNotFound { dependency_id: String },
    InvalidDependencyTransition { from: CloseDependencyStatus, to: CloseDependencyStatus },
    UnsupportedEntityCount { entity_count: usize },
}

/// The ids of the blocked dependencies, in order.
pub open spec fn blocker_ids(deps: Seq<CloseChecklistDependency>) -> Seq<Seq<char>>
    decreases deps.len(),
{
    if deps.len() == 0 {
        Seq::empty()
    } else if deps.last().status == CloseDependencyStatus::Blocked {
        blocker_ids(deps.drop_last()).push(deps.last().dependency_id@)
    } else {
        blocker_ids(deps.drop_last())
    }
}

/// Every dependency required for close is satisfied.
pub open spec fn required_satisfied(deps: Seq<CloseChecklistDependency>) -> bool {
    forall|i: int| 0 <= i < deps.len() && (#[trigger] deps[i]).required_for_close ==> deps[i].status == CloseDependencyStatus::Satisfied
}

/// The status a checklist derives: blocked while anything blocks, closed
/// once closed, ready when every required dependency is satisfied.
pub open spec fn derived_status(c: EntityCloseChecklist) -> CloseChecklistStatus {
    if blocker_ids(c.dependencies@).len() > 0 {
        CloseChecklistStatus::Blocked
    } else if c.status == CloseChecklistStatus::Closed {
        CloseChecklistStatus::Closed
    } else if required_satisfied(c.dependencies@) {
        CloseChecklistStatus::ReadyToClose
    } else {
        CloseChecklistStatus::InProgress
    }
}

/// A progression describes the checklist `c`.
pub open spec fn progression_fits(c: EntityCloseChecklist, p: CloseChecklistProgression) -> bool {
    &&& p.checklist_id@ == c.checklist_id@
    &&& p.legal_entity_id@ == c.legal_entity_id@
    &&& p.period_id@ == c.period_id@
    &&& p.status == derived_status(c)
    &&& p.can_progress == (blocker_ids(c.dependencies@).len() == 0)
    &&& string_views(p.unresolved_blockers@) == blocker_ids(c.dependencies@)
}

/// Two progressions hold the same values.
pub open spec fn same_progression(a: CloseChecklistProgression, b: CloseChecklistProgression) -> bool {
    &&& a.checklist_id@ == b.checklist_id@
    &&& a.legal_entity_id@ == b.legal_entity_id@
    &&& a.period_id@ == b.period_id@
    &&& a.status == b.status
    &&& a.can_progress == b.can_progress
    &&& string_views(a.unresolved_blockers@) == string_views(b.unresolved_blockers@)
}

fn blocked_ids(deps: &Vec<CloseChecklistDependency>) -> (r: Vec<String>)
    ensures
        string_views(r@) == blocker_ids(deps@),
{
    let mut out: Vec<String> = Vec::new();
    let mut i: usize = 0;
    assert(deps@.subrange(0, 0) =~= Seq::<CloseChecklistDependency>::empty());
    assert(string_views(out@) =~= Seq::<Seq<char>>::empty());
    while i < deps.len()
        invariant
            i <= deps.len(),
            string_views(out@) == blocker_ids(deps@.subrange(0, i as int)),
        decreases deps.len() - i,
    {
        let ghost prefix = deps@.subrange(0, i as int + 1);
        assert(prefix.drop_last() =~= deps@.subrange(0, i as int));
        assert(prefix.last() == deps@[i as int]);
        if deps[i].status == CloseDependencyStatus::Blocked {
            let ghost before = out@;
            out.push(deps[i].dependency_id.clone());
            assert(string_views(out@) =~= string_views(before).push(deps@[i as int].dependency_id@));
        }
        i = i + 1;
    }
    assert(deps@.subrange(0, deps@.len() as int) =~= deps@);
    out
}

fn all_required_satisfied(deps: &Vec<CloseChecklistDependency>) -> (r: bool)
    ensures
        r == required_satisfied(deps@),
{
    let mut i: usize = 0;
    while i < deps.len()
        invariant
            i <= deps.len(),
            forall|k: int| 0 <= k < i && (#[trigger] deps@[k]).required_for_close ==> deps@[k].status == CloseDependencyStatus::Satisfied,
        decreases deps.len() - i,
    {
        if deps[i].required_for_close && deps[i].status != CloseDependencyStatus::Satisfied {
            return false;
        }
        i = i + 1;
    }
    true
}

/// Derives a checklist's status and its unresolved blockers.
pub fn evaluate_entity_close_checklist(checklist: &EntityCloseChecklist) -> (r: CloseChecklistProgression)
    ensures
        progression_fits(*checklist, r),
{
    let unresolved_blockers = blocked_ids(&checklist.dependencies);
    let can_progress = unresolved_blockers.len() == 0;
    let status = if !can_progress {
        CloseChecklistStatus::Blocked
    } else if checklist.status == CloseChecklistStatus::Closed {
        CloseChecklistStatus::Closed
    } else if all_required_satisfied(&checklist.dependencies) {
        CloseChecklistStatus::ReadyToClose
    } else {
        CloseChecklistStatus::InProgress
    };
    CloseChecklistProgression {
        checklist_id: checklist.checklist_id.clone(),
        legal_entity_id: checklist.legal_entity_id.clone(),
        period_id: checklist.period_id.clone(),
        status,
        can_progress,
        unresolved_blockers,
    }
}

/// The same evaluation on behalf of an actor: who asks does not change it.
pub fn evaluate_entity_close_checklist_for_actor(checklist: &EntityCloseChecklist, actor: &CloseChecklistActorContext) -> (r: CloseChecklistProgression)
    ensures
        progression_fits(*checklist, r),
{
    evaluate_entity_close_checklist(checklist)
}

/// Close-checklist evaluation is authorization-neutral: whatever actors two
/// evaluations of one checklist run for, they agree.
pub proof fn lemma_evaluation_is_actor_independent(
    c: EntityCloseChecklist,
    a1: CloseChecklistActorContext,
    a2: CloseChecklistActorContext,
    p1: CloseChecklistProgression,
    p2: CloseChecklistProgression,
)
    requires
        progression_fits(c, p1),
        progression_fits(c, p2),
    ensures
        same_progression(p1, p2),
{
}

/// The legal moves of a dependency: forward from pending, between
/// in-progress and blocked, on to satisfied, and staying put.
pub open spec fn transition_allowed(from: CloseDependencyStatus, to: CloseDependencyStatus) -> bool {
    from == to || match (from, to) {
        (CloseDependencyStatus::Pending, CloseDependencyStatus::InProgress) => true,
        (CloseDependencyStatus::Pending, CloseDependencyStatus::Satisfied) => true,
        (CloseDependencyStatus::Pending, CloseDependencyStatus::Blocked) => true,
        (CloseDependencyStatus::InProgress, CloseDependencyStatus::Satisfied) => true,
        (CloseDependencyStatus::InProgress, CloseDependencyStatus::Blocked) => true,
        (CloseDependencyStatus::Blocked, CloseDependencyStatus::InProgress) => true,
        (CloseDependencyStatus::Blocked, CloseDependencyStatus::Satisfied) => true,
        _ => false,
    }
}

pub fn is_valid_close_dependency_transition(from: &CloseDependencyStatus, to: &CloseDependencyStatus) -> (r: bool)
    ensures
        r == transition_allowed(*from, *to),
{
    if *from == *to {
        return true;
    }
    match (*from, *to) {
        (CloseDependencyStatus::Pending, CloseDependencyStatus::InProgress) => true,
        (CloseDependencyStatus::Pending, CloseDependencyStatus::Satisfied) => true,
        (CloseDependencyStatus::Pending, CloseDependencyStatus::Blocked) => true,
        (CloseDependencyStatus::InProgress, CloseDependencyStatus::Satisfied) => true,
        (CloseDependencyStatus::InProgress, CloseDependencyStatus::Blocked) => true,
        (CloseDependencyStatus::Blocked, CloseDependencyStatus::InProgress) => true,
        (CloseDependencyStatus::Blocked, CloseDependencyStatus::Satisfied) => true,
        _ => false,
    }
}

impl CloseChecklistDependency {
    pub fn copy_dependency(&self) -> (r: CloseChecklistDependency)
        ensures
            r == *self,
    {
        CloseChecklistDependency {
            dependency_id: self.dependency_id.clone(),
            description: self.description.clone(),
            required_for_close: self.required_for_close,
            status: self.status,
        }
    }
}

/// The first dependency with this id.
pub open spec fn dependency_index(deps: Seq<CloseChecklistDependency>, id: Seq<char>) -> Option<int> {
    if exists|i: int| 0 <= i < deps.len() && deps[i].dependency_id@ == id {
        Some(choose|i: int| 0 <= i < deps.len() && deps[i].dependency_id@ == id && forall|k: int| 0 <= k < i ==> deps[k].dependency_id@ != id)
    } else {
        None
    }
}

/// Moves one dependency to `next_status` when the move is legal, stamps
/// `updated_at` and re-derives the checklist status.
#[verifier::rlimit(40)]
pub fn transition_close_dependency_status(
    checklist: &EntityCloseChecklist,
    dependency_id: &str,
    next_status: CloseDependencyStatus,
    updated_at: i64,
) -> (r: Result<EntityCloseChecklist, CloseChecklistError>)
    ensures
        match dependency_index(checklist.dependencies@, dependency_id@) {
            None => r matches Err(CloseChecklistError::DependencyNotFound { dependency_id: d }) && d@ == dependency_id@,
            Some(i) => {
                let from = checklist.dependencies@[i].status;
                if !transition_allowed(from, next_status) {
                    r == Err::<EntityCloseChecklist, CloseChecklistError>(CloseChecklistError::InvalidDependencyTransition { from, to: next_status })
                } else {
                    &&& r is Ok
                    &&& r->Ok_0.dependencies@ == checklist.dependencies@.update(i, CloseChecklistDependency { status: next_status, ..checklist.dependencies@[i] })
                    &&& r->Ok_0.checklist_id == checklist.checklist_id
                    &&& r->Ok_0.legal_entity_id == checklist.legal_entity_id
                    &&& r->Ok_0.period_id == checklist.period_id
                    &&& r->Ok_0.updated_at == updated_at
                    &&& r->Ok_0.status == derived_status(EntityCloseChecklist { dependencies: r->Ok_0.dependencies, ..*checklist })
                }
            },
        },
{
    let n = checklist.dependencies.len();
    let mut idx: usize = 0;
    while idx < n && !crate::text::str_equals(checklist.dependencies[idx].dependency_id.as_str(), dependency_id)
        invariant
            idx <= n,
            n == checklist.dependencies@.len(),
            forall|k: int| 0 <= k < idx ==> checklist.dependencies@[k].dependency_id@ != dependency_id@,
        decreases n - idx,
    {
        idx = idx + 1;
    }
    if idx == n {
        return Err(CloseChecklistError::DependencyNotFound { dependency_id: owned(dependency_id) });
    }
    assert(dependency_index(checklist.dependencies@, dependency_id@) == Some(idx as int)) by {
        let j = choose|i: int| 0 <= i < checklist.dependencies@.len() && checklist.dependencies@[i].dependency_id@ == dependency_id@
            && forall|k: int| 0 <= k < i ==> checklist.dependencies@[k].dependency_id@ != dependency_id@;
        if j < idx {
        } else if j > idx {
            assert(checklist.dependencies@[idx as int].dependency_id@ == dependency_id@);
        }
    }
    let from = checklist.dependencies[idx].status;
    if !is_valid_close_dependency_transition(&from, &next_status) {
        return Err(CloseChecklistError::InvalidDependencyTransition { from, to: next_status });
    }
    let mut deps: Vec<CloseChecklistDependency> = Vec::new();
    let mut i: usize = 0;
    while i < n
        invariant
            i <= n,
            idx < n,
            n == checklist.dependencies@.len(),
            deps@ == checklist.dependencies@.update(idx as int, CloseChecklistDependency { status: next_status, ..checklist.dependencies@[idx as int] }).subrange(0, i as int),
        decreases n - i,
    {
        let mut d = checklist.dependencies[i].copy_dependency();
        if i == idx {
            d.status = next_status;
        }
        deps.push(d);
        i = i + 1;
        assert(deps@ =~= checklist.dependencies@.update(idx as int, CloseChecklistDependency { status: next_status, ..checklist.dependencies@[idx as int] }).subrange(0, i as int));
    }
    let mut updated = EntityCloseChecklist {
        checklist_id: checklist.checklist_id.clone(),
        legal_entity_id: checklist.legal_entity_id.clone(),
        period_id: checklist.period_id.clone(),
        status: checklist.status,
        dependencies: deps,
        updated_at,
    };
    let progression = evaluate_entity_close_checklist(&updated);
    updated.status = progression.status;
    Ok(updated)
}


/// Entities in a dry run: at least this many...
pub const MIN_DRY_RUN_ENTITY_COUNT: usize = 2;
/// ...and at most this many.
pub const MAX_DRY_RUN_ENTITY_COUNT: usize = 3;

/// Checklist `a` sorts before checklist `b`: by legal entity, then by id.
pub open spec fn checklist_before(cs: Seq<EntityCloseChecklist>, a: int, b: int) -> bool {
    text_less(cs[a].legal_entity_id@, cs[b].legal_entity_id@) || (cs[a].legal_entity_id@ == cs[b].legal_entity_id@
        && text_less(cs[a].checklist_id@, cs[b].checklist_id@))
}

/// Inserts position `x` after every position that does not sort after it.
pub open spec fn insert_position(cs: Seq<EntityCloseChecklist>, sorted: Seq<int>, x: int) -> Seq<int>
    decreases sorted.len(),
{
    if sorted.len() == 0 {
        seq![x]
    } else if checklist_before(cs, x, sorted.last()) {
        insert_position(cs, sorted.drop_last(), x).push(sorted.last())
    } else {
        sorted.push(x)
    }
}

/// Positions `0..n` of the checklists in ascending (entity, id) order;
/// equal keys keep input order.
pub open spec fn sorted_positions(cs: Seq<EntityCloseChecklist>, n: nat) -> Seq<int>
    decreases n,
{
    if n == 0 {
        Seq::empty()
    } else {
        insert_position(cs, sorted_positions(cs, (n - 1) as nat), n - 1)
    }
}

proof fn lemma_insert_position_bounds(cs: Seq<EntityCloseChecklist>, sorted: Seq<int>, x: int, b: int)
    requires
        0 <= x < b,
        forall|k: int| 0 <= k < sorted.len() ==> 0 <= #[trigger] sorted[k] < b,
    ensures
        insert_position(cs, sorted, x).len() == sorted.len() + 1,
        forall|k: int| 0 <= k < insert_position(cs, sorted, x).len() ==> 0 <= #[trigger] insert_position(cs, sorted, x)[k] < b,
    decreases sorted.len(),
{
    if sorted.len() > 0 {
        let t = sorted.drop_last();
        assert forall|k: int| 0 <= k < t.len() implies 0 <= #[trigger] t[k] < b by {
            assert(t[k] == sorted[k]);
        }
        lemma_insert_position_bounds(cs, t, x, b);
    }
}

proof fn lemma_sorted_positions_bounds(cs: Seq<EntityCloseChecklist>, n: nat)
    ensures
        sorted_positions(cs, n).len() == n,
        forall|k: int| 0 <= k < n ==> 0 <= #[trigger] sorted_positions(cs, n)[k] < n,
    decreases n,
{
    if n > 0 {
        lemma_sorted_positions_bounds(cs, (n - 1) as nat);
        lemma_insert_position_bounds(cs, sorted_positions(cs, (n - 1) as nat), n - 1, n as int);
    }
}

fn checklist_before_exec(cs: &Vec<EntityCloseChecklist>, a: usize, b: usize) -> (r: bool)
    requires
        a < cs@.len(),
        b < cs@.len(),
    ensures
        r == checklist_before(cs@, a as int, b as int),
{
    let x = &cs[a];
    let y = &cs[b];
    str_less(x.legal_entity_id.as_str(), y.legal_entity_id.as_str()) || (x.legal_entity_id == y.legal_entity_id
        && str_less(x.checklist_id.as_str(), y.checklist_id.as_str()))
}

fn sort_positions(cs: &Vec<EntityCloseChecklist>) -> (r: Vec<usize>)
    ensures
        r@.len() == cs@.len(),
        forall|k: int| 0 <= k < r@.len() ==> (r@[k] as int) == sorted_positions(cs@, cs@.len() as nat)[k],
{
    let n = cs.len();
    let mut sorted: Vec<usize> = Vec::new();
    let mut i: usize = 0;
    while i < n
        invariant
            i <= n,
            n == cs@.len(),
            sorted@.len() == i,
            forall|k: int| 0 <= k < i ==> (sorted@[k] as int) == #[trigger] sorted_positions(cs@, i as nat)[k],
        decreases n - i,
    {
        proof {
            lemma_sorted_positions_bounds(cs@, i as nat);
        }
        let ghost spec_sorted = sorted_positions(cs@, i as nat);
        let mut p: usize = i;
        assert(spec_sorted.subrange(0, i as int) =~= spec_sorted);
        assert(spec_sorted.subrange(i as int, i as int) =~= Seq::<int>::empty());
        while p > 0 && checklist_before_exec(cs, i, sorted[p - 1])
            invariant
                p <= i < n,
                n == cs@.len(),
                sorted@.len() == i,
                spec_sorted == sorted_positions(cs@, i as nat),
                spec_sorted.len() == i,
                forall|k: int| 0 <= k < i ==> 0 <= #[trigger] spec_sorted[k] < i,
                forall|k: int| 0 <= k < i ==> (sorted@[k] as int) == #[trigger] spec_sorted[k],
                insert_position(cs@, spec_sorted, i as int) == insert_position(cs@, spec_sorted.subrange(0, p as int), i as int)
                    + spec_sorted.subrange(p as int, i as int),
            decreases p,
        {
            let ghost prefix = spec_sorted.subrange(0, p as int);
            assert(prefix.drop_last() =~= spec_sorted.subrange(0, p as int - 1));
            assert(prefix.last() == spec_sorted[p as int - 1]);
            assert(spec_sorted.subrange(p as int - 1, i as int) =~= seq![spec_sorted[p as int - 1]] + spec_sorted.subrange(p as int, i as int));
            assert(insert_position(cs@, prefix, i as int) + spec_sorted.subrange(p as int, i as int) =~= insert_position(cs@, spec_sorted.subrange(0, p as int - 1), i as int) + spec_sorted.subrange(p as int - 1, i as int));
            p = p - 1;
        }
        proof {
            let prefix = spec_sorted.subrange(0, p as int);
            if p > 0 {
                assert(prefix.last() == spec_sorted[p as int - 1]);
            } else {
                assert(prefix =~= Seq::<int>::empty());
            }
            assert(insert_position(cs@, prefix, i as int) == prefix.push(i as int));
            assert(i as nat > 0 ==> sorted_positions(cs@, (i + 1) as nat) == insert_position(cs@, spec_sorted, i as int));
        }
        let mut next: Vec<usize> = Vec::new();
        let mut j: usize = 0;
        while j < i + 1
            invariant
                p <= i < n,
                j <= i + 1,
                sorted@.len() == i,
                n == cs@.len(),
                next@.len() == j,
                spec_sorted.len() == i,
                forall|k: int| 0 <= k < i ==> (sorted@[k] as int) == #[trigger] spec_sorted[k],
                forall|k: int| 0 <= k < j ==> (#[trigger] next@[k] as int) == (spec_sorted.subrange(0, p as int).push(i as int) + spec_sorted.subrange(p as int, i as int))[k],
            decreases i + 1 - j,
        {
            let v = if j < p {
                sorted[j]
            } else if j == p {
                i
            } else {
                sorted[j - 1]
            };
            let ghost combined = spec_sorted.subrange(0, p as int).push(i as int) + spec_sorted.subrange(p as int, i as int);
            assert((v as int) == combined[j as int]) by {
                if j < p {
                    assert(combined[j as int] == spec_sorted[j as int]);
                } else if j > p {
                    assert(combined[j as int] == spec_sorted[j as int - 1]);
                }
            }
            next.push(v);
            j = j + 1;
        }
        sorted = next;
        i = i + 1;
    }
    sorted
}

/// Whether an entity blocks the dry run: it cannot progress or is not
/// ready to close (or closed).
pub open spec fn entity_fails(c: EntityCloseChecklist) -> bool {
    blocker_ids(c.dependencies@).len() > 0 || !(derived_status(c) == CloseChecklistStatus::ReadyToClose
        || derived_status(c) == CloseChecklistStatus::Closed)
}

/// The legal entities that fail, in sorted order.
pub open spec fn failed_ids(cs: Seq<EntityCloseChecklist>, order: Seq<int>) -> Seq<Seq<char>>
    decreases order.len(),
{
    if order.len() == 0 {
        Seq::empty()
    } else if entity_fails(cs[order.last()]) {
        failed_ids(cs, order.drop_last()).push(cs[order.last()].legal_entity_id@)
    } else {
        failed_ids(cs, order.drop_last())
    }
}

/// A dry-run line describes checklist `c`.
pub open spec fn entity_result_fits(e: EntityCloseDryRunResult, c: EntityCloseChecklist) -> bool {
    &&& e.checklist_id@ == c.checklist_id@
    &&& e.legal_entity_id@ == c.legal_entity_id@
    &&& e.status == derived_status(c)
    &&& e.can_progress == (blocker_ids(c.dependencies@).len() == 0)
    &&& e.close_ready == (derived_status(c) == CloseChecklistStatus::ReadyToClose || derived_status(c) == CloseChecklistStatus::Closed)
    &&& string_views(e.unresolved_blockers@) == blocker_ids(c.dependencies@)
}

/// What a dry run yields for its input.
pub open spec fn dry_run_fits(input: MultiEntityCloseDryRunInput, r: Result<MultiEntityCloseDryRunResult, CloseChecklistError>) -> bool {
    let cs = input.checklists@;
    let order = sorted_positions(cs, cs.len());
    if cs.len() < 2 || cs.len() > 3 {
        r == Err::<MultiEntityCloseDryRunResult, CloseChecklistError>(CloseChecklistError::UnsupportedEntityCount { entity_count: cs.len() as usize })
    } else {
        &&& r is Ok
        &&& r->Ok_0.run_id@ == input.run_id@
        &&& r->Ok_0.run_started_at == input.run_started_at
        &&& r->Ok_0.entity_results@.len() == cs.len()
        &&& forall|k: int| 0 <= k < cs.len() ==> entity_result_fits(#[trigger] r->Ok_0.entity_results@[k], cs[order[k]])
        &&& string_views(r->Ok_0.failed_entities@) == failed_ids(cs, order)
        &&& r->Ok_0.passed == (failed_ids(cs, order).len() == 0)
    }
}

fn simulate_multi_entity_close_dry_run_internal(input: &MultiEntityCloseDryRunInput, actor: Option<&CloseChecklistActorContext>) -> (r: Result<MultiEntityCloseDryRunResult, CloseChecklistError>)
    ensures
        dry_run_fits(*input, r),
{
    let cs = &input.checklists;
    let entity_count = cs.len();
    if entity_count < MIN_DRY_RUN_ENTITY_COUNT || entity_count > MAX_DRY_RUN_ENTITY_COUNT {
        return Err(CloseChecklistError::UnsupportedEntityCount { entity_count });
    }
    let order = sort_positions(cs);
    let ghost spec_order = sorted_positions(cs@, cs@.len() as nat);
    proof {
        lemma_sorted_positions_bounds(cs@, cs@.len() as nat);
    }
    let mut entity_results: Vec<EntityCloseDryRunResult> = Vec::new();
    let mut failed_entities: Vec<String> = Vec::new();
    let mut k: usize = 0;
    assert(spec_order.subrange(0, 0) =~= Seq::<int>::empty());
    assert(string_views(failed_entities@) =~= Seq::<Seq<char>>::empty());
    while k < entity_count
        invariant
            k <= entity_count,
            entity_count == cs@.len(),
            order@.len() == entity_count,
            spec_order == sorted_positions(cs@, cs@.len() as nat),
            spec_order.len() == entity_count,
            forall|j: int| 0 <= j < entity_count ==> 0 <= #[trigger] spec_order[j] < entity_count,
            forall|j: int| 0 <= j < entity_count ==> (order@[j] as int) == #[trigger] spec_order[j],
            entity_results@.len() == k,
            forall|j: int| 0 <= j < k ==> entity_result_fits(#[trigger] entity_results@[j], cs@[spec_order[j]]),
            string_views(failed_entities@) == failed_ids(cs@, spec_order.subrange(0, k as int)),
        decreases entity_count - k,
    {
        let pos = order[k];
        assert(order@[k as int] as int == spec_order[k as int]);
        let checklist = &cs[pos];
        let progression = match actor {
            Some(a) => evaluate_entity_close_checklist_for_actor(checklist, a),
            None => evaluate_entity_close_checklist(checklist),
        };
        let close_ready = progression.status == CloseChecklistStatus::ReadyToClose || progression.status == CloseChecklistStatus::Closed;
        let ghost prefix = spec_order.subrange(0, k as int + 1);
        assert(prefix.drop_last() =~= spec_order.subrange(0, k as int));
        assert(prefix.last() == pos as int);
        if !progression.can_progress || !close_ready {
            let ghost before = failed_entities@;
            failed_entities.push(checklist.legal_entity_id.clone());
            assert(string_views(failed_entities@) =~= string_views(before).push(checklist.legal_entity_id@));
        }
        entity_results.push(EntityCloseDryRunResult {
            checklist_id: checklist.checklist_id.clone(),
            legal_entity_id: checklist.legal_entity_id.clone(),
            status: progression.status,
            can_progress: progression.can_progress,
            close_ready,
            unresolved_blockers: progression.unresolved_blockers,
        });
        k = k + 1;
    }
    assert(spec_order.subrange(0, entity_count as int) =~= spec_order);
    let passed = failed_entities.len() == 0;
    Ok(MultiEntityCloseDryRunResult {
        run_id: input.run_id.clone(),
        run_started_at: input.run_started_at,
        entity_results,
        passed,
        failed_entities,
    })
}

/// Evaluates two or three entities' checklists together, in (entity, id)
/// order; the run passes when every entity can progress and is ready to
/// close or closed.
pub fn simulate_multi_entity_close_dry_run(input: &MultiEntityCloseDryRunInput) -> (r: Result<MultiEntityCloseDryRunResult, CloseChecklistError>)
    ensures
        dry_run_fits(*input, r),
{
    simulate_multi_entity_close_dry_run_internal(input, None)
}

/// The same dry run on behalf of an actor; the actor does not change it.
pub fn simulate_multi_entity_close_dry_run_for_actor(input: &MultiEntityCloseDryRunInput, actor: &CloseChecklistActorContext) -> (r: Result<MultiEntityCloseDryRunResult, CloseChecklistError>)
    ensures
        dry_run_fits(*input, r),
{
    simulate_multi_entity_close_dry_run_internal(input, Some(actor))
}

} // verus!
