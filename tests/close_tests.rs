use ledger_core::close::{
    evaluate_entity_close_checklist, evaluate_entity_close_checklist_for_actor, is_valid_close_dependency_transition,
    simulate_multi_entity_close_dry_run, simulate_multi_entity_close_dry_run_for_actor, transition_close_dependency_status,
    CloseChecklistActorContext, CloseChecklistDependency, CloseChecklistError, CloseChecklistStatus, CloseDependencyStatus,
    EntityCloseChecklist, MultiEntityCloseDryRunInput,
};

const FIXED_TS: i64 = 1_771_632_000;
const MINUTE: i64 = 60;

fn sample_close_checklist(
    legal_entity_id: &str,
    dependency_specs: Vec<(&str, CloseDependencyStatus, bool)>,
    status: CloseChecklistStatus,
) -> EntityCloseChecklist {
    EntityCloseChecklist {
        checklist_id: format!("CHK-{legal_entity_id}"),
        legal_entity_id: legal_entity_id.to_string(),
        period_id: "2026-02".to_string(),
        status,
        dependencies: dependency_specs
            .into_iter()
            .map(|(dependency_id, dependency_status, required_for_close)| CloseChecklistDependency {
                dependency_id: dependency_id.to_string(),
                description: dependency_id.to_string(),
                required_for_close,
                status: dependency_status,
            })
            .collect(),
        updated_at: FIXED_TS,
    }
}

fn ready(entity: &str) -> EntityCloseChecklist {
    sample_close_checklist(
        entity,
        vec![
            ("bank_stmt_reconciled", CloseDependencyStatus::Satisfied, true),
            ("fx_translation_complete", CloseDependencyStatus::Satisfied, true),
        ],
        CloseChecklistStatus::InProgress,
    )
}

#[test]
fn dependency_state_transitions_promote_entity_to_ready_to_close() {
    let base = sample_close_checklist(
        "LE-US",
        vec![("bank_stmt_reconciled", CloseDependencyStatus::Pending, true)],
        CloseChecklistStatus::InProgress,
    );
    let updated_at = FIXED_TS + 15 * MINUTE;

    let in_progress =
        transition_close_dependency_status(&base, "bank_stmt_reconciled", CloseDependencyStatus::InProgress, updated_at)
            .expect("pending to in-progress transition should be valid");
    assert_eq!(in_progress.status, CloseChecklistStatus::InProgress);
    assert_eq!(in_progress.updated_at, updated_at);

    let ready = transition_close_dependency_status(
        &in_progress,
        "bank_stmt_reconciled",
        CloseDependencyStatus::Satisfied,
        updated_at + 15 * MINUTE,
    )
    .expect("in-progress to satisfied transition should be valid");
    assert_eq!(ready.status, CloseChecklistStatus::ReadyToClose);
}

#[test]
fn dependency_state_transition_rejects_regression_from_satisfied() {
    let checklist = sample_close_checklist(
        "LE-US",
        vec![("bank_stmt_reconciled", CloseDependencyStatus::Satisfied, true)],
        CloseChecklistStatus::ReadyToClose,
    );
    let result = transition_close_dependency_status(&checklist, "bank_stmt_reconciled", CloseDependencyStatus::Blocked, FIXED_TS + 10 * MINUTE);
    assert_eq!(
        result,
        Err(CloseChecklistError::InvalidDependencyTransition { from: CloseDependencyStatus::Satisfied, to: CloseDependencyStatus::Blocked })
    );
}

#[test]
fn unknown_dependency_is_reported() {
    let checklist = ready("LE-US");
    let result = transition_close_dependency_status(&checklist, "nope", CloseDependencyStatus::Satisfied, FIXED_TS);
    assert_eq!(result, Err(CloseChecklistError::DependencyNotFound { dependency_id: "nope".to_string() }));
}

#[test]
fn transition_table_is_exact() {
    let (p, i, s, b) = (
        CloseDependencyStatus::Pending,
        CloseDependencyStatus::InProgress,
        CloseDependencyStatus::Satisfied,
        CloseDependencyStatus::Blocked,
    );
    let allowed = [(p, i), (p, s), (p, b), (i, s), (i, b), (b, i), (b, s)];
    for from in [p, i, s, b] {
        for to in [p, i, s, b] {
            let expected = from == to || allowed.contains(&(from, to));
            assert_eq!(is_valid_close_dependency_transition(&from, &to), expected);
        }
    }
}

#[test]
fn unresolved_blockers_block_close_progression() {
    let checklist = sample_close_checklist(
        "LE-CA",
        vec![
            ("intercompany_eliminations_posted", CloseDependencyStatus::Blocked, true),
            ("fx_translation_complete", CloseDependencyStatus::Satisfied, true),
        ],
        CloseChecklistStatus::InProgress,
    );
    let progression = evaluate_entity_close_checklist(&checklist);
    assert!(!progression.can_progress);
    assert_eq!(progression.status, CloseChecklistStatus::Blocked);
    assert_eq!(progression.unresolved_blockers, vec!["intercompany_eliminations_posted".to_string()]);
}

#[test]
fn closed_checklist_stays_closed_and_optional_items_do_not_hold_it() {
    let closed = sample_close_checklist("LE-US", vec![("x", CloseDependencyStatus::Pending, true)], CloseChecklistStatus::Closed);
    assert_eq!(evaluate_entity_close_checklist(&closed).status, CloseChecklistStatus::Closed);
    let optional = sample_close_checklist("LE-US", vec![("x", CloseDependencyStatus::Pending, false)], CloseChecklistStatus::InProgress);
    assert_eq!(evaluate_entity_close_checklist(&optional).status, CloseChecklistStatus::ReadyToClose);
    let pending = sample_close_checklist("LE-US", vec![("x", CloseDependencyStatus::Pending, true)], CloseChecklistStatus::InProgress);
    assert_eq!(evaluate_entity_close_checklist(&pending).status, CloseChecklistStatus::InProgress);
}

#[test]
fn checklist_evaluation_is_authorization_neutral() {
    let checklist = ready("LE-US");
    let finance_actor = CloseChecklistActorContext { actor_id: "u-finance".to_string(), actor_role: "FINANCE_MANAGER".to_string() };
    let qa_actor = CloseChecklistActorContext { actor_id: "u-qa".to_string(), actor_role: "QA_RELEASE".to_string() };

    let finance_result = evaluate_entity_close_checklist_for_actor(&checklist, &finance_actor);
    let qa_result = evaluate_entity_close_checklist_for_actor(&checklist, &qa_actor);

    assert_eq!(finance_result, qa_result);
    assert_eq!(finance_result.status, CloseChecklistStatus::ReadyToClose);
}

#[test]
fn multi_entity_close_dry_run_passes_for_two_ready_entities() {
    let input = MultiEntityCloseDryRunInput {
        run_id: "sprint4-dry-run-pass".to_string(),
        run_started_at: FIXED_TS,
        checklists: vec![ready("LE-US"), ready("LE-CA")],
    };
    let result = simulate_multi_entity_close_dry_run(&input).expect("2-entity dry run should execute");
    assert!(result.passed);
    assert!(result.failed_entities.is_empty());
    assert_eq!(result.entity_results.len(), 2);
    assert!(result.entity_results.iter().all(|item| item.close_ready));
    assert_eq!(result.entity_results[0].legal_entity_id, "LE-CA");
}

#[test]
fn multi_entity_close_dry_run_fails_when_one_entity_has_blocker() {
    let input = MultiEntityCloseDryRunInput {
        run_id: "sprint4-dry-run-fail".to_string(),
        run_started_at: FIXED_TS,
        checklists: vec![
            ready("LE-US"),
            sample_close_checklist(
                "LE-CA",
                vec![
                    ("bank_stmt_reconciled", CloseDependencyStatus::Blocked, true),
                    ("fx_translation_complete", CloseDependencyStatus::Satisfied, true),
                ],
                CloseChecklistStatus::InProgress,
            ),
            ready("LE-HQ"),
        ],
    };
    let actor = CloseChecklistActorContext { actor_id: "u-controller".to_string(), actor_role: "CONTROLLER".to_string() };
    let result = simulate_multi_entity_close_dry_run_for_actor(&input, &actor).expect("3-entity dry run should execute");
    assert!(!result.passed);
    assert_eq!(result.failed_entities, vec!["LE-CA".to_string()]);
    assert!(result
        .entity_results
        .iter()
        .any(|item| item.legal_entity_id == "LE-CA" && !item.can_progress && !item.unresolved_blockers.is_empty()));
    assert_eq!(result, simulate_multi_entity_close_dry_run(&input).unwrap());
}

#[test]
fn multi_entity_close_dry_run_requires_two_to_three_entities() {
    let input = MultiEntityCloseDryRunInput {
        run_id: "sprint4-dry-run-invalid".to_string(),
        run_started_at: FIXED_TS,
        checklists: vec![sample_close_checklist(
            "LE-US",
            vec![("bank_stmt_reconciled", CloseDependencyStatus::Satisfied, true)],
            CloseChecklistStatus::ReadyToClose,
        )],
    };
    let result = simulate_multi_entity_close_dry_run(&input);
    assert_eq!(result, Err(CloseChecklistError::UnsupportedEntityCount { entity_count: 1 }));

    let four = MultiEntityCloseDryRunInput {
        run_id: "r".to_string(),
        run_started_at: FIXED_TS,
        checklists: vec![ready("A"), ready("B"), ready("C"), ready("D")],
    };
    assert_eq!(simulate_multi_entity_close_dry_run(&four), Err(CloseChecklistError::UnsupportedEntityCount { entity_count: 4 }));
}
