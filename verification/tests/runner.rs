use cucumber::event::{Failure, Outcome, Retries, RunOutcome};
use cucumber::runner::attempt::{resolution, Action, Attempt, Phase};
use cucumber::runner::basic::ScenarioType::{Concurrent, Serial};
use cucumber::runner::basic::{Basic, ScenarioId, ScenarioType};
use cucumber::runner::retry::{RetryOptionsWithDeadline, Verdict};
use cucumber::runner::scheduler::{Admission, Scheduler};
use cucumber::step::collection::Collection;
use cucumber::step::context::{Context, LineCol, Span, Step, StepType};
use cucumber::step::pattern::Pattern;
use cucumber::tag::TagExpr;

#[test]
fn test_scenario_type_enum() {
    assert_eq!(Serial, Serial);
    assert_ne!(Serial, Concurrent);

    match Concurrent {
        Concurrent => {}
        Serial => panic!("Should be Concurrent"),
    }
}

#[test]
fn test_module_re_exports() {
    let _basic = Basic::default();
    let _scenario_type = ScenarioType::Concurrent;
}

#[test]
fn test_basic_runner_integration() {
    let runner = Basic::default().max_concurrent_scenarios(Some(1)).fail_fast();

    assert!(runner.max_concurrent_scenarios == Some(1));
    assert!(runner.fail_fast);
}

#[test]
fn settings_default_and_limits() {
    let config = Basic::default();
    assert_eq!(config.max_concurrent_scenarios, Some(64));
    assert_eq!(config.max_pending_results, None);
    assert!(!config.fail_fast);
    assert_eq!(config.retries, 0);
    assert_eq!(config.retry_after, None);
    assert_eq!(config.retry_deadline, None);
    assert_eq!(config.concurrency(), 64);
    assert_eq!(Basic::new().max_concurrent_scenarios(None).concurrency(), usize::MAX);
    assert_eq!(Basic::new().max_concurrent_scenarios(Some(0)).concurrency(), 1);
    assert_eq!(Basic::new().max_concurrent_scenarios(Some(7)).concurrency(), 7);
    let copy = config.clone().max_pending_results(Some(3));
    assert_eq!(copy.max_pending_results, Some(3));
    assert_eq!(copy.max_concurrent_scenarios, Some(64));
}

#[test]
fn scenarios_are_serial_by_tag() {
    let config = Basic::new();
    assert_eq!(config.scenario_type(&vec!["serial".to_string()]), ScenarioType::Serial);
    assert_eq!(config.scenario_type(&vec!["other".to_string()]), ScenarioType::Concurrent);
    assert_eq!(config.scenario_type(&vec![]), ScenarioType::Concurrent);
    let custom = Basic::new().which_scenario(Some(TagExpr::Not(Box::new(TagExpr::Tag(
        "parallel".to_string(),
    )))));
    assert_eq!(custom.scenario_type(&vec![]), ScenarioType::Serial);
    assert_eq!(custom.scenario_type(&vec!["parallel".to_string()]), ScenarioType::Concurrent);
    let none = Basic::new().which_scenario(None);
    assert_eq!(none.scenario_type(&vec!["serial".to_string()]), ScenarioType::Concurrent);
}

fn concurrent(n: usize) -> Vec<ScenarioType> {
    vec![ScenarioType::Concurrent; n]
}

#[test]
fn never_more_in_flight_than_the_limit() {
    for limit in 1..5usize {
        let config = Basic::new().max_concurrent_scenarios(Some(limit));
        let mut scheduler: Scheduler<u64> = Scheduler::new(&config, concurrent(11));
        let mut running: Vec<ScenarioId> = Vec::new();
        let mut done = 0;
        let mut started = 0;
        let mut turn = 0u64;
        loop {
            match scheduler.next_admission() {
                Admission::Admitted(id, ty) => {
                    assert_eq!(ty, ScenarioType::Concurrent);
                    running.push(id);
                    started += 1;
                }
                Admission::Wait => {
                    // Nothing waits while a slot is free and a scenario is left.
                    assert!(running.len() == limit || started == 11);
                    assert!(!running.is_empty());
                    turn += 1;
                    let id = running.remove((turn as usize * 7) % running.len());
                    scheduler.finish(id, Outcome::Passed, id.0).unwrap();
                    done += 1;
                }
                Admission::Finished => break,
            }
            assert!(scheduler.in_flight() <= limit);
            assert_eq!(scheduler.in_flight(), running.len());
        }
        assert_eq!(done, 11);
        assert_eq!(scheduler.outcome(), RunOutcome::Passed);
    }
}

#[test]
fn a_serial_scenario_runs_alone() {
    let config = Basic::new().max_concurrent_scenarios(Some(3));
    let backlog = vec![Concurrent, Concurrent, Serial, Concurrent, Serial, Serial, Concurrent];
    let mut scheduler: Scheduler<()> = Scheduler::new(&config, backlog.clone());

    assert_eq!(scheduler.next_admission(), Admission::Admitted(ScenarioId(0), Concurrent));
    assert_eq!(scheduler.next_admission(), Admission::Admitted(ScenarioId(1), Concurrent));
    // The serial scenario waits until nothing runs.
    assert_eq!(scheduler.next_admission(), Admission::Wait);
    scheduler.finish(ScenarioId(0), Outcome::Passed, ()).unwrap();
    assert_eq!(scheduler.next_admission(), Admission::Wait);
    scheduler.finish(ScenarioId(1), Outcome::Passed, ()).unwrap();
    assert_eq!(scheduler.next_admission(), Admission::Admitted(ScenarioId(2), Serial));
    // Nothing starts beside it, though the limit would allow two more.
    assert_eq!(scheduler.next_admission(), Admission::Wait);
    assert_eq!(scheduler.in_flight(), 1);
    scheduler.finish(ScenarioId(2), Outcome::Passed, ()).unwrap();
    assert_eq!(scheduler.next_admission(), Admission::Admitted(ScenarioId(3), Concurrent));
    assert_eq!(scheduler.next_admission(), Admission::Wait);
    scheduler.finish(ScenarioId(3), Outcome::Passed, ()).unwrap();
    assert_eq!(scheduler.next_admission(), Admission::Admitted(ScenarioId(4), Serial));
    assert_eq!(scheduler.next_admission(), Admission::Wait);
    scheduler.finish(ScenarioId(4), Outcome::Passed, ()).unwrap();
    assert_eq!(scheduler.next_admission(), Admission::Admitted(ScenarioId(5), Serial));
    scheduler.finish(ScenarioId(5), Outcome::Passed, ()).unwrap();
    assert_eq!(scheduler.next_admission(), Admission::Admitted(ScenarioId(6), Concurrent));
    assert_eq!(scheduler.next_admission(), Admission::Wait);
    scheduler.finish(ScenarioId(6), Outcome::Passed, ()).unwrap();
    assert_eq!(scheduler.next_admission(), Admission::Finished);
    assert_eq!(scheduler.outcome(), RunOutcome::Passed);
}

#[test]
fn results_are_reported_in_declaration_order() {
    let config = Basic::new().max_concurrent_scenarios(Some(4));
    let mut scheduler: Scheduler<&str> = Scheduler::new(&config, concurrent(4));
    for expected in 0..4 {
        assert_eq!(
            scheduler.next_admission(),
            Admission::Admitted(ScenarioId(expected), ScenarioType::Concurrent)
        );
    }
    assert_eq!(scheduler.finish(ScenarioId(2), Outcome::Passed, "c"), Ok(vec![]));
    assert_eq!(scheduler.finish(ScenarioId(3), Outcome::Passed, "d"), Ok(vec![]));
    assert_eq!(scheduler.waiting(), 2);
    assert_eq!(scheduler.finish(ScenarioId(0), Outcome::Passed, "a"), Ok(vec![(0, "a")]));
    assert_eq!(
        scheduler.finish(ScenarioId(1), Outcome::Passed, "b"),
        Ok(vec![(1, "b"), (2, "c"), (3, "d")])
    );
    assert_eq!(scheduler.waiting(), 0);
    assert_eq!(scheduler.next_admission(), Admission::Finished);
}

#[test]
fn random_completion_order_is_reported_in_declaration_order() {
    for seed in 1..40u64 {
        let n = 5 + (seed % 9) as usize;
        let limit = 1 + (seed % 4) as usize;
        let config = Basic::new().max_concurrent_scenarios(Some(limit));
        let mut scheduler: Scheduler<String> = Scheduler::new(&config, concurrent(n));
        let mut running: Vec<ScenarioId> = Vec::new();
        let mut reported: Vec<(u64, String)> = Vec::new();
        let mut state = seed;
        loop {
            match scheduler.next_admission() {
                Admission::Admitted(id, _) => running.push(id),
                Admission::Wait => {
                    state = state.wrapping_mul(6364136223846793005).wrapping_add(1442695040888963407);
                    let pick = (state >> 33) as usize % running.len();
                    let id = running.remove(pick);
                    let released =
                        scheduler.finish(id, Outcome::Passed, format!("scenario {}", id.0)).unwrap();
                    reported.extend(released);
                }
                Admission::Finished => break,
            }
        }
        let expected: Vec<(u64, String)> =
            (0..n as u64).map(|p| (p, format!("scenario {}", p))).collect();
        assert_eq!(reported, expected);
    }
}

#[test]
fn fail_fast_stops_admission_but_lets_the_running_end() {
    let config = Basic::new().max_concurrent_scenarios(Some(2)).fail_fast();
    let mut scheduler: Scheduler<&str> = Scheduler::new(&config, concurrent(5));
    assert!(matches!(scheduler.next_admission(), Admission::Admitted(ScenarioId(0), _)));
    assert!(matches!(scheduler.next_admission(), Admission::Admitted(ScenarioId(1), _)));
    assert_eq!(
        scheduler.finish(ScenarioId(0), Outcome::Failed(Failure::HandlerFailure), "failed"),
        Ok(vec![(0, "failed")])
    );
    // Three scenarios are left and a slot is free, but none is admitted.
    assert_eq!(scheduler.next_admission(), Admission::Wait);
    assert_eq!(scheduler.next_admission(), Admission::Wait);
    assert_eq!(scheduler.in_flight(), 1);
    // The scenario that runs still ends, and its result is reported.
    assert_eq!(scheduler.finish(ScenarioId(1), Outcome::Passed, "passed"), Ok(vec![(1, "passed")]));
    assert_eq!(scheduler.next_admission(), Admission::Finished);
    assert_eq!(scheduler.outcome(), RunOutcome::Failed);
}

#[test]
fn without_fail_fast_a_failure_lets_the_run_go_on() {
    let config = Basic::new().max_concurrent_scenarios(Some(1));
    let mut scheduler: Scheduler<()> = Scheduler::new(&config, concurrent(2));
    assert!(matches!(scheduler.next_admission(), Admission::Admitted(ScenarioId(0), _)));
    scheduler.finish(ScenarioId(0), Outcome::Failed(Failure::UndefinedStep), ()).unwrap();
    assert!(matches!(scheduler.next_admission(), Admission::Admitted(ScenarioId(1), _)));
    scheduler.finish(ScenarioId(1), Outcome::Passed, ()).unwrap();
    assert_eq!(scheduler.next_admission(), Admission::Finished);
    assert_eq!(scheduler.outcome(), RunOutcome::Failed);
}

#[test]
fn cancellation_leaves_the_run_incomplete() {
    let config = Basic::new().max_concurrent_scenarios(Some(2));
    let mut scheduler: Scheduler<()> = Scheduler::new(&config, concurrent(4));
    assert!(matches!(scheduler.next_admission(), Admission::Admitted(ScenarioId(0), _)));
    assert!(!scheduler.is_cancelled());
    scheduler.cancel();
    assert!(scheduler.is_cancelled());
    assert_eq!(scheduler.next_admission(), Admission::Wait);
    assert_eq!(scheduler.finish(ScenarioId(0), Outcome::Passed, ()), Ok(vec![(0, ())]));
    assert_eq!(scheduler.next_admission(), Admission::Finished);
    assert_eq!(scheduler.outcome(), RunOutcome::Incomplete);
}

#[test]
fn cancellation_after_the_last_admission() {
    let config = Basic::new();
    let mut passed: Scheduler<()> = Scheduler::new(&config, concurrent(1));
    assert!(matches!(passed.next_admission(), Admission::Admitted(ScenarioId(0), _)));
    passed.cancel();
    passed.finish(ScenarioId(0), Outcome::Passed, ()).unwrap();
    // Nothing was kept from running or from ending.
    assert_eq!(passed.outcome(), RunOutcome::Passed);

    let mut aborted: Scheduler<()> = Scheduler::new(&config, concurrent(1));
    assert!(matches!(aborted.next_admission(), Admission::Admitted(ScenarioId(0), _)));
    aborted.cancel();
    aborted.finish(ScenarioId(0), Outcome::Failed(Failure::Cancelled), ()).unwrap();
    assert_eq!(aborted.outcome(), RunOutcome::Incomplete);
}

#[test]
fn too_many_waiting_results_stop_admission() {
    let config = Basic::new().max_concurrent_scenarios(Some(2)).max_pending_results(Some(1));
    let mut scheduler: Scheduler<u8> = Scheduler::new(&config, concurrent(6));
    assert!(matches!(scheduler.next_admission(), Admission::Admitted(ScenarioId(0), _)));
    assert!(matches!(scheduler.next_admission(), Admission::Admitted(ScenarioId(1), _)));
    assert_eq!(scheduler.finish(ScenarioId(1), Outcome::Passed, 1), Ok(vec![]));
    // One result waits: that is allowed.
    assert!(matches!(scheduler.next_admission(), Admission::Admitted(ScenarioId(2), _)));
    assert_eq!(scheduler.finish(ScenarioId(2), Outcome::Passed, 2), Ok(vec![]));
    // Two wait for the slow first scenario: nothing more is admitted.
    assert_eq!(scheduler.waiting(), 2);
    assert_eq!(scheduler.in_flight(), 1);
    assert_eq!(scheduler.next_admission(), Admission::Wait);
    assert_eq!(scheduler.finish(ScenarioId(0), Outcome::Passed, 0), Ok(vec![(0, 0), (1, 1), (2, 2)]));
    assert!(matches!(scheduler.next_admission(), Admission::Admitted(ScenarioId(3), _)));
}

#[test]
fn only_a_running_scenario_can_end() {
    let config = Basic::new();
    let mut scheduler: Scheduler<&str> = Scheduler::new(&config, concurrent(2));
    assert_eq!(scheduler.finish(ScenarioId(0), Outcome::Passed, "early"), Err("early"));
    assert!(matches!(scheduler.next_admission(), Admission::Admitted(ScenarioId(0), _)));
    assert_eq!(scheduler.finish(ScenarioId(1), Outcome::Passed, "other"), Err("other"));
    assert_eq!(scheduler.finish(ScenarioId(0), Outcome::Passed, "done"), Ok(vec![(0, "done")]));
    assert_eq!(scheduler.finish(ScenarioId(0), Outcome::Passed, "twice"), Err("twice"));
    assert_eq!(scheduler.in_flight(), 0);
}

#[test]
fn an_empty_backlog_is_finished_at_once() {
    let mut scheduler: Scheduler<()> = Scheduler::new(&Basic::new(), vec![]);
    assert_eq!(scheduler.next_admission(), Admission::Finished);
    assert_eq!(scheduler.outcome(), RunOutcome::Passed);
}

fn drive(attempt: &mut Attempt, reports: &[Option<Failure>]) -> (Vec<Action>, Outcome) {
    let mut actions = Vec::new();
    let mut reports = reports.iter();
    loop {
        let action = attempt.next_action();
        actions.push(action);
        if let Action::Finish(outcome) = action {
            return (actions, outcome);
        }
        attempt.record(*reports.next().unwrap(), false);
    }
}

#[test]
fn an_attempt_runs_hooks_and_steps_in_order() {
    let mut attempt = Attempt::new(2, 3, 1);
    let (actions, outcome) = drive(&mut attempt, &[None; 6]);
    assert_eq!(
        actions,
        vec![
            Action::Before(0),
            Action::Before(1),
            Action::Step(0),
            Action::Step(1),
            Action::Step(2),
            Action::After(0),
            Action::Finish(Outcome::Passed),
        ]
    );
    assert_eq!(outcome, Outcome::Passed);
    assert_eq!(attempt.executed, 3);
    assert_eq!(attempt.phase, Phase::Done);
}

#[test]
fn a_failing_before_hook_skips_the_steps_but_not_the_after_hooks() {
    let mut attempt = Attempt::new(2, 3, 2);
    let (actions, outcome) =
        drive(&mut attempt, &[None, Some(Failure::HandlerFailure), None, None]);
    assert_eq!(
        actions,
        vec![
            Action::Before(0),
            Action::Before(1),
            Action::After(0),
            Action::After(1),
            Action::Finish(Outcome::Failed(Failure::HandlerFailure)),
        ]
    );
    assert_eq!(outcome, Outcome::Failed(Failure::HandlerFailure));
    assert!(!attempt.was_executed(0));
}

#[test]
fn a_failing_step_ends_the_steps() {
    for failure in [Failure::UndefinedStep, Failure::AmbiguousStep, Failure::HandlerFailure] {
        let mut attempt = Attempt::new(0, 4, 1);
        let (actions, outcome) = drive(&mut attempt, &[None, Some(failure), None]);
        assert_eq!(
            actions,
            vec![
                Action::Step(0),
                Action::Step(1),
                Action::After(0),
                Action::Finish(Outcome::Failed(failure)),
            ]
        );
        assert_eq!(outcome, Outcome::Failed(failure));
        assert!(attempt.was_executed(0));
        assert!(attempt.was_executed(1));
        assert!(!attempt.was_executed(2));
        assert!(!attempt.was_executed(3));
    }
}

#[test]
fn a_failing_after_hook_fails_the_attempt_and_the_first_failure_stays() {
    let mut attempt = Attempt::new(0, 1, 2);
    let (_, outcome) = drive(&mut attempt, &[None, Some(Failure::HandlerFailure), None]);
    assert_eq!(outcome, Outcome::Failed(Failure::HandlerFailure));

    let mut attempt = Attempt::new(0, 1, 2);
    let (actions, outcome) = drive(
        &mut attempt,
        &[Some(Failure::UndefinedStep), Some(Failure::HandlerFailure), None],
    );
    assert_eq!(actions.len(), 4);
    assert_eq!(outcome, Outcome::Failed(Failure::UndefinedStep));
}

#[test]
fn cancellation_is_seen_between_steps() {
    let mut attempt = Attempt::new(1, 3, 1);
    assert_eq!(attempt.next_action(), Action::Before(0));
    attempt.record(None, true);
    assert_eq!(attempt.next_action(), Action::Step(0));
    attempt.record(None, true);
    assert_eq!(attempt.next_action(), Action::After(0));
    attempt.record(None, true);
    assert_eq!(attempt.next_action(), Action::Finish(Outcome::Failed(Failure::Cancelled)));
    assert_eq!(attempt.executed, 1);

    // After the last step there is nothing left to cancel.
    let mut attempt = Attempt::new(0, 1, 0);
    attempt.record(None, true);
    assert_eq!(attempt.next_action(), Action::Finish(Outcome::Passed));
}

#[test]
fn an_attempt_with_nothing_to_do_passes() {
    let attempt = Attempt::new(0, 0, 0);
    assert_eq!(attempt.next_action(), Action::Finish(Outcome::Passed));
    let mut only_after = Attempt::new(0, 0, 1);
    assert_eq!(only_after.next_action(), Action::After(0));
    only_after.record(None, false);
    assert_eq!(only_after.next_action(), Action::Finish(Outcome::Passed));
    let mut done = only_after;
    done.record(Some(Failure::HandlerFailure), false);
    assert_eq!(done, only_after);
}

#[derive(Debug, PartialEq)]
enum Event {
    ScenarioStarted(u64),
    StepExecuted(String, Vec<String>),
    StepFailed(String, Failure),
    Retried(usize),
    ScenarioFinished(u64, Outcome),
}

type Handler = fn(&mut Vec<String>, &Context) -> Result<(), String>;

struct Scenario {
    tags: Vec<String>,
    steps: Vec<Step>,
}

fn step(ty: StepType, keyword: &str, value: &str) -> Step {
    Step {
        keyword: keyword.to_string(),
        ty,
        value: value.to_string(),
        docstring: None,
        table: None,
        span: Span { start: 0, end: 0 },
        position: LineCol { line: 1, col: 1 },
    }
}

fn run_scenario(
    registry: &Collection<Handler>,
    scenario: &Scenario,
    id: ScenarioId,
    mut options: RetryOptionsWithDeadline,
) -> (Outcome, Vec<Event>) {
    let mut events = vec![Event::ScenarioStarted(id.0)];
    loop {
        let mut world: Vec<String> = Vec::new();
        let mut attempt = Attempt::new(0, scenario.steps.len(), 0);
        let outcome = loop {
            match attempt.next_action() {
                Action::Step(i) => {
                    let step = &scenario.steps[i];
                    let found = registry.find(step);
                    let mut failure = resolution(&found);
                    if let Ok(Some((handler, _, _, context))) = found {
                        let captures = context.matches.iter().map(|m| m.1.clone()).collect();
                        match handler(&mut world, &context) {
                            Ok(()) => events.push(Event::StepExecuted(step.value.clone(), captures)),
                            Err(_) => failure = Some(Failure::HandlerFailure),
                        }
                    }
                    if let Some(why) = failure {
                        events.push(Event::StepFailed(step.value.clone(), why));
                    }
                    attempt.record(failure, false);
                }
                Action::Finish(outcome) => break outcome,
                Action::Before(_) | Action::After(_) => unreachable!(),
            }
        };
        match options.after_attempt(outcome, 0) {
            Verdict::Retry(next) => {
                events.push(Event::Retried(next.retries.current));
                options = next;
            }
            Verdict::Final(outcome) => {
                events.push(Event::ScenarioFinished(id.0, outcome));
                return (outcome, events);
            }
        }
    }
}

fn run_all(
    config: &Basic,
    registry: &Collection<Handler>,
    scenarios: &[Scenario],
) -> (RunOutcome, Vec<Event>) {
    let backlog = scenarios.iter().map(|s| config.scenario_type(&s.tags)).collect();
    let mut scheduler: Scheduler<Vec<Event>> = Scheduler::new(config, backlog);
    let mut running: Vec<ScenarioId> = Vec::new();
    let mut reported = Vec::new();
    loop {
        match scheduler.next_admission() {
            Admission::Admitted(id, _) => running.push(id),
            Admission::Wait => {
                let id = running.pop().unwrap();
                let scenario = &scenarios[id.0 as usize];
                let options = config.retry_options(&scenario.tags);
                let (outcome, events) = run_scenario(registry, scenario, id, options);
                for (_, batch) in scheduler.finish(id, outcome, events).unwrap() {
                    reported.extend(batch);
                }
            }
            Admission::Finished => return (scheduler.outcome(), reported),
        }
    }
}

fn service_running(world: &mut Vec<String>, _: &Context) -> Result<(), String> {
    world.push("running".to_string());
    Ok(())
}

fn check_health(world: &mut Vec<String>, _: &Context) -> Result<(), String> {
    world.push("checked".to_string());
    Ok(())
}

fn responds_healthy(world: &mut Vec<String>, _: &Context) -> Result<(), String> {
    if world.len() == 2 {
        Ok(())
    } else {
        Err("not checked".to_string())
    }
}

fn always_fails(_: &mut Vec<String>, _: &Context) -> Result<(), String> {
    Err("flaky".to_string())
}

fn vault_registry() -> Collection<Handler> {
    Collection::<Handler>::new()
        .given(None, Pattern::new(r"the vault service is running").unwrap(), service_running)
        .when(None, Pattern::new(r"checking the health endpoint").unwrap(), check_health)
        .then(
            None,
            Pattern::new(r"the service should respond with healthy status").unwrap(),
            responds_healthy,
        )
}

fn vault_scenario() -> Scenario {
    Scenario {
        tags: vec![],
        steps: vec![
            step(StepType::Given, "Given", "the vault service is running"),
            step(StepType::When, "When", "checking the health endpoint"),
            step(StepType::Then, "Then", "the service should respond with healthy status"),
        ],
    }
}

#[test]
fn end_to_end_one_passing_scenario() {
    let config = Basic::new().max_concurrent_scenarios(Some(1));
    let (outcome, events) = run_all(&config, &vault_registry(), &[vault_scenario()]);
    assert_eq!(outcome, RunOutcome::Passed);
    assert_eq!(
        events,
        vec![
            Event::ScenarioStarted(0),
            Event::StepExecuted(
                "the vault service is running".to_string(),
                vec!["the vault service is running".to_string()]
            ),
            Event::StepExecuted(
                "checking the health endpoint".to_string(),
                vec!["checking the health endpoint".to_string()]
            ),
            Event::StepExecuted(
                "the service should respond with healthy status".to_string(),
                vec!["the service should respond with healthy status".to_string()]
            ),
            Event::ScenarioFinished(0, Outcome::Passed),
        ]
    );
    let passed = events
        .iter()
        .filter(|e| matches!(e, Event::ScenarioFinished(_, Outcome::Passed)))
        .count();
    assert_eq!(passed, 1);
}

#[test]
fn end_to_end_retries_until_exhausted() {
    let registry = Collection::<Handler>::new()
        .given(None, Pattern::new(r"a flaky service").unwrap(), always_fails);
    let scenario =
        Scenario { tags: vec![], steps: vec![step(StepType::Given, "Given", "a flaky service")] };
    let config = Basic::new().max_concurrent_scenarios(Some(1)).retries(2);
    let (outcome, events) = run_all(&config, &registry, &[scenario]);
    assert_eq!(outcome, RunOutcome::Failed);
    let attempts = events.iter().filter(|e| matches!(e, Event::StepFailed(..))).count();
    assert_eq!(attempts, 3);
    assert_eq!(
        events,
        vec![
            Event::ScenarioStarted(0),
            Event::StepFailed("a flaky service".to_string(), Failure::HandlerFailure),
            Event::Retried(1),
            Event::StepFailed("a flaky service".to_string(), Failure::HandlerFailure),
            Event::Retried(2),
            Event::StepFailed("a flaky service".to_string(), Failure::HandlerFailure),
            Event::ScenarioFinished(0, Outcome::Failed(Failure::HandlerFailure)),
        ]
    );
}

#[test]
fn end_to_end_undefined_and_ambiguous_steps() {
    let registry = vault_registry()
        .when(None, Pattern::new(r"checking the (\w+) endpoint").unwrap(), check_health);
    let undefined = Scenario {
        tags: vec![],
        steps: vec![
            step(StepType::Given, "Given", "the vault service is running"),
            step(StepType::When, "When", "nobody knows this step"),
            step(StepType::Then, "Then", "the service should respond with healthy status"),
        ],
    };
    let config = Basic::new().max_concurrent_scenarios(Some(2)).retries(3);
    let (outcome, events) = run_all(&config, &registry, &[undefined, vault_scenario()]);
    assert_eq!(outcome, RunOutcome::Failed);
    assert_eq!(
        events,
        vec![
            Event::ScenarioStarted(0),
            Event::StepExecuted(
                "the vault service is running".to_string(),
                vec!["the vault service is running".to_string()]
            ),
            Event::StepFailed("nobody knows this step".to_string(), Failure::UndefinedStep),
            Event::ScenarioFinished(0, Outcome::Failed(Failure::UndefinedStep)),
            Event::ScenarioStarted(1),
            Event::StepExecuted(
                "the vault service is running".to_string(),
                vec!["the vault service is running".to_string()]
            ),
            Event::StepFailed("checking the health endpoint".to_string(), Failure::AmbiguousStep),
            Event::ScenarioFinished(1, Outcome::Failed(Failure::AmbiguousStep)),
        ]
    );
}

#[test]
fn retries_fit() {
    let options = RetryOptionsWithDeadline {
        retries: Retries::initial(usize::MAX),
        after: None,
        deadline: None,
    };
    let next = options.after_attempt(Outcome::Failed(Failure::HandlerFailure), 0);
    assert_eq!(
        next,
        Verdict::Retry(RetryOptionsWithDeadline {
            retries: Retries { current: 1, left: usize::MAX - 1 },
            after: None,
            deadline: None,
        })
    );
}
