use xrebalance::json::Json;
use xrebalance::plan::{size, Ladder};
use xrebalance::planner::{conclude, Ending, LayerRun, Task};
use xrebalance::request::FeeBudget;
use xrebalance::table::Table;

const NO_ROUTE: &str = "getroutes: Error code 205: nothing usable";

fn run(overrides: usize, writes: usize) -> LayerRun {
    let ladder = Ladder::start(1_000, FeeBudget::Msat(10)).unwrap();
    LayerRun::new(overrides, writes, ladder)
}

/// Drive a run to its end; `fails` says which task fails, and how.
fn drive(
    mut r: LayerRun,
    fails: impl Fn(&Task, u64) -> Option<&'static str>,
) -> (Vec<String>, LayerRun) {
    let mut log = Vec::new();
    loop {
        log.push(match &r.task {
            Task::Create => "create".to_owned(),
            Task::Override(i) => format!("override {i}"),
            Task::Write(i) => format!("write {i}"),
            Task::Query => format!("query {}", r.ladder.rung_msat),
            Task::Remove(_) => "remove".to_owned(),
            Task::Finished(_) => return (log, r),
        });
        let failure = fails(&r.task, r.ladder.rung_msat);
        r = r.step(failure.map_or(Ok(()), Err));
    }
}

#[test]
fn a_plan_writes_queries_and_removes() {
    let (log, r) = drive(run(2, 2), |_, _| None);
    assert_eq!(
        log,
        vec!["create", "override 0", "override 1", "write 0", "write 1", "query 1000", "remove"]
    );
    assert!(matches!(r.task, Task::Finished(Ending::Solved)));
}

#[test]
fn overrides_are_best_effort_and_writes_are_not() {
    let (log, r) = drive(run(2, 3), |t, _| match t {
        Task::Override(_) => Some("gone"),
        Task::Write(1) => Some("refused"),
        Task::Remove(_) => Some("also gone"),
        _ => None,
    });
    assert_eq!(
        log,
        vec!["create", "override 0", "override 1", "write 0", "write 1", "remove"]
    );
    assert!(matches!(r.task, Task::Finished(Ending::NotWritten(e)) if e == "refused"));
}

#[test]
fn a_layer_that_was_not_created_is_not_removed() {
    let (log, r) = drive(run(1, 1), |t, _| {
        matches!(t, Task::Create).then_some("exists")
    });
    assert_eq!(log, vec!["create"]);
    assert!(matches!(r.task, Task::Finished(Ending::NotCreated(e)) if e == "exists"));
}

#[test]
fn a_missing_route_descends_until_one_is_found() {
    let (log, r) = drive(run(0, 1), |t, rung| match t {
        Task::Query if rung > 300 => Some(NO_ROUTE),
        _ => None,
    });
    assert_eq!(
        log,
        vec!["create", "write 0", "query 1000", "query 750", "query 500", "query 250", "remove"]
    );
    assert!(matches!(r.task, Task::Finished(Ending::Solved)));
    assert_eq!(r.ladder.rung_msat, 250);
    assert!(r.ladder.descended);
}

#[test]
fn a_ladder_run_dry_ends_infeasible() {
    let (log, r) = drive(run(0, 0), |t, _| {
        matches!(t, Task::Query).then_some(NO_ROUTE)
    });
    assert_eq!(log.len(), 7);
    assert_eq!(log[5], "query 125");
    assert!(matches!(r.task, Task::Finished(Ending::Infeasible(e)) if e == NO_ROUTE));
    // A route over the budget ends at once.
    let (log, r) = drive(run(0, 0), |t, _| {
        matches!(t, Task::Query).then_some("getroutes: Error code 206: dear")
    });
    assert_eq!(log, vec!["create", "query 1000", "remove"]);
    assert!(matches!(r.task, Task::Finished(Ending::Infeasible(_))));
    assert!(!r.ladder.descended);
}

#[test]
fn each_ending_has_its_conclusion() {
    let ladder = Ladder::start(1_000, FeeBudget::Ppm(10_000)).unwrap();
    let mut lower = ladder;
    assert!(lower.descend(NO_ROUTE));
    let sizing = size(2_000, FeeBudget::Ppm(10_000), 1_010, 5_000);
    assert_eq!((sizing.amount_msat, sizing.maxfee_msat), (1_000, 10));
    let end = |ending, solved| {
        conclude(
            ending,
            &lower,
            &sizing,
            solved,
            "02ee",
            "xrebalance-req-1-2-3",
            &Table::new(),
            Table::new(),
        )
    };
    for ending in [
        Ending::NotCreated("gone".to_owned()),
        Ending::NotWritten("gone".to_owned()),
    ] {
        match end(ending, Json::Null) {
            Err(e) => assert_eq!(e.message(), "gone"),
            Ok(_) => panic!("planned"),
        }
    }
    let p = end(Ending::Infeasible(NO_ROUTE.to_owned()), Json::Null).unwrap_or_else(|e| {
        panic!("{}", e.message());
    });
    // Reported at the clamped ask, not at the rung.
    assert_eq!((p.effective_amount_msat, p.maxfee_msat), (1_000, 10));
    assert_eq!(p.detail.as_deref(), Some(NO_ROUTE));
    let p = end(Ending::Solved, Json::Object(Vec::new())).unwrap_or_else(|e| {
        panic!("{}", e.message());
    });
    // Settled at the rung and its budget.
    assert_eq!((p.effective_amount_msat, p.maxfee_msat), (750, 7));
}
