use routini::adaptive_lb::AdaptiveLoadBalancer;
use routini::backend::Backend;
use routini::decision_engine::DecisionEngine;
use routini::options::AdaptiveLbOpt;
use routini::strategy::adaptive::Adaptive;
use routini::supervisor::{SupervisorPeriods, SupervisorState, TickPlan};

fn default_engine() -> DecisionEngine {
    DecisionEngine::new(&AdaptiveLbOpt::default())
}

#[test]
fn strategy_transition() {
    // RoundRobin with `min_nr_of_connections = 1000` and ratio 1.2:
    // connection counts {A:1200, B:900} engage fewest connections; once
    // the counts converge to {A:1000, B:1000}, the engine reverts.
    let engine = default_engine();
    let current = Adaptive::RoundRobin;

    let picked = engine.evaluate_strategy(&current, &vec![1200, 900], &vec![0, 0]);
    assert_eq!(picked, Adaptive::FewestConnections);

    let picked = engine.evaluate_strategy(&current, &vec![1000, 1000], &vec![0, 0]);
    assert_eq!(picked, Adaptive::RoundRobin);
}

#[test]
fn latency_divergence_wins() {
    // Latency ratio above 2.0 engages fastest server even when the
    // connection trigger also fires.
    let engine = default_engine();
    let picked = engine.evaluate_strategy(
        &Adaptive::RoundRobin,
        &vec![5000, 1000],
        &vec![50_000, 20_000],
    );
    assert_eq!(picked, Adaptive::FastestServer);
}

#[test]
fn idle_connections_are_ignored() {
    // Divergent counts below the connection floor change nothing.
    let engine = default_engine();
    let picked = engine.evaluate_strategy(&Adaptive::RoundRobin, &vec![120, 90], &vec![0, 0]);
    assert_eq!(picked, Adaptive::RoundRobin);
}

#[test]
fn zero_latency_counts_as_no_sample() {
    // A zero minimum latency makes the ratio count as one: no trigger.
    let engine = default_engine();
    let picked = engine.evaluate_strategy(
        &Adaptive::RoundRobin,
        &vec![0, 0],
        &vec![900_000, 0],
    );
    assert_eq!(picked, Adaptive::RoundRobin);
}

#[test]
fn dynamic_strategies_stay_sticky() {
    // While its own trigger still fires, the dynamic strategy stays; when
    // both triggers drop, the engine falls back to the default.
    let engine = default_engine();
    let fc = engine.evaluate_strategy(&Adaptive::FewestConnections, &vec![2000, 1000], &vec![0, 0]);
    assert_eq!(fc, Adaptive::FewestConnections);
    let back = engine.evaluate_strategy(&Adaptive::FewestConnections, &vec![1000, 1000], &vec![
        0, 0,
    ]);
    assert_eq!(back, Adaptive::RoundRobin);
    let fs = engine.evaluate_strategy(&Adaptive::FastestServer, &vec![0, 0], &vec![
        30_000, 10_000,
    ]);
    assert_eq!(fs, Adaptive::FastestServer);
}

#[test]
fn engine_reads_balancer_metrics() {
    let addrs: Vec<String> = vec!["10.0.0.1:80".to_string(), "10.0.0.2:80".to_string()];
    let mut lb = AdaptiveLoadBalancer::try_from_iter(&addrs).unwrap();
    let a = Backend::new("10.0.0.1:80").unwrap();
    for _ in 0..1200 {
        lb.on_connect(&a);
    }
    // {A:1200, B:0}: the minimum is zero, so the ratio counts as one and
    // nothing diverges yet.
    assert_eq!(lb.evaluate_strategy(), Adaptive::RoundRobin);
    let b = Backend::new("10.0.0.2:80").unwrap();
    for _ in 0..900 {
        lb.on_connect(&b);
    }
    // {A:1200, B:900} diverges past 1.2 with the floor met.
    assert_eq!(lb.evaluate_strategy(), Adaptive::FewestConnections);
}

#[test]
fn full_adaptive_loop() {
    // The supervisor's work, end to end: evaluate, apply the choice,
    // rebuild, and select under the new strategy.
    let addrs: Vec<String> = vec!["10.0.0.1:80".to_string(), "10.0.0.2:80".to_string()];
    let mut lb = AdaptiveLoadBalancer::try_from_iter(&addrs).unwrap();
    let a = Backend::new("10.0.0.1:80").unwrap();
    let b = Backend::new("10.0.0.2:80").unwrap();
    for _ in 0..1200 {
        lb.on_connect(&a);
    }
    for _ in 0..900 {
        lb.on_connect(&b);
    }
    let next = lb.evaluate_strategy();
    assert_eq!(next, Adaptive::FewestConnections);
    assert!(lb.update_strategy(next));
    assert!(lb.rebuild_selector());
    // B carries fewer connections, so it is picked first.
    assert_eq!(lb.select(&[]).unwrap().addr, b.addr);
}

#[test]
fn supervisor_runs_due_duties_and_advances() {
    let periods = SupervisorPeriods {
        update_period: Some(30_000),
        health_check_period: Some(1000),
        strategy_eval_period: Some(5000),
        rebuild_period: None,
    };
    let mut state = SupervisorState::new(100, None);

    let plan = state.plan(100);
    assert!(plan.run_update && plan.run_health_check && plan.run_strategy_eval);
    assert!(!plan.run_selector_rebuild);

    state.advance(100, &plan, false, &periods, None);
    assert_eq!(state.next_update, 30_100);
    assert_eq!(state.next_health_check, 1100);
    assert_eq!(state.next_strategy_eval, 5100);
    assert_eq!(state.wake_deadline(), 1100);

    // Nothing is due before the next deadline.
    let idle = state.plan(1099);
    assert!(
        !idle.run_update && !idle.run_health_check && !idle.run_strategy_eval
            && !idle.run_selector_rebuild
    );
}

#[test]
fn supervisor_schedules_rebuild_after_strategy_change() {
    let periods = SupervisorPeriods {
        update_period: None,
        health_check_period: None,
        strategy_eval_period: Some(5000),
        rebuild_period: Some(200),
    };
    let mut state = SupervisorState::new(0, Some(200));
    assert_eq!(state.next_selector_rebuild, 200);

    // The evaluation tick changes the strategy: the rebuild deadline
    // restarts one rebuild period after the tick.
    let plan = TickPlan {
        run_update: false,
        run_health_check: false,
        run_strategy_eval: true,
        run_selector_rebuild: false,
    };
    state.advance(5000, &plan, true, &periods, Some(200));
    assert_eq!(state.next_selector_rebuild, 5200);
    assert_eq!(state.next_strategy_eval, 5000);

    // A due rebuild advances by its period.
    let plan = TickPlan {
        run_update: false,
        run_health_check: false,
        run_strategy_eval: false,
        run_selector_rebuild: true,
    };
    state.advance(5200, &plan, false, &periods, Some(200));
    assert_eq!(state.next_selector_rebuild, 5400);
}
