use garmata::configuration::{
    default_http_version, default_scheme, default_users, Configuration, Flow, Group,
};
use garmata::scheduler::{
    after_flow, deadline, first_flow, wave_was_last, workers, Next, NANOS_PER_SECOND,
};

#[test]
fn the_defaults_of_a_plan() {
    assert_eq!(default_scheme(), "https");
    assert_eq!(default_http_version(), "1.1");
    assert_eq!(default_users(), 1);
    let c = Configuration::new("example.com:8080");
    assert_eq!(c.scheme, "https");
    assert_eq!(c.http_version, "1.1");
    assert_eq!(c.target, "example.com:8080");
    assert!(c.groups.is_empty());
}

#[test]
fn the_defaults_of_a_flow_and_a_group() {
    let f = Flow::new("/x", "GET");
    assert_eq!(f.name, "");
    assert_eq!(f.path, "/x");
    assert_eq!(f.method, "GET");
    assert_eq!(f.max_redirects, 0);
    assert_eq!(f.body, "");
    assert!(f.headers.is_empty());
    assert!(f.cookies.is_empty());
    assert!(!f.insecure);
    let g = Group::new(3, vec![f]);
    assert_eq!(g.name, "");
    assert_eq!(g.users, 1);
    assert_eq!(g.duration, 3);
    assert_eq!(g.flows.len(), 1);
}

#[test]
fn the_deadline_is_the_duration_after_the_start() {
    let g = Group::new(2, vec![]);
    assert_eq!(NANOS_PER_SECOND, 1_000_000_000);
    assert_eq!(deadline(&g, 0).unwrap(), 2_000_000_000);
    assert_eq!(deadline(&g, 500).unwrap(), 2_000_000_500);
    let g = Group::new(u64::MAX, vec![]);
    assert_eq!(deadline(&g, 1).unwrap(), 18_446_744_073_709_551_615_000_000_001);
}

#[test]
fn a_group_that_runs_for_no_time_is_rejected() {
    let mut g = Group::new(0, vec![]);
    g.name = "idle".to_string();
    assert_eq!(deadline(&g, 10).unwrap_err().reason, "invalid duration provided for group idle");
}

#[test]
fn a_deadline_beyond_the_clock_is_rejected() {
    let g = Group::new(1, vec![]);
    assert_eq!(
        deadline(&g, u128::MAX - 5).unwrap_err().reason,
        "invalid duration provided for group "
    );
    assert_eq!(deadline(&g, u128::MAX - 1_000_000_000).unwrap(), u128::MAX);
}

#[test]
fn a_wave_is_the_last_once_the_deadline_is_reached() {
    assert!(!wave_was_last(9, 10));
    assert!(wave_was_last(10, 10));
    assert!(wave_was_last(11, 10));
}

#[test]
fn a_plan_asks_for_one_worker_for_each_group() {
    let mut c = Configuration::new("example.com");
    c.scheme = "http".to_string();
    let mut a = Group::new(1, vec![Flow::new("/a", "GET")]);
    a.name = "a".to_string();
    a.users = 4;
    let mut b = Group::new(2, vec![Flow::new("/b", "GET"), Flow::new("/c", "POST")]);
    b.name = "b".to_string();
    c.groups = vec![a, b];
    let plan = workers(&c, 100).unwrap();
    assert_eq!(plan.len(), 2);
    assert_eq!(plan[0].group.name, "a");
    assert_eq!(plan[0].group.users, 4);
    assert_eq!(plan[0].deadline, 1_000_000_100);
    assert_eq!(plan[1].group.name, "b");
    assert_eq!(plan[1].group.flows.len(), 2);
    assert_eq!(plan[1].deadline, 2_000_000_100);
    for w in &plan {
        assert_eq!(w.scheme, "http");
        assert_eq!(w.target, "example.com");
        assert_eq!(w.http_version, "1.1");
    }
}

#[test]
fn a_plan_without_groups_asks_for_no_worker() {
    let c = Configuration::new("example.com");
    assert_eq!(workers(&c, 0).unwrap().len(), 0);
}

#[test]
fn one_invalid_group_rejects_the_plan() {
    let mut c = Configuration::new("example.com");
    let mut bad = Group::new(0, vec![]);
    bad.name = "second".to_string();
    c.groups = vec![Group::new(1, vec![]), bad, Group::new(3, vec![])];
    assert_eq!(
        workers(&c, 0).unwrap_err().reason,
        "invalid duration provided for group second"
    );
}

#[test]
fn a_user_runs_its_flows_in_order() {
    assert_eq!(first_flow(0), Next::Rest);
    assert_eq!(first_flow(3), Next::Run(0));
    assert_eq!(after_flow(3, 0, true), Next::Run(1));
    assert_eq!(after_flow(3, 1, true), Next::Run(2));
    assert_eq!(after_flow(3, 2, true), Next::Rest);
    assert_eq!(after_flow(usize::MAX, usize::MAX - 1, true), Next::Rest);
    assert_eq!(after_flow(1, usize::MAX, true), Next::Rest);
}

#[test]
fn a_flow_that_fails_ends_the_wave_for_the_user() {
    assert_eq!(after_flow(3, 0, false), Next::Rest);
    assert_eq!(after_flow(3, 1, false), Next::Rest);
}

#[test]
fn a_wave_without_failures_adds_a_result_for_each_flow() {
    for (flows, failing) in [(4usize, None), (4, Some(2usize)), (1, Some(0)), (0, None)] {
        let mut executed = 0;
        let mut added = 0;
        let mut next = first_flow(flows);
        while let Next::Run(index) = next {
            executed += 1;
            let succeeded = Some(index) != failing;
            if succeeded {
                added += 1;
            }
            next = after_flow(flows, index, succeeded);
        }
        match failing {
            None => {
                assert_eq!(executed, flows);
                assert_eq!(added, flows);
            }
            Some(at) => {
                assert_eq!(executed, at + 1);
                assert_eq!(added, at);
            }
        }
    }
}
