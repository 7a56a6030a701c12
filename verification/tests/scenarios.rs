use l4s_bench::generate::{
    build_scenario, generate_scenarios, has_client_total, parse_client_group, parse_weights,
    update_recursive, GenerationError,
};
use l4s_bench::scenario::{IperfConfig, Scenario, ScenarioConfig};

fn partial(entries: &[(&str, u32)]) -> Vec<(String, u32)> {
    entries.iter().map(|(n, c)| (n.to_string(), *c)).collect()
}

fn names(v: &[&str]) -> Vec<String> {
    v.iter().map(|s| s.to_string()).collect()
}

#[test]
fn client_config_sets_the_algorithm() {
    let c = ScenarioConfig::from("prague");
    assert_eq!(c.docker.sysctls, vec!["net.ipv4.tcp_congestion_control=prague"]);
    assert_eq!(c.iperf.bitrate, "0");
    assert_eq!(IperfConfig::default().bitrate, "0");
}

#[test]
fn new_scenario_has_no_clients() {
    let s = Scenario::new("100mbit".to_string(), "10ms 1ms".to_string());
    assert_eq!(s.description(), "No clients.");
    assert!(s.configs().is_empty());
    assert!(s.instances().is_empty());
    assert_eq!(s.router().max_bandwidth, "100mbit");
    assert_eq!(s.router().delay_config, "10ms 1ms");
    assert_eq!(
        s.template_generated_info(),
        "This file is generated from a template. Do not edit directly. Instead, edit the template with a `.j2` extension."
    );
    assert_eq!(s.get_filename(), "no-clients@100mbit+10ms+1ms.json");
}

#[test]
fn instances_are_numbered_per_kind() {
    let mut s = Scenario::new("10mbit".to_string(), "10ms 1ms".to_string());
    s.add_instances("cubic", ScenarioConfig::from("cubic"), 2);
    s.add_instances("bbr", ScenarioConfig::from("bbr"), 1);
    let inst: Vec<(String, String)> = s.instances().clone();
    assert_eq!(
        inst,
        vec![
            ("cubic0".to_string(), "cubic".to_string()),
            ("cubic1".to_string(), "cubic".to_string()),
            ("bbr0".to_string(), "bbr".to_string()),
        ]
    );
    let kinds: Vec<&str> = s.configs().iter().map(|(k, _)| k.as_str()).collect();
    assert_eq!(kinds, vec!["cubic", "bbr"]);
}

#[test]
fn adding_a_kind_again_replaces_its_configuration() {
    let mut s = Scenario::new("10mbit".to_string(), "d".to_string());
    s.add_instances("cubic", ScenarioConfig::from("cubic"), 1);
    s.add_instances("cubic", ScenarioConfig::from("reno"), 3);
    assert_eq!(s.configs().len(), 1);
    assert_eq!(s.configs()[0].1.docker.sysctls, vec!["net.ipv4.tcp_congestion_control=reno"]);
    assert_eq!(s.instances().len(), 3);
}

#[test]
fn single_kind_description_and_file_name() {
    let mut s = Scenario::new("1000mbit".to_string(), "10ms 1ms".to_string());
    s.add_instances("bbr", ScenarioConfig::from("bbr"), 10);
    s.finalize();
    assert_eq!(s.description(), "10 bbrs sharing a common 1000mbit link.");
    assert_eq!(s.get_filename(), "10bbr@1000mbit+10ms+1ms.json");
}

#[test]
fn one_instance_has_no_plural() {
    let mut s = Scenario::new("50mbit".to_string(), "10ms 1ms".to_string());
    s.add_instances("prague", ScenarioConfig::from("prague"), 1);
    s.finalize();
    assert_eq!(s.description(), "1 prague sharing a common 50mbit link.");
}

#[test]
fn file_name_sorts_the_groups() {
    let mut s = Scenario::new("100mbit".to_string(), "10ms 1ms".to_string());
    s.add_instances("prague", ScenarioConfig::from("prague"), 7);
    s.add_instances("cubic", ScenarioConfig::from("cubic"), 1);
    s.add_instances("bbr", ScenarioConfig::from("bbr"), 1);
    assert_eq!(s.get_filename(), "1bbr+1cubic+7prague@100mbit+10ms+1ms.json");
    s.finalize();
    let d = s.description();
    assert!(d.ends_with(" sharing a common 100mbit link."));
    assert!(d.contains("7 pragues"));
    assert!(d.contains("1 cubic"));
    assert!(d.contains("1 bbr"));
}

#[test]
fn finalize_without_clients() {
    let mut s = Scenario::new("10mbit".to_string(), "x".to_string());
    s.add_instances("cubic", ScenarioConfig::from("cubic"), 0);
    s.finalize();
    assert_eq!(s.description(), "No clients.");
}

#[test]
fn client_group_parsing() {
    assert_eq!(parse_client_group("cubic, bbr,,prague ").unwrap(), names(&["cubic", "bbr", "prague"]));
    assert_eq!(parse_client_group("cubic").unwrap(), names(&["cubic"]));
    assert_eq!(parse_client_group(" , ,").unwrap_err(), "client list cannot be empty");
    assert_eq!(parse_client_group("").unwrap_err(), "client list cannot be empty");
}

#[test]
fn weights_parsing() {
    assert_eq!(parse_weights("90-10").unwrap(), vec![90, 10]);
    assert_eq!(parse_weights("1").unwrap(), vec![1]);
    assert_eq!(parse_weights("72-18-10").unwrap(), vec![72, 18, 10]);
    assert_eq!(parse_weights("90-x").unwrap_err(), "invalid weights list: 90-x");
    assert_eq!(parse_weights("").unwrap_err(), "invalid weights list: ");
    assert_eq!(parse_weights("5000000000").unwrap_err(), "invalid weights list: 5000000000");
}

#[test]
fn combinations_pick_one_algorithm_per_group() {
    let groups = vec![names(&["cubic", "bbr"]), names(&["prague"])];
    let r = update_recursive(&vec![90, 10], &vec![9, 1], &groups).ok().unwrap();
    assert_eq!(r, vec![partial(&[("cubic", 9), ("prague", 1)]), partial(&[("bbr", 9), ("prague", 1)])]);
}

#[test]
fn combination_count_is_the_product_of_group_sizes() {
    let groups = vec![names(&["a", "b"]), names(&["c", "d", "e"]), names(&["f", "g"])];
    let r = update_recursive(&vec![1, 1, 1], &vec![1, 2, 3], &groups).ok().unwrap();
    assert_eq!(r.len(), 12);
    assert_eq!(r[0], partial(&[("a", 1), ("c", 2), ("f", 3)]));
    assert_eq!(r[11], partial(&[("b", 1), ("e", 2), ("g", 3)]));
    for c in &r {
        assert_eq!(c.len(), 3);
    }
}

#[test]
fn groups_without_instances_are_left_out() {
    let groups = vec![names(&["cubic", "bbr"]), names(&["prague"])];
    let r = update_recursive(&vec![100, 0], &vec![10, 0], &groups).ok().unwrap();
    assert_eq!(r, vec![partial(&[("cubic", 10)]), partial(&[("bbr", 10)])]);
}

#[test]
fn no_group_gives_one_empty_scenario() {
    let r = update_recursive(&vec![], &vec![], &Vec::new()).ok().unwrap();
    assert_eq!(r, vec![Vec::<(String, u32)>::new()]);
}

#[test]
fn mismatched_weights_are_rejected() {
    let groups = vec![names(&["cubic"])];
    match update_recursive(&vec![90, 10], &vec![9, 1], &groups) {
        Err(e) => {
            let GenerationError::InvalidWeights(label, n, m) = &e;
            assert_eq!(label, "90-10");
            assert_eq!((*n, *m), (2, 1));
            assert_eq!(
                e.message(),
                "Weight configuration \"90-10\" assumes 2 client types and cannot be applied to scenario with 1 client types"
            );
        }
        Ok(_) => panic!("expected an error"),
    }
}

#[test]
fn client_totals() {
    assert!(has_client_total(&partial(&[("cubic", 9), ("prague", 1)]), 10));
    assert!(!has_client_total(&partial(&[("cubic", 9)]), 10));
    assert!(has_client_total(&partial(&[]), 0));
    assert!(!has_client_total(&partial(&[("a", u32::MAX), ("b", 1)]), 0));
}

#[test]
fn built_scenario_matches_its_partial() {
    let s = build_scenario(&partial(&[("bbr", 1), ("cubic", 1), ("prague", 7)]), 1000);
    assert_eq!(s.router().max_bandwidth, "1000mbit");
    assert_eq!(s.router().delay_config, "10ms 1ms");
    assert_eq!(s.instances().len(), 9);
    assert_eq!(s.configs().len(), 3);
    assert_eq!(s.get_filename(), "1bbr+1cubic+7prague@1000mbit+10ms+1ms.json");
    assert!(s.description().ends_with("sharing a common 1000mbit link."));
}

#[test]
fn scenarios_for_every_bandwidth() {
    let partials = vec![partial(&[("cubic", 10)]), partial(&[("bbr", 5), ("prague", 5)])];
    let all = generate_scenarios(&vec![10, 50], &partials);
    assert_eq!(all.len(), 2);
    assert_eq!(all[0].len(), 2);
    assert_eq!(all[0][0].get_filename(), "10cubic@10mbit+10ms+1ms.json");
    assert_eq!(all[0][1].get_filename(), "10cubic@50mbit+10ms+1ms.json");
    assert_eq!(all[1][1].get_filename(), "5bbr+5prague@50mbit+10ms+1ms.json");
    assert_eq!(all[0][0].description(), "10 cubics sharing a common 10mbit link.");
}

#[test]
fn file_name_does_not_depend_on_insertion_order() {
    let mut a = Scenario::new("100mbit".to_string(), "10ms 1ms".to_string());
    a.add_instances("prague", ScenarioConfig::from("prague"), 2);
    a.add_instances("cubic", ScenarioConfig::from("cubic"), 3);
    a.add_instances("bbr", ScenarioConfig::from("bbr"), 2);
    let mut b = Scenario::new("100mbit".to_string(), "10ms 1ms".to_string());
    b.add_instances("bbr", ScenarioConfig::from("bbr"), 2);
    b.add_instances("prague", ScenarioConfig::from("prague"), 2);
    b.add_instances("cubic", ScenarioConfig::from("cubic"), 3);
    assert_eq!(a.get_filename(), b.get_filename());
    assert_eq!(a.get_filename(), "2bbr+2prague+3cubic@100mbit+10ms+1ms.json");
}

#[test]
fn instance_names_stay_unique() {
    let mut s = Scenario::new("10mbit".to_string(), "d".to_string());
    s.add_instances("a", ScenarioConfig::from("a"), 11);
    s.add_instances("a1", ScenarioConfig::from("a1"), 1);
    // "a1" + "0" collides with the eleventh instance of "a" ("a10"): the later kind wins
    let mut names: Vec<&str> = s.instances().iter().map(|(k, _)| k.as_str()).collect();
    assert_eq!(names.len(), 11);
    names.sort();
    names.dedup();
    assert_eq!(names.len(), 11);
    let a10 = s.instances().iter().find(|(k, _)| k == "a10").unwrap();
    assert_eq!(a10.1, "a1");
}

#[test]
fn adding_the_same_instances_twice_is_adding_them_once() {
    let mut once = Scenario::new("10mbit".to_string(), "d".to_string());
    once.add_instances("bbr", ScenarioConfig::from("bbr"), 3);
    let mut twice = Scenario::new("10mbit".to_string(), "d".to_string());
    twice.add_instances("bbr", ScenarioConfig::from("bbr"), 3);
    twice.add_instances("bbr", ScenarioConfig::from("bbr"), 3);
    assert_eq!(once.instances(), twice.instances());
    assert_eq!(once.configs().len(), twice.configs().len());
    assert_eq!(once.configs()[0].1.docker.sysctls, twice.configs()[0].1.docker.sysctls);
    assert_eq!(once.get_filename(), twice.get_filename());
}
