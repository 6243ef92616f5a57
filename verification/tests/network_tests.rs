use docker_records::docker::network::DockerNetwork;
use docker_records::docker::network::NetworkContainer;
use docker_records::docker::network::RawNetwork;
use docker_records::docker::traits::Describe;

fn raw(
    id: Option<&str>,
    name: Option<&str>,
    driver: Option<&str>,
    created: Option<&str>,
    scope: Option<&str>,
    internal: Option<bool>,
    attachable: Option<bool>,
    containers: Option<Vec<(String, NetworkContainer)>>,
) -> RawNetwork {
    RawNetwork {
        id: id.map(|s| s.to_string()),
        name: name.map(|s| s.to_string()),
        driver: driver.map(|s| s.to_string()),
        created: created.map(|s| s.to_string()),
        scope: scope.map(|s| s.to_string()),
        internal,
        attachable,
        containers,
    }
}

fn attachment(name: &str) -> NetworkContainer {
    NetworkContainer {
        name: Some(name.to_string()),
        endpoint_id: None,
        mac_address: None,
        ipv4_address: None,
        ipv6_address: None,
    }
}

fn summary_value(record: &DockerNetwork, label: &str) -> String {
    let sections = record.describe();
    assert!(!sections.is_empty());
    let summary = &sections[0];
    assert_eq!(summary.title, "Summary");
    for (l, v) in &summary.items {
        if l == label {
            return v.clone();
        }
    }
    panic!("label {} not found", label);
}

#[test]
fn scenario_sparse_bridge_network() {
    let v = raw(
        Some("abc123"),
        Some("bridge"),
        Some("bridge"),
        Some("2024-01-01T00:00:00Z"),
        Some("local"),
        None,
        None,
        None,
    );
    let r = DockerNetwork::from(v);
    assert_eq!(r.id, "abc123");
    assert_eq!(r.name, "bridge");
    assert_eq!(r.driver, "bridge");
    assert_eq!(r.created_at, "2024-01-01T00:00:00Z");
    assert_eq!(r.scope, "local");
    assert_eq!(r.internal, None);
    assert_eq!(r.attachable, None);
    assert_eq!(r.containers, None);
    assert_eq!(summary_value(&r, "Internal"), "N/A");
    assert_eq!(summary_value(&r, "Attachable"), "N/A");
    assert_eq!(summary_value(&r, "Containers"), "0");
}

#[test]
fn from_all_fields_absent() {
    let r = DockerNetwork::from(raw(None, None, None, None, None, None, None, None));
    assert_eq!(r.id, "");
    assert_eq!(r.name, "");
    assert_eq!(r.driver, "");
    assert_eq!(r.created_at, "");
    assert_eq!(r.scope, "");
    assert_eq!(r.internal, None);
    assert_eq!(r.attachable, None);
    assert_eq!(r.containers, None);
}

#[test]
fn from_arbitrary_subsets() {
    let r = DockerNetwork::from(raw(None, Some("only-name"), None, None, None, None, None, None));
    assert_eq!(r.id, "");
    assert_eq!(r.name, "only-name");

    let r = DockerNetwork::from(raw(
        Some("i1"),
        None,
        None,
        None,
        None,
        Some(false),
        None,
        None,
    ));
    assert_eq!(r.id, "i1");
    assert_eq!(r.name, "");
    assert_eq!(r.internal, Some(false));

    let c = vec![("cid".to_string(), attachment("web"))];
    let r = DockerNetwork::from(raw(
        None,
        None,
        None,
        None,
        Some("swarm"),
        None,
        Some(true),
        Some(c.clone()),
    ));
    assert_eq!(r.scope, "swarm");
    assert_eq!(r.attachable, Some(true));
    assert_eq!(r.containers, Some(c));
}

#[test]
fn describe_bool_rendering() {
    let r = DockerNetwork::from(raw(None, None, None, None, None, Some(true), Some(false), None));
    assert_eq!(summary_value(&r, "Internal"), "true");
    assert_eq!(summary_value(&r, "Attachable"), "false");

    let r = DockerNetwork::from(raw(None, None, None, None, None, None, Some(true), None));
    assert_eq!(summary_value(&r, "Internal"), "N/A");
    assert_eq!(summary_value(&r, "Attachable"), "true");

    let r = DockerNetwork::from(raw(None, None, None, None, None, Some(false), None, None));
    assert_eq!(summary_value(&r, "Internal"), "false");
    assert_eq!(summary_value(&r, "Attachable"), "N/A");
}

#[test]
fn describe_containers_count() {
    let r = DockerNetwork::from(raw(None, None, None, None, None, None, None, None));
    assert_eq!(summary_value(&r, "Containers"), "0");

    let c = vec![
        ("c1".to_string(), attachment("a")),
        ("c2".to_string(), attachment("b")),
        ("c3".to_string(), attachment("c")),
    ];
    let r = DockerNetwork::from(raw(None, None, None, None, None, None, None, Some(c)));
    assert_eq!(summary_value(&r, "Containers"), "3");

    let c = vec![("c1".to_string(), attachment("a"))];
    let r = DockerNetwork::from(raw(None, None, None, None, None, None, None, Some(c)));
    assert_eq!(summary_value(&r, "Containers"), "1");
}

#[test]
fn describe_summary_rows_in_order() {
    let c = vec![("c1".to_string(), attachment("a"))];
    let r = DockerNetwork::from(raw(
        Some("id9"),
        Some("net9"),
        Some("overlay"),
        Some("2023-05-06T07:08:09Z"),
        Some("swarm"),
        Some(true),
        Some(false),
        Some(c),
    ));
    let sections = r.describe();
    assert_eq!(sections.len(), 1);
    let rows: Vec<(String, String)> = sections[0].items.clone();
    let expected = vec![
        ("ID", "id9"),
        ("Name", "net9"),
        ("Driver", "overlay"),
        ("Created At", "2023-05-06T07:08:09Z"),
        ("Scope", "swarm"),
        ("Internal", "true"),
        ("Attachable", "false"),
        ("Containers", "1"),
    ];
    assert_eq!(rows.len(), expected.len());
    for (row, want) in rows.iter().zip(expected.iter()) {
        assert_eq!(row.0, want.0);
        assert_eq!(row.1, want.1);
    }
}

#[test]
fn identity_equals_name() {
    let r = DockerNetwork::from(raw(
        Some("raw-id"),
        Some("display-name"),
        None,
        None,
        None,
        None,
        None,
        None,
    ));
    assert_eq!(r.get_id(), "display-name");
    assert_eq!(r.get_name(), "display-name");
    assert_eq!(r.get_id(), r.get_name());

    let r = DockerNetwork::from(raw(Some("x"), None, None, None, None, None, None, None));
    assert_eq!(r.get_id(), r.get_name());
    assert_eq!(r.get_id(), "");
}

#[test]
fn scenario_list_sorts_zeta_alpha() {
    let raws = vec![
        raw(Some("1"), Some("zeta"), None, None, None, None, None, None),
        raw(Some("2"), Some("alpha"), None, None, None, None, None, None),
    ];
    let records = DockerNetwork::list(raws);
    let names: Vec<&str> = records.iter().map(|r| r.name.as_str()).collect();
    assert_eq!(names, vec!["alpha", "zeta"]);
}

#[test]
fn list_empty_snapshot() {
    let records = DockerNetwork::list(Vec::new());
    assert!(records.is_empty());
}

#[test]
fn list_sorts_any_permutation() {
    let names_in = ["mango", "apple", "zebra", "kiwi", "banana"];
    let raws: Vec<RawNetwork> = names_in
        .iter()
        .map(|n| raw(None, Some(n), None, None, None, None, None, None))
        .collect();
    let records = DockerNetwork::list(raws);
    let names: Vec<&str> = records.iter().map(|r| r.name.as_str()).collect();
    assert_eq!(names, vec!["apple", "banana", "kiwi", "mango", "zebra"]);
}

#[test]
fn list_is_stable_for_equal_names() {
    let raws = vec![
        raw(Some("first"), Some("dup"), None, None, None, None, None, None),
        raw(Some("second"), Some("dup"), None, None, None, None, None, None),
    ];
    let records = DockerNetwork::list(raws);
    let ids: Vec<&str> = records.iter().map(|r| r.id.as_str()).collect();
    assert_eq!(ids, vec!["first", "second"]);
}

#[test]
fn list_of_sorted_input_keeps_order() {
    let raws = vec![
        raw(Some("a"), Some("alpha"), None, None, None, None, None, None),
        raw(Some("b"), Some("beta"), None, None, None, None, None, None),
        raw(Some("c"), Some("gamma"), None, None, None, None, None, None),
    ];
    let once = DockerNetwork::list(raws);
    let again = DockerNetwork::list(
        once.iter()
            .map(|r| {
                raw(
                    Some(r.id.as_str()),
                    Some(r.name.as_str()),
                    None,
                    None,
                    None,
                    None,
                    None,
                    None,
                )
            })
            .collect(),
    );
    assert_eq!(once, again);
}

#[test]
fn scenario_enumeration_failure_propagates_unchanged() {
    let failed: Result<Vec<RawNetwork>, String> = Err("transport error".to_string());
    let out = DockerNetwork::list_outcome(failed);
    assert_eq!(out, Err("transport error".to_string()));
}

#[test]
fn enumeration_success_goes_through_sorted() {
    let raws = vec![
        raw(Some("1"), Some("zeta"), None, None, None, None, None, None),
        raw(Some("2"), Some("alpha"), None, None, None, None, None, None),
    ];
    let ok: Result<Vec<RawNetwork>, String> = Ok(raws);
    let out = DockerNetwork::list_outcome(ok).unwrap();
    let names: Vec<&str> = out.iter().map(|r| r.name.as_str()).collect();
    assert_eq!(names, vec!["alpha", "zeta"]);
}

#[test]
fn list_absent_names_sort_first() {
    let raws = vec![
        raw(Some("named"), Some("alpha"), None, None, None, None, None, None),
        raw(Some("anon"), None, None, None, None, None, None, None),
    ];
    let records = DockerNetwork::list(raws);
    assert_eq!(records[0].id, "anon");
    assert_eq!(records[0].name, "");
    assert_eq!(records[1].id, "named");
}
