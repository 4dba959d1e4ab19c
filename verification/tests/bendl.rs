use rustrecom::bendl::{
    prevalidate_key, reorder_graph_json, try_reorder_graph_json, BendlGraphOrder, ReorderError,
};
use serde_json::Value;

fn path_graph_json() -> Vec<u8> {
    String::from(
        "{\"directed\":false,\"multigraph\":false,\"graph\":[],\"nodes\":[\
         {\"id\":0,\"population\":1,\"geoid\":\"c\"},\
         {\"id\":1,\"population\":1,\"geoid\":\"a\"},\
         {\"id\":2,\"population\":1,\"geoid\":\"b\"}],\
         \"adjacency\":[[{\"id\":1}],[{\"id\":0},{\"id\":2}],[{\"id\":1}]]}",
    )
    .into_bytes()
}

#[test]
fn parse_recognizes_every_form() {
    assert_eq!(BendlGraphOrder::parse("none").unwrap(), BendlGraphOrder::Verbatim);
    assert_eq!(BendlGraphOrder::parse("rcm").unwrap(), BendlGraphOrder::Rcm);
    assert_eq!(BendlGraphOrder::parse("mlc").unwrap(), BendlGraphOrder::Mlc);
    assert_eq!(
        BendlGraphOrder::parse("key:GEOID").unwrap(),
        BendlGraphOrder::Key("GEOID".to_string())
    );
    assert!(BendlGraphOrder::parse("key:").is_err());
    assert!(BendlGraphOrder::parse("bogus").is_err());
}

#[test]
fn parse_errors_name_the_value() {
    assert_eq!(
        BendlGraphOrder::parse("key:").unwrap_err(),
        "--bendl-graph-order 'key:' requires an attribute name, e.g. 'key:GEOID'"
    );
    assert_eq!(
        BendlGraphOrder::parse("bogus").unwrap_err(),
        "invalid --bendl-graph-order 'bogus': expected one of none, rcm, mlc, key:<attr>"
    );
}

#[test]
fn label_round_trips_the_provenance_value() {
    assert_eq!(BendlGraphOrder::Verbatim.label(), "none");
    assert_eq!(BendlGraphOrder::Rcm.label(), "rcm");
    assert_eq!(BendlGraphOrder::Mlc.label(), "mlc");
    assert_eq!(BendlGraphOrder::Key("X".into()).label(), "key:X");
}

#[test]
fn labels_are_read_back() {
    for order in [
        BendlGraphOrder::Verbatim,
        BendlGraphOrder::Rcm,
        BendlGraphOrder::Mlc,
        BendlGraphOrder::Key("county".to_string()),
    ] {
        assert_eq!(BendlGraphOrder::parse(&order.label()).unwrap(), order);
        assert_eq!(order.is_none(), order == BendlGraphOrder::Verbatim);
    }
}

#[test]
fn none_returns_input_verbatim() {
    let bytes = path_graph_json();
    let out = reorder_graph_json(&bytes, &BendlGraphOrder::Verbatim).unwrap();
    assert_eq!(out, bytes, "order=none must not re-serialize the graph");
}

#[test]
fn key_sort_orders_by_attribute_and_renumbers_ids() {
    let bytes = path_graph_json();
    let out = reorder_graph_json(&bytes, &BendlGraphOrder::Key("geoid".into())).unwrap();
    let data: Value = serde_json::from_slice(&out).unwrap();
    let nodes = data["nodes"].as_array().unwrap();
    let geoids: Vec<&str> = nodes.iter().map(|n| n["geoid"].as_str().unwrap()).collect();
    assert_eq!(geoids, vec!["a", "b", "c"]);
    let ids: Vec<i64> = nodes.iter().map(|n| n["id"].as_i64().unwrap()).collect();
    assert_eq!(ids, vec![0, 1, 2]);
}

#[test]
fn key_missing_on_a_node_errors_before_sorting() {
    let bytes = String::from(
        "{\"directed\":false,\"multigraph\":false,\"graph\":[],\"nodes\":[\
         {\"id\":0,\"population\":1,\"geoid\":\"a\"},{\"id\":1,\"population\":1}],\
         \"adjacency\":[[{\"id\":1}],[{\"id\":0}]]}",
    )
    .into_bytes();
    let err = reorder_graph_json(&bytes, &BendlGraphOrder::Key("geoid".into())).unwrap_err();
    assert_eq!(err, ReorderError::MissingKey("geoid".to_string(), 1));
    assert_eq!(prevalidate_key(&bytes, "geoid").unwrap_err(), err);
    assert!(err.message().contains("geoid"));
    assert_eq!(
        err.message(),
        "--bendl-graph-order 'key:geoid' requires attribute 'geoid' on every node, \
         but node 1 is missing it"
    );
}

#[test]
fn a_document_without_nodes_cannot_be_sorted_by_key() {
    let err = prevalidate_key(&b"{}".to_vec(), "geoid").unwrap_err();
    assert_eq!(err, ReorderError::NoNodes);
    assert_eq!(err.message(), "graph JSON has no 'nodes' array to reorder");
    assert!(matches!(
        prevalidate_key(&b"not json".to_vec(), "geoid").unwrap_err(),
        ReorderError::NotJson(_)
    ));
}

#[test]
fn keys_are_found_behind_pointer_characters() {
    let bytes = b"{\"nodes\":[{\"id\":0,\"a/b~c\":1}]}".to_vec();
    assert!(prevalidate_key(&bytes, "a/b~c").is_ok());
    assert!(prevalidate_key(&bytes, "a").is_err());
}

#[test]
fn topological_orders_keep_every_node() {
    for order in [BendlGraphOrder::Rcm, BendlGraphOrder::Mlc] {
        let bytes = path_graph_json();
        let out = try_reorder_graph_json(&bytes, &order).unwrap().unwrap();
        assert_ne!(out, bytes);
        let data: Value = serde_json::from_slice(&out).unwrap();
        let mut geoids: Vec<String> = data["nodes"]
            .as_array()
            .unwrap()
            .iter()
            .map(|n| n["geoid"].as_str().unwrap().to_string())
            .collect();
        geoids.sort();
        assert_eq!(geoids, vec!["a", "b", "c"]);
    }
    assert!(matches!(
        try_reorder_graph_json(&b"7".to_vec(), &BendlGraphOrder::Rcm),
        Some(Err(ReorderError::Unsorted(_)))
    ));
}

#[test]
fn a_missing_key_is_named_whatever_the_other_values_are() {
    let bytes = String::from(
        "{\"nodes\":[{\"id\":0,\"k\":7},{\"id\":1,\"k\":\"x\"},{\"id\":2}],\
         \"adjacency\":[[],[],[]]}",
    )
    .into_bytes();
    let err = try_reorder_graph_json(&bytes, &BendlGraphOrder::Key("k".into()))
        .unwrap()
        .unwrap_err();
    assert_eq!(err, ReorderError::MissingKey("k".to_string(), 2));
    assert!(err.message().contains("'k'"));
}

#[test]
fn graphs_without_an_order_are_not_sorted() {
    let mixed = String::from(
        "{\"nodes\":[{\"id\":0,\"k\":\"1a\"},{\"id\":1,\"k\":9}],\"adjacency\":[[],[]]}",
    )
    .into_bytes();
    assert!(try_reorder_graph_json(&mixed, &BendlGraphOrder::Key("k".into())).is_none());
    let directed = String::from("{\"directed\":true,\"nodes\":[],\"adjacency\":[]}").into_bytes();
    assert!(try_reorder_graph_json(&directed, &BendlGraphOrder::Mlc).is_none());
    assert!(try_reorder_graph_json(&directed, &BendlGraphOrder::Rcm).is_some());
    assert!(try_reorder_graph_json(&b"[]".to_vec(), &BendlGraphOrder::Mlc).is_none());
    let unread = String::from(
        "{\"directed\":true,\"nodes\":[{\"id\":0},{\"id\":1},{\"id\":2}],\
         \"adjacency\":[[{\"id\":1}],[{\"id\":2},{\"id\":2}],[{\"id\":1}]],\"note\":1e999}",
    )
    .into_bytes();
    assert!(try_reorder_graph_json(&unread, &BendlGraphOrder::Mlc).is_none());
    assert!(matches!(
        try_reorder_graph_json(&unread, &BendlGraphOrder::Key("id".into())),
        Some(Err(ReorderError::NotJson(_)))
    ));
}
