use std::collections::HashSet;

use rshome::sigrok::{
    default_buffer_depth, default_channels, default_max_sample_rate, default_sample_rate,
    SigrokConfig, SigrokTransport, SigrokTriggerMode,
};
use rshome::validated::DependencyGraph;

fn pos(g: &DependencyGraph, n: &str) -> usize {
    g.order.iter().position(|x| x == n).unwrap()
}

#[test]
fn dependency_graph_simple_chain() {
    let mut g = DependencyGraph::new();
    g.add_dependency("A", "B");
    g.add_dependency("B", "C");
    g.compute_order();
    assert!(pos(&g, "C") < pos(&g, "B"), "C should come before B");
    assert!(pos(&g, "B") < pos(&g, "A"), "B should come before A");
}

#[test]
fn dependency_graph_independent_nodes() {
    let mut g = DependencyGraph::new();
    g.add_dependency("sensor", "wifi");
    g.add_dependency("ota", "wifi");
    g.compute_order();
    assert!(pos(&g, "wifi") < pos(&g, "sensor"));
    assert!(pos(&g, "wifi") < pos(&g, "ota"));
}

#[test]
fn dependency_graph_ready_nodes_in_name_order() {
    let mut g = DependencyGraph::new();
    g.add_dependency("sensor", "wifi");
    g.add_dependency("ota", "wifi");
    g.compute_order();
    assert_eq!(g.order, vec!["wifi", "ota", "sensor"]);
}

#[test]
fn dependency_graph_no_edges() {
    let mut g = DependencyGraph::new();
    g.compute_order();
    assert!(g.order.is_empty());
}

#[test]
fn dependency_graph_all_nodes_present_in_order() {
    let mut g = DependencyGraph::new();
    g.add_dependency("api", "wifi");
    g.add_dependency("ota", "wifi");
    g.add_dependency("dht", "sensor");
    g.compute_order();
    let nodes: HashSet<_> = g.order.iter().cloned().collect();
    for expected in ["api", "wifi", "ota", "dht", "sensor"] {
        assert!(nodes.contains(expected), "missing node: {expected}");
    }
}

#[test]
fn dependency_graph_exact_order_and_cycle_tail() {
    let mut g = DependencyGraph::new();
    g.add_dependency("api", "wifi");
    g.add_dependency("ota", "wifi");
    g.add_dependency("x", "y");
    g.add_dependency("y", "x");
    g.compute_order();
    assert_eq!(g.order, vec!["wifi", "api", "ota", "x", "y"]);
}

#[test]
fn add_dependency_appends_to_existing_entry() {
    let mut g = DependencyGraph::new();
    g.add_dependency("api", "wifi");
    g.add_dependency("api", "logger");
    assert_eq!(g.edges.len(), 1);
    assert_eq!(g.edges[0].1, vec!["wifi".to_string(), "logger".to_string()]);
}

#[test]
fn into_validated_sets_channel_count() {
    let cfg = SigrokConfig {
        channels: vec![4, 5, 6, 7, 15, 16, 17, 18],
        sample_rate_hz: default_sample_rate(),
        max_sample_rate: default_max_sample_rate(),
        buffer_depth: default_buffer_depth(),
        trigger_mode: SigrokTriggerMode::default(),
        transport: SigrokTransport::default(),
    };
    let validated = cfg.into_validated();
    assert_eq!(validated.channel_count, 8);
    assert_eq!(validated.channels, vec![4, 5, 6, 7, 15, 16, 17, 18]);
}

#[test]
fn sigrok_defaults() {
    assert_eq!(default_channels().len(), 8);
    assert_eq!(default_sample_rate(), 1_000_000);
    assert_eq!(default_buffer_depth(), 32_768);
    assert!(matches!(SigrokTriggerMode::default(), SigrokTriggerMode::Immediate));
    assert_eq!(SigrokTransport::default(), SigrokTransport::UsbSerialJtag);
}
