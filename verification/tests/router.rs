use gbe::router::RouterState;
use std::collections::HashSet;

#[test]
fn test_tool_id_format() {
    let mut state = RouterState::new(4242);
    let id1 = state.assign_tool_id();
    let id2 = state.assign_tool_id();

    // Should be "PID-SEQ" format
    assert!(id1.contains('-'));
    assert!(id2.contains('-'));

    // Should be different
    assert_ne!(id1, id2);

    // Should have same PID
    let pid1: Vec<&str> = id1.split('-').collect();
    let pid2: Vec<&str> = id2.split('-').collect();
    assert_eq!(pid1[0], pid2[0]);

    // Should have sequential numbers
    let seq1: u64 = pid1[1].parse().unwrap();
    let seq2: u64 = pid2[1].parse().unwrap();
    assert_eq!(seq2, seq1 + 1);
}

#[test]
fn test_data_address_format() {
    let id = "12345-001";
    let addr = RouterState::assign_data_address(id);

    assert_eq!(addr, "unix:///tmp/gbe-12345-001.sock");
}

#[test]
fn test_connection_registration() {
    let mut state = RouterState::new(12345);
    let tool_id = "12345-001".to_string();
    let data_addr = "unix:///tmp/gbe-12345-001.sock".to_string();
    let caps = vec!["pty".to_string()];

    // Register connection
    state.register_connection(tool_id.clone(), data_addr.clone(), caps.clone());

    // Should be retrievable
    let info = state.get_connection(&tool_id).unwrap();
    assert_eq!(info.data_listen_address, data_addr);
    assert_eq!(info.capabilities, caps);

    // Unregister
    state.unregister_connection(&tool_id);

    // Should be gone
    assert!(state.get_connection(&tool_id).is_none());
}

#[test]
fn test_subscriptions() {
    let mut state = RouterState::new(12345);
    let source = "12345-001".to_string();
    let sub1 = "12345-002".to_string();
    let sub2 = "12345-003".to_string();

    // Add subscriptions
    state.add_subscription(&source, sub1.clone());
    state.add_subscription(&source, sub2.clone());

    // Should have 2 subscribers
    assert_eq!(state.subscriber_count(&source), 2);

    // Unregister subscriber
    state.unregister_connection(&sub1);

    // Should have 1 subscriber
    assert_eq!(state.subscriber_count(&source), 1);
}

#[test]
fn test_get_connection_missing() {
    let state = RouterState::new(1);
    assert!(state.get_connection(&"nonexistent".to_string()).is_none());
}

#[test]
fn test_list_tools_empty() {
    let state = RouterState::new(1);
    assert!(state.list_tools().is_empty());
}

#[test]
fn test_list_tools_multiple() {
    let mut state = RouterState::new(1);
    state.register_connection("t1".into(), "addr1".into(), vec!["cap1".into()]);
    state.register_connection("t2".into(), "addr2".into(), vec!["cap2".into()]);
    let tools = state.list_tools();
    assert_eq!(tools.len(), 2);
    let ids: Vec<&str> = tools.iter().map(|t| t.tool_id.as_str()).collect();
    assert!(ids.contains(&"t1"));
    assert!(ids.contains(&"t2"));
}

#[test]
fn test_proxy_address_missing() {
    let state = RouterState::new(1);
    assert!(state.get_proxy_address(&"none".to_string()).is_none());
}

#[test]
fn test_has_proxy_false() {
    let state = RouterState::new(1);
    assert!(!state.has_proxy(&"none".to_string()));
}

#[test]
fn test_subscriber_count_zero() {
    let state = RouterState::new(1);
    assert_eq!(state.subscriber_count(&"no-source".to_string()), 0);
}

#[test]
fn test_unregister_cleans_source_subscriptions() {
    let mut state = RouterState::new(1);
    let source = "src".to_string();
    let sub = "sub".to_string();
    state.register_connection(source.clone(), "addr".into(), vec![]);
    state.add_subscription(&source, sub.clone());
    assert_eq!(state.subscriber_count(&source), 1);

    // Unregister the source tool — its subscription list should be removed
    state.unregister_connection(&source);
    assert_eq!(state.subscriber_count(&source), 0);
}

#[test]
fn test_unregister_removes_from_all_subscription_lists() {
    let mut state = RouterState::new(1);
    let src1 = "src1".to_string();
    let src2 = "src2".to_string();
    let sub = "sub".to_string();

    state.add_subscription(&src1, sub.clone());
    state.add_subscription(&src2, sub.clone());
    assert_eq!(state.subscriber_count(&src1), 1);
    assert_eq!(state.subscriber_count(&src2), 1);

    state.unregister_connection(&sub);
    assert_eq!(state.subscriber_count(&src1), 0);
    assert_eq!(state.subscriber_count(&src2), 0);
}

#[test]
fn test_sequential_tool_ids() {
    let mut state = RouterState::new(777);
    let ids: Vec<String> = (0..5).map(|_| state.assign_tool_id()).collect();
    // All unique
    let unique: HashSet<_> = ids.iter().collect();
    assert_eq!(unique.len(), 5);
}
