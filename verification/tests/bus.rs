use gbe::adapter::FrameSequencer;
use gbe::buffer::BufferError;
use gbe::ids::{make_tool_id, strip_unix_scheme, u64_to_dec_padded3};
use gbe::protocol::{trim_line_end, ControlMessage};
use gbe::relay::{mode_is_supported, ProxyState};
use gbe::ring::RingBuffer;
use gbe::rope::RopeBuffer;
use gbe::router::{
    bad_request_reply, complete_subscribe, handle_eof, handle_message, protocol_error_reply,
    BrokerAction, PeerSession, RouterState,
};
use gbe::textops::str_contains;
use gbe::viewer::{visible_range, App};

fn connect(state: &mut RouterState, session: &mut PeerSession, caps: Vec<String>) -> (String, String) {
    let (reply, action) = handle_message(state, session, ControlMessage::Connect {
        capabilities: caps,
    });
    assert!(matches!(action, BrokerAction::Stay));
    match reply {
        Some(ControlMessage::ConnectAck { tool_id, data_listen_address }) => {
            (tool_id, data_listen_address)
        }
        other => panic!("expected ConnectAck, got {:?}", other),
    }
}

#[test]
fn test_connect_assigns_distinct_increasing_ids() {
    // Every Connect gets a fresh identity "<pid>-<ordinal>" whose numeric
    // suffix strictly increases in acceptance order.
    let mut state = RouterState::new(500);
    let mut suffixes = Vec::new();
    for _ in 0..5 {
        let mut session = PeerSession::new();
        let (id, _) = connect(&mut state, &mut session, vec![]);
        let parts: Vec<&str> = id.split('-').collect();
        assert_eq!(parts.len(), 2);
        assert_eq!(parts[0], "500");
        assert!(parts[1].len() >= 3);
        assert!(parts[1].chars().all(|c| c.is_ascii_digit()));
        suffixes.push(parts[1].parse::<u64>().unwrap());
    }
    for w in suffixes.windows(2) {
        assert!(w[0] < w[1]);
    }
}

#[test]
fn test_connect_ack_addresses() {
    let mut state = RouterState::new(500);
    let mut session = PeerSession::new();
    let (id, addr) = connect(&mut state, &mut session, vec![]);
    assert_eq!(id, "500-001");
    assert_eq!(addr, "unix:///tmp/gbe-500-001.sock");
}

#[test]
fn test_subscribe_spawns_then_reuses_relay() {
    // The first subscription asks for a relay; later subscriptions to the
    // same target are acknowledged with the same connect address.
    let mut state = RouterState::new(500);
    let mut adapter = PeerSession::new();
    let (adapter_id, adapter_addr) = connect(&mut state, &mut adapter, vec![]);

    let mut c1 = PeerSession::new();
    connect(&mut state, &mut c1, vec![]);
    let (reply, action) = handle_message(&mut state, &mut c1, ControlMessage::Subscribe {
        target: adapter_id.clone(),
    });
    assert!(reply.is_none());
    let (source, upstream, listen, caps) = match action {
        BrokerAction::SpawnRelay { source, upstream_address, listen_address, capabilities } => {
            (source, upstream_address, listen_address, capabilities)
        }
        other => panic!("expected SpawnRelay, got {:?}", other),
    };
    assert_eq!(source, adapter_id);
    assert_eq!(upstream, adapter_addr);
    assert_eq!(listen, "unix:///tmp/gbe-proxy-500-003.sock");

    let reply = complete_subscribe(&mut state, source, listen.clone(), upstream, caps, true);
    let addr1 = match reply {
        ControlMessage::SubscribeAck { data_connect_address, .. } => data_connect_address,
        other => panic!("expected SubscribeAck, got {:?}", other),
    };
    assert_eq!(addr1, listen);

    let mut c2 = PeerSession::new();
    connect(&mut state, &mut c2, vec![]);
    let (reply, action) = handle_message(&mut state, &mut c2, ControlMessage::Subscribe {
        target: adapter_id.clone(),
    });
    assert!(matches!(action, BrokerAction::Stay));
    let addr2 = match reply {
        Some(ControlMessage::SubscribeAck { data_connect_address, .. }) => data_connect_address,
        other => panic!("expected SubscribeAck, got {:?}", other),
    };
    assert_eq!(addr1, addr2);
    assert_eq!(state.subscriber_count(&adapter_id), 2);
}

#[test]
fn test_subscribe_spawn_failure_falls_back_to_direct() {
    let mut state = RouterState::new(500);
    let mut adapter = PeerSession::new();
    let (adapter_id, adapter_addr) = connect(&mut state, &mut adapter, vec![]);

    let mut c1 = PeerSession::new();
    connect(&mut state, &mut c1, vec![]);
    let (_, action) = handle_message(&mut state, &mut c1, ControlMessage::Subscribe {
        target: adapter_id.clone(),
    });
    let (source, upstream, listen, caps) = match action {
        BrokerAction::SpawnRelay { source, upstream_address, listen_address, capabilities } => {
            (source, upstream_address, listen_address, capabilities)
        }
        other => panic!("expected SpawnRelay, got {:?}", other),
    };
    let reply = complete_subscribe(&mut state, source, listen, upstream, caps, false);
    match reply {
        ControlMessage::SubscribeAck { data_connect_address, .. } => {
            assert_eq!(data_connect_address, adapter_addr);
        }
        other => panic!("expected SubscribeAck, got {:?}", other),
    }
    // No relay was recorded, so nothing to reuse.
    assert!(!state.has_proxy(&adapter_id));
}

#[test]
fn test_subscribe_to_unknown_tool() {
    let mut state = RouterState::new(500);
    let mut session = PeerSession::new();
    connect(&mut state, &mut session, vec![]);
    let (reply, action) = handle_message(&mut state, &mut session, ControlMessage::Subscribe {
        target: "99999-999".to_string(),
    });
    assert!(matches!(action, BrokerAction::Stay));
    match reply {
        Some(ControlMessage::Error { code, message }) => {
            assert_eq!(code, "NOT_FOUND");
            assert!(message.contains("not found"));
        }
        other => panic!("expected Error, got {:?}", other),
    }
}

#[test]
fn test_subscribe_to_dead_tool() {
    // After a tool disconnects, subscribing to its former identity fails.
    let mut state = RouterState::new(500);
    let mut adapter = PeerSession::new();
    let (adapter_id, _) = connect(&mut state, &mut adapter, vec![]);
    let (reply, action) = handle_message(&mut state, &mut adapter, ControlMessage::Disconnect);
    assert!(reply.is_none());
    assert!(matches!(action, BrokerAction::CloseConnection));

    let mut consumer = PeerSession::new();
    connect(&mut state, &mut consumer, vec![]);
    let (reply, _) = handle_message(&mut state, &mut consumer, ControlMessage::Subscribe {
        target: adapter_id,
    });
    match reply {
        Some(ControlMessage::Error { code, message }) => {
            assert_eq!(code, "NOT_FOUND");
            assert!(message.contains("not found"));
        }
        other => panic!("expected Error, got {:?}", other),
    }
}

#[test]
fn test_query_capabilities() {
    let mut state = RouterState::new(500);
    let mut a = PeerSession::new();
    let (a_id, _) = connect(&mut state, &mut a, vec!["pty".to_string(), "color".to_string()]);
    let mut b = PeerSession::new();
    connect(&mut state, &mut b, vec![]);
    let (reply, _) = handle_message(&mut state, &mut b, ControlMessage::QueryCapabilities {
        target: a_id,
    });
    match reply {
        Some(ControlMessage::CapabilitiesResponse { capabilities }) => {
            assert_eq!(capabilities, vec!["pty", "color"]);
        }
        other => panic!("expected CapabilitiesResponse, got {:?}", other),
    }
}

#[test]
fn test_query_tools_snapshot() {
    let mut state = RouterState::new(500);
    let mut a = PeerSession::new();
    let (a_id, _) = connect(&mut state, &mut a, vec!["pty".to_string()]);
    let (reply, _) = handle_message(&mut state, &mut a, ControlMessage::QueryTools);
    match reply {
        Some(ControlMessage::ToolsResponse { tools }) => {
            assert_eq!(tools.len(), 1);
            assert_eq!(tools[0].tool_id, a_id);
            assert_eq!(tools[0].capabilities, vec!["pty"]);
        }
        other => panic!("expected ToolsResponse, got {:?}", other),
    }
}

#[test]
fn test_message_before_connect_is_protocol_error() {
    let mut state = RouterState::new(500);
    let mut session = PeerSession::new();
    let (reply, action) = handle_message(&mut state, &mut session, ControlMessage::Subscribe {
        target: "500-001".to_string(),
    });
    assert!(matches!(action, BrokerAction::CloseConnection));
    match reply {
        Some(ControlMessage::Error { code, .. }) => assert_eq!(code, "PROTOCOL"),
        other => panic!("expected Error, got {:?}", other),
    }
}

#[test]
fn test_unsubscribe_is_advisory() {
    let mut state = RouterState::new(500);
    let mut session = PeerSession::new();
    let (id, _) = connect(&mut state, &mut session, vec![]);
    let (reply, action) = handle_message(&mut state, &mut session, ControlMessage::Unsubscribe {
        target: id,
    });
    assert!(reply.is_none());
    assert!(matches!(action, BrokerAction::Stay));
}

#[test]
fn test_eof_unregisters() {
    let mut state = RouterState::new(500);
    let mut session = PeerSession::new();
    let (id, _) = connect(&mut state, &mut session, vec![]);
    assert!(state.get_connection(&id).is_some());
    handle_eof(&mut state, &mut session);
    assert!(state.get_connection(&id).is_none());
    assert!(session.tool_id.is_none());
}

#[test]
fn test_error_reply_codes() {
    match protocol_error_reply() {
        ControlMessage::Error { code, .. } => assert_eq!(code, "PROTOCOL"),
        other => panic!("expected Error, got {:?}", other),
    }
    match bad_request_reply() {
        ControlMessage::Error { code, .. } => assert_eq!(code, "BAD_REQUEST"),
        other => panic!("expected Error, got {:?}", other),
    }
}

#[test]
fn test_ring_eviction_keeps_last_capacity_in_order() {
    // Pushing more lines than the capacity keeps exactly the last
    // `capacity` pushed, in push order, while the total keeps counting.
    let mut buf = RingBuffer::new(3);
    for i in 1..=7 {
        buf.push(format!("line {i}"));
    }
    assert_eq!(buf.len(), 3);
    assert_eq!(buf.total_pushed(), 7);
    assert_eq!(buf.lines(), vec!["line 5", "line 6", "line 7"]);
}

#[test]
fn test_rope_insert_then_delete_restores() {
    // Deleting exactly the inserted span restores the previous content.
    let mut buf = RopeBuffer::with_content("hello world");
    buf.insert(5, " dear").unwrap();
    assert_eq!(buf.content(), "hello dear world");
    buf.delete(5..10).unwrap();
    assert_eq!(buf.content(), "hello world");

    let mut empty = RopeBuffer::new();
    empty.insert(0, "abc").unwrap();
    empty.delete(0..3).unwrap();
    assert_eq!(empty.content(), "");
}

#[test]
fn test_buffer_error_variants() {
    let mut buf = RopeBuffer::with_content("hello");
    assert!(matches!(buf.insert(10, "x"), Err(BufferError::OutOfBounds(10))));
    assert!(matches!(buf.delete(3..2), Err(BufferError::InvalidRange(_))));
    assert!(matches!(buf.delete(0..9), Err(BufferError::OutOfBounds(9))));
    assert!(matches!(buf.slice(2..1), Err(BufferError::InvalidRange(_))));
    assert_eq!(buf.content(), "hello");
}

#[test]
fn test_memory_usage_exact() {
    // One byte per character plus a 24-byte header per resident line.
    let mut buf = RingBuffer::new(10);
    buf.push("test".to_string());
    buf.push("data".to_string());
    assert_eq!(buf.memory_usage(), 4 + 24 + 4 + 24);
}

#[test]
fn test_tool_id_padding() {
    assert_eq!(make_tool_id(12345, 1), "12345-001");
    assert_eq!(make_tool_id(12345, 12), "12345-012");
    assert_eq!(make_tool_id(12345, 123), "12345-123");
    assert_eq!(make_tool_id(12345, 1234), "12345-1234");
    assert_eq!(u64_to_dec_padded3(0), "000");
}

#[test]
fn test_strip_unix_scheme() {
    assert_eq!(strip_unix_scheme("unix:///tmp/gbe-1-001.sock"), Some("/tmp/gbe-1-001.sock"));
    assert_eq!(strip_unix_scheme("tcp://host:1"), None);
    assert_eq!(strip_unix_scheme("unix:/"), None);
    assert_eq!(strip_unix_scheme("unix://"), Some(""));
}

#[test]
fn test_trim_line_end() {
    assert_eq!(trim_line_end("{\"type\":\"Disconnect\"}\n"), "{\"type\":\"Disconnect\"}");
    assert_eq!(trim_line_end("abc \r\n"), "abc");
    assert_eq!(trim_line_end("   "), "");
    assert_eq!(trim_line_end("abc"), "abc");
}

#[test]
fn test_proxy_state_ids_and_eviction() {
    let mut p = ProxyState::new();
    let a = p.add_downstream();
    let b = p.add_downstream();
    let c = p.add_downstream();
    assert_eq!((a, b, c), (1, 2, 3));
    assert_eq!(p.downstream_count(), 3);

    p.evict_failed(&vec![b]);
    assert_eq!(p.downstream_count(), 2);

    p.remove_downstream(a);
    assert_eq!(p.downstream_count(), 1);

    let d = p.add_downstream();
    assert_eq!(d, 4);
    assert_eq!(p.downstream_count(), 2);
}

#[test]
fn test_mode_tokens() {
    assert!(mode_is_supported("framed"));
    assert!(mode_is_supported("raw"));
    assert!(!mode_is_supported("stream"));
    assert!(!mode_is_supported(""));
}

#[test]
fn test_frame_sequencer_contiguous() {
    // One shared counter across both streams: sequence numbers are
    // contiguous from 0.
    let mut seq = FrameSequencer::new();
    let f0 = seq.frame_stdout_line(b"1".to_vec());
    let f1 = seq.frame_stderr_line(&b"oops".to_vec());
    let f2 = seq.frame_stdout_line(b"2".to_vec());
    assert_eq!(f0.seq, 0);
    assert_eq!(f1.seq, 1);
    assert_eq!(f2.seq, 2);
    assert_eq!(f0.payload, b"1\n".to_vec());
    assert_eq!(f1.payload, b"[stderr] oops\n".to_vec());
    assert_eq!(f2.payload, b"2\n".to_vec());
}

#[test]
fn test_viewer_scroll_state() {
    let mut app = App::new();
    assert!(app.follow_mode);
    app.scroll_up();
    assert!(app.follow_mode);
    assert_eq!(app.scroll_offset, 0);
    app.scroll_down();
    assert!(!app.follow_mode);
    assert_eq!(app.scroll_offset, 1);
    app.scroll_up();
    assert_eq!(app.scroll_offset, 0);
    app.toggle_follow_mode();
    assert!(app.follow_mode);
    app.scroll_down();
    app.scroll_to_bottom();
    assert!(app.follow_mode);
    assert_eq!(app.scroll_offset, 0);
}

#[test]
fn test_visible_range() {
    assert_eq!(visible_range(100, 10, true, 0), (90, 100));
    assert_eq!(visible_range(5, 10, true, 0), (0, 5));
    assert_eq!(visible_range(100, 10, false, 20), (20, 30));
    assert_eq!(visible_range(100, 10, false, 95), (95, 100));
    assert_eq!(visible_range(100, 10, false, 200), (100, 100));
    assert_eq!(visible_range(0, 10, false, 0), (0, 0));
}

#[test]
fn test_str_contains_cases() {
    assert!(str_contains("hello world", "lo wo"));
    assert!(str_contains("hello", ""));
    assert!(str_contains("hello", "hello"));
    assert!(!str_contains("hello", "hello!"));
    assert!(!str_contains("abc", "abd"));
    assert!(str_contains("aaab", "aab"));
}
