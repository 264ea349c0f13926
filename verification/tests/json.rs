use gbe::protocol::{ControlMessage, ToolInfo};

fn parse(json: &str) -> serde_json::Value {
    serde_json::from_str(json).expect("encoder must produce valid JSON")
}

#[test]
fn test_control_message_connect() {
    let msg = ControlMessage::Connect {
        capabilities: vec!["pty".to_string(), "color".to_string()],
    };

    let json = msg.to_json().unwrap();
    let parsed = parse(&json);

    assert_eq!(parsed["type"], "Connect");
    let capabilities = parsed["capabilities"].as_array().unwrap();
    assert_eq!(capabilities.len(), 2);
    assert_eq!(capabilities[0], "pty");
    assert_eq!(capabilities[1], "color");
}

#[test]
fn test_control_message_connect_ack() {
    let msg = ControlMessage::ConnectAck {
        tool_id: "12345-001".to_string(),
        data_listen_address: "unix:///tmp/gbe-12345-001.sock".to_string(),
    };

    let json = msg.to_json().unwrap();
    let parsed = parse(&json);

    assert_eq!(parsed["type"], "ConnectAck");
    assert_eq!(parsed["tool_id"], "12345-001");
    assert_eq!(parsed["data_listen_address"], "unix:///tmp/gbe-12345-001.sock");
}

#[test]
fn test_control_message_subscribe() {
    let msg = ControlMessage::Subscribe {
        target: "12345-002".to_string(),
    };

    let json = msg.to_json().unwrap();
    let parsed = parse(&json);

    assert_eq!(parsed["type"], "Subscribe");
    assert_eq!(parsed["target"], "12345-002");
}

#[test]
fn test_control_message_error() {
    let msg = ControlMessage::Error {
        code: "NOT_FOUND".to_string(),
        message: "Tool not found".to_string(),
    };

    let json = msg.to_json().unwrap();
    let parsed = parse(&json);

    assert_eq!(parsed["type"], "Error");
    assert_eq!(parsed["code"], "NOT_FOUND");
    assert_eq!(parsed["message"], "Tool not found");
}

#[test]
fn test_json_exact_text() {
    assert_eq!(ControlMessage::Disconnect.to_json().unwrap(), "{\"type\":\"Disconnect\"}");
    assert_eq!(ControlMessage::QueryTools.to_json().unwrap(), "{\"type\":\"QueryTools\"}");
    let msg = ControlMessage::Connect { capabilities: vec!["pty".to_string()] };
    assert_eq!(msg.to_json().unwrap(), "{\"type\":\"Connect\",\"capabilities\":[\"pty\"]}");
    let msg = ControlMessage::Connect { capabilities: vec![] };
    assert_eq!(msg.to_json().unwrap(), "{\"type\":\"Connect\",\"capabilities\":[]}");
}

#[test]
fn test_json_escaping() {
    let msg = ControlMessage::Error {
        code: "BAD_REQUEST".to_string(),
        message: "say \"hi\"\\ twice\non two lines\x01".to_string(),
    };
    let json = msg.to_json().unwrap();
    assert!(json.contains("\\\"hi\\\""));
    assert!(json.contains("\\\\ twice"));
    assert!(json.contains("\\n"));
    assert!(json.contains("\\u0001"));

    let parsed = parse(&json);
    assert_eq!(parsed["message"], "say \"hi\"\\ twice\non two lines\x01");
}

#[test]
fn test_json_tools_response() {
    let msg = ControlMessage::ToolsResponse {
        tools: vec![
            ToolInfo { tool_id: "1-001".to_string(), capabilities: vec!["pty".to_string()] },
            ToolInfo { tool_id: "1-002".to_string(), capabilities: vec![] },
        ],
    };
    let json = msg.to_json().unwrap();
    assert_eq!(
        json,
        "{\"type\":\"ToolsResponse\",\"tools\":[{\"tool_id\":\"1-001\",\"capabilities\":[\"pty\"]},{\"tool_id\":\"1-002\",\"capabilities\":[]}]}"
    );
}

#[test]
fn test_json_bytes_match_text() {
    let msg = ControlMessage::Subscribe { target: "1-001".to_string() };
    let text = msg.to_json().unwrap();
    let bytes = msg.to_json_bytes().unwrap();
    assert_eq!(bytes, text.as_bytes());
}
