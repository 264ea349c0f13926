//! Control-plane message types and the protocol error type.
//!
//! Control messages travel as tagged JSON objects, one per LF-terminated
//! line; the textual encoding itself is handled outside the verified
//! library, which works on the decoded values. This module also provides
//! the line-trimming step of the newline-delimited framing.

use vstd::prelude::*;

verus! {

/// Tool identifier, shaped `"<broker-pid>-<ordinal>"`.
pub type ToolId = String;

/// Errors surfaced by the wire codecs.
#[derive(Debug)]
pub enum ProtocolError {
    /// An I/O failure, described in words.
    Io(String),
    /// A JSON parse or encode failure, described in words.
    Json(String),
    /// A malformed data frame, described in words.
    InvalidFrame(String),
}

/// Control channel messages. One message per line on the control socket.
#[derive(Debug, Clone)]
pub enum ControlMessage {
    /// Tool connects to the broker, advertising capability tags.
    Connect { capabilities: Vec<String> },
    /// Broker acknowledges a connection with the assigned identity and the
    /// address where the tool must listen for data.
    ConnectAck { tool_id: ToolId, data_listen_address: String },
    /// Tool disconnects cleanly.
    Disconnect,
    /// Subscribe to another tool's data stream.
    Subscribe { target: ToolId },
    /// Broker acknowledges a subscription with the address to read from.
    SubscribeAck { data_connect_address: String, capabilities: Vec<String> },
    /// Unsubscribe from a tool's data stream (advisory in this revision).
    Unsubscribe { target: ToolId },
    /// Flow control notification (advisory; defined on the wire only).
    FlowControl { source: ToolId, status: String },
    /// Query a tool's capability tags.
    QueryCapabilities { target: ToolId },
    /// Reply carrying a tool's capability tags.
    CapabilitiesResponse { capabilities: Vec<String> },
    /// Query the registry of connected tools.
    QueryTools,
    /// Reply carrying a snapshot of the registry.
    ToolsResponse { tools: Vec<ToolInfo> },
    /// Error reply; `code` is one of `NOT_FOUND`, `PROTOCOL`, `BAD_REQUEST`.
    Error { code: String, message: String },
}

/// Information about one connected tool, as reported by `ToolsResponse`.
#[derive(Debug, Clone)]
pub struct ToolInfo {
    pub tool_id: ToolId,
    pub capabilities: Vec<String>,
}

/// Whitespace that is trimmed from the end of a received control line.
pub open spec fn is_line_whitespace(c: char) -> bool {
    c == ' ' || c == '\t' || c == '\r' || c == '\n'
}

/// Length of `s` once trailing whitespace is removed.
pub open spec fn trimmed_len(s: Seq<char>) -> int
    decreases s.len(),
{
    if s.len() == 0 {
        0
    } else if is_line_whitespace(s[s.len() - 1]) {
        trimmed_len(s.drop_last())
    } else {
        s.len() as int
    }
}

proof fn lemma_trimmed_len_bounds(s: Seq<char>)
    ensures
        0 <= trimmed_len(s) <= s.len(),
        trimmed_len(s) < s.len() ==> is_line_whitespace(s[s.len() - 1]),
    decreases s.len(),
{
    if s.len() > 0 && is_line_whitespace(s[s.len() - 1]) {
        lemma_trimmed_len_bounds(s.drop_last());
    }
}

proof fn lemma_trimmed_len_step(s: Seq<char>, k: int)
    requires
        trimmed_len(s) <= k < s.len(),
    ensures
        trimmed_len(s) == trimmed_len(s.subrange(0, k)),
    decreases s.len() - k,
{
    lemma_trimmed_len_bounds(s);
    if k == s.len() - 1 {
        assert(s.subrange(0, k) =~= s.drop_last());
    } else {
        lemma_trimmed_len_step(s, k + 1);
        assert(s.subrange(0, k + 1).drop_last() =~= s.subrange(0, k));
        lemma_trimmed_len_bounds(s.subrange(0, k + 1));
    }
}

/// Remove trailing whitespace from a received control line, leaving the
/// longest prefix that does not end in whitespace.
pub fn trim_line_end(s: &str) -> (r: &str)
    ensures
        r@ == s@.subrange(0, trimmed_len(s@)),
{
    let len = s.unicode_len();
    let mut end = len;
    let mut done = false;
    proof {
        lemma_trimmed_len_bounds(s@);
        assert(s@.subrange(0, s@.len() as int) =~= s@);
    }
    while !done && end > 0
        invariant
            end <= s@.len(),
            trimmed_len(s@) <= end,
            trimmed_len(s@) == trimmed_len(s@.subrange(0, end as int)),
            done ==> trimmed_len(s@) == end,
        decreases end + if done { 0int } else { 1int },
    {
        let c = s.get_char(end - 1);
        if c == ' ' || c == '\t' || c == '\r' || c == '\n' {
            proof {
                assert(s@.subrange(0, end as int).drop_last() =~= s@.subrange(0, end - 1));
                lemma_trimmed_len_bounds(s@.subrange(0, end - 1));
            }
            end = end - 1;
        } else {
            done = true;
        }
    }
    s.substring_char(0, end)
}

} // verus!
