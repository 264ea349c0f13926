//! Canonical JSON encoding of control messages.
//!
//! Control messages travel as tagged JSON objects, one per line; the tag
//! field is named `type`. This module encodes a message into that canonical
//! text, escaping string contents as JSON requires. Decoding accepts
//! arbitrary JSON and is done outside the verified library.

use vstd::prelude::*;
use crate::protocol::{ControlMessage, ProtocolError, ToolInfo};

verus! {

/// The lowercase hex digit for `d` in `0..=15`.
pub open spec fn hex_char(d: int) -> char {
    if d == 0 { '0' }
    else if d == 1 { '1' }
    else if d == 2 { '2' }
    else if d == 3 { '3' }
    else if d == 4 { '4' }
    else if d == 5 { '5' }
    else if d == 6 { '6' }
    else if d == 7 { '7' }
    else if d == 8 { '8' }
    else if d == 9 { '9' }
    else if d == 10 { 'a' }
    else if d == 11 { 'b' }
    else if d == 12 { 'c' }
    else if d == 13 { 'd' }
    else if d == 14 { 'e' }
    else { 'f' }
}

/// How one character appears inside a JSON string literal: quotes and
/// backslashes are escaped, common control characters use their short
/// escapes, other control characters use `\u00XX`, and everything else
/// stands for itself.
pub open spec fn esc_char(c: char) -> Seq<char> {
    if c == '"' {
        seq!['\\', '"']
    } else if c == '\\' {
        seq!['\\', '\\']
    } else if c == '\n' {
        seq!['\\', 'n']
    } else if c == '\r' {
        seq!['\\', 'r']
    } else if c == '\t' {
        seq!['\\', 't']
    } else if (c as u32) < 0x20 {
        seq!['\\', 'u', '0', '0', hex_char((c as u32) as int / 16), hex_char((c as u32) as int % 16)]
    } else {
        seq![c]
    }
}

/// The body of a JSON string literal for `s`.
pub open spec fn esc_string(s: Seq<char>) -> Seq<char>
    decreases s.len(),
{
    if s.len() == 0 {
        Seq::empty()
    } else {
        esc_char(s[0]) + esc_string(s.drop_first())
    }
}

/// A JSON string literal for `s`.
pub open spec fn json_string(s: Seq<char>) -> Seq<char> {
    seq!['"'] + esc_string(s) + seq!['"']
}

/// The comma-separated items of a JSON array of string literals.
pub open spec fn json_string_items(elems: Seq<String>) -> Seq<char>
    decreases elems.len(),
{
    if elems.len() == 0 {
        Seq::empty()
    } else if elems.len() == 1 {
        json_string(elems[0]@)
    } else {
        json_string(elems[0]@) + seq![','] + json_string_items(elems.drop_first())
    }
}

/// A JSON array of string literals.
pub open spec fn json_string_array(elems: Seq<String>) -> Seq<char> {
    seq!['['] + json_string_items(elems) + seq![']']
}

/// The JSON object for one registry entry.
pub open spec fn json_tool(t: ToolInfo) -> Seq<char> {
    "{\"tool_id\":"@ + json_string(t.tool_id@) + ",\"capabilities\":"@
        + json_string_array(t.capabilities@) + "}"@
}

/// The comma-separated items of a JSON array of registry entries.
pub open spec fn json_tool_items(ts: Seq<ToolInfo>) -> Seq<char>
    decreases ts.len(),
{
    if ts.len() == 0 {
        Seq::empty()
    } else if ts.len() == 1 {
        json_tool(ts[0])
    } else {
        json_tool(ts[0]) + seq![','] + json_tool_items(ts.drop_first())
    }
}

/// The canonical JSON text of a control message.
pub open spec fn spec_json_of(msg: ControlMessage) -> Seq<char> {
    match msg {
        ControlMessage::Connect { capabilities } => {
            "{\"type\":\"Connect\",\"capabilities\":"@ + json_string_array(capabilities@) + "}"@
        },
        ControlMessage::ConnectAck { tool_id, data_listen_address } => {
            "{\"type\":\"ConnectAck\",\"tool_id\":"@ + json_string(tool_id@)
                + ",\"data_listen_address\":"@ + json_string(data_listen_address@) + "}"@
        },
        ControlMessage::Disconnect => "{\"type\":\"Disconnect\"}"@,
        ControlMessage::Subscribe { target } => {
            "{\"type\":\"Subscribe\",\"target\":"@ + json_string(target@) + "}"@
        },
        ControlMessage::SubscribeAck { data_connect_address, capabilities } => {
            "{\"type\":\"SubscribeAck\",\"data_connect_address\":"@
                + json_string(data_connect_address@) + ",\"capabilities\":"@
                + json_string_array(capabilities@) + "}"@
        },
        ControlMessage::Unsubscribe { target } => {
            "{\"type\":\"Unsubscribe\",\"target\":"@ + json_string(target@) + "}"@
        },
        ControlMessage::FlowControl { source, status } => {
            "{\"type\":\"FlowControl\",\"source\":"@ + json_string(source@) + ",\"status\":"@
                + json_string(status@) + "}"@
        },
        ControlMessage::QueryCapabilities { target } => {
            "{\"type\":\"QueryCapabilities\",\"target\":"@ + json_string(target@) + "}"@
        },
        ControlMessage::CapabilitiesResponse { capabilities } => {
            "{\"type\":\"CapabilitiesResponse\",\"capabilities\":"@
                + json_string_array(capabilities@) + "}"@
        },
        ControlMessage::QueryTools => "{\"type\":\"QueryTools\"}"@,
        ControlMessage::ToolsResponse { tools } => {
            "{\"type\":\"ToolsResponse\",\"tools\":"@ + seq!['['] + json_tool_items(tools@)
                + seq![']'] + "}"@
        },
        ControlMessage::Error { code, message } => {
            "{\"type\":\"Error\",\"code\":"@ + json_string(code@) + ",\"message\":"@
                + json_string(message@) + "}"@
        },
    }
}

/// Escaping one more character extends the escaped body.
proof fn lemma_esc_string_snoc(s: Seq<char>, c: char)
    ensures
        esc_string(s.push(c)) == esc_string(s) + esc_char(c),
    decreases s.len(),
{
    if s.len() == 0 {
        reveal_with_fuel(esc_string, 3);
        assert(s.push(c).drop_first() =~= Seq::<char>::empty());
        assert(s.push(c)[0] == c);
        assert(esc_char(c) + Seq::<char>::empty() =~= esc_char(c));
        assert(esc_string(s) + esc_char(c) =~= esc_char(c));
    } else {
        assert(s.push(c).drop_first() =~= s.drop_first().push(c));
        assert(s.push(c)[0] == s[0]);
        lemma_esc_string_snoc(s.drop_first(), c);
        assert(esc_char(s[0]) + (esc_string(s.drop_first()) + esc_char(c))
            =~= (esc_char(s[0]) + esc_string(s.drop_first())) + esc_char(c));
    }
}

/// One more string literal extends the array items, after a comma when the
/// array was not empty.
proof fn lemma_json_string_items_snoc(elems: Seq<String>, x: String)
    ensures
        json_string_items(elems.push(x)) == if elems.len() == 0 {
            json_string(x@)
        } else {
            json_string_items(elems) + seq![','] + json_string(x@)
        },
    decreases elems.len(),
{
    if elems.len() == 0 {
        assert(elems.push(x)[0] == x);
    } else {
        assert(elems.push(x).drop_first() =~= elems.drop_first().push(x));
        assert(elems.push(x)[0] == elems[0]);
        lemma_json_string_items_snoc(elems.drop_first(), x);
        if elems.len() == 1 {
            assert(elems.drop_first().len() == 0);
            assert(json_string(elems[0]@) + seq![','] + json_string(x@)
                =~= json_string_items(elems) + seq![','] + json_string(x@));
        } else {
            assert(json_string(elems[0]@) + seq![','] + (json_string_items(elems.drop_first())
                + seq![','] + json_string(x@)) =~= (json_string(elems[0]@) + seq![',']
                + json_string_items(elems.drop_first())) + seq![','] + json_string(x@));
        }
    }
}

/// One more registry entry extends the array items, after a comma when the
/// array was not empty.
proof fn lemma_json_tool_items_snoc(ts: Seq<ToolInfo>, x: ToolInfo)
    ensures
        json_tool_items(ts.push(x)) == if ts.len() == 0 {
            json_tool(x)
        } else {
            json_tool_items(ts) + seq![','] + json_tool(x)
        },
    decreases ts.len(),
{
    if ts.len() == 0 {
        assert(ts.push(x)[0] == x);
    } else {
        assert(ts.push(x).drop_first() =~= ts.drop_first().push(x));
        assert(ts.push(x)[0] == ts[0]);
        lemma_json_tool_items_snoc(ts.drop_first(), x);
        if ts.len() == 1 {
            assert(ts.drop_first().len() == 0);
            assert(json_tool(ts[0]) + seq![','] + json_tool(x)
                =~= json_tool_items(ts) + seq![','] + json_tool(x));
        } else {
            assert(json_tool(ts[0]) + seq![','] + (json_tool_items(ts.drop_first())
                + seq![','] + json_tool(x)) =~= (json_tool(ts[0]) + seq![',']
                + json_tool_items(ts.drop_first())) + seq![','] + json_tool(x));
        }
    }
}

/// One lowercase hex digit as a string slice.
fn hex_str(d: u32) -> (r: &'static str)
    requires
        d < 16,
    ensures
        r@ == seq![hex_char(d as int)],
{
    let s: &'static str = if d == 0 { "0" }
    else if d == 1 { "1" }
    else if d == 2 { "2" }
    else if d == 3 { "3" }
    else if d == 4 { "4" }
    else if d == 5 { "5" }
    else if d == 6 { "6" }
    else if d == 7 { "7" }
    else if d == 8 { "8" }
    else if d == 9 { "9" }
    else if d == 10 { "a" }
    else if d == 11 { "b" }
    else if d == 12 { "c" }
    else if d == 13 { "d" }
    else if d == 14 { "e" }
    else { "f" };
    proof {
        reveal_strlit("0");
        reveal_strlit("1");
        reveal_strlit("2");
        reveal_strlit("3");
        reveal_strlit("4");
        reveal_strlit("5");
        reveal_strlit("6");
        reveal_strlit("7");
        reveal_strlit("8");
        reveal_strlit("9");
        reveal_strlit("a");
        reveal_strlit("b");
        reveal_strlit("c");
        reveal_strlit("d");
        reveal_strlit("e");
        reveal_strlit("f");
        assert(s@ =~= seq![hex_char(d as int)]);
    }
    s
}

/// Append the escaped body of `s` to a JSON string literal being built.
fn append_escaped(out: &mut String, s: &str)
    ensures
        final(out)@ == old(out)@ + esc_string(s@),
{
    let len = s.unicode_len();
    proof {
        assert(s@.subrange(0, 0) =~= Seq::<char>::empty());
        assert(old(out)@ + esc_string(s@.subrange(0, 0)) =~= old(out)@);
    }
    let mut i: usize = 0;
    while i < len
        invariant
            i <= len,
            len == s@.len(),
            out@ == old(out)@ + esc_string(s@.subrange(0, i as int)),
        decreases len - i,
    {
        let c = s.get_char(i);
        proof {
            lemma_esc_string_snoc(s@.subrange(0, i as int), s@[i as int]);
            assert(s@.subrange(0, i as int).push(s@[i as int]) =~= s@.subrange(0, i + 1));
        }
        if c == '"' {
            out.append("\\\"");
            proof {
                reveal_strlit("\\\"");
                assert("\\\""@ =~= esc_char(c));
            }
        } else if c == '\\' {
            out.append("\\\\");
            proof {
                reveal_strlit("\\\\");
                assert("\\\\"@ =~= esc_char(c));
            }
        } else if c == '\n' {
            out.append("\\n");
            proof {
                reveal_strlit("\\n");
                assert("\\n"@ =~= esc_char(c));
            }
        } else if c == '\r' {
            out.append("\\r");
            proof {
                reveal_strlit("\\r");
                assert("\\r"@ =~= esc_char(c));
            }
        } else if c == '\t' {
            out.append("\\t");
            proof {
                reveal_strlit("\\t");
                assert("\\t"@ =~= esc_char(c));
            }
        } else if (c as u32) < 0x20 {
            out.append("\\u00");
            out.append(hex_str((c as u32) / 16));
            out.append(hex_str((c as u32) % 16));
            proof {
                reveal_strlit("\\u00");
                assert("\\u00"@ + seq![hex_char((c as u32) as int / 16)]
                    + seq![hex_char((c as u32) as int % 16)] =~= esc_char(c));
            }
        } else {
            out.append(s.substring_char(i, i + 1));
            proof {
                assert(s@.subrange(i as int, i + 1) =~= seq![s@[i as int]]);
                assert(seq![s@[i as int]] =~= esc_char(c));
            }
        }
        proof {
            assert(out@ =~= old(out)@ + esc_string(s@.subrange(0, i + 1)));
        }
        i = i + 1;
    }
    proof {
        assert(s@.subrange(0, len as int) =~= s@);
    }
}

/// Append the JSON string literal for `s`.
fn append_json_string(out: &mut String, s: &str)
    ensures
        final(out)@ == old(out)@ + json_string(s@),
{
    out.append("\"");
    append_escaped(out, s);
    out.append("\"");
    proof {
        reveal_strlit("\"");
        assert(out@ =~= old(out)@ + json_string(s@));
    }
}

/// Append the JSON array of string literals for `elems`.
fn append_string_array(out: &mut String, elems: &Vec<String>)
    ensures
        final(out)@ == old(out)@ + json_string_array(elems@),
{
    out.append("[");
    proof {
        reveal_strlit("[");
        assert(out@ =~= old(out)@ + seq!['['] + json_string_items(elems@.subrange(0, 0)));
    }
    let mut i: usize = 0;
    while i < elems.len()
        invariant
            i <= elems@.len(),
            out@ == old(out)@ + seq!['['] + json_string_items(elems@.subrange(0, i as int)),
        decreases elems@.len() - i,
    {
        proof {
            lemma_json_string_items_snoc(elems@.subrange(0, i as int), elems@[i as int]);
            assert(elems@.subrange(0, i as int).push(elems@[i as int])
                =~= elems@.subrange(0, i + 1));
        }
        if i > 0 {
            out.append(",");
            proof {
                reveal_strlit(",");
            }
        }
        append_json_string(out, elems[i].as_str());
        proof {
            assert(out@ =~= old(out)@ + seq!['['] + json_string_items(
                elems@.subrange(0, i + 1),
            ));
        }
        i = i + 1;
    }
    out.append("]");
    proof {
        reveal_strlit("]");
        assert(elems@.subrange(0, elems@.len() as int) =~= elems@);
        assert(out@ =~= old(out)@ + json_string_array(elems@));
    }
}

/// Append the JSON object for one registry entry.
fn append_tool(out: &mut String, t: &ToolInfo)
    ensures
        final(out)@ == old(out)@ + json_tool(*t),
{
    out.append("{\"tool_id\":");
    append_json_string(out, t.tool_id.as_str());
    out.append(",\"capabilities\":");
    append_string_array(out, &t.capabilities);
    out.append("}");
    proof {
        assert(out@ =~= old(out)@ + json_tool(*t));
    }
}

/// Append the JSON array of registry entries.
fn append_tools_array(out: &mut String, ts: &Vec<ToolInfo>)
    ensures
        final(out)@ == old(out)@ + seq!['['] + json_tool_items(ts@) + seq![']'],
{
    out.append("[");
    proof {
        reveal_strlit("[");
        assert(out@ =~= old(out)@ + seq!['['] + json_tool_items(ts@.subrange(0, 0)));
    }
    let mut i: usize = 0;
    while i < ts.len()
        invariant
            i <= ts@.len(),
            out@ == old(out)@ + seq!['['] + json_tool_items(ts@.subrange(0, i as int)),
        decreases ts@.len() - i,
    {
        proof {
            lemma_json_tool_items_snoc(ts@.subrange(0, i as int), ts@[i as int]);
            assert(ts@.subrange(0, i as int).push(ts@[i as int]) =~= ts@.subrange(0, i + 1));
        }
        if i > 0 {
            out.append(",");
            proof {
                reveal_strlit(",");
            }
        }
        append_tool(out, &ts[i]);
        proof {
            assert(out@ =~= old(out)@ + seq!['['] + json_tool_items(ts@.subrange(0, i + 1)));
        }
        i = i + 1;
    }
    out.append("]");
    proof {
        reveal_strlit("]");
        assert(ts@.subrange(0, ts@.len() as int) =~= ts@);
        assert(out@ =~= old(out)@ + seq!['['] + json_tool_items(ts@) + seq![']']);
    }
}

impl ControlMessage {
    /// Serialize to the canonical JSON text.
    pub fn to_json(&self) -> (r: Result<String, ProtocolError>)
        ensures
            r matches Ok(s) && s@ == spec_json_of(*self),
    {
        let mut out = String::new();
        match self {
            ControlMessage::Connect { capabilities } => {
                out.append("{\"type\":\"Connect\",\"capabilities\":");
                append_string_array(&mut out, capabilities);
                out.append("}");
            },
            ControlMessage::ConnectAck { tool_id, data_listen_address } => {
                out.append("{\"type\":\"ConnectAck\",\"tool_id\":");
                append_json_string(&mut out, tool_id.as_str());
                out.append(",\"data_listen_address\":");
                append_json_string(&mut out, data_listen_address.as_str());
                out.append("}");
            },
            ControlMessage::Disconnect => {
                out.append("{\"type\":\"Disconnect\"}");
            },
            ControlMessage::Subscribe { target } => {
                out.append("{\"type\":\"Subscribe\",\"target\":");
                append_json_string(&mut out, target.as_str());
                out.append("}");
            },
            ControlMessage::SubscribeAck { data_connect_address, capabilities } => {
                out.append("{\"type\":\"SubscribeAck\",\"data_connect_address\":");
                append_json_string(&mut out, data_connect_address.as_str());
                out.append(",\"capabilities\":");
                append_string_array(&mut out, capabilities);
                out.append("}");
            },
            ControlMessage::Unsubscribe { target } => {
                out.append("{\"type\":\"Unsubscribe\",\"target\":");
                append_json_string(&mut out, target.as_str());
                out.append("}");
            },
            ControlMessage::FlowControl { source, status } => {
                out.append("{\"type\":\"FlowControl\",\"source\":");
                append_json_string(&mut out, source.as_str());
                out.append(",\"status\":");
                append_json_string(&mut out, status.as_str());
                out.append("}");
            },
            ControlMessage::QueryCapabilities { target } => {
                out.append("{\"type\":\"QueryCapabilities\",\"target\":");
                append_json_string(&mut out, target.as_str());
                out.append("}");
            },
            ControlMessage::CapabilitiesResponse { capabilities } => {
                out.append("{\"type\":\"CapabilitiesResponse\",\"capabilities\":");
                append_string_array(&mut out, capabilities);
                out.append("}");
            },
            ControlMessage::QueryTools => {
                out.append("{\"type\":\"QueryTools\"}");
            },
            ControlMessage::ToolsResponse { tools } => {
                out.append("{\"type\":\"ToolsResponse\",\"tools\":");
                append_tools_array(&mut out, tools);
                out.append("}");
            },
            ControlMessage::Error { code, message } => {
                out.append("{\"type\":\"Error\",\"code\":");
                append_json_string(&mut out, code.as_str());
                out.append(",\"message\":");
                append_json_string(&mut out, message.as_str());
                out.append("}");
            },
        }
        proof {
            assert(out@ =~= spec_json_of(*self));
        }
        Ok(out)
    }

    /// Serialize to the canonical JSON text as UTF-8 bytes.
    pub fn to_json_bytes(&self) -> (r: Result<Vec<u8>, ProtocolError>)
        ensures
            r matches Ok(b) && b@ == vstd::utf8::encode_utf8(spec_json_of(*self)),
    {
        match self.to_json() {
            Ok(s) => Ok(s.as_str().as_bytes_vec()),
            Err(e) => Err(e),
        }
    }
}

} // verus!
