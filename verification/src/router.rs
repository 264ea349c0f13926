//! The broker's control-plane state and per-connection state machine.
//!
//! The broker keeps three tables: the registry of live tools, the
//! subscription table, and the relay table. Identities come from one
//! monotonic counter and are never reused. Unregistering a tool scrubs it
//! from every subscriber list, deletes its own subscription list, and drops
//! its relay entry.

use vstd::prelude::*;
use vstd::pervasive::arbitrary;
use crate::ids::{
    make_data_address, make_relay_address, make_tool_id, spec_data_address, spec_relay_address,
    spec_tool_id,
};
use crate::protocol::{ControlMessage, ToolInfo};

verus! {

/// Registry record of one live tool.
#[derive(Debug)]
pub struct ConnectionInfo {
    /// The tool's identity.
    pub tool_id: String,
    /// Where the tool listens for its single data connection.
    pub data_listen_address: String,
    /// The capability tags the tool advertised at registration.
    pub capabilities: Vec<String>,
}

/// Relay-table record for one source tool.
#[derive(Debug)]
pub struct ProxyInfo {
    /// Where the relay accepts downstream connections.
    pub listen_address: String,
    /// The source tool whose data the relay tees.
    pub source_tool_id: String,
}

/// Copy a vector of strings.
fn clone_string_vec(v: &Vec<String>) -> (r: Vec<String>)
    ensures
        r@ == v@,
{
    let mut r: Vec<String> = Vec::new();
    let mut i: usize = 0;
    while i < v.len()
        invariant
            i <= v@.len(),
            r@ == v@.subrange(0, i as int),
        decreases v@.len() - i,
    {
        r.push(v[i].clone());
        proof {
            assert(v@.subrange(0, i as int).push(v@[i as int]) =~= v@.subrange(0, i + 1));
        }
        i = i + 1;
    }
    proof {
        assert(v@.subrange(0, v@.len() as int) =~= v@);
    }
    r
}

impl Clone for ConnectionInfo {
    /// A copy whose fields equal the original's.
    fn clone(&self) -> (r: Self)
        ensures
            r.tool_id == self.tool_id,
            r.data_listen_address == self.data_listen_address,
            r.capabilities@ == self.capabilities@,
    {
        ConnectionInfo {
            tool_id: self.tool_id.clone(),
            data_listen_address: self.data_listen_address.clone(),
            capabilities: clone_string_vec(&self.capabilities),
        }
    }
}

impl Clone for ProxyInfo {
    /// A copy whose fields equal the original's.
    fn clone(&self) -> (r: Self)
        ensures
            r.listen_address == self.listen_address,
            r.source_tool_id == self.source_tool_id,
    {
        ProxyInfo {
            listen_address: self.listen_address.clone(),
            source_tool_id: self.source_tool_id.clone(),
        }
    }
}

/// Whether the registry holds an entry for `id`.
pub open spec fn has_conn(t: Seq<ConnectionInfo>, id: Seq<char>) -> bool {
    exists|i: int| 0 <= i < t.len() && (#[trigger] t[i]).tool_id@ == id
}

/// The registry entry for `id` (unique when the registry is well-formed).
pub open spec fn conn_at(t: Seq<ConnectionInfo>, id: Seq<char>) -> ConnectionInfo {
    t[choose|i: int| 0 <= i < t.len() && (#[trigger] t[i]).tool_id@ == id]
}

/// Whether the subscription table has a list for source `src`.
pub open spec fn has_subs(t: Seq<(String, Vec<String>)>, src: Seq<char>) -> bool {
    exists|i: int| 0 <= i < t.len() && (#[trigger] t[i]).0@ == src
}

/// The subscriber list for source `src`.
pub open spec fn subs_at(t: Seq<(String, Vec<String>)>, src: Seq<char>) -> Seq<String> {
    t[choose|i: int| 0 <= i < t.len() && (#[trigger] t[i]).0@ == src].1@
}

/// Whether the relay table has an entry for source `src`.
pub open spec fn has_proxy_for(t: Seq<ProxyInfo>, src: Seq<char>) -> bool {
    exists|i: int| 0 <= i < t.len() && (#[trigger] t[i]).source_tool_id@ == src
}

/// The relay entry for source `src`.
pub open spec fn proxy_at(t: Seq<ProxyInfo>, src: Seq<char>) -> ProxyInfo {
    t[choose|i: int| 0 <= i < t.len() && (#[trigger] t[i]).source_tool_id@ == src]
}

/// Registry entries keyed uniquely by identity.
pub open spec fn distinct_conns(t: Seq<ConnectionInfo>) -> bool {
    forall|i: int, j: int| 0 <= i < j < t.len()
        ==> (#[trigger] t[i]).tool_id@ != (#[trigger] t[j]).tool_id@
}

/// Subscription entries keyed uniquely by source identity.
pub open spec fn distinct_subs(t: Seq<(String, Vec<String>)>) -> bool {
    forall|i: int, j: int| 0 <= i < j < t.len()
        ==> (#[trigger] t[i]).0@ != (#[trigger] t[j]).0@
}

/// Relay entries keyed uniquely by source identity.
pub open spec fn distinct_proxies(t: Seq<ProxyInfo>) -> bool {
    forall|i: int, j: int| 0 <= i < j < t.len()
        ==> (#[trigger] t[i]).source_tool_id@ != (#[trigger] t[j]).source_tool_id@
}

/// A subscriber list with every occurrence of `id` removed.
pub open spec fn scrub_spec(l: Seq<String>, id: Seq<char>) -> Seq<String>
    decreases l.len(),
{
    if l.len() == 0 {
        l
    } else {
        let rest = scrub_spec(l.drop_first(), id);
        if l[0]@ == id {
            rest
        } else {
            seq![l[0]] + rest
        }
    }
}

/// Scrubbing removes exactly the occurrences of `id` and keeps the rest in
/// order.
pub proof fn lemma_scrub_removes(l: Seq<String>, id: Seq<char>)
    ensures
        forall|k: int| 0 <= k < scrub_spec(l, id).len()
            ==> (#[trigger] scrub_spec(l, id)[k])@ != id,
        scrub_spec(l, id).len() <= l.len(),
    decreases l.len(),
{
    if l.len() > 0 {
        lemma_scrub_removes(l.drop_first(), id);
    }
}

/// Scrubbing after appending one subscriber.
proof fn lemma_scrub_snoc(l: Seq<String>, x: String, id: Seq<char>)
    ensures
        scrub_spec(l.push(x), id) == if x@ == id {
            scrub_spec(l, id)
        } else {
            scrub_spec(l, id).push(x)
        },
    decreases l.len(),
{
    if l.len() == 0 {
        reveal_with_fuel(scrub_spec, 3);
        assert(l.push(x).drop_first() =~= Seq::<String>::empty());
        assert(l.push(x)[0] == x);
        if x@ != id {
            assert(seq![x] + Seq::<String>::empty() =~= scrub_spec(l, id).push(x));
        }
    } else {
        assert(l.push(x).drop_first() =~= l.drop_first().push(x));
        assert(l.push(x)[0] == l[0]);
        lemma_scrub_snoc(l.drop_first(), x, id);
        if l[0]@ != id {
            if x@ != id {
                assert(seq![l[0]] + scrub_spec(l.drop_first(), id).push(x)
                    =~= (seq![l[0]] + scrub_spec(l.drop_first(), id)).push(x));
            }
        }
    }
}

/// Remove every occurrence of `id` from a subscriber list, keeping order.
fn scrub_list(l: &Vec<String>, id: &String) -> (r: Vec<String>)
    ensures
        r@ == scrub_spec(l@, id@),
{
    let mut r: Vec<String> = Vec::new();
    proof {
        assert(l@.subrange(0, 0) =~= Seq::<String>::empty());
    }
    let mut i: usize = 0;
    while i < l.len()
        invariant
            i <= l@.len(),
            r@ == scrub_spec(l@.subrange(0, i as int), id@),
        decreases l@.len() - i,
    {
        proof {
            lemma_scrub_snoc(l@.subrange(0, i as int), l@[i as int], id@);
            assert(l@.subrange(0, i as int).push(l@[i as int]) =~= l@.subrange(0, i + 1));
        }
        if !(l[i] == *id) {
            r.push(l[i].clone());
        }
        i = i + 1;
    }
    proof {
        assert(l@.subrange(0, l@.len() as int) =~= l@);
    }
    r
}

/// The broker's shared state: registry, subscriptions, relays, and the
/// identity counter.
#[derive(Debug)]
pub struct RouterState {
    /// The broker's own process id, embedded in every identity.
    broker_pid: u64,
    /// Next ordinal for identity and relay-address assignment.
    next_seq: u64,
    /// Registry of live tools.
    connections: Vec<ConnectionInfo>,
    /// Source identity to its list of subscriber identities.
    subscriptions: Vec<(String, Vec<String>)>,
    /// Relay entries, one per source that has been subscribed to.
    proxies: Vec<ProxyInfo>,
}

impl RouterState {
    /// The broker's pid.
    pub closed spec fn spec_pid(&self) -> u64 {
        self.broker_pid
    }

    /// The next unassigned ordinal.
    pub closed spec fn spec_next_seq(&self) -> u64 {
        self.next_seq
    }

    /// The registry.
    pub closed spec fn spec_connections(&self) -> Seq<ConnectionInfo> {
        self.connections@
    }

    /// The subscription table.
    pub closed spec fn spec_subscriptions(&self) -> Seq<(String, Vec<String>)> {
        self.subscriptions@
    }

    /// The relay table.
    pub closed spec fn spec_proxies(&self) -> Seq<ProxyInfo> {
        self.proxies@
    }

    /// Well-formed: each table keys its entries uniquely.
    pub closed spec fn inv(&self) -> bool {
        &&& distinct_conns(self.connections@)
        &&& distinct_subs(self.subscriptions@)
        &&& distinct_proxies(self.proxies@)
    }

    /// A fresh broker state for the broker process `pid`; ordinals start
    /// at 1.
    pub fn new(pid: u64) -> (r: RouterState)
        ensures
            r.inv(),
            r.spec_pid() == pid,
            r.spec_next_seq() == 1,
            r.spec_connections() == Seq::<ConnectionInfo>::empty(),
            r.spec_subscriptions() == Seq::<(String, Vec<String>)>::empty(),
            r.spec_proxies() == Seq::<ProxyInfo>::empty(),
    {
        RouterState {
            broker_pid: pid,
            next_seq: 1,
            connections: Vec::new(),
            subscriptions: Vec::new(),
            proxies: Vec::new(),
        }
    }

    /// Whether another ordinal can still be assigned.
    pub fn can_assign(&self) -> (r: bool)
        ensures
            r == (self.spec_next_seq() < u64::MAX),
    {
        self.next_seq < u64::MAX
    }

    /// Assign the next identity: the broker pid, a dash, and the zero-padded
    /// ordinal. Ordinals strictly increase, so identities are never reused.
    pub fn assign_tool_id(&mut self) -> (r: String)
        requires
            old(self).inv(),
            old(self).spec_next_seq() < u64::MAX,
        ensures
            final(self).inv(),
            r@ == spec_tool_id(old(self).spec_pid(), old(self).spec_next_seq()),
            final(self).spec_next_seq() == old(self).spec_next_seq() + 1,
            final(self).spec_pid() == old(self).spec_pid(),
            final(self).spec_connections() == old(self).spec_connections(),
            final(self).spec_subscriptions() == old(self).spec_subscriptions(),
            final(self).spec_proxies() == old(self).spec_proxies(),
    {
        let id = make_tool_id(self.broker_pid, self.next_seq);
        self.next_seq = self.next_seq + 1;
        id
    }

    /// The data endpoint address a tool with identity `tool_id` must listen
    /// on.
    pub fn assign_data_address(tool_id: &str) -> (r: String)
        ensures
            r@ == spec_data_address(tool_id@),
    {
        make_data_address(tool_id)
    }

    /// Find the registry index of `tool_id`.
    fn conn_index_of(&self, tool_id: &String) -> (r: Option<usize>)
        ensures
            match r {
                Some(i) => i < self.spec_connections().len()
                    && self.spec_connections()[i as int].tool_id@ == tool_id@,
                None => !has_conn(self.spec_connections(), tool_id@),
            },
    {
        let mut i: usize = 0;
        while i < self.connections.len()
            invariant
                i <= self.connections@.len(),
                forall|j: int| 0 <= j < i
                    ==> (#[trigger] self.connections@[j]).tool_id@ != tool_id@,
            decreases self.connections@.len() - i,
        {
            if self.connections[i].tool_id == *tool_id {
                return Some(i);
            }
            i = i + 1;
        }
        None
    }

    /// Insert or replace the registry entry for `tool_id`.
    pub fn register_connection(
        &mut self,
        tool_id: String,
        data_address: String,
        capabilities: Vec<String>,
    )
        requires
            old(self).inv(),
        ensures
            final(self).inv(),
            final(self).spec_pid() == old(self).spec_pid(),
            final(self).spec_next_seq() == old(self).spec_next_seq(),
            final(self).spec_subscriptions() == old(self).spec_subscriptions(),
            final(self).spec_proxies() == old(self).spec_proxies(),
            has_conn(final(self).spec_connections(), tool_id@),
            ({
                let info = conn_at(final(self).spec_connections(), tool_id@);
                info.tool_id == tool_id && info.data_listen_address == data_address
                    && info.capabilities == capabilities
            }),
            forall|id2: Seq<char>| id2 != tool_id@
                ==> #[trigger] has_conn(final(self).spec_connections(), id2)
                    == has_conn(old(self).spec_connections(), id2),
            forall|id2: Seq<char>| id2 != tool_id@
                && has_conn(old(self).spec_connections(), id2)
                ==> #[trigger] conn_at(final(self).spec_connections(), id2)
                    == conn_at(old(self).spec_connections(), id2),
    {
        let info = ConnectionInfo { tool_id, data_listen_address: data_address, capabilities };
        let found = self.conn_index_of(&info.tool_id);
        let ghost pre = self.connections@;
        let ghost key = info.tool_id@;
        match found {
            Some(i) => {
                self.connections.set(i, info);
                proof {
                    let post = self.connections@;
                    assert(post[i as int].tool_id@ == key);
                    let w = choose|k: int| 0 <= k < post.len()
                        && (#[trigger] post[k]).tool_id@ == key;
                    assert(w == i) by {
                        if w != i {
                            assert(pre[w].tool_id@ == key);
                            assert(pre[i as int].tool_id@ == key);
                        }
                    }
                    assert forall|id2: Seq<char>| id2 != key
                        && has_conn(pre, id2) implies #[trigger] conn_at(post, id2)
                        == conn_at(pre, id2) by {
                        let w = choose|k: int| 0 <= k < pre.len()
                            && (#[trigger] pre[k]).tool_id@ == id2;
                        assert(post[w].tool_id@ == id2);
                        let w2 = choose|k: int| 0 <= k < post.len()
                            && (#[trigger] post[k]).tool_id@ == id2;
                        assert(pre[w2].tool_id@ == id2);
                    }
                    assert forall|id2: Seq<char>| id2 != key
                        implies #[trigger] has_conn(post, id2) == has_conn(pre, id2) by {
                        if has_conn(pre, id2) {
                            let w = choose|k: int| 0 <= k < pre.len()
                                && (#[trigger] pre[k]).tool_id@ == id2;
                            assert(post[w].tool_id@ == id2);
                        }
                        if has_conn(post, id2) {
                            let w = choose|k: int| 0 <= k < post.len()
                                && (#[trigger] post[k]).tool_id@ == id2;
                            assert(pre[w].tool_id@ == id2);
                        }
                    }
                }
            },
            None => {
                self.connections.push(info);
                proof {
                    let post = self.connections@;
                    assert(post[pre.len() as int].tool_id@ == key);
                    let w = choose|k: int| 0 <= k < post.len()
                        && (#[trigger] post[k]).tool_id@ == key;
                    assert(w == pre.len()) by {
                        if w < pre.len() {
                            assert(pre[w].tool_id@ == key);
                        }
                    }
                    assert forall|id2: Seq<char>| id2 != key
                        && has_conn(pre, id2) implies #[trigger] conn_at(post, id2)
                        == conn_at(pre, id2) by {
                        let w = choose|k: int| 0 <= k < pre.len()
                            && (#[trigger] pre[k]).tool_id@ == id2;
                        assert(post[w].tool_id@ == id2);
                        let w2 = choose|k: int| 0 <= k < post.len()
                            && (#[trigger] post[k]).tool_id@ == id2;
                        assert(pre[w2].tool_id@ == id2);
                    }
                    assert forall|id2: Seq<char>| id2 != key
                        implies #[trigger] has_conn(post, id2) == has_conn(pre, id2) by {
                        if has_conn(pre, id2) {
                            let w = choose|k: int| 0 <= k < pre.len()
                                && (#[trigger] pre[k]).tool_id@ == id2;
                            assert(post[w].tool_id@ == id2);
                        }
                        if has_conn(post, id2) {
                            let w = choose|k: int| 0 <= k < post.len()
                                && (#[trigger] post[k]).tool_id@ == id2;
                            assert(pre[w].tool_id@ == id2);
                        }
                    }
                }
            },
        }
    }

    /// Look up the registry entry for `tool_id`.
    pub fn get_connection(&self, tool_id: &String) -> (r: Option<ConnectionInfo>)
        requires
            self.inv(),
        ensures
            match r {
                Some(info) => {
                    &&& has_conn(self.spec_connections(), tool_id@)
                    &&& info.tool_id == conn_at(self.spec_connections(), tool_id@).tool_id
                    &&& info.data_listen_address
                        == conn_at(self.spec_connections(), tool_id@).data_listen_address
                    &&& info.capabilities@
                        == conn_at(self.spec_connections(), tool_id@).capabilities@
                },
                None => !has_conn(self.spec_connections(), tool_id@),
            },
    {
        match self.conn_index_of(tool_id) {
            Some(i) => {
                proof {
                    let w = choose|k: int| 0 <= k < self.connections@.len()
                        && (#[trigger] self.connections@[k]).tool_id@ == tool_id@;
                    assert(w == i);
                }
                Some(self.connections[i].clone())
            },
            None => None,
        }
    }

    /// A snapshot of the registry: every tool's identity and capabilities.
    pub fn list_tools(&self) -> (r: Vec<ToolInfo>)
        ensures
            r@.len() == self.spec_connections().len(),
            forall|i: int| 0 <= i < r@.len()
                ==> (#[trigger] r@[i]).tool_id == self.spec_connections()[i].tool_id
                    && r@[i].capabilities@ == self.spec_connections()[i].capabilities@,
    {
        let mut r: Vec<ToolInfo> = Vec::new();
        let mut i: usize = 0;
        while i < self.connections.len()
            invariant
                i <= self.connections@.len(),
                r@.len() == i,
                forall|j: int| 0 <= j < i
                    ==> (#[trigger] r@[j]).tool_id == self.connections@[j].tool_id
                        && r@[j].capabilities@ == self.connections@[j].capabilities@,
            decreases self.connections@.len() - i,
        {
            r.push(ToolInfo {
                tool_id: self.connections[i].tool_id.clone(),
                capabilities: clone_string_vec(&self.connections[i].capabilities),
            });
            i = i + 1;
        }
        r
    }

    /// Find the subscription-table index for source `src`.
    fn subs_index_of(&self, src: &String) -> (r: Option<usize>)
        ensures
            match r {
                Some(i) => i < self.spec_subscriptions().len()
                    && self.spec_subscriptions()[i as int].0@ == src@,
                None => !has_subs(self.spec_subscriptions(), src@),
            },
    {
        let mut i: usize = 0;
        while i < self.subscriptions.len()
            invariant
                i <= self.subscriptions@.len(),
                forall|j: int| 0 <= j < i ==> (#[trigger] self.subscriptions@[j]).0@ != src@,
            decreases self.subscriptions@.len() - i,
        {
            if self.subscriptions[i].0 == *src {
                return Some(i);
            }
            i = i + 1;
        }
        None
    }

    /// Find the relay-table index for source `src`.
    fn proxy_index_of(&self, src: &String) -> (r: Option<usize>)
        ensures
            match r {
                Some(i) => i < self.spec_proxies().len()
                    && self.spec_proxies()[i as int].source_tool_id@ == src@,
                None => !has_proxy_for(self.spec_proxies(), src@),
            },
    {
        let mut i: usize = 0;
        while i < self.proxies.len()
            invariant
                i <= self.proxies@.len(),
                forall|j: int| 0 <= j < i
                    ==> (#[trigger] self.proxies@[j]).source_tool_id@ != src@,
            decreases self.proxies@.len() - i,
        {
            if self.proxies[i].source_tool_id == *src {
                return Some(i);
            }
            i = i + 1;
        }
        None
    }

    /// Record that `subscriber` wants data from `source`.
    pub fn add_subscription(&mut self, source: &String, subscriber: String)
        requires
            old(self).inv(),
        ensures
            final(self).inv(),
            final(self).spec_pid() == old(self).spec_pid(),
            final(self).spec_next_seq() == old(self).spec_next_seq(),
            final(self).spec_connections() == old(self).spec_connections(),
            final(self).spec_proxies() == old(self).spec_proxies(),
            subs_with_added(
                old(self).spec_subscriptions(),
                final(self).spec_subscriptions(),
                source@,
                subscriber,
            ),
    {
        let ghost pre = self.subscriptions@;
        let ghost key = source@;
        match self.subs_index_of(source) {
            Some(i) => {
                let mut entry = self.subscriptions.remove(i);
                entry.1.push(subscriber);
                self.subscriptions.push(entry);
                proof {
                    let post = self.subscriptions@;
                    let last = post.len() - 1;
                    assert(post[last].0@ == key);
                    assert(forall|j: int| 0 <= j < last
                        ==> post[j] == (if j < i { pre[j] } else { pre[j + 1] }));
                    assert forall|k: int| 0 <= k < post.len()
                        && (#[trigger] post[k]).0@ == key implies k == last by {
                        if k < last {
                            let k0: int = if k < i { k } else { k + 1 };
                            assert(pre[k0].0@ == key && pre[i as int].0@ == key);
                        }
                    }
                    assert(subs_at(post, key) == pre[i as int].1@.push(subscriber));
                    assert(subs_at(pre, key) == pre[i as int].1@) by {
                        let w = choose|k: int| 0 <= k < pre.len()
                            && (#[trigger] pre[k]).0@ == key;
                        assert(w == i) by {
                            if w != i {
                                assert(pre[w].0@ == key && pre[i as int].0@ == key);
                            }
                        }
                    }
                    assert forall|s2: Seq<char>| s2 != key
                        implies #[trigger] has_subs(post, s2) == has_subs(pre, s2) by {
                        if has_subs(pre, s2) {
                            let w = choose|k: int| 0 <= k < pre.len()
                                && (#[trigger] pre[k]).0@ == s2;
                            let w2: int = if w < i { w } else if w == i { last } else { w - 1 };
                            assert(post[w2].0@ == s2);
                        }
                        if has_subs(post, s2) {
                            let w = choose|k: int| 0 <= k < post.len()
                                && (#[trigger] post[k]).0@ == s2;
                            let w0: int = if w == last { i as int } else if w < i { w } else { w + 1 };
                            assert(pre[w0].0@ == s2);
                        }
                    }
                    assert forall|s2: Seq<char>| s2 != key && has_subs(pre, s2)
                        implies #[trigger] subs_at(post, s2) == subs_at(pre, s2) by {
                        let v = choose|k: int| 0 <= k < pre.len()
                            && (#[trigger] pre[k]).0@ == s2;
                        let v2: int = if v < i { v } else { v - 1 };
                        assert(post[v2].0@ == s2);
                        let w = choose|k: int| 0 <= k < post.len()
                            && (#[trigger] post[k]).0@ == s2;
                        let w0: int = if w == last { i as int } else if w < i { w } else { w + 1 };
                        assert(pre[w0].0@ == s2);
                        assert(post[w] == pre[w0]);
                        assert(w0 == v) by {
                            if w0 != v {
                                assert(pre[w0].0@ == s2 && pre[v].0@ == s2);
                            }
                        }
                    }
                    assert(distinct_subs(post)) by {
                        assert forall|a: int, b: int| 0 <= a < b < post.len()
                            implies (#[trigger] post[a]).0@ != (#[trigger] post[b]).0@ by {
                            let a0: int = if a < i { a } else { a + 1 };
                            let b0: int = if b == last { i as int } else if b < i { b } else { b + 1 };
                            if b == last {
                                let a1 = if a < i { a } else { a + 1 };
                                assert(post[a] == pre[a1]);
                                assert(post[b].0@ == pre[i as int].0@);
                            } else {
                                assert(post[a] == pre[a0] && post[b] == pre[b0]);
                            }
                        }
                    }
                }
            },
            None => {
                let mut fresh: Vec<String> = Vec::new();
                fresh.push(subscriber);
                self.subscriptions.push((source.clone(), fresh));
                proof {
                    let post = self.subscriptions@;
                    let last = post.len() - 1;
                    assert(post[last].0@ == key);
                    assert(post[last].1@ =~= seq![subscriber]);
                    assert forall|k: int| 0 <= k < post.len()
                        && (#[trigger] post[k]).0@ == key implies k == last by {
                        if k < last {
                            assert(pre[k].0@ == key);
                        }
                    }
                    assert forall|s2: Seq<char>| s2 != key
                        implies #[trigger] has_subs(post, s2) == has_subs(pre, s2) by {
                        if has_subs(pre, s2) {
                            let w = choose|k: int| 0 <= k < pre.len()
                                && (#[trigger] pre[k]).0@ == s2;
                            assert(post[w].0@ == s2);
                        }
                        if has_subs(post, s2) {
                            let w = choose|k: int| 0 <= k < post.len()
                                && (#[trigger] post[k]).0@ == s2;
                            assert(pre[w].0@ == s2);
                        }
                    }
                    assert forall|s2: Seq<char>| s2 != key && has_subs(pre, s2)
                        implies #[trigger] subs_at(post, s2) == subs_at(pre, s2) by {
                        let v = choose|k: int| 0 <= k < pre.len()
                            && (#[trigger] pre[k]).0@ == s2;
                        assert(post[v].0@ == s2);
                        let w = choose|k: int| 0 <= k < post.len()
                            && (#[trigger] post[k]).0@ == s2;
                        assert(pre[w].0@ == s2);
                        assert(v == w) by {
                            if v != w {
                                assert(pre[v].0@ == s2 && pre[w].0@ == s2);
                            }
                        }
                    }
                }
            },
        }
    }

    /// How many subscriptions are recorded for `source`.
    pub fn subscriber_count(&self, source: &String) -> (r: usize)
        requires
            self.inv(),
        ensures
            r == if has_subs(self.spec_subscriptions(), source@) {
                subs_at(self.spec_subscriptions(), source@).len()
            } else {
                0
            },
    {
        match self.subs_index_of(source) {
            Some(i) => {
                proof {
                    let w = choose|k: int| 0 <= k < self.subscriptions@.len()
                        && (#[trigger] self.subscriptions@[k]).0@ == source@;
                    assert(w == i) by {
                        if w != i {
                            assert(self.subscriptions@[w].0@ == source@);
                            assert(self.subscriptions@[i as int].0@ == source@);
                        }
                    }
                }
                self.subscriptions[i].1.len()
            },
            None => 0,
        }
    }

    /// The relay listen address recorded for `source`, if any.
    pub fn get_proxy_address(&self, source: &String) -> (r: Option<String>)
        requires
            self.inv(),
        ensures
            match r {
                Some(addr) => has_proxy_for(self.spec_proxies(), source@)
                    && addr == proxy_at(self.spec_proxies(), source@).listen_address,
                None => !has_proxy_for(self.spec_proxies(), source@),
            },
    {
        match self.proxy_index_of(source) {
            Some(i) => {
                proof {
                    let w = choose|k: int| 0 <= k < self.proxies@.len()
                        && (#[trigger] self.proxies@[k]).source_tool_id@ == source@;
                    assert(w == i) by {
                        if w != i {
                            assert(self.proxies@[w].source_tool_id@ == source@);
                            assert(self.proxies@[i as int].source_tool_id@ == source@);
                        }
                    }
                }
                Some(self.proxies[i].listen_address.clone())
            },
            None => None,
        }
    }

    /// Whether a relay entry exists for `source`.
    pub fn has_proxy(&self, source: &String) -> (r: bool)
        ensures
            r == has_proxy_for(self.spec_proxies(), source@),
    {
        match self.proxy_index_of(source) {
            Some(i) => {
                proof {
                    assert(self.proxies@[i as int].source_tool_id@ == source@);
                }
                true
            },
            None => false,
        }
    }

    /// Reserve a fresh listen address for a relay, consuming one ordinal.
    pub fn reserve_relay_address(&mut self) -> (r: String)
        requires
            old(self).inv(),
            old(self).spec_next_seq() < u64::MAX,
        ensures
            final(self).inv(),
            r@ == spec_relay_address(old(self).spec_pid(), old(self).spec_next_seq()),
            final(self).spec_next_seq() == old(self).spec_next_seq() + 1,
            final(self).spec_pid() == old(self).spec_pid(),
            final(self).spec_connections() == old(self).spec_connections(),
            final(self).spec_subscriptions() == old(self).spec_subscriptions(),
            final(self).spec_proxies() == old(self).spec_proxies(),
    {
        let addr = make_relay_address(self.broker_pid, self.next_seq);
        self.next_seq = self.next_seq + 1;
        addr
    }

    /// Record the relay spawned for `source`, listening at `listen_address`.
    pub fn record_relay(&mut self, source: String, listen_address: String)
        requires
            old(self).inv(),
        ensures
            final(self).inv(),
            final(self).spec_pid() == old(self).spec_pid(),
            final(self).spec_next_seq() == old(self).spec_next_seq(),
            final(self).spec_connections() == old(self).spec_connections(),
            final(self).spec_subscriptions() == old(self).spec_subscriptions(),
            has_proxy_for(final(self).spec_proxies(), source@),
            proxy_at(final(self).spec_proxies(), source@).listen_address == listen_address,
            proxy_at(final(self).spec_proxies(), source@).source_tool_id == source,
            forall|s2: Seq<char>| s2 != source@
                ==> #[trigger] has_proxy_for(final(self).spec_proxies(), s2)
                    == has_proxy_for(old(self).spec_proxies(), s2),
            forall|s2: Seq<char>| s2 != source@
                && has_proxy_for(old(self).spec_proxies(), s2)
                ==> #[trigger] proxy_at(final(self).spec_proxies(), s2)
                    == proxy_at(old(self).spec_proxies(), s2),
    {
        let info = ProxyInfo { listen_address, source_tool_id: source };
        let found = self.proxy_index_of(&info.source_tool_id);
        let ghost pre = self.proxies@;
        let ghost key = info.source_tool_id@;
        match found {
            Some(i) => {
                self.proxies.set(i, info);
                proof {
                    let post = self.proxies@;
                    assert(post[i as int].source_tool_id@ == key);
                    let w = choose|k: int| 0 <= k < post.len()
                        && (#[trigger] post[k]).source_tool_id@ == key;
                    assert(w == i) by {
                        if w != i {
                            assert(pre[w].source_tool_id@ == key);
                            assert(pre[i as int].source_tool_id@ == key);
                        }
                    }
                    assert forall|s2: Seq<char>| s2 != key
                        implies #[trigger] has_proxy_for(post, s2)
                        == has_proxy_for(pre, s2) by {
                        if has_proxy_for(pre, s2) {
                            let v = choose|k: int| 0 <= k < pre.len()
                                && (#[trigger] pre[k]).source_tool_id@ == s2;
                            assert(post[v].source_tool_id@ == s2);
                        }
                        if has_proxy_for(post, s2) {
                            let v = choose|k: int| 0 <= k < post.len()
                                && (#[trigger] post[k]).source_tool_id@ == s2;
                            assert(pre[v].source_tool_id@ == s2);
                        }
                    }
                    assert forall|s2: Seq<char>| s2 != key
                        && has_proxy_for(pre, s2) implies #[trigger] proxy_at(post, s2)
                        == proxy_at(pre, s2) by {
                        let v = choose|k: int| 0 <= k < pre.len()
                            && (#[trigger] pre[k]).source_tool_id@ == s2;
                        assert(post[v].source_tool_id@ == s2);
                        let v2 = choose|k: int| 0 <= k < post.len()
                            && (#[trigger] post[k]).source_tool_id@ == s2;
                        assert(pre[v2].source_tool_id@ == s2);
                    }
                }
            },
            None => {
                self.proxies.push(info);
                proof {
                    let post = self.proxies@;
                    assert(post[pre.len() as int].source_tool_id@ == key);
                    let w = choose|k: int| 0 <= k < post.len()
                        && (#[trigger] post[k]).source_tool_id@ == key;
                    assert(w == pre.len()) by {
                        if w < pre.len() {
                            assert(pre[w].source_tool_id@ == key);
                        }
                    }
                    assert forall|s2: Seq<char>| s2 != key
                        implies #[trigger] has_proxy_for(post, s2)
                        == has_proxy_for(pre, s2) by {
                        if has_proxy_for(pre, s2) {
                            let v = choose|k: int| 0 <= k < pre.len()
                                && (#[trigger] pre[k]).source_tool_id@ == s2;
                            assert(post[v].source_tool_id@ == s2);
                        }
                        if has_proxy_for(post, s2) {
                            let v = choose|k: int| 0 <= k < post.len()
                                && (#[trigger] post[k]).source_tool_id@ == s2;
                            assert(pre[v].source_tool_id@ == s2);
                        }
                    }
                    assert forall|s2: Seq<char>| s2 != key
                        && has_proxy_for(pre, s2) implies #[trigger] proxy_at(post, s2)
                        == proxy_at(pre, s2) by {
                        let v = choose|k: int| 0 <= k < pre.len()
                            && (#[trigger] pre[k]).source_tool_id@ == s2;
                        assert(post[v].source_tool_id@ == s2);
                        let v2 = choose|k: int| 0 <= k < post.len()
                            && (#[trigger] post[k]).source_tool_id@ == s2;
                        assert(pre[v2].source_tool_id@ == s2);
                    }
                }
            },
        }
    }
}

/// The net effect of adding `subscriber` under `src`: the source's list
/// grows by one at the end, every other list is untouched.
pub open spec fn subs_with_added(
    pre: Seq<(String, Vec<String>)>,
    post: Seq<(String, Vec<String>)>,
    src: Seq<char>,
    subscriber: String,
) -> bool {
    &&& has_subs(post, src)
    &&& subs_at(post, src) == if has_subs(pre, src) {
        subs_at(pre, src).push(subscriber)
    } else {
        seq![subscriber]
    }
    &&& forall|s2: Seq<char>| s2 != src
        ==> #[trigger] has_subs(post, s2) == has_subs(pre, s2)
    &&& forall|s2: Seq<char>| s2 != src && has_subs(pre, s2)
        ==> #[trigger] subs_at(post, s2) == subs_at(pre, s2)
}


/// One rebuilt subscription entry `e` came from entry `j` of the old table
/// by scrubbing `id` from its subscriber list.
pub open spec fn scrubbed_from(
    t: Seq<(String, Vec<String>)>,
    j: int,
    e: (String, Vec<String>),
    id: Seq<char>,
) -> bool {
    0 <= j < t.len() && t[j].0 == e.0 && e.1@ == scrub_spec(t[j].1@, id)
}

/// The old-table index that a rebuilt entry came from.
pub open spec fn origin_of(
    t: Seq<(String, Vec<String>)>,
    e: (String, Vec<String>),
    id: Seq<char>,
) -> int {
    choose|j: int| scrubbed_from(t, j, e, id)
}

/// Entry `j` of the old table keys `src` and still has subscribers after
/// scrubbing `id`.
pub open spec fn survives_scrub(
    t: Seq<(String, Vec<String>)>,
    j: int,
    src: Seq<char>,
    id: Seq<char>,
) -> bool {
    0 <= j < t.len() && t[j].0@ == src && scrub_spec(t[j].1@, id).len() > 0
}

/// The full effect of unregistering `id`: gone from the registry, scrubbed
/// from every subscriber list, its own subscription list deleted, and its
/// relay entry removed; everything else untouched.
pub open spec fn state_after_unregister(pre: RouterState, post: RouterState, id: Seq<char>) -> bool {
    &&& post.inv()
    &&& post.spec_pid() == pre.spec_pid()
    &&& post.spec_next_seq() == pre.spec_next_seq()
    &&& !has_conn(post.spec_connections(), id)
    &&& forall|id2: Seq<char>| id2 != id
        ==> #[trigger] has_conn(post.spec_connections(), id2)
            == has_conn(pre.spec_connections(), id2)
    &&& forall|id2: Seq<char>| id2 != id && has_conn(pre.spec_connections(), id2)
        ==> #[trigger] conn_at(post.spec_connections(), id2)
            == conn_at(pre.spec_connections(), id2)
    &&& !has_subs(post.spec_subscriptions(), id)
    &&& forall|src: Seq<char>| src != id
        ==> (#[trigger] has_subs(post.spec_subscriptions(), src)
            <==> (has_subs(pre.spec_subscriptions(), src)
                && scrub_spec(subs_at(pre.spec_subscriptions(), src), id).len() > 0))
    &&& forall|src: Seq<char>| src != id && has_subs(post.spec_subscriptions(), src)
        ==> #[trigger] subs_at(post.spec_subscriptions(), src)
            == scrub_spec(subs_at(pre.spec_subscriptions(), src), id)
    &&& forall|src: Seq<char>, k: int|
        has_subs(post.spec_subscriptions(), src)
            && 0 <= k < subs_at(post.spec_subscriptions(), src).len()
            ==> (#[trigger] subs_at(post.spec_subscriptions(), src)[k])@ != id
    &&& !has_proxy_for(post.spec_proxies(), id)
    &&& forall|src: Seq<char>| src != id
        ==> #[trigger] has_proxy_for(post.spec_proxies(), src)
            == has_proxy_for(pre.spec_proxies(), src)
    &&& forall|src: Seq<char>| src != id && has_proxy_for(pre.spec_proxies(), src)
        ==> #[trigger] proxy_at(post.spec_proxies(), src)
            == proxy_at(pre.spec_proxies(), src)
}

impl RouterState {
    /// Remove a tool from the broker's state. Afterwards the tool appears in
    /// no subscriber list, its own subscription list is absent, and its
    /// relay entry is gone.
    pub fn unregister_connection(&mut self, tool_id: &String)
        requires
            old(self).inv(),
        ensures
            state_after_unregister(*old(self), *final(self), tool_id@),
    {
        let ghost id = tool_id@;
        // Registry.
        match self.conn_index_of(tool_id) {
            Some(i) => {
                let ghost pre = self.connections@;
                let _ = self.connections.remove(i);
                proof {
                    let post = self.connections@;
                    assert(forall|j: int| 0 <= j < post.len()
                        ==> post[j] == (if j < i { pre[j] } else { pre[j + 1] }));
                    assert(!has_conn(post, id)) by {
                        if has_conn(post, id) {
                            let w = choose|k: int| 0 <= k < post.len()
                                && (#[trigger] post[k]).tool_id@ == id;
                            let w0: int = if w < i { w } else { w + 1 };
                            assert(pre[w0].tool_id@ == id);
                            assert(pre[i as int].tool_id@ == id);
                        }
                    }
                    assert forall|id2: Seq<char>| id2 != id
                        implies #[trigger] has_conn(post, id2) == has_conn(pre, id2) by {
                        if has_conn(pre, id2) {
                            let v = choose|k: int| 0 <= k < pre.len()
                                && (#[trigger] pre[k]).tool_id@ == id2;
                            let v2: int = if v < i { v } else { v - 1 };
                            assert(post[v2].tool_id@ == id2);
                        }
                        if has_conn(post, id2) {
                            let w = choose|k: int| 0 <= k < post.len()
                                && (#[trigger] post[k]).tool_id@ == id2;
                            let w0: int = if w < i { w } else { w + 1 };
                            assert(pre[w0].tool_id@ == id2);
                        }
                    }
                    assert forall|id2: Seq<char>| id2 != id && has_conn(pre, id2)
                        implies #[trigger] conn_at(post, id2) == conn_at(pre, id2) by {
                        let v = choose|k: int| 0 <= k < pre.len()
                            && (#[trigger] pre[k]).tool_id@ == id2;
                        let v2: int = if v < i { v } else { v - 1 };
                        assert(post[v2].tool_id@ == id2);
                        let w = choose|k: int| 0 <= k < post.len()
                            && (#[trigger] post[k]).tool_id@ == id2;
                        let w0: int = if w < i { w } else { w + 1 };
                        assert(pre[w0].tool_id@ == id2);
                        assert(post[w] == pre[w0]);
                        assert(w0 == v) by {
                            if w0 != v {
                                assert(pre[w0].tool_id@ == id2 && pre[v].tool_id@ == id2);
                            }
                        }
                    }
                    assert(distinct_conns(post));
                }
            },
            None => {},
        }
        // Subscriptions: scrub the tool from every list, drop lists that end
        // up empty, and drop the tool's own list.
        let ghost spre = self.subscriptions@;
        let mut rebuilt: Vec<(String, Vec<String>)> = Vec::new();
        let mut i: usize = 0;
        while i < self.subscriptions.len()
            invariant
                i <= spre.len(),
                self.subscriptions@ == spre,
                distinct_subs(spre),
                id == tool_id@,
                forall|m: int| 0 <= m < rebuilt@.len()
                    ==> (#[trigger] rebuilt@[m]).0@ != id,
                forall|m: int| #![trigger rebuilt@[m]] 0 <= m < rebuilt@.len()
                    ==> origin_of(spre, rebuilt@[m], id) < i
                        && scrubbed_from(spre, origin_of(spre, rebuilt@[m], id), rebuilt@[m], id),
                forall|src: Seq<char>| #![trigger has_subs(rebuilt@, src)] src != id
                    ==> (has_subs(rebuilt@, src)
                        <==> exists|j: int| j < i && #[trigger] survives_scrub(spre, j, src, id)),
                distinct_subs(rebuilt@),
            decreases spre.len() - i,
        {
            let ghost rpre = rebuilt@;
            let src_matches = self.subscriptions[i].0 == *tool_id;
            if !src_matches {
                let scrubbed = scrub_list(&self.subscriptions[i].1, tool_id);
                if scrubbed.len() > 0 {
                    rebuilt.push((self.subscriptions[i].0.clone(), scrubbed));
                    proof {
                        let last = rebuilt@.len() - 1;
                        assert(rebuilt@[last].0 == spre[i as int].0);
                        assert(scrubbed_from(spre, i as int, rebuilt@[last], id));
                        assert(origin_of(spre, rebuilt@[last], id) == i) by {
                            let j = origin_of(spre, rebuilt@[last], id);
                            assert(scrubbed_from(spre, j, rebuilt@[last], id));
                            if j != i {
                                assert(spre[j].0@ == spre[i as int].0@);
                            }
                        }
                        assert(survives_scrub(spre, i as int, spre[i as int].0@, id));
                        assert(forall|m: int| 0 <= m < last ==> rebuilt@[m] == rpre[m]);
                        assert forall|m: int| 0 <= m < last
                            implies (#[trigger] rebuilt@[m]).0@ != spre[i as int].0@ by {
                            let j = origin_of(spre, rpre[m], id);
                            assert(scrubbed_from(spre, j, rpre[m], id));
                            assert(spre[j].0@ == rpre[m].0@);
                        }
                        assert forall|src: Seq<char>| #![trigger has_subs(rebuilt@, src)]
                            src != id implies (has_subs(rebuilt@, src)
                            <==> exists|j: int| j < i + 1
                                && #[trigger] survives_scrub(spre, j, src, id)) by {
                            if src == spre[i as int].0@ {
                                assert(rebuilt@[last].0@ == src);
                            } else {
                                if has_subs(rebuilt@, src) {
                                    let w = choose|k: int| 0 <= k < rebuilt@.len()
                                        && (#[trigger] rebuilt@[k]).0@ == src;
                                    assert(w < last);
                                    assert(rpre[w].0@ == src);
                                    assert(has_subs(rpre, src));
                                }
                                if exists|j: int| j < i + 1
                                    && #[trigger] survives_scrub(spre, j, src, id) {
                                    let j = choose|j: int| j < i + 1
                                        && #[trigger] survives_scrub(spre, j, src, id);
                                    assert(j != i);
                                    assert(has_subs(rpre, src));
                                    let w = choose|k: int| 0 <= k < rpre.len()
                                        && (#[trigger] rpre[k]).0@ == src;
                                    assert(rebuilt@[w].0@ == src);
                                }
                            }
                        }
                    }
                } else {
                    proof {
                        assert forall|src: Seq<char>| #![trigger has_subs(rebuilt@, src)]
                            src != id implies (has_subs(rebuilt@, src)
                            <==> exists|j: int| j < i + 1
                                && #[trigger] survives_scrub(spre, j, src, id)) by {
                            if exists|j: int| j < i + 1
                                && #[trigger] survives_scrub(spre, j, src, id) {
                                let j = choose|j: int| j < i + 1
                                    && #[trigger] survives_scrub(spre, j, src, id);
                                assert(j != i);
                            }
                        }
                    }
                }
            } else {
                proof {
                    assert forall|src: Seq<char>| #![trigger has_subs(rebuilt@, src)]
                        src != id implies (has_subs(rebuilt@, src)
                        <==> exists|j: int| j < i + 1
                            && #[trigger] survives_scrub(spre, j, src, id)) by {
                        if exists|j: int| j < i + 1
                            && #[trigger] survives_scrub(spre, j, src, id) {
                            let j = choose|j: int| j < i + 1
                                && #[trigger] survives_scrub(spre, j, src, id);
                            assert(j != i);
                        }
                    }
                }
            }
            proof {
                assert forall|m: int| #![trigger rebuilt@[m]] 0 <= m < rebuilt@.len()
                    implies origin_of(spre, rebuilt@[m], id) < i + 1
                        && scrubbed_from(spre, origin_of(spre, rebuilt@[m], id), rebuilt@[m], id) by {
                    if m < rpre.len() {
                        assert(rebuilt@[m] == rpre[m]);
                    }
                }
            }
            i = i + 1;
        }
        self.subscriptions = rebuilt;
        proof {
            let post = self.subscriptions@;
            assert(!has_subs(post, id)) by {
                if has_subs(post, id) {
                    let w = choose|k: int| 0 <= k < post.len()
                        && (#[trigger] post[k]).0@ == id;
                }
            }
            assert forall|src: Seq<char>| src != id
                implies (#[trigger] has_subs(post, src)
                <==> (has_subs(spre, src)
                    && scrub_spec(subs_at(spre, src), id).len() > 0)) by {
                if has_subs(post, src) {
                    let j = choose|j: int| j < spre.len()
                        && #[trigger] survives_scrub(spre, j, src, id);
                    assert(spre[j].0@ == src);
                    let v = choose|k: int| 0 <= k < spre.len()
                        && (#[trigger] spre[k]).0@ == src;
                    assert(v == j) by {
                        if v != j {
                            assert(spre[v].0@ == src && spre[j].0@ == src);
                        }
                    }
                    assert(subs_at(spre, src) == spre[j].1@);
                }
                if has_subs(spre, src) && scrub_spec(subs_at(spre, src), id).len() > 0 {
                    let v = choose|k: int| 0 <= k < spre.len()
                        && (#[trigger] spre[k]).0@ == src;
                    assert(subs_at(spre, src) == spre[v].1@);
                    assert(survives_scrub(spre, v, src, id));
                }
            }
            assert forall|src: Seq<char>| src != id && has_subs(post, src)
                implies #[trigger] subs_at(post, src)
                == scrub_spec(subs_at(spre, src), id) by {
                let w = choose|k: int| 0 <= k < post.len()
                    && (#[trigger] post[k]).0@ == src;
                let j = origin_of(spre, post[w], id);
                assert(scrubbed_from(spre, j, post[w], id));
                assert(spre[j].0@ == src);
                let v = choose|k: int| 0 <= k < spre.len()
                    && (#[trigger] spre[k]).0@ == src;
                assert(v == j) by {
                    if v != j {
                        assert(spre[v].0@ == src && spre[j].0@ == src);
                    }
                }
                assert(subs_at(spre, src) == spre[j].1@);
            }
            assert forall|src: Seq<char>, k: int|
                has_subs(post, src) && 0 <= k < subs_at(post, src).len()
                implies (#[trigger] subs_at(post, src)[k])@ != id by {
                let w = choose|m: int| 0 <= m < post.len()
                    && (#[trigger] post[m]).0@ == src;
                let j = origin_of(spre, post[w], id);
                assert(scrubbed_from(spre, j, post[w], id));
                lemma_scrub_removes(spre[j].1@, id);
            }
        }
        // Relay entry.
        match self.proxy_index_of(tool_id) {
            Some(i) => {
                let ghost ppre = self.proxies@;
                let _ = self.proxies.remove(i);
                proof {
                    let post = self.proxies@;
                    assert(forall|j: int| 0 <= j < post.len()
                        ==> post[j] == (if j < i { ppre[j] } else { ppre[j + 1] }));
                    assert(!has_proxy_for(post, id)) by {
                        if has_proxy_for(post, id) {
                            let w = choose|k: int| 0 <= k < post.len()
                                && (#[trigger] post[k]).source_tool_id@ == id;
                            let w0: int = if w < i { w } else { w + 1 };
                            assert(ppre[w0].source_tool_id@ == id);
                            assert(ppre[i as int].source_tool_id@ == id);
                        }
                    }
                    assert forall|s2: Seq<char>| s2 != id
                        implies #[trigger] has_proxy_for(post, s2)
                        == has_proxy_for(ppre, s2) by {
                        if has_proxy_for(ppre, s2) {
                            let v = choose|k: int| 0 <= k < ppre.len()
                                && (#[trigger] ppre[k]).source_tool_id@ == s2;
                            let v2: int = if v < i { v } else { v - 1 };
                            assert(post[v2].source_tool_id@ == s2);
                        }
                        if has_proxy_for(post, s2) {
                            let w = choose|k: int| 0 <= k < post.len()
                                && (#[trigger] post[k]).source_tool_id@ == s2;
                            let w0: int = if w < i { w } else { w + 1 };
                            assert(ppre[w0].source_tool_id@ == s2);
                        }
                    }
                    assert forall|s2: Seq<char>| s2 != id && has_proxy_for(ppre, s2)
                        implies #[trigger] proxy_at(post, s2) == proxy_at(ppre, s2) by {
                        let v = choose|k: int| 0 <= k < ppre.len()
                            && (#[trigger] ppre[k]).source_tool_id@ == s2;
                        let v2: int = if v < i { v } else { v - 1 };
                        assert(post[v2].source_tool_id@ == s2);
                        let w = choose|k: int| 0 <= k < post.len()
                            && (#[trigger] post[k]).source_tool_id@ == s2;
                        let w0: int = if w < i { w } else { w + 1 };
                        assert(ppre[w0].source_tool_id@ == s2);
                        assert(post[w] == ppre[w0]);
                        assert(w0 == v) by {
                            if w0 != v {
                                assert(ppre[w0].source_tool_id@ == s2
                                    && ppre[v].source_tool_id@ == s2);
                            }
                        }
                    }
                    assert(distinct_proxies(post));
                }
            },
            None => {},
        }
    }
}


/// One peer's control-connection state: pre-registered until a `Connect` is
/// accepted, then registered under the assigned identity.
#[derive(Debug)]
pub struct PeerSession {
    /// The identity the broker assigned, once registered.
    pub tool_id: Option<String>,
}

/// The identity string of a registered session.
pub open spec fn session_tool(s: PeerSession) -> String {
    match s.tool_id {
        Some(t) => t,
        None => arbitrary(),
    }
}

impl PeerSession {
    /// A fresh, pre-registered session.
    pub fn new() -> (r: PeerSession)
        ensures
            r.tool_id is None,
    {
        PeerSession { tool_id: None }
    }
}

/// What the broker asks its surroundings to do after one message.
#[derive(Debug)]
pub enum BrokerAction {
    /// Keep serving this peer.
    Stay,
    /// Close the connection after sending any reply.
    CloseConnection,
    /// Spawn a relay for `source`: connect it to `upstream_address`, listen
    /// at `listen_address`; then report the outcome to `complete_subscribe`
    /// with the fields carried here.
    SpawnRelay {
        source: String,
        upstream_address: String,
        listen_address: String,
        capabilities: Vec<String>,
    },
}

/// Tables and counter untouched.
pub open spec fn state_unchanged(pre: RouterState, post: RouterState) -> bool {
    &&& post.spec_next_seq() == pre.spec_next_seq()
    &&& post.spec_connections() == pre.spec_connections()
    &&& post.spec_subscriptions() == pre.spec_subscriptions()
    &&& post.spec_proxies() == pre.spec_proxies()
}

/// The reply to a client-originated message that arrived before `Connect`.
pub fn protocol_error_reply() -> (r: ControlMessage)
    ensures
        r matches ControlMessage::Error { code, message } && code@ == "PROTOCOL"@
            && message@ == "message out of sequence"@,
{
    ControlMessage::Error {
        code: String::from_str("PROTOCOL"),
        message: String::from_str("message out of sequence"),
    }
}

/// The reply to a control line that could not be parsed; the connection is
/// failed afterwards.
pub fn bad_request_reply() -> (r: ControlMessage)
    ensures
        r matches ControlMessage::Error { code, message } && code@ == "BAD_REQUEST"@
            && message@ == "malformed control line"@,
{
    ControlMessage::Error {
        code: String::from_str("BAD_REQUEST"),
        message: String::from_str("malformed control line"),
    }
}

/// The reply when `target` is not registered.
fn not_found_reply(target: &String) -> (r: ControlMessage)
    ensures
        r matches ControlMessage::Error { code, message } && code@ == "NOT_FOUND"@
            && message@ == "Tool "@ + target@ + " not found"@,
{
    let mut message = String::from_str("Tool ");
    message.append(target.as_str());
    message.append(" not found");
    ControlMessage::Error { code: String::from_str("NOT_FOUND"), message }
}

/// Handle one decoded control message from a peer, returning the reply to
/// send (never more than one) and what to do next. A `SpawnRelay` action
/// must be completed through `complete_subscribe`.
pub fn handle_message(
    state: &mut RouterState,
    session: &mut PeerSession,
    msg: ControlMessage,
) -> (outcome: (Option<ControlMessage>, BrokerAction))
    requires
        old(state).inv(),
        old(state).spec_next_seq() < u64::MAX,
    ensures
        final(state).inv(),
        final(state).spec_pid() == old(state).spec_pid(),
        match msg {
            ControlMessage::Connect { capabilities } => {
                let id = spec_tool_id(old(state).spec_pid(), old(state).spec_next_seq());
                &&& final(state).spec_next_seq() == old(state).spec_next_seq() + 1
                &&& final(state).spec_subscriptions() == old(state).spec_subscriptions()
                &&& final(state).spec_proxies() == old(state).spec_proxies()
                &&& final(session).tool_id matches Some(t) && t@ == id
                &&& has_conn(final(state).spec_connections(), id)
                &&& conn_at(final(state).spec_connections(), id).data_listen_address@
                    == spec_data_address(id)
                &&& conn_at(final(state).spec_connections(), id).capabilities == capabilities
                &&& forall|id2: Seq<char>| id2 != id
                    ==> #[trigger] has_conn(final(state).spec_connections(), id2)
                        == has_conn(old(state).spec_connections(), id2)
                &&& forall|id2: Seq<char>| id2 != id
                    && has_conn(old(state).spec_connections(), id2)
                    ==> #[trigger] conn_at(final(state).spec_connections(), id2)
                        == conn_at(old(state).spec_connections(), id2)
                &&& outcome.0 matches Some(ControlMessage::ConnectAck {
                    tool_id,
                    data_listen_address,
                }) && tool_id@ == id && data_listen_address@ == spec_data_address(id)
                &&& outcome.1 is Stay
            },
            ControlMessage::Subscribe { target } => {
                if old(session).tool_id is None {
                    &&& state_unchanged(*old(state), *final(state))
                    &&& final(session).tool_id == old(session).tool_id
                    &&& outcome.0 matches Some(ControlMessage::Error { code, .. })
                        && code@ == "PROTOCOL"@
                    &&& outcome.1 is CloseConnection
                } else if !has_conn(old(state).spec_connections(), target@) {
                    &&& state_unchanged(*old(state), *final(state))
                    &&& final(session).tool_id == old(session).tool_id
                    &&& outcome.0 matches Some(ControlMessage::Error { code, message })
                        && code@ == "NOT_FOUND"@
                        && message@ == "Tool "@ + target@ + " not found"@
                    &&& outcome.1 is Stay
                } else {
                    let info = conn_at(old(state).spec_connections(), target@);
                    &&& final(state).spec_connections() == old(state).spec_connections()
                    &&& final(session).tool_id == old(session).tool_id
                    &&& subs_with_added(
                        old(state).spec_subscriptions(),
                        final(state).spec_subscriptions(),
                        target@,
                        session_tool(*old(session)),
                    )
                    &&& final(state).spec_proxies() == old(state).spec_proxies()
                    &&& if has_proxy_for(old(state).spec_proxies(), target@) {
                        &&& final(state).spec_next_seq() == old(state).spec_next_seq()
                        &&& outcome.0 matches Some(ControlMessage::SubscribeAck {
                            data_connect_address,
                            capabilities,
                        }) && data_connect_address
                            == proxy_at(old(state).spec_proxies(), target@).listen_address
                            && capabilities@ == info.capabilities@
                        &&& outcome.1 is Stay
                    } else {
                        &&& final(state).spec_next_seq() == old(state).spec_next_seq() + 1
                        &&& outcome.0 is None
                        &&& outcome.1 matches BrokerAction::SpawnRelay {
                            source,
                            upstream_address,
                            listen_address,
                            capabilities,
                        } && source@ == target@
                            && upstream_address == info.data_listen_address
                            && listen_address@ == spec_relay_address(
                                old(state).spec_pid(),
                                old(state).spec_next_seq(),
                            )
                            && capabilities@ == info.capabilities@
                    }
                }
            },
            ControlMessage::Unsubscribe { .. } => {
                if old(session).tool_id is None {
                    &&& state_unchanged(*old(state), *final(state))
                    &&& final(session).tool_id == old(session).tool_id
                    &&& outcome.0 matches Some(ControlMessage::Error { code, .. })
                        && code@ == "PROTOCOL"@
                    &&& outcome.1 is CloseConnection
                } else {
                    &&& state_unchanged(*old(state), *final(state))
                    &&& final(session).tool_id == old(session).tool_id
                    &&& outcome.0 is None
                    &&& outcome.1 is Stay
                }
            },
            ControlMessage::QueryCapabilities { target } => {
                &&& state_unchanged(*old(state), *final(state))
                &&& final(session).tool_id == old(session).tool_id
                &&& if old(session).tool_id is None {
                    &&& outcome.0 matches Some(ControlMessage::Error { code, .. })
                        && code@ == "PROTOCOL"@
                    &&& outcome.1 is CloseConnection
                } else if has_conn(old(state).spec_connections(), target@) {
                    &&& outcome.0 matches Some(ControlMessage::CapabilitiesResponse {
                        capabilities,
                    }) && capabilities@
                        == conn_at(old(state).spec_connections(), target@).capabilities@
                    &&& outcome.1 is Stay
                } else {
                    &&& outcome.0 matches Some(ControlMessage::Error { code, message })
                        && code@ == "NOT_FOUND"@
                        && message@ == "Tool "@ + target@ + " not found"@
                    &&& outcome.1 is Stay
                }
            },
            ControlMessage::QueryTools => {
                &&& state_unchanged(*old(state), *final(state))
                &&& final(session).tool_id == old(session).tool_id
                &&& if old(session).tool_id is None {
                    &&& outcome.0 matches Some(ControlMessage::Error { code, .. })
                        && code@ == "PROTOCOL"@
                    &&& outcome.1 is CloseConnection
                } else {
                    &&& outcome.0 matches Some(ControlMessage::ToolsResponse { tools })
                        && tools@.len() == old(state).spec_connections().len()
                        && forall|i: int| 0 <= i < tools@.len()
                            ==> (#[trigger] tools@[i]).tool_id
                                == old(state).spec_connections()[i].tool_id
                                && tools@[i].capabilities@
                                    == old(state).spec_connections()[i].capabilities@
                    &&& outcome.1 is Stay
                }
            },
            ControlMessage::Disconnect => {
                if old(session).tool_id is None {
                    &&& state_unchanged(*old(state), *final(state))
                    &&& final(session).tool_id == old(session).tool_id
                    &&& outcome.0 matches Some(ControlMessage::Error { code, .. })
                        && code@ == "PROTOCOL"@
                    &&& outcome.1 is CloseConnection
                } else {
                    &&& state_after_unregister(
                        *old(state),
                        *final(state),
                        session_tool(*old(session))@,
                    )
                    &&& final(session).tool_id is None
                    &&& outcome.0 is None
                    &&& outcome.1 is CloseConnection
                }
            },
            _ => {
                &&& state_unchanged(*old(state), *final(state))
                &&& final(session).tool_id == old(session).tool_id
                &&& if old(session).tool_id is None {
                    &&& outcome.0 matches Some(ControlMessage::Error { code, .. })
                        && code@ == "PROTOCOL"@
                    &&& outcome.1 is CloseConnection
                } else {
                    &&& outcome.0 is None
                    &&& outcome.1 is Stay
                }
            },
        },
{
    match msg {
        ControlMessage::Connect { capabilities } => {
            let tid = state.assign_tool_id();
            let data_addr = RouterState::assign_data_address(tid.as_str());
            state.register_connection(tid.clone(), data_addr.clone(), capabilities);
            session.tool_id = Some(tid.clone());
            (
                Some(ControlMessage::ConnectAck { tool_id: tid, data_listen_address: data_addr }),
                BrokerAction::Stay,
            )
        },
        ControlMessage::Subscribe { target } => {
            let registered = match &session.tool_id {
                Some(sub) => Some(sub.clone()),
                None => None,
            };
            match registered {
                None => (Some(protocol_error_reply()), BrokerAction::CloseConnection),
                Some(subscriber) => {
                    match state.get_connection(&target) {
                        None => (Some(not_found_reply(&target)), BrokerAction::Stay),
                        Some(info) => {
                            state.add_subscription(&target, subscriber);
                            match state.get_proxy_address(&target) {
                                Some(addr) => (
                                    Some(ControlMessage::SubscribeAck {
                                        data_connect_address: addr,
                                        capabilities: info.capabilities,
                                    }),
                                    BrokerAction::Stay,
                                ),
                                None => {
                                    let listen = state.reserve_relay_address();
                                    (
                                        None,
                                        BrokerAction::SpawnRelay {
                                            source: target,
                                            upstream_address: info.data_listen_address,
                                            listen_address: listen,
                                            capabilities: info.capabilities,
                                        },
                                    )
                                },
                            }
                        },
                    }
                },
            }
        },
        ControlMessage::Unsubscribe { .. } => {
            match &session.tool_id {
                None => (Some(protocol_error_reply()), BrokerAction::CloseConnection),
                Some(_) => (None, BrokerAction::Stay),
            }
        },
        ControlMessage::QueryCapabilities { target } => {
            match &session.tool_id {
                None => (Some(protocol_error_reply()), BrokerAction::CloseConnection),
                Some(_) => {
                    match state.get_connection(&target) {
                        Some(info) => (
                            Some(ControlMessage::CapabilitiesResponse {
                                capabilities: info.capabilities,
                            }),
                            BrokerAction::Stay,
                        ),
                        None => (Some(not_found_reply(&target)), BrokerAction::Stay),
                    }
                },
            }
        },
        ControlMessage::QueryTools => {
            match &session.tool_id {
                None => (Some(protocol_error_reply()), BrokerAction::CloseConnection),
                Some(_) => (
                    Some(ControlMessage::ToolsResponse { tools: state.list_tools() }),
                    BrokerAction::Stay,
                ),
            }
        },
        ControlMessage::Disconnect => {
            let prev = session.tool_id.take();
            match prev {
                None => (Some(protocol_error_reply()), BrokerAction::CloseConnection),
                Some(tid) => {
                    state.unregister_connection(&tid);
                    (None, BrokerAction::CloseConnection)
                },
            }
        },
        _ => {
            match &session.tool_id {
                None => (Some(protocol_error_reply()), BrokerAction::CloseConnection),
                Some(_) => (None, BrokerAction::Stay),
            }
        },
    }
}

/// Finish a subscription whose relay the surroundings tried to spawn: on
/// success record the relay and acknowledge with its listen address; on
/// failure fall back to the source's direct address (best-effort, a single
/// consumer only).
pub fn complete_subscribe(
    state: &mut RouterState,
    source: String,
    listen_address: String,
    direct_address: String,
    capabilities: Vec<String>,
    spawned: bool,
) -> (reply: ControlMessage)
    requires
        old(state).inv(),
    ensures
        final(state).inv(),
        final(state).spec_pid() == old(state).spec_pid(),
        final(state).spec_next_seq() == old(state).spec_next_seq(),
        final(state).spec_connections() == old(state).spec_connections(),
        final(state).spec_subscriptions() == old(state).spec_subscriptions(),
        if spawned {
            &&& has_proxy_for(final(state).spec_proxies(), source@)
            &&& proxy_at(final(state).spec_proxies(), source@).listen_address@
                == listen_address@
            &&& forall|s2: Seq<char>| s2 != source@
                ==> #[trigger] has_proxy_for(final(state).spec_proxies(), s2)
                    == has_proxy_for(old(state).spec_proxies(), s2)
            &&& forall|s2: Seq<char>| s2 != source@
                && has_proxy_for(old(state).spec_proxies(), s2)
                ==> #[trigger] proxy_at(final(state).spec_proxies(), s2)
                    == proxy_at(old(state).spec_proxies(), s2)
            &&& reply matches ControlMessage::SubscribeAck {
                data_connect_address,
                capabilities: caps,
            } && data_connect_address@ == listen_address@ && caps == capabilities
        } else {
            &&& final(state).spec_proxies() == old(state).spec_proxies()
            &&& reply matches ControlMessage::SubscribeAck {
                data_connect_address,
                capabilities: caps,
            } && data_connect_address == direct_address && caps == capabilities
        },
{
    if spawned {
        let acked = listen_address.clone();
        state.record_relay(source, listen_address);
        ControlMessage::SubscribeAck { data_connect_address: acked, capabilities }
    } else {
        ControlMessage::SubscribeAck { data_connect_address: direct_address, capabilities }
    }
}

/// Handle the peer's socket reaching end of file: a registered tool is
/// unregistered, an unregistered peer leaves nothing to clean up.
pub fn handle_eof(state: &mut RouterState, session: &mut PeerSession)
    requires
        old(state).inv(),
    ensures
        final(state).inv(),
        final(state).spec_pid() == old(state).spec_pid(),
        final(session).tool_id is None,
        if old(session).tool_id is Some {
            state_after_unregister(*old(state), *final(state), session_tool(*old(session))@)
        } else {
            state_unchanged(*old(state), *final(state))
        },
{
    let prev = session.tool_id.take();
    match prev {
        Some(tid) => {
            state.unregister_connection(&tid);
        },
        None => {},
    }
}

/// How many replies one broker step emits.
pub open spec fn spec_reply_count(reply: Option<ControlMessage>) -> int {
    match reply {
        Some(_) => 1,
        None => 0,
    }
}

/// Law: for every control message accepted from a peer, the broker emits at
/// most one reply before processing the peer's next message. One step of
/// `handle_message` carries its replies in an `Option`, and this bound
/// holds of every such value.
pub proof fn lemma_at_most_one_reply(reply: Option<ControlMessage>)
    ensures
        spec_reply_count(reply) <= 1,
{
}

/// Law: while a relay entry for `target` exists, every relay-table entry
/// for `target` carries the same listen address, so two subscribers
/// acknowledged for the same target are handed equal connect addresses.
pub proof fn lemma_same_relay_address(s: RouterState, target: Seq<char>, i: int, j: int)
    requires
        s.inv(),
        0 <= i < s.spec_proxies().len(),
        s.spec_proxies()[i].source_tool_id@ == target,
        0 <= j < s.spec_proxies().len(),
        s.spec_proxies()[j].source_tool_id@ == target,
    ensures
        s.spec_proxies()[i].listen_address == s.spec_proxies()[j].listen_address,
        s.spec_proxies()[i].listen_address == proxy_at(s.spec_proxies(), target).listen_address,
{
    let t = s.spec_proxies();
    assert(i == j) by {
        if i != j {
            assert(t[i].source_tool_id@ == target && t[j].source_tool_id@ == target);
        }
    }
    let w = choose|k: int| 0 <= k < t.len() && (#[trigger] t[k]).source_tool_id@ == target;
    assert(w == i) by {
        if w != i {
            assert(t[w].source_tool_id@ == target && t[i].source_tool_id@ == target);
        }
    }
}

} // verus!
