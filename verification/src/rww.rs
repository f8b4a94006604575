use crate::ids::{json_quote, json_string_literal, new_ulid, ulid_text, ulid_to_string};
use crate::text::{decimal, push_decimal};
use vstd::prelude::*;
use vstd::slice::slice_to_vec;
use vstd::utf8::encode_utf8;

verus! {

/// One message on the real-world-wide fabric.
#[derive(Debug)]
pub struct RwwMessage {
    pub id: String,
    pub subject: String,
    pub payload: Vec<u8>,
    pub at_tick: u64,
}

/// The contents of a message as plain values.
pub struct MessageView {
    pub id: Seq<char>,
    pub subject: Seq<char>,
    pub payload: Seq<u8>,
    pub at_tick: u64,
}

impl View for RwwMessage {
    type V = MessageView;

    open spec fn view(&self) -> MessageView {
        MessageView {
            id: self.id@,
            subject: self.subject@,
            payload: self.payload@,
            at_tick: self.at_tick,
        }
    }
}

impl Clone for RwwMessage {
    fn clone(&self) -> (r: Self)
        ensures
            r@ == self@,
    {
        let payload = self.payload.clone();
        proof {
            assert(payload@ =~= self.payload@);
        }
        RwwMessage {
            id: self.id.clone(),
            subject: self.subject.clone(),
            payload,
            at_tick: self.at_tick,
        }
    }
}

pub open spec fn message_views(s: Seq<RwwMessage>) -> Seq<MessageView> {
    s.map_values(|m: RwwMessage| m@)
}

/// The messages of `s` on `subject`, in order.
pub open spec fn on_subject(s: Seq<MessageView>, subject: Seq<char>) -> Seq<MessageView>
    decreases s.len(),
{
    if s.len() == 0 {
        Seq::empty()
    } else if s.last().subject == subject {
        on_subject(s.drop_last(), subject).push(s.last())
    } else {
        on_subject(s.drop_last(), subject)
    }
}

/// `x` placed into a tick-ordered sequence after every message not later than it.
pub open spec fn insert_by_tick(s: Seq<MessageView>, x: MessageView) -> Seq<MessageView>
    decreases s.len(),
{
    if s.len() == 0 {
        seq![x]
    } else if s.last().at_tick <= x.at_tick {
        s.push(x)
    } else {
        insert_by_tick(s.drop_last(), x).push(s.last())
    }
}

/// Stable sort by tick: equal ticks keep their order.
pub open spec fn sort_by_tick(s: Seq<MessageView>) -> Seq<MessageView>
    decreases s.len(),
{
    if s.len() == 0 {
        Seq::empty()
    } else {
        insert_by_tick(sort_by_tick(s.drop_last()), s.last())
    }
}

/// The last `n` elements (all of them when there are fewer).
pub open spec fn last_n(s: Seq<MessageView>, n: nat) -> Seq<MessageView> {
    if s.len() > n {
        s.subrange(s.len() - n, s.len() as int)
    } else {
        s
    }
}

/// Ticks never decrease along the sequence.
pub open spec fn tick_sorted(s: Seq<MessageView>) -> bool {
    forall|i: int, j: int| 0 <= i <= j < s.len() ==> s[i].at_tick <= s[j].at_tick
}

proof fn lemma_insert_at(s: Seq<MessageView>, x: MessageView, pos: int)
    requires
        0 <= pos <= s.len(),
        forall|k: int| pos <= k < s.len() ==> s[k].at_tick > x.at_tick,
        pos > 0 ==> s[pos - 1].at_tick <= x.at_tick,
    ensures
        insert_by_tick(s, x) == s.insert(pos, x),
    decreases s.len(),
{
    if s.len() == 0 {
        assert(s.insert(pos, x) =~= seq![x]);
    } else if s.last().at_tick <= x.at_tick {
        assert(pos == s.len());
        assert(s.insert(pos, x) =~= s.push(x));
    } else {
        lemma_insert_at(s.drop_last(), x, pos);
        assert(s.drop_last().insert(pos, x).push(s.last()) =~= s.insert(pos, x));
    }
}

proof fn lemma_insert_keeps_sorted(s: Seq<MessageView>, x: MessageView)
    requires
        tick_sorted(s),
    ensures
        tick_sorted(insert_by_tick(s, x)),
        insert_by_tick(s, x).len() == s.len() + 1,
    decreases s.len(),
{
    if s.len() > 0 && s.last().at_tick > x.at_tick {
        let d = s.drop_last();
        lemma_insert_keeps_sorted(d, x);
        let r = insert_by_tick(d, x);
        lemma_insert_members(d, x);
        assert forall|i: int, j: int| 0 <= i <= j < r.push(s.last()).len() implies r.push(
            s.last(),
        )[i].at_tick <= r.push(s.last())[j].at_tick by {
            if j == r.len() && i < r.len() {
                assert(r.contains(r[i]));
            }
        }
    }
}

proof fn lemma_insert_members(s: Seq<MessageView>, x: MessageView)
    requires
        tick_sorted(s),
    ensures
        forall|y: MessageView| insert_by_tick(s, x).contains(y) ==> y == x || s.contains(y),
        forall|y: MessageView| s.len() > 0 && insert_by_tick(s, x).contains(y) ==> y.at_tick <= (
        if x.at_tick > s.last().at_tick { x.at_tick } else { s.last().at_tick }),
    decreases s.len(),
{
    if s.len() > 0 {
        let d = s.drop_last();
        if s.last().at_tick > x.at_tick {
            lemma_insert_members(d, x);
            let r = insert_by_tick(d, x);
            assert forall|y: MessageView| r.push(s.last()).contains(y) implies y == x || s.contains(y) by {
                let k = choose|k: int| 0 <= k < r.push(s.last()).len() && r.push(s.last())[k] == y;
                if k < r.len() {
                    assert(r.contains(y));
                    if y != x {
                        assert(d.contains(y));
                        let m = choose|m: int| 0 <= m < d.len() && d[m] == y;
                        assert(s[m] == y);
                    }
                } else {
                    assert(s[s.len() - 1] == y);
                }
            }
        } else {
            assert forall|y: MessageView| s.push(x).contains(y) implies y == x || s.contains(y) by {
                let k = choose|k: int| 0 <= k < s.push(x).len() && s.push(x)[k] == y;
                if k < s.len() {
                    assert(s[k] == y);
                }
            }
        }
        assert forall|y: MessageView| insert_by_tick(s, x).contains(y) implies y.at_tick <= (
        if x.at_tick > s.last().at_tick { x.at_tick } else { s.last().at_tick }) by {
            if y != x {
                assert(s.contains(y));
                let m = choose|m: int| 0 <= m < s.len() && s[m] == y;
                assert(s[m].at_tick <= s[s.len() - 1].at_tick);
            }
        }
    }
}

/// Whatever order they came in, the sorted messages are ordered by tick.
pub proof fn lemma_sorted_by_tick(s: Seq<MessageView>)
    ensures
        tick_sorted(sort_by_tick(s)),
        sort_by_tick(s).len() == s.len(),
    decreases s.len(),
{
    if s.len() > 0 {
        lemma_sorted_by_tick(s.drop_last());
        lemma_insert_keeps_sorted(sort_by_tick(s.drop_last()), s.last());
    }
}

/// Sorts `v` by tick, keeping the order of equal ticks.
fn sort_messages(v: Vec<RwwMessage>) -> (r: Vec<RwwMessage>)
    ensures
        message_views(r@) == sort_by_tick(message_views(v@)),
{
    let ghost orig = message_views(v@);
    let mut rest = v;
    let mut out: Vec<RwwMessage> = Vec::new();
    let ghost mut k: int = 0;
    proof {
        lemma_sorted_by_tick(orig.take(0));
    }
    while rest.len() > 0
        invariant
            0 <= k <= orig.len(),
            message_views(rest@) == orig.subrange(k, orig.len() as int),
            message_views(out@) == sort_by_tick(orig.take(k)),
            tick_sorted(message_views(out@)),
        decreases rest@.len(),
    {
        let ghost rest_before = rest@;
        proof {
            assert(message_views(rest_before).len() == rest_before.len());
            assert(message_views(rest_before)[0] == rest_before[0]@);
            assert(orig.subrange(k, orig.len() as int)[0] == orig[k]);
        }
        let item = rest.remove(0);
        proof {
            assert(item@ == orig[k]);
            assert(orig.take(k + 1).drop_last() =~= orig.take(k));
            assert(orig.take(k + 1).last() == orig[k]);
            assert(message_views(rest@) =~= message_views(rest_before).drop_first());
            assert(message_views(rest@) =~= orig.subrange(k + 1, orig.len() as int));
        }
        let mut pos: usize = out.len();
        while pos > 0 && out[pos - 1].at_tick > item.at_tick
            invariant
                pos <= out@.len(),
                forall|j: int| pos <= j < out@.len() ==> out@[j].at_tick > item.at_tick,
            decreases pos,
        {
            pos = pos - 1;
        }
        proof {
            let sv = message_views(out@);
            lemma_insert_at(sv, item@, pos as int);
            lemma_insert_keeps_sorted(sv, item@);
        }
        let ghost out_before = out@;
        out.insert(pos, item);
        proof {
            assert(message_views(out@) =~= message_views(out_before).insert(pos as int, item@));
            k = k + 1;
        }
    }
    proof {
        assert(orig.take(k) =~= orig);
    }
    out
}

/// A message with this subject and id is already held.
pub open spec fn has_message(s: Seq<MessageView>, subject: Seq<char>, id: Seq<char>) -> bool {
    exists|i: int| 0 <= i < s.len() && s[i].subject == subject && s[i].id == id
}

/// A store after receiving `m`: duplicates (same subject and id) are ignored.
pub open spec fn stored(s: Seq<MessageView>, m: MessageView) -> Seq<MessageView> {
    if has_message(s, m.subject, m.id) { s } else { s.push(m) }
}

/// Both message stores of one process, each keeping messages in arrival order.
#[derive(Debug)]
pub struct MemoryStore {
    durable: Vec<RwwMessage>,
    ephemeral: Vec<RwwMessage>,
}

impl MemoryStore {
    pub closed spec fn durable_view(&self) -> Seq<MessageView> {
        message_views(self.durable@)
    }

    pub closed spec fn ephemeral_view(&self) -> Seq<MessageView> {
        message_views(self.ephemeral@)
    }

    pub fn new() -> (s: Self)
        ensures
            s.durable_view() == Seq::<MessageView>::empty(),
            s.ephemeral_view() == Seq::<MessageView>::empty(),
    {
        let s = MemoryStore { durable: Vec::new(), ephemeral: Vec::new() };
        proof {
            assert(s.durable_view() =~= Seq::<MessageView>::empty());
            assert(s.ephemeral_view() =~= Seq::<MessageView>::empty());
        }
        s
    }

    /// Stores `msg` in the durable or the ephemeral store, unless a message with the same
    /// id is already stored there under the same subject.
    pub fn insert(&mut self, msg: RwwMessage, durable: bool)
        ensures
            durable ==> final(self).durable_view() == stored(old(self).durable_view(), msg@),
            durable ==> final(self).ephemeral_view() == old(self).ephemeral_view(),
            !durable ==> final(self).ephemeral_view() == stored(old(self).ephemeral_view(), msg@),
            !durable ==> final(self).durable_view() == old(self).durable_view(),
    {
        if durable {
            if !contains_id(&self.durable, &msg.subject, &msg.id) {
                let ghost before = self.durable@;
                self.durable.push(msg);
                proof {
                    assert(message_views(self.durable@) =~= message_views(before).push(msg@));
                }
            }
        } else {
            if !contains_id(&self.ephemeral, &msg.subject, &msg.id) {
                let ghost before = self.ephemeral@;
                self.ephemeral.push(msg);
                proof {
                    assert(message_views(self.ephemeral@) =~= message_views(before).push(msg@));
                }
            }
        }
    }

    /// The messages on `subject`, durable ones first, stably sorted by tick, of which
    /// the last `limit` are kept.
    pub fn recent(&self, subject: &str, limit: usize) -> (out: Vec<RwwMessage>)
        ensures
            message_views(out@) == last_n(
                sort_by_tick(
                    on_subject(self.durable_view(), subject@) + on_subject(self.ephemeral_view(), subject@),
                ),
                limit as nat,
            ),
    {
        let mut msgs = copy_on_subject(&self.durable, subject);
        let mut more = copy_on_subject(&self.ephemeral, subject);
        let ghost a = message_views(msgs@);
        let ghost b = message_views(more@);
        msgs.append(&mut more);
        proof {
            assert(message_views(msgs@) =~= a + b);
        }
        let mut sorted = sort_messages(msgs);
        proof {
            lemma_sorted_by_tick(a + b);
        }
        if sorted.len() > limit {
            let at = sorted.len() - limit;
            let tail = sorted.split_off(at);
            proof {
                assert(message_views(tail@) =~= last_n(sort_by_tick(a + b), limit as nat));
            }
            return tail;
        }
        sorted
    }
}

fn contains_id(v: &Vec<RwwMessage>, subject: &String, id: &String) -> (r: bool)
    ensures
        r == has_message(message_views(v@), subject@, id@),
{
    let ghost mv = message_views(v@);
    assert(mv.len() == v@.len());
    assert(forall|i: int| 0 <= i < v@.len() ==> mv[i] == #[trigger] v@[i]@);
    let mut i: usize = 0;
    while i < v.len()
        invariant
            i <= v@.len(),
            mv == message_views(v@),
            forall|k: int| 0 <= k < i ==> !(mv[k].subject == subject@ && mv[k].id == id@),
        decreases v@.len() - i,
    {
        assert(mv[i as int] == v@[i as int]@);
        if v[i].subject == *subject && v[i].id == *id {
            proof {
                assert(mv[i as int].subject == subject@ && mv[i as int].id == id@);
            }
            return true;
        }
        i = i + 1;
    }
    false
}

fn copy_on_subject(v: &Vec<RwwMessage>, subject: &str) -> (r: Vec<RwwMessage>)
    ensures
        message_views(r@) == on_subject(message_views(v@), subject@),
{
    let ghost all = message_views(v@);
    let mut out: Vec<RwwMessage> = Vec::new();
    let mut i: usize = 0;
    proof {
        assert(all.take(0) =~= Seq::<MessageView>::empty());
        assert(message_views(out@) =~= Seq::<MessageView>::empty());
    }
    while i < v.len()
        invariant
            i <= v@.len(),
            all == message_views(v@),
            message_views(out@) == on_subject(all.take(i as int), subject@),
        decreases v@.len() - i,
    {
        proof {
            assert(all.take(i + 1).drop_last() =~= all.take(i as int));
            assert(all.take(i + 1).last() == v@[i as int]@);
        }
        if str_eq(v[i].subject.as_str(), subject) {
            let m = v[i].clone();
            let ghost before = out@;
            out.push(m);
            proof {
                assert(message_views(out@) =~= message_views(before).push(m@));
            }
        }
        i = i + 1;
    }
    proof {
        assert(all.take(v@.len() as int) =~= all);
    }
    out
}

/// Character-by-character equality of two texts.
fn str_eq(a: &str, b: &str) -> (r: bool)
    ensures
        r == (a@ == b@),
{
    let n = a.unicode_len();
    let m = b.unicode_len();
    if n != m {
        return false;
    }
    let mut i: usize = 0;
    while i < n
        invariant
            n == a@.len(),
            m == b@.len(),
            n == m,
            i <= n,
            forall|k: int| 0 <= k < i ==> a@[k] == b@[k],
        decreases n - i,
    {
        if a.get_char(i) != b.get_char(i) {
            return false;
        }
        i = i + 1;
    }
    proof {
        assert(a@ =~= b@);
    }
    true
}

/// What the fabric reports about its backend.
#[derive(Clone, Debug, Default)]
pub struct RwwStatus {
    pub backend: String,
    pub nats_url: Option<String>,
    pub stream: Option<String>,
    pub connected: bool,
}

/// Where the fabric replicates to, if anywhere.
#[derive(Clone, Debug)]
pub struct RwwConfig {
    pub nats_url: Option<String>,
    pub stream_name: String,
}

impl RwwConfig {
    /// The configuration named by optional `TBC_NATS_URL` and `TBC_NATS_STREAM`
    /// settings: an empty URL counts as none, and the stream defaults to `TBC_RWW`.
    pub fn from_settings(nats_url: Option<String>, stream_name: Option<String>) -> (c: Self)
        ensures
            c.nats_url == match nats_url {
                Some(u) => if u@.len() == 0 { None } else { Some(u) },
                None => None::<String>,
            },
            match stream_name {
                Some(s) => c.stream_name == s,
                None => c.stream_name@ == "TBC_RWW"@,
            },
    {
        let url = match nats_url {
            Some(u) => if u.as_str().unicode_len() == 0 { None } else { Some(u) },
            None => None,
        };
        let stream = match stream_name {
            Some(s) => s,
            None => String::from_str("TBC_RWW"),
        };
        RwwConfig { nats_url: url, stream_name: stream }
    }
}

/// Real-world-wide fabric: an in-memory store, with replication to NATS JetStream
/// run by the host when a bridge connected.
#[derive(Debug)]
pub struct RwwBus {
    pub store: MemoryStore,
    pub status: RwwStatus,
}

/// The status of a fabric opened with `config`, given whether the NATS bridge connected.
pub open spec fn opened_status(config: RwwConfig, bridge_connected: bool, s: RwwStatus) -> bool {
    if config.nats_url is Some && bridge_connected {
        &&& s.backend@ == "nats"@
        &&& s.nats_url matches Some(u) && u@ == config.nats_url->Some_0@
        &&& s.stream matches Some(st) && st@ == config.stream_name@
        &&& s.connected
    } else {
        &&& s.backend@ == "memory"@
        &&& (s.nats_url is Some <==> config.nats_url is Some)
        &&& (s.nats_url matches Some(u) ==> u@ == config.nats_url->Some_0@)
        &&& s.stream is None
        &&& !s.connected
    }
}

/// Text of the subject a soul's binding to a frame is announced on.
pub open spec fn bound_subject(frame: Seq<char>, fwau: u128) -> Seq<char> {
    "rww.bound."@ + frame + "."@ + decimal(fwau as nat)
}

/// JSON announcing a binding (keys in sorted order, the id as a string).
pub open spec fn bound_payload(frame: Seq<char>, fwau: u128) -> Seq<char> {
    "{\"event\":\"FwauBound\",\"frame\":"@ + json_string_literal(frame) + ",\"fwau\":\""@ + decimal(
        fwau as nat,
    ) + "\"}"@
}

/// JSON announcing a hand-off between frames (keys in sorted order, the id as a string).
pub open spec fn handoff_payload(fwau: u128, from: Seq<char>, to: Seq<char>) -> Seq<char> {
    "{\"event\":\"Handoff\",\"from\":"@ + json_string_literal(from) + ",\"fwau\":\""@ + decimal(
        fwau as nat,
    ) + "\",\"to\":"@ + json_string_literal(to) + "}"@
}

impl RwwBus {
    pub closed spec fn status_spec(&self) -> RwwStatus {
        self.status
    }

    /// A memory-only fabric.
    pub fn new() -> (b: Self)
        ensures
            b.store.durable_view() == Seq::<MessageView>::empty(),
            b.store.ephemeral_view() == Seq::<MessageView>::empty(),
            b.status_spec().backend@ == "memory"@,
            b.status_spec().nats_url is None,
            b.status_spec().stream is None,
            !b.status_spec().connected,
    {
        let config = RwwConfig { nats_url: None, stream_name: String::from_str("TBC_RWW") };
        Self::open(config, false)
    }

    /// A fabric over `store` configured by `config`; `bridge_connected` says whether the
    /// host's NATS bridge to `config.nats_url` connected.
    pub fn with_store(config: RwwConfig, store: MemoryStore, bridge_connected: bool) -> (b: Self)
        ensures
            opened_status(config, bridge_connected, b.status_spec()),
            b.store == store,
    {
        proof {
            reveal_strlit("nats");
            reveal_strlit("memory");
        }
        match config.nats_url {
            Some(url) => {
                if bridge_connected {
                    RwwBus {
                        store,
                        status: RwwStatus {
                            backend: String::from_str("nats"),
                            nats_url: Some(url),
                            stream: Some(config.stream_name),
                            connected: true,
                        },
                    }
                } else {
                    RwwBus {
                        store,
                        status: RwwStatus {
                            backend: String::from_str("memory"),
                            nats_url: Some(url),
                            stream: None,
                            connected: false,
                        },
                    }
                }
            },
            None => RwwBus {
                store,
                status: RwwStatus {
                    backend: String::from_str("memory"),
                    nats_url: None,
                    stream: None,
                    connected: false,
                },
            },
        }
    }

    /// A fabric over a fresh store.
    pub fn open(config: RwwConfig, bridge_connected: bool) -> (b: Self)
        ensures
            opened_status(config, bridge_connected, b.status_spec()),
            b.store.durable_view() == Seq::<MessageView>::empty(),
            b.store.ephemeral_view() == Seq::<MessageView>::empty(),
    {
        Self::with_store(config, MemoryStore::new(), bridge_connected)
    }

    pub fn status(&self) -> (s: RwwStatus)
        ensures
            s.backend@ == self.status_spec().backend@,
            s.nats_url == self.status_spec().nats_url,
            s.stream == self.status_spec().stream,
            s.connected == self.status_spec().connected,
    {
        RwwStatus {
            backend: self.status.backend.clone(),
            nats_url: match &self.status.nats_url {
                Some(u) => Some(u.clone()),
                None => None,
            },
            stream: match &self.status.stream {
                Some(u) => Some(u.clone()),
                None => None,
            },
            connected: self.status.connected,
        }
    }

    /// Publishes a message under a fresh id and returns it, so that the host can
    /// forward it to NATS when the bridge is connected.
    pub fn publish(&mut self, subject: &str, payload: &[u8], at_tick: u64, durable: bool) -> (msg: RwwMessage)
        ensures
            msg.subject@ == subject@,
            msg.payload@ == payload@,
            msg.at_tick == at_tick,
            exists|v: u128| msg.id@ == ulid_text(v),
            msg.id@.len() == 26,
            durable ==> final(self).store.durable_view() == stored(old(self).store.durable_view(), msg@),
            durable ==> final(self).store.ephemeral_view() == old(self).store.ephemeral_view(),
            !durable ==> final(self).store.ephemeral_view() == stored(old(self).store.ephemeral_view(), msg@),
            !durable ==> final(self).store.durable_view() == old(self).store.durable_view(),
            final(self).status_spec() == old(self).status_spec(),
    {
        let raw = new_ulid();
        let id = ulid_to_string(raw);
        let msg = RwwMessage {
            id,
            subject: String::from_str(subject),
            payload: slice_to_vec(payload),
            at_tick,
        };
        let copy = msg.clone();
        self.store.insert(copy, durable);
        msg
    }

    /// The latest `limit` messages on `subject`, oldest first.
    pub open spec fn recent_spec(&self, subject: Seq<char>, limit: nat) -> Seq<MessageView> {
        recall(self.store.durable_view(), self.store.ephemeral_view(), subject, limit)
    }

    pub fn recent(&self, subject: &str, limit: usize) -> (out: Vec<RwwMessage>)
        ensures
            message_views(out@) == self.recent_spec(subject@, limit as nat),
    {
        self.store.recent(subject, limit)
    }

    /// Announces, durably, that session `fwau` bound in `frame`.
    pub fn publish_fwau_bound(&mut self, fwau: u128, frame: &str, at_tick: u64) -> (msg: RwwMessage)
        ensures
            msg.subject@ == bound_subject(frame@, fwau),
            msg.payload@ == encode_utf8(bound_payload(frame@, fwau)),
            msg.at_tick == at_tick,
            exists|v: u128| msg.id@ == ulid_text(v),
            final(self).store.durable_view() == stored(old(self).store.durable_view(), msg@),
            final(self).store.ephemeral_view() == old(self).store.ephemeral_view(),
            final(self).status_spec() == old(self).status_spec(),
    {
        let mut subject = String::from_str("rww.bound.");
        subject.append(frame);
        subject.append(".");
        push_decimal(&mut subject, fwau);
        let mut body = String::from_str("{\"event\":\"FwauBound\",\"frame\":");
        let q = json_quote(frame);
        body.append(q.as_str());
        body.append(",\"fwau\":\"");
        push_decimal(&mut body, fwau);
        body.append("\"}");
        proof {
            reveal_strlit("rww.bound.");
            reveal_strlit(".");
            reveal_strlit("{\"event\":\"FwauBound\",\"frame\":");
            reveal_strlit(",\"fwau\":\"");
            reveal_strlit("\"}");
            assert(subject@ =~= bound_subject(frame@, fwau));
            assert(body@ =~= bound_payload(frame@, fwau));
        }
        self.publish(subject.as_str(), body.as_str().as_bytes(), at_tick, true)
    }

    /// Announces, durably on `rww.handoff`, that session `fwau` moves from frame `from` to `to`.
    pub fn publish_handoff(&mut self, fwau: u128, from: &str, to: &str, at_tick: u64) -> (msg: RwwMessage)
        ensures
            msg.subject@ == "rww.handoff"@,
            msg.payload@ == encode_utf8(handoff_payload(fwau, from@, to@)),
            msg.at_tick == at_tick,
            exists|v: u128| msg.id@ == ulid_text(v),
            final(self).store.durable_view() == stored(old(self).store.durable_view(), msg@),
            final(self).store.ephemeral_view() == old(self).store.ephemeral_view(),
            final(self).status_spec() == old(self).status_spec(),
    {
        let mut body = String::from_str("{\"event\":\"Handoff\",\"from\":");
        let qf = json_quote(from);
        body.append(qf.as_str());
        body.append(",\"fwau\":\"");
        push_decimal(&mut body, fwau);
        body.append("\",\"to\":");
        let qt = json_quote(to);
        body.append(qt.as_str());
        body.append("}");
        proof {
            reveal_strlit("{\"event\":\"Handoff\",\"from\":");
            reveal_strlit(",\"fwau\":\"");
            reveal_strlit("\",\"to\":");
            reveal_strlit("}");
            assert(body@ =~= handoff_payload(fwau, from@, to@));
        }
        self.publish("rww.handoff", body.as_str().as_bytes(), at_tick, true)
    }
}

} // verus!

verus! {

proof fn lemma_insert_contains(s: Seq<MessageView>, x: MessageView)
    ensures
        insert_by_tick(s, x).contains(x),
        forall|y: MessageView| s.contains(y) ==> insert_by_tick(s, x).contains(y),
    decreases s.len(),
{
    if s.len() == 0 {
        assert(seq![x][0] == x);
    } else if s.last().at_tick <= x.at_tick {
        assert(s.push(x)[s.len() as int] == x);
        assert forall|y: MessageView| s.contains(y) implies s.push(x).contains(y) by {
            let k = choose|k: int| 0 <= k < s.len() && s[k] == y;
            assert(s.push(x)[k] == y);
        }
    } else {
        let d = s.drop_last();
        lemma_insert_contains(d, x);
        let r = insert_by_tick(d, x);
        let k0 = choose|k: int| 0 <= k < r.len() && r[k] == x;
        assert(r.push(s.last())[k0] == x);
        assert forall|y: MessageView| s.contains(y) implies r.push(s.last()).contains(y) by {
            let k = choose|k: int| 0 <= k < s.len() && s[k] == y;
            if k == s.len() - 1 {
                assert(r.push(s.last())[r.len() as int] == y);
            } else {
                assert(d[k] == y);
                assert(d.contains(y));
                let m = choose|m: int| 0 <= m < r.len() && r[m] == y;
                assert(r.push(s.last())[m] == y);
            }
        }
    }
}

proof fn lemma_sort_contains(s: Seq<MessageView>)
    ensures
        forall|y: MessageView| s.contains(y) ==> sort_by_tick(s).contains(y),
    decreases s.len(),
{
    if s.len() > 0 {
        let d = s.drop_last();
        lemma_sort_contains(d);
        lemma_insert_contains(sort_by_tick(d), s.last());
        assert forall|y: MessageView| s.contains(y) implies sort_by_tick(s).contains(y) by {
            let k = choose|k: int| 0 <= k < s.len() && s[k] == y;
            if k < s.len() - 1 {
                assert(d[k] == y);
                assert(d.contains(y));
            }
        }
    }
}

proof fn lemma_on_subject_contains(s: Seq<MessageView>, subject: Seq<char>, y: MessageView)
    requires
        s.contains(y),
        y.subject == subject,
    ensures
        on_subject(s, subject).contains(y),
    decreases s.len(),
{
    let k = choose|k: int| 0 <= k < s.len() && s[k] == y;
    if k == s.len() - 1 {
        let r = on_subject(s.drop_last(), subject);
        assert(r.push(s.last())[r.len() as int] == y);
    } else {
        assert(s.drop_last()[k] == y);
        lemma_on_subject_contains(s.drop_last(), subject, y);
        let r = on_subject(s.drop_last(), subject);
        let m = choose|m: int| 0 <= m < r.len() && r[m] == y;
        if s.last().subject == subject {
            assert(r.push(s.last())[m] == y);
        }
    }
}

/// What `recent` reads back from stores holding `durable` and `ephemeral` messages.
pub open spec fn recall(durable: Seq<MessageView>, ephemeral: Seq<MessageView>, subject: Seq<char>, limit: nat) -> Seq<MessageView> {
    last_n(sort_by_tick(on_subject(durable, subject) + on_subject(ephemeral, subject)), limit)
}

/// Read after write: once `m` is stored, durably or not, a read of its subject with a
/// limit covering every message on that subject returns a message with `m`'s id (`m`
/// itself, unless a message with its subject and id was stored before). The stores
/// before and after are related as `publish` relates them.
pub proof fn lemma_read_after_publish(
    durable: Seq<MessageView>,
    ephemeral: Seq<MessageView>,
    durable_after: Seq<MessageView>,
    ephemeral_after: Seq<MessageView>,
    m: MessageView,
    into_durable: bool,
    limit: nat,
)
    requires
        into_durable ==> durable_after == stored(durable, m) && ephemeral_after == ephemeral,
        !into_durable ==> ephemeral_after == stored(ephemeral, m) && durable_after == durable,
        limit >= on_subject(durable_after, m.subject).len() + on_subject(ephemeral_after, m.subject).len(),
    ensures
        exists|i: int|
            0 <= i < recall(durable_after, ephemeral_after, m.subject, limit).len()
                && #[trigger] recall(durable_after, ephemeral_after, m.subject, limit)[i].id == m.id
                && recall(durable_after, ephemeral_after, m.subject, limit)[i].subject == m.subject,
{
    let d = durable_after;
    let e = ephemeral_after;
    let target = if into_durable { d } else { e };
    let base = if into_durable { durable } else { ephemeral };
    assert(target == stored(base, m));
    let y = if has_message(base, m.subject, m.id) {
        let i = choose|i: int| 0 <= i < base.len() && base[i].subject == m.subject && base[i].id == m.id;
        base[i]
    } else {
        m
    };
    if has_message(base, m.subject, m.id) {
        let i = choose|i: int| 0 <= i < base.len() && base[i].subject == m.subject && base[i].id == m.id;
        assert(target[i] == y);
    } else {
        assert(target[base.len() as int] == y);
    }
    assert(target.contains(y));
    lemma_on_subject_contains(target, m.subject, y);
    let a = on_subject(d, m.subject);
    let b = on_subject(e, m.subject);
    let joined = a + b;
    if into_durable {
        let k = choose|k: int| 0 <= k < a.len() && a[k] == y;
        assert(joined[k] == y);
    } else {
        let k = choose|k: int| 0 <= k < b.len() && b[k] == y;
        assert(joined[a.len() + k] == y);
    }
    assert(joined.contains(y));
    lemma_sort_contains(joined);
    lemma_sorted_by_tick(joined);
    let sorted = sort_by_tick(joined);
    let r = recall(d, e, m.subject, limit);
    assert(r == sorted);
    let j = choose|j: int| 0 <= j < sorted.len() && sorted[j] == y;
    assert(r[j].id == m.id && r[j].subject == m.subject);
}

/// A store never holds two messages with the same subject and id: receiving a message
/// already held (such as one's own message echoed back) leaves the store as it was,
/// receiving a new one appends it, and receiving the same message twice is the same as
/// receiving it once.
pub proof fn lemma_store_ignores_duplicates(s: Seq<MessageView>, m: MessageView)
    ensures
        (exists|i: int| 0 <= i < s.len() && s[i].subject == m.subject && s[i].id == m.id) ==> stored(s, m) == s,
        !(exists|i: int| 0 <= i < s.len() && s[i].subject == m.subject && s[i].id == m.id) ==> stored(s, m) == s.push(m),
        stored(stored(s, m), m) == stored(s, m),
        (forall|i: int, j: int| 0 <= i < j < s.len() ==> !(s[i].subject == s[j].subject && s[i].id == s[j].id))
            ==> (forall|i: int, j: int| 0 <= i < j < stored(s, m).len() ==> !(stored(s, m)[i].subject
            == stored(s, m)[j].subject && stored(s, m)[i].id == stored(s, m)[j].id)),
{
    let t = stored(s, m);
    if !has_message(s, m.subject, m.id) {
        let k = s.len() as int;
        assert(t[k] == m);
        assert(has_message(t, m.subject, m.id));
    }
}

} // verus!
