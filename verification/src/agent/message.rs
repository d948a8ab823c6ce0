//! Messages between agents, and the identifiers that keep them apart.
use vstd::prelude::*;
use crate::text::{
    clone_opt_string, decimal, i64_to_decimal, is_decimal_digit, join2, join3, lemma_decimal_digits,
    lemma_decimal_injective, opt_view, signed_decimal, u64_to_decimal,
};

verus! {

/// A message from one agent to another, or to every agent.
#[derive(Debug, Clone)]
pub struct AgentMessage {
    pub id: String,
    pub sender: String,
    pub recipient: Option<String>,
    pub timestamp: u64,
    pub timestamp_iso: String,
    pub subject: String,
    pub body: String,
    pub read: bool,
    pub dimension: Option<String>,
    pub in_reply_to: Option<String>,
}

/// A message as plain values.
pub struct AgentMessageView {
    pub id: Seq<char>,
    pub sender: Seq<char>,
    pub recipient: Option<Seq<char>>,
    pub timestamp: u64,
    pub timestamp_iso: Seq<char>,
    pub subject: Seq<char>,
    pub body: Seq<char>,
    pub read: bool,
    pub dimension: Option<Seq<char>>,
    pub in_reply_to: Option<Seq<char>>,
}

impl View for AgentMessage {
    type V = AgentMessageView;

    open spec fn view(&self) -> AgentMessageView {
        AgentMessageView {
            id: self.id@,
            sender: self.sender@,
            recipient: opt_view(self.recipient),
            timestamp: self.timestamp,
            timestamp_iso: self.timestamp_iso@,
            subject: self.subject@,
            body: self.body@,
            read: self.read,
            dimension: opt_view(self.dimension),
            in_reply_to: opt_view(self.in_reply_to),
        }
    }
}

pub open spec fn message_views(v: Seq<AgentMessage>) -> Seq<AgentMessageView> {
    v.map_values(|m: AgentMessage| m@)
}

/// When and by whom a message is created: the clock reading in nanoseconds,
/// in seconds and as text, the process id, and the process-wide message
/// counter.
pub struct MessageStamp {
    pub nanos: i64,
    pub secs: u64,
    pub iso: String,
    pub pid: u32,
    pub counter: u64,
}

/// The id of a message: `msg-`, the creation time in nanoseconds, the process
/// id and the message counter, separated by dashes.
pub open spec fn message_id(nanos: i64, pid: u32, counter: u64) -> Seq<char> {
    "msg-"@ + signed_decimal(nanos as int) + "-"@ + decimal(pid as nat) + "-"@ + decimal(
        counter as nat,
    )
}

fn make_message_id(nanos: i64, pid: u32, counter: u64) -> (r: String)
    ensures
        r@ == message_id(nanos, pid, counter),
{
    let n = i64_to_decimal(nanos);
    let p = u64_to_decimal(pid as u64);
    let c = u64_to_decimal(counter);
    let a = join3("msg-", n.as_str(), "-");
    let b = join3(a.as_str(), p.as_str(), "-");
    join2(b.as_str(), c.as_str())
}

/// The contents of a message that was just written: unread, with no
/// dimension and not a reply.
pub open spec fn fresh_message(
    m: AgentMessage,
    sender: Seq<char>,
    recipient: Option<Seq<char>>,
    subject: Seq<char>,
    body: Seq<char>,
    stamp: MessageStamp,
) -> bool {
    &&& m.id@ == message_id(stamp.nanos, stamp.pid, stamp.counter)
    &&& m.sender@ == sender
    &&& opt_view(m.recipient) == recipient
    &&& m.timestamp == stamp.secs
    &&& m.timestamp_iso@ == stamp.iso@
    &&& m.subject@ == subject
    &&& m.body@ == body
    &&& !m.read
    &&& m.dimension is None
    &&& m.in_reply_to is None
}

impl AgentMessage {
    /// A copy of the message.
    pub fn duplicate(&self) -> (r: Self)
        ensures
            r@ == self@,
    {
        AgentMessage {
            id: self.id.clone(),
            sender: self.sender.clone(),
            recipient: clone_opt_string(&self.recipient),
            timestamp: self.timestamp,
            timestamp_iso: self.timestamp_iso.clone(),
            subject: self.subject.clone(),
            body: self.body.clone(),
            read: self.read,
            dimension: clone_opt_string(&self.dimension),
            in_reply_to: clone_opt_string(&self.in_reply_to),
        }
    }

    /// A message to every agent.
    pub fn new_broadcast(sender: &str, subject: &str, body: &str, stamp: &MessageStamp) -> (r:
        Self)
        ensures
            fresh_message(r, sender@, None, subject@, body@, *stamp),
    {
        AgentMessage {
            id: make_message_id(stamp.nanos, stamp.pid, stamp.counter),
            sender: String::from_str(sender),
            recipient: None,
            timestamp: stamp.secs,
            timestamp_iso: stamp.iso.clone(),
            subject: String::from_str(subject),
            body: String::from_str(body),
            read: false,
            dimension: None,
            in_reply_to: None,
        }
    }

    /// A message to one agent.
    pub fn new_direct(
        sender: &str,
        recipient: &str,
        subject: &str,
        body: &str,
        stamp: &MessageStamp,
    ) -> (r: Self)
        ensures
            fresh_message(r, sender@, Some(recipient@), subject@, body@, *stamp),
    {
        AgentMessage {
            id: make_message_id(stamp.nanos, stamp.pid, stamp.counter),
            sender: String::from_str(sender),
            recipient: Some(String::from_str(recipient)),
            timestamp: stamp.secs,
            timestamp_iso: stamp.iso.clone(),
            subject: String::from_str(subject),
            body: String::from_str(body),
            read: false,
            dimension: None,
            in_reply_to: None,
        }
    }
}

/// A text, a dash and a run of digits can be taken apart at the last dash.
proof fn lemma_split_last_dash(a1: Seq<char>, d1: Seq<char>, a2: Seq<char>, d2: Seq<char>)
    requires
        a1 + seq!['-'] + d1 == a2 + seq!['-'] + d2,
        forall|i: int| 0 <= i < d1.len() ==> is_decimal_digit(#[trigger] d1[i]),
        forall|i: int| 0 <= i < d2.len() ==> is_decimal_digit(#[trigger] d2[i]),
    ensures
        a1 == a2,
        d1 == d2,
{
    let t1 = a1 + seq!['-'];
    let t2 = a2 + seq!['-'];
    let s1 = t1 + d1;
    let s2 = t2 + d2;
    assert(s1.len() == s2.len());
    if d1.len() < d2.len() {
        let k = a1.len() as int;
        assert(k < t1.len());
        assert(s1[k] == t1[k]);
        assert(t1[k] == '-');
        assert(k >= t2.len());
        assert(s2[k] == d2[k - t2.len()]);
        assert(is_decimal_digit(d2[k - t2.len()]));
    } else if d2.len() < d1.len() {
        let k = a2.len() as int;
        assert(s2[k] == t2[k]);
        assert(t2[k] == '-');
        assert(k >= t1.len());
        assert(s1[k] == d1[k - t1.len()]);
        assert(is_decimal_digit(d1[k - t1.len()]));
    } else {
        assert(a1.len() == a2.len());
        assert(a1 =~= s1.subrange(0, a1.len() as int));
        assert(a2 =~= s2.subrange(0, a2.len() as int));
        assert(d1 =~= s1.subrange(a1.len() as int + 1, s1.len() as int));
        assert(d2 =~= s2.subrange(a2.len() as int + 1, s2.len() as int));
    }
}

proof fn lemma_signed_decimal_injective(a: int, b: int)
    requires
        signed_decimal(a) == signed_decimal(b),
    ensures
        a == b,
{
    if a < 0 && b < 0 {
        assert(decimal((-a) as nat) =~= signed_decimal(a).drop_first());
        assert(decimal((-b) as nat) =~= signed_decimal(b).drop_first());
        lemma_decimal_injective((-a) as nat, (-b) as nat);
    } else if a < 0 {
        lemma_decimal_digits(b as nat);
        assert(signed_decimal(a)[0] == '-');
        assert(is_decimal_digit(signed_decimal(b)[0]));
    } else if b < 0 {
        lemma_decimal_digits(a as nat);
        assert(signed_decimal(b)[0] == '-');
        assert(is_decimal_digit(signed_decimal(a)[0]));
    } else {
        lemma_decimal_injective(a as nat, b as nat);
    }
}

/// Message ids are unique: two messages created at different clock readings,
/// by different processes, or with different counter values get different ids.
pub proof fn lemma_message_ids_unique(
    n1: i64,
    p1: u32,
    c1: u64,
    n2: i64,
    p2: u32,
    c2: u64,
)
    requires
        message_id(n1, p1, c1) == message_id(n2, p2, c2),
    ensures
        n1 == n2,
        p1 == p2,
        c1 == c2,
{
    reveal_strlit("msg-");
    reveal_strlit("-");
    assert("-"@ =~= seq!['-']);
    let x1 = signed_decimal(n1 as int) + seq!['-'] + decimal(p1 as nat);
    let x2 = signed_decimal(n2 as int) + seq!['-'] + decimal(p2 as nat);
    let s1 = message_id(n1, p1, c1);
    let s2 = message_id(n2, p2, c2);
    assert(s1 =~= "msg-"@ + (x1 + seq!['-'] + decimal(c1 as nat)));
    assert(s2 =~= "msg-"@ + (x2 + seq!['-'] + decimal(c2 as nat)));
    assert((x1 + seq!['-'] + decimal(c1 as nat)) =~= s1.skip(4));
    assert((x2 + seq!['-'] + decimal(c2 as nat)) =~= s2.skip(4));
    lemma_decimal_digits(c1 as nat);
    lemma_decimal_digits(c2 as nat);
    lemma_split_last_dash(x1, decimal(c1 as nat), x2, decimal(c2 as nat));
    lemma_decimal_digits(p1 as nat);
    lemma_decimal_digits(p2 as nat);
    lemma_split_last_dash(
        signed_decimal(n1 as int),
        decimal(p1 as nat),
        signed_decimal(n2 as int),
        decimal(p2 as nat),
    );
    lemma_decimal_injective(c1 as nat, c2 as nat);
    lemma_decimal_injective(p1 as nat, p2 as nat);
    lemma_signed_decimal_injective(n1 as int, n2 as int);
}

} // verus!
