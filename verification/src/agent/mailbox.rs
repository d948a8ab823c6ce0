//! Maildir-style mailboxes: where a message is written first, where it is
//! delivered, and which boxes a reader looks in.
use vstd::prelude::*;
use crate::agent::message::{
    fresh_message, message_id, message_views, AgentMessage, AgentMessageView, MessageStamp,
};
use crate::agent::status::{lemma_path_lt_transitive, lemma_path_lt_trichotomy, path_lt, str_lt};
use crate::text::{decimal, join2, path_join, path_joined, str_eq, usize_to_decimal};

verus! {

/// The mailboxes of one repository.
pub struct MailboxManager {
    messages_dir: String,
    agents_dir: String,
}

/// A message ready to be delivered: written to `tmp_path` first, then moved
/// to `new_path`, both inside `box_dir`.
pub struct Delivery {
    pub message: AgentMessage,
    pub box_dir: String,
    pub tmp_path: String,
    pub new_path: String,
}

/// The file of a message inside one folder (`tmp`, `new` or `cur`) of a box.
pub open spec fn maildir_file(box_dir: Seq<char>, folder: Seq<char>, id: Seq<char>) -> Seq<char> {
    path_joined(path_joined(box_dir, folder), id + ".json"@)
}

/// Whether a delivery puts `message` into the box `box_name` under
/// `messages_dir`.
pub open spec fn delivers_into(d: Delivery, messages_dir: Seq<char>, box_name: Seq<char>) -> bool {
    &&& d.box_dir@ == path_joined(messages_dir, box_name)
    &&& d.tmp_path@ == maildir_file(d.box_dir@, "tmp"@, d.message.id@)
    &&& d.new_path@ == maildir_file(d.box_dir@, "new"@, d.message.id@)
}

impl MailboxManager {
    pub closed spec fn spec_messages_dir(&self) -> Seq<char> {
        self.messages_dir@
    }

    pub closed spec fn spec_agents_dir(&self) -> Seq<char> {
        self.agents_dir@
    }

    /// The mailboxes under `messages` in the metadata directory, and the agent
    /// records under `agents`.
    pub fn new(dft_dir: &str) -> (r: Self)
        ensures
            r.spec_messages_dir() == path_joined(dft_dir@, "messages"@),
            r.spec_agents_dir() == path_joined(dft_dir@, "agents"@),
    {
        MailboxManager {
            messages_dir: path_join(dft_dir, "messages"),
            agents_dir: path_join(dft_dir, "agents"),
        }
    }

    /// The directory of one box.
    pub fn box_dir(&self, box_name: &str) -> (r: String)
        ensures
            r@ == path_joined(self.spec_messages_dir(), box_name@),
    {
        path_join(self.messages_dir.as_str(), box_name)
    }

    /// The file of a message in one folder of a box.
    pub fn message_file(&self, box_name: &str, folder: &str, message_id: &str) -> (r: String)
        ensures
            r@ == maildir_file(path_joined(self.spec_messages_dir(), box_name@), folder@, message_id@),
    {
        let b = self.box_dir(box_name);
        let f = path_join(b.as_str(), folder);
        let name = join2(message_id, ".json");
        path_join(f.as_str(), name.as_str())
    }

    /// The shared inbox file kept for older readers.
    pub fn legacy_inbox_file(&self) -> (r: String)
        ensures
            r@ == path_joined(self.spec_agents_dir(), "global_inbox.json"@),
    {
        path_join(self.agents_dir.as_str(), "global_inbox.json")
    }

    fn deliver_to(&self, box_name: &str, message: AgentMessage) -> (r: Delivery)
        ensures
            delivers_into(r, self.spec_messages_dir(), box_name@),
            r.message == message,
    {
        let box_dir = self.box_dir(box_name);
        let tmp_path = self.message_file(box_name, "tmp", message.id.as_str());
        let new_path = self.message_file(box_name, "new", message.id.as_str());
        Delivery { message, box_dir, tmp_path, new_path }
    }

    /// A message from `sender` to every agent, addressed to the `broadcast` box.
    pub fn broadcast(&self, sender: &str, subject: &str, body: &str, stamp: &MessageStamp) -> (r:
        Delivery)
        ensures
            fresh_message(r.message, sender@, None, subject@, body@, *stamp),
            delivers_into(r, self.spec_messages_dir(), "broadcast"@),
    {
        let msg = AgentMessage::new_broadcast(sender, subject, body, stamp);
        self.deliver_to("broadcast", msg)
    }

    /// A message from `sender` to `recipient`, addressed to the recipient's box.
    pub fn send(
        &self,
        sender: &str,
        recipient: &str,
        subject: &str,
        body: &str,
        stamp: &MessageStamp,
    ) -> (r: Delivery)
        ensures
            fresh_message(r.message, sender@, Some(recipient@), subject@, body@, *stamp),
            delivers_into(r, self.spec_messages_dir(), recipient@),
    {
        let msg = AgentMessage::new_direct(sender, recipient, subject, body, stamp);
        self.deliver_to(recipient, msg)
    }

    /// The boxes in which a message may be marked read: the recipient's own
    /// box first, when there is a recipient, then the broadcast box.
    pub fn read_boxes(&self, recipient: Option<&str>) -> (r: Vec<String>)
        ensures
            r@.map_values(|s: String| s@) == match recipient {
                Some(x) => seq![x@, "broadcast"@],
                None => seq!["broadcast"@],
            },
    {
        let mut v: Vec<String> = Vec::new();
        match recipient {
            Some(x) => {
                v.push(String::from_str(x));
            },
            None => {},
        }
        v.push(String::from_str("broadcast"));
        proof {
            match recipient {
                Some(x) => {
                    assert(v@.map_values(|s: String| s@) =~= seq![x@, "broadcast"@]);
                },
                None => {
                    assert(v@.map_values(|s: String| s@) =~= seq!["broadcast"@]);
                },
            }
        }
        v
    }
}

// ---------------------------------------------------------------------------
// Reading an inbox
// ---------------------------------------------------------------------------

/// A message of the older single inbox file: who sent it, what it says and
/// when (as RFC 3339 text).
#[derive(Debug, Clone)]
pub struct LegacyInboxMessage {
    pub sender: String,
    pub content: String,
    pub timestamp: String,
}

/// The messages of one folder, marked read or unread.
pub open spec fn marked(ms: Seq<AgentMessageView>, read: bool) -> Seq<AgentMessageView> {
    ms.map_values(
        |m: AgentMessageView|
            AgentMessageView {
                id: m.id,
                sender: m.sender,
                recipient: m.recipient,
                timestamp: m.timestamp,
                timestamp_iso: m.timestamp_iso,
                subject: m.subject,
                body: m.body,
                read: read,
                dimension: m.dimension,
                in_reply_to: m.in_reply_to,
            },
    )
}

/// The messages of the boxes, in reading order: the broadcast box's new
/// messages, then its read ones, then the recipient's new and read ones;
/// read messages are left out when only unread ones are asked for.
pub open spec fn boxed_messages(
    broadcast_new: Seq<AgentMessageView>,
    broadcast_cur: Seq<AgentMessageView>,
    own_new: Seq<AgentMessageView>,
    own_cur: Seq<AgentMessageView>,
    unread_only: bool,
) -> Seq<AgentMessageView> {
    marked(broadcast_new, false) + (if unread_only {
        Seq::empty()
    } else {
        marked(broadcast_cur, true)
    }) + marked(own_new, false) + (if unread_only {
        Seq::empty()
    } else {
        marked(own_cur, true)
    })
}

/// The message that a legacy entry becomes: an unread broadcast with the id
/// `legacy-` and its place in the file, stamped `now` in seconds.
pub open spec fn legacy_message(i: nat, sender: Seq<char>, content: Seq<char>, iso: Seq<char>, now: u64) -> AgentMessageView {
    AgentMessageView {
        id: "legacy-"@ + decimal(i),
        sender: sender,
        recipient: None,
        timestamp: now,
        timestamp_iso: iso,
        subject: "broadcast"@,
        body: content,
        read: false,
        dimension: None,
        in_reply_to: None,
    }
}

/// Whether some message was sent by `sender` and says `body`.
pub open spec fn has_message(ms: Seq<AgentMessageView>, sender: Seq<char>, body: Seq<char>) -> bool {
    exists|k: int| 0 <= k < ms.len() && (#[trigger] ms[k]).body == body && ms[k].sender == sender
}

/// The messages with the legacy entries added: each entry, in order, unless
/// a message so far has its sender and text.
pub open spec fn with_legacy(ms: Seq<AgentMessageView>, legacy: Seq<LegacyInboxMessage>, now: u64) -> Seq<AgentMessageView>
    decreases legacy.len(),
{
    if legacy.len() == 0 {
        ms
    } else {
        let prev = with_legacy(ms, legacy.drop_last(), now);
        let l = legacy.last();
        if has_message(prev, l.sender@, l.content@) {
            prev
        } else {
            prev.push(legacy_message((legacy.len() - 1) as nat, l.sender@, l.content@, l.timestamp@, now))
        }
    }
}

/// Whether message `m` has the sender and text of legacy entry `l`.
pub open spec fn repeats_entry(m: AgentMessageView, l: LegacyInboxMessage) -> bool {
    m.sender == l.sender@ && m.body == l.content@
}

/// Whether `m` is the unread broadcast that the `i`-th legacy entry `l`
/// becomes.
pub open spec fn is_entry_message(m: AgentMessageView, i: nat, l: LegacyInboxMessage) -> bool {
    &&& m.id == "legacy-"@ + decimal(i)
    &&& m.sender == l.sender@
    &&& m.body == l.content@
    &&& m.recipient is None
    &&& !m.read
}

/// Whether no message of `ms` and no legacy entry before the `i`-th has the
/// `i`-th entry's sender and text.
pub open spec fn entry_is_new(ms: Seq<AgentMessageView>, legacy: Seq<LegacyInboxMessage>, i: int) -> bool {
    &&& forall|k: int| 0 <= k < ms.len() ==> !repeats_entry(#[trigger] ms[k], legacy[i])
    &&& forall|j: int|
        0 <= j < i ==> !(#[trigger] legacy[j].sender@ == legacy[i].sender@ && legacy[j].content@
            == legacy[i].content@)
}

/// Adding the legacy entries keeps the messages there, in place; afterwards
/// every entry's sender and text is in some message; an entry that neither
/// a message nor an earlier entry repeats is there as its unread
/// broadcast; and everything added is such a broadcast of some entry.
pub proof fn lemma_legacy_entries(ms: Seq<AgentMessageView>, legacy: Seq<LegacyInboxMessage>, now: u64)
    ensures
        ({
            let w = with_legacy(ms, legacy, now);
            &&& w.len() >= ms.len()
            &&& forall|k: int| 0 <= k < ms.len() ==> #[trigger] w[k] == ms[k]
            &&& forall|i: int|
                #![trigger legacy[i]]
                0 <= i < legacy.len() ==> exists|k: int| 0 <= k < w.len() && repeats_entry(#[trigger] w[k], legacy[i])
            &&& forall|i: int|
                #![trigger legacy[i]]
                0 <= i < legacy.len() && entry_is_new(ms, legacy, i) ==> exists|k: int|
                    0 <= k < w.len() && is_entry_message(#[trigger] w[k], i as nat, legacy[i])
            &&& forall|k: int|
                ms.len() <= k < w.len() ==> exists|i: int|
                    0 <= i < legacy.len() && is_entry_message(#[trigger] w[k], i as nat, legacy[i])
        }),
    decreases legacy.len(),
{
    if legacy.len() > 0 {
        let lp = legacy.drop_last();
        lemma_legacy_entries(ms, lp, now);
        let prev = with_legacy(ms, lp, now);
        let w = with_legacy(ms, legacy, now);
        let n = (legacy.len() - 1) as int;
        let l = legacy.last();
        assert(legacy[n] == l);
        assert forall|i: int| 0 <= i < lp.len() implies #[trigger] lp[i] == legacy[i] by {}
        if has_message(prev, l.sender@, l.content@) {
            assert(w == prev);
            assert forall|i: int|
                #![trigger legacy[i]]
                0 <= i < legacy.len() implies exists|k: int| 0 <= k < w.len() && repeats_entry(#[trigger] w[k], legacy[i]) by {
                if i < n {
                    assert(lp[i] == legacy[i]);
                } else {
                    let k = choose|k: int| 0 <= k < prev.len() && (#[trigger] prev[k]).body == l.content@ && prev[k].sender == l.sender@;
                    assert(repeats_entry(w[k], legacy[i]));
                }
            }
            assert forall|i: int|
                #![trigger legacy[i]]
                0 <= i < legacy.len() && entry_is_new(ms, legacy, i) implies exists|k: int|
                    0 <= k < w.len() && is_entry_message(#[trigger] w[k], i as nat, legacy[i]) by {
                if i < n {
                    assert(lp[i] == legacy[i]);
                    assert(entry_is_new(ms, lp, i)) by {
                        assert forall|j: int| 0 <= j < i implies !(#[trigger] lp[j].sender@ == lp[i].sender@ && lp[j].content@
                            == lp[i].content@) by {
                            assert(lp[j] == legacy[j]);
                        }
                    }
                } else {
                    let k = choose|k: int| 0 <= k < prev.len() && (#[trigger] prev[k]).body == l.content@ && prev[k].sender == l.sender@;
                    if k < ms.len() {
                        assert(prev[k] == ms[k]);
                        assert(repeats_entry(ms[k], legacy[i]));
                    } else {
                        let j = choose|j: int| 0 <= j < lp.len() && is_entry_message(#[trigger] prev[k], j as nat, lp[j]);
                        assert(lp[j] == legacy[j]);
                        assert(legacy[j].sender@ == legacy[i].sender@ && legacy[j].content@ == legacy[i].content@);
                    }
                }
            }
            assert forall|k: int| ms.len() <= k < w.len() implies exists|i: int|
                0 <= i < legacy.len() && is_entry_message(#[trigger] w[k], i as nat, legacy[i]) by {
                let i = choose|i: int| 0 <= i < lp.len() && is_entry_message(#[trigger] prev[k], i as nat, lp[i]);
                assert(lp[i] == legacy[i]);
            }
        } else {
            let x = legacy_message(n as nat, l.sender@, l.content@, l.timestamp@, now);
            assert(w == prev.push(x));
            assert(is_entry_message(x, n as nat, legacy[n]));
            assert(w[prev.len() as int] == x);
            assert forall|k: int| 0 <= k < ms.len() implies #[trigger] w[k] == ms[k] by {
                assert(w[k] == prev[k]);
            }
            assert forall|i: int|
                #![trigger legacy[i]]
                0 <= i < legacy.len() implies exists|k: int| 0 <= k < w.len() && repeats_entry(#[trigger] w[k], legacy[i]) by {
                if i < n {
                    assert(lp[i] == legacy[i]);
                    let k = choose|k: int| 0 <= k < prev.len() && repeats_entry(#[trigger] prev[k], lp[i]);
                    assert(w[k] == prev[k]);
                } else {
                    assert(repeats_entry(w[prev.len() as int], legacy[i]));
                }
            }
            assert forall|i: int|
                #![trigger legacy[i]]
                0 <= i < legacy.len() && entry_is_new(ms, legacy, i) implies exists|k: int|
                    0 <= k < w.len() && is_entry_message(#[trigger] w[k], i as nat, legacy[i]) by {
                if i < n {
                    assert(lp[i] == legacy[i]);
                    assert(entry_is_new(ms, lp, i)) by {
                        assert forall|j: int| 0 <= j < i implies !(#[trigger] lp[j].sender@ == lp[i].sender@ && lp[j].content@
                            == lp[i].content@) by {
                            assert(lp[j] == legacy[j]);
                        }
                    }
                    let k = choose|k: int| 0 <= k < prev.len() && is_entry_message(#[trigger] prev[k], i as nat, lp[i]);
                    assert(w[k] == prev[k]);
                } else {
                    assert(is_entry_message(w[prev.len() as int], i as nat, legacy[i]));
                }
            }
            assert forall|k: int| ms.len() <= k < w.len() implies exists|i: int|
                0 <= i < legacy.len() && is_entry_message(#[trigger] w[k], i as nat, legacy[i]) by {
                if k < prev.len() {
                    let i = choose|i: int| 0 <= i < lp.len() && is_entry_message(#[trigger] prev[k], i as nat, lp[i]);
                    assert(lp[i] == legacy[i]);
                    assert(w[k] == prev[k]);
                } else {
                    assert(is_entry_message(w[k], n as nat, legacy[n]));
                }
            }
        }
    }
}

/// The unread messages, in order.
pub open spec fn unread(ms: Seq<AgentMessageView>) -> Seq<AgentMessageView>
    decreases ms.len(),
{
    if ms.len() == 0 {
        Seq::empty()
    } else {
        unread(ms.drop_last()) + (if ms.last().read {
            Seq::empty()
        } else {
            seq![ms.last()]
        })
    }
}

/// Where a stable sort by time stamp puts `x` among messages already in
/// order: before the first one stamped later, searching from `k`.
pub open spec fn time_slot(s: Seq<AgentMessageView>, x: AgentMessageView, k: int) -> int
    decreases s.len() - k,
{
    if k >= s.len() || k < 0 {
        s.len() as int
    } else if path_lt(x.timestamp_iso, s[k].timestamp_iso) {
        k
    } else {
        time_slot(s, x, k + 1)
    }
}

/// The messages in order of their time stamps (compared as texts); those
/// stamped alike keep their order.
pub open spec fn by_time(s: Seq<AgentMessageView>) -> Seq<AgentMessageView>
    decreases s.len(),
{
    if s.len() == 0 {
        Seq::empty()
    } else {
        let t = by_time(s.drop_last());
        t.insert(time_slot(t, s.last(), 0), s.last())
    }
}

/// The inbox as the messages in the boxes, the legacy file and the clock
/// give it.
pub open spec fn inbox_of(
    broadcast_new: Seq<AgentMessageView>,
    broadcast_cur: Seq<AgentMessageView>,
    own_new: Seq<AgentMessageView>,
    own_cur: Seq<AgentMessageView>,
    legacy: Seq<LegacyInboxMessage>,
    now: u64,
    unread_only: bool,
) -> Seq<AgentMessageView> {
    let all = with_legacy(boxed_messages(broadcast_new, broadcast_cur, own_new, own_cur, unread_only), legacy, now);
    by_time(if unread_only { unread(all) } else { all })
}

/// Messages in order of their time stamps: none is stamped before an
/// earlier one.
pub open spec fn in_time_order(s: Seq<AgentMessageView>) -> bool {
    forall|i: int, j: int| 0 <= i < j < s.len() ==> !path_lt(#[trigger] s[j].timestamp_iso, #[trigger] s[i].timestamp_iso)
}

/// Sorting by time puts the messages in time order and keeps each of them.
pub proof fn lemma_by_time_sorted(s: Seq<AgentMessageView>)
    ensures
        in_time_order(by_time(s)),
        by_time(s).to_multiset() == s.to_multiset(),
    decreases s.len(),
{
    broadcast use vstd::seq_lib::group_to_multiset_ensures;
    if s.len() > 0 {
        let t = by_time(s.drop_last());
        let x = s.last();
        lemma_by_time_sorted(s.drop_last());
        lemma_time_slot(t, x, 0);
        let p = time_slot(t, x, 0);
        let u = t.insert(p, x);
        vstd::seq_lib::to_multiset_insert(t, p, x);
        assert(s =~= s.drop_last().push(x));
        vstd::seq_lib::to_multiset_build(s.drop_last(), x);
        assert forall|i: int, j: int| 0 <= i < j < u.len() implies !path_lt(#[trigger] u[j].timestamp_iso, #[trigger] u[i].timestamp_iso) by {
            if j < p {
                assert(u[i] == t[i] && u[j] == t[j]);
            } else if j == p {
                assert(u[j] == x && u[i] == t[i]);
            } else if i < p {
                assert(u[j] == t[j - 1] && u[i] == t[i]);
            } else if i == p {
                assert(u[i] == x && u[j] == t[j - 1]);
                if path_lt(t[j - 1].timestamp_iso, x.timestamp_iso) {
                    if j - 1 > p {
                        lemma_path_lt_transitive(t[j - 1].timestamp_iso, x.timestamp_iso, t[p].timestamp_iso);
                        lemma_path_lt_trichotomy(t[j - 1].timestamp_iso, t[p].timestamp_iso);
                    } else {
                        lemma_path_lt_trichotomy(t[p].timestamp_iso, x.timestamp_iso);
                    }
                }
            } else {
                assert(u[i] == t[i - 1] && u[j] == t[j - 1]);
            }
        }
    }
}

/// The slot found from `k`: within bounds, after every message from `k` on
/// that is not stamped later, and before one that is.
proof fn lemma_time_slot(s: Seq<AgentMessageView>, x: AgentMessageView, k: int)
    requires
        0 <= k <= s.len(),
    ensures
        k <= time_slot(s, x, k) <= s.len(),
        forall|i: int| k <= i < time_slot(s, x, k) ==> !path_lt(x.timestamp_iso, #[trigger] s[i].timestamp_iso),
        time_slot(s, x, k) < s.len() ==> path_lt(x.timestamp_iso, s[time_slot(s, x, k)].timestamp_iso),
    decreases s.len() - k,
{
    if k < s.len() && !path_lt(x.timestamp_iso, s[k].timestamp_iso) {
        lemma_time_slot(s, x, k + 1);
    }
}

/// The legacy entries added, one at a time.
fn add_legacy(out: &mut Vec<AgentMessage>, legacy: &Vec<LegacyInboxMessage>, now_secs: u64)
    ensures
        message_views(final(out)@) == with_legacy(message_views(old(out)@), legacy@, now_secs),
{
    let ghost base = message_views(out@);
    let mut i: usize = 0;
    proof {
        assert(legacy@.take(0) =~= Seq::<LegacyInboxMessage>::empty());
    }
    while i < legacy.len()
        invariant
            i <= legacy.len(),
            message_views(out@) == with_legacy(base, legacy@.take(i as int), now_secs),
        decreases legacy.len() - i,
    {
        let l = &legacy[i];
        proof {
            assert(legacy@.take(i + 1).drop_last() =~= legacy@.take(i as int));
            assert(legacy@.take(i + 1).last() == *l);
        }
        let ghost mv = message_views(out@);
        let mut k: usize = 0;
        let mut seen = false;
        while k < out.len()
            invariant
                k <= out.len(),
                mv == message_views(out@),
                seen ==> has_message(mv, l.sender@, l.content@),
                !seen ==> forall|j: int| 0 <= j < k ==> !((#[trigger] mv[j]).body == l.content@ && mv[j].sender == l.sender@),
            decreases out.len() - k,
        {
            if str_eq(out[k].body.as_str(), l.content.as_str()) && str_eq(out[k].sender.as_str(), l.sender.as_str()) {
                seen = true;
                assert(mv[k as int] == out@[k as int]@);
            } else {
                assert(mv[k as int] == out@[k as int]@);
            }
            k = k + 1;
        }
        if !seen {
            let n = usize_to_decimal(i);
            let m = AgentMessage {
                id: join2("legacy-", n.as_str()),
                sender: l.sender.clone(),
                recipient: None,
                timestamp: now_secs,
                timestamp_iso: l.timestamp.clone(),
                subject: String::from_str("broadcast"),
                body: l.content.clone(),
                read: false,
                dimension: None,
                in_reply_to: None,
            };
            out.push(m);
            proof {
                assert(message_views(out@) =~= mv.push(m@));
                assert(m@ == legacy_message(i as nat, l.sender@, l.content@, l.timestamp@, now_secs));
            }
        }
        i = i + 1;
    }
    proof {
        assert(legacy@.take(legacy.len() as int) =~= legacy@);
    }
}

/// Copies of the messages of one folder, marked read or unread, added.
fn add_marked(out: &mut Vec<AgentMessage>, v: &Vec<AgentMessage>, read: bool)
    ensures
        message_views(final(out)@) == message_views(old(out)@) + marked(message_views(v@), read),
{
    let ghost base = message_views(out@);
    let ghost mk = marked(message_views(v@), read);
    let mut i: usize = 0;
    proof {
        assert(base + mk.take(0) =~= base);
    }
    while i < v.len()
        invariant
            i <= v.len(),
            mk == marked(message_views(v@), read),
            message_views(out@) == base + mk.take(i as int),
        decreases v.len() - i,
    {
        let ghost before = out@;
        let mut m = v[i].duplicate();
        m.read = read;
        out.push(m);
        proof {
            assert(message_views(out@) =~= message_views(before).push(m@));
            assert(mk.take(i + 1) =~= mk.take(i as int).push(mk[i as int]));
        }
        i = i + 1;
    }
    proof {
        assert(mk.take(v.len() as int) =~= mk);
    }
}

/// `x` put among messages in time order, after every one not stamped later.
fn insert_by_time(out: &mut Vec<AgentMessage>, x: AgentMessage)
    ensures
        message_views(final(out)@) == message_views(old(out)@).insert(
            time_slot(message_views(old(out)@), x@, 0),
            x@,
        ),
{
    let ghost s = message_views(out@);
    let mut p: usize = 0;
    while p < out.len() && !str_lt(x.timestamp_iso.as_str(), out[p].timestamp_iso.as_str())
        invariant
            p <= out.len(),
            s == message_views(out@),
            time_slot(s, x@, 0) == time_slot(s, x@, p as int),
        decreases out.len() - p,
    {
        assert(s[p as int] == out@[p as int]@);
        p = p + 1;
    }
    proof {
        if p < out.len() {
            assert(s[p as int] == out@[p as int]@);
        }
    }
    let ghost xv = x@;
    out.insert(p, x);
    proof {
        assert(message_views(out@) =~= s.insert(p as int, xv));
    }
}

impl MailboxManager {
    /// The inbox of `recipient` (or of every agent): the messages of the
    /// broadcast box and of the recipient's box (new ones unread, the others
    /// read; read ones only when not just the unread are asked for), then
    /// each entry of the legacy inbox file that no message so far repeats
    /// (same sender and text), as an unread broadcast stamped `now_secs`;
    /// only the unread ones if asked; sorted by time stamp, those stamped
    /// alike in that order.
    pub fn inbox(
        &self,
        broadcast_new: &Vec<AgentMessage>,
        broadcast_cur: &Vec<AgentMessage>,
        own_new: &Vec<AgentMessage>,
        own_cur: &Vec<AgentMessage>,
        legacy: &Vec<LegacyInboxMessage>,
        now_secs: u64,
        unread_only: bool,
    ) -> (r: Vec<AgentMessage>)
        ensures
            message_views(r@) == inbox_of(
                message_views(broadcast_new@),
                message_views(broadcast_cur@),
                message_views(own_new@),
                message_views(own_cur@),
                legacy@,
                now_secs,
                unread_only,
            ),
            !unread_only ==> forall|i: int|
                #![trigger legacy@[i]]
                0 <= i < legacy@.len() ==> exists|k: int| 0 <= k < r@.len() && repeats_entry((#[trigger] r@[k])@, legacy@[i]),
            forall|i: int|
                #![trigger legacy@[i]]
                0 <= i < legacy@.len() && none_repeats(message_views(broadcast_new@), legacy@[i]) && none_repeats(
                    message_views(broadcast_cur@),
                    legacy@[i],
                ) && none_repeats(message_views(own_new@), legacy@[i]) && none_repeats(message_views(own_cur@), legacy@[i])
                    && (forall|j: int|
                    0 <= j < i ==> !(#[trigger] legacy@[j].sender@ == legacy@[i].sender@ && legacy@[j].content@
                        == legacy@[i].content@)) ==> exists|k: int|
                    0 <= k < r@.len() && is_entry_message((#[trigger] r@[k])@, i as nat, legacy@[i]),
    {
        let mut all: Vec<AgentMessage> = Vec::new();
        add_marked(&mut all, broadcast_new, false);
        if !unread_only {
            add_marked(&mut all, broadcast_cur, true);
        }
        add_marked(&mut all, own_new, false);
        if !unread_only {
            add_marked(&mut all, own_cur, true);
        }
        proof {
            let e = Seq::<AgentMessageView>::empty();
            assert(message_views(Seq::<AgentMessage>::empty()) =~= e);
            assert(message_views(all@) =~= boxed_messages(
                message_views(broadcast_new@),
                message_views(broadcast_cur@),
                message_views(own_new@),
                message_views(own_cur@),
                unread_only,
            ));
        }
        add_legacy(&mut all, legacy, now_secs);
        let ghost full = message_views(all@);
        let mut kept: Vec<AgentMessage> = Vec::new();
        if unread_only {
            let mut i: usize = 0;
            proof {
                assert(full.take(0) =~= Seq::<AgentMessageView>::empty());
            }
            while i < all.len()
                invariant
                    i <= all.len(),
                    full == message_views(all@),
                    message_views(kept@) == unread(full.take(i as int)),
                decreases all.len() - i,
            {
                proof {
                    assert(full.take(i + 1).drop_last() =~= full.take(i as int));
                    assert(full.take(i + 1).last() == all@[i as int]@);
                }
                if !all[i].read {
                    let ghost before = kept@;
                    let m = all[i].duplicate();
                    kept.push(m);
                    proof {
                        assert(message_views(kept@) =~= message_views(before).push(m@));
                    }
                }
                i = i + 1;
            }
            proof {
                assert(full.take(all.len() as int) =~= full);
            }
        } else {
            kept = all;
        }
        let ghost ks = message_views(kept@);
        let mut out: Vec<AgentMessage> = Vec::new();
        let mut j: usize = 0;
        proof {
            assert(ks.take(0) =~= Seq::<AgentMessageView>::empty());
            assert(message_views(out@) =~= by_time(ks.take(0)));
        }
        while j < kept.len()
            invariant
                j <= kept.len(),
                ks == message_views(kept@),
                message_views(out@) == by_time(ks.take(j as int)),
            decreases kept.len() - j,
        {
            proof {
                assert(ks.take(j + 1).drop_last() =~= ks.take(j as int));
                assert(ks.take(j + 1).last() == kept@[j as int]@);
            }
            insert_by_time(&mut out, kept[j].duplicate());
            j = j + 1;
        }
        proof {
            assert(ks.take(kept.len() as int) =~= ks);
            lemma_inbox_legacy(
                message_views(broadcast_new@),
                message_views(broadcast_cur@),
                message_views(own_new@),
                message_views(own_cur@),
                legacy@,
                now_secs,
                unread_only,
            );
            let ov = message_views(out@);
            assert forall|k: int| 0 <= k < out@.len() implies ov[k] == (#[trigger] out@[k])@ by {}
        }
        out
    }
}

/// Whether no message of `ms` has the sender and text of legacy entry `l`.
pub open spec fn none_repeats(ms: Seq<AgentMessageView>, l: LegacyInboxMessage) -> bool {
    forall|k: int| 0 <= k < ms.len() ==> !repeats_entry(#[trigger] ms[k], l)
}

proof fn lemma_marked_none_repeats(ms: Seq<AgentMessageView>, read: bool, l: LegacyInboxMessage)
    requires
        none_repeats(ms, l),
    ensures
        none_repeats(marked(ms, read), l),
{
    assert forall|k: int| 0 <= k < marked(ms, read).len() implies !repeats_entry(#[trigger] marked(ms, read)[k], l) by {
        assert(!repeats_entry(ms[k], l));
    }
}

proof fn lemma_concat_none_repeats(a: Seq<AgentMessageView>, b: Seq<AgentMessageView>, l: LegacyInboxMessage)
    requires
        none_repeats(a, l),
        none_repeats(b, l),
    ensures
        none_repeats(a + b, l),
{
    assert forall|k: int| 0 <= k < (a + b).len() implies !repeats_entry(#[trigger] (a + b)[k], l) by {
        if k < a.len() {
            assert((a + b)[k] == a[k]);
        } else {
            assert((a + b)[k] == b[k - a.len()]);
        }
    }
}

/// Every legacy entry's sender and text is in the inbox when the read
/// messages are shown too; and an entry that no message of the four boxes
/// and no earlier entry repeats is in the inbox as its unread broadcast
/// `legacy-<i>`, whether or not only unread messages are shown.
pub proof fn lemma_inbox_legacy(
    broadcast_new: Seq<AgentMessageView>,
    broadcast_cur: Seq<AgentMessageView>,
    own_new: Seq<AgentMessageView>,
    own_cur: Seq<AgentMessageView>,
    legacy: Seq<LegacyInboxMessage>,
    now: u64,
    unread_only: bool,
)
    ensures
        !unread_only ==> forall|i: int|
            #![trigger legacy[i]]
            0 <= i < legacy.len() ==> exists|k: int|
                0 <= k < inbox_of(broadcast_new, broadcast_cur, own_new, own_cur, legacy, now, unread_only).len()
                    && repeats_entry(
                    #[trigger] inbox_of(broadcast_new, broadcast_cur, own_new, own_cur, legacy, now, unread_only)[k],
                    legacy[i],
                ),
        forall|i: int|
            #![trigger legacy[i]]
            0 <= i < legacy.len() && none_repeats(broadcast_new, legacy[i]) && none_repeats(broadcast_cur, legacy[i])
                && none_repeats(own_new, legacy[i]) && none_repeats(own_cur, legacy[i]) && (forall|j: int|
                0 <= j < i ==> !(#[trigger] legacy[j].sender@ == legacy[i].sender@ && legacy[j].content@
                    == legacy[i].content@)) ==> exists|k: int|
                0 <= k < inbox_of(broadcast_new, broadcast_cur, own_new, own_cur, legacy, now, unread_only).len()
                    && is_entry_message(
                    #[trigger] inbox_of(broadcast_new, broadcast_cur, own_new, own_cur, legacy, now, unread_only)[k],
                    i as nat,
                    legacy[i],
                ),
{
    broadcast use vstd::seq_lib::group_to_multiset_ensures;
    let bx = boxed_messages(broadcast_new, broadcast_cur, own_new, own_cur, unread_only);
    let all = with_legacy(bx, legacy, now);
    let kept = if unread_only { unread(all) } else { all };
    let ib = inbox_of(broadcast_new, broadcast_cur, own_new, own_cur, legacy, now, unread_only);
    assert(ib == by_time(kept));
    lemma_by_time_sorted(kept);
    lemma_legacy_entries(bx, legacy, now);
    if !unread_only {
        assert forall|i: int| #![trigger legacy[i]] 0 <= i < legacy.len() implies exists|k: int|
            0 <= k < ib.len() && repeats_entry(#[trigger] ib[k], legacy[i]) by {
            let k = choose|k: int| 0 <= k < all.len() && repeats_entry(#[trigger] all[k], legacy[i]);
            let x = all[k];
            assert(kept.contains(x));
            assert(kept.to_multiset().count(x) > 0);
            assert(ib.to_multiset().count(x) > 0);
            assert(ib.contains(x));
            let j = choose|j: int| 0 <= j < ib.len() && ib[j] == x;
            assert(repeats_entry(ib[j], legacy[i]));
        }
    }
    assert forall|i: int|
        #![trigger legacy[i]]
        0 <= i < legacy.len() && none_repeats(broadcast_new, legacy[i]) && none_repeats(broadcast_cur, legacy[i])
            && none_repeats(own_new, legacy[i]) && none_repeats(own_cur, legacy[i]) && (forall|j: int|
            0 <= j < i ==> !(#[trigger] legacy[j].sender@ == legacy[i].sender@ && legacy[j].content@
                == legacy[i].content@)) implies exists|k: int|
            0 <= k < ib.len() && is_entry_message(#[trigger] ib[k], i as nat, legacy[i]) by {
        let l = legacy[i];
        let e = Seq::<AgentMessageView>::empty();
        assert(none_repeats(e, l));
        lemma_marked_none_repeats(broadcast_new, false, l);
        lemma_marked_none_repeats(broadcast_cur, true, l);
        lemma_marked_none_repeats(own_new, false, l);
        lemma_marked_none_repeats(own_cur, true, l);
        let p1 = marked(broadcast_new, false);
        let p2 = if unread_only { e } else { marked(broadcast_cur, true) };
        let p3 = marked(own_new, false);
        let p4 = if unread_only { e } else { marked(own_cur, true) };
        lemma_concat_none_repeats(p1, p2, l);
        lemma_concat_none_repeats(p1 + p2, p3, l);
        lemma_concat_none_repeats(p1 + p2 + p3, p4, l);
        assert(bx == p1 + p2 + p3 + p4);
        assert(entry_is_new(bx, legacy, i));
        let k = choose|k: int| 0 <= k < all.len() && is_entry_message(#[trigger] all[k], i as nat, legacy[i]);
        let x = all[k];
        assert(all.contains(x));
        if unread_only {
            lemma_unread_keeps(all, x);
        }
        assert(kept.contains(x));
        assert(kept.to_multiset().count(x) > 0);
        assert(ib.to_multiset().count(x) > 0);
        assert(ib.contains(x));
        let j = choose|j: int| 0 <= j < ib.len() && ib[j] == x;
        assert(is_entry_message(ib[j], i as nat, legacy[i]));
    }
}

/// A message as its folder shows it: read or unread.
pub open spec fn marked_one(m: AgentMessageView, read: bool) -> AgentMessageView {
    AgentMessageView {
        id: m.id,
        sender: m.sender,
        recipient: m.recipient,
        timestamp: m.timestamp,
        timestamp_iso: m.timestamp_iso,
        subject: m.subject,
        body: m.body,
        read: read,
        dimension: m.dimension,
        in_reply_to: m.in_reply_to,
    }
}

proof fn lemma_with_legacy_keeps(ms: Seq<AgentMessageView>, legacy: Seq<LegacyInboxMessage>, now: u64, x: AgentMessageView)
    requires
        ms.contains(x),
    ensures
        with_legacy(ms, legacy, now).contains(x),
    decreases legacy.len(),
{
    if legacy.len() > 0 {
        lemma_with_legacy_keeps(ms, legacy.drop_last(), now, x);
        let prev = with_legacy(ms, legacy.drop_last(), now);
        let k = choose|k: int| 0 <= k < prev.len() && prev[k] == x;
        let l = legacy.last();
        if !has_message(prev, l.sender@, l.content@) {
            let n = prev.push(legacy_message((legacy.len() - 1) as nat, l.sender@, l.content@, l.timestamp@, now));
            assert(n[k] == x);
        }
    }
}

proof fn lemma_unread_keeps(ms: Seq<AgentMessageView>, x: AgentMessageView)
    requires
        ms.contains(x),
        !x.read,
    ensures
        unread(ms).contains(x),
    decreases ms.len(),
{
    if ms.len() > 0 {
        let u = ms.drop_last();
        if ms.last() == x {
            assert(unread(ms) == unread(u) + seq![x]);
            assert(unread(ms)[unread(u).len() as int] == x);
        } else {
            let k = choose|k: int| 0 <= k < ms.len() && ms[k] == x;
            assert(u[k] == x);
            lemma_unread_keeps(u, x);
            let j = choose|j: int| 0 <= j < unread(u).len() && unread(u)[j] == x;
            let tail = if ms.last().read {
                Seq::<AgentMessageView>::empty()
            } else {
                seq![ms.last()]
            };
            assert(unread(ms) == unread(u) + tail);
            assert(unread(ms)[j] == x);
        }
    }
}

/// Every new message of the broadcast box or of the recipient's box is in
/// the inbox, unread; every read message of those boxes is in it too unless
/// only unread messages are asked for.
pub proof fn lemma_inbox_holds_delivered(
    broadcast_new: Seq<AgentMessageView>,
    broadcast_cur: Seq<AgentMessageView>,
    own_new: Seq<AgentMessageView>,
    own_cur: Seq<AgentMessageView>,
    legacy: Seq<LegacyInboxMessage>,
    now: u64,
    unread_only: bool,
    m: AgentMessageView,
)
    ensures
        broadcast_new.contains(m) || own_new.contains(m) ==> inbox_of(
            broadcast_new,
            broadcast_cur,
            own_new,
            own_cur,
            legacy,
            now,
            unread_only,
        ).contains(marked_one(m, false)),
        !unread_only && (broadcast_cur.contains(m) || own_cur.contains(m)) ==> inbox_of(
            broadcast_new,
            broadcast_cur,
            own_new,
            own_cur,
            legacy,
            now,
            unread_only,
        ).contains(marked_one(m, true)),
{
    broadcast use vstd::seq_lib::group_to_multiset_ensures;
    let bx = boxed_messages(broadcast_new, broadcast_cur, own_new, own_cur, unread_only);
    let e = Seq::<AgentMessageView>::empty();
    let p1 = marked(broadcast_new, false);
    let p2 = if unread_only { e } else { marked(broadcast_cur, true) };
    let p3 = marked(own_new, false);
    let p4 = if unread_only { e } else { marked(own_cur, true) };
    assert(bx == p1 + p2 + p3 + p4);
    let all = with_legacy(bx, legacy, now);
    let kept = if unread_only { unread(all) } else { all };
    lemma_by_time_sorted(kept);
    assert(inbox_of(broadcast_new, broadcast_cur, own_new, own_cur, legacy, now, unread_only) == by_time(kept));
    assert forall|x: AgentMessageView| bx.contains(x) && (!unread_only || !x.read) implies by_time(kept).contains(x) by {
        lemma_with_legacy_keeps(bx, legacy, now, x);
        if unread_only {
            lemma_unread_keeps(all, x);
        }
        assert(kept.to_multiset().count(x) > 0);
        assert(by_time(kept).to_multiset().count(x) > 0);
    }
    if broadcast_new.contains(m) {
        let k = choose|k: int| 0 <= k < broadcast_new.len() && broadcast_new[k] == m;
        assert(bx[k] == marked_one(m, false));
        assert(bx.contains(marked_one(m, false)));
    }
    if own_new.contains(m) {
        let k = choose|k: int| 0 <= k < own_new.len() && own_new[k] == m;
        assert(bx[p1.len() + p2.len() + k] == marked_one(m, false));
        assert(bx.contains(marked_one(m, false)));
    }
    if !unread_only && broadcast_cur.contains(m) {
        let k = choose|k: int| 0 <= k < broadcast_cur.len() && broadcast_cur[k] == m;
        assert(bx[p1.len() + k] == marked_one(m, true));
        assert(bx.contains(marked_one(m, true)));
    }
    if !unread_only && own_cur.contains(m) {
        let k = choose|k: int| 0 <= k < own_cur.len() && own_cur[k] == m;
        assert(bx[p1.len() + p2.len() + p3.len() + k] == marked_one(m, true));
        assert(bx.contains(marked_one(m, true)));
    }
}

} // verus!
