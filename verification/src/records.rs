//! What a container of recorded messages hands over: connections, which
//! bind a topic to a message definition, the messages recorded on them, and
//! the counts that the container's index keeps.

use crate::text::{chars_of, str_eq};
use vstd::prelude::*;
use vstd::slice::*;
use vstd::string::*;

verus! {

/// A connection: the topic and the message definition of the messages that
/// carry its number.
#[derive(Debug, Clone, PartialEq, Eq)]
pub struct ConnectionRecord {
    pub conn_id: u32,
    pub topic: String,
    pub message_definition: String,
}

/// The mathematical content of a `ConnectionRecord`.
pub struct ConnectionView {
    pub conn_id: u32,
    pub topic: Seq<char>,
    pub message_definition: Seq<char>,
}

impl View for ConnectionRecord {
    type V = ConnectionView;

    open spec fn view(&self) -> ConnectionView {
        ConnectionView {
            conn_id: self.conn_id,
            topic: self.topic@,
            message_definition: self.message_definition@,
        }
    }
}

/// A recorded message: its payload and the number of its connection.
#[derive(Debug, Clone, PartialEq, Eq)]
pub struct MessageDataRecord {
    pub conn_id: u32,
    pub payload: Vec<u8>,
}

/// The mathematical content of a `MessageDataRecord`.
pub struct MessageDataView {
    pub conn_id: u32,
    pub payload: Seq<u8>,
}

impl View for MessageDataRecord {
    type V = MessageDataView;

    open spec fn view(&self) -> MessageDataView {
        MessageDataView { conn_id: self.conn_id, payload: self.payload@ }
    }
}

/// An entry of the container's index: how many messages of a connection one
/// chunk holds.
#[derive(Debug, Clone, Copy, PartialEq, Eq, Structural)]
pub struct ChunkEntry {
    pub conn_id: u32,
    pub count: u32,
}

/// The connections of `records`, each by its view.
pub open spec fn connections_view(records: Seq<ConnectionRecord>) -> Seq<ConnectionView> {
    records.map_values(|c: ConnectionRecord| c@)
}

/// The messages of `records`, each by its view.
pub open spec fn messages_view(records: Seq<MessageDataRecord>) -> Seq<MessageDataView> {
    records.map_values(|m: MessageDataRecord| m@)
}

/// The texts of `texts`, each by its view.
pub open spec fn texts_view(texts: Seq<String>) -> Seq<Seq<char>> {
    texts.map_values(|t: String| t@)
}

/// The byte vectors of `payloads`, each by its view.
pub open spec fn payloads_view(payloads: Seq<Vec<u8>>) -> Seq<Seq<u8>> {
    payloads.map_values(|p: Vec<u8>| p@)
}

/// The topic counts of `rows`, each topic by its view.
pub open spec fn rows_view(rows: Seq<(String, u64)>) -> Seq<(Seq<char>, u64)> {
    rows.map_values(|r: (String, u64)| (r.0@, r.1))
}

/// The topic of every connection, in order.
pub open spec fn topics(connections: Seq<ConnectionView>) -> Seq<Seq<char>> {
    connections.map_values(|c: ConnectionView| c.topic)
}

/// Whether the connection number `conn_id` belongs to the topic `topic`:
/// some connection has that number and that topic.
pub open spec fn on_topic(
    connections: Seq<ConnectionView>,
    conn_id: u32,
    topic: Seq<char>,
) -> bool {
    exists|i: int|
        0 <= i < connections.len() && (#[trigger] connections[i]).conn_id == conn_id
            && connections[i].topic == topic
}

/// The payloads of those among the first `n` messages whose connection
/// belongs to `topic`, in order.
pub open spec fn payloads_on(
    connections: Seq<ConnectionView>,
    messages: Seq<MessageDataView>,
    n: nat,
    topic: Seq<char>,
) -> Seq<Seq<u8>>
    decreases n,
{
    if n == 0 || n > messages.len() {
        Seq::empty()
    } else {
        let before = payloads_on(connections, messages, (n - 1) as nat, topic);
        if on_topic(connections, messages[n - 1].conn_id, topic) {
            before.push(messages[n - 1].payload)
        } else {
            before
        }
    }
}

/// The number of messages that the first `n` entries count for the
/// connections of `topic`.
pub open spec fn messages_on(
    connections: Seq<ConnectionView>,
    entries: Seq<ChunkEntry>,
    n: nat,
    topic: Seq<char>,
) -> nat
    decreases n,
{
    if n == 0 || n > entries.len() {
        0
    } else {
        let before = messages_on(connections, entries, (n - 1) as nat, topic);
        if on_topic(connections, entries[n - 1].conn_id, topic) {
            before + entries[n - 1].count as nat
        } else {
            before
        }
    }
}

/// `total` as far as 64 bits hold it.
pub open spec fn clamped(total: nat) -> u64 {
    if total > u64::MAX {
        u64::MAX
    } else {
        total as u64
    }
}

/// Whether no connection before the `i`-th has the topic of the `i`-th.
pub open spec fn first_of_topic(connections: Seq<ConnectionView>, i: int) -> bool {
    forall|j: int| 0 <= j < i ==> (#[trigger] connections[j]).topic != connections[i].topic
}

/// For each topic of the first `n` connections, in the order in which the
/// topics first occur, the number of messages recorded on it.
pub open spec fn topic_counts(
    connections: Seq<ConnectionView>,
    entries: Seq<ChunkEntry>,
    n: nat,
) -> Seq<(Seq<char>, u64)>
    decreases n,
{
    if n == 0 || n > connections.len() {
        Seq::empty()
    } else {
        let before = topic_counts(connections, entries, (n - 1) as nat);
        if first_of_topic(connections, n - 1) {
            let topic = connections[n - 1].topic;
            before.push((topic, clamped(messages_on(connections, entries, entries.len(), topic))))
        } else {
            before
        }
    }
}

/// The topic of every connection, in order.
pub fn get_topics(connections: &Vec<ConnectionRecord>) -> (r: Vec<String>)
    ensures
        texts_view(r@) == topics(connections_view(connections@)),
{
    let mut r: Vec<String> = Vec::new();
    let mut i: usize = 0;
    while i < connections.len()
        invariant
            i <= connections@.len(),
            r@.len() == i,
            forall|j: int| 0 <= j < i ==> (#[trigger] r@[j])@ == connections@[j].topic@,
        decreases connections@.len() - i,
    {
        r.push(connections[i].topic.clone());
        i += 1;
    }
    assert(texts_view(r@) =~= topics(connections_view(connections@)));
    r
}

/// Whether the connection number `conn_id` belongs to the topic `topic`.
pub fn is_on_topic(connections: &Vec<ConnectionRecord>, conn_id: u32, topic: &str) -> (r: bool)
    ensures
        r == on_topic(connections_view(connections@), conn_id, topic@),
{
    let ghost views = connections_view(connections@);
    let mut i: usize = 0;
    while i < connections.len()
        invariant
            i <= connections@.len(),
            views == connections_view(connections@),
            forall|j: int|
                0 <= j < i ==> !((#[trigger] views[j]).conn_id == conn_id && views[j].topic
                    == topic@),
        decreases connections@.len() - i,
    {
        let c = &connections[i];
        assert(views[i as int] == c@);
        if c.conn_id == conn_id && str_eq(c.topic.as_str(), topic) {
            return true;
        }
        i += 1;
    }
    false
}

/// The payloads of the messages recorded on `topic`, in the order of
/// `messages`: those whose connection number is that of a connection with
/// this topic.
pub fn get_messages(
    connections: &Vec<ConnectionRecord>,
    messages: &Vec<MessageDataRecord>,
    topic: &str,
) -> (r: Vec<Vec<u8>>)
    ensures
        payloads_view(r@) == payloads_on(
            connections_view(connections@),
            messages_view(messages@),
            messages@.len(),
            topic@,
        ),
{
    let mut r: Vec<Vec<u8>> = Vec::new();
    let mut i: usize = 0;
    assert(payloads_view(r@) =~= Seq::<Seq<u8>>::empty());
    while i < messages.len()
        invariant
            i <= messages@.len(),
            payloads_view(r@) == payloads_on(
                connections_view(connections@),
                messages_view(messages@),
                i as nat,
                topic@,
            ),
        decreases messages@.len() - i,
    {
        let m = &messages[i];
        assert(messages_view(messages@)[i as int] == m@);
        if is_on_topic(connections, m.conn_id, topic) {
            let ghost before = r@;
            let payload = slice_to_vec(m.payload.as_slice());
            r.push(payload);
            assert(payloads_view(r@) =~= payloads_view(before).push(m@.payload));
        }
        i += 1;
    }
    r
}

/// The number of messages that `entries` count for the connections of
/// `topic`, as far as 64 bits hold it.
pub fn count_on_topic(
    connections: &Vec<ConnectionRecord>,
    entries: &Vec<ChunkEntry>,
    topic: &str,
) -> (r: u64)
    ensures
        r == clamped(
            messages_on(connections_view(connections@), entries@, entries@.len(), topic@),
        ),
{
    let mut total: u64 = 0;
    let mut i: usize = 0;
    while i < entries.len()
        invariant
            i <= entries@.len(),
            total == clamped(
                messages_on(connections_view(connections@), entries@, i as nat, topic@),
            ),
        decreases entries@.len() - i,
    {
        let e = entries[i];
        if is_on_topic(connections, e.conn_id, topic) {
            if total > u64::MAX - e.count as u64 {
                total = u64::MAX;
            } else {
                total = total + e.count as u64;
            }
        }
        i += 1;
    }
    total
}

/// Whether no connection before the `i`-th has the topic of the `i`-th.
fn is_first_of_topic(connections: &Vec<ConnectionRecord>, i: usize) -> (r: bool)
    requires
        i < connections@.len(),
    ensures
        r == first_of_topic(connections_view(connections@), i as int),
{
    let ghost views = connections_view(connections@);
    let mut j: usize = 0;
    while j < i
        invariant
            j <= i < connections@.len(),
            views == connections_view(connections@),
            forall|k: int| 0 <= k < j ==> (#[trigger] views[k]).topic != views[i as int].topic,
        decreases i - j,
    {
        assert(views[j as int] == connections@[j as int]@);
        assert(views[i as int] == connections@[i as int]@);
        if str_eq(connections[j].topic.as_str(), connections[i].topic.as_str()) {
            return false;
        }
        j += 1;
    }
    true
}

/// For each topic, in the order in which the topics first occur among
/// `connections`, the number of messages that `entries` count for it, as far
/// as 64 bits hold it.
pub fn get_message_count(connections: &Vec<ConnectionRecord>, entries: &Vec<ChunkEntry>) -> (r: Vec<
    (String, u64),
>)
    ensures
        rows_view(r@) == topic_counts(
            connections_view(connections@),
            entries@,
            connections@.len(),
        ),
{
    let mut r: Vec<(String, u64)> = Vec::new();
    let mut i: usize = 0;
    assert(rows_view(r@) =~= Seq::<(Seq<char>, u64)>::empty());
    while i < connections.len()
        invariant
            i <= connections@.len(),
            rows_view(r@) == topic_counts(connections_view(connections@), entries@, i as nat),
        decreases connections@.len() - i,
    {
        let c = &connections[i];
        assert(connections_view(connections@)[i as int] == c@);
        if is_first_of_topic(connections, i) {
            let ghost before = r@;
            let total = count_on_topic(connections, entries, c.topic.as_str());
            let row = (c.topic.clone(), total);
            r.push(row);
            assert(rows_view(r@) =~= rows_view(before).push((c@.topic, total)));
        }
        i += 1;
    }
    r
}

/// Whether a file of the name `name` holds recorded messages: the name ends
/// in `.bag`, and something stands before that.
pub open spec fn names_bag_file(name: Seq<char>) -> bool {
    name.len() > 4 && name.subrange(name.len() - 4, name.len() as int) == seq!['.', 'b', 'a', 'g']
}

/// Whether a file of the name `name` holds recorded messages.
pub fn is_bag_file(name: &str) -> (r: bool)
    ensures
        r == names_bag_file(name@),
{
    let chars = chars_of(name);
    let n = chars.len();
    if n <= 4 {
        return false;
    }
    let ghost end = chars@.subrange(n - 4, n as int);
    assert(end[0] == chars@[n - 4] && end[1] == chars@[n - 3] && end[2] == chars@[n - 2] && end[3]
        == chars@[n - 1]);
    let r = chars[n - 4] == '.' && chars[n - 3] == 'b' && chars[n - 2] == 'a' && chars[n - 1]
        == 'g';
    assert(r ==> end =~= seq!['.', 'b', 'a', 'g']);
    r
}

/// The first line of a listing and `n` topics, each on a line of its own.
pub open spec fn listed_topics(bag: Seq<char>, topics: Seq<Seq<char>>, n: nat) -> Seq<char>
    decreases n,
{
    if n == 0 || n > topics.len() {
        "Bag: "@ + bag
    } else {
        listed_topics(bag, topics, (n - 1) as nat) + "\n"@ + topics[n - 1]
    }
}

/// The listing of a bag: its name, its topics line by line, and a rule.
pub open spec fn listing(bag: Seq<char>, topics: Seq<Seq<char>>) -> Seq<char> {
    listed_topics(bag, topics, topics.len()) + "\n\n-------------------------------\n\n"@
}

/// The listing of the bag `bag` with the topics `topics`, as text.
pub fn list_bag(bag: &str, topics: &Vec<String>) -> (r: String)
    ensures
        r@ == listing(bag@, texts_view(topics@)),
{
    let mut r = String::from_str("Bag: ");
    r.append(bag);
    let mut i: usize = 0;
    while i < topics.len()
        invariant
            i <= topics@.len(),
            r@ == listed_topics(bag@, texts_view(topics@), i as nat),
        decreases topics@.len() - i,
    {
        assert(texts_view(topics@)[i as int] == topics@[i as int]@);
        r.append("\n");
        r.append(topics[i].as_str());
        i += 1;
    }
    r.append("\n\n-------------------------------\n\n");
    r
}

} // verus!
