use vstd::prelude::*;

use crate::pong::event::EventWrapper;
use crate::text::{decimal, decimal_string, str_eq};

verus! {

/// Asks the topic manager service for new partitions.
#[derive(Debug)]
pub struct KafkaTopicManager {
    partition_management_endpoint: String,
}

impl KafkaTopicManager {
    /// The URL that new partitions are requested from.
    pub closed spec fn endpoint(&self) -> Seq<char> {
        self.partition_management_endpoint@
    }

    /// The endpoint of the manager at `topic_manager_host`: `http://<host>/add_partition`.
    pub fn from(topic_manager_host: &str) -> (m: KafkaTopicManager)
        ensures
            m.endpoint() == "http://"@ + topic_manager_host@ + "/add_partition"@,
    {
        let mut endpoint = String::new();
        endpoint.append("http://");
        endpoint.append(topic_manager_host);
        endpoint.append("/add_partition");
        KafkaTopicManager { partition_management_endpoint: endpoint }
    }

    /// The URL that new partitions are requested from.
    pub fn endpoint_url(&self) -> (r: &str)
        ensures
            r@ == self.endpoint(),
    {
        self.partition_management_endpoint.as_str()
    }
}

/// Why the topic manager's answer to a request for a partition gives no partition.
#[derive(Debug)]
pub enum PartitionAnswerError {
    /// the body is not UTF-8 text
    NotText,
    /// the manager refused; the message quotes the body it answered
    Refused(String),
    /// the body does not hold a partition number
    NoPartition,
}

/// Reads the topic manager's answer to a request for a new partition: `status` is the HTTP
/// status, `body` the body when it is UTF-8 text (`None` when not), and `data` the partition
/// number that the body holds as JSON (`None` when it holds none). The checks come in that
/// order: a body that is no text is an error, then any status but 200 is a refusal that
/// quotes the body, then a body without a partition number is an error; otherwise the
/// answer is the partition.
pub fn partition_answer(status: u16, body: Option<&str>, data: Option<u16>) -> (r: Result<
    u16,
    PartitionAnswerError,
>)
    ensures
        match body {
            None => r matches Err(PartitionAnswerError::NotText),
            Some(b) => if status != 200 {
                r matches Err(PartitionAnswerError::Refused(m)) && m@ == "failed to add partition: "@
                    + b@
            } else {
                match data {
                    None => r matches Err(PartitionAnswerError::NoPartition),
                    Some(p) => r == Ok::<u16, PartitionAnswerError>(p),
                }
            },
        },
{
    let b = match body {
        None => {
            return Err(PartitionAnswerError::NotText);
        },
        Some(b) => b,
    };
    if status != 200 {
        let mut m = String::new();
        m.append("failed to add partition: ");
        m.append(b);
        return Err(PartitionAnswerError::Refused(m));
    }
    match data {
        None => Err(PartitionAnswerError::NoPartition),
        Some(p) => Ok(p),
    }
}

/// What one poll of a partition's consumer gave.
#[derive(Debug)]
pub enum Poll {
    /// no record came within the wait
    TimedOut,
    /// the stream of records has ended
    Ended,
    /// the record could not be read; the text describes why
    Failed(String),
    /// a record: its key, if it has one, and its payload
    Record(Option<String>, String),
}

/// `n` in decimal, with a leading `-` when it is negative.
pub open spec fn signed_decimal(n: int) -> Seq<char> {
    if n < 0 {
        "-"@ + decimal((-n) as nat)
    } else {
        decimal(n as nat)
    }
}

/// Renders `n` in decimal, with a leading `-` when it is negative.
pub fn signed_decimal_string(n: i32) -> (s: String)
    ensures
        s@ == signed_decimal(n as int),
{
    if n < 0 {
        let magnitude: u32 = (0i64 - n as i64) as u32;
        let digits = decimal_string(magnitude);
        let mut s = String::new();
        s.append("-");
        s.append(digits.as_str());
        s
    } else {
        decimal_string(n as u32)
    }
}

/// The events that one poll of the consumer of `topic`, partition `partition`, gives: none
/// when no record came in time; an error when the stream ended (`No record.`) or the record
/// could not be read (a message naming the topic, the partition and the failure); otherwise
/// the record as the one event, on `topic` with the record's key and payload.
pub fn polled_events(topic: &str, partition: i32, poll: Poll) -> (r: Result<Vec<EventWrapper>, String>)
    ensures
        match poll {
            Poll::TimedOut => r matches Ok(v) && v@.len() == 0,
            Poll::Ended => r matches Err(m) && m@ == "No record."@,
            Poll::Failed(why) => r matches Err(m) && m@ == "Failed to extract record for "@ + topic@
                + " / "@ + signed_decimal(partition as int) + ": "@ + why@,
            Poll::Record(key, event) => r matches Ok(v) && v@.len() == 1 && v@[0].topic@ == topic@
                && v@[0].key == key && v@[0].event == event,
        },
{
    match poll {
        Poll::TimedOut => Ok(Vec::new()),
        Poll::Ended => {
            let mut m = String::new();
            m.append("No record.");
            Err(m)
        },
        Poll::Failed(why) => {
            let p = signed_decimal_string(partition);
            let mut m = String::new();
            m.append("Failed to extract record for ");
            m.append(topic);
            m.append(" / ");
            m.append(p.as_str());
            m.append(": ");
            m.append(why.as_str());
            Err(m)
        },
        Poll::Record(key, event) => {
            let mut v: Vec<EventWrapper> = Vec::new();
            v.push(EventWrapper { topic: topic.to_owned(), key, event });
            Ok(v)
        },
    }
}

/// The distinct topics of `events`, in the order of their first appearance.
pub open spec fn topics_in_order(events: Seq<EventWrapper>) -> Seq<Seq<char>>
    decreases events.len(),
{
    if events.len() == 0 {
        Seq::empty()
    } else {
        let t = topics_in_order(events.drop_last());
        if t.contains(events.last().topic@) {
            t
        } else {
            t.push(events.last().topic@)
        }
    }
}

/// The events of `events` on `topic`, in order.
pub open spec fn events_on(events: Seq<EventWrapper>, topic: Seq<char>) -> Seq<EventWrapper>
    decreases events.len(),
{
    if events.len() == 0 {
        Seq::empty()
    } else {
        let rest = events_on(events.drop_last(), topic);
        if events.last().topic@ == topic {
            rest.push(events.last())
        } else {
            rest
        }
    }
}

/// `groups` holds one group per topic of `events`, in the order of first appearance, each
/// with all events on its topic in the order they came in.
pub open spec fn grouped_by_topic(groups: Seq<(String, Vec<EventWrapper>)>, events: Seq<EventWrapper>) -> bool {
    &&& groups.len() == topics_in_order(events).len()
    &&& forall|k: int|
        0 <= k < groups.len() ==> (#[trigger] groups[k]).0@ == topics_in_order(events)[k]
            && groups[k].1@ == events_on(events, topics_in_order(events)[k])
}

/// A topic is listed exactly when some event is on it.
pub proof fn lemma_topics_cover(events: Seq<EventWrapper>, topic: Seq<char>)
    ensures
        topics_in_order(events).contains(topic) <==> events_on(events, topic).len() > 0,
    decreases events.len(),
{
    if events.len() > 0 {
        lemma_topics_cover(events.drop_last(), topic);
        let t = topics_in_order(events.drop_last());
        if !t.contains(events.last().topic@) {
            assert(t.push(events.last().topic@).last() == events.last().topic@);
            if t.contains(topic) {
                let i = choose|i: int| 0 <= i < t.len() && t[i] == topic;
                assert(t.push(events.last().topic@)[i] == topic);
            }
            if t.push(events.last().topic@).contains(topic) && topic != events.last().topic@ {
                let i = choose|i: int|
                    0 <= i < t.push(events.last().topic@).len() && t.push(
                        events.last().topic@,
                    )[i] == topic;
                assert(t[i] == topic);
            }
        }
    }
}

/// No topic is listed twice.
pub proof fn lemma_topics_distinct(events: Seq<EventWrapper>)
    ensures
        forall|i: int, j: int|
            0 <= i < j < topics_in_order(events).len() ==> topics_in_order(events)[i]
                != topics_in_order(events)[j],
    decreases events.len(),
{
    if events.len() > 0 {
        lemma_topics_distinct(events.drop_last());
        let t = topics_in_order(events.drop_last());
        if !t.contains(events.last().topic@) {
            let u = t.push(events.last().topic@);
            assert forall|i: int, j: int| 0 <= i < j < u.len() implies u[i] != u[j] by {
                if j == t.len() {
                    assert(u[i] == t[i]);
                    if u[i] == u[j] {
                        assert(t.contains(events.last().topic@));
                    }
                } else {
                    assert(u[i] == t[i] && u[j] == t[j]);
                }
            }
        }
    }
}

/// Splits `events` by topic, for writing each topic's events to its own producer: one group
/// per topic in the order the topics first appear, each holding all events on that topic in
/// the order they came in.
pub fn group_by_topic(events: Vec<EventWrapper>) -> (groups: Vec<(String, Vec<EventWrapper>)>)
    ensures
        grouped_by_topic(groups@, events@),
{
    let ghost all = events@;
    let total = events.len();
    let mut rest = events;
    let mut groups: Vec<(String, Vec<EventWrapper>)> = Vec::new();
    let mut done: usize = 0;
    while rest.len() > 0
        invariant
            done + rest@.len() == all.len(),
            all.len() == total,
            rest@ == all.skip(done as int),
            grouped_by_topic(groups@, all.take(done as int)),
        decreases rest@.len(),
    {
        let e = rest.remove(0);
        let ghost seen = all.take(done as int);
        let ghost next = all.take(done + 1);
        proof {
            assert(all.skip(done as int)[0] == all[done as int]);
            assert(next.drop_last() == seen);
            assert(next.last() == e);
            assert(rest@ == all.skip(done + 1));
            lemma_topics_distinct(seen);
        }
        let mut found: Option<usize> = None;
        let mut k: usize = 0;
        while k < groups.len()
            invariant
                0 <= k <= groups@.len(),
                grouped_by_topic(groups@, seen),
                found is None ==> forall|j: int| 0 <= j < k ==> (#[trigger] groups@[j]).0@ != e.topic@,
                found matches Some(i) ==> i < groups@.len() && groups@[i as int].0@ == e.topic@,
            ensures
                grouped_by_topic(groups@, seen),
                found is None ==> forall|j: int|
                    0 <= j < groups@.len() ==> (#[trigger] groups@[j]).0@ != e.topic@,
                found matches Some(i) ==> i < groups@.len() && groups@[i as int].0@ == e.topic@,
            decreases groups@.len() - k,
        {
            if str_eq(groups[k].0.as_str(), e.topic.as_str()) {
                found = Some(k);
                break;
            }
            k = k + 1;
        }
        match found {
            Some(i) => {
                let ghost old_groups = groups@;
                let mut group = groups.remove(i);
                group.1.push(e);
                groups.insert(i, group);
                proof {
                    let topics = topics_in_order(seen);
                    assert(topics[i as int] == e.topic@);
                    assert(topics.contains(e.topic@));
                    assert(topics_in_order(next) == topics);
                    assert forall|j: int| 0 <= j < groups@.len() implies (#[trigger] groups@[j]).0@
                        == topics_in_order(next)[j] && groups@[j].1@ == events_on(
                        next,
                        topics_in_order(next)[j],
                    ) by {
                        if j != i {
                            assert(groups@[j] == old_groups[j]);
                            assert(topics[j] != topics[i as int]);
                        }
                    }
                }
            },
            None => {
                let topic = e.topic.clone();
                let mut members: Vec<EventWrapper> = Vec::new();
                members.push(e);
                let ghost old_groups = groups@;
                groups.push((topic, members));
                proof {
                    let topics = topics_in_order(seen);
                    assert(!topics.contains(e.topic@)) by {
                        if topics.contains(e.topic@) {
                            let j = choose|j: int| 0 <= j < topics.len() && topics[j] == e.topic@;
                            assert(old_groups[j].0@ == e.topic@);
                        }
                    }
                    lemma_topics_cover(seen, e.topic@);
                    assert(events_on(seen, e.topic@) == Seq::<EventWrapper>::empty());
                    assert(topics_in_order(next) == topics.push(e.topic@));
                    assert forall|j: int| 0 <= j < groups@.len() implies (#[trigger] groups@[j]).0@
                        == topics_in_order(next)[j] && groups@[j].1@ == events_on(
                        next,
                        topics_in_order(next)[j],
                    ) by {
                        if j < old_groups.len() {
                            assert(groups@[j] == old_groups[j]);
                            assert(topics[j] != e.topic@) by {
                                if topics[j] == e.topic@ {
                                    assert(topics.contains(e.topic@));
                                }
                            }
                        } else {
                            assert(groups@[j].1@ == seq![e]);
                        }
                    }
                }
            },
        }
        done = done + 1;
    }
    proof {
        assert(all.take(done as int) == all);
    }
    groups
}

} // verus!
