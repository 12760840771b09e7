//! The replicated log as a node reads it, and the read path: the latest
//! decided value of a key.

use vstd::prelude::*;

verus! {

/// A key with its value: the unit of replication.
#[derive(Debug)]
pub struct KeyValue {
    pub key: String,
    pub value: u64,
}

/// An entry of the replicated log. A proposed entry has been appended but a
/// quorum has not confirmed it yet; a decided entry is permanent.
#[derive(Debug)]
pub enum LogEntry {
    Proposed(KeyValue),
    Decided(KeyValue),
}

impl KeyValue {
    /// A pair with the given key and value.
    pub fn new(key: String, value: u64) -> (pair: KeyValue)
        ensures
            pair.key == key,
            pair.value == value,
    {
        KeyValue { key, value }
    }

}

impl Clone for KeyValue {
    /// A copy of this pair, with the same key and the same value.
    fn clone(&self) -> (pair: KeyValue)
        ensures
            pair == *self,
    {
        KeyValue { key: self.key.clone(), value: self.value }
    }
}

impl LogEntry {
    /// The pair that the entry carries.
    pub open spec fn pair(self) -> KeyValue {
        match self {
            LogEntry::Proposed(pair) => pair,
            LogEntry::Decided(pair) => pair,
        }
    }

    /// The entry is decided and binds `key`.
    pub open spec fn decides(self, key: Seq<char>) -> bool {
        self is Decided && self.pair().key@ == key
    }
}

/// The value that the newest decided entry for `key` holds, looking from the
/// end of `log` backwards; `None` when no decided entry binds `key`.
pub open spec fn latest(log: Seq<LogEntry>, key: Seq<char>) -> Option<u64>
    decreases log.len(),
{
    if log.len() == 0 {
        None
    } else if log.last().decides(key) {
        Some(log.last().pair().value)
    } else {
        latest(log.drop_last(), key)
    }
}

/// `index` is the position of the newest decided entry for `key` in `log`.
pub open spec fn newest_at(log: Seq<LogEntry>, key: Seq<char>, index: int) -> bool {
    &&& 0 <= index < log.len()
    &&& log[index].decides(key)
    &&& forall|later: int| index < later < log.len() ==> !(#[trigger] log[later]).decides(key)
}

/// The latest decided value of `key` in `log`: the log is scanned from its
/// newest entry backwards and the first decided entry with this key answers.
/// Proposed entries are passed over. An absent key is no error.
pub fn lookup(log: &Vec<LogEntry>, key: &String) -> (found: Option<u64>)
    ensures
        found == latest(log@, key@),
        found is Some <==> exists|index: int| 0 <= index < log.len() && (#[trigger] log[index]).decides(key@),
        found is Some ==> exists|index: int| newest_at(log@, key@, index) && (#[trigger] log[index]).pair().value == found->0,
{
    let mut i: usize = log.len();
    proof {
        assert(log@.take(i as int) =~= log@);
    }
    while i > 0
        invariant
            i <= log.len(),
            latest(log@, key@) == latest(log@.take(i as int), key@),
            forall|later: int| i <= later < log.len() ==> !(#[trigger] log[later]).decides(key@),
        decreases i,
    {
        i = i - 1;
        proof {
            let upto: Seq<LogEntry> = log@.take(i + 1);
            assert(upto.last() == log[i as int]);
            assert(upto.drop_last() =~= log@.take(i as int));
        }
        match &log[i] {
            LogEntry::Decided(pair) => {
                if pair.key == *key {
                    proof {
                        assert(newest_at(log@, key@, i as int));
                    }
                    return Some(pair.value);
                }
            },
            LogEntry::Proposed(_) => {},
        }
    }
    proof {
        assert(log@.take(0) =~= Seq::<LogEntry>::empty());
    }
    None
}

/// `latest` is the value at the newest matching position, and is `None`
/// exactly when no position matches.
pub proof fn lemma_latest_newest(log: Seq<LogEntry>, key: Seq<char>)
    ensures
        latest(log, key) is None <==> forall|index: int|
            0 <= index < log.len() ==> !(#[trigger] log[index]).decides(key),
        forall|index: int| #[trigger]
            newest_at(log, key, index) ==> latest(log, key) == Some(log[index].pair().value),
    decreases log.len(),
{
    if log.len() > 0 {
        let front: Seq<LogEntry> = log.drop_last();
        lemma_latest_newest(front, key);
        if log.last().decides(key) {
            assert forall|index: int| #[trigger] newest_at(log, key, index) implies index == log.len()
                - 1 by {
                if index < log.len() - 1 {
                    assert(!log[log.len() - 1].decides(key));
                }
            }
        } else {
            assert forall|index: int| #[trigger] newest_at(log, key, index) implies latest(log, key)
                == Some(log[index].pair().value) by {
                assert(index < front.len());
                assert forall|later: int| index < later < front.len() implies !(
                #[trigger] front[later]).decides(key) by {
                    assert(front[later] == log[later]);
                }
                assert(front[index] == log[index]);
                assert(newest_at(front, key, index));
            }
            assert forall|index: int| 0 <= index < front.len() implies front[index] == log[index] by {}
            if latest(log, key) is None {
                assert forall|index: int| 0 <= index < log.len() implies !(#[trigger] log[index]).decides(
                    key,
                ) by {
                    if index < front.len() {
                        assert(front[index] == log[index]);
                    }
                }
            } else {
                if forall|index: int| 0 <= index < log.len() ==> !(#[trigger] log[index]).decides(key) {
                    assert forall|index: int| 0 <= index < front.len() implies !(
                    #[trigger] front[index]).decides(key) by {
                        assert(front[index] == log[index]);
                    }
                }
            }
        }
    }
}

/// The most recent decided entry wins: once a pair is decided at the end of
/// the log, its key reads as its value, whatever was bound to it before.
pub proof fn lemma_decided_shadows(log: Seq<LogEntry>, pair: KeyValue)
    ensures
        latest(log.push(LogEntry::Decided(pair)), pair.key@) == Some(pair.value),
{
    let longer = log.push(LogEntry::Decided(pair));
    assert(longer.last() == LogEntry::Decided(pair));
}

/// An entry that does not decide `key` leaves what `key` reads as unchanged:
/// a proposed entry changes no read, and a decided one changes only the read
/// of its own key.
pub proof fn lemma_other_entry_keeps(log: Seq<LogEntry>, entry: LogEntry, key: Seq<char>)
    requires
        !entry.decides(key),
    ensures
        latest(log.push(entry), key) == latest(log, key),
{
    let longer = log.push(entry);
    assert(longer.last() == entry);
    assert(longer.drop_last() =~= log);
}

/// Growth of the log never loses a key: when `shorter` is a prefix of
/// `longer`, a key that reads as some value in `shorter` reads as some value
/// in `longer`, and as the same value unless a later entry decides it again.
pub proof fn lemma_growth_keeps_keys(shorter: Seq<LogEntry>, longer: Seq<LogEntry>, key: Seq<char>)
    requires
        shorter.is_prefix_of(longer),
    ensures
        latest(shorter, key) is Some ==> latest(longer, key) is Some,
        (forall|index: int| shorter.len() <= index < longer.len() ==> !(#[trigger] longer[index]).decides(key))
            ==> latest(longer, key) == latest(shorter, key),
    decreases longer.len() - shorter.len(),
{
    if shorter.len() == longer.len() {
        assert(shorter =~= longer);
    } else {
        let front: Seq<LogEntry> = longer.drop_last();
        assert(shorter.is_prefix_of(front));
        lemma_growth_keeps_keys(shorter, front, key);
        assert forall|index: int| shorter.len() <= index < front.len() implies front[index] == longer[index] by {}
        if (forall|index: int| shorter.len() <= index < longer.len() ==> !(#[trigger] longer[index]).decides(key)) {
            assert(!longer[longer.len() - 1].decides(key));
            assert forall|index: int| shorter.len() <= index < front.len() implies !(#[trigger] front[index]).decides(key) by {
                assert(front[index] == longer[index]);
            }
        }
    }
}

} // verus!
