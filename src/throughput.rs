//! Per-table write throughput samples, kept for a bounded time.
use std::collections::{HashMap, VecDeque};

use vstd::prelude::*;

verus! {

broadcast use vstd::std_specs::hash::group_hash_axioms;

/// One throughput sample of a table.
#[derive(Clone, Copy, Debug, PartialEq, Eq, Structural)]
pub struct TableWriteThroughputStatistic {
    pub throughput: u64,
    pub timestamp_secs: i64,
}

/// The samples of each table, oldest first, dropped once older than the
/// expiry bound.
pub struct TableWriteThroughputStatisticManager {
    pub table_throughput: HashMap<u32, VecDeque<TableWriteThroughputStatistic>>,
    pub max_statistic_expired_secs: i64,
}

/// A sample taken at `t` has expired at time `now` for a window of `window`
/// seconds.
pub open spec fn expired(t: i64, now: i64, window: i64) -> bool {
    now - t > window
}

/// How many samples at the head of `s` have expired.
pub open spec fn expired_len(s: Seq<TableWriteThroughputStatistic>, window: i64, now: i64) -> nat
    decreases s.len(),
{
    if s.len() > 0 && expired(s[0].timestamp_secs, now, window) {
        1 + expired_len(s.subrange(1, s.len() as int), window, now)
    } else {
        0
    }
}

/// `s` with its expired head dropped.
pub open spec fn retained(s: Seq<TableWriteThroughputStatistic>, window: i64, now: i64) -> Seq<
    TableWriteThroughputStatistic,
> {
    s.skip(expired_len(s, window, now) as int)
}

proof fn lemma_expired_len(s: Seq<TableWriteThroughputStatistic>, window: i64, now: i64, n: int)
    requires
        0 <= n <= s.len(),
        forall|j: int| 0 <= j < n ==> expired(#[trigger] s[j].timestamp_secs, now, window),
        n == s.len() || !expired(s[n].timestamp_secs, now, window),
    ensures
        expired_len(s, window, now) == n,
    decreases n,
{
    if n > 0 {
        let rest = s.subrange(1, s.len() as int);
        assert forall|j: int| 0 <= j < n - 1 implies expired(
            #[trigger] rest[j].timestamp_secs,
            now,
            window,
        ) by {
            assert(rest[j] == s[j + 1]);
        }
        lemma_expired_len(rest, window, now, n - 1);
    }
}

impl TableWriteThroughputStatisticManager {
    /// The samples of table `t`, oldest first; none if the table has none.
    pub open spec fn samples(&self, t: u32) -> Seq<TableWriteThroughputStatistic> {
        if self.table_throughput@.contains_key(t) {
            self.table_throughput@[t]@
        } else {
            Seq::empty()
        }
    }

    /// A table is present only while it has samples.
    pub open spec fn wf(&self) -> bool {
        forall|t: u32| #[trigger]
            self.table_throughput@.contains_key(t) ==> self.table_throughput@[t]@.len() > 0
    }

    pub fn new(max_statistic_expired_secs: i64) -> (r: TableWriteThroughputStatisticManager)
        ensures
            r.wf(),
            r.max_statistic_expired_secs == max_statistic_expired_secs,
            forall|t: u32| #[trigger] r.samples(t) == Seq::<TableWriteThroughputStatistic>::empty(),
    {
        TableWriteThroughputStatisticManager {
            table_throughput: HashMap::new(),
            max_statistic_expired_secs,
        }
    }

    /// Drops the samples at the head of the queue that have expired at
    /// `timestamp_secs`.
    fn retain_vec_deque(
        vec_deque: &mut VecDeque<TableWriteThroughputStatistic>,
        max_statistic_expired_secs: i64,
        timestamp_secs: i64,
    )
        ensures
            final(vec_deque)@ == retained(old(vec_deque)@, max_statistic_expired_secs, timestamp_secs),
    {
        let ghost s = vec_deque@;
        let ghost mut n: int = 0;
        loop
            invariant
                0 <= n <= s.len(),
                vec_deque@ == s.skip(n),
                forall|j: int|
                    0 <= j < n ==> expired(
                        #[trigger] s[j].timestamp_secs,
                        timestamp_secs,
                        max_statistic_expired_secs,
                    ),
            ensures
                0 <= n <= s.len(),
                vec_deque@ == s.skip(n),
                forall|j: int|
                    0 <= j < n ==> expired(
                        #[trigger] s[j].timestamp_secs,
                        timestamp_secs,
                        max_statistic_expired_secs,
                    ),
                n == s.len() || !expired(
                    s[n].timestamp_secs,
                    timestamp_secs,
                    max_statistic_expired_secs,
                ),
            decreases s.len() - n,
        {
            if vec_deque.len() == 0 {
                break;
            }
            let front = vec_deque[0];
            assert(front == s[n]);
            if (timestamp_secs as i128) - (front.timestamp_secs as i128)
                > (max_statistic_expired_secs as i128) {
                vec_deque.pop_front();
                proof {
                    assert(s.skip(n).drop_first() == s.skip(n + 1));
                    n = n + 1;
                }
            } else {
                break;
            }
        }
        proof {
            lemma_expired_len(s, max_statistic_expired_secs, timestamp_secs, n);
        }
    }

    /// Records a sample of table `table_id` taken at `timestamp_secs`, then
    /// drops that table's samples that have expired at that time.
    pub fn add_table_throughput_with_ts(&mut self, table_id: u32, throughput: u64, timestamp_secs: i64)
        requires
            old(self).wf(),
        ensures
            final(self).wf(),
            final(self).max_statistic_expired_secs == old(self).max_statistic_expired_secs,
            final(self).samples(table_id) == retained(
                old(self).samples(table_id).push(
                    TableWriteThroughputStatistic { throughput, timestamp_secs },
                ),
                old(self).max_statistic_expired_secs,
                timestamp_secs,
            ),
            forall|t: u32| t != table_id ==> #[trigger] final(self).samples(t) == old(self).samples(t),
    {
        let ghost pre = self.table_throughput@;
        let mut table_throughput = match self.table_throughput.remove(&table_id) {
            Some(q) => q,
            None => VecDeque::new(),
        };
        table_throughput.push_back(TableWriteThroughputStatistic { throughput, timestamp_secs });
        Self::retain_vec_deque(
            &mut table_throughput,
            self.max_statistic_expired_secs,
            timestamp_secs,
        );
        if table_throughput.len() > 0 {
            self.table_throughput.insert(table_id, table_throughput);
        }
        proof {
            assert forall|t: u32| t != table_id implies #[trigger] self.samples(t) == old(self).samples(t) by {
                assert(self.table_throughput@.contains_key(t) == pre.contains_key(t));
            }
        }
    }

    /// The samples of `table_id` not expired at `timestamp_secs` for a
    /// window of `window_secs`, oldest first.
    pub fn get_table_throughput_at(&self, table_id: u32, window_secs: i64, timestamp_secs: i64) -> (r:
        Vec<TableWriteThroughputStatistic>)
        ensures
            r@ == retained(self.samples(table_id), window_secs, timestamp_secs),
    {
        let mut out: Vec<TableWriteThroughputStatistic> = Vec::new();
        match self.table_throughput.get(&table_id) {
            None => {
                assert(retained(self.samples(table_id), window_secs, timestamp_secs) =~= Seq::<
                    TableWriteThroughputStatistic,
                >::empty());
            },
            Some(statistics) => {
                let mut copy: VecDeque<TableWriteThroughputStatistic> = VecDeque::new();
                let mut i: usize = 0;
                while i < statistics.len()
                    invariant
                        0 <= i <= statistics@.len(),
                        copy@ == statistics@.take(i as int),
                    decreases statistics@.len() - i,
                {
                    copy.push_back(statistics[i]);
                    assert(statistics@.take(i + 1) == statistics@.take(i as int).push(
                        statistics@[i as int],
                    ));
                    i += 1;
                }
                assert(statistics@.take(i as int) == statistics@);
                Self::retain_vec_deque(&mut copy, window_secs, timestamp_secs);
                let mut j: usize = 0;
                while j < copy.len()
                    invariant
                        0 <= j <= copy@.len(),
                        out@ == copy@.take(j as int),
                    decreases copy@.len() - j,
                {
                    out.push(copy[j]);
                    assert(copy@.take(j + 1) == copy@.take(j as int).push(copy@[j as int]));
                    j += 1;
                }
                assert(copy@.take(j as int) == copy@);
            },
        }
        out
    }
}

} // verus!
