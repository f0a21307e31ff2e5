//! The description of a load on a map: groups of threads, how many
//! operations each thread performs, and in which proportions.
use vstd::prelude::*;

verus! {

/// One group of threads.
#[derive(Clone)]
pub struct ConfigEntry {
    pub name: String,
    pub num_threads: u32,
    pub ops: u32,
    pub odds: ConfigEntryOdds,
}

/// The proportions in which a thread performs each kind of operation.
#[derive(Clone, Copy)]
pub struct ConfigEntryOdds {
    pub reads: u32,
    pub reads_failed: u32,
    pub inserts: u32,
    pub inserts_new: u32,
    pub deletes: u32,
    pub deletes_failed: u32,
    pub syncs: u32,
}

impl ConfigEntryOdds {
    /// The sum of all proportions.
    pub open spec fn sum(self) -> int {
        self.reads + self.reads_failed + self.inserts + self.inserts_new + self.deletes
            + self.deletes_failed + self.syncs
    }

    /// Whether any operation that needs the writer has a share.
    pub open spec fn writes(self) -> bool {
        self.inserts != 0 || self.inserts_new != 0 || self.deletes != 0 || self.deletes_failed != 0
            || self.syncs != 0
    }

    /// The sum of all proportions, or `None` if it does not fit.
    pub fn total(&self) -> (total: Option<u32>)
        ensures
            match total {
                Some(total) => total == self.sum(),
                None => self.sum() > u32::MAX,
            },
    {
        let parts = [
            self.reads,
            self.reads_failed,
            self.inserts,
            self.inserts_new,
            self.deletes,
            self.deletes_failed,
            self.syncs,
        ];
        let mut acc: u32 = 0;
        let mut i: usize = 0;
        while i < 7
            invariant
                i <= 7,
                parts@ == seq![
                    self.reads,
                    self.reads_failed,
                    self.inserts,
                    self.inserts_new,
                    self.deletes,
                    self.deletes_failed,
                    self.syncs,
                ],
                acc == prefix_sum(parts@, i as int),
            decreases 7 - i,
        {
            match parts[i].checked_add(acc) {
                Some(next) => {
                    acc = next;
                },
                None => {
                    proof {
                        lemma_prefix_sum_grows(parts@, i + 1, 7);
                        reveal_with_fuel(prefix_sum, 8);
                    }
                    return None;
                },
            }
            i += 1;
        }
        proof {
            reveal_with_fuel(prefix_sum, 8);
        }
        Some(acc)
    }
}

/// The sum of the first `n` of `parts`.
pub open spec fn prefix_sum(parts: Seq<u32>, n: int) -> int
    decreases n,
{
    if n <= 0 {
        0
    } else {
        prefix_sum(parts, n - 1) + parts[n - 1]
    }
}

proof fn lemma_prefix_sum_grows(parts: Seq<u32>, n: int, m: int)
    requires
        0 <= n <= m,
    ensures
        prefix_sum(parts, n) <= prefix_sum(parts, m),
    decreases m - n,
{
    if n < m {
        lemma_prefix_sum_grows(parts, n, m - 1);
    }
}

impl ConfigEntry {
    /// Whether the threads of this group go through the writer: whether they
    /// perform anything at all, and among it anything that writes.
    pub fn use_writer(&self) -> (uses: bool)
        ensures
            uses == (self.ops != 0 && self.odds.writes()),
    {
        self.ops != 0 && (self.odds.inserts != 0 || self.odds.inserts_new != 0 || self.odds.deletes
            != 0 || self.odds.deletes_failed != 0 || self.odds.syncs != 0)
    }
}

/// The operations of one thread of each of the first `n` groups, summed.
pub open spec fn ops_sum(config: Seq<ConfigEntry>, n: int) -> int
    decreases n,
{
    if n <= 0 {
        0
    } else {
        ops_sum(config, n - 1) + config[n - 1].ops
    }
}

proof fn lemma_ops_sum_grows(config: Seq<ConfigEntry>, n: int, m: int)
    requires
        0 <= n <= m,
    ensures
        ops_sum(config, n) <= ops_sum(config, m),
    decreases m - n,
{
    if n < m {
        lemma_ops_sum_grows(config, n, m - 1);
    }
}

/// The operations of one thread of each group, summed, or `None` if the sum
/// does not fit.
pub fn total_ops(config: &Vec<ConfigEntry>) -> (total: Option<u32>)
    ensures
        match total {
            Some(total) => total == ops_sum(config@, config@.len() as int),
            None => ops_sum(config@, config@.len() as int) > u32::MAX,
        },
{
    let mut acc: u32 = 0;
    let mut i: usize = 0;
    while i < config.len()
        invariant
            i <= config@.len(),
            acc == ops_sum(config@, i as int),
        decreases config@.len() - i,
    {
        match config[i].ops.checked_add(acc) {
            Some(next) => {
                acc = next;
            },
            None => {
                proof {
                    lemma_ops_sum_grows(config@, i + 1, config@.len() as int);
                }
                return None;
            },
        }
        i += 1;
    }
    Some(acc)
}

/// The width of the range of keys that falls to each operation when the
/// whole range of keys is dealt out evenly.
pub fn thread_range_len(total_ops: u32) -> (len: u32)
    requires
        total_ops != 0,
    ensures
        len == u32::MAX / total_ops,
{
    u32::MAX / total_ops
}

} // verus!
