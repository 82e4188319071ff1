//! Byte counters of network adapters and disks between refreshes: which
//! readings can give a rate, and what the previous readings become.
use vstd::prelude::*;
use vstd::pervasive::VecAdditionalExecFns;

verus! {

/// The sum of a sequence of counters.
pub open spec fn counter_sum(values: Seq<u64>) -> int
    decreases values.len(),
{
    if values.len() == 0 {
        0
    } else {
        counter_sum(values.drop_last()) + values.last()
    }
}

/// The sum of `values`, or `None` where it does not fit in a `u64`.
pub fn sum_counters(values: &Vec<u64>) -> (total: Option<u64>)
    ensures
        total matches Some(t) ==> t == counter_sum(values@),
        total is None <==> counter_sum(values@) > u64::MAX,
{
    let mut total: u64 = 0;
    let mut i: usize = 0;
    while i < values.len()
        invariant
            i <= values.len(),
            total == counter_sum(values@.take(i as int)),
        decreases values.len() - i,
    {
        assert(values@.take(i + 1).drop_last() =~= values@.take(i as int));
        if total > u64::MAX - values[i] {
            proof {
                lemma_counter_sum_prefix(values@, i + 1);
            }
            return None;
        }
        total = total + values[i];
        i += 1;
    }
    assert(values@.take(i as int) =~= values@);
    Some(total)
}

/// The sum of a prefix is no more than the sum of the whole.
pub proof fn lemma_counter_sum_prefix(values: Seq<u64>, k: int)
    requires
        0 <= k <= values.len(),
    ensures
        0 <= counter_sum(values.take(k)) <= counter_sum(values),
    decreases values.len(),
{
    if k == values.len() {
        assert(values.take(k) =~= values);
        lemma_counter_sum_nonneg(values);
    } else {
        lemma_counter_sum_prefix(values.drop_last(), k);
        assert(values.drop_last().take(k) =~= values.take(k));
    }
}

/// A sum of counters is never negative.
pub proof fn lemma_counter_sum_nonneg(values: Seq<u64>)
    ensures
        counter_sum(values) >= 0,
    decreases values.len(),
{
    if values.len() > 0 {
        lemma_counter_sum_nonneg(values.drop_last());
    }
}

/// The previous totals of the bytes received and sent by all network adapters.
#[derive(Clone, Copy, Debug)]
pub struct NetCounters {
    pub prev_rx: u64,
    pub prev_tx: u64,
}

/// The bytes received and sent since the previous reading, or `None` at the
/// first reading (while no bytes were received before). A counter that went
/// back counts as no bytes.
pub open spec fn net_delta(prev: NetCounters, rx: u64, tx: u64) -> Option<(u64, u64)> {
    if prev.prev_rx > 0 {
        Some(
            (
                if rx >= prev.prev_rx {
                    (rx - prev.prev_rx) as u64
                } else {
                    0
                },
                if tx >= prev.prev_tx {
                    (tx - prev.prev_tx) as u64
                } else {
                    0
                },
            ),
        )
    } else {
        None
    }
}

impl NetCounters {
    /// No reading yet.
    pub fn new() -> (c: Self)
        ensures
            c.prev_rx == 0 && c.prev_tx == 0,
    {
        NetCounters { prev_rx: 0, prev_tx: 0 }
    }

    /// Takes a new reading of the totals: gives the bytes since the previous
    /// reading where there was one, and keeps the new totals.
    pub fn observe(&mut self, rx: u64, tx: u64) -> (delta: Option<(u64, u64)>)
        ensures
            delta == net_delta(*old(self), rx, tx),
            final(self).prev_rx == rx,
            final(self).prev_tx == tx,
    {
        let delta = if self.prev_rx > 0 {
            Some((rx.saturating_sub(self.prev_rx), tx.saturating_sub(self.prev_tx)))
        } else {
            None
        };
        self.prev_rx = rx;
        self.prev_tx = tx;
        delta
    }
}

/// The previous readings of the disks: per disk the bytes read and written in
/// the last refresh interval, and the totals over all disks.
pub struct DiskCounters {
    prev_read: Vec<u64>,
    prev_write: Vec<u64>,
    prev_total_read: u64,
    prev_total_write: u64,
}

/// `DiskCounters` with its vectors taken as sequences.
pub struct DiskCountersView {
    pub prev_read: Seq<u64>,
    pub prev_write: Seq<u64>,
    pub prev_total_read: u64,
    pub prev_total_write: u64,
}

impl View for DiskCounters {
    type V = DiskCountersView;

    closed spec fn view(&self) -> DiskCountersView {
        DiskCountersView {
            prev_read: self.prev_read@,
            prev_write: self.prev_write@,
            prev_total_read: self.prev_total_read,
            prev_total_write: self.prev_total_write,
        }
    }
}

/// What one reading of the disks tells.
#[derive(Debug)]
pub struct DiskObservation {
    /// The number of disks changed: every per-disk figure starts over.
    pub resized: bool,
    /// Per disk, whether it had been read from before, so that a rate can be given.
    pub rates_ready: Vec<bool>,
    /// The bytes read by all disks.
    pub total_read: u64,
    /// The bytes written by all disks.
    pub total_write: u64,
    /// Whether the disks had been read from before, so that total rates can be given.
    pub totals_ready: bool,
}

/// The per-disk previous readings against which a reading of `n` disks is compared:
/// those kept, or zeros where the number of disks changed.
pub open spec fn prev_reads_for(prev: Seq<u64>, n: nat) -> Seq<u64> {
    if prev.len() == n {
        prev
    } else {
        Seq::new(n, |i: int| 0u64)
    }
}

/// The state after a reading.
pub open spec fn disk_next(reads: Seq<u64>, writes: Seq<u64>) -> DiskCountersView {
    DiskCountersView {
        prev_read: reads,
        prev_write: writes,
        prev_total_read: counter_sum(reads) as u64,
        prev_total_write: counter_sum(writes) as u64,
    }
}

impl DiskCounters {
    /// As many previous write counts as read counts.
    pub closed spec fn wf(&self) -> bool {
        self.prev_read@.len() == self.prev_write@.len()
    }

    /// No reading yet, for `n` disks.
    pub fn new(n: usize) -> (c: Self)
        ensures
            c@.prev_read == Seq::new(n as nat, |i: int| 0u64),
            c@.prev_write == Seq::new(n as nat, |i: int| 0u64),
            c@.prev_total_read == 0,
            c@.prev_total_write == 0,
            c.wf(),
    {
        DiskCounters {
            prev_read: zeros(n),
            prev_write: zeros(n),
            prev_total_read: 0,
            prev_total_write: 0,
        }
    }

    /// Takes a new reading: `reads[i]` and `writes[i]` are the bytes that disk
    /// `i` read and wrote in the last interval. A disk gives a rate where its
    /// previous read count is not zero; the totals give rates where the previous
    /// total read count is not zero. The reading then becomes the previous one.
    pub fn observe(&mut self, reads: &Vec<u64>, writes: &Vec<u64>) -> (obs: DiskObservation)
        requires
            old(self).wf(),
            reads.len() == writes.len(),
            counter_sum(reads@) <= u64::MAX,
            counter_sum(writes@) <= u64::MAX,
        ensures
            obs.resized == (old(self)@.prev_read.len() != reads.len()),
            obs.rates_ready@ == Seq::new(
                reads.len() as nat,
                |i: int| prev_reads_for(old(self)@.prev_read, reads.len() as nat)[i] > 0,
            ),
            obs.total_read == counter_sum(reads@),
            obs.total_write == counter_sum(writes@),
            obs.totals_ready == (old(self)@.prev_total_read > 0),
            final(self)@ == disk_next(reads@, writes@),
            final(self).wf(),
    {
        let n = reads.len();
        let resized = self.prev_read.len() != n;
        if resized {
            self.prev_read = zeros(n);
            self.prev_write = zeros(n);
        }
        let ghost prev = self.prev_read@;
        let mut rates_ready: Vec<bool> = Vec::new();
        let mut total_read: u64 = 0;
        let mut total_write: u64 = 0;
        let mut i: usize = 0;
        while i < n
            invariant
                i <= n == reads.len() == writes.len(),
                self.prev_read@.len() == n,
                self.prev_write@.len() == n,
                prev.len() == n,
                self.prev_total_read == old(self).prev_total_read,
                counter_sum(reads@) <= u64::MAX,
                counter_sum(writes@) <= u64::MAX,
                forall|j: int| i <= j < n ==> self.prev_read@[j] == prev[j],
                forall|j: int| 0 <= j < i ==> self.prev_read@[j] == reads@[j],
                forall|j: int| 0 <= j < i ==> self.prev_write@[j] == writes@[j],
                rates_ready@ == Seq::new(i as nat, |j: int| prev[j] > 0),
                total_read == counter_sum(reads@.take(i as int)),
                total_write == counter_sum(writes@.take(i as int)),
            decreases n - i,
        {
            proof {
                assert(reads@.take(i + 1).drop_last() =~= reads@.take(i as int));
                assert(writes@.take(i + 1).drop_last() =~= writes@.take(i as int));
                lemma_counter_sum_prefix(reads@, i + 1);
                lemma_counter_sum_prefix(writes@, i + 1);
            }
            total_read = total_read + reads[i];
            total_write = total_write + writes[i];
            rates_ready.push(self.prev_read[i] > 0);
            self.prev_read.set(i, reads[i]);
            self.prev_write.set(i, writes[i]);
            assert(rates_ready@ =~= Seq::new((i + 1) as nat, |j: int| prev[j] > 0));
            i += 1;
        }
        assert(reads@.take(n as int) =~= reads@);
        assert(writes@.take(n as int) =~= writes@);
        assert(self.prev_read@ =~= reads@);
        assert(self.prev_write@ =~= writes@);
        let totals_ready = self.prev_total_read > 0;
        self.prev_total_read = total_read;
        self.prev_total_write = total_write;
        assert(rates_ready@ =~= Seq::new(
            reads.len() as nat,
            |j: int| prev_reads_for(old(self)@.prev_read, reads.len() as nat)[j] > 0,
        ));
        DiskObservation { resized, rates_ready, total_read, total_write, totals_ready }
    }
}

/// Two readings in a row: the second gives, added to the first totals, the
/// second totals where the counters grew, nothing where one went back, and no
/// deltas at all while the first reading had received no bytes.
pub proof fn lemma_net_readings(rx1: u64, tx1: u64, rx2: u64, tx2: u64)
    ensures
        ({
            let d = net_delta(NetCounters { prev_rx: rx1, prev_tx: tx1 }, rx2, tx2);
            &&& (rx1 == 0 <==> d is None)
            &&& d matches Some((drx, dtx)) ==> {
                &&& (rx2 >= rx1 ==> rx1 + drx == rx2)
                &&& (rx2 < rx1 ==> drx == 0)
                &&& (tx2 >= tx1 ==> tx1 + dtx == tx2)
                &&& (tx2 < tx1 ==> dtx == 0)
            }
        }),
{
}

/// Two disk readings in a row: the second gives a rate for disk `i` exactly
/// when it reads as many disks as the first and the first found disk `i`
/// reading; it gives total rates exactly when the first found any disk reading.
pub proof fn lemma_disk_rates_follow_previous(reads1: Seq<u64>, writes1: Seq<u64>, n2: nat)
    requires
        counter_sum(reads1) <= u64::MAX,
    ensures
        forall|i: int|
            0 <= i < n2 ==> (#[trigger] prev_reads_for(disk_next(reads1, writes1).prev_read, n2)[i] > 0
                <==> (reads1.len() == n2 && reads1[i] > 0)),
        disk_next(reads1, writes1).prev_total_read > 0 <==> exists|i: int|
            0 <= i < reads1.len() && #[trigger] reads1[i] > 0,
{
    lemma_counter_sum_nonneg(reads1);
    lemma_counter_sum_zero(reads1);
}

/// A sum of counters is zero exactly when every counter is zero.
pub proof fn lemma_counter_sum_zero(values: Seq<u64>)
    ensures
        counter_sum(values) == 0 <==> forall|i: int| 0 <= i < values.len() ==> #[trigger] values[i] == 0,
    decreases values.len(),
{
    if values.len() > 0 {
        let prev = values.drop_last();
        lemma_counter_sum_zero(prev);
        lemma_counter_sum_nonneg(prev);
        if counter_sum(values) == 0 {
            assert forall|i: int| 0 <= i < values.len() implies #[trigger] values[i] == 0 by {
                if i < prev.len() {
                    assert(prev[i] == values[i]);
                }
            }
        } else {
            if forall|i: int| 0 <= i < values.len() ==> #[trigger] values[i] == 0 {
                assert forall|i: int| 0 <= i < prev.len() implies #[trigger] prev[i] == 0 by {
                    assert(prev[i] == values[i]);
                }
                assert(values[values.len() - 1] == 0);
            }
        }
    }
}

/// `n` zero counters.
pub fn zeros(n: usize) -> (v: Vec<u64>)
    ensures
        v@ == Seq::new(n as nat, |i: int| 0u64),
{
    let mut v: Vec<u64> = Vec::new();
    for k in 0..n
        invariant
            v@ == Seq::new(k as nat, |i: int| 0u64),
    {
        v.push(0);
        assert(v@ =~= Seq::new((k + 1) as nat, |i: int| 0u64));
    }
    v
}

} // verus!
