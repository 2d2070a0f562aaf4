//! Byte-level storage helpers: run-length compression, a certificate
//! shape check, and a storage-layout pass that drops all-zero words.
//! The host's resource meter readings for each operation are passed in
//! and recorded in the metrics.
use crate::BrokerError;
use vstd::prelude::*;

verus! {

/// Execution metrics of the optimizer's last operation.
#[derive(Clone, Copy, Debug, PartialEq, Eq, Structural)]
pub struct PerformanceMetrics {
    pub gas_used: u64,
    pub execution_time: u64,
    pub memory_used: u64,
}

/// The outcome of a storage-layout pass. The compression ratio is the
/// quotient of the two sizes.
#[derive(Clone, Copy, Debug, PartialEq, Eq, Structural)]
pub struct OptimizedData {
    pub compressed_size: u64,
    pub original_size: u64,
}

/// The length of the initial run: how many leading bytes equal the
/// first one, capped at 255 so that the count fits in one byte.
pub open spec fn run_len(s: Seq<u8>) -> int
    decreases s.len(),
{
    if s.len() <= 1 {
        s.len() as int
    } else if s[1] != s[0] {
        1
    } else {
        let rest = 1 + run_len(s.skip(1));
        if rest > 255 {
            255
        } else {
            rest
        }
    }
}

/// The canonical run-length encoding: one (count, byte) pair per
/// maximal run, runs longer than 255 split.
pub open spec fn rle_encode(s: Seq<u8>) -> Seq<u8>
    decreases s.len(),
    via rle_encode_decreases
{
    if s.len() == 0 {
        Seq::empty()
    } else {
        let r = run_len(s);
        seq![r as u8, s[0]] + rle_encode(s.skip(r))
    }
}

#[via_fn]
proof fn rle_encode_decreases(s: Seq<u8>) {
    if s.len() > 0 {
        lemma_run_len_bounds(s);
    }
}

/// What a run-length-encoded byte string decodes to: each (count,
/// byte) pair in order contributes `count` copies of `byte`.
pub open spec fn rle_decode(s: Seq<u8>) -> Seq<u8>
    decreases s.len(),
{
    if s.len() < 2 {
        Seq::empty()
    } else {
        Seq::new(s[0] as nat, |i: int| s[1]) + rle_decode(s.skip(2))
    }
}

/// The initial run is non-empty, bounded by the string and by 255, and
/// consists of copies of the first byte.
pub proof fn lemma_run_len_bounds(s: Seq<u8>)
    ensures
        s.len() == 0 ==> run_len(s) == 0,
        s.len() > 0 ==> 1 <= run_len(s) <= 255 && run_len(s) <= s.len(),
        forall|m: int| 0 <= m < run_len(s) ==> #[trigger] s[m] == s[0],
    decreases s.len(),
{
    if s.len() > 1 && s[1] == s[0] {
        lemma_run_len_bounds(s.skip(1));
        assert forall|m: int| 0 <= m < run_len(s) implies #[trigger] s[m] == s[0] by {
            if m > 0 {
                assert(s.skip(1)[m - 1] == s.skip(1)[0]);
            }
        }
    }
}

/// A run of `k` equal leading bytes pushes the run length to at least
/// `k`.
proof fn lemma_run_len_lower(s: Seq<u8>, k: int)
    requires
        0 <= k <= s.len(),
        k <= 255,
        forall|m: int| 0 <= m < k ==> #[trigger] s[m] == s[0],
    ensures
        run_len(s) >= k,
    decreases s.len(),
{
    lemma_run_len_bounds(s);
    if k >= 2 {
        assert(s[1] == s[0]);
        assert forall|m: int| 0 <= m < k - 1 implies #[trigger] s.skip(1)[m] == s.skip(1)[0] by {
            assert(s[m + 1] == s[0]);
        }
        lemma_run_len_lower(s.skip(1), k - 1);
    }
}

/// A byte that breaks the run caps the run length at its position.
proof fn lemma_run_len_stops(s: Seq<u8>, k: int)
    requires
        1 <= k < s.len(),
        s[k] != s[0],
        forall|m: int| 0 <= m < k ==> #[trigger] s[m] == s[0],
    ensures
        run_len(s) <= k,
    decreases s.len(),
{
    if k >= 2 {
        assert(s[1] == s[0]);
        assert forall|m: int| 0 <= m < k - 1 implies #[trigger] s.skip(1)[m] == s.skip(1)[0] by {
            assert(s[m + 1] == s[0]);
        }
        assert(s.skip(1)[k - 1] == s[k]);
        assert(s.skip(1)[0] == s[1]);
        lemma_run_len_stops(s.skip(1), k - 1);
    }
}

/// The run length is exactly `k` when the first `k` bytes agree and
/// the run cannot extend: the cap, the end of the string, or a
/// differing byte is reached at `k`.
proof fn lemma_run_len_exact(s: Seq<u8>, k: int)
    requires
        1 <= k <= s.len(),
        k <= 255,
        forall|m: int| 0 <= m < k ==> #[trigger] s[m] == s[0],
        k == 255 || k == s.len() || s[k] != s[0],
    ensures
        run_len(s) == k,
{
    lemma_run_len_lower(s, k);
    lemma_run_len_bounds(s);
    if k < 255 && k < s.len() {
        lemma_run_len_stops(s, k);
    }
}

/// Law: the canonical encoding is a sequence of (count, byte) pairs —
/// even length, at most one pair per input byte, at least one pair for
/// a non-empty input — and every count lies between 1 and 255.
pub proof fn lemma_rle_encode_form(s: Seq<u8>)
    ensures
        rle_encode(s).len() % 2 == 0,
        rle_encode(s).len() <= 2 * s.len(),
        s.len() > 0 ==> rle_encode(s).len() >= 2,
        forall|p: int|
            0 <= p < rle_encode(s).len() && p % 2 == 0 ==> 1 <= #[trigger] rle_encode(s)[p],
    decreases s.len(),
{
    if s.len() > 0 {
        lemma_run_len_bounds(s);
        let r = run_len(s);
        lemma_rle_encode_form(s.skip(r));
        assert(rle_encode(s) =~= seq![r as u8, s[0]] + rle_encode(s.skip(r)));
        assert forall|p: int|
            0 <= p < rle_encode(s).len() && p % 2 == 0 implies 1 <= #[trigger] rle_encode(
            s,
        )[p] by {
            if p == 0 {
                assert(rle_encode(s)[0] == r as u8);
            } else {
                assert(rle_encode(s)[p] == rle_encode(s.skip(r))[p - 2]);
                assert((p - 2) % 2 == 0);
            }
        }
    }
}

/// Law: the encoding is lossless — decoding the canonical run-length
/// encoding yields the input back, byte for byte.
pub proof fn lemma_rle_round_trip(s: Seq<u8>)
    ensures
        rle_decode(rle_encode(s)) == s,
    decreases s.len(),
{
    if s.len() == 0 {
        assert(rle_decode(rle_encode(s)) =~= s);
    } else {
        lemma_run_len_bounds(s);
        let r = run_len(s);
        let e = rle_encode(s);
        lemma_rle_round_trip(s.skip(r));
        assert(e =~= seq![r as u8, s[0]] + rle_encode(s.skip(r)));
        assert(e[0] == r as u8);
        assert(e[1] == s[0]);
        assert(e.skip(2) =~= rle_encode(s.skip(r)));
        assert(Seq::new(e[0] as nat, |i: int| e[1]) =~= s.take(r));
        assert(rle_decode(e) =~= s.take(r) + s.skip(r));
        assert(s.take(r) + s.skip(r) =~= s);
    }
}

/// Whether some byte of the chunk is non-zero.
pub open spec fn chunk_has_data(s: Seq<u8>) -> bool {
    exists|i: int| 0 <= i < s.len() && s[i] != 0
}

/// What the layout pass keeps: the input split into 32-byte chunks (a
/// shorter final chunk allowed), with the all-zero chunks dropped and
/// the rest concatenated in order.
pub open spec fn retained_chunks(s: Seq<u8>) -> Seq<u8>
    decreases s.len(),
{
    if s.len() == 0 {
        Seq::empty()
    } else {
        let k: int = if s.len() <= 32 {
            s.len() as int
        } else {
            32
        };
        let c = s.take(k);
        (if chunk_has_data(c) {
            c
        } else {
            Seq::empty()
        }) + retained_chunks(s.skip(k))
    }
}

/// Appending one chunk of at most 32 bytes to a 32-aligned byte string
/// appends the chunk, or nothing, to what the layout pass keeps.
proof fn lemma_retained_append(s: Seq<u8>, c: Seq<u8>)
    requires
        s.len() % 32 == 0,
        1 <= c.len() <= 32,
    ensures
        retained_chunks(s + c) == retained_chunks(s) + (if chunk_has_data(c) {
            c
        } else {
            Seq::<u8>::empty()
        }),
    decreases s.len(),
{
    let sc = s + c;
    if s.len() == 0 {
        assert(sc =~= c);
        assert(sc.skip(sc.len() as int) =~= Seq::<u8>::empty());
        assert(sc.take(sc.len() as int) =~= c);
        assert(retained_chunks(sc.skip(sc.len() as int)) =~= Seq::<u8>::empty());
        assert(retained_chunks(sc) =~= retained_chunks(s) + (if chunk_has_data(c) {
            c
        } else {
            Seq::<u8>::empty()
        }));
    } else {
        assert(sc.len() > 32);
        assert(sc.take(32) =~= s.take(32));
        assert(sc.skip(32) =~= s.skip(32) + c);
        lemma_retained_append(s.skip(32), c);
        assert(retained_chunks(sc) == (if chunk_has_data(sc.take(32)) {
            sc.take(32)
        } else {
            Seq::<u8>::empty()
        }) + retained_chunks(sc.skip(32)));
        assert(retained_chunks(sc) =~= retained_chunks(s) + (if chunk_has_data(c) {
            c
        } else {
            Seq::<u8>::empty()
        }));
    }
}

/// Compresses and reorganizes stored byte strings, keeping metrics of
/// its last operation.
pub struct StylusOptimizer {
    /// The configured aggressiveness; the run-length scheme ignores it.
    pub compression_level: u32,
    pub metrics: PerformanceMetrics,
}

impl StylusOptimizer {
    pub fn new(compression_level: u32) -> (r: StylusOptimizer)
        ensures
            r.compression_level == compression_level,
            r.metrics == (PerformanceMetrics { gas_used: 0, execution_time: 0, memory_used: 0 }),
    {
        StylusOptimizer {
            compression_level,
            metrics: PerformanceMetrics { gas_used: 0, execution_time: 0, memory_used: 0 },
        }
    }

    /// Run-length-compresses the data to its canonical encoding — see
    /// `lemma_rle_round_trip` and `lemma_rle_encode_form` for the laws
    /// it obeys — and records the meter's readings and the compressed
    /// size in the metrics.
    pub fn compress_educational_data(
        &mut self,
        data: Vec<u8>,
        gas_used: u64,
        execution_time: u64,
    ) -> (r: Result<Vec<u8>, BrokerError>)
        requires
            data@.len() > 0,
        ensures
            r matches Ok(c) && {
                &&& c@ == rle_encode(data@)
                &&& rle_decode(c@) == data@
                &&& final(self).metrics == (PerformanceMetrics {
                    gas_used,
                    execution_time,
                    memory_used: c@.len() as u64,
                })
                &&& final(self).compression_level == old(self).compression_level
            },
    {
        let compressed = apply_compression(&data);
        proof {
            lemma_rle_round_trip(data@);
            lemma_rle_encode_form(data@);
        }
        self.metrics = PerformanceMetrics {
            gas_used,
            execution_time,
            memory_used: compressed.len() as u64,
        };
        Ok(compressed)
    }

    /// Accepts a certificate exactly when it is long enough to carry a
    /// 32-byte signature, recording the meter's readings.
    pub fn process_certificate_verification(
        &mut self,
        cert_data: Vec<u8>,
        gas_used: u64,
        execution_time: u64,
    ) -> (r: Result<bool, BrokerError>)
        ensures
            r == Ok::<bool, BrokerError>(cert_data@.len() >= 32),
            final(self).metrics == (PerformanceMetrics {
                gas_used,
                execution_time,
                memory_used: old(self).metrics.memory_used,
            }),
            final(self).compression_level == old(self).compression_level,
    {
        self.metrics = PerformanceMetrics {
            gas_used,
            execution_time,
            memory_used: self.metrics.memory_used,
        };
        if cert_data.len() < 32 {
            return Ok(false);
        }
        Ok(true)
    }

    /// Drops the all-zero 32-byte words from the data and reports the
    /// retained and original sizes, recording the meter's readings and
    /// the retained size in the metrics.
    pub fn optimize_storage_layout(
        &mut self,
        storage_data: Vec<u8>,
        gas_used: u64,
        execution_time: u64,
    ) -> (r: Result<OptimizedData, BrokerError>)
        ensures
            r matches Ok(d) && {
                &&& d.original_size == storage_data@.len()
                &&& d.compressed_size == retained_chunks(storage_data@).len()
                &&& final(self).metrics == (PerformanceMetrics {
                    gas_used,
                    execution_time,
                    memory_used: d.compressed_size,
                })
                &&& final(self).compression_level == old(self).compression_level
            },
    {
        let original_size = storage_data.len();
        let optimized = optimize_layout(&storage_data);
        self.metrics = PerformanceMetrics {
            gas_used,
            execution_time,
            memory_used: optimized.len() as u64,
        };
        Ok(
            OptimizedData {
                compressed_size: optimized.len() as u64,
                original_size: original_size as u64,
            },
        )
    }

    /// The metrics of the last operation.
    pub fn calculate_performance_metrics(&self) -> (r: PerformanceMetrics)
        ensures
            r == self.metrics,
    {
        self.metrics
    }
}

/// The run-length encoder: produces exactly the canonical encoding,
/// one (count, byte) pair per maximal run, runs capped at 255.
fn apply_compression(data: &Vec<u8>) -> (r: Vec<u8>)
    requires
        data@.len() > 0,
    ensures
        r@ == rle_encode(data@),
{
    let n = data.len();
    let mut compressed: Vec<u8> = Vec::new();
    let mut count: u8 = 1;
    let mut current: u8 = data[0];
    let mut i: usize = 1;
    proof {
        assert(data@.skip(0) =~= data@);
    }
    while i < n
        invariant
            n == data@.len(),
            1 <= i <= n,
            1 <= count <= 255,
            count as int <= i,
            forall|m: int| i - count <= m < i ==> #[trigger] data@[m] == current,
            rle_encode(data@) == compressed@ + rle_encode(data@.skip(i - count)),
        decreases n - i,
    {
        let byte = data[i];
        if byte == current && count < 255 {
            count = count + 1;
        } else {
            proof {
                lemma_compression_flush(data@, i as int, count as int, current);
                assert(data@[i - count] == current);
            }
            compressed.push(count);
            compressed.push(current);
            proof {
                assert(compressed@ =~= compressed@.drop_last().drop_last() + seq![
                    count,
                    current,
                ]);
                assert(rle_encode(data@) =~= compressed@ + rle_encode(data@.skip(i as int)));
            }
            current = byte;
            count = 1;
        }
        i += 1;
    }
    proof {
        lemma_compression_flush(data@, n as int, count as int, current);
        assert(rle_encode(data@.skip(n as int)) =~= Seq::<u8>::empty());
    }
    compressed.push(count);
    compressed.push(current);
    proof {
        assert(compressed@ =~= compressed@.drop_last().drop_last() + seq![count, current]);
        assert(rle_encode(data@) =~= compressed@);
    }
    compressed
}

/// At a flush point — a differing byte, the 255 cap, or the end of the
/// data — the pending run is exactly the canonical encoding's next
/// run, so emitting its pair advances the encoding by one step.
proof fn lemma_compression_flush(data: Seq<u8>, i: int, count: int, current: u8)
    requires
        1 <= count <= 255,
        count <= i <= data.len(),
        forall|m: int| i - count <= m < i ==> #[trigger] data[m] == current,
        count == 255 || i == data.len() || data[i] != current,
    ensures
        rle_encode(data.skip(i - count)) == seq![count as u8, current] + rle_encode(data.skip(i)),
{
    let start = i - count;
    let tail = data.skip(start);
    assert forall|m: int| 0 <= m < count implies #[trigger] tail[m] == tail[0] by {
        assert(data[start + m] == current);
        assert(data[start] == current);
    }
    assert(tail[0] == data[start] == current);
    if count < 255 && i < data.len() {
        assert(tail[count] == data[i]);
        lemma_run_len_exact(tail, count);
    } else if i == data.len() {
        assert(tail.len() == count);
        lemma_run_len_exact(tail, count);
    } else {
        lemma_run_len_exact(tail, 255);
    }
    assert(run_len(tail) == count);
    assert(tail.skip(count) =~= data.skip(i));
    assert(rle_encode(tail) =~= seq![count as u8, current] + rle_encode(data.skip(i)));
}

/// The layout pass: walks the data in 32-byte chunks and keeps only
/// the chunks with a non-zero byte.
fn optimize_layout(data: &Vec<u8>) -> (r: Vec<u8>)
    ensures
        r@ == retained_chunks(data@),
{
    let n = data.len();
    let mut out: Vec<u8> = Vec::new();
    let mut i: usize = 0;
    while i < n
        invariant
            n == data@.len(),
            i <= n,
            i % 32 == 0 || i == n,
            out@ == retained_chunks(data@.take(i as int)),
        decreases n - i,
    {
        let end = if n - i < 32 {
            n
        } else {
            i + 32
        };
        let mut has_data = false;
        let mut j: usize = i;
        while j < end
            invariant
                i <= j <= end <= n,
                n == data@.len(),
                has_data == chunk_has_data(data@.subrange(i as int, j as int)),
            decreases end - j,
        {
            proof {
                let sub = data@.subrange(i as int, j + 1);
                assert(sub =~= data@.subrange(i as int, j as int).push(data@[j as int]));
                assert(sub[sub.len() - 1] == data@[j as int]);
                if data@[j as int] != 0 {
                    assert(chunk_has_data(sub));
                } else {
                    if chunk_has_data(sub) {
                        let idx = choose|idx: int| 0 <= idx < sub.len() && sub[idx] != 0;
                        if idx < sub.len() - 1 {
                            assert(data@.subrange(i as int, j as int)[idx] != 0);
                            assert(chunk_has_data(data@.subrange(i as int, j as int)));
                        }
                    }
                }
            }
            if data[j] != 0 {
                has_data = true;
            }
            j += 1;
        }
        proof {
            assert(data@.take(end as int) =~= data@.take(i as int) + data@.subrange(
                i as int,
                end as int,
            ));
            lemma_retained_append(data@.take(i as int), data@.subrange(i as int, end as int));
        }
        if has_data {
            let mut k: usize = i;
            while k < end
                invariant
                    i <= k <= end <= n,
                    n == data@.len(),
                    out@ == retained_chunks(data@.take(i as int)) + data@.subrange(
                        i as int,
                        k as int,
                    ),
                decreases end - k,
            {
                proof {
                    assert(data@.subrange(i as int, k + 1) =~= data@.subrange(
                        i as int,
                        k as int,
                    ).push(data@[k as int]));
                    assert(out@.push(data@[k as int]) =~= retained_chunks(data@.take(i as int))
                        + data@.subrange(i as int, k + 1));
                }
                out.push(data[k]);
                k += 1;
            }
        }
        i = end;
    }
    proof {
        assert(data@.take(n as int) =~= data@);
    }
    out
}

} // verus!
