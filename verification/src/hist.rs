//! A length histogram helper: counts reads per length bin. It feeds no
//! summary output; rendering is left to the caller.

use vstd::prelude::*;

verus! {

/// Number of bins for lengths up to `max_len` at width `bin_size`.
pub open spec fn spec_num_bins(max_len: i32, bin_size: i32) -> int {
    (max_len + bin_size - 1) / (bin_size as int)
}

/// The counts after the first `k` data values, starting from all-zero bins.
/// A value whose bin index is at least the data length is dropped.
pub open spec fn hist_of(data: Seq<i32>, bin_size: i32, nbins: int, k: int) -> Seq<i32>
    decreases k,
{
    if k <= 0 {
        Seq::new(nbins as nat, |b: int| 0i32)
    } else {
        let h = hist_of(data, bin_size, nbins, k - 1);
        let idx = (data[k - 1] as int) / (bin_size as int);
        if idx < data.len() {
            h.update(idx, (h[idx] + 1) as i32)
        } else {
            h
        }
    }
}

/// Counts of reads per length bin.
pub struct Histogram {
    pub hist_data: Vec<i32>,
    pub box_size: i32,
    pub bin_size: i32,
}

impl Histogram {
    /// Bins the given lengths. The caller keeps lengths non-negative and,
    /// where a bin index passes the data-length guard, inside the bin range.
    pub fn new(data_per_reads: &Vec<i32>, box_size: i32, bin_size: i32, max_len: i32) -> (h:
        Histogram)
        requires
            bin_size >= 1,
            0 <= max_len <= 0x7fff_ffff - bin_size,
            data_per_reads@.len() <= 0x7fff_ffff,
            forall|k: int| 0 <= k < data_per_reads@.len() ==> #[trigger] data_per_reads@[k] >= 0,
            forall|k: int|
                0 <= k < data_per_reads@.len() ==> ((#[trigger] data_per_reads@[k]) / bin_size
                    < data_per_reads@.len() ==> data_per_reads@[k] / bin_size < spec_num_bins(
                    max_len,
                    bin_size,
                )),
        ensures
            h.bin_size == bin_size,
            h.box_size == box_size,
            h.hist_data@ == hist_of(
                data_per_reads@,
                bin_size,
                spec_num_bins(max_len, bin_size),
                data_per_reads@.len() as int,
            ),
    {
        let num_bin: i32 = (max_len + bin_size - 1) / bin_size;
        let mut hist_data: Vec<i32> = Vec::new();
        let mut z: usize = 0;
        while z < num_bin as usize
            invariant
                z <= num_bin as int,
                hist_data@.len() == z,
                forall|b: int| 0 <= b < z ==> #[trigger] hist_data@[b] == 0i32,
            decreases num_bin as int - z,
        {
            hist_data.push(0i32);
            z = z + 1;
        }
        proof {
            assert(hist_data@ =~= Seq::new(spec_num_bins(max_len, bin_size) as nat, |b: int| 0i32));
        }
        let n: usize = data_per_reads.len();
        let mut k: usize = 0;
        while k < n
            invariant
                n == data_per_reads@.len() <= 0x7fff_ffff,
                k <= n,
                bin_size >= 1,
                hist_data@.len() == spec_num_bins(max_len, bin_size),
                forall|j: int| 0 <= j < n ==> #[trigger] data_per_reads@[j] >= 0,
                forall|j: int|
                    0 <= j < n ==> ((#[trigger] data_per_reads@[j]) / bin_size < n ==> data_per_reads@[j]
                        / bin_size < hist_data@.len()),
                hist_data@ == hist_of(
                    data_per_reads@,
                    bin_size,
                    hist_data@.len() as int,
                    k as int,
                ),
                forall|b: int| 0 <= b < hist_data@.len() ==> 0 <= #[trigger] hist_data@[b] <= k,
            decreases n - k,
        {
            let ghost pre = hist_data@;
            let d: i32 = data_per_reads[k];
            let bin_idx: i32 = d / bin_size;
            if bin_idx < n as i32 {
                let c: i32 = hist_data[bin_idx as usize];
                hist_data.set(bin_idx as usize, c + 1);
                proof {
                    assert(hist_data@ =~= pre.update(bin_idx as int, (pre[bin_idx as int] + 1) as i32));
                }
            }
            k = k + 1;
        }
        Histogram { hist_data, box_size, bin_size }
    }

    /// The counts, one per bin.
    pub fn bins(&self) -> (r: &Vec<i32>)
        ensures
            r@ == self.hist_data@,
    {
        &self.hist_data
    }

    /// Width of one bin.
    pub fn bin_size(&self) -> (r: i32)
        ensures
            r == self.bin_size,
    {
        self.bin_size
    }

    /// Reads per rendered mark.
    pub fn box_size(&self) -> (r: i32)
        ensures
            r == self.box_size,
    {
        self.box_size
    }
}

} // verus!
