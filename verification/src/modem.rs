//! Discrete halves of the modulation engines: the OFDM carrier plan,
//! QPSK bit grouping, and the byte-level sync selection used by the BPSK
//! and FSK demodulators.  Carrier synthesis, mixing, and transforms work
//! on samples and live outside the verified core.

use vstd::prelude::*;
use crate::sync::{
    find_either_pattern, find_pattern, first_match2_from, first_match_from, spec_sync,
    spec_sync_inv, sync_pattern,
};

verus! {

/// The integers of `[a, b)` as `usize` values.
pub open spec fn range_seq(a: int, b: int) -> Seq<usize>
    recommends
        0 <= a <= b,
{
    Seq::new((b - a) as nat, |t: int| (a + t) as usize)
}

/// OFDM configuration parameters.  Pilot symbols are real-valued BPSK
/// points, stored as their signs.
#[derive(Debug, Clone)]
pub struct OfdmConfig {
    /// FFT size
    pub fft_size: usize,
    /// Cyclic prefix length
    pub cp_length: usize,
    /// Indices of data-carrying subcarriers
    pub data_carriers: Vec<usize>,
    /// Indices of pilot subcarriers
    pub pilot_carriers: Vec<usize>,
    /// Pilot symbol values (+1 or -1)
    pub pilot_symbols: Vec<i8>,
    /// Null subcarriers (including DC)
    pub null_carriers: Vec<usize>,
}

impl OfdmConfig {
    /// Create a basic OFDM configuration for amateur radio: 64 carriers
    /// with a quarter-length cyclic prefix, data on the positive bins
    /// except three pilots, DC and Nyquist nulled.
    pub fn amateur_radio_64() -> (r: Self)
        ensures
            r.fft_size == 64,
            r.cp_length == 16,
            r.data_carriers@ == range_seq(1, 32).filter(
                |c: usize| c != 5usize && c != 15usize && c != 25usize,
            ),
            r.pilot_carriers@ == seq![5usize, 15usize, 25usize],
            r.pilot_symbols@ == seq![1i8, -1i8, 1i8, -1i8, 1i8],
            r.null_carriers@ == seq![0usize, 32usize],
    {
        let fft_size: usize = 64;
        let cp_length: usize = 16;

        let ghost pred = |c: usize| c != 5usize && c != 15usize && c != 25usize;
        let mut data_carriers: Vec<usize> = Vec::new();
        let mut i: usize = 1;
        proof {
            reveal(Seq::filter);
            assert(range_seq(1, 1) =~= Seq::<usize>::empty());
            assert(data_carriers@ =~= range_seq(1, 1).filter(pred));
        }
        while i < 32
            invariant
                1 <= i <= 32,
                pred == (|c: usize| c != 5usize && c != 15usize && c != 25usize),
                data_carriers@ == range_seq(1, i as int).filter(pred),
            decreases 32 - i,
        {
            proof {
                reveal(Seq::filter);
                assert(range_seq(1, i as int + 1).drop_last() =~= range_seq(1, i as int));
                assert(range_seq(1, i as int + 1).last() == i);
            }
            if !(i == 5 || i == 15 || i == 25) {
                data_carriers.push(i);
            }
            i = i + 1;
        }

        let pilot_carriers = vec![5usize, 15usize, 25usize];
        let pilot_symbols = vec![1i8, -1i8, 1i8, -1i8, 1i8];
        let null_carriers = vec![0usize, 32usize];
        proof {
            assert(pilot_carriers@ =~= seq![5usize, 15usize, 25usize]);
            assert(pilot_symbols@ =~= seq![1i8, -1i8, 1i8, -1i8, 1i8]);
            assert(null_carriers@ =~= seq![0usize, 32usize]);
            assert(range_seq(1, 32) =~= range_seq(1, 32));
        }
        Self { fft_size, cp_length, data_carriers, pilot_carriers, pilot_symbols, null_carriers }
    }

    /// Create a robust OFDM configuration with more pilots: 128 carriers,
    /// every seventh carrier a pilot, and a guard band nulled.
    pub fn robust_128() -> (r: Self)
        ensures
            r.fft_size == 128,
            r.cp_length == 32,
            r.data_carriers@ == range_seq(1, 53).filter(|c: usize| c as int % 7 != 0) + range_seq(
                75,
                127,
            ).filter(|c: usize| c as int % 7 != 0),
            r.pilot_carriers@ == range_seq(1, 53).filter(|c: usize| c as int % 7 == 0)
                + range_seq(75, 127).filter(|c: usize| c as int % 7 == 0),
            r.pilot_symbols@ == r.pilot_carriers@.map_values(
                |c: usize| {
                    if (c as int / 7) % 2 == 0 {
                        1i8
                    } else {
                        -1i8
                    }
                },
            ),
            r.null_carriers@ == seq![0usize] + range_seq(53, 75),
    {
        let fft_size: usize = 128;
        let cp_length: usize = 32;

        let ghost data_pred = |c: usize| c as int % 7 != 0;
        let ghost pilot_pred = |c: usize| c as int % 7 == 0;
        let ghost sym_of = |c: usize|
            {
                if (c as int / 7) % 2 == 0 {
                    1i8
                } else {
                    -1i8
                }
            };
        let mut data_carriers: Vec<usize> = Vec::new();
        let mut pilot_carriers: Vec<usize> = Vec::new();
        let mut pilot_symbols: Vec<i8> = Vec::new();
        proof {
            reveal(Seq::filter);
            assert(range_seq(1, 1) =~= Seq::<usize>::empty());
            assert(data_carriers@ =~= range_seq(1, 1).filter(data_pred));
            assert(pilot_carriers@ =~= range_seq(1, 1).filter(pilot_pred));
            assert(pilot_symbols@ =~= pilot_carriers@.map_values(sym_of));
        }
        let mut i: usize = 1;
        while i < 53
            invariant
                1 <= i <= 53,
                data_pred == (|c: usize| c as int % 7 != 0),
                pilot_pred == (|c: usize| c as int % 7 == 0),
                sym_of == (|c: usize|
                    {
                        if (c as int / 7) % 2 == 0 {
                            1i8
                        } else {
                            -1i8
                        }
                    }),
                data_carriers@ == range_seq(1, i as int).filter(data_pred),
                pilot_carriers@ == range_seq(1, i as int).filter(pilot_pred),
                pilot_symbols@ == pilot_carriers@.map_values(sym_of),
            decreases 53 - i,
        {
            proof {
                reveal(Seq::filter);
                assert(range_seq(1, i as int + 1).drop_last() =~= range_seq(1, i as int));
                assert(range_seq(1, i as int + 1).last() == i);
            }
            if i % 7 != 0 {
                data_carriers.push(i);
            } else {
                pilot_carriers.push(i);
                if (i / 7) % 2 == 0 {
                    pilot_symbols.push(1i8);
                } else {
                    pilot_symbols.push(-1i8);
                }
                proof {
                    assert(pilot_symbols@ =~= pilot_carriers@.map_values(sym_of));
                }
            }
            i = i + 1;
        }
        let ghost low_data = data_carriers@;
        let ghost low_pilot = pilot_carriers@;
        let mut i2: usize = 75;
        proof {
            reveal(Seq::filter);
            assert(range_seq(75, 75) =~= Seq::<usize>::empty());
            assert(low_data + range_seq(75, 75).filter(data_pred) =~= data_carriers@);
            assert(low_pilot + range_seq(75, 75).filter(pilot_pred) =~= pilot_carriers@);
        }
        while i2 < 127
            invariant
                75 <= i2 <= 127,
                data_pred == (|c: usize| c as int % 7 != 0),
                pilot_pred == (|c: usize| c as int % 7 == 0),
                sym_of == (|c: usize|
                    {
                        if (c as int / 7) % 2 == 0 {
                            1i8
                        } else {
                            -1i8
                        }
                    }),
                low_data == range_seq(1, 53).filter(data_pred),
                low_pilot == range_seq(1, 53).filter(pilot_pred),
                data_carriers@ == low_data + range_seq(75, i2 as int).filter(data_pred),
                pilot_carriers@ == low_pilot + range_seq(75, i2 as int).filter(pilot_pred),
                pilot_symbols@ == pilot_carriers@.map_values(sym_of),
            decreases 127 - i2,
        {
            proof {
                reveal(Seq::filter);
                assert(range_seq(75, i2 as int + 1).drop_last() =~= range_seq(75, i2 as int));
                assert(range_seq(75, i2 as int + 1).last() == i2);
            }
            if i2 % 7 != 0 {
                data_carriers.push(i2);
                proof {
                    assert(data_carriers@ =~= low_data + range_seq(75, i2 as int + 1).filter(
                        data_pred,
                    ));
                }
            } else {
                pilot_carriers.push(i2);
                if (i2 / 7) % 2 == 0 {
                    pilot_symbols.push(1i8);
                } else {
                    pilot_symbols.push(-1i8);
                }
                proof {
                    assert(pilot_carriers@ =~= low_pilot + range_seq(75, i2 as int + 1).filter(
                        pilot_pred,
                    ));
                    assert(pilot_symbols@ =~= pilot_carriers@.map_values(sym_of));
                }
            }
            i2 = i2 + 1;
        }

        let mut null_carriers: Vec<usize> = vec![0usize];
        let mut i3: usize = 53;
        proof {
            assert(null_carriers@ =~= seq![0usize] + range_seq(53, 53));
        }
        while i3 < 75
            invariant
                53 <= i3 <= 75,
                null_carriers@ == seq![0usize] + range_seq(53, i3 as int),
            decreases 75 - i3,
        {
            null_carriers.push(i3);
            i3 = i3 + 1;
            assert(null_carriers@ =~= seq![0usize] + range_seq(53, i3 as int));
        }

        Self { fft_size, cp_length, data_carriers, pilot_carriers, pilot_symbols, null_carriers }
    }

    /// Get total symbol length (FFT + CP)
    pub fn symbol_length(&self) -> (r: usize)
        requires
            self.fft_size + self.cp_length <= usize::MAX,
        ensures
            r == self.fft_size + self.cp_length,
    {
        self.fft_size + self.cp_length
    }

    /// Get number of data carriers
    pub fn num_data_carriers(&self) -> (r: usize)
        ensures
            r == self.data_carriers@.len(),
    {
        self.data_carriers.len()
    }
}

/// QPSK symbol index `k` of a byte: two bits at a time, most significant
/// pair first.
pub open spec fn qpsk_index(b: u8, k: int) -> u8
    recommends
        0 <= k < 4,
{
    (b >> ((6 - 2 * k) as u8)) & 3
}

/// The QPSK symbol indices of a byte stream: four two-bit groups per
/// byte, each in `0..4`, mapping `00` `01` `10` `11` in order.
pub open spec fn spec_qpsk_indices(data: Seq<u8>) -> Seq<u8> {
    Seq::new(4 * data.len(), |i: int| qpsk_index(data[i / 4], i % 4))
}

/// Group a byte stream into QPSK symbol indices.
pub fn qpsk_symbol_indices(data: &[u8]) -> (r: Vec<u8>)
    ensures
        r@ == spec_qpsk_indices(data@),
        forall|i: int| 0 <= i < r@.len() ==> #[trigger] r@[i] < 4,
{
    let mut out: Vec<u8> = Vec::new();
    let mut i: usize = 0;
    while i < data.len()
        invariant
            0 <= i <= data@.len(),
            out@ =~= spec_qpsk_indices(data@.subrange(0, i as int)),
            forall|t: int| 0 <= t < out@.len() ==> #[trigger] out@[t] < 4,
        decreases data@.len() - i,
    {
        let b = data[i];
        let mut k: usize = 0;
        while k < 4
            invariant
                0 <= k <= 4,
                0 <= i < data@.len(),
                b == data@[i as int],
                out@ =~= spec_qpsk_indices(data@.subrange(0, i as int)) + Seq::new(
                    k as nat,
                    |t: int| qpsk_index(b, t),
                ),
                forall|t: int| 0 <= t < out@.len() ==> #[trigger] out@[t] < 4,
            decreases 4 - k,
        {
            let shift = (6 - 2 * k) as u8;
            let idx = (b >> shift) & 3;
            proof {
                assert((b >> shift) & 3 <= 3) by (bit_vector);
            }
            out.push(idx);
            k = k + 1;
            assert(out@ =~= spec_qpsk_indices(data@.subrange(0, i as int)) + Seq::new(
                k as nat,
                |t: int| qpsk_index(b, t),
            ));
        }
        i = i + 1;
        assert(out@ =~= spec_qpsk_indices(data@.subrange(0, i as int)));
    }
    assert(data@.subrange(0, data@.len() as int) =~= data@);
    out
}

/// The first index past the run of idle bytes (all zeros or all ones)
/// that a carrier or silence leaves at the head of a demodulated stream.
pub open spec fn spec_trim_idle(s: Seq<u8>, i: int) -> int
    decreases s.len() - i,
{
    if i < 0 || i >= s.len() {
        s.len() as int
    } else if s[i] == 0x00 || s[i] == 0xFF {
        spec_trim_idle(s, i + 1)
    } else {
        i
    }
}

/// Where the BPSK demodulator finds the sync preamble in a candidate
/// byte stream: the earliest occurrence after the leading idle run.
pub open spec fn spec_bpsk_sync_pos(s: Seq<u8>) -> Option<int> {
    first_match_from(s, spec_sync(), spec_trim_idle(s, 0))
}

/// Search a BPSK candidate stream for the sync preamble, skipping the
/// leading idle bytes.
pub fn bpsk_sync_position(bytes: &[u8]) -> (r: Option<usize>)
    ensures
        match r {
            Some(p) => spec_bpsk_sync_pos(bytes@) == Some(p as int),
            None => spec_bpsk_sync_pos(bytes@) is None,
        },
{
    let mut start: usize = 0;
    while start < bytes.len() && (bytes[start] == 0x00 || bytes[start] == 0xFF)
        invariant
            0 <= start <= bytes@.len(),
            spec_trim_idle(bytes@, 0) == spec_trim_idle(bytes@, start as int),
        decreases bytes@.len() - start,
    {
        start = start + 1;
    }
    assert(spec_trim_idle(bytes@, start as int) == start);
    let sync = sync_pattern();
    find_pattern(bytes, sync.as_slice(), start)
}

/// Where the FSK demodulator finds a sync preamble in a candidate byte
/// stream: the earliest occurrence of the preamble or its inverse.
pub open spec fn spec_fsk_sync_pos(s: Seq<u8>) -> Option<int> {
    first_match2_from(s, spec_sync(), spec_sync_inv(), 0)
}

/// Search an FSK candidate stream for the sync preamble in either
/// polarity.
pub fn fsk_sync_position(bytes: &[u8]) -> (r: Option<usize>)
    ensures
        match r {
            Some(p) => spec_fsk_sync_pos(bytes@) == Some(p as int),
            None => spec_fsk_sync_pos(bytes@) is None,
        },
{
    let sync = sync_pattern();
    let sync_inv = vec![0xAAu8, 0xAAu8, 0xAAu8, 0xAAu8, 0x55u8, 0x55u8, 0x81u8, 0x81u8];
    proof {
        assert(sync_inv@ =~= spec_sync_inv());
    }
    find_either_pattern(bytes, sync.as_slice(), sync_inv.as_slice())
}

} // verus!
