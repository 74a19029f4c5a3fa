//! Interleaving for burst error mitigation: a block interleaver that
//! transposes fixed-size blocks, a convolutional interleaver built from
//! per-branch delay lines, and a helical interleaver over a matrix.

use vstd::prelude::*;
use crate::errors::FrameError;

verus! {

/// Generic interleaver trait.  Each implementation fixes its behaviour
/// through the spec methods, which the executable methods must meet.
pub trait Interleaver: Sized {
    /// Inputs on which interleaving runs without failure of the machine
    /// (index arithmetic stays within `usize`).
    spec fn inter_req(&self, data: Seq<u8>) -> bool;

    /// Whether interleaving accepts the input.
    spec fn inter_ok(&self, data: Seq<u8>) -> bool;

    /// The bytes interleaving emits.
    spec fn inter_out(&self, data: Seq<u8>) -> Seq<u8>;

    /// How interleaving changes the state.
    spec fn inter_next(&self, data: Seq<u8>, next: Self) -> bool;

    /// Whether deinterleaving accepts the input.
    spec fn deinter_ok(&self, data: Seq<u8>) -> bool;

    /// The bytes deinterleaving emits.
    spec fn deinter_out(&self, data: Seq<u8>) -> Seq<u8>;

    /// How deinterleaving changes the state.
    spec fn deinter_next(&self, data: Seq<u8>, next: Self) -> bool;

    /// How a reset changes the state.
    spec fn reset_next(&self, next: Self) -> bool;

    /// Interleave data to spread errors
    fn interleave(&mut self, data: &[u8]) -> (r: Result<Vec<u8>, FrameError>)
        requires
            old(self).inter_req(data@),
        ensures
            match r {
                Ok(v) => old(self).inter_ok(data@) && v@ == old(self).inter_out(data@) && old(
                    self,
                ).inter_next(data@, *final(self)),
                Err(e) => !old(self).inter_ok(data@) && *final(self) == *old(self)
                    && e is InterleavingError,
            },
    ;

    /// Deinterleave data to concentrate errors
    fn deinterleave(&mut self, data: &[u8]) -> (r: Result<Vec<u8>, FrameError>)
        requires
            old(self).inter_req(data@),
        ensures
            match r {
                Ok(v) => old(self).deinter_ok(data@) && v@ == old(self).deinter_out(data@) && old(
                    self,
                ).deinter_next(data@, *final(self)),
                Err(e) => !old(self).deinter_ok(data@) && *final(self) == *old(self)
                    && e is InterleavingError,
            },
    ;

    /// Reset interleaver state
    fn reset(&mut self)
        ensures
            old(self).reset_next(*final(self)),
    ;
}

/// The block transposition written by two nested loops: within each block
/// of `outer * inner` bytes, output position `a * inner + b` holds the
/// input byte at position `b * outer + a`.
pub open spec fn transpose_seq(data: Seq<u8>, outer: int, inner: int) -> Seq<u8>
    recommends
        outer >= 1,
        inner >= 1,
        data.len() as int % (outer * inner) == 0,
{
    let bs = outer * inner;
    Seq::new(
        data.len(),
        |t: int| data[(t / bs) * bs + ((t % bs) % inner) * outer + ((t % bs) / inner)],
    )
}

/// Interleaving transposition: row-major input read out column by column.
pub open spec fn block_perm(data: Seq<u8>, rows: int, cols: int) -> Seq<u8>
    recommends
        rows >= 1,
        cols >= 1,
        data.len() as int % (rows * cols) == 0,
{
    transpose_seq(data, cols, rows)
}

/// Deinterleaving transposition: column-major input read out row by row,
/// the inverse of `block_perm`.
pub open spec fn block_unperm(data: Seq<u8>, rows: int, cols: int) -> Seq<u8>
    recommends
        rows >= 1,
        cols >= 1,
        data.len() as int % (rows * cols) == 0,
{
    transpose_seq(data, rows, cols)
}

/// Block interleaver implementation
pub struct BlockInterleaver {
    pub rows: usize,
    pub cols: usize,
}

impl BlockInterleaver {
    /// Dimensions the constructor accepts.
    pub open spec fn dims_ok(rows: usize, cols: usize) -> bool {
        rows >= 1 && cols >= 1
    }

    /// Invariant established by the constructor.
    pub open spec fn wf(&self) -> bool {
        Self::dims_ok(self.rows, self.cols)
    }

    /// Create a new block interleaver
    pub fn new(rows: usize, cols: usize) -> (r: Result<Self, FrameError>)
        ensures
            match r {
                Ok(b) => Self::dims_ok(rows, cols) && b == (BlockInterleaver { rows, cols }),
                Err(e) => !Self::dims_ok(rows, cols) && e is InterleavingError,
            },
    {
        if rows == 0 || cols == 0 {
            return Err(FrameError::InterleavingError {
                msg: "interleaver dimensions must be greater than 0".to_owned(),
            });
        }
        Ok(Self { rows, cols })
    }

    /// Get the block size (total elements)
    pub fn block_size(&self) -> (r: usize)
        requires
            self.rows * self.cols <= usize::MAX,
        ensures
            r == self.rows * self.cols,
    {
        self.rows * self.cols
    }

    /// Copy one transposed block of the input to the output: output
    /// position `base + a * inner + b` receives the input byte at
    /// `base + b * outer + a`.
    fn emit_block(data: &[u8], out: &mut Vec<u8>, base: usize, outer: usize, inner: usize)
        requires
            1 <= outer,
            1 <= inner,
            outer * inner <= usize::MAX,
            base + outer * inner <= usize::MAX,
            base + outer * inner <= data@.len(),
            old(out)@.len() == base,
        ensures
            final(out)@.len() == base + outer * inner,
            final(out)@.subrange(0, base as int) == old(out)@,
            forall|t: int|
                #![trigger final(out)@[t]]
                base <= t < base + outer * inner ==> final(out)@[t] == data@[base + ((t - base)
                    % inner as int) * outer + ((t - base) / inner as int)],
    {
        let ghost out0 = out@;
        let mut a: usize = 0;
        while a < outer
            invariant
                0 <= a <= outer,
                1 <= outer,
                1 <= inner,
                outer * inner <= usize::MAX,
                base + outer * inner <= usize::MAX,
                base + outer * inner <= data@.len(),
                out@.len() == base + a * inner,
                out@.subrange(0, base as int) == out0,
                out0.len() == base,
                forall|t: int|
                    #![trigger out@[t]]
                    base <= t < base + a * inner ==> out@[t] == data@[base + ((t - base)
                        % inner as int) * outer + ((t - base) / inner as int)],
            decreases outer - a,
        {
            let mut b: usize = 0;
            proof {
                assert(a * inner + inner <= outer * inner) by (nonlinear_arith)
                    requires
                        0 <= a < outer && 1 <= inner,
                ;
            }
            while b < inner
                invariant
                    0 <= b <= inner,
                    0 <= a < outer,
                    1 <= outer,
                    1 <= inner,
                    a * inner + inner <= outer * inner,
                    outer * inner <= usize::MAX,
                    base + outer * inner <= usize::MAX,
                    base + outer * inner <= data@.len(),
                    out@.len() == base + a * inner + b,
                    out@.subrange(0, base as int) == out0,
                    out0.len() == base,
                    forall|t: int|
                        #![trigger out@[t]]
                        base <= t < base + a * inner + b ==> out@[t] == data@[base + ((t - base)
                            % inner as int) * outer + ((t - base) / inner as int)],
                decreases inner - b,
            {
                proof {
                    assert(b * outer + a < outer * inner) by (nonlinear_arith)
                        requires
                            0 <= a < outer && 0 <= b < inner,
                    ;
                }
                out.push(data[base + b * outer + a]);
                b = b + 1;
                proof {
                    let t0 = base + a * inner + (b - 1);
                    vstd::arithmetic::div_mod::lemma_fundamental_div_mod_converse(
                        t0 - base,
                        inner as int,
                        a as int,
                        b - 1,
                    );
                    assert(out@[t0] == data@[base + ((t0 - base) % inner as int) * outer + ((t0
                        - base) / inner as int)]);
                }
            }
            a = a + 1;
            proof {
                assert(a * inner == (a - 1) * inner + inner) by (nonlinear_arith);
            }
        }
    }

    /// Process every block of the input through the transposition.
    fn transpose_blocks(data: &[u8], outer: usize, inner: usize) -> (r: Vec<u8>)
        requires
            1 <= outer,
            1 <= inner,
            outer * inner <= usize::MAX,
            data@.len() as int % (outer as int * inner as int) == 0,
        ensures
            r@ =~= transpose_seq(data@, outer as int, inner as int),
    {
        let bs = outer * inner;
        proof {
            assert(outer * inner >= 1) by (nonlinear_arith)
                requires
                    outer >= 1 && inner >= 1,
            ;
        }
        let ghost goal = transpose_seq(data@, outer as int, inner as int);
        let mut result: Vec<u8> = Vec::new();
        let mut base: usize = 0;
        while base < data.len()
            invariant
                1 <= outer,
                1 <= inner,
                1 <= bs,
                bs == outer * inner,
                data@.len() as int % bs as int == 0,
                base as int % bs as int == 0,
                0 <= base <= data@.len(),
                result@.len() == base,
                goal == transpose_seq(data@, outer as int, inner as int),
                forall|t: int| #![trigger result@[t]] 0 <= t < base ==> result@[t] == goal[t],
            decreases data@.len() - base,
        {
            proof {
                lemma_block_step(data@.len() as int, base as int, bs as int);
            }
            let ghost snap = result@;
            Self::emit_block(data, &mut result, base, outer, inner);
            proof {
                assert forall|t: int| 0 <= t < base + bs implies result@[t] == goal[t] by {
                    if t < base {
                        assert(result@.subrange(0, base as int)[t] == snap[t]);
                    } else {
                        vstd::arithmetic::div_mod::lemma_fundamental_div_mod(
                            base as int,
                            bs as int,
                        );
                        assert(t == (base as int / bs as int) * bs as int + (t - base));
                        vstd::arithmetic::div_mod::lemma_fundamental_div_mod_converse(
                            t,
                            bs as int,
                            base as int / bs as int,
                            t - base,
                        );
                        assert(t / bs as int == base as int / bs as int && t % bs as int == t
                            - base);
                        assert(result@[t] == data@[base + ((t - base) % inner as int) * outer + ((
                        t - base) / inner as int)]);
                    }
                }
            }
            base = base + bs;
            proof {
                vstd::arithmetic::div_mod::lemma_mod_multiples_vanish(
                    1,
                    base as int - bs as int,
                    bs as int,
                );
            }
        }
        result
    }
}

/// A multiple of the block size strictly below another multiple leaves
/// room for one more whole block.
proof fn lemma_block_step(len: int, base: int, bs: int)
    requires
        bs >= 1,
        len % bs == 0,
        base % bs == 0,
        0 <= base < len,
    ensures
        base + bs <= len,
{
    let rem = len - base;
    vstd::arithmetic::div_mod::lemma_sub_mod_noop(len, base, bs);
    vstd::arithmetic::div_mod::lemma_small_mod(0nat, bs as nat);
    if rem < bs {
        vstd::arithmetic::div_mod::lemma_small_mod(rem as nat, bs as nat);
    }
}

impl Interleaver for BlockInterleaver {
    open spec fn inter_req(&self, data: Seq<u8>) -> bool {
        self.wf() && self.rows * self.cols <= usize::MAX
    }

    open spec fn inter_ok(&self, data: Seq<u8>) -> bool {
        data.len() as int % (self.rows as int * self.cols as int) == 0
    }

    open spec fn inter_out(&self, data: Seq<u8>) -> Seq<u8> {
        block_perm(data, self.rows as int, self.cols as int)
    }

    open spec fn inter_next(&self, data: Seq<u8>, next: Self) -> bool {
        next == *self
    }

    open spec fn deinter_ok(&self, data: Seq<u8>) -> bool {
        data.len() as int % (self.rows as int * self.cols as int) == 0
    }

    open spec fn deinter_out(&self, data: Seq<u8>) -> Seq<u8> {
        block_unperm(data, self.rows as int, self.cols as int)
    }

    open spec fn deinter_next(&self, data: Seq<u8>, next: Self) -> bool {
        next == *self
    }

    open spec fn reset_next(&self, next: Self) -> bool {
        next == *self
    }

    fn interleave(&mut self, data: &[u8]) -> (r: Result<Vec<u8>, FrameError>) {
        let bs = self.rows * self.cols;
        proof {
            assert(self.rows * self.cols >= 1 && self.cols * self.rows == self.rows
                * self.cols) by (nonlinear_arith)
                requires
                    self.rows >= 1 && self.cols >= 1,
            ;
        }
        if data.len() % bs != 0 {
            return Err(FrameError::InterleavingError {
                msg: "data length not a multiple of block size".to_owned(),
            });
        }
        let result = Self::transpose_blocks(data, self.cols, self.rows);
        Ok(result)
    }

    fn deinterleave(&mut self, data: &[u8]) -> (r: Result<Vec<u8>, FrameError>) {
        let bs = self.rows * self.cols;
        proof {
            assert(self.rows * self.cols >= 1) by (nonlinear_arith)
                requires
                    self.rows >= 1 && self.cols >= 1,
            ;
        }
        if data.len() % bs != 0 {
            return Err(FrameError::InterleavingError {
                msg: "data length not a multiple of block size".to_owned(),
            });
        }
        let result = Self::transpose_blocks(data, self.rows, self.cols);
        Ok(result)
    }

    fn reset(&mut self) {
    }
}


/// One step of a delay line: an empty line passes the byte through; a
/// non-empty line emits its head and stores the byte at its tail.
pub open spec fn delay_step(delays: Seq<Seq<u8>>, branch: int, byte: u8) -> (Seq<Seq<u8>>, u8)
    recommends
        0 <= branch < delays.len(),
{
    let line = delays[branch];
    if line.len() == 0 {
        (delays, byte)
    } else {
        (delays.update(branch, line.drop_first().push(byte)), line[0])
    }
}

/// The delay lines after the first `i` bytes have passed through,
/// branches taken round-robin from `idx0`.
pub open spec fn conv_delays_at(
    delays0: Seq<Seq<u8>>,
    idx0: int,
    branches: int,
    data: Seq<u8>,
    i: int,
) -> Seq<Seq<u8>>
    decreases i,
{
    if i <= 0 {
        delays0
    } else {
        delay_step(
            conv_delays_at(delays0, idx0, branches, data, i - 1),
            (idx0 + (i - 1)) % branches,
            data[i - 1],
        ).0
    }
}

/// The bytes a round-robin pass over the delay lines emits.
pub open spec fn conv_outputs(
    delays0: Seq<Seq<u8>>,
    idx0: int,
    branches: int,
    data: Seq<u8>,
) -> Seq<u8> {
    Seq::new(
        data.len(),
        |i: int|
            delay_step(
                conv_delays_at(delays0, idx0, branches, data, i),
                (idx0 + i) % branches,
                data[i],
            ).1,
    )
}

/// Total number of bytes held in a set of delay lines.
pub open spec fn lines_total(v: Seq<Seq<u8>>) -> int
    decreases v.len(),
{
    if v.len() == 0 {
        0
    } else {
        lines_total(v.drop_last()) + v.last().len()
    }
}

/// Convolutional interleaver implementation
pub struct ConvolutionalInterleaver {
    pub branches: usize,
    pub depth: usize,
    pub delays: Vec<Vec<u8>>,
    pub input_index: usize,
    pub output_index: usize,
}

impl ConvolutionalInterleaver {
    /// The delay lines as a sequence of byte sequences.
    pub open spec fn delays_view(&self) -> Seq<Seq<u8>> {
        Seq::new(self.delays@.len(), |i: int| self.delays@[i]@)
    }

    /// Invariant established by the constructor: one delay line per
    /// branch.
    pub open spec fn wf(&self) -> bool {
        self.branches >= 1 && self.delays@.len() == self.branches
    }

    /// Create a new convolutional interleaver
    pub fn new(branches: usize, depth: usize) -> (r: Result<Self, FrameError>)
        requires
            branches * depth <= usize::MAX,
        ensures
            match r {
                Ok(c) => {
                    &&& branches >= 1
                    &&& c.wf()
                    &&& c.branches == branches
                    &&& c.depth == depth
                    &&& c.input_index == 0
                    &&& c.output_index == 0
                    &&& forall|i: int|
                        0 <= i < branches ==> #[trigger] c.delays_view()[i] =~= Seq::new(
                            (i * depth) as nat,
                            |j: int| 0u8,
                        )
                },
                Err(e) => branches == 0 && e is InterleavingError,
            },
    {
        if branches == 0 {
            return Err(FrameError::InterleavingError {
                msg: "number of branches must be greater than 0".to_owned(),
            });
        }
        let mut delays: Vec<Vec<u8>> = Vec::new();
        let mut i: usize = 0;
        while i < branches
            invariant
                0 <= i <= branches,
                branches * depth <= usize::MAX,
                delays@.len() == i,
                forall|t: int|
                    0 <= t < i ==> #[trigger] delays@[t]@ =~= Seq::new(
                        (t * depth) as nat,
                        |j: int| 0u8,
                    ),
            decreases branches - i,
        {
            proof {
                assert(i * depth <= branches * depth) by (nonlinear_arith)
                    requires
                        0 <= i <= branches && depth >= 0,
                ;
            }
            let delay_length = i * depth;
            let line = vec![0u8; delay_length];
            delays.push(line);
            i = i + 1;
        }
        Ok(Self { branches, depth, delays, input_index: 0, output_index: 0 })
    }

    /// Get total memory requirement
    pub fn memory_size(&self) -> (r: usize)
        requires
            lines_total(self.delays_view()) <= usize::MAX,
        ensures
            r == lines_total(self.delays_view()),
    {
        let mut total: usize = 0;
        let mut i: usize = 0;
        proof {
            assert(self.delays_view().subrange(0, 0) =~= Seq::<Seq<u8>>::empty());
        }
        while i < self.delays.len()
            invariant
                0 <= i <= self.delays@.len(),
                lines_total(self.delays_view()) <= usize::MAX,
                total == lines_total(self.delays_view().subrange(0, i as int)),
            decreases self.delays@.len() - i,
        {
            proof {
                lemma_lines_total_prefix(self.delays_view(), i as int + 1);
                lemma_lines_total_prefix_le(self.delays_view(), i as int + 1);
            }
            total = total + self.delays[i].len();
            i = i + 1;
        }
        proof {
            assert(self.delays_view().subrange(0, self.delays@.len() as int)
                =~= self.delays_view());
        }
        total
    }

    /// Pass one byte through the delay line of the given branch.
    fn step_line(&mut self, branch: usize, byte: u8) -> (out: u8)
        requires
            branch < old(self).delays@.len(),
        ensures
            final(self).branches == old(self).branches,
            final(self).depth == old(self).depth,
            final(self).input_index == old(self).input_index,
            final(self).output_index == old(self).output_index,
            final(self).delays_view() =~= delay_step(
                old(self).delays_view(),
                branch as int,
                byte,
            ).0,
            out == delay_step(old(self).delays_view(), branch as int, byte).1,
    {
        let line_len = self.delays[branch].len();
        if line_len == 0 {
            assert(final(self).delays_view() =~= delay_step(
                old(self).delays_view(),
                branch as int,
                byte,
            ).0);
            byte
        } else {
            let delayed = self.delays[branch][0];
            let mut newline = vstd::slice::slice_to_vec(
                vstd::slice::slice_subrange(self.delays[branch].as_slice(), 1, line_len),
            );
            newline.push(byte);
            proof {
                assert(newline@ =~= old(self).delays@[branch as int]@.drop_first().push(byte));
            }
            let slot = vstd::std_specs::vec::vec_index_mut(&mut self.delays, branch);
            *slot = newline;
            assert(final(self).delays_view() =~= delay_step(
                old(self).delays_view(),
                branch as int,
                byte,
            ).0);
            delayed
        }
    }

    /// Run the round-robin pass that both directions share, driven by
    /// the given starting index.
    fn run_lines(&mut self, data: &[u8], use_output_index: bool) -> (r: Vec<u8>)
        requires
            old(self).wf(),
            !use_output_index ==> old(self).input_index + data@.len() <= usize::MAX,
            use_output_index ==> old(self).output_index + data@.len() <= usize::MAX,
        ensures
            final(self).wf(),
            final(self).branches == old(self).branches,
            final(self).depth == old(self).depth,
            ({
                let idx0 = if use_output_index {
                    old(self).output_index as int
                } else {
                    old(self).input_index as int
                };
                &&& r@ == conv_outputs(
                    old(self).delays_view(),
                    idx0,
                    old(self).branches as int,
                    data@,
                )
                &&& final(self).delays_view() == conv_delays_at(
                    old(self).delays_view(),
                    idx0,
                    old(self).branches as int,
                    data@,
                    data@.len() as int,
                )
                &&& (!use_output_index ==> final(self).input_index == old(self).input_index
                    + data@.len() && final(self).output_index == old(self).output_index)
                &&& (use_output_index ==> final(self).output_index == old(self).output_index
                    + data@.len() && final(self).input_index == old(self).input_index)
            }),
    {
        let ghost d0 = self.delays_view();
        let ghost idx0: int = if use_output_index {
            self.output_index as int
        } else {
            self.input_index as int
        };
        let ghost nb = self.branches as int;
        let mut result: Vec<u8> = Vec::new();
        let mut i: usize = 0;
        while i < data.len()
            invariant
                self.wf(),
                self.branches == old(self).branches,
                self.depth == old(self).depth,
                0 <= i <= data@.len(),
                nb == self.branches as int,
                !use_output_index ==> idx0 == old(self).input_index as int && old(
                    self,
                ).input_index + data@.len() <= usize::MAX && self.input_index == idx0 + i
                    && self.output_index == old(self).output_index,
                use_output_index ==> idx0 == old(self).output_index as int && old(
                    self,
                ).output_index + data@.len() <= usize::MAX && self.output_index == idx0 + i
                    && self.input_index == old(self).input_index,
                self.delays_view() == conv_delays_at(d0, idx0, nb, data@, i as int),
                result@ =~= conv_outputs(d0, idx0, nb, data@).subrange(0, i as int),
            decreases data@.len() - i,
        {
            let branch = if use_output_index {
                self.output_index % self.branches
            } else {
                self.input_index % self.branches
            };
            let byte = data[i];
            let out = self.step_line(branch, byte);
            result.push(out);
            if use_output_index {
                self.output_index = self.output_index + 1;
            } else {
                self.input_index = self.input_index + 1;
            }
            i = i + 1;
            proof {
                assert(self.delays_view() =~= conv_delays_at(d0, idx0, nb, data@, i as int));
                assert(result@ =~= conv_outputs(d0, idx0, nb, data@).subrange(0, i as int));
            }
        }
        assert(result@ =~= conv_outputs(d0, idx0, nb, data@));
        result
    }
}

/// A prefix total never exceeds the whole total.
proof fn lemma_lines_total_prefix_le(v: Seq<Seq<u8>>, i: int)
    requires
        0 <= i <= v.len(),
    ensures
        lines_total(v.subrange(0, i)) <= lines_total(v),
    decreases v.len() - i,
{
    if i == v.len() {
        assert(v.subrange(0, i) =~= v);
    } else {
        lemma_lines_total_prefix(v, i + 1);
        lemma_lines_total_prefix_le(v, i + 1);
    }
}

/// The running total over a prefix of delay lines unfolds one line at a
/// time.
proof fn lemma_lines_total_prefix(v: Seq<Seq<u8>>, i: int)
    requires
        0 < i <= v.len(),
    ensures
        lines_total(v.subrange(0, i)) == lines_total(v.subrange(0, i - 1)) + v[i - 1].len(),
        lines_total(v.subrange(0, i - 1)) >= 0,
        lines_total(v.subrange(0, i)) >= 0,
{
    assert(v.subrange(0, i).drop_last() =~= v.subrange(0, i - 1));
    lemma_lines_total_nonneg(v.subrange(0, i - 1));
    lemma_lines_total_nonneg(v.subrange(0, i));
}

/// A total of lengths is never negative.
proof fn lemma_lines_total_nonneg(v: Seq<Seq<u8>>)
    ensures
        lines_total(v) >= 0,
    decreases v.len(),
{
    if v.len() > 0 {
        lemma_lines_total_nonneg(v.drop_last());
    }
}

impl Interleaver for ConvolutionalInterleaver {
    open spec fn inter_req(&self, data: Seq<u8>) -> bool {
        self.wf() && self.input_index + data.len() <= usize::MAX && self.output_index
            + data.len() <= usize::MAX
    }

    open spec fn inter_ok(&self, data: Seq<u8>) -> bool {
        true
    }

    open spec fn inter_out(&self, data: Seq<u8>) -> Seq<u8> {
        conv_outputs(self.delays_view(), self.input_index as int, self.branches as int, data)
    }

    open spec fn inter_next(&self, data: Seq<u8>, next: Self) -> bool {
        &&& next.branches == self.branches
        &&& next.depth == self.depth
        &&& next.delays_view() == conv_delays_at(
            self.delays_view(),
            self.input_index as int,
            self.branches as int,
            data,
            data.len() as int,
        )
        &&& next.input_index == self.input_index + data.len()
        &&& next.output_index == self.output_index
    }

    open spec fn deinter_ok(&self, data: Seq<u8>) -> bool {
        true
    }

    open spec fn deinter_out(&self, data: Seq<u8>) -> Seq<u8> {
        conv_outputs(self.delays_view(), self.output_index as int, self.branches as int, data)
    }

    open spec fn deinter_next(&self, data: Seq<u8>, next: Self) -> bool {
        &&& next.branches == self.branches
        &&& next.depth == self.depth
        &&& next.delays_view() == conv_delays_at(
            self.delays_view(),
            self.output_index as int,
            self.branches as int,
            data,
            data.len() as int,
        )
        &&& next.output_index == self.output_index + data.len()
        &&& next.input_index == self.input_index
    }

    open spec fn reset_next(&self, next: Self) -> bool {
        &&& next.branches == self.branches
        &&& next.depth == self.depth
        &&& next.input_index == 0
        &&& next.output_index == 0
        &&& next.delays_view().len() == self.delays_view().len()
        &&& forall|i: int|
            0 <= i < self.delays_view().len() ==> #[trigger] next.delays_view()[i] =~= Seq::new(
                self.delays_view()[i].len(),
                |j: int| 0u8,
            )
    }

    fn interleave(&mut self, data: &[u8]) -> (r: Result<Vec<u8>, FrameError>) {
        Ok(self.run_lines(data, false))
    }

    fn deinterleave(&mut self, data: &[u8]) -> (r: Result<Vec<u8>, FrameError>) {
        Ok(self.run_lines(data, true))
    }

    fn reset(&mut self) {
        let n = self.delays.len();
        let mut i: usize = 0;
        while i < n
            invariant
                0 <= i <= n,
                n == self.delays@.len(),
                self.branches == old(self).branches,
                self.depth == old(self).depth,
                self.input_index == old(self).input_index,
                self.output_index == old(self).output_index,
                self.delays@.len() == old(self).delays@.len(),
                forall|t: int|
                    0 <= t < i ==> #[trigger] self.delays@[t]@ =~= Seq::new(
                        old(self).delays@[t]@.len(),
                        |j: int| 0u8,
                    ),
                forall|t: int|
                    i <= t < n ==> #[trigger] self.delays@[t]@ == old(self).delays@[t]@,
            decreases n - i,
        {
            let len = self.delays[i].len();
            let zeroed = vec![0u8; len];
            let slot = vstd::std_specs::vec::vec_index_mut(&mut self.delays, i);
            *slot = zeroed;
            i = i + 1;
        }
        self.input_index = 0;
        self.output_index = 0;
    }
}

/// The next write position: column by column, wrapping to the next row
/// when a row completes.
pub open spec fn adv_pos(pos: (int, int), rows: int, cols: int) -> (int, int)
    recommends
        rows >= 1,
        cols >= 1,
{
    let nc = (pos.1 + 1) % cols;
    if nc == 0 {
        ((pos.0 + 1) % rows, nc)
    } else {
        (pos.0, nc)
    }
}

/// A position after `i` advances.
pub open spec fn pos_at(pos0: (int, int), rows: int, cols: int, i: int) -> (int, int)
    decreases i,
{
    if i <= 0 {
        pos0
    } else {
        adv_pos(pos_at(pos0, rows, cols, i - 1), rows, cols)
    }
}

/// A matrix with one cell replaced.
pub open spec fn mat_write(m: Seq<Seq<u8>>, pos: (int, int), b: u8) -> Seq<Seq<u8>>
    recommends
        0 <= pos.0 < m.len(),
        0 <= pos.1 < m[pos.0].len(),
{
    m.update(pos.0, m[pos.0].update(pos.1, b))
}

/// The matrix after the first `i` input bytes have been written.
pub open spec fn hel_mat_at(
    m0: Seq<Seq<u8>>,
    inpos0: (int, int),
    rows: int,
    cols: int,
    data: Seq<u8>,
    i: int,
) -> Seq<Seq<u8>>
    decreases i,
{
    if i <= 0 {
        m0
    } else {
        mat_write(
            hel_mat_at(m0, inpos0, rows, cols, data, i - 1),
            pos_at(inpos0, rows, cols, i - 1),
            data[i - 1],
        )
    }
}

/// The bytes the helical pass emits: each byte is written at the input
/// position, then the cell at the output position is read.
pub open spec fn hel_outputs(
    m0: Seq<Seq<u8>>,
    inpos0: (int, int),
    outpos0: (int, int),
    rows: int,
    cols: int,
    data: Seq<u8>,
) -> Seq<u8> {
    Seq::new(
        data.len(),
        |i: int|
            {
                let m = hel_mat_at(m0, inpos0, rows, cols, data, i + 1);
                let op = pos_at(outpos0, rows, cols, i);
                m[op.0][op.1]
            },
    )
}

/// Helical interleaver (variant of convolutional)
pub struct HelicalInterleaver {
    pub matrix: Vec<Vec<u8>>,
    pub rows: usize,
    pub cols: usize,
    pub input_pos: (usize, usize),
    pub output_pos: (usize, usize),
}

impl HelicalInterleaver {
    /// The matrix as a sequence of rows.
    pub open spec fn mat_view(&self) -> Seq<Seq<u8>> {
        Seq::new(self.matrix@.len(), |i: int| self.matrix@[i]@)
    }

    /// Invariant established by the constructor: a full matrix and
    /// in-range positions.
    pub open spec fn wf(&self) -> bool {
        &&& self.rows >= 1
        &&& self.cols >= 1
        &&& self.matrix@.len() == self.rows
        &&& forall|i: int| 0 <= i < self.rows ==> #[trigger] self.matrix@[i]@.len() == self.cols
        &&& self.input_pos.0 < self.rows && self.input_pos.1 < self.cols
        &&& self.output_pos.0 < self.rows && self.output_pos.1 < self.cols
    }

    /// Create a new helical interleaver
    pub fn new(rows: usize, cols: usize) -> (r: Result<Self, FrameError>)
        ensures
            match r {
                Ok(h) => {
                    &&& rows >= 1 && cols >= 1
                    &&& h.wf()
                    &&& h.rows == rows
                    &&& h.cols == cols
                    &&& h.input_pos == (0usize, 0usize)
                    &&& h.output_pos == (0usize, 0usize)
                    &&& forall|i: int|
                        0 <= i < rows ==> #[trigger] h.mat_view()[i] =~= Seq::new(
                            cols as nat,
                            |j: int| 0u8,
                        )
                },
                Err(e) => (rows == 0 || cols == 0) && e is InterleavingError,
            },
    {
        if rows == 0 || cols == 0 {
            return Err(FrameError::InterleavingError {
                msg: "interleaver dimensions must be greater than 0".to_owned(),
            });
        }
        let mut matrix: Vec<Vec<u8>> = Vec::new();
        let mut i: usize = 0;
        while i < rows
            invariant
                0 <= i <= rows,
                matrix@.len() == i,
                forall|t: int|
                    0 <= t < i ==> #[trigger] matrix@[t]@ =~= Seq::new(cols as nat, |j: int| 0u8),
            decreases rows - i,
        {
            let row = vec![0u8; cols];
            matrix.push(row);
            i = i + 1;
        }
        Ok(Self { matrix, rows, cols, input_pos: (0, 0), output_pos: (0, 0) })
    }

    /// Advance position with helical pattern
    fn advance_position(&self, pos: (usize, usize)) -> (r: (usize, usize))
        requires
            self.rows >= 1,
            self.cols >= 1,
            pos.0 < self.rows,
            pos.1 < self.cols,
        ensures
            (r.0 as int, r.1 as int) == adv_pos(
                (pos.0 as int, pos.1 as int),
                self.rows as int,
                self.cols as int,
            ),
            r.0 < self.rows,
            r.1 < self.cols,
    {
        let (row, col) = pos;
        let new_col = (col + 1) % self.cols;
        let new_row = if new_col == 0 {
            (row + 1) % self.rows
        } else {
            row
        };
        (new_row, new_col)
    }

    /// Write one byte and read the delayed byte out.
    fn step_cell(&mut self, byte: u8) -> (out: u8)
        requires
            old(self).wf(),
        ensures
            final(self).wf(),
            final(self).rows == old(self).rows,
            final(self).cols == old(self).cols,
            final(self).output_pos == old(self).output_pos,
            final(self).input_pos == old(self).input_pos,
            final(self).mat_view() =~= mat_write(
                old(self).mat_view(),
                (old(self).input_pos.0 as int, old(self).input_pos.1 as int),
                byte,
            ),
            out == ({
                let m = mat_write(
                    old(self).mat_view(),
                    (old(self).input_pos.0 as int, old(self).input_pos.1 as int),
                    byte,
                );
                m[old(self).output_pos.0 as int][old(self).output_pos.1 as int]
            }),
    {
        let (ir, ic) = self.input_pos;
        let row = vstd::std_specs::vec::vec_index_mut(&mut self.matrix, ir);
        let cell = vstd::std_specs::vec::vec_index_mut(row, ic);
        *cell = byte;
        let out = self.matrix[self.output_pos.0][self.output_pos.1];
        assert(final(self).mat_view() =~= mat_write(
            old(self).mat_view(),
            (old(self).input_pos.0 as int, old(self).input_pos.1 as int),
            byte,
        ));
        out
    }

    /// Run the write-then-read pass over the matrix.
    fn run_matrix(&mut self, data: &[u8]) -> (r: Vec<u8>)
        requires
            old(self).wf(),
        ensures
            final(self).wf(),
            final(self).rows == old(self).rows,
            final(self).cols == old(self).cols,
            r@ == hel_outputs(
                old(self).mat_view(),
                (old(self).input_pos.0 as int, old(self).input_pos.1 as int),
                (old(self).output_pos.0 as int, old(self).output_pos.1 as int),
                old(self).rows as int,
                old(self).cols as int,
                data@,
            ),
            final(self).mat_view() == hel_mat_at(
                old(self).mat_view(),
                (old(self).input_pos.0 as int, old(self).input_pos.1 as int),
                old(self).rows as int,
                old(self).cols as int,
                data@,
                data@.len() as int,
            ),
            (final(self).input_pos.0 as int, final(self).input_pos.1 as int) == pos_at(
                (old(self).input_pos.0 as int, old(self).input_pos.1 as int),
                old(self).rows as int,
                old(self).cols as int,
                data@.len() as int,
            ),
            (final(self).output_pos.0 as int, final(self).output_pos.1 as int) == pos_at(
                (old(self).output_pos.0 as int, old(self).output_pos.1 as int),
                old(self).rows as int,
                old(self).cols as int,
                data@.len() as int,
            ),
    {
        let ghost m0 = self.mat_view();
        let ghost ip0 = (self.input_pos.0 as int, self.input_pos.1 as int);
        let ghost op0 = (self.output_pos.0 as int, self.output_pos.1 as int);
        let ghost rr = self.rows as int;
        let ghost cc = self.cols as int;
        let mut result: Vec<u8> = Vec::new();
        let mut i: usize = 0;
        while i < data.len()
            invariant
                self.wf(),
                self.rows == old(self).rows,
                self.cols == old(self).cols,
                rr == self.rows as int,
                cc == self.cols as int,
                0 <= i <= data@.len(),
                self.mat_view() == hel_mat_at(m0, ip0, rr, cc, data@, i as int),
                (self.input_pos.0 as int, self.input_pos.1 as int) == pos_at(
                    ip0,
                    rr,
                    cc,
                    i as int,
                ),
                (self.output_pos.0 as int, self.output_pos.1 as int) == pos_at(
                    op0,
                    rr,
                    cc,
                    i as int,
                ),
                result@ =~= hel_outputs(m0, ip0, op0, rr, cc, data@).subrange(0, i as int),
            decreases data@.len() - i,
        {
            let byte = data[i];
            let out = self.step_cell(byte);
            result.push(out);
            let new_in = self.advance_position(self.input_pos);
            let new_out = self.advance_position(self.output_pos);
            self.input_pos = new_in;
            self.output_pos = new_out;
            i = i + 1;
            proof {
                assert(self.mat_view() =~= hel_mat_at(m0, ip0, rr, cc, data@, i as int));
                assert(result@ =~= hel_outputs(m0, ip0, op0, rr, cc, data@).subrange(
                    0,
                    i as int,
                ));
            }
        }
        assert(result@ =~= hel_outputs(m0, ip0, op0, rr, cc, data@));
        result
    }
}

impl Interleaver for HelicalInterleaver {
    open spec fn inter_req(&self, data: Seq<u8>) -> bool {
        self.wf()
    }

    open spec fn inter_ok(&self, data: Seq<u8>) -> bool {
        true
    }

    open spec fn inter_out(&self, data: Seq<u8>) -> Seq<u8> {
        hel_outputs(
            self.mat_view(),
            (self.input_pos.0 as int, self.input_pos.1 as int),
            (self.output_pos.0 as int, self.output_pos.1 as int),
            self.rows as int,
            self.cols as int,
            data,
        )
    }

    open spec fn inter_next(&self, data: Seq<u8>, next: Self) -> bool {
        &&& next.rows == self.rows
        &&& next.cols == self.cols
        &&& next.mat_view() == hel_mat_at(
            self.mat_view(),
            (self.input_pos.0 as int, self.input_pos.1 as int),
            self.rows as int,
            self.cols as int,
            data,
            data.len() as int,
        )
        &&& (next.input_pos.0 as int, next.input_pos.1 as int) == pos_at(
            (self.input_pos.0 as int, self.input_pos.1 as int),
            self.rows as int,
            self.cols as int,
            data.len() as int,
        )
        &&& (next.output_pos.0 as int, next.output_pos.1 as int) == pos_at(
            (self.output_pos.0 as int, self.output_pos.1 as int),
            self.rows as int,
            self.cols as int,
            data.len() as int,
        )
    }

    open spec fn deinter_ok(&self, data: Seq<u8>) -> bool {
        true
    }

    /// Deinterleaving runs the same pass from its own starting
    /// positions.
    open spec fn deinter_out(&self, data: Seq<u8>) -> Seq<u8> {
        self.inter_out(data)
    }

    open spec fn deinter_next(&self, data: Seq<u8>, next: Self) -> bool {
        self.inter_next(data, next)
    }

    open spec fn reset_next(&self, next: Self) -> bool {
        &&& next.rows == self.rows
        &&& next.cols == self.cols
        &&& next.input_pos == (0usize, 0usize)
        &&& next.output_pos == (0usize, 0usize)
        &&& next.mat_view().len() == self.mat_view().len()
        &&& forall|i: int|
            0 <= i < self.mat_view().len() ==> #[trigger] next.mat_view()[i] =~= Seq::new(
                self.mat_view()[i].len(),
                |j: int| 0u8,
            )
    }

    fn interleave(&mut self, data: &[u8]) -> (r: Result<Vec<u8>, FrameError>) {
        Ok(self.run_matrix(data))
    }

    fn deinterleave(&mut self, data: &[u8]) -> (r: Result<Vec<u8>, FrameError>) {
        Ok(self.run_matrix(data))
    }

    fn reset(&mut self) {
        let n = self.matrix.len();
        let mut i: usize = 0;
        while i < n
            invariant
                0 <= i <= n,
                n == self.matrix@.len(),
                self.rows == old(self).rows,
                self.cols == old(self).cols,
                self.input_pos == old(self).input_pos,
                self.output_pos == old(self).output_pos,
                self.matrix@.len() == old(self).matrix@.len(),
                forall|t: int|
                    0 <= t < i ==> #[trigger] self.matrix@[t]@ =~= Seq::new(
                        old(self).matrix@[t]@.len(),
                        |j: int| 0u8,
                    ),
                forall|t: int|
                    i <= t < n ==> #[trigger] self.matrix@[t]@ == old(self).matrix@[t]@,
            decreases n - i,
        {
            let len = self.matrix[i].len();
            let zeroed = vec![0u8; len];
            let slot = vstd::std_specs::vec::vec_index_mut(&mut self.matrix, i);
            *slot = zeroed;
            i = i + 1;
        }
        self.input_pos = (0, 0);
        self.output_pos = (0, 0);
    }
}

} // verus!

