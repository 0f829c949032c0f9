//! Dimensions of a recurrent atomic unit.

use vstd::prelude::*;

verus! {

/// Dimensions of a recurrent atomic unit: an input projection, a recurrent
/// layer with a gate over the doubled hidden state, and an output projection.
#[derive(Clone, Debug)]
pub struct AtomicConfig {
    /// Width of the input.
    pub input_dim: usize,
    /// Width of the hidden state.
    pub hidden_dim: usize,
    /// Width of the output.
    pub output_dim: usize,
    /// Number of recurrent iterations.
    pub iterations: usize,
}

/// Number of weights and biases of a unit with input width `i`, hidden width
/// `h` and output width `o`: the four dense layers, each with its bias.
pub open spec fn param_total(i: int, h: int, o: int) -> int {
    (i * h + h) + (h * h + h) + (2 * h * h + h) + (h * o + o)
}

impl AtomicConfig {
    /// The number that `param_count` returns for these dimensions.
    pub open spec fn spec_param_count(&self) -> int {
        param_total(self.input_dim as int, self.hidden_dim as int, self.output_dim as int)
    }

    /// The tiny configuration: hidden width 16, two iterations.
    pub fn tiny(input: usize, output: usize) -> (cfg: Self)
        ensures
            cfg.input_dim == input,
            cfg.hidden_dim == 16,
            cfg.output_dim == output,
            cfg.iterations == 2,
    {
        AtomicConfig { input_dim: input, hidden_dim: 16, output_dim: output, iterations: 2 }
    }

    /// The small configuration: hidden width 24, two iterations.
    pub fn small(input: usize, output: usize) -> (cfg: Self)
        ensures
            cfg.input_dim == input,
            cfg.hidden_dim == 24,
            cfg.output_dim == output,
            cfg.iterations == 2,
    {
        AtomicConfig { input_dim: input, hidden_dim: 24, output_dim: output, iterations: 2 }
    }

    /// The unit that compares two embeddings of width `dim`: it takes both
    /// side by side in the tiny configuration and gives one output.
    pub fn compare(dim: usize) -> (cfg: Self)
        requires
            dim * 2 <= usize::MAX,
        ensures
            cfg.input_dim == dim * 2,
            cfg.hidden_dim == 16,
            cfg.output_dim == 1,
            cfg.iterations == 2,
    {
        Self::tiny(dim * 2, 1)
    }

    /// The unit that embeds the difference of two embeddings of width
    /// `dim`: it takes both side by side in the small configuration and
    /// gives an embedding of the same width.
    pub fn diff(dim: usize) -> (cfg: Self)
        requires
            dim * 2 <= usize::MAX,
        ensures
            cfg.input_dim == dim * 2,
            cfg.hidden_dim == 24,
            cfg.output_dim == dim,
            cfg.iterations == 2,
    {
        Self::small(dim * 2, dim)
    }

    /// The unit that merges `n` embeddings of width `dim` into one, in the
    /// small configuration.
    pub fn merge(dim: usize, n: usize) -> (cfg: Self)
        requires
            dim * n <= usize::MAX,
        ensures
            cfg.input_dim == dim * n,
            cfg.hidden_dim == 24,
            cfg.output_dim == dim,
            cfg.iterations == 2,
    {
        Self::small(dim * n, dim)
    }

    /// The unit behind a gate for embeddings of width `dim`: it takes signal
    /// and control side by side in the tiny configuration.
    pub fn gate(dim: usize) -> (cfg: Self)
        requires
            dim * 2 <= usize::MAX,
        ensures
            cfg.input_dim == dim * 2,
            cfg.hidden_dim == 16,
            cfg.output_dim == dim,
            cfg.iterations == 2,
    {
        Self::tiny(dim * 2, dim)
    }

    /// The encoder of a classifier: hidden and output width `hidden`, three
    /// iterations.
    pub fn classifier(input_dim: usize, hidden: usize) -> (cfg: Self)
        ensures
            cfg.input_dim == input_dim,
            cfg.hidden_dim == hidden,
            cfg.output_dim == hidden,
            cfg.iterations == 3,
    {
        AtomicConfig { input_dim, hidden_dim: hidden, output_dim: hidden, iterations: 3 }
    }

    /// Number of parameters of the unit, if the count fits the machine word.
    pub fn checked_param_count(&self) -> (count: Option<usize>)
        ensures
            count is Some <==> self.spec_param_count() <= usize::MAX,
            count matches Some(n) ==> n == self.spec_param_count(),
    {
        let i: usize = self.input_dim;
        let h: usize = self.hidden_dim;
        let o: usize = self.output_dim;
        assert(0 <= i * h && 0 <= h * h && 0 <= h * o) by (nonlinear_arith)
            requires
                0 <= i,
                0 <= h,
                0 <= o,
        ;
        assert(2 * h * h == h * h + h * h) by (nonlinear_arith);
        let ih = i.checked_mul(h)?;
        let hh = h.checked_mul(h)?;
        let ho = h.checked_mul(o)?;
        let w_in = ih.checked_add(h)?;
        let w_rec = hh.checked_add(h)?;
        let w_gate = hh.checked_add(hh)?.checked_add(h)?;
        let w_out = ho.checked_add(o)?;
        w_in.checked_add(w_rec)?.checked_add(w_gate)?.checked_add(w_out)
    }

    /// Number of parameters of the unit. The count has to fit the machine
    /// word; `checked_param_count` tells whether it does.
    pub fn param_count(&self) -> (n: usize)
        requires
            self.spec_param_count() <= usize::MAX,
        ensures
            n == self.spec_param_count(),
    {
        let i: usize = self.input_dim;
        let h: usize = self.hidden_dim;
        let o: usize = self.output_dim;
        assert(0 <= i * h && 0 <= h * h && 0 <= h * o) by (nonlinear_arith)
            requires
                0 <= i,
                0 <= h,
                0 <= o,
        ;
        assert(2 * h * h == h * h + h * h) by (nonlinear_arith);
        (i * h + h) + (h * h + h) + (2 * h * h + h) + (h * o + o)
    }
}

} // verus!
