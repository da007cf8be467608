//! Configuration: presets, kernel options, reduction and backend.
//!
//! The fast-math and online-softmax switches select cheaper arithmetic on an
//! accelerator. The reference path always computes the precise value, so there
//! they change nothing (see `laws::settings::kernel_tuning_does_not_change_the_result`).

use vstd::prelude::*;
use vstd::arithmetic::power2::pow2;

verus! {

/// Loss reduction over the valid (non-ignored) tokens.
#[derive(Clone, Copy, Debug, PartialEq, Eq, Structural)]
pub enum Reduction {
    /// Divide the cross-entropy and KL sums by the number of non-ignored tokens.
    Mean,
    /// Return the sums themselves.
    Sum,
}

impl Default for Reduction {
    fn default() -> (r: Self)
        ensures
            r == Reduction::Mean,
    {
        Reduction::Mean
    }
}

/// Execution backend selection.
#[derive(Clone, Copy, Debug, PartialEq, Eq, Structural)]
pub enum Backend {
    /// The accelerator where there is one, else the reference path. This library
    /// has no accelerator of its own, so here it means `Cpu`.
    Auto,
    /// The reference path.
    Cpu,
    /// The accelerator. The reference path refuses it.
    Cuda,
}

impl Default for Backend {
    fn default() -> (b: Self)
        ensures
            b == Backend::Auto,
    {
        Backend::Auto
    }
}

/// Preset bundles.
#[derive(Clone, Copy, Debug, PartialEq, Eq, Structural)]
pub enum Profile {
    /// Default, numerically careful settings.
    Balanced,
    /// Fast math: approximate exponentials, native logarithm, reciprocal multiply.
    Fast,
    /// Numerical-reference preset.
    Debug,
}

/// Expert kernel options. Build one directly or with [`KernelConfig::from_profile`].
#[derive(Clone, Copy, Debug, PartialEq)]
pub struct KernelConfig {
    /// Single-read online-softmax scan instead of the three-pass scan.
    pub online_softmax: bool,
    /// Master fast-math switch, which drives `fast_math_exp`, `_log` and `_mul`.
    pub fast_math: bool,
    /// INT8 row-wise compression of the weight gradient.
    pub quantize_grad_weight: bool,
    /// Stochastic (unbiased) rounding in that compression.
    pub stochastic_rounding: bool,
    /// Accumulate the weight gradient in single precision across chunks.
    pub fp32_grad_weight_accumulation: bool,
    /// Largest number of chunks; `None` lets the resolver choose.
    pub max_chunks: Option<usize>,
    /// Largest number of elements per vocabulary tile, a power of two.
    pub max_fused_size: usize,
    /// Seed of the stochastic rounding.
    pub stochastic_seed: Option<u64>,
}

/// Default widest vocabulary tile.
pub const DEFAULT_MAX_FUSED_SIZE: usize = 32768;

/// What [`KernelConfig::validate`] found wrong.
#[derive(Clone, Copy, Debug, PartialEq, Eq, Structural)]
pub enum ConfigError {
    /// `max_fused_size` is not a power of two.
    MaxFusedSize { got: usize },
    /// `max_chunks` is given and is zero.
    MaxChunks { got: usize },
}

/// Whether `n` is one of 1, 2, 4, 8, ...
pub open spec fn power_of_two(n: int) -> bool {
    exists|k: nat| n == #[trigger] pow2(k)
}

impl KernelConfig {
    /// The options of a preset: `Fast` turns fast math on, and that is all in which
    /// the presets differ. Quantization and stochastic rounding are explicit choices.
    pub open spec fn profile_config(profile: Profile) -> KernelConfig {
        KernelConfig {
            online_softmax: false,
            fast_math: profile == Profile::Fast,
            quantize_grad_weight: false,
            stochastic_rounding: false,
            fp32_grad_weight_accumulation: false,
            max_chunks: None,
            max_fused_size: DEFAULT_MAX_FUSED_SIZE,
            stochastic_seed: None,
        }
    }

    /// The first thing wrong with the options, if anything is.
    pub open spec fn config_error(self) -> Option<ConfigError> {
        if !power_of_two(self.max_fused_size as int) {
            Some(ConfigError::MaxFusedSize { got: self.max_fused_size })
        } else if self.max_chunks == Some(0usize) {
            Some(ConfigError::MaxChunks { got: 0 })
        } else {
            None
        }
    }

    /// Build the options of a preset.
    pub fn from_profile(profile: Profile) -> (c: KernelConfig)
        ensures
            c == KernelConfig::profile_config(profile),
    {
        let fast_math = matches!(profile, Profile::Fast);
        KernelConfig {
            online_softmax: false,
            fast_math,
            quantize_grad_weight: false,
            stochastic_rounding: false,
            fp32_grad_weight_accumulation: false,
            max_chunks: None,
            max_fused_size: DEFAULT_MAX_FUSED_SIZE,
            stochastic_seed: None,
        }
    }

    /// Whether the approximate exponential is used.
    pub fn fast_math_exp(&self) -> (b: bool)
        ensures
            b == self.fast_math,
    {
        self.fast_math
    }

    /// Whether the native logarithm is used.
    pub fn fast_math_log(&self) -> (b: bool)
        ensures
            b == self.fast_math,
    {
        self.fast_math
    }

    /// Whether reciprocal-multiply is used in place of division.
    pub fn fast_math_mul(&self) -> (b: bool)
        ensures
            b == self.fast_math,
    {
        self.fast_math
    }

    /// Check the field invariants: the tile width is a power of two, and a limit on
    /// the number of chunks, where there is one, is at least one.
    pub fn validate(&self) -> (r: Result<(), ConfigError>)
        ensures
            r == match self.config_error() {
                Some(e) => Err::<(), ConfigError>(e),
                None => Ok(()),
            },
    {
        if self.max_fused_size < 1 || !is_power_of_two(self.max_fused_size) {
            proof {
                if self.max_fused_size < 1 {
                    lemma_zero_is_no_power();
                }
            }
            return Err(ConfigError::MaxFusedSize { got: self.max_fused_size });
        }
        if let Some(mc) = self.max_chunks {
            if mc < 1 {
                return Err(ConfigError::MaxChunks { got: mc });
            }
        }
        Ok(())
    }
}

impl Default for KernelConfig {
    fn default() -> (c: Self)
        ensures
            c == KernelConfig::profile_config(Profile::Balanced),
    {
        KernelConfig::from_profile(Profile::Balanced)
    }
}

proof fn lemma_zero_is_no_power()
    ensures
        !power_of_two(0),
{
    assert forall|k: nat| #[trigger] pow2(k) != 0 by {
        vstd::arithmetic::power2::lemma_pow2_pos(k);
    }
}

/// An even number is a power of two exactly when its half is.
proof fn lemma_power_of_two_half(n: int)
    requires
        n >= 2,
        n % 2 == 0,
    ensures
        power_of_two(n) == power_of_two(n / 2),
{
    if power_of_two(n) {
        let k = choose|k: nat| n == #[trigger] pow2(k);
        if k == 0 {
            vstd::arithmetic::power2::lemma2_to64();
        } else {
            vstd::arithmetic::power2::lemma_pow2_unfold(k);
            assert(n / 2 == pow2((k - 1) as nat));
        }
    }
    if power_of_two(n / 2) {
        let k = choose|k: nat| n / 2 == #[trigger] pow2(k);
        vstd::arithmetic::power2::lemma_pow2_unfold(k + 1);
        assert(n == pow2(k + 1));
    }
}

/// No odd number but one is a power of two.
proof fn lemma_odd_is_no_power(n: int)
    requires
        n >= 2,
        n % 2 == 1,
    ensures
        !power_of_two(n),
{
    assert forall|k: nat| #[trigger] pow2(k) != n by {
        if k == 0 {
            vstd::arithmetic::power2::lemma2_to64();
        } else {
            vstd::arithmetic::power2::lemma_pow2_unfold(k);
        }
    }
}

/// Clearing the lowest set bit leaves nothing exactly when there is one bit.
proof fn lemma_one_bit(n: u64)
    requires
        n >= 1,
    ensures
        (n & (n - 1) as u64) == 0 <==> power_of_two(n as int),
    decreases n,
{
    if n == 1 {
        vstd::arithmetic::power2::lemma2_to64();
        assert(pow2(0) == 1);
        assert((1u64 & (1u64 - 1) as u64) == 0) by (bit_vector);
    } else if n % 2 == 0 {
        let h: u64 = n / 2;
        lemma_one_bit(h);
        assert((n & (n - 1) as u64) == 0 <==> (h & (h - 1) as u64) == 0) by (bit_vector)
            requires
                n >= 2,
                n % 2 == 0,
                h == n / 2,
        ;
        lemma_power_of_two_half(n as int);
    } else {
        assert((n & (n - 1) as u64) != 0) by (bit_vector)
            requires
                n >= 2,
                n % 2 == 1,
        ;
        lemma_odd_is_no_power(n as int);
    }
}

/// Whether `value` is a power of two (and so positive).
pub fn is_power_of_two(value: usize) -> (b: bool)
    ensures
        b == power_of_two(value as int),
{
    if value == 0 {
        proof {
            lemma_zero_is_no_power();
        }
        return false;
    }
    let n: u64 = value as u64;
    proof {
        lemma_one_bit(n);
    }
    (n & (n - 1)) == 0
}

/// The presets are valid, and differ in `fast_math` alone.
pub proof fn presets_are_valid(profile: Profile)
    ensures
        KernelConfig::profile_config(profile).config_error() is None,
        KernelConfig::profile_config(profile) == (KernelConfig {
            fast_math: profile == Profile::Fast,
            ..KernelConfig::profile_config(Profile::Balanced)
        }),
{
    vstd::arithmetic::power2::lemma2_to64();
    assert(pow2(15) == 32768);
}

} // verus!
