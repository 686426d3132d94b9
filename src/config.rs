//! Session configuration and the sizes derived from it.

use vstd::prelude::*;
use crate::ring::MAX_RING_CAPACITY;

verus! {

/// Fixed for the life of a playback session.
#[derive(Clone, Copy, Debug, PartialEq, Eq, Structural)]
pub struct SessionConfig {
    /// Target end-to-end buffering delay, in milliseconds.
    pub latency_ms: u32,
    /// Frames per channel in one resampler chunk.
    pub chunk_frames: u32,
    /// Frames per second that the output device consumes.
    pub device_rate: u32,
    /// Samples per output frame.
    pub device_channels: u32,
}

/// `x / d` rounded to the nearest integer, halves away from zero.
pub open spec fn round_div(x: nat, d: nat) -> nat
    recommends
        d > 0,
{
    (2 * x + d) / (2 * d)
}

/// `round(latency_ms * rate / 1000)`.
pub open spec fn latency_frames_spec(latency_ms: nat, rate: nat) -> nat {
    round_div(latency_ms * rate, 1000)
}

/// Whole frames of a duration of `nanos` nanoseconds at `rate` frames per
/// second, rounded to the nearest.
pub open spec fn frames_in_spec(nanos: nat, rate: nat) -> nat {
    round_div(nanos * rate, 1_000_000_000)
}

/// Why a playback session cannot start.
#[derive(Clone, Copy, Debug, PartialEq, Eq, Structural)]
pub enum SessionError {
    /// No usable output: the device must run at a positive rate with two
    /// channels.
    DeviceUnavailable,
    /// No resampler chunk, or rings too large to allocate.
    InvalidConfig,
}

impl SessionConfig {
    /// The configuration is usable: a device with frames and channels, and
    /// rings that can be allocated.
    pub open spec fn wf(&self) -> bool {
        &&& self.device_rate > 0
        &&& self.device_channels > 0
        &&& self.chunk_frames > 0
        &&& 2 * latency_frames_spec(self.latency_ms as nat, self.device_rate as nat)
            * self.device_channels <= MAX_RING_CAPACITY
        &&& self.chunk_frames as nat * self.device_channels as nat <= usize::MAX
    }

    pub open spec fn latency_samples_spec(&self) -> nat {
        latency_frames_spec(self.latency_ms as nat, self.device_rate as nat)
            * self.device_channels as nat
    }

    /// Frames that cover the target latency at the device rate.
    pub fn latency_frames(&self) -> (r: u64)
        ensures
            r as nat == latency_frames_spec(self.latency_ms as nat, self.device_rate as nat),
    {
        let a: u128 = self.latency_ms as u128;
        let b: u128 = self.device_rate as u128;
        proof {
            lemma_mul_le(a as nat, b as nat, 0xffff_ffff, 0xffff_ffff);
        }
        let prod: u128 = a * b;
        let q: u128 = (2 * prod + 1000) / 2000;
        assert(q <= prod) by (nonlinear_arith)
            requires
                q == (2 * prod + 1000) / 2000,
        ;
        q as u64
    }

    /// Samples that cover the target latency: latency frames times channels.
    pub fn latency_samples(&self) -> (r: usize)
        requires
            self.wf(),
        ensures
            r as nat == self.latency_samples_spec(),
    {
        let f: u128 = self.latency_frames() as u128;
        let c: u128 = self.device_channels as u128;
        proof {
            lemma_mul_le(f as nat, c as nat, 0xffff_ffff_ffff_ffff, 0xffff_ffff);
            let lf = latency_frames_spec(self.latency_ms as nat, self.device_rate as nat);
            assert(lf * c <= 2 * lf * c) by (nonlinear_arith);
        }
        (f * c) as usize
    }

    /// Capacity of each of the two rings: twice the latency in samples.
    pub fn ring_capacity(&self) -> (r: usize)
        requires
            self.wf(),
        ensures
            r as nat == 2 * self.latency_samples_spec(),
    {
        let s = self.latency_samples();
        proof {
            let f = latency_frames_spec(self.latency_ms as nat, self.device_rate as nat);
            let c = self.device_channels as nat;
            assert(2 * f * c == 2 * (f * c)) by (nonlinear_arith);
        }
        2 * s
    }

    /// Samples in one resampler chunk of interleaved input.
    pub fn chunk_samples(&self, channels: u32) -> (r: u64)
        ensures
            r as nat == self.chunk_frames as nat * channels as nat,
    {
        proof {
            lemma_mul_le(self.chunk_frames as nat, channels as nat, 0xffff_ffff, 0xffff_ffff);
        }
        (self.chunk_frames as u64) * (channels as u64)
    }

    /// How long the worker sleeps after the playback ring refused a sample:
    /// half the target latency, in milliseconds.
    pub fn backoff_ms(&self) -> (r: u32)
        ensures
            r == self.latency_ms / 2,
    {
        self.latency_ms / 2
    }

    /// Checks that a session can start on this configuration.
    pub fn validate(&self) -> (r: Result<(), SessionError>)
        ensures
            r == Err::<(), SessionError>(SessionError::DeviceUnavailable) <==> (self.device_channels
                != 2 || self.device_rate == 0),
            r == Err::<(), SessionError>(SessionError::InvalidConfig) <==> (self.device_channels
                == 2 && self.device_rate > 0 && !self.wf()),
            r is Ok <==> self.wf() && self.device_channels == 2,
    {
        if self.device_channels != 2 || self.device_rate == 0 {
            return Err(SessionError::DeviceUnavailable);
        }
        if self.chunk_frames == 0 {
            return Err(SessionError::InvalidConfig);
        }
        let f: u128 = self.latency_frames() as u128;
        proof {
            lemma_mul_le(f as nat, 2, 0xffff_ffff_ffff_ffff, 2);
            lemma_mul_le(self.chunk_frames as nat, 2, 0xffff_ffff, 2);
        }
        let ring: u128 = 2 * f * 2;
        let chunk: u128 = self.chunk_frames as u128 * 2;
        proof {
            assert(2 * f * 2 == 2 * latency_frames_spec(self.latency_ms as nat, self.device_rate as nat)
                * self.device_channels);
            assert(self.chunk_frames as nat * self.device_channels as nat == self.chunk_frames
                * 2) by (nonlinear_arith)
                requires
                    self.device_channels == 2,
            ;
        }
        if ring > MAX_RING_CAPACITY as u128 || chunk > usize::MAX as u128 {
            return Err(SessionError::InvalidConfig);
        }
        Ok(())
    }
}

/// `a * b <= x * y` when `a <= x` and `b <= y`.
pub proof fn lemma_mul_le(a: nat, b: nat, x: nat, y: nat)
    requires
        a <= x,
        b <= y,
    ensures
        a * b <= x * y,
{
    assert(a * b <= x * y) by (nonlinear_arith)
        requires
            a <= x,
            b <= y,
    ;
}

/// How the sinc resampler interpolates between its precomputed points.
#[derive(Clone, Copy, Debug, PartialEq, Eq, Structural)]
pub enum Interpolation {
    Cubic,
    Linear,
    Nearest,
}

/// The window that weights the sinc kernel.
#[derive(Clone, Copy, Debug, PartialEq, Eq, Structural)]
pub enum KernelWindow {
    Blackman,
    Blackman2,
    BlackmanHarris,
    BlackmanHarris2,
    Hann,
    Hann2,
}

/// Parameters of the band-limited sinc resampler.
#[derive(Clone, Copy, Debug, PartialEq, Eq, Structural)]
pub struct SincSettings {
    /// Taps of the interpolation kernel.
    pub sinc_len: u32,
    /// Cut-off, in thousandths of the lower Nyquist frequency.
    pub cutoff_permille: u32,
    /// Precomputed points between two input samples.
    pub oversampling_factor: u32,
    pub interpolation: Interpolation,
    pub window: KernelWindow,
    /// How far, as a factor, the ratio may be adjusted while running.
    pub max_relative_ratio: u32,
}

impl SincSettings {
    /// A 256-tap Blackman-Harris-weighted kernel, oversampled 256 times,
    /// cut off at 0.95 of the lower Nyquist frequency.
    pub fn transparent() -> (r: SincSettings)
        ensures
            r.sinc_len == 256,
            r.cutoff_permille == 950,
            r.oversampling_factor == 256,
            r.interpolation == Interpolation::Linear,
            r.window == KernelWindow::BlackmanHarris2,
            r.max_relative_ratio == 2,
    {
        SincSettings {
            sinc_len: 256,
            cutoff_permille: 950,
            oversampling_factor: 256,
            interpolation: Interpolation::Linear,
            window: KernelWindow::BlackmanHarris2,
            max_relative_ratio: 2,
        }
    }
}

} // verus!
