//! A data-parallel radix-2 Cooley-Tukey discrete Fourier transform.
//!
//! [`fft`] maps an ordered sequence of complex samples, whose length must be
//! an exact power of two, to the unnormalized forward transform with the
//! negative-exponent sign convention. [`try_fft`] is the checked entry point
//! that rejects any other length before allocating anything. The index
//! arithmetic the butterfly network rests on — the bit-reversal permutation,
//! the per-stage twiddle strides and the pairing of butterfly partners — is
//! verified to stay inside the sequence for every power-of-two length; the
//! complex arithmetic itself is carried out by the `num` crate, and the
//! per-stage parallel maps by `rayon`.

pub mod bits;
mod cpx;
mod par;
pub mod transform;

pub use transform::fft;
pub use transform::try_fft;
