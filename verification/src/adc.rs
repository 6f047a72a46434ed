//! The DMA transfer loop of the multi-channel ADC scan: which half of the
//! circular buffer a reading goes to.

use vstd::prelude::*;

verus! {

/// The half of the circular DMA buffer that is ready to be read.
#[derive(Clone, Copy, PartialEq, Eq, Structural)]
pub enum AdcHalf {
    First,
    Second,
}

/// Samples of the 8-sample halves of the buffer, as the loop keeps them.
pub type HalfBuffers = [[u16; 8]; 2];

/// Stores the samples of the half that was ready: the first half in slot 0,
/// the second in slot 1. When no half was readable the buffers are kept.
pub fn store_half(buf: HalfBuffers, ready: Option<AdcHalf>, samples: [u16; 8]) -> (out: HalfBuffers)
    ensures
        ready == Some(AdcHalf::First) ==> out@ == buf@.update(0, samples),
        ready == Some(AdcHalf::Second) ==> out@ == buf@.update(1, samples),
        ready is None ==> out@ == buf@,
{
    let mut out = buf;
    match ready {
        Some(AdcHalf::First) => {
            out = [samples, buf[1]];
        },
        Some(AdcHalf::Second) => {
            out = [buf[0], samples];
        },
        None => {},
    }
    proof {
        assert(ready == Some(AdcHalf::First) ==> out@ =~= buf@.update(0, samples));
        assert(ready == Some(AdcHalf::Second) ==> out@ =~= buf@.update(1, samples));
    }
    out
}

} // verus!
