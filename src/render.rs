use vstd::prelude::*;
use vstd::arithmetic::div_mod::lemma_fundamental_div_mod_converse_div;
use vstd::arithmetic::mul::lemma_mul_inequality;

verus! {

/// The device buffer after the render callback: the first
/// `out.len() / channels` whole frames are filled, frame `j` with
/// `samples[j]` on every channel while samples last and with `silence`
/// after; a trailing partial frame keeps what it held.
pub open spec fn render_spec<T>(out: Seq<T>, channels: nat, samples: Seq<T>, silence: T) -> Seq<T> {
    Seq::new(
        out.len(),
        |i: int|
            if i < (out.len() / channels) * channels {
                if i / (channels as int) < samples.len() {
                    samples[i / (channels as int)]
                } else {
                    silence
                }
            } else {
                out[i]
            },
    )
}

/// Fills an interleaved device buffer of `channels` channels from the
/// speaker samples that could be taken from the ring: each sample is
/// repeated on every channel of its frame, and once the samples run out the
/// remaining frames are silent.
pub fn fill_render<T: Copy>(output: &mut [T], channels: usize, samples: &[T], silence: T)
    requires
        channels > 0,
        samples@.len() <= old(output)@.len() / (channels as nat),
    ensures
        final(output)@ == render_spec(old(output)@, channels as nat, samples@, silence),
{
    let ghost start = output@;
    let ghost c = channels as int;
    let len = output.len();
    let frames = len / channels;
    proof {
        vstd::arithmetic::div_mod::lemma_fundamental_div_mod(output@.len() as int, c);
        assert(frames * channels == channels * frames) by (nonlinear_arith);
    }
    let mut j: usize = 0;
    let mut base: usize = 0;
    while j < frames
        invariant
            channels > 0,
            c == channels as int,
            frames == start.len() / (channels as nat),
            frames * channels <= start.len(),
            start.len() == len,
            output@.len() == start.len(),
            j <= frames,
            base == j * channels,
            samples@.len() <= frames,
            forall|k: int|
                0 <= k < base ==> #[trigger] output@[k] == render_spec(start, channels as nat, samples@, silence)[k],
            forall|k: int| base <= k < start.len() ==> #[trigger] output@[k] == start[k],
        decreases frames - j,
    {
        let v = if j < samples.len() {
            samples[j]
        } else {
            silence
        };
        proof {
            lemma_mul_inequality(j as int + 1, frames as int, c);
            assert((j + 1) * channels == base + channels) by (nonlinear_arith)
                requires
                    base == j * channels,
            ;
        }
        let mut t: usize = 0;
        while t < channels
            invariant
                channels > 0,
                c == channels as int,
                frames == start.len() / (channels as nat),
                base + channels <= frames * channels,
                frames * channels <= start.len(),
                start.len() == len,
                output@.len() == start.len(),
                j < frames,
                base == j * channels,
                t <= channels,
                samples@.len() <= frames,
                v == (if j < samples@.len() { samples@[j as int] } else { silence }),
                forall|k: int|
                    0 <= k < base + t ==> #[trigger] output@[k] == render_spec(start, channels as nat, samples@, silence)[k],
                forall|k: int| base + t <= k < start.len() ==> #[trigger] output@[k] == start[k],
            decreases channels - t,
        {
            proof {
                let k = (base + t) as int;
                lemma_fundamental_div_mod_converse_div(k, c, j as int, t as int);
                assert(k < (start.len() / (channels as nat)) * channels);
            }
            output[base + t] = v;
            t = t + 1;
        }
        base = base + channels;
        j = j + 1;
    }
    proof {
        assert(output@ =~= render_spec(start, channels as nat, samples@, silence));
    }
}

} // verus!
