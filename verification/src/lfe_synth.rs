//! The interpolation of the low-frequency-effects channel, over any kind of
//! sample: which samples and coefficients meet in an output sample, and what
//! is carried from one subframe to the next.

use crate::lfe_interp::LfeInterpolationSelection;
use crate::sums::{accumulates, partial_sums};
use vstd::arithmetic::div_mod::*;
use vstd::prelude::*;

verus! {

/// The number of coefficients of an interpolation filter.
pub const LFE_FIR_COEFF_LEN: usize = 512;

/// The number of input samples that are carried from one subframe to the next.
pub const LFE_HISTORY_LEN: usize = 7;

/// What can be wrong with an interpolation call.
#[derive(Debug, Clone, Copy, PartialEq, Eq, Structural)]
#[non_exhaustive]
pub enum LfeInterpError {
    /// The output does not hold the interpolated samples.
    OutputSliceTooShort {
        /// The number of samples that are needed.
        required: usize,
        /// The number of samples that there is room for.
        available: usize,
    },
}

/// What can be wrong with the low-frequency-effects part of a subframe.
#[derive(Debug, Clone, Copy, PartialEq, Eq, Structural)]
#[non_exhaustive]
pub enum LfeChannelError {
    /// The scale index is reserved.
    ReservedScaleIndex {
        /// The offending index.
        index: u8,
    },
    /// The frame has no such channel.
    NoLfeChannel,
}

/// The input sample that lies `tap` samples before sample `j` of a subframe.
/// The samples before the subframe are in the history, the latest first.
pub open spec fn delayed<T>(history: Seq<T>, decimated: Seq<T>, j: int, tap: int) -> T {
    if tap <= j {
        decimated[j - tap]
    } else {
        history[tap - j - 1]
    }
}

/// The pairs of coefficient and input sample that make output sample `i`.
pub open spec fn fir_terms<T>(
    history: Seq<T>,
    decimated: Seq<T>,
    coefficients: Seq<T>,
    selection: LfeInterpolationSelection,
    i: int,
) -> Seq<(T, T)> {
    let factor: int = selection.factor() as int;
    Seq::new(
        selection.taps(),
        |tap: int|
            (
                coefficients[i % factor + tap * factor],
                delayed(history, decimated, i / factor, tap),
            ),
    )
}

/// `samples` are the interpolated samples of a subframe.
pub open spec fn sampled_as<T, F: Fn(T, T, T) -> T>(
    samples: Seq<T>,
    history: Seq<T>,
    silence: T,
    decimated: Seq<T>,
    selection: LfeInterpolationSelection,
    coefficients: Seq<T>,
    mac: F,
) -> bool {
    &&& samples.len() == decimated.len() * selection.factor()
    &&& forall|i: int|
        0 <= i < samples.len() ==> accumulates(
            mac,
            silence,
            fir_terms(history, decimated, coefficients, selection, i),
            #[trigger] samples[i],
        )
}

/// `pcm` are the interpolated samples of a subframe as integers.
pub open spec fn interpolates<T, F: Fn(T, T, T) -> T, G: Fn(T) -> i32>(
    pcm: Seq<i32>,
    history: Seq<T>,
    silence: T,
    decimated: Seq<T>,
    selection: LfeInterpolationSelection,
    coefficients: Seq<T>,
    mac: F,
    to_pcm: G,
) -> bool {
    exists|samples: Seq<T>|
        {
            &&& #[trigger] sampled_as(
                samples,
                history,
                silence,
                decimated,
                selection,
                coefficients,
                mac,
            )
            &&& samples.len() == pcm.len()
            &&& forall|i: int|
                0 <= i < pcm.len() ==> to_pcm.ensures((samples[i],), #[trigger] pcm[i])
        }
}

/// The history behind a subframe: its last `keep` samples, the latest first,
/// filled up from the history before it, and silence behind those.
pub open spec fn advanced<T>(history: Seq<T>, decimated: Seq<T>, keep: int, silence: T) -> Seq<T> {
    Seq::new(
        7,
        |slot: int|
            if slot >= keep {
                silence
            } else if slot < decimated.len() {
                decimated[decimated.len() - 1 - slot]
            } else {
                history[slot - decimated.len()]
            },
    )
}

/// The coefficients of the selected filter.
pub open spec fn table_of<T>(
    selection: LfeInterpolationSelection,
    table64: Seq<T>,
    table128: Seq<T>,
) -> Seq<T> {
    match selection {
        LfeInterpolationSelection::Decimation64 => table64,
        LfeInterpolationSelection::Decimation128 => table128,
    }
}

/// The interpolation filter of one low-frequency-effects channel.
#[derive(Debug, Clone)]
pub struct LfeInterpolator<T> {
    history: [T; 7],
    silence: T,
}

impl<T: Copy> LfeInterpolator<T> {
    /// The carried samples, the latest first.
    pub closed spec fn carried(&self) -> Seq<T> {
        self.history@
    }

    /// The sample that stands for silence.
    pub closed spec fn rest_value(&self) -> T {
        self.silence
    }

    /// A filter without history; `silence` is the zero sample.
    #[must_use]
    pub fn new(silence: T) -> (r: Self)
        ensures
            r.rest_value() == silence,
            r.carried() == Seq::new(7, |i: int| silence),
    {
        let history: [T; 7] = [silence;7];
        assert(history@ =~= Seq::new(7, |i: int| silence));
        LfeInterpolator { history, silence }
    }

    /// The carried samples, the latest first.
    #[must_use]
    pub fn history(&self) -> (r: &[T; 7])
        ensures
            r@ == self.carried(),
    {
        &self.history
    }

    /// Interpolates the samples of one subframe into `output` and carries the
    /// last ones over. `table64` and `table128` are the coefficients of the two
    /// filters, and `mac` takes one product of coefficient and sample into a sum.
    /// Where `output` is too short nothing happens.
    pub fn process<F: Fn(T, T, T) -> T>(
        &mut self,
        decimated: &[T],
        selection: LfeInterpolationSelection,
        table64: &[T],
        table128: &[T],
        mac: F,
        output: &mut [T],
    ) -> (r: Result<usize, LfeInterpError>)
        requires
            table64@.len() == 512,
            table128@.len() == 512,
            decimated@.len() * selection.factor() <= usize::MAX,
            forall|a: T, c: T, s: T| mac.requires((a, c, s)),
        ensures
            final(self).rest_value() == old(self).rest_value(),
            final(output)@.len() == old(output)@.len(),
            match r {
                Ok(n) => {
                    &&& n == decimated@.len() * selection.factor()
                    &&& n <= old(output)@.len()
                    &&& forall|i: int|
                        0 <= i < n ==> accumulates(
                            mac,
                            old(self).rest_value(),
                            fir_terms(
                                old(self).carried(),
                                decimated@,
                                table_of(selection, table64@, table128@),
                                selection,
                                i,
                            ),
                            #[trigger] final(output)@[i],
                        )
                    &&& forall|i: int|
                        n <= i < final(output)@.len() ==> #[trigger] final(output)@[i] == old(
                            output,
                        )@[i]
                    &&& final(self).carried() == advanced(
                        old(self).carried(),
                        decimated@,
                        selection.taps() - 1,
                        old(self).rest_value(),
                    )
                },
                Err(e) => {
                    &&& decimated@.len() * selection.factor() > old(output)@.len()
                    &&& e == (LfeInterpError::OutputSliceTooShort {
                        required: (decimated@.len() * selection.factor()) as usize,
                        available: old(output)@.len() as usize,
                    })
                    &&& final(self).carried() == old(self).carried()
                    &&& final(output)@ == old(output)@
                },
            },
    {
        let coefficients: &[T] = selection.coefficients(table64, table128);
        let factor: usize = selection.decimation_factor() as usize;
        let taps: usize = match selection {
            LfeInterpolationSelection::Decimation64 => LFE_FIR_COEFF_LEN / 64,
            LfeInterpolationSelection::Decimation128 => LFE_FIR_COEFF_LEN / 128,
        };
        let required: usize = decimated.len() * factor;
        if output.len() < required {
            return Err(
                LfeInterpError::OutputSliceTooShort { required, available: output.len() },
            );
        }
        let ghost before: Seq<T> = output@;
        let ghost history: Seq<T> = self.carried();
        let ghost silence: T = self.rest_value();
        let mut i: usize = 0;
        let mut j: usize = 0;
        let mut k: usize = 0;
        while i < required
            invariant
                factor == selection.factor(),
                taps == selection.taps(),
                factor == 64 || factor == 128,
                factor * taps == 512,
                required == decimated@.len() * factor,
                required <= output@.len(),
                output@.len() == before.len(),
                coefficients@.len() == 512,
                self.carried() == history,
                self.rest_value() == silence,
                history.len() == 7,
                forall|a: T, c: T, s: T| mac.requires((a, c, s)),
                i <= required,
                k < factor,
                i == j * factor + k,
                forall|p: int|
                    0 <= p < i ==> accumulates(
                        mac,
                        silence,
                        fir_terms(history, decimated@, coefficients@, selection, p),
                        #[trigger] output@[p],
                    ),
                forall|p: int| i <= p < output@.len() ==> #[trigger] output@[p] == before[p],
            decreases required - i,
        {
            proof {
                lemma_position(i as int, j as int, k as int, factor as int, decimated@.len() as int);
            }
            let sum: T = self.fir_sample(
                decimated,
                coefficients,
                &mac,
                j,
                k,
                factor,
                taps,
                Ghost(selection),
            );
            output[i] = sum;
            i = i + 1;
            if k + 1 < factor {
                k = k + 1;
            } else {
                assert((j + 1) * factor == j * factor + factor) by (nonlinear_arith);
                j = j + 1;
                k = 0;
            }
        }
        self.advance_history(decimated, taps - 1);
        Ok(required)
    }

    /// The interpolated samples of one subframe.
    pub fn process_to_vec<F: Fn(T, T, T) -> T>(
        &mut self,
        decimated: &[T],
        selection: LfeInterpolationSelection,
        table64: &[T],
        table128: &[T],
        mac: F,
    ) -> (r: Vec<T>)
        requires
            table64@.len() == 512,
            table128@.len() == 512,
            decimated@.len() * selection.factor() <= usize::MAX,
            forall|a: T, c: T, s: T| mac.requires((a, c, s)),
        ensures
            final(self).rest_value() == old(self).rest_value(),
            r@.len() == decimated@.len() * selection.factor(),
            forall|i: int|
                0 <= i < r@.len() ==> accumulates(
                    mac,
                    old(self).rest_value(),
                    fir_terms(old(self).carried(), decimated@, table_of(selection, table64@, table128@), selection, i),
                    #[trigger] r@[i],
                ),
            final(self).carried() == advanced(
                old(self).carried(),
                decimated@,
                selection.taps() - 1,
                old(self).rest_value(),
            ),
    {
        let factor: usize = selection.decimation_factor() as usize;
        let required: usize = decimated.len() * factor;
        let mut out: Vec<T> = Vec::new();
        while out.len() < required
            invariant
                out@.len() <= required,
            decreases required - out@.len(),
        {
            out.push(self.silence);
        }
        let _ = self.process(
            decimated,
            selection,
            table64,
            table128,
            mac,
            out.as_mut_slice(),
        );
        out
    }

    /// The interpolated samples of one subframe as integers.
    pub fn interpolate<F: Fn(T, T, T) -> T, G: Fn(T) -> i32>(
        &mut self,
        decimated: &[T],
        selection: LfeInterpolationSelection,
        table64: &[T],
        table128: &[T],
        mac: F,
        to_pcm: G,
    ) -> (r: Vec<i32>)
        requires
            table64@.len() == 512,
            table128@.len() == 512,
            decimated@.len() * selection.factor() <= usize::MAX,
            forall|a: T, c: T, s: T| mac.requires((a, c, s)),
            forall|v: T| to_pcm.requires((v,)),
        ensures
            final(self).rest_value() == old(self).rest_value(),
            interpolates(
                r@,
                old(self).carried(),
                old(self).rest_value(),
                decimated@,
                selection,
                table_of(selection, table64@, table128@),
                mac,
                to_pcm,
            ),
            final(self).carried() == advanced(
                old(self).carried(),
                decimated@,
                selection.taps() - 1,
                old(self).rest_value(),
            ),
    {
        let ghost coefficients: Seq<T> = table_of(selection, table64@, table128@);
        let ghost history: Seq<T> = self.carried();
        let ghost silence: T = self.rest_value();
        let samples: Vec<T> = self.process_to_vec(decimated, selection, table64, table128, mac);
        let mut out: Vec<i32> = Vec::new();
        let mut i: usize = 0;
        while i < samples.len()
            invariant
                i <= samples@.len(),
                samples@.len() == decimated@.len() * selection.factor(),
                forall|v: T| to_pcm.requires((v,)),
                forall|p: int|
                    0 <= p < samples@.len() ==> accumulates(
                        mac,
                        silence,
                        fir_terms(history, decimated@, coefficients, selection, p),
                        #[trigger] samples@[p],
                    ),
                out@.len() == i,
                forall|p: int| 0 <= p < i ==> to_pcm.ensures((samples@[p],), #[trigger] out@[p]),
            decreases samples@.len() - i,
        {
            let v: i32 = to_pcm(samples[i]);
            out.push(v);
            i = i + 1;
        }
        assert(sampled_as(samples@, history, silence, decimated@, selection, coefficients, mac));
        out
    }

    /// The output sample of phase `k` at input sample `j`.
    fn fir_sample<F: Fn(T, T, T) -> T>(
        &self,
        decimated: &[T],
        coefficients: &[T],
        mac: &F,
        j: usize,
        k: usize,
        factor: usize,
        taps: usize,
        Ghost(selection): Ghost<LfeInterpolationSelection>,
    ) -> (r: T)
        requires
            coefficients@.len() == 512,
            factor == selection.factor(),
            taps == selection.taps(),
            factor * taps == 512,
            j < decimated@.len(),
            k < factor,
            j * factor + k <= usize::MAX,
            forall|a: T, c: T, s: T| mac.requires((a, c, s)),
        ensures
            accumulates(
                *mac,
                self.rest_value(),
                fir_terms(
                    self.carried(),
                    decimated@,
                    coefficients@,
                    selection,
                    j * factor + k,
                ),
                r,
            ),
    {
        let ghost i: int = j * factor + k;
        let ghost terms: Seq<(T, T)> = fir_terms(
            self.carried(),
            decimated@,
            coefficients@,
            selection,
            i,
        );
        proof {
            lemma_fundamental_div_mod_converse(i, factor as int, j as int, k as int);
        }
        let mut acc: T = self.silence;
        let mut tap: usize = 0;
        let ghost mut sums: Seq<T> = seq![acc];
        while tap < taps
            invariant
                coefficients@.len() == 512,
                factor == selection.factor(),
                taps == selection.taps(),
                factor == 64 || factor == 128,
                factor * taps == 512,
                j < decimated@.len(),
                k < factor,
                i == j * factor + k,
                i / (factor as int) == j,
                i % (factor as int) == k,
                forall|a: T, c: T, s: T| mac.requires((a, c, s)),
                terms == fir_terms(self.carried(), decimated@, coefficients@, selection, i),
                tap <= taps <= 8,
                partial_sums(*mac, self.rest_value(), terms.subrange(0, tap as int), sums),
                sums.last() == acc,
            decreases taps - tap,
        {
            assert(k + tap * factor < 512) by (nonlinear_arith)
                requires
                    k < factor,
                    tap + 1 <= taps,
                    factor * taps == 512,
            ;
            assert(tap * factor <= 512) by (nonlinear_arith)
                requires
                    tap <= taps,
                    factor * taps == 512,
            ;
            let sample: T = if tap <= j {
                decimated[j - tap]
            } else {
                self.history[tap - j - 1]
            };
            let coefficient: T = coefficients[k + tap * factor];
            let next: T = (*mac)(acc, coefficient, sample);
            proof {
                let done: Seq<(T, T)> = terms.subrange(0, tap + 1);
                let more: Seq<T> = sums.push(next);
                assert(terms[tap as int] == (coefficient, sample));
                assert forall|t: int| 0 <= t < done.len() implies (*mac).ensures(
                    (#[trigger] more[t], done[t].0, done[t].1),
                    more[t + 1],
                ) by {
                    if t < tap {
                        assert(more[t] == sums[t] && more[t + 1] == sums[t + 1]);
                        assert(done[t] == terms.subrange(0, tap as int)[t]);
                    }
                }
                sums = more;
            }
            acc = next;
            tap = tap + 1;
        }
        assert(terms.subrange(0, taps as int) =~= terms);
        assert(partial_sums(*mac, self.rest_value(), terms, sums));
        acc
    }

    /// Carries the last `keep` samples over.
    fn advance_history(&mut self, decimated: &[T], keep: usize)
        requires
            keep <= 7,
        ensures
            final(self).rest_value() == old(self).rest_value(),
            final(self).carried() == advanced(
                old(self).carried(),
                decimated@,
                keep as int,
                old(self).rest_value(),
            ),
    {
        let n: usize = decimated.len();
        let mut next: [T; 7] = [self.silence;7];
        let mut slot: usize = 0;
        while slot < keep
            invariant
                keep <= 7,
                slot <= keep,
                n == decimated@.len(),
                forall|i: int|
                    0 <= i < slot ==> next@[i] == advanced(
                        self.carried(),
                        decimated@,
                        keep as int,
                        self.rest_value(),
                    )[i],
                forall|i: int| slot <= i < 7 ==> next@[i] == self.rest_value(),
            decreases keep - slot,
        {
            next[slot] = if slot < n {
                decimated[n - 1 - slot]
            } else {
                self.history[slot - n]
            };
            slot = slot + 1;
        }
        assert(next@ =~= advanced(
            self.carried(),
            decimated@,
            keep as int,
            self.rest_value(),
        ));
        self.history = next;
    }
}

/// The low-frequency-effects channel of a stream.
#[derive(Debug, Clone)]
pub struct LfeChannel<T> {
    interp: LfeInterpolator<T>,
}

/// `decimated` are the coded samples taken at a scale index.
pub open spec fn dequantizes<T, D: Fn(i8, u8) -> T>(
    dequantize: D,
    coded: Seq<i8>,
    scale_index: u8,
    decimated: Seq<T>,
) -> bool {
    &&& decimated.len() == coded.len()
    &&& forall|i: int|
        0 <= i < coded.len() ==> dequantize.ensures(
            (coded[i], scale_index),
            #[trigger] decimated[i],
        )
}

/// Why the low-frequency-effects part of a subframe cannot be decoded: there is
/// no such channel, or its scale index is one of the reserved ones.
pub open spec fn lfe_error(scale_index: u8, lff: u8) -> Option<LfeChannelError> {
    if lff == 0 {
        Some(LfeChannelError::NoLfeChannel)
    } else if scale_index >= 125 {
        Some(LfeChannelError::ReservedScaleIndex { index: scale_index })
    } else {
        None
    }
}

impl<T: Copy> LfeChannel<T> {
    /// The filter of the channel.
    pub closed spec fn filter(&self) -> LfeInterpolator<T> {
        self.interp
    }

    /// A channel without history; `silence` is the zero sample.
    #[must_use]
    pub fn new(silence: T) -> (r: Self)
        ensures
            r.filter().rest_value() == silence,
            r.filter().carried() == Seq::new(7, |i: int| silence),
    {
        LfeChannel { interp: LfeInterpolator::new(silence) }
    }

    /// The filter of the channel.
    #[must_use]
    pub fn interpolator(&self) -> (r: &LfeInterpolator<T>)
        ensures
            *r == self.filter(),
    {
        &self.interp
    }

    /// The filter that a low-frequency-effects code selects.
    #[must_use]
    pub fn selection_for_lff(lff: u8) -> (r: LfeInterpolationSelection)
        ensures
            r == LfeInterpolationSelection::of_select(lff as int),
    {
        LfeInterpolationSelection::from_decimation_select(lff)
    }

    /// The samples of one subframe: the coded samples taken at a scale index and
    /// interpolated by the filter that `lff` selects. `table64` and `table128`
    /// are the coefficients of the two filters.
    pub fn decode_subframe<D: Fn(i8, u8) -> T, F: Fn(T, T, T) -> T, G: Fn(T) -> i32>(
        &mut self,
        lfe_samples: &[i8],
        scale_index: u8,
        lff: u8,
        table64: &[T],
        table128: &[T],
        dequantize: D,
        mac: F,
        to_pcm: G,
    ) -> (r: Result<Vec<i32>, LfeChannelError>)
        requires
            table64@.len() == 512,
            table128@.len() == 512,
            lfe_samples@.len() * 128 <= usize::MAX,
            forall|c: i8, i: u8| dequantize.requires((c, i)),
            forall|a: T, c: T, s: T| mac.requires((a, c, s)),
            forall|v: T| to_pcm.requires((v,)),
        ensures
            final(self).filter().rest_value() == old(self).filter().rest_value(),
            match r {
                Err(e) => lfe_error(scale_index, lff) == Some(e) && final(self).filter()
                    == old(self).filter(),
                Ok(pcm) => {
                    let selection = LfeInterpolationSelection::of_select(lff as int);
                    let table = table_of(selection, table64@, table128@);
                    &&& lfe_error(scale_index, lff) is None
                    &&& exists|decimated: Seq<T>|
                        {
                            &&& #[trigger] dequantizes(
                                dequantize,
                                lfe_samples@,
                                scale_index,
                                decimated,
                            )
                            &&& interpolates(
                                pcm@,
                                old(self).filter().carried(),
                                old(self).filter().rest_value(),
                                decimated,
                                selection,
                                table,
                                mac,
                                to_pcm,
                            )
                            &&& final(self).filter().carried() == advanced(
                                old(self).filter().carried(),
                                decimated,
                                selection.taps() - 1,
                                old(self).filter().rest_value(),
                            )
                        }
                },
            },
    {
        if lff == 0 {
            return Err(LfeChannelError::NoLfeChannel);
        }
        if scale_index >= 125 {
            return Err(LfeChannelError::ReservedScaleIndex { index: scale_index });
        }
        let mut decimated: Vec<T> = Vec::new();
        let mut i: usize = 0;
        while i < lfe_samples.len()
            invariant
                i <= lfe_samples@.len(),
                forall|c: i8, p: u8| dequantize.requires((c, p)),
                dequantizes(
                    dequantize,
                    lfe_samples@.subrange(0, i as int),
                    scale_index,
                    decimated@,
                ),
            decreases lfe_samples@.len() - i,
        {
            let v: T = dequantize(lfe_samples[i], scale_index);
            decimated.push(v);
            i = i + 1;
        }
        assert(lfe_samples@.subrange(0, i as int) =~= lfe_samples@);
        let selection = Self::selection_for_lff(lff);
        assert(decimated@.len() * selection.factor() <= lfe_samples@.len() * 128)
            by (nonlinear_arith)
            requires
                decimated@.len() == lfe_samples@.len(),
                selection.factor() <= 128,
        ;
        assert(dequantizes(dequantize, lfe_samples@, scale_index, decimated@));
        Ok(
            self.interp.interpolate(
                decimated.as_slice(),
                selection,
                table64,
                table128,
                mac,
                to_pcm,
            ),
        )
    }
}

/// Position `i` inside `n` groups of `factor`.
proof fn lemma_position(i: int, j: int, k: int, factor: int, n: int)
    requires
        0 <= j,
        0 <= k < factor,
        i == j * factor + k,
        i < n * factor,
    ensures
        j < n,
{
    assert(j < n) by (nonlinear_arith)
        requires
            0 <= k < factor,
            j * factor + k < n * factor,
    ;
}

/// A subframe cut in two reads the same input samples as the whole one: behind
/// the first part the history holds what the second part needs.
pub proof fn law_split_subframe_reads_the_same<T>(
    history: Seq<T>,
    first: Seq<T>,
    second: Seq<T>,
    selection: LfeInterpolationSelection,
    silence: T,
    j: int,
    tap: int,
)
    requires
        history.len() == 7,
        0 <= j < second.len(),
        0 <= tap < selection.taps(),
    ensures
        delayed(advanced(history, first, selection.taps() - 1, silence), second, j, tap)
            == delayed(history, first + second, first.len() + j, tap),
{
}

/// Carrying over two parts of a subframe one after the other carries over the
/// whole.
pub proof fn law_split_subframe_carries_the_same<T>(
    history: Seq<T>,
    first: Seq<T>,
    second: Seq<T>,
    selection: LfeInterpolationSelection,
    silence: T,
)
    requires
        history.len() == 7,
    ensures
        advanced(
            advanced(history, first, selection.taps() - 1, silence),
            second,
            selection.taps() - 1,
            silence,
        ) == advanced(history, first + second, selection.taps() - 1, silence),
{
    let keep: int = selection.taps() - 1;
    assert(advanced(advanced(history, first, keep, silence), second, keep, silence) =~= advanced(
        history,
        first + second,
        keep,
        silence,
    ));
}

/// The convolution of the coefficients of a phase with the samples up to sample `j`, of
/// which those before the subframe are in the history, the latest first: the products
/// of the first `taps` of them.
pub open spec fn convolved(
    history: Seq<i64>,
    decimated: Seq<i64>,
    coefficients: Seq<i64>,
    factor: int,
    j: int,
    phase: int,
    taps: nat,
) -> int
    decreases taps,
{
    if taps == 0 {
        0
    } else {
        let back: int = taps - 1;
        let sample: i64 = if back <= j {
            decimated[j - back]
        } else {
            history[back - j - 1]
        };
        convolved(history, decimated, coefficients, factor, j, phase, (taps - 1) as nat)
            + coefficients[phase + back * factor] * sample
    }
}

/// With the arithmetic of whole numbers, an interpolated sample is a convolution: output
/// sample `phase` of input sample `j` is the sum over the last 8 input samples, or the
/// last 4 for the 128-fold filter, each times the coefficient of the selected table that
/// lies that many times 64 or 128 behind the phase.
pub proof fn law_interpolated_sample_is_a_convolution<F: Fn(i64, i64, i64) -> i64>(
    mac: F,
    history: Seq<i64>,
    decimated: Seq<i64>,
    table64: Seq<i64>,
    table128: Seq<i64>,
    selection: LfeInterpolationSelection,
    i: int,
    out: i64,
)
    requires
        forall|a: i64, c: i64, s: i64, r: i64| #[trigger]
            mac.ensures((a, c, s), r) ==> r == a + c * s,
        accumulates(
            mac,
            0i64,
            fir_terms(history, decimated, table_of(selection, table64, table128), selection, i),
            out,
        ),
        0 <= i,
    ensures
        selection == LfeInterpolationSelection::Decimation64 ==> out == convolved(
            history,
            decimated,
            table64,
            64,
            i / 64,
            i % 64,
            8,
        ),
        selection == LfeInterpolationSelection::Decimation128 ==> out == convolved(
            history,
            decimated,
            table128,
            128,
            i / 128,
            i % 128,
            4,
        ),
{
    let factor: int = selection.factor() as int;
    let table: Seq<i64> = table_of(selection, table64, table128);
    let j: int = i / factor;
    let phase: int = i % factor;
    assert(factor == 64 || factor == 128);
    assert(i == factor * j + phase);
    let terms: Seq<(i64, i64)> = fir_terms(history, decimated, table, selection, i);
    let sums: Seq<i64> = choose|sums: Seq<i64>| #[trigger]
        partial_sums(mac, 0i64, terms, sums) && sums.last() == out;
    lemma_sums_convolve(
        mac,
        history,
        decimated,
        table,
        selection,
        terms,
        sums,
        j,
        phase,
        terms.len(),
    );
}

/// Where samples are turned into integers as they are, sample `i` of a subframe is the
/// convolution at its place, and there are 64 or 128 of them for each input sample.
pub proof fn law_interpolation_is_a_convolution<
    F: Fn(i64, i64, i64) -> i64,
    G: Fn(i64) -> i32,
>(
    mac: F,
    to_pcm: G,
    history: Seq<i64>,
    decimated: Seq<i64>,
    table64: Seq<i64>,
    table128: Seq<i64>,
    selection: LfeInterpolationSelection,
    pcm: Seq<i32>,
    i: int,
)
    requires
        forall|a: i64, c: i64, s: i64, r: i64| #[trigger]
            mac.ensures((a, c, s), r) ==> r == a + c * s,
        forall|x: i64, r: i32| #[trigger] to_pcm.ensures((x,), r) ==> r == x,
        interpolates(
            pcm,
            history,
            0i64,
            decimated,
            selection,
            table_of(selection, table64, table128),
            mac,
            to_pcm,
        ),
        0 <= i < pcm.len(),
    ensures
        selection == LfeInterpolationSelection::Decimation64 ==> pcm.len() == 64 * decimated.len()
            && pcm[i] == convolved(history, decimated, table64, 64, i / 64, i % 64, 8),
        selection == LfeInterpolationSelection::Decimation128 ==> pcm.len() == 128
            * decimated.len() && pcm[i] == convolved(
            history,
            decimated,
            table128,
            128,
            i / 128,
            i % 128,
            4,
        ),
{
    let table: Seq<i64> = table_of(selection, table64, table128);
    let samples: Seq<i64> = choose|samples: Seq<i64>|
        {
            &&& #[trigger] sampled_as(samples, history, 0i64, decimated, selection, table, mac)
            &&& samples.len() == pcm.len()
            &&& forall|i: int|
                0 <= i < pcm.len() ==> to_pcm.ensures((samples[i],), #[trigger] pcm[i])
        };
    assert(accumulates(
        mac,
        0i64,
        fir_terms(history, decimated, table, selection, i),
        samples[i],
    ));
    assert(to_pcm.ensures((samples[i],), pcm[i]));
    law_interpolated_sample_is_a_convolution(
        mac,
        history,
        decimated,
        table64,
        table128,
        selection,
        i,
        samples[i],
    );
}

/// The low-frequency-effects code one selects the 128-fold filter, and every other code
/// the 64-fold one.
pub proof fn law_which_filter_is_selected(code: int)
    ensures
        LfeInterpolationSelection::of_select(code).factor() == (if code == 1 {
            128nat
        } else {
            64nat
        }),
        LfeInterpolationSelection::of_select(code).taps() == (if code == 1 {
            4nat
        } else {
            8nat
        }),
{
}

/// Every coded sample is taken at the scale index of the subframe, in its own place.
pub proof fn law_samples_are_taken_one_by_one<T, D: Fn(i8, u8) -> T>(
    dequantize: D,
    coded: Seq<i8>,
    scale_index: u8,
    decimated: Seq<T>,
    i: int,
)
    requires
        dequantizes(dequantize, coded, scale_index, decimated),
        0 <= i < coded.len(),
    ensures
        decimated.len() == coded.len(),
        dequantize.ensures((coded[i], scale_index), decimated[i]),
{
}

/// The partial sums of the terms of a sample are partial convolutions.
proof fn lemma_sums_convolve<F: Fn(i64, i64, i64) -> i64>(
    mac: F,
    history: Seq<i64>,
    decimated: Seq<i64>,
    coefficients: Seq<i64>,
    selection: LfeInterpolationSelection,
    terms: Seq<(i64, i64)>,
    sums: Seq<i64>,
    j: int,
    phase: int,
    t: nat,
)
    requires
        forall|a: i64, c: i64, s: i64, r: i64| #[trigger]
            mac.ensures((a, c, s), r) ==> r == a + c * s,
        0 <= phase < selection.factor(),
        terms == fir_terms(
            history,
            decimated,
            coefficients,
            selection,
            selection.factor() * j + phase,
        ),
        partial_sums(mac, 0i64, terms, sums),
        t <= terms.len(),
    ensures
        sums[t as int] == convolved(
            history,
            decimated,
            coefficients,
            selection.factor() as int,
            j,
            phase,
            t,
        ),
    decreases t,
{
    let factor: int = selection.factor() as int;
    if t > 0 {
        lemma_sums_convolve(
            mac,
            history,
            decimated,
            coefficients,
            selection,
            terms,
            sums,
            j,
            phase,
            (t - 1) as nat,
        );
        let back: int = t - 1;
        assert((factor * j + phase) / factor == j && (factor * j + phase) % factor == phase) by {
            assert(factor == 64 || factor == 128);
        }
        assert(terms[back].0 == coefficients[phase + back * factor]);
        assert(mac.ensures((sums[back], terms[back].0, terms[back].1), sums[back + 1]));
    }
}

/// The low-frequency-effects part of a subframe is refused exactly where there is no such
/// channel or its scale index is above 124.
pub proof fn law_which_scale_indices_are_reserved(scale_index: u8, lff: u8)
    ensures
        lfe_error(scale_index, lff) is None <==> lff != 0 && scale_index <= 124,
        lff == 0 ==> lfe_error(scale_index, lff) == Some(LfeChannelError::NoLfeChannel),
        lff != 0 && scale_index > 124 ==> lfe_error(scale_index, lff) == Some(
            LfeChannelError::ReservedScaleIndex { index: scale_index },
        ),
{
}

/// The history behind a subframe holds its last samples, the latest first, and behind
/// those the latest of the history before it: three for the 128-fold filter and seven
/// for the other.
pub proof fn law_history_holds_the_latest_samples<T>(
    history: Seq<T>,
    decimated: Seq<T>,
    selection: LfeInterpolationSelection,
    silence: T,
    slot: int,
)
    requires
        0 <= slot < 7,
    ensures
        ({
            let kept: Seq<T> = advanced(history, decimated, selection.taps() - 1, silence);
            let count: int = if selection == LfeInterpolationSelection::Decimation64 {
                7
            } else {
                3
            };
            &&& kept.len() == 7
            &&& slot < count && slot < decimated.len() ==> kept[slot] == decimated[decimated.len()
                - 1 - slot]
            &&& slot < count && slot >= decimated.len() ==> kept[slot] == history[slot
                - decimated.len()]
            &&& slot >= count ==> kept[slot] == silence
        }),
{
}

} // verus!
