//! The names shown to the user tell what they name apart.

use vstd::prelude::*;
use crate::components::{FilterType, PhaseShiftKind};
use crate::iq_file::IqFormat;
use crate::rfdc::{CoarseMixFreq, DecimationFactor, MixerMode, NyquistZone};
use crate::signal::ToneModulation;
use crate::spectrum::{FftWindow, SpectrumDetail};
use crate::text::{numeral, numeral_is_injective};

verus! {

/// Different windows have different names.
pub proof fn windows_have_names_of_their_own(a: FftWindow, b: FftWindow)
    requires
        a.label_text() == b.label_text(),
    ensures
        a == b,
{
    reveal_strlit("Hanning");
    reveal_strlit("Hamming");
    reveal_strlit("Blackman-Harris");
    reveal_strlit("Flat-Top");
    reveal_strlit("Rectangular");
    assert("Hanning"@[2] == 'n' && "Hamming"@[2] == 'm');
    assert("Hanning"@.len() == 7 && "Hamming"@.len() == 7);
    assert("Blackman-Harris"@.len() == 15 && "Flat-Top"@.len() == 8 && "Rectangular"@.len() == 11);
}

/// Different details have different names.
pub proof fn details_have_names_of_their_own(a: SpectrumDetail, b: SpectrumDetail)
    requires
        a.name_text() == b.name_text(),
    ensures
        a == b,
{
    reveal_strlit("Fast");
    reveal_strlit("Balanced");
    reveal_strlit("Fine");
    reveal_strlit("Max");
    assert("Fast"@[1] == 'a' && "Fine"@[1] == 'i');
    assert("Fast"@.len() == 4 && "Balanced"@.len() == 8 && "Fine"@.len() == 4 && "Max"@.len() == 3);
}

/// Different steps of the coarse mixer have different names, and the downward quarter has the name
/// of the upward one behind a minus sign.
pub proof fn steps_have_names_of_their_own(a: CoarseMixFreq, b: CoarseMixFreq)
    ensures
        a.label_text() == b.label_text() ==> a == b,
        CoarseMixFreq::MinusFsOver4.label_text() == seq!['−']
            + CoarseMixFreq::FsOver4.label_text(),
{
    reveal_strlit("Fs/4");
    reveal_strlit("−Fs/4");
    reveal_strlit("Fs/2");
    assert("Fs/4"@.len() == 4 && "−Fs/4"@.len() == 5 && "Fs/2"@.len() == 4);
    assert("Fs/4"@[3] == '4' && "Fs/2"@[3] == '2');
    assert("−Fs/4"@ =~= seq!['−'] + "Fs/4"@);
}

/// Different zones have different names, which say which way round their spectra arrive.
pub proof fn zones_have_names_of_their_own(a: NyquistZone, b: NyquistZone)
    requires
        a.label_text() == b.label_text(),
    ensures
        a == b,
{
    let (x, y) = (a.label_text(), b.label_text());
    reveal_strlit("Zone ");
    let (m, n) = (a.number() as nat, b.number() as nat);
    assert(numeral(m).len() == 1 && numeral(n).len() == 1);
    assert(x[5] == numeral(m)[0] && y[5] == numeral(n)[0]);
    assert(numeral(m) =~= numeral(n));
    numeral_is_injective(m, n);
}

/// The name of a decimation factor is a cross and the factor as a number, so it reads back.
pub proof fn factors_have_names_of_their_own(a: DecimationFactor, b: DecimationFactor)
    requires
        numeral(a.value() as nat) == numeral(b.value() as nat),
    ensures
        a == b,
{
    numeral_is_injective(a.value() as nat, b.value() as nat);
}

/// Different kinds of filter have different names.
pub proof fn filters_have_names_of_their_own(a: FilterType, b: FilterType)
    requires
        a.label_text() == b.label_text(),
    ensures
        a == b,
{
    reveal_strlit("Low-Pass");
    reveal_strlit("High-Pass");
    reveal_strlit("Band-Pass");
    assert("Low-Pass"@[0] == 'L' && "High-Pass"@[0] == 'H' && "Band-Pass"@[0] == 'B');
}

/// Different kinds of phase shifter have different names.
pub proof fn shifters_have_names_of_their_own(a: PhaseShiftKind, b: PhaseShiftKind)
    requires
        a.label_text() == b.label_text(),
    ensures
        a == b,
{
    reveal_strlit("Constant Phase");
    reveal_strlit("True Time Delay");
    assert("Constant Phase"@[0] == 'C' && "True Time Delay"@[0] == 'T');
}

/// Different file formats have different names.
pub proof fn formats_have_names_of_their_own(a: IqFormat, b: IqFormat)
    requires
        a.label_text() == b.label_text(),
    ensures
        a == b,
{
    reveal_strlit("Binary f32 (fc32)");
    reveal_strlit("Binary f64 (fc64)");
    reveal_strlit("Binary i16 (sc16)");
    reveal_strlit("CSV (I, Q)");
    assert("Binary f32 (fc32)"@[8] == '3' && "Binary f64 (fc64)"@[8] == '6');
    assert("Binary i16 (sc16)"@[8] == '1' && "CSV (I, Q)"@[0] == 'C');
    assert("Binary f32 (fc32)"@[0] == 'B' && "Binary f64 (fc64)"@[0] == 'B');
    assert("Binary i16 (sc16)"@[0] == 'B');
}

/// Different kinds of modulation have different names; within a kind a name tells a sweep there and
/// back from one way, and chirped pulses from plain ones.
pub proof fn modulations_have_names_of_their_own(a: ToneModulation, b: ToneModulation)
    requires
        a.label_text() == b.label_text(),
    ensures
        a is Cw <==> b is Cw,
        a is Square <==> b is Square,
        a is Sawtooth <==> b is Sawtooth,
        a is Triangle <==> b is Triangle,
        a is AmModulated <==> b is AmModulated,
        a is FmModulated <==> b is FmModulated,
        a is SweptChirp <==> b is SweptChirp,
        a is PulsedRadar <==> b is PulsedRadar,
        a is FreqHopping <==> b is FreqHopping,
        a is DigitalQpsk <==> b is DigitalQpsk,
        a is SweptChirp && b is SweptChirp ==> a->triangular == b->triangular,
        a is PulsedRadar && b is PulsedRadar ==> (a->chirp_mhz > 0 <==> b->chirp_mhz > 0),
{
    reveal_strlit("CW Carrier");
    reveal_strlit("Square");
    reveal_strlit("Sawtooth");
    reveal_strlit("Triangle");
    reveal_strlit("AM Modulated");
    reveal_strlit("FM Modulated");
    reveal_strlit("FMCW Chirp (triangular)");
    reveal_strlit("FMCW Chirp (sawtooth)");
    reveal_strlit("Pulsed Radar (chirped)");
    reveal_strlit("Pulsed Radar");
    reveal_strlit("Frequency Hopping");
    reveal_strlit("Digital QPSK");
    assert("CW Carrier"@.len() == 10 && "Square"@.len() == 6);
    assert("Sawtooth"@.len() == 8 && "Triangle"@.len() == 8);
    assert("Sawtooth"@[0] == 'S' && "Triangle"@[0] == 'T');
    assert("AM Modulated"@.len() == 12 && "FM Modulated"@.len() == 12);
    assert("Pulsed Radar"@.len() == 12 && "Digital QPSK"@.len() == 12);
    assert("AM Modulated"@[0] == 'A' && "FM Modulated"@[0] == 'F');
    assert("Pulsed Radar"@[0] == 'P' && "Digital QPSK"@[0] == 'D');
    assert("FMCW Chirp (triangular)"@.len() == 23 && "FMCW Chirp (sawtooth)"@.len() == 21);
    assert("Pulsed Radar (chirped)"@.len() == 22 && "Frequency Hopping"@.len() == 17);
}

/// Different modes of the mixer have different names.
pub proof fn mixers_have_names_of_their_own(a: MixerMode, b: MixerMode)
    requires
        a.label_text() == b.label_text(),
    ensures
        a == b,
{
    reveal_strlit("Bypass");
    reveal_strlit("Coarse (");
    reveal_strlit("Fine (NCO)");
    reveal_strlit(")");
    let (x, y) = (a.label_text(), b.label_text());
    assert("Bypass"@[0] == 'B' && "Fine (NCO)"@[0] == 'F' && "Coarse ("@[0] == 'C');
    match (a, b) {
        (MixerMode::CoarseMix(f), MixerMode::CoarseMix(g)) => {
            let (p, q) = (f.label_text(), g.label_text());
            assert(x.len() == 8 + p.len() + 1 && y.len() == 8 + q.len() + 1);
            assert(x.subrange(8, 8 + p.len() as int) =~= p);
            assert(y.subrange(8, 8 + q.len() as int) =~= q);
            steps_have_names_of_their_own(f, g);
        },
        (MixerMode::CoarseMix(f), _) => {
            assert(x[0] == 'C');
        },
        (_, MixerMode::CoarseMix(g)) => {
            assert(y[0] == 'C');
        },
        _ => {},
    }
}

} // verus!
