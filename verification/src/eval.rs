//! Calibration knobs.

use vstd::prelude::*;

verus! {

/// A parameter the calibration search may move.
#[derive(Debug, Clone, Copy, PartialEq, Eq, Structural)]
pub enum Knob {
    /// Individual target speed, m/s.
    TargetSpeed,
    /// Step frequency, Hz.
    StepFrequency,
    /// Bounce amplitude, m.
    BounceAmplitude,
    /// Bounce waveform asymmetry: the second harmonic of the *displacement*.
    BounceBeta2,
    /// Second harmonic of the accelerometer's step signature, as a ratio.
    Harmonic2,
    /// Third harmonic of it.
    Harmonic3,
}

impl Knob {
    /// Name of the parameter as it appears in the output.
    pub open spec fn name_spec(self) -> Seq<char> {
        match self {
            Knob::TargetSpeed => "target_speed"@,
            Knob::StepFrequency => "step_frequency"@,
            Knob::BounceAmplitude => "bounce_amplitude_m"@,
            Knob::BounceBeta2 => "bounce_beta2"@,
            Knob::Harmonic2 => "harmonic_2_ratio"@,
            Knob::Harmonic3 => "harmonic_3_ratio"@,
        }
    }

    /// Name of the parameter as it appears in the output.
    pub fn name(self) -> (r: &'static str)
        ensures
            r@ == self.name_spec(),
    {
        match self {
            Knob::TargetSpeed => "target_speed",
            Knob::StepFrequency => "step_frequency",
            Knob::BounceAmplitude => "bounce_amplitude_m",
            Knob::BounceBeta2 => "bounce_beta2",
            Knob::Harmonic2 => "harmonic_2_ratio",
            Knob::Harmonic3 => "harmonic_3_ratio",
        }
    }
}

} // verus!
