//! Acquisition parameters and display geometry that accompany a volume.

use crate::digits::{decimal, decimal_padded, decimal_signed, ten_to, two_to};
use crate::number::Real;
use crate::text::push_signed;
use vstd::prelude::*;
use vstd::string::StringExecFns;

verus! {

/// The acquisition parameters named in the condition line of an export.
#[derive(Clone, Copy, Debug)]
pub struct AcquisitionOptions {
    /// Code of the condition.
    pub correct: i32,
    /// Length of the analysis window in milliseconds.
    pub window_ms: i32,
    /// Lower edge of the frequency band in hertz.
    pub lower_hz: Real,
    /// Upper edge of the frequency band in hertz.
    pub upper_hz: Real,
}

/// The largest coordinate along each axis, as printed beside the offsets.
#[derive(Clone, Copy, Debug)]
pub struct Geometry {
    pub x_max: Real,
    pub y_max: Real,
    pub z_max: Real,
}

/// The parameters used when no options file is given: condition 350, a
/// window of 650 ms, and the band from 8.0 Hz to 14.0 Hz.
pub open spec fn default_options() -> AcquisitionOptions {
    AcquisitionOptions {
        correct: 350,
        window_ms: 650,
        lower_hz: Real::single(0x4100_0000),
        upper_hz: Real::single(0x4160_0000),
    }
}

impl Default for AcquisitionOptions {
    /// The parameters used when no options file is given.  The band edges
    /// print as `8.0` and `14.0`.
    fn default() -> (r: AcquisitionOptions)
        ensures
            r == default_options(),
            r.lower_hz.fixed_text(1) == "8.0"@,
            r.upper_hz.fixed_text(1) == "14.0"@,
    {
        proof {
            lemma_default_band();
        }
        AcquisitionOptions {
            correct: 350,
            window_ms: 650,
            lower_hz: Real::from_single_bits(0x4100_0000),
            upper_hz: Real::from_single_bits(0x4160_0000),
        }
    }
}

impl AcquisitionOptions {
    /// The condition line: `Correct {correct} : {window_ms} ms
    /// {lower_hz}-{upper_hz} Hz MSBF (TF) q%`, the band edges with one
    /// fraction digit.
    pub open spec fn condition_text(self) -> Seq<char> {
        "Correct "@ + decimal_signed(self.correct as int) + " : "@ + decimal_signed(
            self.window_ms as int,
        ) + " ms "@ + self.lower_hz.fixed_text(1) + "-"@ + self.upper_hz.fixed_text(1)
            + " Hz MSBF (TF) q%"@
    }

    /// Appends the condition line, without a line end.
    pub fn push_condition(&self, out: &mut String)
        ensures
            final(out)@ == old(out)@ + self.condition_text(),
    {
        out.append("Correct ");
        push_signed(out, self.correct as i64);
        out.append(" : ");
        push_signed(out, self.window_ms as i64);
        out.append(" ms ");
        self.lower_hz.push_fixed(out, 1);
        out.append("-");
        self.upper_hz.push_fixed(out, 1);
        out.append(" Hz MSBF (TF) q%");
        proof {
            assert(out@ =~= old(out)@ + self.condition_text());
        }
    }

    /// The condition line as a text of its own.
    pub fn condition_line(&self) -> (line: String)
        ensures
            line@ == self.condition_text(),
    {
        let mut out: String = String::new();
        self.push_condition(&mut out);
        proof {
            assert(Seq::<char>::empty() + self.condition_text() =~= self.condition_text());
        }
        out
    }
}

impl Geometry {
    /// The maxima of the acquisition geometry that the legacy tool was built
    /// for.  They print as `70.000000`, `71.629997` and `77.379997`.
    pub fn legacy() -> (r: Geometry)
        ensures
            r.x_max == Real::single(0x428C_0000),
            r.y_max == Real::single(0x428F_428F),
            r.z_max == Real::single(0x429A_C28F),
            r.x_max.fixed_text(6) == "70.000000"@,
            r.y_max.fixed_text(6) == "71.629997"@,
            r.z_max.fixed_text(6) == "77.379997"@,
    {
        proof {
            lemma_legacy_maxima();
        }
        Geometry {
            x_max: Real::from_single_bits(0x428C_0000),
            y_max: Real::from_single_bits(0x428F_428F),
            z_max: Real::from_single_bits(0x429A_C28F),
        }
    }
}

/// The default band edges print as `8.0` and `14.0`.
pub proof fn lemma_default_band()
    ensures
        Real::single(0x4100_0000).fixed_text(1) == "8.0"@,
        Real::single(0x4160_0000).fixed_text(1) == "14.0"@,
{
    reveal_strlit("8.0");
    reveal_strlit("14.0");
    assert(two_to(20) == 0x10_0000) by {
        reveal_with_fuel(two_to, 21);
    }
    assert(ten_to(1) == 10) by {
        reveal_with_fuel(ten_to, 2);
    }
    let lower = Real::single(0x4100_0000);
    let upper = Real::single(0x4160_0000);
    assert(lower == Real::Finite { negative: false, mantissa: 8388608, exponent: -20i16 });
    assert(upper == Real::Finite { negative: false, mantissa: 14680064, exponent: -20i16 });
    assert(lower.scaled(1) == 80);
    assert(upper.scaled(1) == 140);
    reveal_with_fuel(decimal, 3);
    reveal_with_fuel(decimal_padded, 2);
    assert(decimal(8) =~= seq!['8']);
    assert(decimal(14) =~= seq!['1', '4']);
    assert(decimal_padded(0, 1) =~= seq!['0']);
    assert(lower.fixed_text(1) =~= "8.0"@);
    assert(upper.fixed_text(1) =~= "14.0"@);
}

/// The legacy maxima print as the constants of the legacy header.
pub proof fn lemma_legacy_maxima()
    ensures
        Real::single(0x428C_0000).fixed_text(6) == "70.000000"@,
        Real::single(0x428F_428F).fixed_text(6) == "71.629997"@,
        Real::single(0x429A_C28F).fixed_text(6) == "77.379997"@,
{
    reveal_strlit("70.000000");
    reveal_strlit("71.629997");
    reveal_strlit("77.379997");
    assert(two_to(17) == 0x2_0000) by {
        reveal_with_fuel(two_to, 18);
    }
    assert(ten_to(6) == 1_000_000) by {
        reveal_with_fuel(ten_to, 7);
    }
    let x = Real::single(0x428C_0000);
    let y = Real::single(0x428F_428F);
    let z = Real::single(0x429A_C28F);
    assert(x == Real::Finite { negative: false, mantissa: 9175040, exponent: -17i16 });
    assert(y == Real::Finite { negative: false, mantissa: 9388687, exponent: -17i16 });
    assert(z == Real::Finite { negative: false, mantissa: 10142351, exponent: -17i16 });
    assert(x.scaled(6) == 70_000_000);
    assert(y.scaled(6) == 71_629_997);
    assert(z.scaled(6) == 77_379_997);
    reveal_with_fuel(decimal, 3);
    reveal_with_fuel(decimal_padded, 7);
    assert(decimal(70) =~= seq!['7', '0']);
    assert(decimal(71) =~= seq!['7', '1']);
    assert(decimal(77) =~= seq!['7', '7']);
    assert(decimal_padded(0, 6) =~= seq!['0', '0', '0', '0', '0', '0']);
    assert(decimal_padded(629_997, 6) =~= seq!['6', '2', '9', '9', '9', '7']);
    assert(decimal_padded(379_997, 6) =~= seq!['3', '7', '9', '9', '9', '7']);
    assert(x.fixed_text(6) =~= "70.000000"@);
    assert(y.fixed_text(6) =~= "71.629997"@);
    assert(z.fixed_text(6) =~= "77.379997"@);
}

} // verus!
