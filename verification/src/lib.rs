//! Temperature readings of the hardware sensors of a machine, taken from the
//! report that the `sensors` tool prints.

pub mod chars;
pub mod text;
pub mod lm_sensors;

use vstd::prelude::*;
use vstd::string::StringExecFns;

verus! {

/// The unit in which temperatures are reported.
#[derive(Clone, Copy, Debug, PartialEq, Eq, Structural)]
pub enum TemperatureType {
    Celsius,
    Kelvin,
    Fahrenheit,
}

impl Default for TemperatureType {
    fn default() -> (unit: Self)
        ensures
            unit == TemperatureType::Celsius,
    {
        TemperatureType::Celsius
    }
}

/// The unit that the token `s` names, if it names one. Tokens are matched
/// letter for letter: an upper-case letter names nothing.
pub open spec fn unit_of_token(s: Seq<char>) -> Option<TemperatureType> {
    if s == "fahrenheit"@ || s == "f"@ {
        Some(TemperatureType::Fahrenheit)
    } else if s == "kelvin"@ || s == "k"@ {
        Some(TemperatureType::Kelvin)
    } else if s == "celsius"@ || s == "c"@ {
        Some(TemperatureType::Celsius)
    } else {
        None
    }
}

/// The message for a token `s` that names no unit: the token in quotes,
/// followed by the list of the tokens that do.
pub open spec fn invalid_unit_message(s: Seq<char>) -> Seq<char> {
    "'"@ + s
        + "' is an invalid temperature type, use one of: [kelvin, k, celsius, c, fahrenheit, f]."@
}

impl std::str::FromStr for TemperatureType {
    type Err = String;

    /// Reads a unit from its token.
    fn from_str(s: &str) -> (r: Result<Self, String>)
        ensures
            match unit_of_token(s@) {
                Some(unit) => r == Ok::<TemperatureType, String>(unit),
                None => r is Err && r->Err_0@ == invalid_unit_message(s@),
            },
    {
        if text::equals(s, "fahrenheit") || text::equals(s, "f") {
            Ok(TemperatureType::Fahrenheit)
        } else if text::equals(s, "kelvin") || text::equals(s, "k") {
            Ok(TemperatureType::Kelvin)
        } else if text::equals(s, "celsius") || text::equals(s, "c") {
            Ok(TemperatureType::Celsius)
        } else {
            Err(
                "'".to_owned().concat(s).concat(
                    "' is an invalid temperature type, use one of: [kelvin, k, celsius, c, fahrenheit, f].",
                ),
            )
        }
    }
}

} // verus!
