//! What the weather service says, in the library's own terms: condition
//! codes, air-quality classes and units of measurement.

use vstd::prelude::*;
use vstd::std_specs::convert::FromSpecImpl;
use vstd::string::StringExecFns;

verus! {

/// The weather conditions that are told apart.
#[derive(Clone, Copy, Debug, PartialEq, Eq, Structural)]
pub enum Conditions {
    Rainy,
    Cloudy,
    Clear,
    Snow,
    Overcast,
    Storm,
    Smoke,
    Haze,
}

/// The system of units that measurements are asked for in.
#[derive(Clone, Copy, Debug, PartialEq, Eq, Structural)]
pub enum Units {
    Metric,
    Imperial,
    Standard,
}

/// One condition of a weather report.
#[derive(Clone, Debug)]
pub struct Weather {
    pub id: i64,
    pub main: Main,
    pub description: Description,
    pub icon: String,
}

/// The description of a condition.
#[derive(Clone, Copy, Debug, PartialEq, Eq, Structural)]
pub enum Description {
    BrokenClouds,
    ClearSky,
    FewClouds,
    LightRain,
    ModerateRain,
    HeavyIntensityRain,
    Mist,
    OvercastClouds,
    ScatteredClouds,
    Haze,
    Smoke,
}

/// The group that a condition belongs to.
#[derive(Clone, Copy, Debug, PartialEq, Eq, Structural)]
pub enum Main {
    Clear,
    Clouds,
    Haze,
    Mist,
    Rain,
    Smoke,
}

/// The air-quality index of a report.
#[derive(Clone, Copy, Debug, PartialEq, Eq, Structural)]
pub struct AqiMain {
    pub aqi: i64,
}

/// The name of an air-quality class: 1 is the best, 4 is poor, and every
/// other index counts as the worst.
pub open spec fn aqi_label(aqi: int) -> Seq<char> {
    if aqi == 1 {
        "Good"@
    } else if aqi == 2 {
        "Fair"@
    } else if aqi == 3 {
        "Moderate"@
    } else if aqi == 4 {
        "Poor"@
    } else {
        "Very Poor"@
    }
}

/// The condition that a condition code stands for: 800 is a clear sky, 801
/// to 803 clouds, 804 an overcast sky; the 600s are snow, the 200s storms;
/// of the codes from 700 to 798, 711 is smoke and the others haze; every
/// other code is rain.
pub open spec fn condition_of(id: int) -> Conditions {
    if id == 800 {
        Conditions::Clear
    } else if 801 <= id <= 803 {
        Conditions::Cloudy
    } else if id == 804 {
        Conditions::Overcast
    } else if 600 <= id <= 699 {
        Conditions::Snow
    } else if 200 <= id <= 299 {
        Conditions::Storm
    } else if id == 711 {
        Conditions::Smoke
    } else if 700 <= id <= 798 {
        Conditions::Haze
    } else {
        Conditions::Rainy
    }
}

/// Names the class of an air-quality index.
pub fn convert_aqi_to_string(aqi: i64) -> (label: String)
    ensures
        label@ == aqi_label(aqi as int),
{
    String::from_str(
        if aqi == 1 {
            "Good"
        } else if aqi == 2 {
            "Fair"
        } else if aqi == 3 {
            "Moderate"
        } else if aqi == 4 {
            "Poor"
        } else {
            "Very Poor"
        },
    )
}

/// Tells the condition that a condition code stands for.
pub fn convert_id_to_condition(current_weather_id: i64) -> (condition: Conditions)
    ensures
        condition == condition_of(current_weather_id as int),
{
    if current_weather_id == 800 {
        Conditions::Clear
    } else if current_weather_id > 800 && current_weather_id < 805 {
        if current_weather_id == 804 {
            Conditions::Overcast
        } else {
            Conditions::Cloudy
        }
    } else if current_weather_id > 599 && current_weather_id < 700 {
        Conditions::Snow
    } else if current_weather_id > 199 && current_weather_id < 300 {
        Conditions::Storm
    } else if current_weather_id > 699 && current_weather_id < 799 {
        if current_weather_id == 711 {
            Conditions::Smoke
        } else {
            Conditions::Haze
        }
    } else {
        Conditions::Rainy
    }
}

impl Units {
    /// The name that the weather service knows the units by.
    pub open spec fn name(self) -> Seq<char> {
        match self {
            Units::Metric => "metric"@,
            Units::Imperial => "imperial"@,
            Units::Standard => "standard"@,
        }
    }

    /// The units that a name asks for: standard units unless it is the name
    /// of the metric or the imperial ones.
    pub open spec fn named(name: Seq<char>) -> Units {
        if name == "metric"@ {
            Units::Metric
        } else if name == "imperial"@ {
            Units::Imperial
        } else {
            Units::Standard
        }
    }

    /// The name of the units.
    pub fn as_str(&self) -> (name: &'static str)
        ensures
            name@ == self.name(),
    {
        match self {
            Units::Metric => "metric",
            Units::Imperial => "imperial",
            Units::Standard => "standard",
        }
    }

    /// The name of the units, as the service's queries spell it.
    pub fn to_string(&self) -> (name: String)
        ensures
            name@ == self.name(),
    {
        String::from_str(self.as_str())
    }

    /// The units named by their own name are themselves.
    pub proof fn lemma_named_by_name(self)
        ensures
            Units::named(self.name()) == self,
    {
        reveal_strlit("metric");
        reveal_strlit("imperial");
        reveal_strlit("standard");
        assert("metric"@.len() == 6);
        assert("imperial"@.len() == 8);
        assert("standard"@[0] == 's');
        assert("imperial"@[0] == 'i');
    }
}

impl From<String> for Units {
    fn from(unit: String) -> (units: Units) {
        if unit == String::from_str("metric") {
            Units::Metric
        } else if unit == String::from_str("imperial") {
            Units::Imperial
        } else {
            Units::Standard
        }
    }
}

impl FromSpecImpl<String> for Units {
    open spec fn obeys_from_spec() -> bool {
        true
    }

    open spec fn from_spec(unit: String) -> Units {
        Units::named(unit@)
    }
}

} // verus!
