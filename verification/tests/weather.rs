use weathurber::weather::{
    convert_aqi_to_string, convert_id_to_condition, AqiMain, Conditions, Description, Main, Units,
    Weather,
};

#[test]
fn aqi_classes() {
    assert_eq!(convert_aqi_to_string(1), "Good");
    assert_eq!(convert_aqi_to_string(2), "Fair");
    assert_eq!(convert_aqi_to_string(3), "Moderate");
    assert_eq!(convert_aqi_to_string(4), "Poor");
    assert_eq!(convert_aqi_to_string(5), "Very Poor");
}

#[test]
fn aqi_outside_the_scale_is_the_worst() {
    assert_eq!(convert_aqi_to_string(0), "Very Poor");
    assert_eq!(convert_aqi_to_string(-1), "Very Poor");
    assert_eq!(convert_aqi_to_string(6), "Very Poor");
    assert_eq!(convert_aqi_to_string(i64::MAX), "Very Poor");
    assert_eq!(convert_aqi_to_string(i64::MIN), "Very Poor");
}

#[test]
fn aqi_of_a_report() {
    let report = AqiMain { aqi: 2 };
    assert_eq!(convert_aqi_to_string(report.aqi), "Fair");
}

#[test]
fn clear_and_clouds() {
    assert_eq!(convert_id_to_condition(800), Conditions::Clear);
    assert_eq!(convert_id_to_condition(801), Conditions::Cloudy);
    assert_eq!(convert_id_to_condition(802), Conditions::Cloudy);
    assert_eq!(convert_id_to_condition(803), Conditions::Cloudy);
    assert_eq!(convert_id_to_condition(804), Conditions::Overcast);
    assert_eq!(convert_id_to_condition(805), Conditions::Rainy);
}

#[test]
fn snow_and_storm() {
    assert_eq!(convert_id_to_condition(599), Conditions::Rainy);
    assert_eq!(convert_id_to_condition(600), Conditions::Snow);
    assert_eq!(convert_id_to_condition(622), Conditions::Snow);
    assert_eq!(convert_id_to_condition(699), Conditions::Snow);
    assert_eq!(convert_id_to_condition(199), Conditions::Rainy);
    assert_eq!(convert_id_to_condition(200), Conditions::Storm);
    assert_eq!(convert_id_to_condition(299), Conditions::Storm);
    assert_eq!(convert_id_to_condition(300), Conditions::Rainy);
}

#[test]
fn smoke_and_haze() {
    assert_eq!(convert_id_to_condition(700), Conditions::Haze);
    assert_eq!(convert_id_to_condition(701), Conditions::Haze);
    assert_eq!(convert_id_to_condition(711), Conditions::Smoke);
    assert_eq!(convert_id_to_condition(721), Conditions::Haze);
    assert_eq!(convert_id_to_condition(798), Conditions::Haze);
    assert_eq!(convert_id_to_condition(799), Conditions::Rainy);
}

#[test]
fn every_other_code_is_rain() {
    assert_eq!(convert_id_to_condition(500), Conditions::Rainy);
    assert_eq!(convert_id_to_condition(300), Conditions::Rainy);
    assert_eq!(convert_id_to_condition(0), Conditions::Rainy);
    assert_eq!(convert_id_to_condition(-800), Conditions::Rainy);
    assert_eq!(convert_id_to_condition(i64::MAX), Conditions::Rainy);
    assert_eq!(convert_id_to_condition(i64::MIN), Conditions::Rainy);
}

#[test]
fn condition_of_a_report() {
    let weather = Weather {
        id: 804,
        main: Main::Clouds,
        description: Description::OvercastClouds,
        icon: String::from("04d"),
    };
    assert_eq!(convert_id_to_condition(weather.id), Conditions::Overcast);
    let copy = weather.clone();
    assert_eq!(copy.icon, "04d");
    assert_eq!(copy.main, Main::Clouds);
    assert_eq!(copy.description, Description::OvercastClouds);
}

#[test]
fn units_from_their_names() {
    assert_eq!(Units::from(String::from("metric")), Units::Metric);
    assert_eq!(Units::from(String::from("imperial")), Units::Imperial);
    assert_eq!(Units::from(String::from("standard")), Units::Standard);
}

#[test]
fn units_from_any_other_name_are_standard() {
    assert_eq!(Units::from(String::from("")), Units::Standard);
    assert_eq!(Units::from(String::from("Metric")), Units::Standard);
    assert_eq!(Units::from(String::from("metric ")), Units::Standard);
    assert_eq!(Units::from(String::from("kelvin")), Units::Standard);
}

#[test]
fn units_into() {
    let units: Units = String::from("imperial").into();
    assert_eq!(units, Units::Imperial);
}

#[test]
fn units_names() {
    assert_eq!(Units::Metric.to_string(), "metric");
    assert_eq!(Units::Imperial.to_string(), "imperial");
    assert_eq!(Units::Standard.to_string(), "standard");
    assert_eq!(Units::Metric.as_str(), "metric");
}

#[test]
fn units_named_by_their_name() {
    for units in [Units::Metric, Units::Imperial, Units::Standard] {
        assert_eq!(Units::from(units.to_string()), units);
    }
}
