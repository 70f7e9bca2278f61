use geocoder::text::{parse_decimal_e7, parse_integer, split_text};
use geocoder::{
    load_gazetteer_data, load_postal_data, parse_gazetteer_line, parse_postal_line, Accuracy,
    Date, GeoLocation,
};

#[test]
fn accuracy_codes() {
    assert_eq!(Accuracy::parse("0"), Accuracy::NoLocation);
    assert_eq!(Accuracy::parse("1"), Accuracy::Estimated);
    assert_eq!(Accuracy::parse("3"), Accuracy::SamePostalCodeOtherName);
    assert_eq!(Accuracy::parse("4"), Accuracy::GeonameId);
    assert_eq!(Accuracy::parse("6"), Accuracy::Centroid);
    assert_eq!(Accuracy::parse("zz"), Accuracy::NoAccuracyData);
    assert_eq!(Accuracy::parse("2"), Accuracy::NoAccuracyData);
    assert_eq!(Accuracy::parse(""), Accuracy::NoAccuracyData);
    assert_eq!(Accuracy::parse("06"), Accuracy::NoAccuracyData);
}

#[test]
fn accuracy_ranking_and_text() {
    assert!(Accuracy::NoLocation < Accuracy::NoAccuracyData);
    assert!(Accuracy::GeonameId < Accuracy::Centroid);
    assert!(Accuracy::Estimated.is_weaker_than(&Accuracy::SamePostalCodeOtherName));
    assert!(!Accuracy::Centroid.is_weaker_than(&Accuracy::Centroid));
    assert_eq!(Accuracy::Centroid.rank(), 5);
    assert_eq!(Accuracy::NoLocation.description(), "No location");
    assert_eq!(Accuracy::Centroid.description(), "Postal code area centroid");
    assert_eq!(
        Accuracy::Estimated.description(),
        "Estimated as average from numerically neighbouring postal codes"
    );
}

#[test]
fn postal_line_round_trip() {
    let line = "GB\tCM8\tWitham\tEngland\tENG\tEssex\t11609044\tBraintree District\tE07000067\t51.7923\t0.6298\t6";
    let rec = parse_postal_line(line).unwrap();
    assert_eq!(rec.country_code, "GB");
    assert_eq!(rec.postal_code, "CM8");
    assert_eq!(rec.place_name.as_deref(), Some("Witham"));
    assert_eq!(rec.admin_name1.as_deref(), Some("England"));
    assert_eq!(rec.admin_code1.as_deref(), Some("ENG"));
    assert_eq!(rec.admin_name2.as_deref(), Some("Essex"));
    assert_eq!(rec.admin_code2.as_deref(), Some("11609044"));
    assert_eq!(rec.admin_name3.as_deref(), Some("Braintree District"));
    assert_eq!(rec.admin_code3.as_deref(), Some("E07000067"));
    assert_eq!(rec.geolocation, Some(GeoLocation { latitude: 517_923_000, longitude: 6_298_000 }));
    assert_eq!(rec.accuracy, Accuracy::Centroid);
}

#[test]
fn postal_line_missing_trailing_fields() {
    let rec = parse_postal_line("FR\t75001\tParis 01").unwrap();
    assert_eq!(rec.country_code, "FR");
    assert_eq!(rec.postal_code, "75001");
    assert_eq!(rec.place_name.as_deref(), Some("Paris 01"));
    assert_eq!(rec.admin_name1, None);
    assert_eq!(rec.admin_code3, None);
    assert_eq!(rec.geolocation, None);
    assert_eq!(rec.accuracy, Accuracy::NoAccuracyData);
}

#[test]
fn postal_line_malformed() {
    assert!(parse_postal_line("").is_none());
    assert!(parse_postal_line("GB").is_none());
    assert!(parse_postal_line("\tCM8").is_none());
    assert!(parse_postal_line("GB\tCM8\t\t\t\t\t\t\t\t51.x\t0.6\t1").is_none());
    assert!(parse_postal_line("GB\tCM8\t\t\t\t\t\t\t\t51.5").is_none());
    assert!(parse_postal_line("GB\tCM8\t\t\t\t\t\t\t\t91.0\t0.6\t1").is_none());
    assert!(parse_postal_line("GB\tCM8\t\t\t\t\t\t\t\t-90\t-180\t1").is_some());
}

#[test]
fn postal_load_counts_skipped_lines() {
    let text = "GB\tCM8\tWitham\r\n\nbad line\nGB\tCM9\t\t\t\t\t\t\t\tnorth\twest\nGB\tCO5\n";
    let parsed = load_postal_data(text);
    assert_eq!(parsed.skipped, 2);
    let codes: Vec<&str> = parsed.records.iter().map(|r| r.postal_code.as_str()).collect();
    assert_eq!(codes, vec!["CM8", "CO5"]);
    assert_eq!(parsed.records[0].place_name.as_deref(), Some("Witham"));
    assert_eq!(load_postal_data("").records.len(), 0);
}

#[test]
fn decimal_coordinates() {
    assert_eq!(parse_decimal_e7("51.7923246977375", 900_000_000), Some(517_923_246));
    assert_eq!(parse_decimal_e7("-25.13275", 900_000_000), Some(-251_327_500));
    assert_eq!(parse_decimal_e7("+140.03919", 1_800_000_000), Some(1_400_391_900));
    assert_eq!(parse_decimal_e7("0", 900_000_000), Some(0));
    assert_eq!(parse_decimal_e7("180", 1_800_000_000), Some(1_800_000_000));
    assert_eq!(parse_decimal_e7("180.0000001", 1_800_000_000), None);
    assert_eq!(parse_decimal_e7("9999999999999999999999", 1_800_000_000), None);
    assert_eq!(parse_decimal_e7("1.", 900_000_000), None);
    assert_eq!(parse_decimal_e7(".5", 900_000_000), None);
    assert_eq!(parse_decimal_e7("1.2.3", 900_000_000), None);
    assert_eq!(parse_decimal_e7("", 900_000_000), None);
    assert_eq!(parse_decimal_e7("-", 900_000_000), None);
    assert_eq!(parse_decimal_e7("1e5", 900_000_000), None);
}

#[test]
fn integers() {
    assert_eq!(parse_integer("2643743"), Some(2_643_743));
    assert_eq!(parse_integer("-12"), Some(-12));
    assert_eq!(parse_integer("+7"), Some(7));
    assert_eq!(parse_integer("9223372036854775807"), Some(i64::MAX));
    assert_eq!(parse_integer("-9223372036854775808"), Some(i64::MIN));
    assert_eq!(parse_integer("9223372036854775808"), None);
    assert_eq!(parse_integer(""), None);
    assert_eq!(parse_integer("-"), None);
    assert_eq!(parse_integer("12a"), None);
}

#[test]
fn splitting_keeps_empty_pieces() {
    assert_eq!(split_text("a\t\tb\t", b'\t'), vec!["a", "", "b", ""]);
    assert_eq!(split_text("", b','), vec![""]);
    assert_eq!(split_text("Zürich,Genève", b','), vec!["Zürich", "Genève"]);
}

#[test]
fn gazetteer_line_all_fields() {
    let line = "2643743\tLondon\tLondon\tLondres,Londra,Лондон\t51.50853\t-0.12574\tP\tPPLC\tGB\tUK,EN\tENG\tGLA\tE1\tE2\t8961989\t\t25\tEurope/London\t2024-02-29";
    let g = parse_gazetteer_line(line).unwrap();
    assert_eq!(g.id, 2_643_743);
    assert_eq!(g.name, "London");
    assert_eq!(g.asciiname, "London");
    assert_eq!(g.alternate_names, vec!["Londres", "Londra", "Лондон"]);
    assert_eq!(g.geolocation, Some(GeoLocation { latitude: 515_085_300, longitude: -1_257_400 }));
    assert_eq!(g.feature_class, "P");
    assert_eq!(g.feature_code, "PPLC");
    assert_eq!(g.country_code, "GB");
    assert_eq!(g.alternate_country_codes, vec!["UK", "EN"]);
    assert_eq!(g.admin1_code.as_deref(), Some("ENG"));
    assert_eq!(g.admin2_code.as_deref(), Some("GLA"));
    assert_eq!(g.admin3_code.as_deref(), Some("E1"));
    assert_eq!(g.admin4_code.as_deref(), Some("E2"));
    assert_eq!(g.population, 8_961_989);
    assert_eq!(g.elevation, 0);
    assert_eq!(g.dem, 25);
    assert_eq!(g.timezone, "Europe/London");
    assert_eq!(g.modification_date, Date { year: 2024, month: 2, day: 29 });
}

#[test]
fn gazetteer_line_malformed() {
    let good = "1\tA\tA\t\t1.0\t2.0\tP\tPPL\tGB\t\t\t\t\t\t0\t0\t0\tUTC\t2020-01-01";
    assert!(parse_gazetteer_line(good).is_some());
    assert!(parse_gazetteer_line(&good.replace("2020-01-01", "2021-02-29")).is_none());
    assert!(parse_gazetteer_line(&good.replace("2020-01-01", "yesterday")).is_none());
    assert!(parse_gazetteer_line(&good.replacen("1\t", "x\t", 1)).is_none());
    assert!(parse_gazetteer_line(&good.replace("\tUTC", "\tUTC\t")).is_none());
    assert!(parse_gazetteer_line("1\tA\tA").is_none());
    let parsed = load_gazetteer_data(&format!("{good}\n\nbroken\n{good}\r\n"));
    assert_eq!(parsed.records.len(), 2);
    assert_eq!(parsed.skipped, 1);
}
