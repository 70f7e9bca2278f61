use geocoder::{
    get_nearest_place, get_nearest_place_with_bounding, get_nearest_postcode,
    get_nearest_postcode_with_bounding, get_place_location, get_places_within_radius,
    get_postal_data_within_radius, get_postcode, get_postcode_location,
    get_postcodes_within_radius, is_within_bounding_box, load_gazetteer_data, load_postal_data,
    BoundingBox, Gazetteer, GeoLocation, Located, PostalData, Proximity,
};

const EARTH_RADIUS_M: f64 = 6_371_000.0;

fn e7(deg: f64) -> i64 {
    (deg * 1e7).round() as i64
}

fn loc(lat: f64, lon: f64) -> GeoLocation {
    GeoLocation { latitude: e7(lat), longitude: e7(lon) }
}

fn degrees(v: i64) -> f64 {
    v as f64 / 1e7
}

fn haversine_m(a: &GeoLocation, b: &GeoLocation) -> f64 {
    let (lat1, lat2) = (degrees(a.latitude).to_radians(), degrees(b.latitude).to_radians());
    let d_lat = (degrees(b.latitude) - degrees(a.latitude)).to_radians();
    let d_lon = (degrees(b.longitude) - degrees(a.longitude)).to_radians();
    let h = (d_lat / 2.0).sin().powi(2) + lat1.cos() * lat2.cos() * (d_lon / 2.0).sin().powi(2);
    EARTH_RADIUS_M * 2.0 * h.sqrt().atan2((1.0 - h).sqrt())
}

fn proximity<T: Located>(centre: GeoLocation, records: &[T]) -> Proximity {
    let metres = records
        .iter()
        .map(|r| match r.geolocation() {
            Some(g) => haversine_m(&centre, &g).round() as u64,
            None => 0,
        })
        .collect();
    let cos = (degrees(centre.latitude).to_radians().cos() * 1e6).floor().max(0.0) as u32;
    Proximity { centre, cos_centre_lat: cos, metres }
}

fn witham() -> GeoLocation {
    loc(51.7923246977375, 0.629834723775309)
}

const POSTAL: &str = "GB\tCM3\tChelmsford\tEngland\tENG\tEssex\t11609044\t\t\t51.7420\t0.5950\t4\n\
GB\tCM7\tBraintree\tEngland\tENG\tEssex\t11609044\t\t\t51.8350\t0.6100\t4\n\
GB\tCM8\tWitham\tEngland\tENG\tEssex\t11609044\t\t\t51.7923\t0.6300\t6\n\
GB\tCM8\tWitham\tEngland\tENG\tEssex\t11609044\t\t\t51.7990\t0.6400\t6\n\
GB\tCM9\tMaldon\tEngland\tENG\tEssex\t11609044\t\t\t51.7400\t0.6800\t4\n\
GB\tCM98\tChelmsford\tEngland\tENG\tEssex\t11609044\t\t\t51.7600\t0.6000\t4\n\
GB\tCO5\tColchester\tEngland\tENG\tEssex\t11609044\t\t\t51.8200\t0.7200\t4\n\
GB\tCO6\tColchester\tEngland\tENG\tEssex\t11609044\t\t\t51.8300\t0.6900\t4\n\
GB\tSW1A\tLondon\tEngland\tENG\tGreater London\t11609024\t\t\t51.5010\t-0.1416\t6\n\
GB\tBT1\tBelfast\tNorthern Ireland\tNIR\t\t\t\t\t\t\t\n";

fn postal() -> Vec<PostalData> {
    let parsed = load_postal_data(POSTAL);
    assert_eq!(parsed.skipped, 0);
    parsed.records
}

fn gazetteer_line(id: i64, name: &str, alt: &str, lat: &str, lon: &str) -> String {
    format!(
        "{id}\t{name}\t{name}\t{alt}\t{lat}\t{lon}\tP\tPPL\tGB\t\tENG\t11609044\t\t\t100\t12\t15\tEurope/London\t2020-06-10"
    )
}

fn places() -> Vec<Gazetteer> {
    let text = [
        gazetteer_line(1, "Chelmsford", "Chelmsforde,Chensford", "51.73575", "0.46958"),
        gazetteer_line(2, "Witham Blunts Hall", "", "51.79300", "0.63000"),
        gazetteer_line(3, "Witham", "", "51.80007", "0.64038"),
        gazetteer_line(4, "Wickham Bishops", "", "51.77800", "0.66800"),
        gazetteer_line(5, "White Notley", "", "51.83400", "0.59400"),
        gazetteer_line(6, "Woodham Mortimer", "", "51.71100", "0.63100"),
        gazetteer_line(7, "Edinburgh", "Dun Eideann", "55.95206", "-3.19648"),
        gazetteer_line(8, "Nowhere", "", "", ""),
    ]
    .join("\n");
    let parsed = load_gazetteer_data(&text);
    assert_eq!(parsed.skipped, 0);
    parsed.records
}

#[test]
fn test_get_nearest_postcode() {
    let data = postal();
    let prox = proximity(witham(), &data);
    let nearest = get_nearest_postcode(&prox, &data).unwrap();
    assert_eq!(nearest.postal_code, "CM8");
    assert_eq!(nearest.geolocation, Some(loc(51.7923, 0.63)));
}

#[test]
fn test_get_nearest_postcode_with_bounding() {
    let data = postal();
    let prox = proximity(witham(), &data);
    let nearest = get_nearest_postcode_with_bounding(&prox, &data, 1_000).unwrap();
    assert_eq!(nearest.postal_code, "CM8");
}

#[test]
fn nearest_bounded_absent_when_all_outside_box() {
    let data = postal();
    let far = loc(40.0, -3.7);
    let prox = proximity(far, &data);
    assert!(get_nearest_postcode(&prox, &data).is_some());
    assert!(get_nearest_postcode_with_bounding(&prox, &data, 50_000).is_none());
}

#[test]
fn nearest_ties_go_to_the_first_record() {
    let data = postal();
    let prox = Proximity { centre: witham(), cos_centre_lat: 619_000, metres: vec![5; data.len()] };
    assert_eq!(get_nearest_postcode(&prox, &data).unwrap().postal_code, "CM3");
    let none: Vec<PostalData> = Vec::new();
    let prox = Proximity { centre: witham(), cos_centre_lat: 619_000, metres: Vec::new() };
    assert!(get_nearest_postcode(&prox, &none).is_none());
}

#[test]
fn test_get_postcode_location() {
    let data = postal();
    let location = get_postcode_location("CM8", &data).unwrap();
    assert!((degrees(location.latitude) - 51.7923246977375).abs() < 0.1);
    assert!((degrees(location.longitude) - 0.629834723775309).abs() < 0.1);
    assert_eq!(location, loc(51.7923, 0.63));
    assert!(get_postcode_location("BT1", &data).is_none());
    assert!(get_postcode_location("ZZ9", &data).is_none());
}

#[test]
fn test_get_postcodes_within_radius() {
    let data = postal();
    let prox = proximity(witham(), &data);
    let postcodes = get_postcodes_within_radius(&prox, 10_000, &data);
    assert_eq!(postcodes, vec!["CM3", "CM7", "CM8", "CM9", "CM98", "CO5", "CO6"]);
}

#[test]
fn postcodes_within_radius_drop_only_adjacent_repeats() {
    let mut data = postal();
    let first = data[0].clone();
    data.push(first);
    let prox = proximity(witham(), &data);
    let postcodes = get_postcodes_within_radius(&prox, 10_000, &data);
    assert_eq!(postcodes, vec!["CM3", "CM7", "CM8", "CM9", "CM98", "CO5", "CO6", "CM3"]);
}

#[test]
fn test_get_geonames_within_radius() {
    let data = postal();
    let prox = proximity(witham(), &data);
    let records = get_postal_data_within_radius(&prox, 10_000, &data);
    let codes: Vec<&str> = records.iter().map(|r| r.postal_code.as_str()).collect();
    assert_eq!(codes, vec!["CM3", "CM7", "CM8", "CM8", "CM9", "CM98", "CO5", "CO6"]);
    for r in &records {
        assert!(haversine_m(&witham(), &r.geolocation.unwrap()) <= 10_000.5);
    }
}

#[test]
fn within_radius_grows_with_the_radius() {
    let data = postal();
    let prox = proximity(witham(), &data);
    let small = get_postal_data_within_radius(&prox, 2_000, &data);
    let large = get_postal_data_within_radius(&prox, 100_000, &data);
    assert_eq!(small.len(), 2);
    assert!(small.iter().all(|r| large.contains(r)));
    assert_eq!(large.len(), 9);
}

#[test]
fn within_radius_keeps_exact_duplicates() {
    let mut data = postal();
    let cm8 = data[2].clone();
    data.insert(3, cm8);
    let prox = proximity(witham(), &data);
    let records = get_postal_data_within_radius(&prox, 1_000, &data);
    assert_eq!(records.len(), 2);
    assert_eq!(records[0], records[1]);
}

#[test]
fn test_get_postal_data() {
    let data = postal();
    assert!(!data.is_empty());
    let postcode = get_postcode("SW1A", &data);
    assert!(postcode.is_some());
    let rec = postcode.unwrap();
    assert_eq!(rec, data[8]);
    assert_eq!(rec.place_name.as_deref(), Some("London"));
    let missing = get_postcode("BT1", &data).unwrap();
    assert_eq!(missing.geolocation, None);
    assert!(get_postcode("NOPE", &data).is_none());
}

#[test]
fn test_get_nearest_place() {
    let data = places();
    let prox = proximity(witham(), &data);
    let nearest = get_nearest_place(&prox, &data).unwrap();
    assert_eq!(nearest.name, "Witham Blunts Hall");
}

#[test]
fn test_get_nearest_place_with_bounding() {
    let data = places();
    let prox = proximity(witham(), &data);
    let nearest = get_nearest_place_with_bounding(&prox, &data, 1_000).unwrap();
    assert_eq!(nearest.name, "Witham Blunts Hall");
    let edinburgh = proximity(loc(55.95, -3.19), &data);
    assert_eq!(get_nearest_place_with_bounding(&edinburgh, &data, 1_000).unwrap().id, 7);
    let sea = proximity(loc(54.0, 2.0), &data);
    assert!(get_nearest_place_with_bounding(&sea, &data, 1_000).is_none());
}

#[test]
fn test_get_place_location() {
    let data = places();
    let location = get_place_location("Chelmsford", &data).unwrap();
    assert!((degrees(location.latitude) - 51.735586).abs() < 0.1);
    assert!((degrees(location.longitude) - 0.468549).abs() < 0.1);
    assert_eq!(get_place_location("Chensford", &data), Some(location));
    assert_eq!(get_place_location("Dun Eideann", &data), Some(loc(55.95206, -3.19648)));
    assert_eq!(get_place_location("Nowhere", &data), None);
    assert_eq!(get_place_location("Atlantis", &data), None);
}

#[test]
fn test_get_places_within_radius() {
    let data = places();
    let prox = proximity(witham(), &data);
    let names = get_places_within_radius(&prox, 100_000, &data);
    assert!(names.len() > 1);
    for place in ["Woodham Mortimer", "Witham", "Wickham Bishops", "White Notley"] {
        assert!(names.contains(&place));
    }
    assert!(!names.contains(&"Edinburgh"));
    assert!(!names.contains(&"Nowhere"));
}

#[test]
fn bounding_box_exact_edges() {
    let centre = loc(0.0, 10.0);
    let b = BoundingBox::new(&centre, 111_194, 1_000_000);
    assert_eq!(b, BoundingBox {
        min_lat: -10_000_000,
        max_lat: 10_000_000,
        min_lon: 90_000_000,
        max_lon: 110_000_000,
    });
    let b = BoundingBox::new(&loc(60.0, 0.0), 111_194, 500_000);
    assert_eq!(b.max_lon, 20_000_000);
    assert_eq!(b.max_lat, 610_000_000);
    let pole = BoundingBox::new(&loc(90.0, 0.0), 1, 0);
    assert_eq!(pole.max_lon, 3_600_000_000);
    assert_eq!(BoundingBox::new(&centre, 1, 1_000_000).max_lat, 90);
    assert!(is_within_bounding_box(&loc(0.5, 10.5), &BoundingBox::new(&centre, 111_194, 1_000_000)));
    assert!(is_within_bounding_box(&loc(1.0, 11.0), &BoundingBox::new(&centre, 111_194, 1_000_000)));
    assert!(!is_within_bounding_box(&loc(1.0, 11.1), &BoundingBox::new(&centre, 111_194, 1_000_000)));
}
