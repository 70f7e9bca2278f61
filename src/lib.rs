//! Nearest, by-name and within-radius lookups over postal and gazetteer records, and the
//! pipeline that reads those records from a country's tab-separated dataset.
pub mod fields;
pub mod gazetteer;
pub mod geolocation;
pub mod postal;
pub mod query;
pub mod records;
pub mod source;
pub mod text;

pub use gazetteer::{load_gazetteer_data, parse_gazetteer_line};
pub use geolocation::{is_within_bounding_box, BoundingBox, GeoLocation};
pub use postal::{load_postal_data, parse_postal_line, Parsed};
pub use query::{
    get_nearest_place, get_nearest_place_with_bounding, get_nearest_postcode,
    get_nearest_postcode_with_bounding, get_place_location, get_places_within_radius,
    get_postal_data_within_radius, get_postcode, get_postcode_location,
    get_postcodes_within_radius, Proximity,
};
pub use records::{Accuracy, Date, Gazetteer, GeoNamesData, Located, PostalData};
pub use source::{
    cache_dirs, get_gazetteer_url, get_os_separator, get_postal_url, plan_download, variant_kind,
    CacheConfig, Data, FetchAction, FetchError, FetchEvent, FetchPlan, FetchState, VariantKind,
};
