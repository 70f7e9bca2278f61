//! The two record kinds of a country's dataset and the accuracy ranking of a postal location.
use crate::geolocation::GeoLocation;
use vstd::prelude::*;

verus! {

/// How a postal record's location was derived, from weakest to strongest evidence.
#[derive(Clone, Copy, Debug, PartialEq, Eq, Structural, PartialOrd, Ord, Hash)]
pub enum Accuracy {
    NoLocation,
    NoAccuracyData,
    Estimated,
    SamePostalCodeOtherName,
    GeonameId,
    Centroid,
}

/// The accuracy that a code of the dataset stands for; an unknown code means no accuracy data.
pub open spec fn accuracy_of(code: Seq<char>) -> Accuracy {
    if code == seq!['0'] {
        Accuracy::NoLocation
    } else if code == seq!['1'] {
        Accuracy::Estimated
    } else if code == seq!['3'] {
        Accuracy::SamePostalCodeOtherName
    } else if code == seq!['4'] {
        Accuracy::GeonameId
    } else if code == seq!['6'] {
        Accuracy::Centroid
    } else {
        Accuracy::NoAccuracyData
    }
}

impl Accuracy {
    /// Position in the ranking, weakest first.
    pub open spec fn spec_rank(self) -> nat {
        match self {
            Accuracy::NoLocation => 0,
            Accuracy::NoAccuracyData => 1,
            Accuracy::Estimated => 2,
            Accuracy::SamePostalCodeOtherName => 3,
            Accuracy::GeonameId => 4,
            Accuracy::Centroid => 5,
        }
    }

    pub fn rank(&self) -> (r: u8)
        ensures
            r == self.spec_rank(),
    {
        match self {
            Accuracy::NoLocation => 0,
            Accuracy::NoAccuracyData => 1,
            Accuracy::Estimated => 2,
            Accuracy::SamePostalCodeOtherName => 3,
            Accuracy::GeonameId => 4,
            Accuracy::Centroid => 5,
        }
    }

    /// True when `self` rests on weaker evidence than `other`.
    pub fn is_weaker_than(&self, other: &Accuracy) -> (r: bool)
        ensures
            r == (self.spec_rank() < other.spec_rank()),
    {
        self.rank() < other.rank()
    }

    /// Reads an accuracy code; any code that is not known gives `NoAccuracyData`, never an error.
    pub fn parse(code: &str) -> (r: Accuracy)
        ensures
            r == accuracy_of(code@),
    {
        if code.unicode_len() != 1 {
            return Accuracy::NoAccuracyData;
        }
        let c = code.get_char(0);
        proof {
            assert(code@ == seq![c]);
        }
        if c == '0' {
            Accuracy::NoLocation
        } else if c == '1' {
            Accuracy::Estimated
        } else if c == '3' {
            Accuracy::SamePostalCodeOtherName
        } else if c == '4' {
            Accuracy::GeonameId
        } else if c == '6' {
            Accuracy::Centroid
        } else {
            Accuracy::NoAccuracyData
        }
    }

    /// A sentence that says what the accuracy means.
    pub fn description(&self) -> (r: &'static str)
        ensures
            r@ == match *self {
                Accuracy::Estimated => "Estimated as average from numerically neighbouring postal codes"@,
                Accuracy::SamePostalCodeOtherName => "Same postal code, other name"@,
                Accuracy::GeonameId => "Place name from geoname id"@,
                Accuracy::Centroid => "Postal code area centroid"@,
                Accuracy::NoAccuracyData => "No accuracy data"@,
                Accuracy::NoLocation => "No location"@,
            },
    {
        match self {
            Accuracy::Estimated => "Estimated as average from numerically neighbouring postal codes",
            Accuracy::SamePostalCodeOtherName => "Same postal code, other name",
            Accuracy::GeonameId => "Place name from geoname id",
            Accuracy::Centroid => "Postal code area centroid",
            Accuracy::NoAccuracyData => "No accuracy data",
            Accuracy::NoLocation => "No location",
        }
    }
}

/// One row of a country's postal dataset.
#[derive(Clone, Debug, PartialEq)]
pub struct PostalData {
    /// ISO country code, two characters.
    pub country_code: String,
    /// Postal code, at most twenty characters.
    pub postal_code: String,
    pub place_name: Option<String>,
    /// First-order subdivision (state) and its code.
    pub admin_name1: Option<String>,
    pub admin_code1: Option<String>,
    /// Second-order subdivision (county or province) and its code.
    pub admin_name2: Option<String>,
    pub admin_code2: Option<String>,
    /// Third-order subdivision (community) and its code.
    pub admin_name3: Option<String>,
    pub admin_code3: Option<String>,
    /// Absent when the row has no estimable location.
    pub geolocation: Option<GeoLocation>,
    pub accuracy: Accuracy,
}

/// The name under which earlier releases knew a postal record.
pub type GeoNamesData = PostalData;

/// A calendar date.
#[derive(Clone, Copy, Debug, PartialEq, Eq, Structural)]
pub struct Date {
    pub year: i32,
    pub month: u32,
    pub day: u32,
}

impl Date {
    pub open spec fn wf(&self) -> bool {
        1 <= self.month <= 12 && 1 <= self.day <= 31
    }
}

/// One row of a country's gazetteer (named places and features).
#[derive(Clone, Debug, PartialEq)]
pub struct Gazetteer {
    /// Identifier of the record in the source database.
    pub id: i64,
    pub name: String,
    /// The name in plain ASCII characters.
    pub asciiname: String,
    pub alternate_names: Vec<String>,
    pub geolocation: Option<GeoLocation>,
    pub feature_class: String,
    pub feature_code: String,
    /// ISO country code, two characters.
    pub country_code: String,
    pub alternate_country_codes: Vec<String>,
    pub admin1_code: Option<String>,
    pub admin2_code: Option<String>,
    pub admin3_code: Option<String>,
    pub admin4_code: Option<String>,
    pub population: i64,
    /// Elevation in metres.
    pub elevation: i64,
    /// Average elevation of the surrounding cell of a digital elevation model, in metres.
    pub dem: i64,
    /// Time zone identifier.
    pub timezone: String,
    pub modification_date: Date,
}

/// A record that may carry a location.
pub trait Located {
    spec fn location(&self) -> Option<GeoLocation>;

    fn geolocation(&self) -> (r: Option<GeoLocation>)
        ensures
            r == self.location(),
    ;
}

impl Located for PostalData {
    open spec fn location(&self) -> Option<GeoLocation> {
        self.geolocation
    }

    fn geolocation(&self) -> (r: Option<GeoLocation>) {
        self.geolocation
    }
}

impl Located for Gazetteer {
    open spec fn location(&self) -> Option<GeoLocation> {
        self.geolocation
    }

    fn geolocation(&self) -> (r: Option<GeoLocation>) {
        self.geolocation
    }
}

fn copy_text(s: &Option<String>) -> (r: Option<String>)
    ensures
        r == *s,
{
    match s {
        Some(t) => Some(t.clone()),
        None => None,
    }
}

impl PostalData {
    /// A copy of the record, field by field.
    pub fn duplicate(&self) -> (r: PostalData)
        ensures
            r == *self,
    {
        PostalData {
            country_code: self.country_code.clone(),
            postal_code: self.postal_code.clone(),
            place_name: copy_text(&self.place_name),
            admin_name1: copy_text(&self.admin_name1),
            admin_code1: copy_text(&self.admin_code1),
            admin_name2: copy_text(&self.admin_name2),
            admin_code2: copy_text(&self.admin_code2),
            admin_name3: copy_text(&self.admin_name3),
            admin_code3: copy_text(&self.admin_code3),
            geolocation: self.geolocation,
            accuracy: self.accuracy,
        }
    }
}

} // verus!
