//! The vehicle record: five optional fields describing a sighted vehicle.
//! A record is keyed by its normalized plate; an absent field renders as
//! the placeholder token and comes back absent when the rendering is
//! parsed.  The partial-plate record pairs a plate fragment with a record;
//! its `matches` predicate holds when a candidate plate has the fragment
//! somewhere inside it.
use crate::text::{find_first, found_at, lemma_first_at, str_to_chars};
use vstd::prelude::*;

verus! {

/// Mathematical model of a vehicle record: each textual field as a
/// character sequence.
pub ghost struct RecordModel {
    pub reported_in_city: Option<Seq<char>>,
    pub car_brand: Option<Seq<char>>,
    pub car_color: Option<Seq<char>>,
    pub comment: Option<Seq<char>>,
    pub number_of_people: Option<u8>,
}

pub open spec fn opt_view(o: Option<String>) -> Option<Seq<char>> {
    match o {
        Option::Some(s) => Option::Some(s@),
        Option::None => Option::None,
    }
}

#[derive(Debug, Clone, PartialEq)]
pub struct CarInfo {
    pub reported_in_city: Option<String>,
    pub car_brand: Option<String>,
    pub car_color: Option<String>,
    pub comment: Option<String>,
    pub number_of_people: Option<u8>,
}

impl View for CarInfo {
    type V = RecordModel;

    open spec fn view(&self) -> RecordModel {
        RecordModel {
            reported_in_city: opt_view(self.reported_in_city),
            car_brand: opt_view(self.car_brand),
            car_color: opt_view(self.car_color),
            comment: opt_view(self.comment),
            number_of_people: self.number_of_people,
        }
    }
}

/// `sub` occurs somewhere in `s`.
pub open spec fn contains_seq(s: Seq<char>, sub: Seq<char>) -> bool {
    exists|i: int| found_at(s, sub, i)
}

#[derive(Debug, Clone, PartialEq)]
pub struct PartialLicensePlatesCarInfo {
    pub partial_license_plate: String,
    pub car_info: CarInfo,
}

impl PartialLicensePlatesCarInfo {
    /// The candidate plate contains the stored plate fragment.
    pub fn matches(&self, license_plate: &str) -> (r: bool)
        ensures
            r == contains_seq(license_plate@, self.partial_license_plate@),
    {
        let hay = str_to_chars(license_plate);
        let needle = str_to_chars(self.partial_license_plate.as_str());
        if needle.len() == 0 {
            proof {
                assert(license_plate@.subrange(0, 0) =~= self.partial_license_plate@);
                assert(found_at(license_plate@, self.partial_license_plate@, 0));
            }
            return true;
        }
        match find_first(&hay, &needle) {
            Option::Some(i) => {
                proof {
                    lemma_first_at(hay@, needle@);
                    assert(found_at(license_plate@, self.partial_license_plate@, i as int));
                }
                true
            },
            Option::None => {
                proof {
                    lemma_first_at(hay@, needle@);
                }
                false
            },
        }
    }
}

} // verus!
