//! The school days on which a plan is published, and where each plan is
//! found.

use vstd::prelude::*;
use vstd::std_specs::convert::TryFromSpecImpl;
use crate::substitutions::Text;

verus! {

/// The weekdays for which a substitution plan is available.
#[derive(Debug, PartialEq, Eq, Clone, Copy, Structural)]
pub enum Weekdays {
    Monday,
    Tuesday,
    Wednesday,
    Thursday,
    Friday,
}

/// The school day that follows the given one; after Friday comes Monday.
pub open spec fn day_after(day: Weekdays) -> Weekdays {
    match day {
        Weekdays::Monday => Weekdays::Tuesday,
        Weekdays::Tuesday => Weekdays::Wednesday,
        Weekdays::Wednesday => Weekdays::Thursday,
        Weekdays::Thursday => Weekdays::Friday,
        Weekdays::Friday => Weekdays::Monday,
    }
}

/// The position of a school day in the week, Monday being 0.
pub open spec fn day_index(day: Weekdays) -> int {
    match day {
        Weekdays::Monday => 0,
        Weekdays::Tuesday => 1,
        Weekdays::Wednesday => 2,
        Weekdays::Thursday => 3,
        Weekdays::Friday => 4,
    }
}

/// The school day at a position of the week, if the position is below 5.
pub open spec fn day_at(index: int) -> Option<Weekdays> {
    if index == 0 {
        Some(Weekdays::Monday)
    } else if index == 1 {
        Some(Weekdays::Tuesday)
    } else if index == 2 {
        Some(Weekdays::Wednesday)
    } else if index == 3 {
        Some(Weekdays::Thursday)
    } else if index == 4 {
        Some(Weekdays::Friday)
    } else {
        None
    }
}

/// The English name of a school day.
pub open spec fn day_name(day: Weekdays) -> Text {
    match day {
        Weekdays::Monday => "Monday"@,
        Weekdays::Tuesday => "Tuesday"@,
        Weekdays::Wednesday => "Wednesday"@,
        Weekdays::Thursday => "Thursday"@,
        Weekdays::Friday => "Friday"@,
    }
}

/// The address under which the plan of a school day is published.
pub open spec fn source_url(day: Weekdays) -> Text {
    match day {
        Weekdays::Monday => "https://buessing.schule/plaene/VertretungsplanA4_Montag.pdf"@,
        Weekdays::Tuesday => "https://buessing.schule/plaene/VertretungsplanA4_Dienstag.pdf"@,
        Weekdays::Wednesday => "https://buessing.schule/plaene/VertretungsplanA4_Mittwoch.pdf"@,
        Weekdays::Thursday => "https://buessing.schule/plaene/VertretungsplanA4_Donnerstag.pdf"@,
        Weekdays::Friday => "https://buessing.schule/plaene/VertretungsplanA4_Freitag.pdf"@,
    }
}

/// The school day whose plan is due on a day of the week, given as the
/// number of days since Monday: Tuesday to Friday stand for themselves, every
/// other day for Monday.
pub open spec fn school_day(days_from_monday: int) -> Weekdays {
    if days_from_monday == 1 {
        Weekdays::Tuesday
    } else if days_from_monday == 2 {
        Weekdays::Wednesday
    } else if days_from_monday == 3 {
        Weekdays::Thursday
    } else if days_from_monday == 4 {
        Weekdays::Friday
    } else {
        Weekdays::Monday
    }
}

/// The English name of a school day in lower case.
pub open spec fn lower_day_name(day: Weekdays) -> Text {
    match day {
        Weekdays::Monday => "monday"@,
        Weekdays::Tuesday => "tuesday"@,
        Weekdays::Wednesday => "wednesday"@,
        Weekdays::Thursday => "thursday"@,
        Weekdays::Friday => "friday"@,
    }
}

/// The edit distance of two texts, as the function `levenshtein` of the
/// crate of that name counts it over their characters.
pub uninterp spec fn edit_distance(a: Seq<char>, b: Seq<char>) -> nat;

/// `levenshtein::levenshtein` counts the edits that turn one text into the
/// other; the result is named [`edit_distance`].
pub assume_specification[ levenshtein::levenshtein ](a: &str, b: &str) -> (distance: usize)
    ensures
        distance == edit_distance(a@, b@),
;

/// A character with the letters `A` to `Z` put in lower case.
pub open spec fn lower_char(c: char) -> char {
    if 'A' <= c <= 'Z' {
        ((c as u8) + 32) as char
    } else {
        c
    }
}

/// A text with the letters `A` to `Z` put in lower case.
pub open spec fn ascii_lowercase(text: Text) -> Text {
    Seq::new(text.len(), |i: int| lower_char(text[i]))
}

/// `str::to_ascii_lowercase` copies a text and puts the letters `A` to `Z`
/// in lower case; every other character stays as it is.
pub assume_specification[ str::to_ascii_lowercase ](text: &str) -> (lower: String)
    ensures
        lower@ == ascii_lowercase(text@),
;

/// The first position among the first `count` distances that holds the
/// least of them.
pub open spec fn least_index(distances: Seq<usize>, count: int) -> int
    decreases count,
{
    if count <= 1 {
        0
    } else {
        let best = least_index(distances, count - 1);
        if distances[count - 1] < distances[best] {
            count - 1
        } else {
            best
        }
    }
}

/// The school day that five distances point to, one distance per day from
/// Monday on: the day with the least distance, the earliest of them where
/// several have it, if that distance is below 5; else none.
pub open spec fn nearest_day(distances: Seq<usize>) -> Result<Weekdays, ()> {
    let best = least_index(distances, 5);
    if distances[best] < 5 {
        match day_at(best) {
            Some(day) => Ok(day),
            None => Err(()),
        }
    } else {
        Err(())
    }
}

/// The distances of a name to the lower-case names of the five school days.
pub open spec fn name_distances(name: Text) -> Seq<usize> {
    seq![
        edit_distance(name, lower_day_name(Weekdays::Monday)) as usize,
        edit_distance(name, lower_day_name(Weekdays::Tuesday)) as usize,
        edit_distance(name, lower_day_name(Weekdays::Wednesday)) as usize,
        edit_distance(name, lower_day_name(Weekdays::Thursday)) as usize,
        edit_distance(name, lower_day_name(Weekdays::Friday)) as usize,
    ]
}

impl Weekdays {
    /// The English name of this day in lower case.
    pub fn lower_name(self) -> (name: &'static str)
        ensures
            name@ == lower_day_name(self),
    {
        match self {
            Weekdays::Monday => "monday",
            Weekdays::Tuesday => "tuesday",
            Weekdays::Wednesday => "wednesday",
            Weekdays::Thursday => "thursday",
            Weekdays::Friday => "friday",
        }
    }

    /// The school day that five distances point to: see [`nearest_day`].
    pub fn nearest(distances: &[usize; 5]) -> (outcome: Result<Self, ()>)
        ensures
            outcome == nearest_day(distances@),
    {
        let mut best: usize = 0;
        let mut i: usize = 1;
        while i < 5
            invariant
                1 <= i <= 5,
                best < i,
                best == least_index(distances@, i as int),
            decreases 5 - i,
        {
            if distances[i] < distances[best] {
                best = i;
            }
            i += 1;
        }
        if distances[best] < 5 {
            if best == 0 {
                Ok(Weekdays::Monday)
            } else if best == 1 {
                Ok(Weekdays::Tuesday)
            } else if best == 2 {
                Ok(Weekdays::Wednesday)
            } else if best == 3 {
                Ok(Weekdays::Thursday)
            } else {
                Ok(Weekdays::Friday)
            }
        } else {
            Err(())
        }
    }

    /// The school day that a name stands for, however it is capitalised and
    /// with up to four slips of the pen: the day whose lower-case name is
    /// nearest to the name in lower case, by edit distance.
    pub fn try_from_name(name: &str) -> (outcome: Result<Self, ()>)
        ensures
            outcome == nearest_day(name_distances(ascii_lowercase(name@))),
    {
        let lower = name.to_ascii_lowercase();
        let distances = [
            levenshtein::levenshtein(lower.as_str(), Weekdays::Monday.lower_name()),
            levenshtein::levenshtein(lower.as_str(), Weekdays::Tuesday.lower_name()),
            levenshtein::levenshtein(lower.as_str(), Weekdays::Wednesday.lower_name()),
            levenshtein::levenshtein(lower.as_str(), Weekdays::Thursday.lower_name()),
            levenshtein::levenshtein(lower.as_str(), Weekdays::Friday.lower_name()),
        ];
        assert(distances@ =~= name_distances(lower@));
        Weekdays::nearest(&distances)
    }

    /// The school day that follows this one.
    pub fn next_day(self) -> (next: Self)
        ensures
            next == day_after(self),
    {
        match self {
            Weekdays::Monday => Weekdays::Tuesday,
            Weekdays::Tuesday => Weekdays::Wednesday,
            Weekdays::Wednesday => Weekdays::Thursday,
            Weekdays::Thursday => Weekdays::Friday,
            Weekdays::Friday => Weekdays::Monday,
        }
    }

    /// The position of this day in the week, Monday being 0.
    pub fn index(self) -> (index: usize)
        ensures
            index == day_index(self),
            day_at(index as int) == Some(self),
    {
        match self {
            Weekdays::Monday => 0,
            Weekdays::Tuesday => 1,
            Weekdays::Wednesday => 2,
            Weekdays::Thursday => 3,
            Weekdays::Friday => 4,
        }
    }

    /// The school day whose plan is due on a day of the week, given as the
    /// number of days since Monday.
    pub fn from_days_from_monday(days_from_monday: u32) -> (day: Self)
        ensures
            day == school_day(days_from_monday as int),
    {
        match days_from_monday {
            1 => Weekdays::Tuesday,
            2 => Weekdays::Wednesday,
            3 => Weekdays::Thursday,
            4 => Weekdays::Friday,
            _ => Weekdays::Monday,
        }
    }

    /// The English name of this day.
    pub fn name(self) -> (name: &'static str)
        ensures
            name@ == day_name(self),
    {
        match self {
            Weekdays::Monday => "Monday",
            Weekdays::Tuesday => "Tuesday",
            Weekdays::Wednesday => "Wednesday",
            Weekdays::Thursday => "Thursday",
            Weekdays::Friday => "Friday",
        }
    }

    /// The English name of this day, as an owned string.
    pub fn to_string(&self) -> (name: String)
        ensures
            name@ == day_name(*self),
    {
        self.name().to_owned()
    }

    /// The address under which the plan of this day is published.
    pub fn source_url(self) -> (url: &'static str)
        ensures
            url@ == source_url(self),
    {
        match self {
            Weekdays::Monday => "https://buessing.schule/plaene/VertretungsplanA4_Montag.pdf",
            Weekdays::Tuesday => "https://buessing.schule/plaene/VertretungsplanA4_Dienstag.pdf",
            Weekdays::Wednesday => "https://buessing.schule/plaene/VertretungsplanA4_Mittwoch.pdf",
            Weekdays::Thursday => "https://buessing.schule/plaene/VertretungsplanA4_Donnerstag.pdf",
            Weekdays::Friday => "https://buessing.schule/plaene/VertretungsplanA4_Freitag.pdf",
        }
    }
}

impl TryFrom<u8> for Weekdays {
    type Error = ();

    /// The school day at a position of the week, Monday being 0; an error
    /// for positions from 5 on.
    fn try_from(day: u8) -> (converted: Result<Self, ()>) {
        match day {
            0 => Ok(Weekdays::Monday),
            1 => Ok(Weekdays::Tuesday),
            2 => Ok(Weekdays::Wednesday),
            3 => Ok(Weekdays::Thursday),
            4 => Ok(Weekdays::Friday),
            _ => Err(()),
        }
    }
}

impl TryFromSpecImpl<u8> for Weekdays {
    open spec fn obeys_try_from_spec() -> bool {
        true
    }

    open spec fn try_from_spec(day: u8) -> Result<Self, ()> {
        match day_at(day as int) {
            Some(day) => Ok(day),
            None => Err(()),
        }
    }
}

} // verus!
