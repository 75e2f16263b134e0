//! What to say about one line of a diary on a given day.

use crate::anni::{spec_anni_diff, spec_parse, Anniversary};
use crate::date::{Date, Ymd};
use crate::text::{decimal, u32_to_string};
use vstd::prelude::*;
use vstd::string::StringExecFns;

verus! {

/// The sentence about the line `s` on the day `today`: the days that remain
/// and the number of the anniversary where the line is a record that has a
/// next occurrence, and otherwise what went wrong.
pub open spec fn spec_transform(s: Seq<char>, today: Ymd) -> Seq<char> {
    match spec_parse(s) {
        Ok(record) => match spec_anni_diff(record.date, today) {
            Some((which, days)) => decimal(days) + " days till #"@ + decimal(which)
                + " anniversary of ["@ + record.description + "] ("@ + record.date.text() + ")"@,
            None => "Could not find time delta for "@ + s,
        },
        Err(kind) => "Error: "@ + kind.message_text() + " when parsing "@ + s,
    }
}

/// The sentence about the line `s` on the day `today`.
pub fn transform(s: &str, today: &Date) -> (r: String)
    ensures
        r@ == spec_transform(s@, today@),
{
    match Anniversary::try_from(s) {
        Ok(anni) => match anni.anni_diff(*today) {
            Some(diff) => {
                let mut r = u32_to_string(diff.days_till);
                r.append(" days till #");
                r.append(u32_to_string(diff.which_anni).as_str());
                r.append(" anniversary of [");
                r.append(anni.description.as_str());
                r.append("] (");
                r.append(anni.date.to_text().as_str());
                r.append(")");
                r
            },
            None => String::from_str("Could not find time delta for ").concat(s),
        },
        Err(e) => {
            let mut r = String::from_str("Error: ");
            r.append(e.message());
            r.append(" when parsing ");
            r.append(s);
            r
        },
    }
}

} // verus!
