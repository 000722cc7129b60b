//! The computations behind the package-information display: how old a
//! package is, which coarse age bucket that falls into, and the dependency
//! table padded to a rectangle.

use vstd::prelude::*;

verus! {

/// The magnitude of a signed timestamp.
pub open spec fn abs_of(v: i64) -> int {
    if v >= 0 {
        v as int
    } else {
        -(v as int)
    }
}

/// The age of a package in whole days, from the clock reading `now_secs`
/// and the package's last-modified timestamp.  The caller must not hand in
/// a timestamp whose magnitude lies beyond the clock reading.
pub fn age_days(now_secs: u64, last_modified: i64) -> (days: u64)
    requires
        abs_of(last_modified) <= now_secs,
    ensures
        days == (now_secs - abs_of(last_modified)) / 86400,
{
    let dur: u64 = if last_modified >= 0 {
        last_modified as u64
    } else {
        proof {
            assert(-(last_modified as int) <= u64::MAX);
        }
        (-(last_modified as i128)) as u64
    };
    (now_secs - dur) / 86400
}

/// A coarse description of an age in days, as the display buckets it.
#[derive(Clone, Copy, PartialEq, Eq, Debug)]
pub enum AgeLabel {
    Today,
    Days(u64),
    Months(u64),
    Years(u64),
}

/// The bucket an age in days falls into: today; the day count up to a
/// month; the count of 31-day months up to a year; the count of 365-day
/// years beyond.
pub open spec fn spec_age_label(days: u64) -> AgeLabel {
    if days == 0 {
        AgeLabel::Today
    } else if days <= 31 {
        AgeLabel::Days(days)
    } else if days <= 365 {
        AgeLabel::Months(((days as int) / 31) as u64)
    } else {
        AgeLabel::Years(((days as int) / 365) as u64)
    }
}

/// Buckets an age in days for display.
pub fn age_label(days: u64) -> (r: AgeLabel)
    ensures
        r == spec_age_label(days),
{
    if days == 0 {
        AgeLabel::Today
    } else if days <= 31 {
        AgeLabel::Days(days)
    } else if days <= 365 {
        AgeLabel::Months(days / 31)
    } else {
        AgeLabel::Years(days / 365)
    }
}

/// One row of the dependency table: the runtime, make, optional and check
/// dependency standing at the same position, empty where a column has run
/// out.
#[derive(Clone, PartialEq, Eq, Debug)]
pub struct DepRow {
    pub runtime: String,
    pub make: String,
    pub optional: String,
    pub check: String,
}

/// The string at position `i` of a column, or nothing where the column has
/// run out.
pub open spec fn pad_at(v: Seq<String>, i: int) -> Seq<char> {
    if 0 <= i < v.len() {
        v[i]@
    } else {
        Seq::empty()
    }
}

/// The length of the longest of the four dependency columns.
pub open spec fn max_dep_len(
    dep: Seq<String>,
    mdep: Seq<String>,
    odep: Seq<String>,
    cdep: Seq<String>,
) -> int {
    vstd::math::max(
        vstd::math::max(dep.len() as int, mdep.len() as int),
        vstd::math::max(odep.len() as int, cdep.len() as int),
    )
}

/// Whether a row holds exactly the four padded column entries at position
/// `i`.
pub open spec fn row_matches(
    row: DepRow,
    dep: Seq<String>,
    mdep: Seq<String>,
    odep: Seq<String>,
    cdep: Seq<String>,
    i: int,
) -> bool {
    row.runtime@ == pad_at(dep, i) && row.make@ == pad_at(mdep, i) && row.optional@ == pad_at(
        odep,
        i,
    ) && row.check@ == pad_at(cdep, i)
}

/// Pads the four dependency columns to the length of the longest with empty
/// strings and zips them into rows.
pub fn dep_rows(dep: &Vec<String>, mdep: &Vec<String>, odep: &Vec<String>, cdep: &Vec<String>) -> (r:
    Vec<DepRow>)
    ensures
        r@.len() == max_dep_len(dep@, mdep@, odep@, cdep@),
        forall|i: int|
            0 <= i < r@.len() ==> row_matches(#[trigger] r@[i], dep@, mdep@, odep@, cdep@, i),
{
    let mut max_dep_size = dep.len();
    if mdep.len() > max_dep_size {
        max_dep_size = mdep.len();
    }
    if odep.len() > max_dep_size {
        max_dep_size = odep.len();
    }
    if cdep.len() > max_dep_size {
        max_dep_size = cdep.len();
    }
    let mut rows: Vec<DepRow> = Vec::new();
    for i in 0..max_dep_size
        invariant
            max_dep_size == max_dep_len(dep@, mdep@, odep@, cdep@),
            rows@.len() == i,
            forall|j: int|
                0 <= j < i ==> row_matches(#[trigger] rows@[j], dep@, mdep@, odep@, cdep@, j),
    {
        let runtime = if i < dep.len() {
            dep[i].clone()
        } else {
            String::new()
        };
        let make = if i < mdep.len() {
            mdep[i].clone()
        } else {
            String::new()
        };
        let optional = if i < odep.len() {
            odep[i].clone()
        } else {
            String::new()
        };
        let check = if i < cdep.len() {
            cdep[i].clone()
        } else {
            String::new()
        };
        rows.push(DepRow { runtime, make, optional, check });
        proof {
            assert(row_matches(rows@[i as int], dep@, mdep@, odep@, cdep@, i as int));
        }
    }
    rows
}

} // verus!
