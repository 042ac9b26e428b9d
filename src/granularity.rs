use vstd::prelude::*;
use vstd::string::StringExecFns;

verus! {

/// The calendar unit to which reading timestamps are truncated for bucketing.
#[derive(Clone, Copy, Debug, PartialEq, Eq, Structural)]
pub enum Granularity {
    Hourly,
    DayOfMonth,
    Monthly,
}

/// The name under which a granularity is written in requests and in the history log.
pub open spec fn granularity_name(g: Granularity) -> Seq<char> {
    match g {
        Granularity::Hourly => "hourly"@,
        Granularity::DayOfMonth => "dayOfMonth"@,
        Granularity::Monthly => "monthly"@,
    }
}

impl Granularity {
    /// The request name of this granularity (`hourly`, `dayOfMonth`, `monthly`).
    pub fn to_string(&self) -> (r: String)
        ensures
            r@ == granularity_name(*self),
    {
        match self {
            Granularity::Hourly => String::from_str("hourly"),
            Granularity::DayOfMonth => String::from_str("dayOfMonth"),
            Granularity::Monthly => String::from_str("monthly"),
        }
    }
}

} // verus!
