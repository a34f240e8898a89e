use vstd::prelude::*;

verus! {

/// How far back a query reaches.
#[derive(Debug, Clone, Copy, PartialEq, Eq, Structural)]
pub enum Interval {
    /// Up to 2 days ago.
    Day,
    /// Up to 2 weeks ago.
    Week,
    /// Up to 3 months ago.
    Month,
    /// Up to 1 year ago.
    Year,
}

pub open spec fn spec_since(i: Interval) -> Seq<char> {
    match i {
        Interval::Day => "2.day.ago"@,
        Interval::Week => "2.week.ago"@,
        Interval::Month => "3.month.ago"@,
        Interval::Year => "1.year.ago"@,
    }
}

impl Interval {
    /// The start of the interval in public-inbox's date syntax.
    pub fn since(self) -> (r: &'static str)
        ensures
            r@ == spec_since(self),
    {
        match self {
            Interval::Day => "2.day.ago",
            Interval::Week => "2.week.ago",
            Interval::Month => "3.month.ago",
            Interval::Year => "1.year.ago",
        }
    }
}

/// The query `query` restricted to messages received within `interval`.
pub fn query_string(interval: Interval, query: &str) -> (r: String)
    ensures
        r@ == "("@ + query@ + ") AND rt:"@ + spec_since(interval) + ".."@,
{
    let mut q = String::from_str("(");
    q.append(query);
    q.append(") AND rt:");
    q.append(interval.since());
    q.append("..");
    q
}

/// The public inbox queried when none is configured.
pub const DEFAULT_INBOX: &'static str = "https://lore.kernel.org/all/";

/// What to download from a public inbox.
#[derive(Debug)]
pub struct PullCfg {
    /// The server address.
    pub inbox: String,
    /// Whether to fetch whole threads of which one message matched.
    pub threads: bool,
    /// The public-inbox query.
    pub query: String,
}

impl PullCfg {
    pub fn new(interval: Interval, query: &str) -> (r: Self)
        ensures
            r.inbox@ == DEFAULT_INBOX@,
            r.threads,
            r.query@ == "("@ + query@ + ") AND rt:"@ + spec_since(interval) + ".."@,
    {
        PullCfg { inbox: String::from_str(DEFAULT_INBOX), threads: true, query: query_string(interval, query) }
    }
}

/// Downloads through public-inbox's HTTP interface instead of the `lei`
/// program.
#[derive(Debug, Clone, Copy, PartialEq, Eq, Structural)]
pub struct LeiLess;

} // verus!
