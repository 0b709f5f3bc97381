//! Partitioning strategies of a partitioned table.

use vstd::prelude::*;
use crate::text::chars_of;
use crate::sql_text::{eq_ci, eq_ignore_case};

verus! {

/// How rows are assigned to partitions (`PARTITION BY RANGE | LIST | HASH`).
#[derive(Debug, Clone, Copy, PartialEq, Eq, Hash, Structural)]
pub enum PartitionStrategy {
    /// `PARTITION BY RANGE (col)`
    Range,
    /// `PARTITION BY LIST (col)`
    List,
    /// `PARTITION BY HASH (col)`
    Hash,
}

/// The strategy named `s`, in any case (no character outside ASCII lower-cases to a
/// letter of these names, so comparing ASCII case-insensitively is exact).
pub open spec fn strategy_named(s: Seq<char>) -> Option<PartitionStrategy> {
    if eq_ci(s, "RANGE"@) {
        Some(PartitionStrategy::Range)
    } else if eq_ci(s, "LIST"@) {
        Some(PartitionStrategy::List)
    } else if eq_ci(s, "HASH"@) {
        Some(PartitionStrategy::Hash)
    } else {
        None
    }
}

/// The upper-case name of a strategy.
pub open spec fn strategy_name(p: PartitionStrategy) -> Seq<char> {
    match p {
        PartitionStrategy::Range => "RANGE"@,
        PartitionStrategy::List => "LIST"@,
        PartitionStrategy::Hash => "HASH"@,
    }
}

impl PartitionStrategy {
    /// The strategy named `s`, in any case.
    pub fn from_str_ci(s: &str) -> (r: Option<PartitionStrategy>)
        ensures
            r == strategy_named(s@),
    {
        let c = chars_of(s);
        if eq_ignore_case(&c, &chars_of("RANGE")) {
            Some(PartitionStrategy::Range)
        } else if eq_ignore_case(&c, &chars_of("LIST")) {
            Some(PartitionStrategy::List)
        } else if eq_ignore_case(&c, &chars_of("HASH")) {
            Some(PartitionStrategy::Hash)
        } else {
            None
        }
    }

    /// The upper-case name.
    pub fn as_str(&self) -> (r: &'static str)
        ensures
            r@ == strategy_name(*self),
    {
        match self {
            PartitionStrategy::Range => "RANGE",
            PartitionStrategy::List => "LIST",
            PartitionStrategy::Hash => "HASH",
        }
    }

    /// The upper-case name, as a string.
    pub fn to_string(&self) -> (r: String)
        ensures
            r@ == strategy_name(*self),
    {
        self.as_str().to_owned()
    }
}

/// Reading back the name of a strategy gives the strategy.
pub proof fn law_name_round_trip(p: PartitionStrategy)
    ensures
        strategy_named(strategy_name(p)) == Some(p),
{
    reveal_strlit("RANGE");
    reveal_strlit("LIST");
    reveal_strlit("HASH");
    let n = strategy_name(p);
    assert(forall|i: int| 0 <= i < n.len() ==> crate::sql_text::upper(#[trigger] n[i]) == n[i]);
    match p {
        PartitionStrategy::Range => {},
        PartitionStrategy::List => {},
        PartitionStrategy::Hash => {
            assert(crate::sql_text::upper(n[0]) != "LIST"@[0]);
        },
    }
}

} // verus!
