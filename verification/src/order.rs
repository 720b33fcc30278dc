use crate::file::File;
use crate::pgn::Position;
use crate::rank::Rank;
use std::cmp::Ordering;
use vstd::prelude::*;
use vstd::std_specs::cmp::PartialOrdSpecImpl;

verus! {

/// How two places compare.
pub open spec fn places_compared(a: int, b: int) -> Ordering {
    if a < b {
        Ordering::Less
    } else if a == b {
        Ordering::Equal
    } else {
        Ordering::Greater
    }
}

/// How two places compare.
fn compare_places(a: usize, b: usize) -> (o: Ordering)
    ensures
        a < b ==> o == Ordering::Less,
        a == b ==> o == Ordering::Equal,
        a > b ==> o == Ordering::Greater,
{
    if a < b {
        Ordering::Less
    } else if a == b {
        Ordering::Equal
    } else {
        Ordering::Greater
    }
}

impl PartialOrd for Rank {
    /// Ranks are ordered as their letters are: `a` first, `h` last.
    fn partial_cmp(&self, other: &Rank) -> (o: Option<Ordering>) {
        Some(compare_places(self.to_index(), other.to_index()))
    }
}

impl PartialOrdSpecImpl for Rank {
    /// The comparison below says what `partial_cmp` returns.
    open spec fn obeys_partial_cmp_spec() -> bool {
        true
    }

    /// The order by the places of the ranks.
    open spec fn partial_cmp_spec(&self, other: &Rank) -> Option<Ordering> {
        Some(places_compared(self.idx(), other.idx()))
    }
}

impl PartialOrd for File {
    /// Files are ordered as their digits are: the first first, the eighth last.
    fn partial_cmp(&self, other: &File) -> (o: Option<Ordering>) {
        Some(compare_places(self.to_index(), other.to_index()))
    }
}

impl PartialOrdSpecImpl for File {
    /// The comparison below says what `partial_cmp` returns.
    open spec fn obeys_partial_cmp_spec() -> bool {
        true
    }

    /// The order by the places of the files.
    open spec fn partial_cmp_spec(&self, other: &File) -> Option<Ordering> {
        Some(places_compared(self.idx(), other.idx()))
    }
}

impl PartialOrd for Position {
    /// Squares are ordered by rank, and on one rank by file.
    fn partial_cmp(&self, other: &Position) -> (o: Option<Ordering>) {
        if self.rank == other.rank {
            Some(compare_places(self.file.to_index(), other.file.to_index()))
        } else {
            Some(compare_places(self.rank.to_index(), other.rank.to_index()))
        }
    }
}

impl PartialOrdSpecImpl for Position {
    /// The comparison below says what `partial_cmp` returns.
    open spec fn obeys_partial_cmp_spec() -> bool {
        true
    }

    /// The order by rank, and on one rank by file.
    open spec fn partial_cmp_spec(&self, other: &Position) -> Option<Ordering> {
        if self.rank == other.rank {
            Some(places_compared(self.f(), other.f()))
        } else {
            Some(places_compared(self.r(), other.r()))
        }
    }
}

} // verus!
