use crate::pieces::Piece;
use vstd::prelude::*;

verus! {

/// The pieces of a board, kept in a hash map from the number of a square to
/// the piece that stands on it.
#[verifier::external_body]
#[derive(Debug)]
pub struct Squares {
    map: hashbrown::HashMap<u8, Box<Piece>>,
}

/// What a store of squares holds: for each occupied square number its piece.
pub uninterp spec fn held(s: Squares) -> Map<u8, Piece>;

/// The board on which nothing stands.
pub open spec fn no_pieces() -> Map<u8, Piece> {
    Map::empty()
}

impl Squares {
    /// `hashbrown::HashMap::new`: a map that holds nothing.
    #[verifier::external_body]
    pub(crate) fn empty() -> (s: Squares)
        ensures
            held(s) == no_pieces(),
    {
        Squares { map: hashbrown::HashMap::new() }
    }

    /// `hashbrown::HashMap::insert`: afterwards the key leads to the given
    /// piece, whether or not it led to another before; every other key is
    /// left as it was.
    #[verifier::external_body]
    pub(crate) fn put(&mut self, k: u8, v: Box<Piece>)
        ensures
            held(*final(self)) == held(*old(self)).insert(k, *v),
    {
        self.map.insert(k, v);
    }

    /// `hashbrown::HashMap::get`: the piece that the key leads to, if any.
    #[verifier::external_body]
    pub(crate) fn get(&self, k: u8) -> (r: Option<&Box<Piece>>)
        ensures
            r.is_some() == held(*self).contains_key(k),
            r matches Some(b) ==> **b == held(*self)[k],
    {
        self.map.get(&k)
    }

    /// `hashbrown::HashMap::remove`: afterwards the key leads nowhere; every
    /// other key is left as it was.
    #[verifier::external_body]
    pub(crate) fn take(&mut self, k: u8)
        ensures
            held(*final(self)) == held(*old(self)).remove(k),
    {
        self.map.remove(&k);
    }

    /// `hashbrown::HashMap::iter`: every pair the map holds, once each, in an
    /// order that is not fixed.
    #[verifier::external_body]
    pub(crate) fn entries(&self) -> (v: Vec<(u8, Piece)>)
        ensures
            forall|i: int|
                0 <= i < v@.len() ==> held(*self).contains_pair((#[trigger] v@[i]).0, v@[i].1),
            forall|k: u8|
                held(*self).contains_key(k) ==> exists|i: int|
                    0 <= i < v@.len() && (#[trigger] v@[i]).0 == k,
            forall|i: int, j: int|
                0 <= i < j < v@.len() ==> (#[trigger] v@[i]).0 != (#[trigger] v@[j]).0,
    {
        self.map.iter().map(|(k, v)| (*k, **v)).collect()
    }

    /// `Clone::clone` of `hashbrown::HashMap`: a map that holds the same pairs.
    #[verifier::external_body]
    pub(crate) fn copy(&self) -> (s: Squares)
        ensures
            held(s) == held(*self),
    {
        Squares { map: self.map.clone() }
    }
}

} // verus!
