//! The set of castling rights that a position still holds.

use vstd::prelude::*;

verus! {

/// One of the four rights to castle.
#[derive(Clone, Copy, Debug, PartialEq, Eq, Structural)]
pub enum CastlingRight {
    WhiteKingSide,
    WhiteQueenSide,
    BlackKingSide,
    BlackQueenSide,
}

/// The bit that stands for `right` in a `CastlingRights` value.
pub open spec fn right_mask(right: CastlingRight) -> u8 {
    match right {
        CastlingRight::WhiteKingSide => 1,
        CastlingRight::WhiteQueenSide => 2,
        CastlingRight::BlackKingSide => 4,
        CastlingRight::BlackQueenSide => 8,
    }
}

/// A set of castling rights, held as four flag bits.
#[derive(Clone, Copy, Debug, PartialEq, Eq, Structural)]
pub struct CastlingRights {
    bits: u8,
}

impl CastlingRights {
    /// The flag bits: bit 0 for white king side, bit 1 for white queen
    /// side, bit 2 for black king side, bit 3 for black queen side.
    pub closed spec fn spec_bits(self) -> u8 {
        self.bits
    }

    /// Only the four flag bits can be set.
    pub open spec fn wf(self) -> bool {
        self.spec_bits() < 16
    }

    /// Whether `right` is in the set.
    pub open spec fn has(self, right: CastlingRight) -> bool {
        self.spec_bits() & right_mask(right) != 0
    }

    /// The rights in the set.
    pub open spec fn view(self) -> Set<CastlingRight> {
        Set::new(|right: CastlingRight| self.has(right))
    }

    /// The empty set.
    pub fn none() -> (r: CastlingRights)
        ensures
            r.wf(),
            r.spec_bits() == 0,
            r@ == Set::<CastlingRight>::empty(),
    {
        let r = CastlingRights { bits: 0 };
        proof {
            assert(forall|m: u8| 0u8 & m == 0) by (bit_vector);
            assert(r@ =~= Set::<CastlingRight>::empty());
        }
        r
    }

    /// All four rights.
    pub fn all() -> (r: CastlingRights)
        ensures
            r.wf(),
            r.spec_bits() == 15,
            r@ == Set::<CastlingRight>::full(),
    {
        let r = CastlingRights { bits: 15 };
        proof {
            assert(15u8 & 1 != 0 && 15u8 & 2 != 0 && 15u8 & 4 != 0 && 15u8 & 8 != 0)
                by (bit_vector);
            assert(r@ =~= Set::<CastlingRight>::full());
        }
        r
    }

    /// The set that holds `right` and nothing else.
    pub fn single(right: CastlingRight) -> (r: CastlingRights)
        ensures
            r.wf(),
            r.spec_bits() == right_mask(right),
            r@ == set![right],
    {
        let bits: u8 = match right {
            CastlingRight::WhiteKingSide => 1,
            CastlingRight::WhiteQueenSide => 2,
            CastlingRight::BlackKingSide => 4,
            CastlingRight::BlackQueenSide => 8,
        };
        let r = CastlingRights { bits };
        proof {
            assert(1u8 & 1 != 0 && 1u8 & 2 == 0 && 1u8 & 4 == 0 && 1u8 & 8 == 0) by (bit_vector);
            assert(2u8 & 1 == 0 && 2u8 & 2 != 0 && 2u8 & 4 == 0 && 2u8 & 8 == 0) by (bit_vector);
            assert(4u8 & 1 == 0 && 4u8 & 2 == 0 && 4u8 & 4 != 0 && 4u8 & 8 == 0) by (bit_vector);
            assert(8u8 & 1 == 0 && 8u8 & 2 == 0 && 8u8 & 4 == 0 && 8u8 & 8 != 0) by (bit_vector);
            assert(r@ =~= set![right]);
        }
        r
    }

    /// The set behind the given flag bits, if only the four flags are set.
    pub fn from_bits(bits: u8) -> (r: Option<CastlingRights>)
        ensures
            bits < 16 ==> r is Some && r->Some_0.spec_bits() == bits && r->Some_0.wf(),
            bits >= 16 ==> r is None,
    {
        if bits < 16 {
            Some(CastlingRights { bits })
        } else {
            None
        }
    }

    /// The flag bits of the set.
    pub fn bits(&self) -> (b: u8)
        ensures
            b == self.spec_bits(),
    {
        self.bits
    }

    /// Whether the set holds no right.
    pub fn is_empty(&self) -> (b: bool)
        requires
            self.wf(),
        ensures
            b == (self@ == Set::<CastlingRight>::empty()),
    {
        proof {
            let x = self.bits;
            assert(x < 16 ==> (x == 0 <==> (x & 1 == 0 && x & 2 == 0 && x & 4 == 0 && x & 8 == 0)))
                by (bit_vector);
            if x == 0 {
                assert(self@ =~= Set::<CastlingRight>::empty());
            } else {
                assert(self.has(CastlingRight::WhiteKingSide) || self.has(
                    CastlingRight::WhiteQueenSide,
                ) || self.has(CastlingRight::BlackKingSide) || self.has(
                    CastlingRight::BlackQueenSide,
                ));
                assert(self@.contains(CastlingRight::WhiteKingSide) || self@.contains(
                    CastlingRight::WhiteQueenSide,
                ) || self@.contains(CastlingRight::BlackKingSide) || self@.contains(
                    CastlingRight::BlackQueenSide,
                ));
            }
        }
        self.bits == 0
    }

    /// The rights that are in `self`, in `other`, or in both.
    pub fn union(self, other: CastlingRights) -> (r: CastlingRights)
        ensures
            r.spec_bits() == self.spec_bits() | other.spec_bits(),
            r@ == self@.union(other@),
            self.wf() && other.wf() ==> r.wf(),
    {
        let r = CastlingRights { bits: self.bits | other.bits };
        proof {
            let a = self.bits;
            let b = other.bits;
            assert(forall|m: u8| ((a | b) & m != 0) == ((a & m != 0) || (b & m != 0)))
                by (bit_vector);
            assert(a < 16 && b < 16 ==> (a | b) < 16) by (bit_vector);
            assert(r@ =~= self@.union(other@));
        }
        r
    }

    /// Adds the rights of `other` to the set.
    pub fn insert(&mut self, other: CastlingRights)
        ensures
            final(self).spec_bits() == old(self).spec_bits() | other.spec_bits(),
            final(self)@ == old(self)@.union(other@),
            old(self).wf() && other.wf() ==> final(self).wf(),
    {
        let r = self.union(other);
        *self = r;
    }

    /// Whether every right of `other` is in `self`.
    pub fn contains(&self, other: CastlingRights) -> (b: bool)
        requires
            other.wf(),
        ensures
            b == other@.subset_of(self@),
    {
        proof {
            let a = self.bits;
            let o = other.bits;
            assert(o < 16 ==> ((a & o == o) <==> ((o & 1 != 0 ==> a & 1 != 0) && (o & 2 != 0 ==> a
                & 2 != 0) && (o & 4 != 0 ==> a & 4 != 0) && (o & 8 != 0 ==> a & 8 != 0))))
                by (bit_vector);
            if a & o == o {
                assert forall|right: CastlingRight| other@.contains(right) implies self@.contains(
                    right,
                ) by {
                    assert(other.has(right));
                }
            } else {
                let missing = if o & 1 != 0 && a & 1 == 0 {
                    CastlingRight::WhiteKingSide
                } else if o & 2 != 0 && a & 2 == 0 {
                    CastlingRight::WhiteQueenSide
                } else if o & 4 != 0 && a & 4 == 0 {
                    CastlingRight::BlackKingSide
                } else {
                    CastlingRight::BlackQueenSide
                };
                assert(other.has(missing) && !self.has(missing));
                assert(other@.contains(missing) && !self@.contains(missing));
            }
        }
        self.bits & other.bits == other.bits
    }

    /// Two well-formed sets with the same rights have the same flag bits.
    pub proof fn lemma_same_rights_same_bits(self, other: CastlingRights)
        requires
            self.wf(),
            other.wf(),
            self@ == other@,
        ensures
            self == other,
    {
        let a = self.bits;
        let b = other.bits;
        assert(self@.contains(CastlingRight::WhiteKingSide) == self.has(
            CastlingRight::WhiteKingSide,
        ));
        assert(self@.contains(CastlingRight::WhiteQueenSide) == self.has(
            CastlingRight::WhiteQueenSide,
        ));
        assert(self@.contains(CastlingRight::BlackKingSide) == self.has(
            CastlingRight::BlackKingSide,
        ));
        assert(self@.contains(CastlingRight::BlackQueenSide) == self.has(
            CastlingRight::BlackQueenSide,
        ));
        assert(other@.contains(CastlingRight::WhiteKingSide) == other.has(
            CastlingRight::WhiteKingSide,
        ));
        assert(other@.contains(CastlingRight::WhiteQueenSide) == other.has(
            CastlingRight::WhiteQueenSide,
        ));
        assert(other@.contains(CastlingRight::BlackKingSide) == other.has(
            CastlingRight::BlackKingSide,
        ));
        assert(other@.contains(CastlingRight::BlackQueenSide) == other.has(
            CastlingRight::BlackQueenSide,
        ));
        assert(a < 16 && b < 16 && ((a & 1 != 0) == (b & 1 != 0)) && ((a & 2 != 0) == (b & 2 != 0))
            && ((a & 4 != 0) == (b & 4 != 0)) && ((a & 8 != 0) == (b & 8 != 0)) ==> a == b)
            by (bit_vector);
    }
}

} // verus!
