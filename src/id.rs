//! Identifiers: 256-bit names and keys, transport peer handles and public identities.

use vstd::prelude::*;

verus! {

/// A 256-bit name in the XOR metric space, held as four 64-bit words, most
/// significant first.
#[derive(Clone, Copy, Debug, PartialEq, Eq, Structural)]
pub struct XorName {
    pub w0: u64,
    pub w1: u64,
    pub w2: u64,
    pub w3: u64,
}

/// The XOR distance between two names, as four words, most significant first.
pub open spec fn distance(a: XorName, b: XorName) -> (u64, u64, u64, u64) {
    (a.w0 ^ b.w0, a.w1 ^ b.w1, a.w2 ^ b.w2, a.w3 ^ b.w3)
}

/// Whether the 256-bit number `x` is below `y`, both given as four words,
/// most significant first.
pub open spec fn words_less(x: (u64, u64, u64, u64), y: (u64, u64, u64, u64)) -> bool {
    x.0 < y.0 || (x.0 == y.0 && (x.1 < y.1 || (x.1 == y.1 && (x.2 < y.2 || (x.2 == y.2 && x.3 < y.3)))))
}

impl XorName {
    /// Whether `lhs` is closer to this name than `rhs` in XOR distance.
    pub fn closer(&self, lhs: &XorName, rhs: &XorName) -> (r: bool)
        ensures
            r == words_less(distance(*lhs, *self), distance(*rhs, *self)),
    {
        let l0 = lhs.w0 ^ self.w0;
        let r0 = rhs.w0 ^ self.w0;
        if l0 != r0 {
            return l0 < r0;
        }
        let l1 = lhs.w1 ^ self.w1;
        let r1 = rhs.w1 ^ self.w1;
        if l1 != r1 {
            return l1 < r1;
        }
        let l2 = lhs.w2 ^ self.w2;
        let r2 = rhs.w2 ^ self.w2;
        if l2 != r2 {
            return l2 < r2;
        }
        (lhs.w3 ^ self.w3) < (rhs.w3 ^ self.w3)
    }
}

/// A 256-bit public signing key, held as four 64-bit words.
#[derive(Clone, Copy, Debug, PartialEq, Eq, Structural)]
pub struct PublicKey {
    pub w0: u64,
    pub w1: u64,
    pub w2: u64,
    pub w3: u64,
}

/// Handle of a directly connected transport peer.
#[derive(Clone, Copy, Debug, PartialEq, Eq, Structural)]
pub struct PeerId {
    pub id: u64,
}

/// The public identity of a participant: its signing key and its name.
#[derive(Clone, Copy, Debug, PartialEq, Eq, Structural)]
pub struct PublicId {
    pub signing_key: PublicKey,
    pub name: XorName,
}

} // verus!
