//! The values a tape cell can hold.
use vstd::prelude::*;

verus! {

/// A cell value one above `v`, wrapping to 0 at `modulus`.
pub open spec fn wrapping_increment(v: nat, modulus: nat) -> nat {
    if v + 1 >= modulus {
        0
    } else {
        v + 1
    }
}

/// A cell value one below `v`, wrapping from 0 to `modulus - 1`.
pub open spec fn wrapping_decrement(v: nat, modulus: nat) -> nat {
    if v == 0 {
        (modulus - 1) as nat
    } else {
        (v - 1) as nat
    }
}

/// What the machine needs of a cell: wrapping increment and decrement,
/// setting from and reading as a byte, and a zero test.
pub trait CellKind: Sized {
    /// The number of values a cell holds; arithmetic wraps around it.
    spec fn modulus() -> nat;

    /// The value held, below the modulus.
    spec fn value(&self) -> nat;

    /// A cell holds at least every byte.
    proof fn lemma_modulus()
        ensures
            256 <= Self::modulus(),
    ;

    proof fn lemma_value_bound(&self)
        ensures
            self.value() < Self::modulus(),
    ;

    /// A cell holding 0.
    fn zero() -> (r: Self)
        ensures
            r.value() == 0,
    ;

    /// Increases the value by 1.
    fn increment(&mut self)
        ensures
            final(self).value() == wrapping_increment(old(self).value(), Self::modulus()),
    ;

    /// Decreases the value by 1.
    fn decrement(&mut self)
        ensures
            final(self).value() == wrapping_decrement(old(self).value(), Self::modulus()),
    ;

    /// Sets the value to a byte.
    fn set_value(&mut self, value: u8)
        ensures
            final(self).value() == value,
    ;

    /// The value as a single byte.
    fn get_value(&self) -> (r: u8)
        ensures
            r == self.value() % 256,
    ;

    /// Whether the value is 0.
    fn is_zero(&self) -> (r: bool)
        ensures
            r == (self.value() == 0),
    ;
}

impl CellKind for u8 {
    open spec fn modulus() -> nat {
        256
    }

    open spec fn value(&self) -> nat {
        *self as nat
    }

    proof fn lemma_modulus() {
    }

    proof fn lemma_value_bound(&self) {
    }

    fn zero() -> (r: u8) {
        0
    }

    fn increment(&mut self) {
        *self = self.wrapping_add(1);
    }

    fn decrement(&mut self) {
        *self = self.wrapping_sub(1);
    }

    fn set_value(&mut self, value: u8) {
        *self = value;
    }

    fn get_value(&self) -> (r: u8) {
        *self
    }

    fn is_zero(&self) -> (r: bool) {
        *self == 0
    }
}

impl CellKind for u16 {
    open spec fn modulus() -> nat {
        65536
    }

    open spec fn value(&self) -> nat {
        *self as nat
    }

    proof fn lemma_modulus() {
    }

    proof fn lemma_value_bound(&self) {
    }

    fn zero() -> (r: u16) {
        0
    }

    fn increment(&mut self) {
        *self = self.wrapping_add(1);
    }

    fn decrement(&mut self) {
        *self = self.wrapping_sub(1);
    }

    fn set_value(&mut self, value: u8) {
        *self = value as u16;
    }

    fn get_value(&self) -> (r: u8) {
        (*self % 256) as u8
    }

    fn is_zero(&self) -> (r: bool) {
        *self == 0
    }
}

impl CellKind for u32 {
    open spec fn modulus() -> nat {
        0x1_0000_0000
    }

    open spec fn value(&self) -> nat {
        *self as nat
    }

    proof fn lemma_modulus() {
    }

    proof fn lemma_value_bound(&self) {
    }

    fn zero() -> (r: u32) {
        0
    }

    fn increment(&mut self) {
        *self = self.wrapping_add(1);
    }

    fn decrement(&mut self) {
        *self = self.wrapping_sub(1);
    }

    fn set_value(&mut self, value: u8) {
        *self = value as u32;
    }

    fn get_value(&self) -> (r: u8) {
        (*self % 256) as u8
    }

    fn is_zero(&self) -> (r: bool) {
        *self == 0
    }
}

/// Cell arithmetic wraps: from 0 one decrement gives the largest value, and
/// one further increment gives 0 again.
pub proof fn lemma_cell_wraps<T: CellKind>()
    ensures
        wrapping_decrement(0, T::modulus()) == T::modulus() - 1,
        wrapping_increment(wrapping_decrement(0, T::modulus()), T::modulus()) == 0,
{
    T::lemma_modulus();
}

} // verus!
