//! Keys of a table: what identifies a key, how it is hashed, and how two keys are compared.

use std::collections::hash_map::DefaultHasher;
use std::hash::{Hash, Hasher};
use vstd::prelude::*;
use vstd::std_specs::hash::DefaultHasherAdditionalSpecFns;

verus! {

/// What a table asks of its keys.
///
/// A key is identified by its view. Its hash code is a function of that view, and the
/// executable comparison `same` agrees with equality of views. A table never tells apart two
/// keys with the same view.
pub trait Key: View + Sized {
    /// The hash code of the key identified by `id`.
    spec fn hash_code(id: Self::V) -> u64;

    /// Computes the hash code of this key.
    fn digest(&self) -> (h: u64)
        ensures
            h == Self::hash_code(self@),
    ;

    /// Tells whether `self` and `other` are the same key.
    fn same(&self, other: &Self) -> (b: bool)
        ensures
            b == (self@ == other@),
    ;
}

/// What hashing a string with the characters `s` writes into a hasher.
pub uninterp spec fn str_written(s: Seq<char>) -> Seq<Seq<u8>>;

/// What hashing the integer `x` writes into a hasher.
pub uninterp spec fn u64_written(x: u64) -> Seq<Seq<u8>>;

/// `<str as Hash>::hash`, on the standard hasher: feeds the string to the hasher. What it
/// writes depends on the characters of the string alone, and comes after what was written
/// before.
#[verifier::external_body]
fn feed_str(s: &str, state: &mut DefaultHasher)
    ensures
        final(state)@ == old(state)@ + str_written(s@),
{
    s.hash(state);
}

/// `<u64 as Hash>::hash`, on the standard hasher: feeds the integer to the hasher. What it
/// writes depends on the integer alone, and comes after what was written before.
#[verifier::external_body]
fn feed_u64(x: u64, state: &mut DefaultHasher)
    ensures
        final(state)@ == old(state)@ + u64_written(x),
{
    x.hash(state);
}

/// `<str as PartialEq>::eq`: two strings are equal exactly when they hold the same
/// characters.
#[verifier::external_body]
fn str_eq(a: &str, b: &str) -> (r: bool)
    ensures
        r == (a@ == b@),
{
    a == b
}

/// The hash code that a fresh standard hasher gives after the writes `written`.
pub open spec fn finished(written: Seq<Seq<u8>>) -> u64 {
    DefaultHasher::spec_finish(written)
}

impl<'a> Key for &'a str {
    open spec fn hash_code(id: Seq<char>) -> u64 {
        finished(str_written(id))
    }

    fn digest(&self) -> (h: u64) {
        let mut state = DefaultHasher::new();
        feed_str(*self, &mut state);
        assert(state@ =~= str_written(self@));
        state.finish()
    }

    fn same(&self, other: &Self) -> (b: bool) {
        str_eq(*self, *other)
    }
}

impl Key for String {
    open spec fn hash_code(id: Seq<char>) -> u64 {
        finished(str_written(id))
    }

    fn digest(&self) -> (h: u64) {
        let mut state = DefaultHasher::new();
        feed_str(self.as_str(), &mut state);
        assert(state@ =~= str_written(self@));
        state.finish()
    }

    fn same(&self, other: &Self) -> (b: bool) {
        str_eq(self.as_str(), other.as_str())
    }
}

impl Key for u64 {
    open spec fn hash_code(id: u64) -> u64 {
        finished(u64_written(id))
    }

    fn digest(&self) -> (h: u64) {
        let mut state = DefaultHasher::new();
        feed_u64(*self, &mut state);
        assert(state@ =~= u64_written(*self));
        state.finish()
    }

    fn same(&self, other: &Self) -> (b: bool) {
        *self == *other
    }
}

} // verus!
