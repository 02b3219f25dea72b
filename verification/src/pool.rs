//! A store of strings that are handed out, used and handed back, so that their buffers
//! serve again.

use vstd::prelude::*;

verus! {

/// `String::with_capacity`: a new string without characters, whatever room it was given.
pub assume_specification[ String::with_capacity ](capacity: usize) -> (s: String)
    requires
        capacity <= isize::MAX,
    ensures
        s@ == Seq::<char>::empty(),
;

/// `String::clear`: the string has no characters afterwards.
pub assume_specification[ String::clear ](s: &mut String)
    ensures
        final(s)@ == Seq::<char>::empty(),
;

/// The strings that wait in a store. All of them are empty.
pub struct StringStore {
    strings: Vec<String>,
}

/// A string that was taken out of a store. It is used as a `String`, and goes back with
/// `StringStore::put_back`.
pub struct Guard {
    string: String,
}

impl View for Guard {
    type V = Seq<char>;

    closed spec fn view(&self) -> Seq<char> {
        self.string@
    }
}

impl std::ops::Deref for Guard {
    type Target = String;

    fn deref(&self) -> (s: &String)
        ensures
            s@ == self@,
    {
        &self.string
    }
}

impl std::ops::DerefMut for Guard {
    fn deref_mut(&mut self) -> (s: &mut String)
        ensures
            s@ == old(self)@,
            final(self)@ == final(s)@,
    {
        &mut self.string
    }
}

impl StringStore {
    /// How many strings wait in the store.
    pub closed spec fn idle(&self) -> nat {
        self.strings@.len()
    }

    /// Every string that waits in the store is empty.
    pub closed spec fn wf(&self) -> bool {
        forall|i: int| 0 <= i < self.strings@.len() ==> (#[trigger] self.strings@[i])@.len() == 0
    }

    /// Makes a store of `num_strings` empty strings, each with room for `string_len` bytes.
    pub fn with_capacity(num_strings: usize, string_len: usize) -> (store: StringStore)
        requires
            string_len <= isize::MAX,
        ensures
            store.wf(),
            store.idle() == num_strings,
    {
        let mut strings: Vec<String> = Vec::with_capacity(num_strings);
        for n in 0..num_strings
            invariant
                string_len <= isize::MAX,
                strings@.len() == n,
                forall|i: int| 0 <= i < strings@.len() ==> (#[trigger] strings@[i])@.len() == 0,
        {
            strings.push(String::with_capacity(string_len))
        }
        StringStore { strings }
    }

    /// Takes a string out of the store: one that waits there, or a new one if none does.
    /// Either way it is empty.
    pub fn get(&mut self) -> (guard: Guard)
        requires
            old(self).wf(),
        ensures
            final(self).wf(),
            guard@ == Seq::<char>::empty(),
            final(self).idle() == if old(self).idle() > 0 {
                old(self).idle() - 1
            } else {
                0
            },
    {
        let string = match self.strings.pop() {
            Some(string) => string,
            None => String::new(),
        };
        Guard { string }
    }

    /// Hands a string back: it is emptied and waits in the store again.
    pub fn put_back(&mut self, guard: Guard)
        requires
            old(self).wf(),
        ensures
            final(self).wf(),
            final(self).idle() == old(self).idle() + 1,
    {
        let mut string = guard.string;
        string.clear();
        self.strings.push(string)
    }
}

} // verus!
