use vstd::prelude::*;

verus! {

/// A keyed value: the key is private, the value public.
pub struct Rng {
    key: i32,
    pub val: String,
}

impl Rng {
    /// The key given at construction.
    pub closed spec fn key(&self) -> i32 {
        self.key
    }

    /// The value given at construction.
    pub closed spec fn value(&self) -> String {
        self.val
    }

    /// Builds a keyed value; the only way to set its private key.
    pub fn new(key: i32, val: String) -> (r: Rng)
        ensures
            r.key() == key,
            r.value() == val,
    {
        Rng { key, val }
    }
}

} // verus!
