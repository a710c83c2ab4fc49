use vstd::prelude::*;

verus! {

/// An axis-aligned rectangle with unsigned side lengths.
pub struct Rectangle {
    pub width: u32,
    pub height: u32,
}

impl Rectangle {
    /// Builds a rectangle from signed side lengths; both must be non-negative.
    pub fn new_from_i32(x: i32, y: i32) -> (r: Result<Rectangle, String>)
        ensures
            x >= 0 && y >= 0 <==> r is Ok,
            r is Ok ==> r->Ok_0.width == x && r->Ok_0.height == y,
            r is Err ==> r->Err_0@ == conversion_failed_message(),
    {
        let width = u32::try_from(x);
        let height = u32::try_from(y);
        match (width, height) {
            (Ok(width), Ok(height)) => Ok(Rectangle { width, height }),
            _ => Err(String::from_str("Type convertion failed!")),
        }
    }

    /// The area, `width * height`, which must fit in a `u32`.
    pub fn area(&self) -> (r: u32)
        requires
            self.width * self.height <= u32::MAX,
        ensures
            r == self.width * self.height,
    {
        self.width * self.height
    }

    /// Whether `other` fits inside `self` without rotation.
    pub fn can_hold(&self, other: &Rectangle) -> (r: bool)
        ensures
            r == (self.width >= other.width && self.height >= other.height),
    {
        self.width >= other.width && self.height >= other.height
    }
}

/// The text of the error returned for a negative side length.
pub open spec fn conversion_failed_message() -> Seq<char> {
    "Type convertion failed!"@
}

} // verus!
