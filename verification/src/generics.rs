use vstd::prelude::*;
use vstd::std_specs::ops::AddSpec;
use vstd::string::StringExecFns;

verus! {

/// The sum of two values of any type that can be added. Where the type's
/// addition can fail, as that of the machine integers on overflow, the
/// operands must be such that it does not.
pub fn add<T: core::ops::Add<Output = T>>(a: T, b: T) -> (sum: T)
    requires
        a.add_req(b),
    ensures
        T::obeys_add_spec() ==> sum == a.add_spec(b),
{
    a + b
}

/// Something that has a message to show.
pub trait DisplayMessage {
    /// The line that is shown, as characters.
    spec fn shown(&self) -> Seq<char>;

    /// The line to show.
    fn display(&self) -> (line: String)
        ensures
            line@ == self.shown(),
    ;
}

/// A message with its text.
pub struct Message {
    pub content: String,
}

impl DisplayMessage for Message {
    open spec fn shown(&self) -> Seq<char> {
        "Displaying message: "@ + self.content@
    }

    fn display(&self) -> (line: String) {
        String::from_str("Displaying message: ").concat(self.content.as_str())
    }
}

/// The product of two numbers that fits in an `i32`.
pub fn calculate_product(a: i32, b: i32) -> (product: i32)
    requires
        i32::MIN <= a * b <= i32::MAX,
    ensures
        product == a * b,
{
    let multiply = |x: i32, y: i32| -> (z: i32)
        requires
            i32::MIN <= x * y <= i32::MAX,
        ensures
            z == x * y,
        { x * y };
    multiply(a, b)
}

} // verus!
