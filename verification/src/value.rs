//! Values whose type is out of sight.

use std::any::Any;
use std::sync::Arc;
use vstd::prelude::*;

verus! {

/// Any value at all. Contracts speak of what a [`DynValue`] holds as a `dyn Value`.
pub trait Value {

}

impl<T> Value for T {

}

/// A shared value of some type that only the `TVar` it belongs to knows.
///
/// The field is opaque: contracts name what is in it by [`content`].
#[verifier::external_body]
pub struct DynValue {
    inner: Arc<dyn Any + Send + Sync>,
}

/// What a [`DynValue`] holds.
pub uninterp spec fn content(v: DynValue) -> Box<dyn Value>;

/// `x` with its type forgotten.
pub open spec fn forget<T: 'static>(x: T) -> Box<dyn Value> {
    Box::new(x)
}

/// What a value of plain data comes down to.
pub enum Datum {
    Int(int),
    List(Seq<Datum>),
}

/// A code tells all values of a type apart.
pub open spec fn tells_apart<T>(code: spec_fn(T) -> Datum) -> bool {
    forall|x: T, y: T| #[trigger] code(x) == #[trigger] code(y) ==> x == y
}

/// The values of a type are plain data: they come down to numbers, and lists of such.
pub open spec fn is_data<T>() -> bool {
    exists|code: spec_fn(T) -> Datum| tells_apart(code)
}

/// Integers and truth values are plain data.
pub proof fn numbers_are_data()
    ensures
        is_data::<u8>(),
        is_data::<u32>(),
        is_data::<u64>(),
        is_data::<usize>(),
        is_data::<i32>(),
        is_data::<i64>(),
        is_data::<bool>(),
{
    assert(tells_apart(|x: u8| Datum::Int(x as int)));
    assert(tells_apart(|x: u32| Datum::Int(x as int)));
    assert(tells_apart(|x: u64| Datum::Int(x as int)));
    assert(tells_apart(|x: usize| Datum::Int(x as int)));
    assert(tells_apart(|x: i32| Datum::Int(x as int)));
    assert(tells_apart(|x: i64| Datum::Int(x as int)));
    assert(tells_apart(
        |x: bool|
            Datum::Int(
                if x {
                    1
                } else {
                    0
                },
            ),
    ));
}

/// Pairs of plain data are plain data.
pub proof fn pairs_are_data<A, B>()
    requires
        is_data::<A>(),
        is_data::<B>(),
    ensures
        is_data::<(A, B)>(),
{
    let a = choose|code: spec_fn(A) -> Datum| tells_apart(code);
    let b = choose|code: spec_fn(B) -> Datum| tells_apart(code);
    let code = |x: (A, B)| Datum::List(seq![a(x.0), b(x.1)]);
    assert forall|x: (A, B), y: (A, B)| #[trigger] code(x) == #[trigger] code(y) implies x
        == y by {
        let (s, t) = (seq![a(x.0), b(x.1)], seq![a(y.0), b(y.1)]);
        assert(s == t);
        assert(s[0] == t[0] && s[1] == t[1]);
    }
    assert(tells_apart(code));
}

/// Vectors of plain data are plain data, as far as vectors with the same items are the same.
pub proof fn vectors_are_data<T>()
    requires
        is_data::<T>(),
        forall|a: Vec<T>, b: Vec<T>| #[trigger] a@ == #[trigger] b@ ==> a == b,
    ensures
        is_data::<Vec<T>>(),
{
    let item = choose|code: spec_fn(T) -> Datum| tells_apart(code);
    let code = |v: Vec<T>| Datum::List(v@.map_values(item));
    assert forall|x: Vec<T>, y: Vec<T>| #[trigger] code(x) == #[trigger] code(y) implies x
        == y by {
        let (s, t) = (x@.map_values(item), y@.map_values(item));
        assert(s == t);
        assert forall|i: int| 0 <= i < x@.len() implies x@[i] == y@[i] by {
            assert(s[i] == t[i]);
        }
        assert(x@ =~= y@);
    }
    assert(tells_apart(code));
}

impl DynValue {
    /// The value that is held is `x`.
    pub open spec fn holds<T: 'static>(self, x: T) -> bool {
        content(self) == forget(x)
    }

    /// The value that is held is `x`, and if `T` is plain data, no other of that type.
    pub open spec fn is_exactly<T: 'static>(self, x: T) -> bool {
        &&& self.holds(x)
        &&& is_data::<T>() ==> forall|y: T| #[trigger] self.holds(y) ==> y == x
    }

    /// The value that is held is one of type `T`.
    pub open spec fn is_a<T: 'static>(self) -> bool {
        exists|x: T| self.holds(x)
    }
}

/// Moves `x` into a new `Arc` with `Arc::new`, and forgets its type: what is held is `x`; and where
/// the type is plain data, no other value of that type.
#[verifier::external_body]
pub(crate) fn erase<T: Send + Sync + 'static>(x: T) -> (v: DynValue)
    ensures
        content(v) == forget(x),
        is_data::<T>() ==> forall|y: T| content(v) == #[trigger] forget(y) ==> y == x,
{
    DynValue { inner: Arc::new(x) }
}

/// `Arc::clone`: another handle to the same value.
#[verifier::external_body]
fn share(v: &DynValue) -> (r: DynValue)
    ensures
        r == *v,
{
    DynValue { inner: Arc::clone(&v.inner) }
}

/// `Arc::downcast`: a handle to the value under its type, where `T` is that type. Where the type is
/// plain data, what is held is that value and no other of the type.
#[verifier::external_body]
pub(crate) fn downcast_value<T: Send + Sync + 'static>(v: DynValue) -> (r: Option<Arc<T>>)
    ensures
        r is Some <==> v.is_a::<T>(),
        r matches Some(x) ==> content(v) == forget(*x),
        r matches Some(x) ==> is_data::<T>() ==> forall|y: T|
            content(v) == #[trigger] forget(y) ==> y == *x,
{
    v.inner.downcast::<T>().ok()
}

impl Clone for DynValue {
    fn clone(&self) -> (r: Self)
        ensures
            r == *self,
    {
        share(self)
    }
}

} // verus!
