use vstd::prelude::*;

use crate::types::copy::copy_numeric;
use crate::types::numeric::Numeric;
use crate::types::numeric::NumericModel;
use crate::types::object::{objects_view, lemma_objects_view, Object, ObjectError, ObjectKind, ObjectModel};
use crate::types::rectangle::Rectangle;

verus! {

/// An array object: an ordered sequence of objects.
#[derive(Debug, PartialEq)]
pub struct Array {
    pub data: Vec<Object>,
}

impl Array {
    /// The array that holds `data`.
    pub fn from_vec(data: Vec<Object>) -> (r: Self)
        ensures
            r.data@ == data@,
    {
        Array { data }
    }

    pub fn len(&self) -> (r: usize)
        ensures
            r == self.data@.len(),
    {
        self.data.len()
    }

    /// Whether the array has no elements.
    pub fn is_empty(&self) -> (r: bool)
        ensures
            r == (self.data@.len() == 0),
    {
        self.data.len() == 0
    }

    /// The element at `i`.
    pub fn get(&self, i: usize) -> (r: Option<&Object>)
        ensures
            i < self.data@.len() ==> r == Some(&self.data@[i as int]),
            i >= self.data@.len() ==> r is None,
    {
        if i < self.data.len() {
            Some(&self.data[i])
        } else {
            None
        }
    }

    /// The elements, in order.
    pub fn as_slice(&self) -> (r: &[Object])
        ensures
            r@ == self.data@,
    {
        self.data.as_slice()
    }
}

impl Default for Array {
    /// An empty array.
    fn default() -> (r: Self)
        ensures
            r.data@.len() == 0,
    {
        Array { data: Vec::new() }
    }
}

impl From<Vec<Object>> for Array {
    /// The array that holds the objects.
    fn from(value: Vec<Object>) -> (r: Self) {
        Array { data: value }
    }
}

impl vstd::std_specs::convert::FromSpecImpl<Vec<Object>> for Array {
    open spec fn obeys_from_spec() -> bool {
        true
    }

    open spec fn from_spec(value: Vec<Object>) -> Self {
        Array { data: value }
    }
}

/// Why an object could not be read as an array of some kind.
#[derive(Debug, Clone, Copy, PartialEq, Eq)]
pub enum ArrayError {
    /// The object is not an array.
    UnexpectedObjectType,
    /// An element could not be converted.
    FailedArrayConvertion(ObjectError),
    /// A rectangle needs `expected` numbers; the array has `got`.
    InvalidRectangleFormat { expected: usize, got: usize },
}

/// The numbers that the elements of an array hold; the first element that
/// is not a number gives the error.
pub open spec fn spec_numbers(items: Seq<ObjectModel>) -> Result<Seq<NumericModel>, ObjectError>
    decreases items.len(),
{
    if items.len() == 0 {
        Ok(Seq::empty())
    } else {
        match spec_numbers(items.drop_last()) {
            Ok(ns) => match items.last() {
                ObjectModel::Numeric(n) => Ok(ns.push(n)),
                _ => Err(ObjectError::UnexpectedObjectType { expected: ObjectKind::Real }),
            },
            Err(e) => Err(e),
        }
    }
}

/// An object read as a rectangle: an array of exactly four numbers.
pub open spec fn spec_rectangle(o: ObjectModel) -> Result<
    (NumericModel, NumericModel, NumericModel, NumericModel),
    ArrayError,
> {
    match o {
        ObjectModel::Array(items) => match spec_numbers(items) {
            Err(e) => Err(ArrayError::FailedArrayConvertion(e)),
            Ok(ns) => if ns.len() != 4 {
                Err(ArrayError::InvalidRectangleFormat { expected: 4, got: ns.len() as usize })
            } else {
                Ok((ns[0], ns[1], ns[2], ns[3]))
            },
        },
        _ => Err(ArrayError::UnexpectedObjectType),
    }
}

/// Reads an object as an array.
pub struct ArrayBuilder<'a> {
    pub array: &'a Object,
}

impl<'a> ArrayBuilder<'a> {
    /// A reader for `array`.
    pub fn new(array: &'a Object) -> (r: Self)
        ensures
            r.array == array,
    {
        ArrayBuilder { array }
    }

    /// A copy of the array.
    pub fn generic(&self) -> (r: Result<Array, ArrayError>)
        ensures
            match self.array@ {
                ObjectModel::Array(items) => r matches Ok(a) && a@ == items,
                _ => r == Err::<Array, ArrayError>(ArrayError::UnexpectedObjectType),
            },
    {
        match self.array {
            Object::Array(a) => Ok(a.copy()),
            _ => Err(ArrayError::UnexpectedObjectType),
        }
    }

    /// The array as a rectangle: exactly four numbers, the corners
    /// `[x1 y1 x2 y2]`.
    pub fn rectangle(&self) -> (r: Result<Rectangle, ArrayError>)
        ensures
            match spec_rectangle(self.array@) {
                Ok(v) => r matches Ok(x) && x@ == v,
                Err(e) => r == Err::<Rectangle, ArrayError>(e),
            },
    {
        let items = match self.array {
            Object::Array(a) => &a.data,
            _ => {
                return Err(ArrayError::UnexpectedObjectType);
            },
        };
        proof {
            lemma_objects_view(items@);
        }
        let ghost iv = objects_view(items@);
        let mut coords: Vec<Numeric> = Vec::new();
        let mut i: usize = 0;
        while i < items.len()
            invariant
                i <= items@.len(),
                iv == objects_view(items@),
                self.array@ == ObjectModel::Array(iv),
                iv.len() == items@.len(),
                forall|j: int| 0 <= j < items@.len() ==> #[trigger] iv[j] == items@[j]@,
                spec_numbers(iv.take(i as int)) matches Ok(ns) && ns.len() == coords@.len() && forall|j: int|
                    0 <= j < coords@.len() ==> #[trigger] coords@[j]@ == ns[j],
            decreases items@.len() - i,
        {
            assert(iv.take(i + 1).drop_last() =~= iv.take(i as int));
            match items[i].as_number() {
                Ok(n) => {
                    coords.push(copy_numeric(n));
                },
                Err(e) => {
                    proof {
                        lemma_numbers_error(iv, (i + 1) as int);
                        assert(iv.take(iv.len() as int) =~= iv);
                        assert(spec_numbers(iv.take(iv.len() as int)) == Err::<Seq<NumericModel>, ObjectError>(
                            ObjectError::UnexpectedObjectType { expected: ObjectKind::Real },
                        ));
                        assert(spec_numbers(iv) == Err::<Seq<NumericModel>, ObjectError>(
                            ObjectError::UnexpectedObjectType { expected: ObjectKind::Real },
                        ));
                        assert(self.array@ == ObjectModel::Array(iv));
                    }
                    return Err(ArrayError::FailedArrayConvertion(e));
                },
            }
            i = i + 1;
        }
        assert(iv.take(items@.len() as int) =~= iv);
        if coords.len() != 4 {
            return Err(ArrayError::InvalidRectangleFormat { expected: 4, got: coords.len() });
        }
        let y2 = coords.pop().unwrap();
        let x2 = coords.pop().unwrap();
        let y1 = coords.pop().unwrap();
        let x1 = coords.pop().unwrap();
        Ok(Rectangle { x1, y1, x2, y2 })
    }

    /// The elements converted by `init_fn`, which must accept every object;
    /// the first element that it fails on gives the error.
    pub fn of<O, F: Fn(&Object) -> Result<O, ObjectError>>(&self, init_fn: F) -> (r: Result<
        Vec<O>,
        ArrayError,
    >)
        requires
            forall|o: &Object| #[trigger] init_fn.requires((o,)),
        ensures
            match *self.array {
                Object::Array(a) => converted(a.data@, init_fn, r),
                _ => r matches Err(ArrayError::UnexpectedObjectType),
            },
    {
        match self.array {
            Object::Array(a) => convert_all(&a.data, init_fn),
            _ => Err(ArrayError::UnexpectedObjectType),
        }
    }
}

/// `r` is what converting the elements `items` one by one with `f` gives.
pub open spec fn converted<O, F: Fn(&Object) -> Result<O, ObjectError>>(
    items: Seq<Object>,
    f: F,
    r: Result<Vec<O>, ArrayError>,
) -> bool {
    match r {
        Ok(v) => v@.len() == items.len() && forall|i: int|
            0 <= i < v@.len() ==> #[trigger] f.ensures((&items[i],), Ok::<O, ObjectError>(v@[i])),
        Err(ArrayError::FailedArrayConvertion(e)) => exists|i: int|
            0 <= i < items.len() && #[trigger] f.ensures((&items[i],), Err::<O, ObjectError>(e)),
        Err(ArrayError::UnexpectedObjectType) => false,
        Err(ArrayError::InvalidRectangleFormat { .. }) => false,
    }
}

/// Converts the elements of `items` one by one with `f`.
fn convert_all<O, F: Fn(&Object) -> Result<O, ObjectError>>(items: &Vec<Object>, f: F) -> (r: Result<
    Vec<O>,
    ArrayError,
>)
    requires
        forall|o: &Object| #[trigger] f.requires((o,)),
    ensures
        converted(items@, f, r),
{
    let mut out: Vec<O> = Vec::new();
    let mut i: usize = 0;
    while i < items.len()
        invariant
            i <= items@.len(),
            out@.len() == i,
            forall|o: &Object| #[trigger] f.requires((o,)),
            forall|j: int|
                0 <= j < i ==> #[trigger] f.ensures((&items@[j],), Ok::<O, ObjectError>(out@[j])),
        decreases items@.len() - i,
    {
        match f(&items[i]) {
            Ok(x) => {
                out.push(x);
            },
            Err(e) => {
                assert(f.ensures((&items@[i as int],), Err::<O, ObjectError>(e)));
                return Err(ArrayError::FailedArrayConvertion(e));
            },
        }
        i = i + 1;
    }
    Ok(out)
}

/// A prefix of an array that ends in an element that is not a number has
/// no numbers.
proof fn lemma_numbers_error(items: Seq<ObjectModel>, k: int)
    requires
        0 < k <= items.len(),
        !(items[k - 1] is Numeric),
    ensures
        forall|m: int|
            k <= m <= items.len() ==> #[trigger] spec_numbers(items.take(m)) == Err::<Seq<NumericModel>, ObjectError>(
                ObjectError::UnexpectedObjectType { expected: ObjectKind::Real },
            ),
{
    assert forall|m: int| k <= m <= items.len() implies #[trigger] spec_numbers(items.take(m)) == Err::<
        Seq<NumericModel>,
        ObjectError,
    >(ObjectError::UnexpectedObjectType { expected: ObjectKind::Real }) by {
        lemma_numbers_error_at(items, k, m);
        lemma_numbers_error_value(items.take(m));
    }
}

/// The only error in reading numbers is an element that is not one.
proof fn lemma_numbers_error_value(items: Seq<ObjectModel>)
    requires
        spec_numbers(items) is Err,
    ensures
        spec_numbers(items) == Err::<Seq<NumericModel>, ObjectError>(
            ObjectError::UnexpectedObjectType { expected: ObjectKind::Real },
        ),
    decreases items.len(),
{
    if items.len() > 0 && spec_numbers(items.drop_last()) is Err {
        lemma_numbers_error_value(items.drop_last());
    }
}

proof fn lemma_numbers_error_at(items: Seq<ObjectModel>, k: int, m: int)
    requires
        0 < k <= m <= items.len(),
        !(items[k - 1] is Numeric),
    ensures
        spec_numbers(items.take(m)) is Err,
    decreases m,
{
    assert(items.take(m).drop_last() =~= items.take(m - 1));
    if m > k {
        lemma_numbers_error_at(items, k, m - 1);
    }
}

} // verus!
