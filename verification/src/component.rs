//! Type-erased component values.
//!
//! A [`Component`] is a shared handle to one stored value of any type,
//! tagged with the run-time identifier of that type. The value sits behind
//! a cell that checks borrows when they are taken: any number of readers or
//! one writer at a time, for each value on its own.

use std::any::Any;
use std::any::TypeId;
use std::cell::BorrowError;
use std::cell::BorrowMutError;
use std::cell::Ref;
use std::cell::RefCell;
use std::cell::RefMut;
use std::rc::Rc;
use vstd::prelude::*;

verus! {

/// `std::any::TypeId`, the run-time identifier of a type. Nothing is known
/// of a value but whether it equals another.
#[verifier::external_type_specification]
#[verifier::external_body]
pub struct ExTypeId(TypeId);

/// `std::cell::Ref`, a live shared borrow of a cell's value.
#[verifier::external_type_specification]
#[verifier::external_body]
#[verifier::reject_recursive_types(T)]
pub struct ExRef<'b, T: ?Sized>(Ref<'b, T>);

/// `std::cell::RefMut`, a live exclusive borrow of a cell's value.
#[verifier::external_type_specification]
#[verifier::external_body]
#[verifier::reject_recursive_types(T)]
pub struct ExRefMut<'b, T: ?Sized + 'b>(RefMut<'b, T>);

/// `std::cell::RefCell`, a cell that checks borrows of its value when they
/// are taken. To the verifier a cell is an opaque token.
#[verifier::external_type_specification]
#[verifier::external_body]
#[verifier::reject_recursive_types(T)]
pub struct ExRefCell<T: ?Sized>(RefCell<T>);

/// `std::cell::BorrowError`, what `RefCell::try_borrow` gives when the
/// value is borrowed for writing.
#[verifier::external_type_specification]
#[verifier::external_body]
pub struct ExBorrowError(BorrowError);

/// `std::cell::BorrowMutError`, what `RefCell::try_borrow_mut` gives when
/// the value is borrowed.
#[verifier::external_type_specification]
#[verifier::external_body]
pub struct ExBorrowMutError(BorrowMutError);

/// `TypeId::of` hands back the identifier of `T`. Nothing is claimed of the
/// value it returns.
pub assume_specification<T: ?Sized + 'static>[ TypeId::of::<T> ]() -> (id: TypeId);

/// `RefCell::new` puts a value in a new cell. Nothing is claimed of the
/// cell.
pub assume_specification<T>[ RefCell::<T>::new ](value: T) -> (cell: RefCell<T>);

/// `RefCell::try_borrow` borrows the value for reading, unless it is
/// borrowed for writing. Which of the two comes back depends on the borrows
/// alive at the time of the call; nothing is claimed of it.
pub assume_specification<T: ?Sized>[ RefCell::<T>::try_borrow ](cell: &RefCell<T>) -> (r: Result<
    Ref<'_, T>,
    BorrowError,
>);

/// `RefCell::try_borrow_mut` borrows the value for writing, unless it is
/// borrowed. Which of the two comes back depends on the borrows alive at
/// the time of the call; nothing is claimed of it.
pub assume_specification<T: ?Sized>[ RefCell::<T>::try_borrow_mut ](cell: &RefCell<T>) -> (r:
    Result<RefMut<'_, T>, BorrowMutError>);

/// `RefCell::into_inner` takes the cell apart and hands back its value.
/// Nothing is claimed of the value.
pub assume_specification<T>[ RefCell::<T>::into_inner ](cell: RefCell<T>) -> (value: T);

/// Compares two identifiers with `TypeId`'s own `==`, which holds exactly
/// when the two are the same identifier.
#[verifier::external_body]
pub(crate) fn same_type(a: &TypeId, b: &TypeId) -> (same: bool)
    ensures
        same == (*a == *b),
{
    a == b
}

/// Why a typed access to a stored value was turned down.
#[derive(Debug, Clone, Copy, PartialEq, Eq, Structural)]
pub enum AccessError {
    /// The value is borrowed in a way that rules the new borrow out: an
    /// exclusive borrow is live, or a shared one is and exclusive access
    /// was asked for.
    BorrowConflict,
    /// The stored value is not of the type asked for.
    TypeMismatch,
    /// Other handles to the value are alive, so it cannot be moved out.
    Shared,
}

/// A shared cell whose value's type has been forgotten: an `Rc<dyn Any>`
/// that points to a `RefCell` of some type. To the verifier it is an opaque
/// token; two tokens are equal when they stand for the same allocation.
#[verifier::external_body]
#[derive(Debug)]
struct ErasedCell {
    inner: Rc<dyn Any>,
}

impl ErasedCell {
    /// Forgets the type of the cell's value: the coercion of an
    /// `Rc<RefCell<T>>` to an `Rc<dyn Any>`.
    #[verifier::external_body]
    fn erase<T: 'static>(cell: Rc<RefCell<T>>) -> (erased: ErasedCell) {
        ErasedCell { inner: cell }
    }

    /// `Rc::clone`: a second handle to the same allocation.
    #[verifier::external_body]
    fn share(&self) -> (cell: ErasedCell)
        ensures
            cell == *self,
    {
        ErasedCell { inner: Rc::clone(&self.inner) }
    }

    /// `<dyn Any>::downcast_ref`: the cell with its type again, if its value
    /// is a `T`. Whether it is is not known to the verifier.
    #[verifier::external_body]
    fn typed<T: 'static>(&self) -> (cell: Option<&RefCell<T>>) {
        self.inner.downcast_ref::<RefCell<T>>()
    }

    /// `Rc::downcast`: the cell with its type again, if its value is a `T`;
    /// else the cell as it was. Whether it is is not known to the verifier.
    #[verifier::external_body]
    fn into_typed<T: 'static>(self) -> (cell: Result<Rc<RefCell<T>>, ErasedCell>) {
        match self.inner.downcast::<RefCell<T>>() {
            Ok(cell) => Ok(cell),
            Err(inner) => Err(ErasedCell { inner }),
        }
    }
}

/// What a typed borrow makes of the answers it gets. `found` is `None`
/// where the stored value is not of the wanted type, and else what the
/// value's cell answered to the borrow: the borrow, or its refusal.
pub open spec fn borrow_result<V, E>(found: Option<Result<V, E>>) -> Result<V, AccessError> {
    match found {
        Some(Ok(value)) => Ok(value),
        Some(Err(_)) => Err(AccessError::BorrowConflict),
        None => Err(AccessError::TypeMismatch),
    }
}

/// What moving a value out makes of the answers it gets. `found` is `Err`
/// where the stored value is not of the wanted type, and else what came of
/// taking the last handle apart: the value, or the handle back where it is
/// not the last.
pub open spec fn take_result<V, S, M>(found: Result<Result<V, S>, M>) -> Result<V, AccessError> {
    match found {
        Ok(Ok(value)) => Ok(value),
        Ok(Err(_)) => Err(AccessError::Shared),
        Err(_) => Err(AccessError::TypeMismatch),
    }
}

/// Turns the answers that a typed borrow got into its result: see
/// [`borrow_result`].
pub fn borrowed<V, E>(found: Option<Result<V, E>>) -> (r: Result<V, AccessError>)
    ensures
        r == borrow_result(found),
{
    match found {
        Some(Ok(value)) => Ok(value),
        Some(Err(_)) => Err(AccessError::BorrowConflict),
        None => Err(AccessError::TypeMismatch),
    }
}

/// Turns the answers that moving a value out got into its result: see
/// [`take_result`].
pub fn taken<V, S, M>(found: Result<Result<V, S>, M>) -> (r: Result<V, AccessError>)
    ensures
        r == take_result(found),
{
    match found {
        Ok(Ok(value)) => Ok(value),
        Ok(Err(_)) => Err(AccessError::Shared),
        Err(_) => Err(AccessError::TypeMismatch),
    }
}

/// Whether `answer` is what came of taking the handle `shared` apart: what
/// `Rc::try_unwrap` gave, which is the handle back where another handle is
/// alive, and else the value that `RefCell::into_inner` took out of the
/// cell.
pub open spec fn unwrapped<T>(shared: Rc<RefCell<T>>, answer: Result<T, Rc<RefCell<T>>>) -> bool {
    match answer {
        Ok(value) => exists|cell: RefCell<T>|
            call_ensures(Rc::<RefCell<T>>::try_unwrap, (shared,), Ok(cell))
                && #[trigger] call_ensures(RefCell::<T>::into_inner, (cell,), value),
        Err(back) => call_ensures(Rc::<RefCell<T>>::try_unwrap, (shared,), Err(back)),
    }
}

/// A stored value of some type, with the identifier of that type.
///
/// Handles made by [`Component::share`] reach the same value; the value
/// lives as long as any handle does.
#[derive(Debug)]
pub struct Component {
    key: TypeId,
    cell: ErasedCell,
}

impl Component {
    /// The identifier of the stored value's type.
    pub closed spec fn type_key(&self) -> TypeId {
        self.key
    }

    /// Whether the component's cell is one that was made to hold `data`:
    /// what `RefCell::new` made of `data`, behind a shared pointer, with its
    /// type forgotten.
    pub closed spec fn holds<T: 'static>(&self, data: T) -> bool {
        exists|shared: Rc<RefCell<T>>|
            call_ensures(RefCell::<T>::new, (data,), *shared) && #[trigger] call_ensures(
                ErasedCell::erase::<T>,
                (shared,),
                self.cell,
            )
    }

    /// Whether `found` is what the component answers to a shared borrow of
    /// its value as a `T`: `None` where its cell is not a cell of a `T`, and
    /// else what `RefCell::try_borrow` gave for that cell.
    pub closed spec fn lends<'a, T: 'static>(
        &'a self,
        found: Option<Result<Ref<'a, T>, BorrowError>>,
    ) -> bool {
        match found {
            Some(answer) => exists|cell: &RefCell<T>|
                #[trigger] call_ensures(ErasedCell::typed::<T>, (&self.cell,), Some(cell))
                    && call_ensures(RefCell::<T>::try_borrow, (cell,), answer),
            None => call_ensures(ErasedCell::typed::<T>, (&self.cell,), None),
        }
    }

    /// Whether `found` is what the component answers to an exclusive borrow
    /// of its value as a `T`: `None` where its cell is not a cell of a `T`,
    /// and else what `RefCell::try_borrow_mut` gave for that cell.
    pub closed spec fn lends_mut<'a, T: 'static>(
        &'a self,
        found: Option<Result<RefMut<'a, T>, BorrowMutError>>,
    ) -> bool {
        match found {
            Some(answer) => exists|cell: &RefCell<T>|
                #[trigger] call_ensures(ErasedCell::typed::<T>, (&self.cell,), Some(cell))
                    && call_ensures(RefCell::<T>::try_borrow_mut, (cell,), answer),
            None => call_ensures(ErasedCell::typed::<T>, (&self.cell,), None),
        }
    }

    /// Whether `found` is what the component answers to moving its value
    /// out as a `T`: `Err` where its cell is not a cell of a `T`, and else
    /// what came of taking the cell's last handle apart.
    pub closed spec fn gives<T: 'static>(
        &self,
        found: Result<Result<T, Rc<RefCell<T>>>, ()>,
    ) -> bool {
        match found {
            Ok(answer) => exists|shared: Rc<RefCell<T>>|
                #[trigger] call_ensures(ErasedCell::into_typed::<T>, (self.cell,), Ok(shared))
                    && unwrapped(shared, answer),
            Err(_) => exists|back: ErasedCell|
                #[trigger] call_ensures(ErasedCell::into_typed::<T>, (self.cell,), Err(back)),
        }
    }

    /// Whether `borrowed` is what a shared borrow of the component's value
    /// as a `T` comes to: `TypeMismatch` where the value is not a `T`,
    /// `BorrowConflict` where its cell refuses, and else the borrow that the
    /// cell hands out.
    pub open spec fn read_as<'a, T: 'static>(
        &'a self,
        borrowed: Result<Ref<'a, T>, AccessError>,
    ) -> bool {
        exists|found: Option<Result<Ref<'a, T>, BorrowError>>|
            #[trigger] self.lends(found) && borrowed == borrow_result(found)
    }

    /// Whether `borrowed` is what an exclusive borrow of the component's
    /// value as a `T` comes to: `TypeMismatch` where the value is not a `T`,
    /// `BorrowConflict` where its cell refuses, and else the borrow that the
    /// cell hands out.
    pub open spec fn written_as<'a, T: 'static>(
        &'a self,
        borrowed: Result<RefMut<'a, T>, AccessError>,
    ) -> bool {
        exists|found: Option<Result<RefMut<'a, T>, BorrowMutError>>|
            #[trigger] self.lends_mut(found) && borrowed == borrow_result(found)
    }

    /// Whether `moved` is what moving the component's value out as a `T`
    /// comes to: `TypeMismatch` where the value is not a `T`, `Shared` where
    /// another handle is alive, and else the value.
    pub open spec fn moved_as<T: 'static>(&self, moved: Result<T, AccessError>) -> bool {
        exists|found: Result<Result<T, Rc<RefCell<T>>>, ()>|
            #[trigger] self.gives(found) && moved == take_result(found)
    }

    /// Stores `data` and tags it with the identifier of `T`.
    pub fn new<T: 'static>(data: T) -> (component: Component)
        ensures
            call_ensures(TypeId::of::<T>, (), component.type_key()),
            component.holds(data),
    {
        let key = TypeId::of::<T>();
        let shared = Rc::new(RefCell::new(data));
        let ghost made = shared;
        let component = Component { key, cell: ErasedCell::erase(shared) };
        proof {
            assert(call_ensures(RefCell::<T>::new, (data,), *made));
            assert(call_ensures(ErasedCell::erase::<T>, (made,), component.cell));
        }
        component
    }

    /// The identifier of the stored value's type.
    pub fn key(&self) -> (key: TypeId)
        ensures
            key == self.type_key(),
    {
        self.key
    }

    /// Another handle to the same stored value.
    pub fn share(&self) -> (component: Component)
        ensures
            component == *self,
    {
        Component { key: self.key, cell: self.cell.share() }
    }

    /// Borrows the stored value for reading, as a `T`.
    ///
    /// Fails with `TypeMismatch` if the value is not a `T`, and else with
    /// `BorrowConflict` while an exclusive borrow of this value is alive.
    pub fn get_ref<T: 'static>(&self) -> (r: Result<Ref<'_, T>, AccessError>)
        ensures
            self.read_as(r),
    {
        let found = match self.cell.typed::<T>() {
            Some(cell) => Some(cell.try_borrow()),
            None => None,
        };
        proof {
            assert(self.lends(found));
        }
        borrowed(found)
    }

    /// Borrows the stored value for writing, as a `T`.
    ///
    /// Fails with `TypeMismatch` if the value is not a `T`, and else with
    /// `BorrowConflict` while any other borrow of this value is alive.
    pub fn get_mut<T: 'static>(&self) -> (r: Result<RefMut<'_, T>, AccessError>)
        ensures
            self.written_as(r),
    {
        let found = match self.cell.typed::<T>() {
            Some(cell) => Some(cell.try_borrow_mut()),
            None => None,
        };
        proof {
            assert(self.lends_mut(found));
        }
        borrowed(found)
    }

    /// Moves the stored value out, as a `T`.
    ///
    /// Fails with `TypeMismatch` if the value is not a `T`, and else with
    /// `Shared` while another handle to the value is alive.
    pub fn into_inner<T: 'static>(self) -> (r: Result<T, AccessError>)
        ensures
            self.moved_as(r),
    {
        let found = match self.cell.into_typed::<T>() {
            Ok(shared) => {
                let ghost typed = shared;
                let answer = match Rc::try_unwrap(shared) {
                    Ok(cell) => {
                        let value = cell.into_inner();
                        proof {
                            assert(Ok::<T, Rc<RefCell<T>>>(value)->Ok_0 == value);
                        }
                        Ok(value)
                    },
                    Err(back) => Err(back),
                };
                proof {
                    assert(unwrapped(typed, answer));
                }
                Ok(answer)
            },
            Err(_) => Err(()),
        };
        proof {
            assert(self.gives(found));
        }
        taken(found)
    }
}

} // verus!
