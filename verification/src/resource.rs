//! Process-wide singletons with an update hook.

use vstd::prelude::*;

verus! {

/// Resources are type-keyed singletons that live beside the entities.
/// Each one is driven once per tick through its `update` method, before
/// any system runs. The store recovers the concrete type behind the
/// erased cell with the language's own runtime type introspection, so
/// no downcast hook is needed here.
pub trait Resource: 'static {
    /// Called once at the start of every tick.
    fn update(&mut self) {
    }
}

/// A resource with its concrete type erased, together with a thunk that
/// remembers how to drive its `update` hook. The store keeps these in
/// its resource table and only ever drives them through `res_update` or
/// hands out downcast references.
#[verifier::external_body]
pub struct ResourceCell {
    value: std::boxed::Box<dyn core::any::Any>,
    run_update: fn(&mut ResourceCell),
}

/// Relies on `<dyn Any>::downcast_mut`: recovers the resource the cell
/// was built from and runs its `update` hook.
#[verifier::external_body]
fn update_erased<T: Resource>(cell: &mut ResourceCell) {
    match cell.value.downcast_mut::<T>() {
        Some(v) => v.update(),
        None => {},
    }
}

/// Relies on `Box::new` and the unsizing coercion to `dyn Any`: moves
/// the resource onto the heap and erases its type, pairing it with its
/// own `update` thunk.
#[verifier::external_body]
pub(crate) fn res_cell<T: Resource>(value: T) -> ResourceCell {
    ResourceCell { value: std::boxed::Box::new(value), run_update: update_erased::<T> }
}

/// Runs the user's `update` hook on the erased resource. The hook is
/// arbitrary user code, so nothing is promised about the cell afterwards.
#[verifier::external_body]
pub(crate) fn res_update(cell: &mut ResourceCell) {
    let f = cell.run_update;
    f(cell);
}

/// Relies on `<dyn Any>::downcast_ref`: returns a reference to the
/// stored resource exactly when the cell was built from type `T`.
#[verifier::external_body]
pub(crate) fn res_ref<T: Resource>(cell: &ResourceCell) -> Option<&T> {
    cell.value.downcast_ref::<T>()
}

/// Relies on `<dyn Any>::downcast_mut`: exclusive access to the stored
/// resource exactly when the cell was built from type `T`.
#[verifier::external_body]
pub(crate) fn res_mut<T: Resource>(cell: &mut ResourceCell) -> Option<&mut T> {
    cell.value.downcast_mut::<T>()
}

} // verus!
