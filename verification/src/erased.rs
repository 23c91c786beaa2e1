//! Type-erased component values.

use vstd::prelude::*;
use crate::Component;

verus! {

/// A component value with its concrete type erased, so that bags of
/// differently-typed components can live in one store. The store never
/// looks inside; it only moves these boxes around, which is why the
/// store's contracts can speak of them by identity.
#[verifier::external_body]
pub struct Erased {
    value: std::boxed::Box<dyn core::any::Any>,
}

/// Relies on `Box::new` and the unsizing coercion to `dyn Any`: moves the
/// component onto the heap and erases its type.
#[verifier::external_body]
pub fn erase<T: Component>(value: T) -> Erased {
    Erased { value: std::boxed::Box::new(value) }
}

/// Relies on `<dyn Any>::downcast_ref`: returns a reference to the stored
/// value exactly when it was erased from type `T`.
#[verifier::external_body]
pub fn erased_ref<T: Component>(erased: &Erased) -> Option<&T> {
    erased.value.downcast_ref::<T>()
}

/// Relies on `<dyn Any>::downcast_mut`: exclusive access to the stored
/// value exactly when it was erased from type `T`. Whatever the caller
/// writes through the reference, the box then holds that value of `T`.
#[verifier::external_body]
pub fn erased_mut<T: Component>(erased: &mut Erased) -> Option<&mut T> {
    erased.value.downcast_mut::<T>()
}

/// Relies on `TypeId::of` and its `Hash` impl: one call per type, hashed
/// to a word-sized key. Within a process the same type always yields the
/// same key; distinct types yield distinct `TypeId`s, which the hash
/// keeps apart in all but astronomically unlikely collisions, and even
/// then `erased_ref` still refuses a value of the wrong type.
#[verifier::external_body]
pub fn key_of<T: Component>() -> u64 {
    let mut hasher = std::collections::hash_map::DefaultHasher::new();
    std::hash::Hash::hash(&core::any::TypeId::of::<T>(), &mut hasher);
    std::hash::Hasher::finish(&hasher)
}

} // verus!
