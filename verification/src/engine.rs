use vstd::prelude::*;
use godot::builtin::{PackedByteArray, Rid};

verus! {

/// Godot's resource handle, carried through unread.
#[verifier::external_type_specification]
#[verifier::external_body]
pub struct ExRid(Rid);

/// An engine byte array (Godot's `PackedByteArray`), owned by the Godot engine. Its contents
/// are `engine_bytes`.
#[verifier::external_body]
#[derive(Debug, PartialEq)]
pub struct EngineBytes {
    pub array: PackedByteArray,
}

/// The bytes that an engine byte array holds.
pub uninterp spec fn engine_bytes(a: EngineBytes) -> Seq<u8>;

/// `PackedArray::new`: an empty array (`Default`). Like every call on an engine array, it
/// needs the Godot engine to be running, which nothing here states.
#[verifier::external_body]
pub(crate) fn new_engine_bytes() -> (a: EngineBytes)
    ensures
        engine_bytes(a) == Seq::<u8>::empty(),
{
    EngineBytes { array: PackedByteArray::new() }
}

/// `PackedArray::clone`: an array with the same bytes (the engine shares the storage until
/// one side writes).
#[verifier::external_body]
pub(crate) fn clone_engine_bytes(a: &EngineBytes) -> (b: EngineBytes)
    ensures
        engine_bytes(b) == engine_bytes(*a),
{
    EngineBytes { array: a.array.clone() }
}

/// `PackedArray::len`: the number of bytes held.
#[verifier::external_body]
pub(crate) fn engine_bytes_len(a: &EngineBytes) -> (n: usize)
    ensures
        n == engine_bytes(*a).len(),
{
    a.array.len()
}

/// `PackedArray::resize`: keeps the first `size` bytes and fills any new ones with the
/// default value, zero.
#[verifier::external_body]
pub(crate) fn resize_engine_bytes(a: &mut EngineBytes, size: usize)
    ensures
        engine_bytes(*final(a)).len() == size,
        forall|i: int| 0 <= i < size && i < engine_bytes(*old(a)).len()
            ==> #[trigger] engine_bytes(*final(a))[i] == engine_bytes(*old(a))[i],
        forall|i: int| engine_bytes(*old(a)).len() <= i < size ==> #[trigger] engine_bytes(*final(a))[i] == 0,
{
    a.array.resize(size);
}

/// `PackedArray::as_mut_slice` followed by `copy_from_slice`: overwrites every byte with
/// `bytes`, which must be as long as the array (else `copy_from_slice` panics).
#[verifier::external_body]
pub(crate) fn overwrite_engine_bytes(a: &mut EngineBytes, bytes: &[u8])
    requires
        engine_bytes(*old(a)).len() == bytes@.len(),
    ensures
        engine_bytes(*final(a)) == bytes@,
{
    a.array.as_mut_slice().copy_from_slice(bytes);
}

} // verus!
