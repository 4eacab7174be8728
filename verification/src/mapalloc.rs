//! Where tables get their memory from.

use vstd::prelude::*;

verus! {

/// The size and the alignment of a block of memory, in bytes.
#[derive(Clone, Copy, PartialEq, Eq, Debug, Structural)]
pub struct Layout {
    pub size: usize,
    pub align: usize,
}

impl Layout {
    /// The layout of a value of type `T`.
    pub fn new<T>() -> (r: Layout)
        ensures
            r.size == vstd::layout::size_of::<T>(),
            r.align == vstd::layout::align_of::<T>(),
            vstd::arithmetic::power2::is_pow2(r.align as int),
            r.size as int % r.align as int == 0,
    {
        proof {
            broadcast use vstd::layout::align_properties;

        }
        Layout { size: core::mem::size_of::<T>(), align: core::mem::align_of::<T>() }
    }

    /// The layout with the given size and alignment.
    pub fn from_size_align_unchecked(size: usize, align: usize) -> (r: Layout)
        requires
            vstd::arithmetic::power2::is_pow2(align as int),
        ensures
            r == (Layout { size, align }),
    {
        Layout { size, align }
    }
}

/// The memory that was asked for cannot be had.
#[derive(Clone, Copy, PartialEq, Eq, Debug, Structural)]
pub struct AllocError;

/// Hands out blocks of memory and takes them back.
pub trait Allocator {
    /// A block of the given layout, with any content, or an error where there is none to be
    /// had.
    fn allocate(&self, layout: Layout) -> (r: Result<Vec<u8>, AllocError>)
        ensures
            r matches Ok(block) ==> block@.len() == layout.size,
    ;

    /// Takes back a block that was handed out for the given layout.
    fn deallocate(&self, block: Vec<u8>, layout: Layout)
        requires
            block@.len() == layout.size,
    ;
}

/// The allocator answered a request for the given layout with an error.
pub open spec fn refused<A: Allocator>(allocator: A, layout: Layout) -> bool {
    call_ensures(A::allocate, (&allocator, layout), Err::<Vec<u8>, AllocError>(AllocError))
}

/// The allocator took a block of the given layout back.
pub open spec fn taken_back<A: Allocator>(
    allocator: A,
    block: Vec<u8>,
    layout: Layout,
) -> bool {
    call_ensures(A::deallocate, (&allocator, block, layout), ())
}

/// What a request for `size` bytes is answered, given how the attempt to reserve them in `block`
/// went: a block of that many zero bytes, or an error.
pub fn block_after_reserve(
    block: Vec<u8>,
    reserved: Result<(), std::collections::TryReserveError>,
    size: usize,
) -> (r: Result<Vec<u8>, AllocError>)
    requires
        block@.len() == 0,
    ensures
        reserved is Err ==> r == Err::<Vec<u8>, AllocError>(AllocError),
        reserved is Ok ==> (r matches Ok(b) && b@ == Seq::new(size as nat, |i: int| 0u8)),
{
    match reserved {
        Ok(_) => {
            let mut block: Vec<u8> = block;
            block.resize(size, 0u8);
            assert(block@ =~= Seq::new(size as nat, |i: int| 0u8));
            Ok(block)
        },
        Err(_) => Err(AllocError),
    }
}

/// The allocator of the process.
#[derive(Clone, Copy)]
pub struct Global;

impl Allocator for Global {
    /// A block of zero bytes. A block without any bytes is always to be had; whether a larger
    /// one is, depends on the memory of the process.
    fn allocate(&self, layout: Layout) -> (r: Result<Vec<u8>, AllocError>)
        ensures
            layout.size == 0 ==> r is Ok,
            r matches Ok(block) ==> block@ == Seq::new(layout.size as nat, |i: int| 0u8),
            layout.size > 0 ==> exists|
                vec: &mut Vec<u8>,
                reserved: Result<(), std::collections::TryReserveError>,
            | #[trigger]
                call_ensures(Vec::<u8>::try_reserve, (vec, layout.size), reserved) && vec@.len()
                    == 0 && (r is Ok <==> reserved is Ok),
    {
        let mut block: Vec<u8> = Vec::new();
        if layout.size == 0 {
            assert(block@ =~= Seq::new(0, |i: int| 0u8));
            return Ok(block);
        }
        let reserved: Result<(), std::collections::TryReserveError> = block.try_reserve(
            layout.size,
        );
        block_after_reserve(block, reserved, layout.size)
    }

    fn deallocate(&self, block: Vec<u8>, layout: Layout) {
    }
}

/// The process answers a request with an error only where an attempt to reserve that many bytes,
/// in a vector without any, came to an error; where the attempt succeeds there is a block, which
/// has the size that was asked for.
pub proof fn law_global_refuses_only_what_cannot_be_reserved(
    global: Global,
    layout: Layout,
    r: Result<Vec<u8>, AllocError>,
)
    requires
        call_ensures(<Global as Allocator>::allocate, (&global, layout), r),
    ensures
        r is Err ==> exists|vec: &mut Vec<u8>, error: std::collections::TryReserveError|
            #[trigger]
            call_ensures(
                Vec::<u8>::try_reserve,
                (vec, layout.size),
                Err::<(), std::collections::TryReserveError>(error),
            ) && vec@.len() == 0,
        layout.size == 0 ==> r is Ok,
        r matches Ok(block) ==> block@.len() == layout.size,
        r matches Ok(block) ==> forall|i: int|
            0 <= i < block@.len() ==> #[trigger] block@[i] == 0,
{
    if r is Err {
        let (vec, reserved) = choose|
            vec: &mut Vec<u8>,
            reserved: Result<(), std::collections::TryReserveError>,
        | #[trigger]
            call_ensures(Vec::<u8>::try_reserve, (vec, layout.size), reserved) && vec@.len() == 0
                && (r is Ok <==> reserved is Ok);
        if let Err(error) = reserved {
            assert(call_ensures(
                Vec::<u8>::try_reserve,
                (vec, layout.size),
                Err::<(), std::collections::TryReserveError>(error),
            ));
        }
    }
}

/// A block of the given layout from `allocator`.
pub fn self_allocate<A: Allocator>(allocator: &A, layout: Layout) -> (r: Result<
    Vec<u8>,
    AllocError,
>)
    ensures
        call_ensures(A::allocate, (allocator, layout), r),
        r matches Ok(block) ==> block@.len() == layout.size,
{
    allocator.allocate(layout)
}

} // verus!
