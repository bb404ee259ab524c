//! The kernel heap allocator: pools of blocks of fixed sizes in front of a
//! linked-list heap.

use vstd::prelude::*;
use core::mem::MaybeUninit;
use crate::allocator::fallback::{one_hole, power_of_two, whole_words, word, MIN_HEAP_SIZE};
use crate::memory::addr::align_up_spec;
use crate::allocator::pool::PoolAllocator;

pub mod fallback;
pub mod pool;

verus! {

/// Clearing the bits below a power of two takes the low bits away.
proof fn lemma_round(x: u64, a: u64)
    by (bit_vector)
    requires
        a != 0 && a & ((a - 1) as u64) == 0,
    ensures
        x & !((a - 1) as u64) == x - (x & ((a - 1) as u64)),
{
}

/// The bits below each power of two are the remainder of the division by
/// it.
proof fn lemma_masks(x: u64)
    by (bit_vector)
    ensures
        x & 0x0u64 == x % 0x1u64,
        x & 0x1u64 == x % 0x2u64,
        x & 0x3u64 == x % 0x4u64,
        x & 0x7u64 == x % 0x8u64,
        x & 0xfu64 == x % 0x10u64,
        x & 0x1fu64 == x % 0x20u64,
        x & 0x3fu64 == x % 0x40u64,
        x & 0x7fu64 == x % 0x80u64,
        x & 0xffu64 == x % 0x100u64,
        x & 0x1ffu64 == x % 0x200u64,
        x & 0x3ffu64 == x % 0x400u64,
        x & 0x7ffu64 == x % 0x800u64,
        x & 0xfffu64 == x % 0x1000u64,
        x & 0x1fffu64 == x % 0x2000u64,
        x & 0x3fffu64 == x % 0x4000u64,
        x & 0x7fffu64 == x % 0x8000u64,
        x & 0xffffu64 == x % 0x10000u64,
        x & 0x1ffffu64 == x % 0x20000u64,
        x & 0x3ffffu64 == x % 0x40000u64,
        x & 0x7ffffu64 == x % 0x80000u64,
        x & 0xfffffu64 == x % 0x100000u64,
        x & 0x1fffffu64 == x % 0x200000u64,
        x & 0x3fffffu64 == x % 0x400000u64,
        x & 0x7fffffu64 == x % 0x800000u64,
        x & 0xffffffu64 == x % 0x1000000u64,
        x & 0x1ffffffu64 == x % 0x2000000u64,
        x & 0x3ffffffu64 == x % 0x4000000u64,
        x & 0x7ffffffu64 == x % 0x8000000u64,
        x & 0xfffffffu64 == x % 0x10000000u64,
        x & 0x1fffffffu64 == x % 0x20000000u64,
        x & 0x3fffffffu64 == x % 0x40000000u64,
        x & 0x7fffffffu64 == x % 0x80000000u64,
        x & 0xffffffffu64 == x % 0x100000000u64,
        x & 0x1ffffffffu64 == x % 0x200000000u64,
        x & 0x3ffffffffu64 == x % 0x400000000u64,
        x & 0x7ffffffffu64 == x % 0x800000000u64,
        x & 0xfffffffffu64 == x % 0x1000000000u64,
        x & 0x1fffffffffu64 == x % 0x2000000000u64,
        x & 0x3fffffffffu64 == x % 0x4000000000u64,
        x & 0x7fffffffffu64 == x % 0x8000000000u64,
        x & 0xffffffffffu64 == x % 0x10000000000u64,
        x & 0x1ffffffffffu64 == x % 0x20000000000u64,
        x & 0x3ffffffffffu64 == x % 0x40000000000u64,
        x & 0x7ffffffffffu64 == x % 0x80000000000u64,
        x & 0xfffffffffffu64 == x % 0x100000000000u64,
        x & 0x1fffffffffffu64 == x % 0x200000000000u64,
        x & 0x3fffffffffffu64 == x % 0x400000000000u64,
        x & 0x7fffffffffffu64 == x % 0x800000000000u64,
        x & 0xffffffffffffu64 == x % 0x1000000000000u64,
        x & 0x1ffffffffffffu64 == x % 0x2000000000000u64,
        x & 0x3ffffffffffffu64 == x % 0x4000000000000u64,
        x & 0x7ffffffffffffu64 == x % 0x8000000000000u64,
        x & 0xfffffffffffffu64 == x % 0x10000000000000u64,
        x & 0x1fffffffffffffu64 == x % 0x20000000000000u64,
        x & 0x3fffffffffffffu64 == x % 0x40000000000000u64,
        x & 0x7fffffffffffffu64 == x % 0x80000000000000u64,
        x & 0xffffffffffffffu64 == x % 0x100000000000000u64,
        x & 0x1ffffffffffffffu64 == x % 0x200000000000000u64,
        x & 0x3ffffffffffffffu64 == x % 0x400000000000000u64,
        x & 0x7ffffffffffffffu64 == x % 0x800000000000000u64,
        x & 0xfffffffffffffffu64 == x % 0x1000000000000000u64,
        x & 0x1fffffffffffffffu64 == x % 0x2000000000000000u64,
        x & 0x3fffffffffffffffu64 == x % 0x4000000000000000u64,
        x & 0x7fffffffffffffffu64 == x % 0x8000000000000000u64,
{
}

/// The powers of two that 64 bits hold.
proof fn lemma_powers(a: u64)
    by (bit_vector)
    requires
        a != 0 && a & ((a - 1) as u64) == 0,
    ensures
        a == 0x1u64
            || a == 0x2u64
            || a == 0x4u64
            || a == 0x8u64
            || a == 0x10u64
            || a == 0x20u64
            || a == 0x40u64
            || a == 0x80u64
            || a == 0x100u64
            || a == 0x200u64
            || a == 0x400u64
            || a == 0x800u64
            || a == 0x1000u64
            || a == 0x2000u64
            || a == 0x4000u64
            || a == 0x8000u64
            || a == 0x10000u64
            || a == 0x20000u64
            || a == 0x40000u64
            || a == 0x80000u64
            || a == 0x100000u64
            || a == 0x200000u64
            || a == 0x400000u64
            || a == 0x800000u64
            || a == 0x1000000u64
            || a == 0x2000000u64
            || a == 0x4000000u64
            || a == 0x8000000u64
            || a == 0x10000000u64
            || a == 0x20000000u64
            || a == 0x40000000u64
            || a == 0x80000000u64
            || a == 0x100000000u64
            || a == 0x200000000u64
            || a == 0x400000000u64
            || a == 0x800000000u64
            || a == 0x1000000000u64
            || a == 0x2000000000u64
            || a == 0x4000000000u64
            || a == 0x8000000000u64
            || a == 0x10000000000u64
            || a == 0x20000000000u64
            || a == 0x40000000000u64
            || a == 0x80000000000u64
            || a == 0x100000000000u64
            || a == 0x200000000000u64
            || a == 0x400000000000u64
            || a == 0x800000000000u64
            || a == 0x1000000000000u64
            || a == 0x2000000000000u64
            || a == 0x4000000000000u64
            || a == 0x8000000000000u64
            || a == 0x10000000000000u64
            || a == 0x20000000000000u64
            || a == 0x40000000000000u64
            || a == 0x80000000000000u64
            || a == 0x100000000000000u64
            || a == 0x200000000000000u64
            || a == 0x400000000000000u64
            || a == 0x800000000000000u64
            || a == 0x1000000000000000u64
            || a == 0x2000000000000000u64
            || a == 0x4000000000000000u64
            || a == 0x8000000000000000u64,
{
}

/// The bits below a power of two are the remainder of the division by it.
proof fn lemma_mask_is_mod(x: u64, a: u64)
    requires
        a != 0 && a & ((a - 1) as u64) == 0,
    ensures
        x & ((a - 1) as u64) == x % a,
{
    lemma_masks(x);
    lemma_powers(a);
}

/// Rounds an address up to the alignment: the least multiple of the
/// alignment that is at least the address.
pub fn align_up(addr: usize, align: usize) -> (aligned: usize)
    requires
        power_of_two(align),
        addr + (align - 1) <= usize::MAX,
    ensures
        aligned == align_up_spec(addr as int, align as int),
{
    let mask: usize = align - 1;
    let sum: usize = addr + mask;
    proof {
        let x = sum as u64;
        let a = align as u64;
        assert(a != 0 && a & ((a - 1) as u64) == 0) by (bit_vector)
            requires
                align != 0 && align & ((align - 1) as usize) == 0,
                a == align as u64,
        ;
        assert(sum & !mask == x & !((a - 1) as u64)) by (bit_vector)
            requires
                x == sum as u64,
                a == align as u64,
                mask == (align - 1) as usize,
                align != 0,
        ;
        lemma_round(x, a);
        lemma_mask_is_mod(x, a);
        let q = addr as int / align as int;
        let r = addr as int % align as int;
        vstd::arithmetic::div_mod::lemma_fundamental_div_mod(addr as int, align as int);
        vstd::arithmetic::div_mod::lemma_mod_bound(addr as int, align as int);
        if r == 0 {
            vstd::arithmetic::div_mod::lemma_fundamental_div_mod_converse(
                sum as int,
                align as int,
                q,
                align - 1,
            );
        } else {
            assert(sum as int == (q + 1) * align + (r - 1)) by (nonlinear_arith)
                requires
                    addr as int == align * q + r,
                    sum as int == addr + align - 1,
            ;
            vstd::arithmetic::div_mod::lemma_fundamental_div_mod_converse(
                sum as int,
                align as int,
                q + 1,
                r - 1,
            );
        }
    }
    sum & !mask
}

/// Gives the allocator the memory of the heap. Fails, and changes nothing,
/// where the allocator has memory already or the memory is shorter than
/// three words.
pub fn init(allocator: &mut PoolAllocator, mem: &'static mut [MaybeUninit<u8>]) -> (done: Result<
    (),
    (),
>)
    ensures
        done.is_ok() <==> old(allocator).bottom() == 0 && old(mem)@.len() >= MIN_HEAP_SIZE,
        final(allocator)@.buckets == old(allocator)@.buckets,
        done.is_ok() ==> {
            &&& final(allocator).bottom() != 0
            &&& final(allocator).bottom() <= final(allocator).top()
            &&& old(mem)@.len() - word() < final(allocator).top() - final(allocator).bottom()
                <= old(mem)@.len()
            &&& final(allocator).bottom() % word() == 0
            &&& final(allocator)@.holes == whole_words(
                final(allocator).bottom(),
                final(allocator).top(),
            )
            &&& final(allocator)@.hole_list == one_hole(
                final(allocator).bottom(),
                final(allocator).top(),
            )
        },
        done.is_ok() && old(allocator)@.unused() ==> final(allocator)@.consistent(),
        done.is_err() ==> final(allocator)@ == old(allocator)@,
{
    if allocator.init(mem) {
        Ok(())
    } else {
        Err(())
    }
}

} // verus!
