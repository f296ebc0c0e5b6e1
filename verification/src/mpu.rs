//! The stack guard: one 32-byte granule at the bottom of the stack that the
//! memory protection unit makes inaccessible, so that a stack overflow
//! faults instead of running into other data.
//!
//! The guard uses protection region 0, a 256-byte region of eight 32-byte
//! sub-regions. The region denies every access and is switched off in seven
//! of its sub-regions; the one left on is the granule just above the end of
//! the stack.

use vstd::prelude::*;

verus! {

/// Value of the control register: unit enabled, default map in the background.
pub const MPU_CTRL_ENABLE: u32 = 5;

/// Bit of the region base address register that says the region number in
/// its low bits is valid.
pub const MPU_RBAR_VALID: u32 = 0x10;

/// Attribute word of the guard region without its sub-region mask: region
/// enabled, size 256 bytes, no instruction fetch, no access.
pub const MPU_RASR_GUARD: u32 = 0x1000_000f;

/// The three register values that install the guard, in the order in which
/// they are written.
#[derive(Clone, Copy, Debug, PartialEq, Eq, Structural)]
pub struct StackGuard {
    /// Control register.
    pub ctrl: u32,
    /// Region base address register.
    pub rbar: u32,
    /// Region attribute and size register.
    pub rasr: u32,
}

/// The guarded granule: the lowest 32-byte boundary at or above the end of
/// the stack.
pub open spec fn guard_address(stack_bottom: u32) -> u32 {
    ((stack_bottom + 31) as u32) & !31u32
}

/// The sub-region mask: one bit per 32-byte sub-region of the 256-byte
/// region, zero for the guarded granule and one for the seven others.
pub open spec fn subregion_disable(address: u32) -> u32 {
    0xffu32 ^ (1u32 << ((address >> 5) & 7))
}

/// The register values that guard the stack that ends at `stack_bottom`.
pub open spec fn stack_guard(stack_bottom: u32) -> StackGuard {
    let address = guard_address(stack_bottom);
    StackGuard {
        ctrl: MPU_CTRL_ENABLE,
        rbar: (address & !0xffu32) | MPU_RBAR_VALID,
        rasr: MPU_RASR_GUARD | (subregion_disable(address) << 8),
    }
}

/// Plans the stack guard for a stack whose lowest address is `stack_bottom`.
///
/// `mpu_ctrl` is the current value of the control register of the protection
/// unit. A unit that is already configured is left alone: the call fails.
/// Otherwise the result holds the values to write.
pub fn install_stack_guard(mpu_ctrl: u32, stack_bottom: u32) -> (plan: Result<StackGuard, ()>)
    requires
        stack_bottom <= u32::MAX - 31,
    ensures
        plan == if mpu_ctrl != 0 {
            Err::<StackGuard, ()>(())
        } else {
            Ok::<StackGuard, ()>(stack_guard(stack_bottom))
        },
{
    if mpu_ctrl != 0 {
        return Err(());
    }
    let address: u32 = (stack_bottom + 31) & !31u32;
    let index: u32 = (address >> 5) & 7;
    assert(index < 8) by (bit_vector)
        requires
            index == (address >> 5) & 7,
    ;
    let disable: u32 = 0xffu32 ^ (1u32 << index);
    Ok(
        StackGuard {
            ctrl: MPU_CTRL_ENABLE,
            rbar: (address & !0xffu32) | MPU_RBAR_VALID,
            rasr: MPU_RASR_GUARD | (disable << 8),
        },
    )
}

/// Where the guard lies: on a 32-byte boundary, at most 31 bytes above the
/// end of the stack, inside the 256-byte region that the base address
/// register names, in the one sub-region that the mask leaves enabled.
pub proof fn lemma_stack_guard_geometry(stack_bottom: u32)
    requires
        stack_bottom <= u32::MAX - 31,
    ensures
        guard_address(stack_bottom) % 32 == 0,
        stack_bottom <= guard_address(stack_bottom) <= stack_bottom + 31,
        stack_guard(stack_bottom).rbar == (guard_address(stack_bottom) / 256) * 256 + 16,
        subregion_disable(guard_address(stack_bottom)) < 256,
        forall|k: u32|
            k < 8 ==> ((subregion_disable(guard_address(stack_bottom)) >> k) & 1 == 0 <==> k
                == (guard_address(stack_bottom) / 32) % 8),
{
    let s = stack_bottom;
    let sum: u32 = (s + 31) as u32;
    let a = guard_address(s);
    assert(a == sum & !31u32);
    assert((sum & !31u32) % 32 == 0 && sum - 31 <= (sum & !31u32) && (sum & !31u32) <= sum)
        by (bit_vector)
        requires
            sum >= 31,
    ;
    assert((a & !0xffu32) | 0x10u32 == (a / 256) * 256 + 16) by (bit_vector);
    let d = subregion_disable(a);
    assert(d < 256) by (bit_vector)
        requires
            d == 0xffu32 ^ (1u32 << ((a >> 5) & 7)),
    ;
    assert forall|k: u32| k < 8 implies ((d >> k) & 1 == 0 <==> k == (a / 32) % 8) by {
        assert((d >> k) & 1 == 0 <==> k == (a / 32) % 8) by (bit_vector)
            requires
                k < 8,
                d == 0xffu32 ^ (1u32 << ((a >> 5) & 7)),
        ;
    }
}

} // verus!
