//! Model of the device-side instance buffer and of the writes that keep it
//! in step with the host.

use vstd::arithmetic::power2::{lemma_pow2_unfold, pow2};
use vstd::prelude::*;

verus! {

/// Bytes of one serialized instance record: a 4x4 matrix of 32-bit floats.
pub const RECORD_SIZE: u64 = 64;

/// Byte size of a freshly created instance buffer.
pub const INITIAL_MIRROR_BYTES: u64 = 4;

/// Largest number of live instances: a draw call counts instances in 32 bits.
pub const MAX_INSTANCES: usize = 0xffff_ffff;

/// Largest buffer size the registry ever asks for.
pub const MAX_MIRROR_BYTES: u64 = 0x100_0000_0000;

/// The serialized transform matrix of one instance.
pub type InstanceBytes = [u8; 64];

/// One operation on the device buffer, to be carried out by the caller.
#[derive(Debug, PartialEq, Eq)]
pub enum MirrorOp {
    /// Write `record` into the current buffer at byte `offset`.
    Write { offset: u64, record: InstanceBytes },
    /// Drop the current buffer, create a zero-filled one of `size` bytes and
    /// upload `contents` to it at offset 0.
    Realloc { size: u64, contents: Vec<u8> },
}

/// `mem` with `bytes` written at `offset`.
pub open spec fn write_at(mem: Seq<u8>, offset: int, bytes: Seq<u8>) -> Seq<u8> {
    Seq::new(
        mem.len(),
        |i: int|
            if offset <= i < offset + bytes.len() {
                bytes[i - offset]
            } else {
                mem[i]
            },
    )
}

/// A zero-filled buffer of `size` bytes.
pub open spec fn zeroed(size: nat) -> Seq<u8> {
    Seq::new(size, |i: int| 0u8)
}

/// The buffer contents after `op` is carried out on `mem`.
pub open spec fn apply_op(mem: Seq<u8>, op: MirrorOp) -> Seq<u8> {
    match op {
        MirrorOp::Write { offset, record } => write_at(mem, offset as int, record@),
        MirrorOp::Realloc { size, contents } => write_at(zeroed(size as nat), 0, contents@),
    }
}

/// The record stored in slot `i` of `mem`.
pub open spec fn record_at(mem: Seq<u8>, i: int) -> Seq<u8> {
    mem.subrange(i * RECORD_SIZE as int, (i + 1) * RECORD_SIZE as int)
}

/// The capacity reached from `cap` by doubling until `need` bytes fit.
pub open spec fn grown_capacity(cap: nat, need: nat) -> nat
    decreases (if cap < need { need - cap } else { 0 }),
{
    if cap == 0 || cap >= need {
        cap
    } else {
        grown_capacity(2 * cap, need)
    }
}

/// Growth only doubles: the capacity reached from `cap` is the smallest
/// power-of-two multiple of `cap` that holds `need` bytes.
pub proof fn lemma_growth_is_least_doubling(cap: nat, need: nat)
    requires
        cap > 0,
    ensures
        exists|k: nat|
            {
                &&& grown_capacity(cap, need) == cap * #[trigger] pow2(k)
                &&& cap * pow2(k) >= need
                &&& k > 0 ==> cap * pow2((k - 1) as nat) < need
            },
    decreases (if cap < need { need - cap } else { 0 }),
{
    if cap >= need {
        assert(pow2(0) == 1) by {
            vstd::arithmetic::power2::lemma2_to64();
        }
        assert(grown_capacity(cap, need) == cap * pow2(0));
    } else {
        lemma_growth_is_least_doubling(2 * cap, need);
        let k = choose|k: nat|
            {
                &&& grown_capacity(2 * cap, need) == 2 * cap * #[trigger] pow2(k)
                &&& 2 * cap * pow2(k) >= need
                &&& k > 0 ==> 2 * cap * pow2((k - 1) as nat) < need
            };
        lemma_pow2_unfold(k + 1);
        assert(cap * pow2(k + 1) == 2 * cap * pow2(k)) by (nonlinear_arith)
            requires
                pow2(k + 1) == 2 * pow2(k),
        ;
        if k > 0 {
            lemma_pow2_unfold(k);
            assert(cap * pow2(k) == 2 * cap * pow2((k - 1) as nat)) by (nonlinear_arith)
                requires
                    pow2(k) == 2 * pow2((k - 1) as nat),
            ;
        } else {
            assert(pow2(0) == 1) by {
                vstd::arithmetic::power2::lemma2_to64();
            }
        }
        assert(((k + 1) as nat - 1) as nat == k);
        assert(grown_capacity(cap, need) == cap * pow2(k + 1));
    }
}

/// Growing to `a` bytes and then to `b >= a` bytes ends where growing
/// straight to `b` does: a run of insertions doubles as one growth would.
pub proof fn lemma_growth_composes(cap: nat, a: nat, b: nat)
    requires
        cap > 0,
        a <= b,
    ensures
        grown_capacity(grown_capacity(cap, a), b) == grown_capacity(cap, b),
    decreases (if cap < a { a - cap } else { 0 }),
{
    if cap < a {
        lemma_growth_composes(2 * cap, a, b);
    }
}

} // verus!
