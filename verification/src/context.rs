use vstd::prelude::*;

verus! {

/// Number of words in a register context record.
pub const CONTEXT_WORDS: usize = 15;

/// Width in bytes of one record word.
pub const WORD_BYTES: usize = 8;

/// Size in bytes of a whole record: `CONTEXT_WORDS` words of `WORD_BYTES` each.
pub const CONTEXT_BYTES: u64 = 120;

/// Stacks hand out addresses rounded down to this boundary.
pub const STACK_ALIGN: u64 = 8;

/// Register context record: the fixed-layout snapshot of the machine
/// registers needed to suspend and resume one execution context.
///
/// The record is an ordered, contiguous sequence of fifteen fixed-width
/// words: the return address, the stack pointer, the twelve callee-saved
/// general registers `s0` through `s11` of the target ABI, and the
/// resume/entry address. The order, given by [`ThreadContext::words`], and
/// the byte offset of each word, given by [`word_offset`], are the one true
/// wire format of the runtime: the architecture-specific switch primitive is
/// correct exactly when it stores and loads these words at these offsets.
pub struct ThreadContext {
    /// Return address: where the context lands when its current call returns.
    pub ra: u64,
    /// Stack pointer.
    pub sp: u64,
    /// Callee-saved register.
    pub s0: u64,
    /// Callee-saved register.
    pub s1: u64,
    /// Callee-saved register.
    pub s2: u64,
    /// Callee-saved register.
    pub s3: u64,
    /// Callee-saved register.
    pub s4: u64,
    /// Callee-saved register.
    pub s5: u64,
    /// Callee-saved register.
    pub s6: u64,
    /// Callee-saved register.
    pub s7: u64,
    /// Callee-saved register.
    pub s8: u64,
    /// Callee-saved register.
    pub s9: u64,
    /// Callee-saved register.
    pub s10: u64,
    /// Callee-saved register.
    pub s11: u64,
    /// Resume/entry address: where a switch into this context jumps.
    pub entry: u64,
}

/// Byte offset of word `i` of the record: words are contiguous, so word `i`
/// sits `i` word-widths from the start.
pub open spec fn spec_word_offset(i: int) -> int {
    i * (WORD_BYTES as int)
}

/// Computes the byte offset of word `i` of the record.
pub fn word_offset(i: usize) -> (r: usize)
    requires
        i < CONTEXT_WORDS,
    ensures
        r == spec_word_offset(i as int),
{
    i * WORD_BYTES
}

impl ThreadContext {
    /// The record as its ordered word sequence: return address first, then
    /// the stack pointer, the callee-saved registers `s0..s11` in order, and
    /// the entry address last.
    pub open spec fn words(self) -> Seq<u64> {
        seq![
            self.ra, self.sp, self.s0, self.s1, self.s2, self.s3, self.s4, self.s5, self.s6,
            self.s7, self.s8, self.s9, self.s10, self.s11, self.entry,
        ]
    }

    /// The all-zero record a fresh slot starts from.
    pub open spec fn spec_zeroed() -> ThreadContext {
        ThreadContext {
            ra: 0,
            sp: 0,
            s0: 0,
            s1: 0,
            s2: 0,
            s3: 0,
            s4: 0,
            s5: 0,
            s6: 0,
            s7: 0,
            s8: 0,
            s9: 0,
            s10: 0,
            s11: 0,
            entry: 0,
        }
    }

    /// Builds the all-zero record.
    pub fn zeroed() -> (r: ThreadContext)
        ensures
            r == ThreadContext::spec_zeroed(),
    {
        ThreadContext {
            ra: 0,
            sp: 0,
            s0: 0,
            s1: 0,
            s2: 0,
            s3: 0,
            s4: 0,
            s5: 0,
            s6: 0,
            s7: 0,
            s8: 0,
            s9: 0,
            s10: 0,
            s11: 0,
            entry: 0,
        }
    }

    /// Reads word `i` of the record in wire order.
    pub fn word(&self, i: usize) -> (r: u64)
        requires
            i < CONTEXT_WORDS,
        ensures
            r == self.words()[i as int],
    {
        match i {
            0 => self.ra,
            1 => self.sp,
            2 => self.s0,
            3 => self.s1,
            4 => self.s2,
            5 => self.s3,
            6 => self.s4,
            7 => self.s5,
            8 => self.s6,
            9 => self.s7,
            10 => self.s8,
            11 => self.s9,
            12 => self.s10,
            13 => self.s11,
            _ => self.entry,
        }
    }
}

/// The record a fresh spawn writes: the return-address word holds the
/// trampoline address `ret`, the stack-pointer word holds `sp`, the entry
/// word holds the task's address `entry`, and every callee-saved register
/// word is zero.
pub open spec fn spec_initial_context(entry: u64, ret: u64, sp: u64) -> ThreadContext {
    ThreadContext { ra: ret, sp: sp, entry: entry, ..ThreadContext::spec_zeroed() }
}

/// Builds the record a fresh spawn writes into an available slot.
pub fn initial_context(entry: u64, ret: u64, sp: u64) -> (ctx: ThreadContext)
    ensures
        ctx == spec_initial_context(entry, ret, sp),
{
    let mut ctx = ThreadContext::zeroed();
    ctx.ra = ret;
    ctx.sp = sp;
    ctx.entry = entry;
    ctx
}

/// The initial stack pointer of a freshly spawned task: the address one past
/// the top of the slot's stack buffer, rounded down to `STACK_ALIGN`, then
/// moved down by `CONTEXT_BYTES` to reserve room for the switch primitive's
/// own save frame.
pub open spec fn spec_initial_stack_pointer(base: u64, len: u64) -> int {
    let top = base + len;
    let aligned = top - (top % (STACK_ALIGN as int));
    aligned - CONTEXT_BYTES
}

/// Computes the initial stack pointer for a stack buffer starting at address
/// `base` and `len` bytes long.
pub fn initial_stack_pointer(base: u64, len: u64) -> (sp: u64)
    requires
        base + len <= u64::MAX,
        len >= CONTEXT_BYTES + STACK_ALIGN,
    ensures
        sp == spec_initial_stack_pointer(base, len),
        sp % STACK_ALIGN == 0,
        base <= sp,
        sp + CONTEXT_BYTES <= base + len,
        base + len < sp + CONTEXT_BYTES + STACK_ALIGN,
{
    let top = base + len;
    let aligned = top - top % STACK_ALIGN;
    aligned - CONTEXT_BYTES
}

} // verus!
