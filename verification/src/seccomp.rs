//! Seccomp filters used to harden the sandbox.
//!
//! A filter is a program for the kernel's classic BPF machine. It is run on a
//! description of every system call and returns what the kernel does with it.
use vstd::prelude::*;

verus! {

/// An instruction of a filter.
#[derive(Clone, Copy, Debug, PartialEq, Eq, Structural)]
pub struct SockFilter {
    /// What the instruction does.
    pub code: u16,
    /// How many instructions a jump skips if its condition holds.
    pub jt: u8,
    /// How many instructions a jump skips if its condition does not hold.
    pub jf: u8,
    /// The operand.
    pub k: u32,
}

/// The architectures that the sandbox runs on.
#[derive(Clone, Copy, Debug, PartialEq, Eq, Structural)]
pub enum Arch {
    X86_64,
    Aarch64,
}

/// The order of the bytes of a number in memory.
#[derive(Clone, Copy, Debug, PartialEq, Eq, Structural)]
pub enum ByteOrder {
    Little,
    Big,
}

/// Load the word at a fixed offset into the accumulator.
pub const LOAD_WORD: u16 = 0x20;

/// Jump if the accumulator equals the operand.
pub const JUMP_EQUAL: u16 = 0x15;

/// Return the operand.
pub const RETURN: u16 = 0x06;

/// Where the number of the system call stands.
pub const SYSCALL_OFFSET: u32 = 0;

/// Where the architecture stands.
pub const ARCH_OFFSET: u32 = 4;

/// Where the lower half of the second argument stands.
pub const ARGUMENT_1_OFFSET: u32 = 24;

/// Kill the process.
pub const KILL_PROCESS: u32 = 0x8000_0000;

/// Fail the call with `EPERM`.
pub const DENY: u32 = 0x0005_0001;

/// Let the call pass.
pub const ALLOW: u32 = 0x7fff_0000;

pub const AUDIT_ARCH_X86_64: u32 = 0xc000_003e;

pub const AUDIT_ARCH_I386: u32 = 0x4000_0003;

pub const AUDIT_ARCH_AARCH64: u32 = 0xc000_00b7;

pub const AUDIT_ARCH_ARM: u32 = 0x4000_0028;

pub const X86_64_IOCTL: u32 = 16;

pub const X32_IOCTL: u32 = 0x4000_0202;

pub const I386_IOCTL: u32 = 54;

pub const AARCH64_IOCTL: u32 = 29;

pub const ARM_IOCTL: u32 = 54;

/// The request that puts a byte into the input queue of a terminal.
pub const TIOCSTI: u32 = 0x5412;

/// `libc::BPF_LD`: the class of loads into the accumulator.
#[verifier::external_body]
fn bpf_ld() -> (r: u32)
    ensures
        r == 0x00,
{
    libc::BPF_LD
}

/// `libc::BPF_W`: loads of a whole word.
#[verifier::external_body]
fn bpf_w() -> (r: u32)
    ensures
        r == 0x00,
{
    libc::BPF_W
}

/// `libc::BPF_ABS`: loads from a fixed offset.
#[verifier::external_body]
fn bpf_abs() -> (r: u32)
    ensures
        r == 0x20,
{
    libc::BPF_ABS
}

/// `libc::BPF_JMP`: the class of jumps.
#[verifier::external_body]
fn bpf_jmp() -> (r: u32)
    ensures
        r == 0x05,
{
    libc::BPF_JMP
}

/// `libc::BPF_JEQ`: jumps on equality.
#[verifier::external_body]
fn bpf_jeq() -> (r: u32)
    ensures
        r == 0x10,
{
    libc::BPF_JEQ
}

/// `libc::BPF_K`: the operand is the one in the instruction.
#[verifier::external_body]
fn bpf_k() -> (r: u32)
    ensures
        r == 0x00,
{
    libc::BPF_K
}

/// `libc::BPF_RET`: the class of returns.
#[verifier::external_body]
fn bpf_ret() -> (r: u32)
    ensures
        r == 0x06,
{
    libc::BPF_RET
}

/// `libc::SECCOMP_RET_KILL_PROCESS`: kill the process.
#[verifier::external_body]
fn seccomp_ret_kill_process() -> (r: u32)
    ensures
        r == 0x8000_0000,
{
    libc::SECCOMP_RET_KILL_PROCESS
}

/// `libc::SECCOMP_RET_ERRNO`: fail the call with the error in the lower half.
#[verifier::external_body]
fn seccomp_ret_errno() -> (r: u32)
    ensures
        r == 0x0005_0000,
{
    libc::SECCOMP_RET_ERRNO
}

/// `libc::SECCOMP_RET_ALLOW`: let the call pass.
#[verifier::external_body]
fn seccomp_ret_allow() -> (r: u32)
    ensures
        r == 0x7fff_0000,
{
    libc::SECCOMP_RET_ALLOW
}

/// `libc::EPERM`: the operation is not permitted.
#[verifier::external_body]
fn eperm() -> (r: i32)
    ensures
        r == 1,
{
    libc::EPERM
}

/// The code of a load.
fn load_word() -> (code: u16)
    ensures
        code == LOAD_WORD,
{
    assert(0x00u32 | 0x00u32 | 0x20u32 == 0x20u32) by (bit_vector);
    (bpf_ld() | bpf_w() | bpf_abs()) as u16
}

/// The code of a jump on equality.
fn jump_equal() -> (code: u16)
    ensures
        code == JUMP_EQUAL,
{
    assert(0x05u32 | 0x10u32 | 0x00u32 == 0x15u32) by (bit_vector);
    (bpf_jmp() | bpf_jeq() | bpf_k()) as u16
}

/// The code of a return.
fn return_value() -> (code: u16)
    ensures
        code == RETURN,
{
    assert(0x06u32 | 0x00u32 == 0x06u32) by (bit_vector);
    (bpf_ret() | bpf_k()) as u16
}

/// What is returned to fail a call with `EPERM`.
fn deny() -> (value: u32)
    ensures
        value == DENY,
{
    assert(0x0005_0000u32 | 1u32 == 0x0005_0001u32) by (bit_vector);
    seccomp_ret_errno() | eperm() as u32
}

/// An instruction that does not jump.
pub open spec fn plain(code: u16, value: u32) -> SockFilter {
    SockFilter { code, jt: 0, jf: 0, k: value }
}

/// A jump on equality.
pub open spec fn branch(value: u32, jump_true: u8, jump_false: u8) -> SockFilter {
    SockFilter { code: JUMP_EQUAL, jt: jump_true, jf: jump_false, k: value }
}

/// Makes an instruction that does not jump.
pub fn statement(code: u16, value: u32) -> (r: SockFilter)
    ensures
        r == plain(code, value),
{
    SockFilter { code, jt: 0, jf: 0, k: value }
}

/// Makes a jump on equality.
pub fn jump(value: u32, jump_true: u8, jump_false: u8) -> (r: SockFilter)
    ensures
        r == branch(value, jump_true, jump_false),
{
    SockFilter { code: jump_equal(), jt: jump_true, jf: jump_false, k: value }
}

/// The filter that rejects TIOCSTI.
pub open spec fn tiocsti_program(arch: Arch) -> Seq<SockFilter> {
    match arch {
        Arch::X86_64 => seq![
            plain(LOAD_WORD, ARCH_OFFSET),
            branch(AUDIT_ARCH_X86_64, 2, 0),
            branch(AUDIT_ARCH_I386, 4, 0),
            plain(RETURN, KILL_PROCESS),
            plain(LOAD_WORD, SYSCALL_OFFSET),
            branch(X86_64_IOCTL, 3, 0),
            branch(X32_IOCTL, 2, 5),
            plain(LOAD_WORD, SYSCALL_OFFSET),
            branch(I386_IOCTL, 0, 3),
            plain(LOAD_WORD, ARGUMENT_1_OFFSET),
            branch(TIOCSTI, 0, 1),
            plain(RETURN, DENY),
            plain(RETURN, ALLOW),
        ],
        Arch::Aarch64 => seq![
            plain(LOAD_WORD, ARCH_OFFSET),
            branch(AUDIT_ARCH_AARCH64, 2, 0),
            branch(AUDIT_ARCH_ARM, 3, 0),
            plain(RETURN, KILL_PROCESS),
            plain(LOAD_WORD, SYSCALL_OFFSET),
            branch(AARCH64_IOCTL, 2, 5),
            plain(LOAD_WORD, SYSCALL_OFFSET),
            branch(ARM_IOCTL, 0, 3),
            plain(LOAD_WORD, ARGUMENT_1_OFFSET),
            branch(TIOCSTI, 0, 1),
            plain(RETURN, DENY),
            plain(RETURN, ALLOW),
        ],
    }
}

/// Makes the filter that rejects TIOCSTI on the given architecture.
pub fn tiocsti_filter(arch: Arch) -> (r: Vec<SockFilter>)
    ensures
        r@ == tiocsti_program(arch),
{
    let load: u16 = load_word();
    let end: u16 = return_value();
    match arch {
        Arch::X86_64 => vec![
            statement(load, ARCH_OFFSET),
            jump(AUDIT_ARCH_X86_64, 2, 0),
            jump(AUDIT_ARCH_I386, 4, 0),
            statement(end, seccomp_ret_kill_process()),
            statement(load, SYSCALL_OFFSET),
            jump(X86_64_IOCTL, 3, 0),
            jump(X32_IOCTL, 2, 5),
            statement(load, SYSCALL_OFFSET),
            jump(I386_IOCTL, 0, 3),
            statement(load, ARGUMENT_1_OFFSET),
            jump(TIOCSTI, 0, 1),
            statement(end, deny()),
            statement(end, seccomp_ret_allow()),
        ],
        Arch::Aarch64 => vec![
            statement(load, ARCH_OFFSET),
            jump(AUDIT_ARCH_AARCH64, 2, 0),
            jump(AUDIT_ARCH_ARM, 3, 0),
            statement(end, seccomp_ret_kill_process()),
            statement(load, SYSCALL_OFFSET),
            jump(AARCH64_IOCTL, 2, 5),
            statement(load, SYSCALL_OFFSET),
            jump(ARM_IOCTL, 0, 3),
            statement(load, ARGUMENT_1_OFFSET),
            jump(TIOCSTI, 0, 1),
            statement(end, deny()),
            statement(end, seccomp_ret_allow()),
        ],
    }
}

/// What the kernel tells a filter about a system call, on a machine that lays out
/// numbers with the lower bytes first.
pub struct SystemCall {
    pub number: u32,
    pub arch: u32,
    pub instruction_pointer: u64,
    pub arguments: Seq<u64>,
}

/// The lower half of a number.
pub open spec fn low_word(value: u64) -> u32 {
    (value % 0x1_0000_0000) as u32
}

/// The upper half of a number.
pub open spec fn high_word(value: u64) -> u32 {
    (value / 0x1_0000_0000) as u32
}

/// The word at an offset of the description of a call.
pub open spec fn word_at(call: SystemCall, offset: u32) -> Option<u32> {
    if offset == 0 {
        Some(call.number)
    } else if offset == 4 {
        Some(call.arch)
    } else if offset == 8 {
        Some(low_word(call.instruction_pointer))
    } else if offset == 12 {
        Some(high_word(call.instruction_pointer))
    } else if offset < 64 && offset % 8 == 0 {
        Some(low_word(call.arguments[(offset - 16) / 8]))
    } else if offset < 64 && offset % 8 == 4 {
        Some(high_word(call.arguments[(offset - 20) / 8]))
    } else {
        None
    }
}

/// What a program returns for a call, run from the instruction at `pc` with the
/// given accumulator. A program that runs past its end or loads from outside the
/// description returns nothing.
pub open spec fn verdict(
    program: Seq<SockFilter>,
    call: SystemCall,
    pc: int,
    accumulator: u32,
) -> Option<u32>
    decreases
            if pc < program.len() {
                program.len() - pc
            } else {
                0
            },
{
    if pc < 0 || pc >= program.len() {
        None
    } else {
        let instruction = program[pc];
        if instruction.code == LOAD_WORD {
            match word_at(call, instruction.k) {
                Some(word) => verdict(program, call, pc + 1, word),
                None => None,
            }
        } else if instruction.code == JUMP_EQUAL {
            if accumulator == instruction.k {
                verdict(program, call, pc + 1 + instruction.jt, accumulator)
            } else {
                verdict(program, call, pc + 1 + instruction.jf, accumulator)
            }
        } else if instruction.code == RETURN {
            Some(instruction.k)
        } else {
            None
        }
    }
}

/// Whether programs for `convention` can run on the architecture.
pub open spec fn runs(arch: Arch, convention: u32) -> bool {
    match arch {
        Arch::X86_64 => convention == AUDIT_ARCH_X86_64 || convention == AUDIT_ARCH_I386,
        Arch::Aarch64 => convention == AUDIT_ARCH_AARCH64 || convention == AUDIT_ARCH_ARM,
    }
}

/// Whether the call is an `ioctl`.
pub open spec fn is_ioctl(call: SystemCall) -> bool {
    ||| call.arch == AUDIT_ARCH_X86_64 && (call.number == X86_64_IOCTL || call.number == X32_IOCTL)
    ||| call.arch == AUDIT_ARCH_I386 && call.number == I386_IOCTL
    ||| call.arch == AUDIT_ARCH_AARCH64 && call.number == AARCH64_IOCTL
    ||| call.arch == AUDIT_ARCH_ARM && call.number == ARM_IOCTL
}

/// The filter fails every TIOCSTI with `EPERM`, kills processes of other
/// architectures, and lets all other calls pass.
pub proof fn tiocsti_is_rejected(arch: Arch, call: SystemCall)
    ensures
        verdict(tiocsti_program(arch), call, 0, 0) == Some(
            if !runs(arch, call.arch) {
                KILL_PROCESS
            } else if is_ioctl(call) && low_word(call.arguments[1]) == TIOCSTI {
                DENY
            } else {
                ALLOW
            },
        ),
{
    let p = tiocsti_program(arch);
    let a = call.arch;
    let n = call.number;
    let w = low_word(call.arguments[1]);
    assert(word_at(call, ARGUMENT_1_OFFSET) == Some(w));
    // The last four instructions decide on the request, for both architectures.
    let end = p.len() as int;
    assert(p[end - 1] == plain(RETURN, ALLOW));
    assert(p[end - 2] == plain(RETURN, DENY));
    assert(p[end - 3] == branch(TIOCSTI, 0, 1));
    assert(p[end - 4] == plain(LOAD_WORD, ARGUMENT_1_OFFSET));
    let request = if w == TIOCSTI { DENY } else { ALLOW };
    assert(verdict(p, call, end - 1, w) == Some(ALLOW));
    assert(verdict(p, call, end - 1, n) == Some(ALLOW));
    assert(verdict(p, call, end - 2, w) == Some(DENY));
    assert(verdict(p, call, end - 3, w) == Some(request));
    assert(verdict(p, call, end - 4, n) == Some(request));
    // The fourth instruction kills, for both architectures.
    assert(p[3] == plain(RETURN, KILL_PROCESS));
    assert(verdict(p, call, 3, a) == Some(KILL_PROCESS));
    match arch {
        Arch::X86_64 => {
            let other = if n == I386_IOCTL { request } else { ALLOW };
            assert(verdict(p, call, 8, n) == Some(other));
            assert(verdict(p, call, 7, a) == Some(other));
            let x32 = if n == X32_IOCTL { request } else { ALLOW };
            assert(verdict(p, call, 6, n) == Some(x32));
            let own = if n == X86_64_IOCTL { request } else { x32 };
            assert(verdict(p, call, 5, n) == Some(own));
            assert(verdict(p, call, 4, a) == Some(own));
            let foreign = if a == AUDIT_ARCH_I386 { other } else { KILL_PROCESS };
            assert(verdict(p, call, 2, a) == Some(foreign));
            let all = if a == AUDIT_ARCH_X86_64 { own } else { foreign };
            assert(verdict(p, call, 1, a) == Some(all));
            assert(verdict(p, call, 0, 0) == Some(all));
        },
        Arch::Aarch64 => {
            let other = if n == ARM_IOCTL { request } else { ALLOW };
            assert(verdict(p, call, 7, n) == Some(other));
            assert(verdict(p, call, 6, a) == Some(other));
            let own = if n == AARCH64_IOCTL { request } else { ALLOW };
            assert(verdict(p, call, 5, n) == Some(own));
            assert(verdict(p, call, 4, a) == Some(own));
            let foreign = if a == AUDIT_ARCH_ARM { other } else { KILL_PROCESS };
            assert(verdict(p, call, 2, a) == Some(foreign));
            let all = if a == AUDIT_ARCH_AARCH64 { own } else { foreign };
            assert(verdict(p, call, 1, a) == Some(all));
            assert(verdict(p, call, 0, 0) == Some(all));
        },
    }
}

/// The bytes of a number of two bytes.
pub open spec fn half_bytes(value: u16, order: ByteOrder) -> Seq<u8> {
    match order {
        ByteOrder::Little => seq![(value % 256) as u8, (value / 256) as u8],
        ByteOrder::Big => seq![(value / 256) as u8, (value % 256) as u8],
    }
}

/// The bytes of a number of four bytes.
pub open spec fn word_bytes(value: u32, order: ByteOrder) -> Seq<u8> {
    let lower = (value % 0x1_0000) as u16;
    let upper = (value / 0x1_0000) as u16;
    match order {
        ByteOrder::Little => half_bytes(lower, order) + half_bytes(upper, order),
        ByteOrder::Big => half_bytes(upper, order) + half_bytes(lower, order),
    }
}

/// An instruction as the kernel reads it.
pub open spec fn instruction_bytes(instruction: SockFilter, order: ByteOrder) -> Seq<u8> {
    half_bytes(instruction.code, order) + seq![instruction.jt, instruction.jf] + word_bytes(
        instruction.k,
        order,
    )
}

/// A program as the kernel reads it: its instructions one behind the other.
pub open spec fn program_bytes(program: Seq<SockFilter>, order: ByteOrder) -> Seq<u8>
    decreases program.len(),
{
    if program.len() == 0 {
        Seq::empty()
    } else {
        program_bytes(program.drop_last(), order) + instruction_bytes(program.last(), order)
    }
}

/// Appends the bytes of a number of two bytes.
fn push_half(bytes: &mut Vec<u8>, value: u16, order: ByteOrder)
    ensures
        final(bytes)@ == old(bytes)@ + half_bytes(value, order),
{
    let lower: u8 = (value % 256) as u8;
    let upper: u8 = (value / 256) as u8;
    match order {
        ByteOrder::Little => {
            bytes.push(lower);
            bytes.push(upper);
        },
        ByteOrder::Big => {
            bytes.push(upper);
            bytes.push(lower);
        },
    }
}

/// Appends the bytes of a number of four bytes.
fn push_word(bytes: &mut Vec<u8>, value: u32, order: ByteOrder)
    ensures
        final(bytes)@ == old(bytes)@ + word_bytes(value, order),
{
    let lower: u16 = (value % 0x1_0000) as u16;
    let upper: u16 = (value / 0x1_0000) as u16;
    match order {
        ByteOrder::Little => {
            push_half(bytes, lower, order);
            push_half(bytes, upper, order);
        },
        ByteOrder::Big => {
            push_half(bytes, upper, order);
            push_half(bytes, lower, order);
        },
    }
}

/// Writes a program as the kernel reads it.
pub fn filter_bytes(program: &Vec<SockFilter>, order: ByteOrder) -> (r: Vec<u8>)
    ensures
        r@ == program_bytes(program@, order),
{
    let mut bytes: Vec<u8> = Vec::new();
    let mut i: usize = 0;
    while i < program.len()
        invariant
            i <= program@.len(),
            bytes@ == program_bytes(program@.take(i as int), order),
        decreases program@.len() - i,
    {
        let ghost before = bytes@;
        let instruction: SockFilter = program[i];
        push_half(&mut bytes, instruction.code, order);
        bytes.push(instruction.jt);
        bytes.push(instruction.jf);
        push_word(&mut bytes, instruction.k, order);
        proof {
            assert(bytes@ =~= before + instruction_bytes(instruction, order));
            assert(program@.take(i + 1).drop_last() =~= program@.take(i as int));
        }
        i = i + 1;
    }
    assert(program@.take(program@.len() as int) =~= program@);
    bytes
}

proof fn lemma_instruction_length(instruction: SockFilter, order: ByteOrder)
    ensures
        instruction_bytes(instruction, order).len() == 8,
{
    assert(half_bytes(instruction.code, order).len() == 2);
    assert(word_bytes(instruction.k, order).len() == 4);
}

/// Every instruction takes eight bytes, and stands where its index says.
pub proof fn instructions_take_eight_bytes(program: Seq<SockFilter>, order: ByteOrder, i: int)
    requires
        0 <= i < program.len(),
    ensures
        program_bytes(program, order).len() == 8 * program.len(),
        program_bytes(program, order).subrange(8 * i, 8 * i + 8) == instruction_bytes(
            program[i],
            order,
        ),
    decreases program.len(),
{
    let rest = program.drop_last();
    let bytes = program_bytes(program, order);
    let before = program_bytes(rest, order);
    let last = instruction_bytes(program.last(), order);
    lemma_instruction_length(program.last(), order);
    assert(before.len() == 8 * rest.len()) by {
        if rest.len() > 0 {
            instructions_take_eight_bytes(rest, order, 0);
        } else {
            assert(before == Seq::<u8>::empty());
        }
    }
    assert(bytes == before + last);
    if i < program.len() - 1 {
        instructions_take_eight_bytes(rest, order, i);
        assert(rest[i] == program[i]);
        assert(bytes.subrange(8 * i, 8 * i + 8) =~= before.subrange(8 * i, 8 * i + 8));
    } else {
        assert(bytes.subrange(8 * i, 8 * i + 8) =~= last);
    }
}

/// The numbers of the kernel that the filter is about.
pub proof fn numbers_of_the_kernel()
    ensures
        LOAD_WORD == 0x20,
        JUMP_EQUAL == 0x15,
        RETURN == 0x06,
        SYSCALL_OFFSET == 0,
        ARCH_OFFSET == 4,
        ARGUMENT_1_OFFSET == 24,
        KILL_PROCESS == 0x8000_0000,
        DENY == 0x0005_0000 + 1,
        ALLOW == 0x7fff_0000,
        TIOCSTI == 0x5412,
{
}

/// The description of a call holds its number, its architecture, the instruction
/// pointer and six arguments, each of these in two words, the lower first.
pub proof fn calls_are_described_word_by_word(call: SystemCall, i: int)
    requires
        0 <= i < 6,
    ensures
        word_at(call, 0) == Some(call.number),
        word_at(call, 4) == Some(call.arch),
        word_at(call, 8) matches Some(low) && word_at(call, 12) matches Some(high) && low + high
            * 0x1_0000_0000 == call.instruction_pointer,
        word_at(call, (16 + 8 * i) as u32) matches Some(low) && word_at(call, (20 + 8 * i) as u32)
            matches Some(high) && low + high * 0x1_0000_0000 == call.arguments[i],
{
}

/// The machine loads, jumps and returns as classic BPF does.
pub proof fn machine_runs_instructions(
    program: Seq<SockFilter>,
    call: SystemCall,
    pc: int,
    accumulator: u32,
)
    requires
        0 <= pc < program.len(),
    ensures
        program[pc].code == 0x06 ==> verdict(program, call, pc, accumulator) == Some(program[pc].k),
        program[pc].code == 0x20 ==> (word_at(call, program[pc].k) matches Some(word) ==> verdict(
            program,
            call,
            pc,
            accumulator,
        ) == verdict(program, call, pc + 1, word)),
        program[pc].code == 0x15 && accumulator == program[pc].k ==> verdict(
            program,
            call,
            pc,
            accumulator,
        ) == verdict(program, call, pc + 1 + program[pc].jt, accumulator),
        program[pc].code == 0x15 && accumulator != program[pc].k ==> verdict(
            program,
            call,
            pc,
            accumulator,
        ) == verdict(program, call, pc + 1 + program[pc].jf, accumulator),
{
}

/// On x86-64 the filter fails `ioctl` with the request TIOCSTI, in each of its three
/// conventions, kills what is of another architecture, and lets everything else
/// pass.
pub proof fn x86_64_filter_rejects_only_tiocsti(call: SystemCall)
    ensures
        ({
            let decision = verdict(tiocsti_program(Arch::X86_64), call, 0, 0);
            let native = call.arch == 0xc000_003e;
            let compatible = call.arch == 0x4000_0003;
            let ioctl = native && (call.number == 16 || call.number == 0x4000_0202) || compatible
                && call.number == 54;
            let tiocsti = call.arguments[1] % 0x1_0000_0000 == 0x5412;
            &&& !native && !compatible ==> decision == Some(0x8000_0000u32)
            &&& ioctl && tiocsti ==> decision == Some(0x0005_0001u32)
            &&& (native || compatible) && !(ioctl && tiocsti) ==> decision == Some(0x7fff_0000u32)
        }),
{
    tiocsti_is_rejected(Arch::X86_64, call);
}

/// On aarch64 the filter fails `ioctl` with the request TIOCSTI, in both of its
/// conventions, kills what is of another architecture, and lets everything else
/// pass.
pub proof fn aarch64_filter_rejects_only_tiocsti(call: SystemCall)
    ensures
        ({
            let decision = verdict(tiocsti_program(Arch::Aarch64), call, 0, 0);
            let native = call.arch == 0xc000_00b7;
            let compatible = call.arch == 0x4000_0028;
            let ioctl = native && call.number == 29 || compatible && call.number == 54;
            let tiocsti = call.arguments[1] % 0x1_0000_0000 == 0x5412;
            &&& !native && !compatible ==> decision == Some(0x8000_0000u32)
            &&& ioctl && tiocsti ==> decision == Some(0x0005_0001u32)
            &&& (native || compatible) && !(ioctl && tiocsti) ==> decision == Some(0x7fff_0000u32)
        }),
{
    tiocsti_is_rejected(Arch::Aarch64, call);
}

/// Instructions hold what they are made of.
pub proof fn instructions_hold_their_parts(code: u16, value: u32, on_true: u8, on_false: u8)
    ensures
        plain(code, value).code == code,
        plain(code, value).k == value,
        plain(code, value).jt == 0,
        plain(code, value).jf == 0,
        branch(value, on_true, on_false).code == 0x15,
        branch(value, on_true, on_false).k == value,
        branch(value, on_true, on_false).jt == on_true,
        branch(value, on_true, on_false).jf == on_false,
{
}

/// The bytes of an instruction give it back: two for its code, one for each jump and
/// four for its operand, in the order of the machine.
pub proof fn bytes_give_the_instruction_back(instruction: SockFilter)
    ensures
        ({
            let little = instruction_bytes(instruction, ByteOrder::Little);
            let big = instruction_bytes(instruction, ByteOrder::Big);
            &&& little.len() == 8 && big.len() == 8
            &&& little[0] + 0x100 * little[1] == instruction.code
            &&& little[2] == instruction.jt && little[3] == instruction.jf
            &&& little[4] + 0x100 * little[5] + 0x1_0000 * little[6] + 0x100_0000 * little[7]
                == instruction.k
            &&& big[1] + 0x100 * big[0] == instruction.code
            &&& big[2] == instruction.jt && big[3] == instruction.jf
            &&& big[7] + 0x100 * big[6] + 0x1_0000 * big[5] + 0x100_0000 * big[4] == instruction.k
        }),
{
    lemma_instruction_length(instruction, ByteOrder::Little);
    lemma_instruction_length(instruction, ByteOrder::Big);
}

} // verus!
