//! Register classification for display.
use vstd::prelude::*;

use crate::text::{chars_of, same_chars};

verus! {

/// Names of the general-purpose registers of x86-64, x86, ARM64 and RISC-V.
pub open spec fn general_purpose(name: Seq<char>) -> bool {
    name == "rax"@
        || name == "rbx"@
        || name == "rcx"@
        || name == "rdx"@
        || name == "rsi"@
        || name == "rdi"@
        || name == "rbp"@
        || name == "rsp"@
        || name == "r8"@
        || name == "r9"@
        || name == "r10"@
        || name == "r11"@
        || name == "r12"@
        || name == "r13"@
        || name == "r14"@
        || name == "r15"@
        || name == "rip"@
        || name == "rflags"@
        || name == "eflags"@
        || name == "eax"@
        || name == "ebx"@
        || name == "ecx"@
        || name == "edx"@
        || name == "esi"@
        || name == "edi"@
        || name == "ebp"@
        || name == "esp"@
        || name == "eip"@
        || name == "x0"@
        || name == "x1"@
        || name == "x2"@
        || name == "x3"@
        || name == "x4"@
        || name == "x5"@
        || name == "x6"@
        || name == "x7"@
        || name == "x8"@
        || name == "x9"@
        || name == "x10"@
        || name == "x11"@
        || name == "x12"@
        || name == "x13"@
        || name == "x14"@
        || name == "x15"@
        || name == "x16"@
        || name == "x17"@
        || name == "x18"@
        || name == "x19"@
        || name == "x20"@
        || name == "x21"@
        || name == "x22"@
        || name == "x23"@
        || name == "x24"@
        || name == "x25"@
        || name == "x26"@
        || name == "x27"@
        || name == "x28"@
        || name == "x29"@
        || name == "x30"@
        || name == "sp"@
        || name == "pc"@
        || name == "cpsr"@
        || name == "zero"@
        || name == "ra"@
        || name == "gp"@
        || name == "tp"@
        || name == "a0"@
        || name == "a1"@
        || name == "a2"@
        || name == "a3"@
        || name == "a4"@
        || name == "a5"@
        || name == "a6"@
        || name == "a7"@
        || name == "s0"@
        || name == "s1"@
        || name == "t0"@
        || name == "t1"@
        || name == "t2"@
        || name == "t3"@
        || name == "t4"@
        || name == "t5"@
        || name == "t6"@
}

/// Display rank of a register name; unranked names come last.
pub open spec fn rank(name: Seq<char>) -> u32 {
    if name == "rax"@ {
        0
    } else if name == "rbx"@ {
        1
    } else if name == "rcx"@ {
        2
    } else if name == "rdx"@ {
        3
    } else if name == "rsi"@ {
        4
    } else if name == "rdi"@ {
        5
    } else if name == "rbp"@ {
        6
    } else if name == "rsp"@ {
        7
    } else if name == "r8"@ {
        8
    } else if name == "r9"@ {
        9
    } else if name == "r10"@ {
        10
    } else if name == "r11"@ {
        11
    } else if name == "r12"@ {
        12
    } else if name == "r13"@ {
        13
    } else if name == "r14"@ {
        14
    } else if name == "r15"@ {
        15
    } else if name == "rip"@ {
        16
    } else if name == "rflags"@ {
        17
    } else if name == "eflags"@ {
        17
    } else if name == "eax"@ {
        0
    } else if name == "ebx"@ {
        1
    } else if name == "ecx"@ {
        2
    } else if name == "edx"@ {
        3
    } else if name == "esi"@ {
        4
    } else if name == "edi"@ {
        5
    } else if name == "ebp"@ {
        6
    } else if name == "esp"@ {
        7
    } else if name == "eip"@ {
        16
    } else {
        99
    }
}

/// Whether `name` is a general-purpose register.
pub fn is_general_purpose(name: &str) -> (r: bool)
    ensures
        r == general_purpose(name@),
{
    let n = chars_of(name);
    let n = n.as_slice();
    same_chars(n, chars_of("rax").as_slice())
        || same_chars(n, chars_of("rbx").as_slice())
        || same_chars(n, chars_of("rcx").as_slice())
        || same_chars(n, chars_of("rdx").as_slice())
        || same_chars(n, chars_of("rsi").as_slice())
        || same_chars(n, chars_of("rdi").as_slice())
        || same_chars(n, chars_of("rbp").as_slice())
        || same_chars(n, chars_of("rsp").as_slice())
        || same_chars(n, chars_of("r8").as_slice())
        || same_chars(n, chars_of("r9").as_slice())
        || same_chars(n, chars_of("r10").as_slice())
        || same_chars(n, chars_of("r11").as_slice())
        || same_chars(n, chars_of("r12").as_slice())
        || same_chars(n, chars_of("r13").as_slice())
        || same_chars(n, chars_of("r14").as_slice())
        || same_chars(n, chars_of("r15").as_slice())
        || same_chars(n, chars_of("rip").as_slice())
        || same_chars(n, chars_of("rflags").as_slice())
        || same_chars(n, chars_of("eflags").as_slice())
        || same_chars(n, chars_of("eax").as_slice())
        || same_chars(n, chars_of("ebx").as_slice())
        || same_chars(n, chars_of("ecx").as_slice())
        || same_chars(n, chars_of("edx").as_slice())
        || same_chars(n, chars_of("esi").as_slice())
        || same_chars(n, chars_of("edi").as_slice())
        || same_chars(n, chars_of("ebp").as_slice())
        || same_chars(n, chars_of("esp").as_slice())
        || same_chars(n, chars_of("eip").as_slice())
        || same_chars(n, chars_of("x0").as_slice())
        || same_chars(n, chars_of("x1").as_slice())
        || same_chars(n, chars_of("x2").as_slice())
        || same_chars(n, chars_of("x3").as_slice())
        || same_chars(n, chars_of("x4").as_slice())
        || same_chars(n, chars_of("x5").as_slice())
        || same_chars(n, chars_of("x6").as_slice())
        || same_chars(n, chars_of("x7").as_slice())
        || same_chars(n, chars_of("x8").as_slice())
        || same_chars(n, chars_of("x9").as_slice())
        || same_chars(n, chars_of("x10").as_slice())
        || same_chars(n, chars_of("x11").as_slice())
        || same_chars(n, chars_of("x12").as_slice())
        || same_chars(n, chars_of("x13").as_slice())
        || same_chars(n, chars_of("x14").as_slice())
        || same_chars(n, chars_of("x15").as_slice())
        || same_chars(n, chars_of("x16").as_slice())
        || same_chars(n, chars_of("x17").as_slice())
        || same_chars(n, chars_of("x18").as_slice())
        || same_chars(n, chars_of("x19").as_slice())
        || same_chars(n, chars_of("x20").as_slice())
        || same_chars(n, chars_of("x21").as_slice())
        || same_chars(n, chars_of("x22").as_slice())
        || same_chars(n, chars_of("x23").as_slice())
        || same_chars(n, chars_of("x24").as_slice())
        || same_chars(n, chars_of("x25").as_slice())
        || same_chars(n, chars_of("x26").as_slice())
        || same_chars(n, chars_of("x27").as_slice())
        || same_chars(n, chars_of("x28").as_slice())
        || same_chars(n, chars_of("x29").as_slice())
        || same_chars(n, chars_of("x30").as_slice())
        || same_chars(n, chars_of("sp").as_slice())
        || same_chars(n, chars_of("pc").as_slice())
        || same_chars(n, chars_of("cpsr").as_slice())
        || same_chars(n, chars_of("zero").as_slice())
        || same_chars(n, chars_of("ra").as_slice())
        || same_chars(n, chars_of("gp").as_slice())
        || same_chars(n, chars_of("tp").as_slice())
        || same_chars(n, chars_of("a0").as_slice())
        || same_chars(n, chars_of("a1").as_slice())
        || same_chars(n, chars_of("a2").as_slice())
        || same_chars(n, chars_of("a3").as_slice())
        || same_chars(n, chars_of("a4").as_slice())
        || same_chars(n, chars_of("a5").as_slice())
        || same_chars(n, chars_of("a6").as_slice())
        || same_chars(n, chars_of("a7").as_slice())
        || same_chars(n, chars_of("s0").as_slice())
        || same_chars(n, chars_of("s1").as_slice())
        || same_chars(n, chars_of("t0").as_slice())
        || same_chars(n, chars_of("t1").as_slice())
        || same_chars(n, chars_of("t2").as_slice())
        || same_chars(n, chars_of("t3").as_slice())
        || same_chars(n, chars_of("t4").as_slice())
        || same_chars(n, chars_of("t5").as_slice())
        || same_chars(n, chars_of("t6").as_slice())
}

/// Display rank of a register name: x86 registers in their usual order,
/// everything else after them.
pub fn display_order(name: &str) -> (r: u32)
    ensures
        r == rank(name@),
{
    let n = chars_of(name);
    let n = n.as_slice();
    if same_chars(n, chars_of("rax").as_slice()) {
        0
    } else if same_chars(n, chars_of("rbx").as_slice()) {
        1
    } else if same_chars(n, chars_of("rcx").as_slice()) {
        2
    } else if same_chars(n, chars_of("rdx").as_slice()) {
        3
    } else if same_chars(n, chars_of("rsi").as_slice()) {
        4
    } else if same_chars(n, chars_of("rdi").as_slice()) {
        5
    } else if same_chars(n, chars_of("rbp").as_slice()) {
        6
    } else if same_chars(n, chars_of("rsp").as_slice()) {
        7
    } else if same_chars(n, chars_of("r8").as_slice()) {
        8
    } else if same_chars(n, chars_of("r9").as_slice()) {
        9
    } else if same_chars(n, chars_of("r10").as_slice()) {
        10
    } else if same_chars(n, chars_of("r11").as_slice()) {
        11
    } else if same_chars(n, chars_of("r12").as_slice()) {
        12
    } else if same_chars(n, chars_of("r13").as_slice()) {
        13
    } else if same_chars(n, chars_of("r14").as_slice()) {
        14
    } else if same_chars(n, chars_of("r15").as_slice()) {
        15
    } else if same_chars(n, chars_of("rip").as_slice()) {
        16
    } else if same_chars(n, chars_of("rflags").as_slice()) {
        17
    } else if same_chars(n, chars_of("eflags").as_slice()) {
        17
    } else if same_chars(n, chars_of("eax").as_slice()) {
        0
    } else if same_chars(n, chars_of("ebx").as_slice()) {
        1
    } else if same_chars(n, chars_of("ecx").as_slice()) {
        2
    } else if same_chars(n, chars_of("edx").as_slice()) {
        3
    } else if same_chars(n, chars_of("esi").as_slice()) {
        4
    } else if same_chars(n, chars_of("edi").as_slice()) {
        5
    } else if same_chars(n, chars_of("ebp").as_slice()) {
        6
    } else if same_chars(n, chars_of("esp").as_slice()) {
        7
    } else if same_chars(n, chars_of("eip").as_slice()) {
        16
    } else {
        99
    }
}

} // verus!
