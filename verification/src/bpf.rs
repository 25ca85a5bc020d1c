//! Classic BPF programs: the instructions, and what running one yields.

use vstd::prelude::*;

verus! {

/// Loads the 16-bit word at offset `k`.
pub const LD_HALF: u16 = 0x28;

/// Loads the byte at offset `k`.
pub const LD_BYTE: u16 = 0x30;

/// Loads the 16-bit word at offset `k` past the index register.
pub const LD_HALF_IND: u16 = 0x48;

/// Loads the length of the packet.
pub const LD_LEN: u16 = 0x80;

/// Sets the index register to four times the low half of the byte at offset
/// `k`: the length of an IPv4 header.
pub const LDX_HEADER_LEN: u16 = 0xb1;

/// Jumps on whether the accumulator equals `k`.
pub const JUMP_EQ: u16 = 0x15;

/// Jumps on whether the accumulator is greater than `k`.
pub const JUMP_GT: u16 = 0x25;

/// Jumps on whether the accumulator shares a bit with `k`.
pub const JUMP_SET: u16 = 0x45;

/// Jumps `k` instructions ahead.
pub const JUMP: u16 = 0x05;

/// Ends the program with the verdict `k`.
pub const RETURN: u16 = 0x06;

/// One instruction, laid out as the kernel's `struct sock_filter`.
#[derive(Debug, Clone, Copy, PartialEq, Eq, Structural)]
pub struct SockFilter {
    pub code: u16,
    pub jt: u8,
    pub jf: u8,
    pub k: u32,
}

/// The byte at an offset, where the packet reaches that far.
pub open spec fn byte_at(packet: Seq<u8>, offset: int) -> Option<u32> {
    if 0 <= offset < packet.len() {
        Some(packet[offset] as u32)
    } else {
        None
    }
}

/// The 16-bit word at an offset, in network order, where the packet reaches
/// that far.
pub open spec fn half_at(packet: Seq<u8>, offset: int) -> Option<u32> {
    if 0 <= offset < packet.len() - 1 {
        Some((packet[offset] as int * 256 + packet[offset + 1] as int) as u32)
    } else {
        None
    }
}

/// The state between two instructions: the next instruction's place, the
/// accumulator and the index register.
pub struct BpfState {
    pub pc: int,
    pub accumulator: u32,
    pub index_register: u32,
}

/// What one instruction does.
pub enum BpfStep {
    /// The program goes on.
    Goto(BpfState),
    /// The program ends with a verdict; `None` where the instruction is not one
    /// of those above.
    Halt(Option<u32>),
}

/// Goes on with a value loaded into the accumulator. A load from beyond the
/// packet's end rejects the packet.
pub open spec fn load(s: BpfState, value: Option<u32>) -> BpfStep {
    match value {
        Some(v) => BpfStep::Goto(
            BpfState { pc: s.pc + 1, accumulator: v, index_register: s.index_register },
        ),
        None => BpfStep::Halt(Some(0)),
    }
}

/// Goes on past `skipped` instructions.
pub open spec fn skip(s: BpfState, skipped: int) -> BpfStep {
    BpfStep::Goto(
        BpfState {
            pc: s.pc + 1 + skipped,
            accumulator: s.accumulator,
            index_register: s.index_register,
        },
    )
}

/// Goes on past `jt` or `jf` instructions.
pub open spec fn branch(s: BpfState, ins: SockFilter, holds: bool) -> BpfStep {
    skip(s, if holds { ins.jt as int } else { ins.jf as int })
}

/// What an instruction does to a packet in a state.
pub open spec fn step(ins: SockFilter, packet: Seq<u8>, s: BpfState) -> BpfStep {
    if ins.code == LD_HALF {
        load(s, half_at(packet, ins.k as int))
    } else if ins.code == LD_BYTE {
        load(s, byte_at(packet, ins.k as int))
    } else if ins.code == LD_HALF_IND {
        load(s, half_at(packet, s.index_register + ins.k))
    } else if ins.code == LD_LEN {
        load(s, Some(packet.len() as u32))
    } else if ins.code == LDX_HEADER_LEN {
        match byte_at(packet, ins.k as int) {
            Some(b) => BpfStep::Goto(
                BpfState {
                    pc: s.pc + 1,
                    accumulator: s.accumulator,
                    index_register: (4 * (b % 16)) as u32,
                },
            ),
            None => BpfStep::Halt(Some(0)),
        }
    } else if ins.code == JUMP_EQ {
        branch(s, ins, s.accumulator == ins.k)
    } else if ins.code == JUMP_GT {
        branch(s, ins, s.accumulator > ins.k)
    } else if ins.code == JUMP_SET {
        branch(s, ins, s.accumulator & ins.k != 0)
    } else if ins.code == JUMP {
        skip(s, ins.k as int)
    } else if ins.code == RETURN {
        BpfStep::Halt(Some(ins.k))
    } else {
        BpfStep::Halt(None)
    }
}

/// The verdict of a program that stands in a state. Running past the last
/// instruction rejects the packet.
pub open spec fn run_from(filter: Seq<SockFilter>, packet: Seq<u8>, s: BpfState) -> Option<u32>
    decreases (if s.pc < filter.len() { filter.len() - s.pc } else { 0 }),
{
    if 0 <= s.pc < filter.len() {
        match step(filter[s.pc], packet, s) {
            BpfStep::Goto(next) => run_from(filter, packet, next),
            BpfStep::Halt(verdict) => verdict,
        }
    } else {
        Some(0)
    }
}

/// The verdict of a program on a packet: how many bytes of it are kept.
pub open spec fn run(filter: Seq<SockFilter>, packet: Seq<u8>) -> Option<u32> {
    run_from(filter, packet, BpfState { pc: 0, accumulator: 0, index_register: 0 })
}

fn read_byte(packet: &[u8], offset: u64) -> (value: Option<u32>)
    ensures
        value == byte_at(packet@, offset as int),
{
    if offset < packet.len() as u64 {
        Some(packet[offset as usize] as u32)
    } else {
        None
    }
}

fn read_half(packet: &[u8], offset: u64) -> (value: Option<u32>)
    ensures
        value == half_at(packet@, offset as int),
{
    let len: u64 = packet.len() as u64;
    if len > 0 && offset < len - 1 {
        let at: usize = offset as usize;
        Some(packet[at] as u32 * 256 + packet[at + 1] as u32)
    } else {
        None
    }
}

/// Runs a program on a packet.
pub fn run_filter(filter: &[SockFilter], packet: &[u8]) -> (verdict: Option<u32>)
    ensures
        verdict == run(filter@, packet@),
{
    let mut accumulator: u32 = 0;
    let mut index_register: u32 = 0;
    let mut pc: usize = 0;
    while pc < filter.len()
        invariant
            run(filter@, packet@) == run_from(
                filter@,
                packet@,
                BpfState { pc: pc as int, accumulator, index_register },
            ),
        decreases filter.len() - pc,
    {
        let ins = filter[pc];
        let loaded: Option<u32>;
        let mut skipped: u32 = 0;
        if ins.code == LD_HALF {
            loaded = read_half(packet, ins.k as u64);
        } else if ins.code == LD_BYTE {
            loaded = read_byte(packet, ins.k as u64);
        } else if ins.code == LD_HALF_IND {
            loaded = read_half(packet, index_register as u64 + ins.k as u64);
        } else if ins.code == LD_LEN {
            loaded = Some(packet.len() as u32);
        } else if ins.code == LDX_HEADER_LEN {
            match read_byte(packet, ins.k as u64) {
                Some(b) => {
                    index_register = 4 * (b % 16);
                },
                None => {
                    return Some(0);
                },
            }
            loaded = Some(accumulator);
        } else if ins.code == JUMP_EQ {
            skipped = if accumulator == ins.k { ins.jt as u32 } else { ins.jf as u32 };
            loaded = Some(accumulator);
        } else if ins.code == JUMP_GT {
            skipped = if accumulator > ins.k { ins.jt as u32 } else { ins.jf as u32 };
            loaded = Some(accumulator);
        } else if ins.code == JUMP_SET {
            skipped = if accumulator & ins.k != 0 { ins.jt as u32 } else { ins.jf as u32 };
            loaded = Some(accumulator);
        } else if ins.code == JUMP {
            skipped = ins.k;
            loaded = Some(accumulator);
        } else if ins.code == RETURN {
            return Some(ins.k);
        } else {
            return None;
        }
        match loaded {
            Some(v) => {
                accumulator = v;
            },
            None => {
                return Some(0);
            },
        }
        if skipped as u64 >= (filter.len() - pc) as u64 {
            assert(run_from(
                filter@,
                packet@,
                BpfState { pc: pc + 1 + skipped, accumulator, index_register },
            ) == Some(0u32));
            return Some(0);
        }
        pc = pc + 1 + skipped as usize;
    }
    Some(0)
}

/// An instruction without jumps.
spec fn ins(code: u16, k: u32) -> SockFilter {
    SockFilter { code, jt: 0, jf: 0, k }
}

/// Where a packet reaches far enough, a load brings the 16-bit word in network
/// order, the byte, or the packet's length; elsewhere it rejects the packet. The
/// programs load, hold what they loaded against a number, and tell by the verdict
/// whether it was that.
pub proof fn law_loads(
    program: &[SockFilter],
    packet: &[u8],
    verdict: Option<u32>,
    code: u16,
    k: u32,
    number: u32,
    yes: u32,
    no: u32,
)
    requires
        packet@.len() <= u32::MAX,
        program@ == seq![
            (SockFilter { code, jt: 0, jf: 0, k }),
            (SockFilter { code: 0x15, jt: 0, jf: 1, k: number }),
            (SockFilter { code: 0x06, jt: 0, jf: 0, k: yes }),
            (SockFilter { code: 0x06, jt: 0, jf: 0, k: no }),
        ],
        call_ensures(run_filter, (program, packet), verdict),
    ensures
        code == 0x28 ==> verdict == Some(
            if k + 1 < packet@.len() {
                if packet@[k as int] * 256 + packet@[k + 1] == number {
                    yes
                } else {
                    no
                }
            } else {
                0
            },
        ),
        code == 0x30 ==> verdict == Some(
            if k < packet@.len() {
                if packet@[k as int] == number {
                    yes
                } else {
                    no
                }
            } else {
                0
            },
        ),
        code == 0x80 ==> verdict == Some(
            if packet@.len() == number {
                yes
            } else {
                no
            },
        ),
{
    reveal_with_fuel(run_from, 5);
}

/// The length of an IPv4 header is four times the low half of a byte, and a load
/// past it starts there. The length of the header leaves what was loaded before
/// as it was.
pub proof fn law_loads_past_header(
    program: &[SockFilter],
    keeping: &[SockFilter],
    packet: &[u8],
    verdict: Option<u32>,
    kept: Option<u32>,
    header: u32,
    k: u32,
    number: u32,
    yes: u32,
    no: u32,
)
    requires
        packet@.len() <= u32::MAX,
        program@ == seq![
            (SockFilter { code: 0xb1, jt: 0, jf: 0, k: header }),
            (SockFilter { code: 0x48, jt: 0, jf: 0, k }),
            (SockFilter { code: 0x15, jt: 0, jf: 1, k: number }),
            (SockFilter { code: 0x06, jt: 0, jf: 0, k: yes }),
            (SockFilter { code: 0x06, jt: 0, jf: 0, k: no }),
        ],
        keeping@ == seq![
            (SockFilter { code: 0x80, jt: 0, jf: 0, k: 0 }),
            (SockFilter { code: 0xb1, jt: 0, jf: 0, k: header }),
            (SockFilter { code: 0x15, jt: 0, jf: 1, k: number }),
            (SockFilter { code: 0x06, jt: 0, jf: 0, k: yes }),
            (SockFilter { code: 0x06, jt: 0, jf: 0, k: no }),
        ],
        call_ensures(run_filter, (program, packet), verdict),
        call_ensures(run_filter, (keeping, packet), kept),
    ensures
        header >= packet@.len() ==> verdict == Some(0u32) && kept == Some(0u32),
        header < packet@.len() ==> ({
            let at = 4 * (packet@[header as int] as int % 16) + k;
            &&& verdict == Some(
                if at + 1 < packet@.len() {
                    if packet@[at] * 256 + packet@[at + 1] == number {
                        yes
                    } else {
                        no
                    }
                } else {
                    0
                },
            )
            &&& kept == Some(
                if packet@.len() == number {
                    yes
                } else {
                    no
                },
            )
        }),
{
    reveal_with_fuel(run_from, 6);
}

/// A conditional jump skips as many instructions as it says for the outcome of its
/// test: whether the accumulator is the number, is greater, or shares a bit with
/// it. Behind the jump stands a row of verdicts that count what was skipped, and
/// past their end the packet is rejected.
pub proof fn law_branches(
    program: &[SockFilter],
    packet: &[u8],
    verdict: Option<u32>,
    code: u16,
    jt: u8,
    jf: u8,
    k: u32,
    n: nat,
)
    requires
        packet@.len() <= u32::MAX,
        n <= 1000,
        program@ == seq![
            (SockFilter { code: 0x80, jt: 0, jf: 0, k: 0 }),
            (SockFilter { code, jt, jf, k }),
        ] + Seq::new(n, |i: int| (SockFilter { code: 0x06, jt: 0, jf: 0, k: i as u32 })),
        call_ensures(run_filter, (program, packet), verdict),
        code == 0x15 || code == 0x25 || code == 0x45,
    ensures
        ({
            let holds = if code == 0x15 {
                packet@.len() == k
            } else if code == 0x25 {
                packet@.len() > k
            } else {
                packet@.len() as u32 & k != 0
            };
            let skipped = if holds {
                jt
            } else {
                jf
            };
            verdict == Some(
                if skipped < n {
                    skipped as u32
                } else {
                    0
                },
            )
        }),
{
    let filter = program@;
    assert(filter[0] == ins(0x80, 0));
    assert(filter[1] == (SockFilter { code, jt, jf, k }));
    assert forall|i: int| 0 <= i < n implies #[trigger] filter[i + 2] == ins(0x06, i as u32) by {}
    reveal_with_fuel(run_from, 4);
    assert(filter[2 + jt] == filter[jt + 2]);
    assert(filter[2 + jf] == filter[jf + 2]);
}

/// A jump skips as many instructions as it says; a verdict ends the program; the
/// end of the program rejects the packet; and an instruction that is none of the
/// known ones has no verdict.
pub proof fn law_jumps_and_ends(
    jumping: &[SockFilter],
    ending: &[SockFilter],
    packet: &[u8],
    jumped: Option<u32>,
    ended: Option<u32>,
    n: nat,
)
    requires
        n <= 1000,
        jumping@.len() == n + 1,
        jumping@[0].code == 0x05,
        forall|i: int|
            1 <= i <= n ==> #[trigger] jumping@[i] == (SockFilter {
                code: 0x06,
                jt: 0,
                jf: 0,
                k: (i - 1) as u32,
            }),
        call_ensures(run_filter, (jumping, packet), jumped),
        call_ensures(run_filter, (ending, packet), ended),
    ensures
        jumped == Some(
            if jumping@[0].k < n {
                jumping@[0].k
            } else {
                0
            },
        ),
        ending@.len() == 0 ==> ended == Some(0u32),
        ending@.len() > 0 && ending@[0].code == 0x06 ==> ended == Some(ending@[0].k),
        ending@.len() > 0 && !(seq![
            0x28u16,
            0x30,
            0x48,
            0x80,
            0xb1,
            0x15,
            0x25,
            0x45,
            0x05,
            0x06,
        ].contains(ending@[0].code)) ==> ended is None,
{
    let known = seq![0x28u16, 0x30, 0x48, 0x80, 0xb1, 0x15, 0x25, 0x45, 0x05, 0x06];
    assert(known[0] == 0x28 && known[1] == 0x30 && known[2] == 0x48 && known[3] == 0x80 && known[4]
        == 0xb1 && known[5] == 0x15 && known[6] == 0x25 && known[7] == 0x45 && known[8] == 0x05
        && known[9] == 0x06);
    reveal_with_fuel(run_from, 3);
    assert(jumping@[0].k < n ==> jumping@[1 + jumping@[0].k as int].code == 0x06);
}

/// A program does the same wherever it stands: instructions in front of it that are
/// skipped make no difference to the verdict.
pub proof fn law_place_makes_no_difference(
    program: &[SockFilter],
    shifted: &[SockFilter],
    packet: &[u8],
    verdict: Option<u32>,
    same: Option<u32>,
)
    requires
        shifted@.len() > program@.len(),
        shifted@.skip(shifted@.len() - program@.len()) == program@,
        shifted@[0].code == 0x05,
        shifted@[0].k == shifted@.len() - program@.len() - 1,
        call_ensures(run_filter, (program, packet), verdict),
        call_ensures(run_filter, (shifted, packet), same),
    ensures
        same == verdict,
{
    let by = shifted@.len() - program@.len();
    let s = BpfState { pc: 0, accumulator: 0, index_register: 0 };
    lemma_shifted(program@, shifted@, packet@, s, by);
    reveal_with_fuel(run_from, 2);
}

proof fn lemma_shifted(
    program: Seq<SockFilter>,
    shifted: Seq<SockFilter>,
    packet: Seq<u8>,
    s: BpfState,
    by: int,
)
    requires
        0 <= by,
        0 <= s.pc,
        shifted.len() == program.len() + by,
        shifted.skip(by) == program,
    ensures
        run_from(shifted, packet, BpfState { pc: s.pc + by, ..s }) == run_from(program, packet, s),
    decreases (if s.pc < program.len() { program.len() - s.pc } else { 0 }),
{
    if s.pc < program.len() {
        assert(shifted.skip(by)[s.pc] == shifted[s.pc + by]);
        match step(program[s.pc], packet, s) {
            BpfStep::Goto(next) => lemma_shifted(program, shifted, packet, next, by),
            BpfStep::Halt(_) => {},
        }
    }
}

} // verus!
