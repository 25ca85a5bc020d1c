//! An assembler for BPF programs: jumps name labels, and the labels are resolved
//! once the whole program is there.

use vstd::hash_map::StringHashMap;
use vstd::prelude::*;

use crate::bpf::{SockFilter, JUMP};
use crate::error::SnifferError;
use crate::text::{join2, join3, push_decimal};

verus! {

/// Where an instruction may go next, other than to the one behind it.
#[verifier::ext_equal]
pub enum Target {
    Nowhere,
    /// To the first label where its test holds, to the second where it fails.
    /// Without a label, to the instruction behind it.
    Conditional(Option<Seq<char>>, Option<Seq<char>>),
    /// To the label, always.
    Jump(Seq<char>),
}

/// An instruction whose jumps are not resolved yet.
#[verifier::ext_equal]
pub struct Line {
    pub code: u16,
    pub k: u32,
    pub target: Target,
}

/// The labels of a program, each with the place of the instruction it stands
/// before.
pub type Labels = Map<Seq<char>, usize>;

/// The label's text, where there is a label.
pub open spec fn label_view(label: Option<&'static str>) -> Option<Seq<char>> {
    match label {
        Some(name) => Some(name@),
        None => None,
    }
}

/// How many instructions a jump at `index` skips to reach a label, or the
/// complaint that it cannot.
pub open spec fn jump_distance(labels: Labels, index: int, label: Seq<char>) -> Result<
    u32,
    Seq<char>,
> {
    if !labels.contains_key(label) {
        Err("missing BPF label: "@ + label)
    } else if labels[label] < index + 1 {
        Err("BPF jump to "@ + label + " would go backwards"@)
    } else if labels[label] - (index + 1) > u32::MAX {
        Err("BPF jump to "@ + label + " is too large"@)
    } else {
        Ok((labels[label] - (index + 1)) as u32)
    }
}

/// The same for a conditional jump, which reaches 255 instructions ahead.
pub open spec fn conditional_distance(labels: Labels, index: int, label: Seq<char>) -> Result<
    u8,
    Seq<char>,
> {
    match jump_distance(labels, index, label) {
        Err(complaint) => Err(complaint),
        Ok(distance) => if distance > u8::MAX {
            Err("BPF jump to "@ + label + " is too large: "@ + crate::text::decimal(distance as nat))
        } else {
            Ok(distance as u8)
        },
    }
}

/// The distance for one side of a conditional jump; none is needed without a
/// label.
pub open spec fn side_distance(labels: Labels, index: int, label: Option<Seq<char>>) -> Result<
    u8,
    Seq<char>,
> {
    match label {
        Some(name) => conditional_distance(labels, index, name),
        None => Ok(0),
    }
}

/// The complaint about the conditional jump of a line, if there is one. The side
/// taken where the test holds comes first.
pub open spec fn conditional_fault(labels: Labels, index: int, line: Line) -> Option<Seq<char>> {
    match line.target {
        Target::Conditional(on_true, on_false) => match side_distance(labels, index, on_true) {
            Err(complaint) => Some(complaint),
            Ok(_) => match side_distance(labels, index, on_false) {
                Err(complaint) => Some(complaint),
                Ok(_) => None,
            },
        },
        _ => None,
    }
}

/// The complaint about the unconditional jump of a line, if there is one.
pub open spec fn jump_fault(labels: Labels, index: int, line: Line) -> Option<Seq<char>> {
    match line.target {
        Target::Jump(label) => match jump_distance(labels, index, label) {
            Err(complaint) => Some(complaint),
            Ok(_) => None,
        },
        _ => None,
    }
}

/// The complaints about the conditional jumps, line by line.
pub open spec fn conditional_faults(labels: Labels, lines: Seq<Line>) -> Seq<Option<Seq<char>>> {
    Seq::new(lines.len(), |i: int| conditional_fault(labels, i, lines[i]))
}

/// The complaints about the unconditional jumps, line by line.
pub open spec fn jump_faults(labels: Labels, lines: Seq<Line>) -> Seq<Option<Seq<char>>> {
    Seq::new(lines.len(), |i: int| jump_fault(labels, i, lines[i]))
}

/// The first complaint of a list.
pub open spec fn first_some(faults: Seq<Option<Seq<char>>>) -> Option<Seq<char>>
    decreases faults.len(),
{
    if faults.len() == 0 {
        None
    } else if faults[0] is Some {
        faults[0]
    } else {
        first_some(faults.drop_first())
    }
}

/// What is wrong with a program: the first conditional jump that cannot be
/// resolved or, where there is none, the first unconditional one.
pub open spec fn first_fault(labels: Labels, lines: Seq<Line>) -> Option<Seq<char>> {
    match first_some(conditional_faults(labels, lines)) {
        Some(complaint) => Some(complaint),
        None => first_some(jump_faults(labels, lines)),
    }
}

/// A line with its jumps resolved.
pub open spec fn resolve_line(labels: Labels, index: int, line: Line) -> SockFilter {
    match line.target {
        Target::Nowhere => SockFilter { code: line.code, jt: 0, jf: 0, k: line.k },
        Target::Conditional(on_true, on_false) => SockFilter {
            code: line.code,
            jt: side_distance(labels, index, on_true)->Ok_0,
            jf: side_distance(labels, index, on_false)->Ok_0,
            k: line.k,
        },
        Target::Jump(label) => SockFilter {
            code: line.code,
            jt: 0,
            jf: 0,
            k: jump_distance(labels, index, label)->Ok_0,
        },
    }
}

/// A program with its jumps resolved.
pub open spec fn resolve(labels: Labels, lines: Seq<Line>) -> Seq<SockFilter> {
    Seq::new(lines.len(), |i: int| resolve_line(labels, i, lines[i]))
}

/// A program under construction.
pub struct FilterBuilder {
    instructions: Vec<SockFilter>,
    labels: StringHashMap<usize>,
    conditional_patches: Vec<(usize, Option<&'static str>, Option<&'static str>)>,
    jump_patches: Vec<(usize, &'static str)>,
    lines: Ghost<Seq<Line>>,
}

impl FilterBuilder {
    /// The program so far.
    pub closed spec fn lines(self) -> Seq<Line> {
        self.lines@
    }

    /// The labels so far.
    pub closed spec fn labels(self) -> Labels {
        self.labels@
    }

    /// The instructions hold the lines, and the patches are what is left to
    /// resolve of them, in the order of the lines.
    pub closed spec fn wf(self) -> bool {
        &&& self.instructions@.len() == self.lines@.len()
        &&& forall|i: int|
            #![trigger self.lines@[i]]
            0 <= i < self.lines@.len() ==> self.instructions@[i] == (SockFilter {
                code: self.lines@[i].code,
                jt: 0,
                jf: 0,
                k: self.lines@[i].k,
            })
        &&& patches_conditionals(self.conditional_patches@, self.lines@)
        &&& patches_jumps(self.jump_patches@, self.lines@)
        &&& labels_inside(self.labels@, self.lines@)
    }
}

/// Each label stands before a line, or behind the last one.
pub open spec fn labels_inside(labels: Labels, lines: Seq<Line>) -> bool {
    forall|label: Seq<char>| #[trigger]
        labels.contains_key(label) ==> labels[label] <= lines.len()
}

type ConditionalPatch = (usize, Option<&'static str>, Option<&'static str>);

type JumpPatch = (usize, &'static str);

/// The patches name the conditional lines, in order, and their labels.
spec fn patches_conditionals(patches: Seq<ConditionalPatch>, lines: Seq<Line>) -> bool {
    &&& forall|j: int|
        #![trigger patches[j]]
        0 <= j < patches.len() ==> patches[j].0 < lines.len() && lines[patches[j].0 as int].target
            == Target::Conditional(label_view(patches[j].1), label_view(patches[j].2))
    &&& forall|j: int, l: int| 0 <= j < l < patches.len() ==> patches[j].0 < patches[l].0
    &&& forall|i: int|
        #![trigger lines[i]]
        0 <= i < lines.len() && lines[i].target is Conditional ==> exists|j: int|
            0 <= j < patches.len() && (#[trigger] patches[j]).0 == i
}

/// The patches name the jumps, in order, and their labels.
spec fn patches_jumps(patches: Seq<JumpPatch>, lines: Seq<Line>) -> bool {
    &&& forall|j: int|
        #![trigger patches[j]]
        0 <= j < patches.len() ==> patches[j].0 < lines.len() && lines[patches[j].0 as int].target
            == Target::Jump(patches[j].1@)
    &&& forall|j: int, l: int| 0 <= j < l < patches.len() ==> patches[j].0 < patches[l].0
    &&& forall|i: int|
        #![trigger lines[i]]
        0 <= i < lines.len() && lines[i].target is Jump ==> exists|j: int|
            0 <= j < patches.len() && (#[trigger] patches[j]).0 == i
}

impl FilterBuilder {
    /// An empty program.
    pub fn new() -> (builder: Self)
        ensures
            builder.wf(),
            builder.lines() == Seq::<Line>::empty(),
            builder.labels() == Map::<Seq<char>, usize>::empty(),
    {
        FilterBuilder {
            instructions: Vec::new(),
            labels: StringHashMap::new(),
            conditional_patches: Vec::new(),
            jump_patches: Vec::new(),
            lines: Ghost(Seq::empty()),
        }
    }

    /// Puts a label before the next instruction. A label that is there already
    /// moves.
    pub fn label(&mut self, name: &'static str)
        requires
            old(self).wf(),
        ensures
            final(self).wf(),
            final(self).lines() == old(self).lines(),
            old(self).lines().len() <= usize::MAX,
            final(self).labels() == old(self).labels().insert(
                name@,
                old(self).lines().len() as usize,
            ),
            labels_inside(final(self).labels(), final(self).lines()),
    {
        assert(self.instructions.len() == self.lines@.len());
        self.labels.insert(name.to_owned(), self.instructions.len());
    }

    /// Adds an instruction that does not jump.
    pub fn statement(&mut self, code: u16, k: u32)
        requires
            old(self).wf(),
        ensures
            final(self).wf(),
            final(self).lines() == old(self).lines().push(Line { code, k, target: Target::Nowhere }),
            final(self).labels() == old(self).labels(),
    {
        self.push(code, k, Ghost(Target::Nowhere));
        proof {
            lemma_push_keeps_patches(
                old(self).conditional_patches@,
                old(self).jump_patches@,
                old(self).lines@,
                self.lines@.last(),
            );
        }
    }

    /// Adds a conditional jump.
    pub fn conditional(
        &mut self,
        code: u16,
        k: u32,
        on_true: Option<&'static str>,
        on_false: Option<&'static str>,
    )
        requires
            old(self).wf(),
        ensures
            final(self).wf(),
            final(self).lines() == old(self).lines().push(
                Line {
                    code,
                    k,
                    target: Target::Conditional(label_view(on_true), label_view(on_false)),
                },
            ),
            final(self).labels() == old(self).labels(),
    {
        let index: usize = self.instructions.len();
        self.push(code, k, Ghost(Target::Conditional(label_view(on_true), label_view(on_false))));
        self.conditional_patches.push((index, on_true, on_false));
        proof {
            lemma_push_keeps_patches(
                old(self).conditional_patches@,
                old(self).jump_patches@,
                old(self).lines@,
                self.lines@.last(),
            );
            lemma_push_conditional(
                old(self).conditional_patches@,
                old(self).lines@,
                self.lines@.last(),
                self.conditional_patches@.last(),
            );
        }
    }

    /// Adds a jump that is always taken.
    pub fn jump(&mut self, target: &'static str)
        requires
            old(self).wf(),
        ensures
            final(self).wf(),
            final(self).lines() == old(self).lines().push(
                Line { code: JUMP, k: 0, target: Target::Jump(target@) },
            ),
            final(self).labels() == old(self).labels(),
    {
        let index: usize = self.instructions.len();
        self.push(JUMP, 0, Ghost(Target::Jump(target@)));
        self.jump_patches.push((index, target));
        proof {
            lemma_push_keeps_patches(
                old(self).conditional_patches@,
                old(self).jump_patches@,
                old(self).lines@,
                self.lines@.last(),
            );
            lemma_push_jump(
                old(self).jump_patches@,
                old(self).lines@,
                self.lines@.last(),
                self.jump_patches@.last(),
            );
        }
    }

    /// How many instructions a jump at `index` skips to reach a label.
    pub fn jump_offset(&self, index: usize, label: &'static str) -> (offset: Result<
        u32,
        SnifferError,
    >)
        requires
            index < usize::MAX,
        ensures
            match jump_distance(self.labels(), index as int, label@) {
                Ok(distance) => offset == Ok::<u32, SnifferError>(distance),
                Err(complaint) => offset matches Err(e) && e.is_other(complaint),
            },
    {
        match self.labels.get(label) {
            None => Err(SnifferError::Other(join2("missing BPF label: ", label))),
            Some(target) => {
                if *target < index + 1 {
                    Err(SnifferError::Other(join3("BPF jump to ", label, " would go backwards")))
                } else {
                    let distance: usize = *target - (index + 1);
                    if distance as u64 > u32::MAX as u64 {
                        Err(SnifferError::Other(join3("BPF jump to ", label, " is too large")))
                    } else {
                        Ok(distance as u32)
                    }
                }
            },
        }
    }

    /// How many instructions a conditional jump at `index` skips to reach a
    /// label.
    pub fn conditional_offset(&self, index: usize, label: &'static str) -> (offset: Result<
        u8,
        SnifferError,
    >)
        requires
            index < usize::MAX,
        ensures
            match conditional_distance(self.labels(), index as int, label@) {
                Ok(distance) => offset == Ok::<u8, SnifferError>(distance),
                Err(complaint) => offset matches Err(e) && e.is_other(complaint),
            },
    {
        let offset: u32 = self.jump_offset(index, label)?;
        if offset > 255 {
            let mut complaint = join3("BPF jump to ", label, " is too large: ");
            push_decimal(&mut complaint, offset);
            Err(SnifferError::Other(complaint))
        } else {
            Ok(offset as u8)
        }
    }

    /// Resolves the jumps.
    pub fn finish(self) -> (filter: Result<Vec<SockFilter>, SnifferError>)
        requires
            self.wf(),
        ensures
            match first_fault(self.labels(), self.lines()) {
                None => filter matches Ok(f) && f@ == resolve(self.labels(), self.lines()),
                Some(complaint) => filter matches Err(e) && e.is_other(complaint),
            },
    {
        let ghost labels = self.labels@;
        let ghost lines = self.lines@;
        let mut this = self;
        this.resolve_conditionals()?;
        this.resolve_jumps()?;
        assert(this.instructions@ =~= resolve(labels, lines));
        Ok(this.instructions)
    }

    /// Resolves the conditional jumps.
    fn resolve_conditionals(&mut self) -> (done: Result<(), SnifferError>)
        requires
            old(self).wf(),
        ensures
            final(self).labels@ == old(self).labels@,
            final(self).lines@ == old(self).lines@,
            final(self).jump_patches@ == old(self).jump_patches@,
            match first_some(conditional_faults(old(self).labels@, old(self).lines@)) {
                None => done is Ok && final(self).instructions@ =~= conditionals_resolved(
                    old(self).labels@,
                    old(self).lines@,
                    old(self).lines@.len() as int,
                ),
                Some(complaint) => done matches Err(e) && e.is_other(complaint),
            },
    {
        let ghost labels = self.labels@;
        let ghost lines = self.lines@;
        let mut next: usize = 0;
        while next < self.conditional_patches.len()
            invariant
                self.labels@ == labels,
                self.lines@ == lines,
                self.jump_patches@ == old(self).jump_patches@,
                labels == old(self).labels@,
                lines == old(self).lines@,
                next <= self.conditional_patches@.len(),
                patches_conditionals(self.conditional_patches@, lines),
                self.instructions@ =~= conditionals_resolved(
                    labels,
                    lines,
                    conditional_bound(self.conditional_patches@, lines, next as int),
                ),
                forall|i: int|
                    0 <= i < conditional_bound(self.conditional_patches@, lines, next as int)
                        ==> (#[trigger] conditional_faults(labels, lines)[i]) is None,
            decreases self.conditional_patches@.len() - next,
        {
            let (index, on_true, on_false) = self.conditional_patches[next];
            let mut ins = self.instructions[index];
            assert(index < self.instructions.len());
            assert(conditional_faults(labels, lines)[index as int] == conditional_fault(
                labels,
                index as int,
                lines[index as int],
            ));
            if let Some(label) = on_true {
                match self.conditional_offset(index, label) {
                    Ok(offset) => {
                        ins.jt = offset;
                    },
                    Err(e) => {
                        proof {
                            lemma_first_some(conditional_faults(labels, lines), index as int);
                        }
                        return Err(e);
                    },
                }
            }
            if let Some(label) = on_false {
                match self.conditional_offset(index, label) {
                    Ok(offset) => {
                        ins.jf = offset;
                    },
                    Err(e) => {
                        proof {
                            lemma_first_some(conditional_faults(labels, lines), index as int);
                        }
                        return Err(e);
                    },
                }
            }
            self.instructions.set(index, ins);
            next = next + 1;
            proof {
                let after = conditional_bound(self.conditional_patches@, lines, next as int);
                assert(index < after) by {
                    if next < self.conditional_patches@.len() {
                        assert(self.conditional_patches@[next - 1].0
                            < self.conditional_patches@[next as int].0);
                    }
                }
                assert forall|i: int| index < i < after implies !(lines[i].target is Conditional) by {
                    if lines[i].target is Conditional {
                        let j = choose|j: int|
                            0 <= j < self.conditional_patches@.len() && (
                            #[trigger] self.conditional_patches@[j]).0 == i;
                        assert(self.conditional_patches@[next - 1].0 == index);
                    }
                }
                assert forall|i: int| 0 <= i < after implies (#[trigger] conditional_faults(
                    labels,
                    lines,
                )[i]) is None by {
                    if i > index {
                        assert(!(lines[i].target is Conditional));
                    }
                }
            }
        }
        proof {
            lemma_none(conditional_faults(labels, lines));
        }
        Ok(())
    }

    /// Resolves the unconditional jumps, once the conditional ones are.
    fn resolve_jumps(&mut self) -> (done: Result<(), SnifferError>)
        requires
            old(self).instructions@ =~= conditionals_resolved(
                old(self).labels@,
                old(self).lines@,
                old(self).lines@.len() as int,
            ),
            patches_jumps(old(self).jump_patches@, old(self).lines@),
        ensures
            match first_some(jump_faults(old(self).labels@, old(self).lines@)) {
                None => done is Ok && final(self).instructions@ =~= jumps_resolved(
                    old(self).labels@,
                    old(self).lines@,
                    old(self).lines@.len() as int,
                ),
                Some(complaint) => done matches Err(e) && e.is_other(complaint),
            },
    {
        let ghost labels = self.labels@;
        let ghost lines = self.lines@;
        let mut next: usize = 0;
        while next < self.jump_patches.len()
            invariant
                self.labels@ == labels,
                self.lines@ == lines,
                labels == old(self).labels@,
                lines == old(self).lines@,
                next <= self.jump_patches@.len(),
                patches_jumps(self.jump_patches@, lines),
                self.instructions@ =~= jumps_resolved(
                    labels,
                    lines,
                    jump_bound(self.jump_patches@, lines, next as int),
                ),
                forall|i: int|
                    0 <= i < jump_bound(self.jump_patches@, lines, next as int) ==> (
                    #[trigger] jump_faults(labels, lines)[i]) is None,
            decreases self.jump_patches@.len() - next,
        {
            let (index, label) = self.jump_patches[next];
            let mut ins = self.instructions[index];
            assert(index < self.instructions.len());
            assert(jump_faults(labels, lines)[index as int] == jump_fault(
                labels,
                index as int,
                lines[index as int],
            ));
            match self.jump_offset(index, label) {
                Ok(offset) => {
                    ins.k = offset;
                },
                Err(e) => {
                    proof {
                        lemma_first_some(jump_faults(labels, lines), index as int);
                    }
                    return Err(e);
                },
            }
            self.instructions.set(index, ins);
            next = next + 1;
            proof {
                let after = jump_bound(self.jump_patches@, lines, next as int);
                assert(index < after) by {
                    if next < self.jump_patches@.len() {
                        assert(self.jump_patches@[next - 1].0 < self.jump_patches@[next as int].0);
                    }
                }
                assert forall|i: int| index < i < after implies !(lines[i].target is Jump) by {
                    if lines[i].target is Jump {
                        let j = choose|j: int|
                            0 <= j < self.jump_patches@.len() && (#[trigger] self.jump_patches@[j]).0
                                == i;
                        assert(self.jump_patches@[next - 1].0 == index);
                    }
                }
                assert forall|i: int| 0 <= i < after implies (#[trigger] jump_faults(
                    labels,
                    lines,
                )[i]) is None by {
                    if i > index {
                        assert(!(lines[i].target is Jump));
                    }
                }
            }
        }
        proof {
            lemma_none(jump_faults(labels, lines));
        }
        Ok(())
    }

    /// Adds an instruction; what is to be resolved of it is left to the caller.
    fn push(&mut self, code: u16, k: u32, target: Ghost<Target>)
        requires
            old(self).instructions@.len() == old(self).lines@.len(),
        ensures
            final(self).instructions@ == old(self).instructions@.push(
                SockFilter { code, jt: 0, jf: 0, k },
            ),
            final(self).lines@ == old(self).lines@.push(Line { code, k, target: target@ }),
            final(self).labels@ == old(self).labels@,
            final(self).conditional_patches@ == old(self).conditional_patches@,
            final(self).jump_patches@ == old(self).jump_patches@,
    {
        self.instructions.push(SockFilter { code, jt: 0, jf: 0, k });
        self.lines = Ghost(self.lines@.push(Line { code, k, target: target@ }));
    }
}

/// The line that the patch at `next` is for; past the last patch, the end.
spec fn conditional_bound(patches: Seq<ConditionalPatch>, lines: Seq<Line>, next: int) -> int {
    if next < patches.len() {
        patches[next].0 as int
    } else {
        lines.len() as int
    }
}

spec fn jump_bound(patches: Seq<JumpPatch>, lines: Seq<Line>, next: int) -> int {
    if next < patches.len() {
        patches[next].0 as int
    } else {
        lines.len() as int
    }
}

/// The program with the conditional jumps before `bound` resolved.
spec fn conditionals_resolved(labels: Labels, lines: Seq<Line>, bound: int) -> Seq<SockFilter> {
    Seq::new(
        lines.len(),
        |i: int|
            if lines[i].target is Conditional && i < bound {
                resolve_line(labels, i, lines[i])
            } else {
                SockFilter { code: lines[i].code, jt: 0, jf: 0, k: lines[i].k }
            },
    )
}

/// The program with the conditional jumps, and the jumps before `bound`,
/// resolved.
spec fn jumps_resolved(labels: Labels, lines: Seq<Line>, bound: int) -> Seq<SockFilter> {
    Seq::new(
        lines.len(),
        |i: int|
            if lines[i].target is Conditional || lines[i].target is Jump && i < bound {
                resolve_line(labels, i, lines[i])
            } else {
                SockFilter { code: lines[i].code, jt: 0, jf: 0, k: lines[i].k }
            },
    )
}

/// The first complaint is the one with none before it.
proof fn lemma_first_some(faults: Seq<Option<Seq<char>>>, at: int)
    requires
        0 <= at < faults.len(),
        faults[at] is Some,
        forall|i: int| 0 <= i < at ==> (#[trigger] faults[i]) is None,
    ensures
        first_some(faults) == faults[at],
    decreases at,
{
    if at > 0 {
        let rest = faults.drop_first();
        assert(faults[0] is None);
        assert forall|i: int| 0 <= i < at - 1 implies (#[trigger] rest[i]) is None by {
            assert(faults[i + 1] is None);
        }
        lemma_first_some(rest, at - 1);
    }
}

/// A list without complaints has no first one.
pub(crate) proof fn lemma_none(faults: Seq<Option<Seq<char>>>)
    requires
        forall|i: int| 0 <= i < faults.len() ==> (#[trigger] faults[i]) is None,
    ensures
        first_some(faults) is None,
    decreases faults.len(),
{
    if faults.len() > 0 {
        let rest = faults.drop_first();
        assert forall|i: int| 0 <= i < rest.len() implies (#[trigger] rest[i]) is None by {
            assert(faults[i + 1] is None);
        }
        lemma_none(rest);
    }
}

/// A line with no jump of a kind leaves the patches of that kind as they are.
proof fn lemma_push_keeps_patches(
    conditionals: Seq<ConditionalPatch>,
    jumps: Seq<JumpPatch>,
    lines: Seq<Line>,
    line: Line,
)
    requires
        patches_conditionals(conditionals, lines),
        patches_jumps(jumps, lines),
    ensures
        !(line.target is Conditional) ==> patches_conditionals(conditionals, lines.push(line)),
        !(line.target is Jump) ==> patches_jumps(jumps, lines.push(line)),
{
    let longer = lines.push(line);
    assert forall|i: int|
        #![trigger longer[i]]
        0 <= i < lines.len() && longer[i].target is Conditional implies exists|j: int|
        0 <= j < conditionals.len() && (#[trigger] conditionals[j]).0 == i by {
        assert(lines[i] == longer[i]);
    }
    assert forall|i: int|
        #![trigger longer[i]]
        0 <= i < lines.len() && longer[i].target is Jump implies exists|j: int|
        0 <= j < jumps.len() && (#[trigger] jumps[j]).0 == i by {
        assert(lines[i] == longer[i]);
    }
}

/// A conditional line comes with a patch.
proof fn lemma_push_conditional(
    patches: Seq<ConditionalPatch>,
    lines: Seq<Line>,
    line: Line,
    patch: ConditionalPatch,
)
    requires
        patches_conditionals(patches, lines),
        patch.0 == lines.len(),
        line.target == Target::Conditional(label_view(patch.1), label_view(patch.2)),
    ensures
        patches_conditionals(patches.push(patch), lines.push(line)),
{
    let longer = lines.push(line);
    let more = patches.push(patch);
    assert forall|i: int|
        #![trigger longer[i]]
        0 <= i < longer.len() && longer[i].target is Conditional implies exists|j: int|
        0 <= j < more.len() && (#[trigger] more[j]).0 == i by {
        if i < lines.len() {
            assert(lines[i] == longer[i]);
            let j = choose|j: int| 0 <= j < patches.len() && (#[trigger] patches[j]).0 == i;
            assert(more[j] == patches[j]);
        } else {
            assert(more[patches.len() as int] == patch);
        }
    }
}

/// A jump comes with a patch.
proof fn lemma_push_jump(patches: Seq<JumpPatch>, lines: Seq<Line>, line: Line, patch: JumpPatch)
    requires
        patches_jumps(patches, lines),
        patch.0 == lines.len(),
        line.target == Target::Jump(patch.1@),
    ensures
        patches_jumps(patches.push(patch), lines.push(line)),
{
    let longer = lines.push(line);
    let more = patches.push(patch);
    assert forall|i: int|
        #![trigger longer[i]]
        0 <= i < longer.len() && longer[i].target is Jump implies exists|j: int|
        0 <= j < more.len() && (#[trigger] more[j]).0 == i by {
        if i < lines.len() {
            assert(lines[i] == longer[i]);
            let j = choose|j: int| 0 <= j < patches.len() && (#[trigger] patches[j]).0 == i;
            assert(more[j] == patches[j]);
        } else {
            assert(more[patches.len() as int] == patch);
        }
    }
}

/// A list without a first complaint has none at all.
proof fn lemma_no_first_some(faults: Seq<Option<Seq<char>>>, at: int)
    requires
        first_some(faults) is None,
        0 <= at < faults.len(),
    ensures
        faults[at] is None,
    decreases faults.len(),
{
    if at > 0 {
        lemma_no_first_some(faults.drop_first(), at - 1);
    }
}

/// In a program without faults, each jump lands on the instruction that its
/// label stands before, and goes forward; a side without a label goes to the
/// instruction behind. Nothing else of a line changes.
pub proof fn law_jumps_land_on_labels(labels: Labels, lines: Seq<Line>, i: int)
    requires
        first_fault(labels, lines) is None,
        0 <= i < lines.len(),
    ensures
        ({
            let ins = resolve(labels, lines)[i];
            &&& ins.code == lines[i].code
            &&& match lines[i].target {
                Target::Nowhere => ins.jt == 0 && ins.jf == 0 && ins.k == lines[i].k,
                Target::Conditional(on_true, on_false) => {
                    &&& ins.k == lines[i].k
                    &&& on_true matches Some(label) ==> labels.contains_key(label)
                    &&& on_false matches Some(label) ==> labels.contains_key(label)
                    &&& i + 1 + ins.jt == (match on_true {
                        Some(label) => labels[label] as int,
                        None => i + 1,
                    })
                    &&& i + 1 + ins.jf == (match on_false {
                        Some(label) => labels[label] as int,
                        None => i + 1,
                    })
                },
                Target::Jump(label) => {
                    &&& ins.jt == 0
                    &&& ins.jf == 0
                    &&& labels.contains_key(label)
                    &&& i + 1 + ins.k == labels[label]
                },
            }
        }),
{
    lemma_no_first_some(conditional_faults(labels, lines), i);
    lemma_no_first_some(jump_faults(labels, lines), i);
}

/// A program under construction is no longer than can be counted, and each of its
/// labels stands before one of its lines or behind the last one.
pub proof fn law_labels_stay_inside(builder: FilterBuilder)
    requires
        builder.wf(),
    ensures
        builder.lines().len() <= usize::MAX,
        labels_inside(builder.labels(), builder.lines()),
{
    assert(builder.instructions.len() == builder.lines@.len());
}

/// Whether a jump at `index` can reach a label by skipping no more than `reach`
/// instructions: the label is there, and ahead.
pub open spec fn in_reach(labels: Labels, index: int, label: Seq<char>, reach: int) -> bool {
    labels.contains_key(label) && index < labels[label] <= index + 1 + reach
}

/// Whether both sides of a conditional jump can reach their labels, where they have
/// one: they reach 255 instructions ahead.
pub open spec fn sides_in_reach(labels: Labels, index: int, target: Target) -> bool {
    target matches Target::Conditional(on_true, on_false) ==> {
        &&& on_true matches Some(label) ==> in_reach(labels, index, label, 255)
        &&& on_false matches Some(label) ==> in_reach(labels, index, label, 255)
    }
}

/// Whether an unconditional jump can reach its label.
pub open spec fn jump_in_reach(labels: Labels, index: int, target: Target) -> bool {
    target matches Target::Jump(label) ==> in_reach(labels, index, label, 0xffff_ffff)
}

/// The offset of a jump leads from the instruction behind it to the label; there is
/// one exactly where the label is there and ahead, and no further than the jump
/// reaches. Where there is none, it is told which of these fails.
pub proof fn law_offsets_lead_to_labels(
    builder: FilterBuilder,
    index: usize,
    label: &'static str,
    far: Result<u32, SnifferError>,
    near: Result<u8, SnifferError>,
)
    requires
        index < usize::MAX,
        call_ensures(FilterBuilder::jump_offset, (&builder, index, label), far),
        call_ensures(FilterBuilder::conditional_offset, (&builder, index, label), near),
    ensures
        far is Ok <==> in_reach(builder.labels(), index as int, label@, 0xffff_ffff),
        near is Ok <==> in_reach(builder.labels(), index as int, label@, 255),
        far matches Ok(offset) ==> index + 1 + offset == builder.labels()[label@],
        near matches Ok(offset) ==> index + 1 + offset == builder.labels()[label@],
        !builder.labels().contains_key(label@) ==> far->Err_0.is_other(
            "missing BPF label: "@ + label@,
        ) && near->Err_0.is_other("missing BPF label: "@ + label@),
        builder.labels().contains_key(label@) && builder.labels()[label@] <= index ==> {
            &&& far->Err_0.is_other("BPF jump to "@ + label@ + " would go backwards"@)
            &&& near->Err_0.is_other("BPF jump to "@ + label@ + " would go backwards"@)
        },
        builder.labels().contains_key(label@) && builder.labels()[label@] > index + 1
            + 0xffff_ffff ==> {
            &&& far->Err_0.is_other("BPF jump to "@ + label@ + " is too large"@)
            &&& near->Err_0.is_other("BPF jump to "@ + label@ + " is too large"@)
        },
        builder.labels().contains_key(label@) && index + 1 + 255 < builder.labels()[label@] <= index
            + 1 + 0xffff_ffff ==> near->Err_0.is_other(
            "BPF jump to "@ + label@ + " is too large: "@ + crate::text::decimal(
                (builder.labels()[label@] - index - 1) as nat,
            ),
        ),
{
}

/// A program is finished exactly where every jump can reach its label. Each jump
/// then lands on the instruction that its label stands before, a side without a
/// label on the instruction behind, and nothing else of a line changes.
pub proof fn law_finished_program(
    builder: FilterBuilder,
    filter: Result<Vec<SockFilter>, SnifferError>,
)
    requires
        builder.wf(),
        call_ensures(FilterBuilder::finish, (builder,), filter),
    ensures
        filter is Ok <==> forall|i: int|
            0 <= i < builder.lines().len() ==> sides_in_reach(
                builder.labels(),
                i,
                (#[trigger] builder.lines()[i]).target,
            ) && jump_in_reach(builder.labels(), i, builder.lines()[i].target),
        filter matches Ok(program) ==> {
            &&& program@.len() == builder.lines().len()
            &&& forall|i: int|
                0 <= i < program@.len() ==> ({
                    let line = builder.lines()[i];
                    let ins = #[trigger] program@[i];
                    &&& ins.code == line.code
                    &&& match line.target {
                        Target::Nowhere => ins.jt == 0 && ins.jf == 0 && ins.k == line.k,
                        Target::Conditional(on_true, on_false) => {
                            &&& ins.k == line.k
                            &&& i + 1 + ins.jt == (match on_true {
                                Some(label) => builder.labels()[label] as int,
                                None => i + 1,
                            })
                            &&& i + 1 + ins.jf == (match on_false {
                                Some(label) => builder.labels()[label] as int,
                                None => i + 1,
                            })
                        },
                        Target::Jump(label) => ins.jt == 0 && ins.jf == 0 && i + 1 + ins.k
                            == builder.labels()[label],
                    }
                })
        },
{
    let labels = builder.labels();
    let lines = builder.lines();
    assert forall|i: int| 0 <= i < lines.len() implies {
        &&& sides_in_reach(labels, i, (#[trigger] lines[i]).target) <==> conditional_faults(
            labels,
            lines,
        )[i] is None
        &&& jump_in_reach(labels, i, lines[i].target) <==> jump_faults(labels, lines)[i] is None
    } by {
        lemma_fault_is_out_of_reach(labels, i, lines[i]);
    }
    if first_fault(labels, lines) is None {
        assert forall|i: int| 0 <= i < lines.len() implies sides_in_reach(
            labels,
            i,
            (#[trigger] lines[i]).target,
        ) && jump_in_reach(labels, i, lines[i].target) by {
            lemma_no_first_some(conditional_faults(labels, lines), i);
            lemma_no_first_some(jump_faults(labels, lines), i);
        }
        assert forall|i: int| 0 <= i < lines.len() implies ({
            let line = lines[i];
            let ins = #[trigger] resolve(labels, lines)[i];
            &&& ins.code == line.code
            &&& match line.target {
                Target::Nowhere => ins.jt == 0 && ins.jf == 0 && ins.k == line.k,
                Target::Conditional(on_true, on_false) => {
                    &&& ins.k == line.k
                    &&& i + 1 + ins.jt == (match on_true {
                        Some(label) => labels[label] as int,
                        None => i + 1,
                    })
                    &&& i + 1 + ins.jf == (match on_false {
                        Some(label) => labels[label] as int,
                        None => i + 1,
                    })
                },
                Target::Jump(label) => ins.jt == 0 && ins.jf == 0 && i + 1 + ins.k
                    == labels[label],
            }
        }) by {
            law_jumps_land_on_labels(labels, lines, i);
        }
    } else if forall|i: int|
        0 <= i < lines.len() ==> sides_in_reach(labels, i, (#[trigger] lines[i]).target)
            && jump_in_reach(labels, i, lines[i].target) {
        assert forall|i: int| 0 <= i < lines.len() implies (#[trigger] conditional_faults(
            labels,
            lines,
        )[i]) is None by {
            assert(sides_in_reach(labels, i, lines[i].target));
        }
        assert forall|i: int| 0 <= i < lines.len() implies (#[trigger] jump_faults(
            labels,
            lines,
        )[i]) is None by {
            assert(jump_in_reach(labels, i, lines[i].target));
        }
        lemma_none(conditional_faults(labels, lines));
        lemma_none(jump_faults(labels, lines));
    }
}

/// A line has a fault exactly where a jump of it cannot reach its label.
proof fn lemma_fault_is_out_of_reach(labels: Labels, i: int, line: Line)
    requires
        0 <= i,
    ensures
        sides_in_reach(labels, i, line.target) <==> conditional_fault(labels, i, line) is None,
        jump_in_reach(labels, i, line.target) <==> jump_fault(labels, i, line) is None,
{
}

/// Of a program that cannot be finished, the first conditional jump that cannot
/// reach a label is told, its side for a test that holds before the other one; and
/// only where there is none, the first unconditional jump.
pub proof fn law_first_fault_is_told(
    builder: FilterBuilder,
    filter: Result<Vec<SockFilter>, SnifferError>,
    at: int,
    near: Result<u8, SnifferError>,
    far: Result<u32, SnifferError>,
    label: &'static str,
)
    requires
        builder.wf(),
        call_ensures(FilterBuilder::finish, (builder,), filter),
        0 <= at < builder.lines().len(),
        at < usize::MAX,
        call_ensures(FilterBuilder::conditional_offset, (&builder, at as usize, label), near),
        call_ensures(FilterBuilder::jump_offset, (&builder, at as usize, label), far),
    ensures
        (forall|i: int|
            0 <= i < at ==> sides_in_reach(
                builder.labels(),
                i,
                (#[trigger] builder.lines()[i]).target,
            )) ==> {
            &&& builder.lines()[at].target matches Target::Conditional(
                Some(on_true),
                _,
            ) ==> (on_true == label@ ==> (near matches Err(e) ==> (filter matches Err(told)
                && same_text(told, e))))
            &&& builder.lines()[at].target matches Target::Conditional(on_true, Some(on_false)) ==> (
            on_false == label@ && (on_true matches Some(first) ==> in_reach(
                builder.labels(),
                at,
                first,
                255,
            )) ==> (near matches Err(e) ==> (filter matches Err(told) && same_text(told, e))))
        },
        (forall|i: int|
            0 <= i < builder.lines().len() ==> sides_in_reach(
                builder.labels(),
                i,
                (#[trigger] builder.lines()[i]).target,
            )) && (forall|i: int|
            0 <= i < at ==> jump_in_reach(
                builder.labels(),
                i,
                (#[trigger] builder.lines()[i]).target,
            )) ==> (builder.lines()[at].target == Target::Jump(label@) ==> (
        far matches Err(e) ==> (filter matches Err(told) && same_text(told, e)))),
{
    let labels = builder.labels();
    let lines = builder.lines();
    assert forall|i: int| 0 <= i < lines.len() implies {
        &&& sides_in_reach(labels, i, (#[trigger] lines[i]).target) <==> conditional_faults(
            labels,
            lines,
        )[i] is None
        &&& jump_in_reach(labels, i, lines[i].target) <==> jump_faults(labels, lines)[i] is None
    } by {
        lemma_fault_is_out_of_reach(labels, i, lines[i]);
    }
    if forall|i: int|
        0 <= i < at ==> sides_in_reach(labels, i, (#[trigger] lines[i]).target) {
        assert forall|i: int| 0 <= i < at implies (#[trigger] conditional_faults(
            labels,
            lines,
        )[i]) is None by {
            assert(sides_in_reach(labels, i, lines[i].target));
        }
        if conditional_faults(labels, lines)[at] is Some {
            lemma_first_some(conditional_faults(labels, lines), at);
        }
    }
    if (forall|i: int|
        0 <= i < lines.len() ==> sides_in_reach(labels, i, (#[trigger] lines[i]).target)) && (
    forall|i: int| 0 <= i < at ==> jump_in_reach(labels, i, (#[trigger] lines[i]).target)) {
        assert forall|i: int| 0 <= i < lines.len() implies (#[trigger] conditional_faults(
            labels,
            lines,
        )[i]) is None by {
            assert(sides_in_reach(labels, i, lines[i].target));
        }
        lemma_none(conditional_faults(labels, lines));
        assert forall|i: int| 0 <= i < at implies (#[trigger] jump_faults(
            labels,
            lines,
        )[i]) is None by {
            assert(jump_in_reach(labels, i, lines[i].target));
        }
        if jump_faults(labels, lines)[at] is Some {
            lemma_first_some(jump_faults(labels, lines), at);
        }
    }
}

/// Whether two failures are told in the same words.
pub open spec fn same_text(a: SnifferError, b: SnifferError) -> bool {
    a matches SnifferError::Other(x) && (b matches SnifferError::Other(y) && x@ == y@)
}

/// A new program is empty. A label stands before the line that comes next, and
/// leaves the lines and the other labels as they are.
pub proof fn law_label_stands_before_next_line(
    fresh: FilterBuilder,
    builder: &mut FilterBuilder,
    name: &'static str,
)
    requires
        call_ensures(FilterBuilder::new, (), fresh),
        call_ensures(FilterBuilder::label, (builder, name), ()),
        old(builder).wf(),
    ensures
        fresh.lines().len() == 0,
        forall|label: Seq<char>| !(#[trigger] fresh.labels().contains_key(label)),
        final(builder).lines() == old(builder).lines(),
        final(builder).labels().contains_key(name@),
        final(builder).labels()[name@] == old(builder).lines().len(),
        forall|label: Seq<char>|
            label != name@ ==> (#[trigger] final(builder).labels().contains_key(label)
                <==> old(builder).labels().contains_key(label)) && (old(
                builder,
            ).labels().contains_key(label) ==> final(builder).labels()[label] == old(
                builder,
            ).labels()[label]),
{
}

/// Each line is added behind those that are there, which it leaves as they are, and
/// so it leaves the labels; it has the code, the number and the labels that were
/// given for it.
pub proof fn law_lines_are_added_behind(
    plain: &mut FilterBuilder,
    forked: &mut FilterBuilder,
    jumping: &mut FilterBuilder,
    code: u16,
    k: u32,
    on_true: Option<&'static str>,
    on_false: Option<&'static str>,
    target: &'static str,
)
    requires
        call_ensures(FilterBuilder::statement, (plain, code, k), ()),
        call_ensures(FilterBuilder::conditional, (forked, code, k, on_true, on_false), ()),
        call_ensures(FilterBuilder::jump, (jumping, target), ()),
    ensures
        final(plain).labels() == old(plain).labels(),
        final(plain).lines().drop_last() == old(plain).lines(),
        final(plain).lines().last() == (Line { code, k, target: Target::Nowhere }),
        final(forked).labels() == old(forked).labels(),
        final(forked).lines().drop_last() == old(forked).lines(),
        final(forked).lines().last().code == code && final(forked).lines().last().k == k,
        final(forked).lines().last().target matches Target::Conditional(first, second) && (
        match on_true {
            Some(label) => first == Some(label@),
            None => first is None,
        }) && (match on_false {
            Some(label) => second == Some(label@),
            None => second is None,
        }),
        final(jumping).labels() == old(jumping).labels(),
        final(jumping).lines().drop_last() == old(jumping).lines(),
        final(jumping).lines().last() == (Line { code: 0x05, k: 0, target: Target::Jump(target@) }),
{
    assert(final(plain).lines().drop_last() =~= old(plain).lines());
    assert(final(forked).lines().drop_last() =~= old(forked).lines());
    assert(final(jumping).lines().drop_last() =~= old(jumping).lines());
}

} // verus!
