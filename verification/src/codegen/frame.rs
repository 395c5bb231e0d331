//! Frame allocation: every name gets eight bytes of its own in the stack frame.
//!
//! The names are taken in the order in which the instructions first mention
//! them, the destination of an instruction before its source. The first gets the
//! offset -8 from the frame pointer, the second -16, and so on. A name keeps its
//! offset, and no offset is given twice.

use vstd::prelude::*;
use crate::codegen::{instruction_views, Instruction, InstructionView, Operand, OperandView};

verus! {

/// The number of slots that a frame can hold: the last one lies at the lowest
/// offset that an operand can express.
pub const FRAME_CAPACITY: usize = 0x1000_0000;

/// The names `names`, and after them the name of `operand` if it is a name that
/// is not among them.
pub open spec fn record(names: Seq<Seq<char>>, operand: OperandView) -> Seq<Seq<char>> {
    match operand {
        OperandView::Pseudo(name) => if names.contains(name) {
            names
        } else {
            names.push(name)
        },
        _ => names,
    }
}

/// The names `names`, and after them the new names of the operands of
/// `instruction`, the destination's first.
pub open spec fn record_instruction(names: Seq<Seq<char>>, instruction: InstructionView) -> Seq<
    Seq<char>,
> {
    let operands = instruction.operands();
    if operands.len() == 2 {
        record(record(names, operands[0]), operands[1])
    } else if operands.len() == 1 {
        record(names, operands[0])
    } else {
        names
    }
}

/// The names `names`, and after them the new names in `instructions`, in the
/// order in which they are first mentioned.
pub open spec fn frame_names(names: Seq<Seq<char>>, instructions: Seq<InstructionView>) -> Seq<
    Seq<char>,
>
    decreases instructions.len(),
{
    if instructions.len() == 0 {
        names
    } else {
        record_instruction(frame_names(names, instructions.drop_last()), instructions.last())
    }
}

/// The offset of the slot with the given index: slots lie eight bytes apart,
/// the first at -8.
pub open spec fn slot_offset(index: int) -> int {
    -8 * (index + 1)
}

/// The offset of the slot of `name` in a frame that holds `names`.
pub open spec fn slot(names: Seq<Seq<char>>, name: Seq<char>) -> int {
    slot_offset(names.index_of(name))
}

/// The operand with its name replaced by its slot.
pub open spec fn place(names: Seq<Seq<char>>, operand: OperandView) -> OperandView {
    match operand {
        OperandView::Pseudo(name) => OperandView::StackQWord(slot(names, name) as i32),
        other => other,
    }
}

/// The instruction with the names among its operands replaced by their slots.
pub open spec fn place_instruction(names: Seq<Seq<char>>, instruction: InstructionView) -> InstructionView {
    let operands = instruction.operands();
    if operands.len() == 2 {
        instruction.with_operands(place(names, operands[0]), place(names, operands[1]))
    } else if operands.len() == 1 {
        instruction.with_operands(place(names, operands[0]), operands[0])
    } else {
        instruction
    }
}

/// The instructions with every name replaced by its slot.
pub open spec fn place_all(names: Seq<Seq<char>>, instructions: Seq<InstructionView>) -> Seq<
    InstructionView,
> {
    instructions.map_values(|i: InstructionView| place_instruction(names, i))
}

/// Whether the frame for `instructions` has a slot for each of their names.
pub open spec fn frame_fits(instructions: Seq<InstructionView>) -> bool {
    frame_names(Seq::empty(), instructions).len() <= FRAME_CAPACITY
}

/// Whether every name among the operands of `instruction` is among `names`.
pub open spec fn covers(names: Seq<Seq<char>>, instruction: InstructionView) -> bool {
    forall|k: int|
        0 <= k < instruction.operands().len() ==> (#[trigger] instruction.operands()[k]
            matches OperandView::Pseudo(name) ==> names.contains(name))
}

/// Whether `longer` begins with `shorter`.
pub open spec fn extends(shorter: Seq<Seq<char>>, longer: Seq<Seq<char>>) -> bool {
    shorter.len() <= longer.len() && forall|k: int|
        0 <= k < shorter.len() ==> shorter[k] == #[trigger] longer[k]
}

/// Among distinct names, a name stands at one index only.
pub proof fn lemma_index_of(names: Seq<Seq<char>>, i: int)
    requires
        names.no_duplicates(),
        0 <= i < names.len(),
    ensures
        names.index_of(names[i]) == i,
{
    let j = names.index_of(names[i]);
    assert(0 <= j < names.len() && names[j] == names[i]);
}

/// Different names of a frame have different slots.
pub proof fn lemma_slots_distinct(names: Seq<Seq<char>>, a: Seq<char>, b: Seq<char>)
    requires
        names.no_duplicates(),
        names.contains(a),
        names.contains(b),
        a != b,
    ensures
        slot(names, a) != slot(names, b),
        slot(names, a) % 8 == 0,
        -8 * names.len() <= slot(names, a) <= -8,
{
    let i = choose|i: int| 0 <= i < names.len() && names[i] == a;
    let j = choose|j: int| 0 <= j < names.len() && names[j] == b;
    lemma_index_of(names, i);
    lemma_index_of(names, j);
}

/// A name keeps its slot when more names are added to the frame.
pub proof fn lemma_slot_stable(shorter: Seq<Seq<char>>, longer: Seq<Seq<char>>, name: Seq<char>)
    requires
        extends(shorter, longer),
        longer.no_duplicates(),
        shorter.contains(name),
    ensures
        slot(longer, name) == slot(shorter, name),
{
    let i = choose|i: int| 0 <= i < shorter.len() && shorter[i] == name;
    assert(longer[i] == name);
    assert forall|a: int, b: int|
        0 <= a < shorter.len() && 0 <= b < shorter.len() && a != b implies shorter[a]
        != shorter[b] by {
        assert(shorter[a] == longer[a] && shorter[b] == longer[b]);
    }
    lemma_index_of(shorter, i);
    lemma_index_of(longer, i);
}

/// Recording an operand keeps the names that are there, keeps them distinct, and
/// has the operand's name among them afterwards.
pub proof fn lemma_record(names: Seq<Seq<char>>, operand: OperandView)
    requires
        names.no_duplicates(),
    ensures
        record(names, operand).no_duplicates(),
        extends(names, record(names, operand)),
        operand matches OperandView::Pseudo(name) ==> record(names, operand).contains(name),
{
    match operand {
        OperandView::Pseudo(name) => {
            if names.contains(name) {
            } else {
                let longer = names.push(name);
                assert(longer[names.len() as int] == name);
                assert forall|a: int, b: int|
                    0 <= a < longer.len() && 0 <= b < longer.len() && a != b implies longer[a]
                    != longer[b] by {
                    if a < names.len() && b < names.len() {
                        assert(names[a] != names[b]);
                    } else if a < names.len() {
                        assert(names.contains(names[a]));
                    } else {
                        assert(names.contains(names[b]));
                    }
                }
            }
        },
        _ => {},
    }
}

/// Recording an instruction keeps the names that are there, keeps them distinct,
/// and has the names of the instruction among them afterwards.
pub proof fn lemma_record_instruction(names: Seq<Seq<char>>, instruction: InstructionView)
    requires
        names.no_duplicates(),
    ensures
        record_instruction(names, instruction).no_duplicates(),
        extends(names, record_instruction(names, instruction)),
        covers(record_instruction(names, instruction), instruction),
{
    let operands = instruction.operands();
    let after = record_instruction(names, instruction);
    if operands.len() == 2 {
        let first = record(names, operands[0]);
        lemma_record(names, operands[0]);
        lemma_record(first, operands[1]);
        assert forall|k: int| 0 <= k < operands.len() implies (#[trigger] operands[k]
            matches OperandView::Pseudo(name) ==> after.contains(name)) by {
            if k == 0 {
                if let OperandView::Pseudo(name) = operands[0] {
                    let i = choose|i: int| 0 <= i < first.len() && first[i] == name;
                    assert(after[i] == name);
                }
            }
        }
    } else if operands.len() == 1 {
        lemma_record(names, operands[0]);
    }
}

/// The names of a frame are distinct, and begin with the names that were there.
pub proof fn lemma_frame_names(names: Seq<Seq<char>>, instructions: Seq<InstructionView>)
    requires
        names.no_duplicates(),
    ensures
        frame_names(names, instructions).no_duplicates(),
        extends(names, frame_names(names, instructions)),
        forall|i: int|
            0 <= i < instructions.len() ==> covers(
                frame_names(names, instructions),
                #[trigger] instructions[i],
            ),
    decreases instructions.len(),
{
    if instructions.len() > 0 {
        let front = instructions.drop_last();
        let before = frame_names(names, front);
        let after = frame_names(names, instructions);
        lemma_frame_names(names, front);
        lemma_record_instruction(before, instructions.last());
        assert forall|i: int| 0 <= i < instructions.len() implies covers(
            after,
            #[trigger] instructions[i],
        ) by {
            if i < front.len() {
                assert(covers(before, front[i]));
                lemma_covers_extends(before, after, instructions[i]);
            }
        }
    }
}

/// What a frame covers, a longer frame covers too.
pub proof fn lemma_covers_extends(
    shorter: Seq<Seq<char>>,
    longer: Seq<Seq<char>>,
    instruction: InstructionView,
)
    requires
        extends(shorter, longer),
        covers(shorter, instruction),
    ensures
        covers(longer, instruction),
{
    assert forall|k: int| 0 <= k < instruction.operands().len() implies (
    #[trigger] instruction.operands()[k] matches OperandView::Pseudo(name) ==> longer.contains(
        name,
    )) by {
        if let OperandView::Pseudo(name) = instruction.operands()[k] {
            let i = choose|i: int| 0 <= i < shorter.len() && shorter[i] == name;
            assert(longer[i] == name);
        }
    }
}

/// An instruction whose names a frame covers is placed alike in a longer frame.
pub proof fn lemma_place_stable(
    shorter: Seq<Seq<char>>,
    longer: Seq<Seq<char>>,
    instruction: InstructionView,
)
    requires
        extends(shorter, longer),
        longer.no_duplicates(),
        covers(shorter, instruction),
    ensures
        place_instruction(longer, instruction) == place_instruction(shorter, instruction),
{
    let operands = instruction.operands();
    assert forall|k: int| 0 <= k < operands.len() implies place(longer, operands[k]) == place(
        shorter,
        operands[k],
    ) by {
        if let OperandView::Pseudo(name) = operands[k] {
            lemma_slot_stable(shorter, longer, name);
        }
    }
}

/// The frame of the first instructions of a sequence is no larger than the frame
/// of all of them.
pub proof fn lemma_frame_grows(instructions: Seq<InstructionView>, n: int)
    requires
        0 <= n <= instructions.len(),
    ensures
        extends(
            frame_names(Seq::empty(), instructions.take(n)),
            frame_names(Seq::empty(), instructions),
        ),
    decreases instructions.len() - n,
{
    let empty = Seq::<Seq<char>>::empty();
    if n == instructions.len() {
        assert(instructions.take(n) =~= instructions);
    } else {
        lemma_frame_grows(instructions, n + 1);
        let next = instructions.take(n + 1);
        assert(next.drop_last() =~= instructions.take(n));
        lemma_frame_names(empty, instructions.take(n));
        lemma_record_instruction(frame_names(empty, instructions.take(n)), next.last());
    }
}

/// The frame map: the names that have a slot, in the order of their slots.
pub struct FrameMap {
    names: Vec<String>,
}

impl View for FrameMap {
    type V = Seq<Seq<char>>;

    closed spec fn view(&self) -> Seq<Seq<char>> {
        self.names@.map_values(|name: String| name@)
    }
}

impl FrameMap {
    /// Whether the names are distinct and no more than a frame can hold.
    pub open spec fn well_formed(&self) -> bool {
        self@.no_duplicates() && self@.len() <= FRAME_CAPACITY
    }

    /// A frame map without names.
    pub fn new() -> (map: FrameMap)
        ensures
            map@ == Seq::<Seq<char>>::empty(),
            map.well_formed(),
    {
        let map = FrameMap { names: Vec::new() };
        assert(map@ =~= Seq::<Seq<char>>::empty());
        map
    }

    /// Returns the size of the frame as a negative number: eight bytes for each
    /// name.
    pub fn frame_size(&self) -> (size: i32)
        requires
            self.well_formed(),
        ensures
            size == -8 * self@.len(),
    {
        let slots: i64 = self.names.len() as i64;
        (-8 * slots) as i32
    }

    /// Returns the offset of the slot of `name`, after giving it the next free slot
    /// if it has none. Returns `None`, and changes nothing, where the name has
    /// none and the frame is full.
    pub fn resolve(&mut self, name: &String) -> (offset: Option<i32>)
        requires
            old(self).well_formed(),
        ensures
            final(self).well_formed(),
            final(self)@ == (if offset is Some {
                record(old(self)@, OperandView::Pseudo(name@))
            } else {
                old(self)@
            }),
            offset is None <==> !old(self)@.contains(name@) && old(self)@.len() == FRAME_CAPACITY,
            offset matches Some(o) ==> o == slot(final(self)@, name@),
    {
        let ghost names = self@;
        let mut i: usize = 0;
        while i < self.names.len()
            invariant
                i <= self.names.len(),
                self.names.len() <= FRAME_CAPACITY,
                self@ == names,
                names.no_duplicates(),
                names.len() == self.names.len(),
                forall|k: int| 0 <= k < i ==> names[k] != name@,
            decreases self.names.len() - i,
        {
            if self.names[i] == *name {
                proof {
                    assert(names[i as int] == name@);
                    lemma_index_of(names, i as int);
                }
                return Some(-8 * (i as i32 + 1));
            }
            i = i + 1;
        }
        assert(!names.contains(name@));
        if self.names.len() >= FRAME_CAPACITY {
            return None;
        }
        self.names.push(name.clone());
        proof {
            assert(self@ =~= names.push(name@));
            lemma_record(names, OperandView::Pseudo(name@));
            assert(self@[names.len() as int] == name@);
            lemma_index_of(self@, names.len() as int);
        }
        Some(-8 * (self.names.len() as i32))
    }
}

/// Replaces a name by its slot, which is a new one where the name has none yet.
/// Another operand is returned as it is. Returns `None` where the name has no
/// slot and the frame is full.
pub fn replace_operand(map: &mut FrameMap, op: &Operand) -> (placed: Option<Operand>)
    requires
        old(map).well_formed(),
    ensures
        final(map).well_formed(),
        final(map)@ == (if placed is Some {
            record(old(map)@, op@)
        } else {
            old(map)@
        }),
        placed is None <==> (op@ matches OperandView::Pseudo(name) && !old(map)@.contains(name)
            && old(map)@.len() == FRAME_CAPACITY),
        placed matches Some(p) ==> p@ == place(final(map)@, op@),
{
    if let Operand::Pseudo(name) = op {
        match map.resolve(name) {
            Some(offset) => Some(Operand::StackQWord(offset)),
            None => None,
        }
    } else {
        Some(op.clone())
    }
}

/// Replaces the names among the operands of an instruction by their slots.
/// Returns `None` where a name has no slot and the frame is full.
fn replace_instruction(map: &mut FrameMap, inst: &Instruction) -> (placed: Option<Instruction>)
    requires
        old(map).well_formed(),
    ensures
        final(map).well_formed(),
        extends(old(map)@, final(map)@),
        extends(final(map)@, record_instruction(old(map)@, inst@)),
        match placed {
            Some(p) => final(map)@ == record_instruction(old(map)@, inst@) && p@
                == place_instruction(final(map)@, inst@),
            None => record_instruction(old(map)@, inst@).len() > FRAME_CAPACITY,
        },
{
    proof {
        lemma_record_instruction(map@, inst@);
        if inst@.operands().len() >= 1 {
            lemma_record(map@, inst@.operands()[0]);
        }
        if inst@.operands().len() == 2 {
            lemma_record(record(map@, inst@.operands()[0]), inst@.operands()[1]);
        }
    }
    match inst {
        Instruction::Mov(dst, src) => {
            match replace_pair(map, dst, src) {
                Some((d, s)) => Some(Instruction::Mov(d, s)),
                None => None,
            }
        },
        Instruction::Add(dst, src) => {
            match replace_pair(map, dst, src) {
                Some((d, s)) => Some(Instruction::Add(d, s)),
                None => None,
            }
        },
        Instruction::Sub(dst, src) => {
            match replace_pair(map, dst, src) {
                Some((d, s)) => Some(Instruction::Sub(d, s)),
                None => None,
            }
        },
        Instruction::Imul(dst, src) => {
            match replace_pair(map, dst, src) {
                Some((d, s)) => Some(Instruction::Imul(d, s)),
                None => None,
            }
        },
        Instruction::Cmp(dst, src) => {
            match replace_pair(map, dst, src) {
                Some((d, s)) => Some(Instruction::Cmp(d, s)),
                None => None,
            }
        },
        Instruction::Idiv(op) => {
            match replace_operand(map, op) {
                Some(o) => Some(Instruction::Idiv(o)),
                None => None,
            }
        },
        Instruction::Neg(op) => {
            match replace_operand(map, op) {
                Some(o) => Some(Instruction::Neg(o)),
                None => None,
            }
        },
        Instruction::Not(op) => {
            match replace_operand(map, op) {
                Some(o) => Some(Instruction::Not(o)),
                None => None,
            }
        },
        Instruction::Push(op) => {
            match replace_operand(map, op) {
                Some(o) => Some(Instruction::Push(o)),
                None => None,
            }
        },
        Instruction::Pop(op) => {
            match replace_operand(map, op) {
                Some(o) => Some(Instruction::Pop(o)),
                None => None,
            }
        },
        Instruction::Sete(op) => {
            match replace_operand(map, op) {
                Some(o) => Some(Instruction::Sete(o)),
                None => None,
            }
        },
        Instruction::Ret => Some(Instruction::Ret),
        Instruction::Cqo => Some(Instruction::Cqo),
    }
}

/// Replaces the names of a destination and then of a source by their slots.
fn replace_pair(map: &mut FrameMap, dst: &Operand, src: &Operand) -> (placed: Option<
    (Operand, Operand),
>)
    requires
        old(map).well_formed(),
    ensures
        final(map).well_formed(),
        extends(old(map)@, final(map)@),
        extends(final(map)@, record(record(old(map)@, dst@), src@)),
        match placed {
            Some((d, s)) => {
                &&& final(map)@ == record(record(old(map)@, dst@), src@)
                &&& d@ == place(final(map)@, dst@)
                &&& s@ == place(final(map)@, src@)
            },
            None => record(record(old(map)@, dst@), src@).len() > FRAME_CAPACITY,
        },
{
    proof {
        lemma_record(map@, dst@);
        lemma_record(record(map@, dst@), src@);
    }
    let d = match replace_operand(map, dst) {
        Some(d) => d,
        None => {
            return None;
        },
    };
    let ghost middle = map@;
    let s = match replace_operand(map, src) {
        Some(s) => s,
        None => {
            return None;
        },
    };
    proof {
        if let OperandView::Pseudo(name) = dst@ {
            lemma_slot_stable(middle, map@, name);
        }
    }
    Some((d, s))
}

/// What frame allocation gives for `instructions`: the instructions with every
/// name replaced by its slot, and the size of the frame as a negative number,
/// eight bytes for each name.
pub open spec fn allocate_spec(instructions: Seq<InstructionView>) -> (Seq<InstructionView>, int) {
    let names = frame_names(Seq::empty(), instructions);
    (place_all(names, instructions), -8 * names.len())
}

/// Whether no operand of `instruction` is a name.
pub open spec fn is_placed(instruction: InstructionView) -> bool {
    forall|k: int|
        0 <= k < instruction.operands().len() ==> !(#[trigger] instruction.operands()[k]
            is Pseudo)
}

/// After frame allocation no operand is a name: what was one is an eight-byte
/// slot, and every other operand is what it was.
pub proof fn lemma_placed(names: Seq<Seq<char>>, instruction: InstructionView)
    ensures
        is_placed(place_instruction(names, instruction)),
{
    let placed = place_instruction(names, instruction);
    assert forall|k: int| 0 <= k < placed.operands().len() implies !(
    #[trigger] placed.operands()[k] is Pseudo) by {
        assert(placed.operands()[k] == place(names, instruction.operands()[k]));
    }
}

/// Gives every name a slot in the frame, as [`allocate_stack`] does, but for any
/// instructions: returns `None` where the frame cannot hold all their names.
pub fn try_allocate_stack(insts: Vec<Instruction>) -> (allocated: Option<(Vec<Instruction>, i32)>)
    ensures
        allocated is Some <==> frame_fits(instruction_views(insts@)),
        allocated matches Some((placed, size)) ==> {
            &&& instruction_views(placed@) == allocate_spec(instruction_views(insts@)).0
            &&& size == allocate_spec(instruction_views(insts@)).1
        },
{
    let ghost source = instruction_views(insts@);
    let ghost empty = Seq::<Seq<char>>::empty();
    let mut map = FrameMap::new();
    let mut new_insts: Vec<Instruction> = Vec::new();
    let mut i: usize = 0;
    assert(source.take(0) =~= Seq::empty());
    assert(instruction_views(new_insts@) =~= place_all(map@, source.take(0)));
    while i < insts.len()
        invariant
            i <= insts.len(),
            source == instruction_views(insts@),
            empty == Seq::<Seq<char>>::empty(),
            map.well_formed(),
            map@ == frame_names(empty, source.take(i as int)),
            instruction_views(new_insts@) == place_all(map@, source.take(i as int)),
        decreases insts.len() - i,
    {
        let ghost before = map@;
        let ghost done = source.take(i as int);
        let ghost next = source.take(i + 1);
        proof {
            assert(next.drop_last() =~= done);
            assert(next.last() == insts[i as int]@);
            lemma_frame_names(empty, done);
        }
        match replace_instruction(&mut map, &insts[i]) {
            Some(placed) => {
                let ghost old_views = instruction_views(new_insts@);
                new_insts.push(placed);
                proof {
                    assert(instruction_views(new_insts@) =~= old_views.push(placed@));
                    assert(next[i as int] == insts[i as int]@);
                    assert forall|j: int| 0 <= j < done.len() implies place_instruction(
                        map@,
                        done[j],
                    ) == place_instruction(before, done[j]) by {
                        lemma_place_stable(before, map@, done[j]);
                    }
                    assert forall|j: int| 0 <= j < next.len() implies old_views.push(placed@)[j]
                        == place_all(map@, next)[j] by {
                        if j < i {
                            assert(next[j] == done[j]);
                            assert(old_views[j] == place_instruction(before, done[j]));
                        }
                    }
                    assert(instruction_views(new_insts@) =~= place_all(map@, next));
                }
            },
            None => {
                proof {
                    lemma_frame_grows(source, i + 1);
                }
                return None;
            },
        }
        i = i + 1;
    }
    assert(source.take(i as int) =~= source);
    let size = map.frame_size();
    Some((new_insts, size))
}

/// Gives every name a slot in the frame.
///
/// Returns the instructions with every name replaced by its slot, and the size
/// of the frame as a negative number. No operand of the result is a name, and
/// operands that were no names are what they were.
pub fn allocate_stack(insts: Vec<Instruction>) -> (allocated: (Vec<Instruction>, i32))
    requires
        frame_fits(instruction_views(insts@)),
    ensures
        instruction_views(allocated.0@) == allocate_spec(instruction_views(insts@)).0,
        allocated.1 == allocate_spec(instruction_views(insts@)).1,
        allocated.0@.len() == insts@.len(),
        forall|i: int|
            0 <= i < allocated.0@.len() ==> is_placed(#[trigger] instruction_views(allocated.0@)[i]),
{
    let ghost source = instruction_views(insts@);
    let allocated = try_allocate_stack(insts).unwrap();
    proof {
        let names = frame_names(Seq::empty(), source);
        assert(instruction_views(allocated.0@).len() == allocated.0@.len());
        assert(source.len() == insts@.len());
        assert(place_all(names, source).len() == source.len());
        assert forall|i: int| 0 <= i < allocated.0@.len() implies is_placed(
            #[trigger] instruction_views(allocated.0@)[i],
        ) by {
            lemma_placed(names, source[i]);
        }
    }
    allocated
}

} // verus!
