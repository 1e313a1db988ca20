//! The generation rotation of the disk-backed strategy: which file is
//! created, computed, flushed and removed, and in what order.
//!
//! The library decides the order; the caller performs each step on the file
//! system and on the maps, and asks for the next one.

use vstd::prelude::*;
use vstd::string::StringExecFns;

verus! {

/// One step of a disk-backed run. Generations are numbered from zero.
#[derive(Clone, Copy, Debug, PartialEq, Eq)]
pub enum Step {
    /// Create the generation's file with the matrix's byte length and map it.
    Create { generation: u16 },
    /// Write the initial matrix into the generation.
    Initialize { generation: u16 },
    /// Accumulate generation `into` from generation `from`.
    Accumulate { from: u16, into: u16 },
    /// Normalize the generation in place.
    Normalize { generation: u16 },
    /// Flush the generation's map to its file.
    Flush { generation: u16 },
    /// Unmap the generation and delete its file.
    Remove { generation: u16 },
    /// Write the generation out as the result.
    Persist { generation: u16 },
}

/// Steps that bring generation zero into being.
pub open spec fn prologue() -> Seq<Step> {
    seq![
        Step::Create { generation: 0 },
        Step::Initialize { generation: 0 },
        Step::Flush { generation: 0 },
        Step::Normalize { generation: 0 },
        Step::Flush { generation: 0 },
    ]
}

/// Steps of round `k`: generation `k + 1` is computed from generation `k`
/// and flushed, and only then is generation `k` removed.
pub open spec fn round(k: u16) -> Seq<Step> {
    seq![
        Step::Create { generation: (k + 1) as u16 },
        Step::Accumulate { from: k, into: (k + 1) as u16 },
        Step::Flush { generation: (k + 1) as u16 },
        Step::Normalize { generation: (k + 1) as u16 },
        Step::Flush { generation: (k + 1) as u16 },
        Step::Remove { generation: k },
    ]
}

/// Steps of the first `count` rounds.
pub open spec fn rounds(count: nat) -> Seq<Step>
    decreases count,
{
    if count == 0 {
        Seq::empty()
    } else {
        rounds((count - 1) as nat) + round((count - 1) as u16)
    }
}

/// Steps that write the last generation out and remove it.
pub open spec fn epilogue(last: u16) -> Seq<Step> {
    seq![Step::Persist { generation: last }, Step::Remove { generation: last }]
}

/// All steps of a run of `max_iter` rounds, in order.
pub open spec fn schedule(max_iter: u8) -> Seq<Step> {
    prologue() + rounds(max_iter as nat) + epilogue(max_iter as u16)
}

/// The rounds take six steps each, and step `r` of round `k` stands at `6 * k + r`.
pub proof fn lemma_rounds_index(count: nat, k: nat, r: nat)
    requires
        k < count,
        r < 6,
        count <= 0x1_0000,
    ensures
        rounds(count).len() == 6 * count,
        rounds(count)[(6 * k + r) as int] == round(k as u16)[r as int],
    decreases count,
{
    lemma_rounds_len((count - 1) as nat);
    if k < count - 1 {
        lemma_rounds_index((count - 1) as nat, k, r);
    }
}

/// The rounds take six steps each.
pub proof fn lemma_rounds_len(count: nat)
    ensures
        rounds(count).len() == 6 * count,
    decreases count,
{
    if count > 0 {
        lemma_rounds_len((count - 1) as nat);
    }
}

/// A run of `max_iter` rounds takes `7 + 6 * max_iter` steps.
pub proof fn lemma_schedule_len(max_iter: u8)
    ensures
        schedule(max_iter).len() == 7 + 6 * max_iter,
{
    lemma_rounds_len(max_iter as nat);
}

/// Step number `position` of a run of `max_iter` rounds, if the run is that long.
pub fn step_at(max_iter: u8, position: usize) -> (step: Option<Step>)
    ensures
        position < schedule(max_iter).len() ==> step == Some(schedule(max_iter)[position as int]),
        position >= schedule(max_iter).len() ==> step is None,
{
    proof {
        lemma_schedule_len(max_iter);
        lemma_rounds_len(max_iter as nat);
    }
    if position < 5 {
        Some(
            if position == 0 {
                Step::Create { generation: 0 }
            } else if position == 1 {
                Step::Initialize { generation: 0 }
            } else if position == 3 {
                Step::Normalize { generation: 0 }
            } else {
                Step::Flush { generation: 0 }
            },
        )
    } else {
        let within: usize = position - 5;
        let k: usize = within / 6;
        let r: usize = within % 6;
        if k < max_iter as usize {
            proof {
                lemma_rounds_index(max_iter as nat, k as nat, r as nat);
                assert(schedule(max_iter)[position as int] == rounds(max_iter as nat)[within as int]);
            }
            let from: u16 = k as u16;
            let into: u16 = from + 1;
            Some(
                if r == 0 {
                    Step::Create { generation: into }
                } else if r == 1 {
                    Step::Accumulate { from, into }
                } else if r == 3 {
                    Step::Normalize { generation: into }
                } else if r == 5 {
                    Step::Remove { generation: from }
                } else {
                    Step::Flush { generation: into }
                },
            )
        } else if k == max_iter as usize && r < 2 {
            let last: u16 = max_iter as u16;
            assert(schedule(max_iter)[position as int] == epilogue(last)[r as int]);
            Some(
                if r == 0 {
                    Step::Persist { generation: last }
                } else {
                    Step::Remove { generation: last }
                },
            )
        } else {
            None
        }
    }
}

/// The progress of a disk-backed run through its schedule.
#[derive(Clone, Copy, Debug)]
pub struct Rotation {
    pub max_iter: u8,
    pub position: usize,
}

impl Rotation {
    /// The position lies within the schedule.
    pub open spec fn wf(&self) -> bool {
        self.position <= schedule(self.max_iter).len()
    }

    /// A run of `max_iter` rounds, before its first step.
    pub fn new(max_iter: u8) -> (rotation: Rotation)
        ensures
            rotation.wf(),
            rotation.max_iter == max_iter,
            rotation.position == 0,
    {
        Rotation { max_iter, position: 0 }
    }

    /// The next step, without moving past it; `None` once the run is over.
    pub fn peek(&self) -> (step: Option<Step>)
        ensures
            self.position < schedule(self.max_iter).len() ==> step == Some(
                schedule(self.max_iter)[self.position as int],
            ),
            self.position >= schedule(self.max_iter).len() ==> step is None,
    {
        step_at(self.max_iter, self.position)
    }

    /// Hands out the next step and moves past it; `None` once the run is over.
    pub fn advance(&mut self) -> (step: Option<Step>)
        requires
            old(self).wf(),
        ensures
            final(self).wf(),
            final(self).max_iter == old(self).max_iter,
            old(self).position < schedule(old(self).max_iter).len() ==> step == Some(
                schedule(old(self).max_iter)[old(self).position as int],
            ) && final(self).position == old(self).position + 1,
            old(self).position == schedule(old(self).max_iter).len() ==> step is None
                && final(self).position == old(self).position,
    {
        proof {
            lemma_schedule_len(self.max_iter);
        }
        let step = step_at(self.max_iter, self.position);
        if step.is_some() {
            self.position = self.position + 1;
        }
        step
    }
}

/// The character of a decimal digit.
pub open spec fn digit_char(digit: nat) -> char {
    if digit == 0 {
        '0'
    } else if digit == 1 {
        '1'
    } else if digit == 2 {
        '2'
    } else if digit == 3 {
        '3'
    } else if digit == 4 {
        '4'
    } else if digit == 5 {
        '5'
    } else if digit == 6 {
        '6'
    } else if digit == 7 {
        '7'
    } else if digit == 8 {
        '8'
    } else {
        '9'
    }
}

/// The decimal numeral of `n`, without leading zeros.
pub open spec fn decimal(n: nat) -> Seq<char>
    decreases n,
{
    if n < 10 {
        seq![digit_char(n)]
    } else {
        decimal(n / 10).push(digit_char(n % 10))
    }
}

/// The name of a generation's file: the matrix identifier, `_matrix_`, and
/// the generation's number in decimal.
pub open spec fn generation_name(id: Seq<char>, generation: nat) -> Seq<char> {
    id + "_matrix_"@ + decimal(generation)
}

fn digit_str(digit: u16) -> (text: &'static str)
    requires
        digit < 10,
    ensures
        text@ == seq![digit_char(digit as nat)],
{
    proof {
        reveal_strlit("0");
        reveal_strlit("1");
        reveal_strlit("2");
        reveal_strlit("3");
        reveal_strlit("4");
        reveal_strlit("5");
        reveal_strlit("6");
        reveal_strlit("7");
        reveal_strlit("8");
        reveal_strlit("9");
    }
    let text = if digit == 0 {
        "0"
    } else if digit == 1 {
        "1"
    } else if digit == 2 {
        "2"
    } else if digit == 3 {
        "3"
    } else if digit == 4 {
        "4"
    } else if digit == 5 {
        "5"
    } else if digit == 6 {
        "6"
    } else if digit == 7 {
        "7"
    } else if digit == 8 {
        "8"
    } else {
        "9"
    };
    assert(text@ =~= seq![digit_char(digit as nat)]);
    text
}

fn push_decimal(text: &mut String, n: u16)
    ensures
        final(text)@ == old(text)@ + decimal(n as nat),
    decreases n,
{
    if n >= 10 {
        push_decimal(text, n / 10);
    }
    text.append(digit_str(n % 10));
    assert(text@ =~= old(text)@ + decimal(n as nat));
}

/// Builds the name of a generation's file.
pub fn generation_file_name(id: &str, generation: u16) -> (name: String)
    ensures
        name@ == generation_name(id@, generation as nat),
{
    let mut name = String::from_str(id);
    name.append("_matrix_");
    push_decimal(&mut name, generation);
    name
}

} // verus!
