use vstd::prelude::*;

verus! {

/// The instructions the counter program accepts, as a client encodes them:
/// a single byte selects the variant, `0` to initialize, `1` to increment.
#[derive(Clone, Copy, Debug, PartialEq, Eq, Structural)]
pub enum MyInstruction {
    Initialize,
    Increment,
}

/// The counter's persisted state: one little-endian `u64`.
#[derive(Clone, Copy, Debug, PartialEq, Eq, Structural)]
pub struct CounterAccount {
    pub count: u64,
}

/// Decodes an instruction from its wire form: exactly one byte, `0` for
/// `Initialize` and `1` for `Increment`; anything else is rejected.
pub fn decode_instruction(data: &[u8]) -> (r: Option<MyInstruction>)
    ensures
        r == (if data@ =~= seq![0u8] {
            Some(MyInstruction::Initialize)
        } else if data@ =~= seq![1u8] {
            Some(MyInstruction::Increment)
        } else {
            None::<MyInstruction>
        }),
{
    if data.len() != 1 {
        proof {
            assert(!(data@ =~= seq![0u8]) && !(data@ =~= seq![1u8]));
        }
        return None;
    }
    let b = data[0];
    if b == 0 {
        proof {
            assert(data@ =~= seq![0u8]);
        }
        Some(MyInstruction::Initialize)
    } else if b == 1 {
        proof {
            assert(data@ =~= seq![1u8]);
        }
        Some(MyInstruction::Increment)
    } else {
        proof {
            assert(!(data@ =~= seq![0u8]) && !(data@ =~= seq![1u8]));
        }
        None
    }
}

/// A fresh counter: the state `Initialize` writes.
pub fn handle_initialize() -> (r: CounterAccount)
    ensures
        r.count == 0,
{
    CounterAccount { count: 0 }
}

/// One `Increment`: the count rises by exactly one.  A counter at the
/// type's maximum cannot be incremented.
pub fn handle_increment(state: CounterAccount) -> (r: CounterAccount)
    requires
        state.count < u64::MAX,
    ensures
        r.count == state.count + 1,
{
    CounterAccount { count: state.count + 1 }
}

/// Runs one decoded instruction against the stored state, absent on first
/// use.  `Initialize` writes a zero counter whatever was stored;
/// `Increment` requires a stored counter below the maximum.
pub fn process_counter_instruction(instruction: MyInstruction, state: Option<CounterAccount>) -> (r:
    CounterAccount)
    requires
        instruction == MyInstruction::Increment ==> state is Some && state->0.count < u64::MAX,
    ensures
        instruction == MyInstruction::Initialize ==> r.count == 0,
        instruction == MyInstruction::Increment ==> r.count == state->0.count + 1,
{
    match instruction {
        MyInstruction::Initialize => handle_initialize(),
        MyInstruction::Increment => handle_increment(
            match state {
                Some(s) => s,
                None => CounterAccount { count: 0 },
            },
        ),
    }
}

} // verus!
