//! The acquire/release discipline for producing a clean environment.
//!
//! Obtaining the default environment takes two operating-system resources: a
//! read handle to the current process's security token, and the environment
//! block created from it. The decisions of that procedure live here as a
//! state machine: each stage names the one action to perform next, and the
//! outcome of that action gives the next stage. Whoever performs the actions
//! feeds the outcomes back. The laws below show that every run ends within
//! five actions, that resources are released in reverse order of
//! acquisition, and that every run that ends has released exactly what it
//! acquired.

use vstd::prelude::*;

verus! {

/// Why no clean environment could be produced; each carries the operating
/// system's error code for the failed call.
#[derive(Clone, Copy, Debug, PartialEq, Eq, Structural)]
pub enum EnvError {
    /// The current process's security token could not be opened.
    ResourceAcquisition(i32),
    /// No default environment block could be created from the token.
    EnvironmentTemplate(i32),
}

impl EnvError {
    /// The operating system's error code that came with the failure.
    pub fn code(&self) -> (r: i32)
        ensures
            r == match *self {
                EnvError::ResourceAcquisition(c) => c,
                EnvError::EnvironmentTemplate(c) => c,
            },
    {
        match *self {
            EnvError::ResourceAcquisition(c) => c,
            EnvError::EnvironmentTemplate(c) => c,
        }
    }

    /// A short description of the step that failed, never empty.
    pub fn describe(&self) -> (r: &'static str)
        ensures
            r@.len() > 0,
    {
        match *self {
            EnvError::ResourceAcquisition(_) => {
                let m = "could not open the security token of the current process";
                proof {
                    reveal_strlit("could not open the security token of the current process");
                }
                m
            },
            EnvError::EnvironmentTemplate(_) => {
                let m = "could not create the default environment block for the security token";
                proof {
                    reveal_strlit(
                        "could not create the default environment block for the security token",
                    );
                }
                m
            },
        }
    }
}

/// The next thing to do.
#[derive(Clone, Copy, Debug, PartialEq, Eq, Structural)]
pub enum Action {
    /// Acquire a read handle to the current process's security token.
    OpenToken,
    /// Acquire the default environment block for the token.
    CreateBlock,
    /// Decode the environment block.
    ParseBlock,
    /// Release the environment block.
    DestroyBlock,
    /// Release the token handle.
    CloseToken,
    /// Nothing is left to do; the stage tells success or the error.
    Finish,
}

/// How the last action went. For a failed call it carries the operating
/// system's error code. Releasing and decoding cannot fail, so their
/// outcome is not looked at.
#[derive(Clone, Copy, Debug, PartialEq, Eq, Structural)]
pub enum Outcome {
    Succeeded,
    Failed(i32),
}

/// Where the procedure stands.
#[derive(Clone, Copy, Debug, PartialEq, Eq, Structural)]
pub enum Stage {
    /// Nothing held yet.
    Start,
    /// The token is held.
    TokenAcquired,
    /// The token and the environment block are held.
    BlockCreated,
    /// The block has been decoded; the token and the block are held.
    Parsed,
    /// The block has been released; the token is still held.
    BlockReleased,
    /// Creating the block failed with this code; the token is still held.
    TemplateFailed(i32),
    /// Done: the environment was decoded and everything released.
    Released,
    /// Done: this error ended the procedure and everything is released.
    Failed(EnvError),
}

/// The action that a stage calls for.
pub open spec fn action_of(s: Stage) -> Action {
    match s {
        Stage::Start => Action::OpenToken,
        Stage::TokenAcquired => Action::CreateBlock,
        Stage::BlockCreated => Action::ParseBlock,
        Stage::Parsed => Action::DestroyBlock,
        Stage::BlockReleased => Action::CloseToken,
        Stage::TemplateFailed(_) => Action::CloseToken,
        Stage::Released => Action::Finish,
        Stage::Failed(_) => Action::Finish,
    }
}

/// The stage after the action of `s` came out as `o`.
pub open spec fn next_stage(s: Stage, o: Outcome) -> Stage {
    match s {
        Stage::Start => match o {
            Outcome::Succeeded => Stage::TokenAcquired,
            Outcome::Failed(c) => Stage::Failed(EnvError::ResourceAcquisition(c)),
        },
        Stage::TokenAcquired => match o {
            Outcome::Succeeded => Stage::BlockCreated,
            Outcome::Failed(c) => Stage::TemplateFailed(c),
        },
        Stage::BlockCreated => Stage::Parsed,
        Stage::Parsed => Stage::BlockReleased,
        Stage::BlockReleased => Stage::Released,
        Stage::TemplateFailed(c) => Stage::Failed(EnvError::EnvironmentTemplate(c)),
        Stage::Released => Stage::Released,
        Stage::Failed(e) => Stage::Failed(e),
    }
}

/// Whether the procedure has ended.
pub open spec fn is_done(s: Stage) -> bool {
    action_of(s) == Action::Finish
}

/// Whether the token handle is held at stage `s`.
pub open spec fn token_held(s: Stage) -> bool {
    match s {
        Stage::TokenAcquired | Stage::BlockCreated | Stage::Parsed | Stage::BlockReleased
        | Stage::TemplateFailed(_) => true,
        _ => false,
    }
}

/// Whether the environment block is held at stage `s`.
pub open spec fn block_held(s: Stage) -> bool {
    match s {
        Stage::BlockCreated | Stage::Parsed => true,
        _ => false,
    }
}

/// How many resources are held at stage `s`.
pub open spec fn held(s: Stage) -> nat {
    (if token_held(s) { 1nat } else { 0nat }) + (if block_held(s) { 1nat } else { 0nat })
}

/// 1 when the action of `s` acquired a resource with outcome `o`, else 0.
pub open spec fn acquired(s: Stage, o: Outcome) -> nat {
    if (action_of(s) == Action::OpenToken || action_of(s) == Action::CreateBlock)
        && o == Outcome::Succeeded {
        1
    } else {
        0
    }
}

/// 1 when the action of `s` releases a resource, else 0.
pub open spec fn released(s: Stage) -> nat {
    if action_of(s) == Action::DestroyBlock || action_of(s) == Action::CloseToken {
        1
    } else {
        0
    }
}

/// The stage reached from `s` after the outcomes `os`, one per action.
pub open spec fn run(s: Stage, os: Seq<Outcome>) -> Stage
    decreases os.len(),
{
    if os.len() == 0 {
        s
    } else {
        run(next_stage(s, os[0]), os.drop_first())
    }
}

/// How many resources the actions of that run acquired.
pub open spec fn acquired_in(s: Stage, os: Seq<Outcome>) -> nat
    decreases os.len(),
{
    if os.len() == 0 {
        0
    } else {
        acquired(s, os[0]) + acquired_in(next_stage(s, os[0]), os.drop_first())
    }
}

/// How many release actions that run performed.
pub open spec fn released_in(s: Stage, os: Seq<Outcome>) -> nat
    decreases os.len(),
{
    if os.len() == 0 {
        0
    } else {
        released(s) + released_in(next_stage(s, os[0]), os.drop_first())
    }
}

/// How many actions at most remain before the procedure ends.
pub open spec fn remaining(s: Stage) -> nat {
    match s {
        Stage::Start => 5,
        Stage::TokenAcquired => 4,
        Stage::BlockCreated => 3,
        Stage::Parsed => 2,
        Stage::BlockReleased => 1,
        Stage::TemplateFailed(_) => 1,
        Stage::Released => 0,
        Stage::Failed(_) => 0,
    }
}

impl Stage {
    /// The stage before anything is acquired.
    pub fn new() -> (r: Stage)
        ensures
            r == Stage::Start,
            held(r) == 0,
    {
        Stage::Start
    }

    /// The action to perform next.
    pub fn action(&self) -> (r: Action)
        ensures
            r == action_of(*self),
    {
        match *self {
            Stage::Start => Action::OpenToken,
            Stage::TokenAcquired => Action::CreateBlock,
            Stage::BlockCreated => Action::ParseBlock,
            Stage::Parsed => Action::DestroyBlock,
            Stage::BlockReleased => Action::CloseToken,
            Stage::TemplateFailed(_) => Action::CloseToken,
            Stage::Released => Action::Finish,
            Stage::Failed(_) => Action::Finish,
        }
    }

    /// The stage after the current action came out as `o`.
    pub fn step(&self, o: Outcome) -> (r: Stage)
        ensures
            r == next_stage(*self, o),
    {
        match *self {
            Stage::Start => match o {
                Outcome::Succeeded => Stage::TokenAcquired,
                Outcome::Failed(c) => Stage::Failed(EnvError::ResourceAcquisition(c)),
            },
            Stage::TokenAcquired => match o {
                Outcome::Succeeded => Stage::BlockCreated,
                Outcome::Failed(c) => Stage::TemplateFailed(c),
            },
            Stage::BlockCreated => Stage::Parsed,
            Stage::Parsed => Stage::BlockReleased,
            Stage::BlockReleased => Stage::Released,
            Stage::TemplateFailed(c) => Stage::Failed(EnvError::EnvironmentTemplate(c)),
            Stage::Released => Stage::Released,
            Stage::Failed(e) => Stage::Failed(e),
        }
    }

    /// The error that ended the procedure, if it ended in failure.
    pub fn failure(&self) -> (r: Option<EnvError>)
        ensures
            r == match *self {
                Stage::Failed(e) => Some(e),
                _ => None::<EnvError>,
            },
    {
        match *self {
            Stage::Failed(e) => Some(e),
            _ => None,
        }
    }
}

/// Each step keeps the books: what is held afterwards, plus what the action
/// released, equals what was held before, plus what it acquired. A resource
/// is acquired only while not held and released only while held, the block
/// before the token, and a stage that has ended stays as it is.
pub proof fn lemma_step_accounting(s: Stage, o: Outcome)
    ensures
        held(next_stage(s, o)) + released(s) == held(s) + acquired(s, o),
        action_of(s) == Action::OpenToken ==> !token_held(s),
        action_of(s) == Action::CreateBlock ==> token_held(s) && !block_held(s),
        action_of(s) == Action::DestroyBlock ==> block_held(s),
        action_of(s) == Action::CloseToken ==> token_held(s) && !block_held(s),
        is_done(s) ==> next_stage(s, o) == s && held(s) == 0,
{
}

/// The books over a whole run: what is held at its end, plus what it
/// released, equals what was held at its start, plus what it acquired.
pub proof fn lemma_run_accounting(s: Stage, os: Seq<Outcome>)
    ensures
        held(run(s, os)) + released_in(s, os) == held(s) + acquired_in(s, os),
    decreases os.len(),
{
    if os.len() > 0 {
        lemma_step_accounting(s, os[0]);
        lemma_run_accounting(next_stage(s, os[0]), os.drop_first());
    }
}

/// Resource cleanup: on every path from the start to the end (success, a
/// failure to open the token, a failure to create the block), the number of
/// releases equals the number of successful acquisitions, and nothing is
/// left held.
pub proof fn lemma_cleanup(os: Seq<Outcome>)
    requires
        is_done(run(Stage::Start, os)),
    ensures
        released_in(Stage::Start, os) == acquired_in(Stage::Start, os),
        held(run(Stage::Start, os)) == 0,
{
    lemma_run_accounting(Stage::Start, os);
}

/// Every run ends: after `remaining(s)` outcomes the procedure is done.
pub proof fn lemma_finishes(s: Stage, os: Seq<Outcome>)
    requires
        os.len() >= remaining(s),
    ensures
        is_done(run(s, os)),
    decreases os.len(),
{
    if os.len() > 0 {
        lemma_finishes(next_stage(s, os[0]), os.drop_first());
    }
}

} // verus!
