//! The per-frame draw protocol.
//!
//! All entities of a scene share one render pass. Uniform buffers may not be
//! updated while a render pass is open, so a frame is recorded in two phases:
//! first every entity refreshes its uniforms, then the pass is begun once,
//! every entity issues its indexed draw, and the pass is ended.

use vstd::prelude::*;

verus! {

/// One command of a frame's command stream. Entities are numbered in the
/// order in which the scene holds them.
#[derive(Debug, Clone, Copy, PartialEq, Eq, Structural)]
pub enum Command {
    /// Copy the entity's current uniforms into its GPU buffers.
    UpdateUniforms(usize),
    /// Begin the shared render pass.
    BeginRenderPass,
    /// Draw the entity's mesh, indexed.
    DrawIndexed(usize),
    /// End the shared render pass.
    EndRenderPass,
}

/// A command stream breaks the rules of the render pass.
#[derive(Debug, Clone, Copy, PartialEq, Eq, Structural)]
pub struct CommandEncodingError {
    /// The first command that may not be recorded where it stands, or the
    /// length of the stream if it ends with the render pass still open.
    pub position: usize,
}

/// The command stream of one frame with `n` entities: `n` uniform updates,
/// the begin of the pass, `n` draws, the end of the pass.
pub open spec fn frame_sequence(n: nat) -> Seq<Command> {
    Seq::new(
        2 * n + 2,
        |i: int|
            if i < n {
                Command::UpdateUniforms(i as usize)
            } else if i == n {
                Command::BeginRenderPass
            } else if i <= 2 * n {
                Command::DrawIndexed((i - n - 1) as usize)
            } else {
                Command::EndRenderPass
            },
    )
}

/// Whether the render pass is open after `c` is recorded in a stream whose
/// pass is open or not as `open` says; `None` if `c` may not be recorded
/// there. Updates belong outside the pass and draws inside it.
pub open spec fn record(open: bool, c: Command) -> Option<bool> {
    match c {
        Command::UpdateUniforms(_) => if open {
            None
        } else {
            Some(false)
        },
        Command::BeginRenderPass => if open {
            None
        } else {
            Some(true)
        },
        Command::DrawIndexed(_) => if open {
            Some(true)
        } else {
            None
        },
        Command::EndRenderPass => if open {
            Some(false)
        } else {
            None
        },
    }
}

/// Whether the render pass is open after the first `n` commands; `None` if
/// one of them may not be recorded where it stands.
pub open spec fn pass_state(commands: Seq<Command>, n: int) -> Option<bool>
    decreases n,
{
    if n <= 0 {
        Some(false)
    } else {
        match pass_state(commands, n - 1) {
            Some(open) => record(open, commands[n - 1]),
            None => None,
        }
    }
}

/// Every command stands where it may, and the stream leaves no pass open.
pub open spec fn is_well_formed(commands: Seq<Command>) -> bool {
    pass_state(commands, commands.len() as int) == Some(false)
}

proof fn lemma_frame_pass_state(n: nat, i: int)
    requires
        0 <= i <= 2 * n + 1,
    ensures
        pass_state(frame_sequence(n), i) == Some(i > n),
    decreases i,
{
    if i > 0 {
        lemma_frame_pass_state(n, i - 1);
    }
}

/// The command stream of a frame is well formed, whatever the number of
/// entities: no uniform update falls inside the render pass, every draw
/// does, and the pass is begun once and ended once.
pub proof fn lemma_frame_is_well_formed(n: nat)
    ensures
        is_well_formed(frame_sequence(n)),
{
    lemma_frame_pass_state(n, 2 * n as int + 1);
}

/// In a frame, every entity's uniforms are updated before the pass begins and
/// the entity is drawn after, each exactly where its number says.
pub proof fn lemma_frame_updates_before_draws(n: nat, entity: nat)
    requires
        entity < n,
        n <= usize::MAX,
    ensures
        frame_sequence(n)[entity as int] == Command::UpdateUniforms(entity as usize),
        frame_sequence(n)[n as int] == Command::BeginRenderPass,
        frame_sequence(n)[n as int + 1 + entity] == Command::DrawIndexed(entity as usize),
        frame_sequence(n)[2 * n as int + 1] == Command::EndRenderPass,
{
}

/// Lists the commands of one frame for a scene of `entity_count` entities.
pub fn frame_commands(entity_count: usize) -> (commands: Vec<Command>)
    ensures
        commands@ == frame_sequence(entity_count as nat),
        is_well_formed(commands@),
{
    let ghost n = entity_count as nat;
    let mut commands: Vec<Command> = Vec::new();
    let mut e: usize = 0;
    while e < entity_count
        invariant
            e <= entity_count,
            n == entity_count,
            commands@ == frame_sequence(n).take(e as int),
        decreases entity_count - e,
    {
        commands.push(Command::UpdateUniforms(e));
        e += 1;
        assert(commands@ =~= frame_sequence(n).take(e as int));
    }
    commands.push(Command::BeginRenderPass);
    assert(commands@ =~= frame_sequence(n).take(n as int + 1));
    let mut d: usize = 0;
    while d < entity_count
        invariant
            d <= entity_count,
            n == entity_count,
            commands@ == frame_sequence(n).take(n + 1 + d),
        decreases entity_count - d,
    {
        commands.push(Command::DrawIndexed(d));
        d += 1;
        assert(commands@ =~= frame_sequence(n).take(n + 1 + d));
    }
    commands.push(Command::EndRenderPass);
    proof {
        assert(commands@ =~= frame_sequence(n));
        lemma_frame_is_well_formed(n);
    }
    commands
}

proof fn lemma_pass_state_stays_none(commands: Seq<Command>, k: int, n: int)
    requires
        0 <= k <= n,
        pass_state(commands, k) is None,
    ensures
        pass_state(commands, n) is None,
    decreases n - k,
{
    if k < n {
        lemma_pass_state_stays_none(commands, k, n - 1);
    }
}

/// Checks a command stream against the rules of the render pass and reports
/// where it first breaks them.
pub fn validate_commands(commands: &Vec<Command>) -> (res: Result<(), CommandEncodingError>)
    ensures
        res is Ok <==> is_well_formed(commands@),
        match res {
            Ok(_) => true,
            Err(e) => if e.position < commands@.len() {
                &&& pass_state(commands@, e.position as int) is Some
                &&& pass_state(commands@, e.position + 1) is None
            } else {
                &&& e.position == commands@.len()
                &&& pass_state(commands@, commands@.len() as int) == Some(true)
            },
        },
{
    let mut open = false;
    let mut k: usize = 0;
    while k < commands.len()
        invariant
            k <= commands@.len(),
            pass_state(commands@, k as int) == Some(open),
        decreases commands@.len() - k,
    {
        let next: Option<bool> = match commands[k] {
            Command::UpdateUniforms(_) => if open {
                None
            } else {
                Some(false)
            },
            Command::BeginRenderPass => if open {
                None
            } else {
                Some(true)
            },
            Command::DrawIndexed(_) => if open {
                Some(true)
            } else {
                None
            },
            Command::EndRenderPass => if open {
                Some(false)
            } else {
                None
            },
        };
        match next {
            Some(o) => {
                open = o;
            },
            None => {
                proof {
                    assert(pass_state(commands@, k + 1) is None);
                    lemma_pass_state_stays_none(commands@, k + 1, commands@.len() as int);
                }
                return Err(CommandEncodingError { position: k });
            },
        }
        k += 1;
    }
    if open {
        Err(CommandEncodingError { position: k })
    } else {
        Ok(())
    }
}

} // verus!
