//! The atomic unit of work as a protocol between the ledger and the
//! collaborators that store and cache: which command comes next, given
//! how the last one was answered. Whoever talks to the store and the
//! cache carries out each command and hands back the reply.

use crate::error::LedgerError;
use vstd::prelude::*;

verus! {

/// How a collaborator answered the last command.
#[derive(Clone, Copy, Debug, PartialEq, Eq, Structural)]
pub enum Reply {
    /// The command was carried out.
    Done,
    /// The statement ran, and a rule of the ledger refuses what it found.
    Refused(LedgerError),
    /// The collaborator failed.
    Failed,
}

/// What is to be done next.
#[derive(Clone, Copy, Debug, PartialEq, Eq, Structural)]
pub enum Command {
    /// Open the atomic unit.
    Begin,
    /// Run the statement with this number inside the unit.
    Execute(usize),
    /// Commit the unit.
    Commit,
    /// Roll the unit back.
    Rollback,
    /// Drop the owner's cached list.
    Invalidate,
    /// Nothing more: the outcome stands.
    Finish,
}

/// How far a unit of work has come.
#[derive(Clone, Copy, Debug, PartialEq, Eq, Structural)]
pub enum Phase {
    /// `Begin` is out.
    Opening,
    /// The statement with this number is out.
    Running(usize),
    /// `Commit` is out.
    Committing,
    /// `Rollback` is out, for this reason.
    RollingBack(LedgerError),
    /// `Invalidate` is out.
    Invalidating,
    /// The unit was committed.
    Succeeded,
    /// The unit left nothing behind, for this reason.
    Failed(LedgerError),
}

/// The protocol: from a phase and the reply to the command that is out,
/// the next phase and the next command. Statements run in order while
/// each is answered `Done`; the first that is not makes the unit roll
/// back; only a unit whose commit was answered `Done` invalidates the
/// cache, and how the cache answers changes nothing.
pub open spec fn step(phase: Phase, statements: usize, reply: Reply) -> (Phase, Command) {
    match phase {
        Phase::Opening => match reply {
            Reply::Done => if statements == 0 {
                (Phase::Committing, Command::Commit)
            } else {
                (Phase::Running(0), Command::Execute(0))
            },
            _ => (Phase::Failed(LedgerError::Persistence), Command::Finish),
        },
        Phase::Running(i) => match reply {
            Reply::Done => if i + 1 < statements {
                (Phase::Running((i + 1) as usize), Command::Execute((i + 1) as usize))
            } else {
                (Phase::Committing, Command::Commit)
            },
            Reply::Refused(e) => (Phase::RollingBack(e), Command::Rollback),
            Reply::Failed => (Phase::RollingBack(LedgerError::Persistence), Command::Rollback),
        },
        Phase::Committing => match reply {
            Reply::Done => (Phase::Invalidating, Command::Invalidate),
            _ => (Phase::Failed(LedgerError::Persistence), Command::Finish),
        },
        Phase::RollingBack(e) => (Phase::Failed(e), Command::Finish),
        Phase::Invalidating => (Phase::Succeeded, Command::Finish),
        Phase::Succeeded => (Phase::Succeeded, Command::Finish),
        Phase::Failed(e) => (Phase::Failed(e), Command::Finish),
    }
}

/// The phase that a unit of `statements` statements has reached after
/// the replies `replies`, and every command it has given: `Begin` first,
/// then one command for each reply.
pub open spec fn run(statements: usize, replies: Seq<Reply>) -> (Phase, Seq<Command>)
    decreases replies.len(),
{
    if replies.len() == 0 {
        (Phase::Opening, seq![Command::Begin])
    } else {
        let (phase, commands) = run(statements, replies.drop_last());
        let (next, command) = step(phase, statements, replies.last());
        (next, commands.push(command))
    }
}

/// Every one of the first `n` replies is `Done`.
pub open spec fn all_done(replies: Seq<Reply>, n: int) -> bool {
    forall|j: int| 0 <= j < n && j < replies.len() ==> #[trigger] replies[j] == Reply::Done
}

/// What holds of every run, phase by phase.
spec fn shape(statements: usize, replies: Seq<Reply>) -> bool {
    let (phase, commands) = run(statements, replies);
    &&& commands.len() == replies.len() + 1
    &&& forall|k: int|
        0 <= k < commands.len() && #[trigger] commands[k] == Command::Invalidate ==> k >= 1
            && commands[k - 1] == Command::Commit && replies[k - 1] == Reply::Done
    &&& forall|k: int|
        0 <= k < commands.len() && #[trigger] commands[k] == Command::Commit ==> k == statements
            + 1 && all_done(replies, k)
    &&& match phase {
        Phase::Opening => replies.len() == 0,
        Phase::Running(i) => i < statements && replies.len() == i + 1 && all_done(
            replies,
            replies.len() as int,
        ) && forall|k: int| 0 <= k < commands.len() ==> #[trigger] commands[k] != Command::Commit,
        Phase::Committing => replies.len() == statements + 1 && all_done(
            replies,
            replies.len() as int,
        ) && commands.last() == Command::Commit && forall|k: int|
            0 <= k < commands.len() ==> #[trigger] commands[k] != Command::Invalidate,
        Phase::RollingBack(_) => forall|k: int|
            0 <= k < commands.len() ==> #[trigger] commands[k] != Command::Invalidate
                && commands[k] != Command::Commit,
        Phase::Invalidating => replies.len() == statements + 2 && all_done(
            replies,
            replies.len() as int,
        ),
        Phase::Succeeded => replies.len() >= statements + 3 && all_done(
            replies,
            statements + 2,
        ),
        Phase::Failed(_) => forall|k: int|
            0 <= k < commands.len() ==> #[trigger] commands[k] != Command::Invalidate,
    }
}

/// Every run has the shape above.
proof fn lemma_shape(statements: usize, replies: Seq<Reply>)
    ensures
        shape(statements, replies),
    decreases replies.len(),
{
    if replies.len() > 0 {
        let earlier = replies.drop_last();
        lemma_shape(statements, earlier);
        let (before, given) = run(statements, earlier);
        let (phase, commands) = run(statements, replies);
        assert(commands == given.push(step(before, statements, replies.last()).1));
        assert forall|j: int| 0 <= j < earlier.len() implies earlier[j] == replies[j] by {}
        assert forall|k: int| 0 <= k < given.len() implies given[k] == commands[k] by {}
        assert forall|k: int|
            0 <= k < commands.len() && #[trigger] commands[k]
                == Command::Invalidate implies k >= 1 && commands[k - 1] == Command::Commit
            && replies[k - 1] == Reply::Done by {
            if k < given.len() {
                assert(given[k] == Command::Invalidate);
            }
        }
        assert forall|k: int|
            0 <= k < commands.len() && #[trigger] commands[k] == Command::Commit implies k
            == statements + 1 && all_done(replies, k) by {
            if k < given.len() {
                assert(given[k] == Command::Commit);
                assert(all_done(earlier, k));
            } else {
                assert(all_done(earlier, earlier.len() as int));
            }
        }
        match before {
            Phase::Opening => {},
            Phase::Running(i) => {
                assert(all_done(earlier, earlier.len() as int));
            },
            Phase::Committing => {
                assert(all_done(earlier, earlier.len() as int));
            },
            Phase::RollingBack(_) => {},
            Phase::Invalidating => {
                assert(all_done(earlier, earlier.len() as int));
            },
            Phase::Succeeded => {
                assert(all_done(earlier, statements + 2));
            },
            Phase::Failed(_) => {},
        }
    }
}

/// The cache is invalidated never before the commit and never on
/// failure: `Invalidate` is given only as the command right after
/// `Commit`, and only when the commit was answered `Done`.
pub proof fn lemma_invalidate_follows_commit(statements: usize, replies: Seq<Reply>, k: int)
    requires
        0 <= k < run(statements, replies).1.len(),
        run(statements, replies).1[k] == Command::Invalidate,
    ensures
        k >= 1,
        run(statements, replies).1[k - 1] == Command::Commit,
        replies[k - 1] == Reply::Done,
{
    lemma_shape(statements, replies);
}

/// A unit is committed only whole: `Commit` is given only after `Begin`
/// and every statement were answered `Done`.
pub proof fn lemma_commit_follows_statements(statements: usize, replies: Seq<Reply>, k: int)
    requires
        0 <= k < run(statements, replies).1.len(),
        run(statements, replies).1[k] == Command::Commit,
    ensures
        k == statements + 1,
        all_done(replies, k),
{
    lemma_shape(statements, replies);
}

/// A unit that failed, or is being rolled back, has never told anyone to
/// invalidate the cache.
pub proof fn lemma_failure_never_invalidates(statements: usize, replies: Seq<Reply>, k: int)
    requires
        run(statements, replies).0 is Failed || run(statements, replies).0 is RollingBack,
        0 <= k < run(statements, replies).1.len(),
    ensures
        run(statements, replies).1[k] != Command::Invalidate,
{
    lemma_shape(statements, replies);
}

/// Atomicity of the protocol: once `Begin` or a statement is answered
/// otherwise than `Done`, the unit is never committed.
pub proof fn lemma_broken_unit_never_commits(
    statements: usize,
    replies: Seq<Reply>,
    broken: int,
    k: int,
)
    requires
        0 <= broken <= statements,
        broken < replies.len(),
        replies[broken] != Reply::Done,
        0 <= k < run(statements, replies).1.len(),
    ensures
        run(statements, replies).1[k] != Command::Commit,
        run(statements, replies).1[k] != Command::Invalidate,
        !(run(statements, replies).0 is Succeeded),
        !(run(statements, replies).0 is Invalidating),
{
    lemma_shape(statements, replies);
    let commands = run(statements, replies).1;
    if commands[k] == Command::Commit {
        assert(all_done(replies, k));
        assert(replies[broken] == Reply::Done);
    }
    if commands[k] == Command::Invalidate {
        assert(commands[k - 1] == Command::Commit);
        assert(all_done(replies, k - 1));
        assert(replies[broken] == Reply::Done);
    }
    if run(statements, replies).0 is Succeeded || run(statements, replies).0 is Invalidating {
        assert(replies[broken] == Reply::Done);
    }
}

/// Success is owed: a unit whose store answers `Done` throughout is
/// committed, whatever the cache answers to the invalidation.
pub proof fn lemma_sound_unit_succeeds(statements: usize, replies: Seq<Reply>)
    requires
        replies.len() >= statements + 3,
        all_done(replies, statements + 2),
    ensures
        run(statements, replies).0 == Phase::Succeeded,
{
    lemma_progress(statements, replies, replies.len() as int);
    assert(replies.take(replies.len() as int) =~= replies);
}

/// How far a unit has come after `n` replies of which none before the
/// commit's was other than `Done`.
proof fn lemma_progress(statements: usize, replies: Seq<Reply>, n: int)
    requires
        0 <= n <= replies.len(),
        all_done(replies, statements + 2),
    ensures
        run(statements, replies.take(n)).0 == if n == 0 {
            Phase::Opening
        } else if n <= statements {
            Phase::Running((n - 1) as usize)
        } else if n == statements + 1 {
            Phase::Committing
        } else if n == statements + 2 {
            Phase::Invalidating
        } else {
            Phase::Succeeded
        },
    decreases n,
{
    if n > 0 {
        lemma_progress(statements, replies, n - 1);
        assert(replies.take(n).drop_last() =~= replies.take(n - 1));
        assert(replies.take(n).last() == replies[n - 1]);
    }
}

/// A unit of work in progress.
pub struct UnitOfWork {
    phase: Phase,
    statements: usize,
}

impl UnitOfWork {
    /// The phase the unit is in.
    pub closed spec fn phase(&self) -> Phase {
        self.phase
    }

    /// How many statements the unit has.
    pub closed spec fn statements(&self) -> usize {
        self.statements
    }

    /// A unit of `statements` statements, and its first command.
    pub fn start(statements: usize) -> (started: (UnitOfWork, Command))
        ensures
            started.0.phase() == Phase::Opening,
            started.0.statements() == statements,
            started.1 == Command::Begin,
    {
        (UnitOfWork { phase: Phase::Opening, statements }, Command::Begin)
    }

    /// Takes the reply to the command that is out and gives the next
    /// command.
    pub fn next(&mut self, reply: Reply) -> (command: Command)
        ensures
            (final(self).phase(), command) == step(old(self).phase(), old(self).statements(), reply),
            final(self).statements() == old(self).statements(),
    {
        let (phase, command) = match self.phase {
            Phase::Opening => match reply {
                Reply::Done => if self.statements == 0 {
                    (Phase::Committing, Command::Commit)
                } else {
                    (Phase::Running(0), Command::Execute(0))
                },
                _ => (Phase::Failed(LedgerError::Persistence), Command::Finish),
            },
            Phase::Running(i) => match reply {
                Reply::Done => if i < usize::MAX && i + 1 < self.statements {
                    (Phase::Running(i + 1), Command::Execute(i + 1))
                } else {
                    (Phase::Committing, Command::Commit)
                },
                Reply::Refused(e) => (Phase::RollingBack(e), Command::Rollback),
                Reply::Failed => (Phase::RollingBack(LedgerError::Persistence), Command::Rollback),
            },
            Phase::Committing => match reply {
                Reply::Done => (Phase::Invalidating, Command::Invalidate),
                _ => (Phase::Failed(LedgerError::Persistence), Command::Finish),
            },
            Phase::RollingBack(e) => (Phase::Failed(e), Command::Finish),
            Phase::Invalidating => (Phase::Succeeded, Command::Finish),
            Phase::Succeeded => (Phase::Succeeded, Command::Finish),
            Phase::Failed(e) => (Phase::Failed(e), Command::Finish),
        };
        self.phase = phase;
        command
    }

    /// How the unit ended: `Ok` once it was committed, the reason once
    /// it failed, and nothing while it is still under way.
    pub fn outcome(&self) -> (ended: Option<Result<(), LedgerError>>)
        ensures
            ended == match self.phase() {
                Phase::Succeeded => Some(Ok::<(), LedgerError>(())),
                Phase::Invalidating => Some(Ok::<(), LedgerError>(())),
                Phase::Failed(e) => Some(Err::<(), LedgerError>(e)),
                _ => None,
            },
    {
        match self.phase {
            Phase::Succeeded => Some(Ok(())),
            Phase::Invalidating => Some(Ok(())),
            Phase::Failed(e) => Some(Err(e)),
            _ => None,
        }
    }
}

/// How the conditional balance update ended, given what the store
/// returned for it: the change where a row was updated; where none was,
/// the reason, found by asking whether the requester owns the card and
/// whether the card has a running state.
pub open spec fn update_outcome(delta: Option<i64>, owned: bool, has_state: bool) -> Result<
    i64,
    LedgerError,
> {
    match delta {
        Some(change) => Ok(change),
        None => if !owned {
            Err(LedgerError::NotFound)
        } else if !has_state {
            Err(LedgerError::MissingState)
        } else {
            Err(LedgerError::StaleTransaction)
        },
    }
}

/// How the conditional balance update ended, given what the store
/// returned for it.
pub fn settle_update(delta: Option<i64>, owned: bool, has_state: bool) -> (res: Result<
    i64,
    LedgerError,
>)
    ensures
        res == update_outcome(delta, owned, has_state),
{
    match delta {
        Some(change) => Ok(change),
        None => if !owned {
            Err(LedgerError::NotFound)
        } else if !has_state {
            Err(LedgerError::MissingState)
        } else {
            Err(LedgerError::StaleTransaction)
        },
    }
}

/// The reply of a statement that must touch the requester's card: where
/// it touched no row, the card is not found.
pub fn settle_rows(rows_affected: u64) -> (reply: Reply)
    ensures
        reply == if rows_affected == 0 {
            Reply::Refused(LedgerError::NotFound)
        } else {
            Reply::Done
        },
{
    if rows_affected == 0 {
        Reply::Refused(LedgerError::NotFound)
    } else {
        Reply::Done
    }
}

} // verus!
