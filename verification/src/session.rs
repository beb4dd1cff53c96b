use vstd::prelude::*;

use crate::error::GraphError;
use crate::graph::graph::Graph;
use crate::ident::Key;
use crate::run::checkpoint::{Checkpoint, Outcome, RunFailure};
use crate::run::cursor::{Cursor, clone_ids, id_names};
use crate::run::inbox::Message;
use crate::state::apply::batch_effect;
use crate::state::state::{State, data_cloned};
use crate::update::{Transcript, Update};

verus! {

/// When a served session first runs its graph: at once, or at the first
/// input.
#[derive(Debug, Clone, Copy, PartialEq, Eq)]
pub enum Start {
    Now,
    OnInput,
}

/// How a served session ended: cancelled, or failed with an error; either
/// way with a checkpoint to resume from.
#[derive(Debug)]
pub enum Ended<C> {
    Cancelled { checkpoint: Checkpoint<C> },
    Failed { checkpoint: Checkpoint<C>, error: GraphError },
}

/// What a served session does after a message: waits for the next one,
/// runs the graph, or ends.
#[derive(Debug)]
pub enum Serve<C> {
    /// Takes the next message.
    Wait,
    /// Runs the graph to its end (finished, paused, cancelled or failed)
    /// before any further message is taken: messages queued behind the one
    /// that started the run wait until `after_run` has taken its result.
    Run,
    /// The session ends.
    End(Ended<C>),
}

/// `b` is a copy of `a`: the same schema, and a copy of each value.
pub open spec fn state_copy<C: Clone>(a: State<C>, b: State<C>) -> bool {
    &&& b.kinds() == a.kinds()
    &&& b.config_kinds() == a.config_kinds()
    &&& data_cloned(a.data(), b.data())
}

/// `cp` saves a copy of `state` with `cursor`, or with the empty cursor
/// where there is none.
pub open spec fn saves<C: Clone>(cp: Checkpoint<C>, state: State<C>, cursor: Option<Cursor>) -> bool {
    &&& state_copy(state, cp.state)
    &&& match cursor {
        Some(c) => id_names(cp.cursor.active@) == id_names(c.active@) && id_names(
            cp.cursor.deferred@,
        ) == id_names(c.deferred@),
        None => cp.cursor.active@.len() == 0 && cp.cursor.deferred@.len() == 0,
    }
}

/// What a session keeps between runs: the state, where the graph stands
/// (no cursor when the next run starts at the entry), and whether a pause
/// holds it.
pub struct SessionCore<C> {
    state: State<C>,
    cursor: Option<Cursor>,
    paused: bool,
    serving_run: bool,
}

impl<C> SessionCore<C> {
    pub closed spec fn state_of(&self) -> State<C> {
        self.state
    }

    pub closed spec fn cursor_of(&self) -> Option<Cursor> {
        self.cursor
    }

    pub closed spec fn paused_of(&self) -> bool {
        self.paused
    }

    /// Whether a run the serve loop started is under way: until its result
    /// is taken back, no message is taken.
    pub closed spec fn running_of(&self) -> bool {
        self.serving_run
    }

    /// A session that has not run: its next run starts at the entry.
    pub fn new(state: State<C>) -> (r: SessionCore<C>)
        ensures
            r.state_of() == state,
            r.cursor_of() is None,
            !r.paused_of(),
            !r.running_of(),
    {
        SessionCore { state, cursor: None, paused: false, serving_run: false }
    }

    /// A session that goes on from a checkpoint: every node its cursor names
    /// must be in the graph (else `UnknownNode` for the first that is not,
    /// active nodes first); an empty cursor starts the next run at the
    /// entry.
    pub fn resume<N, G>(graph: &Graph<N, G>, checkpoint: Checkpoint<C>) -> (r: Result<
        SessionCore<C>,
        GraphError,
    >)
        ensures
            (forall|i: int|
                0 <= i < checkpoint.cursor.names().len() ==> graph.ids().contains(
                    #[trigger] checkpoint.cursor.names()[i],
                )) ==> (r matches Ok(s) && s.state_of() == checkpoint.state && !s.paused_of() && if checkpoint.cursor.active@.len()
                == 0 && checkpoint.cursor.deferred@.len() == 0 {
                s.cursor_of() is None
            } else {
                s.cursor_of() == Some(checkpoint.cursor)
            }),
            r matches Err(e) ==> exists|i: int|
                0 <= i < checkpoint.cursor.names().len() && !graph.ids().contains(
                    checkpoint.cursor.names()[i],
                ) && (forall|j: int|
                    0 <= j < i ==> graph.ids().contains(#[trigger] checkpoint.cursor.names()[j]))
                    && (e matches GraphError::UnknownNode { id } && id@ == checkpoint.cursor.names()[i]),
    {
        match graph.validate_cursor(&checkpoint.cursor) {
            Ok(()) => {},
            Err(e) => {
                return Err(e);
            },
        }
        let Checkpoint { state, cursor } = checkpoint;
        let cursor = if cursor.is_empty() {
            None
        } else {
            Some(cursor)
        };
        Ok(SessionCore { state, cursor, paused: false, serving_run: false })
    }

    /// How a served session begins: with a run at once, or by waiting for
    /// the first message.
    pub fn begin(&mut self, start: Start) -> (r: Serve<C>)
        requires
            !old(self).running_of(),
        ensures
            final(self).state_of() == old(self).state_of(),
            final(self).cursor_of() == old(self).cursor_of(),
            final(self).paused_of() == old(self).paused_of(),
            match start {
                Start::Now => r is Run,
                Start::OnInput => r is Wait,
            },
            final(self).running_of() == (r is Run),
    {
        match start {
            Start::Now => {
                self.serving_run = true;
                Serve::Run
            },
            Start::OnInput => Serve::Wait,
        }
    }

    /// The current state.
    pub fn state(&self) -> (r: &State<C>)
        ensures
            *r == self.state_of(),
    {
        &self.state
    }

    /// Whether a pause holds the session.
    pub fn is_paused(&self) -> (r: bool)
        ensures
            r == self.paused_of(),
    {
        self.paused
    }

    /// Hands the state and the cursor to a run, leaving the empty state and
    /// no cursor behind until the run's result is taken back.
    pub fn take_run(&mut self) -> (r: (State<C>, Option<Cursor>))
        ensures
            r.0 == old(self).state_of(),
            r.1 == old(self).cursor_of(),
            final(self).cursor_of() is None,
            final(self).state_of().data().dom().len() == 0,
            final(self).paused_of() == old(self).paused_of(),
            final(self).running_of() == old(self).running_of(),
    {
        let mut state = State::empty();
        std::mem::swap(&mut state, &mut self.state);
        let mut cursor = None;
        std::mem::swap(&mut cursor, &mut self.cursor);
        (state, cursor)
    }

    /// Applies an input to the conversation under `key`, as a batch of one
    /// edit.
    pub fn apply_input<E>(&mut self, key: Key, input: E) -> (r: Result<(), GraphError>) where
        C: Transcript<E>,
        ensures
            final(self).state_of().kinds() == old(self).state_of().kinds(),
            final(self).state_of().config_kinds() == old(self).state_of().config_kinds(),
            batch_effect(
                old(self).state_of().kinds(),
                old(self).state_of().data(),
                seq![Update::<C, E>::Edit { key, edit: input }],
                r,
                final(self).state_of().data(),
            ),
            final(self).cursor_of() == old(self).cursor_of(),
            final(self).paused_of() == old(self).paused_of(),
            final(self).running_of() == old(self).running_of(),
    {
        let ghost u = Update::<C, E>::Edit { key, edit: input };
        let mut updates: Vec<Update<C, E>> = Vec::new();
        updates.push(Update::Edit { key, edit: input });
        assert(updates@ =~= seq![u]);
        self.state.apply_batch(updates)
    }
}

impl<C: Clone> SessionCore<C> {
    /// A checkpoint of the session: a copy of the state and of the cursor,
    /// or the empty cursor where there is none.
    pub fn checkpoint(&self) -> (r: Checkpoint<C>)
        ensures
            saves(r, self.state_of(), self.cursor_of()),
    {
        let state = self.state.clone();
        let cursor = match &self.cursor {
            Some(c) => c.clone(),
            None => Cursor::empty(),
        };
        Checkpoint::new(state, cursor)
    }

    /// Takes back what a run gave. A finished run leaves its state and no
    /// cursor; a paused run leaves its checkpoint and holds the session; a
    /// cancelled run leaves its checkpoint; a failed run leaves its
    /// checkpoint and gives its error. A pause is released by any outcome
    /// but a failure, which keeps it as it was.
    pub fn absorb(&mut self, result: Result<Outcome<C>, RunFailure<C>>) -> (r: Result<
        Outcome<C>,
        GraphError,
    >)
        ensures
            final(self).running_of() == old(self).running_of(),
            match result {
                Ok(o) => r == Ok::<Outcome<C>, GraphError>(o) && match o {
                    Outcome::Finished { state, .. } => state_copy(state, final(self).state_of())
                        && final(self).cursor_of() is None && !final(self).paused_of(),
                    Outcome::Paused { checkpoint } => {
                        &&& state_copy(checkpoint.state, final(self).state_of())
                        &&& final(self).cursor_of() matches Some(c) && id_names(c.active@)
                            == id_names(checkpoint.cursor.active@) && id_names(c.deferred@)
                            == id_names(checkpoint.cursor.deferred@)
                        &&& final(self).paused_of()
                    },
                    Outcome::Cancelled { checkpoint } => {
                        &&& state_copy(checkpoint.state, final(self).state_of())
                        &&& final(self).cursor_of() matches Some(c) && id_names(c.active@)
                            == id_names(checkpoint.cursor.active@) && id_names(c.deferred@)
                            == id_names(checkpoint.cursor.deferred@)
                        &&& !final(self).paused_of()
                    },
                },
                Err(f) => r == Err::<Outcome<C>, GraphError>(f.error) && final(self).state_of()
                    == f.checkpoint.state && final(self).cursor_of() == Some(f.checkpoint.cursor)
                    && final(self).paused_of() == old(self).paused_of(),
            },
    {
        match result {
            Ok(Outcome::Finished { state, end }) => {
                self.state = state.clone();
                self.cursor = None;
                self.paused = false;
                Ok(Outcome::Finished { state, end })
            },
            Ok(Outcome::Paused { checkpoint }) => {
                self.state = checkpoint.state.clone();
                self.cursor = Some(copy_cursor(&checkpoint.cursor));
                self.paused = true;
                Ok(Outcome::Paused { checkpoint })
            },
            Ok(Outcome::Cancelled { checkpoint }) => {
                self.state = checkpoint.state.clone();
                self.cursor = Some(copy_cursor(&checkpoint.cursor));
                self.paused = false;
                Ok(Outcome::Cancelled { checkpoint })
            },
            Err(RunFailure { checkpoint, error }) => {
                let Checkpoint { state, cursor } = checkpoint;
                self.state = state;
                self.cursor = Some(cursor);
                Err(error)
            },
        }
    }

    /// Takes back what a run the serve loop started gave (see `absorb`) and
    /// decides whether the session ends: a finished or paused run lets it go
    /// on; a cancelled run ends it with the run's checkpoint; a failed run
    /// ends it with a checkpoint of where the run failed, and the error.
    /// Messages may be taken again afterwards.
    pub fn after_run(&mut self, result: Result<Outcome<C>, RunFailure<C>>) -> (r: Option<Ended<C>>)
        requires
            old(self).running_of(),
        ensures
            !final(self).running_of(),
            match result {
                Ok(Outcome::Finished { .. }) => r is None,
                Ok(Outcome::Paused { .. }) => r is None,
                Ok(Outcome::Cancelled { checkpoint }) => r == Some(
                    Ended::Cancelled { checkpoint },
                ),
                Err(f) => r matches Some(Ended::Failed { checkpoint, error }) && error == f.error
                    && saves(checkpoint, f.checkpoint.state, Some(f.checkpoint.cursor)),
            },
            result is Ok ==> match result->Ok_0 {
                Outcome::Finished { state, .. } => state_copy(state, final(self).state_of())
                    && final(self).cursor_of() is None && !final(self).paused_of(),
                Outcome::Paused { checkpoint } => state_copy(checkpoint.state, final(self).state_of())
                    && final(self).cursor_of() is Some && final(self).paused_of(),
                Outcome::Cancelled { checkpoint } => state_copy(
                    checkpoint.state,
                    final(self).state_of(),
                ) && final(self).cursor_of() is Some && !final(self).paused_of(),
            },
            result is Err ==> final(self).state_of() == result->Err_0.checkpoint.state
                && final(self).cursor_of() == Some(result->Err_0.checkpoint.cursor),
    {
        let absorbed = self.absorb(result);
        self.serving_run = false;
        match absorbed {
            Ok(Outcome::Finished { .. }) => None,
            Ok(Outcome::Paused { .. }) => None,
            Ok(Outcome::Cancelled { checkpoint }) => Some(Ended::Cancelled { checkpoint }),
            Err(error) => {
                let checkpoint = self.checkpoint();
                Some(Ended::Failed { checkpoint, error })
            },
        }
    }

    /// Decides what a served session does with the next message (`None`
    /// when no sender is left): an input is applied to its conversation and
    /// runs the graph unless a pause holds it, and a refused input ends the
    /// session as failed; a pause holds the session; a resume releases a
    /// pause and runs the graph, and is ignored otherwise; a cancel, or the
    /// last sender gone, ends the session as cancelled. No message is taken
    /// while a run it started is under way; a run it starts is under way
    /// until `after_run`.
    pub fn on_message<E>(&mut self, message: Option<Message<E>>) -> (r: Serve<C>) where
        C: Transcript<E>,
        requires
            !old(self).running_of(),
        ensures
            final(self).cursor_of() == old(self).cursor_of(),
            final(self).running_of() == (r is Run),
            match message {
                None => {
                    &&& final(self).state_of() == old(self).state_of()
                    &&& final(self).paused_of() == old(self).paused_of()
                    &&& r matches Serve::End(Ended::Cancelled { checkpoint }) && saves(
                        checkpoint,
                        old(self).state_of(),
                        old(self).cursor_of(),
                    )
                },
                Some(Message::Cancel) => {
                    &&& final(self).state_of() == old(self).state_of()
                    &&& final(self).paused_of() == old(self).paused_of()
                    &&& r matches Serve::End(Ended::Cancelled { checkpoint }) && saves(
                        checkpoint,
                        old(self).state_of(),
                        old(self).cursor_of(),
                    )
                },
                Some(Message::Pause) => final(self).state_of() == old(self).state_of()
                    && final(self).paused_of() && r is Wait,
                Some(Message::Resume) => final(self).state_of() == old(self).state_of()
                    && !final(self).paused_of() && if old(self).paused_of() {
                    r is Run
                } else {
                    r is Wait
                },
                Some(Message::Input { key, input }) => final(self).paused_of() == old(self).paused_of()
                    && final(self).state_of().kinds() == old(self).state_of().kinds()
                    && exists|res: Result<(), GraphError>|
                    #[trigger] batch_effect(
                        old(self).state_of().kinds(),
                        old(self).state_of().data(),
                        seq![Update::<C, E>::Edit { key, edit: input }],
                        res,
                        final(self).state_of().data(),
                    ) && match res {
                        Ok(_) => if old(self).paused_of() {
                            r is Wait
                        } else {
                            r is Run
                        },
                        Err(e) => r matches Serve::End(Ended::Failed { checkpoint, error })
                            && error == e && saves(
                            checkpoint,
                            final(self).state_of(),
                            old(self).cursor_of(),
                        ),
                    },
            },
    {
        match message {
            None => Serve::End(Ended::Cancelled { checkpoint: self.checkpoint() }),
            Some(Message::Cancel) => Serve::End(Ended::Cancelled { checkpoint: self.checkpoint() }),
            Some(Message::Pause) => {
                self.paused = true;
                Serve::Wait
            },
            Some(Message::Resume) => {
                if self.paused {
                    self.paused = false;
                    self.serving_run = true;
                    Serve::Run
                } else {
                    Serve::Wait
                }
            },
            Some(Message::Input { key, input }) => {
                let res = self.apply_input(key, input);
                match res {
                    Ok(()) => {
                        if self.paused {
                            Serve::Wait
                        } else {
                            self.serving_run = true;
                            Serve::Run
                        }
                    },
                    Err(error) => {
                        let checkpoint = self.checkpoint();
                        Serve::End(Ended::Failed { checkpoint, error })
                    },
                }
            },
        }
    }
}

/// A copy of a cursor: the same names.
fn copy_cursor(c: &Cursor) -> (r: Cursor)
    ensures
        id_names(r.active@) == id_names(c.active@),
        id_names(r.deferred@) == id_names(c.deferred@),
{
    Cursor::new(clone_ids(&c.active), clone_ids(&c.deferred))
}

} // verus!
