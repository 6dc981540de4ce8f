use crate::error::FailureOutcome;
use crate::error::MemImgError;
use crate::storage::EventStorage;
use vstd::prelude::*;

verus! {

/// A state-mutating request against a domain's system state.
///
/// The effect of a command is given once and for all by `apply_spec`, a
/// mathematical function from the view of the system to either the view of
/// the resulting system or the failure that rejects the command.  Because
/// `apply_spec` is a function, applying the same command to equal states
/// always produces equal states: replay reproduces exactly what happened.
///
/// `apply_to` performs the effect on the live representation.  On failure
/// it may leave the system partially mutated: the engine always applies a
/// command to a discardable shadow copy, so partial mutations are never
/// observable.
pub trait Command: Sized {
    type System: View + Clone;

    type Failure;

    /// The meaning of this command on a system state.
    spec fn apply_spec(&self, s: <Self::System as View>::V) -> Result<
        <Self::System as View>::V,
        Self::Failure,
    >;

    /// Cloning a system state preserves its view: a shadow copy starts out
    /// as the same abstract state as the original.
    proof fn lemma_clone_view(s: Self::System, c: Self::System)
        requires
            vstd::pervasive::cloned::<Self::System>(s, c),
        ensures
            c@ == s@,
    ;

    fn apply_to(&self, system: &mut Self::System) -> (r: Result<(), Self::Failure>)
        ensures
            r is Ok <==> self.apply_spec(old(system)@) is Ok,
            r is Ok ==> final(system)@ == self.apply_spec(old(system)@)->Ok_0,
            r is Err ==> r->Err_0 == self.apply_spec(old(system)@)->Err_0,
    ;
}

/// A read-only request against a domain's system state.
///
/// As with commands, the answer is pinned by a mathematical function
/// `query_spec`; `extract_from` computes it without mutating anything.
pub trait Query: Sized {
    type System: View;

    type Output: DeepView;

    type Failure;

    /// The meaning of this query on a system state.
    spec fn query_spec(&self, s: <Self::System as View>::V) -> Result<
        <Self::Output as DeepView>::V,
        Self::Failure,
    >;

    fn extract_from(&self, system: &Self::System) -> (r: Result<Self::Output, Self::Failure>)
        ensures
            r is Ok <==> self.query_spec(system@) is Ok,
            r is Ok ==> r->Ok_0.deep_view() == self.query_spec(system@)->Ok_0,
            r is Err ==> r->Err_0 == self.query_spec(system@)->Err_0,
    ;
}

/// A fold that succeeds on the whole log succeeds on every prefix of it.
proof fn lemma_replay_fold_prefix<C: Command>(s: <C::System as View>::V, log: Seq<C>, k: int)
    requires
        0 <= k <= log.len(),
        replay_fold(s, log) is Ok,
    ensures
        replay_fold(s, log.take(k)) is Ok,
    decreases log.len(),
{
    if k == log.len() {
        assert(log.take(k) =~= log);
    } else {
        assert(log.drop_last().take(k) =~= log.take(k));
        lemma_replay_fold_prefix::<C>(s, log.drop_last(), k);
    }
}

/// The state obtained by applying `log`, in order, to the state `s`, or
/// the failure of the first command that does not apply.
pub open spec fn replay_fold<C: Command>(
    s: <C::System as View>::V,
    log: Seq<C>,
) -> Result<<C::System as View>::V, C::Failure>
    decreases log.len(),
{
    if log.len() == 0 {
        Ok(s)
    } else {
        match replay_fold(s, log.drop_last()) {
            Ok(v) => log.last().apply_spec(v),
            Err(e) => Err(e),
        }
    }
}

/// Memory-image processor: owns the live system state and the event log
/// that is its sole durable representation.
#[verifier::reject_recursive_types(S)]
#[verifier::reject_recursive_types(C)]
pub struct MemImgProcessor<S, C, E> where
    S: View + Clone,
    C: Command<System = S>,
    E: EventStorage<Event = C, Failure = C::Failure>,
 {
    pub system: S,
    pub event_storage: Box<E>,
    /// The (empty) state the engine was constructed with; the live state is
    /// always the result of replaying the log against it.
    pub initial: Ghost<<S as View>::V>,
}

impl<S, C, E> MemImgProcessor<S, C, E> where
    S: View + Clone,
    C: Command<System = S>,
    E: EventStorage<Event = C, Failure = C::Failure>,
 {
    /// The engine's invariant: the live state at any observable instant
    /// equals the result of applying, in log order, every event persisted
    /// in the log to the initial state.
    pub open spec fn wf(&self) -> bool {
        replay_fold(self.initial@, self.event_storage.log()) == Ok::<_, C::Failure>(self.system@)
    }

    /// Construct a processor by replaying every logged event against
    /// `system`.  On any replay failure no processor is returned at all.
    #[verifier::loop_isolation(false)]
    pub fn new(system: S, event_storage: Box<E>) -> (r: Result<
        Self,
        MemImgError<C::Failure>,
    >)
        ensures
            match r {
                Ok(p) => {
                    &&& p.wf()
                    &&& p.initial@ == system@
                    &&& p.event_storage.log() == event_storage.log()
                    &&& replay_fold(system@, event_storage.log()) == Ok::<_, C::Failure>(
                        p.system@,
                    )
                },
                Err(e) => e matches MemImgError::SystemFailure(fo) && fo.context@
                    == "replaying events"@ && fo.command_type@ == "EventStorage"@,
            },
            replay_fold(system@, event_storage.log()) is Err ==> r is Err,
            r is Ok ==> r->Ok_0.event_storage.infallible() == event_storage.infallible(),
            event_storage.infallible() && replay_fold(system@, event_storage.log()) is Ok ==> r
                is Ok,
    {
        let ghost initial = system@;
        let mut system = system;
        let mut event_storage = event_storage;
        let events = match event_storage.replay() {
            Ok(events) => events,
            Err(e) => {
                return Err(
                    MemImgError::SystemFailure(
                        FailureOutcome::new(e, "replaying events", "EventStorage"),
                    ),
                );
            },
        };
        let ghost log = event_storage.log();
        let mut i: usize = 0;
        while i < events.len()
            invariant
                0 <= i <= events.len(),
                events@ == log,
                replay_fold(initial, log.take(i as int)) == Ok::<_, C::Failure>(system@),
            decreases events.len() - i,
        {
            let event = &events[i];
            let ghost pre_state = system@;
            let applied = event.apply_to(&mut system);
            proof {
                assert(log.take(i + 1).drop_last() =~= log.take(i as int));
                assert(log.take(i + 1).last() == log[i as int]);
            }
            match applied {
                Ok(()) => {},
                Err(e) => {
                    proof {
                        assert(replay_fold(initial, log.take(i + 1)) is Err);
                        if replay_fold(initial, log) is Ok {
                            lemma_replay_fold_prefix::<C>(initial, log, i + 1);
                        }
                    }
                    return Err(
                        MemImgError::SystemFailure(
                            FailureOutcome::new(e, "replaying events", "EventStorage"),
                        ),
                    );
                },
            }
            i = i + 1;
        }
        proof {
            assert(log.take(events@.len() as int) =~= log);
        }
        Ok(MemImgProcessor { system, event_storage, initial: Ghost(initial) })
    }

    /// Execute a query against the current live state.  Never touches the
    /// log and never mutates anything.
    pub fn execute_query<Q>(&self, query: &Q) -> (r: Result<Q::Output, MemImgError<C::Failure>>)
        where Q: Query<System = S, Failure = C::Failure>
        ensures
            r is Ok <==> query.query_spec(self.system@) is Ok,
            r is Ok ==> r->Ok_0.deep_view() == query.query_spec(self.system@)->Ok_0,
            r is Err ==> (r->Err_0 matches MemImgError::CommandFailure(fo) && fo.source
                == query.query_spec(self.system@)->Err_0 && fo.context@ == "executing query"@
                && fo.command_type@ == "query"@),
            query_outcome(query, self.system@, r),
    {
        match query.extract_from(&self.system) {
            Ok(out) => Ok(out),
            Err(e) => Err(
                MemImgError::CommandFailure(FailureOutcome::new(e, "executing query", "query")),
            ),
        }
    }

    /// Execute a command with shadow-copy transaction semantics: apply it
    /// to a clone of the live state, append it to the log, and only then
    /// promote the clone.  On any failure the live state and the log are
    /// exactly what they were before the call.
    pub fn execute_command(&mut self, command: C) -> (r: Result<(), MemImgError<C::Failure>>)
        requires
            old(self).wf(),
        ensures
            final(self).wf(),
            final(self).initial == old(self).initial,
            match r {
                Ok(()) => {
                    &&& command.apply_spec(old(self).system@) is Ok
                    &&& final(self).system@ == command.apply_spec(old(self).system@)->Ok_0
                    &&& final(self).event_storage.log() == old(self).event_storage.log().push(
                        command,
                    )
                },
                Err(e) => {
                    &&& final(self).system == old(self).system
                    &&& final(self).event_storage.log() == old(self).event_storage.log()
                    &&& match e {
                        MemImgError::CommandFailure(fo) => {
                            &&& command.apply_spec(old(self).system@) is Err
                            &&& fo.source == command.apply_spec(old(self).system@)->Err_0
                            &&& fo.context@ == "executing command"@
                            &&& fo.command_type@ == "command"@
                        },
                        MemImgError::SystemFailure(fo) => {
                            &&& command.apply_spec(old(self).system@) is Ok
                            &&& fo.context@ == "serializing command"@
                            &&& fo.command_type@ == "command"@
                        },
                    }
                },
            },
            final(self).event_storage.infallible() == old(self).event_storage.infallible(),
            old(self).event_storage.infallible() && command.apply_spec(old(self).system@) is Ok
                ==> r is Ok,
    {
        // Shadow copy: clone the entire system state.
        let mut shadow = self.system.clone();
        proof {
            C::lemma_clone_view(self.system, shadow);
        }
        // Apply the command to the shadow copy; a failure leaves the live
        // state and the log untouched.
        match command.apply_to(&mut shadow) {
            Ok(()) => {},
            Err(e) => {
                return Err(
                    MemImgError::CommandFailure(
                        FailureOutcome::new(e, "executing command", "command"),
                    ),
                );
            },
        }
        // Persist the command before committing; the log is the authority,
        // so an unpersisted effect must never become visible.
        match self.event_storage.append(&command) {
            Ok(()) => {},
            Err(e) => {
                return Err(
                    MemImgError::SystemFailure(
                        FailureOutcome::new(e, "serializing command", "command"),
                    ),
                );
            },
        }
        // Commit: swap the shadow copy into place as the new live state.
        self.system = shadow;
        proof {
            assert(self.event_storage.log().drop_last() =~= old(self).event_storage.log());
        }
        Ok(())
    }

    /// The current live system state.
    pub fn system(&self) -> (r: &S)
        ensures
            r == &self.system,
    {
        &self.system
    }
}

/// What `execute_query` returns against the live state `s`: the answer is
/// a function of the query and the state alone.
pub open spec fn query_outcome<S, Q>(
    query: &Q,
    s: <S as View>::V,
    r: Result<Q::Output, MemImgError<Q::Failure>>,
) -> bool where S: View, Q: Query<System = S> {
    match r {
        Ok(out) => query.query_spec(s) is Ok && out.deep_view() == query.query_spec(s)->Ok_0,
        Err(e) => query.query_spec(s) is Err && (e matches MemImgError::CommandFailure(fo)
            && fo.source == query.query_spec(s)->Err_0 && fo.context@ == "executing query"@
            && fo.command_type@ == "query"@),
    }
}

/// Idempotent queries: the answer to a query is a function of the query
/// and the live state alone, so two executions with no intervening
/// command return equal results.
pub proof fn lemma_query_idempotent<S, Q>(
    query: &Q,
    s: <S as View>::V,
    r1: Result<Q::Output, MemImgError<Q::Failure>>,
    r2: Result<Q::Output, MemImgError<Q::Failure>>,
) where S: View, Q: Query<System = S>
    requires
        query_outcome(query, s, r1),
        query_outcome(query, s, r2),
    ensures
        r1 is Ok <==> r2 is Ok,
        r1 is Ok ==> r1->Ok_0.deep_view() == r2->Ok_0.deep_view(),
        r1 is Err ==> (r1->Err_0 matches MemImgError::CommandFailure(fo1)
            && r2->Err_0 matches MemImgError::CommandFailure(fo2) && fo1.source == fo2.source),
{
}

/// Replay determinism: two well-formed processors built over the same
/// initial state and the same log hold equal live states.  Discarding an
/// engine and constructing a new one from the log it wrote reproduces its
/// final state exactly.
pub proof fn lemma_replay_determinism<S, C, E>(p1: &MemImgProcessor<S, C, E>, p2: &MemImgProcessor<
    S,
    C,
    E,
>) where
    S: View + Clone,
    C: Command<System = S>,
    E: EventStorage<Event = C, Failure = C::Failure>,

    requires
        p1.wf(),
        p2.wf(),
        p1.initial@ == p2.initial@,
        p1.event_storage.log() == p2.event_storage.log(),
    ensures
        p1.system@ == p2.system@,
{
}

} // verus!
