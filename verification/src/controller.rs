//! The controller: the single consumer of the dispatch queue.
//!
//! It hands out one command at a time, in the order in which they were
//! queued, and turns the outcome of each into the frame that answers it. A
//! command that carries a decoding failure is answered at once, without
//! touching a peripheral.

use vstd::prelude::*;
use crate::command::{Command, CommandInner, FamilyCommand};
use crate::error::CommandError;
use crate::queue::DispatchQueue;
use crate::response::{encode_response, frame_bytes, outcome_view, response_frame};

verus! {

/// A family's command, ready to be run against the peripherals.
#[derive(Debug, PartialEq, Eq)]
pub enum Work<I, G, L> {
    I2c(I),
    Gpio(G),
    Led(L),
}

/// What the controller does next.
#[derive(Debug, PartialEq, Eq)]
pub enum Step<I, G, L> {
    /// Nothing can be started: the queue is empty, or a command is still
    /// being run.
    Idle,
    /// Run `work` on unit `bus` of its family, then report the outcome.
    Execute { bus: u8, work: Work<I, G, L> },
    /// Send this frame: the answer to a command that could not be decoded.
    Transmit(heapless::Vec<u8, 260>),
}

/// The consumer's side of a session: the queue, the command being run, and
/// the record of what was accepted and what was answered.
pub struct Controller<I, G, L> {
    queue: DispatchQueue<Command<I, G, L>>,
    running: Option<i8>,
    accepted: Ghost<Seq<i8>>,
    answered: Ghost<Seq<i8>>,
}

/// The target ids of `cmds`, in order.
pub open spec fn ids_of<I, G, L>(cmds: Seq<Command<I, G, L>>) -> Seq<i8> {
    Seq::new(cmds.len(), |k: int| cmds[k].id)
}

/// The target id of the command being run, as a sequence of one or none.
pub open spec fn id_in_flight(running: Option<i8>) -> Seq<i8> {
    match running {
        Some(id) => seq![id],
        None => Seq::<i8>::empty(),
    }
}

impl<I: FamilyCommand, G: FamilyCommand, L: FamilyCommand> Controller<I, G, L> {
    /// The commands that wait to be run, oldest first.
    pub closed spec fn queued(self) -> Seq<Command<I, G, L>> {
        self.queue.contents()
    }

    /// The number of commands that can wait at once.
    pub closed spec fn spec_capacity(self) -> nat {
        self.queue.spec_capacity()
    }

    /// The target id of the command being run, if one is.
    pub closed spec fn spec_running(self) -> Option<i8> {
        self.running
    }

    /// The target ids of all commands ever accepted, in order.
    pub closed spec fn accepted(self) -> Seq<i8> {
        self.accepted@
    }

    /// The target ids of all frames ever given out, in order.
    pub closed spec fn answered(self) -> Seq<i8> {
        self.answered@
    }

    /// Every command accepted has been answered, is being run, or waits in
    /// the queue, in that order and each exactly once. Every constructor
    /// gives such a controller and every method keeps it so.
    pub closed spec fn well_formed(self) -> bool {
        self.queue.well_formed() && self.accepted@ == self.answered@ + id_in_flight(self.running)
            + ids_of(self.queue.contents())
    }

    /// A controller with an empty queue for up to `capacity` commands.
    pub fn new(capacity: usize) -> (c: Self)
        ensures
            c.well_formed(),
            c.queued() == Seq::<Command<I, G, L>>::empty(),
            c.spec_capacity() == capacity,
            c.spec_running().is_none(),
            c.accepted() == Seq::<i8>::empty(),
            c.answered() == Seq::<i8>::empty(),
    {
        let c = Controller {
            queue: DispatchQueue::new(capacity),
            running: None,
            accepted: Ghost(Seq::empty()),
            answered: Ghost(Seq::empty()),
        };
        proof {
            assert(c.accepted@ =~= c.answered@ + id_in_flight(c.running) + ids_of(
                c.queue.contents(),
            ));
        }
        c
    }

    /// Whether a command is being run.
    pub fn is_running(&self) -> (b: bool)
        ensures
            b == self.spec_running().is_some(),
    {
        self.running.is_some()
    }

    /// The number of commands that wait to be run.
    pub fn backlog(&self) -> (n: usize)
        ensures
            n == self.queued().len(),
    {
        self.queue.len()
    }

    /// Queues `cmd` behind the commands that wait. A full queue refuses it
    /// and hands it back: the producer waits and offers it again.
    pub fn submit(&mut self, cmd: Command<I, G, L>) -> (r: Result<(), Command<I, G, L>>)
        requires
            old(self).well_formed(),
        ensures
            final(self).well_formed(),
            final(self).spec_capacity() == old(self).spec_capacity(),
            final(self).spec_running() == old(self).spec_running(),
            final(self).answered() == old(self).answered(),
            old(self).queued().len() < old(self).spec_capacity() ==> r.is_ok() && final(
                self
            ).queued() == old(self).queued().push(cmd) && final(self).accepted() == old(
                self
            ).accepted().push(cmd.id),
            old(self).queued().len() >= old(self).spec_capacity() ==> r == Err::<
                (),
                Command<I, G, L>,
            >(cmd) && final(self).queued() == old(self).queued() && final(self).accepted() == old(
                self
            ).accepted(),
    {
        let id = cmd.id;
        let r = self.queue.try_enqueue(cmd);
        if r.is_ok() {
            proof {
                self.accepted@ = self.accepted@.push(id);
                assert(ids_of(self.queue.contents()) =~= ids_of(old(self).queue.contents()).push(
                    id,
                ));
                assert(self.accepted@ =~= self.answered@ + id_in_flight(self.running) + ids_of(
                    self.queue.contents(),
                ));
            }
        }
        r
    }

    /// Whether `step` and the state `after` are what follows from this
    /// state: nothing while a command is being run or none waits; otherwise
    /// the oldest command leaves the queue, to be run if it is a family's, to
    /// be answered at once if it carries a failure.
    pub open spec fn steps(self, after: Self, step: Step<I, G, L>) -> bool {
        if self.spec_running().is_some() || self.queued().len() == 0 {
            step is Idle && after.queued() == self.queued() && after.spec_running()
                == self.spec_running() && after.answered() == self.answered()
        } else {
            let cmd = self.queued()[0];
            after.queued() == self.queued().drop_first() && match cmd.inner {
                CommandInner::Error(err) => step matches Step::Transmit(frame) && frame_bytes(frame)
                    == response_frame(cmd.id, Err(err)) && after.spec_running().is_none()
                    && after.answered() == self.answered().push(cmd.id),
                CommandInner::I2c(work) => step == (Step::Execute {
                    bus: cmd.bus,
                    work: Work::<I, G, L>::I2c(work),
                }) && after.spec_running() == Some(cmd.id) && after.answered() == self.answered(),
                CommandInner::Gpio(work) => step == (Step::Execute {
                    bus: cmd.bus,
                    work: Work::<I, G, L>::Gpio(work),
                }) && after.spec_running() == Some(cmd.id) && after.answered() == self.answered(),
                CommandInner::Led(work) => step == (Step::Execute {
                    bus: cmd.bus,
                    work: Work::<I, G, L>::Led(work),
                }) && after.spec_running() == Some(cmd.id) && after.answered() == self.answered(),
            }
        }
    }

    /// Takes the oldest command off the queue, unless one is still being
    /// run. A family's command is handed out to be run; a command that
    /// carries a failure is answered at once with the frame of that
    /// failure.
    pub fn step(&mut self) -> (step: Step<I, G, L>)
        requires
            old(self).well_formed(),
        ensures
            final(self).well_formed(),
            final(self).spec_capacity() == old(self).spec_capacity(),
            final(self).accepted() == old(self).accepted(),
            old(self).steps(*final(self), step),
    {
        if self.running.is_some() {
            return Step::Idle;
        }
        match self.queue.try_dequeue() {
            None => Step::Idle,
            Some(cmd) => {
                let id = cmd.id;
                let bus = cmd.bus;
                proof {
                    let before = old(self).queue.contents();
                    assert(ids_of(before) =~= seq![id] + ids_of(before.drop_first()));
                }
                let step = match cmd.inner {
                    CommandInner::Error(err) => {
                        proof {
                            self.answered@ = self.answered@.push(id);
                        }
                        Step::Transmit(encode_response(id, Err(err)))
                    },
                    CommandInner::I2c(work) => {
                        self.running = Some(id);
                        Step::Execute { bus, work: Work::I2c(work) }
                    },
                    CommandInner::Gpio(work) => {
                        self.running = Some(id);
                        Step::Execute { bus, work: Work::Gpio(work) }
                    },
                    CommandInner::Led(work) => {
                        self.running = Some(id);
                        Step::Execute { bus, work: Work::Led(work) }
                    },
                };
                proof {
                    assert(self.accepted@ =~= self.answered@ + id_in_flight(self.running) + ids_of(
                        self.queue.contents(),
                    ));
                }
                step
            },
        }
    }

    /// Ends the run of the command in flight with its outcome, and gives
    /// the frame that answers it: addressed to the command's target id,
    /// with the payload on success and the error otherwise.
    pub fn complete(&mut self, outcome: Result<&[u8], CommandError>) -> (frame: heapless::Vec<
        u8,
        260,
    >)
        requires
            old(self).well_formed(),
            old(self).spec_running().is_some(),
        ensures
            final(self).well_formed(),
            final(self).spec_capacity() == old(self).spec_capacity(),
            final(self).accepted() == old(self).accepted(),
            final(self).queued() == old(self).queued(),
            final(self).spec_running().is_none(),
            final(self).answered() == old(self).answered().push(old(self).spec_running().unwrap()),
            frame_bytes(frame) == response_frame(
                old(self).spec_running().unwrap(),
                outcome_view(outcome),
            ),
    {
        let id = match self.running {
            Some(id) => id,
            None => 0,
        };
        let frame = encode_response(id, outcome);
        self.running = None;
        proof {
            self.answered@ = self.answered@.push(id);
            assert(self.accepted@ =~= self.answered@ + id_in_flight(self.running) + ids_of(
                self.queue.contents(),
            ));
        }
        frame
    }

    /// Every command accepted is answered exactly once: at any time the
    /// commands accepted are those answered, then the one being run, then
    /// those that wait, so that the counts add up; and once nothing is
    /// being run and nothing waits, the frames given out are addressed, one
    /// for one and in order, to the commands accepted.
    pub proof fn lemma_every_command_answered(self)
        requires
            self.well_formed(),
        ensures
            self.accepted() == self.answered() + id_in_flight(self.spec_running()) + ids_of(
                self.queued(),
            ),
            self.accepted().len() == self.answered().len() + self.queued().len() + (
            if self.spec_running().is_some() {
                1nat
            } else {
                0nat
            }),
            self.spec_running().is_none() && self.queued().len() == 0 ==> self.answered()
                == self.accepted(),
    {
        if self.spec_running().is_none() && self.queued().len() == 0 {
            assert(self.answered() + id_in_flight(self.spec_running()) + ids_of(self.queued())
                =~= self.answered());
        }
    }
}

} // verus!
