//! The requests that wait for the writer tasks.
//!
//! A chunk is acknowledged when its write has ended. Until then the request
//! that brought it waits in the lane of the writer task that is to write it.
//! A lane belongs to one writer task, and is gone once that task is closing: a
//! connection that is opened anew under an old id gets a lane of its own.

use std::collections::hash_map::Entry;
use std::collections::HashMap;
use std::collections::VecDeque;

use vstd::prelude::*;

use crate::proto::Ack;

verus! {

/// The answer to a request, with the place where the answer goes.
#[derive(Debug, PartialEq, Eq)]
pub struct Answer<R> {
    pub reply: R,
    pub ack: Ack,
}

/// The places where some answers go, in order.
pub open spec fn replies<R>(answers: Seq<Answer<R>>) -> Seq<R> {
    answers.map_values(|answer: Answer<R>| answer.reply)
}

/// The lanes of the writer tasks that are at work, by number.
pub struct Lanes<R> {
    queues: HashMap<u64, VecDeque<R>>,
    next_lane: u64,
}

/// The model of a [`Lanes`]: the requests that wait in each lane, oldest first,
/// and the number of the next lane.
#[verifier::ext_equal]
pub struct LanesView<R> {
    pub queues: Map<u64, Seq<R>>,
    pub next_lane: u64,
}

/// The number that follows another. Numbers start over after the largest one.
pub open spec fn number_after(n: u64) -> u64 {
    if n == u64::MAX {
        0
    } else {
        (n + 1) as u64
    }
}

impl<R> LanesView<R> {
    /// No lanes.
    pub open spec fn empty() -> LanesView<R> {
        LanesView { queues: Map::empty(), next_lane: 0 }
    }

    /// The lanes with a new one, in which nothing waits.
    pub open spec fn added(self) -> LanesView<R> {
        LanesView {
            queues: self.queues.insert(self.next_lane, Seq::empty()),
            next_lane: number_after(self.next_lane),
        }
    }

    /// The lanes with one more request waiting in `lane`.
    pub open spec fn joined(self, lane: u64, reply: R) -> LanesView<R> {
        LanesView { queues: self.queues.insert(lane, self.queues[lane].push(reply)), ..self }
    }

    /// The requests that wait in `lane`, none where there is no such lane.
    pub open spec fn in_lane(self, lane: u64) -> Seq<R> {
        if self.queues.contains_key(lane) {
            self.queues[lane]
        } else {
            Seq::empty()
        }
    }

    /// The oldest request of `lane`, where there is one.
    pub open spec fn oldest(self, lane: u64) -> Seq<R> {
        if self.in_lane(lane).len() > 0 {
            self.in_lane(lane).take(1)
        } else {
            Seq::empty()
        }
    }

    /// The lanes without the oldest request of `lane`.
    pub open spec fn without_oldest(self, lane: u64) -> LanesView<R> {
        if self.in_lane(lane).len() > 0 {
            LanesView { queues: self.queues.insert(lane, self.queues[lane].skip(1)), ..self }
        } else {
            self
        }
    }

    /// The lanes without `lane`.
    pub open spec fn without(self, lane: u64) -> LanesView<R> {
        LanesView { queues: self.queues.remove(lane), ..self }
    }
}

impl<R> View for Lanes<R> {
    type V = LanesView<R>;

    closed spec fn view(&self) -> LanesView<R> {
        LanesView {
            queues: self.queues@.map_values(|queue: VecDeque<R>| queue@),
            next_lane: self.next_lane,
        }
    }
}

impl<R> Lanes<R> {
    /// No lanes.
    pub fn new() -> (lanes: Lanes<R>)
        ensures
            lanes@ == LanesView::<R>::empty(),
    {
        broadcast use vstd::std_specs::hash::group_hash_axioms;

        let lanes = Lanes { queues: HashMap::new(), next_lane: 0 };
        assert(lanes@ =~= LanesView::<R>::empty());
        lanes
    }

    /// Adds a lane, and gives its number.
    pub fn add(&mut self) -> (lane: u64)
        ensures
            lane == old(self)@.next_lane,
            final(self)@ == old(self)@.added(),
    {
        broadcast use vstd::std_specs::hash::group_hash_axioms;

        let lane: u64 = self.next_lane;
        self.queues.insert(lane, VecDeque::new());
        self.next_lane = lane.wrapping_add(1);
        assert(self@ =~= old(self)@.added());
        lane
    }

    /// Lets a request wait in `lane`. Where there is no such lane, it gets the
    /// request back.
    pub fn join(&mut self, lane: u64, reply: R) -> (back: Option<R>)
        ensures
            old(self)@.queues.contains_key(lane) ==> back is None && final(self)@ == old(
                self,
            )@.joined(lane, reply),
            !old(self)@.queues.contains_key(lane) ==> back == Some(reply) && final(self)@ == old(
                self,
            )@,
    {
        broadcast use vstd::std_specs::hash::group_hash_axioms;

        let ghost asked = reply;
        let back = match self.queues.entry(lane) {
            Entry::Occupied(entry) => {
                entry.into_mut().push_back(reply);
                None
            },
            Entry::Vacant(_) => Some(reply),
        };
        proof {
            if old(self)@.queues.contains_key(lane) {
                assert(self@ =~= old(self)@.joined(lane, asked));
            } else {
                assert(self@ =~= old(self)@);
            }
        }
        back
    }

    /// Answers the oldest request of `lane`, where there is one.
    pub fn answer_oldest(&mut self, lane: u64) -> (answers: Vec<Answer<R>>)
        ensures
            replies(answers@) == old(self)@.oldest(lane),
            final(self)@ == old(self)@.without_oldest(lane),
    {
        broadcast use vstd::std_specs::hash::group_hash_axioms;

        let mut answers: Vec<Answer<R>> = Vec::new();
        let oldest = match self.queues.entry(lane) {
            Entry::Occupied(entry) => entry.into_mut().pop_front(),
            Entry::Vacant(_) => None,
        };
        match oldest {
            Some(reply) => {
                answers.push(Answer { reply, ack: Ack {  } });
            },
            None => {},
        }
        assert(replies(answers@) =~= old(self)@.oldest(lane));
        assert(self@ =~= old(self)@.without_oldest(lane));
        answers
    }

    /// Answers all requests of `lane`, and takes the lane away.
    pub fn answer_all(&mut self, lane: u64) -> (answers: Vec<Answer<R>>)
        ensures
            replies(answers@) == old(self)@.in_lane(lane),
            final(self)@ == old(self)@.without(lane),
    {
        broadcast use vstd::std_specs::hash::group_hash_axioms;

        let mut answers: Vec<Answer<R>> = Vec::new();
        let queue = self.queues.remove(&lane);
        assert(self@ =~= old(self)@.without(lane));
        match queue {
            Some(queue) => {
                let mut queue = queue;
                let ghost all = queue@;
                assert(replies(answers@) + queue@ =~= all);
                while queue.len() > 0
                    invariant
                        replies(answers@) + queue@ == all,
                    decreases queue.len(),
                {
                    let ghost before = answers@;
                    let ghost left = queue@;
                    match queue.pop_front() {
                        Some(reply) => {
                            answers.push(Answer { reply, ack: Ack {  } });
                            assert(replies(answers@) =~= replies(before).push(reply));
                            assert(replies(answers@) + queue@ =~= replies(before) + left);
                        },
                        None => {},
                    }
                }
                assert(replies(answers@) =~= all);
            },
            None => {
                assert(replies(answers@) =~= Seq::<R>::empty());
            },
        }
        answers
    }
}

} // verus!
