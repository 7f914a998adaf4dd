use std::collections::VecDeque;

use post_haste::address::{Address, Message};
use post_haste::error::PostmasterError;
use post_haste::mailbox::Mailbox;
use post_haste::postmaster::Postmaster;
use post_haste::router::message;
use post_haste::state::Dispatch;

/// A small generator of reproducible pseudo-random numbers.
struct Dice {
    state: u64,
}

impl Dice {
    fn roll(&mut self, sides: u64) -> u64 {
        self.state = self
            .state
            .wrapping_mul(6364136223846793005)
            .wrapping_add(1442695040888963407);
        (self.state >> 33) % sides
    }
}

#[test]
fn mailbox_agrees_with_a_plain_queue() {
    for capacity in 0..6usize {
        let mut dice = Dice { state: 17 + capacity as u64 };
        let mut mailbox: Mailbox<u64> = Mailbox::new(capacity);
        let mut plain: VecDeque<(usize, u64)> = VecDeque::new();
        for step in 0..2000u64 {
            if dice.roll(2) == 0 {
                let source = dice.roll(3) as usize;
                let sent = mailbox.try_send(Message { source: Address::new(source), payload: step });
                if plain.len() < capacity {
                    assert_eq!(sent, Ok(()));
                    plain.push_back((source, step));
                } else {
                    assert_eq!(
                        sent,
                        Err(Message { source: Address::new(source), payload: step })
                    );
                }
            } else {
                let received = mailbox.try_receive();
                let expected = plain
                    .pop_front()
                    .map(|(source, payload)| Message { source: Address::new(source), payload });
                assert_eq!(received, expected);
            }
            assert_eq!(mailbox.len(), plain.len());
            assert_eq!(mailbox.is_empty(), plain.is_empty());
            assert_eq!(mailbox.is_full(), plain.len() == capacity);
            assert_eq!(mailbox.capacity(), capacity);
        }
    }
}

/// The timers of the plain model: the instant at which each runs out, its
/// place in the order of scheduling, its destination and its payload.
struct PlainTimers {
    now: u64,
    waiting: Vec<(u64, u64, usize, u64)>,
    scheduled: u64,
}

impl PlainTimers {
    fn schedule(&mut self, delay: u64, destination: usize, payload: u64) {
        self.waiting.push((self.now + delay, self.scheduled, destination, payload));
        self.scheduled += 1;
    }

    fn advance(
        &mut self,
        ticks: u64,
        queues: &mut Vec<VecDeque<u64>>,
        capacity: usize,
    ) -> usize {
        self.now += ticks;
        self.waiting.sort();
        let mut delivered = 0;
        let mut kept = Vec::new();
        for timer in self.waiting.drain(..) {
            if timer.0 <= self.now && queues[timer.2].len() < capacity {
                queues[timer.2].push_back(timer.3);
                delivered += 1;
            } else {
                kept.push(timer);
            }
        }
        self.waiting = kept;
        delivered
    }

    fn overdue(&self) -> usize {
        self.waiting.iter().filter(|timer| timer.0 <= self.now).count()
    }

    fn next_delay(&self) -> Option<u64> {
        self.waiting
            .iter()
            .filter(|timer| timer.0 > self.now)
            .map(|timer| timer.0 - self.now)
            .min()
    }
}

#[test]
fn postmaster_agrees_with_a_plain_model() {
    let addresses = 3usize;
    let capacity = 2usize;
    let task_slots = 6usize;
    let mut dice = Dice { state: 99 };
    let mut postmaster: Postmaster<u64> = Postmaster::initialize(addresses, capacity, task_slots);
    let mut inboxes = Vec::new();
    for index in 0..addresses {
        inboxes.push(postmaster.register(Address::new(index)).unwrap());
    }
    let mut queues: Vec<VecDeque<u64>> = vec![VecDeque::new(); addresses];
    let mut timers = PlainTimers { now: 0, waiting: Vec::new(), scheduled: 0 };

    for step in 0..5000u64 {
        let destination = dice.roll(addresses as u64 + 1) as usize;
        let source = Address::new(dice.roll(addresses as u64) as usize);
        match dice.roll(5) {
            0 => {
                let sent = postmaster.try_send(Address::new(destination), source, step);
                if destination >= addresses {
                    assert_eq!(sent, Err(PostmasterError::NoRecipient));
                } else if queues[destination].len() == capacity {
                    assert_eq!(sent, Err(PostmasterError::TrySendFailed));
                } else {
                    assert_eq!(sent, Ok(()));
                    queues[destination].push_back(step);
                }
            }
            1 => {
                let sent = postmaster.send(Address::new(destination), source, step);
                if destination >= addresses {
                    assert_eq!(sent, Err(PostmasterError::NoRecipient));
                } else if queues[destination].len() == capacity {
                    assert_eq!(sent, Ok(Dispatch::Suspended(Message { source, payload: step })));
                } else {
                    assert_eq!(sent, Ok(Dispatch::Delivered));
                    queues[destination].push_back(step);
                }
            }
            2 => {
                let delay = dice.roll(4);
                let sent = message(Address::new(destination), source, step)
                    .with_delay(delay)
                    .send(&mut postmaster);
                if destination >= addresses {
                    assert_eq!(sent, Err(PostmasterError::NoRecipient));
                } else if addresses + timers.waiting.len() == task_slots {
                    assert_eq!(sent, Err(PostmasterError::DelayedMessageTaskSpawnFailed));
                } else {
                    assert_eq!(sent, Ok(Dispatch::Scheduled));
                    timers.schedule(delay, destination, step);
                }
            }
            3 => {
                let ticks = dice.roll(3);
                let delivered = postmaster.advance(ticks);
                assert_eq!(delivered, timers.advance(ticks, &mut queues, capacity));
            }
            _ => {
                if destination < addresses {
                    let received = postmaster.receive(&inboxes[destination]);
                    let expected = queues[destination].pop_front();
                    assert_eq!(received.map(|message| message.payload), expected);
                }
            }
        }
        for index in 0..addresses {
            assert_eq!(postmaster.queued(Address::new(index)), queues[index].len());
        }
        assert_eq!(postmaster.timers_in_flight(), timers.waiting.len());
        assert_eq!(
            postmaster.free_slots(),
            task_slots - addresses - timers.waiting.len()
        );
        assert_eq!(postmaster.overdue(), timers.overdue());
        assert_eq!(postmaster.next_delay(), timers.next_delay());
    }
}
