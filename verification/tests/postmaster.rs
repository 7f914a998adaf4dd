use post_haste::address::{Address, Message};
use post_haste::error::PostmasterError;
use post_haste::postmaster::Postmaster;
use post_haste::router::message;
use post_haste::state::Dispatch;

#[derive(Debug, PartialEq, Eq)]
enum Payloads {
    Hello,
    Count(u32),
    Text(String),
}

const MAIN: Address = Address { index: 0 };
const DISPLAY: Address = Address { index: 1 };
const SEQUENCER: Address = Address { index: 2 };
const STRANGER: Address = Address { index: 3 };

fn letter(source: Address, payload: Payloads) -> Message<Payloads> {
    Message { source, payload }
}

#[test]
fn initialize_builds_one_empty_mailbox_per_address() {
    let postmaster: Postmaster<Payloads> = Postmaster::initialize(3, 4, 5);
    assert_eq!(postmaster.addresses(), 3);
    assert_eq!(postmaster.free_slots(), 5);
    assert_eq!(postmaster.timers_in_flight(), 0);
    for index in 0..3 {
        let address = Address::new(index);
        assert!(!postmaster.is_registered(address));
        assert_eq!(postmaster.queued(address), 0);
        let mailbox = postmaster.lookup(address).unwrap();
        assert_eq!(mailbox.capacity(), 4);
        assert!(mailbox.is_empty());
    }
}

#[test]
fn lookup_fails_only_outside_the_address_set() {
    let postmaster: Postmaster<Payloads> = Postmaster::initialize(3, 4, 5);
    assert!(postmaster.lookup(MAIN).is_ok());
    assert!(postmaster.lookup(SEQUENCER).is_ok());
    assert_eq!(postmaster.lookup(STRANGER).err(), Some(PostmasterError::NoRecipient));
    assert_eq!(postmaster.queued(STRANGER), 0);
    assert!(!postmaster.is_registered(STRANGER));
}

#[test]
fn second_registration_is_refused() {
    let mut postmaster: Postmaster<Payloads> = Postmaster::initialize(3, 2, 5);
    let inbox = postmaster.register(DISPLAY).unwrap();
    assert_eq!(inbox.address(), DISPLAY);
    assert!(postmaster.is_registered(DISPLAY));
    assert_eq!(postmaster.free_slots(), 4);
    assert_eq!(postmaster.try_send(DISPLAY, MAIN, Payloads::Hello), Ok(()));

    let second = postmaster.register(DISPLAY);
    assert_eq!(second.err(), Some(PostmasterError::AddressAlreadyTaken));
    assert!(postmaster.is_registered(DISPLAY));
    assert_eq!(postmaster.free_slots(), 4);
    assert_eq!(postmaster.queued(DISPLAY), 1);

    assert_eq!(postmaster.receive(&inbox), Some(letter(MAIN, Payloads::Hello)));
    assert_eq!(postmaster.receive(&inbox), None);
}

#[test]
fn registration_outside_the_address_set_is_refused() {
    let mut postmaster: Postmaster<Payloads> = Postmaster::initialize(3, 2, 5);
    assert_eq!(postmaster.register(STRANGER).err(), Some(PostmasterError::NoRecipient));
    assert_eq!(postmaster.free_slots(), 5);
}

#[test]
fn registration_needs_a_free_task_slot() {
    let mut postmaster: Postmaster<Payloads> = Postmaster::initialize(3, 2, 2);
    assert!(postmaster.register(MAIN).is_ok());
    assert!(postmaster.register(DISPLAY).is_ok());
    assert_eq!(postmaster.free_slots(), 0);
    assert_eq!(
        postmaster.register(SEQUENCER).err(),
        Some(PostmasterError::DelayedMessageTaskSpawnFailed)
    );
    assert!(!postmaster.is_registered(SEQUENCER));
    assert_eq!(
        postmaster.register(MAIN).err(),
        Some(PostmasterError::AddressAlreadyTaken)
    );
}

#[test]
fn try_send_to_a_full_mailbox_fails_and_changes_nothing() {
    let mut postmaster: Postmaster<Payloads> = Postmaster::initialize(3, 2, 5);
    let inbox = postmaster.register(DISPLAY).unwrap();
    assert_eq!(postmaster.try_send(DISPLAY, MAIN, Payloads::Count(1)), Ok(()));
    assert_eq!(postmaster.try_send(DISPLAY, SEQUENCER, Payloads::Count(2)), Ok(()));
    assert_eq!(
        postmaster.try_send(DISPLAY, MAIN, Payloads::Count(3)),
        Err(PostmasterError::TrySendFailed)
    );
    assert_eq!(postmaster.queued(DISPLAY), 2);
    assert!(postmaster.lookup(DISPLAY).unwrap().is_full());
    assert_eq!(postmaster.receive(&inbox), Some(letter(MAIN, Payloads::Count(1))));
    assert_eq!(postmaster.receive(&inbox), Some(letter(SEQUENCER, Payloads::Count(2))));
    assert_eq!(postmaster.receive(&inbox), None);
}

#[test]
fn try_send_outside_the_address_set_finds_no_recipient() {
    let mut postmaster: Postmaster<Payloads> = Postmaster::initialize(3, 2, 5);
    assert_eq!(
        postmaster.try_send(STRANGER, MAIN, Payloads::Hello),
        Err(PostmasterError::NoRecipient)
    );
    assert_eq!(
        postmaster.send(STRANGER, MAIN, Payloads::Hello),
        Err(PostmasterError::NoRecipient)
    );
    assert_eq!(
        message(STRANGER, MAIN, Payloads::Hello).send(&mut postmaster),
        Err(PostmasterError::NoRecipient)
    );
    for index in 0..3 {
        assert_eq!(postmaster.queued(Address::new(index)), 0);
    }
}

#[test]
fn mailbox_queues_without_a_consumer() {
    let mut postmaster: Postmaster<Payloads> = Postmaster::initialize(3, 2, 5);
    assert_eq!(postmaster.try_send(SEQUENCER, MAIN, Payloads::Hello), Ok(()));
    assert_eq!(postmaster.queued(SEQUENCER), 1);
    let inbox = postmaster.register(SEQUENCER).unwrap();
    assert_eq!(postmaster.receive(&inbox), Some(letter(MAIN, Payloads::Hello)));
}

#[test]
fn blocking_send_completes_after_one_receive() {
    let mut postmaster: Postmaster<Payloads> = Postmaster::initialize(2, 1, 2);
    let consumer = postmaster.register(DISPLAY).unwrap();

    let first = postmaster.send(DISPLAY, MAIN, Payloads::Text(String::from("first")));
    assert_eq!(first, Ok(Dispatch::Delivered));

    let second = postmaster.send(DISPLAY, MAIN, Payloads::Text(String::from("second")));
    let held = match second {
        Ok(Dispatch::Suspended(held)) => held,
        other => panic!("the second send went through: {:?}", other),
    };
    assert_eq!(held, letter(MAIN, Payloads::Text(String::from("second"))));
    assert_eq!(postmaster.queued(DISPLAY), 1);

    let again = postmaster.send(DISPLAY, held.source, held.payload);
    let held = match again {
        Ok(Dispatch::Suspended(held)) => held,
        other => panic!("the send went through before any receive: {:?}", other),
    };

    assert_eq!(
        postmaster.receive(&consumer),
        Some(letter(MAIN, Payloads::Text(String::from("first"))))
    );
    assert_eq!(
        postmaster.send(DISPLAY, held.source, held.payload),
        Ok(Dispatch::Delivered)
    );
    assert_eq!(
        postmaster.receive(&consumer),
        Some(letter(MAIN, Payloads::Text(String::from("second"))))
    );
    assert_eq!(postmaster.receive(&consumer), None);
}

#[test]
fn blocked_send_keeps_enqueue_order_in_a_larger_mailbox() {
    let mut postmaster: Postmaster<Payloads> = Postmaster::initialize(2, 3, 2);
    let consumer = postmaster.register(DISPLAY).unwrap();
    for count in 0..3 {
        assert_eq!(
            postmaster.send(DISPLAY, MAIN, Payloads::Count(count)),
            Ok(Dispatch::Delivered)
        );
    }
    let held = match postmaster.send(DISPLAY, MAIN, Payloads::Count(3)) {
        Ok(Dispatch::Suspended(held)) => held,
        other => panic!("a full mailbox took a message: {:?}", other),
    };
    assert_eq!(postmaster.receive(&consumer), Some(letter(MAIN, Payloads::Count(0))));
    assert_eq!(
        postmaster.send(DISPLAY, held.source, held.payload),
        Ok(Dispatch::Delivered)
    );
    for count in 1..4 {
        assert_eq!(postmaster.receive(&consumer), Some(letter(MAIN, Payloads::Count(count))));
    }
    assert_eq!(postmaster.receive(&consumer), None);
}

#[test]
fn sends_from_one_source_arrive_in_issue_order() {
    let mut postmaster: Postmaster<Payloads> = Postmaster::initialize(3, 8, 3);
    let consumer = postmaster.register(DISPLAY).unwrap();
    for count in 0..3 {
        assert_eq!(postmaster.try_send(DISPLAY, MAIN, Payloads::Count(count)), Ok(()));
        assert_eq!(
            postmaster.send(DISPLAY, SEQUENCER, Payloads::Count(100 + count)),
            Ok(Dispatch::Delivered)
        );
    }
    let mut from_main = Vec::new();
    let mut from_sequencer = Vec::new();
    let mut all = Vec::new();
    while let Some(received) = postmaster.receive(&consumer) {
        all.push(received.payload.count());
        if received.source == MAIN {
            from_main.push(received.payload);
        } else {
            assert_eq!(received.source, SEQUENCER);
            from_sequencer.push(received.payload);
        }
    }
    assert_eq!(all, vec![0, 100, 1, 101, 2, 102]);
    assert_eq!(
        from_main,
        vec![Payloads::Count(0), Payloads::Count(1), Payloads::Count(2)]
    );
    assert_eq!(
        from_sequencer,
        vec![Payloads::Count(100), Payloads::Count(101), Payloads::Count(102)]
    );
}

impl Payloads {
    fn count(&self) -> u32 {
        match self {
            Payloads::Count(count) => *count,
            _ => u32::MAX,
        }
    }
}

#[test]
fn mailboxes_are_independent() {
    let mut postmaster: Postmaster<Payloads> = Postmaster::initialize(3, 1, 3);
    let display = postmaster.register(DISPLAY).unwrap();
    let sequencer = postmaster.register(SEQUENCER).unwrap();
    assert_eq!(postmaster.try_send(DISPLAY, MAIN, Payloads::Count(1)), Ok(()));
    assert_eq!(
        postmaster.try_send(DISPLAY, MAIN, Payloads::Count(2)),
        Err(PostmasterError::TrySendFailed)
    );
    assert_eq!(postmaster.try_send(SEQUENCER, DISPLAY, Payloads::Count(3)), Ok(()));
    assert_eq!(postmaster.receive(&sequencer), Some(letter(DISPLAY, Payloads::Count(3))));
    assert_eq!(postmaster.receive(&sequencer), None);
    assert_eq!(postmaster.receive(&display), Some(letter(MAIN, Payloads::Count(1))));
}

#[test]
fn builder_without_delay_sends_at_once() {
    let mut postmaster: Postmaster<Payloads> = Postmaster::initialize(3, 1, 3);
    let consumer = postmaster.register(DISPLAY).unwrap();
    let builder = message(DISPLAY, MAIN, Payloads::Hello);
    assert_eq!(builder.destination, DISPLAY);
    assert_eq!(builder.source, MAIN);
    assert_eq!(builder.delay, None);
    assert_eq!(builder.send(&mut postmaster), Ok(Dispatch::Delivered));
    assert_eq!(postmaster.timers_in_flight(), 0);
    assert_eq!(
        message(DISPLAY, MAIN, Payloads::Count(9)).send(&mut postmaster),
        Ok(Dispatch::Suspended(letter(MAIN, Payloads::Count(9))))
    );
    assert_eq!(postmaster.receive(&consumer), Some(letter(MAIN, Payloads::Hello)));
}
