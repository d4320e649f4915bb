use sbi_testing::trap::cause::{acknowledge, classify};
use sbi_testing::trap::{
    decode, last_trap, Acknowledge, Interrupt, SharedMailbox, Trap, TrapMailbox,
};

const INTERRUPT: usize = 1 << (usize::BITS - 1);

#[test]
fn interrupts_are_named_by_number() {
    assert_eq!(classify(INTERRUPT | 1), Trap::Interrupt(Interrupt::SupervisorSoft));
    assert_eq!(classify(INTERRUPT | 5), Trap::Interrupt(Interrupt::SupervisorTimer));
    assert_eq!(classify(INTERRUPT | 9), Trap::Interrupt(Interrupt::SupervisorExternal));
    assert_eq!(classify(INTERRUPT), Trap::Interrupt(Interrupt::Unknown(0)));
    assert_eq!(classify(INTERRUPT | 7), Trap::Interrupt(Interrupt::Unknown(7)));
    assert_eq!(classify(usize::MAX), Trap::Interrupt(Interrupt::Unknown(usize::MAX >> 1)));
}

#[test]
fn exceptions_keep_their_number() {
    assert_eq!(classify(0), Trap::Exception(0));
    assert_eq!(classify(1), Trap::Exception(1));
    assert_eq!(classify(2), Trap::Exception(2));
    assert_eq!(classify(5), Trap::Exception(5));
    assert_eq!(classify(usize::MAX >> 1), Trap::Exception(usize::MAX >> 1));
}

#[test]
fn an_exception_is_stepped_over() {
    assert_eq!(
        acknowledge(Trap::Exception(2), 0x8020_0000),
        Acknowledge::SkipInstruction { sepc: 0x8020_0004 }
    );
    assert_eq!(acknowledge(Trap::Exception(0), 0), Acknowledge::SkipInstruction { sepc: 4 });
}

#[test]
fn stepping_over_wraps_at_the_end_of_the_address_space() {
    assert_eq!(
        acknowledge(Trap::Exception(2), usize::MAX),
        Acknowledge::SkipInstruction { sepc: 3 }
    );
    assert_eq!(
        acknowledge(Trap::Exception(2), usize::MAX - 3),
        Acknowledge::SkipInstruction { sepc: 0 }
    );
    assert_eq!(
        acknowledge(Trap::Exception(2), usize::MAX - 4),
        Acknowledge::SkipInstruction { sepc: usize::MAX }
    );
}

#[test]
fn a_timer_interrupt_is_pushed_out_of_reach() {
    assert_eq!(
        acknowledge(Trap::Interrupt(Interrupt::SupervisorTimer), 0x1000),
        Acknowledge::SilenceTimer { deadline: u64::MAX }
    );
}

#[test]
fn a_software_interrupt_is_cleared() {
    assert_eq!(
        acknowledge(Trap::Interrupt(Interrupt::SupervisorSoft), 0x1000),
        Acknowledge::ClearSoftPending
    );
}

#[test]
fn other_interrupts_need_nothing() {
    assert_eq!(
        acknowledge(Trap::Interrupt(Interrupt::SupervisorExternal), 0x1000),
        Acknowledge::Nothing
    );
    assert_eq!(acknowledge(Trap::Interrupt(Interrupt::Unknown(3)), 0x1000), Acknowledge::Nothing);
}

#[test]
fn an_empty_mailbox_reads_as_no_trap() {
    assert_eq!(decode(None), None);
    assert_eq!(decode(Some(2)), Some(Trap::Exception(2)));
    assert_eq!(decode(Some(INTERRUPT | 5)), Some(Trap::Interrupt(Interrupt::SupervisorTimer)));
    assert_eq!(decode(Some(0)), Some(Trap::Exception(0)));
}

#[test]
fn a_new_mailbox_is_empty() {
    let mut mailbox = TrapMailbox::new();
    assert_eq!(mailbox, TrapMailbox { held: None });
    assert_eq!(last_trap(&mut mailbox), None);
    assert_eq!(mailbox.take(), None);
    let shared = SharedMailbox::new();
    assert_eq!(shared.last_trap(), None);
    assert_eq!(shared.take(), None);
}

#[test]
fn a_published_trap_is_read_once() {
    let mut mailbox = TrapMailbox::new();
    mailbox.publish(INTERRUPT | 1);
    assert_eq!(mailbox.held, Some(INTERRUPT | 1));
    assert_eq!(last_trap(&mut mailbox), Some(Trap::Interrupt(Interrupt::SupervisorSoft)));
    assert_eq!(mailbox.held, None);
    assert_eq!(last_trap(&mut mailbox), None);
    mailbox.publish(3);
    assert_eq!(mailbox.take(), Some(3));
    assert_eq!(mailbox.take(), None);
    let shared = SharedMailbox::new();
    shared.publish(INTERRUPT | 1);
    assert_eq!(shared.last_trap(), Some(Trap::Interrupt(Interrupt::SupervisorSoft)));
    assert_eq!(shared.last_trap(), None);
    shared.publish(3);
    assert_eq!(shared.take(), Some(3));
    assert_eq!(shared.take(), None);
}

#[test]
fn a_later_trap_replaces_an_unread_one() {
    let mut mailbox = TrapMailbox::new();
    mailbox.publish(INTERRUPT | 5);
    mailbox.publish(2);
    assert_eq!(last_trap(&mut mailbox), Some(Trap::Exception(2)));
    assert_eq!(last_trap(&mut mailbox), None);
    let shared = SharedMailbox::new();
    shared.publish(INTERRUPT | 5);
    shared.publish(2);
    assert_eq!(shared.last_trap(), Some(Trap::Exception(2)));
    assert_eq!(shared.last_trap(), None);
}

#[test]
fn a_trap_whose_cause_reads_zero_is_found() {
    let mut mailbox = TrapMailbox::new();
    mailbox.publish(0);
    assert_eq!(mailbox.held, Some(0));
    assert_eq!(last_trap(&mut mailbox), Some(Trap::Exception(0)));
    assert_eq!(last_trap(&mut mailbox), None);
    let shared = SharedMailbox::new();
    shared.publish(0);
    assert_eq!(shared.last_trap(), Some(Trap::Exception(0)));
    assert_eq!(shared.last_trap(), None);
    shared.publish(0);
    assert_eq!(shared.take(), Some(0));
    assert_eq!(shared.take(), None);
}

#[test]
fn the_trap_entry_acknowledges_then_publishes() {
    let mailbox = SharedMailbox::new();
    let bits = INTERRUPT | 5;
    assert_eq!(
        acknowledge(classify(bits), 0x8000_0000),
        Acknowledge::SilenceTimer { deadline: u64::MAX }
    );
    mailbox.publish(bits);
    let mut polls = 0;
    let trap = loop {
        polls += 1;
        if let Some(trap) = mailbox.last_trap() {
            break trap;
        }
    };
    assert_eq!(polls, 1);
    assert_eq!(trap, Trap::Interrupt(Interrupt::SupervisorTimer));
}

#[test]
fn what_is_taken_is_the_reading_of_the_word_published() {
    let shared = SharedMailbox::new();
    let mut plain = TrapMailbox::new();
    for word in [0usize, 1, 2, 5, 9, INTERRUPT, INTERRUPT | 1, INTERRUPT | 5, INTERRUPT | 9, usize::MAX] {
        shared.publish(word);
        plain.publish(word);
        assert_eq!(shared.last_trap(), Some(classify(word)));
        assert_eq!(last_trap(&mut plain), Some(classify(word)));
        assert_eq!(shared.last_trap(), None);
        assert_eq!(last_trap(&mut plain), None);
    }
}
