use sbi_testing::hsm::slot::{
    SIGNAL_CLEAR, SIGNAL_SET, STAGE_IDLE, STAGE_RESUMED, STAGE_STARTED,
};
use sbi_testing::hsm::{ItemPerHart, SharedItem, Stage, SuspendKind, Wake};

#[test]
fn stage_words_are_zero_one_two() {
    assert_eq!(STAGE_IDLE, 0);
    assert_eq!(STAGE_STARTED, 1);
    assert_eq!(STAGE_RESUMED, 2);
    assert_eq!(SIGNAL_CLEAR, 0);
    assert_eq!(SIGNAL_SET, 1);
    assert_eq!(Stage::Idle.word(), 0);
    assert_eq!(Stage::Started.word(), 1);
    assert_eq!(Stage::Resumed.word(), 2);
}

#[test]
fn stage_words_decode_back() {
    assert_eq!(Stage::from_word(0), Some(Stage::Idle));
    assert_eq!(Stage::from_word(1), Some(Stage::Started));
    assert_eq!(Stage::from_word(2), Some(Stage::Resumed));
    assert_eq!(Stage::from_word(3), None);
    assert_eq!(Stage::from_word(u32::MAX), None);
}

#[test]
fn stages_run_idle_started_resumed() {
    assert_eq!(Stage::Idle.next(), Some(Stage::Started));
    assert_eq!(Stage::Started.next(), Some(Stage::Resumed));
    assert_eq!(Stage::Resumed.next(), None);
    let mut stage = Stage::Idle;
    let mut words = vec![stage.word()];
    while let Some(next) = stage.next() {
        assert_eq!(next.word(), stage.word() + 1);
        assert_ne!(next, Stage::Idle);
        stage = next;
        words.push(stage.word());
    }
    assert_eq!(words, vec![0, 1, 2]);
}

#[test]
fn the_pass_follows_from_the_stage_found() {
    assert_eq!(Wake::select(0), Some(Wake::First));
    assert_eq!(Wake::select(1), Some(Wake::Second));
    assert_eq!(Wake::select(2), None);
    assert_eq!(Wake::select(77), None);
    assert_eq!(Wake::select(u32::MAX), None);
    assert_eq!(Wake::First.stage(), Stage::Started);
    assert_eq!(Wake::Second.stage(), Stage::Resumed);
}

#[test]
fn each_pass_ends_in_its_suspension() {
    assert_eq!(Wake::First.suspend_kind(), SuspendKind::NonRetentive);
    assert_eq!(Wake::Second.suspend_kind(), SuspendKind::Retentive);
    assert!(!Wake::First.stops_after());
    assert!(Wake::Second.stops_after());
}

#[test]
fn a_new_slot_is_idle_without_a_signal() {
    let mut item = ItemPerHart::new();
    assert_eq!(item, ItemPerHart { stage: 0, signal: 0 });
    assert!(!item.wait_start());
    assert!(!item.wait_resume());
    assert!(!item.wait_signal());
    let slot = SharedItem::new();
    assert_eq!(slot.snapshot(), item);
    assert!(!slot.wait_start());
    assert!(!slot.wait_resume());
    assert!(!slot.wait_signal());
}

#[test]
fn the_stage_word_goes_zero_one_two_and_no_further() {
    let mut item = ItemPerHart::new();
    let mut words = vec![item.stage];
    let mut passes = Vec::new();
    while item.may_enter() {
        passes.push(item.enter());
        words.push(item.stage);
    }
    assert_eq!(words, vec![0, 1, 2]);
    assert_eq!(passes, vec![Wake::First, Wake::Second]);
}

#[test]
fn an_entry_never_leaves_a_slot_idle() {
    for stage in [0, 1] {
        let mut item = ItemPerHart { stage, signal: 1 };
        assert!(item.may_enter());
        let wake = item.enter();
        assert_ne!(item.stage, 0);
        assert_eq!(item.stage, stage + 1);
        assert_eq!(wake == Wake::First, stage == 0);
        assert_eq!(item.signal, 1);
    }
}

#[test]
fn no_hart_may_enter_a_slot_that_is_neither_idle_nor_started() {
    for stage in [2, 3, 9, u32::MAX] {
        let item = ItemPerHart { stage, signal: 0 };
        assert!(!item.may_enter());
        assert!(!item.wait_start());
    }
    assert!(ItemPerHart { stage: 2, signal: 0 }.wait_resume());
}

#[test]
fn waits_tell_the_stages_apart() {
    assert!(ItemPerHart { stage: 1, signal: 0 }.wait_start());
    assert!(!ItemPerHart { stage: 1, signal: 0 }.wait_resume());
    assert!(ItemPerHart { stage: 2, signal: 0 }.wait_resume());
    assert!(!ItemPerHart { stage: 2, signal: 0 }.wait_start());
    assert!(!ItemPerHart { stage: 0, signal: 1 }.wait_start());
    assert!(!ItemPerHart { stage: 0, signal: 1 }.wait_resume());
}

#[test]
fn a_hart_enters_twice_and_no_more() {
    let slot = SharedItem::new();
    assert_eq!(slot.enter(), Some(Wake::First));
    assert!(slot.wait_start());
    assert!(!slot.wait_resume());
    assert_eq!(slot.enter(), Some(Wake::Second));
    assert!(!slot.wait_start());
    assert!(slot.wait_resume());
    slot.send_signal();
    assert_eq!(slot.enter(), None);
    assert_eq!(slot.snapshot(), ItemPerHart { stage: 2, signal: 1 });
    assert_eq!(slot.enter(), None);
    assert_eq!(slot.snapshot(), ItemPerHart { stage: 2, signal: 1 });
}

#[test]
fn reset_makes_the_slot_idle_again() {
    let mut item = ItemPerHart { stage: 2, signal: 1 };
    item.reset();
    assert_eq!(item, ItemPerHart { stage: 0, signal: 1 });
    let mut slot = SharedItem::new();
    assert_eq!(slot.enter(), Some(Wake::First));
    assert_eq!(slot.enter(), Some(Wake::Second));
    slot.reset();
    assert!(!slot.wait_start());
    assert!(!slot.wait_resume());
    assert_eq!(slot.enter(), Some(Wake::First));
    assert!(slot.wait_start());
}

#[test]
fn a_signal_is_taken_once() {
    let mut item = ItemPerHart::new();
    item.send_signal();
    assert_eq!(item, ItemPerHart { stage: 0, signal: 1 });
    assert!(item.wait_signal());
    assert_eq!(item, ItemPerHart { stage: 0, signal: 0 });
    assert!(!item.wait_signal());
    let slot = SharedItem::new();
    slot.send_signal();
    assert_eq!(slot.snapshot().signal, 1);
    assert!(slot.wait_signal());
    assert!(!slot.wait_signal());
    slot.send_signal();
    slot.send_signal();
    assert!(slot.wait_signal());
    assert!(!slot.wait_signal());
}

#[test]
fn only_the_set_signal_is_taken() {
    for signal in [0, 2, 3, u32::MAX] {
        let mut item = ItemPerHart { stage: 1, signal };
        assert!(!item.wait_signal());
        assert_eq!(item, ItemPerHart { stage: 1, signal });
    }
}

#[test]
fn reset_leaves_a_pending_signal() {
    let mut slot = SharedItem::new();
    slot.send_signal();
    slot.reset();
    assert!(slot.wait_signal());
}

#[test]
fn the_shared_slot_does_what_the_values_say() {
    let steps: [u8; 14] = [0, 2, 3, 1, 3, 3, 2, 1, 1, 0, 1, 2, 2, 3];
    let mut item = ItemPerHart::new();
    let mut slot = SharedItem::new();
    for step in steps {
        match step {
            0 => {
                item.reset();
                slot.reset();
            }
            1 => {
                let entered = if item.may_enter() { Some(item.enter()) } else { None };
                assert_eq!(slot.enter(), entered);
            }
            2 => {
                item.send_signal();
                slot.send_signal();
            }
            _ => assert_eq!(slot.wait_signal(), item.wait_signal()),
        }
        assert_eq!(slot.snapshot(), item);
        assert_eq!(slot.wait_start(), item.wait_start());
        assert_eq!(slot.wait_resume(), item.wait_resume());
    }
}
