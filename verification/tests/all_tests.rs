use sbi_testing::base::{ExtensionInfo, Extensions, Identity, Version};
use sbi_testing::harness::Answers;
use sbi_testing::sbi::SbiRet;
use sbi_testing::trap::{Interrupt, Trap};
use sbi_testing::{base, hsm, spi, time, Testing};

fn ok(value: usize) -> hsm::Reply {
    hsm::Reply::Ret(SbiRet { error: 0, value })
}

fn good_base() -> Vec<base::Reply> {
    let present = ExtensionInfo { raw: 1 };
    vec![
        base::Reply::Probed(present),
        base::Reply::Identity(Identity {
            spec_version: Version { raw: 0x0200_0000 },
            impl_id: 1,
            impl_version: 1,
            extensions: Extensions {
                time: present,
                spi: present,
                rfnc: present,
                hsm: present,
                srst: present,
                pmu: present,
            },
            mvendorid: 0,
            marchid: 0,
            mimpid: 0,
        }),
    ]
}

fn good_time() -> Vec<time::Reply> {
    vec![
        time::Reply::Probed(true),
        time::Reply::Readings { begin: 1, end: 2 },
        time::Reply::Time(3),
        time::Reply::Trapped(Trap::Interrupt(Interrupt::SupervisorTimer)),
        time::Reply::Done,
    ]
}

fn good_spi() -> Vec<spi::Reply> {
    vec![spi::Reply::Probed(true), spi::Reply::Trapped(Trap::Interrupt(Interrupt::SupervisorSoft))]
}

/// The answers of a firmware that takes hart 1 through its whole test.
fn good_hsm() -> Vec<hsm::Reply> {
    vec![
        hsm::Reply::Probed(true),
        ok(1),
        hsm::Reply::Done,
        ok(0),
        ok(0),
        hsm::Reply::Done,
        hsm::Reply::Done,
        ok(4),
        ok(0),
        ok(0),
        hsm::Reply::Done,
        hsm::Reply::Done,
        ok(4),
        hsm::Reply::Done,
        ok(0),
        ok(1),
    ]
}

fn settings() -> Testing {
    Testing { hartid: 0, hart_mask: 0b10, hart_mask_base: 0, delay: 1000 }
}

fn answers() -> Answers {
    Answers { base: good_base(), time: good_time(), spi: good_spi(), hsm: good_hsm() }
}

#[test]
fn a_good_firmware_passes() {
    let report = sbi_testing::hsm::test(0, 0b10, 0, &good_hsm());
    assert_eq!(report.outcome, Some(hsm::Outcome::Pass));
    assert!(hsm::event::passed(&report.events));
    assert!(settings().test(&answers()));
}

#[test]
fn no_stopped_hart_is_no_failure() {
    let mut given = answers();
    given.hsm = vec![hsm::Reply::Probed(true), ok(0)];
    let report = sbi_testing::hsm::test(0, 0b10, 0, &given.hsm);
    assert_eq!(
        report.events,
        vec![hsm::Case::HartStartedBeforeTest(1), hsm::Case::NoStoppedHart]
    );
    assert!(settings().test(&given));
}

#[test]
fn an_unfinished_test_is_no_failure() {
    let mut given = answers();
    given.hsm = vec![hsm::Reply::Probed(true)];
    given.time = vec![];
    assert!(settings().test(&given));
}

#[test]
fn a_failing_timer_fails_the_whole() {
    let mut given = answers();
    given.time = vec![time::Reply::Probed(false)];
    assert!(!settings().test(&given));
    given.time = vec![time::Reply::Probed(true), time::Reply::Readings { begin: 2, end: 2 }];
    assert!(!settings().test(&given));
}

#[test]
fn a_failing_interrupt_fails_the_whole() {
    let mut given = answers();
    given.spi = vec![spi::Reply::Probed(true), spi::Reply::Trapped(Trap::Exception(2))];
    assert!(!settings().test(&given));
}

#[test]
fn a_failing_hart_start_fails_the_whole() {
    let mut given = answers();
    given.hsm = vec![
        hsm::Reply::Probed(true),
        ok(1),
        hsm::Reply::Done,
        hsm::Reply::Ret(SbiRet { error: usize::MAX, value: 0 }),
    ];
    assert!(!settings().test(&given));
    given.hsm = vec![hsm::Reply::Probed(false)];
    assert!(!settings().test(&given));
}

#[test]
fn the_settings_select_the_harts() {
    let mut other = settings();
    other.hart_mask = 0b100;
    let report = sbi_testing::hsm::test(other.hartid, other.hart_mask, other.hart_mask_base, &good_hsm());
    assert_eq!(report.events[0], hsm::Case::BatchBegin(vec![2]));
    other.hartid = 2;
    let mut given = answers();
    given.hsm = vec![hsm::Reply::Probed(true)];
    let report = sbi_testing::hsm::test(other.hartid, other.hart_mask, other.hart_mask_base, &given.hsm);
    assert_eq!(report.events, vec![hsm::Case::NoStoppedHart]);
    assert!(other.test(&given));
}

#[test]
fn fatal_events_are_failures() {
    let ret = SbiRet { error: 3, value: 0 };
    assert!(hsm::Case::NotExist.is_failure());
    assert!(hsm::Case::HartStartFailed { hartid: 1, ret }.is_failure());
    assert!(!hsm::Case::NoStoppedHart.is_failure());
    assert!(!hsm::Case::HartStartedBeforeTest(1).is_failure());
    assert!(!hsm::Case::BatchBegin(vec![1]).is_failure());
    assert!(!hsm::Case::BatchPass(vec![1]).is_failure());
    assert!(!hsm::Case::HartStopped(1).is_failure());
    assert!(hsm::Outcome::NotExist.is_fatal());
    assert!(hsm::Outcome::HartStartFailed { hartid: 1, ret }.is_fatal());
    assert!(!hsm::Outcome::Pass.is_fatal());
    assert!(!hsm::Outcome::NoStoppedHart.is_fatal());
    assert!(base::Case::NotExist.is_failure());
    assert!(!base::Case::Pass.is_failure());
    assert!(time::Case::ReadFailed.is_failure());
    assert!(time::Case::TimeDecreased { a: 1, b: 1 }.is_failure());
    assert!(!time::Case::SetTimer.is_failure());
    assert!(spi::Case::UnexpectedTrap(Trap::Exception(0)).is_failure());
    assert!(!spi::Case::SendIpi.is_failure());
}
