//! All four tests in a row, and the verdict over them.
use crate::base;
use crate::hsm;
use crate::spi;
use crate::time;
use vstd::prelude::*;

verus! {

/// The settings of a run of all tests.
#[derive(Clone, Copy, Debug, PartialEq, Eq, Structural)]
pub struct Testing {
    /// The hart that runs the tests and is interrupted in the single-hart tests.
    pub hartid: usize,
    /// The harts to test hart state management on, one bit each.
    pub hart_mask: usize,
    /// The hart that bit 0 of `hart_mask` stands for.
    pub hart_mask_base: usize,
    /// How long after the clock is read the timer is to fire.
    pub delay: u64,
}

/// The recorded answers of the firmware to the four tests.
pub struct Answers {
    /// Answers to the base extension test.
    pub base: Vec<base::Reply>,
    /// Answers to the timer test.
    pub time: Vec<time::Reply>,
    /// Answers to the inter-processor interrupt test.
    pub spi: Vec<spi::Reply>,
    /// Answers to the hart state management test.
    pub hsm: Vec<hsm::Reply>,
}

impl Testing {
    /// Whether the firmware that gave `answers` passes: no event of the timer
    /// test, the interrupt test or the hart state management test reports a
    /// failure.
    pub open spec fn passes(self, answers: Answers) -> bool {
        &&& time::passes(time::run(time::State::initial(self.delay), answers.time@).1)
        &&& spi::passes(spi::run(spi::State::initial(self.hartid), answers.spi@).1)
        &&& hsm::event::passes(
            hsm::run::run(
                hsm::State::initial(self.hartid, self.hart_mask, self.hart_mask_base),
                answers.hsm@,
            ).1,
        )
    }

    /// Judges recorded answers to the four tests. The base extension has to be
    /// present: without it nothing else can be asked of the firmware.
    pub fn test(self, answers: &Answers) -> (result: bool)
        requires
            base::passes(base::run(base::Phase::Probe, answers.base@).1),
        ensures
            result == self.passes(*answers),
    {
        let time_report = time::test(self.delay, &answers.time);
        let spi_report = spi::test(self.hartid, &answers.spi);
        let hsm_report = hsm::test(self.hartid, self.hart_mask, self.hart_mask_base, &answers.hsm);
        let time_ok: bool = time::passed(&time_report.events);
        let spi_ok: bool = spi::passed(&spi_report.events);
        let hsm_ok: bool = hsm::event::passed(&hsm_report.events);
        time_ok && spi_ok && hsm_ok
    }
}

/// The verdict over all tests is a pass exactly when no event of the timer test
/// and none of the interrupt test reports a failure and the hart state
/// management run has not ended on a fatal outcome: a run that passed every
/// batch, whatever the harts and however they were cut into batches, counts as
/// a pass, and so does one that found no stopped hart.
pub proof fn lemma_verdict(settings: Testing, answers: Answers)
    ensures
        ({
            let ended = hsm::run::run(
                hsm::State::initial(settings.hartid, settings.hart_mask, settings.hart_mask_base),
                answers.hsm@,
            ).0.outcome;
            settings.passes(answers) <==> time::passes(
                time::run(time::State::initial(settings.delay), answers.time@).1,
            ) && spi::passes(spi::run(spi::State::initial(settings.hartid), answers.spi@).1) && !(
            ended is Some && ended->0.fatal())
        }),
{
    hsm::laws::lemma_only_fatal_runs_fail(
        settings.hartid,
        settings.hart_mask,
        settings.hart_mask_base,
        answers.hsm@,
    );
}

} // verus!
