//! The scratch words of a hart under test, through which it and the controlling
//! hart keep in step.
use vstd::prelude::*;

verus! {

/// Stage word of a slot whose hart has not run yet.
pub const STAGE_IDLE: u32 = 0;

/// Stage word of a slot whose hart has run once.
pub const STAGE_STARTED: u32 = 1;

/// Stage word of a slot whose hart has come back from its first suspension.
pub const STAGE_RESUMED: u32 = 2;

/// Signal word of a slot whose hart has not been released.
pub const SIGNAL_CLEAR: u32 = 0;

/// Signal word of a slot whose hart is released and has not yet taken note.
pub const SIGNAL_SET: u32 = 1;

/// How far the hart that owns a slot has come.
#[derive(Clone, Copy, Debug, PartialEq, Eq, Structural)]
pub enum Stage {
    /// The slot was reset and its hart has not run yet.
    Idle,
    /// The hart entered for the first time.
    Started,
    /// The hart entered again after a suspension that kept no context.
    Resumed,
}

/// Which of its two passes a hart is in when it enters the test routine.
#[derive(Clone, Copy, Debug, PartialEq, Eq, Structural)]
pub enum Wake {
    /// First entry after a start request.
    First,
    /// Second entry, after the resume from the first suspension.
    Second,
}

/// The two suspensions that a hart under test asks for.
#[derive(Clone, Copy, Debug, PartialEq, Eq, Structural)]
pub enum SuspendKind {
    /// The hart loses its context and re-enters at the resume address.
    NonRetentive,
    /// The hart keeps its context and continues after the call.
    Retentive,
}

impl Stage {
    /// The value of the stage word that stands for this stage.
    pub open spec fn word_of(self) -> u32 {
        match self {
            Stage::Idle => STAGE_IDLE,
            Stage::Started => STAGE_STARTED,
            Stage::Resumed => STAGE_RESUMED,
        }
    }

    /// The stage that a stage word stands for, if any.
    pub open spec fn of_word(word: u32) -> Option<Stage> {
        if word == STAGE_IDLE {
            Some(Stage::Idle)
        } else if word == STAGE_STARTED {
            Some(Stage::Started)
        } else if word == STAGE_RESUMED {
            Some(Stage::Resumed)
        } else {
            None
        }
    }

    /// The stage that an entry of the hart leads to, if the hart may enter.
    pub open spec fn successor(self) -> Option<Stage> {
        match self {
            Stage::Idle => Some(Stage::Started),
            Stage::Started => Some(Stage::Resumed),
            Stage::Resumed => None,
        }
    }

    /// The stage reached from idle by `n` entries, an entry without a
    /// successor leaving the stage as it is.
    pub open spec fn after_entries(n: nat) -> Stage
        decreases n,
    {
        if n == 0 {
            Stage::Idle
        } else {
            match Stage::after_entries((n - 1) as nat).successor() {
                Some(next) => next,
                None => Stage::after_entries((n - 1) as nat),
            }
        }
    }

    /// Encodes the stage as a stage word.
    pub fn word(self) -> (word: u32)
        ensures
            word == self.word_of(),
            Stage::of_word(word) == Some(self),
    {
        match self {
            Stage::Idle => STAGE_IDLE,
            Stage::Started => STAGE_STARTED,
            Stage::Resumed => STAGE_RESUMED,
        }
    }

    /// Decodes a stage word.
    pub fn from_word(word: u32) -> (stage: Option<Stage>)
        ensures
            stage == Stage::of_word(word),
            stage matches Some(s) ==> s.word_of() == word,
    {
        if word == STAGE_IDLE {
            Some(Stage::Idle)
        } else if word == STAGE_STARTED {
            Some(Stage::Started)
        } else if word == STAGE_RESUMED {
            Some(Stage::Resumed)
        } else {
            None
        }
    }

    /// The stage that the next entry of the hart leads to.
    pub fn next(self) -> (next: Option<Stage>)
        ensures
            next == self.successor(),
    {
        match self {
            Stage::Idle => Some(Stage::Started),
            Stage::Started => Some(Stage::Resumed),
            Stage::Resumed => None,
        }
    }
}

/// Every entry moves the stage one step forward: the word grows by one, no
/// stage is skipped or taken twice, and none leads back to idle.
pub proof fn lemma_stage_steps_forward(stage: Stage)
    ensures
        stage.successor() matches Some(next) ==> next.word_of() == stage.word_of() + 1 && next
            != Stage::Idle,
        stage.successor() is None <==> stage == Stage::Resumed,
{
}

/// The stages of a slot after its reset run idle, started, resumed and stay
/// there.
pub proof fn lemma_stage_sequence(n: nat)
    ensures
        Stage::after_entries(n) == if n == 0 {
            Stage::Idle
        } else if n == 1 {
            Stage::Started
        } else {
            Stage::Resumed
        },
        n > 0 ==> Stage::after_entries(n) != Stage::Idle,
        n > 0 ==> Stage::after_entries(n).word_of() >= Stage::after_entries((n - 1) as nat).word_of(),
    decreases n,
{
    if n > 0 {
        lemma_stage_sequence((n - 1) as nat);
    }
}

impl Wake {
    /// The pass that a hart is in when it finds the stage word `seen` on
    /// entry: the first in an idle slot, the second in a started one. No hart
    /// may enter a slot in any other stage, which would be a slot still in use.
    pub open spec fn found(seen: u32) -> Option<Wake> {
        match Stage::of_word(seen) {
            Some(Stage::Idle) => Some(Wake::First),
            Some(Stage::Started) => Some(Wake::Second),
            _ => None,
        }
    }

    /// The stage that the hart leaves in the slot for this pass.
    pub open spec fn stage_after(self) -> Stage {
        match self {
            Wake::First => Stage::Started,
            Wake::Second => Stage::Resumed,
        }
    }

    /// The suspension that ends this pass.
    pub open spec fn suspension(self) -> SuspendKind {
        match self {
            Wake::First => SuspendKind::NonRetentive,
            Wake::Second => SuspendKind::Retentive,
        }
    }

    /// Tells the pass from the stage word that the hart found on entry, and
    /// `None` where no hart may enter: on every word but those of the idle and
    /// the started stage.
    pub fn select(seen: u32) -> (wake: Option<Wake>)
        ensures
            wake == Wake::found(seen),
            wake is Some <==> seen == STAGE_IDLE || seen == STAGE_STARTED,
            wake matches Some(pass) ==> Stage::of_word(seen) matches Some(stage) && stage.successor()
                == Some(pass.stage_after()),
    {
        match Stage::from_word(seen) {
            Some(Stage::Idle) => Some(Wake::First),
            Some(Stage::Started) => Some(Wake::Second),
            _ => None,
        }
    }

    /// The stage that the hart leaves in the slot for this pass.
    pub fn stage(self) -> (stage: Stage)
        ensures
            stage == self.stage_after(),
    {
        match self {
            Wake::First => Stage::Started,
            Wake::Second => Stage::Resumed,
        }
    }

    /// The suspension to request once the controller has released the hart:
    /// without retention on the first pass, with retention on the second.
    pub fn suspend_kind(self) -> (kind: SuspendKind)
        ensures
            kind == self.suspension(),
    {
        match self {
            Wake::First => SuspendKind::NonRetentive,
            Wake::Second => SuspendKind::Retentive,
        }
    }

    /// Whether the hart asks to be stopped when its suspension returns, which
    /// it does at the end of the second pass.
    pub fn stops_after(self) -> (stops: bool)
        ensures
            stops == (self == Wake::Second),
    {
        match self {
            Wake::Second => true,
            Wake::First => false,
        }
    }
}

/// Whether a hart may enter a slot whose stage word reads `stage`.
pub open spec fn may_enter(stage: u32) -> bool {
    stage == STAGE_IDLE || stage == STAGE_STARTED
}

/// The stage word that an entry of the hart leaves behind where it found
/// `stage`: the word of the next stage. Where no hart may enter, the word
/// stays as it is.
pub open spec fn entered(stage: u32) -> u32 {
    match Wake::found(stage) {
        Some(pass) => pass.stage_after().word_of(),
        None => stage,
    }
}

/// The stage word after `n` entries, or as many of them as there may be, into
/// a slot that held `stage`.
pub open spec fn entered_times(stage: u32, n: nat) -> u32
    decreases n,
{
    if n == 0 {
        stage
    } else {
        entered(entered_times(stage, (n - 1) as nat))
    }
}

/// An entry never leaves a slot idle, never lowers the stage word and raises
/// it by exactly one; a hart may enter exactly where there is a pass for the
/// stage found.
pub proof fn lemma_entry_moves_forward(stage: u32)
    ensures
        entered(stage) != STAGE_IDLE,
        may_enter(stage) <==> Wake::found(stage) is Some,
        may_enter(stage) ==> entered(stage) == stage + 1,
        !may_enter(stage) ==> entered(stage) == stage,
{
}

/// From its reset on, the stage word of a slot reads idle, then started, then
/// resumed: no stage is skipped, none comes twice, and none leads back to
/// idle. After two entries no further entry may be made.
pub proof fn lemma_stage_word_sequence(n: nat)
    ensures
        entered_times(STAGE_IDLE, n) == if n == 0 {
            STAGE_IDLE
        } else if n == 1 {
            STAGE_STARTED
        } else {
            STAGE_RESUMED
        },
        Stage::of_word(entered_times(STAGE_IDLE, n)) == Some(Stage::after_entries(n)),
        may_enter(entered_times(STAGE_IDLE, n)) <==> n < 2,
    decreases n,
{
    if n > 0 {
        lemma_stage_word_sequence((n - 1) as nat);
        lemma_stage_sequence((n - 1) as nat);
    }
}

/// The two words of one scratch slot, as values: the stage that the slot's
/// hart has reached and the signal by which the controller releases it.
#[derive(Clone, Copy, Debug, PartialEq, Eq, Structural)]
pub struct ItemPerHart {
    /// The stage word.
    pub stage: u32,
    /// The signal word.
    pub signal: u32,
}

impl ItemPerHart {
    /// A slot in the idle stage with no signal pending.
    pub fn new() -> (item: ItemPerHart)
        ensures
            item == (ItemPerHart { stage: STAGE_IDLE, signal: SIGNAL_CLEAR }),
    {
        ItemPerHart { stage: STAGE_IDLE, signal: SIGNAL_CLEAR }
    }

    /// Puts the slot back into the idle stage, right before its hart is
    /// started. The signal is left as it is.
    pub fn reset(&mut self)
        ensures
            final(self).stage == STAGE_IDLE,
            final(self).signal == old(self).signal,
    {
        self.stage = Stage::Idle.word();
    }

    /// Whether the hart has entered for the first time and not yet again: one
    /// poll of the controller's wait, which has no timeout.
    pub fn wait_start(&self) -> (reached: bool)
        ensures
            reached == (self.stage == STAGE_STARTED),
    {
        self.stage == Stage::Started.word()
    }

    /// Whether the hart has entered for the second time: one poll of the
    /// controller's wait, which has no timeout.
    pub fn wait_resume(&self) -> (reached: bool)
        ensures
            reached == (self.stage == STAGE_RESUMED),
    {
        self.stage == Stage::Resumed.word()
    }

    /// Releases the hart to go on to its suspension.
    pub fn send_signal(&mut self)
        ensures
            final(self).signal == SIGNAL_SET,
            final(self).stage == old(self).stage,
    {
        self.signal = SIGNAL_SET;
    }

    /// Takes the signal if it is pending: one poll of the hart's wait, which
    /// has no timeout. A signal is taken once.
    pub fn wait_signal(&mut self) -> (taken: bool)
        ensures
            taken == (old(self).signal == SIGNAL_SET),
            final(self).signal == if taken {
                SIGNAL_CLEAR
            } else {
                old(self).signal
            },
            final(self).stage == old(self).stage,
    {
        if self.signal == SIGNAL_SET {
            self.signal = SIGNAL_CLEAR;
            true
        } else {
            false
        }
    }

    /// The hart's entry: tells which pass this is from the stage found and
    /// moves the stage one step forward. A hart enters an idle or a started
    /// slot only; any other stage means that the slot is still in use.
    pub fn enter(&mut self) -> (wake: Wake)
        requires
            may_enter(old(self).stage),
        ensures
            Wake::found(old(self).stage) == Some(wake),
            wake == Wake::First <==> old(self).stage == STAGE_IDLE,
            final(self).stage == entered(old(self).stage),
            final(self).stage == old(self).stage + 1,
            final(self).stage != STAGE_IDLE,
            final(self).signal == old(self).signal,
    {
        let wake: Wake = if self.stage == Stage::Idle.word() {
            Wake::First
        } else {
            Wake::Second
        };
        self.stage = wake.stage().word();
        wake
    }

    /// Whether a hart may enter the slot as it stands.
    pub fn may_enter(&self) -> (may: bool)
        ensures
            may == may_enter(self.stage),
    {
        Wake::select(self.stage).is_some()
    }
}

} // verus!
