//! Base extension: what the firmware says about itself.
use vstd::prelude::*;
use vstd::string::StringExecFns;

verus! {

/// What a probe of an extension returned.
#[derive(Clone, Copy, Debug, PartialEq, Eq, Structural)]
pub struct ExtensionInfo {
    /// The value returned: zero for an absent extension.
    pub raw: usize,
}

/// A version of the binary interface, as the firmware encodes it.
#[derive(Clone, Copy, Debug, PartialEq, Eq, Structural)]
pub struct Version {
    /// Major number in bits 24 to 30, minor number in bits 0 to 23.
    pub raw: usize,
}

/// What the probes of the six standard extensions returned.
#[derive(Clone, Copy, Debug, PartialEq, Eq, Structural)]
pub struct Extensions {
    /// Timer.
    pub time: ExtensionInfo,
    /// Inter-processor interrupt.
    pub spi: ExtensionInfo,
    /// Remote fence.
    pub rfnc: ExtensionInfo,
    /// Hart state management.
    pub hsm: ExtensionInfo,
    /// System reset.
    pub srst: ExtensionInfo,
    /// Performance monitoring.
    pub pmu: ExtensionInfo,
}

/// Everything that the firmware is asked about itself.
#[derive(Clone, Copy, Debug, PartialEq, Eq, Structural)]
pub struct Identity {
    /// Version of the binary interface that the firmware implements.
    pub spec_version: Version,
    /// Number of the implementation.
    pub impl_id: usize,
    /// Version of the implementation, in its own encoding.
    pub impl_version: usize,
    /// Which of the standard extensions are present.
    pub extensions: Extensions,
    /// Machine vendor id.
    pub mvendorid: usize,
    /// Machine architecture id.
    pub marchid: usize,
    /// Machine implementation id.
    pub mimpid: usize,
}

/// One reported event of a base extension test.
#[derive(Clone, Copy, Debug, PartialEq, Eq)]
pub enum Case {
    /// The firmware does not offer the base extension.
    NotExist,
    /// The test has begun.
    Begin,
    /// The test passed.
    Pass,
    /// Version of the binary interface that the firmware implements.
    GetSbiSpecVersion(Version),
    /// Name of the implementation, or its number where it has no known name.
    GetSbiImplId(Result<&'static str, usize>),
    /// Version of the implementation.
    GetSbiImplVersion(usize),
    /// Which of the standard extensions are present.
    ProbeExtensions(Extensions),
    /// Machine vendor id.
    GetMVendorId(usize),
    /// Machine architecture id.
    GetMArchId(usize),
    /// Machine implementation id.
    GetMimpId(usize),
}

/// Where a test stands.
#[derive(Clone, Copy, Debug, PartialEq, Eq, Structural)]
pub enum Phase {
    /// Asking whether the firmware offers the base extension.
    Probe,
    /// Asking the firmware about itself.
    Read,
    /// The test is over.
    Finished,
}

/// What the embedding program is asked to do next.
#[derive(Clone, Copy, Debug, PartialEq, Eq, Structural)]
pub enum Request {
    /// Probe the base extension; answer with `Reply::Probed`.
    ProbeExtension,
    /// Query versions, ids and the standard extensions; answer with
    /// `Reply::Identity`.
    ReadIdentity,
    /// Nothing: the test is over.
    Done,
}

/// What came back from carrying out a [`Request`].
#[derive(Clone, Copy, Debug, PartialEq, Eq, Structural)]
pub enum Reply {
    /// What the probe returned.
    Probed(ExtensionInfo),
    /// What the firmware says about itself.
    Identity(Identity),
}

/// Reads `sbi_spec::base::impl_id::BBL`, declared as 0.
#[verifier::external_body]
fn impl_id_bbl() -> (id: usize)
    ensures
        id == 0,
{
    sbi_spec::base::impl_id::BBL
}

/// Reads `sbi_spec::base::impl_id::OPEN_SBI`, declared as 1.
#[verifier::external_body]
fn impl_id_open_sbi() -> (id: usize)
    ensures
        id == 1,
{
    sbi_spec::base::impl_id::OPEN_SBI
}

/// Reads `sbi_spec::base::impl_id::XVISOR`, declared as 2.
#[verifier::external_body]
fn impl_id_xvisor() -> (id: usize)
    ensures
        id == 2,
{
    sbi_spec::base::impl_id::XVISOR
}

/// Reads `sbi_spec::base::impl_id::KVM`, declared as 3.
#[verifier::external_body]
fn impl_id_kvm() -> (id: usize)
    ensures
        id == 3,
{
    sbi_spec::base::impl_id::KVM
}

/// Reads `sbi_spec::base::impl_id::RUST_SBI`, declared as 4.
#[verifier::external_body]
fn impl_id_rust_sbi() -> (id: usize)
    ensures
        id == 4,
{
    sbi_spec::base::impl_id::RUST_SBI
}

/// Reads `sbi_spec::base::impl_id::DIOSIX`, declared as 5.
#[verifier::external_body]
fn impl_id_diosix() -> (id: usize)
    ensures
        id == 5,
{
    sbi_spec::base::impl_id::DIOSIX
}

/// Reads `sbi_spec::base::impl_id::COFFER`, declared as 6.
#[verifier::external_body]
fn impl_id_coffer() -> (id: usize)
    ensures
        id == 6,
{
    sbi_spec::base::impl_id::COFFER
}

/// The name of the implementation with the given number, or the number where
/// the implementation has no known name.
pub open spec fn impl_name_of(id: usize) -> Result<&'static str, usize> {
    if id == 0 {
        Ok("BBL")
    } else if id == 1 {
        Ok("OpenSBI")
    } else if id == 2 {
        Ok("Xvisor")
    } else if id == 3 {
        Ok("KVM")
    } else if id == 4 {
        Ok("RustSBI")
    } else if id == 5 {
        Ok("Diosix")
    } else if id == 6 {
        Ok("Coffer")
    } else {
        Err(id)
    }
}

/// Names an implementation by its number.
pub fn impl_name(id: usize) -> (name: Result<&'static str, usize>)
    ensures
        name == impl_name_of(id),
{
    if id == impl_id_bbl() {
        Ok("BBL")
    } else if id == impl_id_open_sbi() {
        Ok("OpenSBI")
    } else if id == impl_id_xvisor() {
        Ok("Xvisor")
    } else if id == impl_id_kvm() {
        Ok("KVM")
    } else if id == impl_id_rust_sbi() {
        Ok("RustSBI")
    } else if id == impl_id_diosix() {
        Ok("Diosix")
    } else if id == impl_id_coffer() {
        Ok("Coffer")
    } else {
        Err(id)
    }
}

impl ExtensionInfo {
    /// Whether the probe found the extension.
    pub open spec fn available(self) -> bool {
        self.raw != 0
    }

    /// Returns `true` when the probe found the extension.
    pub fn is_available(&self) -> (r: bool)
        ensures
            r == self.available(),
    {
        self.raw != 0
    }

    /// Returns `true` when the probe did not find the extension.
    pub fn is_unavailable(&self) -> (r: bool)
        ensures
            r == !self.available(),
    {
        self.raw == 0
    }
}

/// `name` where `present` holds, nothing otherwise.
pub open spec fn listed(present: bool, name: Seq<char>) -> Seq<char> {
    if present {
        name
    } else {
        Seq::empty()
    }
}

/// Appends `name` to `text` where `present` holds.
fn list(text: &mut String, present: bool, name: &str)
    ensures
        final(text)@ == old(text)@ + listed(present, name@),
{
    if present {
        text.append(name);
    } else {
        assert(text@ + Seq::<char>::empty() =~= text@);
    }
}

impl Extensions {
    /// The list of the extensions present, the base extension first.
    pub open spec fn text(self) -> Seq<char> {
        "[Base"@ + listed(self.time.available(), ", TIME"@) + listed(
            self.spi.available(),
            ", sPI"@,
        ) + listed(self.rfnc.available(), ", RFNC"@) + listed(self.hsm.available(), ", HSM"@)
            + listed(self.srst.available(), ", SRST"@) + listed(self.pmu.available(), ", PMU"@)
            + "]"@
    }

    /// Writes the list of the extensions present, such as `[Base, TIME, HSM]`.
    pub fn to_string(&self) -> (text: String)
        ensures
            text@ == self.text(),
    {
        let mut text: String = String::from_str("[Base");
        list(&mut text, self.time.is_available(), ", TIME");
        list(&mut text, self.spi.is_available(), ", sPI");
        list(&mut text, self.rfnc.is_available(), ", RFNC");
        list(&mut text, self.hsm.is_available(), ", HSM");
        list(&mut text, self.srst.is_available(), ", SRST");
        list(&mut text, self.pmu.is_available(), ", PMU");
        text.append("]");
        text
    }
}

impl Case {
    /// Whether the event reports a failure of the firmware.
    pub open spec fn failure(self) -> bool {
        self is NotExist
    }

    /// Returns `true` when the event reports a failure of the firmware.
    pub fn is_failure(&self) -> (r: bool)
        ensures
            r == self.failure(),
    {
        match self {
            Case::NotExist => true,
            _ => false,
        }
    }
}

/// The events that report what the firmware says about itself, and the pass.
pub open spec fn identity_events(identity: Identity) -> Seq<Case> {
    seq![
        Case::GetSbiSpecVersion(identity.spec_version),
        Case::GetSbiImplId(impl_name_of(identity.impl_id)),
        Case::GetSbiImplVersion(identity.impl_version),
        Case::ProbeExtensions(identity.extensions),
        Case::GetMVendorId(identity.mvendorid),
        Case::GetMArchId(identity.marchid),
        Case::GetMimpId(identity.mimpid),
        Case::Pass,
    ]
}

/// The state after `reply` in `phase`, and the events to report for it. A
/// reply that does not answer the pending request changes nothing.
pub open spec fn step(phase: Phase, reply: Reply) -> (Phase, Seq<Case>) {
    match (phase, reply) {
        (Phase::Probe, Reply::Probed(info)) => {
            if info.available() {
                (Phase::Read, seq![Case::Begin])
            } else {
                (Phase::Finished, seq![Case::NotExist])
            }
        },
        (Phase::Read, Reply::Identity(identity)) => (Phase::Finished, identity_events(identity)),
        _ => (phase, Seq::empty()),
    }
}

/// What a test waits for in `phase`.
pub open spec fn request_of(phase: Phase) -> Request {
    match phase {
        Phase::Probe => Request::ProbeExtension,
        Phase::Read => Request::ReadIdentity,
        Phase::Finished => Request::Done,
    }
}

/// The phase that a test comes to when it is fed `replies` in order from
/// `phase`, and the events reported on the way.
pub open spec fn run(phase: Phase, replies: Seq<Reply>) -> (Phase, Seq<Case>)
    decreases replies.len(),
{
    if replies.len() == 0 {
        (phase, Seq::empty())
    } else {
        let (reached, before) = run(phase, replies.drop_last());
        let (next, now) = step(reached, replies.last());
        (next, before + now)
    }
}

/// One base extension test.
pub struct Engine {
    phase: Phase,
}

impl View for Engine {
    type V = Phase;

    closed spec fn view(&self) -> Phase {
        self.phase
    }
}

impl Engine {
    /// Begins a test.
    pub fn new() -> (engine: Engine)
        ensures
            engine@ == Phase::Probe,
    {
        Engine { phase: Phase::Probe }
    }

    /// What to do next.
    pub fn request(&self) -> (request: Request)
        ensures
            request == request_of(self@),
    {
        match self.phase {
            Phase::Probe => Request::ProbeExtension,
            Phase::Read => Request::ReadIdentity,
            Phase::Finished => Request::Done,
        }
    }

    /// Takes the answer to the pending request, moves on, and returns the
    /// events to report. A reply of the wrong kind is ignored.
    pub fn advance(&mut self, reply: Reply) -> (events: Vec<Case>)
        ensures
            final(self)@ == step(old(self)@, reply).0,
            events@ == step(old(self)@, reply).1,
    {
        let mut events: Vec<Case> = Vec::new();
        match (self.phase, reply) {
            (Phase::Probe, Reply::Probed(info)) => {
                if info.is_available() {
                    self.phase = Phase::Read;
                    events.push(Case::Begin);
                } else {
                    self.phase = Phase::Finished;
                    events.push(Case::NotExist);
                }
            },
            (Phase::Read, Reply::Identity(identity)) => {
                self.phase = Phase::Finished;
                events.push(Case::GetSbiSpecVersion(identity.spec_version));
                events.push(Case::GetSbiImplId(impl_name(identity.impl_id)));
                events.push(Case::GetSbiImplVersion(identity.impl_version));
                events.push(Case::ProbeExtensions(identity.extensions));
                events.push(Case::GetMVendorId(identity.mvendorid));
                events.push(Case::GetMArchId(identity.marchid));
                events.push(Case::GetMimpId(identity.mimpid));
                events.push(Case::Pass);
            },
            _ => {},
        }
        assert(events@ =~= step(old(self)@, reply).1);
        events
    }
}

/// Whether none of the events reports a failure.
pub open spec fn passes(events: Seq<Case>) -> bool {
    forall|k: int| 0 <= k < events.len() ==> !(#[trigger] events[k]).failure()
}

/// Returns `true` when none of the events reports a failure.
pub fn passed(events: &Vec<Case>) -> (r: bool)
    ensures
        r == passes(events@),
{
    let mut k: usize = 0;
    while k < events.len()
        invariant
            k <= events.len(),
            passes(events@.take(k as int)),
        decreases events.len() - k,
    {
        if events[k].is_failure() {
            return false;
        }
        assert forall|j: int| 0 <= j < k + 1 implies !(#[trigger] events@.take(k + 1)[j]).failure() by {
            if j < k {
                assert(events@.take(k as int)[j] == events@[j]);
            }
        }
        k += 1;
    }
    assert(events@.take(k as int) =~= events@);
    true
}

/// What a test has come to.
pub struct Report {
    /// The events reported so far, in order.
    pub events: Vec<Case>,
    /// What the test waits for.
    pub request: Request,
}

/// Runs a base extension test against recorded answers: the report holds every
/// event in order and the request that the next reply would have to answer.
pub fn test(replies: &Vec<Reply>) -> (report: Report)
    ensures
        report.events@ == run(Phase::Probe, replies@).1,
        report.request == request_of(run(Phase::Probe, replies@).0),
{
    let mut engine: Engine = Engine::new();
    let mut events: Vec<Case> = Vec::new();
    let mut i: usize = 0;
    assert(replies@.take(0) =~= Seq::<Reply>::empty());
    while i < replies.len()
        invariant
            i <= replies.len(),
            engine@ == run(Phase::Probe, replies@.take(i as int)).0,
            events@ == run(Phase::Probe, replies@.take(i as int)).1,
        decreases replies.len() - i,
    {
        let mut fresh: Vec<Case> = engine.advance(replies[i]);
        events.append(&mut fresh);
        proof {
            assert(replies@.take(i + 1).drop_last() =~= replies@.take(i as int));
            assert(replies@.take(i + 1).last() == replies@[i as int]);
        }
        i += 1;
    }
    assert(replies@.take(i as int) =~= replies@);
    Report { events, request: engine.request() }
}

} // verus!
