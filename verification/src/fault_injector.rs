//! Injection of Byzantine faults for resilience testing, and the counters
//! of what was injected.

use vstd::prelude::*;
use crate::bytes::push_bytes;
use crate::crypto::{blake3_digest, hash};
use crate::random::{random_below, random_u64};
use crate::text::{decimal, decimal_chars, push_decimal, push_text};
use crate::types::{Event, ValidatorId, Vertex};

verus! {

/// A fault that a Byzantine validator shows.
#[derive(Debug, Clone, Copy, PartialEq, Eq, Structural)]
pub enum FaultType {
    /// The validator does not send its messages.
    MessageDrop,
    /// The validator delays its messages by the given time.
    MessageDelay(u64),
    /// The validator sends conflicting messages.
    Equivocation,
    /// The validator takes ten times as long to respond.
    SlowResponse,
    /// The validator goes offline at random.
    RandomCrash,
}

/// The number of outcomes of a roll; a fault probability is a number of
/// outcomes out of these.
pub const ROLL_RANGE: u64 = 1_000_000;

/// The time after which the system is taken to have recovered from a
/// fault, in microseconds.
pub const RECOVERY_TIME_MICROS: u64 = 500_000;

/// What becomes of a message under a fault: a dropped message is lost; a
/// delayed or slowed one goes on with its fault; any other fault drops it
/// in effect.
pub open spec fn faulted(event: Event, fault: FaultType) -> Option<(Event, FaultType)> {
    match fault {
        FaultType::MessageDrop => None,
        FaultType::MessageDelay(delay) => Some((event, FaultType::MessageDelay(delay))),
        FaultType::SlowResponse => Some((event, FaultType::SlowResponse)),
        _ => Some((event, FaultType::MessageDrop)),
    }
}

/// Computes `faulted`.
pub fn apply_fault_of(event: Event, fault: FaultType) -> (r: Option<(Event, FaultType)>)
    ensures
        r == faulted(event, fault),
{
    match fault {
        FaultType::MessageDrop => None,
        FaultType::MessageDelay(delay) => Some((event, FaultType::MessageDelay(delay))),
        FaultType::SlowResponse => Some((event, FaultType::SlowResponse)),
        _ => Some((event, FaultType::MessageDrop)),
    }
}

/// The characters of the payload label of an equivocating vertex as bytes.
pub open spec fn ascii_bytes(chars: Seq<char>) -> Seq<u8> {
    Seq::new(chars.len(), |i: int| chars[i] as u8)
}

/// What the batch hash of an equivocating vertex is the digest of: a label
/// and the decimal numeral of the nonce.
pub open spec fn equivocation_payload(nonce: u64) -> Seq<u8> {
    ascii_bytes("BYZANTINE_PAYLOAD_"@ + decimal(nonce as nat))
}

/// The faults that a set of Byzantine validators injects.
pub struct FaultInjector {
    byzantine_nodes: Vec<ValidatorId>,
    /// The number of rolls out of `ROLL_RANGE` on which a message of a
    /// Byzantine validator is intercepted.
    fault_rate: u64,
    active_faults: Vec<FaultType>,
}

impl FaultInjector {
    #[verifier::type_invariant]
    spec fn inv(self) -> bool {
        self.active_faults@ == seq![
            FaultType::MessageDrop,
            FaultType::MessageDelay(100_000),
            FaultType::SlowResponse,
        ]
    }

    /// The Byzantine validators.
    pub closed spec fn byzantine(&self) -> Seq<ValidatorId> {
        self.byzantine_nodes@
    }

    /// The number of rolls out of `ROLL_RANGE` that intercept.
    pub closed spec fn rate(&self) -> u64 {
        self.fault_rate
    }

    /// The faults that are injected: dropping, delaying by 100 ms, and
    /// slowing down.
    pub open spec fn active_faults() -> Seq<FaultType> {
        seq![FaultType::MessageDrop, FaultType::MessageDelay(100_000), FaultType::SlowResponse]
    }

    /// An injector for the given Byzantine validators that intercepts
    /// `fault_rate` out of `ROLL_RANGE` of their messages.
    pub fn new(byzantine_nodes: Vec<ValidatorId>, fault_rate: u64) -> (inj: Self)
        ensures
            inj.byzantine() == byzantine_nodes@,
            inj.rate() == fault_rate,
    {
        let mut active_faults: Vec<FaultType> = Vec::new();
        active_faults.push(FaultType::MessageDrop);
        active_faults.push(FaultType::MessageDelay(100_000));
        active_faults.push(FaultType::SlowResponse);
        assert(active_faults@ =~= seq![
            FaultType::MessageDrop,
            FaultType::MessageDelay(100_000),
            FaultType::SlowResponse,
        ]);
        FaultInjector { byzantine_nodes, fault_rate, active_faults }
    }

    /// Whether `validator_id` is Byzantine.
    pub fn is_byzantine(&self, validator_id: ValidatorId) -> (r: bool)
        ensures
            r == self.byzantine().contains(validator_id),
    {
        let mut i: usize = 0;
        while i < self.byzantine_nodes.len()
            invariant
                i <= self.byzantine_nodes.len(),
                forall|k: int| 0 <= k < i ==> self.byzantine_nodes@[k] != validator_id,
            decreases self.byzantine_nodes.len() - i,
        {
            if self.byzantine_nodes[i] == validator_id {
                return true;
            }
            i = i + 1;
        }
        false
    }

    /// Decides whether a message of `validator_id` is intercepted on the
    /// given roll: the validator is Byzantine and the roll is below the
    /// fault rate.
    pub fn intercepts_on(&self, validator_id: ValidatorId, roll: u64) -> (r: bool)
        ensures
            r == (self.byzantine().contains(validator_id) && roll < self.rate()),
    {
        self.is_byzantine(validator_id) && roll < self.fault_rate
    }

    /// Decides at random whether a message of `validator_id` is
    /// intercepted. A message of an honest validator never is.
    pub fn should_intercept(&self, validator_id: ValidatorId) -> (r: bool)
        ensures
            !self.byzantine().contains(validator_id) ==> !r,
            self.rate() == 0 ==> !r,
            self.byzantine().contains(validator_id) && self.rate() >= ROLL_RANGE ==> r,
    {
        if !self.is_byzantine(validator_id) {
            return false;
        }
        let roll: u64 = random_below(ROLL_RANGE);
        self.intercepts_on(validator_id, roll)
    }

    /// Applies the active fault at position `choice` to a message.
    pub fn apply_fault_at(&self, event: Event, choice: usize) -> (r: Option<(Event, FaultType)>)
        requires
            choice < Self::active_faults().len(),
        ensures
            r == faulted(event, Self::active_faults()[choice as int]),
    {
        proof {
            use_type_invariant(self);
        }
        apply_fault_of(event, self.active_faults[choice])
    }

    /// Applies one of the active faults, chosen at random, to a message.
    pub fn apply_fault(&self, event: Event) -> (r: Option<(Event, FaultType)>)
        ensures
            exists|choice: int|
                0 <= choice < Self::active_faults().len() && r == faulted(
                    event,
                    #[trigger] Self::active_faults()[choice],
                ),
    {
        let choice: u64 = random_below(3);
        self.apply_fault_at(event, choice as usize)
    }

    /// A vertex that conflicts with `honest`: the same round, author and
    /// parents, with a batch hash made from `nonce`.
    pub fn create_equivocation_with(&self, honest: &Vertex, nonce: u64) -> (v: Vertex)
        ensures
            v@.round == honest@.round,
            v@.author == honest@.author,
            v@.parent_indices == honest@.parent_indices,
            v@.batch_hash@ == blake3_digest(equivocation_payload(nonce)),
    {
        let mut payload: Vec<u8> = Vec::new();
        let label: &str = "BYZANTINE_PAYLOAD_";
        push_bytes(&mut payload, label.as_bytes());
        let digits: Vec<char> = decimal_chars(nonce);
        let ghost head = payload@;
        let mut i: usize = 0;
        while i < digits.len()
            invariant
                i <= digits.len(),
                digits@ == decimal(nonce as nat),
                payload@ == head + ascii_bytes(digits@.take(i as int)),
            decreases digits.len() - i,
        {
            payload.push(digits[i] as u8);
            proof {
                assert(digits@.take(i + 1) =~= digits@.take(i as int).push(digits@[i as int]));
                assert(payload@ =~= head + ascii_bytes(digits@.take(i + 1)));
            }
            i = i + 1;
        }
        proof {
            assert(digits@.take(i as int) =~= digits@);
            reveal_strlit("BYZANTINE_PAYLOAD_");
            vstd::string::is_ascii_spec_bytes(label);
            assert(head =~= ascii_bytes("BYZANTINE_PAYLOAD_"@));
            assert(payload@ =~= equivocation_payload(nonce));
        }
        let mut v: Vertex = honest.clone();
        v.batch_hash = hash(payload.as_slice());
        v
    }

    /// A vertex that conflicts with `honest`, made from a random nonce.
    pub fn create_equivocation(&self, honest: &Vertex) -> (v: Vertex)
        ensures
            v@.round == honest@.round,
            v@.author == honest@.author,
            v@.parent_indices == honest@.parent_indices,
            exists|nonce: u64| v@.batch_hash@ == blake3_digest(#[trigger] equivocation_payload(nonce)),
    {
        let nonce: u64 = random_u64();
        self.create_equivocation_with(honest, nonce)
    }

    /// The time after which the system is taken to have recovered from a
    /// fault, in microseconds.
    pub fn measure_recovery_time(&self) -> (micros: u64)
        ensures
            micros == RECOVERY_TIME_MICROS,
    {
        RECOVERY_TIME_MICROS
    }
}

/// The sum of a sequence of numbers.
pub open spec fn seq_sum(s: Seq<u64>) -> nat
    decreases s.len(),
{
    if s.len() == 0 {
        0
    } else {
        seq_sum(s.drop_last()) + s.last() as nat
    }
}

proof fn lemma_seq_sum_bound(s: Seq<u64>)
    ensures
        seq_sum(s) <= s.len() * u64::MAX,
    decreases s.len(),
{
    if s.len() > 0 {
        lemma_seq_sum_bound(s.drop_last());
        assert((s.len() - 1) * u64::MAX + u64::MAX == s.len() * u64::MAX) by (nonlinear_arith);
    }
}

/// Counters of the faults that were injected, and the recovery times that
/// were measured, in microseconds.
pub struct ResilienceMetrics {
    pub total_faults_injected: u64,
    pub messages_dropped: u64,
    pub messages_delayed: u64,
    pub equivocations_detected: u64,
    pub recovery_times: Vec<u64>,
}

/// The text of a report on the counters and the mean recovery time.
pub open spec fn report_text(
    total: u64,
    dropped: u64,
    delayed: u64,
    equivocations: u64,
    mean_recovery: Option<u64>,
) -> Seq<char> {
    "Byzantine Resilience Report:\n- Total faults injected: "@ + decimal(total as nat)
        + "\n- Messages dropped: "@ + decimal(dropped as nat) + "\n- Messages delayed: "@ + decimal(
        delayed as nat,
    ) + "\n- Equivocations detected: "@ + decimal(equivocations as nat)
        + "\n- Mean recovery time: "@ + match mean_recovery {
        Some(micros) => "Some("@ + decimal(micros as nat) + "us)"@,
        None => "None"@,
    }
}

impl ResilienceMetrics {
    /// The mean of the recovery times, rounded down; `None` where none was
    /// measured.
    pub open spec fn mean_recovery(&self) -> Option<u64> {
        if self.recovery_times@.len() == 0 {
            None
        } else {
            Some((seq_sum(self.recovery_times@) / self.recovery_times@.len()) as u64)
        }
    }

    /// All counters at zero, and no recovery time.
    pub fn new() -> (m: Self)
        ensures
            m.total_faults_injected == 0,
            m.messages_dropped == 0,
            m.messages_delayed == 0,
            m.equivocations_detected == 0,
            m.recovery_times@ == Seq::<u64>::empty(),
    {
        ResilienceMetrics {
            total_faults_injected: 0,
            messages_dropped: 0,
            messages_delayed: 0,
            equivocations_detected: 0,
            recovery_times: Vec::new(),
        }
    }

    /// Counts a fault: in the total, and a drop, a delay or an equivocation
    /// in its own counter.
    pub fn record_fault(&mut self, fault: &FaultType)
        requires
            old(self).total_faults_injected < u64::MAX,
            old(self).messages_dropped < u64::MAX,
            old(self).messages_delayed < u64::MAX,
            old(self).equivocations_detected < u64::MAX,
        ensures
            final(self).total_faults_injected == old(self).total_faults_injected + 1,
            final(self).messages_dropped == old(self).messages_dropped + if fault
                is MessageDrop {
                1int
            } else {
                0int
            },
            final(self).messages_delayed == old(self).messages_delayed + if fault
                is MessageDelay {
                1int
            } else {
                0int
            },
            final(self).equivocations_detected == old(self).equivocations_detected + if fault
                is Equivocation {
                1int
            } else {
                0int
            },
            final(self).recovery_times == old(self).recovery_times,
    {
        self.total_faults_injected = self.total_faults_injected + 1;
        match fault {
            FaultType::MessageDrop => {
                self.messages_dropped = self.messages_dropped + 1;
            },
            FaultType::MessageDelay(_) => {
                self.messages_delayed = self.messages_delayed + 1;
            },
            FaultType::Equivocation => {
                self.equivocations_detected = self.equivocations_detected + 1;
            },
            _ => {},
        }
    }

    /// The mean of the recovery times in microseconds, rounded down;
    /// `None` where none was measured.
    pub fn mean_recovery_time(&self) -> (r: Option<u64>)
        ensures
            r == self.mean_recovery(),
    {
        if self.recovery_times.len() == 0 {
            return None;
        }
        let mut total: u128 = 0;
        let mut i: usize = 0;
        proof {
            assert(self.recovery_times@.take(0) =~= Seq::<u64>::empty());
        }
        while i < self.recovery_times.len()
            invariant
                i <= self.recovery_times.len(),
                total == seq_sum(self.recovery_times@.take(i as int)),
                total <= i * u64::MAX,
            decreases self.recovery_times.len() - i,
        {
            proof {
                assert(self.recovery_times@.take(i + 1).drop_last() =~= self.recovery_times@.take(
                    i as int,
                ));
                assert(i * u64::MAX + u64::MAX == (i + 1) * u64::MAX) by (nonlinear_arith);
                assert((i + 1) * u64::MAX <= usize::MAX * u64::MAX) by (nonlinear_arith)
                    requires
                        i + 1 <= usize::MAX,
                ;
            }
            total = total + self.recovery_times[i] as u128;
            i = i + 1;
        }
        let count: u128 = self.recovery_times.len() as u128;
        let mean: u128 = total / count;
        proof {
            assert(self.recovery_times@.take(i as int) =~= self.recovery_times@);
            assert(total / count <= u64::MAX) by (nonlinear_arith)
                requires
                    total <= count * u64::MAX,
                    count > 0,
            ;
        }
        Some(mean as u64)
    }

    /// A report on the counters and the mean recovery time.
    pub fn report(&self) -> (text: String)
        ensures
            text@ == report_text(
                self.total_faults_injected,
                self.messages_dropped,
                self.messages_delayed,
                self.equivocations_detected,
                self.mean_recovery(),
            ),
    {
        let mut text: String = String::new();
        push_text(&mut text, "Byzantine Resilience Report:\n- Total faults injected: ");
        push_decimal(&mut text, self.total_faults_injected);
        push_text(&mut text, "\n- Messages dropped: ");
        push_decimal(&mut text, self.messages_dropped);
        push_text(&mut text, "\n- Messages delayed: ");
        push_decimal(&mut text, self.messages_delayed);
        push_text(&mut text, "\n- Equivocations detected: ");
        push_decimal(&mut text, self.equivocations_detected);
        push_text(&mut text, "\n- Mean recovery time: ");
        match self.mean_recovery_time() {
            Some(micros) => {
                push_text(&mut text, "Some(");
                push_decimal(&mut text, micros);
                push_text(&mut text, "us)");
            },
            None => {
                push_text(&mut text, "None");
            },
        }
        assert(text@ =~= report_text(
            self.total_faults_injected,
            self.messages_dropped,
            self.messages_delayed,
            self.equivocations_detected,
            self.mean_recovery(),
        ));
        text
    }
}

} // verus!
