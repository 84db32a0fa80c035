//! The upload subtest engine.
//!
//! Two operations race once the connection stands: a send loop that
//! pushes growing random payloads, and a counter-flow read of server
//! measurements. The decisions of both live here as verified step
//! functions over plain state; the surrounding program performs the
//! sends, receives and the deadline timer and feeds the results back.
//! Delivery of forwarded records to a stalled consumer is best-effort:
//! a full stream drops the newest record rather than blocking the
//! engine, trading completeness for liveness.

use vstd::prelude::*;
use vstd::string::StringExecFns;

use rand::SeedableRng;

use crate::error::Ndt7Error;
use crate::json::SpecMeasurement;
use crate::json::abs_measurement;
use crate::json::measurement_from_json;
use crate::json::spec_parse_measurement_text;
use crate::messages::Measurement;
use crate::messages::Origin;
use crate::messages::TestKind;
use crate::messages::WireMessage;
use crate::messages::client_snapshot;
use crate::params::INITIAL_MESSAGE_SIZE;
use crate::params::MAX_MESSAGE_SIZE;
use crate::params::SCALING_FRACTION;
use crate::params::UPDATE_INTERVAL_MICROS;
use crate::params::UPLOAD_TIMEOUT_MICROS;
use crate::text::sat_add_i64;

verus! {

/// The small pseudo-random generator that fills upload payloads.
#[verifier::external_type_specification]
#[verifier::external_body]
pub struct ExSmallRng(rand::rngs::SmallRng);

/// Relies on rand's `SmallRng::try_from_os_rng`: a fresh generator
/// seeded by the operating system, or the failure the entropy source
/// reported. Nothing is promised of the generator's output.
#[verifier::external_body]
fn new_small_rng() -> (r: Result<rand::rngs::SmallRng, String>) {
    rand::rngs::SmallRng::try_from_os_rng().map_err(|e| e.to_string())
}

/// Relies on rand's `RngCore::fill_bytes` for `SmallRng`: fills the
/// buffer completely. Only the length of the result is promised; the
/// content is pseudo-random and has no semantic value.
#[verifier::external_body]
fn random_payload(rng: &mut rand::rngs::SmallRng, len: usize) -> (r: Vec<u8>)
    ensures
        r@.len() == len,
{
    let mut buf = vec![0u8; len];
    rand::RngCore::fill_bytes(rng, &mut buf);
    buf
}

/// Two to the `k`-th power.
pub open spec fn pow2(k: nat) -> nat
    decreases k,
{
    if k == 0 {
        1
    } else {
        2 * pow2((k - 1) as nat)
    }
}

/// Powers of two are positive and strictly increasing.
pub proof fn lemma_pow2_pos_mono(k1: nat, k2: nat)
    requires
        k1 <= k2,
    ensures
        1 <= pow2(k1),
        pow2(k1) <= pow2(k2),
        k1 < k2 ==> 2 * pow2(k1) <= pow2(k2),
    decreases k2,
{
    if k2 > 0 {
        if k1 < k2 {
            lemma_pow2_pos_mono(k1, (k2 - 1) as nat);
        } else {
            lemma_pow2_pos_mono((k1 - 1) as nat, (k2 - 1) as nat);
        }
    }
}

/// A legal upload payload size: the initial size doubled some number of
/// times, never past the maximum.
pub open spec fn is_valid_message_size(size: int) -> bool {
    exists|k: nat| size == INITIAL_MESSAGE_SIZE * #[trigger] pow2(k) && size <= MAX_MESSAGE_SIZE
}

/// The scaling rule: after a send, the payload size doubles exactly
/// when it is still below the maximum and at most one sixteenth of the
/// bytes sent so far.
pub open spec fn spec_scaled_size(size: int, total: int) -> int {
    if size < MAX_MESSAGE_SIZE && size <= total / (SCALING_FRACTION as int) {
        size * 2
    } else {
        size
    }
}

/// The payload-scaling law: a legal size stays legal, never shrinks,
/// never passes the maximum, and doubles exactly when the rule says so.
pub proof fn lemma_scaling_preserves_validity(size: int, total: int)
    requires
        is_valid_message_size(size),
        total >= 0,
    ensures
        is_valid_message_size(spec_scaled_size(size, total)),
        spec_scaled_size(size, total) >= size,
        spec_scaled_size(size, total) <= MAX_MESSAGE_SIZE,
        (spec_scaled_size(size, total) == 2 * size) <==> (size < MAX_MESSAGE_SIZE && size <= total
            / (SCALING_FRACTION as int)),
{
    let k = choose|k: nat|
        size == INITIAL_MESSAGE_SIZE * #[trigger] pow2(k) && size <= MAX_MESSAGE_SIZE;
    lemma_pow2_pos_mono(0, k);
    assert(size >= INITIAL_MESSAGE_SIZE);
    if size < MAX_MESSAGE_SIZE && size <= total / (SCALING_FRACTION as int) {
        // 2^20 / 2^13 = 128 = 2^7: a size below the maximum has at most
        // six doublings behind it, so one more stays within it.
        assert(pow2(0) == 1);
        assert(pow2(1) == 2);
        assert(pow2(2) == 4);
        assert(pow2(3) == 8);
        assert(pow2(4) == 16);
        assert(pow2(5) == 32);
        assert(pow2(6) == 64);
        assert(pow2(7) == 128);
        if k >= 7 {
            lemma_pow2_pos_mono(7, k);
            assert(pow2(k) >= 128);
            assert(size >= INITIAL_MESSAGE_SIZE * 128);
        }
        assert(k < 7);
        lemma_pow2_pos_mono(k, 7);
        assert(2 * pow2(k) <= pow2(7));
        assert(size * 2 == INITIAL_MESSAGE_SIZE * (2 * pow2(k)));
        assert(size * 2 == INITIAL_MESSAGE_SIZE * pow2(k + 1)) by {
            assert(pow2(k + 1) == 2 * pow2(k));
        }
        assert(INITIAL_MESSAGE_SIZE * (2 * pow2(k)) <= INITIAL_MESSAGE_SIZE * pow2(7));
        assert(is_valid_message_size(size * 2));
    }
}

/// Exec mirror of [`spec_scaled_size`].
pub fn scale_message_size(size: usize, total: i64) -> (r: usize)
    requires
        total >= 0,
        size <= MAX_MESSAGE_SIZE,
    ensures
        r == spec_scaled_size(size as int, total as int),
{
    let threshold: i64 = total / (SCALING_FRACTION as i64);
    if size < MAX_MESSAGE_SIZE && (size as i64) <= threshold {
        size * 2
    } else {
        size
    }
}

/// The send half of the upload subtest: the growing payload and the
/// running byte total.
pub struct UploadSender {
    /// The generator that refills the payload on each doubling.
    pub rng: rand::rngs::SmallRng,
    /// The payload sent on every iteration; its length is the current
    /// message size.
    pub payload: Vec<u8>,
    /// Application bytes handed to the transport so far.
    pub total_bytes: i64,
    /// Elapsed microseconds at the last emitted snapshot.
    pub prev_update_micros: i64,
}

impl UploadSender {
    /// Well-formedness: the payload size is legal and the counters are
    /// non-negative.
    pub open spec fn wf(self) -> bool {
        &&& is_valid_message_size(self.payload@.len() as int)
        &&& self.total_bytes >= 0
        &&& self.prev_update_micros >= 0
    }

    /// A fresh sender: initial payload size, nothing sent yet. The
    /// operating system's entropy source seeds the generator; if it
    /// fails, its report comes back as an error.
    pub fn new() -> (r: Result<UploadSender, Ndt7Error>)
        ensures
            r matches Ok(s) ==> s.wf() && s.payload@.len() == INITIAL_MESSAGE_SIZE
                && s.total_bytes == 0 && s.prev_update_micros == 0,
            r matches Err(e) ==> e is IoError,
    {
        let mut rng = match new_small_rng() {
            Ok(rng) => rng,
            Err(msg) => {
                return Err(Ndt7Error::IoError(msg));
            },
        };
        let payload = random_payload(&mut rng, INITIAL_MESSAGE_SIZE);
        proof {
            assert(pow2(0) == 1);
            assert(INITIAL_MESSAGE_SIZE * pow2(0) == INITIAL_MESSAGE_SIZE);
        }
        Ok(UploadSender { rng, payload, total_bytes: 0, prev_update_micros: 0 })
    }

    /// Accounts one completed send of the current payload, then applies
    /// the scaling rule: when the size is below the maximum and at most
    /// one sixteenth of the new total, the payload doubles and is
    /// refilled with fresh random bytes.
    pub fn after_send(&mut self)
        requires
            old(self).wf(),
        ensures
            final(self).wf(),
            final(self).total_bytes == sat_add_i64(
                old(self).total_bytes as int,
                old(self).payload@.len() as int,
            ),
            final(self).payload@.len() == spec_scaled_size(
                old(self).payload@.len() as int,
                final(self).total_bytes as int,
            ),
            final(self).payload@.len() >= old(self).payload@.len(),
            final(self).payload@.len() <= MAX_MESSAGE_SIZE,
            final(self).payload@.len() == old(self).payload@.len() ==> final(self).payload == old(
                self,
            ).payload,
            final(self).prev_update_micros == old(self).prev_update_micros,
    {
        proof {
            lemma_pow2_pos_mono(
                0,
                choose|k: nat|
                    old(self).payload@.len() == INITIAL_MESSAGE_SIZE * #[trigger] pow2(k) && old(
                        self,
                    ).payload@.len() <= MAX_MESSAGE_SIZE,
            );
        }
        let len = self.payload.len();
        if self.total_bytes <= i64::MAX - (len as i64) {
            self.total_bytes = self.total_bytes + (len as i64);
        } else {
            self.total_bytes = i64::MAX;
        }
        proof {
            lemma_scaling_preserves_validity(len as int, self.total_bytes as int);
        }
        let target = scale_message_size(len, self.total_bytes);
        if target != len {
            self.payload = random_payload(&mut self.rng, target);
        }
    }

    /// Emits the periodic client-origin snapshot when at least the
    /// update interval has passed since the last one.
    pub fn maybe_snapshot(&mut self, now_micros: i64) -> (r: Option<Measurement>)
        requires
            old(self).wf(),
            now_micros >= old(self).prev_update_micros,
        ensures
            final(self).wf(),
            final(self).payload == old(self).payload,
            final(self).total_bytes == old(self).total_bytes,
            if now_micros - old(self).prev_update_micros >= UPDATE_INTERVAL_MICROS {
                r == Some(
                    client_snapshot(now_micros, old(self).total_bytes, TestKind::Upload),
                ) && final(self).prev_update_micros == now_micros
            } else {
                r is None && final(self).prev_update_micros == old(self).prev_update_micros
            },
    {
        if now_micros - self.prev_update_micros >= UPDATE_INTERVAL_MICROS {
            self.prev_update_micros = now_micros;
            Some(
                Measurement {
                    app_info: Some(
                        crate::messages::AppInfo {
                            elapsed_time: now_micros,
                            num_bytes: self.total_bytes,
                        },
                    ),
                    connection_info: None,
                    origin: Some(Origin::Client),
                    test: Some(TestKind::Upload),
                    tcp_info: None,
                },
            )
        } else {
            None
        }
    }
}

/// Whether the upload deadline has passed.
pub fn upload_deadline_exceeded(elapsed_micros: i64) -> (r: bool)
    ensures
        r == (elapsed_micros >= UPLOAD_TIMEOUT_MICROS),
{
    elapsed_micros >= UPLOAD_TIMEOUT_MICROS
}

/// What one counter-flow frame means for the subtest.
#[derive(Debug)]
pub enum CounterflowStep {
    /// A server measurement to forward on the stream.
    Forward(Measurement),
    /// Nothing to do; keep reading.
    Continue,
    /// The peer closed the connection: normal end of the read loop.
    Finished,
    /// A hard error: it terminates the subtest, and nothing may follow
    /// it on the stream.
    Failed(Ndt7Error),
}

/// Classifies one frame read from the peer during the upload subtest.
///
/// Text frames are server measurement records: they are stamped with
/// the server origin and the upload subtest and forwarded. A binary
/// frame during the counter-flow read is a protocol violation and a
/// hard error, after which no partial record follows.
pub fn counterflow_frame(msg: WireMessage) -> (r: CounterflowStep)
    ensures
        match msg {
            WireMessage::Text(t) => match spec_parse_measurement_text(t@) {
                Option::Some(v) => (r matches CounterflowStep::Forward(m) && abs_measurement(m)
                    == SpecMeasurement {
                    origin: Some(Origin::Server),
                    test: Some(TestKind::Upload),
                    ..v
                }),
                Option::None => (r matches CounterflowStep::Failed(e) && e is JsonError),
            },
            WireMessage::Binary(b) => (r matches CounterflowStep::Failed(e)
                && e is ProtocolViolation),
            WireMessage::Close => r is Finished,
            WireMessage::Other => r is Continue,
        },
{
    match msg {
        WireMessage::Text(t) => {
            match measurement_from_json(t.as_str()) {
                Option::Some(m) => {
                    let ghost v = spec_parse_measurement_text(t@).unwrap();
                    let stamped = Measurement {
                        origin: Some(Origin::Server),
                        test: Some(TestKind::Upload),
                        ..m
                    };
                    proof {
                        assert(abs_measurement(stamped) =~= SpecMeasurement {
                            origin: Some(Origin::Server),
                            test: Some(TestKind::Upload),
                            ..v
                        });
                    }
                    CounterflowStep::Forward(stamped)
                },
                Option::None => CounterflowStep::Failed(
                    Ndt7Error::JsonError(
                        String::from_str("invalid measurement frame"),
                    ),
                ),
            }
        },
        WireMessage::Binary(_) => CounterflowStep::Failed(
            Ndt7Error::ProtocolViolation(
String::from_str("server sent unexpected binary message during upload"),
            ),
        ),
        WireMessage::Close => CounterflowStep::Finished,
        WireMessage::Other => CounterflowStep::Continue,
    }
}

} // verus!
