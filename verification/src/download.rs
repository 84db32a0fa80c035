//! The download subtest engine.
//!
//! The download is a passive receive loop: binary frames count toward
//! the byte total, text frames are server measurement records that are
//! stamped and forwarded, and a periodic client-origin snapshot carries
//! the running counters. The decisions live here as verified step
//! functions over plain state; the surrounding program receives the
//! frames and keeps the deadline timer. Delivery of forwarded records
//! to a stalled consumer is best-effort: a full stream drops the
//! newest record rather than blocking the engine, trading completeness
//! for liveness.

use vstd::prelude::*;
use vstd::string::StringExecFns;

use crate::error::Ndt7Error;
use crate::json::SpecMeasurement;
use crate::json::abs_measurement;
use crate::json::measurement_from_json;
use crate::json::spec_parse_measurement_text;
use crate::messages::AppInfo;
use crate::messages::Measurement;
use crate::messages::Origin;
use crate::messages::TestKind;
use crate::messages::WireMessage;
use crate::messages::client_snapshot;
use crate::params::DOWNLOAD_TIMEOUT_MICROS;
use crate::params::UPDATE_INTERVAL_MICROS;
use crate::text::sat_add_i64;

verus! {

/// The receive half of the download subtest: the running byte total
/// and the snapshot cadence.
pub struct DownloadReceiver {
    /// Application bytes received so far, payload and measurement
    /// frames alike.
    pub total_bytes: i64,
    /// Elapsed microseconds at the last emitted snapshot.
    pub prev_update_micros: i64,
}

/// What one received frame means for the subtest.
#[derive(Debug)]
pub enum DownloadStep {
    /// A server measurement to forward on the stream.
    Forward(Measurement),
    /// Nothing to forward; keep receiving.
    Continue,
    /// The peer closed the connection: normal completion.
    Finished,
    /// A hard error: it terminates the subtest, and nothing may follow
    /// it on the stream.
    Failed(Ndt7Error),
}

impl DownloadReceiver {
    /// Well-formedness: the counters are non-negative.
    pub open spec fn wf(self) -> bool {
        self.total_bytes >= 0 && self.prev_update_micros >= 0
    }

    /// A fresh receiver: nothing received yet.
    pub fn new() -> (r: DownloadReceiver)
        ensures
            r.wf(),
            r.total_bytes == 0,
            r.prev_update_micros == 0,
    {
        DownloadReceiver { total_bytes: 0, prev_update_micros: 0 }
    }

    /// Accounts one received frame and says what to do with it.
    ///
    /// Binary frames are payload: only their byte length counts. Text
    /// frames are server measurement records: they count with their
    /// serialized byte length and are forwarded stamped with the server
    /// origin and the download subtest; a malformed one is a hard
    /// error. A close frame is normal completion.
    pub fn process_frame(&mut self, msg: WireMessage) -> (r: DownloadStep)
        requires
            old(self).wf(),
        ensures
            final(self).wf(),
            final(self).prev_update_micros == old(self).prev_update_micros,
            match msg {
                WireMessage::Binary(b) => final(self).total_bytes == sat_add_i64(
                    old(self).total_bytes as int,
                    b@.len() as int,
                ) && r is Continue,
                WireMessage::Text(t) => match spec_parse_measurement_text(t@) {
                    Option::Some(v) => final(self).total_bytes == sat_add_i64(
                        old(self).total_bytes as int,
                        (vstd::utf8::encode_utf8(t@).len() as usize) as int,
                    ) && (r matches DownloadStep::Forward(m) && abs_measurement(m)
                        == SpecMeasurement {
                        origin: Some(Origin::Server),
                        test: Some(TestKind::Download),
                        ..v
                    }),
                    Option::None => final(self).total_bytes == old(self).total_bytes && (
                    r matches DownloadStep::Failed(e) && e is JsonError),
                },
                WireMessage::Close => final(self).total_bytes == old(self).total_bytes
                    && r is Finished,
                WireMessage::Other => final(self).total_bytes == old(self).total_bytes
                    && r is Continue,
            },
    {
        match msg {
            WireMessage::Binary(data) => {
                self.add_bytes(data.len());
                DownloadStep::Continue
            },
            WireMessage::Text(t) => {
                match measurement_from_json(t.as_str()) {
                    Option::Some(m) => {
                        let ghost v = spec_parse_measurement_text(t@).unwrap();
                        self.add_bytes(t.as_str().len());
                        let stamped = Measurement {
                            origin: Some(Origin::Server),
                            test: Some(TestKind::Download),
                            ..m
                        };
                        proof {
                            assert(abs_measurement(stamped) =~= SpecMeasurement {
                                origin: Some(Origin::Server),
                                test: Some(TestKind::Download),
                                ..v
                            });
                        }
                        DownloadStep::Forward(stamped)
                    },
                    Option::None => DownloadStep::Failed(
                        Ndt7Error::JsonError(String::from_str("invalid measurement frame")),
                    ),
                }
            },
            WireMessage::Close => DownloadStep::Finished,
            WireMessage::Other => DownloadStep::Continue,
        }
    }

    /// Adds a frame's byte length to the running total, sticking at the
    /// largest representable value rather than wrapping.
    fn add_bytes(&mut self, len: usize)
        requires
            old(self).wf(),
        ensures
            final(self).wf(),
            final(self).total_bytes == sat_add_i64(old(self).total_bytes as int, len as int),
            final(self).prev_update_micros == old(self).prev_update_micros,
    {
        if (len as u64) <= (i64::MAX as u64) && self.total_bytes <= i64::MAX - (len as i64) {
            self.total_bytes = self.total_bytes + (len as i64);
        } else {
            self.total_bytes = i64::MAX;
        }
    }

    /// Emits the periodic client-origin snapshot when at least the
    /// update interval has passed since the last one.
    pub fn maybe_snapshot(&mut self, now_micros: i64) -> (r: Option<Measurement>)
        requires
            old(self).wf(),
            now_micros >= old(self).prev_update_micros,
        ensures
            final(self).wf(),
            final(self).total_bytes == old(self).total_bytes,
            if now_micros - old(self).prev_update_micros >= UPDATE_INTERVAL_MICROS {
                r == Some(
                    client_snapshot(now_micros, old(self).total_bytes, TestKind::Download),
                ) && final(self).prev_update_micros == now_micros
            } else {
                r is None && final(self).prev_update_micros == old(self).prev_update_micros
            },
    {
        if now_micros - self.prev_update_micros >= UPDATE_INTERVAL_MICROS {
            self.prev_update_micros = now_micros;
            Some(
                Measurement {
                    app_info: Some(
                        AppInfo { elapsed_time: now_micros, num_bytes: self.total_bytes },
                    ),
                    connection_info: None,
                    origin: Some(Origin::Client),
                    test: Some(TestKind::Download),
                    tcp_info: None,
                },
            )
        } else {
            None
        }
    }
}

/// Whether the download deadline has passed.
pub fn download_deadline_exceeded(elapsed_micros: i64) -> (r: bool)
    ensures
        r == (elapsed_micros >= DOWNLOAD_TIMEOUT_MICROS),
{
    elapsed_micros >= DOWNLOAD_TIMEOUT_MICROS
}

} // verus!
