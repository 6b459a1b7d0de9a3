//! The uplink worker's per-pass decision.
//!
//! The worker loops: wait for a measurement, build the JSON body and the
//! target URL, open a fresh TLS connection and POST, discard the response.
//! The connection itself is I/O and lives with the caller; everything the
//! worker decides and computes (the test on network readiness, the consume
//! from the slot, and the exact request contents) is here.
//!
//! A failed request build discards the measurement and moves on: one bad
//! reading must never take the node offline.

use vstd::prelude::*;
use vstd::string::is_ascii;
use crate::LinkState;
use crate::channel::MeasurementChannel;
use crate::json::body_bytes;
use crate::json::json_body;
use crate::measurement::Measurement;
use crate::url::UrlError;
use crate::url::build_url;
use crate::url::telemetry_url;
use crate::url::url_chars;

verus! {

/// Immutable node configuration, loaded once at boot and never changed.
pub struct Config {
    /// Network name to associate with.
    pub ssid: String,
    /// Network credential.
    pub password: String,
    /// Device token, part of the request path.
    pub token: String,
    /// Scheme and host of the telemetry endpoint.
    pub endpoint_base_url: String,
}

/// One fully built delivery attempt: the POST target and the JSON body it
/// carries, each in a buffer of fixed capacity.
pub struct TelemetryRequest {
    pub url: heapless::String<128>,
    pub body: Vec<u8>,
}

/// What one pass of the uplink worker's loop decides.
pub enum UplinkOutcome {
    /// Nothing to send: bring-up is not finished, or no measurement is
    /// pending. The worker just waits.
    Wait,
    /// A measurement was taken and a request built; the caller performs one
    /// POST and discards the response.
    Send(TelemetryRequest),
    /// A measurement was taken but no request could be built from the
    /// configured parts; it is dropped and the worker carries on.
    Skip(UrlError),
}

/// One pass of the uplink worker: consume at most one pending measurement,
/// and only ever build a request once the bring-up machine is `Ready`.
pub fn uplink_step(state: LinkState, chan: &mut MeasurementChannel, base: &str, token: &str) -> (r:
    UplinkOutcome)
    requires
        old(chan).wf(),
    ensures
        final(chan).wf(),
        r matches UplinkOutcome::Send(_) ==> state == LinkState::Ready,
        state != LinkState::Ready ==> r is Wait && *final(chan) == *old(chan),
        state == LinkState::Ready && old(chan).pending().len() == 0 ==> r is Wait
            && final(chan).pending() == old(chan).pending() && final(chan).spec_sent()
            == old(chan).spec_sent() && final(chan).spec_taken() == old(chan).spec_taken(),
        state == LinkState::Ready && old(chan).pending().len() > 0 ==> {
            &&& final(chan).pending().len() == 0
            &&& final(chan).spec_taken() == old(chan).spec_taken() + 1
            &&& final(chan).spec_sent() == old(chan).spec_sent()
            &&& (r is Send <==> is_ascii(base) && is_ascii(token) && base@.len()
                + token@.len() + 18 <= 128)
            &&& (r matches UplinkOutcome::Send(req) ==> url_chars(req.url) == telemetry_url(
                base@,
                token@,
            ) && req.body@ == body_bytes(
                Measurement {
                    temperature_centi: old(chan).pending()[0].0,
                    humidity_centi: old(chan).pending()[0].1,
                },
            ))
            &&& (r matches UplinkOutcome::Skip(e) ==> (e == UrlError::NotAscii <==> !(
            is_ascii(base) && is_ascii(token))))
            &&& !(r is Wait)
        },
    {
    if !crate::link_state_is_ready(state) {
        return UplinkOutcome::Wait;
    }
    let taken = chan.try_take();
    match taken {
        None => UplinkOutcome::Wait,
        Some(m) => {
            match build_url(base, token) {
                Ok(url) => {
                    let body = json_body(&m);
                    UplinkOutcome::Send(TelemetryRequest { url, body })
                },
                Err(e) => UplinkOutcome::Skip(e),
            }
        },
    }
}

} // verus!
