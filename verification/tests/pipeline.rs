use humidity_monitor::LinkState;
use humidity_monitor::channel::MeasurementChannel;
use humidity_monitor::json::json_body;
use humidity_monitor::json::parse_json_body;
use humidity_monitor::link::LinkEvent;
use humidity_monitor::link::step;
use humidity_monitor::measurement::Measurement;
use humidity_monitor::measurement::SensorFault;
use humidity_monitor::measurement::sampler_step;
use humidity_monitor::measurement::samples_published;
use humidity_monitor::uplink::UplinkOutcome;
use humidity_monitor::uplink::uplink_step;
use humidity_monitor::url::UrlError;
use humidity_monitor::url::build_url;
use humidity_monitor::url::url_as_str;

fn m(t: i64, h: i64) -> Measurement {
    Measurement { temperature_centi: t, humidity_centi: h }
}

#[test]
fn channel_backpressure_single_slot() {
    let mut chan = MeasurementChannel::new();
    assert!(chan.try_publish(m(2345, 6120)));
    // The slot is full: producing faster than the consumer drains leaves
    // every further publish waiting until the pending sample is taken.
    assert!(!chan.try_publish(m(100, 200)));
    assert!(!chan.try_publish(m(300, 400)));
    let got = chan.try_take().unwrap();
    assert_eq!(got, m(2345, 6120));
    // Only after the take can the next publish go through.
    assert!(chan.try_publish(m(100, 200)));
    assert_eq!(chan.try_take().unwrap(), m(100, 200));
    assert!(chan.try_take().is_none());
}

#[test]
fn no_send_before_ready() {
    let base = "https://tb.example.com";
    let token = "abc123";
    let states = [
        LinkState::RadioOff,
        LinkState::RadioReady,
        LinkState::Joining,
        LinkState::Joined,
        LinkState::WaitingAddress,
        LinkState::AddressUp,
        LinkState::WaitingLink,
        LinkState::LinkUp,
    ];
    for s in states {
        let mut chan = MeasurementChannel::new();
        assert!(chan.try_publish(m(2345, 6120)));
        let out = uplink_step(s, &mut chan, base, token);
        assert!(matches!(out, UplinkOutcome::Wait));
        // The pending measurement was not consumed either.
        assert!(chan.try_take().is_some());
    }
    let mut chan = MeasurementChannel::new();
    assert!(chan.try_publish(m(2345, 6120)));
    let out = uplink_step(LinkState::Ready, &mut chan, base, token);
    assert!(matches!(out, UplinkOutcome::Send(_)));
}

#[test]
fn serialization_round_trip() {
    let body = json_body(&m(2345, 6120));
    let text = std::str::from_utf8(&body).unwrap();
    assert_eq!(text, "{\"temperature\":23.45,\"humidity\":61.20}");
    // The library's own parser gives the measurement back.
    assert_eq!(parse_json_body(&body), Some(m(2345, 6120)));
    // Deserialize the two number fields back, as the endpoint would.
    let inner = text.strip_prefix("{\"temperature\":").unwrap();
    let (t_txt, rest) = inner.split_once(",\"humidity\":").unwrap();
    let h_txt = rest.strip_suffix('}').unwrap();
    let (t, _) = serde_json_core::de::from_slice::<f64>(t_txt.as_bytes()).unwrap();
    let (h, _) = serde_json_core::de::from_slice::<f64>(h_txt.as_bytes()).unwrap();
    assert!((t - 23.45).abs() < 1e-6);
    assert!((h - 61.2).abs() < 1e-6);
}

#[test]
fn round_trip_more_values() {
    for mm in [m(-500, 5), m(0, 0), m(-1_000_000, 1_000_000), m(1, 99), m(12345, -678)] {
        assert_eq!(parse_json_body(&json_body(&mm)), Some(mm));
    }
}

#[test]
fn parser_rejects_non_canonical() {
    assert_eq!(parse_json_body(b"{\"temperature\":-0.00,\"humidity\":0.00}"), None);
    assert_eq!(parse_json_body(b"{\"temperature\":01.00,\"humidity\":0.00}"), None);
    assert_eq!(parse_json_body(b"{\"temperature\":1.0,\"humidity\":0.00}"), None);
    assert_eq!(parse_json_body(b"{\"temperature\":1.00,\"humidity\":0.00"), None);
    assert_eq!(parse_json_body(b"{\"temp\":1.00,\"humidity\":0.00}"), None);
    assert_eq!(parse_json_body(b"{\"temperature\":10000.01,\"humidity\":0.00}"), None);
    assert_eq!(parse_json_body(b""), None);
    // In range is accepted.
    assert_eq!(parse_json_body(b"{\"temperature\":10000.00,\"humidity\":0.00}"), Some(m(1_000_000, 0)));
}

#[test]
fn serialization_negative_and_zero() {
    let body = json_body(&m(-500, 5));
    assert_eq!(
        std::str::from_utf8(&body).unwrap(),
        "{\"temperature\":-5.00,\"humidity\":0.05}"
    );
    let body = json_body(&m(0, 10000));
    assert_eq!(
        std::str::from_utf8(&body).unwrap(),
        "{\"temperature\":0.00,\"humidity\":100.00}"
    );
}

#[test]
fn url_construction() {
    let url = build_url("https://tb.example.com", "abc123").unwrap();
    assert_eq!(url_as_str(&url), "https://tb.example.com/api/v1/abc123/telemetry");
    assert_eq!(url.as_str(), "https://tb.example.com/api/v1/abc123/telemetry");
}

#[test]
fn url_errors() {
    let long_base = "https://".repeat(20);
    assert_eq!(build_url(&long_base, "abc123").unwrap_err(), UrlError::TooLong);
    assert_eq!(build_url("https://tb.example.com", "tokén").unwrap_err(), UrlError::NotAscii);
    // 128 bytes exactly still fits: base + token + 18 fixed bytes.
    let base = "x".repeat(100);
    let token = "y".repeat(10);
    let url = build_url(&base, &token).unwrap();
    assert_eq!(url.as_str().len(), 128);
}

#[test]
fn join_retry_then_ready() {
    // A failed association keeps the machine joining; a later success moves
    // on, and the boot finishes in Ready.
    let s = LinkState::Joining;
    let s = step(s, LinkEvent::JoinFailed);
    assert_eq!(s, LinkState::Joining);
    let s = step(s, LinkEvent::JoinFailed);
    assert_eq!(s, LinkState::Joining);
    let s = step(s, LinkEvent::JoinSucceeded);
    assert_eq!(s, LinkState::Joined);
    let s = step(s, LinkEvent::AddressPollStarted);
    let s = step(s, LinkEvent::AddressAcquired);
    let s = step(s, LinkEvent::LinkPollStarted);
    let s = step(s, LinkEvent::LinkConfirmed);
    let s = step(s, LinkEvent::StackConfigured);
    assert_eq!(s, LinkState::Ready);
}

#[test]
fn full_boot_from_radio_off() {
    let events = [
        LinkEvent::RadioInitialised,
        LinkEvent::JoinAttemptStarted,
        LinkEvent::JoinFailed,
        LinkEvent::JoinSucceeded,
        LinkEvent::AddressPollStarted,
        LinkEvent::AddressAcquired,
        LinkEvent::LinkPollStarted,
        LinkEvent::LinkConfirmed,
        LinkEvent::StackConfigured,
    ];
    let mut s = LinkState::RadioOff;
    for e in events {
        s = step(s, e);
        // An event out of order never moves the machine backwards past boot.
        assert_ne!(s, LinkState::RadioOff);
    }
    assert_eq!(s, LinkState::Ready);
}

#[test]
fn sensor_fault_skips_cycle() {
    // The sensor fails on cycle 2 of 3: exactly the readings of cycles 1 and
    // 3 are published, and the sampler neither stalls nor crashes in between.
    let readings = [
        Ok(m(2100, 5000)),
        Err(SensorFault { code: 7 }),
        Ok(m(2200, 5100)),
    ];
    let mut chan = MeasurementChannel::new();
    let mut published = 0;
    for r in readings {
        if let Some(sample) = sampler_step(r) {
            assert!(chan.try_publish(sample));
            published += 1;
            // The consumer drains the slot before the next tick.
            assert_eq!(chan.try_take().unwrap(), sample);
        }
    }
    assert_eq!(published, 2);
}

#[test]
fn published_samples_skip_faults() {
    let readings = vec![
        Ok(m(2100, 5000)),
        Err(SensorFault { code: 7 }),
        Ok(m(2200, 5100)),
    ];
    let published = samples_published(&readings);
    assert_eq!(published, vec![m(2100, 5000), m(2200, 5100)]);
    let all_bad = vec![Err::<Measurement, _>(SensorFault { code: 1 })];
    assert!(samples_published(&all_bad).is_empty());
}

#[test]
fn measurement_range_checked() {
    assert!(Measurement::try_new(2345, 6120).is_some());
    assert!(Measurement::try_new(1_000_001, 0).is_none());
    assert!(Measurement::try_new(0, -1_000_001).is_none());
    let s = Measurement::try_new(-4000, 0).unwrap();
    assert_eq!(s.temperature_centi, -4000);
}
