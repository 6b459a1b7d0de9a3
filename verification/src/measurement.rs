//! The value object that flows through the pipeline: one temperature and
//! humidity sample.
//!
//! The delivery pipeline never computes with the readings, it only moves and
//! prints them, so they are carried as fixed-point values: hundredths of a
//! degree Celsius and hundredths of a percent relative humidity. That is the
//! resolution the sensor delivers, and it keeps the verified pipeline free of
//! floating point; the hardware edge converts once on capture.

use vstd::prelude::*;

verus! {

/// Largest magnitude, in hundredths, a reading may carry: +/-10000.00 units,
/// far beyond any calibrated temperature or humidity value.
pub const CENTI_LIMIT: i64 = 1_000_000;

/// One sensor sample: temperature in hundredths of a degree Celsius and
/// relative humidity in hundredths of a percent.
#[derive(Clone, Copy, PartialEq, Eq, Structural, Debug)]
pub struct Measurement {
    pub temperature_centi: i64,
    pub humidity_centi: i64,
}

/// A transient sensor read failure; the reading is skipped, never retried.
#[derive(Clone, Copy, PartialEq, Eq, Structural, Debug)]
pub struct SensorFault {
    /// Driver status code of the failed read.
    pub code: u8,
}

impl Measurement {
    /// Both readings stay within the fixed-point range.
    pub open spec fn wf(self) -> bool {
        &&& -CENTI_LIMIT <= self.temperature_centi <= CENTI_LIMIT
        &&& -CENTI_LIMIT <= self.humidity_centi <= CENTI_LIMIT
    }

    /// Build a sample from readings already in hundredths; `None` when a
    /// value is outside the range a real sensor can produce.
    pub fn try_new(temperature_centi: i64, humidity_centi: i64) -> (r: Option<Measurement>)
        ensures
            r is Some <==> (-CENTI_LIMIT <= temperature_centi <= CENTI_LIMIT
                && -CENTI_LIMIT <= humidity_centi <= CENTI_LIMIT),
            r matches Some(m) ==> m == (Measurement { temperature_centi, humidity_centi })
                && m.wf(),
    {
        if -CENTI_LIMIT <= temperature_centi && temperature_centi <= CENTI_LIMIT
            && -CENTI_LIMIT <= humidity_centi && humidity_centi <= CENTI_LIMIT {
            Some(Measurement { temperature_centi, humidity_centi })
        } else {
            None
        }
    }

    /// The sample as a plain pair, `(temperature, humidity)`, the form in
    /// which it crosses the handoff channel.
    pub fn to_pair(self) -> (r: (i64, i64))
        ensures
            r.0 == self.temperature_centi,
            r.1 == self.humidity_centi,
    {
        (self.temperature_centi, self.humidity_centi)
    }

    /// Rebuild a sample from the pair form.
    pub fn from_pair(p: (i64, i64)) -> (r: Measurement)
        ensures
            r == (Measurement { temperature_centi: p.0, humidity_centi: p.1 }),
    {
        Measurement { temperature_centi: p.0, humidity_centi: p.1 }
    }
}

/// The sampler's per-tick decision: a good reading is published, a faulted
/// one is skipped and the sampler just waits for the next tick. No error
/// leaves the sampler.
pub fn sampler_step(reading: Result<Measurement, SensorFault>) -> (r: Option<Measurement>)
    ensures
        reading matches Ok(m) ==> r == Some(m),
        reading is Err ==> r is None,
{
    match reading {
        Ok(m) => Some(m),
        Err(_) => None,
    }
}

/// The samples a run of sensor readings publishes: exactly the successful
/// readings, in order; every faulted cycle is skipped.
pub open spec fn published_of(rs: Seq<Result<Measurement, SensorFault>>) -> Seq<Measurement>
    decreases rs.len(),
{
    if rs.len() == 0 {
        Seq::<Measurement>::empty()
    } else {
        let rest = published_of(rs.drop_last());
        match rs.last() {
            Ok(m) => rest.push(m),
            Err(_) => rest,
        }
    }
}

/// Run the sampler's decision over a whole sequence of readings and collect
/// what it would publish: the successful readings, in order, nothing else.
pub fn samples_published(rs: &Vec<Result<Measurement, SensorFault>>) -> (r: Vec<Measurement>)
    ensures
        r@ == published_of(rs@),
{
    let mut out: Vec<Measurement> = Vec::new();
    let mut i: usize = 0;
    while i < rs.len()
        invariant
            0 <= i <= rs@.len(),
            out@ == published_of(rs@.take(i as int)),
        decreases rs@.len() - i,
    {
        proof {
            assert(rs@.take(i + 1).drop_last() =~= rs@.take(i as int));
            assert(rs@.take(i + 1).last() == rs@[i as int]);
        }
        match sampler_step(rs[i]) {
            Some(m) => out.push(m),
            None => (),
        }
        i = i + 1;
    }
    proof {
        assert(rs@.take(rs@.len() as int) =~= rs@);
    }
    out
}

} // verus!
