//! Measurements of single requests.
//!
//! Times are plain integers: a timestamp counts nanoseconds since the Unix epoch, an
//! instant counts nanoseconds on a monotonic clock, a duration counts nanoseconds.
use vstd::prelude::*;

verus! {

/// What was measured of one request.
#[derive(Debug, Clone, Copy, PartialEq, Eq)]
pub struct Metrics {
    pub bytes: usize,
    pub timestamp: u64,
    pub duration: (u64, u64),
}

/// The time from `start` to `end`; zero when `end` is earlier, as `Instant::duration_since` does.
pub open spec fn elapsed(start: u64, end: u64) -> u64 {
    if end >= start { (end - start) as u64 } else { 0 }
}

impl Metrics {
    /// When the request was sent.
    pub fn timestamp(&self) -> (t: u64)
        ensures
            t == self.timestamp,
    {
        self.timestamp
    }

    /// How long the request took.
    pub fn latency(&self) -> (d: u64)
        ensures
            d == elapsed(self.duration.0, self.duration.1),
    {
        let (start, end) = self.duration;
        if end >= start { end - start } else { 0 }
    }

    /// When the response came back.
    pub fn end_timestamp(&self) -> (t: u64)
        requires
            self.timestamp + elapsed(self.duration.0, self.duration.1) <= u64::MAX,
        ensures
            t == self.timestamp + elapsed(self.duration.0, self.duration.1),
    {
        self.timestamp + self.latency()
    }

    /// The instant the request was sent.
    pub fn start_instant(&self) -> (t: u64)
        ensures
            t == self.duration.0,
    {
        let (start, _) = self.duration;
        start
    }

    /// The instant the response came back.
    pub fn end_instant(&self) -> (t: u64)
        ensures
            t == self.duration.1,
    {
        let (_, end) = self.duration;
        end
    }
}

/// A response together with what was measured of its request.
#[derive(Debug, Clone, PartialEq, Eq)]
pub struct MeasuredResponse<Res> {
    response: Res,
    metrics: Metrics,
}

impl<Res> MeasuredResponse<Res> {
    /// A response sent at `timestamp`, between the instants of `duration`.
    pub fn new(response: Res, timestamp: u64, duration: (u64, u64)) -> (res: Self)
        ensures
            res.spec_response() == response,
            res.spec_metrics() == (Metrics { bytes: 0, timestamp, duration }),
    {
        let bytes: usize = 0;
        let metrics = Metrics { bytes, timestamp, duration };
        MeasuredResponse { response, metrics }
    }

    /// The response.
    pub closed spec fn spec_response(&self) -> Res {
        self.response
    }

    /// What was measured.
    pub closed spec fn spec_metrics(&self) -> Metrics {
        self.metrics
    }

    /// The response.
    pub fn response(&self) -> (r: &Res)
        ensures
            *r == self.spec_response(),
    {
        &self.response
    }

    /// The response, taken out.
    pub fn into_response(self) -> (r: Res)
        ensures
            r == self.spec_response(),
    {
        self.response
    }

    /// What was measured.
    pub fn metrics(&self) -> (m: &Metrics)
        ensures
            *m == self.spec_metrics(),
    {
        &self.metrics
    }

    /// What was measured, taken out.
    pub fn into_metrics(self) -> (m: Metrics)
        ensures
            m == self.spec_metrics(),
    {
        self.metrics
    }

    /// When the request was sent.
    pub fn timestamp(&self) -> (t: u64)
        ensures
            t == self.spec_metrics().timestamp,
    {
        self.metrics.timestamp()
    }

    /// How long the request took.
    pub fn latency(&self) -> (d: u64)
        ensures
            d == elapsed(self.spec_metrics().duration.0, self.spec_metrics().duration.1),
    {
        self.metrics.latency()
    }

    /// When the response came back.
    pub fn end_timestamp(&self) -> (t: u64)
        requires
            self.spec_metrics().timestamp + elapsed(self.spec_metrics().duration.0, self.spec_metrics().duration.1) <= u64::MAX,
        ensures
            t == self.spec_metrics().timestamp + elapsed(self.spec_metrics().duration.0, self.spec_metrics().duration.1),
    {
        self.metrics.end_timestamp()
    }
}

/// Why a request gave no response. Errors of the services are held by their messages.
#[derive(Debug, Clone, PartialEq, Eq)]
pub enum RequestError {
    Timeout(u64),
    FailToMakeRequest(String),
    NoReady(String),
    InnerServiceError(String),
    FailToMeasureLatency(String),
    Unknown(String),
}

/// How `Debug` shows `std::time::Duration::from_nanos(nanos)`, such as `1.5s` or `500ms`.
pub uninterp spec fn duration_debug(nanos: u64) -> Seq<char>;

/// The duration of `nanos` nanoseconds, as `Debug` shows a `std::time::Duration`.
#[verifier::external_body]
fn duration_text(nanos: u64) -> (res: String)
    ensures
        res@ == duration_debug(nanos),
{
    format!("{:?}", std::time::Duration::from_nanos(nanos))
}

impl RequestError {
    /// The text of the error, as it is displayed.
    pub open spec fn message_view(&self) -> Seq<char> {
        match self {
            RequestError::Timeout(d) => "request timeout: "@ + duration_debug(*d),
            RequestError::FailToMakeRequest(s) => s@,
            RequestError::NoReady(s) => s@,
            RequestError::InnerServiceError(s) => s@,
            RequestError::FailToMeasureLatency(s) => s@,
            RequestError::Unknown(s) => s@,
        }
    }

    /// The text of the error, as it is displayed.
    pub fn message(&self) -> (res: String)
        ensures
            res@ == self.message_view(),
    {
        match self {
            RequestError::Timeout(d) => {
                let mut m = String::from_str("request timeout: ");
                let t = duration_text(*d);
                m.append(t.as_str());
                m
            },
            RequestError::FailToMakeRequest(s) => s.clone(),
            RequestError::NoReady(s) => s.clone(),
            RequestError::InnerServiceError(s) => s.clone(),
            RequestError::FailToMeasureLatency(s) => s.clone(),
            RequestError::Unknown(s) => s.clone(),
        }
    }
}

/// The outcome of one request: a response, or why there is none.
#[derive(Debug, Clone, PartialEq, Eq)]
pub enum RequestResult<Res> {
    Response(Res),
    Timeout(u64),
    FailToMakeRequest(String),
    NoReady(String),
    RequestError(String),
}

impl<Res> RequestResult<Res> {
    /// The response; a timeout as the error it is.
    pub fn response(self) -> (r: Result<Res, RequestError>)
        requires
            self is Response || self is Timeout,
        ensures
            match self {
                RequestResult::Response(res) => r == Ok::<Res, RequestError>(res),
                RequestResult::Timeout(d) => r == Err::<Res, RequestError>(RequestError::Timeout(d)),
                _ => false,
            },
    {
        match self {
            RequestResult::Response(res) => Ok(res),
            RequestResult::Timeout(d) => Err(RequestError::Timeout(d)),
            _ => {
                proof { assert(false); }
                Err(RequestError::Unknown(String::new()))
            },
        }
    }

    /// The error that stands for an outcome without response.
    pub open spec fn error_of(self) -> RequestError {
        match self {
            RequestResult::Timeout(d) => RequestError::Timeout(d),
            RequestResult::FailToMakeRequest(e) => RequestError::FailToMakeRequest(e),
            RequestResult::NoReady(e) => RequestError::NoReady(e),
            RequestResult::RequestError(e) => RequestError::InnerServiceError(e),
            RequestResult::Response(_) => arbitrary(),
        }
    }

    /// The error that stands for an outcome without response.
    pub fn into_error(self) -> (e: RequestError)
        requires
            !(self is Response),
        ensures
            e == self.error_of(),
    {
        match self {
            RequestResult::Timeout(d) => RequestError::Timeout(d),
            RequestResult::FailToMakeRequest(e) => RequestError::FailToMakeRequest(e),
            RequestResult::NoReady(e) => RequestError::NoReady(e),
            RequestResult::RequestError(e) => RequestError::InnerServiceError(e),
            RequestResult::Response(_) => {
                proof { assert(false); }
                RequestError::Unknown(String::new())
            },
        }
    }

    /// Whether the request timed out.
    pub fn is_timeout(&self) -> (b: bool)
        ensures
            b == (self is Timeout),
    {
        match self {
            RequestResult::Timeout(_) => true,
            _ => false,
        }
    }
}

} // verus!
