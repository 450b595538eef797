//! The HTTP side of the load generator: cookies, requests, responses and the
//! record of one finished request.

use vstd::prelude::*;

pub mod address;
pub mod cookies;
pub mod request;
pub mod response;

verus! {

/// The record of one finished request. Every duration is a number of
/// nanoseconds.
#[derive(Debug, Clone)]
pub struct HttpResult {
    pub group: String,
    pub flow: String,
    /// When the flow started, as a timestamp in UTC with milliseconds.
    pub start_timestamp: String,
    pub dns_duration: u128,
    pub connect_duration: u128,
    pub tls_duration: u128,
    /// The time that the exchanges before the last one took, all phases
    /// together.
    pub redirect_duration: u128,
    pub sending_duration: u128,
    pub waiting_duration: u128,
    pub download_duration: u128,
    /// The sum of the seven durations.
    pub total_duration: u128,
    pub response_status: String,
}

/// What a result holds, as plain values.
pub struct ResultView {
    pub group: Seq<char>,
    pub flow: Seq<char>,
    pub start_timestamp: Seq<char>,
    pub dns_duration: u128,
    pub connect_duration: u128,
    pub tls_duration: u128,
    pub redirect_duration: u128,
    pub sending_duration: u128,
    pub waiting_duration: u128,
    pub download_duration: u128,
    pub total_duration: u128,
    pub response_status: Seq<char>,
}

impl View for HttpResult {
    type V = ResultView;

    open spec fn view(&self) -> ResultView {
        ResultView {
            group: self.group@,
            flow: self.flow@,
            start_timestamp: self.start_timestamp@,
            dns_duration: self.dns_duration,
            connect_duration: self.connect_duration,
            tls_duration: self.tls_duration,
            redirect_duration: self.redirect_duration,
            sending_duration: self.sending_duration,
            waiting_duration: self.waiting_duration,
            download_duration: self.download_duration,
            total_duration: self.total_duration,
            response_status: self.response_status@,
        }
    }
}

/// The total of a result is the sum of its seven phases.
pub open spec fn adds_up(r: ResultView) -> bool {
    r.total_duration == r.dns_duration + r.connect_duration + r.tls_duration + r.redirect_duration
        + r.sending_duration + r.waiting_duration + r.download_duration
}

} // verus!
