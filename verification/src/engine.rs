//! The request engine: what is received in one exchange, and the words for
//! what can go wrong in it.
//!
//! The caller writes the payload and reads from the server in chunks; the
//! engine keeps what was read, says when the response is complete, and reads
//! the head of the response from the bytes.

use crate::error::GarmataError;
use crate::http::address::Address;
use crate::http::response::{parse_response, HttpResponse};
use crate::text::{decimal, decimal_text};
use vstd::prelude::*;

verus! {

/// The size of the buffer that the caller reads into.
pub const CHUNK_SIZE: usize = 512;

/// What `String::from_utf8_lossy` makes of bytes: their text, with the
/// replacement character for what is no UTF-8.
pub uninterp spec fn lossy_text(bytes: Seq<u8>) -> Seq<char>;

/// `String::from_utf8_lossy` of the standard library, its result as an
/// owned string. The result is a function of the bytes alone; the contract
/// gives it the name `lossy_text` and claims nothing else of it.
#[verifier::external_body]
fn decode_lossy(bytes: &[u8]) -> (r: String)
    ensures
        r@ == lossy_text(bytes@),
{
    String::from_utf8_lossy(bytes).into_owned()
}

/// The bytes received so far in one exchange.
#[derive(Debug)]
pub struct Reception {
    pub bytes: Vec<u8>,
    /// Whether anything was read yet.
    pub started: bool,
}

/// What one read means for the exchange.
#[derive(Debug)]
pub struct Progress {
    /// This was the first read: the wait for the server ends here, and the
    /// download begins.
    pub first: bool,
    /// This was the last read: the response is complete.
    pub last: bool,
}

/// A read of `received` bytes into a buffer of `capacity` bytes is the last
/// one: the server sent nothing, or less than the buffer holds.
pub open spec fn is_last_read(received: nat, capacity: nat) -> bool {
    received == 0 || received != capacity
}

/// What the error says when the head of a response from `href` cannot be
/// read.
pub open spec fn parse_failure(href: Seq<char>) -> Seq<char> {
    "could not parse http response"@ + " from url "@ + href
}

impl Reception {
    /// Nothing received yet.
    pub fn new() -> (r: Reception)
        ensures
            r.bytes@ == Seq::<u8>::empty(),
            !r.started,
    {
        Reception { bytes: Vec::new(), started: false }
    }

    /// Takes in what one read brought: `received` are the bytes read into a
    /// buffer of `capacity` bytes.
    pub fn absorb(&mut self, received: &[u8], capacity: usize) -> (r: Progress)
        ensures
            final(self).bytes@ == old(self).bytes@ + received@,
            final(self).started,
            r.first == !old(self).started,
            r.last == is_last_read(received@.len(), capacity as nat),
    {
        let first = !self.started;
        self.started = true;
        let mut i: usize = 0;
        assert(received@.take(0) =~= Seq::<u8>::empty());
        assert(self.bytes@ =~= old(self).bytes@ + received@.take(0));
        while i < received.len()
            invariant
                i <= received.len(),
                self.started,
                self.bytes@ == old(self).bytes@ + received@.take(i as int),
            decreases received.len() - i,
        {
            self.bytes.push(received[i]);
            assert(self.bytes@ =~= old(self).bytes@ + received@.take(i + 1));
            i += 1;
        }
        assert(received@.take(i as int) =~= received@);
        Progress { first, last: received.len() == 0 || received.len() != capacity }
    }

    /// The text of what was received.
    pub fn text(&self) -> (r: String)
        ensures
            r@ == lossy_text(self.bytes@),
    {
        decode_lossy(self.bytes.as_slice())
    }

    /// Reads the head of the response from what was received from `url`.
    pub fn finish(self, url: &Address) -> (r: Result<HttpResponse, GarmataError>)
        ensures
            match r {
                Ok(response) => parse_response(lossy_text(self.bytes@)) == Some(response@),
                Err(e) => parse_response(lossy_text(self.bytes@)) is None && e.reason@
                    == parse_failure(url@.href),
            },
    {
        let text = self.text();
        parse_received(text.as_str(), url)
    }
}

/// Reads the head of the response from the text received from `url`. The
/// error names the URL.
pub fn parse_received(text: &str, url: &Address) -> (r: Result<HttpResponse, GarmataError>)
    ensures
        match r {
            Ok(response) => parse_response(text@) == Some(response@),
            Err(e) => parse_response(text@) is None && e.reason@ == parse_failure(url@.href),
        },
{
    match HttpResponse::parse(text) {
        Ok(response) => Ok(response),
        Err(e) => {
            let mut reason = e.reason;
            reason.append(" from url ");
            reason.append(url.href.as_str());
            Err(GarmataError { reason })
        },
    }
}

/// A text, a second one, a colon and a port.
pub open spec fn with_endpoint(words: Seq<char>, address: Seq<char>, port: u16) -> Seq<char> {
    words + address + ":"@ + decimal(port as nat)
}

/// The error with `words` and then `subject`.
fn failure(words: &str, subject: &str) -> (e: GarmataError)
    ensures
        e.reason@ == words@ + subject@,
{
    let mut reason = words.to_owned();
    reason.append(subject);
    GarmataError { reason }
}

/// The error with `words`, then an address, a colon and a port.
fn endpoint_failure(words: &str, address: &str, port: u16) -> (e: GarmataError)
    ensures
        e.reason@ == with_endpoint(words@, address@, port),
{
    let mut reason = words.to_owned();
    reason.append(address);
    reason.append(":");
    reason.append(decimal_text(port as u128).as_str());
    GarmataError { reason }
}

/// The host name has no address.
pub fn unresolved_hostname() -> (e: GarmataError)
    ensures
        e.reason@ == "unresolved hostname"@,
{
    GarmataError::new("unresolved hostname")
}

/// No connection to the address and port.
pub fn connect_failure(address: &str, port: u16) -> (e: GarmataError)
    ensures
        e.reason@ == with_endpoint("cannot connect to "@, address@, port),
{
    endpoint_failure("cannot connect to ", address, port)
}

/// The connection to the address and port broke at once.
pub fn connect_io_failure(address: &str, port: u16) -> (e: GarmataError)
    ensures
        e.reason@ == with_endpoint("unexpected I/O errors while connection to "@, address@, port),
{
    endpoint_failure("unexpected I/O errors while connection to ", address, port)
}

/// No TLS handshake with the domain.
pub fn handshake_failure(domain: &str) -> (e: GarmataError)
    ensures
        e.reason@ == "cannot establish a tls handshake to "@ + domain@,
{
    failure("cannot establish a tls handshake to ", domain)
}

/// The connection broke right after the TLS handshake with the domain.
pub fn handshake_io_failure(domain: &str) -> (e: GarmataError)
    ensures
        e.reason@ == "unexpected I/O errors while tls handshake to "@ + domain@,
{
    failure("unexpected I/O errors while tls handshake to ", domain)
}

/// The request could not be written.
pub fn send_failure() -> (e: GarmataError)
    ensures
        e.reason@ == "cannot send request to the server"@,
{
    GarmataError::new("cannot send request to the server")
}

/// The request was written but not sent off.
pub fn flush_failure(url: &Address) -> (e: GarmataError)
    ensures
        e.reason@ == "unexpected I/O errors while sending request to "@ + url@.href,
{
    failure("unexpected I/O errors while sending request to ", url.href.as_str())
}

/// The response could not be read.
pub fn read_failure(url: &Address) -> (e: GarmataError)
    ensures
        e.reason@ == "could not read server's response for url "@ + url@.href,
{
    failure("could not read server's response for url ", url.href.as_str())
}

} // verus!
