use vstd::prelude::*;

use crate::exchange::Exchange;
use crate::text::chunk_forward;
use crate::text::first_line;
use crate::text::host_prefix;
use crate::text::lemma_chunk_forward_last;
use crate::text::lemma_chunk_forward_step;
use crate::text::lemma_find_nl_is;
use crate::text::line_has_host;
use crate::text::scan_to_nl;
use crate::text::token_bounds;
use crate::text::tok_views;
use crate::text::tokens;

verus! {

/// Size of one socket read. A read that fills less than this is taken as the
/// end of the request (or of the response) — the relay's framing heuristic.
/// Beware: a payload that is an exact multiple of this size is not recognised
/// as complete, and a header split across two reads can be misparsed; the
/// relay deliberately has no content-length awareness.
pub const CHUNK_SIZE: usize = 1024;

/// How many workers the relay's pool runs by default.
pub const DEFAULT_POOL_SIZE: usize = 4;

/// The text a byte sequence decodes to under best-effort UTF-8 decoding; a
/// function of the bytes alone.
pub uninterp spec fn utf8_lossy_of(b: Seq<u8>) -> Seq<char>;

/// Relies on String::from_utf8_lossy: best-effort decoding whose result is a
/// function of the bytes alone (valid UTF-8 is kept, invalid sequences are
/// replaced).
#[verifier::external_body]
fn decode_lossy(b: &[u8]) -> (r: String)
    ensures
        r@ == utf8_lossy_of(b@),
{
    String::from_utf8_lossy(b).into_owned()
}

/// Where one connection stands in its current exchange.
pub enum Phase {
    /// Before the upstream connection for the next exchange is made.
    AwaitUpstream,
    /// Reading the client's request and forwarding it upstream.
    Request,
    /// Reading the upstream's response and relaying it back.
    Response,
    /// The exchange is complete and ready to be recorded.
    Finished,
    /// The connection's loop is over; nothing further happens on it.
    Closed,
}

/// The mathematical value of a [`Relay`].
#[verifier::ext_equal]
pub ghost struct RelayView {
    pub phase: Phase,
    pub proxy: Seq<char>,
    pub method: Seq<char>,
    pub uri: Seq<char>,
    pub raw_request: Seq<char>,
    pub raw_response: Seq<char>,
    pub first_done: bool,
}

/// The per-connection relay: it consumes the chunks that the surrounding I/O
/// layer reads, decides every transition of the connection's loop, rewrites
/// the request's host line toward the configured upstream address, and builds
/// the exchange record.
pub struct Relay {
    phase: Phase,
    proxy: String,
    method: String,
    uri: String,
    raw_request: String,
    raw_response: String,
    first_done: bool,
}

impl View for Relay {
    type V = RelayView;

    closed spec fn view(&self) -> RelayView {
        RelayView {
            phase: self.phase,
            proxy: self.proxy@,
            method: self.method@,
            uri: self.uri@,
            raw_request: self.raw_request@,
            raw_response: self.raw_response@,
            first_done: self.first_done,
        }
    }
}

impl Relay {
    /// A fresh relay for one accepted connection, forwarding to `proxy`.
    pub fn new(proxy: String) -> (r: Self)
        ensures
            r@.phase == Phase::AwaitUpstream,
            r@.proxy == proxy@,
            r@.method =~= Seq::<char>::empty(),
            r@.uri =~= Seq::<char>::empty(),
            r@.raw_request =~= Seq::<char>::empty(),
            r@.raw_response =~= Seq::<char>::empty(),
            !r@.first_done,
    {
        Relay {
            phase: Phase::AwaitUpstream,
            proxy,
            method: String::new(),
            uri: String::new(),
            raw_request: String::new(),
            raw_response: String::new(),
            first_done: false,
        }
    }

    /// The upstream connection for this exchange is open; the request phase
    /// begins.
    pub fn on_connected(&mut self)
        requires
            old(self)@.phase == Phase::AwaitUpstream,
        ensures
            final(self)@ =~= (RelayView { phase: Phase::Request, ..old(self)@ }),
    {
        self.phase = Phase::Request;
    }

    /// Connecting to the upstream failed: the one diagnostic exchange of this
    /// connection, with the error text in place of the method and every other
    /// field empty, and the connection's loop is over (no retry).
    pub fn on_connect_failed(&mut self, err: String) -> (e: Exchange)
        requires
            old(self)@.phase == Phase::AwaitUpstream,
        ensures
            final(self)@ =~= (RelayView { phase: Phase::Closed, ..old(self)@ }),
            e@.method == err@,
            e@.uri =~= Seq::<char>::empty(),
            e@.raw_request =~= Seq::<char>::empty(),
            e@.raw_response =~= Seq::<char>::empty(),
            e@.elapsed_ms == 0,
    {
        self.phase = Phase::Closed;
        Exchange {
            method: err,
            uri: String::new(),
            raw_request: String::new(),
            raw_response: String::new(),
            elapsed_ms: 0,
        }
    }

    /// The client closed (a zero-byte read) or failed while the request was
    /// awaited: the connection's loop is over and no partial exchange is
    /// emitted.
    pub fn on_client_closed(&mut self)
        requires
            old(self)@.phase == Phase::Request,
        ensures
            final(self)@ =~= (RelayView { phase: Phase::Closed, ..old(self)@ }),
    {
        self.phase = Phase::Closed;
    }

    /// One chunk of the client's request. Its decoded text is split into
    /// lines; the very first line of the exchange yields the method and URI
    /// when it has more than two whitespace-separated tokens; every line that
    /// contains `Host: ` is replaced by a host line naming the upstream; the
    /// rewritten text is returned for forwarding, in order, with the original
    /// line breaks and none added after the chunk's last line, and is
    /// recorded in the raw request. A short read moves the relay to the
    /// response phase.
    pub fn on_client_chunk(&mut self, chunk: &[u8]) -> (fwd: String)
        requires
            old(self)@.phase == Phase::Request,
            chunk@.len() <= CHUNK_SIZE,
        ensures
            ({
                let text = utf8_lossy_of(chunk@);
                let toks = tokens(first_line(text));
                &&& fwd@ == chunk_forward(text, old(self)@.proxy)
                &&& final(self)@.proxy == old(self)@.proxy
                &&& final(self)@.raw_request == old(self)@.raw_request + fwd@
                &&& final(self)@.raw_response == old(self)@.raw_response
                &&& final(self)@.first_done
                &&& (if !old(self)@.first_done && toks.len() > 2 {
                    final(self)@.method == toks[0] && final(self)@.uri == toks[1]
                } else {
                    final(self)@.method == old(self)@.method && final(self)@.uri == old(
                        self,
                    )@.uri
                })
                &&& final(self)@.phase == (if chunk@.len() < CHUNK_SIZE {
                    Phase::Response
                } else {
                    Phase::Request
                })
            }),
    {
        let text = decode_lossy(chunk);
        let t = text.as_str();
        let n = t.unicode_len();
        if !self.first_done {
            let e0 = scan_to_nl(t, 0, n);
            proof {
                lemma_find_nl_is(t@, e0 as int);
            }
            let fl = t.substring_char(0, e0);
            proof {
                assert(fl@ =~= first_line(t@));
            }
            let toks = token_bounds(fl);
            if toks.len() > 2 {
                let (a0, b0) = toks[0];
                let (a1, b1) = toks[1];
                proof {
                    assert(tok_views(fl@, toks@)[0] == fl@.subrange(a0 as int, b0 as int));
                    assert(tok_views(fl@, toks@)[1] == fl@.subrange(a1 as int, b1 as int));
                }
                self.method = fl.substring_char(a0, b0).to_owned();
                self.uri = fl.substring_char(a1, b1).to_owned();
            }
        }
        self.first_done = true;
        let ghost p = self@.proxy;
        let mut out = String::new();
        let mut pos: usize = 0;
        proof {
            assert(t@.skip(0) =~= t@);
        }
        loop
            invariant_except_break
                chunk_forward(t@, p) =~= out@ + chunk_forward(t@.skip(pos as int), p),
            invariant
                n == t@.len(),
                pos <= n,
                self@.proxy == p,
            ensures
                out@ =~= chunk_forward(t@, p),
            decreases n - pos,
        {
            let e = scan_to_nl(t, pos, n);
            let ghost suffix = t@.skip(pos as int);
            proof {
                assert forall|k: int| 0 <= k < e - pos implies suffix[k] != '\n' by {
                    assert(t@[pos + k] != '\n');
                }
                lemma_find_nl_is(suffix, e - pos);
            }
            let line = t.substring_char(pos, e);
            proof {
                assert(line@ =~= suffix.take(e - pos));
            }
            if line_has_host(line) {
                out.append("Host: ");
                out.append(self.proxy.as_str());
                proof {
                    reveal_strlit("Host: ");
                    assert("Host: "@ =~= host_prefix());
                }
            } else {
                out.append(line);
            }
            if e == n {
                proof {
                    lemma_chunk_forward_last(suffix, p);
                    assert(suffix.take(e - pos) =~= suffix);
                    assert(out@ =~= chunk_forward(t@, p));
                }
                break ;
            }
            out.append("\n");
            proof {
                reveal_strlit("\n");
                assert("\n"@ =~= seq!['\n']);
                lemma_chunk_forward_step(suffix, p);
                assert(first_line(suffix) == suffix.take(e - pos));
                assert(suffix.skip(e - pos + 1) =~= t@.skip(e + 1));
            }
            pos = e + 1;
        }
        self.raw_request.append(out.as_str());
        self.phase = if chunk.len() < CHUNK_SIZE {
            Phase::Response
        } else {
            Phase::Request
        };
        out
    }

    /// One chunk of the upstream's response: its decoded text is recorded,
    /// and a short read ends the response. The caller relays the same raw
    /// bytes back to the client unmodified.
    pub fn on_upstream_chunk(&mut self, chunk: &[u8]) -> (done: bool)
        requires
            old(self)@.phase == Phase::Response,
            chunk@.len() <= CHUNK_SIZE,
        ensures
            done == (chunk@.len() < CHUNK_SIZE),
            final(self)@ =~= (RelayView {
                phase: if done {
                    Phase::Finished
                } else {
                    Phase::Response
                },
                raw_response: old(self)@.raw_response + utf8_lossy_of(chunk@),
                ..old(self)@
            }),
    {
        let text = decode_lossy(chunk);
        self.raw_response.append(text.as_str());
        if chunk.len() < CHUNK_SIZE {
            self.phase = Phase::Finished;
            true
        } else {
            false
        }
    }

    /// Reading the upstream's response failed: the response collected so far
    /// stands, and the exchange is finished.
    pub fn on_upstream_error(&mut self)
        requires
            old(self)@.phase == Phase::Response,
        ensures
            final(self)@ =~= (RelayView { phase: Phase::Finished, ..old(self)@ }),
    {
        self.phase = Phase::Finished;
    }

    /// Takes the finished exchange out of the relay with the elapsed time the
    /// caller measured, and re-arms the relay for the next exchange on the
    /// same connection (which connects upstream afresh).
    pub fn finish_exchange(&mut self, elapsed_ms: u64) -> (e: Exchange)
        requires
            old(self)@.phase == Phase::Finished,
        ensures
            e@.method == old(self)@.method,
            e@.uri == old(self)@.uri,
            e@.raw_request == old(self)@.raw_request,
            e@.raw_response == old(self)@.raw_response,
            e@.elapsed_ms == elapsed_ms,
            final(self)@.phase == Phase::AwaitUpstream,
            final(self)@.proxy == old(self)@.proxy,
            final(self)@.method =~= Seq::<char>::empty(),
            final(self)@.uri =~= Seq::<char>::empty(),
            final(self)@.raw_request =~= Seq::<char>::empty(),
            final(self)@.raw_response =~= Seq::<char>::empty(),
            !final(self)@.first_done,
    {
        let method = self.method.clone();
        let uri = self.uri.clone();
        let raw_request = self.raw_request.clone();
        let raw_response = self.raw_response.clone();
        self.method = String::new();
        self.uri = String::new();
        self.raw_request = String::new();
        self.raw_response = String::new();
        self.first_done = false;
        self.phase = Phase::AwaitUpstream;
        Exchange { method, uri, raw_request, raw_response, elapsed_ms }
    }
}

/// The listen address to use: the caller's own when it names one, otherwise
/// the default.
pub fn effective_listen_addr(s: String) -> (r: String)
    ensures
        r@ == (if s@.len() == 0 {
            "0.0.0.0:8081"@
        } else {
            s@
        }),
{
    if s.as_str().is_empty() {
        "0.0.0.0:8081".to_owned()
    } else {
        s
    }
}

/// The upstream address to use: the caller's own when it names one, otherwise
/// the default.
pub fn effective_upstream_addr(s: String) -> (r: String)
    ensures
        r@ == (if s@.len() == 0 {
            "127.0.0.1:8080"@
        } else {
            s@
        }),
{
    if s.as_str().is_empty() {
        "127.0.0.1:8080".to_owned()
    } else {
        s
    }
}

} // verus!
