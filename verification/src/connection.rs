//! The dispatch logic of the RPC engine.
//!
//! A connection multiplexes concurrent calls over one byte stream.
//! Each call is assigned a fresh serial from a wrapping 32-bit counter
//! that starts at 1; the serial is entered into a pending table
//! together with a waiter token before the frame is written, and the
//! daemon's reply — matched by serial alone, whatever order replies
//! arrive in — releases exactly that waiter. A reply bearing an
//! unknown serial is discarded without effect.
//!
//! [`ConnectionCore`] holds that state and makes those decisions;
//! performing the I/O around it — sockets, tasks, delivery into the
//! waiters — is left to the caller.

use vstd::prelude::*;

verus! {

use crate::packet::MessageType;
use crate::packet::Packet;
use crate::packet::PacketError;
use crate::packet::Status;
use vstd::string::StringSliceAdditionalSpecFns;

/// Errors reported by connections and RPC calls.
#[derive(Debug, Clone, PartialEq)]
pub enum Error {
    /// An XDR encoding or decoding failure.
    Xdr(crate::codec::Error),
    /// An I/O failure, with its description.
    Io(String),
    /// A connection failure, described in text.
    Connection(String),
    /// A URI whose scheme this library does not speak.
    UnsupportedUri(String),
    /// The connection closed while calls were outstanding; carries a
    /// description of the original cause.
    ConnectionClosed(String),
    /// A structured error from the daemon.
    Rpc {
        /// The daemon's error code.
        code: i32,
        /// The daemon's error domain.
        domain: i32,
        /// The daemon's message.
        message: String,
    },
    /// Authentication failed.
    AuthFailed(String),
    /// A protocol violation, described in text.
    Protocol(String),
    /// The caller's deadline passed.
    Timeout,
    /// A frame longer than the permitted maximum.
    PacketTooLarge(usize),
    /// A remote error payload, passed through as text.
    RemoteError(String),
    /// A malformed packet.
    Packet(PacketError),
}

/// The default Unix socket path of the system daemon.
pub const SYSTEM_SOCKET_PATH: &'static str = "/var/run/libvirt/libvirt-sock";

/// The Unix socket path of a session daemon, relative to the runtime
/// directory.
pub const SESSION_SOCKET_PATH: &'static str = "libvirt/libvirt-sock";

/// The serial counter's successor: one more, wrapping at 2^32.
pub open spec fn spec_wrap_inc(c: u32) -> u32 {
    if c == u32::MAX {
        0u32
    } else {
        (c + 1) as u32
    }
}

/// A pending table is well formed when no serial appears twice.
pub open spec fn wf_pending(p: Seq<(i32, u64)>) -> bool {
    forall|i: int, j: int| 0 <= i < j < p.len() ==> p[i].0 != p[j].0
}

/// Whether some entry of the table bears `serial`.
pub open spec fn spec_has_pending(p: Seq<(i32, u64)>, serial: i32) -> bool {
    exists|k: int| 0 <= k < p.len() && p[k].0 == serial
}

/// What the engine does with one incoming packet.
#[derive(Debug, Clone, PartialEq)]
pub enum ReplyAction {
    /// Release the waiter with the reply payload.
    DeliverOk(u64, Vec<u8>),
    /// Release the waiter with the daemon's error payload.
    DeliverErr(u64, Vec<u8>),
    /// Discard the packet: an event, stream data, or a reply nobody
    /// waits for.
    Ignore,
}

/// The dispatch state of one connection: the serial counter and the
/// pending table, mapping each outstanding serial to a waiter token.
pub struct ConnectionCore {
    /// The serial handed to the next call.
    pub counter: u32,
    /// Outstanding calls: each serial with its waiter token.
    pub pending: Vec<(i32, u64)>,
}

impl ConnectionCore {
    /// A fresh connection: the counter starts at 1 and nothing is
    /// outstanding.
    pub fn new() -> (r: Self)
        ensures
            r.counter == 1u32,
            r.pending@ == Seq::<(i32, u64)>::empty(),
            wf_pending(r.pending@),
    {
        Self { counter: 1, pending: Vec::new() }
    }

    /// Assign the next serial: the counter's value, reinterpreted as
    /// signed, and the counter moves on by one, wrapping at 2^32.
    pub fn next_serial(&mut self) -> (r: i32)
        ensures
            r == old(self).counter as i32,
            final(self).counter == spec_wrap_inc(old(self).counter),
            final(self).pending@ == old(self).pending@,
    {
        let serial = self.counter as i32;
        self.counter = if self.counter == u32::MAX {
            0
        } else {
            self.counter + 1
        };
        serial
    }

    /// Whether a call with this serial is outstanding.
    pub fn has_pending(&self, serial: i32) -> (r: bool)
        ensures
            r == spec_has_pending(self.pending@, serial),
    {
        let mut i: usize = 0;
        while i < self.pending.len()
            invariant
                i <= self.pending@.len(),
                forall|k: int| 0 <= k < i ==> self.pending@[k].0 != serial,
            decreases self.pending@.len() - i,
        {
            if self.pending[i].0 == serial {
                return true;
            }
            i = i + 1;
        }
        false
    }

    /// Enter a serial into the pending table with its waiter token,
    /// before the call's frame is written.
    pub fn register(&mut self, serial: i32, waiter: u64)
        requires
            wf_pending(old(self).pending@),
            !spec_has_pending(old(self).pending@, serial),
        ensures
            final(self).counter == old(self).counter,
            final(self).pending@ == old(self).pending@.push((serial, waiter)),
            wf_pending(final(self).pending@),
    {
        self.pending.push((serial, waiter));
    }

    /// Remove and return the waiter registered under `serial`: exactly
    /// the token that was entered with it, or nothing when no such
    /// call is outstanding. Other entries stay.
    pub fn take(&mut self, serial: i32) -> (r: Option<u64>)
        requires
            wf_pending(old(self).pending@),
        ensures
            final(self).counter == old(self).counter,
            wf_pending(final(self).pending@),
            r is Some <==> spec_has_pending(old(self).pending@, serial),
            r matches Some(w) ==> old(self).pending@.contains((serial, w)),
            forall|e: (i32, u64)|
                #[trigger] final(self).pending@.contains(e) <==> (old(self).pending@.contains(e)
                    && e.0 != serial),
            !(r is Some) ==> final(self).pending@ == old(self).pending@,
    {
        let mut i: usize = 0;
        while i < self.pending.len()
            invariant
                i <= self.pending@.len(),
                self.counter == old(self).counter,
                self.pending@ == old(self).pending@,
                wf_pending(old(self).pending@),
                forall|k: int| 0 <= k < i ==> self.pending@[k].0 != serial,
            decreases self.pending@.len() - i,
        {
            if self.pending[i].0 == serial {
                let entry = self.pending.remove(i);
                proof {
                    let p0 = old(self).pending@;
                    let p1 = self.pending@;
                    assert(p1 =~= p0.subrange(0, i as int) + p0.subrange(i + 1, p0.len() as int));
                    assert forall|e: (i32, u64)|
                        #[trigger] p1.contains(e) <==> (p0.contains(e) && e.0 != serial) by {
                        if p1.contains(e) {
                            let k = choose|k: int| 0 <= k < p1.len() && p1[k] == e;
                            let m2: int = if k < i {
                                k
                            } else {
                                k + 1
                            };
                            assert(p0[m2] == e);
                            assert(p0.contains(e));
                            if e.0 == serial {
                                assert(m2 != i);
                                if m2 < i {
                                    assert(p0[m2].0 != p0[i as int].0);
                                } else {
                                    assert(p0[i as int].0 != p0[m2].0);
                                }
                                assert(false);
                            }
                        }
                        if p0.contains(e) && e.0 != serial {
                            let m = choose|m: int| 0 <= m < p0.len() && p0[m] == e;
                            assert(m != i);
                            if m < i {
                                assert(p1[m] == e);
                            } else {
                                assert(p1[m - 1] == e);
                            }
                            assert(p1.contains(e));
                        }
                    }
                    assert(p0.contains((serial, entry.1))) by {
                        assert(p0[i as int] == (serial, entry.1));
                    }
                }
                return Some(entry.1);
            }
            i = i + 1;
        }
        proof {
            assert forall|e: (i32, u64)|
                #[trigger] self.pending@.contains(e) <==> (old(self).pending@.contains(e) && e.0
                    != serial) by {
                if self.pending@.contains(e) {
                    let k = choose|k: int|
                        0 <= k < self.pending@.len() && self.pending@[k] == e;
                    assert(self.pending@[k].0 != serial);
                }
            }
        }
        None
    }

    /// Empty the pending table on connection failure and hand back
    /// every waiter, so each can be told the connection closed.
    pub fn drain(&mut self) -> (r: Vec<u64>)
        ensures
            final(self).counter == old(self).counter,
            final(self).pending@ == Seq::<(i32, u64)>::empty(),
            r@ == old(self).pending@.map_values(|e: (i32, u64)| e.1),
    {
        let mut out: Vec<u64> = Vec::new();
        let mut i: usize = 0;
        while i < self.pending.len()
            invariant
                i <= self.pending@.len(),
                self.pending@ == old(self).pending@,
                out@ == old(self).pending@.map_values(|e: (i32, u64)| e.1).take(i as int),
            decreases self.pending@.len() - i,
        {
            out.push(self.pending[i].1);
            proof {
                assert(out@ =~= old(self).pending@.map_values(|e: (i32, u64)| e.1).take(
                    i + 1,
                ));
            }
            i = i + 1;
        }
        self.pending.clear();
        proof {
            assert(out@ =~= old(self).pending@.map_values(|e: (i32, u64)| e.1));
        }
        out
    }

    /// Decide what to do with one incoming packet: a reply releases
    /// the waiter registered under its serial — with the payload on
    /// status `Okay`, as an error otherwise — and anything else, or a
    /// reply nobody waits for, is discarded without effect.
    pub fn handle_packet(&mut self, p: Packet) -> (r: ReplyAction)
        requires
            wf_pending(old(self).pending@),
        ensures
            final(self).counter == old(self).counter,
            wf_pending(final(self).pending@),
            p.msg_type != MessageType::Reply ==> r == ReplyAction::Ignore && final(self).pending@
                == old(self).pending@,
            (p.msg_type == MessageType::Reply && !spec_has_pending(old(self).pending@, p.serial))
                ==> r == ReplyAction::Ignore && final(self).pending@ == old(self).pending@,
            (p.msg_type == MessageType::Reply && spec_has_pending(old(self).pending@, p.serial))
                ==> {
                &&& (p.status == Status::Okay ==> (r matches ReplyAction::DeliverOk(w, pl) && (old(
                    self,
                ).pending@.contains((p.serial, w)) && pl@ == p.payload@)))
                &&& (p.status != Status::Okay ==> (r matches ReplyAction::DeliverErr(w, pl) && (
                old(self).pending@.contains((p.serial, w)) && pl@ == p.payload@)))
                &&& forall|e: (i32, u64)|
                    #[trigger] final(self).pending@.contains(e) <==> (old(
                        self,
                    ).pending@.contains(e) && e.0 != p.serial)
            },
    {
        if p.msg_type != MessageType::Reply {
            return ReplyAction::Ignore;
        }
        match self.take(p.serial) {
            Some(w) => {
                if p.status == Status::Okay {
                    ReplyAction::DeliverOk(w, p.payload)
                } else {
                    ReplyAction::DeliverErr(w, p.payload)
                }
            },
            None => ReplyAction::Ignore,
        }
    }
}

/// Whether the needle `n` occurs in `h` at position `i`.
pub open spec fn spec_match_at(h: Seq<u8>, n: Seq<u8>, i: int) -> bool {
    0 <= i && i + n.len() <= h.len() && h.subrange(i, i + n.len()) == n
}

/// Compare the needle against `h` at position `at`.
fn match_at(h: &[u8], n: &[u8], at: usize) -> (r: bool)
    requires
        at + n@.len() <= h@.len(),
    ensures
        r == spec_match_at(h@, n@, at as int),
{
    let hl: usize = h.len();
    let nl: usize = n.len();
    let mut j: usize = 0;
    while j < nl
        invariant
            j <= nl,
            nl == n@.len(),
            hl == h@.len(),
            at + nl <= hl,
            forall|k: int| 0 <= k < j ==> h@[at + k] == n@[k],
        decreases nl - j,
    {
        if h[at + j] != n[j] {
            proof {
                assert(h@.subrange(at as int, at + n@.len())[j as int] == h@[at + j]);
            }
            return false;
        }
        j = j + 1;
    }
    proof {
        assert(h@.subrange(at as int, at + n@.len()) =~= n@);
    }
    true
}

/// Where a connection URI points: the system daemon's socket, the
/// session daemon's socket under the caller's runtime directory, or a
/// Unix socket at an explicit path.
#[derive(Debug, Clone, PartialEq)]
pub enum SocketTarget {
    /// The system daemon's default socket.
    System,
    /// The session daemon's socket, relative to the runtime directory.
    Session,
    /// An explicit Unix socket path, as bytes.
    Path(Vec<u8>),
}

/// Resolve a connection URI to a socket target: `qemu:///system`
/// goes to the system socket and `qemu:///session` to the session
/// socket; a `unix://` URI or an absolute path goes to that path; a
/// URI of any other scheme is refused as `UnsupportedUri`, with the
/// URI carried in the error.
pub fn resolve_uri(uri: &str) -> (r: Result<SocketTarget, Error>)
    ensures
        ({
            let u = uri.spec_bytes();
            let sys = u == "qemu:///system".spec_bytes();
            let ses = u == "qemu:///session".spec_bytes();
            let unix_pre = spec_match_at(u, "unix://".spec_bytes(), 0);
            let abs = u.len() > 0 && u[0] == 47;
            &&& sys ==> r == Ok::<SocketTarget, Error>(SocketTarget::System)
            &&& (!sys && ses) ==> r == Ok::<SocketTarget, Error>(SocketTarget::Session)
            &&& (!sys && !ses && (abs || unix_pre)) ==> (r matches Ok(t) && (t matches
                SocketTarget::Path(p) && p@ == if unix_pre {
                u.skip("unix://".spec_bytes().len() as int)
            } else {
                u
            }))
            &&& (!sys && !ses && !abs && !unix_pre) ==> (r matches Err(e) && (e matches
                Error::UnsupportedUri(s) && s@ == uri@))
        }),
{
    let u: &[u8] = uri.as_bytes();
    if crate::parser::bytes_eq(u, "qemu:///system".as_bytes()) {
        return Ok(SocketTarget::System);
    }
    if crate::parser::bytes_eq(u, "qemu:///session".as_bytes()) {
        return Ok(SocketTarget::Session);
    }
    let unix_n: &[u8] = "unix://".as_bytes();
    let unix_pre = unix_n.len() <= u.len() && match_at(u, unix_n, 0);
    let abs = u.len() > 0 && u[0] == 47;
    if abs || unix_pre {
        if unix_pre {
            let p = vstd::slice::slice_to_vec(
                vstd::slice::slice_subrange(u, unix_n.len(), u.len()),
            );
            proof {
                assert(p@ =~= uri.spec_bytes().skip("unix://".spec_bytes().len() as int));
            }
            Ok(SocketTarget::Path(p))
        } else {
            Ok(SocketTarget::Path(vstd::slice::slice_to_vec(u)))
        }
    } else {
        Err(Error::UnsupportedUri(uri.to_owned()))
    }
}

/// The session daemon's socket path under a runtime directory: the
/// directory, a slash, and the session socket's relative path.
pub fn session_socket_path(runtime_dir: &str) -> (r: String)
    ensures
        r@ == runtime_dir@ + "/"@ + SESSION_SOCKET_PATH@,
{
    let mut path = runtime_dir.to_owned();
    path.append("/");
    path.append(SESSION_SOCKET_PATH);
    path
}

/// A well-formed pending table associates at most one waiter with a
/// serial: the reply bearing a call's serial can release no waiter but
/// the one registered at that call's dispatch.
pub proof fn lemma_reply_matches_dispatch(p: Seq<(i32, u64)>, serial: i32, w1: u64, w2: u64)
    requires
        wf_pending(p),
        p.contains((serial, w1)),
        p.contains((serial, w2)),
    ensures
        w1 == w2,
{
    let k1 = choose|k: int| 0 <= k < p.len() && p[k] == (serial, w1);
    let k2 = choose|k: int| 0 <= k < p.len() && p[k] == (serial, w2);
    assert(k1 == k2);
}

/// Serials grow by exactly one per dispatch, modulo 2^32, and stay
/// nonzero as long as the counter has not wrapped around to zero: for
/// two dispatches in a row, the second serial is the first plus one
/// (mod 2^32), and a dispatch from a nonzero counter is nonzero.
pub proof fn lemma_serial_monotonic(c: u32)
    ensures
        (spec_wrap_inc(c) as i32) as u32 == ((c as i32) as u32 + 1) % 0x1_0000_0000,
        c != 0 ==> c as i32 != 0,
{
    assert((spec_wrap_inc(c) as i32) as u32 == ((c as i32) as u32 + 1) % 0x1_0000_0000) by {
        assert(((if c == u32::MAX {
            0u32
        } else {
            (c + 1) as u32
        }) as i32) as u32 == ((c as i32) as u32 + 1) % 0x1_0000_0000) by (bit_vector);
    }
    assert(c != 0 ==> c as i32 != 0) by (bit_vector);
}

} // verus!
