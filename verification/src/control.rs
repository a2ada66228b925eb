//! The control protocol: a client writes one short unframed ASCII token;
//! the daemon classifies only the bytes actually read and answers `ok`,
//! `pong`, or an error echoing the token. The auto-flush policy of the
//! control loop is decided here as well.
use vstd::prelude::*;
use crate::text::{lossy_of, utf8_lossy};
use vstd::slice::slice_subrange;
use vstd::string::StringExecFns;

verus! {

/// More than this many seconds since the previous flush triggers an
/// automatic flush from the control loop.
pub const AUTO_FLUSH_SECS: u64 = 45;

/// What a control request asks of the daemon.
#[derive(Debug, Clone, Copy, PartialEq, Eq, Structural)]
pub enum ControlAction {
    /// Recompile the configuration and restart scheduling under it.
    Reload,
    /// Drain the output buffer to the day's log file.
    Flush,
    /// Health check; no state change.
    Ping,
    /// Anything else; no state change.
    Invalid,
}

/// The bytes of the token `reload`.
pub open spec fn reload_token() -> Seq<u8> {
    seq![114u8, 101u8, 108u8, 111u8, 97u8, 100u8]
}

/// The bytes of the token `flush`.
pub open spec fn flush_token() -> Seq<u8> {
    seq![102u8, 108u8, 117u8, 115u8, 104u8]
}

/// The bytes of the token `ping`.
pub open spec fn ping_token() -> Seq<u8> {
    seq![112u8, 105u8, 110u8, 103u8]
}

/// The action a request token asks for.
pub open spec fn classify_spec(token: Seq<u8>) -> ControlAction {
    if token == reload_token() {
        ControlAction::Reload
    } else if token == flush_token() {
        ControlAction::Flush
    } else if token == ping_token() {
        ControlAction::Ping
    } else {
        ControlAction::Invalid
    }
}

/// The reply sent for a request token: `ok` for reload and flush, `pong`
/// for ping, and an echo of the (lossily decoded) token otherwise.
pub open spec fn reply_spec(token: Seq<u8>) -> Seq<char> {
    match classify_spec(token) {
        ControlAction::Reload => "ok"@,
        ControlAction::Flush => "ok"@,
        ControlAction::Ping => "pong"@,
        ControlAction::Invalid => "Invalid command: "@ + lossy_of(token),
    }
}

fn is_reload(buf: &[u8], len: usize) -> (r: bool)
    requires
        len <= buf@.len(),
    ensures
        r == (buf@.take(len as int) == reload_token()),
{
    let ghost t = buf@.take(len as int);
    if len != 6 {
        proof {
            assert(t.len() == len as int);
            assert(reload_token().len() == 6);
        }
        return false;
    }
    proof {
        assert(t.len() == 6);
    }
    let r = buf[0] == 114 && buf[1] == 101 && buf[2] == 108 && buf[3] == 111 && buf[4] == 97
        && buf[5] == 100;
    proof {
        assert(forall|i: int| 0 <= i < 6 ==> t[i] == buf@[i]);
        if r {
            assert(t =~= reload_token());
        } else {
            assert(t != reload_token());
        }
    }
    r
}

fn is_flush(buf: &[u8], len: usize) -> (r: bool)
    requires
        len <= buf@.len(),
    ensures
        r == (buf@.take(len as int) == flush_token()),
{
    let ghost t = buf@.take(len as int);
    if len != 5 {
        proof {
            assert(t.len() == len as int);
            assert(flush_token().len() == 5);
        }
        return false;
    }
    proof {
        assert(t.len() == 5);
    }
    let r = buf[0] == 102 && buf[1] == 108 && buf[2] == 117 && buf[3] == 115 && buf[4] == 104;
    proof {
        assert(forall|i: int| 0 <= i < 5 ==> t[i] == buf@[i]);
        if r {
            assert(t =~= flush_token());
        } else {
            assert(t != flush_token());
        }
    }
    r
}

fn is_ping(buf: &[u8], len: usize) -> (r: bool)
    requires
        len <= buf@.len(),
    ensures
        r == (buf@.take(len as int) == ping_token()),
{
    let ghost t = buf@.take(len as int);
    if len != 4 {
        proof {
            assert(t.len() == len as int);
            assert(ping_token().len() == 4);
        }
        return false;
    }
    proof {
        assert(t.len() == 4);
    }
    let r = buf[0] == 112 && buf[1] == 105 && buf[2] == 110 && buf[3] == 103;
    proof {
        assert(forall|i: int| 0 <= i < 4 ==> t[i] == buf@[i]);
        if r {
            assert(t =~= ping_token());
        } else {
            assert(t != ping_token());
        }
    }
    r
}

/// Classifies a received request. Only the `len` bytes actually read are
/// compared; trailing buffer padding is ignored.
pub fn classify_request(buf: &[u8], len: usize) -> (a: ControlAction)
    requires
        len <= buf@.len(),
    ensures
        a == classify_spec(buf@.take(len as int)),
{
    if is_reload(buf, len) {
        ControlAction::Reload
    } else if is_flush(buf, len) {
        ControlAction::Flush
    } else if is_ping(buf, len) {
        ControlAction::Ping
    } else {
        ControlAction::Invalid
    }
}

/// Builds the reply for a received request: `ok`, `pong`, or
/// `Invalid command: <token>`.
pub fn reply_for(buf: &[u8], len: usize) -> (r: String)
    requires
        len <= buf@.len(),
    ensures
        r@ == reply_spec(buf@.take(len as int)),
{
    match classify_request(buf, len) {
        ControlAction::Reload => "ok".to_owned(),
        ControlAction::Flush => "ok".to_owned(),
        ControlAction::Ping => "pong".to_owned(),
        ControlAction::Invalid => {
            let token = slice_subrange(buf, 0, len);
            let decoded = utf8_lossy(token);
            let mut s = "Invalid command: ".to_owned();
            s.append(decoded.as_str());
            proof {
                assert(token@ =~= buf@.take(len as int));
            }
            s
        },
    }
}

/// Whether the control loop flushes automatically before handling this
/// action: more than `AUTO_FLUSH_SECS` seconds have passed since the
/// previous flush, and the action does not flush on its own.
pub open spec fn auto_flush_spec(last_flush: u64, now: u64, a: ControlAction) -> bool {
    last_flush + AUTO_FLUSH_SECS < now && a != ControlAction::Flush && a != ControlAction::Reload
}

/// Decides the auto-flush policy for one control-loop pass.
pub fn auto_flush_due(last_flush: u64, now: u64, a: ControlAction) -> (r: bool)
    ensures
        r == auto_flush_spec(last_flush, now, a),
{
    let elapsed_over = now > AUTO_FLUSH_SECS && last_flush < now - AUTO_FLUSH_SECS;
    elapsed_over && !matches!(a, ControlAction::Flush) && !matches!(a, ControlAction::Reload)
}

/// Whether processing this action resets the auto-flush timer: every
/// recognized command does.
pub fn resets_flush_timer(a: ControlAction) -> (r: bool)
    ensures
        r == (a != ControlAction::Invalid),
{
    !matches!(a, ControlAction::Invalid)
}

} // verus!
