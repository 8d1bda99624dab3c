//! Requests to the text-to-speech daemon: sound paths and message framing.
//! The socket exchange itself is left to the caller.

use vstd::prelude::*;
use crate::text::{chars_of, matches_at, matches_at_exec, push_all, push_str, string_of};

verus! {

/// Talks to the background speech daemon.
pub struct Narrator {
    pub socket_path: String,
    pub hooks_path: String,
}

/// `rel` appended to `base` as a path: a leading `/` replaces `base`, and a
/// separator is added unless `base` is empty or already ends with one.
pub open spec fn join_path(base: Seq<char>, rel: Seq<char>) -> Seq<char> {
    if rel.len() > 0 && rel[0] == '/' {
        rel
    } else if base.len() == 0 || base.last() == '/' {
        base + rel
    } else {
        base + "/"@ + rel
    }
}

/// Hints under `sounds/` live in the hooks directory; other hints are used as given.
pub open spec fn resolved_sound(hooks: Seq<char>, hint: Seq<char>) -> Seq<char> {
    if matches_at(hint, "sounds/"@, 0) {
        join_path(hooks, hint)
    } else {
        hint
    }
}

/// The four bytes of `n`, most significant first.
pub open spec fn be_bytes(n: nat) -> Seq<u8> {
    seq![(n / 0x100_0000 % 0x100) as u8, (n / 0x1_0000 % 0x100) as u8, (n / 0x100 % 0x100) as u8, (n % 0x100) as u8]
}

/// `rel` appended to `base` as a path.
pub fn join_path_exec(base: &Vec<char>, rel: &Vec<char>) -> (r: Vec<char>)
    ensures
        r@ == join_path(base@, rel@),
{
    let mut r: Vec<char> = Vec::new();
    if rel.len() > 0 && rel[0] == '/' {
        push_all(&mut r, rel);
        return r;
    }
    push_all(&mut r, base);
    if !(base.len() == 0 || base[base.len() - 1] == '/') {
        push_str(&mut r, "/");
    }
    push_all(&mut r, rel);
    r
}

impl Narrator {
    /// A narrator for the daemon listening at `socket_path`, with relative
    /// sound hints resolved under `hooks_dir`, itself taken relative to `home`.
    pub fn new(socket_path: &str, home: &str, hooks_dir: &str) -> (r: Self)
        ensures
            r.socket_path@ == socket_path@,
            r.hooks_path@ == join_path(home@, hooks_dir@),
    {
        Narrator {
            socket_path: String::from_str(socket_path),
            hooks_path: string_of(&join_path_exec(&chars_of(home), &chars_of(hooks_dir))),
        }
    }

    /// The sound file to play for a hint.
    pub fn resolve_sound(&self, hint: &str) -> (r: String)
        ensures
            r@ == resolved_sound(self.hooks_path@, hint@),
    {
        let h = chars_of(hint);
        if matches_at_exec(&h, &chars_of("sounds/"), 0) {
            string_of(&join_path_exec(&chars_of(self.hooks_path.as_str()), &h))
        } else {
            string_of(&h)
        }
    }

    /// A request as sent on the socket: its length in four big-endian bytes,
    /// then the payload; `None` when the length does not fit in four bytes.
    pub fn frame(payload: &Vec<u8>) -> (r: Option<Vec<u8>>)
        ensures
            payload@.len() <= u32::MAX ==> (r matches Some(v) && v@ == be_bytes(payload@.len()) + payload@),
            payload@.len() > u32::MAX ==> r is None,
    {
        let n = payload.len();
        if n > u32::MAX as usize {
            return None;
        }
        let n = n as u64;
        let mut out: Vec<u8> = Vec::new();
        out.push((n / 0x100_0000 % 0x100) as u8);
        out.push((n / 0x1_0000 % 0x100) as u8);
        out.push((n / 0x100 % 0x100) as u8);
        out.push((n % 0x100) as u8);
        let mut i: usize = 0;
        while i < payload.len()
            invariant
                i <= payload@.len(),
                n == payload@.len(),
                out@ == be_bytes(n as nat) + payload@.subrange(0, i as int),
            decreases payload@.len() - i,
        {
            out.push(payload[i]);
            i = i + 1;
            assert(out@ =~= be_bytes(n as nat) + payload@.subrange(0, i as int));
        }
        assert(payload@.subrange(0, payload@.len() as int) =~= payload@);
        Some(out)
    }

    /// Whether the daemon's two-byte reply accepts the request.
    pub fn accepted(reply: &Vec<u8>) -> (r: bool)
        ensures
            r == (reply@ == seq![0x4fu8, 0x4bu8]),
    {
        let r = reply.len() == 2 && reply[0] == 0x4f && reply[1] == 0x4b;
        proof {
            if r {
                assert(reply@ =~= seq![0x4fu8, 0x4bu8]);
            }
        }
        r
    }
}

} // verus!
