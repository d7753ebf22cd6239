//! The wire between wdm and its PAM helper.
//!
//! wdm runs PAM in a separate process, and the two talk over a socket that keeps
//! message boundaries. A message is a tag byte and its fields: numbers are little
//! endian, strings are a 32-bit length and their UTF-8 bytes. There is no length
//! prefix on the whole, so a message that is cut short or has bytes behind it is
//! refused.
use vstd::prelude::*;
use vstd::utf8::{
    decode_utf8, decode_utf8_encode_utf8, encode_utf8, encode_utf8_decode_utf8,
    encode_utf8_valid_utf8, valid_utf8,
};
use zeroize::Zeroize;

use crate::auth::PromptStyle;
use crate::text::pairs;

verus! {

/// Largest message the wire accepts, in bytes.
///
/// Everything crossing here is a prompt, a password or a session's environment,
/// all of which are small. It is a sanity limit, not a tuned one.
pub const MAX_MESSAGE: usize = 262_144;

/// A message in either direction.
#[derive(Debug, PartialEq, Eq)]
pub enum Msg {
    /// wdm to helper: authenticate this user, counting prompt ids from `id_base`.
    Start {
        username: String,
        tty: String,
        seat: String,
        vtnr: u32,
        session_type: String,
        desktop: String,
        id_base: u32,
    },
    /// wdm to helper: answer the prompt with this id.
    Response { id: u32, secret: String },
    /// wdm to helper: open the PAM session and run the user's session.
    ///
    /// Sent only after wdm has released the display. Everything the helper needs
    /// to assemble the environment travels here, because the helper has no access
    /// to wdm's configuration.
    Launch {
        session_type: String,
        desktop: String,
        session_id: String,
        session_name: String,
        session_exec: String,
        /// Environment the greeter asked for.
        extra_env: Vec<(String, String)>,
        vt: u32,
    },
    /// Helper to wdm: PAM is asking something.
    Prompt { id: u32, text: String, style: PromptStyle },
    /// Helper to wdm: authentication and account management both succeeded.
    Accepted,
    /// Helper to wdm: the attempt failed; the helper is exiting.
    Failed(String),
    /// Helper to wdm: the session process is running.
    SessionStarted { pid: u32 },
    /// Helper to wdm: no session could be opened or launched; the helper is
    /// exiting.
    SessionFailed(String),
    /// Helper to wdm: the session process exited. `status` is the wait status as
    /// text.
    SessionEnded { status: String, ran_for_ms: u64 },
}

/// What a [`Msg`] says, with strings as character sequences.
#[verifier::ext_equal]
pub enum MsgView {
    Start {
        username: Seq<char>,
        tty: Seq<char>,
        seat: Seq<char>,
        vtnr: u32,
        session_type: Seq<char>,
        desktop: Seq<char>,
        id_base: u32,
    },
    Response { id: u32, secret: Seq<char> },
    Launch {
        session_type: Seq<char>,
        desktop: Seq<char>,
        session_id: Seq<char>,
        session_name: Seq<char>,
        session_exec: Seq<char>,
        extra_env: Seq<(Seq<char>, Seq<char>)>,
        vt: u32,
    },
    Prompt { id: u32, text: Seq<char>, style: PromptStyle },
    Accepted,
    Failed(Seq<char>),
    SessionStarted { pid: u32 },
    SessionFailed(Seq<char>),
    SessionEnded { status: Seq<char>, ran_for_ms: u64 },
}

impl View for Msg {
    type V = MsgView;

    open spec fn view(&self) -> MsgView {
        match *self {
            Msg::Start { username, tty, seat, vtnr, session_type, desktop, id_base } => {
                MsgView::Start {
                    username: username@,
                    tty: tty@,
                    seat: seat@,
                    vtnr,
                    session_type: session_type@,
                    desktop: desktop@,
                    id_base,
                }
            },
            Msg::Response { id, secret } => MsgView::Response { id, secret: secret@ },
            Msg::Launch {
                session_type,
                desktop,
                session_id,
                session_name,
                session_exec,
                extra_env,
                vt,
            } => MsgView::Launch {
                session_type: session_type@,
                desktop: desktop@,
                session_id: session_id@,
                session_name: session_name@,
                session_exec: session_exec@,
                extra_env: pairs(extra_env@),
                vt,
            },
            Msg::Prompt { id, text, style } => MsgView::Prompt { id, text: text@, style },
            Msg::Accepted => MsgView::Accepted,
            Msg::Failed(reason) => MsgView::Failed(reason@),
            Msg::SessionStarted { pid } => MsgView::SessionStarted { pid },
            Msg::SessionFailed(reason) => MsgView::SessionFailed(reason@),
            Msg::SessionEnded { status, ran_for_ms } => {
                MsgView::SessionEnded { status: status@, ran_for_ms }
            },
        }
    }
}

/// Overwrites a string's bytes and empties it.
///
/// Calls `zeroize::Zeroize::zeroize` on the string. What is claimed is that the
/// string is empty afterwards; that the memory it occupied now holds zeros cannot
/// be said of a value.
#[verifier::external_body]
fn scrub_string(s: &mut String)
    ensures
        final(s)@ == Seq::<char>::empty(),
    opens_invariants none
    no_unwind
{
    s.zeroize();
}

/// Overwrites bytes with zeros and empties the vector.
///
/// Calls `zeroize::Zeroize::zeroize` on the vector. What is claimed is that the
/// vector is empty afterwards; what its memory holds then cannot be said of a value.
#[verifier::external_body]
pub(crate) fn scrub_bytes(bytes: &mut Vec<u8>)
    ensures
        final(bytes)@ == Seq::<u8>::empty(),
{
    bytes.zeroize();
}

/// A message once it is scrubbed: a response has lost its secret, and any other
/// message is as it was.
pub open spec fn scrubbed(m: MsgView) -> MsgView {
    match m {
        MsgView::Response { id, secret } => MsgView::Response {
            id,
            secret: Seq::<char>::empty(),
        },
        other => other,
    }
}

impl Msg {
    /// Scrub the secret that a response carries; other messages have none.
    pub fn scrub(&mut self)
        ensures
            final(self)@ == scrubbed(old(self)@),
        opens_invariants none
        no_unwind
    {
        match self {
            Msg::Response { secret, .. } => scrub_string(secret),
            _ => {},
        }
    }
}

impl Drop for Msg {
    /// Every path a decoded response can take ends here, so that what is freed holds
    /// no secret any more.
    fn drop(&mut self)
        ensures
            final(self)@ == scrubbed(old(self)@),
        opens_invariants none
        no_unwind
    {
        self.scrub();
    }
}

const TAG_RESPONSE: u8 = 1;

const TAG_LAUNCH: u8 = 2;

const TAG_PROMPT: u8 = 3;

const TAG_ACCEPTED: u8 = 4;

const TAG_FAILED: u8 = 5;

const TAG_SESSION_STARTED: u8 = 6;

const TAG_SESSION_FAILED: u8 = 7;

const TAG_SESSION_ENDED: u8 = 8;

const TAG_START: u8 = 9;

const STYLE_SECRET: u8 = 0;

const STYLE_VISIBLE: u8 = 1;

const STYLE_INFO: u8 = 2;

const STYLE_ERROR: u8 = 3;

/// `n` in `k` bytes, least significant first.
pub open spec fn le(n: nat, k: nat) -> Seq<u8>
    decreases k,
{
    if k == 0 {
        seq![]
    } else {
        seq![(n % 256) as u8] + le(n / 256, (k - 1) as nat)
    }
}

/// The number that bytes spell, least significant first.
pub open spec fn le_value(s: Seq<u8>) -> nat
    decreases s.len(),
{
    if s.len() == 0 {
        0
    } else {
        s[0] as nat + 256 * le_value(s.skip(1))
    }
}

/// How many numbers fit in `k` bytes.
pub open spec fn le_bound(k: nat) -> nat
    decreases k,
{
    if k == 0 {
        1
    } else {
        256 * le_bound((k - 1) as nat)
    }
}

/// `le` and `le_value` undo each other.
proof fn lemma_le(n: nat, k: nat)
    requires
        n < le_bound(k),
    ensures
        le(n, k).len() == k,
        le_value(le(n, k)) == n,
    decreases k,
{
    if k > 0 {
        lemma_le(n / 256, (k - 1) as nat);
        assert(le(n, k).skip(1) =~= le(n / 256, (k - 1) as nat));
    }
}

/// `le` always has the asked length.
proof fn lemma_le_len(n: nat, k: nat)
    ensures
        le(n, k).len() == k,
    decreases k,
{
    if k > 0 {
        lemma_le_len(n / 256, (k - 1) as nat);
    }
}

proof fn lemma_bounds()
    ensures
        le_bound(4) == 0x1_0000_0000,
        le_bound(8) == 0x1_0000_0000_0000_0000,
{
    reveal_with_fuel(le_bound, 9);
}

/// A string on the wire: the length of its UTF-8 form, then that form.
pub open spec fn str_bytes(s: Seq<char>) -> Seq<u8> {
    le(encode_utf8(s).len() as u32 as nat, 4) + encode_utf8(s)
}

/// The pairs from `i` on, on the wire.
pub open spec fn pair_bytes(v: Seq<(Seq<char>, Seq<char>)>, i: int) -> Seq<u8>
    decreases v.len() - i,
{
    if i < 0 || i >= v.len() {
        seq![]
    } else {
        str_bytes(v[i].0) + (str_bytes(v[i].1) + pair_bytes(v, i + 1))
    }
}

/// A list of pairs on the wire: how many, then each.
pub open spec fn pairs_bytes(v: Seq<(Seq<char>, Seq<char>)>) -> Seq<u8> {
    le(v.len() as u32 as nat, 4) + pair_bytes(v, 0)
}

/// The byte a prompt style travels as.
pub open spec fn style_byte(style: PromptStyle) -> u8 {
    match style {
        PromptStyle::Secret => 0,
        PromptStyle::Visible => 1,
        PromptStyle::Info => 2,
        PromptStyle::Error => 3,
    }
}

/// A message on the wire.
pub open spec fn encoded(m: MsgView) -> Seq<u8> {
    match m {
        MsgView::Response { id, secret } => seq![1u8] + (le(id as nat, 4) + str_bytes(secret)),
        MsgView::Launch {
            session_type,
            desktop,
            session_id,
            session_name,
            session_exec,
            extra_env,
            vt,
        } => seq![2u8] + (str_bytes(session_type) + (str_bytes(desktop) + (str_bytes(session_id) + (
        str_bytes(session_name) + (str_bytes(session_exec) + (pairs_bytes(extra_env) + le(
            vt as nat,
            4,
        ))))))),
        MsgView::Prompt { id, text, style } => seq![3u8] + (le(id as nat, 4) + (str_bytes(text)
            + seq![style_byte(style)])),
        MsgView::Accepted => seq![4u8],
        MsgView::Failed(reason) => seq![5u8] + str_bytes(reason),
        MsgView::SessionStarted { pid } => seq![6u8] + le(pid as nat, 4),
        MsgView::SessionFailed(reason) => seq![7u8] + str_bytes(reason),
        MsgView::SessionEnded { status, ran_for_ms } => seq![8u8] + (str_bytes(status) + le(
            ran_for_ms as nat,
            8,
        )),
        MsgView::Start { username, tty, seat, vtnr, session_type, desktop, id_base } => seq![9u8]
            + (str_bytes(username) + (str_bytes(tty) + (str_bytes(seat) + (le(vtnr as nat, 4) + (
        str_bytes(session_type) + (str_bytes(desktop) + le(id_base as nat, 4))))))),
    }
}

/// The byte a prompt style travels as.
fn style_tag(style: PromptStyle) -> (r: u8)
    ensures
        r == style_byte(style),
{
    match style {
        PromptStyle::Secret => STYLE_SECRET,
        PromptStyle::Visible => STYLE_VISIBLE,
        PromptStyle::Info => STYLE_INFO,
        PromptStyle::Error => STYLE_ERROR,
    }
}

/// Appends four bytes.
fn put_u32(out: &mut Vec<u8>, value: u32)
    ensures
        final(out)@ == old(out)@ + le(value as nat, 4),
{
    let ghost start = out@;
    out.push((value % 256) as u8);
    out.push((value / 256 % 256) as u8);
    out.push((value / 65_536 % 256) as u8);
    out.push((value / 16_777_216 % 256) as u8);
    proof {
        reveal_with_fuel(le, 5);
        let n = value as nat;
        assert(n / 256 / 256 == n / 65_536);
        assert(n / 256 / 256 / 256 == n / 16_777_216);
        assert(out@ =~= start + le(n, 4));
    }
}

/// Appends eight bytes.
fn put_u64(out: &mut Vec<u8>, value: u64)
    ensures
        final(out)@ == old(out)@ + le(value as nat, 8),
{
    let ghost start = out@;
    let mut rest: u64 = value;
    proof {
        assert(start + le(value as nat, 8) =~= out@ + le(rest as nat, 8));
    }
    for i in 0..8u32
        invariant
            start + le(value as nat, 8) == out@ + le(rest as nat, (8 - i) as nat),
    {
        let ghost before = out@;
        let ghost tail = le(rest as nat / 256, (7 - i) as nat);
        out.push((rest % 256) as u8);
        proof {
            assert(before + le(rest as nat, (8 - i) as nat) =~= out@ + tail);
        }
        rest = rest / 256;
    }
    proof {
        assert(out@ + le(rest as nat, 0) =~= out@);
    }
}

/// Appends bytes.
fn put_bytes(out: &mut Vec<u8>, bytes: &[u8])
    ensures
        final(out)@ == old(out)@ + bytes@,
{
    let ghost start = out@;
    proof {
        assert(start + bytes@.take(0) =~= start);
    }
    for i in 0..bytes.len()
        invariant
            out@ == start + bytes@.take(i as int),
    {
        out.push(bytes[i]);
        proof {
            assert(out@ =~= start + bytes@.take(i as int + 1));
        }
    }
    proof {
        assert(bytes@.take(bytes@.len() as int) == bytes@);
    }
}

/// Appends a string and its length.
fn put_str(out: &mut Vec<u8>, value: &str)
    ensures
        final(out)@ == old(out)@ + str_bytes(value@),
{
    let ghost start = out@;
    let bytes = value.as_bytes();
    put_u32(out, bytes.len() as u32);
    put_bytes(out, bytes);
    proof {
        assert(out@ =~= start + str_bytes(value@));
    }
}

/// Appends a list of pairs and its length.
fn put_pairs(out: &mut Vec<u8>, list: &Vec<(String, String)>)
    ensures
        final(out)@ == old(out)@ + pairs_bytes(pairs(list@)),
{
    let ghost start = out@;
    let ghost v = pairs(list@);
    put_u32(out, list.len() as u32);
    proof {
        assert(out@ + pair_bytes(v, 0) =~= start + pairs_bytes(v));
    }
    for i in 0..list.len()
        invariant
            v == pairs(list@),
            out@ + pair_bytes(v, i as int) == start + pairs_bytes(v),
    {
        let ghost before = out@;
        put_str(out, &list[i].0);
        put_str(out, &list[i].1);
        proof {
            assert(out@ + pair_bytes(v, i as int + 1) =~= before + pair_bytes(v, i as int));
        }
    }
    proof {
        assert(out@ + pair_bytes(v, list@.len() as int) =~= out@);
    }
}

impl Msg {
    /// Encode into a single datagram.
    #[verifier::spinoff_prover]
    #[verifier::rlimit(40)]
    pub fn encode(&self) -> (out: Vec<u8>)
        ensures
            out@ == encoded(self@),
    {
        let mut out: Vec<u8> = Vec::new();
        match self {
            Msg::Response { id, secret } => {
                out.push(TAG_RESPONSE);
                assert(out@ =~= seq![TAG_RESPONSE]);
                put_u32(&mut out, *id);
                put_str(&mut out, secret);
                assert(out@ =~= encoded(self@));
            },
            Msg::Launch {
                session_type,
                desktop,
                session_id,
                session_name,
                session_exec,
                extra_env,
                vt,
            } => {
                out.push(TAG_LAUNCH);
                assert(out@ =~= seq![TAG_LAUNCH]);
                put_str(&mut out, session_type);
                put_str(&mut out, desktop);
                put_str(&mut out, session_id);
                put_str(&mut out, session_name);
                put_str(&mut out, session_exec);
                put_pairs(&mut out, extra_env);
                put_u32(&mut out, *vt);
                proof {
                    lemma_line_up(
                        seq![2u8],
                        str_bytes(session_type@),
                        str_bytes(desktop@),
                        str_bytes(session_id@),
                        str_bytes(session_name@),
                        str_bytes(session_exec@),
                        pairs_bytes(pairs(extra_env@)),
                        le(*vt as nat, 4),
                    );
                }
            },
            Msg::Prompt { id, text, style } => {
                out.push(TAG_PROMPT);
                assert(out@ =~= seq![TAG_PROMPT]);
                put_u32(&mut out, *id);
                put_str(&mut out, text);
                out.push(style_tag(*style));
                assert(out@ =~= encoded(self@));
            },
            Msg::Accepted => {
                out.push(TAG_ACCEPTED);
                assert(out@ =~= encoded(self@));
            },
            Msg::Failed(reason) => {
                out.push(TAG_FAILED);
                assert(out@ =~= seq![TAG_FAILED]);
                put_str(&mut out, reason);
            },
            Msg::SessionStarted { pid } => {
                out.push(TAG_SESSION_STARTED);
                assert(out@ =~= seq![TAG_SESSION_STARTED]);
                put_u32(&mut out, *pid);
            },
            Msg::SessionFailed(reason) => {
                out.push(TAG_SESSION_FAILED);
                assert(out@ =~= seq![TAG_SESSION_FAILED]);
                put_str(&mut out, reason);
            },
            Msg::SessionEnded { status, ran_for_ms } => {
                out.push(TAG_SESSION_ENDED);
                assert(out@ =~= seq![TAG_SESSION_ENDED]);
                put_str(&mut out, status);
                put_u64(&mut out, *ran_for_ms);
                assert(out@ =~= encoded(self@));
            },
            Msg::Start { username, tty, seat, vtnr, session_type, desktop, id_base } => {
                out.push(TAG_START);
                assert(out@ =~= seq![TAG_START]);
                put_str(&mut out, username);
                put_str(&mut out, tty);
                put_str(&mut out, seat);
                put_u32(&mut out, *vtnr);
                put_str(&mut out, session_type);
                put_str(&mut out, desktop);
                put_u32(&mut out, *id_base);
                proof {
                    lemma_line_up(
                        seq![9u8],
                        str_bytes(username@),
                        str_bytes(tty@),
                        str_bytes(seat@),
                        le(*vtnr as nat, 4),
                        str_bytes(session_type@),
                        str_bytes(desktop@),
                        le(*id_base as nat, 4),
                    );
                }
            },
        }
        out
    }
}

/// What stands for bytes that are not UTF-8: `String::from_utf8_lossy` on them.
pub uninterp spec fn utf8_replaced(bytes: Seq<u8>) -> Seq<char>;

/// The text that bytes are read as: what they encode where they are UTF-8, and
/// some text in their place where they are not.
pub open spec fn lossy(bytes: Seq<u8>) -> Seq<char> {
    if valid_utf8(bytes) {
        decode_utf8(bytes)
    } else {
        utf8_replaced(bytes)
    }
}

/// A text that stands for bytes says so where they are not UTF-8: it holds the
/// replacement character, and so is not empty.
pub open spec fn marked(bytes: Seq<u8>, text: Seq<char>) -> bool {
    valid_utf8(bytes) || text.contains('\u{fffd}')
}

/// Reads bytes as text.
///
/// Calls `String::from_utf8_lossy`. Bytes that are UTF-8 come out as the text they
/// encode. Of other bytes it is said that the same bytes give the same text, and
/// that the text holds the replacement character; where in it, and what else it
/// holds, is left unsaid.
#[verifier::external_body]
pub(crate) fn text_of(bytes: &[u8]) -> (s: String)
    ensures
        s@ == (if valid_utf8(bytes@) {
            decode_utf8(bytes@)
        } else {
            utf8_replaced(bytes@)
        }),
        !valid_utf8(bytes@) ==> s@.contains('\u{fffd}'),
{
    String::from_utf8_lossy(bytes).into_owned()
}

/// A number of `k` bytes at the front, and what follows it.
pub open spec fn read_le(s: Seq<u8>, k: nat) -> Option<(nat, Seq<u8>)> {
    if s.len() < k {
        None
    } else {
        Some((le_value(s.take(k as int)), s.skip(k as int)))
    }
}

/// A string at the front, and what follows it.
pub open spec fn read_str(s: Seq<u8>) -> Option<(Seq<char>, Seq<u8>)> {
    match read_le(s, 4) {
        Some((n, rest)) => if rest.len() < n {
            None
        } else {
            Some((lossy(rest.take(n as int)), rest.skip(n as int)))
        },
        None => None,
    }
}

/// `n` pairs at the front, and what follows them.
pub open spec fn read_pairs(s: Seq<u8>, n: nat) -> Option<(Seq<(Seq<char>, Seq<char>)>, Seq<u8>)>
    decreases n,
{
    if n == 0 {
        Some((seq![], s))
    } else {
        match read_str(s) {
            Some((key, after_key)) => match read_str(after_key) {
                Some((value, after)) => match read_pairs(after, (n - 1) as nat) {
                    Some((more, rest)) => Some((seq![(key, value)] + more, rest)),
                    None => None,
                },
                None => None,
            },
            None => None,
        }
    }
}

/// A list of pairs at the front, and what follows it.
pub open spec fn read_pair_list(s: Seq<u8>) -> Option<(Seq<(Seq<char>, Seq<char>)>, Seq<u8>)> {
    match read_le(s, 4) {
        Some((n, rest)) => read_pairs(rest, n),
        None => None,
    }
}

/// The style that a byte stands for.
pub open spec fn style_of(tag: u8) -> Option<PromptStyle> {
    if tag == 0 {
        Some(PromptStyle::Secret)
    } else if tag == 1 {
        Some(PromptStyle::Visible)
    } else if tag == 2 {
        Some(PromptStyle::Info)
    } else if tag == 3 {
        Some(PromptStyle::Error)
    } else {
        None
    }
}

/// The fields of a `Launch` at the front, and what follows them.
pub open spec fn read_launch(s: Seq<u8>) -> Option<(MsgView, Seq<u8>)> {
    match read_str(s) {
        Some((session_type, s)) => match read_str(s) {
            Some((desktop, s)) => match read_str(s) {
                Some((session_id, s)) => match read_str(s) {
                    Some((session_name, s)) => match read_str(s) {
                        Some((session_exec, s)) => match read_pair_list(s) {
                            Some((extra_env, s)) => match read_le(s, 4) {
                                Some((vt, s)) => Some(
                                    (
                                        MsgView::Launch {
                                            session_type,
                                            desktop,
                                            session_id,
                                            session_name,
                                            session_exec,
                                            extra_env,
                                            vt: vt as u32,
                                        },
                                        s,
                                    ),
                                ),
                                None => None,
                            },
                            None => None,
                        },
                        None => None,
                    },
                    None => None,
                },
                None => None,
            },
            None => None,
        },
        None => None,
    }
}

/// The fields of a `Start` at the front, and what follows them.
pub open spec fn read_start(s: Seq<u8>) -> Option<(MsgView, Seq<u8>)> {
    match read_str(s) {
        Some((username, s)) => match read_str(s) {
            Some((tty, s)) => match read_str(s) {
                Some((seat, s)) => match read_le(s, 4) {
                    Some((vtnr, s)) => match read_str(s) {
                        Some((session_type, s)) => match read_str(s) {
                            Some((desktop, s)) => match read_le(s, 4) {
                                Some((id_base, s)) => Some(
                                    (
                                        MsgView::Start {
                                            username,
                                            tty,
                                            seat,
                                            vtnr: vtnr as u32,
                                            session_type,
                                            desktop,
                                            id_base: id_base as u32,
                                        },
                                        s,
                                    ),
                                ),
                                None => None,
                            },
                            None => None,
                        },
                        None => None,
                    },
                    None => None,
                },
                None => None,
            },
            None => None,
        },
        None => None,
    }
}

/// The fields of a `Prompt` at the front, and what follows them.
pub open spec fn read_prompt(s: Seq<u8>) -> Option<(MsgView, Seq<u8>)> {
    match read_le(s, 4) {
        Some((id, s)) => match read_str(s) {
            Some((text, s)) => match read_le(s, 1) {
                Some((tag, s)) => match style_of(tag as u8) {
                    Some(style) => Some((MsgView::Prompt { id: id as u32, text, style }, s)),
                    None => None,
                },
                None => None,
            },
            None => None,
        },
        None => None,
    }
}

/// A message at the front, and what follows it.
pub open spec fn read_msg(s: Seq<u8>) -> Option<(MsgView, Seq<u8>)> {
    match read_le(s, 1) {
        None => None,
        Some((tag, s)) => if tag == 1 {
            match read_le(s, 4) {
                Some((id, s)) => match read_str(s) {
                    Some((secret, s)) => Some((MsgView::Response { id: id as u32, secret }, s)),
                    None => None,
                },
                None => None,
            }
        } else if tag == 2 {
            read_launch(s)
        } else if tag == 3 {
            read_prompt(s)
        } else if tag == 4 {
            Some((MsgView::Accepted, s))
        } else if tag == 5 {
            match read_str(s) {
                Some((reason, s)) => Some((MsgView::Failed(reason), s)),
                None => None,
            }
        } else if tag == 6 {
            match read_le(s, 4) {
                Some((pid, s)) => Some((MsgView::SessionStarted { pid: pid as u32 }, s)),
                None => None,
            }
        } else if tag == 7 {
            match read_str(s) {
                Some((reason, s)) => Some((MsgView::SessionFailed(reason), s)),
                None => None,
            }
        } else if tag == 8 {
            match read_str(s) {
                Some((status, s)) => match read_le(s, 8) {
                    Some((ms, s)) => Some(
                        (MsgView::SessionEnded { status, ran_for_ms: ms as u64 }, s),
                    ),
                    None => None,
                },
                None => None,
            }
        } else if tag == 9 {
            read_start(s)
        } else {
            None
        },
    }
}

/// The message that a whole datagram is, if it is one and nothing else.
pub open spec fn decoded(s: Seq<u8>) -> Option<MsgView> {
    match read_msg(s) {
        Some((m, rest)) => if rest.len() == 0 {
            Some(m)
        } else {
            None
        },
        None => None,
    }
}

/// The style that a byte stands for.
fn style_from_tag(tag: u8) -> (r: Option<PromptStyle>)
    ensures
        r == style_of(tag),
{
    match tag {
        STYLE_SECRET => Some(PromptStyle::Secret),
        STYLE_VISIBLE => Some(PromptStyle::Visible),
        STYLE_INFO => Some(PromptStyle::Info),
        STYLE_ERROR => Some(PromptStyle::Error),
        _ => None,
    }
}

/// Reads fields off a message, refusing to run past the end of it.
struct Reader<'a> {
    bytes: &'a [u8],
    at: usize,
}

impl<'a> Reader<'a> {
    spec fn wf(&self) -> bool {
        self.at <= self.bytes@.len()
    }

    /// What has not been read yet.
    spec fn rest(&self) -> Seq<u8> {
        self.bytes@.skip(self.at as int)
    }

    fn new(bytes: &'a [u8]) -> (r: Self)
        ensures
            r.wf(),
            r.rest() == bytes@,
    {
        let r = Reader { bytes, at: 0 };
        proof {
            assert(r.rest() =~= bytes@);
        }
        r
    }

    /// The next `n` bytes, if there are as many.
    fn take(&mut self, n: usize) -> (r: Option<&'a [u8]>)
        requires
            old(self).wf(),
        ensures
            final(self).wf(),
            match r {
                Some(slice) => n <= old(self).rest().len() && slice@ == old(self).rest().take(
                    n as int,
                ) && final(self).rest() == old(self).rest().skip(n as int),
                None => old(self).rest().len() < n,
            },
    {
        if n > self.bytes.len() - self.at {
            return None;
        }
        let end: usize = self.at + n;
        let slice = vstd::slice::slice_subrange(self.bytes, self.at, end);
        proof {
            assert(slice@ =~= self.rest().take(n as int));
            assert(self.rest().skip(n as int) =~= self.bytes@.skip(end as int));
        }
        self.at = end;
        Some(slice)
    }

    fn read_u8(&mut self) -> (r: Option<u8>)
        requires
            old(self).wf(),
        ensures
            final(self).wf(),
            match r {
                Some(n) => read_le(old(self).rest(), 1) == Some((n as nat, final(self).rest())),
                None => read_le(old(self).rest(), 1) is None,
            },
    {
        let slice = self.take(1)?;
        proof {
            reveal_with_fuel(le_value, 2);
        }
        Some(slice[0])
    }

    fn read_u32(&mut self) -> (r: Option<u32>)
        requires
            old(self).wf(),
        ensures
            final(self).wf(),
            match r {
                Some(n) => read_le(old(self).rest(), 4) == Some((n as nat, final(self).rest())),
                None => read_le(old(self).rest(), 4) is None,
            },
    {
        let s = self.take(4)?;
        proof {
            let t = s@;
            reveal_with_fuel(le_value, 5);
            assert(t.skip(1)[0] == t[1]);
            assert(t.skip(1).skip(1)[0] == t[2]);
            assert(t.skip(1).skip(1).skip(1)[0] == t[3]);
        }
        Some(
            s[0] as u32 + 256 * (s[1] as u32) + 65_536 * (s[2] as u32) + 16_777_216 * (s[3] as u32),
        )
    }

    fn read_u64(&mut self) -> (r: Option<u64>)
        requires
            old(self).wf(),
        ensures
            final(self).wf(),
            match r {
                Some(n) => read_le(old(self).rest(), 8) == Some((n as nat, final(self).rest())),
                None => read_le(old(self).rest(), 8) is None,
            },
    {
        let s = self.take(8)?;
        let mut n: u64 = 0;
        let mut i: usize = 8;
        proof {
            lemma_bounds();
        }
        while i > 0
            invariant
                i <= 8,
                s@.len() == 8,
                n == le_value(s@.skip(i as int)),
                n < le_bound((8 - i) as nat),
                le_bound(8) == 0x1_0000_0000_0000_0000,
            decreases i,
        {
            i = i - 1;
            proof {
                assert(s@.skip(i as int)[0] == s@[i as int]);
                assert(s@.skip(i as int).skip(1) =~= s@.skip(i as int + 1));
                reveal_with_fuel(le_bound, 9);
            }
            n = n * 256 + s[i] as u64;
        }
        proof {
            assert(s@.skip(0) =~= s@);
        }
        Some(n)
    }

    fn string(&mut self) -> (r: Option<String>)
        requires
            old(self).wf(),
        ensures
            final(self).wf(),
            match r {
                Some(t) => read_str(old(self).rest()) == Some((t@, final(self).rest()))
                    && final(self).rest() == after_texts(old(self).rest(), 1) && marked(
                    text_bytes(old(self).rest()),
                    t@,
                ),
                None => read_str(old(self).rest()) is None,
            },
    {
        let n = self.read_u32()?;
        let slice = self.take(n as usize)?;
        proof {
            reveal_with_fuel(after_texts, 2);
        }
        Some(text_of(slice))
    }

    fn pairs(&mut self) -> (r: Option<Vec<(String, String)>>)
        requires
            old(self).wf(),
        ensures
            final(self).wf(),
            match r {
                Some(v) => read_pair_list(old(self).rest()) == Some(
                    (pairs(v@), final(self).rest()),
                ) && pairs_marked(old(self).rest().skip(4), pairs(v@)),
                None => read_pair_list(old(self).rest()) is None,
            },
    {
        let count = self.read_u32()?;
        let ghost start = self.rest();
        let ghost whole = read_pairs(start, count as nat);
        let mut out: Vec<(String, String)> = Vec::new();
        let mut left: u32 = count;
        proof {
            if let Some((v, rest)) = whole {
                assert(pairs(out@) + v =~= v);
            }
        }
        while left > 0
            invariant
                self.wf(),
                whole == read_pair_list(old(self).rest()),
                left <= count,
                out@.len() == count - left,
                self.rest() == after_texts(start, 2 * out@.len()),
                pairs_marked(start, pairs(out@)),
                match read_pairs(self.rest(), left as nat) {
                    Some((more, rest)) => whole == Some((pairs(out@) + more, rest)),
                    None => whole is None,
                },
            decreases left,
        {
            let ghost before = out@;
            let ghost here = self.rest();
            let key = self.string()?;
            let value = self.string()?;
            let ghost pair = (key@, value@);
            out.push((key, value));
            left = left - 1;
            proof {
                assert(pairs(out@) =~= pairs(before).push(pair));
                if let Some((more, rest)) = read_pairs(self.rest(), left as nat) {
                    assert(pairs(before) + (seq![pair] + more) =~= pairs(out@) + more);
                }
                lemma_after_next(start, 2 * before.len());
                lemma_after_next(start, 2 * before.len() + 1);
                assert forall|i: int| 0 <= i < out@.len() implies marked(
                    text_at(start, (2 * i) as nat),
                    (#[trigger] pairs(out@)[i]).0,
                ) && marked(text_at(start, (2 * i + 1) as nat), pairs(out@)[i].1) by {
                    if i < before.len() {
                        assert(pairs(out@)[i] == pairs(before)[i]);
                    }
                }
            }
        }
        proof {
            assert(pairs(out@) + Seq::<(Seq<char>, Seq<char>)>::empty() =~= pairs(out@));
        }
        Some(out)
    }

    /// The fields of a `Launch`.
    #[verifier::spinoff_prover]
    #[verifier::rlimit(40)]
    fn launch(&mut self) -> (r: Option<Msg>)
        requires
            old(self).wf(),
        ensures
            final(self).wf(),
            match r {
                Some(m) => read_launch(old(self).rest()) == Some((m@, final(self).rest()))
                    && fields_marked(old(self).rest(), m@),
                None => read_launch(old(self).rest()) is None,
            },
    {
        let ghost start = self.rest();
        let session_type = self.string()?;
        let desktop = self.string()?;
        let session_id = self.string()?;
        let session_name = self.string()?;
        let session_exec = self.string()?;
        let extra_env = self.pairs()?;
        let vt = self.read_u32()?;
        proof {
            lemma_after_next(start, 1);
            lemma_after_next(start, 2);
            lemma_after_next(start, 3);
            lemma_after_next(start, 4);
        }
        Some(
            Msg::Launch {
                session_type,
                desktop,
                session_id,
                session_name,
                session_exec,
                extra_env,
                vt,
            },
        )
    }

    /// The fields of a `Start`.
    fn start(&mut self) -> (r: Option<Msg>)
        requires
            old(self).wf(),
        ensures
            final(self).wf(),
            match r {
                Some(m) => read_start(old(self).rest()) == Some((m@, final(self).rest()))
                    && fields_marked(old(self).rest(), m@),
                None => read_start(old(self).rest()) is None,
            },
    {
        let ghost start = self.rest();
        let username = self.string()?;
        let tty = self.string()?;
        let seat = self.string()?;
        let vtnr = self.read_u32()?;
        let session_type = self.string()?;
        let desktop = self.string()?;
        let id_base = self.read_u32()?;
        proof {
            lemma_after_next(start, 1);
            lemma_after_next(start, 2);
        }
        Some(Msg::Start { username, tty, seat, vtnr, session_type, desktop, id_base })
    }

    /// The fields of a `Prompt`.
    fn prompt(&mut self) -> (r: Option<Msg>)
        requires
            old(self).wf(),
        ensures
            final(self).wf(),
            match r {
                Some(m) => read_prompt(old(self).rest()) == Some((m@, final(self).rest()))
                    && fields_marked(old(self).rest(), m@),
                None => read_prompt(old(self).rest()) is None,
            },
    {
        let id = self.read_u32()?;
        let text = self.string()?;
        let tag = self.read_u8()?;
        let style = style_from_tag(tag)?;
        Some(Msg::Prompt { id, text, style })
    }

    /// Every byte consumed, and nothing behind.
    fn finished(&self) -> (r: bool)
        requires
            self.wf(),
        ensures
            r == (self.rest().len() == 0),
    {
        self.at == self.bytes.len()
    }
}

impl Msg {
    /// Decode one datagram, or `None` if it is not a well-formed message.
    ///
    /// The caller is expected to scrub `bytes` afterwards when it may have held a
    /// response; this borrows rather than consuming so that it can. A string that is
    /// not UTF-8 is read as some text that holds the replacement character.
    pub fn decode(bytes: &[u8]) -> (r: Option<Msg>)
        ensures
            match r {
                Some(m) => decoded(bytes@) == Some(m@) && damage_shows(bytes@, m@),
                None => decoded(bytes@) is None,
            },
    {
        let mut r = Reader::new(bytes);
        let tag = r.read_u8()?;
        let msg = match tag {
            TAG_RESPONSE => {
                let id = r.read_u32()?;
                let secret = r.string()?;
                Msg::Response { id, secret }
            },
            TAG_LAUNCH => r.launch()?,
            TAG_PROMPT => r.prompt()?,
            TAG_ACCEPTED => Msg::Accepted,
            TAG_FAILED => {
                let reason = r.string()?;
                Msg::Failed(reason)
            },
            TAG_SESSION_STARTED => {
                let pid = r.read_u32()?;
                Msg::SessionStarted { pid }
            },
            TAG_SESSION_FAILED => {
                let reason = r.string()?;
                Msg::SessionFailed(reason)
            },
            TAG_SESSION_ENDED => {
                let status = r.string()?;
                let ran_for_ms = r.read_u64()?;
                Msg::SessionEnded { status, ran_for_ms }
            },
            TAG_START => r.start()?,
            _ => {
                return None;
            },
        };
        // Trailing bytes mean the sender and this decoder disagree about the
        // shape.
        if r.finished() {
            Some(msg)
        } else {
            None
        }
    }
}

/// A string whose UTF-8 length the wire can state.
pub open spec fn str_fits(s: Seq<char>) -> bool {
    encode_utf8(s).len() <= u32::MAX
}

/// A list of pairs whose length, and whose strings' lengths, the wire can state.
pub open spec fn pairs_fit(v: Seq<(Seq<char>, Seq<char>)>) -> bool {
    &&& v.len() <= u32::MAX
    &&& forall|i: int|
        0 <= i < v.len() ==> str_fits((#[trigger] v[i]).0) && str_fits(v[i].1)
}

/// A message whose lengths all fit the 32 bits they travel in.
pub open spec fn fits(m: MsgView) -> bool {
    match m {
        MsgView::Start { username, tty, seat, vtnr, session_type, desktop, id_base } => str_fits(
            username,
        ) && str_fits(tty) && str_fits(seat) && str_fits(session_type) && str_fits(desktop),
        MsgView::Response { id, secret } => str_fits(secret),
        MsgView::Launch {
            session_type,
            desktop,
            session_id,
            session_name,
            session_exec,
            extra_env,
            vt,
        } => str_fits(session_type) && str_fits(desktop) && str_fits(session_id) && str_fits(
            session_name,
        ) && str_fits(session_exec) && pairs_fit(extra_env),
        MsgView::Prompt { id, text, style } => str_fits(text),
        MsgView::Accepted => true,
        MsgView::Failed(reason) => str_fits(reason),
        MsgView::SessionStarted { pid } => true,
        MsgView::SessionFailed(reason) => str_fits(reason),
        MsgView::SessionEnded { status, ran_for_ms } => str_fits(status),
    }
}

proof fn lemma_read_le(n: nat, k: nat, rest: Seq<u8>)
    requires
        n < le_bound(k),
    ensures
        read_le(le(n, k) + rest, k) == Some((n, rest)),
{
    lemma_le(n, k);
    assert((le(n, k) + rest).take(k as int) =~= le(n, k));
    assert((le(n, k) + rest).skip(k as int) =~= rest);
}

proof fn lemma_read_u32(n: u32, rest: Seq<u8>)
    ensures
        read_le(le(n as nat, 4) + rest, 4) == Some((n as nat, rest)),
{
    lemma_bounds();
    lemma_read_le(n as nat, 4, rest);
}

proof fn lemma_read_byte(b: u8, rest: Seq<u8>)
    ensures
        read_le(seq![b] + rest, 1) == Some((b as nat, rest)),
{
    let s = seq![b] + rest;
    reveal_with_fuel(le_value, 2);
    assert(s.take(1)[0] == b);
    assert(s.skip(1) =~= rest);
}

proof fn lemma_read_str(t: Seq<char>, rest: Seq<u8>)
    requires
        str_fits(t),
    ensures
        read_str(str_bytes(t) + rest) == Some((t, rest)),
{
    let body = encode_utf8(t);
    let n = body.len();
    assert(str_bytes(t) + rest =~= le(n, 4) + (body + rest));
    lemma_read_u32(n as u32, body + rest);
    assert((body + rest).take(n as int) =~= body);
    assert((body + rest).skip(n as int) =~= rest);
    encode_utf8_valid_utf8(t);
    encode_utf8_decode_utf8(t);
}

#[verifier::spinoff_prover]
#[verifier::rlimit(40)]
proof fn lemma_read_pairs(v: Seq<(Seq<char>, Seq<char>)>, i: int, rest: Seq<u8>)
    requires
        0 <= i <= v.len(),
        pairs_fit(v),
    ensures
        read_pairs(pair_bytes(v, i) + rest, (v.len() - i) as nat) == Some((v.skip(i), rest)),
    decreases v.len() - i,
{
    if i < v.len() {
        let after = pair_bytes(v, i + 1) + rest;
        let mid = str_bytes(v[i].1) + after;
        let tail = str_bytes(v[i].1) + pair_bytes(v, i + 1);
        lemma_join(str_bytes(v[i].0), tail, rest);
        lemma_join(str_bytes(v[i].1), pair_bytes(v, i + 1), rest);
        lemma_read_str(v[i].0, mid);
        lemma_read_str(v[i].1, after);
        lemma_read_pairs(v, i + 1, rest);
        assert(seq![(v[i].0, v[i].1)] + v.skip(i + 1) =~= v.skip(i));
    } else {
        assert(pair_bytes(v, i) + rest =~= rest);
        assert(v.skip(i) =~= seq![]);
    }
}

proof fn lemma_read_pair_list(v: Seq<(Seq<char>, Seq<char>)>, rest: Seq<u8>)
    requires
        pairs_fit(v),
    ensures
        read_pair_list(pairs_bytes(v) + rest) == Some((v, rest)),
{
    assert(pairs_bytes(v) + rest =~= le(v.len(), 4) + (pair_bytes(v, 0) + rest));
    lemma_read_u32(v.len() as u32, pair_bytes(v, 0) + rest);
    lemma_read_pairs(v, 0, rest);
    assert(v.skip(0) =~= v);
}

proof fn lemma_read_launch(m: MsgView)
    requires
        m is Launch,
        fits(m),
    ensures
        read_launch(encoded(m).skip(1)) == Some((m, Seq::<u8>::empty())),
{
    if let MsgView::Launch {
        session_type,
        desktop,
        session_id,
        session_name,
        session_exec,
        extra_env,
        vt,
    } = m {
        let b7 = le(vt as nat, 4);
        let b6 = pairs_bytes(extra_env) + b7;
        let b5 = str_bytes(session_exec) + b6;
        let b4 = str_bytes(session_name) + b5;
        let b3 = str_bytes(session_id) + b4;
        let b2 = str_bytes(desktop) + b3;
        let b1 = str_bytes(session_type) + b2;
        assert(encoded(m).skip(1) =~= b1);
        lemma_read_str(session_type, b2);
        lemma_read_str(desktop, b3);
        lemma_read_str(session_id, b4);
        lemma_read_str(session_name, b5);
        lemma_read_str(session_exec, b6);
        lemma_read_pair_list(extra_env, b7);
        lemma_read_u32(vt, seq![]);
        assert(b7 + Seq::<u8>::empty() =~= b7);
    }
}

proof fn lemma_read_start(m: MsgView)
    requires
        m is Start,
        fits(m),
    ensures
        read_start(encoded(m).skip(1)) == Some((m, Seq::<u8>::empty())),
{
    if let MsgView::Start { username, tty, seat, vtnr, session_type, desktop, id_base } = m {
        let b7 = le(id_base as nat, 4);
        let b6 = str_bytes(desktop) + b7;
        let b5 = str_bytes(session_type) + b6;
        let b4 = le(vtnr as nat, 4) + b5;
        let b3 = str_bytes(seat) + b4;
        let b2 = str_bytes(tty) + b3;
        let b1 = str_bytes(username) + b2;
        assert(encoded(m).skip(1) =~= b1);
        lemma_read_str(username, b2);
        lemma_read_str(tty, b3);
        lemma_read_str(seat, b4);
        lemma_read_u32(vtnr, b5);
        lemma_read_str(session_type, b6);
        lemma_read_str(desktop, b7);
        lemma_read_u32(id_base, seq![]);
        assert(b7 + Seq::<u8>::empty() =~= b7);
    }
}

proof fn lemma_read_prompt(m: MsgView)
    requires
        m is Prompt,
        fits(m),
    ensures
        read_prompt(encoded(m).skip(1)) == Some((m, Seq::<u8>::empty())),
{
    if let MsgView::Prompt { id, text, style } = m {
        let b3 = seq![style_byte(style)];
        let b2 = str_bytes(text) + b3;
        assert(encoded(m).skip(1) =~= le(id as nat, 4) + b2);
        lemma_read_u32(id, b2);
        lemma_read_str(text, b3);
        lemma_read_byte(style_byte(style), seq![]);
        assert(b3 + Seq::<u8>::empty() =~= b3);
    }
}

/// Reading a message that was written consumes exactly what was written.
proof fn lemma_read_msg(m: MsgView)
    requires
        fits(m),
    ensures
        read_msg(encoded(m)) == Some((m, Seq::<u8>::empty())),
{
    let nothing = Seq::<u8>::empty();
    let body = encoded(m).skip(1);
    assert(encoded(m) =~= seq![encoded(m)[0]] + body);
    lemma_read_byte(encoded(m)[0], body);
    match m {
        MsgView::Response { id, secret } => {
            assert(body =~= le(id as nat, 4) + str_bytes(secret));
            lemma_read_u32(id, str_bytes(secret));
            lemma_read_str(secret, nothing);
            assert(str_bytes(secret) + nothing =~= str_bytes(secret));
        },
        MsgView::Launch { .. } => {
            lemma_read_launch(m);
        },
        MsgView::Prompt { .. } => {
            lemma_read_prompt(m);
        },
        MsgView::Accepted => {
            assert(body =~= nothing);
        },
        MsgView::Failed(reason) => {
            lemma_read_str(reason, nothing);
            assert(body =~= str_bytes(reason) + nothing);
        },
        MsgView::SessionStarted { pid } => {
            lemma_read_u32(pid, nothing);
            assert(body =~= le(pid as nat, 4) + nothing);
        },
        MsgView::SessionFailed(reason) => {
            lemma_read_str(reason, nothing);
            assert(body =~= str_bytes(reason) + nothing);
        },
        MsgView::SessionEnded { status, ran_for_ms } => {
            let ms = le(ran_for_ms as nat, 8);
            lemma_bounds();
            lemma_read_le(ran_for_ms as nat, 8, nothing);
            lemma_read_str(status, ms);
            assert(body =~= str_bytes(status) + ms);
            assert(ms + nothing =~= ms);
        },
        MsgView::Start { .. } => {
            lemma_read_start(m);
        },
    }
}

/// Decoding an encoded message gives the message back, whichever it is.
pub proof fn law_round_trip(m: MsgView)
    requires
        fits(m),
    ensures
        decoded(encoded(m)) == Some(m),
{
    lemma_read_msg(m);
}

proof fn lemma_le_more(s: Seq<u8>, k: nat, t: Seq<u8>)
    ensures
        read_le(s, k) matches Some((n, rest)) ==> read_le(s + t, k) == Some((n, rest + t)),
{
    if s.len() >= k {
        assert((s + t).take(k as int) =~= s.take(k as int));
        assert((s + t).skip(k as int) =~= s.skip(k as int) + t);
    }
}

proof fn lemma_str_more(s: Seq<u8>, t: Seq<u8>)
    ensures
        read_str(s) matches Some((v, rest)) ==> read_str(s + t) == Some((v, rest + t)),
{
    lemma_le_more(s, 4, t);
    if let Some((n, rest)) = read_le(s, 4) {
        if rest.len() >= n {
            assert((rest + t).take(n as int) =~= rest.take(n as int));
            assert((rest + t).skip(n as int) =~= rest.skip(n as int) + t);
        }
    }
}

proof fn lemma_pairs_more(s: Seq<u8>, n: nat, t: Seq<u8>)
    ensures
        read_pairs(s, n) matches Some((v, rest)) ==> read_pairs(s + t, n) == Some((v, rest + t)),
    decreases n,
{
    if n > 0 {
        lemma_str_more(s, t);
        if let Some((key, after_key)) = read_str(s) {
            lemma_str_more(after_key, t);
            if let Some((value, after)) = read_str(after_key) {
                lemma_pairs_more(after, (n - 1) as nat, t);
            }
        }
    }
}

proof fn lemma_pair_list_more(s: Seq<u8>, t: Seq<u8>)
    ensures
        read_pair_list(s) matches Some((v, rest)) ==> read_pair_list(s + t) == Some((v, rest + t)),
{
    lemma_le_more(s, 4, t);
    if let Some((n, rest)) = read_le(s, 4) {
        lemma_pairs_more(rest, n, t);
    }
}

proof fn lemma_launch_more(s: Seq<u8>, t: Seq<u8>)
    ensures
        read_launch(s) matches Some((m, rest)) ==> read_launch(s + t) == Some((m, rest + t)),
{
    if read_launch(s) is Some {
        lemma_str_more(s, t);
        let s1 = (read_str(s)->0).1;
        lemma_str_more(s1, t);
        let s2 = (read_str(s1)->0).1;
        lemma_str_more(s2, t);
        let s3 = (read_str(s2)->0).1;
        lemma_str_more(s3, t);
        let s4 = (read_str(s3)->0).1;
        lemma_str_more(s4, t);
        let s5 = (read_str(s4)->0).1;
        lemma_pair_list_more(s5, t);
        let s6 = (read_pair_list(s5)->0).1;
        lemma_le_more(s6, 4, t);
    }
}

proof fn lemma_start_more(s: Seq<u8>, t: Seq<u8>)
    ensures
        read_start(s) matches Some((m, rest)) ==> read_start(s + t) == Some((m, rest + t)),
{
    if read_start(s) is Some {
        lemma_str_more(s, t);
        let s1 = (read_str(s)->0).1;
        lemma_str_more(s1, t);
        let s2 = (read_str(s1)->0).1;
        lemma_str_more(s2, t);
        let s3 = (read_str(s2)->0).1;
        lemma_le_more(s3, 4, t);
        let s4 = (read_le(s3, 4)->0).1;
        lemma_str_more(s4, t);
        let s5 = (read_str(s4)->0).1;
        lemma_str_more(s5, t);
        let s6 = (read_str(s5)->0).1;
        lemma_le_more(s6, 4, t);
    }
}

proof fn lemma_prompt_more(s: Seq<u8>, t: Seq<u8>)
    ensures
        read_prompt(s) matches Some((m, rest)) ==> read_prompt(s + t) == Some((m, rest + t)),
{
    if read_prompt(s) is Some {
        lemma_le_more(s, 4, t);
        let s1 = (read_le(s, 4)->0).1;
        lemma_str_more(s1, t);
        let s2 = (read_str(s1)->0).1;
        lemma_le_more(s2, 1, t);
    }
}

/// What follows a message does not change how it is read.
proof fn lemma_msg_more(s: Seq<u8>, t: Seq<u8>)
    ensures
        read_msg(s) matches Some((m, rest)) ==> read_msg(s + t) == Some((m, rest + t)),
{
    lemma_le_more(s, 1, t);
    if let Some((tag, s1)) = read_le(s, 1) {
        lemma_launch_more(s1, t);
        lemma_prompt_more(s1, t);
        lemma_start_more(s1, t);
        lemma_str_more(s1, t);
        lemma_le_more(s1, 4, t);
        if tag == 1 {
            if let Some((id, s2)) = read_le(s1, 4) {
                lemma_str_more(s2, t);
            }
        }
        if tag == 8 {
            if let Some((status, s2)) = read_str(s1) {
                lemma_le_more(s2, 8, t);
            }
        }
    }
}

/// A message cut short anywhere is refused, never read as a shorter message.
pub proof fn law_truncated_is_refused(m: MsgView, cut: int)
    requires
        fits(m),
        0 <= cut < encoded(m).len(),
    ensures
        decoded(encoded(m).take(cut)) is None,
{
    let b = encoded(m);
    let front = b.take(cut);
    let back = b.skip(cut);
    assert(front + back =~= b);
    lemma_read_msg(m);
    lemma_msg_more(front, back);
    if let Some((n, rest)) = read_msg(front) {
        if rest.len() == 0 {
            assert(rest + back =~= back);
            assert(back.len() > 0);
        }
    }
}

/// A message with anything behind it is refused.
pub proof fn law_trailing_is_refused(m: MsgView, extra: Seq<u8>)
    requires
        fits(m),
        extra.len() > 0,
    ensures
        decoded(encoded(m) + extra) is None,
{
    lemma_read_msg(m);
    lemma_msg_more(encoded(m), extra);
    assert(Seq::<u8>::empty() + extra =~= extra);
}

/// Nothing is read from an empty datagram or from one with a tag that stands for
/// no message.
pub proof fn law_unknown_tag_is_refused(s: Seq<u8>)
    requires
        s.len() == 0 || s[0] == 0 || s[0] > 9,
    ensures
        decoded(s) is None,
{
    if s.len() > 0 {
        assert(s =~= seq![s[0]] + s.skip(1));
        lemma_read_byte(s[0], s.skip(1));
    }
}

/// Two messages that look the same on the wire are the same message.
pub proof fn law_encoding_is_injective(a: MsgView, b: MsgView)
    requires
        fits(a),
        fits(b),
        encoded(a) == encoded(b),
    ensures
        a == b,
{
    law_round_trip(a);
    law_round_trip(b);
}

/// The bytes of the string at the front.
pub open spec fn text_bytes(s: Seq<u8>) -> Seq<u8> {
    s.skip(4).take(le_value(s.take(4)) as int)
}

/// What follows so many strings.
pub open spec fn after_texts(s: Seq<u8>, count: nat) -> Seq<u8>
    decreases count,
{
    if count == 0 {
        s
    } else {
        after_texts(s.skip(4).skip(le_value(s.take(4)) as int), (count - 1) as nat)
    }
}

/// Each of so many strings at the front is UTF-8.
pub open spec fn texts_are_utf8(s: Seq<u8>, count: nat) -> bool
    decreases count,
{
    count == 0 || (valid_utf8(text_bytes(s)) && texts_are_utf8(
        after_texts(s, 1),
        (count - 1) as nat,
    ))
}

/// The bytes of the string that stands behind so many others.
pub open spec fn text_at(s: Seq<u8>, k: nat) -> Seq<u8> {
    text_bytes(after_texts(s, k))
}

proof fn lemma_after_next(s: Seq<u8>, k: nat)
    ensures
        after_texts(s, k + 1) == after_texts(after_texts(s, k), 1),
    decreases k,
{
    reveal_with_fuel(after_texts, 2);
    if k > 0 {
        lemma_after_next(after_texts(s, 1), (k - 1) as nat);
    }
}

/// The texts of a list of pairs stand for the strings of the list.
pub open spec fn pairs_marked(s: Seq<u8>, v: Seq<(Seq<char>, Seq<char>)>) -> bool {
    forall|i: int|
        0 <= i < v.len() ==> marked(text_at(s, (2 * i) as nat), (#[trigger] v[i]).0) && marked(
            text_at(s, (2 * i + 1) as nat),
            v[i].1,
        )
}

/// The texts of a message stand for the strings among its fields.
pub open spec fn fields_marked(s: Seq<u8>, m: MsgView) -> bool {
    match m {
        MsgView::Response { id, secret } => marked(text_at(s.skip(4), 0), secret),
        MsgView::Launch {
            session_type,
            desktop,
            session_id,
            session_name,
            session_exec,
            extra_env,
            vt,
        } => {
            &&& marked(text_at(s, 0), session_type)
            &&& marked(text_at(s, 1), desktop)
            &&& marked(text_at(s, 2), session_id)
            &&& marked(text_at(s, 3), session_name)
            &&& marked(text_at(s, 4), session_exec)
            &&& pairs_marked(after_texts(s, 5).skip(4), extra_env)
        },
        MsgView::Prompt { id, text, style } => marked(text_at(s.skip(4), 0), text),
        MsgView::Accepted => true,
        MsgView::Failed(reason) => marked(text_at(s, 0), reason),
        MsgView::SessionStarted { pid } => true,
        MsgView::SessionFailed(reason) => marked(text_at(s, 0), reason),
        MsgView::SessionEnded { status, ran_for_ms } => marked(text_at(s, 0), status),
        MsgView::Start { username, tty, seat, vtnr, session_type, desktop, id_base } => {
            &&& marked(text_at(s, 0), username)
            &&& marked(text_at(s, 1), tty)
            &&& marked(text_at(s, 2), seat)
            &&& marked(text_at(after_texts(s, 3).skip(4), 0), session_type)
            &&& marked(text_at(after_texts(s, 3).skip(4), 1), desktop)
        },
    }
}

/// A string of a datagram that is not UTF-8 shows in the message's text for it.
pub open spec fn damage_shows(b: Seq<u8>, m: MsgView) -> bool {
    fields_marked(b.skip(1), m)
}

/// Every string of a datagram that is a message is UTF-8.
pub open spec fn all_utf8(b: Seq<u8>) -> bool {
    let s = b.skip(1);
    match b[0] {
        1 => texts_are_utf8(s.skip(4), 1),
        2 => {
            let list = after_texts(s, 5);
            &&& texts_are_utf8(s, 5)
            &&& texts_are_utf8(list.skip(4), 2 * le_value(list.take(4)))
        },
        3 => texts_are_utf8(s.skip(4), 1),
        5 => texts_are_utf8(s, 1),
        7 => texts_are_utf8(s, 1),
        8 => texts_are_utf8(s, 1),
        9 => texts_are_utf8(s, 3) && texts_are_utf8(after_texts(s, 3).skip(4), 2),
        _ => true,
    }
}

/// Bytes are how the number they spell is written.
proof fn lemma_le_value(s: Seq<u8>)
    ensures
        le_value(s) < le_bound(s.len()),
        le(le_value(s), s.len()) == s,
    decreases s.len(),
{
    if s.len() > 0 {
        lemma_le_value(s.skip(1));
        let high = le_value(s.skip(1));
        assert((s[0] as nat + 256 * high) % 256 == s[0]);
        assert((s[0] as nat + 256 * high) / 256 == high);
        assert(le(le_value(s), s.len()) =~= s);
    } else {
        assert(le(0, 0) =~= s);
    }
}

proof fn lemma_unread_le(s: Seq<u8>, k: nat)
    ensures
        read_le(s, k) matches Some((n, rest)) ==> n < le_bound(k) && le(n, k) + rest == s,
{
    if s.len() >= k {
        lemma_le_value(s.take(k as int));
        assert(s.take(k as int) + s.skip(k as int) =~= s);
    }
}

proof fn lemma_unread_u32(s: Seq<u8>)
    ensures
        read_le(s, 4) matches Some((n, rest)) ==> n <= u32::MAX && le(n as u32 as nat, 4) + rest
            == s,
{
    lemma_bounds();
    lemma_unread_le(s, 4);
}

proof fn lemma_unread_str(s: Seq<u8>)
    requires
        valid_utf8(text_bytes(s)),
    ensures
        read_str(s) matches Some((t, rest)) ==> str_bytes(t) + rest == s && rest == after_texts(
            s,
            1,
        ),
{
    reveal_with_fuel(after_texts, 2);
    lemma_unread_u32(s);
    if let Some((n, rest)) = read_le(s, 4) {
        if rest.len() >= n {
            let body = rest.take(n as int);
            decode_utf8_encode_utf8(body);
            assert(le(n, 4) + body + rest.skip(n as int) =~= le(n, 4) + rest);
        }
    }
}

proof fn lemma_join(a: Seq<u8>, b: Seq<u8>, c: Seq<u8>)
    ensures
        (a + b) + c == a + (b + c),
{
    assert((a + b) + c =~= a + (b + c));
}

/// Eight parts appended one after another.
proof fn lemma_line_up(
    a: Seq<u8>,
    b: Seq<u8>,
    c: Seq<u8>,
    d: Seq<u8>,
    e: Seq<u8>,
    f: Seq<u8>,
    g: Seq<u8>,
    h: Seq<u8>,
)
    ensures
        a + b + c + d + e + f + g + h == a + (b + (c + (d + (e + (f + (g + h)))))),
{
    lemma_join(a + b + c + d + e + f, g, h);
    lemma_join(a + b + c + d + e, f, g + h);
    lemma_join(a + b + c + d, e, f + (g + h));
    lemma_join(a + b + c, d, e + (f + (g + h)));
    lemma_join(a + b, c, d + (e + (f + (g + h))));
    lemma_join(a, b, c + (d + (e + (f + (g + h)))));
}

/// What follows eight parts can as well follow the last of them.
proof fn lemma_join_all(
    a: Seq<u8>,
    b: Seq<u8>,
    c: Seq<u8>,
    d: Seq<u8>,
    e: Seq<u8>,
    f: Seq<u8>,
    g: Seq<u8>,
    h: Seq<u8>,
    rest: Seq<u8>,
)
    ensures
        (a + (b + (c + (d + (e + (f + (g + h))))))) + rest == a + (b + (c + (d + (e + (f + (g + (h
            + rest))))))),
{
    lemma_join(g, h, rest);
    lemma_join(f, g + h, rest);
    lemma_join(e, f + (g + h), rest);
    lemma_join(d, e + (f + (g + h)), rest);
    lemma_join(c, d + (e + (f + (g + h))), rest);
    lemma_join(b, c + (d + (e + (f + (g + h)))), rest);
    lemma_join(a, b + (c + (d + (e + (f + (g + h))))), rest);
}

/// The first of some strings, and those after it.
proof fn lemma_next_text(s: Seq<u8>, count: nat)
    requires
        count > 0,
        texts_are_utf8(s, count),
        read_str(s) is Some,
    ensures
        str_bytes((read_str(s)->0).0) + (read_str(s)->0).1 == s,
        texts_are_utf8((read_str(s)->0).1, (count - 1) as nat),
        after_texts(s, count) == after_texts((read_str(s)->0).1, (count - 1) as nat),
{
    lemma_unread_str(s);
    reveal_with_fuel(after_texts, 2);
}

#[verifier::spinoff_prover]
#[verifier::rlimit(40)]
proof fn lemma_unread_pairs(
    s: Seq<u8>,
    n: nat,
    v: Seq<(Seq<char>, Seq<char>)>,
    i: int,
    rest: Seq<u8>,
)
    requires
        texts_are_utf8(s, 2 * n),
        0 <= i,
        i + n == v.len(),
        read_pairs(s, n) == Some((v.skip(i), rest)),
    ensures
        pair_bytes(v, i) + rest == s,
    decreases n,
{
    if n > 0 {
        lemma_next_text(s, 2 * n);
        let (key, s1) = read_str(s)->0;
        lemma_next_text(s1, (2 * n - 1) as nat);
        let (value, s2) = read_str(s1)->0;
        let (more, last) = read_pairs(s2, (n - 1) as nat)->0;
        assert(last == rest);
        assert(v.skip(i)[0] == (key, value));
        assert((seq![(key, value)] + more).skip(1) =~= more);
        assert(v.skip(i).skip(1) =~= v.skip(i + 1));
        lemma_unread_pairs(s2, (n - 1) as nat, v, i + 1, rest);
        let tail = pair_bytes(v, i + 1);
        lemma_join(str_bytes(value), tail, rest);
        lemma_join(str_bytes(key), str_bytes(value) + tail, rest);
    } else {
        assert(v.skip(i) =~= seq![]);
        assert(pair_bytes(v, i) + rest =~= rest);
    }
}

proof fn lemma_unread_pair_list(s: Seq<u8>)
    requires
        texts_are_utf8(s.skip(4), 2 * le_value(s.take(4))),
    ensures
        read_pair_list(s) matches Some((v, rest)) ==> pairs_bytes(v) + rest == s,
{
    lemma_unread_u32(s);
    if let Some((v, rest)) = read_pair_list(s) {
        let (n, list) = read_le(s, 4)->0;
        lemma_pairs_use_bytes(list, n);
        assert(v.skip(0) =~= v);
        lemma_unread_pairs(list, n, v, 0, rest);
        assert(pairs_bytes(v) + rest =~= le(n, 4) + (pair_bytes(v, 0) + rest));
    }
}

/// The texts of a `Launch`.
proof fn lemma_unread_choice(
    s: Seq<u8>,
    session_type: (Seq<char>, Seq<u8>),
    desktop: (Seq<char>, Seq<u8>),
    session_id: (Seq<char>, Seq<u8>),
    session_name: (Seq<char>, Seq<u8>),
    session_exec: (Seq<char>, Seq<u8>),
)
    requires
        texts_are_utf8(s, 5),
        read_str(s) == Some(session_type),
        read_str(session_type.1) == Some(desktop),
        read_str(desktop.1) == Some(session_id),
        read_str(session_id.1) == Some(session_name),
        read_str(session_name.1) == Some(session_exec),
    ensures
        str_bytes(session_type.0) + (str_bytes(desktop.0) + (str_bytes(session_id.0) + (str_bytes(
            session_name.0,
        ) + (str_bytes(session_exec.0) + session_exec.1)))) == s,
        after_texts(s, 5) == session_exec.1,
{
    lemma_next_text(s, 5);
    lemma_next_text(session_type.1, 4);
    lemma_next_text(desktop.1, 3);
    lemma_next_text(session_id.1, 2);
    lemma_next_text(session_name.1, 1);
}

proof fn lemma_launch_parts(
    s: Seq<u8>,
    session_type: (Seq<char>, Seq<u8>),
    desktop: (Seq<char>, Seq<u8>),
    session_id: (Seq<char>, Seq<u8>),
    session_name: (Seq<char>, Seq<u8>),
    session_exec: (Seq<char>, Seq<u8>),
    extra_env: (Seq<(Seq<char>, Seq<char>)>, Seq<u8>),
    vt: (nat, Seq<u8>),
)
    requires
        read_str(s) == Some(session_type),
        read_str(session_type.1) == Some(desktop),
        read_str(desktop.1) == Some(session_id),
        read_str(session_id.1) == Some(session_name),
        read_str(session_name.1) == Some(session_exec),
        read_pair_list(session_exec.1) == Some(extra_env),
        read_le(extra_env.1, 4) == Some(vt),
        texts_are_utf8(s, 5),
        texts_are_utf8(after_texts(s, 5).skip(4), 2 * le_value(after_texts(s, 5).take(4))),
    ensures
        seq![2u8] + (str_bytes(session_type.0) + (str_bytes(desktop.0) + (str_bytes(session_id.0)
            + (str_bytes(session_name.0) + (str_bytes(session_exec.0) + (pairs_bytes(extra_env.0)
            + le(vt.0 as u32 as nat, 4))))))) + vt.1 == seq![2u8] + s,
{
    lemma_unread_choice(s, session_type, desktop, session_id, session_name, session_exec);
    lemma_unread_pair_list(session_exec.1);
    lemma_unread_u32(extra_env.1);
    lemma_join_all(
        seq![2u8],
        str_bytes(session_type.0),
        str_bytes(desktop.0),
        str_bytes(session_id.0),
        str_bytes(session_name.0),
        str_bytes(session_exec.0),
        pairs_bytes(extra_env.0),
        le(vt.0 as u32 as nat, 4),
        vt.1,
    );
}

proof fn lemma_unread_launch(s: Seq<u8>)
    requires
        texts_are_utf8(s, 5),
        texts_are_utf8(after_texts(s, 5).skip(4), 2 * le_value(after_texts(s, 5).take(4))),
        read_launch(s) is Some,
    ensures
        encoded((read_launch(s)->0).0) + (read_launch(s)->0).1 == seq![2u8] + s,
{
    let session_type = read_str(s)->0;
    let desktop = read_str(session_type.1)->0;
    let session_id = read_str(desktop.1)->0;
    let session_name = read_str(session_id.1)->0;
    let session_exec = read_str(session_name.1)->0;
    let extra_env = read_pair_list(session_exec.1)->0;
    let vt = read_le(extra_env.1, 4)->0;
    lemma_launch_parts(
        s,
        session_type,
        desktop,
        session_id,
        session_name,
        session_exec,
        extra_env,
        vt,
    );
}

/// The fields of a `Start` from the VT on.
proof fn lemma_unread_seat(
    s: Seq<u8>,
    vtnr: (nat, Seq<u8>),
    session_type: (Seq<char>, Seq<u8>),
    desktop: (Seq<char>, Seq<u8>),
    id_base: (nat, Seq<u8>),
)
    requires
        texts_are_utf8(s.skip(4), 2),
        read_le(s, 4) == Some(vtnr),
        read_str(vtnr.1) == Some(session_type),
        read_str(session_type.1) == Some(desktop),
        read_le(desktop.1, 4) == Some(id_base),
    ensures
        le(vtnr.0 as u32 as nat, 4) + (str_bytes(session_type.0) + (str_bytes(desktop.0) + (le(
            id_base.0 as u32 as nat,
            4,
        ) + id_base.1))) == s,
{
    lemma_unread_u32(s);
    lemma_next_text(vtnr.1, 2);
    lemma_next_text(session_type.1, 1);
    lemma_unread_u32(desktop.1);
}

/// The fields of a `Start` up to the seat.
proof fn lemma_unread_login(
    s: Seq<u8>,
    username: (Seq<char>, Seq<u8>),
    tty: (Seq<char>, Seq<u8>),
    seat: (Seq<char>, Seq<u8>),
)
    requires
        texts_are_utf8(s, 3),
        read_str(s) == Some(username),
        read_str(username.1) == Some(tty),
        read_str(tty.1) == Some(seat),
    ensures
        str_bytes(username.0) + (str_bytes(tty.0) + (str_bytes(seat.0) + seat.1)) == s,
        after_texts(s, 3) == seat.1,
{
    lemma_next_text(s, 3);
    lemma_next_text(username.1, 2);
    lemma_next_text(tty.1, 1);
}

proof fn lemma_start_parts(
    s: Seq<u8>,
    username: (Seq<char>, Seq<u8>),
    tty: (Seq<char>, Seq<u8>),
    seat: (Seq<char>, Seq<u8>),
    vtnr: (nat, Seq<u8>),
    session_type: (Seq<char>, Seq<u8>),
    desktop: (Seq<char>, Seq<u8>),
    id_base: (nat, Seq<u8>),
)
    requires
        read_str(s) == Some(username),
        read_str(username.1) == Some(tty),
        read_str(tty.1) == Some(seat),
        read_le(seat.1, 4) == Some(vtnr),
        read_str(vtnr.1) == Some(session_type),
        read_str(session_type.1) == Some(desktop),
        read_le(desktop.1, 4) == Some(id_base),
        texts_are_utf8(s, 3),
        texts_are_utf8(after_texts(s, 3).skip(4), 2),
    ensures
        seq![9u8] + (str_bytes(username.0) + (str_bytes(tty.0) + (str_bytes(seat.0) + (le(
            vtnr.0 as u32 as nat,
            4,
        ) + (str_bytes(session_type.0) + (str_bytes(desktop.0) + le(
            id_base.0 as u32 as nat,
            4,
        ))))))) + id_base.1 == seq![9u8] + s,
{
    lemma_unread_login(s, username, tty, seat);
    lemma_unread_seat(seat.1, vtnr, session_type, desktop, id_base);
    lemma_join_all(
        seq![9u8],
        str_bytes(username.0),
        str_bytes(tty.0),
        str_bytes(seat.0),
        le(vtnr.0 as u32 as nat, 4),
        str_bytes(session_type.0),
        str_bytes(desktop.0),
        le(id_base.0 as u32 as nat, 4),
        id_base.1,
    );
}

proof fn lemma_unread_start(s: Seq<u8>)
    requires
        texts_are_utf8(s, 3),
        texts_are_utf8(after_texts(s, 3).skip(4), 2),
        read_start(s) is Some,
    ensures
        encoded((read_start(s)->0).0) + (read_start(s)->0).1 == seq![9u8] + s,
{
    let username = read_str(s)->0;
    let tty = read_str(username.1)->0;
    let seat = read_str(tty.1)->0;
    let vtnr = read_le(seat.1, 4)->0;
    let session_type = read_str(vtnr.1)->0;
    let desktop = read_str(session_type.1)->0;
    let id_base = read_le(desktop.1, 4)->0;
    lemma_start_parts(s, username, tty, seat, vtnr, session_type, desktop, id_base);
}

#[verifier::spinoff_prover]
#[verifier::rlimit(40)]
proof fn lemma_unread_prompt(s: Seq<u8>)
    requires
        texts_are_utf8(s.skip(4), 1),
        read_prompt(s) is Some,
    ensures
        encoded((read_prompt(s)->0).0) + (read_prompt(s)->0).1 == seq![3u8] + s,
{
    reveal_with_fuel(texts_are_utf8, 2);
    lemma_unread_u32(s);
    let (id, s1) = read_le(s, 4)->0;
    lemma_unread_str(s1);
    let (text, s2) = read_str(s1)->0;
    let (tag, rest) = read_le(s2, 1)->0;
    assert(s2 =~= seq![s2[0]] + s2.skip(1));
    lemma_read_byte(s2[0], s2.skip(1));
    let (m, end) = read_prompt(s)->0;
    assert(encoded(m) + rest =~= seq![3u8] + (le(id as u32 as nat, 4) + (str_bytes(text) + s2)));
}

/// Encoding what was decoded gives the same bytes, where the strings in them are
/// UTF-8: there is one way to write a message.
#[verifier::spinoff_prover]
#[verifier::rlimit(40)]
pub proof fn law_decoding_is_exact(b: Seq<u8>, m: MsgView)
    requires
        decoded(b) == Some(m),
        all_utf8(b),
    ensures
        encoded(m) == b,
{
    let s = b.skip(1);
    let none = Seq::<u8>::empty();
    assert(b.len() > 0);
    assert(b =~= seq![b[0]] + s);
    lemma_read_byte(b[0], s);
    assert((read_msg(b)->0).1 =~= none);
    assert(encoded(m) + none =~= encoded(m));
    reveal_with_fuel(texts_are_utf8, 2);
    match m {
        MsgView::Response { id, secret } => {
            lemma_unread_u32(s);
            let s1 = (read_le(s, 4)->0).1;
            lemma_unread_str(s1);
            assert(str_bytes(secret) + none =~= str_bytes(secret));
        },
        MsgView::Launch { .. } => {
            lemma_unread_launch(s);
        },
        MsgView::Prompt { .. } => {
            lemma_unread_prompt(s);
        },
        MsgView::Accepted => {
            assert(encoded(m) =~= b);
        },
        MsgView::Failed(reason) => {
            lemma_unread_str(s);
            assert(str_bytes(reason) + none =~= str_bytes(reason));
        },
        MsgView::SessionStarted { pid } => {
            lemma_unread_u32(s);
            assert(le(pid as nat, 4) + none =~= le(pid as nat, 4));
        },
        MsgView::SessionFailed(reason) => {
            lemma_unread_str(s);
            assert(str_bytes(reason) + none =~= str_bytes(reason));
        },
        MsgView::SessionEnded { status, ran_for_ms } => {
            lemma_unread_str(s);
            let s1 = (read_str(s)->0).1;
            lemma_bounds();
            lemma_unread_le(s1, 8);
            assert(le(ran_for_ms as nat, 8) + none =~= le(ran_for_ms as nat, 8));
        },
        MsgView::Start { .. } => {
            lemma_unread_start(s);
        },
    }
}

/// No two datagrams whose strings are UTF-8 are read as the same message.
pub proof fn law_decoding_is_injective(a: Seq<u8>, b: Seq<u8>)
    requires
        decoded(a) is Some,
        decoded(a) == decoded(b),
        all_utf8(a),
        all_utf8(b),
    ensures
        a == b,
{
    law_decoding_is_exact(a, decoded(a)->0);
    law_decoding_is_exact(b, decoded(b)->0);
}

proof fn lemma_pairs_use_bytes(s: Seq<u8>, n: nat)
    ensures
        read_pairs(s, n) matches Some((v, rest)) ==> v.len() == n && rest.len() + 8 * n
            <= s.len(),
    decreases n,
{
    if n > 0 {
        if let Some((key, after_key)) = read_str(s) {
            if let Some((value, after)) = read_str(after_key) {
                lemma_pairs_use_bytes(after, (n - 1) as nat);
            }
        }
    }
}

/// A count that claims more pairs than the datagram has room for is refused: each
/// pair read accounts for at least eight of its bytes.
#[verifier::spinoff_prover]
#[verifier::rlimit(40)]
pub proof fn law_pairs_are_bounded(s: Seq<u8>)
    ensures
        decoded(s) matches Some(MsgView::Launch { extra_env, .. }) ==> 8 * extra_env.len()
            <= s.len(),
{
    if let Some(MsgView::Launch { extra_env, .. }) = decoded(s) {
        let s0 = (read_le(s, 1)->0).1;
        let s1 = (read_str(s0)->0).1;
        let s2 = (read_str(s1)->0).1;
        let s3 = (read_str(s2)->0).1;
        let s4 = (read_str(s3)->0).1;
        let s5 = (read_str(s4)->0).1;
        let list = read_le(s5, 4)->0;
        lemma_pairs_use_bytes(list.1, list.0);
    }
}

/// Scrubbing takes the secret of a response and nothing else, and a second time
/// changes nothing.
pub proof fn law_only_secrets_are_scrubbed(m: MsgView)
    ensures
        m matches MsgView::Response { id, secret } ==> scrubbed(m) == (MsgView::Response {
            id,
            secret: Seq::<char>::empty(),
        }),
        !(m is Response) ==> scrubbed(m) == m,
        scrubbed(scrubbed(m)) == scrubbed(m),
{
}

/// Every kind of message has a tag of its own, which comes first, and a prompt's style
/// comes last.
pub proof fn law_messages_begin_with_their_tag(m: MsgView)
    ensures
        encoded(m).len() > 0,
        encoded(m)[0] == 1 <==> m is Response,
        encoded(m)[0] == 2 <==> m is Launch,
        encoded(m)[0] == 3 <==> m is Prompt,
        encoded(m)[0] == 4 <==> m is Accepted,
        encoded(m)[0] == 5 <==> m is Failed,
        encoded(m)[0] == 6 <==> m is SessionStarted,
        encoded(m)[0] == 7 <==> m is SessionFailed,
        encoded(m)[0] == 8 <==> m is SessionEnded,
        encoded(m)[0] == 9 <==> m is Start,
        m matches MsgView::Prompt { style, .. } ==> {
            &&& encoded(m).last() == 0 <==> style == PromptStyle::Secret
            &&& encoded(m).last() == 1 <==> style == PromptStyle::Visible
            &&& encoded(m).last() == 2 <==> style == PromptStyle::Info
            &&& encoded(m).last() == 3 <==> style == PromptStyle::Error
        },
        m is Accepted ==> encoded(m).len() == 1,
{
}

/// Numbers are sent with their least significant byte first.
pub proof fn law_numbers_are_little_endian(n: nat)
    ensures
        le(n, 4).len() == 4,
        le(n, 4)[0] == n % 256,
        le(n, 4)[1] == n / 256 % 256,
        le(n, 4)[2] == n / 65_536 % 256,
        le(n, 4)[3] == n / 16_777_216 % 256,
{
    reveal_with_fuel(le, 5);
    let rest = le(n / 256, 3);
    lemma_le_len(n, 4);
    lemma_le_len(n / 256, 3);
    lemma_le_len(n / 256 / 256, 2);
    lemma_le_len(n / 256 / 256 / 256, 1);
    assert(n / 256 / 256 == n / 65_536);
    assert(n / 256 / 256 / 256 == n / 16_777_216);
    assert(le(n, 4)[1] == rest[0]);
    assert(le(n, 4)[2] == rest[1]);
    assert(le(n, 4)[3] == rest[2]);
    assert(rest[1] == le(n / 256 / 256, 2)[0]);
    assert(rest[2] == le(n / 256 / 256, 2)[1]);
    assert(le(n / 256 / 256, 2)[1] == le(n / 256 / 256 / 256, 1)[0]);
}

/// A text is sent as the length of its UTF-8 form, and that form.
pub proof fn law_texts_carry_their_length(s: Seq<char>)
    requires
        encode_utf8(s).len() <= u32::MAX,
    ensures
        str_bytes(s).len() == 4 + encode_utf8(s).len(),
        le_value(str_bytes(s).take(4)) == encode_utf8(s).len(),
        str_bytes(s).skip(4) == encode_utf8(s),
{
    lemma_bounds();
    lemma_le(encode_utf8(s).len(), 4);
    assert(str_bytes(s).take(4) =~= le(encode_utf8(s).len(), 4));
    assert(str_bytes(s).skip(4) =~= encode_utf8(s));
}

/// What a message holds follows its tag in the order that both ends read it in.
pub proof fn law_fields_follow_one_another(
    a: Seq<char>,
    b: Seq<char>,
    c: Seq<char>,
    d: Seq<char>,
    e: Seq<char>,
    env: Seq<(Seq<char>, Seq<char>)>,
    n: u32,
    k: u32,
    style: PromptStyle,
    ms: u64,
)
    ensures
        encoded(MsgView::Prompt { id: n, text: a, style }) == seq![3u8] + (le(n as nat, 4) + (
        str_bytes(a) + seq![style_byte(style)])),
        encoded(MsgView::SessionEnded { status: a, ran_for_ms: ms }) == seq![8u8] + (str_bytes(a)
            + le(ms as nat, 8)),
        encoded(MsgView::Response { id: n, secret: a }) == seq![1u8] + (le(n as nat, 4)
            + str_bytes(a)),
        encoded(
            MsgView::Launch {
                session_type: a,
                desktop: b,
                session_id: c,
                session_name: d,
                session_exec: e,
                extra_env: env,
                vt: n,
            },
        ) == seq![2u8] + (str_bytes(a) + (str_bytes(b) + (str_bytes(c) + (str_bytes(d) + (
        str_bytes(e) + (pairs_bytes(env) + le(n as nat, 4))))))),
        encoded(
            MsgView::Start {
                username: a,
                tty: b,
                seat: c,
                vtnr: n,
                session_type: d,
                desktop: e,
                id_base: k,
            },
        ) == seq![9u8] + (str_bytes(a) + (str_bytes(b) + (str_bytes(c) + (le(n as nat, 4) + (
        str_bytes(d) + (str_bytes(e) + le(k as nat, 4))))))),
        encoded(MsgView::Failed(a)) == seq![5u8] + str_bytes(a),
        encoded(MsgView::SessionFailed(a)) == seq![7u8] + str_bytes(a),
        encoded(MsgView::SessionStarted { pid: n }) == seq![6u8] + le(n as nat, 4),
{
}

} // verus!
