//! Decision logic of the terminal-session commands.
//!
//! A creation request is turned into a [`SessionPlan`] naming the
//! program, arguments, working directory and initial geometry; the
//! caller allocates the terminal, spawns the child and registers the
//! session. Lookups and removals go through the registry helpers here,
//! and the output relay decides each step with [`relay_step`].

use vstd::prelude::*;
use vstd::string::StrSliceExecFns;
use vstd::string::StringExecFns;

use crate::registry::SessionRegistry;
use crate::strutil::char_is_ws;
use crate::strutil::concat_str;
use crate::strutil::is_unicode_ws;

verus! {

/// The whitespace-separated words of `s`; `cur` carries the characters
/// of the word being read.
pub open spec fn split_ws_rec(s: Seq<char>, cur: Seq<char>) -> Seq<Seq<char>>
    decreases s.len(),
{
    if s.len() == 0 {
        if cur.len() > 0 {
            seq![cur]
        } else {
            Seq::<Seq<char>>::empty()
        }
    } else if is_unicode_ws(s[0]) {
        if cur.len() > 0 {
            seq![cur] + split_ws_rec(s.skip(1), Seq::<char>::empty())
        } else {
            split_ws_rec(s.skip(1), Seq::<char>::empty())
        }
    } else {
        split_ws_rec(s.skip(1), cur.push(s[0]))
    }
}

/// The whitespace-separated words of `s`, in order, without empties.
pub open spec fn split_whitespace(s: Seq<char>) -> Seq<Seq<char>> {
    split_ws_rec(s, Seq::<char>::empty())
}

/// Splits a command string into its whitespace-separated words.
pub fn split_whitespace_parts(s: &str) -> (r: Vec<String>)
    ensures
        r@.map_values(|p: String| p@) == split_whitespace(s@),
{
    let sn = s.unicode_len();
    let mut out: Vec<String> = Vec::new();
    let mut i: usize = 0;
    let mut seg: usize = 0;
    proof {
        assert(s@.skip(0) =~= s@);
        assert(s@.subrange(0, 0) =~= Seq::<char>::empty());
        assert(out@.map_values(|p: String| p@) =~= Seq::<Seq<char>>::empty());
        assert(Seq::<Seq<char>>::empty() + split_ws_rec(s@, Seq::<char>::empty())
            =~= split_ws_rec(s@, Seq::<char>::empty()));
    }
    while i < sn
        invariant
            seg <= i <= sn,
            sn == s@.len(),
            split_whitespace(s@) == out@.map_values(|p: String| p@) + split_ws_rec(
                s@.skip(i as int),
                s@.subrange(seg as int, i as int),
            ),
        decreases sn - i,
    {
        let c = s.get_char(i);
        proof {
            let rest = s@.skip(i as int);
            assert(rest[0] == s@[i as int]);
            assert(rest.skip(1) =~= s@.skip(i as int + 1));
        }
        if char_is_ws(c) {
            if seg < i {
                let word = s.substring_char(seg, i);
                let word = word.to_owned();
                proof {
                    assert((out@.push(word)).map_values(|p: String| p@) =~= out@.map_values(
                        |p: String| p@,
                    ).push(word@));
                }
                out.push(word);
            }
            i = i + 1;
            seg = i;
            proof {
                assert(s@.subrange(seg as int, i as int) =~= Seq::<char>::empty());
            }
        } else {
            proof {
                assert(s@.subrange(seg as int, i as int).push(s@[i as int]) =~= s@.subrange(
                    seg as int,
                    i as int + 1,
                ));
            }
            i = i + 1;
        }
    }
    proof {
        assert(s@.skip(sn as int) =~= Seq::<char>::empty());
    }
    if seg < sn {
        let word = s.substring_char(seg, sn);
        let word = word.to_owned();
        proof {
            assert((out@.push(word)).map_values(|p: String| p@) =~= out@.map_values(
                |p: String| p@,
            ).push(word@));
        }
        out.push(word);
    } else {
        proof {
            assert(s@.subrange(seg as int, sn as int) =~= Seq::<char>::empty());
            assert(out@.map_values(|p: String| p@) + Seq::<Seq<char>>::empty() =~= out@.map_values(
                |p: String| p@,
            ));
        }
    }
    out
}

/// What a creation request decides before any terminal is allocated.
pub struct SessionPlan {
    /// The program to spawn.
    pub program: String,
    /// Its arguments, in order.
    pub args: Vec<String>,
    /// The working directory the child starts in.
    pub cwd: String,
    /// Initial terminal height.
    pub rows: u16,
    /// Initial terminal width.
    pub cols: u16,
}

/// The shell a session runs when no command is given.
pub open spec fn shell_spec(configured: Option<String>) -> Seq<char> {
    match configured {
        Some(s) => s@,
        None => "/bin/zsh"@,
    }
}

/// The user's configured interactive shell, with the fixed fallback
/// when none is configured.
pub fn choose_shell(configured: Option<String>) -> (r: String)
    ensures
        r@ == shell_spec(configured),
{
    match configured {
        Some(s) => s,
        None => "/bin/zsh".to_owned(),
    }
}

/// Decides program, arguments and initial geometry for a creation
/// request: a command string is split on whitespace into program and
/// arguments; without one the configured shell runs with no arguments.
/// A command string holding no word at all yields no plan.
pub fn create_session_plan(cwd: String, command: Option<&str>, configured_shell: Option<String>) -> (r:
    Option<SessionPlan>)
    ensures
        r is Some <==> (match command {
            Some(c) => split_whitespace(c@).len() > 0,
            None => true,
        }),
        r matches Some(plan) ==> ({
            &&& plan.cwd@ == cwd@
            &&& plan.rows == 24
            &&& plan.cols == 80
            &&& match command {
                Some(c) => plan.program@ == split_whitespace(c@)[0] && plan.args@.map_values(
                    |a: String| a@,
                ) == split_whitespace(c@).skip(1),
                None => plan.program@ == shell_spec(configured_shell) && plan.args@.len() == 0,
            }
        }),
{
    match command {
        None => {
            let program = choose_shell(configured_shell);
            Some(SessionPlan { program, args: Vec::new(), cwd, rows: 24, cols: 80 })
        },
        Some(c) => {
            let mut parts = split_whitespace_parts(c);
            if parts.len() == 0 {
                proof {
                    assert(split_whitespace(c@).len() == parts@.map_values(
                        |p: String| p@,
                    ).len());
                }
                None
            } else {
                let ghost words = split_whitespace(c@);
                let program = parts.remove(0);
                proof {
                    assert(program@ == words[0]);
                    assert(parts@.map_values(|a: String| a@) =~= words.skip(1));
                }
                Some(SessionPlan { program, args: parts, cwd, rows: 24, cols: 80 })
            }
        },
    }
}

/// The result of a permissive UTF-8 decode of a chunk of bytes.
pub uninterp spec fn lossy_utf8(bytes: Seq<u8>) -> Seq<char>;

/// Relies on String::from_utf8_lossy: the decoded text is a function of
/// the bytes alone; invalid sequences are replaced, never fatal, and no
/// bytes decode to no text.
#[verifier::external_body]
fn decode_lossy(bytes: &[u8]) -> (r: String)
    ensures
        r@ == lossy_utf8(bytes@),
        bytes@.len() == 0 ==> r@.len() == 0,
{
    String::from_utf8_lossy(bytes).into_owned()
}

/// What one read from the terminal's output stream produced.
pub enum ReadEvent {
    /// The bytes of a successful read.
    Data(Vec<u8>),
    /// End of stream.
    Eof,
    /// A read error.
    Failed,
}

/// What the relay does with one read.
pub enum RelayAction {
    /// Forward this text as an output event and keep reading.
    Emit(String),
    /// Stop relaying; log the read error unless shutdown explains it.
    Stop { log_read_error: bool },
}

/// The relay's decision for one iteration: stop silently once shutdown
/// is requested or the stream ends, stop loudly on a read error, and
/// otherwise forward the permissively decoded chunk.
pub open spec fn relay_decision_ok(shutdown: bool, ev: ReadEvent, r: RelayAction) -> bool {
    if shutdown {
        r == (RelayAction::Stop { log_read_error: false })
    } else {
        match ev {
            ReadEvent::Data(bytes) => r matches RelayAction::Emit(text) && text@ == lossy_utf8(
                bytes@,
            ),
            ReadEvent::Eof => r == (RelayAction::Stop { log_read_error: false }),
            ReadEvent::Failed => r == (RelayAction::Stop { log_read_error: true }),
        }
    }
}

/// One step of the output relay.
pub fn relay_step(shutdown: bool, ev: ReadEvent) -> (r: RelayAction)
    ensures
        relay_decision_ok(shutdown, ev, r),
{
    if shutdown {
        return RelayAction::Stop { log_read_error: false };
    }
    match ev {
        ReadEvent::Data(bytes) => RelayAction::Emit(decode_lossy(bytes.as_slice())),
        ReadEvent::Eof => RelayAction::Stop { log_read_error: false },
        ReadEvent::Failed => RelayAction::Stop { log_read_error: true },
    }
}

/// Law: once shutdown is requested, the relay stops and emits nothing,
/// whatever the read returned.
pub proof fn lemma_no_output_after_shutdown(ev: ReadEvent, r: RelayAction)
    requires
        relay_decision_ok(true, ev, r),
    ensures
        r == (RelayAction::Stop { log_read_error: false }),
{
}

/// The name of the event channel carrying one session's output.
pub fn event_name(id: &str) -> (r: String)
    ensures
        r@ == "pty-output-"@ + id@,
{
    concat_str("pty-output-", id)
}

/// Law: distinct sessions never share an output channel; the event
/// name determines the session identifier.
pub proof fn lemma_event_names_distinct(a: Seq<char>, b: Seq<char>)
    requires
        a != b,
    ensures
        "pty-output-"@ + a != "pty-output-"@ + b,
{
    let p = "pty-output-"@;
    if p + a == p + b {
        assert((p + a).len() == (p + b).len());
        assert(a =~= b) by {
            assert forall|i: int| 0 <= i < a.len() implies a[i] == b[i] by {
                assert((p + a)[p.len() + i] == a[i]);
                assert((p + b)[p.len() + i] == b[i]);
            }
        }
        assert(false);
    }
}

/// The error text for an unknown session identifier.
pub fn not_found_message(id: &str) -> (r: String)
    ensures
        r@ == "PTY session not found: "@ + id@,
{
    concat_str("PTY session not found: ", id)
}

/// Finds the session a write or resize request addresses, or the
/// not-found error; nothing else is touched.
pub fn lookup_session<'a, T>(reg: &'a SessionRegistry<T>, id: &str) -> (r: Result<&'a T, String>)
    requires
        reg.wf(),
    ensures
        r is Ok <==> reg@.contains_key(id@),
        r matches Ok(t) ==> *t == reg@[id@],
        r matches Err(m) ==> m@ == "PTY session not found: "@ + id@,
{
    match reg.get(id) {
        Some(t) => Ok(t),
        None => Err(not_found_message(id)),
    }
}

/// Removes the session a close request addresses and hands it back so
/// the caller can signal shutdown and drop the writer, or returns the
/// not-found error; every other session is untouched.
pub fn close_session<T>(reg: &mut SessionRegistry<T>, id: &str) -> (r: Result<T, String>)
    requires
        old(reg).wf(),
    ensures
        final(reg).wf(),
        r is Ok <==> old(reg)@.contains_key(id@),
        r matches Ok(t) ==> final(reg)@ == old(reg)@.remove(id@) && t == old(reg)@[id@],
        r matches Err(m) ==> final(reg)@ == old(reg)@ && m@ == "PTY session not found: "@ + id@,
{
    match reg.remove(id) {
        Some(t) => Ok(t),
        None => {
            proof {
                assert(old(reg)@.remove(id@) =~= old(reg)@);
            }
            Err(not_found_message(id))
        },
    }
}

} // verus!
