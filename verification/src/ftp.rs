//! The FTP control-channel state machine. One session per connection; each
//! command line is interpreted here, and every socket or filesystem step is
//! handed out as an action whose outcome comes back as a plain value. File
//! paths never reach the filesystem without passing the sandbox.

use vstd::prelude::*;
use vstd::string::StringSliceAdditionalSpecFns;
use crate::bytes::{bytes_eq, to_upper, trim_bytes, trim_spec, upper_spec};
use crate::http::{find_in, lemma_find_in, find_from};
use crate::sandbox::{
    compose_existing, compose_existing_spec, compose_new_target, compose_new_target_spec,
    join_bytes, join_path,
};

verus! {

/// Per-connection FTP control-channel state, in specification terms.
pub struct SessionSpec {
    /// Authenticated by USER and PASS.
    pub logged_in: bool,
    /// The name the last USER command announced.
    pub last_user: Seq<u8>,
    /// The current directory as path components under the root.
    pub cwd: Seq<Seq<u8>>,
    /// A passive-mode listener awaits the next transfer command.
    pub pending_listener: bool,
}

/// Per-connection FTP control-channel state.
pub struct FtpSession {
    /// Authenticated by USER and PASS.
    pub logged_in: bool,
    /// The name the last USER command announced.
    pub last_user: Vec<u8>,
    /// The current directory as path components under the root.
    pub cwd: Vec<Vec<u8>>,
    /// A passive-mode listener awaits the next transfer command.
    pub pending_listener: bool,
}

/// Views of a component list.
pub open spec fn comp_views(cs: Seq<Vec<u8>>) -> Seq<Seq<u8>> {
    cs.map_values(|c: Vec<u8>| c@)
}

impl View for FtpSession {
    type V = SessionSpec;

    open spec fn view(&self) -> SessionSpec {
        SessionSpec {
            logged_in: self.logged_in,
            last_user: self.last_user@,
            cwd: comp_views(self.cwd@),
            pending_listener: self.pending_listener,
        }
    }
}

impl FtpSession {
    /// A fresh session: unauthenticated, at the root, with no listener.
    pub fn new() -> (s: FtpSession)
        ensures
            s@ == (SessionSpec {
                logged_in: false,
                last_user: Seq::<u8>::empty(),
                cwd: Seq::<Seq<u8>>::empty(),
                pending_listener: false,
            }),
    {
        let s = FtpSession {
            logged_in: false,
            last_user: Vec::new(),
            cwd: Vec::new(),
            pending_listener: false,
        };
        proof {
            assert(comp_views(s.cwd@) =~= Seq::<Seq<u8>>::empty());
        }
        s
    }
}

/// A command line split at its first space: the verb in upper case, and
/// the trimmed argument (empty when absent).
pub open spec fn parse_command_spec(line: Seq<u8>) -> (Seq<u8>, Seq<u8>) {
    let n = line.len() as int;
    let sp = find_in(line, 32, 0, n);
    (
        upper_spec(line.subrange(0, sp)),
        if sp < n {
            trim_spec(line.subrange(sp + 1, n))
        } else {
            Seq::<u8>::empty()
        },
    )
}

/// Split one command line into its upper-cased verb and trimmed argument.
pub fn parse_command(line: &[u8]) -> (r: (Vec<u8>, Vec<u8>))
    ensures
        r.0@ == parse_command_spec(line@).0,
        r.1@ == parse_command_spec(line@).1,
{
    let sp = find_from(line, 32, 0, line.len());
    proof {
        lemma_find_in(line@, 32, 0, line@.len() as int);
    }
    let head = crate::bytes::copy_range(line, 0, sp);
    let cmd = to_upper(&head);
    let arg: Vec<u8> = if sp < line.len() {
        trim_bytes(&crate::bytes::copy_range(line, sp + 1, line.len()))
    } else {
        Vec::new()
    };
    proof {
        if sp >= line.len() {
            assert(arg@ =~= Seq::<u8>::empty());
        }
    }
    (cmd, arg)
}

/// The components joined as `/a/b/...`; the root itself shows as `/`.
pub open spec fn slash_join(comps: Seq<Seq<u8>>) -> Seq<u8>
    decreases comps.len(),
{
    if comps.len() == 0 {
        Seq::empty()
    } else {
        seq![47u8] + comps[0] + slash_join(comps.drop_first())
    }
}

/// How PWD shows the current directory.
pub open spec fn display_path(comps: Seq<Seq<u8>>) -> Seq<u8> {
    if comps.len() == 0 {
        seq![47u8]
    } else {
        slash_join(comps)
    }
}

proof fn lemma_slash_join_push(comps: Seq<Seq<u8>>, c: Seq<u8>)
    ensures
        slash_join(comps.push(c)) == slash_join(comps) + seq![47u8] + c,
    decreases comps.len(),
{
    let p = comps.push(c);
    if comps.len() == 0 {
        assert(p[0] == c);
        assert(p.drop_first() =~= Seq::<Seq<u8>>::empty());
        assert(slash_join(p.drop_first()) =~= Seq::<u8>::empty());
        assert(slash_join(p) == seq![47u8] + p[0] + slash_join(p.drop_first()));
        assert(seq![47u8] + c + Seq::<u8>::empty() =~= slash_join(comps) + seq![47u8] + c);
    } else {
        lemma_slash_join_push(comps.drop_first(), c);
        assert(p[0] == comps[0]);
        assert(p.drop_first() =~= comps.drop_first().push(c));
        assert(seq![47u8] + comps[0] + (slash_join(comps.drop_first()) + seq![47u8] + c) =~= (
        seq![47u8] + comps[0] + slash_join(comps.drop_first())) + seq![47u8] + c);
    }
}

/// Write the current directory as PWD shows it.
pub fn format_display_path(cwd: &Vec<Vec<u8>>) -> (r: Vec<u8>)
    ensures
        r@ == display_path(comp_views(cwd@)),
{
    let ghost cs = comp_views(cwd@);
    if cwd.len() == 0 {
        let mut out: Vec<u8> = Vec::new();
        out.push(47);
        proof {
            assert(out@ =~= seq![47u8]);
        }
        return out;
    }
    let mut out: Vec<u8> = Vec::new();
    let mut i: usize = 0;
    proof {
        assert(cs.take(0) =~= Seq::<Seq<u8>>::empty());
        assert(out@ =~= slash_join(cs.take(0)));
    }
    while i < cwd.len()
        invariant
            i <= cwd@.len(),
            cs == comp_views(cwd@),
            out@ == slash_join(cs.take(i as int)),
        decreases cwd.len() - i,
    {
        let ghost out_old = out@;
        out.push(47);
        out.extend_from_slice(cwd[i].as_slice());
        proof {
            assert(cs[i as int] == cwd@[i as int]@);
            lemma_slash_join_push(cs.take(i as int), cs[i as int]);
            assert(cs.take(i as int).push(cs[i as int]) =~= cs.take(i + 1));
            assert(out@ =~= out_old + seq![47u8] + cs[i as int]);
        }
        i += 1;
    }
    proof {
        assert(cs.take(cwd@.len() as int) =~= cs);
    }
    out
}

/// The absolute form of the current directory: the root with each
/// component appended.
pub open spec fn abs_path(root: Seq<u8>, comps: Seq<Seq<u8>>) -> Seq<u8>
    decreases comps.len(),
{
    if comps.len() == 0 {
        root
    } else {
        join_path(abs_path(root, comps.drop_last()), comps.last())
    }
}

/// Write the absolute form of the current directory.
pub fn format_abs_path(root: &[u8], cwd: &Vec<Vec<u8>>) -> (r: Vec<u8>)
    ensures
        r@ == abs_path(root@, comp_views(cwd@)),
{
    let ghost cs = comp_views(cwd@);
    let mut out: Vec<u8> = vstd::slice::slice_to_vec(root);
    let mut i: usize = 0;
    proof {
        assert(cs.take(0) =~= Seq::<Seq<u8>>::empty());
    }
    while i < cwd.len()
        invariant
            i <= cwd@.len(),
            cs == comp_views(cwd@),
            out@ == abs_path(root@, cs.take(i as int)),
        decreases cwd.len() - i,
    {
        let next = join_bytes(out.as_slice(), cwd[i].as_slice());
        out = next;
        proof {
            assert(cs[i as int] == cwd@[i as int]@);
            assert(cs.take(i + 1).drop_last() =~= cs.take(i as int));
            assert(cs.take(i + 1).last() == cs[i as int]);
        }
        i += 1;
    }
    proof {
        assert(cs.take(cwd@.len() as int) =~= cs);
    }
    out
}

/// The side step a command asks of the caller, in specification terms.
pub enum ActionSpec {
    /// Nothing beyond the replies.
    Stay,
    /// Close the session after the replies.
    Quit,
    /// Bind a passive listener, then report through `passive_opened` or
    /// `passive_failed`.
    OpenPassive { extended: bool },
    /// Canonicalize the candidate, test it is a directory within the root,
    /// and report through `cwd_resolved`.
    ResolveDir { candidate: Seq<u8> },
    /// Canonicalize the candidate, test it is a file within the root, and
    /// report through `retr_resolved_reply`; the listener was consumed.
    ResolveFile { candidate: Seq<u8> },
    /// Canonicalize the parent, pass it through `accept_new_target`, and
    /// report through `stor_resolved_reply`; the listener was consumed.
    ResolveStore { parent: Seq<u8>, name: Seq<u8> },
    /// Accept the data connection and stream the listing of the current
    /// directory; the listener was consumed.
    SendList,
}

/// The side step a command asks of the caller.
pub enum FtpAction {
    /// Nothing beyond the replies.
    Stay,
    /// Close the session after the replies.
    Quit,
    /// Bind a passive listener and report the outcome.
    OpenPassive { extended: bool },
    /// Resolve a directory candidate and report the outcome.
    ResolveDir { candidate: Vec<u8> },
    /// Resolve a file candidate and report the outcome.
    ResolveFile { candidate: Vec<u8> },
    /// Resolve an upload target's parent and report the outcome.
    ResolveStore { parent: Vec<u8>, name: Vec<u8> },
    /// Accept the data connection and stream the listing.
    SendList,
}

impl View for FtpAction {
    type V = ActionSpec;

    open spec fn view(&self) -> ActionSpec {
        match self {
            FtpAction::Stay => ActionSpec::Stay,
            FtpAction::Quit => ActionSpec::Quit,
            FtpAction::OpenPassive { extended } => ActionSpec::OpenPassive { extended: *extended },
            FtpAction::ResolveDir { candidate } => ActionSpec::ResolveDir { candidate: candidate@ },
            FtpAction::ResolveFile { candidate } => ActionSpec::ResolveFile {
                candidate: candidate@,
            },
            FtpAction::ResolveStore { parent, name } => ActionSpec::ResolveStore {
                parent: parent@,
                name: name@,
            },
            FtpAction::SendList => ActionSpec::SendList,
        }
    }
}

/// Views of a reply list.
pub open spec fn reply_views(rs: Seq<Vec<u8>>) -> Seq<Seq<u8>> {
    rs.map_values(|v: Vec<u8>| v@)
}

/// One fixed reply line.
fn reply1(text: &str) -> (r: Vec<Vec<u8>>)
    ensures
        reply_views(r@) == seq![text.spec_bytes()],
{
    let mut out: Vec<Vec<u8>> = Vec::new();
    out.push(vstd::slice::slice_to_vec(text.as_bytes()));
    proof {
        assert(reply_views(out@) =~= seq![text.spec_bytes()]);
    }
    out
}

/// An argument asking for the parent directory: `..` itself or anything
/// ending in `/..`.
pub open spec fn is_parent_arg(arg: Seq<u8>) -> bool {
    arg == "..".spec_bytes() || crate::bytes::ends_with_spec(arg, "/..".spec_bytes())
}

/// The PWD reply around the displayed directory.
pub open spec fn pwd_reply_spec(cwd: Seq<Seq<u8>>) -> Seq<u8> {
    "257 \"".spec_bytes() + display_path(cwd) + "\" is the current directory".spec_bytes()
}

/// What one command line does to the session: the new state, the reply
/// lines, and the side step asked of the caller. The login gate answers
/// `530` before any path is composed; a transfer command without a
/// pending listener answers `425`; a transfer command with one consumes
/// it whatever follows.
pub open spec fn session_step_spec(
    s: SessionSpec,
    line: Seq<u8>,
    user: Seq<u8>,
    pass: Seq<u8>,
    root: Seq<u8>,
) -> (SessionSpec, Seq<Seq<u8>>, ActionSpec) {
    let (cmd, arg) = parse_command_spec(line);
    if cmd == "USER".spec_bytes() {
        (
            SessionSpec { last_user: arg, ..s },
            seq!["331 User name okay, need password".spec_bytes()],
            ActionSpec::Stay,
        )
    } else if cmd == "PASS".spec_bytes() {
        if s.last_user == user && arg == pass {
            (
                SessionSpec { logged_in: true, ..s },
                seq!["230 User logged in".spec_bytes()],
                ActionSpec::Stay,
            )
        } else {
            (s, seq!["530 Authentication failed".spec_bytes()], ActionSpec::Stay)
        }
    } else if cmd == "SYST".spec_bytes() {
        (s, seq!["215 UNIX Type: L8".spec_bytes()], ActionSpec::Stay)
    } else if cmd == "TYPE".spec_bytes() {
        (s, seq!["200 Type set".spec_bytes()], ActionSpec::Stay)
    } else if cmd == "NOOP".spec_bytes() {
        (s, seq!["200 OK".spec_bytes()], ActionSpec::Stay)
    } else if cmd == "FEAT".spec_bytes() {
        (
            s,
            seq![
                "211-Features".spec_bytes(),
                " UTF8".spec_bytes(),
                " EPSV".spec_bytes(),
                " PASV".spec_bytes(),
                "211 End".spec_bytes(),
            ],
            ActionSpec::Stay,
        )
    } else if cmd == "OPTS".spec_bytes() {
        if crate::bytes::starts_with_spec(upper_spec(arg), "UTF8".spec_bytes()) {
            (s, seq!["200 UTF8 set to on".spec_bytes()], ActionSpec::Stay)
        } else {
            (s, seq!["501 Option not supported".spec_bytes()], ActionSpec::Stay)
        }
    } else if cmd == "AUTH".spec_bytes() {
        (s, seq!["502 TLS not supported".spec_bytes()], ActionSpec::Stay)
    } else if cmd == "PWD".spec_bytes() {
        (s, seq![pwd_reply_spec(s.cwd)], ActionSpec::Stay)
    } else if cmd == "CDUP".spec_bytes() {
        if !s.logged_in {
            (s, seq!["530 Not logged in".spec_bytes()], ActionSpec::Stay)
        } else if s.cwd.len() == 0 {
            (s, seq!["550 Not permitted".spec_bytes()], ActionSpec::Stay)
        } else {
            (
                SessionSpec { cwd: s.cwd.drop_last(), ..s },
                seq!["200 Command okay".spec_bytes()],
                ActionSpec::Stay,
            )
        }
    } else if cmd == "CWD".spec_bytes() {
        if !s.logged_in {
            (s, seq!["530 Not logged in".spec_bytes()], ActionSpec::Stay)
        } else if is_parent_arg(arg) {
            if s.cwd.len() == 0 {
                (s, seq!["550 Failed to change directory".spec_bytes()], ActionSpec::Stay)
            } else {
                (
                    SessionSpec { cwd: s.cwd.drop_last(), ..s },
                    seq!["250 Directory changed".spec_bytes()],
                    ActionSpec::Stay,
                )
            }
        } else {
            match compose_existing_spec(root, abs_path(root, s.cwd), arg) {
                Some(c) => (s, Seq::<Seq<u8>>::empty(), ActionSpec::ResolveDir { candidate: c }),
                None => (s, seq!["550 Failed to change directory".spec_bytes()], ActionSpec::Stay),
            }
        }
    } else if cmd == "EPSV".spec_bytes() {
        if !s.logged_in {
            (s, seq!["530 Not logged in".spec_bytes()], ActionSpec::Stay)
        } else {
            (s, Seq::<Seq<u8>>::empty(), ActionSpec::OpenPassive { extended: true })
        }
    } else if cmd == "PASV".spec_bytes() {
        if !s.logged_in {
            (s, seq!["530 Not logged in".spec_bytes()], ActionSpec::Stay)
        } else {
            (s, Seq::<Seq<u8>>::empty(), ActionSpec::OpenPassive { extended: false })
        }
    } else if cmd == "LIST".spec_bytes() {
        if !s.logged_in {
            (s, seq!["530 Not logged in".spec_bytes()], ActionSpec::Stay)
        } else if !s.pending_listener {
            (s, seq!["425 Use PASV first".spec_bytes()], ActionSpec::Stay)
        } else {
            (
                SessionSpec { pending_listener: false, ..s },
                seq!["150 Opening data connection for LIST".spec_bytes()],
                ActionSpec::SendList,
            )
        }
    } else if cmd == "RETR".spec_bytes() {
        if !s.logged_in {
            (s, seq!["530 Not logged in".spec_bytes()], ActionSpec::Stay)
        } else if !s.pending_listener {
            (s, seq!["425 Use PASV first".spec_bytes()], ActionSpec::Stay)
        } else {
            let consumed = SessionSpec { pending_listener: false, ..s };
            match compose_existing_spec(root, abs_path(root, s.cwd), arg) {
                Some(c) => (
                    consumed,
                    Seq::<Seq<u8>>::empty(),
                    ActionSpec::ResolveFile { candidate: c },
                ),
                None => (consumed, seq!["550 File unavailable".spec_bytes()], ActionSpec::Stay),
            }
        }
    } else if cmd == "STOR".spec_bytes() {
        if !s.logged_in {
            (s, seq!["530 Not logged in".spec_bytes()], ActionSpec::Stay)
        } else if !s.pending_listener {
            (s, seq!["425 Use PASV first".spec_bytes()], ActionSpec::Stay)
        } else {
            let consumed = SessionSpec { pending_listener: false, ..s };
            match compose_new_target_spec(root, abs_path(root, s.cwd), arg) {
                Some(pn) => (
                    consumed,
                    Seq::<Seq<u8>>::empty(),
                    ActionSpec::ResolveStore { parent: pn.0, name: pn.1 },
                ),
                None => (consumed, seq!["550 Invalid path".spec_bytes()], ActionSpec::Stay),
            }
        }
    } else if cmd == "QUIT".spec_bytes() {
        (s, seq!["221 Goodbye".spec_bytes()], ActionSpec::Quit)
    } else {
        (s, seq!["502 Command not implemented".spec_bytes()], ActionSpec::Stay)
    }
}

/// Interpret one command line against the session, exactly as
/// `session_step_spec` describes: the returned lines answer the client,
/// and the action names the one side step the caller still owes.
#[verifier::rlimit(100)]
pub fn session_step(
    s: &mut FtpSession,
    line: &[u8],
    expected_user: &[u8],
    expected_pass: &[u8],
    root: &[u8],
) -> (r: (Vec<Vec<u8>>, FtpAction))
    ensures
        ({
            let (s2, replies, action) = session_step_spec(
                old(s)@,
                line@,
                expected_user@,
                expected_pass@,
                root@,
            );
            final(s)@ == s2 && reply_views(r.0@) == replies && r.1@ == action
        }),
{
    let (cmd, arg) = parse_command(line);
    if bytes_eq(&cmd, "USER".as_bytes()) {
        s.last_user = arg;
        (reply1("331 User name okay, need password"), FtpAction::Stay)
    } else if bytes_eq(&cmd, "PASS".as_bytes()) {
        if bytes_eq(&s.last_user, expected_user) && bytes_eq(&arg, expected_pass) {
            s.logged_in = true;
            (reply1("230 User logged in"), FtpAction::Stay)
        } else {
            (reply1("530 Authentication failed"), FtpAction::Stay)
        }
    } else if bytes_eq(&cmd, "SYST".as_bytes()) {
        (reply1("215 UNIX Type: L8"), FtpAction::Stay)
    } else if bytes_eq(&cmd, "TYPE".as_bytes()) {
        (reply1("200 Type set"), FtpAction::Stay)
    } else if bytes_eq(&cmd, "NOOP".as_bytes()) {
        (reply1("200 OK"), FtpAction::Stay)
    } else {
        step_mid(s, &cmd, &arg, expected_user, expected_pass, root, Ghost(line@))
    }
}

/// The informational commands FEAT, OPTS, AUTH and PWD: the middle of
/// `session_step`'s dispatch.
#[verifier::rlimit(100)]
fn step_mid(
    s: &mut FtpSession,
    cmd: &Vec<u8>,
    arg: &Vec<u8>,
    expected_user: &[u8],
    expected_pass: &[u8],
    root: &[u8],
    Ghost(line): Ghost<Seq<u8>>,
) -> (r: (Vec<Vec<u8>>, FtpAction))
    requires
        parse_command_spec(line).0 == cmd@,
        parse_command_spec(line).1 == arg@,
        cmd@ != "USER".spec_bytes(),
        cmd@ != "PASS".spec_bytes(),
        cmd@ != "SYST".spec_bytes(),
        cmd@ != "TYPE".spec_bytes(),
        cmd@ != "NOOP".spec_bytes(),
    ensures
        ({
            let (s2, replies, action) = session_step_spec(
                old(s)@,
                line,
                expected_user@,
                expected_pass@,
                root@,
            );
            final(s)@ == s2 && reply_views(r.0@) == replies && r.1@ == action
        }),
{
    if bytes_eq(cmd, "FEAT".as_bytes()) {
        let mut out: Vec<Vec<u8>> = Vec::new();
        out.push(vstd::slice::slice_to_vec("211-Features".as_bytes()));
        out.push(vstd::slice::slice_to_vec(" UTF8".as_bytes()));
        out.push(vstd::slice::slice_to_vec(" EPSV".as_bytes()));
        out.push(vstd::slice::slice_to_vec(" PASV".as_bytes()));
        out.push(vstd::slice::slice_to_vec("211 End".as_bytes()));
        proof {
            assert(reply_views(out@) =~= seq![
                "211-Features".spec_bytes(),
                " UTF8".spec_bytes(),
                " EPSV".spec_bytes(),
                " PASV".spec_bytes(),
                "211 End".spec_bytes(),
            ]);
        }
        (out, FtpAction::Stay)
    } else if bytes_eq(cmd, "OPTS".as_bytes()) {
        let up = to_upper(arg);
        if crate::bytes::starts_with(&up, "UTF8".as_bytes()) {
            (reply1("200 UTF8 set to on"), FtpAction::Stay)
        } else {
            (reply1("501 Option not supported"), FtpAction::Stay)
        }
    } else {
        step_mid2(s, cmd, arg, expected_user, expected_pass, root, Ghost(line))
    }
}

/// The AUTH refusal and the PWD report: more of `session_step`'s dispatch.
#[verifier::rlimit(100)]
fn step_mid2(
    s: &mut FtpSession,
    cmd: &Vec<u8>,
    arg: &Vec<u8>,
    expected_user: &[u8],
    expected_pass: &[u8],
    root: &[u8],
    Ghost(line): Ghost<Seq<u8>>,
) -> (r: (Vec<Vec<u8>>, FtpAction))
    requires
        parse_command_spec(line).0 == cmd@,
        parse_command_spec(line).1 == arg@,
        cmd@ != "USER".spec_bytes(),
        cmd@ != "PASS".spec_bytes(),
        cmd@ != "SYST".spec_bytes(),
        cmd@ != "TYPE".spec_bytes(),
        cmd@ != "NOOP".spec_bytes(),
        cmd@ != "FEAT".spec_bytes(),
        cmd@ != "OPTS".spec_bytes(),
    ensures
        ({
            let (s2, replies, action) = session_step_spec(
                old(s)@,
                line,
                expected_user@,
                expected_pass@,
                root@,
            );
            final(s)@ == s2 && reply_views(r.0@) == replies && r.1@ == action
        }),
{
    if bytes_eq(cmd, "AUTH".as_bytes()) {
        (reply1("502 TLS not supported"), FtpAction::Stay)
    } else if bytes_eq(cmd, "PWD".as_bytes()) {
        (pwd_reply(&s.cwd), FtpAction::Stay)
    } else {
        step_rest(s, cmd, arg, expected_user, expected_pass, root, Ghost(line))
    }
}

/// The one-line PWD answer showing the current directory.
fn pwd_reply(cwd: &Vec<Vec<u8>>) -> (r: Vec<Vec<u8>>)
    ensures
        reply_views(r@) == seq![pwd_reply_spec(comp_views(cwd@))],
{
    let mut line_out: Vec<u8> = vstd::slice::slice_to_vec("257 \"".as_bytes());
    let shown = format_display_path(cwd);
    line_out.extend_from_slice(shown.as_slice());
    line_out.extend_from_slice("\" is the current directory".as_bytes());
    let mut out: Vec<Vec<u8>> = Vec::new();
    out.push(line_out);
    proof {
        assert(line_out@ =~= pwd_reply_spec(comp_views(cwd@)));
        assert(reply_views(out@) =~= seq![line_out@]);
    }
    out
}

/// The navigation, passive-mode and transfer commands: the tail of
/// `session_step`'s dispatch, reached when the line is none of the simple
/// commands.
#[verifier::rlimit(100)]
fn step_rest(
    s: &mut FtpSession,
    cmd: &Vec<u8>,
    arg: &Vec<u8>,
    expected_user: &[u8],
    expected_pass: &[u8],
    root: &[u8],
    Ghost(line): Ghost<Seq<u8>>,
) -> (r: (Vec<Vec<u8>>, FtpAction))
    requires
        parse_command_spec(line).0 == cmd@,
        parse_command_spec(line).1 == arg@,
        cmd@ != "USER".spec_bytes(),
        cmd@ != "PASS".spec_bytes(),
        cmd@ != "SYST".spec_bytes(),
        cmd@ != "TYPE".spec_bytes(),
        cmd@ != "NOOP".spec_bytes(),
        cmd@ != "FEAT".spec_bytes(),
        cmd@ != "OPTS".spec_bytes(),
        cmd@ != "AUTH".spec_bytes(),
        cmd@ != "PWD".spec_bytes(),
    ensures
        ({
            let (s2, replies, action) = session_step_spec(
                old(s)@,
                line,
                expected_user@,
                expected_pass@,
                root@,
            );
            final(s)@ == s2 && reply_views(r.0@) == replies && r.1@ == action
        }),
{
    if bytes_eq(cmd, "CDUP".as_bytes()) {
        if !s.logged_in {
            (reply1("530 Not logged in"), FtpAction::Stay)
        } else if s.cwd.len() == 0 {
            (reply1("550 Not permitted"), FtpAction::Stay)
        } else {
            let _ = s.cwd.pop();
            proof {
                assert(comp_views(s.cwd@) =~= comp_views(old(s).cwd@).drop_last());
            }
            (reply1("200 Command okay"), FtpAction::Stay)
        }
    } else if bytes_eq(cmd, "CWD".as_bytes()) {
        if !s.logged_in {
            (reply1("530 Not logged in"), FtpAction::Stay)
        } else if bytes_eq(arg, "..".as_bytes()) || crate::bytes::ends_with(arg, "/..".as_bytes())
         {
            if s.cwd.len() == 0 {
                (reply1("550 Failed to change directory"), FtpAction::Stay)
            } else {
                let _ = s.cwd.pop();
                proof {
                    assert(comp_views(s.cwd@) =~= comp_views(old(s).cwd@).drop_last());
                }
                (reply1("250 Directory changed"), FtpAction::Stay)
            }
        } else {
            let cab = format_abs_path(root, &s.cwd);
            match compose_existing(root, cab.as_slice(), arg) {
                Some(c) => {
                    let out: Vec<Vec<u8>> = Vec::new();
                    proof {
                        assert(reply_views(out@) =~= Seq::<Seq<u8>>::empty());
                    }
                    (out, FtpAction::ResolveDir { candidate: c })
                },
                None => (reply1("550 Failed to change directory"), FtpAction::Stay),
            }
        }
    } else if bytes_eq(cmd, "EPSV".as_bytes()) {
        if !s.logged_in {
            (reply1("530 Not logged in"), FtpAction::Stay)
        } else {
            let out: Vec<Vec<u8>> = Vec::new();
            proof {
                assert(reply_views(out@) =~= Seq::<Seq<u8>>::empty());
            }
            (out, FtpAction::OpenPassive { extended: true })
        }
    } else if bytes_eq(cmd, "PASV".as_bytes()) {
        if !s.logged_in {
            (reply1("530 Not logged in"), FtpAction::Stay)
        } else {
            let out: Vec<Vec<u8>> = Vec::new();
            proof {
                assert(reply_views(out@) =~= Seq::<Seq<u8>>::empty());
            }
            (out, FtpAction::OpenPassive { extended: false })
        }
    } else if bytes_eq(cmd, "LIST".as_bytes()) {
        if !s.logged_in {
            (reply1("530 Not logged in"), FtpAction::Stay)
        } else if !s.pending_listener {
            (reply1("425 Use PASV first"), FtpAction::Stay)
        } else {
            s.pending_listener = false;
            (reply1("150 Opening data connection for LIST"), FtpAction::SendList)
        }
    } else if bytes_eq(cmd, "RETR".as_bytes()) {
        if !s.logged_in {
            (reply1("530 Not logged in"), FtpAction::Stay)
        } else if !s.pending_listener {
            (reply1("425 Use PASV first"), FtpAction::Stay)
        } else {
            s.pending_listener = false;
            let cab = format_abs_path(root, &s.cwd);
            match compose_existing(root, cab.as_slice(), arg) {
                Some(c) => {
                    let out: Vec<Vec<u8>> = Vec::new();
                    proof {
                        assert(reply_views(out@) =~= Seq::<Seq<u8>>::empty());
                    }
                    (out, FtpAction::ResolveFile { candidate: c })
                },
                None => (reply1("550 File unavailable"), FtpAction::Stay),
            }
        }
    } else if bytes_eq(cmd, "STOR".as_bytes()) {
        if !s.logged_in {
            (reply1("530 Not logged in"), FtpAction::Stay)
        } else if !s.pending_listener {
            (reply1("425 Use PASV first"), FtpAction::Stay)
        } else {
            s.pending_listener = false;
            let cab = format_abs_path(root, &s.cwd);
            match compose_new_target(root, cab.as_slice(), arg) {
                Some(pn) => {
                    let out: Vec<Vec<u8>> = Vec::new();
                    proof {
                        assert(reply_views(out@) =~= Seq::<Seq<u8>>::empty());
                    }
                    (out, FtpAction::ResolveStore { parent: pn.0, name: pn.1 })
                },
                None => (reply1("550 Invalid path"), FtpAction::Stay),
            }
        }
    } else if bytes_eq(cmd, "QUIT".as_bytes()) {
        (reply1("221 Goodbye"), FtpAction::Quit)
    } else {
        (reply1("502 Command not implemented"), FtpAction::Stay)
    }
}

proof fn lemma_verbs_distinct()
    ensures
        "USER".spec_bytes() =~= seq![85u8, 83u8, 69u8, 82u8],
        "PASS".spec_bytes() =~= seq![80u8, 65u8, 83u8, 83u8],
        "SYST".spec_bytes() =~= seq![83u8, 89u8, 83u8, 84u8],
        "TYPE".spec_bytes() =~= seq![84u8, 89u8, 80u8, 69u8],
        "NOOP".spec_bytes() =~= seq![78u8, 79u8, 79u8, 80u8],
        "FEAT".spec_bytes() =~= seq![70u8, 69u8, 65u8, 84u8],
        "OPTS".spec_bytes() =~= seq![79u8, 80u8, 84u8, 83u8],
        "AUTH".spec_bytes() =~= seq![65u8, 85u8, 84u8, 72u8],
        "PWD".spec_bytes() =~= seq![80u8, 87u8, 68u8],
        "CDUP".spec_bytes() =~= seq![67u8, 68u8, 85u8, 80u8],
        "CWD".spec_bytes() =~= seq![67u8, 87u8, 68u8],
        "EPSV".spec_bytes() =~= seq![69u8, 80u8, 83u8, 86u8],
        "PASV".spec_bytes() =~= seq![80u8, 65u8, 83u8, 86u8],
        "LIST".spec_bytes() =~= seq![76u8, 73u8, 83u8, 84u8],
        "RETR".spec_bytes() =~= seq![82u8, 69u8, 84u8, 82u8],
        "STOR".spec_bytes() =~= seq![83u8, 84u8, 79u8, 82u8],
        "QUIT".spec_bytes() =~= seq![81u8, 85u8, 73u8, 84u8],
{
    broadcast use vstd::string::is_ascii_spec_bytes;

    reveal_strlit("USER");
    reveal_strlit("PASS");
    reveal_strlit("SYST");
    reveal_strlit("TYPE");
    reveal_strlit("NOOP");
    reveal_strlit("FEAT");
    reveal_strlit("OPTS");
    reveal_strlit("AUTH");
    reveal_strlit("PWD");
    reveal_strlit("CDUP");
    reveal_strlit("CWD");
    reveal_strlit("EPSV");
    reveal_strlit("PASV");
    reveal_strlit("LIST");
    reveal_strlit("RETR");
    reveal_strlit("STOR");
    reveal_strlit("QUIT");
    assert(vstd::string::is_ascii("USER"));
    assert(vstd::string::is_ascii("PASS"));
    assert(vstd::string::is_ascii("SYST"));
    assert(vstd::string::is_ascii("TYPE"));
    assert(vstd::string::is_ascii("NOOP"));
    assert(vstd::string::is_ascii("FEAT"));
    assert(vstd::string::is_ascii("OPTS"));
    assert(vstd::string::is_ascii("AUTH"));
    assert(vstd::string::is_ascii("PWD"));
    assert(vstd::string::is_ascii("CDUP"));
    assert(vstd::string::is_ascii("CWD"));
    assert(vstd::string::is_ascii("EPSV"));
    assert(vstd::string::is_ascii("PASV"));
    assert(vstd::string::is_ascii("LIST"));
    assert(vstd::string::is_ascii("RETR"));
    assert(vstd::string::is_ascii("STOR"));
    assert(vstd::string::is_ascii("QUIT"));
}

/// From the root, asking for the parent — `CDUP`, or `CWD` with `..` —
/// leaves the session at the root, however often it is repeated; below
/// the root it moves up exactly one component, so no parent step ever
/// leaves the root's subtree.
pub proof fn lemma_parent_never_escapes(
    s: SessionSpec,
    line: Seq<u8>,
    user: Seq<u8>,
    pass: Seq<u8>,
    root: Seq<u8>,
)
    requires
        parse_command_spec(line).0 == "CDUP".spec_bytes() || (parse_command_spec(line).0
            == "CWD".spec_bytes() && is_parent_arg(parse_command_spec(line).1)),
    ensures
        ({
            let s2 = session_step_spec(s, line, user, pass, root).0;
            &&& (s.cwd.len() == 0 ==> s2.cwd == s.cwd)
            &&& (s2.cwd == s.cwd || s2.cwd == s.cwd.drop_last())
        }),
{
    lemma_verbs_distinct();
}

/// A transfer command — `LIST`, `RETR` or `STOR` — issued by a logged-in
/// session without a pending passive listener answers `425 Use PASV
/// first` and changes nothing.
pub proof fn lemma_transfer_needs_listener(
    s: SessionSpec,
    line: Seq<u8>,
    user: Seq<u8>,
    pass: Seq<u8>,
    root: Seq<u8>,
)
    requires
        s.logged_in,
        !s.pending_listener,
        parse_command_spec(line).0 == "LIST".spec_bytes() || parse_command_spec(line).0
            == "RETR".spec_bytes() || parse_command_spec(line).0 == "STOR".spec_bytes(),
    ensures
        session_step_spec(s, line, user, pass, root) == (
            s,
            seq!["425 Use PASV first".spec_bytes()],
            ActionSpec::Stay,
        ),
{
    lemma_verbs_distinct();
}

/// A file-system command — `CDUP`, `CWD`, `EPSV`, `PASV`, `LIST`, `RETR`
/// or `STOR` — from an unauthenticated session answers `530 Not logged
/// in`, changes nothing, and asks for no filesystem or socket step.
pub proof fn lemma_unauthenticated_rejected(
    s: SessionSpec,
    line: Seq<u8>,
    user: Seq<u8>,
    pass: Seq<u8>,
    root: Seq<u8>,
)
    requires
        !s.logged_in,
        parse_command_spec(line).0 == "CDUP".spec_bytes() || parse_command_spec(line).0
            == "CWD".spec_bytes() || parse_command_spec(line).0 == "EPSV".spec_bytes()
            || parse_command_spec(line).0 == "PASV".spec_bytes() || parse_command_spec(line).0
            == "LIST".spec_bytes() || parse_command_spec(line).0 == "RETR".spec_bytes()
            || parse_command_spec(line).0 == "STOR".spec_bytes(),
    ensures
        session_step_spec(s, line, user, pass, root) == (
            s,
            seq!["530 Not logged in".spec_bytes()],
            ActionSpec::Stay,
        ),
{
    lemma_verbs_distinct();
}

/// Sound current-directory components: each nonempty, free of `/`, and
/// neither `.` nor `..` — so the directory they name never leaves the
/// root's subtree.
pub open spec fn wf_components(cs: Seq<Seq<u8>>) -> bool {
    forall|i: int|
        0 <= i < cs.len() ==> valid_component(#[trigger] cs[i]) && !cs[i].contains(47u8)
}

/// Splitting a path at `/` yields sound components whenever it yields any:
/// what `cwd_resolved` installs as the current directory is well-formed.
pub proof fn lemma_components_wf(rel: Seq<u8>)
    requires
        components_spec(rel) is Some,
    ensures
        wf_components(components_spec(rel)->Some_0),
    decreases rel.len(),
{
    if rel.len() == 0 {
    } else {
        let e = find_in(rel, 47, 0, rel.len() as int);
        lemma_find_in(rel, 47, 0, rel.len() as int);
        let c = rel.subrange(0, e);
        assert(!c.contains(47u8)) by {
            assert(forall|k: int| 0 <= k < c.len() ==> c[k] == rel[k] && rel[k] != 47);
        }
        if e == rel.len() {
            assert(wf_components(seq![c]));
        } else {
            let rest = rel.subrange(e + 1, rel.len() as int);
            lemma_components_wf(rest);
            let tail = components_spec(rest)->Some_0;
            let whole = seq![c] + tail;
            assert(wf_components(whole)) by {
                assert(forall|i: int|
                    0 < i < whole.len() ==> whole[i] == tail[i - 1] && valid_component(
                        #[trigger] whole[i],
                    ) && !whole[i].contains(47u8));
            }
        }
    }
}

/// Every command step keeps the current directory well-formed: a step
/// either leaves it alone or drops its last component.
pub proof fn lemma_step_keeps_cwd_wf(
    s: SessionSpec,
    line: Seq<u8>,
    user: Seq<u8>,
    pass: Seq<u8>,
    root: Seq<u8>,
)
    requires
        wf_components(s.cwd),
    ensures
        wf_components(session_step_spec(s, line, user, pass, root).0.cwd),
{
    let cwd2 = session_step_spec(s, line, user, pass, root).0.cwd;
    assert(cwd2 == s.cwd || cwd2 == s.cwd.drop_last());
    if cwd2 == s.cwd.drop_last() && s.cwd.len() > 0 {
        assert(forall|i: int| 0 <= i < cwd2.len() ==> cwd2[i] == s.cwd[i]);
    }
}

/// The greeting sent when a control connection opens.
pub fn greeting_reply() -> (r: Vec<u8>)
    ensures
        r@ == "220 ColourSwift FTP Ready".spec_bytes(),
{
    vstd::slice::slice_to_vec("220 ColourSwift FTP Ready".as_bytes())
}

/// The PASV reply: the address as four octets and the port split into its
/// high and low bytes.
pub open spec fn pasv_reply_spec(a: u8, b: u8, c: u8, d: u8, port: u16) -> Seq<u8> {
    "227 Entering Passive Mode (".spec_bytes() + crate::bytes::dec_spec(a as nat)
        + ",".spec_bytes() + crate::bytes::dec_spec(b as nat) + ",".spec_bytes()
        + crate::bytes::dec_spec(c as nat) + ",".spec_bytes() + crate::bytes::dec_spec(d as nat)
        + ",".spec_bytes() + crate::bytes::dec_spec((port / 256) as nat) + ",".spec_bytes()
        + crate::bytes::dec_spec((port % 256) as nat) + ")".spec_bytes()
}

/// The EPSV reply: only the port, triple-piped.
pub open spec fn epsv_reply_spec(port: u16) -> Seq<u8> {
    "229 Entering Extended Passive Mode (|||".spec_bytes() + crate::bytes::dec_spec(port as nat)
        + "|)".spec_bytes()
}

/// A passive listener was bound on `port`: record it as pending and
/// build the PASV reply from the advertised address `a.b.c.d`, or the
/// EPSV reply from the port alone.
pub fn passive_opened(
    s: &mut FtpSession,
    extended: bool,
    a: u8,
    b: u8,
    c: u8,
    d: u8,
    port: u16,
) -> (r: Vec<u8>)
    ensures
        final(s)@ == (SessionSpec { pending_listener: true, ..old(s)@ }),
        extended ==> r@ == epsv_reply_spec(port),
        !extended ==> r@ == pasv_reply_spec(a, b, c, d, port),
{
    s.pending_listener = true;
    if extended {
        let mut out: Vec<u8> = vstd::slice::slice_to_vec(
            "229 Entering Extended Passive Mode (|||".as_bytes(),
        );
        let p = crate::bytes::dec_u64(port as u64);
        out.extend_from_slice(p.as_slice());
        out.extend_from_slice("|)".as_bytes());
        proof {
            assert(out@ =~= epsv_reply_spec(port));
        }
        out
    } else {
        let mut out: Vec<u8> = vstd::slice::slice_to_vec(
            "227 Entering Passive Mode (".as_bytes(),
        );
        let oa = crate::bytes::dec_u64(a as u64);
        out.extend_from_slice(oa.as_slice());
        out.extend_from_slice(",".as_bytes());
        let ob = crate::bytes::dec_u64(b as u64);
        out.extend_from_slice(ob.as_slice());
        out.extend_from_slice(",".as_bytes());
        let oc = crate::bytes::dec_u64(c as u64);
        out.extend_from_slice(oc.as_slice());
        out.extend_from_slice(",".as_bytes());
        let od = crate::bytes::dec_u64(d as u64);
        out.extend_from_slice(od.as_slice());
        out.extend_from_slice(",".as_bytes());
        let p1 = crate::bytes::dec_u64((port / 256) as u64);
        out.extend_from_slice(p1.as_slice());
        out.extend_from_slice(",".as_bytes());
        let p2 = crate::bytes::dec_u64((port % 256) as u64);
        out.extend_from_slice(p2.as_slice());
        out.extend_from_slice(")".as_bytes());
        proof {
            assert(out@ =~= pasv_reply_spec(a, b, c, d, port));
        }
        out
    }
}

/// The reply when no passive listener could be offered: the bind itself
/// failed, or its local address could not be read.
pub fn pasv_failure_reply(bind_ok: bool) -> (r: Vec<u8>)
    ensures
        !bind_ok ==> r@ == "425 Cannot open passive connection".spec_bytes(),
        bind_ok ==> r@ == "425 Cannot get passive address".spec_bytes(),
{
    if !bind_ok {
        vstd::slice::slice_to_vec("425 Cannot open passive connection".as_bytes())
    } else {
        vstd::slice::slice_to_vec("425 Cannot get passive address".as_bytes())
    }
}

/// A path component the session may hold: nonempty and neither `.` nor
/// `..`, as the components of a canonical path are.
pub open spec fn valid_component(c: Seq<u8>) -> bool {
    c.len() > 0 && c != ".".spec_bytes() && c != "..".spec_bytes()
}

#[via_fn]
proof fn components_spec_decreases(rel: Seq<u8>) {
    lemma_find_in(rel, 47, 0, rel.len() as int);
}

/// The path split at `/` into components, or nothing when a component is
/// empty, `.` or `..`.
pub open spec fn components_spec(rel: Seq<u8>) -> Option<Seq<Seq<u8>>>
    decreases rel.len(),
    via components_spec_decreases
{
    if rel.len() == 0 {
        Some(Seq::empty())
    } else {
        let e = find_in(rel, 47, 0, rel.len() as int);
        let c = rel.subrange(0, e);
        if !valid_component(c) {
            None
        } else if e == rel.len() {
            Some(seq![c])
        } else {
            match components_spec(rel.subrange(e + 1, rel.len() as int)) {
                Some(rest) => Some(seq![c] + rest),
                None => None,
            }
        }
    }
}

/// Split a root-relative canonical path into its components.
pub fn parse_components(rel: &[u8]) -> (r: Option<Vec<Vec<u8>>>)
    ensures
        match r {
            Some(cs) => components_spec(rel@) == Some(comp_views(cs@)),
            None => components_spec(rel@) is None,
        },
    decreases rel@.len(),
{
    if rel.len() == 0 {
        let out: Vec<Vec<u8>> = Vec::new();
        proof {
            assert(comp_views(out@) =~= Seq::<Seq<u8>>::empty());
        }
        return Some(out);
    }
    let e = find_from(rel, 47, 0, rel.len());
    proof {
        lemma_find_in(rel@, 47, 0, rel@.len() as int);
    }
    let c = crate::bytes::copy_range(rel, 0, e);
    if c.len() == 0 || bytes_eq(&c, ".".as_bytes()) || bytes_eq(&c, "..".as_bytes()) {
        return None;
    }
    if e == rel.len() {
        let mut out: Vec<Vec<u8>> = Vec::new();
        out.push(c);
        proof {
            assert(comp_views(out@) =~= seq![rel@.subrange(0, e as int)]);
        }
        Some(out)
    } else {
        let rest = crate::bytes::copy_range(rel, e + 1, rel.len());
        match parse_components(&rest) {
            Some(mut cs) => {
                let ghost tail = comp_views(cs@);
                let mut out: Vec<Vec<u8>> = Vec::new();
                out.push(c);
                out.append(&mut cs);
                proof {
                    assert(comp_views(out@) =~= seq![rel@.subrange(0, e as int)] + tail);
                }
                Some(out)
            },
            None => None,
        }
    }
}

/// A CWD candidate came back from the filesystem: `resolved` carries the
/// canonical root-relative form of the new directory when it exists as a
/// directory within the root, else nothing. The session moves only on
/// success.
pub fn cwd_resolved(s: &mut FtpSession, resolved: Option<&[u8]>) -> (r: Vec<u8>)
    ensures
        match resolved {
            Some(rel) => match components_spec(rel@) {
                Some(cs) => final(s)@ == (SessionSpec { cwd: cs, ..old(s)@ }) && r@
                    == "250 Directory changed".spec_bytes(),
                None => final(s)@ == old(s)@ && r@
                    == "550 Failed to change directory".spec_bytes(),
            },
            None => final(s)@ == old(s)@ && r@ == "550 Failed to change directory".spec_bytes(),
        },
{
    match resolved {
        Some(rel) => {
            match parse_components(rel) {
                Some(cs) => {
                    s.cwd = cs;
                    vstd::slice::slice_to_vec("250 Directory changed".as_bytes())
                },
                None => vstd::slice::slice_to_vec("550 Failed to change directory".as_bytes()),
            }
        },
        None => vstd::slice::slice_to_vec("550 Failed to change directory".as_bytes()),
    }
}

/// The control reply once a RETR candidate came back: `150` opens the
/// transfer when the candidate is a file within the root, else `550`.
pub fn retr_resolved_reply(ok: bool) -> (r: Vec<u8>)
    ensures
        ok ==> r@ == "150 Opening data connection for RETR".spec_bytes(),
        !ok ==> r@ == "550 File unavailable".spec_bytes(),
{
    if ok {
        vstd::slice::slice_to_vec("150 Opening data connection for RETR".as_bytes())
    } else {
        vstd::slice::slice_to_vec("550 File unavailable".as_bytes())
    }
}

/// The control reply once a STOR target came back: `150` opens the
/// transfer when the parent resolved within the root, else `550`.
pub fn stor_resolved_reply(ok: bool) -> (r: Vec<u8>)
    ensures
        ok ==> r@ == "150 Opening data connection for STOR".spec_bytes(),
        !ok ==> r@ == "550 Invalid path".spec_bytes(),
{
    if ok {
        vstd::slice::slice_to_vec("150 Opening data connection for STOR".as_bytes())
    } else {
        vstd::slice::slice_to_vec("550 Invalid path".as_bytes())
    }
}

/// The control reply after a transfer attempt: `226` once the accepted
/// data connection has closed — whether or not the streaming itself
/// succeeded, a deliberate best-effort trait of this server — and `425`
/// when no data connection could be accepted.
pub fn transfer_reply(accepted: bool) -> (r: Vec<u8>)
    ensures
        accepted ==> r@ == "226 Transfer complete".spec_bytes(),
        !accepted ==> r@ == "425 Cannot open data connection".spec_bytes(),
{
    if accepted {
        vstd::slice::slice_to_vec("226 Transfer complete".as_bytes())
    } else {
        vstd::slice::slice_to_vec("425 Cannot open data connection".as_bytes())
    }
}

/// `n` spaces.
pub open spec fn spaces(n: nat) -> Seq<u8> {
    Seq::new(n, |i: int| 32u8)
}

/// `s` padded on the left with spaces to width 10; wider stays as it is.
pub open spec fn pad10(s: Seq<u8>) -> Seq<u8> {
    if s.len() >= 10 {
        s
    } else {
        spaces((10 - s.len()) as nat) + s
    }
}

/// One line of the LIST output: a synthetic permission string, fixed
/// owner, group and timestamp, the real size right-aligned to width 10,
/// and the real name.
pub open spec fn dir_entry_spec(name: Seq<u8>, is_dir: bool, size: u64) -> Seq<u8> {
    seq![if is_dir {
        100u8
    } else {
        45u8
    }] + "rw-rw-rw- 1 owner group ".spec_bytes() + pad10(crate::bytes::dec_spec(size as nat))
        + " Jan 01 00:00 ".spec_bytes() + name
}

/// Write one LIST line for an entry.
pub fn format_dir_entry(name: &[u8], is_dir: bool, size: u64) -> (r: Vec<u8>)
    ensures
        r@ == dir_entry_spec(name@, is_dir, size),
{
    let mut out: Vec<u8> = Vec::new();
    if is_dir {
        out.push(100);
    } else {
        out.push(45);
    }
    out.extend_from_slice("rw-rw-rw- 1 owner group ".as_bytes());
    let ghost prefix = out@;
    let digits = crate::bytes::dec_u64(size);
    if digits.len() < 10 {
        let pad = 10 - digits.len();
        let mut k: usize = 0;
        while k < pad
            invariant
                k <= pad,
                out@ == prefix + spaces(k as nat),
            decreases pad - k,
        {
            out.push(32);
            proof {
                assert(out@ =~= prefix + spaces((k + 1) as nat));
            }
            k += 1;
        }
    }
    out.extend_from_slice(digits.as_slice());
    out.extend_from_slice(" Jan 01 00:00 ".as_bytes());
    out.extend_from_slice(name);
    proof {
        assert(out@ =~= dir_entry_spec(name@, is_dir, size)) by {
            assert(spaces(0) =~= Seq::<u8>::empty());
            assert(prefix + spaces(0) =~= prefix);
        }
    }
    out
}

} // verus!
