//! The FTP session engine driven command by command.

use lanshare::ftp::{
    format_dir_entry, greeting_reply, parse_command, passive_opened, pasv_failure_reply,
    cwd_resolved, retr_resolved_reply, session_step, stor_resolved_reply, transfer_reply,
    FtpAction, FtpSession,
};

const USER: &[u8] = b"u";
const PASS: &[u8] = b"p";
const ROOT: &[u8] = b"/srv/files";

fn reply(r: &(Vec<Vec<u8>>, FtpAction)) -> &[u8] {
    assert_eq!(r.0.len(), 1);
    &r.0[0]
}

fn login(s: &mut FtpSession) {
    let r = session_step(s, b"USER u", USER, PASS, ROOT);
    assert_eq!(reply(&r), b"331 User name okay, need password");
    let r = session_step(s, b"PASS p", USER, PASS, ROOT);
    assert_eq!(reply(&r), b"230 User logged in");
    assert!(s.logged_in);
}

#[test]
fn greeting_and_parse() {
    assert_eq!(greeting_reply(), b"220 ColourSwift FTP Ready".to_vec());
    let (cmd, arg) = parse_command(b"retr  a b ");
    assert_eq!(cmd, b"RETR".to_vec());
    assert_eq!(arg, b"a b".to_vec());
    let (cmd2, arg2) = parse_command(b"QUIT");
    assert_eq!(cmd2, b"QUIT".to_vec());
    assert_eq!(arg2, b"".to_vec());
}

#[test]
fn wrong_password_stays_out() {
    let mut s = FtpSession::new();
    let r = session_step(&mut s, b"USER u", USER, PASS, ROOT);
    assert_eq!(reply(&r), b"331 User name okay, need password");
    let r = session_step(&mut s, b"PASS wrong", USER, PASS, ROOT);
    assert_eq!(reply(&r), b"530 Authentication failed");
    assert!(!s.logged_in);
}

#[test]
fn file_commands_require_login() {
    let mut s = FtpSession::new();
    for line in [
        b"CWD sub".as_slice(),
        b"CDUP",
        b"PASV",
        b"EPSV",
        b"LIST",
        b"RETR a",
        b"STOR a",
    ] {
        let r = session_step(&mut s, line, USER, PASS, ROOT);
        assert_eq!(reply(&r), b"530 Not logged in");
        assert!(matches!(r.1, FtpAction::Stay));
    }
}

#[test]
fn transfer_without_pasv_yields_425() {
    let mut s = FtpSession::new();
    login(&mut s);
    for line in [b"LIST".as_slice(), b"RETR a", b"STOR a"] {
        let r = session_step(&mut s, line, USER, PASS, ROOT);
        assert_eq!(reply(&r), b"425 Use PASV first");
        assert!(matches!(r.1, FtpAction::Stay));
    }
}

#[test]
fn cdup_from_root_never_escapes() {
    let mut s = FtpSession::new();
    login(&mut s);
    for _ in 0..3 {
        let r = session_step(&mut s, b"CDUP", USER, PASS, ROOT);
        assert_eq!(reply(&r), b"550 Not permitted");
        assert_eq!(s.cwd.len(), 0);
    }
    let r = session_step(&mut s, b"CWD ..", USER, PASS, ROOT);
    assert_eq!(reply(&r), b"550 Failed to change directory");
    assert_eq!(s.cwd.len(), 0);
}

#[test]
fn cwd_and_pwd_walk() {
    let mut s = FtpSession::new();
    login(&mut s);
    let r = session_step(&mut s, b"PWD", USER, PASS, ROOT);
    assert_eq!(reply(&r), b"257 \"/\" is the current directory");
    // CWD hands out a candidate for the caller to resolve.
    let r = session_step(&mut s, b"CWD sub/dir", USER, PASS, ROOT);
    assert!(r.0.is_empty());
    match &r.1 {
        FtpAction::ResolveDir { candidate } => {
            assert_eq!(candidate, &b"/srv/files/sub/dir".to_vec())
        }
        _ => panic!("expected a directory resolution"),
    }
    // The filesystem reports the canonical root-relative form.
    let msg = cwd_resolved(&mut s, Some(b"sub/dir"));
    assert_eq!(msg, b"250 Directory changed".to_vec());
    let r = session_step(&mut s, b"PWD", USER, PASS, ROOT);
    assert_eq!(reply(&r), b"257 \"/sub/dir\" is the current directory");
    // One parent step at a time, never above the root.
    let r = session_step(&mut s, b"CWD ..", USER, PASS, ROOT);
    assert_eq!(reply(&r), b"250 Directory changed");
    let r = session_step(&mut s, b"PWD", USER, PASS, ROOT);
    assert_eq!(reply(&r), b"257 \"/sub\" is the current directory");
    let r = session_step(&mut s, b"CDUP", USER, PASS, ROOT);
    assert_eq!(reply(&r), b"200 Command okay");
    assert_eq!(s.cwd.len(), 0);
    // A failed resolution leaves the session where it was.
    let msg = cwd_resolved(&mut s, None);
    assert_eq!(msg, b"550 Failed to change directory".to_vec());
    assert_eq!(s.cwd.len(), 0);
}

#[test]
fn cwd_rejects_escape_before_filesystem() {
    let mut s = FtpSession::new();
    login(&mut s);
    let r = session_step(&mut s, b"CWD a/../../b", USER, PASS, ROOT);
    assert_eq!(reply(&r), b"550 Failed to change directory");
    assert!(matches!(r.1, FtpAction::Stay));
}

#[test]
fn user_can_be_reannounced() {
    let mut s = FtpSession::new();
    let _ = session_step(&mut s, b"USER someone", USER, PASS, ROOT);
    let r = session_step(&mut s, b"PASS p", USER, PASS, ROOT);
    assert_eq!(reply(&r), b"530 Authentication failed");
    let _ = session_step(&mut s, b"USER u", USER, PASS, ROOT);
    let r = session_step(&mut s, b"PASS p", USER, PASS, ROOT);
    assert_eq!(reply(&r), b"230 User logged in");
}

#[test]
fn cwd_empty_argument_resolves_current_directory() {
    let mut s = FtpSession::new();
    login(&mut s);
    let msg = cwd_resolved(&mut s, Some(b"sub"));
    assert_eq!(msg, b"250 Directory changed".to_vec());
    let r = session_step(&mut s, b"CWD", USER, PASS, ROOT);
    match &r.1 {
        FtpAction::ResolveDir { candidate } => {
            assert_eq!(candidate, &b"/srv/files/sub".to_vec())
        }
        _ => panic!("expected a directory resolution"),
    }
}

#[test]
fn pasv_reply_format() {
    let mut s = FtpSession::new();
    login(&mut s);
    let r = session_step(&mut s, b"PASV", USER, PASS, ROOT);
    assert!(r.0.is_empty());
    assert!(matches!(r.1, FtpAction::OpenPassive { extended: false }));
    let msg = passive_opened(&mut s, false, 192, 168, 1, 2, 4242);
    assert_eq!(msg, b"227 Entering Passive Mode (192,168,1,2,16,146)".to_vec());
    assert!(s.pending_listener);
}

#[test]
fn epsv_reply_format() {
    let mut s = FtpSession::new();
    login(&mut s);
    let r = session_step(&mut s, b"EPSV", USER, PASS, ROOT);
    assert!(matches!(r.1, FtpAction::OpenPassive { extended: true }));
    let msg = passive_opened(&mut s, true, 0, 0, 0, 0, 4242);
    assert_eq!(msg, b"229 Entering Extended Passive Mode (|||4242|)".to_vec());
    assert!(s.pending_listener);
}

#[test]
fn pasv_failure_replies() {
    assert_eq!(
        pasv_failure_reply(false),
        b"425 Cannot open passive connection".to_vec()
    );
    assert_eq!(
        pasv_failure_reply(true),
        b"425 Cannot get passive address".to_vec()
    );
}

#[test]
fn stor_then_retr_round() {
    // The control-channel half of an upload followed by a download.
    let mut s = FtpSession::new();
    login(&mut s);
    let _ = session_step(&mut s, b"PASV", USER, PASS, ROOT);
    let _ = passive_opened(&mut s, false, 10, 0, 0, 2, 2048);
    let r = session_step(&mut s, b"STOR /a.txt", USER, PASS, ROOT);
    assert!(r.0.is_empty());
    assert!(!s.pending_listener, "the listener is consumed by STOR");
    match &r.1 {
        FtpAction::ResolveStore { parent, name } => {
            assert_eq!(parent, &b"/srv/files".to_vec());
            assert_eq!(name, &b"a.txt".to_vec());
        }
        _ => panic!("expected a store resolution"),
    }
    assert_eq!(
        stor_resolved_reply(true),
        b"150 Opening data connection for STOR".to_vec()
    );
    assert_eq!(transfer_reply(true), b"226 Transfer complete".to_vec());
    // A second transfer needs a fresh listener.
    let r = session_step(&mut s, b"RETR /a.txt", USER, PASS, ROOT);
    assert_eq!(reply(&r), b"425 Use PASV first");
    let _ = session_step(&mut s, b"PASV", USER, PASS, ROOT);
    let _ = passive_opened(&mut s, false, 10, 0, 0, 2, 2049);
    let r = session_step(&mut s, b"RETR /a.txt", USER, PASS, ROOT);
    match &r.1 {
        FtpAction::ResolveFile { candidate } => {
            assert_eq!(candidate, &b"/srv/files/a.txt".to_vec())
        }
        _ => panic!("expected a file resolution"),
    }
    assert_eq!(
        retr_resolved_reply(true),
        b"150 Opening data connection for RETR".to_vec()
    );
    assert_eq!(retr_resolved_reply(false), b"550 File unavailable".to_vec());
    assert_eq!(stor_resolved_reply(false), b"550 Invalid path".to_vec());
    assert_eq!(
        transfer_reply(false),
        b"425 Cannot open data connection".to_vec()
    );
}

#[test]
fn simple_commands() {
    let mut s = FtpSession::new();
    let r = session_step(&mut s, b"SYST", USER, PASS, ROOT);
    assert_eq!(reply(&r), b"215 UNIX Type: L8");
    let r = session_step(&mut s, b"TYPE I", USER, PASS, ROOT);
    assert_eq!(reply(&r), b"200 Type set");
    let r = session_step(&mut s, b"NOOP", USER, PASS, ROOT);
    assert_eq!(reply(&r), b"200 OK");
    let r = session_step(&mut s, b"AUTH TLS", USER, PASS, ROOT);
    assert_eq!(reply(&r), b"502 TLS not supported");
    let r = session_step(&mut s, b"OPTS UTF8 ON", USER, PASS, ROOT);
    assert_eq!(reply(&r), b"200 UTF8 set to on");
    let r = session_step(&mut s, b"OPTS MLST", USER, PASS, ROOT);
    assert_eq!(reply(&r), b"501 Option not supported");
    let r = session_step(&mut s, b"FEAT", USER, PASS, ROOT);
    assert_eq!(r.0.len(), 5);
    assert_eq!(r.0[0], b"211-Features".to_vec());
    assert_eq!(r.0[4], b"211 End".to_vec());
    let r = session_step(&mut s, b"NLST", USER, PASS, ROOT);
    assert_eq!(reply(&r), b"502 Command not implemented");
    let r = session_step(&mut s, b"QUIT", USER, PASS, ROOT);
    assert_eq!(reply(&r), b"221 Goodbye");
    assert!(matches!(r.1, FtpAction::Quit));
}

#[test]
fn list_consumes_listener() {
    let mut s = FtpSession::new();
    login(&mut s);
    let _ = session_step(&mut s, b"PASV", USER, PASS, ROOT);
    let _ = passive_opened(&mut s, false, 10, 0, 0, 2, 2048);
    let r = session_step(&mut s, b"LIST", USER, PASS, ROOT);
    assert_eq!(reply(&r), b"150 Opening data connection for LIST");
    assert!(matches!(r.1, FtpAction::SendList));
    assert!(!s.pending_listener);
}

#[test]
fn dir_entry_line() {
    assert_eq!(
        format_dir_entry(b"a.txt", false, 5),
        b"-rw-rw-rw- 1 owner group          5 Jan 01 00:00 a.txt".to_vec()
    );
    assert_eq!(
        format_dir_entry(b"sub", true, 4096),
        b"drw-rw-rw- 1 owner group       4096 Jan 01 00:00 sub".to_vec()
    );
}
