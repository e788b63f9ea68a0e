use aptmatic::ssh::{
    address, certificate_name, completed, default_key, judge_host_key, known_host_name,
    public_part, shell_quote, AuthEvent, AuthStep, Authenticator, KeyCheck, LineBuffer, PublicPart,
};

#[test]
fn quoting_protects_quotes_and_expansions() {
    assert_eq!(shell_quote("/etc/hosts"), "'/etc/hosts'");
    assert_eq!(shell_quote(""), "''");
    assert_eq!(shell_quote("it's"), "'it'\\''s'");
    assert_eq!(shell_quote("$(rm -rf /)`x`"), "'$(rm -rf /)`x`'");
}

/// What a POSIX shell makes of a quoted word.
fn unquote(s: &str) -> String {
    let mut out = String::new();
    let mut chars = s.chars();
    let mut quoted = false;
    while let Some(c) = chars.next() {
        match c {
            '\'' => quoted = !quoted,
            '\\' if !quoted => out.push(chars.next().unwrap()),
            c => out.push(c),
        }
    }
    assert!(!quoted);
    out
}

#[test]
fn a_shell_undoes_the_quoting() {
    for s in ["", "'", "''", "a'b'c", "\\'", "spaces and $vars", "new\nline"] {
        assert_eq!(unquote(&shell_quote(s)), s);
    }
}

#[test]
fn output_is_cut_into_lines() {
    let mut b = LineBuffer::new();
    assert_eq!(b.feed(b"one\ntw"), vec!["one"]);
    assert_eq!(b.feed(b"o\n\nthree"), vec!["two", ""]);
    assert_eq!(b.finish(), Some("three".to_string()));
    assert_eq!(b.feed(b"\n"), vec!["three"]);
    assert_eq!(b.finish(), None);
    b.feed(b"  \t");
    assert_eq!(b.finish(), None);
}

#[test]
fn chunks_make_no_difference_to_the_lines() {
    let all = "Reading lists...\nDone\n\nunfinished";
    for cut in 0..=all.len() {
        let mut b = LineBuffer::new();
        let mut lines = b.feed(&all.as_bytes()[..cut]);
        lines.extend(b.feed(&all.as_bytes()[cut..]));
        assert_eq!(lines, vec!["Reading lists...", "Done", ""]);
        assert_eq!(b.finish(), Some("unfinished".to_string()));
    }
}

#[test]
fn bytes_are_decoded_and_bad_ones_replaced() {
    let mut b = LineBuffer::new();
    assert_eq!(b.feed("grüße\n".as_bytes()), vec!["grüße"]);
    assert_eq!(b.feed(b"a\xffb\n"), vec!["a\u{fffd}b"]);
    assert_eq!(b.feed_text("x\ny"), vec!["x"]);
    assert_eq!(b.buf, "y");
}

#[test]
fn a_command_fails_with_its_exit_status() {
    assert_eq!(completed("uname -r", "6.1\n".to_string(), 0), Ok("6.1\n".to_string()));
    assert_eq!(
        completed("false", "x".to_string(), 1),
        Err("exec: false: exit status 1".to_string())
    );
}

#[test]
fn hosts_are_named_as_the_known_hosts_file_does() {
    assert_eq!(address("web1", 22), "web1:22");
    assert_eq!(known_host_name("web1", 22), "web1");
    assert_eq!(known_host_name("web1", 2222), "[web1]:2222");
}

#[test]
fn host_keys_are_judged() {
    assert_eq!(judge_host_key(true, None, "h", 22), Ok(()));
    assert_eq!(judge_host_key(true, Some(KeyCheck::Match), "h", 22), Ok(()));
    assert_eq!(judge_host_key(true, Some(KeyCheck::NotFound), "h", 22), Ok(()));
    assert_eq!(
        judge_host_key(true, Some(KeyCheck::Mismatch), "h", 22),
        Err("HOST KEY MISMATCH for h:22 — possible MITM attack! Remove the old key from ~/.ssh/known_hosts to continue.".to_string())
    );
    assert_eq!(
        judge_host_key(true, Some(KeyCheck::Failure), "h", 2222),
        Err("known_hosts check failed for h:2222".to_string())
    );
    assert_eq!(
        judge_host_key(false, None, "h", 22),
        Err("server provided no host key".to_string())
    );
}

fn key(exists: bool, accepted: bool) -> AuthEvent {
    AuthEvent::KeyFile { exists, accepted }
}

#[test]
fn an_agent_that_is_accepted_settles_it() {
    let mut a = Authenticator::new(true);
    a.record(AuthEvent::Agent { error: Some("odd".to_string()), authenticated: true });
    assert_eq!(a.step, AuthStep::Accepted);
}

#[test]
fn keys_are_tried_in_order_until_one_is_accepted() {
    let mut a = Authenticator::new(true);
    a.record(AuthEvent::Agent { error: None, authenticated: false });
    assert_eq!(a.step, AuthStep::Identity);
    a.record(key(true, false));
    assert_eq!(a.step, AuthStep::DefaultKey(0));
    a.record(key(false, false));
    assert_eq!(a.step, AuthStep::DefaultKey(1));
    a.record(key(true, true));
    assert_eq!(a.step, AuthStep::Accepted);
    assert_eq!(a.tried_keys, vec!["id_rsa"]);
}

#[test]
fn refusals_say_what_was_tried() {
    let mut a = Authenticator::new(false);
    a.record(AuthEvent::Agent { error: Some("no agent".to_string()), authenticated: false });
    for exists in [true, false, true, false] {
        a.record(key(exists, false));
    }
    assert_eq!(a.step, AuthStep::Refused);
    assert_eq!(
        a.failure("alice"),
        "all authentication methods failed for user alice (agent: no agent; tried key files: id_ed25519, id_ecdsa)"
    );
    let mut b = Authenticator::new(false);
    b.record(AuthEvent::Agent { error: None, authenticated: false });
    for _ in 0..4 {
        b.record(key(false, false));
    }
    assert_eq!(
        b.failure("bob"),
        "all authentication methods failed for user bob (agent returned ok but session not authenticated; no default key files found)"
    );
    assert_eq!(default_key(3), Some("id_dsa"));
    assert_eq!(default_key(4), None);
}

#[test]
fn certificates_come_before_public_keys() {
    assert_eq!(public_part(true, true), PublicPart::Certificate);
    assert_eq!(public_part(false, true), PublicPart::PublicKey);
    assert_eq!(public_part(false, false), PublicPart::Nothing);
    assert_eq!(certificate_name("id_ed25519"), "id_ed25519-cert.pub");
}
