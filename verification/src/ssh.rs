//! The decisions of an SSH session: how a path is quoted for the remote shell,
//! how output is cut into lines, whether a host key is accepted, and which
//! keys are tried in which order.

use vstd::prelude::*;

use crate::text;

verus! {

// ── Quoting ──────────────────────────────────────────────────────────────────

/// The text with every single quote written as `'\''`.
pub open spec fn escaped(s: Seq<char>) -> Seq<char>
    decreases s.len(),
{
    if s.len() == 0 {
        seq![]
    } else {
        escaped(s.drop_last()) + if s.last() == '\'' {
            "'\\''"@
        } else {
            seq![s.last()]
        }
    }
}

/// The text as one word of a shell command.
pub open spec fn quoted(s: Seq<char>) -> Seq<char> {
    "'"@ + escaped(s) + "'"@
}

/// Quotes a text so that the remote shell reads it as one word, whatever
/// characters it contains.
pub fn shell_quote(s: &str) -> (r: String)
    ensures
        r@ == quoted(s@),
{
    let cs = text::chars_of(s);
    let n: usize = cs.len();
    let mut body = String::new();
    let mut i: usize = 0;
    while i < n
        invariant
            n == cs@.len(),
            cs@ == s@,
            i <= n,
            body@ == escaped(s@.take(i as int)),
        decreases n - i,
    {
        let ghost before = body@;
        if cs[i] == '\'' {
            body.append("'\\''");
        } else {
            body.push(cs[i]);
            assert(body@ =~= before + seq![cs@[i as int]]);
        }
        proof {
            assert(s@.take(i + 1).drop_last() =~= s@.take(i as int));
            assert(s@.take(i + 1).last() == cs@[i as int]);
        }
        i += 1;
    }
    assert(s@.take(n as int) =~= s@);
    let mut r = "'".to_string();
    r.append(body.as_str());
    r.append("'");
    r
}

// ── Streaming output ─────────────────────────────────────────────────────────

/// The result of `String::from_utf8_lossy` on bytes that are not valid UTF-8.
pub uninterp spec fn replaced_utf8(bytes: Seq<u8>) -> Seq<char>;

/// Calls `String::from_utf8_lossy`. Valid UTF-8 is decoded; of other bytes it
/// is only said that the result is a function of them.
#[verifier::external_body]
fn from_utf8_lossy(bytes: &[u8]) -> (r: String)
    ensures
        vstd::utf8::valid_utf8(bytes@) ==> r@ == vstd::utf8::decode_utf8(bytes@),
        !vstd::utf8::valid_utf8(bytes@) ==> r@ == replaced_utf8(bytes@),
{
    String::from_utf8_lossy(bytes).into_owned()
}

/// The text that a chunk of output stands for.
pub open spec fn decoded(bytes: Seq<u8>) -> Seq<char> {
    if vstd::utf8::valid_utf8(bytes) {
        vstd::utf8::decode_utf8(bytes)
    } else {
        replaced_utf8(bytes)
    }
}

/// The lines of a text that end in `\n`, without it.
pub open spec fn full_lines(s: Seq<char>) -> Seq<Seq<char>>
    decreases s.len(),
{
    let n = text::until(s, '\n');
    if n >= s.len() {
        seq![]
    } else {
        seq![s.take(n as int)] + full_lines(s.skip(n as int + 1))
    }
}

/// What follows the last `\n` of a text.
pub open spec fn tail(s: Seq<char>) -> Seq<char>
    decreases s.len(),
{
    let n = text::until(s, '\n');
    if n >= s.len() {
        s
    } else {
        tail(s.skip(n as int + 1))
    }
}

/// Cuts a stream of output into lines.
#[derive(Debug)]
pub struct LineBuffer {
    /// Output that no line ending has followed yet.
    pub buf: String,
}

impl LineBuffer {
    pub fn new() -> (r: Self)
        ensures
            r.buf@.len() == 0,
    {
        LineBuffer { buf: String::new() }
    }

    /// Takes in a chunk of raw output and returns the lines that it completes.
    pub fn feed(&mut self, raw: &[u8]) -> (r: Vec<String>)
        ensures
            r.deep_view() == full_lines(old(self).buf@ + decoded(raw@)),
            final(self).buf@ == tail(old(self).buf@ + decoded(raw@)),
    {
        let chunk = from_utf8_lossy(raw);
        self.feed_text(chunk.as_str())
    }

    /// Takes in a chunk of text and returns the lines that it completes.
    pub fn feed_text(&mut self, chunk: &str) -> (r: Vec<String>)
        ensures
            r.deep_view() == full_lines(old(self).buf@ + chunk@),
            final(self).buf@ == tail(old(self).buf@ + chunk@),
    {
        self.buf.append(chunk);
        let ghost all = self.buf@;
        let cs = text::chars_of(self.buf.as_str());
        let n: usize = cs.len();
        let mut r: Vec<String> = Vec::new();
        let mut i: usize = 0;
        assert(cs@.skip(0) =~= all);
        assert(r.deep_view() + full_lines(all) =~= full_lines(all));
        loop
            invariant
                n == cs@.len(),
                cs@ == all,
                i <= n,
                r.deep_view() + full_lines(all.skip(i as int)) == full_lines(all),
                tail(all.skip(i as int)) == tail(all),
            ensures
                r.deep_view() == full_lines(all),
                i <= n,
                tail(all) == all.skip(i as int),
            decreases n - i,
        {
            let ghost rest = all.skip(i as int);
            let ghost before = r.deep_view();
            let k: usize = text::find_char(&cs.as_slice()[i..n], '\n');
            assert(cs@.subrange(i as int, n as int) =~= rest);
            if k >= n - i {
                assert(r.deep_view() =~= full_lines(all));
                break;
            }
            let line = text::to_text(&cs.as_slice()[i..i + k]);
            proof {
                assert(rest.take(k as int) =~= cs@.subrange(i as int, i + k));
                assert(rest.skip(k + 1) =~= all.skip(i + k + 1));
            }
            r.push(line);
            proof {
                assert(r.deep_view() =~= before.push(rest.take(k as int)));
                assert(before.push(rest.take(k as int)) + full_lines(all.skip(i + k + 1))
                    =~= before + (seq![rest.take(k as int)] + full_lines(all.skip(i + k + 1))));
            }
            i = i + k + 1;
        }
        assert(cs@.subrange(i as int, n as int) =~= all.skip(i as int));
        self.buf = text::to_text(&cs.as_slice()[i..n]);
        r
    }

    /// The unfinished last line, unless it is blank.
    pub fn finish(&self) -> (r: Option<String>)
        ensures
            r.deep_view() == (if text::trimmed(self.buf@).len() == 0 {
                None
            } else {
                Some(text::without_trailing(self.buf@, '\n'))
            }),
    {
        let cs = text::chars_of(self.buf.as_str());
        if text::trim(cs.as_slice()).len() == 0 {
            None
        } else {
            Some(text::strip_trailing(self.buf.as_str(), '\n'))
        }
    }
}

// ── Running a command ────────────────────────────────────────────────────────

/// The result of a command that has ended: its output, unless its exit status
/// says that it failed.
pub fn completed(command: &str, output: String, exit_status: i32) -> (r: Result<String, String>)
    ensures
        r is Ok <==> exit_status == 0,
        r is Ok ==> r->Ok_0 == output,
        r is Err ==> r->Err_0@ == "exec: "@ + command@ + ": exit status "@ + text::signed_decimal(
            exit_status as int,
        ),
{
    if exit_status == 0 {
        Ok(output)
    } else {
        let mut e = "exec: ".to_string();
        e.append(command);
        e.append(": exit status ");
        e.append(text::signed_number(exit_status).as_str());
        Err(e)
    }
}

// ── Host keys ────────────────────────────────────────────────────────────────

pub open spec fn address_of(hostname: Seq<char>, port: u16) -> Seq<char> {
    hostname + ":"@ + text::decimal(port as nat)
}

/// Where to connect to: `hostname:port`.
pub fn address(hostname: &str, port: u16) -> (r: String)
    ensures
        r@ == address_of(hostname@, port),
{
    let mut r = hostname.to_string();
    r.append(":");
    r.append(text::number(port as u64).as_str());
    r
}

/// The name under which a host stands in the known hosts file.
pub fn known_host_name(hostname: &str, port: u16) -> (r: String)
    ensures
        r@ == (if port == 22 {
            hostname@
        } else {
            "["@ + hostname@ + "]:"@ + text::decimal(port as nat)
        }),
{
    if port == 22 {
        hostname.to_string()
    } else {
        let mut r = "[".to_string();
        r.append(hostname);
        r.append("]:");
        r.append(text::number(port as u64).as_str());
        r
    }
}

/// How a host's key compares with what is known of it.
#[derive(Debug, Clone, Copy, PartialEq, Eq, Structural)]
pub enum KeyCheck {
    Match,
    NotFound,
    Mismatch,
    Failure,
}

/// Whether a host key is refused, and why. A key that is new is accepted
/// silently, and so is any key where there is no known hosts file: trust on
/// first use.
pub open spec fn refusal(
    key_offered: bool,
    known: Option<KeyCheck>,
    hostname: Seq<char>,
    port: u16,
) -> Option<Seq<char>> {
    if !key_offered {
        Some("server provided no host key"@)
    } else {
        match known {
            Some(KeyCheck::Mismatch) => Some(
                "HOST KEY MISMATCH for "@ + address_of(hostname, port)
                    + " — possible MITM attack! Remove the old key from ~/.ssh/known_hosts to continue."@,
            ),
            Some(KeyCheck::Failure) => Some(
                "known_hosts check failed for "@ + address_of(hostname, port),
            ),
            _ => None,
        }
    }
}

/// Decides on a host key. `known` is `None` where there is no known hosts file.
pub fn judge_host_key(
    key_offered: bool,
    known: Option<KeyCheck>,
    hostname: &str,
    port: u16,
) -> (r: Result<(), String>)
    ensures
        match r {
            Ok(_) => refusal(key_offered, known, hostname@, port) is None,
            Err(e) => refusal(key_offered, known, hostname@, port) == Some(e@),
        },
{
    if !key_offered {
        return Err("server provided no host key".to_string());
    }
    match known {
        Some(KeyCheck::Mismatch) => {
            let mut e = "HOST KEY MISMATCH for ".to_string();
            e.append(address(hostname, port).as_str());
            e.append(
                " — possible MITM attack! Remove the old key from ~/.ssh/known_hosts to continue.",
            );
            Err(e)
        },
        Some(KeyCheck::Failure) => Err(
            text::cat("known_hosts check failed for ", address(hostname, port).as_str()),
        ),
        Some(KeyCheck::Match) | Some(KeyCheck::NotFound) | None => Ok(()),
    }
}

// ── Authentication ───────────────────────────────────────────────────────────

/// The default key files, in the order in which they are tried.
pub open spec fn default_keys() -> Seq<Seq<char>> {
    seq!["id_ed25519"@, "id_rsa"@, "id_ecdsa"@, "id_dsa"@]
}

/// The default key file with the given number.
pub fn default_key(i: usize) -> (r: Option<&'static str>)
    ensures
        match r {
            Some(name) => i < default_keys().len() && name@ == default_keys()[i as int],
            None => i >= default_keys().len(),
        },
{
    match i {
        0 => Some("id_ed25519"),
        1 => Some("id_rsa"),
        2 => Some("id_ecdsa"),
        3 => Some("id_dsa"),
        _ => None,
    }
}

/// What is tried next to authenticate.
#[derive(Debug, Clone, Copy, PartialEq, Eq, Structural)]
pub enum AuthStep {
    /// The SSH agent.
    Agent,
    /// The explicitly configured identity file (unencrypted or agent-held).
    Identity,
    /// A default key file (unencrypted only; use the agent for
    /// passphrase-protected keys).
    DefaultKey(usize),
    Accepted,
    Refused,
}

/// What came of it.
#[derive(Debug)]
pub enum AuthEvent {
    /// The agent was asked. The only reliable signal is whether the session is
    /// authenticated; some builds report an error even when a key was accepted.
    Agent { error: Option<String>, authenticated: bool },
    /// A key file was looked for, and tried where it exists.
    KeyFile { exists: bool, accepted: bool },
}

pub enum AuthEventView {
    Agent { error: Option<Seq<char>>, authenticated: bool },
    KeyFile { exists: bool, accepted: bool },
}

impl DeepView for AuthEvent {
    type V = AuthEventView;

    open spec fn deep_view(&self) -> AuthEventView {
        match self {
            AuthEvent::Agent { error, authenticated } => AuthEventView::Agent {
                error: error.deep_view(),
                authenticated: *authenticated,
            },
            AuthEvent::KeyFile { exists, accepted } => AuthEventView::KeyFile {
                exists: *exists,
                accepted: *accepted,
            },
        }
    }
}

/// The state of an authentication.
#[derive(Debug)]
pub struct Authenticator {
    /// Whether an identity file is configured.
    pub has_identity: bool,
    pub step: AuthStep,
    pub agent_error: Option<String>,
    /// The default key files that were found and tried.
    pub tried_keys: Vec<String>,
}

pub struct AuthView {
    pub has_identity: bool,
    pub step: AuthStep,
    pub agent_error: Option<Seq<char>>,
    pub tried_keys: Seq<Seq<char>>,
}

impl DeepView for Authenticator {
    type V = AuthView;

    open spec fn deep_view(&self) -> AuthView {
        AuthView {
            has_identity: self.has_identity,
            step: self.step,
            agent_error: self.agent_error.deep_view(),
            tried_keys: self.tried_keys.deep_view(),
        }
    }
}

/// An authentication at its start.
pub open spec fn unauthenticated(has_identity: bool) -> AuthView {
    AuthView { has_identity, step: AuthStep::Agent, agent_error: None, tried_keys: seq![] }
}

impl AuthView {
    /// The state after an event. The agent comes first, then the identity
    /// file, then each default key file that exists, until one is accepted.
    pub open spec fn after(self, event: AuthEventView) -> AuthView {
        match (self.step, event) {
            (AuthStep::Agent, AuthEventView::Agent { error, authenticated }) => if authenticated {
                AuthView { step: AuthStep::Accepted, ..self }
            } else {
                AuthView {
                    agent_error: error,
                    step: if self.has_identity {
                        AuthStep::Identity
                    } else {
                        AuthStep::DefaultKey(0)
                    },
                    ..self
                }
            },
            (AuthStep::Identity, AuthEventView::KeyFile { accepted, .. }) => AuthView {
                step: if accepted {
                    AuthStep::Accepted
                } else {
                    AuthStep::DefaultKey(0)
                },
                ..self
            },
            (AuthStep::DefaultKey(i), AuthEventView::KeyFile { exists, accepted }) => AuthView {
                step: if exists && accepted {
                    AuthStep::Accepted
                } else if i + 1 < default_keys().len() {
                    AuthStep::DefaultKey((i + 1) as usize)
                } else {
                    AuthStep::Refused
                },
                tried_keys: if exists && i < default_keys().len() {
                    self.tried_keys.push(default_keys()[i as int])
                } else {
                    self.tried_keys
                },
                ..self
            },
            _ => self,
        }
    }

    /// Why authentication failed.
    pub open spec fn failure(self, user: Seq<char>) -> Seq<char> {
        "all authentication methods failed for user "@ + user + " ("@ + (match self.agent_error {
            Some(e) => "agent: "@ + e,
            None => "agent returned ok but session not authenticated"@,
        }) + "; "@ + (if self.tried_keys.len() == 0 {
            "no default key files found"@
        } else {
            "tried key files: "@ + text::joined(self.tried_keys, ", "@)
        }) + ")"@
    }
}

impl Authenticator {
    pub fn new(has_identity: bool) -> (r: Self)
        ensures
            r.deep_view() == unauthenticated(has_identity),
    {
        let r = Authenticator {
            has_identity,
            step: AuthStep::Agent,
            agent_error: None,
            tried_keys: Vec::new(),
        };
        assert(r.tried_keys.deep_view() =~= seq![]);
        r
    }

    /// Takes in what came of the last step.
    pub fn record(&mut self, event: AuthEvent)
        ensures
            final(self).deep_view() == old(self).deep_view().after(event.deep_view()),
    {
        match (self.step, event) {
            (AuthStep::Agent, AuthEvent::Agent { error, authenticated }) => {
                if authenticated {
                    self.step = AuthStep::Accepted;
                } else {
                    self.agent_error = error;
                    self.step = if self.has_identity {
                        AuthStep::Identity
                    } else {
                        AuthStep::DefaultKey(0)
                    };
                }
            },
            (AuthStep::Identity, AuthEvent::KeyFile { accepted, .. }) => {
                self.step = if accepted {
                    AuthStep::Accepted
                } else {
                    AuthStep::DefaultKey(0)
                };
            },
            (AuthStep::DefaultKey(i), AuthEvent::KeyFile { exists, accepted }) => {
                if exists {
                    if let Some(name) = default_key(i) {
                        let ghost before = self.tried_keys.deep_view();
                        self.tried_keys.push(name.to_string());
                        assert(self.tried_keys.deep_view() =~= before.push(name@));
                    }
                }
                self.step = if exists && accepted {
                    AuthStep::Accepted
                } else if i < 3 {
                    AuthStep::DefaultKey(i + 1)
                } else {
                    AuthStep::Refused
                };
            },
            _ => {},
        }
    }

    /// Why authentication failed.
    pub fn failure(&self, user: &str) -> (r: String)
        ensures
            r@ == self.deep_view().failure(user@),
    {
        let agent = match &self.agent_error {
            Some(e) => text::cat("agent: ", e.as_str()),
            None => "agent returned ok but session not authenticated".to_string(),
        };
        assert(self.tried_keys.deep_view().len() == self.tried_keys@.len());
        let keys = if self.tried_keys.len() == 0 {
            "no default key files found".to_string()
        } else {
            text::cat("tried key files: ", text::join(&self.tried_keys, ", ").as_str())
        };
        let mut r = "all authentication methods failed for user ".to_string();
        r.append(user);
        r.append(" (");
        r.append(agent.as_str());
        r.append("; ");
        r.append(keys.as_str());
        r.append(")");
        r
    }
}

/// The file that is offered beside a private key.
#[derive(Debug, Clone, Copy, PartialEq, Eq, Structural)]
pub enum PublicPart {
    Certificate,
    PublicKey,
    Nothing,
}

/// Prefers an OpenSSH certificate over the plain public key if one exists.
pub fn public_part(certificate_exists: bool, public_key_exists: bool) -> (r: PublicPart)
    ensures
        r == (if certificate_exists {
            PublicPart::Certificate
        } else if public_key_exists {
            PublicPart::PublicKey
        } else {
            PublicPart::Nothing
        }),
{
    if certificate_exists {
        PublicPart::Certificate
    } else if public_key_exists {
        PublicPart::PublicKey
    } else {
        PublicPart::Nothing
    }
}

/// The file name of a private key's certificate: `id_ed25519` has its
/// certificate in `id_ed25519-cert.pub`.
pub fn certificate_name(key_name: &str) -> (r: String)
    ensures
        r@ == key_name@ + "-cert.pub"@,
{
    text::cat(key_name, "-cert.pub")
}

// ── Laws ─────────────────────────────────────────────────────────────────────

/// What a POSIX shell makes of a word that is built from single-quoted parts
/// and backslash-escaped characters alone; `None` where it is not such a word.
pub open spec fn shell_word(s: Seq<char>) -> Option<Seq<char>>
    decreases s.len(),
{
    if s.len() == 0 {
        Some(seq![])
    } else if s[0] == '\'' {
        quoted_part(s.skip(1))
    } else if s[0] == '\\' && s.len() >= 2 {
        match shell_word(s.skip(2)) {
            Some(rest) => Some(seq![s[1]] + rest),
            None => None,
        }
    } else {
        None
    }
}

/// The same from inside single quotes, where every character up to the next
/// quote stands for itself.
pub open spec fn quoted_part(s: Seq<char>) -> Option<Seq<char>>
    decreases s.len(),
{
    if s.len() == 0 {
        None
    } else if s[0] == '\'' {
        shell_word(s.skip(1))
    } else {
        match quoted_part(s.skip(1)) {
            Some(rest) => Some(seq![s[0]] + rest),
            None => None,
        }
    }
}

/// A shell reads a quoted text as one word that is that text, whatever
/// characters it holds.
pub proof fn quoting_is_undone_by_the_shell(s: Seq<char>)
    ensures
        shell_word(quoted(s)) == Some(s),
{
    reveal_strlit("'");
    let q = quoted(s);
    assert(q.skip(1) =~= escaped(s) + "'"@);
    assert("'"@.skip(1) =~= seq![]);
    assert(shell_word("'"@.skip(1)) == Some(Seq::<char>::empty()));
    assert(quoted_part("'"@) == Some(Seq::<char>::empty()));
    lemma_quoted_part(s, "'"@, seq![]);
    assert(s + seq![] =~= s);
}

/// Inside quotes, an escaped text is read as the text, and then the rest is.
proof fn lemma_quoted_part(s: Seq<char>, rest: Seq<char>, meaning: Seq<char>)
    requires
        quoted_part(rest) == Some(meaning),
    ensures
        quoted_part(escaped(s) + rest) == Some(s + meaning),
    decreases s.len(),
{
    if s.len() == 0 {
        assert(escaped(s) + rest =~= rest);
        assert(s + meaning =~= meaning);
    } else {
        let c = s.last();
        let tail = if c == '\'' {
            "'\\''"@
        } else {
            seq![c]
        };
        let more = tail + rest;
        assert(quoted_part(more) == Some(seq![c] + meaning)) by {
            if c == '\'' {
                reveal_strlit("'\\''");
                let a = more.skip(1);
                let b = a.skip(2);
                assert(a[0] == '\\' && a[1] == '\'');
                assert(b[0] == '\'');
                assert(b.skip(1) =~= rest);
                assert(shell_word(b) == Some(meaning));
                assert(shell_word(a) == Some(seq!['\''] + meaning));
            } else {
                assert(more.skip(1) =~= rest);
            }
        }
        lemma_quoted_part(s.drop_last(), more, seq![c] + meaning);
        assert(escaped(s) + rest =~= escaped(s.drop_last()) + more);
        assert(s.drop_last() + (seq![c] + meaning) =~= s + meaning);
    }
}

/// Cutting output into lines does not depend on the chunks that it comes in:
/// the lines of two chunks are those of the second with what the first left
/// over, after those of the first.
pub proof fn chunks_do_not_matter(a: Seq<char>, b: Seq<char>)
    ensures
        full_lines(a + b) == full_lines(a) + full_lines(tail(a) + b),
        tail(a + b) == tail(tail(a) + b),
    decreases a.len(),
{
    let n = text::until(a, '\n');
    text::lemma_until(a, '\n');
    if n >= a.len() {
        assert(full_lines(a) + full_lines(tail(a) + b) =~= full_lines(a + b));
    } else {
        let rest = a.skip(n as int + 1);
        chunks_do_not_matter(rest, b);
        lemma_until_in_front(a, b);
        assert((a + b).take(n as int) =~= a.take(n as int));
        assert((a + b).skip(n as int + 1) =~= rest + b);
        assert(full_lines(a + b) =~= full_lines(a) + full_lines(tail(a) + b));
    }
}

/// The same of raw output, where no chunk ends within a character: the lines of
/// the whole are those of the chunks, whatever was left over before.
pub proof fn raw_chunks_do_not_matter(buf: Seq<char>, a: Seq<u8>, b: Seq<u8>)
    requires
        vstd::utf8::valid_utf8(a),
        vstd::utf8::valid_utf8(b),
    ensures
        full_lines(buf + decoded(a + b)) == full_lines(buf + decoded(a)) + full_lines(
            tail(buf + decoded(a)) + decoded(b),
        ),
        tail(buf + decoded(a + b)) == tail(tail(buf + decoded(a)) + decoded(b)),
{
    let x = vstd::utf8::decode_utf8(a);
    let y = vstd::utf8::decode_utf8(b);
    vstd::utf8::decode_utf8_encode_utf8(a);
    vstd::utf8::decode_utf8_encode_utf8(b);
    lemma_encode_add(x, y);
    vstd::utf8::encode_utf8_decode_utf8(x + y);
    vstd::utf8::encode_utf8_valid_utf8(x + y);
    assert(decoded(a + b) == x + y);
    assert(buf + (x + y) =~= buf + x + y);
    chunks_do_not_matter(buf + x, y);
}

proof fn lemma_encode_add(x: Seq<char>, y: Seq<char>)
    ensures
        vstd::utf8::encode_utf8(x + y) == vstd::utf8::encode_utf8(x) + vstd::utf8::encode_utf8(y),
    decreases x.len(),
{
    if x.len() == 0 {
        assert(x + y =~= y);
        assert(vstd::utf8::encode_utf8(x) + vstd::utf8::encode_utf8(y)
            =~= vstd::utf8::encode_utf8(y));
    } else {
        lemma_encode_add(x.drop_first(), y);
        assert((x + y).drop_first() =~= x.drop_first() + y);
        assert(vstd::utf8::encode_utf8(x + y) =~= vstd::utf8::encode_utf8(x)
            + vstd::utf8::encode_utf8(y));
    }
}

proof fn lemma_until_in_front(a: Seq<char>, b: Seq<char>)
    requires
        text::until(a, '\n') < a.len(),
    ensures
        text::until(a + b, '\n') == text::until(a, '\n'),
    decreases a.len(),
{
    if a[0] != '\n' {
        assert((a + b).skip(1) =~= a.skip(1) + b);
        lemma_until_in_front(a.skip(1), b);
    }
}

/// What a host makes of each attempt to authenticate.
pub struct AuthAnswers {
    pub agent_error: Option<Seq<char>>,
    pub agent_accepted: bool,
    pub identity_accepted: bool,
    /// Of each default key file, whether it exists.
    pub exists: spec_fn(int) -> bool,
    /// And whether it is accepted.
    pub accepted: spec_fn(int) -> bool,
}

/// What comes of the next step.
pub open spec fn auth_answer(a: AuthView, w: AuthAnswers) -> AuthEventView {
    match a.step {
        AuthStep::Agent => AuthEventView::Agent {
            error: w.agent_error,
            authenticated: w.agent_accepted,
        },
        AuthStep::DefaultKey(i) => AuthEventView::KeyFile {
            exists: (w.exists)(i as int),
            accepted: (w.accepted)(i as int),
        },
        _ => AuthEventView::KeyFile { exists: true, accepted: w.identity_accepted },
    }
}

/// The state after `n` steps.
pub open spec fn auth_run(a: AuthView, w: AuthAnswers, n: nat) -> AuthView
    decreases n,
{
    if n == 0 {
        a
    } else {
        auth_run(a.after(auth_answer(a, w)), w, (n - 1) as nat)
    }
}

/// Some default key file exists and is accepted.
pub open spec fn default_key_accepted(w: AuthAnswers) -> bool {
    exists|i: int|
        0 <= i < default_keys().len() && #[trigger] (w.exists)(i) && (w.accepted)(i)
}

/// The default key files that exist.
pub open spec fn existing_keys(w: AuthAnswers, n: nat) -> Seq<Seq<char>>
    decreases n,
{
    if n == 0 {
        seq![]
    } else if (w.exists)(n - 1) {
        existing_keys(w, (n - 1) as nat).push(default_keys()[n - 1])
    } else {
        existing_keys(w, (n - 1) as nat)
    }
}

/// Authentication ends after at most six steps. It is accepted if and only if
/// the agent, the identity file or a default key file is; where it is refused,
/// the failure lists the default key files that exist.
pub proof fn authentication_tries_everything(has_identity: bool, w: AuthAnswers)
    ensures
        ({
            let end = auth_run(unauthenticated(has_identity), w, 6);
            &&& end.step is Accepted || end.step is Refused
            &&& end.step is Accepted <==> w.agent_accepted || (has_identity && w.identity_accepted)
                || default_key_accepted(w)
            &&& end.step is Refused ==> end.tried_keys == existing_keys(w, 4) && end.agent_error
                == w.agent_error
        }),
{
    reveal_with_fuel(auth_run, 7);
    reveal_with_fuel(existing_keys, 5);
    let end = auth_run(unauthenticated(has_identity), w, 6);
    assert(default_keys().len() == 4);
    assert(default_key_accepted(w) ==> ((w.exists)(0) && (w.accepted)(0)) || ((w.exists)(1) && (
    w.accepted)(1)) || ((w.exists)(2) && (w.accepted)(2)) || ((w.exists)(3) && (w.accepted)(3)));
}

/// The lines of a text, each with its line ending again.
pub open spec fn with_endings(ls: Seq<Seq<char>>) -> Seq<char>
    decreases ls.len(),
{
    if ls.len() == 0 {
        seq![]
    } else {
        with_endings(ls.drop_last()) + ls.last() + seq!['\n']
    }
}

/// Cutting output into lines loses nothing and cuts nowhere else: the lines with
/// their endings, and what is left over, are the output; and there is no line
/// ending in any of them.
pub proof fn cutting_loses_nothing(s: Seq<char>)
    ensures
        with_endings(full_lines(s)) + tail(s) == s,
        !tail(s).contains('\n'),
        forall|i: int| 0 <= i < full_lines(s).len() ==> !(#[trigger] full_lines(s)[i]).contains('\n'),
    decreases s.len(),
{
    let n = text::until(s, '\n') as int;
    text::lemma_until(s, '\n');
    if n >= s.len() {
        assert(!s.contains('\n')) by {
            if s.contains('\n') {
                let k = choose|k: int| 0 <= k < s.len() && s[k] == '\n';
                assert(s[k] != '\n');
            }
        }
        assert(with_endings(full_lines(s)) + tail(s) =~= s);
    } else {
        let first = s.take(n);
        let rest = s.skip(n + 1);
        cutting_loses_nothing(rest);
        assert(!first.contains('\n')) by {
            if first.contains('\n') {
                let k = choose|k: int| 0 <= k < first.len() && first[k] == '\n';
                assert(s[k] != '\n');
            }
        }
        lemma_endings_front(first, full_lines(rest));
        assert(s =~= first + seq!['\n'] + rest);
        assert(first + seq!['\n'] + with_endings(full_lines(rest)) + tail(rest) =~= first
            + seq!['\n'] + (with_endings(full_lines(rest)) + tail(rest)));
        assert(full_lines(s) == seq![first] + full_lines(rest));
    }
}

proof fn lemma_endings_front(first: Seq<char>, ls: Seq<Seq<char>>)
    ensures
        with_endings(seq![first] + ls) == first + seq!['\n'] + with_endings(ls),
    decreases ls.len(),
{
    let all = seq![first] + ls;
    if ls.len() == 0 {
        assert(all.drop_last() =~= Seq::<Seq<char>>::empty());
        assert(all.last() == first);
        assert(with_endings(all.drop_last()) =~= seq![]);
        assert(with_endings(ls) =~= seq![]);
        assert(with_endings(all) =~= first + seq!['\n'] + with_endings(ls));
    } else {
        lemma_endings_front(first, ls.drop_last());
        assert(all.drop_last() =~= seq![first] + ls.drop_last());
        assert(all.last() == ls.last());
        assert(with_endings(all) =~= first + seq!['\n'] + with_endings(ls));
    }
}

/// A host key is accepted if and only if the server offers one, and what is
/// known of the host does not speak against it. A refusal names the host.
pub proof fn when_a_host_key_is_refused(
    key_offered: bool,
    known: Option<KeyCheck>,
    hostname: Seq<char>,
    port: u16,
)
    ensures
        refusal(key_offered, known, hostname, port) is None <==> key_offered && known != Some(
            KeyCheck::Mismatch,
        ) && known != Some(KeyCheck::Failure),
        key_offered && refusal(key_offered, known, hostname, port) is Some ==> text::contains(
            refusal(key_offered, known, hostname, port)->0,
            hostname + ":"@ + text::decimal(port as nat),
        ),
        key_offered && known == Some(KeyCheck::Mismatch) ==> text::begins(
            refusal(key_offered, known, hostname, port)->0,
            "HOST KEY MISMATCH"@,
        ),
{
    let at = address_of(hostname, port);
    if key_offered && known == Some(KeyCheck::Mismatch) {
        text::lemma_contains_middle(
            "HOST KEY MISMATCH for "@,
            at,
            " — possible MITM attack! Remove the old key from ~/.ssh/known_hosts to continue."@,
        );
        reveal_strlit("HOST KEY MISMATCH for ");
        reveal_strlit("HOST KEY MISMATCH");
        let r = refusal(key_offered, known, hostname, port)->0;
        assert(r.subrange(0, 17) =~= "HOST KEY MISMATCH"@);
    }
    if key_offered && known == Some(KeyCheck::Failure) {
        text::lemma_contains_middle("known_hosts check failed for "@, at, seq![]);
        assert("known_hosts check failed for "@ + at + seq![] =~= "known_hosts check failed for "@
            + at);
    }
}

/// A failed authentication says for whom, what the agent said and which key files
/// were tried.
pub proof fn a_failure_says_what_was_tried(a: AuthView, user: Seq<char>)
    ensures
        text::contains(a.failure(user), user),
        a.agent_error is Some ==> text::contains(a.failure(user), "agent: "@ + a.agent_error->0),
        a.tried_keys.len() > 0 ==> text::contains(
            a.failure(user),
            "tried key files: "@ + text::joined(a.tried_keys, ", "@),
        ),
        a.tried_keys.len() == 0 ==> text::contains(
            a.failure(user),
            "no default key files found"@,
        ),
{
    let f = "all authentication methods failed for user "@;
    let x = match a.agent_error {
        Some(e) => "agent: "@ + e,
        None => "agent returned ok but session not authenticated"@,
    };
    let y = if a.tried_keys.len() == 0 {
        "no default key files found"@
    } else {
        "tried key files: "@ + text::joined(a.tried_keys, ", "@)
    };
    let r = a.failure(user);
    assert(r =~= f + user + (" ("@ + x + "; "@ + y + ")"@));
    text::lemma_contains_middle(f, user, " ("@ + x + "; "@ + y + ")"@);
    assert(r =~= (f + user + " ("@) + x + ("; "@ + y + ")"@));
    text::lemma_contains_middle(f + user + " ("@, x, "; "@ + y + ")"@);
    assert(r =~= (f + user + " ("@ + x + "; "@) + y + ")"@);
    text::lemma_contains_middle(f + user + " ("@ + x + "; "@, y, ")"@);
}

/// Authentication goes in order, and no step is taken once one was accepted: the
/// agent, the identity file where one is configured, and the default key files
/// one after the other.
pub proof fn authentication_goes_in_order(a: AuthView, error: Option<Seq<char>>, exists: bool)
    ensures
        unauthenticated(a.has_identity).step == AuthStep::Agent,
        ({
            let yes = AuthEventView::KeyFile { exists: true, accepted: true };
            let no = AuthEventView::KeyFile { exists, accepted: false };
            let agent = |ok: bool| AuthEventView::Agent { error, authenticated: ok };
            &&& a.step == AuthStep::Agent ==> {
                &&& a.after(agent(true)).step == AuthStep::Accepted
                &&& a.has_identity ==> a.after(agent(false)).step == AuthStep::Identity
                &&& !a.has_identity ==> a.after(agent(false)).step == AuthStep::DefaultKey(0)
                &&& a.after(agent(false)).agent_error == error
            }
            &&& a.step == AuthStep::Identity ==> {
                &&& a.after(yes).step == AuthStep::Accepted
                &&& a.after(no).step == AuthStep::DefaultKey(0)
                &&& a.after(no).tried_keys == a.tried_keys
            }
            &&& a.step matches AuthStep::DefaultKey(i) ==> {
                &&& a.after(yes).step == AuthStep::Accepted
                &&& i < 3 ==> a.after(no).step == AuthStep::DefaultKey((i + 1) as usize)
                &&& i == 3 ==> a.after(no).step == AuthStep::Refused
            }
            &&& a.step == AuthStep::DefaultKey(0) && exists ==> a.after(no).tried_keys
                == a.tried_keys.push("id_ed25519"@)
            &&& a.step == AuthStep::DefaultKey(1) && exists ==> a.after(no).tried_keys
                == a.tried_keys.push("id_rsa"@)
            &&& a.step == AuthStep::DefaultKey(2) && exists ==> a.after(no).tried_keys
                == a.tried_keys.push("id_ecdsa"@)
            &&& a.step == AuthStep::DefaultKey(3) && exists ==> a.after(no).tried_keys
                == a.tried_keys.push("id_dsa"@)
            &&& !exists ==> a.after(no).tried_keys == a.tried_keys
            &&& a.step == AuthStep::Accepted || a.step == AuthStep::Refused ==> a.after(yes) == a
                && a.after(no) == a && a.after(agent(false)) == a
        }),
{
}

} // verus!
