//! Login to a device: the plaintext flow first, then the challenge-response flow
//! (MD5 over a zero byte, the password and the challenge, hex-encoded behind `00`).
//! The decisions form a state machine; the caller sends the words it is given and hands
//! back each reply.
use crate::sentence::Sentence;
use crate::text::{contains, contains_spec, owned};
use vstd::prelude::*;
use vstd::string::{StringExecFns, StringSliceAdditionalSpecFns};

verus! {

/// Value of a hexadecimal digit, either case.
pub open spec fn hex_value(c: char) -> Option<nat> {
    if '0' <= c && c <= '9' {
        Some((c as u32 - '0' as u32) as nat)
    } else if 'a' <= c && c <= 'f' {
        Some((c as u32 - 'a' as u32 + 10) as nat)
    } else if 'A' <= c && c <= 'F' {
        Some((c as u32 - 'A' as u32 + 10) as nat)
    } else {
        None
    }
}

/// The bytes a hex string stands for: pairs of hex digits, most significant first.
pub open spec fn hex_decoded(s: Seq<char>) -> Option<Seq<u8>> {
    if s.len() % 2 == 0 && forall|i: int| 0 <= i < s.len() ==> hex_value(#[trigger] s[i]) is Some {
        Some(
            Seq::new(
                s.len() / 2,
                |i: int| (hex_value(s[2 * i]).unwrap() * 16 + hex_value(s[2 * i + 1]).unwrap()) as u8,
            ),
        )
    } else {
        None
    }
}

/// Lower-case hex digit of `n < 16`.
pub open spec fn hex_char(n: nat) -> char {
    seq!['0', '1', '2', '3', '4', '5', '6', '7', '8', '9', 'a', 'b', 'c', 'd', 'e', 'f'][n as int]
}

/// Two lower-case hex digits per byte, high nibble first.
pub open spec fn hex_lower(b: Seq<u8>) -> Seq<char> {
    Seq::new(
        2 * b.len(),
        |i: int|
            if i % 2 == 0 {
                hex_char((b[i / 2] / 16) as nat)
            } else {
                hex_char((b[i / 2] % 16) as nat)
            },
    )
}

/// The MD5 digest of `data`.
pub uninterp spec fn md5_of(data: Seq<u8>) -> Seq<u8>;

/// Relies on `hex::decode`: pairs of hex digits of either case give one byte each; an
/// odd length or another character is an error.
#[verifier::external_body]
fn hex_decode(s: &str) -> (r: Option<Vec<u8>>)
    ensures
        r matches Some(v) ==> hex_decoded(s@) == Some(v@),
        r is None <==> hex_decoded(s@) is None,
{
    hex::decode(s).ok()
}

/// Relies on `hex::encode`: two lower-case hex digits per byte.
#[verifier::external_body]
fn hex_encode(b: &[u8]) -> (r: String)
    ensures
        r@ == hex_lower(b@),
{
    hex::encode(b)
}

/// Relies on `md5::compute`: the 16-byte MD5 digest of the data.
#[verifier::external_body]
fn md5_digest(data: &[u8]) -> (r: Vec<u8>)
    ensures
        r@ == md5_of(data@),
        r@.len() == 16,
{
    md5::compute(data).0.to_vec()
}

/// The bytes hashed for the challenge-response login: a zero byte, the password's
/// UTF-8 bytes, the challenge.
pub fn challenge_input(password: &str, challenge: &[u8]) -> (r: Vec<u8>)
    ensures
        r@ == seq![0u8] + password.spec_bytes() + challenge@,
{
    let mut data: Vec<u8> = Vec::new();
    data.push(0u8);
    let pw = password.as_bytes();
    let mut i: usize = 0;
    while i < pw.len()
        invariant
            i <= pw@.len(),
            pw@ == password.spec_bytes(),
            data@ == seq![0u8] + pw@.subrange(0, i as int),
        decreases pw@.len() - i,
    {
        data.push(pw[i]);
        i += 1;
        assert(data@ =~= seq![0u8] + pw@.subrange(0, i as int));
    }
    let mut j: usize = 0;
    while j < challenge.len()
        invariant
            j <= challenge@.len(),
            data@ == seq![0u8] + password.spec_bytes() + challenge@.subrange(0, j as int),
        decreases challenge@.len() - j,
    {
        data.push(challenge[j]);
        j += 1;
        assert(data@ =~= seq![0u8] + password.spec_bytes() + challenge@.subrange(0, j as int));
    }
    assert(pw@.subrange(0, pw@.len() as int) =~= pw@);
    assert(challenge@.subrange(0, challenge@.len() as int) =~= challenge@);
    data
}

/// The response word's value for a digest: `00` and the digest in lower-case hex.
pub fn response_from_digest(digest: &[u8]) -> (r: String)
    ensures
        r@ == "00"@ + hex_lower(digest@),
{
    let hex = hex_encode(digest);
    owned("00").concat(hex.as_str())
}

/// The challenge-response value for a password and a hex challenge, or `None` where the
/// challenge is no hex string.
pub fn challenge_response(password: &str, challenge_hex: &str) -> (r: Option<String>)
    ensures
        r matches Some(v) ==> hex_decoded(challenge_hex@) matches Some(c) && v@ == "00"@ + hex_lower(
            md5_of(seq![0u8] + password.spec_bytes() + c),
        ),
        r is None <==> hex_decoded(challenge_hex@) is None,
{
    match hex_decode(challenge_hex) {
        Some(challenge) => {
            let data = challenge_input(password, challenge.as_slice());
            let digest = md5_digest(data.as_slice());
            Some(response_from_digest(digest.as_slice()))
        },
        None => None,
    }
}

/// Whether a reply message reports a failed login.
pub open spec fn is_failure_message(m: Seq<char>) -> bool {
    contains_spec(m, "failure"@) || contains_spec(m, "invalid"@)
}

/// The first message among the rows that reports a failed login.
pub open spec fn login_failure(rows: Seq<Sentence>) -> Option<Seq<char>>
    decreases rows.len(),
{
    if rows.len() == 0 {
        None
    } else {
        match rows[0].get_spec("message"@) {
            Some(m) => if is_failure_message(m) {
                Some(m)
            } else {
                login_failure(rows.drop_first())
            },
            None => login_failure(rows.drop_first()),
        }
    }
}

/// The first message of the reply to a plaintext login that reports a failure
/// (`failure` or `invalid` in it), if any.
pub fn plain_login_failure(rows: &[Sentence]) -> (r: Option<String>)
    ensures
        r matches Some(m) ==> login_failure(rows@) == Some(m@),
        r is None <==> login_failure(rows@) is None,
{
    let mut i: usize = 0;
    assert(rows@.subrange(0, rows@.len() as int) =~= rows@);
    while i < rows.len()
        invariant
            i <= rows@.len(),
            login_failure(rows@) == login_failure(rows@.subrange(i as int, rows@.len() as int)),
        decreases rows@.len() - i,
    {
        let ghost rest = rows@.subrange(i as int, rows@.len() as int);
        assert(rest.drop_first() =~= rows@.subrange(i + 1, rows@.len() as int));
        assert(rest[0] == rows@[i as int]);
        match rows[i].get("message") {
            Some(m) => {
                if contains(m.as_str(), "failure") || contains(m.as_str(), "invalid") {
                    return Some(m.clone());
                }
            },
            None => {},
        }
        i += 1;
    }
    None
}

/// The challenge of a reply: the `ret` attribute of the last row that has one.
pub open spec fn challenge_of(rows: Seq<Sentence>) -> Option<Seq<char>>
    decreases rows.len(),
{
    if rows.len() == 0 {
        None
    } else {
        match rows.last().get_spec("ret"@) {
            Some(v) => Some(v),
            None => challenge_of(rows.drop_last()),
        }
    }
}

/// Reads the challenge from the reply to an empty login command.
pub fn find_challenge(rows: &[Sentence]) -> (r: Option<String>)
    ensures
        r matches Some(c) ==> challenge_of(rows@) == Some(c@),
        r is None <==> challenge_of(rows@) is None,
{
    let mut i: usize = rows.len();
    assert(rows@.subrange(0, i as int) =~= rows@);
    while i > 0
        invariant
            i <= rows@.len(),
            challenge_of(rows@) == challenge_of(rows@.subrange(0, i as int)),
        decreases i,
    {
        let ghost pre = rows@.subrange(0, i as int);
        assert(pre.drop_last() =~= rows@.subrange(0, i - 1));
        assert(pre.last() == rows@[i - 1]);
        match rows[i - 1].get("ret") {
            Some(v) => {
                return Some(v.clone());
            },
            None => {},
        }
        i -= 1;
    }
    None
}

/// An attribute word `=key=value`.
pub fn attribute_word(key: &str, value: &str) -> (r: String)
    ensures
        r@ == "="@ + key@ + "="@ + value@,
{
    owned("=").concat(key).concat("=").concat(value)
}

/// Where a login stands.
pub enum LoginPhase {
    /// The plaintext login was sent.
    Plain,
    /// The empty login that asks for a challenge was sent.
    Challenge,
    /// The challenge response was sent.
    Response,
    Finished,
}

/// What the caller does next.
pub enum LoginAction {
    /// Send these words as one sentence and hand back the reply.
    Send(Vec<String>),
    Succeeded,
    /// Both flows failed; the reason.
    Failed(String),
}

/// The login exchange with one device.
pub struct Login {
    pub user: String,
    pub password: String,
    pub phase: LoginPhase,
}

/// The response value for a password and a decoded challenge.
pub open spec fn response_value(password: Seq<char>, challenge: Seq<u8>) -> Seq<char> {
    "00"@ + hex_lower(md5_of(seq![0u8] + vstd::utf8::encode_utf8(password) + challenge))
}

/// The command words of a login: `/login`, then the attribute words.
pub open spec fn login_words(w: Seq<String>, attrs: Seq<(Seq<char>, Seq<char>)>) -> bool {
    &&& w.len() == attrs.len() + 1
    &&& w[0]@ == "/login"@
    &&& forall|i: int|
        0 <= i < attrs.len() ==> #[trigger] w[i + 1]@ == "="@ + attrs[i].0 + "="@ + attrs[i].1
}

impl Login {
    /// Starts a login: the first action is the plaintext login command.
    pub fn start(user: &str, password: &str) -> (r: (Login, LoginAction))
        ensures
            r.0.phase is Plain,
            r.0.user@ == user@,
            r.0.password@ == password@,
            r.1 matches LoginAction::Send(w) && login_words(
                w@,
                seq![("name"@, user@), ("password"@, password@)],
            ),
    {
        let mut words: Vec<String> = Vec::new();
        words.push(owned("/login"));
        words.push(attribute_word("name", user));
        words.push(attribute_word("password", password));
        (
            Login { user: owned(user), password: owned(password), phase: LoginPhase::Plain },
            LoginAction::Send(words),
        )
    }

    /// Takes the reply to the last command sent (`Err` for an error reply or a broken
    /// exchange). A plaintext login succeeds when the reply is no error and no reply
    /// message reports failure; otherwise the login turns to the challenge flow; the challenge flow fails on an error
    /// reply or a missing or malformed challenge, and succeeds once the response is
    /// taken without error.
    pub fn next(&mut self, reply: Result<Vec<Sentence>, String>) -> (r: LoginAction)
        ensures
            final(self).user == old(self).user,
            final(self).password == old(self).password,
            old(self).phase is Plain ==> if (reply matches Ok(rows) && login_failure(rows@) is None) {
                r is Succeeded && final(self).phase is Finished
            } else {
                (r matches LoginAction::Send(w) && login_words(w@, Seq::empty()))
                    && final(self).phase is Challenge
            },
            old(self).phase is Challenge ==> match reply {
                Ok(rows) => match challenge_of(rows@) {
                    Some(c) => match hex_decoded(c) {
                        Some(bytes) => (r matches LoginAction::Send(w) && login_words(
                            w@,
                            seq![
                                ("name"@, old(self).user@),
                                ("response"@, response_value(old(self).password@, bytes)),
                            ],
                        )) && final(self).phase is Response,
                        None => r is Failed && final(self).phase is Finished,
                    },
                    None => r is Failed && final(self).phase is Finished,
                },
                Err(_) => r is Failed && final(self).phase is Finished,
            },
            old(self).phase is Response ==> match reply {
                Ok(_) => r is Succeeded,
                Err(e) => r matches LoginAction::Failed(f) && f@ == e@,
            } && final(self).phase is Finished,
            old(self).phase is Finished ==> r is Failed && final(self).phase is Finished,
    {
        match self.phase {
            LoginPhase::Plain => {
                self.phase = LoginPhase::Finished;
                let refused = match reply {
                    Ok(rows) => plain_login_failure(rows.as_slice()).is_some(),
                    Err(_) => true,
                };
                if refused {
                    self.phase = LoginPhase::Challenge;
                    let mut words: Vec<String> = Vec::new();
                    words.push(owned("/login"));
                    LoginAction::Send(words)
                } else {
                    LoginAction::Succeeded
                }
            },
            LoginPhase::Challenge => {
                self.phase = LoginPhase::Finished;
                match reply {
                    Ok(rows) => match find_challenge(rows.as_slice()) {
                        Some(c) => match challenge_response(self.password.as_str(), c.as_str()) {
                            Some(resp) => {
                                self.phase = LoginPhase::Response;
                                let mut words: Vec<String> = Vec::new();
                                words.push(owned("/login"));
                                words.push(attribute_word("name", self.user.as_str()));
                                words.push(attribute_word("response", resp.as_str()));
                                LoginAction::Send(words)
                            },
                            None => LoginAction::Failed(owned("malformed login challenge")),
                        },
                        None => LoginAction::Failed(owned("no login challenge received")),
                    },
                    Err(e) => LoginAction::Failed(e),
                }
            },
            LoginPhase::Response => {
                self.phase = LoginPhase::Finished;
                match reply {
                    Ok(_) => LoginAction::Succeeded,
                    Err(e) => LoginAction::Failed(e),
                }
            },
            LoginPhase::Finished => LoginAction::Failed(owned("login already finished")),
        }
    }
}

} // verus!
