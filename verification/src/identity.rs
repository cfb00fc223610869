use age::secrecy::ExposeSecret;
use vstd::prelude::*;

use crate::text::{trim, trim_bounds};

verus! {

// ---------------------------------------------------------------------------
// The age calls, behind trusted wrappers.  An identity is carried through the
// library as its text form (`AGE-SECRET-KEY-1...`), the form the key file
// holds; each wrapper turns that text back into an `age::x25519::Identity`.
// ---------------------------------------------------------------------------

/// Whether `age::x25519::Identity::from_str` accepts `text`.
pub uninterp spec fn age_identity_accepts(text: Seq<char>) -> bool;

/// The text (`Display`) of `Identity::to_public` for the identity that
/// `text` parses to.
pub uninterp spec fn age_recipient_text(text: Seq<char>) -> Seq<char>;

/// What `age::decrypt` gives back for `ciphertext` under the identity that
/// `text` parses to: the plaintext, or `None` where it returns an error.
pub uninterp spec fn age_decrypt_result(text: Seq<char>, ciphertext: Seq<u8>) -> Option<Seq<u8>>;

#[verifier::external_type_specification]
#[verifier::external_body]
pub struct ExDecryptError(age::DecryptError);

#[verifier::external_type_specification]
#[verifier::external_body]
pub struct ExEncryptError(age::EncryptError);

/// A character of a secret key's text: an ASCII capital, a digit, or `-`.
pub open spec fn is_key_char(c: char) -> bool {
    ('A' <= c <= 'Z') || ('0' <= c <= '9') || c == '-'
}

/// A character of a recipient's text: an ASCII small letter or a digit.
pub open spec fn is_recipient_char(c: char) -> bool {
    ('a' <= c <= 'z') || ('0' <= c <= '9')
}

/// Calls `age::x25519::Identity::from_str` on `text`.  Trusted: that the
/// result is `Ok` exactly when the name `age_identity_accepts` says so; the
/// parsed identity is dropped, and the error is age's own message.
#[verifier::external_body]
fn parse_age_identity(text: &str) -> (r: Result<(), &'static str>)
    ensures
        r is Ok <==> age_identity_accepts(text@),
{
    match text.parse::<age::x25519::Identity>() {
        Ok(_) => Ok(()),
        Err(e) => Err(e),
    }
}

/// Calls `age::x25519::Identity::generate`, then `Identity::to_string` and
/// `ExposeSecret::expose_secret` for its text.  Trusted: the text is not
/// empty, is made of ASCII capitals, digits and `-` (age writes it as upper
/// case Bech32 with the prefix `AGE-SECRET-KEY-`), and `Identity::from_str`
/// accepts it.  Which key comes out is left open: it is random.
#[verifier::external_body]
fn generate_age_identity() -> (text: String)
    ensures
        text@.len() > 0,
        forall|i: int| 0 <= i < text@.len() ==> is_key_char(#[trigger] text@[i]),
        age_identity_accepts(text@),
{
    age::x25519::Identity::generate().to_string().expose_secret().to_string()
}

/// Calls `Identity::to_public` on the identity that `identity` parses to
/// and formats the recipient.  Trusted: the result is the name
/// `age_recipient_text` of the argument, and is made of ASCII small letters
/// and digits (lower case Bech32 with the prefix `age`).
#[verifier::external_body]
fn age_recipient(identity: &str) -> (r: String)
    requires
        age_identity_accepts(identity@),
    ensures
        r@ == age_recipient_text(identity@),
        forall|i: int| 0 <= i < r@.len() ==> is_recipient_char(#[trigger] r@[i]),
{
    match identity.parse::<age::x25519::Identity>() {
        Ok(id) => id.to_public().to_string(),
        Err(_) => String::new(),
    }
}

/// Calls `age::decrypt` with the identity that `identity` parses to.
/// Trusted: `Ok` carries exactly the plaintext named by
/// `age_decrypt_result`, and `Err` comes exactly where that name is `None`.
/// Which `DecryptError` comes is left unsaid.
#[verifier::external_body]
pub(crate) fn age_decrypt(identity: &str, ciphertext: &[u8]) -> (r: Result<Vec<u8>, age::DecryptError>)
    requires
        age_identity_accepts(identity@),
    ensures
        match r {
            Ok(p) => age_decrypt_result(identity@, ciphertext@) == Some(p@),
            Err(_) => age_decrypt_result(identity@, ciphertext@) is None,
        },
{
    match identity.parse::<age::x25519::Identity>() {
        Ok(id) => age::decrypt(&id, ciphertext),
        Err(_) => Err(age::DecryptError::NoMatchingKeys),
    }
}

/// Calls `age::encrypt` to the recipient of the identity that `identity`
/// parses to.  Trusted: it succeeds (for one x25519 recipient age wraps the
/// file key without error and writes into a `Vec`, which cannot fail), and
/// the ciphertext decrypts, under that identity, to `plaintext` (age: "files
/// encrypted to this recipient can be decrypted with the corresponding
/// identity").  The ciphertext itself is random.
#[verifier::external_body]
pub(crate) fn age_encrypt(identity: &str, plaintext: &[u8]) -> (r: Result<Vec<u8>, age::EncryptError>)
    requires
        age_identity_accepts(identity@),
    ensures
        r is Ok,
        r matches Ok(c) ==> age_decrypt_result(identity@, c@) == Some(plaintext@),
{
    match identity.parse::<age::x25519::Identity>() {
        Ok(id) => age::encrypt(&id.to_public(), plaintext),
        Err(_) => Err(age::EncryptError::MissingRecipients),
    }
}

/// An age identity (secret key), held as its text.  Only text that age
/// accepts as an identity makes one.
pub struct Identity {
    text: String,
}

impl View for Identity {
    type V = Seq<char>;

    closed spec fn view(&self) -> Seq<char> {
        self.text@
    }
}

impl Identity {
    #[verifier::type_invariant]
    closed spec fn accepted(self) -> bool {
        age_identity_accepts(self.text@)
    }

    /// The identity's text, which age accepts.
    pub fn as_str(&self) -> (s: &str)
        ensures
            s@ == self@,
            age_identity_accepts(self@),
    {
        proof {
            use_type_invariant(self);
        }
        self.text.as_str()
    }
}

// ---------------------------------------------------------------------------
// The key file.
// ---------------------------------------------------------------------------

/// The index of the first `'\n'` at or after `i`, or the length of `s`.
pub open spec fn line_end(s: Seq<char>, i: int) -> int
    decreases s.len() - i,
{
    if i >= s.len() {
        s.len() as int
    } else if s[i] == '\n' {
        i
    } else {
        line_end(s, i + 1)
    }
}

/// The line that starts at `i`, without its terminator: `str::lines` ends a
/// line at `'\n'` and drops a `'\r'` just before it.
pub open spec fn line_at(s: Seq<char>, i: int) -> Seq<char> {
    let e = line_end(s, i);
    if e < s.len() && e > i && s[e - 1] == '\r' {
        s.subrange(i, e - 1)
    } else {
        s.subrange(i, e)
    }
}

/// A line that holds the key: not blank, and not a `#` comment.
pub open spec fn is_key_line(line: Seq<char>) -> bool {
    trim(line).len() > 0 && !(line.len() > 0 && line[0] == '#')
}

pub proof fn lemma_line_end_bounds(s: Seq<char>, i: int)
    requires
        0 <= i <= s.len(),
    ensures
        i <= line_end(s, i) <= s.len(),
    decreases s.len() - i,
{
    if i < s.len() && s[i] != '\n' {
        lemma_line_end_bounds(s, i + 1);
    }
}

/// The trimmed text of the first key line at or after position `i`.
pub open spec fn key_line_from(s: Seq<char>, i: int) -> Option<Seq<char>>
    decreases s.len() - i,
{
    if i < 0 || i >= s.len() {
        None
    } else {
        let line = line_at(s, i);
        if is_key_line(line) {
            Some(trim(line))
        } else {
            let e = line_end(s, i);
            if e >= s.len() {
                None
            } else {
                proof {
                    lemma_line_end_bounds(s, i);
                }
                key_line_from(s, e + 1)
            }
        }
    }
}

/// The key of a key file: the first line that is neither blank nor a `#`
/// comment, trimmed.
pub open spec fn key_line(contents: Seq<char>) -> Option<Seq<char>> {
    key_line_from(contents, 0)
}

/// The first line of a key file.
pub open spec fn key_file_header() -> Seq<char> {
    "# pw private key - keep this secret\n# public key: "@
}

/// What a new key file holds: two comment lines, the second naming the
/// public key, then the secret key on a line of its own.
pub open spec fn key_file_text(recipient: Seq<char>, secret: Seq<char>) -> Seq<char> {
    key_file_header() + recipient + "\n"@ + secret + "\n"@
}

/// Why a key file could not be read.
#[derive(Debug)]
pub enum IdentityError {
    /// Every line is blank or a `#` comment.
    NoKey,
    /// The key line is not an age identity; age's message.
    Invalid(&'static str),
}

/// Finds the end of the line that starts at `i`.
fn find_line_end(s: &str, len: usize, i: usize) -> (e: usize)
    requires
        len == s@.len(),
        i <= len,
    ensures
        e == line_end(s@, i as int),
        i <= e <= len,
{
    let mut e = i;
    while e < len && s.get_char(e) != '\n'
        invariant
            len == s@.len(),
            i <= e <= len,
            line_end(s@, i as int) == line_end(s@, e as int),
        decreases len - e,
    {
        e = e + 1;
    }
    e
}

/// The bounds of the trimmed key line of `contents`, if it has one.
fn find_key_line(contents: &str) -> (r: Option<(usize, usize)>)
    ensures
        match key_line(contents@) {
            None => r is None,
            Some(k) => r matches Some((a, b)) && a <= b <= contents@.len()
                && contents@.subrange(a as int, b as int) == k,
        },
{
    let len = contents.unicode_len();
    let ghost s = contents@;
    let mut i: usize = 0;
    while i < len
        invariant
            len == s.len(),
            s == contents@,
            i <= len,
            key_line(s) == key_line_from(s, i as int),
        decreases len - i,
    {
        let e = find_line_end(contents, len, i);
        let le = if e < len && e > i && contents.get_char(e - 1) == '\r' {
            e - 1
        } else {
            e
        };
        assert(line_at(s, i as int) == s.subrange(i as int, le as int));
        let (a, b) = trim_bounds(contents, i, le);
        if a < b && !(le > i && contents.get_char(i) == '#') {
            return Some((a, b));
        }
        if e == len {
            return None;
        }
        i = e + 1;
    }
    None
}

/// The identity of a key file's contents: the first line that is neither
/// blank nor a `#` comment, trimmed, which age must accept as an identity.
pub fn parse_identity_file(contents: &str) -> (r: Result<Identity, IdentityError>)
    ensures
        match key_line(contents@) {
            None => r matches Err(IdentityError::NoKey),
            Some(k) => if age_identity_accepts(k) {
                r matches Ok(identity) && identity@ == k
            } else {
                r matches Err(IdentityError::Invalid(_))
            },
        },
{
    match find_key_line(contents) {
        None => Err(IdentityError::NoKey),
        Some((a, b)) => {
            let key = String::from_str(contents.substring_char(a, b));
            match parse_age_identity(key.as_str()) {
                Ok(()) => Ok(Identity { text: key }),
                Err(e) => Err(IdentityError::Invalid(e)),
            }
        },
    }
}

/// The text of a new key file for the secret key `secret`, whose public key
/// is `recipient`.
pub fn key_file_contents(recipient: &str, secret: &str) -> (text: String)
    ensures
        text@ == key_file_text(recipient@, secret@),
{
    let mut text = String::from_str("# pw private key - keep this secret\n# public key: ");
    text.append(recipient);
    text.append("\n");
    text.append(secret);
    text.append("\n");
    text
}

} // verus!

verus! {

proof fn lemma_line_end_at(s: Seq<char>, i: int, j: int)
    requires
        0 <= i <= j <= s.len(),
        forall|k: int| i <= k < j ==> s[k] != '\n',
        j == s.len() || s[j] == '\n',
    ensures
        line_end(s, i) == j,
    decreases j - i,
{
    if i < j {
        lemma_line_end_at(s, i + 1, j);
    }
}

proof fn lemma_no_whitespace_trim(x: Seq<char>)
    requires
        forall|k: int| 0 <= k < x.len() ==> !crate::text::is_whitespace(#[trigger] x[k]),
    ensures
        trim(x) == x,
{
    crate::text::lemma_trim_start_skip(x, 0);
    assert(x.skip(0) == x);
    crate::text::lemma_trim_end_take(x, x.len() as int);
    assert(x.take(x.len() as int) == x);
}

/// A key file written for a secret key gives that key back: its key line is
/// the secret, provided the public key holds no line break and the secret is
/// a non-empty run of non-whitespace that does not start with `#`.
pub proof fn lemma_key_file_gives_back_key(recipient: Seq<char>, secret: Seq<char>)
    requires
        forall|k: int| 0 <= k < recipient.len() ==> #[trigger] recipient[k] != '\n',
        secret.len() > 0,
        secret[0] != '#',
        forall|k: int| 0 <= k < secret.len() ==> !crate::text::is_whitespace(#[trigger] secret[k]),
    ensures
        key_line(key_file_text(recipient, secret)) == Some(secret),
{
    reveal_strlit("# pw private key - keep this secret\n# public key: ");
    reveal_strlit("\n");
    let h = key_file_header();
    let s = key_file_text(recipient, secret);
    assert(h.len() == 50);
    let e1 = 35int;
    let e2: int = 50 + recipient.len() as int;
    let e3: int = e2 + 1 + secret.len();
    assert(s.len() == e3 + 1);
    assert forall|k: int| 0 <= k < e1 implies s[k] != '\n' by {
        assert(s[k] == h[k]);
    }
    assert(s[e1] == '\n');
    lemma_line_end_at(s, 0, e1);
    assert(s[0] == '#');
    assert(line_at(s, 0)[0] == '#');
    assert forall|k: int| e1 + 1 <= k < e2 implies s[k] != '\n' by {
        if k < 50 {
            assert(s[k] == h[k]);
        } else {
            assert(s[k] == recipient[k - 50]);
        }
    }
    assert(s[e2] == '\n');
    lemma_line_end_at(s, e1 + 1, e2);
    assert(s[e1 + 1] == '#');
    assert(line_at(s, e1 + 1)[0] == '#');
    assert forall|k: int| e2 + 1 <= k < e3 implies s[k] != '\n' by {
        assert(s[k] == secret[k - e2 - 1]);
    }
    assert(s[e3] == '\n');
    lemma_line_end_at(s, e2 + 1, e3);
    assert(s[e3 - 1] == secret[secret.len() - 1]);
    assert(s[e3 - 1] != '\r');
    assert(line_at(s, e2 + 1) =~= secret);
    lemma_no_whitespace_trim(secret);
    assert(key_line_from(s, e2 + 1) == Some(secret));
    assert(key_line_from(s, e1 + 1) == Some(secret));
}

} // verus!

verus! {

/// A freshly generated identity: its secret key, its public key, and the
/// text of the key file that stores it.
pub struct NewIdentity {
    pub identity: Identity,
    pub recipient: String,
    pub file_contents: String,
}

/// Generates a new identity and the key file for it.  Reading that file back
/// gives the same key.
pub fn generate_identity() -> (r: NewIdentity)
    ensures
        age_identity_accepts(r.identity@),
        r.recipient@ == age_recipient_text(r.identity@),
        r.file_contents@ == key_file_text(r.recipient@, r.identity@),
        key_line(r.file_contents@) == Some(r.identity@),
{
    let key = generate_age_identity();
    let recipient = age_recipient(key.as_str());
    let file_contents = key_file_contents(recipient.as_str(), key.as_str());
    proof {
        assert forall|k: int| 0 <= k < recipient@.len() implies #[trigger] recipient@[k] != '\n' by {
            assert(is_recipient_char(recipient@[k]));
        }
        assert forall|k: int| 0 <= k < key@.len() implies !crate::text::is_whitespace(
            #[trigger] key@[k],
        ) by {
            assert(is_key_char(key@[k]));
        }
        assert(is_key_char(key@[0]));
        lemma_key_file_gives_back_key(recipient@, key@);
    }
    NewIdentity { identity: Identity { text: key }, recipient, file_contents }
}

} // verus!
