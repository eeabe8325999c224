//! Shell integration: a start-up directory of its own for every session, whose
//! `.zshrc` loads the hooks that write the markers and tells them the
//! session's secret.
//!
//! This module decides what is written and where. The host program touches
//! the file system.

use rand::Rng;
use vstd::prelude::*;
use vstd::utf8::{encode_utf8, is_ascii_chars, is_ascii_chars_encode_utf8};
use crate::bytes::free_of;
use crate::osc::{
    event_of_fields, fresh, kind_command_end, kind_command_start, marker_body, marker_bytes,
    MarkerFields, BEL, SEPARATOR,
};
use crate::osc_laws::{
    at_ground, events_of_chunks, lemma_split_marker_yields_one_event, state_after_chunks,
};
use crate::template::{replace_all, replace_all_bytes};

verus! {

/// The environment variable that tells the shell where its start-up files
/// are.
pub const ZDOTDIR_VARIABLE: &'static str = "ZDOTDIR";

/// The number of characters in a session secret.
pub const NONCE_LEN: usize = 32;

/// The start-up directory of one session and the secret that its hooks put
/// into every marker.
pub struct ZdotdirSetup {
    pub zdotdir_path: String,
    pub nonce: String,
}

/// An ASCII letter or digit.
pub open spec fn is_alphanumeric(c: char) -> bool {
    ('0' <= c <= '9') || ('A' <= c <= 'Z') || ('a' <= c <= 'z')
}

/// What a session secret looks like: `NONCE_LEN` ASCII letters and digits.
pub open spec fn is_nonce(text: Seq<char>) -> bool {
    &&& text.len() == NONCE_LEN
    &&& forall|i: int| 0 <= i < text.len() ==> is_alphanumeric(#[trigger] text[i])
}

/// The start-up directory of a session, below the root of all of them.
pub open spec fn zdotdir_path_of(zshrc_root: Seq<char>, session_id: Seq<char>) -> Seq<char> {
    zshrc_root + "/"@ + session_id
}

/// The template of the start-up file, beside the integration script.
pub open spec fn template_path_of(integration_path: Seq<char>) -> Seq<char> {
    integration_path + "/.zshrc.template"@
}

/// The start-up file in a start-up directory.
pub open spec fn zshrc_path_of(zdotdir_path: Seq<char>) -> Seq<char> {
    zdotdir_path + "/.zshrc"@
}

/// The start-up file: the template with the session id, the secret and the
/// integration path put in place of their placeholders, in this order.
pub open spec fn rendered(
    template: Seq<u8>,
    session_id: Seq<u8>,
    nonce: Seq<u8>,
    integration_path: Seq<u8>,
) -> Seq<u8> {
    let with_id = replace_all(template, encode_utf8("{{SESSION_ID}}"@), session_id);
    let with_nonce = replace_all(with_id, encode_utf8("{{NONCE}}"@), nonce);
    replace_all(with_nonce, encode_utf8("{{VIBE_INTEGRATION_PATH}}"@), integration_path)
}

/// `Rng::sample` of rand on the thread's generator, with the distribution
/// `Alphanumeric`. Claimed of it: the byte is an ASCII letter or digit. It
/// panics if the operating system gives the generator no seed.
#[verifier::external_body]
fn random_alphanumeric() -> (b: u8)
    ensures
        is_alphanumeric(b as char),
{
    rand::thread_rng().sample(rand::distributions::Alphanumeric)
}

/// `String::push` of std. Claimed of it: the character is appended.
#[verifier::external_body]
fn push_char(text: &mut String, c: char)
    ensures
        final(text)@ == old(text)@.push(c),
{
    text.push(c)
}

/// The text that ASCII bytes spell: one character for each byte.
pub open spec fn text_of(bytes: Seq<u8>) -> Seq<char> {
    Seq::new(bytes.len(), |i: int| bytes[i] as char)
}

/// The text that the given bytes spell, each byte taken as one character.
pub fn text_from_bytes(bytes: &[u8]) -> (text: String)
    ensures
        text@ == text_of(bytes@),
{
    let mut text = String::new();
    let mut i: usize = 0;
    while i < bytes.len()
        invariant
            i <= bytes.len(),
            text@ == text_of(bytes@.take(i as int)),
        decreases bytes.len() - i,
    {
        push_char(&mut text, bytes[i] as char);
        assert(text@ =~= text_of(bytes@.take(i + 1)));
        i = i + 1;
    }
    assert(bytes@.take(bytes.len() as int) =~= bytes@);
    text
}

/// A fresh session secret: `NONCE_LEN` letters and digits, each drawn at
/// random.
pub fn generate_nonce() -> (nonce: String)
    ensures
        is_nonce(nonce@),
{
    let mut drawn: Vec<u8> = Vec::new();
    while drawn.len() < NONCE_LEN
        invariant
            drawn.len() <= NONCE_LEN,
            forall|j: int| 0 <= j < drawn.len() ==> is_alphanumeric(#[trigger] drawn@[j] as char),
        decreases NONCE_LEN - drawn.len(),
    {
        let b = random_alphanumeric();
        drawn.push(b);
    }
    let nonce = text_from_bytes(drawn.as_slice());
    assert forall|j: int| 0 <= j < nonce@.len() implies is_alphanumeric(#[trigger] nonce@[j]) by {
        assert(nonce@[j] == drawn@[j] as char);
    }
    nonce
}

/// Where the shell integration keeps its files.
pub struct Provisioner {
    /// The directory below which every session gets a start-up directory.
    pub zshrc_root: String,
    /// The directory of the integration script and of the template.
    pub integration_path: String,
}

/// What provisioning a session comes to: the session's setup and the files
/// involved.
pub struct Provision {
    pub setup: ZdotdirSetup,
    /// The directory of the integration script, which the start-up file names.
    pub integration_path: String,
    /// The template to read.
    pub template_path: String,
    /// The start-up file to write.
    pub zshrc_path: String,
}

/// `base` followed by `rest`.
fn join(base: &str, rest: &str) -> (path: String)
    ensures
        path@ == base@ + rest@,
{
    let mut path = base.to_owned();
    path.append(rest);
    path
}

impl Provisioner {
    /// A provisioner that keeps its files in the two directories given.
    pub fn new(zshrc_root: String, integration_path: String) -> (provisioner: Provisioner)
        ensures
            provisioner.zshrc_root == zshrc_root,
            provisioner.integration_path == integration_path,
    {
        Provisioner { zshrc_root, integration_path }
    }

    /// The provisioner of a user: start-up directories go below
    /// `.vibecodings/zshrc` in the home directory, and the integration is
    /// looked for in `vibe-terminal/shell-integration` there.
    pub fn under_home(home: &str) -> (provisioner: Provisioner)
        ensures
            provisioner.zshrc_root@ == home@ + "/.vibecodings/zshrc"@,
            provisioner.integration_path@ == home@ + "/vibe-terminal/shell-integration"@,
    {
        Provisioner {
            zshrc_root: join(home, "/.vibecodings/zshrc"),
            integration_path: join(home, "/vibe-terminal/shell-integration"),
        }
    }

    /// Plans the shell integration of a session: draws its secret and names
    /// its directory and its files.
    pub fn plan(&self, session_id: &str) -> (provision: Provision)
        ensures
            is_nonce(provision.setup.nonce@),
            provision.setup.zdotdir_path@ == zdotdir_path_of(self.zshrc_root@, session_id@),
            provision.integration_path@ == self.integration_path@,
            provision.template_path@ == template_path_of(self.integration_path@),
            provision.zshrc_path@ == zshrc_path_of(provision.setup.zdotdir_path@),
    {
        let nonce = generate_nonce();
        let session_root = join(self.zshrc_root.as_str(), "/");
        let zdotdir_path = join(session_root.as_str(), session_id);
        let integration_path = self.integration_path.clone();
        let template_path = join(integration_path.as_str(), "/.zshrc.template");
        let zshrc_path = join(zdotdir_path.as_str(), "/.zshrc");
        Provision {
            setup: ZdotdirSetup { zdotdir_path, nonce },
            integration_path,
            template_path,
            zshrc_path,
        }
    }
}

/// Renders the start-up file of a session from the template, as the bytes to
/// write.
pub fn render_zshrc(template: &str, session_id: &str, nonce: &str, integration_path: &str) -> (content:
    Vec<u8>)
    ensures
        content@ == rendered(
            encode_utf8(template@),
            encode_utf8(session_id@),
            encode_utf8(nonce@),
            encode_utf8(integration_path@),
        ),
{
    let with_id = replace_all_bytes(
        template.as_bytes(),
        "{{SESSION_ID}}".as_bytes(),
        session_id.as_bytes(),
    );
    let with_nonce = replace_all_bytes(with_id.as_slice(), "{{NONCE}}".as_bytes(), nonce.as_bytes());
    replace_all_bytes(
        with_nonce.as_slice(),
        "{{VIBE_INTEGRATION_PATH}}".as_bytes(),
        integration_path.as_bytes(),
    )
}

/// Sessions do not share a directory: below one root, different session ids
/// give different start-up directories, and different start-up files.
pub proof fn lemma_directories_are_distinct(
    zshrc_root: Seq<char>,
    first: Seq<char>,
    second: Seq<char>,
)
    requires
        first != second,
    ensures
        zdotdir_path_of(zshrc_root, first) != zdotdir_path_of(zshrc_root, second),
        zshrc_path_of(zdotdir_path_of(zshrc_root, first)) != zshrc_path_of(
            zdotdir_path_of(zshrc_root, second),
        ),
{
    let root = zshrc_root + "/"@;
    let file = "/.zshrc"@;
    let a = root + first;
    let b = root + second;
    if a == b {
        assert(a.skip(root.len() as int) =~= first);
        assert(b.skip(root.len() as int) =~= second);
    }
    if a + file == b + file {
        assert((a + file).len() == (b + file).len());
        assert((a + file).subrange(0, a.len() as int) =~= a);
        assert((b + file).subrange(0, b.len() as int) =~= b);
    }
}

/// A session secret, as the bytes that a marker carries, is `NONCE_LEN` bytes
/// long and holds neither the separator nor the lead-out: no byte of it can be
/// taken for the end of a field or of a marker.
pub proof fn lemma_nonce_bytes(nonce: Seq<char>)
    requires
        is_nonce(nonce),
    ensures
        encode_utf8(nonce).len() == NONCE_LEN,
        free_of(encode_utf8(nonce), SEPARATOR),
        free_of(encode_utf8(nonce), BEL),
{
    assert(is_ascii_chars(nonce)) by {
        assert forall|i: int| 0 <= i < nonce.len() implies '\0' <= #[trigger] nonce[i]
            <= '\u{7f}' by {
            assert(is_alphanumeric(nonce[i]));
        }
    }
    is_ascii_chars_encode_utf8(nonce);
    let bytes = encode_utf8(nonce);
    assert forall|i: int| 0 <= i < bytes.len() implies bytes[i] != SEPARATOR && bytes[i]
        != BEL by {
        assert(is_alphanumeric(nonce[i]));
        assert(nonce[i] as u8 == bytes[i]);
    }
}

/// The shell is heard: a marker of either kind that carries the session's
/// secret, with a payload that holds no lead-out and a body within the limit,
/// yields exactly its event from a parser made with that secret, however the
/// marker is cut into chunks.
pub proof fn lemma_session_marker_is_heard(
    nonce: Seq<char>,
    limit: nat,
    kind: Seq<u8>,
    payload: Seq<u8>,
    chunks: Seq<Seq<u8>>,
)
    requires
        is_nonce(nonce),
        kind == kind_command_start() || kind == kind_command_end(),
        free_of(payload, BEL),
        kind.len() + NONCE_LEN + payload.len() + 2 <= limit,
        chunks.flatten() == marker_bytes(
            MarkerFields { kind, secret: encode_utf8(nonce), payload },
        ),
    ensures
        event_of_fields(MarkerFields { kind, secret: encode_utf8(nonce), payload }) is Some,
        events_of_chunks(fresh(encode_utf8(nonce), limit), chunks) == seq![
            event_of_fields(MarkerFields { kind, secret: encode_utf8(nonce), payload })->0,
        ],
        state_after_chunks(fresh(encode_utf8(nonce), limit), chunks) == fresh(
            encode_utf8(nonce),
            limit,
        ),
{
    let secret = encode_utf8(nonce);
    let fields = MarkerFields { kind, secret, payload };
    let body = marker_body(fields);
    lemma_nonce_bytes(nonce);
    assert(free_of(kind_command_start(), BEL));
    assert(free_of(kind_command_end(), BEL));
    assert forall|i: int| 0 <= i < body.len() implies body[i] != BEL by {
        if i < kind.len() {
            assert(body[i] == kind[i]);
        } else if i == kind.len() {
        } else if i < kind.len() + 1 + secret.len() {
            assert(body[i] == secret[i - kind.len() - 1]);
        } else if i == kind.len() + 1 + secret.len() {
        } else {
            assert(body[i] == payload[i - kind.len() - secret.len() - 2]);
        }
    }
    lemma_split_marker_yields_one_event(fresh(secret, limit), fields, chunks);
    assert(at_ground(fresh(secret, limit)) == fresh(secret, limit));
}

} // verus!
