//! Who may connect: the credentials that a client sends, and what they are held against.

use vstd::prelude::*;

use crate::protocol::frame;
use crate::protocol::frame::parse_extensions;
use crate::protocol::types;
use crate::protocol::types::{ExtensionEntry, ExtensionView, WISP_HEADER_SIZE};
use crate::server::config::{ConfigView, ServerConfig};
use crate::text::{has_prefix, same_text, text_of_utf8};

verus! {

/// The extension of the client's INFO packet that carries its credentials.
pub const AUTH_EXTENSION: u8 = 0x02;

/// A hash of the usual cost that no one has the password of.
pub const DUMMY_HASH: &'static str = "$2b$12$LJ3m4ys3Lg7Eqhvlfn.JduGDBWCR0FDVcnXlMBGqpYqnqYfHJBCam";

// ---------------------------------------------------------------------------------------
// Outside calls
// ---------------------------------------------------------------------------------------

#[verifier::external_type_specification]
#[verifier::external_body]
pub struct ExBcryptError(bcrypt::BcryptError);

/// Whether a password is the one that a bcrypt hash was made of, if the hash is one.
pub uninterp spec fn bcrypt_verdict(password: Seq<char>, hash: Seq<char>) -> Option<bool>;

/// `bcrypt::verify`: whether a password is the one that a hash was made of, or an error if the
/// hash is none. It depends on the two texts alone.
#[verifier::external_body]
fn bcrypt_verify(password: &str, hash: &str) -> (r: Result<bool, bcrypt::BcryptError>)
    ensures
        match r {
            Ok(same) => bcrypt_verdict(password@, hash@) == Some(same),
            Err(_) => bcrypt_verdict(password@, hash@) is None,
        },
{
    bcrypt::verify(password, hash)
}

/// `subtle::ConstantTimeEq::ct_eq` on bytes: whether two runs of bytes are the same, in a time
/// that does not tell where they differ.
#[verifier::external_body]
fn same_bytes(a: &[u8], b: &[u8]) -> (r: bool)
    ensures
        r == (a@ == b@),
{
    subtle::ConstantTimeEq::ct_eq(a, b).into()
}

// ---------------------------------------------------------------------------------------
// What credentials mean
// ---------------------------------------------------------------------------------------

/// What a client's credentials are held against.
#[derive(Debug)]
pub enum Credential<'a> {
    /// A password, and what is stored for the user.
    User { password: &'a [u8], stored: &'a str },
    /// A name that no user has.
    UnknownUser,
    /// Credentials, and what is stored for the one user that there is.
    Single { payload: &'a [u8], stored: &'a str },
    /// Nothing.
    Nothing,
}

/// What a client's credentials are held against, as a mathematical value.
#[verifier::ext_equal]
pub enum CredentialView {
    User { password: Seq<u8>, stored: Seq<char> },
    UnknownUser,
    Single { payload: Seq<u8>, stored: Seq<char> },
    Nothing,
}

impl<'a> View for Credential<'a> {
    type V = CredentialView;

    open spec fn view(&self) -> CredentialView {
        match *self {
            Credential::User { password, stored } => CredentialView::User {
                password: password@,
                stored: stored@,
            },
            Credential::UnknownUser => CredentialView::UnknownUser,
            Credential::Single { payload, stored } => CredentialView::Single {
                payload: payload@,
                stored: stored@,
            },
            Credential::Nothing => CredentialView::Nothing,
        }
    }
}

/// Credentials in full form: the length of a name, the name, and a password of at least one
/// byte.
pub open spec fn name_and_password(payload: Seq<u8>) -> Option<(Seq<u8>, Seq<u8>)> {
    if payload.len() >= 2 && payload.len() >= 1 + payload[0] + 1 {
        let end = 1 + payload[0];
        Some((payload.subrange(1, end), payload.skip(end)))
    } else {
        None
    }
}

/// What credentials are held against. Where users are listed, credentials in full form are held
/// against the user they name, and any others are the password of the user "default". Where
/// none are listed, the server's password makes "default" the one user there is.
pub open spec fn credential_of(payload: Seq<u8>, config: ConfigView) -> CredentialView {
    let users = config.auth_users;
    if !users.is_empty() {
        match name_and_password(payload) {
            Some((name, password)) => if !vstd::utf8::valid_utf8(name) {
                CredentialView::Nothing
            } else if users.contains_key(vstd::utf8::decode_utf8(name)) {
                CredentialView::User {
                    password,
                    stored: users[vstd::utf8::decode_utf8(name)]@,
                }
            } else {
                CredentialView::UnknownUser
            },
            None => if users.contains_key("default"@) {
                CredentialView::User { password: payload, stored: users["default"@]@ }
            } else {
                CredentialView::Nothing
            },
        }
    } else {
        match config.auth_password {
            Some(stored) => CredentialView::Single { payload, stored },
            None => CredentialView::Nothing,
        }
    }
}

/// Whether a stored password is a bcrypt hash.
pub open spec fn is_hash(stored: Seq<char>) -> bool {
    "$2b$"@.is_prefix_of(stored) || "$2a$"@.is_prefix_of(stored)
}

/// Whether a password fits what is stored, given what bcrypt says of the two. A password must
/// be text.
pub open spec fn password_fits(
    password: Seq<u8>,
    stored: Seq<char>,
    verdict: Option<bool>,
) -> bool {
    &&& vstd::utf8::valid_utf8(password)
    &&& if is_hash(stored) {
        verdict == Some(true)
    } else {
        password == vstd::utf8::encode_utf8(stored)
    }
}

/// Whether a password is the one that is stored.
pub open spec fn password_ok(password: Seq<u8>, stored: Seq<char>) -> bool {
    password_fits(
        password,
        stored,
        bcrypt_verdict(vstd::utf8::decode_utf8(password), stored),
    )
}

/// Whether credentials fit the one user that there is: as its password, or in full form with the
/// name "default".
pub open spec fn single_ok(payload: Seq<u8>, stored: Seq<char>) -> bool {
    password_ok(payload, stored) || {
        &&& name_and_password(payload) matches Some((name, password))
        &&& vstd::utf8::valid_utf8(name)
        &&& vstd::utf8::decode_utf8(name) == "default"@
        &&& password_ok(password, stored)
    }
}

/// Whether credentials let a client in.
pub open spec fn auth_ok(payload: Seq<u8>, config: ConfigView) -> bool {
    match credential_of(payload, config) {
        CredentialView::User { password, stored } => password_ok(password, stored),
        CredentialView::UnknownUser => false,
        CredentialView::Single { payload, stored } => single_ok(payload, stored),
        CredentialView::Nothing => false,
    }
}

/// The extensions of a client's INFO packet.
pub open spec fn client_extensions(packet: Seq<u8>) -> Seq<ExtensionView> {
    if packet.len() <= WISP_HEADER_SIZE + 2 {
        seq![]
    } else {
        frame::extensions_of(packet.skip(WISP_HEADER_SIZE + 2))
    }
}

/// The credentials among some extensions: the first that carries any.
pub open spec fn credentials_in(extensions: Seq<ExtensionView>) -> Option<Seq<u8>>
    decreases extensions.len(),
{
    if extensions.len() == 0 {
        None
    } else if extensions[0].id == AUTH_EXTENSION {
        Some(extensions[0].payload)
    } else {
        credentials_in(extensions.skip(1))
    }
}

/// Whether an INFO packet lets a client in.
pub open spec fn info_lets_in(packet: Seq<u8>, config: ConfigView) -> bool {
    credentials_in(client_extensions(packet)) matches Some(payload) && auth_ok(payload, config)
}

// ---------------------------------------------------------------------------------------
// Checking
// ---------------------------------------------------------------------------------------

/// Whether a stored password is a bcrypt hash.
pub fn is_bcrypt_hash(stored: &str) -> (r: bool)
    ensures
        r == is_hash(stored@),
{
    has_prefix(stored, "$2b$") || has_prefix(stored, "$2a$")
}

/// Parts credentials in full form into a name and a password.
fn split_credentials(payload: &[u8]) -> (r: Option<(&[u8], &[u8])>)
    ensures
        match r {
            Some((name, password)) => name_and_password(payload@) == Some((name@, password@)),
            None => name_and_password(payload@) is None,
        },
{
    if payload.len() < 2 {
        return None;
    }
    let end: usize = 1 + payload[0] as usize;
    if payload.len() < end + 1 {
        return None;
    }
    let name = vstd::slice::slice_subrange(payload, 1, end);
    let password = vstd::slice::slice_subrange(payload, end, payload.len());
    proof {
        assert(password@ == payload@.skip(end as int));
    }
    Some((name, password))
}

/// Finds out what a client's credentials are to be held against.
pub fn select_credential<'a>(auth_payload: &'a [u8], config: &'a ServerConfig) -> (r: Credential<
    'a,
>)
    ensures
        r@ == credential_of(auth_payload@, config@),
{
    if !config.auth_users.is_empty() {
        return match split_credentials(auth_payload) {
            Some((name, password)) => match text_of_utf8(name) {
                Some(username) => {
                    proof {
                        vstd::utf8::encode_utf8_decode_utf8(username@);
                    }
                    match config.auth_users.get(username) {
                        Some(stored) => Credential::User { password, stored: stored.as_str() },
                        None => Credential::UnknownUser,
                    }
                },
                None => Credential::Nothing,
            },
            None => match config.auth_users.get("default") {
                Some(stored) => Credential::User {
                    password: auth_payload,
                    stored: stored.as_str(),
                },
                None => Credential::Nothing,
            },
        };
    }
    match &config.auth_password {
        Some(stored) => Credential::Single { payload: auth_payload, stored: stored.as_str() },
        None => Credential::Nothing,
    }
}

/// Judges a password, given what bcrypt says of it and of what is stored.
pub fn judge_password(password_bytes: &[u8], stored: &str, verdict: Option<bool>) -> (r: bool)
    ensures
        r == password_fits(password_bytes@, stored@, verdict),
{
    if text_of_utf8(password_bytes).is_none() {
        return false;
    }
    if is_bcrypt_hash(stored) {
        return match verdict {
            Some(same) => same,
            None => false,
        };
    }
    same_bytes(password_bytes, stored.as_bytes())
}

/// Whether a password is the one that is stored, as a bcrypt hash or as it is.
pub fn verify_password(password_bytes: &[u8], stored: &str) -> (r: bool)
    ensures
        r == password_ok(password_bytes@, stored@),
{
    match text_of_utf8(password_bytes) {
        Some(password) => {
            proof {
                vstd::utf8::encode_utf8_decode_utf8(password@);
            }
            let verdict = if is_bcrypt_hash(stored) {
                match bcrypt_verify(password, stored) {
                    Ok(same) => Some(same),
                    Err(_) => None,
                }
            } else {
                None
            };
            judge_password(password_bytes, stored, verdict)
        },
        None => false,
    }
}

/// Whether credentials fit the one user that there is.
fn verify_single(payload: &[u8], stored: &str) -> (r: bool)
    ensures
        r == single_ok(payload@, stored@),
{
    if let Some((name, password)) = split_credentials(payload) {
        if let Some(username) = text_of_utf8(name) {
            proof {
                vstd::utf8::encode_utf8_decode_utf8(username@);
            }
            if same_text(username, "default") && verify_password(password, stored) {
                return true;
            }
        }
    }
    verify_password(payload, stored)
}

/// Whether a client's credentials let it in. For a name that no user has, a hash is computed
/// all the same, so that the time taken does not tell which names there are.
pub fn verify_auth(auth_payload: &[u8], config: &ServerConfig) -> (r: bool)
    ensures
        r == auth_ok(auth_payload@, config@),
{
    match select_credential(auth_payload, config) {
        Credential::User { password, stored } => verify_password(password, stored),
        Credential::UnknownUser => {
            let _ = bcrypt_verify("dummy", DUMMY_HASH);
            false
        },
        Credential::Single { payload, stored } => verify_single(payload, stored),
        Credential::Nothing => false,
    }
}

/// The extensions of a client's INFO packet.
pub fn parse_client_info_extensions(payload: &[u8]) -> (r: Vec<ExtensionEntry>)
    ensures
        types::extension_views(r@) == client_extensions(payload@),
{
    if payload.len() <= WISP_HEADER_SIZE + 2 {
        let none: Vec<ExtensionEntry> = Vec::new();
        proof {
            assert(types::extension_views(none@) == Seq::<ExtensionView>::empty());
        }
        return none;
    }
    let list = vstd::slice::slice_subrange(payload, WISP_HEADER_SIZE + 2, payload.len());
    proof {
        assert(list@ == payload@.skip(WISP_HEADER_SIZE + 2));
    }
    parse_extensions(list)
}

/// The place of the credentials among some extensions.
fn find_credentials(extensions: &Vec<ExtensionEntry>) -> (r: Option<usize>)
    ensures
        match r {
            Some(i) => i < extensions@.len() && credentials_in(
                types::extension_views(extensions@),
            ) == Some(extensions@[i as int].payload@),
            None => credentials_in(types::extension_views(extensions@)) is None,
        },
{
    let ghost all = types::extension_views(extensions@);
    let mut i: usize = 0;
    proof {
        assert(all.skip(0) == all);
    }
    while i < extensions.len()
        invariant
            i <= extensions@.len(),
            all == types::extension_views(extensions@),
            credentials_in(all.skip(i as int)) == credentials_in(all),
        decreases extensions@.len() - i,
    {
        proof {
            assert(all.skip(i as int)[0] == extensions@[i as int]@);
            assert(all.skip(i as int).skip(1) == all.skip(i + 1));
        }
        if extensions[i].id == AUTH_EXTENSION {
            return Some(i);
        }
        i = i + 1;
    }
    None
}

/// Whether an INFO packet shows any credentials, right or wrong.
pub fn shows_credentials(packet: &[u8]) -> (r: bool)
    ensures
        r == (credentials_in(client_extensions(packet@)) is Some),
{
    find_credentials(&parse_client_info_extensions(packet)).is_some()
}

/// Whether an INFO packet lets a client in.
pub fn verify_client_info(packet: &[u8], config: &ServerConfig) -> (r: bool)
    ensures
        r == info_lets_in(packet@, config@),
{
    let extensions = parse_client_info_extensions(packet);
    match find_credentials(&extensions) {
        Some(i) => verify_auth(extensions[i].payload.as_slice(), config),
        None => false,
    }
}

// ---------------------------------------------------------------------------------------
// Laws
// ---------------------------------------------------------------------------------------

/// The extensions that credentials are looked for in are those that the INFO packet parses to.
pub proof fn client_extensions_are_those_of_the_packet(packet: Seq<u8>)
    requires
        frame::frame_of(packet) is Some,
        frame::frame_of(packet)->0 is Info,
    ensures
        frame::frame_of(packet)->0->extensions == client_extensions(packet),
{
    let payload = packet.skip(WISP_HEADER_SIZE as int);
    assert(payload.skip(2) == packet.skip(WISP_HEADER_SIZE + 2));
}

/// A name that no user has, a name that is no text, and a password that is no text let no one
/// in.
pub proof fn strangers_are_kept_out(payload: Seq<u8>, config: ConfigView)
    ensures
        credential_of(payload, config) is UnknownUser ==> !auth_ok(payload, config),
        credential_of(payload, config) is Nothing ==> !auth_ok(payload, config),
        credential_of(payload, config) matches CredentialView::User { password, .. }
            && !vstd::utf8::valid_utf8(password) ==> !auth_ok(payload, config),
{
}

/// The credentials of a user: the length of the name, the name and the password.
pub open spec fn user_credentials(name: Seq<char>, password: Seq<u8>) -> Seq<u8> {
    let bytes = vstd::utf8::encode_utf8(name);
    seq![bytes.len() as u8] + bytes + password
}

/// A user whose name has at most 255 bytes comes in with that name and a password that fits, if
/// it is not empty, and with no other. Where the password is stored as it is, only that
/// password fits.
pub proof fn users_come_in_with_their_passwords(
    name: Seq<char>,
    password: Seq<u8>,
    config: ConfigView,
)
    requires
        config.auth_users.contains_key(name),
        vstd::utf8::encode_utf8(name).len() <= 255,
        password.len() > 0,
    ensures
        auth_ok(user_credentials(name, password), config) == password_ok(
            password,
            config.auth_users[name]@,
        ),
        !is_hash(config.auth_users[name]@) ==> password_ok(password, config.auth_users[name]@) == (
        password == vstd::utf8::encode_utf8(config.auth_users[name]@)),
{
    let bytes = vstd::utf8::encode_utf8(name);
    let payload = user_credentials(name, password);
    assert(payload.subrange(1, 1 + payload[0]) == bytes);
    assert(payload.skip(1 + payload[0]) == password);
    vstd::utf8::encode_utf8_valid_utf8(name);
    vstd::utf8::encode_utf8_decode_utf8(name);
    vstd::utf8::encode_utf8_valid_utf8(config.auth_users[name]@);
    assert(!config.auth_users.is_empty());
}

/// Where no users are listed and the server's password is not a hash, a client comes in with
/// that password, alone or behind the name "default", and with nothing else.
pub proof fn everyone_comes_in_with_the_password(payload: Seq<u8>, config: ConfigView)
    requires
        config.auth_users.is_empty(),
        config.auth_password matches Some(stored) ==> !is_hash(stored),
    ensures
        auth_ok(payload, config) == (config.auth_password matches Some(stored) && {
            let password = vstd::utf8::encode_utf8(stored);
            ||| payload == password
            ||| password.len() > 0 && payload == user_credentials("default"@, password)
        }),
{
    if let Some(stored) = config.auth_password {
        let password = vstd::utf8::encode_utf8(stored);
        let name = vstd::utf8::encode_utf8("default"@);
        vstd::utf8::encode_utf8_valid_utf8(stored);
        vstd::utf8::encode_utf8_valid_utf8("default"@);
        vstd::utf8::encode_utf8_decode_utf8("default"@);
        reveal_strlit("default");
        vstd::utf8::is_ascii_chars_encode_utf8("default"@);
        assert(name.len() == 7);
        let full = user_credentials("default"@, password);
        if payload == full && password.len() > 0 {
            assert(full.subrange(1, 8) == name);
            assert(full.skip(8) == password);
            assert(single_ok(payload, stored));
        }
        if single_ok(payload, stored) && payload != password {
            let (got, rest) = name_and_password(payload)->0;
            vstd::utf8::decode_utf8_encode_utf8(got);
            assert(got == name);
            assert(payload =~= seq![payload[0]] + got + rest);
        }
    }
}

/// A stored password counts as a bcrypt hash exactly if it begins with `$2a$` or `$2b$`.
pub proof fn hashes_are_told_by_their_first_characters(stored: Seq<char>)
    ensures
        is_hash(stored) <==> {
            &&& stored.len() >= 4
            &&& stored[0] == '$'
            &&& stored[1] == '2'
            &&& stored[2] == 'a' || stored[2] == 'b'
            &&& stored[3] == '$'
        },
{
    reveal_strlit("$2b$");
    reveal_strlit("$2a$");
    if stored.len() >= 4 {
        let head = stored.subrange(0, 4);
        assert(forall|i: int| 0 <= i < 4 ==> head[i] == stored[i]);
        if stored[0] == '$' && stored[1] == '2' && stored[2] == 'b' && stored[3] == '$' {
            assert(head == "$2b$"@);
        }
        if stored[0] == '$' && stored[1] == '2' && stored[2] == 'a' && stored[3] == '$' {
            assert(head == "$2a$"@);
        }
        if is_hash(stored) {
            assert(head == "$2b$"@ || head == "$2a$"@);
        }
    }
}

/// Where a hash is stored, what bcrypt says of a password decides alone, whatever the password's
/// length; where the password itself is stored, only that password fits, whatever bcrypt says.
/// What is no text never fits.
pub proof fn bcrypt_decides_about_hashes(
    password: Seq<u8>,
    stored: Seq<char>,
    verdict: Option<bool>,
)
    ensures
        !vstd::utf8::valid_utf8(password) ==> !password_fits(password, stored, verdict),
        vstd::utf8::valid_utf8(password) && is_hash(stored) ==> (password_fits(
            password,
            stored,
            verdict,
        ) <==> verdict == Some(true)),
        vstd::utf8::valid_utf8(password) && is_hash(stored) ==> (password_ok(password, stored)
            <==> bcrypt_verdict(vstd::utf8::decode_utf8(password), stored) == Some(true)),
        !is_hash(stored) ==> (password_fits(password, stored, verdict) <==> password
            == vstd::utf8::encode_utf8(stored)),
{
    vstd::utf8::encode_utf8_valid_utf8(stored);
}

/// A listed user whose password is stored as a hash comes in with a password that is text, of
/// whatever length, exactly if bcrypt says that it matches the hash.
pub proof fn users_with_hashes_come_in_if_bcrypt_says_so(
    name: Seq<char>,
    password: Seq<char>,
    config: ConfigView,
)
    requires
        config.auth_users.contains_key(name),
        is_hash(config.auth_users[name]@),
        vstd::utf8::encode_utf8(name).len() <= 255,
        vstd::utf8::encode_utf8(password).len() > 0,
    ensures
        auth_ok(user_credentials(name, vstd::utf8::encode_utf8(password)), config)
            <==> bcrypt_verdict(password, config.auth_users[name]@) == Some(true),
{
    let bytes = vstd::utf8::encode_utf8(password);
    users_come_in_with_their_passwords(name, bytes, config);
    vstd::utf8::encode_utf8_valid_utf8(password);
    vstd::utf8::encode_utf8_decode_utf8(password);
}

/// A name that is not listed lets no one in, whatever the password, even if the server has a
/// password of its own.
pub proof fn unlisted_names_let_no_one_in(
    name: Seq<char>,
    password: Seq<u8>,
    config: ConfigView,
)
    requires
        !config.auth_users.is_empty(),
        !config.auth_users.contains_key(name),
        vstd::utf8::encode_utf8(name).len() <= 255,
        password.len() > 0,
    ensures
        !auth_ok(user_credentials(name, password), config),
{
    let bytes = vstd::utf8::encode_utf8(name);
    let payload = user_credentials(name, password);
    assert(payload.subrange(1, 1 + payload[0]) == bytes);
    vstd::utf8::encode_utf8_valid_utf8(name);
    vstd::utf8::encode_utf8_decode_utf8(name);
}

/// Where users are listed, credentials that are too short for the name they announce are the
/// password of the user "default", if there is one, and let no one in if there is none.
pub proof fn short_credentials_are_the_default_password(payload: Seq<u8>, config: ConfigView)
    requires
        !config.auth_users.is_empty(),
        payload.len() < 2 || payload.len() < 2 + payload[0],
    ensures
        auth_ok(payload, config) <==> config.auth_users.contains_key("default"@) && password_ok(
            payload,
            config.auth_users["default"@]@,
        ),
{
}

/// Where no users are listed, a client comes in with the server's password, alone or behind the
/// name "default", also if a hash of it is stored; without a password no one comes in.
pub proof fn the_one_user_comes_in_with_the_password(password: Seq<u8>, config: ConfigView)
    requires
        config.auth_users.is_empty(),
    ensures
        config.auth_password is None ==> !auth_ok(password, config),
        config.auth_password matches Some(stored) ==> {
            &&& password_ok(password, stored) ==> auth_ok(password, config)
            &&& password.len() > 0 && password_ok(password, stored) ==> auth_ok(
                user_credentials("default"@, password),
                config,
            )
            &&& auth_ok(password, config) ==> password_ok(password, stored) || exists|rest: Seq<u8>|
                password == #[trigger] user_credentials("default"@, rest) && password_ok(
                    rest,
                    stored,
                )
        },
{
    if let Some(stored) = config.auth_password {
        let name = vstd::utf8::encode_utf8("default"@);
        reveal_strlit("default");
        vstd::utf8::is_ascii_chars_encode_utf8("default"@);
        assert(name.len() == 7);
        let full = user_credentials("default"@, password);
        assert(full.subrange(1, 1 + full[0]) == name);
        assert(full.skip(1 + full[0]) == password);
        vstd::utf8::encode_utf8_valid_utf8("default"@);
        vstd::utf8::encode_utf8_decode_utf8("default"@);
        if auth_ok(password, config) && !password_ok(password, stored) {
            let (given, rest) = name_and_password(password)->0;
            vstd::utf8::decode_utf8_encode_utf8(given);
            assert(given == name);
            assert(password == user_credentials("default"@, rest));
        }
    }
}

/// The credentials of an INFO packet are those of its first extension of the kind, and an INFO
/// packet without one lets no one in.
pub proof fn the_first_credentials_count(list: Seq<ExtensionView>, i: int)
    requires
        0 <= i <= list.len(),
        forall|j: int| 0 <= j < i ==> (#[trigger] list[j]).id != 0x02,
        i < list.len() ==> list[i].id == 0x02,
    ensures
        credentials_in(list) == if i < list.len() {
            Some(list[i].payload)
        } else {
            None
        },
    decreases i,
{
    if i > 0 {
        let rest = list.skip(1);
        assert forall|j: int| 0 <= j < i - 1 implies (#[trigger] rest[j]).id != 0x02 by {
            assert(rest[j] == list[j + 1]);
        }
        the_first_credentials_count(rest, i - 1);
    }
}

/// An INFO packet with some extensions lets a client in exactly if its first credentials do.
pub proof fn info_packets_let_in_by_their_credentials(
    minor: u8,
    list: Seq<ExtensionView>,
    config: ConfigView,
)
    requires
        frame::lengths_fit(list),
    ensures
        ({
            let packet = seq![0x05u8, 0, 0, 0, 0, 2, minor] + frame::extension_list_bytes(list);
            &&& client_extensions(packet) == list
            &&& info_lets_in(packet, config) <==> credentials_in(list) is Some && auth_ok(
                credentials_in(list)->0,
                config,
            )
        }),
{
    let packet = seq![0x05u8, 0, 0, 0, 0, 2, minor] + frame::extension_list_bytes(list);
    frame::extensions_survive_the_wire(list);
    assert(packet.skip(WISP_HEADER_SIZE + 2) == frame::extension_list_bytes(list));
    if packet.len() <= WISP_HEADER_SIZE + 2 {
        assert(frame::extension_list_bytes(list) == Seq::<u8>::empty());
        assert(frame::extensions_of(Seq::<u8>::empty()) == Seq::<ExtensionView>::empty());
    }
}

/// Two passwords that bcrypt says the same of are judged the same where a hash is stored, however
/// long they are; where the password itself is stored it alone fits.
pub proof fn judgements_go_by_bcrypt_or_by_the_password(
    a: &[u8],
    b: &[u8],
    stored: &str,
    verdict: Option<bool>,
    fits_a: bool,
    fits_b: bool,
)
    requires
        call_ensures(judge_password, (a, stored, verdict), fits_a),
        call_ensures(judge_password, (b, stored, verdict), fits_b),
        vstd::utf8::valid_utf8(a@),
        vstd::utf8::valid_utf8(b@),
    ensures
        is_hash(stored@) ==> fits_a == fits_b && fits_a == (verdict == Some(true)),
        !is_hash(stored@) ==> fits_a == (a@ == vstd::utf8::encode_utf8(stored@)),
        !is_hash(stored@) && fits_a && fits_b ==> a@ == b@,
{
}

/// Verifying a password against a hash gives what bcrypt says, and against anything else whether
/// the two are the same; what is no text is never right.
pub proof fn passwords_are_verified(password: &[u8], stored: &str, r: bool)
    requires
        call_ensures(verify_password, (password, stored), r),
    ensures
        r ==> vstd::utf8::valid_utf8(password@),
        vstd::utf8::valid_utf8(password@) && is_hash(stored@) ==> (r <==> bcrypt_verdict(
            vstd::utf8::decode_utf8(password@),
            stored@,
        ) == Some(true)),
        !is_hash(stored@) ==> (r <==> password@ == vstd::utf8::encode_utf8(stored@)),
{
    vstd::utf8::encode_utf8_valid_utf8(stored@);
}

} // verus!
