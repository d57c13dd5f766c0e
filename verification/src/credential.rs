//! Credential kinds with validated construction: server-side SDK keys,
//! mobile keys and relay autoconfiguration keys (forty characters, a fixed
//! prefix and a canonical UUID), and client-side ids (twenty-four hex
//! characters).

use crate::unicode::ascii_to_string;
use vstd::prelude::*;
use vstd::string::StringExecFns;
use vstd::string::StringSliceAdditionalSpecFns;

verus! {

/// Length of a server-side SDK key.
pub const SERVER_SIDE_KEY_LEN: usize = 40;

/// Length of a relay autoconfiguration key.
pub const RELAY_AUTO_CONFIG_KEY_LEN: usize = 40;

/// Length of a mobile key.
pub const MOBILE_KEY_LEN: usize = 40;

/// Length of a client-side id.
pub const CLIENT_SIDE_ID_LEN: usize = 24;

/// The four kinds of credential.
#[derive(Debug, Clone, Copy, PartialEq, Eq, Structural)]
pub enum CredentialKind {
    ServerSide,
    MobileKey,
    ClientSide,
    RelayAutoConfig,
}

/// The code point of an ASCII hexadecimal digit.
pub open spec fn is_hex_code(n: int) -> bool {
    (48 <= n <= 57) || (97 <= n <= 102) || (65 <= n <= 70)
}

/// An ASCII hexadecimal digit.
pub open spec fn is_hex_byte(b: u8) -> bool {
    is_hex_code(b as int)
}

/// The canonical `XXXXXXXX-XXXX-XXXX-XXXX-XXXXXXXXXXXX` shape: thirty-six
/// bytes, dashes in the four fixed places, hex digits elsewhere.
pub open spec fn is_uuid_bytes(s: Seq<u8>) -> bool {
    &&& s.len() == 36
    &&& s[8] == 45 && s[13] == 45 && s[18] == 45 && s[23] == 45
    &&& forall|i: int|
        0 <= i < 36 && i != 8 && i != 13 && i != 18 && i != 23 ==> is_hex_byte(#[trigger] s[i])
}

impl CredentialKind {
    /// The prefix bytes of this kind, empty for client-side ids.
    pub open spec fn spec_prefix_bytes(&self) -> Seq<u8> {
        match self {
            // "sdk-", "mob-", "rel-"
            CredentialKind::ServerSide => seq![115u8, 100, 107, 45],
            CredentialKind::MobileKey => seq![109u8, 111, 98, 45],
            CredentialKind::RelayAutoConfig => seq![114u8, 101, 108, 45],
            CredentialKind::ClientSide => Seq::empty(),
        }
    }

    /// The length of a credential of this kind.
    pub open spec fn spec_len(&self) -> int {
        match self {
            CredentialKind::ClientSide => 24,
            _ => 40,
        }
    }

    /// A short lower-case name for this kind.
    pub fn as_slug(&self) -> (r: &'static str)
        ensures
            match self {
                CredentialKind::ServerSide => r@ == "sdk-key"@,
                CredentialKind::MobileKey => r@ == "mobile-key"@,
                CredentialKind::ClientSide => r@ == "client-side-id"@,
                CredentialKind::RelayAutoConfig => r@ == "relay-auto-config-key"@,
            },
    {
        match self {
            CredentialKind::ServerSide => "sdk-key",
            CredentialKind::MobileKey => "mobile-key",
            CredentialKind::ClientSide => "client-side-id",
            CredentialKind::RelayAutoConfig => "relay-auto-config-key",
        }
    }

    /// The length of a credential of this kind.
    pub fn len(&self) -> (r: usize)
        ensures
            r as int == self.spec_len(),
    {
        match self {
            CredentialKind::ServerSide => SERVER_SIDE_KEY_LEN,
            CredentialKind::MobileKey => MOBILE_KEY_LEN,
            CredentialKind::RelayAutoConfig => RELAY_AUTO_CONFIG_KEY_LEN,
            CredentialKind::ClientSide => CLIENT_SIDE_ID_LEN,
        }
    }

    /// The prefix of this kind, or `None` for client-side ids.
    pub fn prefix(&self) -> (r: Option<&'static str>)
        ensures
            match self {
                CredentialKind::ClientSide => r is None,
                CredentialKind::ServerSide => r matches Some(p) && p@ == "sdk-"@,
                CredentialKind::MobileKey => r matches Some(p) && p@ == "mob-"@,
                CredentialKind::RelayAutoConfig => r matches Some(p) && p@ == "rel-"@,
            },
    {
        match self {
            CredentialKind::ServerSide => Some("sdk-"),
            CredentialKind::MobileKey => Some("mob-"),
            CredentialKind::RelayAutoConfig => Some("rel-"),
            CredentialKind::ClientSide => None,
        }
    }

    /// The prefix of this kind as bytes; the empty array stands for the
    /// client-side kind, which has none.
    fn prefix_byte_array(&self) -> (r: [u8; 4])
        ensures
            *self != CredentialKind::ClientSide ==> r@ == self.spec_prefix_bytes(),
    {
        let r: [u8; 4] = match self {
            CredentialKind::ServerSide => [115, 100, 107, 45],  // "sdk-"
            CredentialKind::MobileKey => [109, 111, 98, 45],  // "mob-"
            CredentialKind::RelayAutoConfig => [114, 101, 108, 45],  // "rel-"
            CredentialKind::ClientSide => [0, 0, 0, 0],
        };
        proof {
            if *self != CredentialKind::ClientSide {
                assert(r@ =~= self.spec_prefix_bytes());
            }
        }
        r
    }
}

/// What a credential was checked against when it was rejected.
#[derive(Debug, Clone, Copy, PartialEq, Eq, Structural)]
pub enum ExpectedCredential {
    /// Any of the four kinds.
    Any,
    /// One specific kind.
    Kind(CredentialKind),
}

/// The length a rejected credential was checked against.
#[derive(Debug, Clone, Copy, PartialEq, Eq, Structural)]
pub enum ExpectedCredentialSize {
    ForAny,
    ForKind(CredentialKind),
}

impl ExpectedCredential {
    /// A short account of the lengths this expectation admits.
    pub fn expected_sizes_message(&self) -> (r: String)
        ensures
            match self {
                ExpectedCredential::Any => r@
                    == "one of 40 (sdk-key, mobile-key, relay-auto-config-key), 24 (client-side-id)"@,
                ExpectedCredential::Kind(kind) => r@ == ascii_chars(
                    crate::encoder::dec_digits(kind.spec_len()),
                ),
            },
    {
        match self {
            ExpectedCredential::Any => {
                let mut s = String::new();
                s.append("one of 40 (sdk-key, mobile-key, relay-auto-config-key), 24 (client-side-id)");
                proof {
                    assert(s@ =~= "one of 40 (sdk-key, mobile-key, relay-auto-config-key), 24 (client-side-id)"@);
                }
                s
            },
            ExpectedCredential::Kind(kind) => {
                let mut digits: Vec<u8> = Vec::new();
                crate::encoder::push_decimal(&mut digits, kind.len() as u128);
                proof {
                    crate::roundtrip::lemma_dec_digits_value(kind.spec_len());
                    assert forall|i: int| 0 <= i < digits@.len() implies #[trigger] digits@[i]
                        < 128 by {
                        assert(48 <= digits@[i] <= 57);
                    }
                }
                let s = ascii_to_string(digits.as_slice());
                proof {
                    assert(s@ =~= ascii_chars(crate::encoder::dec_digits(kind.spec_len())));
                }
                s
            },
        }
    }
}

impl From<CredentialKind> for ExpectedCredential {
    fn from(kind: CredentialKind) -> (r: Self) {
        ExpectedCredential::Kind(kind)
    }
}

impl vstd::std_specs::convert::FromSpecImpl<CredentialKind> for ExpectedCredential {
    open spec fn obeys_from_spec() -> bool {
        true
    }

    open spec fn from_spec(kind: CredentialKind) -> Self {
        ExpectedCredential::Kind(kind)
    }
}

/// Why a credential string was rejected.
#[derive(Debug, Clone, PartialEq, Eq)]
pub enum CredentialError {
    /// The length did not match the expected kind or kinds.
    InvalidLength { expected: ExpectedCredential, found: usize },
    /// The fixed prefix did not match.
    InvalidPrefix { expected: &'static str, found: Option<String> },
    /// The bytes were not the expected text encoding.
    InvalidUtf8,
    /// The shape was wrong: misplaced dashes or a non-hex character.
    InvalidFormat { expected: ExpectedCredential, reason: String },
    /// A fixed-size buffer was handed text of another size.
    InvalidBufLength { expected: usize, found: usize },
}

/// Every byte of a well-shaped UUID, and of a kind prefix, is ASCII.
pub proof fn lemma_uuid_bytes_ascii(s: Seq<u8>)
    requires
        is_uuid_bytes(s),
    ensures
        forall|i: int| 0 <= i < s.len() ==> s[i] < 128,
{
    assert forall|i: int| 0 <= i < s.len() implies s[i] < 128 by {
        if i != 8 && i != 13 && i != 18 && i != 23 {
            assert(is_hex_byte(s[i]));
        }
    }
}

/// An ASCII hexadecimal digit.
pub fn is_hex_digit(b: u8) -> (r: bool)
    ensures
        r == is_hex_byte(b),
{
    (48 <= b && b <= 57) || (97 <= b && b <= 102) || (65 <= b && b <= 70)
}

/// Checks that `s` has the canonical UUID shape for the given prefixed
/// credential kind: thirty-six bytes, dashes at the four fixed offsets, hex
/// digits elsewhere.
pub fn validate_uuid_format(kind: CredentialKind, s: &[u8]) -> (r: Result<(), CredentialError>)
    requires
        kind != CredentialKind::ClientSide,
    ensures
        r is Ok <==> is_uuid_bytes(s@),
        match r {
            Ok(()) => true,
            Err(CredentialError::InvalidLength { expected, found }) => s@.len() != 36 && expected
                == ExpectedCredential::Kind(kind) && found == s@.len(),
            Err(CredentialError::InvalidFormat { expected, .. }) => s@.len() == 36 && expected
                == ExpectedCredential::Kind(kind),
            _ => false,
        },
{
    if s.len() != 36 {
        return Err(
            CredentialError::InvalidLength {
                expected: ExpectedCredential::Kind(kind),
                found: s.len(),
            },
        );
    }
    if !(s[8] == 45 && s[13] == 45 && s[18] == 45 && s[23] == 45) {
        let mut reason = String::new();
        reason.append("key should be in the format of ");
        match kind.prefix() {
            Some(p) => reason.append(p),
            None => {},
        }
        reason.append("XXXXXXXX-XXXX-XXXX-XXXX-XXXXXXXXXXXX");
        return Err(
            CredentialError::InvalidFormat { expected: ExpectedCredential::Kind(kind), reason },
        );
    }
    let mut i: usize = 0;
    while i < 36
        invariant
            0 <= i <= 36,
            s@.len() == 36,
            forall|j: int|
                0 <= j < i && j != 8 && j != 13 && j != 18 && j != 23 ==> is_hex_byte(
                    #[trigger] s@[j],
                ),
        decreases 36 - i,
    {
        if i != 8 && i != 13 && i != 18 && i != 23 {
            if !is_hex_digit(s[i]) {
                let mut reason = String::new();
                reason.append("unexpected non-hex character in key");
                return Err(
                    CredentialError::InvalidFormat {
                        expected: ExpectedCredential::Kind(kind),
                        reason,
                    },
                );
            }
        }
        i = i + 1;
    }
    Ok(())
}

/// A full credential of a prefixed kind: the kind's length, its prefix,
/// then a canonical UUID.
pub open spec fn valid_credential_bytes(kind: CredentialKind, s: Seq<u8>) -> bool {
    match kind {
        CredentialKind::ClientSide => s.len() == 24 && forall|i: int|
            0 <= i < 24 ==> is_hex_byte(#[trigger] s[i]),
        _ => s.len() == 40 && s.subrange(0, 4) == kind.spec_prefix_bytes() && is_uuid_bytes(
            s.subrange(4, 40),
        ),
    }
}

/// Every byte of a valid credential is ASCII.
pub proof fn lemma_credential_bytes_ascii(kind: CredentialKind, s: Seq<u8>)
    requires
        valid_credential_bytes(kind, s),
    ensures
        forall|i: int| 0 <= i < s.len() ==> s[i] < 128,
{
    match kind {
        CredentialKind::ClientSide => {
            assert forall|i: int| 0 <= i < s.len() implies s[i] < 128 by {
                assert(is_hex_byte(s[i]));
            }
        },
        _ => {
            lemma_uuid_bytes_ascii(s.subrange(4, 40));
            assert forall|i: int| 0 <= i < s.len() implies s[i] < 128 by {
                if i < 4 {
                    assert(s[i] == kind.spec_prefix_bytes()[i]);
                } else {
                    assert(s.subrange(4, 40)[i - 4] == s[i]);
                }
            }
        },
    }
}

/// Checks that `s` is a full, well-shaped credential of the prefixed kind
/// `kind`: the kind's length, its prefix, then a canonical UUID.
pub fn validate_credential_uuid(kind: CredentialKind, s: &[u8]) -> (r: Result<(), CredentialError>)
    requires
        kind != CredentialKind::ClientSide,
    ensures
        r is Ok <==> valid_credential_bytes(kind, s@),
{
    if s.len() != kind.len() {
        return Err(
            CredentialError::InvalidLength {
                expected: ExpectedCredential::Kind(kind),
                found: s.len(),
            },
        );
    }
    let prefix = match kind.prefix() {
        Some(p) => p,
        None => {
            proof {
                assert(false);
            }
            ""
        },
    };
    let pb = kind.prefix_byte_array();
    if !crate::bufext::bytes_eq(&s[0..4], pb.as_slice()) {
        let mut shown: Vec<u8> = Vec::new();
        let mut i: usize = 0;
        while i < 4
            invariant
                0 <= i <= 4,
                s@.len() == 40,
                forall|j: int| 0 <= j < shown@.len() ==> #[trigger] shown@[j] < 128,
            decreases 4 - i,
        {
            let b = s[i];
            shown.push(if b < 128 {
                b
            } else {
                63  // '?'
            });
            i = i + 1;
        }
        return Err(
            CredentialError::InvalidPrefix {
                expected: prefix,
                found: Some(ascii_to_string(shown.as_slice())),
            },
        );
    }
    proof {
        assert(s@.subrange(0, 4) == kind.spec_prefix_bytes());
    }
    let rest = &s[4..40];
    let r = validate_uuid_format(kind, rest);
    match r {
        Ok(()) => Ok(()),
        Err(e) => Err(e),
    }
}

/// Checks a client-side id: twenty-four hex digits, no prefix.
pub fn validate_client_side_id(s: &[u8]) -> (r: Result<(), CredentialError>)
    ensures
        r is Ok <==> valid_credential_bytes(CredentialKind::ClientSide, s@),
        match r {
            Ok(()) => true,
            Err(CredentialError::InvalidLength { expected, found }) => s@.len() != 24 && expected
                == ExpectedCredential::Kind(CredentialKind::ClientSide) && found == s@.len(),
            Err(CredentialError::InvalidFormat { expected, .. }) => s@.len() == 24 && expected
                == ExpectedCredential::Kind(CredentialKind::ClientSide),
            _ => false,
        },
{
    if s.len() != CLIENT_SIDE_ID_LEN {
        return Err(
            CredentialError::InvalidLength {
                expected: ExpectedCredential::Kind(CredentialKind::ClientSide),
                found: s.len(),
            },
        );
    }
    let mut i: usize = 0;
    while i < 24
        invariant
            0 <= i <= 24,
            s@.len() == 24,
            forall|j: int| 0 <= j < i ==> is_hex_byte(#[trigger] s@[j]),
        decreases 24 - i,
    {
        if !is_hex_digit(s[i]) {
            let mut reason = String::new();
            reason.append("unexpected non-hex character");
            return Err(
                CredentialError::InvalidFormat {
                    expected: ExpectedCredential::Kind(CredentialKind::ClientSide),
                    reason,
                },
            );
        }
        i = i + 1;
    }
    Ok(())
}

/// Checks a credential of any kind.
pub fn validate_credential(kind: CredentialKind, s: &[u8]) -> (r: Result<(), CredentialError>)
    ensures
        r is Ok <==> valid_credential_bytes(kind, s@),
{
    match kind {
        CredentialKind::ClientSide => validate_client_side_id(s),
        _ => validate_credential_uuid(kind, s),
    }
}

/// The kind that the first four bytes of a credential announce.
pub open spec fn kind_of_prefix(b: Seq<u8>) -> CredentialKind
    recommends
        b.len() >= 4,
{
    if b.subrange(0, 4) == CredentialKind::ServerSide.spec_prefix_bytes() {
        CredentialKind::ServerSide
    } else if b.subrange(0, 4) == CredentialKind::MobileKey.spec_prefix_bytes() {
        CredentialKind::MobileKey
    } else if b.subrange(0, 4) == CredentialKind::RelayAutoConfig.spec_prefix_bytes() {
        CredentialKind::RelayAutoConfig
    } else {
        CredentialKind::ClientSide
    }
}

/// The kind that a credential's first four bytes announce; anything without
/// a known prefix is taken for a client-side id.
pub fn try_parse_kind(b: &[u8]) -> (r: Result<CredentialKind, CredentialError>)
    ensures
        r is Err <==> b@.len() < 4,
        r matches Ok(kind) ==> kind == kind_of_prefix(b@),
{
    if b.len() < 4 {
        return Err(
            CredentialError::InvalidLength { expected: ExpectedCredential::Any, found: b.len() },
        );
    }
    let head = &b[0..4];
    let sdk: [u8; 4] = [115, 100, 107, 45];  // "sdk-"
    let mob: [u8; 4] = [109, 111, 98, 45];  // "mob-"
    let rel: [u8; 4] = [114, 101, 108, 45];  // "rel-"
    proof {
        assert(sdk@ =~= CredentialKind::ServerSide.spec_prefix_bytes());
        assert(mob@ =~= CredentialKind::MobileKey.spec_prefix_bytes());
        assert(rel@ =~= CredentialKind::RelayAutoConfig.spec_prefix_bytes());
    }
    if crate::bufext::bytes_eq(head, sdk.as_slice()) {
        Ok(CredentialKind::ServerSide)
    } else if crate::bufext::bytes_eq(head, mob.as_slice()) {
        Ok(CredentialKind::MobileKey)
    } else if crate::bufext::bytes_eq(head, rel.as_slice()) {
        Ok(CredentialKind::RelayAutoConfig)
    } else {
        Ok(CredentialKind::ClientSide)
    }
}

/// The characters with the same code points as the given ASCII bytes.
pub open spec fn ascii_chars(b: Seq<u8>) -> Seq<char> {
    Seq::new(b.len(), |i: int| b[i] as char)
}

/// A validated credential of the given kind, held as text whose bytes pass
/// [`valid_credential_bytes`].
pub open spec fn valid_credential_chars(kind: CredentialKind, s: Seq<char>) -> bool {
    exists|b: Seq<u8>|
        #[trigger] valid_credential_bytes(kind, b) && s == ascii_chars(b) && forall|i: int|
            0 <= i < b.len() ==> b[i] < 128
}


/// A credential with validated construction.
pub trait LaunchDarklyCredential: Sized {
    /// The kind of this credential.
    fn kind(&self) -> CredentialKind;

    /// The credential text.
    fn as_str(&self) -> &str;

    /// The credential text, owned.
    fn into_string(self) -> String;
}

/// Construction and validation for the single-kind credential types.
pub trait LaunchDarklyCredentialExt: Sized {
    /// The kind that this type holds.
    spec fn spec_kind() -> CredentialKind;

    /// The validated text of this credential.
    spec fn spec_text(&self) -> Seq<char>;

    /// Checks that `b` is a well-shaped credential of this type's kind.
    fn try_validate(b: &[u8]) -> (r: Result<(), CredentialError>)
        ensures
            r is Ok <==> valid_credential_bytes(Self::spec_kind(), b@),
    ;

    /// Builds a credential of this type from bytes, validating them.
    fn try_from_bytes(b: &[u8]) -> (r: Result<Self, CredentialError>)
        ensures
            r is Ok <==> valid_credential_bytes(Self::spec_kind(), b@),
            r matches Ok(c) ==> c.spec_text() == ascii_chars(b@),
    ;

    /// Builds a credential of this type from text, validating it.
    fn try_from_str(s: &str) -> (r: Result<Self, CredentialError>)
        ensures
            r is Ok <==> valid_credential_bytes(Self::spec_kind(), s.spec_bytes()),
            r matches Ok(c) ==> c.spec_text() == ascii_chars(s.spec_bytes()),
    ;

    /// Builds a credential of this type from an owned string, validating it.
    fn try_from_string(s: String) -> (r: Result<Self, CredentialError>)
        ensures
            r is Ok <==> valid_credential_bytes(
                Self::spec_kind(),
                vstd::utf8::encode_utf8(s@),
            ),
            r matches Ok(c) ==> c.spec_text() == ascii_chars(vstd::utf8::encode_utf8(s@)),
    ;
}

/// A server-side SDK key: `sdk-` followed by a canonical UUID.
#[derive(Debug, PartialEq, Eq, Hash)]
pub struct ServerSideKey(pub String);

impl Clone for ServerSideKey {
    fn clone(&self) -> (res: Self)
        ensures
            res == *self,
    {
        ServerSideKey(self.0.clone())
    }
}

impl ServerSideKey {
    /// The text passed validation for this type's kind when the value was
    /// built.
    pub open spec fn wf(&self) -> bool {
        valid_credential_chars(CredentialKind::ServerSide, self.0@)
    }
}

impl LaunchDarklyCredential for ServerSideKey {
    fn kind(&self) -> (r: CredentialKind)
        ensures
            r == CredentialKind::ServerSide,
    {
        CredentialKind::ServerSide
    }

    fn as_str(&self) -> (r: &str)
        ensures
            r@ == self.0@,
    {
        self.0.as_str()
    }

    fn into_string(self) -> (r: String)
        ensures
            r@ == self.0@,
    {
        self.0
    }
}

impl LaunchDarklyCredentialExt for ServerSideKey {
    open spec fn spec_kind() -> CredentialKind {
        CredentialKind::ServerSide
    }

    open spec fn spec_text(&self) -> Seq<char> {
        self.0@
    }

    fn try_validate(b: &[u8]) -> (r: Result<(), CredentialError>) {
        validate_credential(CredentialKind::ServerSide, b)
    }

    fn try_from_bytes(b: &[u8]) -> (r: Result<Self, CredentialError>) {
        match validate_credential(CredentialKind::ServerSide, b) {
            Ok(()) => {
                proof {
                    lemma_credential_bytes_ascii(CredentialKind::ServerSide, b@);
                }
                let s = ascii_to_string(b);
                proof {
                    assert(s@ =~= ascii_chars(b@));
                }
                Ok(ServerSideKey(s))
            },
            Err(e) => Err(e),
        }
    }

    fn try_from_str(s: &str) -> (r: Result<Self, CredentialError>) {
        Self::try_from_bytes(s.as_bytes())
    }

    fn try_from_string(s: String) -> (r: Result<Self, CredentialError>) {
        Self::try_from_str(s.as_str())
    }
}

/// A mobile key: `mob-` followed by a canonical UUID.
#[derive(Debug, PartialEq, Eq, Hash)]
pub struct MobileKey(pub String);

impl Clone for MobileKey {
    fn clone(&self) -> (res: Self)
        ensures
            res == *self,
    {
        MobileKey(self.0.clone())
    }
}

impl MobileKey {
    /// The text passed validation for this type's kind when the value was
    /// built.
    pub open spec fn wf(&self) -> bool {
        valid_credential_chars(CredentialKind::MobileKey, self.0@)
    }
}

impl LaunchDarklyCredential for MobileKey {
    fn kind(&self) -> (r: CredentialKind)
        ensures
            r == CredentialKind::MobileKey,
    {
        CredentialKind::MobileKey
    }

    fn as_str(&self) -> (r: &str)
        ensures
            r@ == self.0@,
    {
        self.0.as_str()
    }

    fn into_string(self) -> (r: String)
        ensures
            r@ == self.0@,
    {
        self.0
    }
}

impl LaunchDarklyCredentialExt for MobileKey {
    open spec fn spec_kind() -> CredentialKind {
        CredentialKind::MobileKey
    }

    open spec fn spec_text(&self) -> Seq<char> {
        self.0@
    }

    fn try_validate(b: &[u8]) -> (r: Result<(), CredentialError>) {
        validate_credential(CredentialKind::MobileKey, b)
    }

    fn try_from_bytes(b: &[u8]) -> (r: Result<Self, CredentialError>) {
        match validate_credential(CredentialKind::MobileKey, b) {
            Ok(()) => {
                proof {
                    lemma_credential_bytes_ascii(CredentialKind::MobileKey, b@);
                }
                let s = ascii_to_string(b);
                proof {
                    assert(s@ =~= ascii_chars(b@));
                }
                Ok(MobileKey(s))
            },
            Err(e) => Err(e),
        }
    }

    fn try_from_str(s: &str) -> (r: Result<Self, CredentialError>) {
        Self::try_from_bytes(s.as_bytes())
    }

    fn try_from_string(s: String) -> (r: Result<Self, CredentialError>) {
        Self::try_from_str(s.as_str())
    }
}

/// A relay autoconfiguration key: `rel-` followed by a canonical UUID.
#[derive(Debug, PartialEq, Eq, Hash)]
pub struct RelayAutoConfigKey(pub String);

impl Clone for RelayAutoConfigKey {
    fn clone(&self) -> (res: Self)
        ensures
            res == *self,
    {
        RelayAutoConfigKey(self.0.clone())
    }
}

impl RelayAutoConfigKey {
    /// The text passed validation for this type's kind when the value was
    /// built.
    pub open spec fn wf(&self) -> bool {
        valid_credential_chars(CredentialKind::RelayAutoConfig, self.0@)
    }
}

impl LaunchDarklyCredential for RelayAutoConfigKey {
    fn kind(&self) -> (r: CredentialKind)
        ensures
            r == CredentialKind::RelayAutoConfig,
    {
        CredentialKind::RelayAutoConfig
    }

    fn as_str(&self) -> (r: &str)
        ensures
            r@ == self.0@,
    {
        self.0.as_str()
    }

    fn into_string(self) -> (r: String)
        ensures
            r@ == self.0@,
    {
        self.0
    }
}

impl LaunchDarklyCredentialExt for RelayAutoConfigKey {
    open spec fn spec_kind() -> CredentialKind {
        CredentialKind::RelayAutoConfig
    }

    open spec fn spec_text(&self) -> Seq<char> {
        self.0@
    }

    fn try_validate(b: &[u8]) -> (r: Result<(), CredentialError>) {
        validate_credential(CredentialKind::RelayAutoConfig, b)
    }

    fn try_from_bytes(b: &[u8]) -> (r: Result<Self, CredentialError>) {
        match validate_credential(CredentialKind::RelayAutoConfig, b) {
            Ok(()) => {
                proof {
                    lemma_credential_bytes_ascii(CredentialKind::RelayAutoConfig, b@);
                }
                let s = ascii_to_string(b);
                proof {
                    assert(s@ =~= ascii_chars(b@));
                }
                Ok(RelayAutoConfigKey(s))
            },
            Err(e) => Err(e),
        }
    }

    fn try_from_str(s: &str) -> (r: Result<Self, CredentialError>) {
        Self::try_from_bytes(s.as_bytes())
    }

    fn try_from_string(s: String) -> (r: Result<Self, CredentialError>) {
        Self::try_from_str(s.as_str())
    }
}

/// A client-side id: twenty-four hex characters.
#[derive(Debug, PartialEq, Eq, Hash)]
pub struct ClientSideId(pub String);

impl Clone for ClientSideId {
    fn clone(&self) -> (res: Self)
        ensures
            res == *self,
    {
        ClientSideId(self.0.clone())
    }
}

impl ClientSideId {
    /// The text passed validation for this type's kind when the value was
    /// built.
    pub open spec fn wf(&self) -> bool {
        valid_credential_chars(CredentialKind::ClientSide, self.0@)
    }
}

impl LaunchDarklyCredential for ClientSideId {
    fn kind(&self) -> (r: CredentialKind)
        ensures
            r == CredentialKind::ClientSide,
    {
        CredentialKind::ClientSide
    }

    fn as_str(&self) -> (r: &str)
        ensures
            r@ == self.0@,
    {
        self.0.as_str()
    }

    fn into_string(self) -> (r: String)
        ensures
            r@ == self.0@,
    {
        self.0
    }
}

impl LaunchDarklyCredentialExt for ClientSideId {
    open spec fn spec_kind() -> CredentialKind {
        CredentialKind::ClientSide
    }

    open spec fn spec_text(&self) -> Seq<char> {
        self.0@
    }

    fn try_validate(b: &[u8]) -> (r: Result<(), CredentialError>) {
        validate_credential(CredentialKind::ClientSide, b)
    }

    fn try_from_bytes(b: &[u8]) -> (r: Result<Self, CredentialError>) {
        match validate_credential(CredentialKind::ClientSide, b) {
            Ok(()) => {
                proof {
                    lemma_credential_bytes_ascii(CredentialKind::ClientSide, b@);
                }
                let s = ascii_to_string(b);
                proof {
                    assert(s@ =~= ascii_chars(b@));
                }
                Ok(ClientSideId(s))
            },
            Err(e) => Err(e),
        }
    }

    fn try_from_str(s: &str) -> (r: Result<Self, CredentialError>) {
        Self::try_from_bytes(s.as_bytes())
    }

    fn try_from_string(s: String) -> (r: Result<Self, CredentialError>) {
        Self::try_from_str(s.as_str())
    }
}

/// Any of the four credential kinds, chosen by its prefix.
#[derive(Debug, Clone, PartialEq, Eq, Hash)]
pub enum Credential {
    Server(ServerSideKey),
    Mobile(MobileKey),
    Client(ClientSideId),
    RelayAutoConfig(RelayAutoConfigKey),
}

impl Credential {
    /// The kind of the held credential.
    pub open spec fn spec_kind(&self) -> CredentialKind {
        match self {
            Credential::Server(_) => CredentialKind::ServerSide,
            Credential::Mobile(_) => CredentialKind::MobileKey,
            Credential::Client(_) => CredentialKind::ClientSide,
            Credential::RelayAutoConfig(_) => CredentialKind::RelayAutoConfig,
        }
    }

    /// The held credential's text.
    pub open spec fn spec_text(&self) -> Seq<char> {
        match self {
            Credential::Server(c) => c.0@,
            Credential::Mobile(c) => c.0@,
            Credential::Client(c) => c.0@,
            Credential::RelayAutoConfig(c) => c.0@,
        }
    }

    /// Builds whichever credential kind the string's prefix announces,
    /// validating the whole string against that kind.
    pub fn try_from_string(s: String) -> (r: Result<Self, CredentialError>)
        ensures
            ({
                let b = vstd::utf8::encode_utf8(s@);
                &&& (r is Ok <==> b.len() >= 4 && valid_credential_bytes(kind_of_prefix(b), b))
                &&& (r matches Ok(c) ==> c.spec_kind() == kind_of_prefix(b) && c.spec_text()
                    == ascii_chars(b))
            }),
    {
        let kind = match try_parse_kind(s.as_str().as_bytes()) {
            Ok(kind) => kind,
            Err(e) => {
                return Err(e);
            },
        };
        match kind {
            CredentialKind::ServerSide => match ServerSideKey::try_from_string(s) {
                Ok(c) => Ok(Credential::Server(c)),
                Err(e) => Err(e),
            },
            CredentialKind::MobileKey => match MobileKey::try_from_string(s) {
                Ok(c) => Ok(Credential::Mobile(c)),
                Err(e) => Err(e),
            },
            CredentialKind::ClientSide => match ClientSideId::try_from_string(s) {
                Ok(c) => Ok(Credential::Client(c)),
                Err(e) => Err(e),
            },
            CredentialKind::RelayAutoConfig => match RelayAutoConfigKey::try_from_string(s) {
                Ok(c) => Ok(Credential::RelayAutoConfig(c)),
                Err(e) => Err(e),
            },
        }
    }
}

impl LaunchDarklyCredential for Credential {
    fn kind(&self) -> (r: CredentialKind)
        ensures
            r == self.spec_kind(),
    {
        match self {
            Credential::Server(_) => CredentialKind::ServerSide,
            Credential::Mobile(_) => CredentialKind::MobileKey,
            Credential::Client(_) => CredentialKind::ClientSide,
            Credential::RelayAutoConfig(_) => CredentialKind::RelayAutoConfig,
        }
    }

    fn as_str(&self) -> (r: &str)
        ensures
            r@ == self.spec_text(),
    {
        match self {
            Credential::Server(c) => c.0.as_str(),
            Credential::Mobile(c) => c.0.as_str(),
            Credential::Client(c) => c.0.as_str(),
            Credential::RelayAutoConfig(c) => c.0.as_str(),
        }
    }

    fn into_string(self) -> (r: String)
        ensures
            r@ == self.spec_text(),
    {
        match self {
            Credential::Server(c) => c.0,
            Credential::Mobile(c) => c.0,
            Credential::Client(c) => c.0,
            Credential::RelayAutoConfig(c) => c.0,
        }
    }
}

/// A fixed-size buffer of ASCII text, usable where a credential must live
/// on the stack.
#[derive(Debug, Clone, Copy, PartialEq, Eq, Hash)]
pub struct StackString<const N: usize> {
    pub buf: [u8; N],
}

impl<const N: usize> StackString<N> {
    /// Every held byte is ASCII, so the buffer can be read back as text.
    pub open spec fn wf(&self) -> bool {
        forall|i: int| 0 <= i < N ==> #[trigger] self.buf@[i] < 128
    }

    /// A buffer of NUL bytes.
    pub fn new() -> (r: Self)
        ensures
            r.wf(),
            forall|i: int| 0 <= i < N ==> #[trigger] r.buf@[i] == 0,
    {
        Self { buf: [0; N] }
    }

    /// Copies the first `N` bytes of `s` into a fresh buffer. The bytes
    /// must all be ASCII; shorter input is rejected.
    pub fn try_from_utf8_unchecked(s: &[u8]) -> (r: Result<Self, CredentialError>)
        ensures
            r is Ok <==> (s@.len() >= N && forall|i: int| 0 <= i < N ==> #[trigger] s@[i] < 128),
            r matches Ok(ss) ==> ss.wf() && ss.buf@ == s@.subrange(0, N as int),
    {
        if s.len() < N {
            return Err(CredentialError::InvalidBufLength { expected: N, found: s.len() });
        }
        let mut buf: [u8; N] = [0; N];
        let mut i: usize = 0;
        while i < N
            invariant
                0 <= i <= N,
                s@.len() >= N,
                buf@.len() == N,
                forall|j: int| 0 <= j < i ==> #[trigger] buf@[j] == s@[j] && buf@[j] < 128,
            decreases N - i,
        {
            let b = s[i];
            if b >= 128 {
                return Err(CredentialError::InvalidUtf8);
            }
            buf[i] = b;
            i = i + 1;
        }
        proof {
            assert(buf@ =~= s@.subrange(0, N as int));
            assert forall|k: int| 0 <= k < N implies #[trigger] s@[k] < 128 by {
                assert(buf@[k] == s@[k] && buf@[k] < 128);
            }
        }
        Ok(Self { buf })
    }

    /// The held text.
    pub fn as_str(&self) -> (r: &str)
        requires
            self.wf(),
        ensures
            r@ == ascii_chars(self.buf@),
    {
        let r = crate::unicode::ascii_str(self.buf.as_slice());
        proof {
            assert(r@ =~= ascii_chars(self.buf@));
        }
        r
    }

    /// The held text, owned.
    pub fn into_string(self) -> (r: String)
        requires
            self.wf(),
        ensures
            r@ == ascii_chars(self.buf@),
    {
        let r = ascii_to_string(self.buf.as_slice());
        proof {
            assert(r@ =~= ascii_chars(self.buf@));
        }
        r
    }
}

} // verus!
