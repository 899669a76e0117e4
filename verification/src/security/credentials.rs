//! The OpenRouter credential: what its status reports, and how setting,
//! deleting, loading and recording validation change the two stored
//! credential records (the secret and the time it was last validated).

use vstd::prelude::*;

use crate::codes::Code;
use crate::errors::AppError;
use crate::outside::{parse_rfc3339, rfc3339_instant, utf8_to_string};
use crate::text::{is_control, is_control_spec, is_whitespace, is_whitespace_spec, to_chars, utf8_byte_len, utf8_count};

verus! {

/// Longest accepted API key, in bytes.
pub const MAX_API_KEY_BYTES: usize = 512;

/// A key as stored: non-empty UTF-8 of at most 512 bytes without
/// whitespace or control characters.
pub open spec fn api_key_text_ok(key: Seq<char>) -> bool {
    &&& key.len() > 0
    &&& utf8_count(key) <= MAX_API_KEY_BYTES
    &&& forall|i: int|
        0 <= i < key.len() ==> !is_whitespace_spec(#[trigger] key[i]) && !is_control_spec(key[i])
}

/// An OpenRouter API key.
#[derive(Debug)]
pub struct OpenRouterApiKey {
    secret: String,
}

impl OpenRouterApiKey {
    pub closed spec fn text(&self) -> Seq<char> {
        self.secret@
    }

    /// Accepts a well-formed key.
    pub fn new(secret: &str) -> (r: Result<Self, Code>)
        ensures
            r is Ok <==> api_key_text_ok(secret@),
            r matches Ok(k) ==> k.text() == secret@,
            r matches Err(code) ==> code == Code::CredentialKeyInvalid,
    {
        let chars = to_chars(secret);
        if chars.len() == 0 || utf8_byte_len(chars.as_slice()) > MAX_API_KEY_BYTES {
            return Err(Code::CredentialKeyInvalid);
        }
        let n = chars.len();
        for i in 0..n
            invariant
                n == chars@.len(),
                chars@ == secret@,
                forall|j: int| 0 <= j < i ==> !is_whitespace_spec(#[trigger] chars@[j]) && !is_control_spec(chars@[j]),
        {
            if is_whitespace(chars[i]) || is_control(chars[i]) {
                return Err(Code::CredentialKeyInvalid);
            }
        }
        Ok(OpenRouterApiKey { secret: secret.to_owned() })
    }

    /// Reads a key from the stored secret bytes.
    pub fn from_bytes(bytes: &[u8]) -> (r: Result<Self, Code>)
        ensures
            r is Ok <==> (vstd::utf8::valid_utf8(bytes@) && api_key_text_ok(
                vstd::utf8::decode_utf8(bytes@),
            )),
            r matches Ok(k) ==> k.text() == vstd::utf8::decode_utf8(bytes@),
            r matches Err(code) ==> code == Code::CredentialKeyInvalid,
    {
        match utf8_to_string(bytes) {
            Some(text) => OpenRouterApiKey::new(text.as_str()),
            None => Err(Code::CredentialKeyInvalid),
        }
    }

    /// The key as text, to hand to a request.
    pub fn expose(&self) -> (r: &str)
        ensures
            r@ == self.text(),
    {
        self.secret.as_str()
    }
}

/// What the user interface learns of the credential: whether a key is
/// stored, and when it was last validated; never the key.
#[derive(Debug, Clone, PartialEq, Eq)]
pub struct CredentialStatus {
    pub configured: bool,
    pub validated_at: Option<String>,
}

impl CredentialStatus {
    /// A status without a validation time.
    pub fn configured(configured: bool) -> (r: Self)
        ensures
            r.configured == configured,
            r.validated_at is None,
    {
        CredentialStatus { configured, validated_at: None }
    }
}

/// The stored credential records.
#[derive(Debug)]
pub struct CredentialService {
    secret: Option<Vec<u8>>,
    validation: Option<String>,
}

/// What `status` reports for stored records.
pub open spec fn status_spec(secret: Option<Seq<u8>>, validation: Option<Seq<char>>) -> Result<
    (bool, Option<Seq<char>>),
    AppError,
> {
    match secret {
        None => Ok((false, None)),
        Some(bytes) => if !(vstd::utf8::valid_utf8(bytes) && api_key_text_ok(
            vstd::utf8::decode_utf8(bytes),
        )) {
            Err(AppError::credential_error_spec(Code::CredentialKeyInvalid))
        } else {
            match validation {
                None => Ok((true, None)),
                Some(t) => if rfc3339_instant(t) is Some {
                    Ok((true, Some(t)))
                } else {
                    Err(AppError::credential_error_spec(Code::CredentialStatusUnavailable))
                },
            }
        },
    }
}

impl CredentialService {
    pub closed spec fn secret_view(&self) -> Option<Seq<u8>> {
        match self.secret {
            Some(b) => Some(b@),
            None => None,
        }
    }

    pub closed spec fn validation_view(&self) -> Option<Seq<char>> {
        match self.validation {
            Some(v) => Some(v@),
            None => None,
        }
    }

    /// The service over records read from a credential backend.
    pub fn with_backend(secret: Option<Vec<u8>>, validation: Option<String>) -> (r: Self)
        ensures
            r.secret_view() == match secret {
                Some(b) => Some(b@),
                None => None::<Seq<u8>>,
            },
            r.validation_view() == match validation {
                Some(v) => Some(v@),
                None => None::<Seq<char>>,
            },
    {
        CredentialService { secret, validation }
    }

    /// A service holding `api_key`, if any, and no validation time.
    pub fn in_memory(api_key: Option<&str>) -> (r: Self)
        ensures
            r.secret_view() == match api_key {
                Some(k) => Some(vstd::utf8::encode_utf8(k@)),
                None => None::<Seq<u8>>,
            },
            r.validation_view() is None,
    {
        let secret = match api_key {
            Some(k) => Some(crate::text::utf8_bytes(k)),
            None => None,
        };
        CredentialService { secret, validation: None }
    }

    /// The records, to write back to the backend.
    pub fn records(&self) -> (r: (Option<Vec<u8>>, Option<String>))
        ensures
            match r.0 {
                Some(b) => self.secret_view() == Some(b@),
                None => self.secret_view() is None,
            },
            match r.1 {
                Some(v) => self.validation_view() == Some(v@),
                None => self.validation_view() is None,
            },
    {
        let secret = match &self.secret {
            Some(b) => Some(b.clone()),
            None => None,
        };
        let validation = match &self.validation {
            Some(v) => Some(v.clone()),
            None => None,
        };
        (secret, validation)
    }

    /// Whether a key is stored and usable, and when it was validated.
    pub fn status(&self) -> (r: Result<CredentialStatus, AppError>)
        ensures
            match status_spec(self.secret_view(), self.validation_view()) {
                Ok((configured, validated)) => r matches Ok(s) && s.configured == configured
                    && match validated {
                    Some(t) => s.validated_at matches Some(v) && v@ == t,
                    None => s.validated_at is None,
                },
                Err(e) => r == Err::<CredentialStatus, AppError>(e),
            },
    {
        let secret = match &self.secret {
            None => return Ok(CredentialStatus::configured(false)),
            Some(b) => b,
        };
        match OpenRouterApiKey::from_bytes(secret.as_slice()) {
            Ok(_) => {},
            Err(code) => return Err(AppError::credential_error(code)),
        }
        match &self.validation {
            Some(validated_at) => {
                if parse_rfc3339(validated_at.as_str()).is_none() {
                    return Err(AppError::credential_error(Code::CredentialStatusUnavailable));
                }
                Ok(CredentialStatus { configured: true, validated_at: Some(validated_at.clone()) })
            },
            None => Ok(CredentialStatus::configured(true)),
        }
    }

    /// Stores a new key and forgets the old key's validation.
    pub fn set(&mut self, api_key: &OpenRouterApiKey) -> (r: Result<CredentialStatus, AppError>)
        ensures
            r matches Ok(s) && s.configured && s.validated_at is None,
            final(self).secret_view() == Some(vstd::utf8::encode_utf8(api_key.text())),
            final(self).validation_view() is None,
    {
        self.secret = Some(crate::text::utf8_bytes(api_key.expose()));
        self.validation = None;
        Ok(CredentialStatus::configured(true))
    }

    /// Forgets the key and its validation; deleting nothing succeeds.
    pub fn delete(&mut self) -> (r: Result<CredentialStatus, AppError>)
        ensures
            r matches Ok(s) && !s.configured && s.validated_at is None,
            final(self).secret_view() is None,
            final(self).validation_view() is None,
    {
        self.secret = None;
        self.validation = None;
        Ok(CredentialStatus::configured(false))
    }

    /// The stored key, for a model request.
    pub fn load_api_key(&self) -> (r: Result<OpenRouterApiKey, AppError>)
        ensures
            match self.secret_view() {
                None => r == Err::<OpenRouterApiKey, AppError>(
                    AppError::openrouter_error_spec(Code::OpenrouterCredentialMissing),
                ),
                Some(bytes) => if vstd::utf8::valid_utf8(bytes) && api_key_text_ok(
                    vstd::utf8::decode_utf8(bytes),
                ) {
                    r matches Ok(k) && k.text() == vstd::utf8::decode_utf8(bytes)
                } else {
                    r == Err::<OpenRouterApiKey, AppError>(
                        AppError::credential_error_spec(Code::CredentialKeyInvalid),
                    )
                },
            },
    {
        match &self.secret {
            None => Err(AppError::openrouter_error(Code::OpenrouterCredentialMissing)),
            Some(bytes) => match OpenRouterApiKey::from_bytes(bytes.as_slice()) {
                Ok(key) => Ok(key),
                Err(code) => Err(AppError::credential_error(code)),
            },
        }
    }

    /// Records when the stored key was last validated.
    pub fn record_validation(&mut self, validated_at: &str) -> (r: Result<(), AppError>)
        ensures
            r is Ok <==> rfc3339_instant(validated_at@) is Some,
            r is Err ==> r == Err::<(), AppError>(
                AppError::credential_error_spec(Code::CredentialStatusUnavailable),
            ) && final(self).secret_view() == old(self).secret_view()
                && final(self).validation_view() == old(self).validation_view(),
            r is Ok ==> final(self).secret_view() == old(self).secret_view()
                && final(self).validation_view() == Some(validated_at@),
    {
        if parse_rfc3339(validated_at).is_none() {
            return Err(AppError::credential_error(Code::CredentialStatusUnavailable));
        }
        self.validation = Some(validated_at.to_owned());
        Ok(())
    }
}

/// A key that was set reads back as configured and not yet validated, and
/// loads back as the same key; after a validation is recorded the status
/// reports that time; after a delete nothing is configured.
pub proof fn credential_reads_give_back_writes(key: Seq<char>, validated_at: Seq<char>)
    requires
        api_key_text_ok(key),
        rfc3339_instant(validated_at) is Some,
    ensures
        status_spec(Some(vstd::utf8::encode_utf8(key)), None) == Ok::<
            (bool, Option<Seq<char>>),
            AppError,
        >((true, None)),
        status_spec(Some(vstd::utf8::encode_utf8(key)), Some(validated_at)) == Ok::<
            (bool, Option<Seq<char>>),
            AppError,
        >((true, Some(validated_at))),
        vstd::utf8::valid_utf8(vstd::utf8::encode_utf8(key)),
        vstd::utf8::decode_utf8(vstd::utf8::encode_utf8(key)) == key,
        status_spec(None, None) == Ok::<(bool, Option<Seq<char>>), AppError>((false, None)),
{
    vstd::utf8::encode_utf8_valid_utf8(key);
    vstd::utf8::encode_utf8_decode_utf8(key);
}

} // verus!
