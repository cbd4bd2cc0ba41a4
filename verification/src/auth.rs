//! The composed logon check: archive version extraction, revision
//! checksum, and key-info encoding for the primary and, for expansion
//! clients, the secondary product key.  All file contents arrive already
//! read, in the order the protocol fixes.
use vstd::prelude::*;

use crate::keydecode::create_key_info;
use crate::keydecode::spec_key_info;
use crate::mpq::extract_mpq_number;
use crate::mpq::spec_extract_mpq_number;
use crate::revision::check_revision;
use crate::revision::spec_check_revision;
use crate::revision::views_of_bytes;
use crate::AuthError;

verus! {

/// Everything a logon packet needs from a successful check.
#[derive(Debug)]
pub struct AuthBundle {
    pub exe_version: u32,
    pub revision_checksum: u64,
    pub key_info_primary: Vec<u8>,
    pub key_info_secondary: Vec<u8>,
    pub exe_info: String,
}

/// The mathematical model of an [`AuthBundle`].
pub struct AuthBundleV {
    pub exe_version: u32,
    pub revision_checksum: u64,
    pub key_info_primary: Seq<u8>,
    pub key_info_secondary: Seq<u8>,
    pub exe_info: Seq<char>,
}

impl View for AuthBundle {
    type V = AuthBundleV;

    open spec fn view(&self) -> AuthBundleV {
        AuthBundleV {
            exe_version: self.exe_version,
            revision_checksum: self.revision_checksum,
            key_info_primary: self.key_info_primary@,
            key_info_secondary: self.key_info_secondary@,
            exe_info: self.exe_info@,
        }
    }
}

/// The outcome of the composed check: either a full bundle or the first
/// typed fault, with nothing partial.
pub open spec fn spec_auth_check(
    is_tft: bool,
    exe_version: u32,
    exe_info: Seq<char>,
    formula: Seq<char>,
    mpq_file_name: Seq<char>,
    files: Seq<Seq<u8>>,
    key_roc: Seq<char>,
    key_tft: Seq<char>,
    client_token: u32,
    server_token: u32,
) -> Result<AuthBundleV, AuthError> {
    match spec_extract_mpq_number(mpq_file_name) {
        None => Err(AuthError::UnsupportedArchiveVersion),
        Some(mpq) => match spec_check_revision(formula, files, mpq) {
            Err(e) => Err(e),
            Ok(checksum) => {
                if key_roc.len() != 26 {
                    Err(AuthError::InvalidKeyFormat)
                } else if is_tft && key_tft.len() != 26 {
                    Err(AuthError::InvalidKeyFormat)
                } else {
                    Ok(
                        AuthBundleV {
                            exe_version,
                            revision_checksum: checksum,
                            key_info_primary: spec_key_info(key_roc, client_token, server_token),
                            key_info_secondary: if is_tft {
                                spec_key_info(key_tft, client_token, server_token)
                            } else {
                                Seq::empty()
                            },
                            exe_info,
                        },
                    )
                }
            },
        },
    }
}

/// Runs the whole logon check over already-read file contents.  The
/// caller supplies the executable's version and info string from
/// fingerprinting, the server's formula and version-archive name, the
/// file contents in protocol order (three for generations at or below
/// 28, one beyond), and the product keys.
pub fn auth_check(
    is_tft: bool,
    war3_version: u32,
    exe_version: u32,
    exe_info: String,
    formula: &str,
    mpq_file_name: String,
    revision_files: &Vec<Vec<u8>>,
    key_roc: String,
    key_tft: String,
    client_token: u32,
    server_token: u32,
) -> (r: Result<AuthBundle, AuthError>)
    requires
        revision_files@.len() == (if war3_version <= 28 {
            3int
        } else {
            1int
        }),
        forall|i: int|
            0 <= i < revision_files@.len() ==> (#[trigger] revision_files@[i])@.len() + 1024
                <= usize::MAX,
    ensures
        match r {
            Ok(b) => spec_auth_check(
                is_tft,
                exe_version,
                exe_info@,
                formula@,
                mpq_file_name@,
                views_of_bytes(revision_files@),
                key_roc@,
                key_tft@,
                client_token,
                server_token,
            ) == Ok::<AuthBundleV, AuthError>(b@),
            Err(e) => spec_auth_check(
                is_tft,
                exe_version,
                exe_info@,
                formula@,
                mpq_file_name@,
                views_of_bytes(revision_files@),
                key_roc@,
                key_tft@,
                client_token,
                server_token,
            ) == Err::<AuthBundleV, AuthError>(e),
        },
{
    let mpq = match extract_mpq_number(mpq_file_name) {
        Some(n) => n,
        None => {
            return Err(AuthError::UnsupportedArchiveVersion);
        },
    };
    let checksum = match check_revision(formula, revision_files, mpq) {
        Ok(c) => c,
        Err(e) => {
            return Err(e);
        },
    };
    let key_info_primary = match create_key_info(key_roc, client_token, server_token) {
        Ok(v) => v,
        Err(e) => {
            return Err(e);
        },
    };
    let key_info_secondary: Vec<u8> = if is_tft {
        match create_key_info(key_tft, client_token, server_token) {
            Ok(v) => v,
            Err(e) => {
                return Err(e);
            },
        }
    } else {
        Vec::new()
    };
    Ok(
        AuthBundle {
            exe_version,
            revision_checksum: checksum,
            key_info_primary,
            key_info_secondary,
            exe_info,
        },
    )
}

/// The composed check is deterministic: two outcomes of its model for
/// the same inputs are identical.
pub proof fn lemma_auth_check_deterministic(
    is_tft: bool,
    exe_version: u32,
    exe_info: Seq<char>,
    formula: Seq<char>,
    mpq_file_name: Seq<char>,
    files: Seq<Seq<u8>>,
    key_roc: Seq<char>,
    key_tft: Seq<char>,
    client_token: u32,
    server_token: u32,
    r1: Result<AuthBundleV, AuthError>,
    r2: Result<AuthBundleV, AuthError>,
)
    requires
        r1 == spec_auth_check(
            is_tft,
            exe_version,
            exe_info,
            formula,
            mpq_file_name,
            files,
            key_roc,
            key_tft,
            client_token,
            server_token,
        ),
        r2 == spec_auth_check(
            is_tft,
            exe_version,
            exe_info,
            formula,
            mpq_file_name,
            files,
            key_roc,
            key_tft,
            client_token,
            server_token,
        ),
    ensures
        r1 == r2,
{
}

} // verus!
