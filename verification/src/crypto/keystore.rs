//! Key material of a user: the record stored at signup, the keys an unlock
//! holds in memory, and the key an album password derives.

use crate::crypto::envelope::{MasterKey, PeerKeypair, SALT_LEN};
use crate::error::{spec_app_message, AppError};
use crate::text::{chars_of, spec_trim, trim_range};
use vstd::string::StringSliceAdditionalSpecFns;
use vstd::prelude::*;

verus! {

/// The material written into the `user` row at signup. The hidden-vault
/// fields are filled with random bytes of the same length when the user has
/// no hidden vault, so a vault with one looks like a vault without.
#[derive(Debug)]
pub struct UserRecord {
    pub username_ct: Vec<u8>,
    pub main_salt: [u8; SALT_LEN],
    pub wrapped_master_key: Vec<u8>,
    pub identity_pub: [u8; 32],
    pub wrapped_identity_sk: Vec<u8>,
    pub iroh_node_pub: [u8; 32],
    pub wrapped_iroh_sk: Vec<u8>,
    pub hidden_wrapped_master_key: Vec<u8>,
    pub hidden_salt: [u8; SALT_LEN],
}

/// A vault that has been unlocked; holds its secrets in memory only.
pub struct UnlockedUser {
    pub user_id: i64,
    pub master_key: MasterKey,
    pub identity: PeerKeypair,
    pub iroh_node: PeerKeypair,
    /// The hidden-vault master key, present only after a second unlock with
    /// the hidden password.
    pub hidden_master_key: Option<MasterKey>,
}

/// The key an album password derives; it wraps the album's collection key.
pub struct AlbumKey([u8; 32]);

impl View for AlbumKey {
    type V = [u8; 32];

    closed spec fn view(&self) -> [u8; 32] {
        self.0
    }
}

impl AlbumKey {
    /// The key with these bytes.
    pub fn from_bytes(bytes: [u8; 32]) -> (k: Self)
        ensures
            k@ == bytes,
    {
        AlbumKey(bytes)
    }

    /// The bytes of the key.
    pub fn as_bytes(&self) -> (b: &[u8; 32])
        ensures
            *b == self@,
    {
        &self.0
    }
}


/// The shortest password a user may sign up with, in bytes.
pub const MIN_PASSWORD_BYTES: usize = 12;

/// The answer to a request to create a user: refused as a bad request when
/// the username is nothing but white space, then when the password is
/// shorter than [`MIN_PASSWORD_BYTES`] bytes of UTF-8.
pub open spec fn spec_new_user_check(username: Seq<char>, password_bytes: nat) -> Result<(), Seq<char>> {
    if spec_trim(username).len() == 0 {
        Err("bad request: username required"@)
    } else if password_bytes < MIN_PASSWORD_BYTES {
        Err("bad request: password must be "@ + seq!['\u{2265}'] + " 12 chars"@)
    } else {
        Ok(())
    }
}

/// Check a request to create a user before any key is made.
pub fn check_new_user(username: &str, password: &str) -> (r: Result<(), AppError>)
    ensures
        match r {
            Ok(()) => spec_new_user_check(username@, password.spec_bytes().len()) == Ok::<(), Seq<char>>(()),
            Err(e) => spec_new_user_check(username@, password.spec_bytes().len())
                == Err::<(), Seq<char>>(spec_app_message(e)),
        },
        r matches Err(e) ==> e matches AppError::BadRequest(_),
{
    let u = chars_of(username);
    let t = trim_range(&u, 0, u.len());
    assert(u@.subrange(0, u@.len() as int) =~= username@);
    if t.len() == 0 {
        let m = "username required".to_string();
        proof { reveal_strlit("username required"); reveal_strlit("bad request: "); reveal_strlit("bad request: username required"); }
        assert("bad request: "@ + m@ =~= "bad request: username required"@);
        return Err(AppError::BadRequest(m));
    }
    if password.as_bytes().len() < MIN_PASSWORD_BYTES {
        let mut m = "password must be ".to_string();
        m.push('\u{2265}');
        m.push_str(" 12 chars");
        proof {
            reveal_strlit("password must be ");
            reveal_strlit(" 12 chars");
            reveal_strlit("bad request: ");
            reveal_strlit("bad request: password must be ");
        }
        assert("bad request: "@ + m@ =~= "bad request: password must be "@ + seq!['\u{2265}'] + " 12 chars"@);
        return Err(AppError::BadRequest(m));
    }
    Ok(())
}

/// Law: a signup is accepted exactly when the username has a character
/// that is not white space and the password has at least 12 bytes of
/// UTF-8; a blank username is refused first.
pub proof fn lemma_new_user_rule(username: Seq<char>, password_bytes: nat)
    ensures
        MIN_PASSWORD_BYTES == 12,
        spec_new_user_check(username, password_bytes) is Ok <==> (spec_trim(username).len() > 0 && password_bytes >= 12),
        spec_trim(username).len() == 0 ==> spec_new_user_check(username, password_bytes) == Err::<(), Seq<char>>(
            "bad request: username required"@,
        ),
{
}

} // verus!
