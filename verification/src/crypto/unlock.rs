//! Unlocking a vault that holds several users on one device. Each user row
//! is tried in turn with the typed password; the first whose username,
//! decrypted under the master key that password opens, is the typed one
//! is unlocked. Reading the rows, Argon2 and the decryption stand outside
//! this library, which decides what happens at each step.

use crate::error::AppError;
use crate::text::{chars_eq, chars_of};
use vstd::prelude::*;

verus! {

/// What the unlock does after trying one user.
#[derive(Debug, Clone, PartialEq, Eq)]
pub enum UnlockAction {
    /// Unlock the user at this position.
    Accept(usize),
    /// Try the user at this position next.
    Next(usize),
    /// Stop with this error.
    Fail(AppError),
}

/// Whether an unlock may begin: the index database exists and holds at
/// least one user; else there is nobody to unlock.
pub open spec fn spec_unlock_start(index_exists: bool, user_count: usize) -> Result<(), AppError> {
    if !index_exists || user_count == 0 {
        Err(AppError::NotFound)
    } else {
        Ok(())
    }
}

/// Whether an unlock may begin.
pub fn unlock_start(index_exists: bool, user_count: usize) -> (r: Result<(), AppError>)
    ensures
        r == spec_unlock_start(index_exists, user_count),
{
    if !index_exists || user_count == 0 {
        Err(AppError::NotFound)
    } else {
        Ok(())
    }
}

/// The step after trying the user at `index` of `user_count`: `decrypted`
/// is the username that the typed password revealed for that user, or
/// `None` where the password did not open it (or the name did not decrypt
/// to text).
pub open spec fn spec_unlock_step(typed: Seq<char>, user_count: usize, index: usize, decrypted: Option<Seq<char>>) -> UnlockAction {
    if decrypted == Some(typed) {
        UnlockAction::Accept(index)
    } else if index + 1 < user_count {
        UnlockAction::Next((index + 1) as usize)
    } else {
        UnlockAction::Fail(AppError::Crypto)
    }
}

/// The step after trying the user at `index`.
pub fn unlock_step(typed: &str, user_count: usize, index: usize, decrypted: Option<&str>) -> (a: UnlockAction)
    requires
        index < user_count,
    ensures
        a == spec_unlock_step(
            typed@,
            user_count,
            index,
            match decrypted {
                Some(u) => Some(u@),
                None => None,
            },
        ),
{
    let matched = match decrypted {
        Some(u) => chars_eq(&chars_of(u), &chars_of(typed)),
        None => false,
    };
    if matched {
        UnlockAction::Accept(index)
    } else if index + 1 < user_count {
        UnlockAction::Next(index + 1)
    } else {
        UnlockAction::Fail(AppError::Crypto)
    }
}

/// Where the steps lead from `index` on, `names[i]` being what trying user
/// `i` revealed.
pub open spec fn spec_unlock_run(typed: Seq<char>, names: Seq<Option<Seq<char>>>, index: nat) -> UnlockAction
    decreases names.len() - index,
{
    if index >= names.len() {
        UnlockAction::Fail(AppError::Crypto)
    } else {
        match spec_unlock_step(typed, names.len() as usize, index as usize, names[index as int]) {
            UnlockAction::Next(j) => if j == index + 1 {
                spec_unlock_run(typed, names, j as nat)
            } else {
                UnlockAction::Fail(AppError::Crypto)
            },
            a => a,
        }
    }
}

proof fn lemma_unlock_run_from(typed: Seq<char>, names: Seq<Option<Seq<char>>>, index: nat)
    requires
        names.len() <= usize::MAX,
        index < names.len(),
    ensures
        (exists|k: int| index <= k < names.len() && names[k] == Some(typed)) ==> spec_unlock_run(typed, names, index)
            == UnlockAction::Accept(
            spec_first_match(typed, names, index) as usize,
        ),
        !(exists|k: int| index <= k < names.len() && names[k] == Some(typed)) ==> spec_unlock_run(typed, names, index)
            == UnlockAction::Fail(AppError::Crypto),
    decreases names.len() - index,
{
    if names[index as int] == Some(typed) {
    } else if index + 1 < names.len() {
        lemma_unlock_run_from(typed, names, index + 1);
        if exists|k: int| index <= k < names.len() && names[k] == Some(typed) {
            let k = choose|k: int| index <= k < names.len() && names[k] == Some(typed);
            assert(k != index);
            assert(index + 1 <= k);
        } else {
            assert(!(exists|k: int| index + 1 <= k < names.len() && names[k] == Some(typed)));
        }
    } else {
        assert(!(exists|k: int| index <= k < names.len() && names[k] == Some(typed))) by {
            if exists|k: int| index <= k < names.len() && names[k] == Some(typed) {
                let k = choose|k: int| index <= k < names.len() && names[k] == Some(typed);
                assert(k == index);
            }
        }
    }
}

/// The least position from `index` on whose name is `typed`.
pub open spec fn spec_first_match(typed: Seq<char>, names: Seq<Option<Seq<char>>>, index: nat) -> nat
    decreases names.len() - index,
{
    if index >= names.len() || names[index as int] == Some(typed) {
        index
    } else {
        spec_first_match(typed, names, index + 1)
    }
}

proof fn lemma_first_match(typed: Seq<char>, names: Seq<Option<Seq<char>>>, index: nat, k: int)
    requires
        index <= k < names.len(),
        names[k] == Some(typed),
    ensures
        index <= spec_first_match(typed, names, index) <= k,
        names[spec_first_match(typed, names, index) as int] == Some(typed),
        forall|j: int| index <= j < spec_first_match(typed, names, index) ==> names[j] != Some(typed),
    decreases names.len() - index,
{
    if names[index as int] != Some(typed) {
        lemma_first_match(typed, names, index + 1, k);
    }
}

/// Law: running the steps from the first user unlocks the first user (by
/// position) whose decrypted username is the typed one, and fails with
/// [`AppError::Crypto`] when there is none.
pub proof fn lemma_unlock_first_match(typed: Seq<char>, names: Seq<Option<Seq<char>>>)
    requires
        0 < names.len() <= usize::MAX,
    ensures
        forall|k: int| 0 <= k < names.len() && names[k] == Some(typed)
            && (forall|j: int| 0 <= j < k ==> names[j] != Some(typed)) ==> spec_unlock_run(typed, names, 0)
            == UnlockAction::Accept(k as usize),
        (forall|k: int| 0 <= k < names.len() ==> names[k] != Some(typed)) ==> spec_unlock_run(typed, names, 0)
            == UnlockAction::Fail(AppError::Crypto),
{
    lemma_unlock_run_from(typed, names, 0);
    assert forall|k: int| 0 <= k < names.len() && names[k] == Some(typed)
        && (forall|j: int| 0 <= j < k ==> names[j] != Some(typed)) implies spec_unlock_run(typed, names, 0)
        == UnlockAction::Accept(k as usize) by {
        lemma_first_match(typed, names, 0, k);
        let f = spec_first_match(typed, names, 0);
        if f < k {
            assert(names[f as int] != Some(typed));
        }
    }
}

/// Law: an unlock is refused as not found when there is no index database
/// or it holds no user, and may go on otherwise; a step accepts the user
/// whose decrypted name is exactly the typed one, goes on to the next user
/// otherwise, and after the last user fails as a crypto error.
pub proof fn lemma_unlock_rules(index_exists: bool, user_count: usize, typed: Seq<char>, index: usize, d: Option<Seq<char>>)
    ensures
        spec_unlock_start(index_exists, user_count) == if index_exists && user_count > 0 {
            Ok::<(), AppError>(())
        } else {
            Err(AppError::NotFound)
        },
        d == Some(typed) ==> spec_unlock_step(typed, user_count, index, d) == UnlockAction::Accept(index),
        d != Some(typed) && index + 1 < user_count ==> spec_unlock_step(typed, user_count, index, d)
            == UnlockAction::Next((index + 1) as usize),
        d != Some(typed) && index + 1 >= user_count ==> spec_unlock_step(typed, user_count, index, d)
            == UnlockAction::Fail(AppError::Crypto),
{
}

} // verus!
