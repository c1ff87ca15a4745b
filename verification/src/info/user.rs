//! # info/user
//!
//! The owner column: the user name of the entry's uid, looked up once per uid.
use vstd::prelude::*;

use rustc_hash::{FxBuildHasher, FxHashMap};

use crate::output::render::RenderedEntry;
use crate::text::{dec_digits, decimal, string_of};

verus! {

#[verifier::external_type_specification]
#[verifier::external_body]
pub struct ExFxBuildHasher(FxBuildHasher);

/// The name of the user with id `uid`, if the system knows one. Trusted: calls
/// `users::get_user_by_uid` and converts the name to a string (lossily); nothing is
/// stated of the result, which depends on the machine.
#[verifier::external_body]
fn system_user_name(uid: u32) -> Option<String> {
    users::get_user_by_uid(uid).map(|u| u.name().to_string_lossy().into_owned())
}

/// The name cached for `uid`. Trusted: `HashMap::get` on an `FxHashMap`, whose hasher is
/// deterministic, returns the value stored under the key, or nothing.
#[verifier::external_body]
fn cached_name(cache: &FxHashMap<u32, String>, uid: u32) -> (r: Option<String>)
    ensures
        match r {
            Some(n) => cache@.contains_key(uid) && n@ == cache@[uid]@,
            None => !cache@.contains_key(uid),
        },
{
    cache.get(&uid).cloned()
}

/// Records the name of `uid`. Trusted: `HashMap::insert` on an `FxHashMap` maps the key
/// to the value and keeps the other keys.
#[verifier::external_body]
fn cache_name(cache: &mut FxHashMap<u32, String>, uid: u32, name: String)
    ensures
        final(cache)@ == old(cache)@.insert(uid, name),
{
    cache.insert(uid, name);
}

/// The owner shown for a uid: the looked-up name, or the uid in decimal.
pub fn user_label(uid: u32, looked_up: Option<String>) -> (r: String)
    ensures
        r@ == match looked_up {
            Some(n) => n@,
            None => dec_digits(uid as nat),
        },
{
    match looked_up {
        Some(n) => n,
        None => decimal(uid as u64),
    }
}

/// The owner column: `-` without a uid; the cached name of the uid; or the system's
/// name for it (or the uid in decimal), which is then cached.
pub fn long_user(entry: &RenderedEntry, user_cache: &mut FxHashMap<u32, String>) -> (r: String)
    ensures
        match entry.uid {
            None => r@ == seq!['-'] && final(user_cache)@ == old(user_cache)@,
            Some(uid) => if old(user_cache)@.contains_key(uid) {
                r@ == old(user_cache)@[uid]@ && final(user_cache)@ == old(user_cache)@
            } else {
                &&& final(user_cache)@.dom() == old(user_cache)@.dom().insert(uid)
                &&& final(user_cache)@.remove(uid) == old(user_cache)@.remove(uid)
                &&& final(user_cache)@[uid]@ == r@
            },
        },
{
    let uid = match entry.uid {
        None => {
            let s = string_of("-");
            proof {
                reveal_strlit("-");
                assert(s@ =~= seq!['-']);
            }
            return s;
        },
        Some(uid) => uid,
    };
    if let Some(user) = cached_name(user_cache, uid) {
        return user;
    }
    let user = user_label(uid, system_user_name(uid));
    cache_name(user_cache, uid, user.clone());
    proof {
        assert(final(user_cache)@.dom() =~= old(user_cache)@.dom().insert(uid));
        assert(final(user_cache)@.remove(uid) =~= old(user_cache)@.remove(uid));
    }
    user
}

} // verus!
