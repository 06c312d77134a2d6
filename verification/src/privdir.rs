//! When a directory may hold a user's state: the checks on the metadata of a
//! directory the user's state goes in, and of every directory on the way to
//! one that is shared.
use vstd::prelude::*;
use crate::numbers::{nat_text, oct_text, push_nat, push_oct};
use crate::text::{chars_of, string_of};
use crate::words::extend;

verus! {

/// Why a directory is refused as the home of the user's state: it must be a
/// real directory (a symbolic link is not one), owned by the user, that no
/// other user can enter or list.
pub open spec fn private_problem(path: Seq<char>, is_dir: bool, owner: u32, own_uid: u32, mode: u32) -> Option<Seq<char>> {
    let m = mode & 0o7777u32;
    if !is_dir {
        Some(path + " exists but is not a directory"@)
    } else if owner != own_uid {
        Some(path + " is owned by uid "@ + nat_text(owner as nat) + ", not "@ + nat_text(own_uid as nat)
            + "; refusing to use it"@)
    } else if m & 0o077u32 != 0 {
        Some(path + " is reachable by other users (mode "@ + oct_text(m as nat) + "); refusing to use it"@)
    } else {
        None
    }
}

/// Whether a directory may hold the user's state, from its metadata read
/// without following links: the error says why not.
pub fn private_dir_check(path: &str, is_dir: bool, owner: u32, own_uid: u32, mode: u32) -> (r: Result<(), String>)
    ensures
        match r {
            Ok(()) => private_problem(path@, is_dir, owner, own_uid, mode) is None,
            Err(e) => private_problem(path@, is_dir, owner, own_uid, mode) == Some(e@),
        },
{
    let m = mode & 0o7777u32;
    let mut v = chars_of(path);
    if !is_dir {
        extend(&mut v, chars_of(" exists but is not a directory").as_slice());
        return Err(string_of(v.as_slice()));
    }
    if owner != own_uid {
        extend(&mut v, chars_of(" is owned by uid ").as_slice());
        push_nat(&mut v, owner as u64);
        extend(&mut v, chars_of(", not ").as_slice());
        push_nat(&mut v, own_uid as u64);
        extend(&mut v, chars_of("; refusing to use it").as_slice());
        return Err(string_of(v.as_slice()));
    }
    if m & 0o077u32 != 0 {
        extend(&mut v, chars_of(" is reachable by other users (mode ").as_slice());
        push_oct(&mut v, m as u64);
        extend(&mut v, chars_of("); refusing to use it").as_slice());
        return Err(string_of(v.as_slice()));
    }
    Ok(())
}

/// Why a directory on the way to a shared one is not trusted: it must be a
/// real directory, owned by the user or by the owner of `/`, and if others
/// may write to it, the sticky bit must stop them from replacing what is
/// not theirs.
pub open spec fn component_problem(
    path: Seq<char>,
    label: Seq<char>,
    is_dir: bool,
    owner: u32,
    own_uid: u32,
    root_uid: u32,
    mode: u32,
) -> Option<Seq<char>> {
    let m = mode & 0o7777u32;
    if !is_dir {
        Some(path + " is not a real directory"@)
    } else if owner != own_uid && owner != root_uid {
        Some(path + " is owned by untrusted uid "@ + nat_text(owner as nat) + "; refusing to use "@ + label)
    } else if m & 0o022u32 != 0 && m & 0o1000u32 == 0 {
        Some(path + " is writable by other users without the sticky bit (mode "@ + oct_text(m as nat)
            + "); refusing to use "@ + label)
    } else {
        None
    }
}

/// Whether one directory on the way to a shared one can be trusted, from
/// its metadata read without following links.
pub fn trusted_component_check(
    path: &str,
    label: &str,
    is_dir: bool,
    owner: u32,
    own_uid: u32,
    root_uid: u32,
    mode: u32,
) -> (r: Result<(), String>)
    ensures
        match r {
            Ok(()) => component_problem(path@, label@, is_dir, owner, own_uid, root_uid, mode) is None,
            Err(e) => component_problem(path@, label@, is_dir, owner, own_uid, root_uid, mode) == Some(e@),
        },
{
    let m = mode & 0o7777u32;
    let mut v = chars_of(path);
    if !is_dir {
        extend(&mut v, chars_of(" is not a real directory").as_slice());
        return Err(string_of(v.as_slice()));
    }
    if owner != own_uid && owner != root_uid {
        extend(&mut v, chars_of(" is owned by untrusted uid ").as_slice());
        push_nat(&mut v, owner as u64);
        extend(&mut v, chars_of("; refusing to use ").as_slice());
        extend(&mut v, chars_of(label).as_slice());
        return Err(string_of(v.as_slice()));
    }
    if m & 0o022u32 != 0 && m & 0o1000u32 == 0 {
        extend(&mut v, chars_of(" is writable by other users without the sticky bit (mode ").as_slice());
        push_oct(&mut v, m as u64);
        extend(&mut v, chars_of("); refusing to use ").as_slice());
        extend(&mut v, chars_of(label).as_slice());
        return Err(string_of(v.as_slice()));
    }
    Ok(())
}

} // verus!
