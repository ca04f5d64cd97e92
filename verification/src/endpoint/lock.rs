//! The reader-writer lock that guards the learned peers, and what is
//! assumed of it.
//!
//! The lock is `parking_lot::RwLock`. Many may read at once; one at a time
//! may hold an upgradable read, which can be turned into exclusive access.
//! Nothing is assumed of what a guard gives access to: whoever takes
//! exclusive access looks at the list again. A thread that asks for a
//! second guard while it holds one may wait for ever, so the lock is for
//! the database alone, which takes one guard in each of its methods and
//! lets it go before it returns.

use super::target_database::TargetList;
use parking_lot::lock_api::RwLock;
use parking_lot::{RwLockReadGuard, RwLockUpgradableReadGuard, RwLockWriteGuard};
use vstd::prelude::*;

verus! {

#[verifier::external_type_specification]
#[verifier::external_body]
#[verifier::reject_recursive_types(R)]
#[verifier::reject_recursive_types(T)]
pub struct ExRwLock<R, T: ?Sized>(RwLock<R, T>);

#[verifier::external_type_specification]
#[verifier::external_body]
pub struct ExRawRwLock(parking_lot::RawRwLock);

/// Shared access to the list: holds a `parking_lot::RwLockReadGuard`.
#[verifier::external_body]
pub(crate) struct ReadAccess<'a> {
    guard: RwLockReadGuard<'a, TargetList>,
}

/// Shared access that can be upgraded: holds a
/// `parking_lot::RwLockUpgradableReadGuard`.
#[verifier::external_body]
pub(crate) struct UpgradableAccess<'a> {
    guard: RwLockUpgradableReadGuard<'a, TargetList>,
}

/// Exclusive access to the list: holds a `parking_lot::RwLockWriteGuard`.
#[verifier::external_body]
pub(crate) struct WriteAccess<'a> {
    guard: RwLockWriteGuard<'a, TargetList>,
}

/// Calls `RwLock::new`.
#[verifier::external_body]
pub(crate) fn lock_new(list: TargetList) -> (lock: parking_lot::RwLock<TargetList>) {
    parking_lot::RwLock::new(list)
}

/// Calls `RwLock::read`, which waits for shared access.
#[verifier::external_body]
pub(crate) fn lock_read<'a>(lock: &'a parking_lot::RwLock<TargetList>) -> (access: ReadAccess<'a>) {
    ReadAccess { guard: lock.read() }
}

/// Calls `RwLock::upgradable_read`, which waits for shared access that can
/// be upgraded.
#[verifier::external_body]
pub(crate) fn lock_upgradable_read<'a>(lock: &'a parking_lot::RwLock<TargetList>) -> (access:
    UpgradableAccess<'a>) {
    UpgradableAccess { guard: lock.upgradable_read() }
}

/// Calls `RwLockUpgradableReadGuard::upgrade`, which waits for exclusive
/// access.
#[verifier::external_body]
pub(crate) fn lock_upgrade<'a>(access: UpgradableAccess<'a>) -> (writer: WriteAccess<'a>) {
    WriteAccess { guard: RwLockUpgradableReadGuard::upgrade(access.guard) }
}

/// Borrows the list that a read guard gives access to.
#[verifier::external_body]
pub(crate) fn read_list<'a, 'b>(access: &'b ReadAccess<'a>) -> (list: &'b TargetList) {
    &access.guard
}

/// Borrows the list that an upgradable guard gives access to.
#[verifier::external_body]
pub(crate) fn upgradable_list<'a, 'b>(access: &'b UpgradableAccess<'a>) -> (list: &'b TargetList) {
    &access.guard
}

/// Borrows the list that a write guard gives access to, for change.
#[verifier::external_body]
pub(crate) fn write_list<'a, 'b>(access: &'b mut WriteAccess<'a>) -> (list: &'b mut TargetList) {
    &mut access.guard
}

} // verus!
