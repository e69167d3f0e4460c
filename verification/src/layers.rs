//! The built-in unlock conditions. All three leave the payload untouched: their
//! whole effect is to gate the way back.

use crate::clock::current_time;
use crate::layer::{CryptoLayer, LayerError};
use vstd::prelude::*;
use vstd::slice::slice_to_vec;

verus! {

/// Nanoseconds in one second.
pub const NANOS_PER_SEC: u128 = 1_000_000_000;

/// The tolerance of a location match on each axis, in microdegrees (0.01°).
pub const TOLERANCE_MICRODEGREES: i64 = 10_000;

/// Opens once the clock has reached a fixed instant.
pub struct TimeLock {
    start: u128,
    wait: u128,
}

impl TimeLock {
    /// The instant at which the lock was armed.
    pub closed spec fn start(&self) -> nat {
        self.start as nat
    }

    /// How long after `start` the lock opens, in nanoseconds.
    pub closed spec fn wait(&self) -> nat {
        self.wait as nat
    }

    /// The instant from which on the lock is open.
    pub open spec fn unlock_instant(&self) -> nat {
        self.start() + self.wait()
    }

    /// Arms a lock at the instant `start` that opens `duration_secs` seconds
    /// later.
    pub fn starting_at(start: u128, duration_secs: u64) -> (lock: Self)
        ensures
            lock.start() == start,
            lock.wait() == duration_secs * NANOS_PER_SEC,
            lock.unlock_instant() == start + duration_secs * NANOS_PER_SEC,
    {
        TimeLock { start, wait: (duration_secs as u128) * NANOS_PER_SEC }
    }

    /// Arms a lock now that opens `duration_secs` seconds later. The start is
    /// whatever the clock reads at the call.
    pub fn new(duration_secs: u64) -> (lock: Self)
        ensures
            lock.wait() == duration_secs * NANOS_PER_SEC,
            lock.unlock_instant() == lock.start() + duration_secs * NANOS_PER_SEC,
    {
        Self::starting_at(current_time(), duration_secs)
    }
}

impl CryptoLayer for TimeLock {
    open spec fn forward(&self, data: Seq<u8>) -> Seq<u8> {
        data
    }

    open spec fn inverse(&self, data: Seq<u8>) -> Option<Seq<u8>> {
        Some(data)
    }

    open spec fn satisfied_at(&self, now: u128) -> bool {
        now >= self.unlock_instant()
    }

    proof fn inverse_undoes_forward(&self, data: Seq<u8>) {
    }

    fn encrypt(&self, data: &[u8]) -> (out: Vec<u8>) {
        slice_to_vec(data)
    }

    fn decrypt(&self, data: &[u8], now: u128) -> (out: Result<Vec<u8>, LayerError>) {
        if self.is_satisfied(now) {
            Ok(slice_to_vec(data))
        } else {
            Err(LayerError::ConditionNotSatisfied)
        }
    }

    fn is_satisfied(&self, now: u128) -> (ok: bool) {
        now >= self.start && now - self.start >= self.wait
    }
}

/// Whether two coordinates on one axis, in microdegrees, lie strictly within
/// the tolerance of each other.
pub open spec fn within_tolerance(allowed: int, observed: int) -> bool {
    -TOLERANCE_MICRODEGREES < allowed - observed < TOLERANCE_MICRODEGREES
}

/// Open where the observed coordinate lies within the tolerance of the allowed
/// one on both axes. Coordinates are fixed-point: whole microdegrees.
pub struct LocationLock {
    allowed_lat: i64,
    allowed_lon: i64,
    current_lat: i64,
    current_lon: i64,
}

impl LocationLock {
    /// The allowed coordinate, latitude then longitude.
    pub closed spec fn allowed(&self) -> (int, int) {
        (self.allowed_lat as int, self.allowed_lon as int)
    }

    /// The observed coordinate, latitude then longitude.
    pub closed spec fn observed(&self) -> (int, int) {
        (self.current_lat as int, self.current_lon as int)
    }

    /// The match on both axes independently.
    pub open spec fn in_allowed_area(&self) -> bool {
        &&& within_tolerance(self.allowed().0, self.observed().0)
        &&& within_tolerance(self.allowed().1, self.observed().1)
    }

    /// A lock for the allowed coordinate, with the coordinate that was
    /// observed. All four are whole microdegrees.
    pub fn new(allowed_lat: i64, allowed_lon: i64, current_lat: i64, current_lon: i64) -> (lock:
        Self)
        ensures
            lock.allowed() == (allowed_lat as int, allowed_lon as int),
            lock.observed() == (current_lat as int, current_lon as int),
    {
        LocationLock { allowed_lat, allowed_lon, current_lat, current_lon }
    }

    /// Compares the two coordinates axis by axis.
    pub fn is_in_allowed_area(&self) -> (ok: bool)
        ensures
            ok == self.in_allowed_area(),
    {
        axis_within_tolerance(self.allowed_lat, self.current_lat) && axis_within_tolerance(
            self.allowed_lon,
            self.current_lon,
        )
    }
}

/// Compares two coordinates on one axis.
pub fn axis_within_tolerance(allowed: i64, observed: i64) -> (ok: bool)
    ensures
        ok == within_tolerance(allowed as int, observed as int),
{
    let delta: i128 = allowed as i128 - observed as i128;
    -(TOLERANCE_MICRODEGREES as i128) < delta && delta < TOLERANCE_MICRODEGREES as i128
}

impl CryptoLayer for LocationLock {
    open spec fn forward(&self, data: Seq<u8>) -> Seq<u8> {
        data
    }

    open spec fn inverse(&self, data: Seq<u8>) -> Option<Seq<u8>> {
        Some(data)
    }

    open spec fn satisfied_at(&self, now: u128) -> bool {
        self.in_allowed_area()
    }

    proof fn inverse_undoes_forward(&self, data: Seq<u8>) {
    }

    fn encrypt(&self, data: &[u8]) -> (out: Vec<u8>) {
        slice_to_vec(data)
    }

    fn decrypt(&self, data: &[u8], now: u128) -> (out: Result<Vec<u8>, LayerError>) {
        if self.is_satisfied(now) {
            Ok(slice_to_vec(data))
        } else {
            Err(LayerError::ConditionNotSatisfied)
        }
    }

    fn is_satisfied(&self, now: u128) -> (ok: bool) {
        self.is_in_allowed_area()
    }
}

/// Open where the observed credential hash equals the expected one.
pub struct BiometricLock {
    expected_biometric_hash: String,
    provided_biometric_hash: String,
}

impl BiometricLock {
    /// The credential hash that opens the lock.
    pub closed spec fn expected(&self) -> Seq<char> {
        self.expected_biometric_hash@
    }

    /// The credential hash that was presented.
    pub closed spec fn provided(&self) -> Seq<char> {
        self.provided_biometric_hash@
    }

    /// Exact equality of the two hashes.
    pub open spec fn biometric_match(&self) -> bool {
        self.expected() == self.provided()
    }

    /// A lock for the expected hash, with the hash that was presented.
    pub fn new(expected_biometric_hash: String, provided_biometric_hash: String) -> (lock: Self)
        ensures
            lock.expected() == expected_biometric_hash@,
            lock.provided() == provided_biometric_hash@,
    {
        BiometricLock { expected_biometric_hash, provided_biometric_hash }
    }

    /// Compares the two hashes.
    pub fn is_biometric_match(&self) -> (ok: bool)
        ensures
            ok == self.biometric_match(),
    {
        self.expected_biometric_hash == self.provided_biometric_hash
    }
}

impl CryptoLayer for BiometricLock {
    open spec fn forward(&self, data: Seq<u8>) -> Seq<u8> {
        data
    }

    open spec fn inverse(&self, data: Seq<u8>) -> Option<Seq<u8>> {
        Some(data)
    }

    open spec fn satisfied_at(&self, now: u128) -> bool {
        self.biometric_match()
    }

    proof fn inverse_undoes_forward(&self, data: Seq<u8>) {
    }

    fn encrypt(&self, data: &[u8]) -> (out: Vec<u8>) {
        slice_to_vec(data)
    }

    fn decrypt(&self, data: &[u8], now: u128) -> (out: Result<Vec<u8>, LayerError>) {
        if self.is_satisfied(now) {
            Ok(slice_to_vec(data))
        } else {
            Err(LayerError::ConditionNotSatisfied)
        }
    }

    fn is_satisfied(&self, now: u128) -> (ok: bool) {
        self.is_biometric_match()
    }
}

/// Any one of the built-in locks, so that one pipeline can hold locks of
/// different kinds.
pub enum Lock {
    Time(TimeLock),
    Location(LocationLock),
    Biometric(BiometricLock),
}

impl CryptoLayer for Lock {
    open spec fn forward(&self, data: Seq<u8>) -> Seq<u8> {
        match self {
            Lock::Time(lock) => lock.forward(data),
            Lock::Location(lock) => lock.forward(data),
            Lock::Biometric(lock) => lock.forward(data),
        }
    }

    open spec fn inverse(&self, data: Seq<u8>) -> Option<Seq<u8>> {
        match self {
            Lock::Time(lock) => lock.inverse(data),
            Lock::Location(lock) => lock.inverse(data),
            Lock::Biometric(lock) => lock.inverse(data),
        }
    }

    open spec fn satisfied_at(&self, now: u128) -> bool {
        match self {
            Lock::Time(lock) => lock.satisfied_at(now),
            Lock::Location(lock) => lock.satisfied_at(now),
            Lock::Biometric(lock) => lock.satisfied_at(now),
        }
    }

    proof fn inverse_undoes_forward(&self, data: Seq<u8>) {
    }

    fn encrypt(&self, data: &[u8]) -> (out: Vec<u8>) {
        match self {
            Lock::Time(lock) => lock.encrypt(data),
            Lock::Location(lock) => lock.encrypt(data),
            Lock::Biometric(lock) => lock.encrypt(data),
        }
    }

    fn decrypt(&self, data: &[u8], now: u128) -> (out: Result<Vec<u8>, LayerError>) {
        match self {
            Lock::Time(lock) => lock.decrypt(data, now),
            Lock::Location(lock) => lock.decrypt(data, now),
            Lock::Biometric(lock) => lock.decrypt(data, now),
        }
    }

    fn is_satisfied(&self, now: u128) -> (ok: bool) {
        match self {
            Lock::Time(lock) => lock.is_satisfied(now),
            Lock::Location(lock) => lock.is_satisfied(now),
            Lock::Biometric(lock) => lock.is_satisfied(now),
        }
    }
}

/// A time lock is shut at every instant before its unlock instant and open at
/// every instant from it on: shut at the instant it was armed where the wait
/// is positive, and never shut again once open.
pub proof fn lemma_time_lock_opens_once(lock: TimeLock, earlier: u128, later: u128)
    requires
        earlier <= later,
    ensures
        lock.wait() > 0 ==> !lock.satisfied_at(lock.start() as u128),
        later >= lock.start() + lock.wait() ==> lock.satisfied_at(later),
        later < lock.start() + lock.wait() ==> !lock.satisfied_at(later),
        lock.satisfied_at(earlier) ==> lock.satisfied_at(later),
{
}

/// What a location lock answers does not depend on the instant it is asked:
/// asked twice, it answers the same.
pub proof fn lemma_location_lock_is_steady(lock: LocationLock, first: u128, second: u128)
    ensures
        lock.satisfied_at(first) == lock.satisfied_at(second),
        lock.satisfied_at(first) == lock.in_allowed_area(),
{
}

/// What a biometric lock answers does not depend on the instant it is asked:
/// asked twice, it answers the same.
pub proof fn lemma_biometric_lock_is_steady(lock: BiometricLock, first: u128, second: u128)
    ensures
        lock.satisfied_at(first) == lock.satisfied_at(second),
        lock.satisfied_at(first) == lock.biometric_match(),
{
}

} // verus!
