//! Upgradeable-contract bookkeeping: a two-step (authorize, then execute)
//! upgrade protocol with version tracking, an append-only upgrade history,
//! rollback to the Wasm that ran before the most recent upgrade, and a
//! post-upgrade migration hook.
//!
//! [`ProxyEnv`] holds everything of the contract environment these operations
//! touch: the proxy's storage entries, the ledger sequence, the contract's own
//! address, the Wasm the contract runs, the Wasm hashes handed to the
//! deployer, the published events and the addresses whose authorization was
//! demanded.  Admin operations are made by a `caller`, whose authorization is
//! demanded and who is refused with `NotAdmin` unless it is the admin; a
//! caller that cannot give the demanded authorization makes the host abort
//! the invocation.
use vstd::prelude::*;
use crate::values::{Address, Hash32};

verus! {

/// Storage keys of the proxy.  Each names one field of [`ProxyEnv`]:
/// `Admin` → `admin`, `Version` → `version`, `PreviousWasmHash` →
/// `previous_wasm_hash`, `PreviousVersion` → `previous_version`,
/// `PendingUpgrade` → `pending_upgrade`, `MigrationStep` → `migration_step`,
/// `UpgradeHistory` → `upgrade_history` (the one entry in persistent storage;
/// the others are in instance storage).
#[derive(Clone, Copy, Debug, PartialEq, Eq)]
pub enum ProxyKey {
    Admin,
    Version,
    PreviousWasmHash,
    PreviousVersion,
    PendingUpgrade,
    MigrationStep,
    UpgradeHistory,
}

/// A pending upgrade proposal created by the admin.
#[derive(Clone, Copy, Debug, PartialEq, Eq)]
pub struct PendingUpgrade {
    /// Wasm hash of the new contract version.
    pub new_wasm_hash: Hash32,
    /// Ledger sequence when the upgrade was authorized.
    pub authorized_at: u32,
}

/// An entry in the upgrade history log.
#[derive(Clone, Copy, Debug, PartialEq, Eq)]
pub struct UpgradeRecord {
    /// Version number after the upgrade.
    pub version: u32,
    /// Wasm hash installed by this upgrade.
    pub wasm_hash: Hash32,
    /// Ledger sequence when the upgrade was executed.
    pub upgraded_at: u32,
}

/// Errors of the proxy operations.  `MigrationInProgress` is part of the
/// error vocabulary but no operation returns it.
#[derive(Clone, Copy, Debug, PartialEq, Eq)]
pub enum ProxyError {
    NotAdmin,
    AlreadyInitialized,
    NoPendingUpgrade,
    MigrationInProgress,
    NoRollbackTarget,
    NotInitialized,
}

impl ProxyError {
    /// The numeric contract error code.
    pub fn code(&self) -> (c: u32)
        ensures
            c == match *self {
                ProxyError::NotAdmin => 1u32,
                ProxyError::AlreadyInitialized => 2,
                ProxyError::NoPendingUpgrade => 3,
                ProxyError::MigrationInProgress => 4,
                ProxyError::NoRollbackTarget => 5,
                ProxyError::NotInitialized => 6,
            },
    {
        match self {
            ProxyError::NotAdmin => 1,
            ProxyError::AlreadyInitialized => 2,
            ProxyError::NoPendingUpgrade => 3,
            ProxyError::MigrationInProgress => 4,
            ProxyError::NoRollbackTarget => 5,
            ProxyError::NotInitialized => 6,
        }
    }
}

/// Events published by the proxy.
#[derive(Clone, Copy, Debug, PartialEq, Eq)]
pub enum ProxyEvent {
    /// `prx_init`: the proxy was initialized with `admin` at `version`.
    Initialized { admin: Address, version: u32 },
    /// `prx_auth`: `admin` authorized an upgrade to `new_wasm_hash`.
    UpgradeAuthorized { admin: Address, new_wasm_hash: Hash32, ledger_sequence: u32 },
    /// `prx_upgrd`: an upgrade moved the contract from `old_version` to `new_version`.
    Upgraded { admin: Address, old_version: u32, new_version: u32, wasm_hash: Hash32 },
    /// `prx_rback`: a rollback moved the contract from `from_version` to `to_version`.
    RolledBack { admin: Address, from_version: u32, to_version: u32, wasm_hash: Hash32 },
    /// `prx_mig`: the migration finished at `version`.
    MigrationComplete { contract: Address, version: u32 },
}

/// The part of the contract environment the proxy operations read and change.
pub struct ProxyEnv {
    pub admin: Option<Address>,
    pub version: Option<u32>,
    pub previous_wasm_hash: Option<Hash32>,
    pub previous_version: Option<u32>,
    pub pending_upgrade: Option<PendingUpgrade>,
    pub migration_step: Option<u32>,
    pub upgrade_history: Option<Vec<UpgradeRecord>>,
    /// The current ledger sequence number.
    pub ledger_sequence: u32,
    /// The address of the running contract.
    pub contract_address: Address,
    /// The hash of the Wasm the contract runs, when known.
    pub running_wasm: Option<Hash32>,
    /// Wasm hashes handed to the deployer, oldest first; the last one is the
    /// code the contract runs once the invocation returns.
    pub installed_wasm: Vec<Hash32>,
    /// Published events, oldest first.
    pub events: Vec<ProxyEvent>,
    /// Addresses whose authorization was demanded, oldest first.
    pub auths: Vec<Address>,
}

/// Mathematical view of a [`ProxyEnv`].
pub ghost struct ProxyState {
    pub admin: Option<Address>,
    pub version: Option<u32>,
    pub previous_wasm_hash: Option<Hash32>,
    pub previous_version: Option<u32>,
    pub pending_upgrade: Option<PendingUpgrade>,
    pub migration_step: Option<u32>,
    pub upgrade_history: Option<Seq<UpgradeRecord>>,
    pub ledger_sequence: u32,
    pub contract_address: Address,
    pub running_wasm: Option<Hash32>,
    pub installed_wasm: Seq<Hash32>,
    pub events: Seq<ProxyEvent>,
    pub auths: Seq<Address>,
}

impl View for ProxyEnv {
    type V = ProxyState;

    open spec fn view(&self) -> ProxyState {
        ProxyState {
            admin: self.admin,
            version: self.version,
            previous_wasm_hash: self.previous_wasm_hash,
            previous_version: self.previous_version,
            pending_upgrade: self.pending_upgrade,
            migration_step: self.migration_step,
            upgrade_history: match self.upgrade_history {
                Some(h) => Some(h@),
                None => None,
            },
            ledger_sequence: self.ledger_sequence,
            contract_address: self.contract_address,
            running_wasm: self.running_wasm,
            installed_wasm: self.installed_wasm@,
            events: self.events@,
            auths: self.auths@,
        }
    }
}

// ─── The model ──────────────────────────────────────────────────────────────

/// The contract version: the stored one, or 1 when none is stored.
pub open spec fn current_version(s: ProxyState) -> u32 {
    match s.version {
        Some(v) => v,
        None => 1,
    }
}

/// The upgrade history: the stored log, or empty when none is stored.
pub open spec fn history_of(s: ProxyState) -> Seq<UpgradeRecord> {
    match s.upgrade_history {
        Some(h) => h,
        None => Seq::empty(),
    }
}

/// What `get_admin` answers.
pub open spec fn admin_lookup(s: ProxyState) -> Result<Address, ProxyError> {
    match s.admin {
        Some(a) => Ok(a),
        None => Err(ProxyError::NotInitialized),
    }
}

/// `s` with `who`'s authorization demanded.
pub open spec fn demand_auth(s: ProxyState, who: Address) -> ProxyState {
    ProxyState { auths: s.auths.push(who), ..s }
}

/// `s` with `e` published.
pub open spec fn publish(s: ProxyState, e: ProxyEvent) -> ProxyState {
    ProxyState { events: s.events.push(e), ..s }
}

/// Effect and result of `initialize(admin)`: `admin` must authorize; the
/// first call records `admin` and version 1, any later call is refused.
pub open spec fn initialize_step(s: ProxyState, admin: Address) -> (ProxyState, Result<(), ProxyError>) {
    let s1 = demand_auth(s, admin);
    if s.admin is Some {
        (s1, Err(ProxyError::AlreadyInitialized))
    } else {
        (
            publish(
                ProxyState { admin: Some(admin), version: Some(1), ..s1 },
                ProxyEvent::Initialized { admin, version: 1 },
            ),
            Ok(()),
        )
    }
}

/// Effect and result of an admin operation's check of `caller`: refused
/// with `NotInitialized` before any admin is recorded; otherwise `caller`'s
/// authorization is demanded and a caller other than the admin is refused
/// with `NotAdmin`.
pub open spec fn require_admin_step(s: ProxyState, caller: Address) -> (ProxyState, Result<Address, ProxyError>) {
    match s.admin {
        None => (s, Err(ProxyError::NotInitialized)),
        Some(admin) => {
            let s1 = demand_auth(s, caller);
            if caller != admin {
                (s1, Err(ProxyError::NotAdmin))
            } else {
                (s1, Ok(admin))
            }
        },
    }
}

/// Effect and result of `authorize_upgrade(caller, hash)`: the admin records
/// a pending upgrade to `hash`, stamped with the current ledger sequence.
pub open spec fn authorize_upgrade_step(s: ProxyState, caller: Address, hash: Hash32) -> (ProxyState, Result<(), ProxyError>) {
    let (s1, checked) = require_admin_step(s, caller);
    match checked {
        Err(e) => (s1, Err(e)),
        Ok(admin) => (
            publish(
                ProxyState {
                    pending_upgrade: Some(PendingUpgrade { new_wasm_hash: hash, authorized_at: s.ledger_sequence }),
                    ..s1
                },
                ProxyEvent::UpgradeAuthorized { admin, new_wasm_hash: hash, ledger_sequence: s.ledger_sequence },
            ),
            Ok(()),
        ),
    }
}

/// Whether `execute_upgrade` can run on `s` without overflowing the version.
pub open spec fn execute_upgrade_fits(s: ProxyState) -> bool {
    s.admin is Some && s.pending_upgrade is Some ==> current_version(s) < u32::MAX
}

/// The history record an upgrade from `s` appends.
pub open spec fn upgrade_record(s: ProxyState) -> UpgradeRecord {
    UpgradeRecord {
        version: (current_version(s) + 1) as u32,
        wasm_hash: s.pending_upgrade->0.new_wasm_hash,
        upgraded_at: s.ledger_sequence,
    }
}

/// Effect and result of `execute_upgrade(caller)`: the pending upgrade is
/// consumed and its Wasm installed; the Wasm that ran before it and the
/// version before it are kept for rollback; the version goes up by one and
/// a record is appended to the history.
pub open spec fn execute_upgrade_step(s: ProxyState, caller: Address) -> (ProxyState, Result<u32, ProxyError>) {
    let (s1, checked) = require_admin_step(s, caller);
    match checked {
        Err(e) => (s1, Err(e)),
        Ok(admin) => match s.pending_upgrade {
            None => (s1, Err(ProxyError::NoPendingUpgrade)),
            Some(p) => {
                let old_version: u32 = current_version(s);
                let new_version: u32 = (old_version + 1) as u32;
                (
                    publish(
                        ProxyState {
                            previous_version: Some(old_version),
                            previous_wasm_hash: s.running_wasm,
                            pending_upgrade: None,
                            running_wasm: Some(p.new_wasm_hash),
                            installed_wasm: s.installed_wasm.push(p.new_wasm_hash),
                            version: Some(new_version),
                            upgrade_history: Some(history_of(s).push(upgrade_record(s))),
                            ..s1
                        },
                        ProxyEvent::Upgraded { admin, old_version, new_version, wasm_hash: p.new_wasm_hash },
                    ),
                    Ok(new_version),
                )
            },
        },
    }
}

/// The version a rollback from `v` lands on: one lower, but never below 1.
pub open spec fn rolled_back_version(v: u32) -> u32 {
    if v > 1 { (v - 1) as u32 } else { 1 }
}

/// Effect and result of `rollback_upgrade(caller)`: the Wasm kept by the
/// most recent upgrade is installed again and the version goes down by one
/// (not below 1); without a kept Wasm the rollback is refused.  The history
/// is left as it is.
pub open spec fn rollback_upgrade_step(s: ProxyState, caller: Address) -> (ProxyState, Result<u32, ProxyError>) {
    let (s1, checked) = require_admin_step(s, caller);
    match checked {
        Err(e) => (s1, Err(e)),
        Ok(admin) => match s.previous_wasm_hash {
            None => (s1, Err(ProxyError::NoRollbackTarget)),
            Some(prev) => {
                let cur: u32 = current_version(s);
                let to: u32 = rolled_back_version(cur);
                (
                    publish(
                        ProxyState {
                            running_wasm: Some(prev),
                            installed_wasm: s.installed_wasm.push(prev),
                            version: Some(to),
                            ..s1
                        },
                        ProxyEvent::RolledBack { admin, from_version: cur, to_version: to, wasm_hash: prev },
                    ),
                    Ok(to),
                )
            },
        },
    }
}

/// The migration step counter: the stored one, or 0 when none is stored.
pub open spec fn migration_step_of(s: ProxyState) -> u32 {
    match s.migration_step {
        Some(v) => v,
        None => 0,
    }
}

/// Whether `run_migration` can run on `s` without overflowing the step counter.
pub open spec fn run_migration_fits(s: ProxyState) -> bool {
    s.admin is Some ==> migration_step_of(s) < u32::MAX
}

/// Effect and result of `run_migration(caller, batch_size)`: every migration
/// finishes in one batch, so the step counter ends cleared and completion is
/// reported.
pub open spec fn run_migration_step(s: ProxyState, caller: Address) -> (ProxyState, Result<bool, ProxyError>) {
    let (s1, checked) = require_admin_step(s, caller);
    match checked {
        Err(e) => (s1, Err(e)),
        Ok(_) => (
            publish(
                ProxyState { migration_step: None, ..s1 },
                ProxyEvent::MigrationComplete { contract: s.contract_address, version: current_version(s) },
            ),
            Ok(true),
        ),
    }
}

// ─── Operations ─────────────────────────────────────────────────────────────

/// Initialize the proxy with `admin`: records the admin and version 1.
/// Demands `admin`'s authorization.  Refused with `AlreadyInitialized` once an
/// admin is recorded.
pub fn initialize(env: &mut ProxyEnv, admin: Address) -> (r: Result<(), ProxyError>)
    ensures
        (final(env)@, r) == initialize_step(old(env)@, admin),
{
    env.auths.push(admin);
    if env.admin.is_some() {
        return Err(ProxyError::AlreadyInitialized);
    }
    env.admin = Some(admin);
    env.version = Some(1);
    env.events.push(ProxyEvent::Initialized { admin, version: 1 });
    Ok(())
}

/// Return the admin address, or `NotInitialized`.
pub fn get_admin(env: &ProxyEnv) -> (r: Result<Address, ProxyError>)
    ensures
        r == admin_lookup(env@),
{
    match env.admin {
        Some(a) => Ok(a),
        None => Err(ProxyError::NotInitialized),
    }
}

fn require_admin(env: &mut ProxyEnv, caller: &Address) -> (r: Result<Address, ProxyError>)
    ensures
        (final(env)@, r) == require_admin_step(old(env)@, *caller),
{
    let admin = get_admin(env)?;
    env.auths.push(*caller);
    if !caller.same_as(&admin) {
        return Err(ProxyError::NotAdmin);
    }
    Ok(admin)
}

/// Return the current contract version (1 when none is stored).
pub fn get_version(env: &ProxyEnv) -> (v: u32)
    ensures
        v == current_version(env@),
{
    match env.version {
        Some(v) => v,
        None => 1,
    }
}

/// Store a pending upgrade proposal for `new_wasm_hash`; admin only.
pub fn authorize_upgrade(env: &mut ProxyEnv, caller: &Address, new_wasm_hash: Hash32) -> (r: Result<(), ProxyError>)
    ensures
        (final(env)@, r) == authorize_upgrade_step(old(env)@, *caller, new_wasm_hash),
{
    let admin = require_admin(env, caller)?;
    let pending = PendingUpgrade { new_wasm_hash, authorized_at: env.ledger_sequence };
    env.pending_upgrade = Some(pending);
    env.events.push(
        ProxyEvent::UpgradeAuthorized { admin, new_wasm_hash, ledger_sequence: env.ledger_sequence },
    );
    Ok(())
}

/// Execute the pending upgrade; admin only.  Returns the new version.
pub fn execute_upgrade(env: &mut ProxyEnv, caller: &Address) -> (r: Result<u32, ProxyError>)
    requires
        execute_upgrade_fits(old(env)@),
    ensures
        (final(env)@, r) == execute_upgrade_step(old(env)@, *caller),
{
    let admin = require_admin(env, caller)?;
    let pending = match env.pending_upgrade {
        Some(p) => p,
        None => return Err(ProxyError::NoPendingUpgrade),
    };
    let old_version: u32 = get_version(env);
    env.previous_version = Some(old_version);
    env.previous_wasm_hash = env.running_wasm;
    env.pending_upgrade = None;
    env.running_wasm = Some(pending.new_wasm_hash);
    env.installed_wasm.push(pending.new_wasm_hash);
    let new_version: u32 = old_version + 1;
    env.version = Some(new_version);
    let record = UpgradeRecord {
        version: new_version,
        wasm_hash: pending.new_wasm_hash,
        upgraded_at: env.ledger_sequence,
    };
    append_upgrade_history(env, record);
    env.events.push(
        ProxyEvent::Upgraded { admin, old_version, new_version, wasm_hash: pending.new_wasm_hash },
    );
    Ok(new_version)
}

/// Roll back to the Wasm that ran before the most recent upgrade; admin
/// only.  Returns the version rolled back to.
pub fn rollback_upgrade(env: &mut ProxyEnv, caller: &Address) -> (r: Result<u32, ProxyError>)
    ensures
        (final(env)@, r) == rollback_upgrade_step(old(env)@, *caller),
{
    let admin = require_admin(env, caller)?;
    let previous = match env.previous_wasm_hash {
        Some(h) => h,
        None => return Err(ProxyError::NoRollbackTarget),
    };
    let current_version: u32 = get_version(env);
    let rolled_back_version: u32 = if current_version > 1 { current_version - 1 } else { 1 };
    env.running_wasm = Some(previous);
    env.installed_wasm.push(previous);
    env.version = Some(rolled_back_version);
    env.events.push(
        ProxyEvent::RolledBack {
            admin,
            from_version: current_version,
            to_version: rolled_back_version,
            wasm_hash: previous,
        },
    );
    Ok(rolled_back_version)
}

/// Run one batch of the post-upgrade migration; admin only.  Returns whether
/// the migration is complete.
pub fn run_migration(env: &mut ProxyEnv, caller: &Address, batch_size: u32) -> (r: Result<bool, ProxyError>)
    requires
        run_migration_fits(old(env)@),
    ensures
        (final(env)@, r) == run_migration_step(old(env)@, *caller),
{
    require_admin(env, caller)?;
    let step: u32 = match env.migration_step {
        Some(s) => s,
        None => 0,
    };
    let _ = batch_size;
    let next_step: u32 = step + 1;
    env.migration_step = Some(next_step);
    let done = next_step >= 1;
    if done {
        env.migration_step = None;
        let version: u32 = get_version(env);
        env.events.push(ProxyEvent::MigrationComplete { contract: env.contract_address, version });
    }
    Ok(done)
}

/// Return the full upgrade history log (empty when none is stored).
pub fn get_upgrade_history(env: &ProxyEnv) -> (h: Vec<UpgradeRecord>)
    ensures
        h@ == history_of(env@),
{
    let mut out: Vec<UpgradeRecord> = Vec::new();
    match &env.upgrade_history {
        None => {},
        Some(h) => {
            let mut i: usize = 0;
            while i < h.len()
                invariant
                    i <= h.len(),
                    out@ == h@.take(i as int),
                decreases h.len() - i,
            {
                out.push(h[i]);
                i += 1;
                assert(out@ =~= h@.take(i as int));
            }
            assert(h@.take(h.len() as int) =~= h@);
        },
    }
    out
}

fn append_upgrade_history(env: &mut ProxyEnv, record: UpgradeRecord)
    ensures
        final(env)@ == (ProxyState { upgrade_history: Some(history_of(old(env)@).push(record)), ..old(env)@ }),
{
    let mut history = get_upgrade_history(env);
    history.push(record);
    env.upgrade_history = Some(history);
}

// ─── Laws ───────────────────────────────────────────────────────────────────

/// A call to one of the proxy's mutating operations, for stating what every
/// operation keeps.
pub ghost enum ProxyCall {
    Initialize(Address),
    AuthorizeUpgrade(Address, Hash32),
    ExecuteUpgrade(Address),
    RollbackUpgrade(Address),
    RunMigration(Address),
}

/// The state after `c` on `s`, and whether `c` succeeded.
pub open spec fn proxy_call(s: ProxyState, c: ProxyCall) -> (ProxyState, bool) {
    match c {
        ProxyCall::Initialize(a) => {
            let (t, r) = initialize_step(s, a);
            (t, r is Ok)
        },
        ProxyCall::AuthorizeUpgrade(caller, h) => {
            let (t, r) = authorize_upgrade_step(s, caller, h);
            (t, r is Ok)
        },
        ProxyCall::ExecuteUpgrade(caller) => {
            let (t, r) = execute_upgrade_step(s, caller);
            (t, r is Ok)
        },
        ProxyCall::RollbackUpgrade(caller) => {
            let (t, r) = rollback_upgrade_step(s, caller);
            (t, r is Ok)
        },
        ProxyCall::RunMigration(caller) => {
            let (t, r) = run_migration_step(s, caller);
            (t, r is Ok)
        },
    }
}

/// The caller of `c`: the new admin for `Initialize`.
pub open spec fn call_caller(c: ProxyCall) -> Address {
    match c {
        ProxyCall::Initialize(a) => a,
        ProxyCall::AuthorizeUpgrade(caller, _) => caller,
        ProxyCall::ExecuteUpgrade(caller) => caller,
        ProxyCall::RollbackUpgrade(caller) => caller,
        ProxyCall::RunMigration(caller) => caller,
    }
}

/// Whether `c` can run on `s` without overflowing a counter.
pub open spec fn proxy_call_fits(s: ProxyState, c: ProxyCall) -> bool {
    match c {
        ProxyCall::ExecuteUpgrade(_) => execute_upgrade_fits(s),
        ProxyCall::RunMigration(_) => run_migration_fits(s),
        _ => true,
    }
}

/// The storage entries, running code, installed code and events of two
/// states agree.
pub open spec fn same_effects(a: ProxyState, b: ProxyState) -> bool {
    &&& a.admin == b.admin
    &&& a.version == b.version
    &&& a.previous_wasm_hash == b.previous_wasm_hash
    &&& a.previous_version == b.previous_version
    &&& a.pending_upgrade == b.pending_upgrade
    &&& a.migration_step == b.migration_step
    &&& a.upgrade_history == b.upgrade_history
    &&& a.running_wasm == b.running_wasm
    &&& a.installed_wasm == b.installed_wasm
    &&& a.events == b.events
}

/// Initialization happens once: the first call records `first` as admin at
/// version 1, and any later call is refused with `AlreadyInitialized`,
/// changing nothing but the authorization it demands.
pub proof fn lemma_initialize_once(s: ProxyState, first: Address, second: Address)
    requires
        s.admin is None,
    ensures
        initialize_step(s, first).1 == Ok::<(), ProxyError>(()),
        admin_lookup(initialize_step(s, first).0) == Ok::<Address, ProxyError>(first),
        current_version(initialize_step(s, first).0) == 1,
        initialize_step(initialize_step(s, first).0, second).1 == Err::<(), ProxyError>(ProxyError::AlreadyInitialized),
        same_effects(initialize_step(initialize_step(s, first).0, second).0, initialize_step(s, first).0),
{
}

/// Only the admin may run the admin operations: any other caller is refused
/// with `NotAdmin` and changes nothing but the authorization it demands.
pub proof fn lemma_non_admin_refused(s: ProxyState, c: ProxyCall)
    requires
        s.admin is Some,
        call_caller(c) != s.admin->0,
        !(c is Initialize),
    ensures
        !proxy_call(s, c).1,
        same_effects(proxy_call(s, c).0, s),
        proxy_call(s, c).0.auths == s.auths.push(call_caller(c)),
        match c {
            ProxyCall::AuthorizeUpgrade(caller, h) => authorize_upgrade_step(s, caller, h).1
                == Err::<(), ProxyError>(ProxyError::NotAdmin),
            ProxyCall::ExecuteUpgrade(caller) => execute_upgrade_step(s, caller).1 == Err::<u32, ProxyError>(
                ProxyError::NotAdmin,
            ),
            ProxyCall::RollbackUpgrade(caller) => rollback_upgrade_step(s, caller).1 == Err::<u32, ProxyError>(
                ProxyError::NotAdmin,
            ),
            ProxyCall::RunMigration(caller) => run_migration_step(s, caller).1 == Err::<bool, ProxyError>(
                ProxyError::NotAdmin,
            ),
            ProxyCall::Initialize(_) => true,
        },
{
}

/// The two-step protocol: once the admin authorized `hash`, executing the
/// upgrade installs exactly `hash`, keeps the Wasm that ran before it and
/// the old version for rollback, bumps the version by one, clears the
/// proposal and appends the matching record to the history.
pub proof fn lemma_authorized_hash_is_installed(s: ProxyState, admin: Address, hash: Hash32)
    requires
        s.admin == Some(admin),
        current_version(s) < u32::MAX,
    ensures
        ({
            let (s1, r1) = authorize_upgrade_step(s, admin, hash);
            let (s2, r2) = execute_upgrade_step(s1, admin);
            &&& r1 is Ok
            &&& r2 == Ok::<u32, ProxyError>((current_version(s) + 1) as u32)
            &&& current_version(s2) == current_version(s) + 1
            &&& s2.installed_wasm == s.installed_wasm.push(hash)
            &&& s2.running_wasm == Some(hash)
            &&& s2.previous_wasm_hash == s.running_wasm
            &&& s2.previous_version == Some(current_version(s))
            &&& s2.pending_upgrade is None
            &&& history_of(s2) == history_of(s).push(
                UpgradeRecord {
                    version: (current_version(s) + 1) as u32,
                    wasm_hash: hash,
                    upgraded_at: s.ledger_sequence,
                },
            )
        }),
{
}

/// The admin's execution of a stored proposal always succeeds, however many
/// ledgers have passed since it was authorized: it returns the version one
/// above the current one, installs the proposed Wasm, keeps the running
/// Wasm and the old version for rollback, clears the proposal and appends
/// the matching record to the history.
pub proof fn lemma_pending_upgrade_executes(s: ProxyState, admin: Address)
    requires
        s.admin == Some(admin),
        s.pending_upgrade is Some,
        current_version(s) < u32::MAX,
    ensures
        ({
            let (t, r) = execute_upgrade_step(s, admin);
            let hash = s.pending_upgrade->0.new_wasm_hash;
            &&& r == Ok::<u32, ProxyError>((current_version(s) + 1) as u32)
            &&& current_version(t) == current_version(s) + 1
            &&& t.installed_wasm == s.installed_wasm.push(hash)
            &&& t.running_wasm == Some(hash)
            &&& t.previous_wasm_hash == s.running_wasm
            &&& t.previous_version == Some(current_version(s))
            &&& t.pending_upgrade is None
            &&& history_of(t) == history_of(s).push(
                UpgradeRecord { version: (current_version(s) + 1) as u32, wasm_hash: hash, upgraded_at: s.ledger_sequence },
            )
        }),
{
}

/// Every migration batch the admin runs completes the migration: it reports
/// `true`, clears the step counter, leaves the version as it is and
/// announces completion at the current version.
pub proof fn lemma_migration_completes(s: ProxyState, admin: Address)
    requires
        s.admin == Some(admin),
    ensures
        ({
            let (t, r) = run_migration_step(s, admin);
            &&& r == Ok::<bool, ProxyError>(true)
            &&& t.migration_step is None
            &&& current_version(t) == current_version(s)
            &&& t.events == s.events.push(
                ProxyEvent::MigrationComplete { contract: s.contract_address, version: current_version(s) },
            )
        }),
{
}

/// An executed proposal is consumed: executing again without a new
/// authorization is refused with `NoPendingUpgrade`.
pub proof fn lemma_upgrade_needs_fresh_authorization(s: ProxyState, caller: Address)
    requires
        execute_upgrade_fits(s),
        execute_upgrade_step(s, caller).1 is Ok,
    ensures
        execute_upgrade_step(execute_upgrade_step(s, caller).0, caller).1 == Err::<u32, ProxyError>(
            ProxyError::NoPendingUpgrade,
        ),
{
}

/// Every executed upgrade bumps the version by one and keeps the version
/// and the Wasm from before it.
pub proof fn lemma_upgrade_bumps_version(s: ProxyState, caller: Address)
    requires
        execute_upgrade_fits(s),
        execute_upgrade_step(s, caller).1 is Ok,
    ensures
        execute_upgrade_step(s, caller).1 == Ok::<u32, ProxyError>(current_version(execute_upgrade_step(s, caller).0)),
        current_version(execute_upgrade_step(s, caller).0) == current_version(s) + 1,
        execute_upgrade_step(s, caller).0.previous_version == Some(current_version(s)),
        execute_upgrade_step(s, caller).0.previous_wasm_hash == s.running_wasm,
{
}

/// Rolling back right after an upgrade (the first one included) returns to
/// the version before it (1 at least) and reinstalls the Wasm that ran
/// before it.
pub proof fn lemma_rollback_undoes_upgrade(s: ProxyState, caller: Address)
    requires
        execute_upgrade_fits(s),
        execute_upgrade_step(s, caller).1 is Ok,
        s.running_wasm is Some,
    ensures
        ({
            let s1 = execute_upgrade_step(s, caller).0;
            let (s2, r2) = rollback_upgrade_step(s1, caller);
            &&& r2 == Ok::<u32, ProxyError>(rolled_back_version((current_version(s) + 1) as u32))
            &&& (current_version(s) >= 1 ==> current_version(s2) == current_version(s))
            &&& s2.running_wasm == s.running_wasm
            &&& s2.installed_wasm.last() == s.running_wasm->0
            &&& history_of(s2) == history_of(s1)
        }),
{
}

/// Once recorded, the admin never changes.
pub proof fn lemma_admin_is_permanent(s: ProxyState, c: ProxyCall)
    requires
        s.admin is Some,
    ensures
        proxy_call(s, c).0.admin == s.admin,
{
}

/// Every successful call demands exactly one authorization, its caller's,
/// and every successful admin operation was made by the admin.
pub proof fn lemma_calls_demand_admin_auth(s: ProxyState, c: ProxyCall)
    requires
        proxy_call(s, c).1,
    ensures
        proxy_call(s, c).0.auths == s.auths.push(call_caller(c)),
        !(c is Initialize) ==> s.admin == Some(call_caller(c)),
{
}

/// A refused call changes no storage entry, installs no code and publishes
/// no event; a successful call publishes exactly one event.
pub proof fn lemma_refusal_changes_nothing(s: ProxyState, c: ProxyCall)
    ensures
        !proxy_call(s, c).1 ==> same_effects(proxy_call(s, c).0, s),
        proxy_call(s, c).1 ==> proxy_call(s, c).0.events.len() == s.events.len() + 1,
{
}

/// The upgrade history is append-only: no call removes or changes a record.
pub proof fn lemma_history_append_only(s: ProxyState, c: ProxyCall)
    ensures
        history_of(s).is_prefix_of(history_of(proxy_call(s, c).0)),
{
    assert(history_of(s).is_prefix_of(history_of(s)));
    if c is ExecuteUpgrade && proxy_call(s, c).1 {
        assert(history_of(s).is_prefix_of(history_of(s).push(upgrade_record(s))));
    }
}

/// The version moves only through upgrades (up by one) and rollbacks (down
/// by one, not below 1), and initialization sets it to 1.
pub proof fn lemma_version_changes(s: ProxyState, c: ProxyCall)
    requires
        proxy_call_fits(s, c),
    ensures
        current_version(proxy_call(s, c).0) == match c {
            ProxyCall::Initialize(_) => if proxy_call(s, c).1 { 1 } else { current_version(s) },
            ProxyCall::ExecuteUpgrade(_) => if proxy_call(s, c).1 { (current_version(s) + 1) as u32 } else { current_version(s) },
            ProxyCall::RollbackUpgrade(_) => if proxy_call(s, c).1 { rolled_back_version(current_version(s)) } else { current_version(s) },
            _ => current_version(s),
        },
{
}

// ─── Laws over call sequences ───────────────────────────────────────────────

/// The state after running `calls` on `s`, first call first.
pub open spec fn run_proxy_calls(s: ProxyState, calls: Seq<ProxyCall>) -> ProxyState
    decreases calls.len(),
{
    if calls.len() == 0 {
        s
    } else {
        proxy_call(run_proxy_calls(s, calls.drop_last()), calls.last()).0
    }
}

/// Whether every call of `calls` can run without overflowing a counter.
pub open spec fn proxy_calls_fit(s: ProxyState, calls: Seq<ProxyCall>) -> bool
    decreases calls.len(),
{
    if calls.len() == 0 {
        true
    } else {
        proxy_calls_fit(s, calls.drop_last()) && proxy_call_fits(run_proxy_calls(s, calls.drop_last()), calls.last())
    }
}

/// The admin named by the first `Initialize` of `calls`, if any.
pub open spec fn first_initialize(calls: Seq<ProxyCall>) -> Option<Address>
    decreases calls.len(),
{
    if calls.len() == 0 {
        None
    } else {
        match first_initialize(calls.drop_last()) {
            Some(a) => Some(a),
            None => match calls.last() {
                ProxyCall::Initialize(a) => Some(a),
                _ => None,
            },
        }
    }
}

/// The history records of the successful upgrades among `calls` on `s`, in order.
pub open spec fn executed_upgrades(s: ProxyState, calls: Seq<ProxyCall>) -> Seq<UpgradeRecord>
    decreases calls.len(),
{
    if calls.len() == 0 {
        Seq::empty()
    } else {
        let before = run_proxy_calls(s, calls.drop_last());
        let earlier = executed_upgrades(s, calls.drop_last());
        if calls.last() is ExecuteUpgrade && proxy_call(before, calls.last()).1 {
            earlier.push(upgrade_record(before))
        } else {
            earlier
        }
    }
}

/// The number of successful rollbacks among `calls` on `s`.
pub open spec fn executed_rollbacks(s: ProxyState, calls: Seq<ProxyCall>) -> nat
    decreases calls.len(),
{
    if calls.len() == 0 {
        0
    } else {
        let before = run_proxy_calls(s, calls.drop_last());
        executed_rollbacks(s, calls.drop_last()) + if calls.last() is RollbackUpgrade && proxy_call(
            before,
            calls.last(),
        ).1 {
            1nat
        } else {
            0nat
        }
    }
}

/// After any sequence of calls, the admin is the one already recorded, or
/// else the one named by the first `initialize` of the sequence (none when
/// there was none).
pub proof fn lemma_admin_after_calls(s: ProxyState, calls: Seq<ProxyCall>)
    ensures
        run_proxy_calls(s, calls).admin == match s.admin {
            Some(a) => Some(a),
            None => first_initialize(calls),
        },
    decreases calls.len(),
{
    if calls.len() > 0 {
        lemma_admin_after_calls(s, calls.drop_last());
    }
}

/// After any sequence of calls, the history is the one before followed by
/// the records of the successful upgrades, in order: each holds the version
/// that upgrade returned and the hash it installed.
pub proof fn lemma_history_after_calls(s: ProxyState, calls: Seq<ProxyCall>)
    ensures
        history_of(run_proxy_calls(s, calls)) == history_of(s) + executed_upgrades(s, calls),
    decreases calls.len(),
{
    if calls.len() == 0 {
        assert(history_of(s) + Seq::<UpgradeRecord>::empty() =~= history_of(s));
    } else {
        lemma_history_after_calls(s, calls.drop_last());
        let before = run_proxy_calls(s, calls.drop_last());
        let earlier = executed_upgrades(s, calls.drop_last());
        if calls.last() is ExecuteUpgrade && proxy_call(before, calls.last()).1 {
            assert(history_of(s) + earlier.push(upgrade_record(before)) =~= (history_of(s) + earlier).push(
                upgrade_record(before),
            ));
        }
    }
}

/// From an uninitialized proxy, a successful initialization followed by any
/// calls without a successful rollback leaves version 1 plus the number of
/// successful upgrades.
pub proof fn lemma_version_from_initialization(s: ProxyState, admin: Address, calls: Seq<ProxyCall>)
    requires
        s.admin is None,
        proxy_calls_fit(initialize_step(s, admin).0, calls),
        executed_rollbacks(initialize_step(s, admin).0, calls) == 0,
    ensures
        current_version(run_proxy_calls(initialize_step(s, admin).0, calls)) == 1 + executed_upgrades(
            initialize_step(s, admin).0,
            calls,
        ).len(),
{
    lemma_version_counts_upgrades(initialize_step(s, admin).0, calls);
}

/// On an initialized proxy, a sequence of calls without a successful
/// rollback raises the version by exactly the number of successful upgrades.
pub proof fn lemma_version_counts_upgrades(s: ProxyState, calls: Seq<ProxyCall>)
    requires
        s.admin is Some,
        proxy_calls_fit(s, calls),
        executed_rollbacks(s, calls) == 0,
    ensures
        current_version(run_proxy_calls(s, calls)) == current_version(s) + executed_upgrades(s, calls).len(),
    decreases calls.len(),
{
    if calls.len() > 0 {
        lemma_version_counts_upgrades(s, calls.drop_last());
        lemma_admin_after_calls(s, calls.drop_last());
    }
}

} // verus!
