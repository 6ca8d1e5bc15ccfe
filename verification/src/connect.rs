//! Connection configuration, backend selection, and driver lifecycle.
//!
//! The rules here are the decision half of the connection layer: which
//! backend a connection string selects, what path the distributed
//! store's driver should open, and when the process-wide driver may be
//! started or stopped. The filesystem probes and the driver calls
//! themselves are the surrounding program's work; they hand plain
//! values in.

use vstd::prelude::*;

use vstd::string::StringSliceAdditionalSpecFns;

use crate::bytes::starts_with;
use crate::error::DbConnError;
use crate::keyspace::{child_prefix, sealed_prefix, KvKeyspace, RdbKeyspace};

verus! {

/// Configuration of the embedded optimistic store.
pub struct RdbConfig {
    /// Filesystem directory holding the store.
    pub db_path: String,
    /// The name of the base keyspace all data lives under.
    pub keyspace: String,
    /// How many times a conflicting transaction is attempted.
    pub retry_attempts: usize,
}

/// Configuration of the distributed transactional store.
pub struct FdbConfig {
    /// Path of the cluster descriptor file, optionally `fdb:`-prefixed.
    pub cluster_path: String,
    /// The name of the base keyspace all data lives under.
    pub base_subspace: String,
    /// The driver's internal retry ceiling per transaction.
    pub max_repeat: i32,
    /// The driver's per-transaction timeout, in milliseconds.
    pub trx_timeout_millis: u64,
}

/// The on-disk schema version, appended to every base keyspace: `v2`.
pub open spec fn schema_version() -> Seq<u8> {
    seq![0x76u8, 0x32u8]
}

/// The base keyspace of an embedded store: the configured name narrowed
/// by the schema version.
pub fn rdb_base_keyspace(name: &str) -> (ks: RdbKeyspace)
    ensures
        ks.prefix() == child_prefix(sealed_prefix(name.spec_bytes()), schema_version()),
{
    let named = RdbKeyspace::from_bytes(name.as_bytes());
    let ks = named.keyspace(&[0x76, 0x32]);
    proof {
        assert(ks.prefix() =~= child_prefix(sealed_prefix(name.spec_bytes()), schema_version()));
    }
    ks
}

/// The backends a connection string can select.
#[derive(Clone, Copy, PartialEq, Eq, Structural, Debug)]
pub enum DbConnType {
    /// The distributed transactional store.
    Fdb,
    /// The embedded optimistic store.
    Rdb,
    /// A relational backend, handled elsewhere.
    Mysql,
    /// A relational backend, handled elsewhere.
    Pgsql,
    /// The fallback relational backend, handled elsewhere.
    Sqlite,
}

/// Which backends this build can serve.
#[derive(Clone, Copy, PartialEq, Eq, Structural, Debug)]
pub struct EnabledBackends {
    /// The distributed transactional store is compiled in.
    pub fdb: bool,
    /// The embedded optimistic store is compiled in.
    pub rdb: bool,
    /// The MySQL backend is compiled in.
    pub mysql: bool,
    /// The PostgreSQL backend is compiled in.
    pub pgsql: bool,
    /// The SQLite backend is compiled in.
    pub sqlite: bool,
}

/// What the filesystem says about a connection string taken as a path.
#[derive(Clone, Copy, PartialEq, Eq, Structural, Debug)]
pub struct PathProbe {
    /// The path names an existing directory.
    pub is_dir: bool,
    /// The path carries the cluster-descriptor file extension.
    pub has_cluster_extension: bool,
}

/// The bytes of `mysql:`.
pub open spec fn mysql_scheme() -> Seq<u8> {
    seq![0x6du8, 0x79u8, 0x73u8, 0x71u8, 0x6cu8, 0x3au8]
}

/// The bytes of `postgresql:`.
pub open spec fn postgresql_scheme() -> Seq<u8> {
    seq![0x70u8, 0x6fu8, 0x73u8, 0x74u8, 0x67u8, 0x72u8, 0x65u8, 0x73u8, 0x71u8, 0x6cu8, 0x3au8]
}

/// The bytes of `postgres:`.
pub open spec fn postgres_scheme() -> Seq<u8> {
    seq![0x70u8, 0x6fu8, 0x73u8, 0x74u8, 0x67u8, 0x72u8, 0x65u8, 0x73u8, 0x3au8]
}

/// Which backend a connection string selects: a remote-scheme prefix
/// wins; otherwise a directory is the embedded store, a cluster
/// descriptor is the distributed store, and anything else falls back to
/// SQLite.
pub open spec fn spec_guess_type(s: Seq<u8>, probe: PathProbe) -> DbConnType {
    if mysql_scheme().is_prefix_of(s) {
        DbConnType::Mysql
    } else if postgresql_scheme().is_prefix_of(s) || postgres_scheme().is_prefix_of(s) {
        DbConnType::Pgsql
    } else if probe.is_dir {
        DbConnType::Rdb
    } else if probe.has_cluster_extension {
        DbConnType::Fdb
    } else {
        DbConnType::Sqlite
    }
}

/// Whether this build serves the backend.
pub open spec fn spec_enabled(e: EnabledBackends, t: DbConnType) -> bool {
    match t {
        DbConnType::Fdb => e.fdb,
        DbConnType::Rdb => e.rdb,
        DbConnType::Mysql => e.mysql,
        DbConnType::Pgsql => e.pgsql,
        DbConnType::Sqlite => e.sqlite,
    }
}

/// Selects the backend for a connection string, rejecting one this
/// build cannot serve.
pub fn guess_type(conn_str: &str, probe: &PathProbe, enabled: &EnabledBackends) -> (r: Result<
    DbConnType,
    DbConnError,
>)
    ensures
        match r {
            Ok(t) => t == spec_guess_type(conn_str.spec_bytes(), *probe) && spec_enabled(
                *enabled,
                t,
            ),
            Err(e) => (e matches DbConnError::DbDisabled(t, _) && t == spec_guess_type(
                conn_str.spec_bytes(),
                *probe,
            )) && !spec_enabled(*enabled, spec_guess_type(conn_str.spec_bytes(), *probe)),
        },
{
    let bytes = conn_str.as_bytes();
    let db_type: DbConnType = if starts_with(bytes, &[0x6d, 0x79, 0x73, 0x71, 0x6c, 0x3a]) {
        proof {
            assert(mysql_scheme() =~= seq![0x6du8, 0x79u8, 0x73u8, 0x71u8, 0x6cu8, 0x3au8]);
        }
        DbConnType::Mysql
    } else if starts_with(
        bytes,
        &[0x70, 0x6f, 0x73, 0x74, 0x67, 0x72, 0x65, 0x73, 0x71, 0x6c, 0x3a],
    ) || starts_with(bytes, &[0x70, 0x6f, 0x73, 0x74, 0x67, 0x72, 0x65, 0x73, 0x3a]) {
        proof {
            assert(postgresql_scheme() =~= seq![
                0x70u8,
                0x6fu8,
                0x73u8,
                0x74u8,
                0x67u8,
                0x72u8,
                0x65u8,
                0x73u8,
                0x71u8,
                0x6cu8,
                0x3au8,
            ]);
            assert(postgres_scheme() =~= seq![
                0x70u8,
                0x6fu8,
                0x73u8,
                0x74u8,
                0x67u8,
                0x72u8,
                0x65u8,
                0x73u8,
                0x3au8,
            ]);
            assert(mysql_scheme() =~= seq![0x6du8, 0x79u8, 0x73u8, 0x71u8, 0x6cu8, 0x3au8]);
        }
        DbConnType::Pgsql
    } else {
        proof {
            assert(mysql_scheme() =~= seq![0x6du8, 0x79u8, 0x73u8, 0x71u8, 0x6cu8, 0x3au8]);
            assert(postgresql_scheme() =~= seq![
                0x70u8,
                0x6fu8,
                0x73u8,
                0x74u8,
                0x67u8,
                0x72u8,
                0x65u8,
                0x73u8,
                0x71u8,
                0x6cu8,
                0x3au8,
            ]);
            assert(postgres_scheme() =~= seq![
                0x70u8,
                0x6fu8,
                0x73u8,
                0x74u8,
                0x67u8,
                0x72u8,
                0x65u8,
                0x73u8,
                0x3au8,
            ]);
        }
        if probe.is_dir {
            DbConnType::Rdb
        } else if probe.has_cluster_extension {
            DbConnType::Fdb
        } else {
            DbConnType::Sqlite
        }
    };
    let on = match db_type {
        DbConnType::Fdb => enabled.fdb,
        DbConnType::Rdb => enabled.rdb,
        DbConnType::Mysql => enabled.mysql,
        DbConnType::Pgsql => enabled.pgsql,
        DbConnType::Sqlite => enabled.sqlite,
    };
    if on {
        Ok(db_type)
    } else {
        Err(DbConnError::DbDisabled(db_type, conn_str.to_owned()))
    }
}

/// The process-wide driver's lifecycle state.
pub enum RunnerState {
    /// The driver's network runner is live.
    Running,
    /// The runner was taken down; it cannot come back in this process.
    Stopped,
}

/// Starting the driver: a no-op success while it runs, an error once it
/// has been stopped.
pub fn start_runner(state: &RunnerState) -> (r: Result<(), DbConnError>)
    ensures
        match r {
            Ok(()) => state is Running,
            Err(e) => state is Stopped && e matches DbConnError::StartError(_),
        },
{
    match state {
        RunnerState::Running => Ok(()),
        RunnerState::Stopped => Err(
            DbConnError::StartError("the network runner has already been stopped".to_owned()),
        ),
    }
}

/// Stopping the driver: takes it down exactly once; a second stop is an
/// error.
pub fn stop_runner(state: &mut RunnerState) -> (r: Result<(), DbConnError>)
    ensures
        *final(state) is Stopped,
        match r {
            Ok(()) => *old(state) is Running,
            Err(e) => *old(state) is Stopped && (e matches DbConnError::StopError(_)),
        },
{
    match state {
        RunnerState::Running => {
            *state = RunnerState::Stopped;
            Ok(())
        },
        RunnerState::Stopped => Err(
            DbConnError::StopError("the network runner has already been stopped".to_owned()),
        ),
    }
}

/// The leading characters of an `fdb:`-prefixed cluster path.
pub open spec fn fdb_scheme() -> Seq<char> {
    seq!['f', 'd', 'b', ':']
}

/// A cluster path with any `fdb:` scheme prefix stripped.
pub open spec fn spec_cluster_file(s: Seq<char>) -> Seq<char> {
    if s.len() >= 4 && s.subrange(0, 4) == fdb_scheme() {
        s.subrange(4, s.len() as int)
    } else {
        s
    }
}

/// The cluster file the driver should open: the configured path without
/// its scheme prefix — provided the path names a readable file, else
/// the connection cannot be established.
pub fn fdb_cluster_file(config: &FdbConfig, path_is_file: bool) -> (r: Result<String, DbConnError>)
    ensures
        match r {
            Ok(p) => path_is_file && p@ == spec_cluster_file(config.cluster_path@),
            Err(e) => !path_is_file && e matches DbConnError::EstablishFail(_),
        },
{
    if !path_is_file {
        return Err(
            DbConnError::EstablishFail("cluster file not found or unreadable".to_owned()),
        );
    }
    let s = config.cluster_path.as_str();
    let n = s.unicode_len();
    if n >= 4 && s.get_char(0) == 'f' && s.get_char(1) == 'd' && s.get_char(2) == 'b'
        && s.get_char(3) == ':' {
        proof {
            assert(s@.subrange(0, 4) =~= fdb_scheme());
        }
        Ok(s.substring_char(4, n).to_owned())
    } else {
        proof {
            if s@.len() >= 4 && s@.subrange(0, 4) == fdb_scheme() {
                assert(s@[0] == 'f' && s@[1] == 'd' && s@[2] == 'b' && s@[3] == ':') by {
                    assert(s@.subrange(0, 4)[0] == s@[0]);
                    assert(s@.subrange(0, 4)[1] == s@[1]);
                    assert(s@.subrange(0, 4)[2] == s@[2]);
                    assert(s@.subrange(0, 4)[3] == s@[3]);
                }
            }
        }
        Ok(s.to_owned())
    }
}

} // verus!
