//! The migration engine: an append-only chain of schema changes, numbered from
//! one, and the bookkeeping that walks a database forward along it.
//!
//! The engine never touches a database itself. It names the migration that is
//! due, is told how running it went, and records a version only for a body
//! that ran to its end. A host that can run SQL drives it step by step, or
//! hands `run` an executor built on a function that executes one migration.
//!
//! A body that has shipped is history: a database that has recorded a version
//! never sees a later edit of that version's body. Changes go into a new
//! migration at the end of the chain.

use vstd::prelude::*;
use crate::executor::Executor;

verus! {

/// One link of the chain: a version, a short name, and the body to execute.
/// The body is opaque to the engine; schema changes and seed data look alike.
#[derive(Debug, Clone, PartialEq, Eq)]
pub struct Migration {
    pub version: u64,
    pub description: String,
    pub sql: String,
}

/// Why a list of migrations is not a chain: the entry at `index` carries
/// version `found` where `index + 1` belongs.
#[derive(Debug, Clone, Copy, PartialEq, Eq, Structural)]
pub struct ChainError {
    pub index: usize,
    pub found: u64,
}

/// A migration whose body did not run to its end. The recorded version stays
/// just below `version`.
#[derive(Debug, Clone, PartialEq, Eq)]
pub struct MigrationFailure {
    pub version: u64,
    pub reason: String,
}

/// What the host reports after executing the migration that was due.
#[derive(Debug, Clone, PartialEq, Eq)]
pub enum Outcome {
    Applied,
    Failed(String),
}

/// Body of the first migration: the five core tables and the triggers that
/// refresh `updated_at` on every update.
pub const INITIAL_SCHEMA: &'static str = "
CREATE TABLE IF NOT EXISTS client (
    id INTEGER PRIMARY KEY AUTOINCREMENT,
    company TEXT UNIQUE NOT NULL,
    first_name TEXT,
    last_name TEXT,
    email TEXT,
    phone TEXT,
    province TEXT NOT NULL,
    city TEXT NOT NULL,
    deleted INTEGER DEFAULT(0),
    created_at TEXT DEFAULT CURRENT_TIMESTAMP,
    updated_at TEXT DEFAULT CURRENT_TIMESTAMP
);

CREATE TABLE IF NOT EXISTS auction (
    id INTEGER PRIMARY KEY AUTOINCREMENT,
    name TEXT NOT NULL,
    province TEXT NOT NULL,
    city TEXT NOT NULL,
    date TEXT NOT NULL,
    status TEXT NOT NULL DEFAULT('PENDING')
        CHECK(status IN ('PENDING', 'IN_PROGRESS', 'CANCELLED', 'FINISHED')),
    deleted INTEGER DEFAULT(0),
    created_at TEXT DEFAULT CURRENT_TIMESTAMP,
    updated_at TEXT DEFAULT CURRENT_TIMESTAMP
);

CREATE TABLE IF NOT EXISTS bundle (
    id INTEGER PRIMARY KEY AUTOINCREMENT,
    number INTEGER NOT NULL,
    name TEXT NOT NULL,
    observations TEXT,
    seller_id INTEGER NOT NULL,
    auction_id INTEGER NOT NULL,
    deleted INTEGER DEFAULT(0),
    created_at TEXT DEFAULT CURRENT_TIMESTAMP,
    updated_at TEXT DEFAULT CURRENT_TIMESTAMP,
    FOREIGN KEY (seller_id) REFERENCES client(id) ON DELETE CASCADE ON UPDATE CASCADE,
    FOREIGN KEY (auction_id) REFERENCES auction(id) ON DELETE CASCADE ON UPDATE CASCADE,
    UNIQUE (number, auction_id)
);

CREATE TABLE IF NOT EXISTS sales (
    id INTEGER PRIMARY KEY AUTOINCREMENT,
    auction_id INTEGER NOT NULL,
    buyer_id INTEGER,
    total_price REAL NOT NULL DEFAULT 0,
    deadline TEXT NOT NULL,
    deleted INTEGER DEFAULT(0),
    created_at TEXT DEFAULT CURRENT_TIMESTAMP,
    updated_at TEXT DEFAULT CURRENT_TIMESTAMP,
    FOREIGN KEY (auction_id) REFERENCES auction(id) ON DELETE CASCADE ON UPDATE CASCADE,
    FOREIGN KEY (buyer_id) REFERENCES client(id) ON DELETE SET NULL ON UPDATE CASCADE
);

CREATE TABLE IF NOT EXISTS sales_details (
    id INTEGER PRIMARY KEY AUTOINCREMENT,
    sale_id INTEGER NOT NULL,
    bundle_id INTEGER NOT NULL,
    deleted INTEGER DEFAULT(0),
    created_at TEXT DEFAULT CURRENT_TIMESTAMP,
    updated_at TEXT DEFAULT CURRENT_TIMESTAMP,
    FOREIGN KEY (sale_id) REFERENCES sales(id) ON DELETE CASCADE ON UPDATE CASCADE,
    FOREIGN KEY (bundle_id) REFERENCES bundle(id) ON DELETE CASCADE ON UPDATE CASCADE,
    UNIQUE (sale_id, bundle_id)
);

CREATE TRIGGER IF NOT EXISTS update_client_timestamp
AFTER UPDATE ON client
FOR EACH ROW
    BEGIN
        UPDATE client SET updated_at = CURRENT_TIMESTAMP WHERE id = OLD.id;
    END;

CREATE TRIGGER IF NOT EXISTS update_auction_timestamp
AFTER UPDATE ON auction
FOR EACH ROW
    BEGIN
        UPDATE auction SET updated_at = CURRENT_TIMESTAMP WHERE id = OLD.id;
    END;

CREATE TRIGGER IF NOT EXISTS update_bundle_timestamp
AFTER UPDATE ON bundle
FOR EACH ROW
    BEGIN
        UPDATE bundle SET updated_at = CURRENT_TIMESTAMP WHERE id = OLD.id;
    END;

CREATE TRIGGER IF NOT EXISTS update_sales_timestamp
AFTER UPDATE ON sales
FOR EACH ROW
    BEGIN
        UPDATE sales SET updated_at = CURRENT_TIMESTAMP WHERE id = OLD.id;
    END;

CREATE TRIGGER IF NOT EXISTS update_sales_details_timestamp
AFTER UPDATE ON sales_details
FOR EACH ROW
    BEGIN
        UPDATE sales_details SET updated_at = CURRENT_TIMESTAMP WHERE id = OLD.id;
    END;
";

/// Body of the second migration: the transactions table and its trigger.
pub const TRANSACTIONS_SCHEMA: &'static str = "
CREATE TABLE IF NOT EXISTS transactions (
    id INTEGER PRIMARY KEY AUTOINCREMENT,
    auction_id INTEGER NOT NULL,
    client_id INTEGER NOT NULL,
    amount REAL NOT NULL CHECK(amount >= 0),
    type TEXT CHECK(type IN ('PAYMENT', 'COLLECTION')) NOT NULL,
    deleted INTEGER DEFAULT(0),
    created_at TEXT DEFAULT CURRENT_TIMESTAMP,
    updated_at TEXT DEFAULT CURRENT_TIMESTAMP,
    FOREIGN KEY (auction_id) REFERENCES auction(id) ON DELETE CASCADE ON UPDATE CASCADE,
    FOREIGN KEY (client_id) REFERENCES client(id) ON DELETE CASCADE ON UPDATE CASCADE
);

CREATE TRIGGER IF NOT EXISTS update_transactions_timestamp
AFTER UPDATE ON transactions
FOR EACH ROW
    BEGIN
        UPDATE transactions SET updated_at = CURRENT_TIMESTAMP WHERE id = OLD.id;
    END;
";

/// The entries before `upto` are numbered one, two, three, and so on.
pub open spec fn chain_until(migrations: Seq<Migration>, upto: int) -> bool {
    forall|i: int|
        0 <= i < upto && i < migrations.len() ==> (#[trigger] migrations[i]).version == i + 1
}

/// A chain: the migration at position `i` carries version `i + 1`, so none is
/// missing, repeated or out of place.
pub open spec fn is_chain(migrations: Seq<Migration>) -> bool {
    chain_until(migrations, migrations.len() as int)
}

/// The migrations still to run on a database at `version`, in the order in
/// which they run.
pub open spec fn pending_from(migrations: Seq<Migration>, version: u64) -> Seq<Migration> {
    if version < migrations.len() {
        migrations.skip(version as int)
    } else {
        Seq::empty()
    }
}

/// The versions of a run of migrations, in order.
pub open spec fn versions_of(migrations: Seq<Migration>) -> Seq<u64> {
    Seq::new(migrations.len(), |i: int| migrations[i].version)
}

/// The version a database at `version` reaches once everything pending ran.
pub open spec fn settled(migrations: Seq<Migration>, version: u64) -> int {
    if version < migrations.len() {
        migrations.len() as int
    } else {
        version as int
    }
}

/// The chain this ledger ships: the core tables first, transactions second.
pub fn schema_migrations() -> (chain: Vec<Migration>)
    ensures
        is_chain(chain@),
        chain@.len() == 2,
        chain@[0].description@ == "create_initial_tables"@,
        chain@[0].sql@ == INITIAL_SCHEMA@,
        chain@[1].description@ == "add_transactions_table"@,
        chain@[1].sql@ == TRANSACTIONS_SCHEMA@,
{
    let mut chain: Vec<Migration> = Vec::new();
    chain.push(
        Migration {
            version: 1,
            description: "create_initial_tables".to_owned(),
            sql: INITIAL_SCHEMA.to_owned(),
        },
    );
    chain.push(
        Migration {
            version: 2,
            description: "add_transactions_table".to_owned(),
            sql: TRANSACTIONS_SCHEMA.to_owned(),
        },
    );
    chain
}

/// Tracks how far along a chain a database has come.
pub struct Engine {
    migrations: Vec<Migration>,
    version: u64,
}

impl Engine {
    /// The chain the engine walks.
    pub closed spec fn chain(&self) -> Seq<Migration> {
        self.migrations@
    }

    /// The last version recorded as applied; zero before the first.
    pub closed spec fn recorded(&self) -> u64 {
        self.version
    }

    /// The engine only ever holds a chain.
    pub open spec fn wf(&self) -> bool {
        is_chain(self.chain())
    }

    /// Takes a list of migrations and the version the database reports.
    /// Refuses a list that is not a chain, naming the first entry out of
    /// place.
    pub fn new(migrations: Vec<Migration>, version: u64) -> (r: Result<Engine, ChainError>)
        ensures
            match r {
                Ok(engine) => {
                    &&& is_chain(migrations@)
                    &&& engine.wf()
                    &&& engine.chain() == migrations@
                    &&& engine.recorded() == version
                },
                Err(e) => {
                    &&& e.index < migrations@.len()
                    &&& chain_until(migrations@, e.index as int)
                    &&& migrations@[e.index as int].version == e.found
                    &&& e.found != e.index + 1
                },
            },
    {
        let mut i: usize = 0;
        while i < migrations.len()
            invariant
                i <= migrations.len(),
                chain_until(migrations@, i as int),
            decreases migrations.len() - i,
        {
            let found = migrations[i].version;
            if found != (i as u64) + 1 {
                return Err(ChainError { index: i, found });
            }
            i += 1;
        }
        Ok(Engine { migrations, version })
    }

    /// The last version recorded as applied.
    pub fn version(&self) -> (v: u64)
        ensures
            v == self.recorded(),
    {
        self.version
    }

    /// The version of the last migration of the chain.
    pub fn latest(&self) -> (v: u64)
        ensures
            v == self.chain().len(),
    {
        self.migrations.len() as u64
    }

    /// Whether nothing is left to run.
    pub fn is_current(&self) -> (b: bool)
        ensures
            b == (pending_from(self.chain(), self.recorded()).len() == 0),
    {
        self.version >= self.migrations.len() as u64
    }

    /// The migration that is due: the first one above the recorded version.
    pub fn next(&self) -> (r: Option<&Migration>)
        ensures
            r == if self.recorded() < self.chain().len() {
                Some(&self.chain()[self.recorded() as int])
            } else {
                None
            },
    {
        if self.version < self.migrations.len() as u64 {
            Some(&self.migrations[self.version as usize])
        } else {
            None
        }
    }

    /// The versions still to run, in the order in which they run.
    pub fn pending_versions(&self) -> (versions: Vec<u64>)
        ensures
            versions@ == versions_of(pending_from(self.chain(), self.recorded())),
    {
        let ghost rest = pending_from(self.chain(), self.recorded());
        let mut versions: Vec<u64> = Vec::new();
        if self.version >= self.migrations.len() as u64 {
            assert(versions@ =~= versions_of(rest));
            return versions;
        }
        let start = self.version as usize;
        let mut i: usize = start;
        while i < self.migrations.len()
            invariant
                start <= i <= self.migrations.len(),
                rest == self.migrations@.skip(start as int),
                versions@ == versions_of(rest.take(i - start)),
            decreases self.migrations.len() - i,
        {
            versions.push(self.migrations[i].version);
            i += 1;
            assert(versions@ =~= versions_of(rest.take(i - start)));
        }
        assert(rest.take(rest.len() as int) == rest);
        versions
    }

    /// Takes in how the migration that was due went. A body that ran to its
    /// end moves the recorded version up by one; a failure leaves it where it
    /// was and comes back as the error, with the version that failed. With
    /// nothing due the report is ignored and the answer is `Ok(false)`.
    pub fn record(&mut self, outcome: Outcome) -> (r: Result<bool, MigrationFailure>)
        requires
            old(self).wf(),
        ensures
            final(self).wf(),
            final(self).chain() == old(self).chain(),
            old(self).recorded() >= old(self).chain().len() ==> {
                &&& r == Ok::<bool, MigrationFailure>(false)
                &&& final(self).recorded() == old(self).recorded()
            },
            old(self).recorded() < old(self).chain().len() ==> match outcome {
                Outcome::Applied => {
                    &&& r == Ok::<bool, MigrationFailure>(true)
                    &&& final(self).recorded() == old(self).recorded() + 1
                },
                Outcome::Failed(reason) => {
                    &&& r == Err::<bool, MigrationFailure>(
                        MigrationFailure { version: (old(self).recorded() + 1) as u64, reason },
                    )
                    &&& final(self).recorded() == old(self).recorded()
                },
            },
    {
        if self.version >= self.migrations.len() as u64 {
            return Ok(false);
        }
        match outcome {
            Outcome::Applied => {
                self.version = self.version + 1;
                Ok(true)
            },
            Outcome::Failed(reason) => Err(MigrationFailure { version: self.version + 1, reason }),
        }
    }

    /// Runs everything pending through the host's executor, lowest version
    /// first, each body once, and records each version as soon as its body
    /// has run to its end. Stops at the first failure, which it returns; the
    /// recorded version then names the last migration that succeeded, and
    /// nothing above the failed one was executed. With nothing pending,
    /// nothing is executed and nothing changes.
    pub fn run<F: Fn(&Migration) -> Result<(), String>>(
        &mut self,
        host: &mut Executor<F>,
    ) -> (r: Result<(), MigrationFailure>)
        requires
            old(self).wf(),
            forall|m: &Migration| call_requires(old(host).action(), (m,)),
        ensures
            final(self).wf(),
            final(self).chain() == old(self).chain(),
            final(host).action() == old(host).action(),
            old(self).recorded() <= final(self).recorded(),
            old(self).recorded() >= old(self).chain().len() ==> {
                &&& r is Ok
                &&& final(self).recorded() == old(self).recorded()
                &&& final(host).ran() == old(host).ran()
            },
            forall|k: int|
                old(self).recorded() <= k < final(self).recorded() ==> call_ensures(
                    old(host).action(),
                    (&#[trigger] old(self).chain()[k],),
                    Ok::<(), String>(()),
                ),
            match r {
                Ok(_) => {
                    &&& final(self).recorded() == settled(old(self).chain(), old(self).recorded())
                    &&& final(host).ran() == old(host).ran() + versions_of(
                        pending_from(old(self).chain(), old(self).recorded()),
                    )
                },
                Err(failure) => {
                    &&& final(self).recorded() < old(self).chain().len()
                    &&& failure.version == final(self).recorded() + 1
                    &&& call_ensures(
                        old(host).action(),
                        (&old(self).chain()[final(self).recorded() as int],),
                        Err::<(), String>(failure.reason),
                    )
                    &&& final(host).ran() == old(host).ran() + versions_of(
                        pending_from(old(self).chain(), old(self).recorded()),
                    ).take(failure.version - old(self).recorded())
                },
            },
    {
        let ghost start = self.version;
        let ghost chain = self.migrations@;
        let ghost before = host.ran();
        let ghost action = host.action();
        assert(host.ran() =~= before + handed(chain, start as int, self.version as int));
        while self.version < self.migrations.len() as u64
            invariant
                self.migrations@ == chain,
                chain == old(self).migrations@,
                start == old(self).version,
                before == old(host).ran(),
                action == old(host).action(),
                host.action() == action,
                is_chain(chain),
                start <= self.version,
                start < chain.len() ==> self.version <= chain.len(),
                start >= chain.len() ==> self.version == start,
                host.ran() == before + handed(chain, start as int, self.version as int),
                forall|m: &Migration| call_requires(action, (m,)),
                forall|k: int|
                    start <= k < self.version ==> call_ensures(
                        action,
                        (&#[trigger] chain[k],),
                        Ok::<(), String>(()),
                    ),
            decreases chain.len() - self.version,
        {
            let ghost at = self.version as int;
            let due = &self.migrations[self.version as usize];
            let result = host.execute(due);
            assert(host.ran() =~= before + handed(chain, start as int, at + 1));
            match result {
                Ok(done) => {
                    assert(done == ());
                    assert(call_ensures(action, (&chain[at],), Ok::<(), String>(())));
                    self.version = self.version + 1;
                },
                Err(reason) => {
                    assert(handed(chain, start as int, at + 1) =~= versions_of(
                        pending_from(chain, start),
                    ).take(at + 1 - start));
                    return Err(MigrationFailure { version: self.version + 1, reason });
                },
            }
        }
        assert(handed(chain, start as int, self.version as int) =~= versions_of(
            pending_from(chain, start),
        ));
        Ok(())
    }
}

/// The versions of the migrations from position `from` up to, not including,
/// position `to`.
spec fn handed(chain: Seq<Migration>, from: int, to: int) -> Seq<u64> {
    Seq::new((to - from) as nat, |i: int| chain[from + i].version)
}

/// Only what lies above the recorded version is pending, in ascending order
/// with nothing skipped: the first pending migration is the one right above
/// the recorded version, each one after it is one higher, and no migration
/// above the recorded version is left out. These are the versions, and this
/// the order, in which a run executes.
pub proof fn lemma_pending_is_everything_above(migrations: Seq<Migration>, version: u64)
    requires
        is_chain(migrations),
    ensures
        versions_of(pending_from(migrations, version)).len() == pending_from(
            migrations,
            version,
        ).len(),
        forall|i: int|
            0 <= i < pending_from(migrations, version).len() ==> (#[trigger] versions_of(
                pending_from(migrations, version),
            )[i]) == version + 1 + i,
        forall|i: int|
            0 <= i < pending_from(migrations, version).len() ==> (#[trigger] pending_from(
                migrations,
                version,
            )[i]).version == version + 1 + i,
        forall|j: int|
            0 <= j < migrations.len() && (#[trigger] migrations[j]).version > version
                ==> pending_from(migrations, version).contains(migrations[j]),
        version + pending_from(migrations, version).len() == settled(migrations, version),
{
    let rest = pending_from(migrations, version);
    assert forall|j: int| 0 <= j < migrations.len() && (#[trigger] migrations[j]).version
        > version implies rest.contains(migrations[j]) by {
        assert(rest[j - version] == migrations[j]);
    }
}

/// Migrating twice in a row ends where migrating once ends, and the second
/// pass finds nothing to run: what it executes is the empty list.
pub proof fn lemma_migrating_again_changes_nothing(migrations: Seq<Migration>, version: u64)
    requires
        is_chain(migrations),
        settled(migrations, version) <= u64::MAX,
    ensures
        pending_from(migrations, settled(migrations, version) as u64).len() == 0,
        versions_of(pending_from(migrations, settled(migrations, version) as u64))
            == Seq::<u64>::empty(),
        settled(migrations, settled(migrations, version) as u64) == settled(migrations, version),
{
}

} // verus!
