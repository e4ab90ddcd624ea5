//! Connection boundary: the capability the engine needs from a live
//! database connection, and an in-memory double. The engine only ever
//! executes whole scripts and reads or upserts rows of the bookkeeping
//! table, so the interface is narrow.

use vstd::prelude::*;
use vstd::string::*;

use crate::adb::{str_eq, SqlVal, ValV};
use crate::fs::name_set;
use crate::Error;

verus! {

/// The name of the applied-migrations bookkeeping table.
pub open spec fn migrations_table_name() -> Seq<char> {
    "propane_migrations"@
}

/// A row set that records exactly the applied names: one single-text-cell
/// row per name.
pub open spec fn rows_record(rows: Seq<Vec<SqlVal>>, applied: Set<Seq<char>>) -> bool {
    &&& forall|i: int|
        0 <= i < rows.len() ==> (#[trigger] rows[i])@.len() == 1 && (rows[i]@[0]@ matches ValV::Text(
            n,
        ) && applied.contains(n))
    &&& forall|n: Seq<char>|
        applied.contains(n) ==> exists|i: int|
            0 <= i < rows.len() && (#[trigger] rows[i])@.len() == 1 && rows[i]@[0]@
                == ValV::Text(n)
}

/// The capability the engine needs from a driver's connection. The
/// `applied()` set is the mathematical content of the bookkeeping table.
/// Executing an arbitrary script promises nothing of that set: a script
/// may create or drop the table itself.
pub trait BackendConnection: Sized {
    spec fn applied(&self) -> Set<Seq<char>>;

    spec fn backend(&self) -> Seq<char>;

    spec fn executed(&self) -> Seq<Seq<char>>;

    /// The name of the backend this connection speaks to.
    fn backend_name(&self) -> (r: String)
        ensures
            r@ == self.backend(),
    ;

    /// Execute a SQL script as one batch; the script joins the record of
    /// everything this connection has run.
    fn execute(&mut self, sql: &str) -> (r: Result<(), Error>)
        ensures
            final(self).backend() == old(self).backend(),
            r is Ok ==> final(self).executed() == old(self).executed().push(sql@),
    ;

    /// Insert or replace one row. Upserting a single text value into the
    /// bookkeeping table records that name as applied; other tables
    /// leave the bookkeeping set untouched.
    fn insert_or_replace(&mut self, table: &str, columns: &Vec<String>, values: &Vec<
        SqlVal,
    >) -> (r: Result<(), Error>)
        ensures
            final(self).backend() == old(self).backend(),
            final(self).executed() == old(self).executed(),
            r is Ok && table@ == migrations_table_name() && values@.len() == 1 ==> (values@[0]@
                matches ValV::Text(n) ==> final(self).applied() == old(self).applied().insert(n)),
            table@ != migrations_table_name() ==> final(self).applied() == old(self).applied(),
    ;

    /// Load all rows of a table. Reading the bookkeeping table returns
    /// one row per applied name.
    fn query(&self, table: &str, columns: &Vec<String>) -> (r: Result<Vec<Vec<SqlVal>>, Error>)
        ensures
            match r {
                Result::Ok(rows) => table@ == migrations_table_name() ==> rows_record(
                    rows@,
                    self.applied(),
                ),
                Result::Err(_) => true,
            },
    ;
}

/// An in-memory connection double: it remembers every executed script
/// and the contents of the bookkeeping table.
pub struct MemConnection {
    pub backend_label: String,
    pub scripts: Vec<String>,
    pub names: Vec<String>,
}

impl MemConnection {
    /// A fresh connection for the named backend, with nothing applied.
    pub fn new(backend_label: String) -> (r: MemConnection)
        ensures
            r.backend() == backend_label@,
            r.applied() == Set::<Seq<char>>::empty(),
    {
        MemConnection { backend_label, scripts: Vec::new(), names: Vec::new() }
    }

    /// The scripts executed so far, in order.
    pub fn script_count(&self) -> (r: usize)
        ensures
            r == self.scripts@.len(),
    {
        self.scripts.len()
    }
}

/// A name list holds a name exactly when its set does.
proof fn lemma_name_set_contains(names: Seq<String>, n: Seq<char>)
    ensures
        name_set(names).contains(n) <==> exists|i: int|
            0 <= i < names.len() && (#[trigger] names[i])@ == n,
    decreases names.len(),
{
    if names.len() > 0 {
        lemma_name_set_contains(names.drop_last(), n);
        if names.last()@ == n {
            assert(names[names.len() - 1]@ == n);
        } else if name_set(names).contains(n) {
            let i = choose|i: int|
                0 <= i < names.drop_last().len() && (#[trigger] names.drop_last()[i])@ == n;
            assert(names[i]@ == n);
        } else {
            assert forall|i: int| 0 <= i < names.len() implies (#[trigger] names[i])@ != n by {
                if i < names.len() - 1 {
                    assert(names.drop_last()[i] == names[i]);
                }
            }
        }
    }
}

impl BackendConnection for MemConnection {
    open spec fn applied(&self) -> Set<Seq<char>> {
        name_set(self.names@)
    }

    open spec fn backend(&self) -> Seq<char> {
        self.backend_label@
    }

    open spec fn executed(&self) -> Seq<Seq<char>> {
        self.scripts@.map_values(|s: String| s@)
    }

    fn backend_name(&self) -> (r: String) {
        self.backend_label.clone()
    }

    fn execute(&mut self, sql: &str) -> (r: Result<(), Error>)
        ensures
            r is Ok,
    {
        let ghost pre = self.scripts@;
        self.scripts.push(sql.to_owned());
        proof {
            assert(self.scripts@.drop_last() =~= pre);
            assert(self.scripts@.map_values(|s: String| s@) =~= pre.map_values(
                |s: String| s@,
            ).push(sql@));
        }
        Result::Ok(())
    }

    fn insert_or_replace(&mut self, table: &str, columns: &Vec<String>, values: &Vec<
        SqlVal,
    >) -> (r: Result<(), Error>)
        ensures
            table@ == migrations_table_name() && values@.len() == 1 && (values@[0]@
                matches ValV::Text(_)) ==> r is Ok,
            table@ != migrations_table_name() ==> r is Ok,
    {
        if !str_eq(table, "propane_migrations") {
            proof {
                reveal_strlit("propane_migrations");
            }
            return Result::Ok(());
        }
        proof {
            reveal_strlit("propane_migrations");
        }
        if values.len() != 1 {
            return Result::Err(Error::BoundsError);
        }
        match &values[0] {
            SqlVal::Text(n) => {
                let ghost pre = self.names@;
                self.names.push(n.clone());
                proof {
                    assert(self.names@.drop_last() =~= pre);
                }
                Result::Ok(())
            },
            _ => Result::Err(Error::BoundsError),
        }
    }

    #[verifier::loop_isolation(false)]
    fn query(&self, table: &str, columns: &Vec<String>) -> (r: Result<Vec<Vec<SqlVal>>, Error>)
        ensures
            r is Ok,
    {
        let mut rows: Vec<Vec<SqlVal>> = Vec::new();
        if !str_eq(table, "propane_migrations") {
            proof {
                reveal_strlit("propane_migrations");
            }
            return Result::Ok(rows);
        }
        proof {
            reveal_strlit("propane_migrations");
        }
        let mut i: usize = 0;
        while i < self.names.len()
            invariant
                i <= self.names@.len(),
                rows@.len() == i,
                forall|k: int|
                    0 <= k < i ==> (#[trigger] rows@[k])@.len() == 1 && rows@[k]@[0]@
                        == ValV::Text(self.names@[k]@),
            decreases self.names@.len() - i,
        {
            let mut row: Vec<SqlVal> = Vec::new();
            row.push(SqlVal::Text(self.names[i].clone()));
            rows.push(row);
            i = i + 1;
        }
        proof {
            assert forall|k: int|
                0 <= k < rows@.len() implies (#[trigger] rows@[k])@.len() == 1 && (rows@[k]@[0]@
                matches ValV::Text(n) && self.applied().contains(n)) by {
                lemma_name_set_contains(self.names@, self.names@[k]@);
            }
            assert forall|n: Seq<char>| self.applied().contains(n) implies exists|k: int|
                0 <= k < rows@.len() && (#[trigger] rows@[k])@.len() == 1 && rows@[k]@[0]@
                    == ValV::Text(n) by {
                lemma_name_set_contains(self.names@, n);
                let i = choose|i: int| 0 <= i < self.names@.len() && (#[trigger] self.names@[i])@ == n;
                assert(rows@[i]@.len() == 1 && rows@[i]@[0]@ == ValV::Text(n));
            }
        }
        Result::Ok(rows)
    }
}

} // verus!
