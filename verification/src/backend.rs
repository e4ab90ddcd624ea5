//! SQL rendering: a backend turns an operation list plus the `from`
//! schema into one executable script. Name quoting, type lexemes and
//! literal rendering are the backend's own; the reference backend cannot
//! alter a column in place and renders a table-copy sequence instead.

use vstd::prelude::*;
use vstd::string::*;

use crate::adb::{
    lookup_table, AColumn, ADB, ATable, ColV, DeferredSqlType, SqlType, SqlVal, TableV, TypV, ValV,
};
use crate::diff::{OpV, Operation};
use crate::json::{int_str, push_i64};
use crate::Error;

verus! {

/// A backend: a name, and a renderer from operations to one script.
/// `sql_for` is the backend's mathematical rendering; `None` marks an
/// operation list the backend refuses.
pub trait Backend: Sized {
    spec fn backend_name_spec(&self) -> Seq<char>;

    spec fn sql_for(&self, from: Seq<TableV>, ops: Seq<OpV>) -> Option<Seq<char>>;

    /// The backend's name.
    fn get_name(&self) -> (r: String)
        ensures
            r@ == self.backend_name_spec(),
    ;

    /// Render the whole operation list into one script, or report why it
    /// cannot be rendered.
    fn create_migration_sql(&self, from: &ADB, ops: &Vec<Operation>) -> (r: Result<String, Error>)
        ensures
            match r {
                Result::Ok(s) => self.sql_for(from@, ops@.map_values(|o: Operation| o@))
                    == Option::Some(s@),
                Result::Err(e) => self.sql_for(from@, ops@.map_values(|o: Operation| o@)) is None
                    && e matches Error::InvalidMigration(_),
            },
    ;
}

/// The reference backend's lexeme for each column type.
pub open spec fn lexeme(t: SqlType) -> Seq<char> {
    match t {
        SqlType::Bool => "INTEGER"@,
        SqlType::Int => "INTEGER"@,
        SqlType::BigInt => "INTEGER"@,
        SqlType::Real => "REAL"@,
        SqlType::Text => "TEXT"@,
        SqlType::Blob => "BLOB"@,
        SqlType::Timestamp => "TEXT"@,
    }
}

/// A quoted identifier.
pub open spec fn quoted_id(name: Seq<char>) -> Seq<char> {
    "\""@ + name + "\""@
}

/// A literal default value.
pub open spec fn sql_lit(v: ValV) -> Seq<char> {
    match v {
        ValV::Bool(b) => if b {
            "1"@
        } else {
            "0"@
        },
        ValV::Int(i) => int_str(i as int),
        ValV::Text(s) => "'"@ + s + "'"@,
    }
}

/// One column definition, when its type is known.
pub open spec fn col_def(c: ColV) -> Option<Seq<char>> {
    match c.sqltype {
        TypV::Deferred(_) => Option::None,
        TypV::Known(st) => Option::Some(
            quoted_id(c.name) + " "@ + lexeme(st) + (if c.nullable {
                Seq::<char>::empty()
            } else {
                " NOT NULL"@
            }) + (if c.pk {
                " PRIMARY KEY"@
            } else {
                Seq::<char>::empty()
            }) + (if c.auto {
                " AUTOINCREMENT"@
            } else {
                Seq::<char>::empty()
            }) + (match c.default {
                Option::None => Seq::<char>::empty(),
                Option::Some(v) => " DEFAULT "@ + sql_lit(v),
            }),
        ),
    }
}

/// Comma-joined column definitions.
pub open spec fn col_defs(cs: Seq<ColV>) -> Option<Seq<char>>
    decreases cs.len(),
{
    if cs.len() == 0 {
        Option::Some(Seq::<char>::empty())
    } else {
        match (col_defs(cs.drop_last()), col_def(cs.last())) {
            (Option::Some(pre), Option::Some(d)) => Option::Some(
                if cs.len() == 1 {
                    d
                } else {
                    pre + ", "@ + d
                },
            ),
            _ => Option::None,
        }
    }
}

/// Comma-joined quoted column names.
pub open spec fn name_list(cs: Seq<ColV>) -> Seq<char>
    decreases cs.len(),
{
    if cs.len() == 0 {
        Seq::<char>::empty()
    } else if cs.len() == 1 {
        quoted_id(cs[0].name)
    } else {
        name_list(cs.drop_last()) + ", "@ + quoted_id(cs.last().name)
    }
}

/// A `CREATE TABLE` statement.
pub open spec fn create_table_sql(t: TableV) -> Option<Seq<char>> {
    match col_defs(t.columns) {
        Option::None => Option::None,
        Option::Some(defs) => Option::Some(
            "CREATE TABLE "@ + quoted_id(t.name) + " ("@ + defs + ");\n"@,
        ),
    }
}

/// The temporary name used while a table is rebuilt.
pub open spec fn tmp_name(name: Seq<char>) -> Seq<char> {
    name + "__propane_tmp"@
}

/// The table-copy sequence: build the new shape under a temporary name,
/// copy the surviving columns, drop the original, rename.
pub open spec fn table_copy_sql(name: Seq<char>, cols: Seq<ColV>) -> Option<Seq<char>> {
    match create_table_sql(TableV { name: tmp_name(name), columns: cols }) {
        Option::None => Option::None,
        Option::Some(create) => Option::Some(
            create + "INSERT INTO "@ + quoted_id(tmp_name(name)) + " SELECT "@ + name_list(cols)
                + " FROM "@ + quoted_id(name) + ";\n"@ + "DROP TABLE "@ + quoted_id(name) + ";\n"@
                + "ALTER TABLE "@ + quoted_id(tmp_name(name)) + " RENAME TO "@ + quoted_id(name)
                + ";\n"@,
        ),
    }
}

/// The columns of `cs` without the one named `name`.
pub open spec fn cols_without(cs: Seq<ColV>, name: Seq<char>) -> Seq<ColV>
    decreases cs.len(),
{
    if cs.len() == 0 {
        cs
    } else if cs.last().name == name {
        cols_without(cs.drop_last(), name)
    } else {
        cols_without(cs.drop_last(), name).push(cs.last())
    }
}

/// The columns of `cs` with every one named as `c` replaced by `c`.
pub open spec fn cols_update(cs: Seq<ColV>, c: ColV) -> Seq<ColV> {
    cs.map(
        |i: int, u: ColV|
            if u.name == c.name {
                c
            } else {
                u
            },
    )
}

/// The reference backend's rendering of one operation.
pub open spec fn op_sql(from: Seq<TableV>, op: OpV) -> Option<Seq<char>> {
    match op {
        OpV::AddTable(t) => create_table_sql(t),
        OpV::RemoveTable(n) => Option::Some("DROP TABLE "@ + quoted_id(n) + ";\n"@),
        OpV::AddColumn(tname, c) => if c.nullable || c.default is Some {
            match col_def(c) {
                Option::None => Option::None,
                Option::Some(d) => Option::Some(
                    "ALTER TABLE "@ + quoted_id(tname) + " ADD COLUMN "@ + d + ";\n"@,
                ),
            }
        } else {
            Option::None
        },
        OpV::RemoveColumn(tname, cname) => match lookup_table(from, tname) {
            Option::None => Option::None,
            Option::Some(t) => table_copy_sql(tname, cols_without(t.columns, cname)),
        },
        OpV::ChangeColumn(tname, _oldc, newc) => match lookup_table(from, tname) {
            Option::None => Option::None,
            Option::Some(t) => table_copy_sql(tname, cols_update(t.columns, newc)),
        },
    }
}

/// The reference backend's rendering of an operation list.
pub open spec fn ops_sql(from: Seq<TableV>, ops: Seq<OpV>) -> Option<Seq<char>>
    decreases ops.len(),
{
    if ops.len() == 0 {
        Option::Some(Seq::<char>::empty())
    } else {
        match (ops_sql(from, ops.drop_last()), op_sql(from, ops.last())) {
            (Option::Some(pre), Option::Some(s)) => Option::Some(pre + s),
            _ => Option::None,
        }
    }
}

/// The reference backend: the sqlite dialect.
pub struct SqliteBackend {}

impl SqliteBackend {
    pub fn new() -> (r: SqliteBackend) {
        SqliteBackend {  }
    }
}

/// Append a quoted identifier to `out`.
fn push_quoted_id(out: &mut String, name: &str)
    ensures
        (*final(out))@ == (*old(out))@ + quoted_id(name@),
{
    out.append("\"");
    out.append(name);
    out.append("\"");
    proof {
        assert(out@ =~= (*old(out))@ + quoted_id(name@));
    }
}

/// Append a literal default value to `out`.
fn push_sql_lit(out: &mut String, v: &SqlVal)
    ensures
        (*final(out))@ == (*old(out))@ + sql_lit(v@),
{
    match v {
        SqlVal::Bool(b) => {
            if *b {
                out.append("1");
            } else {
                out.append("0");
            }
        },
        SqlVal::Int(i) => push_i64(out, *i),
        SqlVal::Text(s) => {
            out.append("'");
            out.append(s.as_str());
            out.append("'");
            proof {
                assert(out@ =~= (*old(out))@ + sql_lit(v@));
            }
        },
    }
}

/// Append one column definition to `out`, or report the deferred type.
#[verifier::rlimit(60)]
fn push_col_def(out: &mut String, c: &AColumn) -> (r: Result<(), Error>)
    ensures
        match r {
            Result::Ok(()) => col_def(c@) matches Some(d) && (*final(out))@ == (*old(out))@ + d,
            Result::Err(e) => col_def(c@) is None && (e matches Error::InvalidMigration(_))
                && *final(out) == *old(out),
        },
{
    match &c.sqltype {
        DeferredSqlType::Deferred(_) => {
            return Result::Err(
                Error::InvalidMigration("unresolved column type cannot be rendered".to_owned()),
            );
        },
        DeferredSqlType::Known(st) => {
            let ghost pre = out@;
            let ghost seg_nn = if c.nullable {
                Seq::<char>::empty()
            } else {
                " NOT NULL"@
            };
            let ghost seg_pk = if c.pk {
                " PRIMARY KEY"@
            } else {
                Seq::<char>::empty()
            };
            let ghost seg_auto = if c.auto {
                " AUTOINCREMENT"@
            } else {
                Seq::<char>::empty()
            };
            let ghost seg_def = match c@.default {
                Option::None => Seq::<char>::empty(),
                Option::Some(v) => " DEFAULT "@ + sql_lit(v),
            };
            push_quoted_id(out, c.name.as_str());
            out.append(" ");
            match st {
                SqlType::Bool => out.append("INTEGER"),
                SqlType::Int => out.append("INTEGER"),
                SqlType::BigInt => out.append("INTEGER"),
                SqlType::Real => out.append("REAL"),
                SqlType::Text => out.append("TEXT"),
                SqlType::Blob => out.append("BLOB"),
                SqlType::Timestamp => out.append("TEXT"),
            }
            proof {
                assert(out@ =~= pre + (quoted_id(c@.name) + " "@ + lexeme(*st)));
            }
            if !c.nullable {
                out.append(" NOT NULL");
            }
            proof {
                assert(out@ =~= pre + (quoted_id(c@.name) + " "@ + lexeme(*st) + seg_nn));
            }
            if c.pk {
                out.append(" PRIMARY KEY");
            }
            if c.auto {
                out.append(" AUTOINCREMENT");
            }
            proof {
                assert(out@ =~= pre + (quoted_id(c@.name) + " "@ + lexeme(*st) + seg_nn + seg_pk
                    + seg_auto));
            }
            match &c.default {
                Option::None => {},
                Option::Some(v) => {
                    out.append(" DEFAULT ");
                    push_sql_lit(out, v);
                },
            }
            proof {
                assert(out@ =~= pre + (quoted_id(c@.name) + " "@ + lexeme(*st) + seg_nn + seg_pk
                    + seg_auto + seg_def));
                assert(col_def(c@)->Some_0 == quoted_id(c@.name) + " "@ + lexeme(*st) + seg_nn
                    + seg_pk + seg_auto + seg_def);
            }
            Result::Ok(())
        },
    }
}

/// Append comma-joined column definitions to `out`.
#[verifier::loop_isolation(false)]
fn push_col_defs(out: &mut String, cols: &Vec<AColumn>) -> (r: Result<(), Error>)
    ensures
        match r {
            Result::Ok(()) => col_defs(cols@.map_values(|c: AColumn| c@)) matches Some(d) && (
            *final(out))@ == (*old(out))@ + d,
            Result::Err(e) => col_defs(cols@.map_values(|c: AColumn| c@)) is None && e
                matches Error::InvalidMigration(_),
        },
{
    let ghost cs = cols@.map_values(|c: AColumn| c@);
    let ghost pre = out@;
    let mut i: usize = 0;
    proof {
        assert(cs.take(0) =~= Seq::<ColV>::empty());
        assert(out@ =~= pre + col_defs(cs.take(0))->Some_0);
    }
    while i < cols.len()
        invariant
            i <= cols.len(),
            col_defs(cs.take(i as int)) is Some,
            out@ == pre + col_defs(cs.take(i as int))->Some_0,
        decreases cols.len() - i,
    {
        proof {
            assert(cs.take(i as int + 1).drop_last() =~= cs.take(i as int));
            assert(cs.take(i as int + 1).last() == cs[i as int]);
            assert(cs[i as int] == cols@[i as int]@);
        }
        if i > 0 {
            out.append(", ");
        }
        match push_col_def(out, &cols[i]) {
            Result::Ok(()) => {},
            Result::Err(e) => {
                proof {
                    lemma_col_defs_none(cs, i as int);
                }
                return Result::Err(e);
            },
        }
        proof {
            assert(out@ =~= pre + col_defs(cs.take(i as int + 1))->Some_0);
        }
        i = i + 1;
    }
    proof {
        assert(cs.take(cs.len() as int) =~= cs);
    }
    Result::Ok(())
}

/// Once one column's definition is impossible, the whole list's is.
proof fn lemma_col_defs_none(cs: Seq<ColV>, i: int)
    requires
        0 <= i < cs.len(),
        col_def(cs[i]) is None,
    ensures
        col_defs(cs) is None,
    decreases cs.len(),
{
    if cs.len() > 0 {
        if i == cs.len() - 1 {
            assert(cs.last() == cs[i]);
        } else {
            assert(cs.drop_last()[i] == cs[i]);
            lemma_col_defs_none(cs.drop_last(), i);
        }
    }
}

/// Append comma-joined quoted column names to `out`.
#[verifier::loop_isolation(false)]
fn push_name_list(out: &mut String, cols: &Vec<AColumn>)
    ensures
        (*final(out))@ == (*old(out))@ + name_list(cols@.map_values(|c: AColumn| c@)),
{
    let ghost cs = cols@.map_values(|c: AColumn| c@);
    let ghost pre = out@;
    let mut i: usize = 0;
    proof {
        assert(cs.take(0) =~= Seq::<ColV>::empty());
        assert(out@ =~= pre + name_list(cs.take(0)));
    }
    while i < cols.len()
        invariant
            i <= cols.len(),
            out@ == pre + name_list(cs.take(i as int)),
        decreases cols.len() - i,
    {
        proof {
            assert(cs.take(i as int + 1).drop_last() =~= cs.take(i as int));
            assert(cs.take(i as int + 1).last() == cs[i as int]);
            assert(cs[i as int] == cols@[i as int]@);
        }
        if i > 0 {
            out.append(", ");
        }
        push_quoted_id(out, cols[i].name.as_str());
        proof {
            assert(out@ =~= pre + name_list(cs.take(i as int + 1)));
        }
        i = i + 1;
    }
    proof {
        assert(cs.take(cs.len() as int) =~= cs);
    }
}

/// Append a `CREATE TABLE` statement to `out`.
fn push_create_table(out: &mut String, name: &str, cols: &Vec<AColumn>) -> (r: Result<(), Error>)
    ensures
        match r {
            Result::Ok(()) => create_table_sql(
                TableV { name: name@, columns: cols@.map_values(|c: AColumn| c@) },
            ) matches Some(s) && (*final(out))@ == (*old(out))@ + s,
            Result::Err(e) => create_table_sql(
                TableV { name: name@, columns: cols@.map_values(|c: AColumn| c@) },
            ) is None && e matches Error::InvalidMigration(_),
        },
{
    out.append("CREATE TABLE ");
    push_quoted_id(out, name);
    out.append(" (");
    match push_col_defs(out, cols) {
        Result::Ok(()) => {},
        Result::Err(e) => {
            return Result::Err(e);
        },
    }
    out.append(");\n");
    proof {
        assert(out@ =~= (*old(out))@ + create_table_sql(
            TableV { name: name@, columns: cols@.map_values(|c: AColumn| c@) },
        )->Some_0);
    }
    Result::Ok(())
}

/// Append the table-copy sequence to `out`.
fn push_table_copy(out: &mut String, name: &String, cols: &Vec<AColumn>) -> (r: Result<(), Error>)
    ensures
        match r {
            Result::Ok(()) => table_copy_sql(name@, cols@.map_values(|c: AColumn| c@))
                matches Some(s) && (*final(out))@ == (*old(out))@ + s,
            Result::Err(e) => table_copy_sql(name@, cols@.map_values(|c: AColumn| c@)) is None && e
                matches Error::InvalidMigration(_),
        },
{
    let mut tmp = name.clone();
    tmp.append("__propane_tmp");
    proof {
        assert(tmp@ == tmp_name(name@));
    }
    match push_create_table(out, tmp.as_str(), cols) {
        Result::Ok(()) => {},
        Result::Err(e) => {
            return Result::Err(e);
        },
    }
    out.append("INSERT INTO ");
    push_quoted_id(out, tmp.as_str());
    out.append(" SELECT ");
    push_name_list(out, cols);
    out.append(" FROM ");
    push_quoted_id(out, name.as_str());
    out.append(";\n");
    out.append("DROP TABLE ");
    push_quoted_id(out, name.as_str());
    out.append(";\n");
    out.append("ALTER TABLE ");
    push_quoted_id(out, tmp.as_str());
    out.append(" RENAME TO ");
    push_quoted_id(out, name.as_str());
    out.append(";\n");
    proof {
        assert(out@ =~= (*old(out))@ + table_copy_sql(
            name@,
            cols@.map_values(|c: AColumn| c@),
        )->Some_0);
    }
    Result::Ok(())
}

/// The columns of `cols` without the one named `name`.
#[verifier::loop_isolation(false)]
fn cols_without_exec(cols: &Vec<AColumn>, name: &str) -> (r: Vec<AColumn>)
    ensures
        r@.map_values(|c: AColumn| c@) == cols_without(cols@.map_values(|c: AColumn| c@), name@),
{
    let ghost cs = cols@.map_values(|c: AColumn| c@);
    let mut out: Vec<AColumn> = Vec::new();
    let mut i: usize = 0;
    proof {
        assert(cs.take(0) =~= Seq::<ColV>::empty());
        assert(out@.map_values(|c: AColumn| c@) =~= cols_without(cs.take(0), name@));
    }
    while i < cols.len()
        invariant
            i <= cols.len(),
            out@.map_values(|c: AColumn| c@) == cols_without(cs.take(i as int), name@),
        decreases cols.len() - i,
    {
        proof {
            assert(cs.take(i as int + 1).drop_last() =~= cs.take(i as int));
            assert(cs.take(i as int + 1).last() == cs[i as int]);
            assert(cs[i as int] == cols@[i as int]@);
        }
        if !crate::adb::str_eq(cols[i].name.as_str(), name) {
            out.push(cols[i].clone());
            proof {
                assert(out@.map_values(|c: AColumn| c@) =~= cols_without(
                    cs.take(i as int),
                    name@,
                ).push(cs[i as int]));
            }
        }
        proof {
            assert(out@.map_values(|c: AColumn| c@) =~= cols_without(
                cs.take(i as int + 1),
                name@,
            ));
        }
        i = i + 1;
    }
    proof {
        assert(cs.take(cs.len() as int) =~= cs);
    }
    out
}

/// The columns of `cols` with every one named as `c` replaced by `c`.
#[verifier::loop_isolation(false)]
fn cols_update_exec(cols: &Vec<AColumn>, c: &AColumn) -> (r: Vec<AColumn>)
    ensures
        r@.map_values(|cc: AColumn| cc@) == cols_update(cols@.map_values(|cc: AColumn| cc@), c@),
{
    let ghost cs = cols@.map_values(|cc: AColumn| cc@);
    let mut out: Vec<AColumn> = Vec::new();
    let mut i: usize = 0;
    while i < cols.len()
        invariant
            i <= cols.len(),
            out@.len() == i,
            forall|k: int| 0 <= k < i ==> out@[k]@ == cols_update(cs, c@)[k],
        decreases cols.len() - i,
    {
        proof {
            assert(cs[i as int] == cols@[i as int]@);
        }
        if crate::adb::str_eq(cols[i].name.as_str(), c.name.as_str()) {
            out.push(c.clone());
        } else {
            out.push(cols[i].clone());
        }
        i = i + 1;
    }
    proof {
        assert(out@.map_values(|cc: AColumn| cc@) =~= cols_update(cs, c@));
    }
    out
}

impl Backend for SqliteBackend {
    open spec fn backend_name_spec(&self) -> Seq<char> {
        "sqlite"@
    }

    open spec fn sql_for(&self, from: Seq<TableV>, ops: Seq<OpV>) -> Option<Seq<char>> {
        ops_sql(from, ops)
    }

    fn get_name(&self) -> (r: String) {
        "sqlite".to_owned()
    }

    #[verifier::loop_isolation(false)]
    fn create_migration_sql(&self, from: &ADB, ops: &Vec<Operation>) -> (r: Result<
        String,
        Error,
    >) {
        let ghost opsv = ops@.map_values(|o: Operation| o@);
        let mut out = String::new();
        let mut i: usize = 0;
        proof {
            assert(opsv.take(0) =~= Seq::<OpV>::empty());
            assert(out@ =~= Seq::<char>::empty() + ops_sql(from@, opsv.take(0))->Some_0);
        }
        while i < ops.len()
            invariant
                i <= ops.len(),
                ops_sql(from@, opsv.take(i as int)) is Some,
                out@ == Seq::<char>::empty() + ops_sql(from@, opsv.take(i as int))->Some_0,
            decreases ops.len() - i,
        {
            proof {
                assert(opsv.take(i as int + 1).drop_last() =~= opsv.take(i as int));
                assert(opsv.take(i as int + 1).last() == opsv[i as int]);
                assert(opsv[i as int] == ops@[i as int]@);
            }
            let step = render_op(&mut out, from, &ops[i]);
            match step {
                Result::Ok(()) => {},
                Result::Err(e) => {
                    proof {
                        lemma_ops_sql_none(from@, opsv, i as int);
                    }
                    return Result::Err(e);
                },
            }
            proof {
                assert(out@ =~= Seq::<char>::empty() + ops_sql(from@, opsv.take(i as int + 1))->Some_0);
            }
            i = i + 1;
        }
        proof {
            assert(opsv.take(opsv.len() as int) =~= opsv);
            assert(out@ =~= ops_sql(from@, opsv)->Some_0);
        }
        Result::Ok(out)
    }
}

/// Once one operation cannot be rendered, the whole list cannot.
proof fn lemma_ops_sql_none(from: Seq<TableV>, ops: Seq<OpV>, i: int)
    requires
        0 <= i < ops.len(),
        op_sql(from, ops[i]) is None,
    ensures
        ops_sql(from, ops) is None,
    decreases ops.len(),
{
    if ops.len() > 0 {
        if i == ops.len() - 1 {
            assert(ops.last() == ops[i]);
        } else {
            assert(ops.drop_last()[i] == ops[i]);
            lemma_ops_sql_none(from, ops.drop_last(), i);
        }
    }
}

/// Append the rendering of one operation to `out`.
fn render_op(out: &mut String, from: &ADB, op: &Operation) -> (r: Result<(), Error>)
    ensures
        match r {
            Result::Ok(()) => op_sql(from@, op@) matches Some(s) && (*final(out))@ == (*old(out))@
                + s,
            Result::Err(e) => op_sql(from@, op@) is None && e matches Error::InvalidMigration(_),
        },
{
    match op {
        Operation::AddTable(t) => {
            let r = push_create_table(out, t.name.as_str(), &t.columns);
            proof {
                if r is Ok {
                    assert((*old(out))@ + create_table_sql(t@)->Some_0 == out@);
                }
            }
            r
        },
        Operation::RemoveTable(n) => {
            out.append("DROP TABLE ");
            push_quoted_id(out, n.as_str());
            out.append(";\n");
            proof {
                assert(out@ =~= (*old(out))@ + op_sql(from@, op@)->Some_0);
            }
            Result::Ok(())
        },
        Operation::AddColumn(tname, c) => {
            if !c.nullable && c.default.is_none() {
                return Result::Err(
                    Error::InvalidMigration(
                        "added column must be nullable or carry a default".to_owned(),
                    ),
                );
            }
            let ghost pre = out@;
            out.append("ALTER TABLE ");
            push_quoted_id(out, tname.as_str());
            out.append(" ADD COLUMN ");
            match push_col_def(out, c) {
                Result::Ok(()) => {},
                Result::Err(e) => {
                    // roll back nothing: the text already holds the prefix, so
                    // refuse the whole list instead
                    return Result::Err(e);
                },
            }
            out.append(";\n");
            proof {
                assert(out@ =~= pre + op_sql(from@, op@)->Some_0);
            }
            Result::Ok(())
        },
        Operation::RemoveColumn(tname, cname) => {
            match crate::adb::find_table(&from.tables, tname.as_str()) {
                Option::None => Result::Err(
                    Error::InvalidMigration("column removed from an absent table".to_owned()),
                ),
                Option::Some(ti) => {
                    proof {
                        assert(from@[ti as int] == from.tables@[ti as int]@);
                    }
                    let cols = cols_without_exec(&from.tables[ti].columns, cname.as_str());
                    push_table_copy(out, tname, &cols)
                },
            }
        },
        Operation::ChangeColumn(tname, _oldc, newc) => {
            match crate::adb::find_table(&from.tables, tname.as_str()) {
                Option::None => Result::Err(
                    Error::InvalidMigration("column changed in an absent table".to_owned()),
                ),
                Option::Some(ti) => {
                    proof {
                        assert(from@[ti as int] == from.tables@[ti as int]@);
                    }
                    let cols = cols_update_exec(&from.tables[ti].columns, newc);
                    push_table_copy(out, tname, &cols)
                },
            }
        },
    }
}

} // verus!
