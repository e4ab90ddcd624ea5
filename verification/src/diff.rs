//! Differ: a pure function over two schemas producing an ordered list of
//! schema operations. Additions come first, then per-table column
//! changes, then removals, so that operations referencing a target follow
//! its creation and precede its destruction; within a class the order of
//! the `to` schema (or, for removals, the `from` schema) is preserved.

use vstd::prelude::*;
use vstd::string::*;

use crate::adb::{
    str_eq, has_table, lookup_table, lookup_column, AColumn, ADB, ATable, ColV, DeferredSqlType,
    SqlVal, TableV,
};

verus! {

/// One schema operation.
pub enum Operation {
    AddTable(ATable),
    RemoveTable(String),
    AddColumn(String, AColumn),
    RemoveColumn(String, String),
    ChangeColumn(String, AColumn, AColumn),
}

/// Mathematical value of an `Operation`.
pub ghost enum OpV {
    AddTable(TableV),
    RemoveTable(Seq<char>),
    AddColumn(Seq<char>, ColV),
    RemoveColumn(Seq<char>, Seq<char>),
    ChangeColumn(Seq<char>, ColV, ColV),
}

impl View for Operation {
    type V = OpV;

    open spec fn view(&self) -> OpV {
        match self {
            Operation::AddTable(t) => OpV::AddTable(t@),
            Operation::RemoveTable(n) => OpV::RemoveTable(n@),
            Operation::AddColumn(t, c) => OpV::AddColumn(t@, c@),
            Operation::RemoveColumn(t, c) => OpV::RemoveColumn(t@, c@),
            Operation::ChangeColumn(t, o, n) => OpV::ChangeColumn(t@, o@, n@),
        }
    }
}

/// `AddTable` for each table of `sub` absent from `from`, in order.
pub open spec fn added_ops(from: Seq<TableV>, sub: Seq<TableV>) -> Seq<OpV>
    decreases sub.len(),
{
    if sub.len() == 0 {
        Seq::<OpV>::empty()
    } else {
        added_ops(from, sub.drop_last()) + if lookup_table(from, sub.last().name) is None {
            seq![OpV::AddTable(sub.last())]
        } else {
            Seq::<OpV>::empty()
        }
    }
}

/// `AddColumn` for each column of `sub` absent from `fromcols`, in order.
pub open spec fn added_col_ops(tname: Seq<char>, fromcols: Seq<ColV>, sub: Seq<ColV>) -> Seq<OpV>
    decreases sub.len(),
{
    if sub.len() == 0 {
        Seq::<OpV>::empty()
    } else {
        added_col_ops(tname, fromcols, sub.drop_last()) + if lookup_column(
            fromcols,
            sub.last().name,
        ) is None {
            seq![OpV::AddColumn(tname, sub.last())]
        } else {
            Seq::<OpV>::empty()
        }
    }
}

/// `ChangeColumn` for each column of `sub` present in `fromcols` under the
/// same name but differing in any attribute, in order.
pub open spec fn changed_col_ops(tname: Seq<char>, fromcols: Seq<ColV>, sub: Seq<ColV>) -> Seq<OpV>
    decreases sub.len(),
{
    if sub.len() == 0 {
        Seq::<OpV>::empty()
    } else {
        changed_col_ops(tname, fromcols, sub.drop_last()) + match lookup_column(
            fromcols,
            sub.last().name,
        ) {
            Option::Some(fc) => if fc != sub.last() {
                seq![OpV::ChangeColumn(tname, fc, sub.last())]
            } else {
                Seq::<OpV>::empty()
            },
            Option::None => Seq::<OpV>::empty(),
        }
    }
}

/// `RemoveColumn` for each column of `sub` absent from `tocols`, in order.
pub open spec fn removed_col_ops(tname: Seq<char>, tocols: Seq<ColV>, sub: Seq<ColV>) -> Seq<OpV>
    decreases sub.len(),
{
    if sub.len() == 0 {
        Seq::<OpV>::empty()
    } else {
        removed_col_ops(tname, tocols, sub.drop_last()) + if lookup_column(
            tocols,
            sub.last().name,
        ) is None {
            seq![OpV::RemoveColumn(tname, sub.last().name)]
        } else {
            Seq::<OpV>::empty()
        }
    }
}

/// The column operations for one table present in both schemas.
pub open spec fn table_ops(tname: Seq<char>, fromcols: Seq<ColV>, tocols: Seq<ColV>) -> Seq<OpV> {
    added_col_ops(tname, fromcols, tocols) + changed_col_ops(tname, fromcols, tocols)
        + removed_col_ops(tname, tocols, fromcols)
}

/// Column operations for each table of `sub` present in `from`, in order.
pub open spec fn changed_ops(from: Seq<TableV>, sub: Seq<TableV>) -> Seq<OpV>
    decreases sub.len(),
{
    if sub.len() == 0 {
        Seq::<OpV>::empty()
    } else {
        changed_ops(from, sub.drop_last()) + match lookup_table(from, sub.last().name) {
            Option::Some(f) => table_ops(sub.last().name, f.columns, sub.last().columns),
            Option::None => Seq::<OpV>::empty(),
        }
    }
}

/// `RemoveTable` for each table of `sub` absent from `to`, in order.
pub open spec fn removed_ops(to: Seq<TableV>, sub: Seq<TableV>) -> Seq<OpV>
    decreases sub.len(),
{
    if sub.len() == 0 {
        Seq::<OpV>::empty()
    } else {
        removed_ops(to, sub.drop_last()) + if lookup_table(to, sub.last().name) is None {
            seq![OpV::RemoveTable(sub.last().name)]
        } else {
            Seq::<OpV>::empty()
        }
    }
}

/// What `diff` computes.
pub open spec fn spec_diff(from: Seq<TableV>, to: Seq<TableV>) -> Seq<OpV> {
    added_ops(from, to) + changed_ops(from, to) + removed_ops(to, from)
}

/// Looking up the name of the table at `i` finds that table, when names
/// are distinct.
proof fn lemma_lookup_table_self(ts: Seq<TableV>, i: int)
    requires
        crate::adb::distinct_table_names(ts),
        0 <= i < ts.len(),
    ensures
        lookup_table(ts, ts[i].name) == Option::Some(ts[i]),
    decreases i,
{
    if i > 0 {
        assert(ts[0].name != ts[i].name);
        assert(crate::adb::distinct_table_names(ts.drop_first())) by {
            assert(forall|a: int, b: int|
                0 <= a < b < ts.drop_first().len() ==> ts.drop_first()[a] == ts[a + 1]
                    && ts.drop_first()[b] == ts[b + 1]);
        }
        lemma_lookup_table_self(ts.drop_first(), i - 1);
    }
}

/// Looking up the name of the column at `j` finds that column, when
/// names are distinct.
proof fn lemma_lookup_column_self(cs: Seq<ColV>, j: int)
    requires
        crate::adb::distinct_column_names(cs),
        0 <= j < cs.len(),
    ensures
        lookup_column(cs, cs[j].name) == Option::Some(cs[j]),
    decreases j,
{
    if j > 0 {
        assert(cs[0].name != cs[j].name);
        assert(crate::adb::distinct_column_names(cs.drop_first())) by {
            assert(forall|a: int, b: int|
                0 <= a < b < cs.drop_first().len() ==> cs.drop_first()[a] == cs[a + 1]
                    && cs.drop_first()[b] == cs[b + 1]);
        }
        lemma_lookup_column_self(cs.drop_first(), j - 1);
    }
}

/// No `AddTable` operations arise when every table of `sub` is found.
proof fn lemma_added_empty(from: Seq<TableV>, sub: Seq<TableV>)
    requires
        forall|k: int|
            0 <= k < sub.len() ==> lookup_table(from, (#[trigger] sub[k]).name) is Some,
    ensures
        added_ops(from, sub) == Seq::<OpV>::empty(),
    decreases sub.len(),
{
    if sub.len() > 0 {
        lemma_added_empty(from, sub.drop_last());
        assert(sub.last() == sub[sub.len() - 1]);
        assert(added_ops(from, sub) =~= Seq::<OpV>::empty());
    }
}

/// No `RemoveTable` operations arise when every table of `sub` is found.
proof fn lemma_removed_empty(to: Seq<TableV>, sub: Seq<TableV>)
    requires
        forall|k: int| 0 <= k < sub.len() ==> lookup_table(to, (#[trigger] sub[k]).name) is Some,
    ensures
        removed_ops(to, sub) == Seq::<OpV>::empty(),
    decreases sub.len(),
{
    if sub.len() > 0 {
        lemma_removed_empty(to, sub.drop_last());
        assert(sub.last() == sub[sub.len() - 1]);
        assert(removed_ops(to, sub) =~= Seq::<OpV>::empty());
    }
}

/// No column operations arise when every column of `sub` is found
/// unchanged.
proof fn lemma_col_ops_empty(tname: Seq<char>, cols: Seq<ColV>, sub: Seq<ColV>)
    requires
        forall|k: int|
            0 <= k < sub.len() ==> lookup_column(cols, (#[trigger] sub[k]).name)
                == Option::Some(sub[k]),
    ensures
        added_col_ops(tname, cols, sub) == Seq::<OpV>::empty(),
        changed_col_ops(tname, cols, sub) == Seq::<OpV>::empty(),
        removed_col_ops(tname, cols, sub) == Seq::<OpV>::empty(),
    decreases sub.len(),
{
    if sub.len() > 0 {
        lemma_col_ops_empty(tname, cols, sub.drop_last());
        assert(sub.last() == sub[sub.len() - 1]);
        assert(added_col_ops(tname, cols, sub) =~= Seq::<OpV>::empty());
        assert(changed_col_ops(tname, cols, sub) =~= Seq::<OpV>::empty());
        assert(removed_col_ops(tname, cols, sub) =~= Seq::<OpV>::empty());
    }
}

/// No column operations arise for tables of `sub` found unchanged.
proof fn lemma_changed_empty(from: Seq<TableV>, sub: Seq<TableV>)
    requires
        forall|k: int|
            0 <= k < sub.len() ==> lookup_table(from, (#[trigger] sub[k]).name)
                == Option::Some(sub[k]),
        forall|k: int|
            0 <= k < sub.len() ==> crate::adb::distinct_column_names(
                (#[trigger] sub[k]).columns,
            ),
    ensures
        changed_ops(from, sub) == Seq::<OpV>::empty(),
    decreases sub.len(),
{
    if sub.len() > 0 {
        lemma_changed_empty(from, sub.drop_last());
        assert(sub.last() == sub[sub.len() - 1]);
        let cs = sub.last().columns;
        assert forall|j: int| 0 <= j < cs.len() implies lookup_column(
            cs,
            (#[trigger] cs[j]).name,
        ) == Option::Some(cs[j]) by {
            lemma_lookup_column_self(cs, j);
        }
        lemma_col_ops_empty(sub.last().name, cs, cs);
        assert(table_ops(sub.last().name, cs, cs) =~= Seq::<OpV>::empty());
        assert(changed_ops(from, sub) =~= Seq::<OpV>::empty());
    }
}

/// Law: diffing a schema against itself yields no operations, provided
/// table names are unique and column names are unique within each table.
pub proof fn lemma_diff_self_empty(a: Seq<TableV>)
    requires
        crate::adb::distinct_table_names(a),
        forall|i: int|
            0 <= i < a.len() ==> crate::adb::distinct_column_names((#[trigger] a[i]).columns),
    ensures
        spec_diff(a, a) == Seq::<OpV>::empty(),
{
    assert forall|k: int| 0 <= k < a.len() implies lookup_table(a, (#[trigger] a[k]).name)
        == Option::Some(a[k]) by {
        lemma_lookup_table_self(a, k);
    }
    lemma_added_empty(a, a);
    lemma_removed_empty(a, a);
    lemma_changed_empty(a, a);
    assert(spec_diff(a, a) =~= Seq::<OpV>::empty());
}

/// Index of the first column of the given name, if any.
#[verifier::loop_isolation(false)]
fn find_column(cols: &Vec<AColumn>, name: &str) -> (r: Option<usize>)
    ensures
        ({
            let cs = cols@.map_values(|c: AColumn| c@);
            match r {
                Option::Some(j) => j < cs.len() && lookup_column(cs, name@) == Option::Some(
                    cs[j as int],
                ),
                Option::None => lookup_column(cs, name@) is None,
            }
        }),
{
    let ghost cs = cols@.map_values(|c: AColumn| c@);
    let mut j: usize = 0;
    proof {
        assert(cs.skip(0) =~= cs);
    }
    while j < cols.len()
        invariant
            j <= cols.len(),
            lookup_column(cs.skip(j as int), name@) == lookup_column(cs, name@),
        decreases cols.len() - j,
    {
        proof {
            assert(cs.skip(j as int).len() > 0);
            assert(cs.skip(j as int)[0] == cs[j as int]);
            assert(cs.skip(j as int).drop_first() =~= cs.skip(j as int + 1));
        }
        if str_eq(cols[j].name.as_str(), name) {
            return Option::Some(j);
        }
        j = j + 1;
    }
    proof {
        assert(cs.skip(cs.len() as int) =~= Seq::<ColV>::empty());
    }
    Option::None
}

/// Whether two column types are the same.
fn typ_eq(a: &DeferredSqlType, b: &DeferredSqlType) -> (r: bool)
    ensures
        r == (a@ == b@),
{
    match (a, b) {
        (DeferredSqlType::Known(x), DeferredSqlType::Known(y)) => *x == *y,
        (DeferredSqlType::Deferred(x), DeferredSqlType::Deferred(y)) => str_eq(
            x.as_str(),
            y.as_str(),
        ),
        _ => false,
    }
}

/// Whether two default values are the same.
fn val_eq(a: &SqlVal, b: &SqlVal) -> (r: bool)
    ensures
        r == (a@ == b@),
{
    match (a, b) {
        (SqlVal::Bool(x), SqlVal::Bool(y)) => *x == *y,
        (SqlVal::Int(x), SqlVal::Int(y)) => *x == *y,
        (SqlVal::Text(x), SqlVal::Text(y)) => str_eq(x.as_str(), y.as_str()),
        _ => false,
    }
}

/// Whether two columns agree in every attribute, the name included.
pub fn col_eq(a: &AColumn, b: &AColumn) -> (r: bool)
    ensures
        r == (a@ == b@),
{
    let names = str_eq(a.name.as_str(), b.name.as_str());
    let typs = typ_eq(&a.sqltype, &b.sqltype);
    let defaults = match (&a.default, &b.default) {
        (Option::None, Option::None) => true,
        (Option::Some(x), Option::Some(y)) => val_eq(x, y),
        _ => false,
    };
    let r = names && typs && defaults && a.nullable == b.nullable && a.pk == b.pk && a.auto
        == b.auto;
    proof {
        if r {
            assert(a@ == b@);
        }
    }
    r
}

/// The column operations for one table present in both schemas.
#[verifier::loop_isolation(false)]
fn diff_table(tname: &String, fromcols: &Vec<AColumn>, tocols: &Vec<AColumn>) -> (r: Vec<
    Operation,
>)
    ensures
        r@.map_values(|o: Operation| o@) == table_ops(
            tname@,
            fromcols@.map_values(|c: AColumn| c@),
            tocols@.map_values(|c: AColumn| c@),
        ),
{
    let ghost fcs = fromcols@.map_values(|c: AColumn| c@);
    let ghost tcs = tocols@.map_values(|c: AColumn| c@);
    let mut out: Vec<Operation> = Vec::new();
    let mut i: usize = 0;
    proof {
        assert(tcs.take(0) =~= Seq::<ColV>::empty());
        assert(out@.map_values(|o: Operation| o@) =~= Seq::<OpV>::empty());
    }
    while i < tocols.len()
        invariant
            i <= tocols.len(),
            out@.map_values(|o: Operation| o@) == added_col_ops(tname@, fcs, tcs.take(i as int)),
        decreases tocols.len() - i,
    {
        proof {
            assert(tcs.take(i as int + 1).drop_last() =~= tcs.take(i as int));
            assert(tcs.take(i as int + 1).last() == tcs[i as int]);
            assert(tcs[i as int] == tocols@[i as int]@);
        }
        let ghost pre = out@.map_values(|o: Operation| o@);
        if find_column(fromcols, tocols[i].name.as_str()).is_none() {
            out.push(Operation::AddColumn(tname.clone(), tocols[i].clone()));
            proof {
                assert(out@.map_values(|o: Operation| o@) =~= pre.push(
                    OpV::AddColumn(tname@, tcs[i as int]),
                ));
            }
        }
        proof {
            assert(out@.map_values(|o: Operation| o@) =~= added_col_ops(
                tname@,
                fcs,
                tcs.take(i as int + 1),
            ));
        }
        i = i + 1;
    }
    proof {
        assert(tcs.take(tcs.len() as int) =~= tcs);
    }
    let ghost base2 = out@.map_values(|o: Operation| o@);
    let mut i: usize = 0;
    proof {
        assert(tcs.take(0) =~= Seq::<ColV>::empty());
    }
    while i < tocols.len()
        invariant
            i <= tocols.len(),
            out@.map_values(|o: Operation| o@) == base2 + changed_col_ops(
                tname@,
                fcs,
                tcs.take(i as int),
            ),
        decreases tocols.len() - i,
    {
        proof {
            assert(tcs.take(i as int + 1).drop_last() =~= tcs.take(i as int));
            assert(tcs.take(i as int + 1).last() == tcs[i as int]);
            assert(tcs[i as int] == tocols@[i as int]@);
        }
        let ghost pre = out@.map_values(|o: Operation| o@);
        match find_column(fromcols, tocols[i].name.as_str()) {
            Option::Some(fj) => {
                proof {
                    assert(fcs[fj as int] == fromcols@[fj as int]@);
                }
                if !col_eq(&fromcols[fj], &tocols[i]) {
                    out.push(
                        Operation::ChangeColumn(
                            tname.clone(),
                            fromcols[fj].clone(),
                            tocols[i].clone(),
                        ),
                    );
                    proof {
                        assert(out@.map_values(|o: Operation| o@) =~= pre.push(
                            OpV::ChangeColumn(tname@, fcs[fj as int], tcs[i as int]),
                        ));
                    }
                }
            },
            Option::None => {},
        }
        proof {
            assert(out@.map_values(|o: Operation| o@) =~= base2 + changed_col_ops(
                tname@,
                fcs,
                tcs.take(i as int + 1),
            ));
        }
        i = i + 1;
    }
    proof {
        assert(tcs.take(tcs.len() as int) =~= tcs);
    }
    let ghost base3 = out@.map_values(|o: Operation| o@);
    let mut i: usize = 0;
    proof {
        assert(fcs.take(0) =~= Seq::<ColV>::empty());
    }
    while i < fromcols.len()
        invariant
            i <= fromcols.len(),
            out@.map_values(|o: Operation| o@) == base3 + removed_col_ops(
                tname@,
                tcs,
                fcs.take(i as int),
            ),
        decreases fromcols.len() - i,
    {
        proof {
            assert(fcs.take(i as int + 1).drop_last() =~= fcs.take(i as int));
            assert(fcs.take(i as int + 1).last() == fcs[i as int]);
            assert(fcs[i as int] == fromcols@[i as int]@);
        }
        let ghost pre = out@.map_values(|o: Operation| o@);
        if find_column(tocols, fromcols[i].name.as_str()).is_none() {
            out.push(Operation::RemoveColumn(tname.clone(), fromcols[i].name.clone()));
            proof {
                assert(out@.map_values(|o: Operation| o@) =~= pre.push(
                    OpV::RemoveColumn(tname@, fcs[i as int].name),
                ));
            }
        }
        proof {
            assert(out@.map_values(|o: Operation| o@) =~= base3 + removed_col_ops(
                tname@,
                tcs,
                fcs.take(i as int + 1),
            ));
        }
        i = i + 1;
    }
    proof {
        assert(fcs.take(fcs.len() as int) =~= fcs);
        assert(out@.map_values(|o: Operation| o@) =~= table_ops(tname@, fcs, tcs));
    }
    out
}

/// Diff two schemas into an ordered operation list.
///
/// The result is purely structural: renames are never inferred, and
/// applying the rendered form of the result to a database in the `from`
/// state brings it to the `to` state.
#[verifier::loop_isolation(false)]
pub fn diff(from: &ADB, to: &ADB) -> (r: Vec<Operation>)
    ensures
        r@.map_values(|o: Operation| o@) == spec_diff(from@, to@),
{
    let mut ops: Vec<Operation> = Vec::new();
    let mut i: usize = 0;
    proof {
        assert(to@.take(0) =~= Seq::<TableV>::empty());
        assert(ops@.map_values(|o: Operation| o@) =~= Seq::<OpV>::empty());
    }
    while i < to.tables.len()
        invariant
            i <= to.tables.len(),
            ops@.map_values(|o: Operation| o@) == added_ops(from@, to@.take(i as int)),
        decreases to.tables.len() - i,
    {
        proof {
            assert(to@.take(i as int + 1).drop_last() =~= to@.take(i as int));
            assert(to@.take(i as int + 1).last() == to@[i as int]);
            assert(to@[i as int] == to.tables@[i as int]@);
        }
        if crate::adb::find_table(&from.tables, to.tables[i].name.as_str()).is_none() {
            ops.push(Operation::AddTable(to.tables[i].clone()));
        }
        proof {
            assert(ops@.map_values(|o: Operation| o@) =~= added_ops(
                from@,
                to@.take(i as int + 1),
            ));
        }
        i = i + 1;
    }
    proof {
        assert(to@.take(to@.len() as int) =~= to@);
    }
    let ghost base = ops@.map_values(|o: Operation| o@);
    let mut i: usize = 0;
    proof {
        assert(to@.take(0) =~= Seq::<TableV>::empty());
    }
    while i < to.tables.len()
        invariant
            i <= to.tables.len(),
            ops@.map_values(|o: Operation| o@) == base + changed_ops(from@, to@.take(i as int)),
        decreases to.tables.len() - i,
    {
        proof {
            assert(to@.take(i as int + 1).drop_last() =~= to@.take(i as int));
            assert(to@.take(i as int + 1).last() == to@[i as int]);
            assert(to@[i as int] == to.tables@[i as int]@);
        }
        match crate::adb::find_table(&from.tables, to.tables[i].name.as_str()) {
            Option::Some(fi) => {
                proof {
                    assert(from@[fi as int] == from.tables@[fi as int]@);
                }
                let ghost pre = ops@.map_values(|o: Operation| o@);
                let mut tv = diff_table(
                    &to.tables[i].name,
                    &from.tables[fi].columns,
                    &to.tables[i].columns,
                );
                let ghost tvv = tv@.map_values(|o: Operation| o@);
                ops.append(&mut tv);
                proof {
                    assert(ops@.map_values(|o: Operation| o@) =~= pre + tvv);
                }
            },
            Option::None => {},
        }
        proof {
            assert(ops@.map_values(|o: Operation| o@) =~= base + changed_ops(
                from@,
                to@.take(i as int + 1),
            ));
        }
        i = i + 1;
    }
    proof {
        assert(to@.take(to@.len() as int) =~= to@);
    }
    let ghost base2 = ops@.map_values(|o: Operation| o@);
    let mut i: usize = 0;
    proof {
        assert(from@.take(0) =~= Seq::<TableV>::empty());
    }
    while i < from.tables.len()
        invariant
            i <= from.tables.len(),
            ops@.map_values(|o: Operation| o@) == base2 + removed_ops(to@, from@.take(i as int)),
        decreases from.tables.len() - i,
    {
        proof {
            assert(from@.take(i as int + 1).drop_last() =~= from@.take(i as int));
            assert(from@.take(i as int + 1).last() == from@[i as int]);
            assert(from@[i as int] == from.tables@[i as int]@);
        }
        let ghost pre = ops@.map_values(|o: Operation| o@);
        if crate::adb::find_table(&to.tables, from.tables[i].name.as_str()).is_none() {
            ops.push(Operation::RemoveTable(from.tables[i].name.clone()));
            proof {
                assert(lookup_table(to@, from@[i as int].name) is None);
                assert(ops@.map_values(|o: Operation| o@) =~= pre.push(
                    OpV::RemoveTable(from@[i as int].name),
                ));
                assert(removed_ops(to@, from@.take(i as int + 1)) == removed_ops(
                    to@,
                    from@.take(i as int),
                ) + seq![OpV::RemoveTable(from@[i as int].name)]);
            }
        }
        proof {
            assert(ops@.map_values(|o: Operation| o@) =~= base2 + removed_ops(
                to@,
                from@.take(i as int + 1),
            ));
        }
        i = i + 1;
    }
    proof {
        assert(from@.take(from@.len() as int) =~= from@);
        assert(ops@.map_values(|o: Operation| o@) =~= spec_diff(from@, to@));
    }
    ops
}

} // verus!
