//! Abstract database model: an in-memory, serializable representation of
//! a schema (tables, columns, types, deferred cross-table references).

use vstd::prelude::*;
use vstd::string::*;

use crate::Error;

verus! {

/// Backend-independent column types.
#[derive(Clone, Copy, PartialEq, Eq, Structural, Debug)]
pub enum SqlType {
    Bool,
    Int,
    BigInt,
    Real,
    Text,
    Blob,
    Timestamp,
}

/// A literal value a column default can hold.
///
/// Real-valued defaults are not representable here; the engine supports
/// boolean, integer and text defaults.
pub enum SqlVal {
    Bool(bool),
    Int(i64),
    Text(String),
}

/// Mathematical value of a `SqlVal`.
pub ghost enum ValV {
    Bool(bool),
    Int(i64),
    Text(Seq<char>),
}

impl View for SqlVal {
    type V = ValV;

    open spec fn view(&self) -> ValV {
        match self {
            SqlVal::Bool(b) => ValV::Bool(*b),
            SqlVal::Int(i) => ValV::Int(*i),
            SqlVal::Text(s) => ValV::Text(s@),
        }
    }
}

impl Clone for SqlVal {
    fn clone(&self) -> (r: Self)
        ensures
            r@ == self@,
    {
        match self {
            SqlVal::Bool(b) => SqlVal::Bool(*b),
            SqlVal::Int(i) => SqlVal::Int(*i),
            SqlVal::Text(s) => SqlVal::Text(s.clone()),
        }
    }
}

/// A column's type: either known outright, or deferred to the resolved
/// type of another schema element, identified by a key such as
/// `"Blog.pk"` (the primary-key type of table `Blog`).
pub enum DeferredSqlType {
    Known(SqlType),
    Deferred(String),
}

/// Mathematical value of a `DeferredSqlType`.
pub ghost enum TypV {
    Known(SqlType),
    Deferred(Seq<char>),
}

impl View for DeferredSqlType {
    type V = TypV;

    open spec fn view(&self) -> TypV {
        match self {
            DeferredSqlType::Known(t) => TypV::Known(*t),
            DeferredSqlType::Deferred(k) => TypV::Deferred(k@),
        }
    }
}

impl Clone for DeferredSqlType {
    fn clone(&self) -> (r: Self)
        ensures
            r@ == self@,
    {
        match self {
            DeferredSqlType::Known(t) => DeferredSqlType::Known(*t),
            DeferredSqlType::Deferred(k) => DeferredSqlType::Deferred(k.clone()),
        }
    }
}

/// One column of a table.
pub struct AColumn {
    pub name: String,
    pub sqltype: DeferredSqlType,
    pub nullable: bool,
    pub pk: bool,
    pub auto: bool,
    pub default: Option<SqlVal>,
}

/// Mathematical value of an `AColumn`.
pub ghost struct ColV {
    pub name: Seq<char>,
    pub sqltype: TypV,
    pub nullable: bool,
    pub pk: bool,
    pub auto: bool,
    pub default: Option<ValV>,
}

impl View for AColumn {
    type V = ColV;

    open spec fn view(&self) -> ColV {
        ColV {
            name: self.name@,
            sqltype: self.sqltype@,
            nullable: self.nullable,
            pk: self.pk,
            auto: self.auto,
            default: match self.default {
                Option::None => Option::None,
                Option::Some(v) => Option::Some(v@),
            },
        }
    }
}

impl Clone for AColumn {
    fn clone(&self) -> (r: Self)
        ensures
            r@ == self@,
    {
        AColumn {
            name: self.name.clone(),
            sqltype: self.sqltype.clone(),
            nullable: self.nullable,
            pk: self.pk,
            auto: self.auto,
            default: match &self.default {
                Option::None => Option::None,
                Option::Some(v) => Option::Some(v.clone()),
            },
        }
    }
}

impl AColumn {
    /// A non-auto-increment column.
    pub fn new(
        name: &str,
        sqltype: DeferredSqlType,
        nullable: bool,
        pk: bool,
        default: Option<SqlVal>,
    ) -> (r: AColumn)
        ensures
            r@ == (ColV {
                name: name@,
                sqltype: sqltype@,
                nullable,
                pk,
                auto: false,
                default: match default {
                    Option::None => Option::None,
                    Option::Some(v) => Option::Some(v@),
                },
            }),
    {
        AColumn { name: name.to_owned(), sqltype, nullable, pk, auto: false, default }
    }
}

/// One table: a name and an ordered list of columns.
pub struct ATable {
    pub name: String,
    pub columns: Vec<AColumn>,
}

/// Mathematical value of an `ATable`.
pub ghost struct TableV {
    pub name: Seq<char>,
    pub columns: Seq<ColV>,
}

impl View for ATable {
    type V = TableV;

    open spec fn view(&self) -> TableV {
        TableV { name: self.name@, columns: self.columns@.map_values(|c: AColumn| c@) }
    }
}

impl Clone for ATable {
    fn clone(&self) -> (r: Self)
        ensures
            r@ == self@,
    {
        let columns = clone_columns(&self.columns);
        let r = ATable { name: self.name.clone(), columns };
        proof {
            assert(r@ =~= self@);
        }
        r
    }
}

/// Clone a column list, preserving its mathematical value.
#[verifier::loop_isolation(false)]
pub fn clone_columns(cols: &Vec<AColumn>) -> (r: Vec<AColumn>)
    ensures
        r@.map_values(|c: AColumn| c@) == cols@.map_values(|c: AColumn| c@),
{
    let mut out: Vec<AColumn> = Vec::new();
    let mut i: usize = 0;
    while i < cols.len()
        invariant
            i <= cols.len(),
            out@.len() == i,
            forall|k: int| 0 <= k < i ==> out@[k]@ == cols@[k]@,
        decreases cols.len() - i,
    {
        out.push(cols[i].clone());
        i = i + 1;
    }
    proof {
        assert(out@.map_values(|c: AColumn| c@) =~= cols@.map_values(|c: AColumn| c@));
    }
    out
}

impl ATable {
    pub fn new(name: String) -> (r: ATable)
        ensures
            r@ == (TableV { name: name@, columns: Seq::<ColV>::empty() }),
    {
        let r = ATable { name, columns: Vec::new() };
        proof {
            assert(r@.columns =~= Seq::<ColV>::empty());
        }
        r
    }

    /// Append a column; column order is preserved for deterministic
    /// rendering.
    pub fn add_column(&mut self, col: AColumn)
        ensures
            (*final(self))@.name == (*old(self))@.name,
            (*final(self))@.columns == (*old(self))@.columns.push(col@),
    {
        let ghost oldcols = self.columns@.map_values(|c: AColumn| c@);
        let ghost colv = col@;
        self.columns.push(col);
        proof {
            assert(self.columns@.map_values(|c: AColumn| c@) =~= oldcols.push(colv));
        }
    }
}

/// Membership of a table name in a sequence of tables.
pub open spec fn has_table(ts: Seq<TableV>, name: Seq<char>) -> bool {
    exists|i: int| 0 <= i < ts.len() && ts[i].name == name
}

/// The table of a given name, if any: the first match in order.
pub open spec fn lookup_table(ts: Seq<TableV>, name: Seq<char>) -> Option<TableV>
    decreases ts.len(),
{
    if ts.len() == 0 {
        Option::None
    } else if ts[0].name == name {
        Option::Some(ts[0])
    } else {
        lookup_table(ts.drop_first(), name)
    }
}

/// Membership of a column name in a sequence of columns.
pub open spec fn has_column(cs: Seq<ColV>, name: Seq<char>) -> bool {
    exists|i: int| 0 <= i < cs.len() && cs[i].name == name
}

/// The column of a given name, if any: the first match in order.
pub open spec fn lookup_column(cs: Seq<ColV>, name: Seq<char>) -> Option<ColV>
    decreases cs.len(),
{
    if cs.len() == 0 {
        Option::None
    } else if cs[0].name == name {
        Option::Some(cs[0])
    } else {
        lookup_column(cs.drop_first(), name)
    }
}

/// The primary-key column of a table, if any: the first column marked pk.
pub open spec fn pk_column(cs: Seq<ColV>) -> Option<ColV>
    decreases cs.len(),
{
    if cs.len() == 0 {
        Option::None
    } else if cs[0].pk {
        Option::Some(cs[0])
    } else {
        pk_column(cs.drop_first())
    }
}

/// Table names are pairwise distinct.
pub open spec fn distinct_table_names(ts: Seq<TableV>) -> bool {
    forall|i: int, j: int| 0 <= i < j < ts.len() ==> ts[i].name != ts[j].name
}

/// Column names are pairwise distinct.
pub open spec fn distinct_column_names(cs: Seq<ColV>) -> bool {
    forall|i: int, j: int| 0 <= i < j < cs.len() ==> cs[i].name != cs[j].name
}

/// Table names are unique, and within each table column names are
/// unique and exactly one column is marked primary key.
pub open spec fn wf_tables(ts: Seq<TableV>) -> bool {
    &&& distinct_table_names(ts)
    &&& forall|i: int| 0 <= i < ts.len() ==> #[trigger] wf_table(ts[i])
}

/// Column names unique; exactly one primary key; at most one
/// auto-increment column.
pub open spec fn wf_table(t: TableV) -> bool {
    &&& distinct_column_names(t.columns)
    &&& exists|i: int| 0 <= i < t.columns.len() && (#[trigger] t.columns[i]).pk
    &&& forall|i: int, j: int|
        0 <= i < j < t.columns.len() ==> !(t.columns[i].pk && t.columns[j].pk)
    &&& forall|i: int, j: int|
        0 <= i < j < t.columns.len() ==> !(t.columns[i].auto && t.columns[j].auto)
}

/// The abstract database: an ordered mapping from table name to table.
pub struct ADB {
    pub tables: Vec<ATable>,
}

impl View for ADB {
    type V = Seq<TableV>;

    open spec fn view(&self) -> Seq<TableV> {
        self.tables@.map_values(|t: ATable| t@)
    }
}

impl ADB {
    /// The empty schema.
    pub fn new() -> (r: ADB)
        ensures
            r@ == Seq::<TableV>::empty(),
    {
        let r = ADB { tables: Vec::new() };
        proof {
            assert(r@ =~= Seq::<TableV>::empty());
        }
        r
    }

    /// Insert a table, or replace the table of the same name in place.
    #[verifier::loop_isolation(false)]
    pub fn replace_table(&mut self, table: ATable)
        ensures
            (*final(self))@ == spec_replace_table((*old(self))@, table@),
    {
        let ghost oldv = self@;
        let ghost tv = table@;
        let mut i: usize = 0;
        let n: usize = self.tables.len();
        while i < n
            invariant
                n == self.tables.len(),
                i <= n,
                self@ == oldv,
                forall|k: int| 0 <= k < i ==> oldv[k].name != tv.name,
                table@ == tv,
            decreases n - i,
        {
            if str_eq(self.tables[i].name.as_str(), table.name.as_str()) {
                self.tables.set(i, table);
                proof {
                    lemma_replace_at(oldv, tv, i as int);
                    assert forall|k: int| 0 <= k < self@.len() implies self@[k] == oldv.update(
                        i as int,
                        tv,
                    )[k] by {
                        assert(self@[k] == self.tables@[k]@);
                    }
                    assert(self@ =~= oldv.update(i as int, tv));
                    assert(self@ == spec_replace_table(oldv, tv));
                    
                    
                }
                return ;
            }
            i = i + 1;
        }
        self.tables.push(table);
        proof {
            assert(self@ =~= oldv.push(tv));
            lemma_replace_append(oldv, tv);
        }
    }

    /// Remove the table of the given name, if present.
    #[verifier::loop_isolation(false)]
    pub fn remove_table(&mut self, name: &str)
        ensures
            (*final(self))@ == spec_remove_table((*old(self))@, name@),
    {
        let ghost oldv = self@;
        let mut kept: Vec<ATable> = Vec::new();
        let mut i: usize = 0;
        while i < self.tables.len()
            invariant
                i <= self.tables.len(),
                self@ == oldv,
                kept@.map_values(|t: ATable| t@) == spec_remove_table(oldv.take(i as int), name@),
            decreases self.tables.len() - i,
        {
            proof {
                lemma_remove_take_succ(oldv, name@, i as int);
            }
            if !str_eq(self.tables[i].name.as_str(), name) {
                kept.push(self.tables[i].clone());
                proof {
                    assert(kept@.map_values(|t: ATable| t@) =~= spec_remove_table(
                        oldv.take(i as int),
                        name@,
                    ).push(oldv[i as int]));
                }
            }
            i = i + 1;
        }
        proof {
            assert(oldv.take(oldv.len() as int) =~= oldv);
        }
        self.tables = kept;
    }

    /// Resolve every deferred column type against this schema, in a
    /// single pass. On success every column type is `Known`. If any
    /// reference cannot be resolved the schema is left unchanged and the
    /// offending key is reported.
    #[verifier::loop_isolation(false)]
    pub fn resolve_types(&mut self) -> (r: Result<(), Error>)
        ensures
            match r {
                Result::Ok(()) => spec_resolve((*old(self))@) == Result::<
                    Seq<TableV>,
                    Seq<char>,
                >::Ok((*final(self))@),
                Result::Err(e) => {
                    &&& (*final(self))@ == (*old(self))@
                    &&& e matches Error::UnknownType(k) && spec_resolve((*old(self))@)
                        == Result::<Seq<TableV>, Seq<char>>::Err(k@)
                },
            },
    {
        let ghost oldv = self@;
        let mut resolved: Vec<ATable> = Vec::new();
        let mut i: usize = 0;
        proof {
            assert(oldv.take(0) =~= Seq::<TableV>::empty());
            assert(resolved@.map_values(|t: ATable| t@) =~= Seq::<TableV>::empty());
        }
        while i < self.tables.len()
            invariant
                i <= self.tables.len(),
                self@ == oldv,
                spec_resolve_tables(oldv, oldv.take(i as int)) == Result::<
                    Seq<TableV>,
                    Seq<char>,
                >::Ok(resolved@.map_values(|t: ATable| t@)),
            decreases self.tables.len() - i,
        {
            proof {
                lemma_resolve_tables_take_succ(oldv, i as int);
                assert(self@[i as int] == self.tables@[i as int]@);
            }
            let cols = match resolve_columns(&self.tables, &self.tables[i].columns) {
                Result::Ok(cols) => cols,
                Result::Err(e) => {
                    proof {
                        lemma_resolve_tables_err_extend(
                            oldv,
                            i as int + 1,
                            spec_resolve_columns(oldv, oldv[i as int].columns)->Err_0,
                        );
                    }
                    return Result::Err(e);
                },
            };
            let name = self.tables[i].name.clone();
            resolved.push(ATable { name, columns: cols });
            proof {
                assert(resolved@.map_values(|t: ATable| t@) =~= spec_resolve_tables(
                    oldv,
                    oldv.take(i as int),
                )->Ok_0.push(
                    TableV {
                        name: oldv[i as int].name,
                        columns: spec_resolve_columns(oldv, oldv[i as int].columns)->Ok_0,
                    },
                ));
            }
            i = i + 1;
        }
        proof {
            assert(oldv.take(oldv.len() as int) =~= oldv);
        }
        self.tables = resolved;
        Result::Ok(())
    }
}

/// Resolve each column of one table against the full schema `tables`.
#[verifier::loop_isolation(false)]
fn resolve_columns(tables: &Vec<ATable>, cols: &Vec<AColumn>) -> (r: Result<Vec<AColumn>, Error>)
    ensures
        ({
            let ts = tables@.map_values(|t: ATable| t@);
            let cv = cols@.map_values(|c: AColumn| c@);
            match r {
                Result::Ok(out) => spec_resolve_columns(ts, cv) == Result::<
                    Seq<ColV>,
                    Seq<char>,
                >::Ok(out@.map_values(|c: AColumn| c@)),
                Result::Err(e) => e matches Error::UnknownType(k) && spec_resolve_columns(ts, cv)
                    == Result::<Seq<ColV>, Seq<char>>::Err(k@),
            }
        }),
{
    let ghost ts = tables@.map_values(|t: ATable| t@);
    let ghost cv = cols@.map_values(|c: AColumn| c@);
    let mut out: Vec<AColumn> = Vec::new();
    let mut j: usize = 0;
    proof {
        assert(cv.take(0) =~= Seq::<ColV>::empty());
        assert(out@.map_values(|c: AColumn| c@) =~= Seq::<ColV>::empty());
    }
    while j < cols.len()
        invariant
            j <= cols.len(),
            ts == tables@.map_values(|t: ATable| t@),
            cv == cols@.map_values(|c: AColumn| c@),
            spec_resolve_columns(ts, cv.take(j as int)) == Result::<Seq<ColV>, Seq<char>>::Ok(
                out@.map_values(|c: AColumn| c@),
            ),
        decreases cols.len() - j,
    {
        proof {
            lemma_resolve_columns_take_succ(ts, cv, j as int);
            assert(cv[j as int] == cols@[j as int]@);
        }
        let c = &cols[j];
        match &c.sqltype {
            DeferredSqlType::Known(_) => {
                out.push(c.clone());
                proof {
                    assert(ColV { sqltype: TypV::Known(cv[j as int].sqltype->Known_0), ..cv[
                        j as int
                    ] } == cv[j as int]);
                    assert(out@.map_values(|c: AColumn| c@) =~= spec_resolve_columns(
                        ts,
                        cv.take(j as int),
                    )->Ok_0.push(cv[j as int]));
                }
            },
            DeferredSqlType::Deferred(key) => {
                match resolve_key(tables, key) {
                    Option::Some(st) => {
                        let mut nc = c.clone();
                        nc.sqltype = DeferredSqlType::Known(st);
                        let ghost ncv = ColV { sqltype: TypV::Known(st), ..cv[j as int] };
                        out.push(nc);
                        proof {
                            assert(out@.map_values(|c: AColumn| c@) =~= spec_resolve_columns(
                                ts,
                                cv.take(j as int),
                            )->Ok_0.push(ncv));
                        }
                    },
                    Option::None => {
                        proof {
                            lemma_resolve_columns_err_extend(ts, cv, j as int + 1, key@);
                        }
                        return Result::Err(Error::UnknownType(key.clone()));
                    },
                }
            },
        }
        j = j + 1;
    }
    proof {
        assert(cv.take(cv.len() as int) =~= cv);
    }
    Result::Ok(out)
}

/// Replace the first table of the same name in place, or append.
pub open spec fn spec_replace_table(ts: Seq<TableV>, t: TableV) -> Seq<TableV>
    decreases ts.len(),
{
    if ts.len() == 0 {
        seq![t]
    } else if ts[0].name == t.name {
        seq![t] + ts.drop_first()
    } else {
        seq![ts[0]] + spec_replace_table(ts.drop_first(), t)
    }
}

/// Drop every table of the given name.
pub open spec fn spec_remove_table(ts: Seq<TableV>, name: Seq<char>) -> Seq<TableV>
    decreases ts.len(),
{
    if ts.len() == 0 {
        ts
    } else if ts.last().name == name {
        spec_remove_table(ts.drop_last(), name)
    } else {
        spec_remove_table(ts.drop_last(), name).push(ts.last())
    }
}

/// The suffix every deferred key must carry: a deferred key names the
/// primary-key type of another table, `"<table>.pk"`.
pub open spec fn pk_suffix() -> Seq<char> {
    seq!['.', 'p', 'k']
}

/// What a deferred key resolves to: the `Known` primary-key type of the
/// table the key names, if the key is well-formed, the table exists, it
/// has a primary key, and that key's type is itself already known (no
/// chains of deferrals are permitted).
pub open spec fn spec_resolve_key(ts: Seq<TableV>, key: Seq<char>) -> Option<SqlType> {
    if key.len() >= 3 && key.subrange(key.len() - 3, key.len() as int) == pk_suffix() {
        match lookup_table(ts, key.subrange(0, key.len() - 3)) {
            Option::None => Option::None,
            Option::Some(t) => match pk_column(t.columns) {
                Option::None => Option::None,
                Option::Some(c) => match c.sqltype {
                    TypV::Known(st) => Option::Some(st),
                    TypV::Deferred(_) => Option::None,
                },
            },
        }
    } else {
        Option::None
    }
}

/// Resolution of one column type against the original schema.
pub open spec fn spec_resolve_typ(ts: Seq<TableV>, typ: TypV) -> Option<SqlType> {
    match typ {
        TypV::Known(st) => Option::Some(st),
        TypV::Deferred(key) => spec_resolve_key(ts, key),
    }
}

/// Resolution of a column list; the error is the first unresolvable key.
pub open spec fn spec_resolve_columns(ts: Seq<TableV>, cs: Seq<ColV>) -> Result<
    Seq<ColV>,
    Seq<char>,
>
    decreases cs.len(),
{
    if cs.len() == 0 {
        Result::Ok(Seq::<ColV>::empty())
    } else {
        match spec_resolve_columns(ts, cs.drop_last()) {
            Result::Err(k) => Result::Err(k),
            Result::Ok(pre) => match spec_resolve_typ(ts, cs.last().sqltype) {
                Option::Some(st) => Result::Ok(
                    pre.push(ColV { sqltype: TypV::Known(st), ..cs.last() }),
                ),
                Option::None => match cs.last().sqltype {
                    TypV::Deferred(k) => Result::Err(k),
                    TypV::Known(_) => Result::Ok(pre),  // unreachable: Known always resolves
                },
            },
        }
    }
}

/// Resolution of a table list against the full original schema `ts`.
pub open spec fn spec_resolve_tables(ts: Seq<TableV>, sub: Seq<TableV>) -> Result<
    Seq<TableV>,
    Seq<char>,
>
    decreases sub.len(),
{
    if sub.len() == 0 {
        Result::Ok(Seq::<TableV>::empty())
    } else {
        match spec_resolve_tables(ts, sub.drop_last()) {
            Result::Err(k) => Result::Err(k),
            Result::Ok(pre) => match spec_resolve_columns(ts, sub.last().columns) {
                Result::Err(k) => Result::Err(k),
                Result::Ok(cs) => Result::Ok(
                    pre.push(TableV { name: sub.last().name, columns: cs }),
                ),
            },
        }
    }
}

/// What `resolve_types` computes: a single resolution pass over the
/// whole schema, against the schema as it stood before the pass.
pub open spec fn spec_resolve(ts: Seq<TableV>) -> Result<Seq<TableV>, Seq<char>> {
    spec_resolve_tables(ts, ts)
}

/// Every column type in the schema is `Known`.
pub open spec fn all_known(ts: Seq<TableV>) -> bool {
    forall|i: int, j: int|
        0 <= i < ts.len() && 0 <= j < ts[i].columns.len() ==> (#[trigger] ts[i].columns[j]).sqltype
            is Known
}

/// Compare two string slices.
#[verifier::loop_isolation(false)]
pub fn str_eq(a: &str, b: &str) -> (r: bool)
    ensures
        r == (a@ == b@),
{
    let av = a.as_bytes();
    let bv = b.as_bytes();
    if av.len() != bv.len() {
        return false;
    }
    let mut i: usize = 0;
    while i < av.len()
        invariant
            i <= av.len(),
            av.len() == bv.len(),
            av@ == a.spec_bytes(),
            bv@ == b.spec_bytes(),
            forall|k: int| 0 <= k < i ==> av@[k] == bv@[k],
        decreases av.len() - i,
    {
        if av[i] != bv[i] {
            return false;
        }
        i = i + 1;
    }
    proof {
        assert(av@ =~= bv@);
        vstd::utf8::encode_utf8_decode_utf8(a@);
        vstd::utf8::encode_utf8_decode_utf8(b@);
    }
    true
}

/// Exec resolution of one deferred key.
fn resolve_key(tables: &Vec<ATable>, key: &String) -> (r: Option<SqlType>)
    ensures
        r == spec_resolve_key(tables@.map_values(|t: ATable| t@), key@),
{
    let ghost ts = tables@.map_values(|t: ATable| t@);
    let n = key.as_str().unicode_len();
    if n < 3 {
        return Option::None;
    }
    let suffix = key.as_str().substring_char(n - 3, n);
    proof {
        reveal_strlit(".pk");
        assert(".pk"@ =~= pk_suffix());
    }
    if !str_eq(suffix, ".pk") {
        proof {
            assert(key@.subrange(key@.len() - 3, key@.len() as int) != pk_suffix());
        }
        return Option::None;
    }
    let tname = key.as_str().substring_char(0, n - 3);
    proof {
        assert(key@.subrange(key@.len() - 3, key@.len() as int) == pk_suffix());
    }
    match find_table(tables, tname) {
        Option::None => Option::None,
        Option::Some(ti) => {
            let t = &tables[ti];
            proof {
                assert(t@ == ts[ti as int]);
            }
            match find_pk(&t.columns) {
                Option::None => Option::None,
                Option::Some(j) => {
                    proof {
                        assert(t@.columns[j as int] == t.columns@[j as int]@);
                    }
                    match &t.columns[j].sqltype {
                        DeferredSqlType::Known(st) => Option::Some(*st),
                        DeferredSqlType::Deferred(_) => Option::None,
                    }
                },
            }
        },
    }
}

/// Index of the first table of the given name, if any.
#[verifier::loop_isolation(false)]
pub fn find_table(tables: &Vec<ATable>, name: &str) -> (r: Option<usize>)
    ensures
        ({
            let ts = tables@.map_values(|t: ATable| t@);
            match r {
                Option::Some(i) => i < ts.len() && lookup_table(ts, name@) == Option::Some(
                    ts[i as int],
                ),
                Option::None => lookup_table(ts, name@) is None,
            }
        }),
{
    let ghost ts = tables@.map_values(|t: ATable| t@);
    let mut i: usize = 0;
    proof {
        assert(ts.skip(0) =~= ts);
    }
    while i < tables.len()
        invariant
            i <= tables.len(),
            ts == tables@.map_values(|t: ATable| t@),
            lookup_table(ts.skip(i as int), name@) == lookup_table(ts, name@),
        decreases tables.len() - i,
    {
        proof {
            assert(ts.skip(i as int).len() > 0);
            assert(ts.skip(i as int)[0] == ts[i as int]);
            assert(ts.skip(i as int).drop_first() =~= ts.skip(i as int + 1));
        }
        if str_eq(tables[i].name.as_str(), name) {
            return Option::Some(i);
        }
        i = i + 1;
    }
    proof {
        assert(ts.skip(ts.len() as int) =~= Seq::<TableV>::empty());
    }
    Option::None
}

/// Index of the first column marked primary key, if any.
#[verifier::loop_isolation(false)]
pub fn find_pk(cols: &Vec<AColumn>) -> (r: Option<usize>)
    ensures
        ({
            let cs = cols@.map_values(|c: AColumn| c@);
            match r {
                Option::Some(j) => j < cs.len() && pk_column(cs) == Option::Some(cs[j as int]),
                Option::None => pk_column(cs) is None,
            }
        }),
{
    let ghost cs = cols@.map_values(|c: AColumn| c@);
    let mut j: usize = 0;
    proof {
        assert(cs.skip(0) =~= cs);
    }
    while j < cols.len()
        invariant
            j <= cols.len(),
            cs == cols@.map_values(|c: AColumn| c@),
            pk_column(cs.skip(j as int)) == pk_column(cs),
        decreases cols.len() - j,
    {
        proof {
            assert(cs.skip(j as int).len() > 0);
            assert(cs.skip(j as int)[0] == cs[j as int]);
            assert(cs.skip(j as int).drop_first() =~= cs.skip(j as int + 1));
        }
        if cols[j].pk {
            return Option::Some(j);
        }
        j = j + 1;
    }
    proof {
        assert(cs.skip(cs.len() as int) =~= Seq::<ColV>::empty());
    }
    Option::None
}

/// `spec_remove_table` on `take(i + 1)` in terms of `take(i)`.
proof fn lemma_remove_take_succ(ts: Seq<TableV>, name: Seq<char>, i: int)
    requires
        0 <= i < ts.len(),
    ensures
        spec_remove_table(ts.take(i + 1), name) == if ts[i].name == name {
            spec_remove_table(ts.take(i), name)
        } else {
            spec_remove_table(ts.take(i), name).push(ts[i])
        },
{
    assert(ts.take(i + 1).drop_last() =~= ts.take(i));
    assert(ts.take(i + 1).last() == ts[i]);
}

/// Replacing lands at index `i` when `i` holds the first matching name.
proof fn lemma_replace_at(ts: Seq<TableV>, t: TableV, i: int)
    requires
        0 <= i < ts.len(),
        ts[i].name == t.name,
        forall|k: int| 0 <= k < i ==> ts[k].name != t.name,
    ensures
        spec_replace_table(ts, t) == ts.update(i, t),
    decreases i,
{
    if i == 0 {
        assert(spec_replace_table(ts, t) == seq![t] + ts.drop_first());
        assert(seq![t] + ts.drop_first() =~= ts.update(0, t));
    } else {
        lemma_replace_at(ts.drop_first(), t, i - 1);
        assert(seq![ts[0]] + ts.drop_first().update(i - 1, t) =~= ts.update(i, t));
    }
}

/// When no table matches, replacing appends.
proof fn lemma_replace_append(ts: Seq<TableV>, t: TableV)
    requires
        forall|k: int| 0 <= k < ts.len() ==> ts[k].name != t.name,
    ensures
        spec_replace_table(ts, t) == ts.push(t),
    decreases ts.len(),
{
    if ts.len() == 0 {
        assert(seq![t] =~= ts.push(t));
    } else {
        lemma_replace_append(ts.drop_first(), t);
        assert(seq![ts[0]] + ts.drop_first().push(t) =~= ts.push(t));
    }
}

proof fn lemma_resolve_tables_take_succ(ts: Seq<TableV>, i: int)
    requires
        0 <= i < ts.len(),
    ensures
        spec_resolve_tables(ts, ts.take(i + 1)) == match spec_resolve_tables(ts, ts.take(i)) {
            Result::<Seq<TableV>, Seq<char>>::Err(k) => Result::<Seq<TableV>, Seq<char>>::Err(k),
            Result::<Seq<TableV>, Seq<char>>::Ok(pre) => match spec_resolve_columns(
                ts,
                ts[i].columns,
            ) {
                Result::Err(k) => Result::<Seq<TableV>, Seq<char>>::Err(k),
                Result::Ok(cs) => Result::<Seq<TableV>, Seq<char>>::Ok(
                    pre.push(TableV { name: ts[i].name, columns: cs }),
                ),
            },
        },
{
    assert(ts.take(i + 1).drop_last() =~= ts.take(i));
    assert(ts.take(i + 1).last() == ts[i]);
}

proof fn lemma_resolve_columns_take_succ(ts: Seq<TableV>, cs: Seq<ColV>, j: int)
    requires
        0 <= j < cs.len(),
    ensures
        spec_resolve_columns(ts, cs.take(j + 1)) == match spec_resolve_columns(ts, cs.take(j)) {
            Result::<Seq<ColV>, Seq<char>>::Err(k) => Result::<Seq<ColV>, Seq<char>>::Err(k),
            Result::<Seq<ColV>, Seq<char>>::Ok(pre) => match spec_resolve_typ(ts, cs[j].sqltype) {
                Option::Some(st) => Result::<Seq<ColV>, Seq<char>>::Ok(
                    pre.push(ColV { sqltype: TypV::Known(st), ..cs[j] }),
                ),
                Option::None => match cs[j].sqltype {
                    TypV::Deferred(k) => Result::<Seq<ColV>, Seq<char>>::Err(k),
                    TypV::Known(_) => Result::<Seq<ColV>, Seq<char>>::Ok(pre),
                },
            },
        },
{
    assert(cs.take(j + 1).drop_last() =~= cs.take(j));
    assert(cs.take(j + 1).last() == cs[j]);
}

/// A successful column resolution yields only `Known` types, one per
/// input column.
proof fn lemma_resolve_columns_known(ts: Seq<TableV>, cs: Seq<ColV>)
    requires
        spec_resolve_columns(ts, cs) is Ok,
    ensures
        spec_resolve_columns(ts, cs)->Ok_0.len() == cs.len(),
        forall|j: int|
            0 <= j < cs.len() ==> (#[trigger] spec_resolve_columns(ts, cs)->Ok_0[j]).sqltype
                is Known,
    decreases cs.len(),
{
    if cs.len() > 0 {
        lemma_resolve_columns_known(ts, cs.drop_last());
    }
}

/// A successful pass yields a schema in which every type is `Known`.
proof fn lemma_resolve_tables_known(ts: Seq<TableV>, sub: Seq<TableV>)
    requires
        spec_resolve_tables(ts, sub) is Ok,
    ensures
        spec_resolve_tables(ts, sub)->Ok_0.len() == sub.len(),
        all_known(spec_resolve_tables(ts, sub)->Ok_0),
    decreases sub.len(),
{
    if sub.len() > 0 {
        lemma_resolve_tables_known(ts, sub.drop_last());
        lemma_resolve_columns_known(ts, sub.last().columns);
        let pre = spec_resolve_tables(ts, sub.drop_last())->Ok_0;
        let whole = spec_resolve_tables(ts, sub)->Ok_0;
        assert forall|i: int, j: int|
            0 <= i < whole.len() && 0 <= j < whole[i].columns.len() implies (#[trigger] whole[
            i
        ].columns[j]).sqltype is Known by {
            if i < pre.len() {
                assert(whole[i] == pre[i]);
            }
        }
    }
}

/// Resolving a column list whose types are all `Known` returns it
/// unchanged.
proof fn lemma_known_columns_fixed(ts: Seq<TableV>, cs: Seq<ColV>)
    requires
        forall|j: int| 0 <= j < cs.len() ==> (#[trigger] cs[j]).sqltype is Known,
    ensures
        spec_resolve_columns(ts, cs) == Result::<Seq<ColV>, Seq<char>>::Ok(cs),
    decreases cs.len(),
{
    if cs.len() == 0 {
        assert(cs =~= Seq::<ColV>::empty());
    } else {
        assert(cs.drop_last().len() == cs.len() - 1);
        lemma_known_columns_fixed(ts, cs.drop_last());
        assert(cs.last() == cs[cs.len() - 1]);
        let st = cs.last().sqltype->Known_0;
        assert(ColV { sqltype: TypV::Known(st), ..cs.last() } == cs.last());
        assert(cs.drop_last().push(cs.last()) =~= cs);
    }
}

/// Resolving a schema whose types are all `Known` returns it unchanged.
proof fn lemma_known_tables_fixed(ts: Seq<TableV>, sub: Seq<TableV>)
    requires
        forall|i: int, j: int|
            0 <= i < sub.len() && 0 <= j < sub[i].columns.len() ==> (#[trigger] sub[i].columns[
                j
            ]).sqltype is Known,
    ensures
        spec_resolve_tables(ts, sub) == Result::<Seq<TableV>, Seq<char>>::Ok(sub),
    decreases sub.len(),
{
    if sub.len() == 0 {
        assert(sub =~= Seq::<TableV>::empty());
    } else {
        assert forall|i: int, j: int|
            0 <= i < sub.drop_last().len() && 0 <= j
                < sub.drop_last()[i].columns.len() implies (#[trigger] sub.drop_last()[i].columns[
            j
        ]).sqltype is Known by {
            assert(sub.drop_last()[i] == sub[i]);
        }
        lemma_known_tables_fixed(ts, sub.drop_last());
        assert(sub.last() == sub[sub.len() - 1]);
        lemma_known_columns_fixed(ts, sub.last().columns);
        assert(TableV { name: sub.last().name, columns: sub.last().columns } == sub.last());
        assert(sub.drop_last().push(sub.last()) =~= sub);
    }
}

/// Law: type resolution is idempotent once it has succeeded. Resolving
/// the result of a successful pass returns it unchanged.
pub proof fn lemma_resolve_idempotent(ts: Seq<TableV>)
    requires
        spec_resolve(ts) is Ok,
    ensures
        spec_resolve(spec_resolve(ts)->Ok_0) == Result::<Seq<TableV>, Seq<char>>::Ok(
            spec_resolve(ts)->Ok_0,
        ),
{
    lemma_resolve_tables_known(ts, ts);
    let r = spec_resolve(ts)->Ok_0;
    lemma_known_tables_fixed(r, r);
}

/// Once a column prefix fails, every longer prefix fails the same way.
proof fn lemma_resolve_columns_err_extend(ts: Seq<TableV>, cs: Seq<ColV>, j: int, key: Seq<char>)
    requires
        0 <= j <= cs.len(),
        spec_resolve_columns(ts, cs.take(j)) == Result::<Seq<ColV>, Seq<char>>::Err(key),
    ensures
        spec_resolve_columns(ts, cs) == Result::<Seq<ColV>, Seq<char>>::Err(key),
    decreases cs.len() - j,
{
    if j == cs.len() {
        assert(cs.take(j) =~= cs);
    } else {
        lemma_resolve_columns_take_succ(ts, cs, j);
        lemma_resolve_columns_err_extend(ts, cs, j + 1, key);
    }
}

/// Once a table prefix fails, every longer prefix fails the same way.
proof fn lemma_resolve_tables_err_extend(ts: Seq<TableV>, i: int, key: Seq<char>)
    requires
        0 <= i <= ts.len(),
        spec_resolve_tables(ts, ts.take(i)) == Result::<Seq<TableV>, Seq<char>>::Err(key),
    ensures
        spec_resolve(ts) == Result::<Seq<TableV>, Seq<char>>::Err(key),
    decreases ts.len() - i,
{
    if i == ts.len() {
        assert(ts.take(i) =~= ts);
    } else {
        lemma_resolve_tables_take_succ(ts, i);
        lemma_resolve_tables_err_extend(ts, i + 1, key);
    }
}

} // verus!
