//! Migration records and the migration chain. A migration is a directory
//! holding a schema snapshot (one `.table` file per table), forward and
//! reverse SQL per backend, and `info.json` with its predecessor's name;
//! the chain is rooted at a directory whose `state.json` records the tip.

use vstd::prelude::*;
use vstd::string::*;

use crate::adb::{
    spec_resolve, spec_replace_table, str_eq, AColumn, ADB, ATable, ColV, DeferredSqlType,
    SqlType, TableV, TypV,
};
use crate::backend::Backend;
use crate::db::{migrations_table_name, BackendConnection};
use crate::diff::{diff, spec_diff, OpV, Operation};
use crate::fs::Filesystem;
use crate::json::{
    info_json, json_info, json_state, json_table, opt_name_view, parse_info, parse_state,
    parse_table, state_json, table_json,
};
use crate::Error;

verus! {

/// The directory of the migration `name` under `root`.
pub open spec fn mdir(root: Seq<char>, name: Seq<char>) -> Seq<char> {
    root + "/"@ + name
}

/// The path of a migration's predecessor pointer.
pub open spec fn info_path(root: Seq<char>, name: Seq<char>) -> Seq<char> {
    mdir(root, name) + "/"@ + "info.json"@
}

/// The path of the chain-tip record.
pub open spec fn state_path(root: Seq<char>) -> Seq<char> {
    root + "/"@ + "state.json"@
}

/// The path of one serialized table inside a migration's directory.
pub open spec fn table_path(root: Seq<char>, mname: Seq<char>, tname: Seq<char>) -> Seq<char> {
    mdir(root, mname) + "/"@ + tname + ".table"@
}

/// The path of one SQL artifact, `fname` being `<backend>_<direction>`.
pub open spec fn sql_file_path(root: Seq<char>, mname: Seq<char>, fname: Seq<char>) -> Seq<char> {
    mdir(root, mname) + "/"@ + fname + ".sql"@
}

/// The migration `name` stores predecessor `from` under `root`.
pub open spec fn info_at(
    files: Map<Seq<char>, Seq<char>>,
    root: Seq<char>,
    name: Seq<char>,
    from: Option<Seq<char>>,
) -> bool {
    &&& files.contains_key(info_path(root, name))
    &&& files[info_path(root, name)] == json_info(from)
}

/// The names form a predecessor-linked chain on disk, root-first: the
/// first has no predecessor, and each next one names the one before it.
pub open spec fn chain_linked(
    files: Map<Seq<char>, Seq<char>>,
    root: Seq<char>,
    names: Seq<Seq<char>>,
) -> bool {
    &&& names.len() > 0 ==> info_at(files, root, names[0], Option::None)
    &&& forall|i: int|
        0 <= i < names.len() - 1 ==> info_at(
            files,
            root,
            names[i + 1],
            Option::Some(names[i]),
        )
}

/// Law: in a linked chain every non-root node's predecessor name is
/// itself a member of the chain, one step closer to the root.
pub proof fn lemma_chain_predecessor_present(
    files: Map<Seq<char>, Seq<char>>,
    root: Seq<char>,
    names: Seq<Seq<char>>,
    i: int,
)
    requires
        chain_linked(files, root, names),
        1 <= i < names.len(),
    ensures
        info_at(files, root, names[i], Option::Some(names[i - 1])),
        exists|j: int| 0 <= j < names.len() && #[trigger] names[j] == names[i - 1],
{
    assert(info_at(files, root, names[(i - 1) + 1], Option::Some(names[i - 1])));
    assert(names[i - 1] == names[i - 1]);
}

/// Law: the on-disk chain is deterministic. Two linked root-first
/// chains over the same store that end at the same tip are the same
/// chain: each pointer file stores one canonical predecessor record,
/// and that record determines the name it holds.
pub proof fn lemma_chain_unique(
    files: Map<Seq<char>, Seq<char>>,
    root: Seq<char>,
    names1: Seq<Seq<char>>,
    names2: Seq<Seq<char>>,
)
    requires
        chain_linked(files, root, names1),
        chain_linked(files, root, names2),
        names1.len() > 0,
        names2.len() > 0,
        names1.last() == names2.last(),
    ensures
        names1 == names2,
    decreases names1.len(),
{
    let n1 = names1.len() as int;
    let n2 = names2.len() as int;
    if n1 == 1 && n2 == 1 {
        assert(names1 =~= names2);
    } else if n1 == 1 {
        assert(info_at(files, root, names1[0], Option::None));
        assert(info_at(files, root, names2[(n2 - 2) + 1], Option::Some(names2[n2 - 2])));
        crate::json::lemma_json_info_forms_distinct(names2[n2 - 2]);
        assert(false);
    } else if n2 == 1 {
        assert(info_at(files, root, names2[0], Option::None));
        assert(info_at(files, root, names1[(n1 - 2) + 1], Option::Some(names1[n1 - 2])));
        crate::json::lemma_json_info_forms_distinct(names1[n1 - 2]);
        assert(false);
    } else {
        assert(info_at(files, root, names1[(n1 - 2) + 1], Option::Some(names1[n1 - 2])));
        assert(info_at(files, root, names2[(n2 - 2) + 1], Option::Some(names2[n2 - 2])));
        crate::json::lemma_json_info_injective(names1[n1 - 2], names2[n2 - 2]);
        assert(chain_linked(files, root, names1.drop_last())) by {
            assert(names1.drop_last()[0] == names1[0]);
            assert forall|i: int|
                0 <= i < names1.drop_last().len() - 1 implies info_at(
                files,
                root,
                #[trigger] names1.drop_last()[i + 1],
                Option::Some(names1.drop_last()[i]),
            ) by {
                assert(names1.drop_last()[i + 1] == names1[i + 1]);
                assert(names1.drop_last()[i] == names1[i]);
            }
        }
        assert(chain_linked(files, root, names2.drop_last())) by {
            assert(names2.drop_last()[0] == names2[0]);
            assert forall|i: int|
                0 <= i < names2.drop_last().len() - 1 implies info_at(
                files,
                root,
                #[trigger] names2.drop_last()[i + 1],
                Option::Some(names2.drop_last()[i]),
            ) by {
                assert(names2.drop_last()[i + 1] == names2[i + 1]);
                assert(names2.drop_last()[i] == names2[i]);
            }
        }
        assert(names1.drop_last().last() == names1[n1 - 2]);
        assert(names2.drop_last().last() == names2[n2 - 2]);
        lemma_chain_unique(files, root, names1.drop_last(), names2.drop_last());
        assert(names1 =~= names1.drop_last().push(names1.last()));
        assert(names2 =~= names2.drop_last().push(names2.last()));
    }
}

/// Join two path segments.
fn join(a: &str, b: &str) -> (r: String)
    ensures
        r@ == a@ + "/"@ + b@,
{
    let mut out = a.to_owned();
    out.append("/");
    out.append(b);
    proof {
        assert(out@ =~= a@ + "/"@ + b@);
    }
    out
}

/// Whether `s` ends with `suf`.
fn has_suffix(s: &str, suf: &str) -> (r: bool)
    ensures
        r == (s@.len() >= suf@.len() && s@.subrange(
            s@.len() - suf@.len(),
            s@.len() as int,
        ) == suf@),
{
    let n = s.unicode_len();
    let m = suf.unicode_len();
    if n < m {
        return false;
    }
    let tail = s.substring_char(n - m, n);
    str_eq(tail, suf)
}

/// A serialized table file: a path ending in `.table`.
pub open spec fn is_table_file(p: Seq<char>) -> bool {
    p.len() >= 6 && p.subrange(p.len() - 6, p.len() as int) == ".table"@
}

/// A path strictly inside the directory `dir`.
pub open spec fn under_dir(dir: Seq<char>, k: Seq<char>) -> bool {
    &&& k.len() > dir.len()
    &&& k.subrange(0, dir.len() as int) == dir
    &&& k[dir.len() as int] == '/'
}

/// Sequences with different last elements differ.
proof fn lemma_last_ne(a: Seq<char>, b: Seq<char>)
    requires
        a.len() > 0,
        b.len() > 0,
        a.last() != b.last(),
    ensures
        a != b,
{
    if a == b {
        assert(a.last() == b.last());
    }
}

/// Joining a leaf under a directory lands inside it.
proof fn lemma_under(dir: Seq<char>, leaf: Seq<char>)
    ensures
        under_dir(dir, dir + "/"@ + leaf),
{
    reveal_strlit("/");
    let k = dir + "/"@ + leaf;
    assert(k.subrange(0, dir.len() as int) =~= dir);
    assert(k[dir.len() as int] == "/"@[0]);
}

/// A SQL artifact path ends in `l` and is no `.table` file.
proof fn lemma_sql_path_shape(root: Seq<char>, name: Seq<char>, fname: Seq<char>)
    ensures
        sql_file_path(root, name, fname).len() > 0,
        sql_file_path(root, name, fname).last() == 'l',
        !is_table_file(sql_file_path(root, name, fname)),
        under_dir(mdir(root, name), sql_file_path(root, name, fname)),
{
    reveal_strlit(".sql");
    reveal_strlit(".table");
    let p = sql_file_path(root, name, fname);
    assert(p.last() == ".sql"@[3]);
    if is_table_file(p) {
        assert(p.subrange(p.len() - 6, p.len() as int)[5] == ".table"@[5]);
        assert(p.last() == 'e');
    }
    lemma_under(mdir(root, name), fname + ".sql"@);
    assert(mdir(root, name) + "/"@ + (fname + ".sql"@) =~= p);
}

/// An info path ends in `n` and is no `.table` file.
proof fn lemma_info_path_shape(root: Seq<char>, name: Seq<char>)
    ensures
        info_path(root, name).len() > 0,
        info_path(root, name).last() == 'n',
        !is_table_file(info_path(root, name)),
        under_dir(mdir(root, name), info_path(root, name)),
{
    reveal_strlit("info.json");
    reveal_strlit(".table");
    let p = info_path(root, name);
    assert(p.last() == "info.json"@[8]);
    if is_table_file(p) {
        assert(p.subrange(p.len() - 6, p.len() as int)[5] == ".table"@[5]);
        assert(p.last() == 'e');
    }
    lemma_under(mdir(root, name), "info.json"@);
}

/// The state path ends in `n` and is no `.table` file.
proof fn lemma_state_path_shape(root: Seq<char>)
    ensures
        state_path(root).len() > 0,
        state_path(root).last() == 'n',
        !is_table_file(state_path(root)),
{
    reveal_strlit("state.json");
    reveal_strlit(".table");
    let p = state_path(root);
    assert(p.last() == "state.json"@[9]);
    if is_table_file(p) {
        assert(p.subrange(p.len() - 6, p.len() as int)[5] == ".table"@[5]);
        assert(p.last() == 'e');
    }
}

/// A serialized-table path ends in `e`.
proof fn lemma_table_path_shape(root: Seq<char>, name: Seq<char>, tname: Seq<char>)
    ensures
        table_path(root, name, tname).len() > 0,
        table_path(root, name, tname).last() == 'e',
        is_table_file(table_path(root, name, tname)),
        under_dir(mdir(root, name), table_path(root, name, tname)),
{
    reveal_strlit(".table");
    let p = table_path(root, name, tname);
    assert(p.last() == ".table"@[5]);
    assert(p.subrange(p.len() - 6, p.len() as int) =~= ".table"@);
    lemma_under(mdir(root, name), tname + ".table"@);
    assert(mdir(root, name) + "/"@ + (tname + ".table"@) =~= p);
}

/// The null state record and a named one are different texts.
proof fn lemma_state_forms_distinct(x: Seq<char>)
    ensures
        json_state(Option::None) != json_state(Option::Some(x)),
{
    reveal_strlit("{\"latest\":");
    reveal_strlit("null");
    let a = json_state(Option::<Seq<char>>::None);
    let b = json_state(Option::Some(x));
    assert(a[10] == "null"@[0]);
    assert(b[10] == crate::json::quoted(x)[0]);
    assert(crate::json::quoted(x)[0] == '"');
    assert(a[10] != b[10]);
}

/// The schemas folded into one, by insertion order with replacement.
pub open spec fn fold_replace(raw: Seq<TableV>) -> Seq<TableV>
    decreases raw.len(),
{
    if raw.len() == 0 {
        Seq::<TableV>::empty()
    } else {
        spec_replace_table(fold_replace(raw.drop_last()), raw.last())
    }
}

/// Every `.table` file in the directory stores one of the tables of
/// `raw`.
#[verifier::opaque]
pub open spec fn covers_dir(
    files: Map<Seq<char>, Seq<char>>,
    dir: Seq<char>,
    raw: Seq<TableV>,
) -> bool {
    forall|k: Seq<char>|
        files.contains_key(k) && crate::fs::is_child(dir, k) && is_table_file(k) ==> exists|i: int|
            0 <= i < raw.len() && files[k] == json_table(#[trigger] raw[i])
}

/// What a successful snapshot read means: some sequence `raw` of tables,
/// each stored in a `.table` file of the migration's directory, covering
/// every `.table` file there, resolves to the returned schema.
pub open spec fn snapshot_read(
    files: Map<Seq<char>, Seq<char>>,
    dir: Seq<char>,
    raw: Seq<TableV>,
    dbv: Seq<TableV>,
) -> bool {
    &&& forall|i: int|
        0 <= i < raw.len() ==> exists|k: Seq<char>|
            files.contains_key(k) && crate::fs::is_child(dir, k) && is_table_file(k) && files[k]
                == json_table(#[trigger] raw[i])
    &&& covers_dir(files, dir, raw)
    &&& spec_resolve(fold_replace(raw)) == Result::<Seq<TableV>, Seq<char>>::Ok(dbv)
}

/// A successful snapshot read: some stored table sequence explains the
/// returned schema.
pub open spec fn got_db(
    files: Map<Seq<char>, Seq<char>>,
    root: Seq<char>,
    name: Seq<char>,
    dbv: Seq<TableV>,
) -> bool {
    exists|raw: Seq<TableV>| #[trigger] snapshot_read(files, mdir(root, name), raw, dbv)
}

/// A snapshot whose stored tables fold to a schema whose resolution
/// fails with exactly the key `key`.
pub open spec fn snapshot_unresolved(
    files: Map<Seq<char>, Seq<char>>,
    dir: Seq<char>,
    raw: Seq<TableV>,
    key: Seq<char>,
) -> bool {
    &&& forall|i: int|
        0 <= i < raw.len() ==> exists|k: Seq<char>|
            files.contains_key(k) && crate::fs::is_child(dir, k) && is_table_file(k) && files[k]
                == json_table(#[trigger] raw[i])
    &&& covers_dir(files, dir, raw)
    &&& spec_resolve(fold_replace(raw)) == Result::<Seq<TableV>, Seq<char>>::Err(key)
}

/// A failed snapshot read: the stored tables cannot be resolved, and the
/// offending key is `key`.
pub open spec fn db_unresolved(
    files: Map<Seq<char>, Seq<char>>,
    root: Seq<char>,
    name: Seq<char>,
    key: Seq<char>,
) -> bool {
    exists|raw: Seq<TableV>| #[trigger] snapshot_unresolved(files, mdir(root, name), raw, key)
}

/// One node of the history: a named directory under the chain's root.
pub struct Migration {
    pub root: String,
    pub name: String,
}

impl PartialEq for Migration {
    /// Migrations are equal when their names are: a name identifies one
    /// directory of the chain.
    fn eq(&self, other: &Migration) -> (r: bool) {
        str_eq(self.name.as_str(), other.name.as_str())
    }
}

impl vstd::std_specs::cmp::PartialEqSpecImpl for Migration {
    open spec fn obeys_eq_spec() -> bool {
        true
    }

    open spec fn eq_spec(&self, other: &Migration) -> bool {
        self.name@ == other.name@
    }
}

impl Eq for Migration {
}

impl Migration {
    /// The migration's name.
    pub fn get_name(&self) -> (r: String)
        ensures
            r@ == self.name@,
    {
        self.name.clone()
    }

    /// The directory this migration owns.
    fn dir(&self) -> (r: String)
        ensures
            r@ == mdir(self.root@, self.name@),
    {
        join(self.root.as_str(), self.name.as_str())
    }

    /// Serialize one table into this migration's directory.
    pub fn write_table<FS: Filesystem>(&self, fs: &mut FS, table: &ATable) -> (r: Result<
        (),
        Error,
    >)
        ensures
            r is Ok ==> final(fs).files() == old(fs).files().insert(
                table_path(self.root@, self.name@, table@.name),
                json_table(table@),
            ),
            r is Err ==> final(fs).files() == old(fs).files(),
    {
        let dir = self.dir();
        match fs.ensure_dir(dir.as_str()) {
            Result::Ok(()) => {},
            Result::Err(e) => {
                return Result::Err(e);
            },
        }
        let mut fname = table.name.clone();
        fname.append(".table");
        let path = join(dir.as_str(), fname.as_str());
        proof {
            assert(path@ =~= table_path(self.root@, self.name@, table@.name));
        }
        let contents = table_json(table);
        fs.write(path.as_str(), contents.as_str())
    }

    /// Write this migration's predecessor pointer.
    pub fn write_info<FS: Filesystem>(&self, fs: &mut FS, from: &Option<String>) -> (r: Result<
        (),
        Error,
    >)
        ensures
            r is Ok ==> final(fs).files() == old(fs).files().insert(
                info_path(self.root@, self.name@),
                json_info(opt_name_view(*from)),
            ),
            r is Err ==> final(fs).files() == old(fs).files(),
    {
        let dir = self.dir();
        match fs.ensure_dir(dir.as_str()) {
            Result::Ok(()) => {},
            Result::Err(e) => {
                return Result::Err(e);
            },
        }
        let path = join(dir.as_str(), "info.json");
        proof {
            assert(path@ =~= info_path(self.root@, self.name@));
        }
        let contents = info_json(from);
        fs.write(path.as_str(), contents.as_str())
    }

    /// Write one SQL artifact, `fname` being `<backend>_<direction>`.
    pub fn write_sql<FS: Filesystem>(&self, fs: &mut FS, fname: &str, sql: &str) -> (r: Result<
        (),
        Error,
    >)
        ensures
            r is Ok ==> final(fs).files() == old(fs).files().insert(
                sql_file_path(self.root@, self.name@, fname@),
                sql@,
            ),
            r is Err ==> final(fs).files() == old(fs).files(),
    {
        let dir = self.dir();
        match fs.ensure_dir(dir.as_str()) {
            Result::Ok(()) => {},
            Result::Err(e) => {
                return Result::Err(e);
            },
        }
        let mut f = fname.to_owned();
        f.append(".sql");
        let path = join(dir.as_str(), f.as_str());
        proof {
            assert(path@ =~= sql_file_path(self.root@, self.name@, fname@));
        }
        fs.write(path.as_str(), sql)
    }

    /// Read one SQL artifact.
    fn read_sql<FS: Filesystem>(&self, fs: &FS, backend: &str, direction: &str) -> (r: Result<
        String,
        Error,
    >)
        ensures
            r matches Ok(s) ==> {
                &&& fs.files().contains_key(
                    sql_file_path(self.root@, self.name@, backend@ + "_"@ + direction@),
                )
                &&& s@ == fs.files()[sql_file_path(
                    self.root@,
                    self.name@,
                    backend@ + "_"@ + direction@,
                )]
            },
    {
        let mut f = backend.to_owned();
        f.append("_");
        f.append(direction);
        let dir = self.dir();
        let mut fname = f;
        fname.append(".sql");
        let path = join(dir.as_str(), fname.as_str());
        proof {
            assert(path@ =~= sql_file_path(
                self.root@,
                self.name@,
                backend@ + "_"@ + direction@,
            ));
        }
        fs.read(path.as_str())
    }

    /// The forward SQL for a backend.
    pub fn up_sql<FS: Filesystem>(&self, fs: &FS, backend_name: &str) -> (r: Result<String, Error>)
        ensures
            r matches Ok(s) ==> {
                &&& fs.files().contains_key(
                    sql_file_path(self.root@, self.name@, backend_name@ + "_up"@),
                )
                &&& s@ == fs.files()[sql_file_path(self.root@, self.name@, backend_name@ + "_up"@)]
            },
    {
        let r = self.read_sql(fs, backend_name, "up");
        proof {
            reveal_strlit("up");
            reveal_strlit("_");
            reveal_strlit("_up");
            assert(backend_name@ + "_"@ + "up"@ =~= backend_name@ + "_up"@);
        }
        r
    }

    /// The reverse SQL for a backend.
    pub fn down_sql<FS: Filesystem>(&self, fs: &FS, backend_name: &str) -> (r: Result<
        String,
        Error,
    >)
        ensures
            r matches Ok(s) ==> {
                &&& fs.files().contains_key(
                    sql_file_path(self.root@, self.name@, backend_name@ + "_down"@),
                )
                &&& s@ == fs.files()[sql_file_path(
                    self.root@,
                    self.name@,
                    backend_name@ + "_down"@,
                )]
            },
    {
        let r = self.read_sql(fs, backend_name, "down");
        proof {
            reveal_strlit("down");
            reveal_strlit("_");
            reveal_strlit("_down");
            assert(backend_name@ + "_"@ + "down"@ =~= backend_name@ + "_down"@);
        }
        r
    }

    /// Read this migration's schema snapshot: parse every `.table` file
    /// in its directory, fold the tables in, resolve deferred types.
    #[verifier::rlimit(100)]
    pub fn get_db<FS: Filesystem>(&self, fs: &FS) -> (r: Result<ADB, Error>)
        ensures
            r matches Ok(db) ==> got_db(fs.files(), self.root@, self.name@, db@),
            r matches Err(e) ==> (e matches Error::UnknownType(k) ==> db_unresolved(
                fs.files(),
                self.root@,
                self.name@,
                k@,
            )),
    {
        let dir = self.dir();
        let entries = match fs.list_dir(dir.as_str()) {
            Result::Ok(v) => v,
            Result::Err(e) => {
                // a failed listing is an I/O failure
                return match e {
                    Error::IoNotFound => Result::Err(Error::IoNotFound),
                    _ => Result::Err(Error::Io),
                };
            },
        };
        let (db, raw) = match read_snapshot_tables(fs, &dir, &entries) {
            Result::Ok(p) => p,
            Result::Err(e) => {
                return Result::Err(e);
            },
        };
        proof {
            assert(dir@ == mdir(self.root@, self.name@));
            assert(got_db(fs.files(), self.root@, self.name@, db@)) by {
                assert(snapshot_read(fs.files(), mdir(self.root@, self.name@), raw@, db@));
            }
        }
        Result::Ok(db)
    }

    /// The migration before this one, if any.
    pub fn get_from_migration<FS: Filesystem>(&self, fs: &FS) -> (r: Result<
        Option<Migration>,
        Error,
    >)
        ensures
            r matches Ok(Option::Some(m)) ==> info_at(
                fs.files(),
                self.root@,
                self.name@,
                Option::Some(m.name@),
            ) && m.root@ == self.root@,
            r matches Ok(Option::None) ==> info_at(
                fs.files(),
                self.root@,
                self.name@,
                Option::None,
            ),
            r matches Err(e) ==> e is IoNotFound || e is Io || e is Serde,
            r matches Err(e) ==> (e is Serde ==> fs.files().contains_key(
                info_path(self.root@, self.name@),
            ) && forall|f: Option<Seq<char>>|
                fs.files()[info_path(self.root@, self.name@)] != json_info(f)),
    {
        let dir = self.dir();
        let path = join(dir.as_str(), "info.json");
        proof {
            assert(path@ =~= info_path(self.root@, self.name@));
        }
        let contents = match fs.read(path.as_str()) {
            Result::Ok(c) => c,
            Result::Err(e) => {
                // an absent record keeps its kind; any other store failure
                // is an I/O failure
                return match e {
                    Error::IoNotFound => Result::Err(Error::IoNotFound),
                    _ => Result::Err(Error::Io),
                };
            },
        };
        match parse_info(contents.as_str()) {
            Option::None => Result::Err(Error::Serde),
            Option::Some(Option::None) => Result::Ok(Option::None),
            Option::Some(Option::Some(n)) => Result::Ok(
                Option::Some(Migration { root: self.root.clone(), name: n }),
            ),
        }
    }

    /// Execute this migration's forward SQL on the connection and record
    /// its name in the bookkeeping table. After success the name is
    /// recorded as applied.
    pub fn apply<FS: Filesystem, C: BackendConnection>(&self, fs: &FS, conn: &mut C) -> (r: Result<
        (),
        Error,
    >)
        ensures
            r is Ok ==> final(conn).applied().contains(self.name@),
            r is Ok ==> fs.files().contains_key(
                sql_file_path(self.root@, self.name@, old(conn).backend() + "_up"@),
            ),
            r is Ok ==> final(conn).executed() == old(conn).executed().push(
                fs.files()[sql_file_path(self.root@, self.name@, old(conn).backend() + "_up"@)],
            ),
    {
        let backend_name = conn.backend_name();
        let sql = match self.up_sql(fs, backend_name.as_str()) {
            Result::Ok(s) => s,
            Result::Err(_) => {
                return Result::Err(
                    Error::MigrationError("no forward SQL for this backend".to_owned()),
                );
            },
        };
        match conn.execute(sql.as_str()) {
            Result::Ok(()) => {},
            Result::Err(e) => {
                return Result::Err(e);
            },
        }
        let mut columns: Vec<String> = Vec::new();
        columns.push("name".to_owned());
        let mut values: Vec<crate::adb::SqlVal> = Vec::new();
        values.push(crate::adb::SqlVal::Text(self.name.clone()));
        let r = conn.insert_or_replace("propane_migrations", &columns, &values);
        proof {
            reveal_strlit("propane_migrations");
        }
        match r {
            Result::Ok(()) => {
                proof {
                    assert(final(conn).applied().contains(self.name@));
                }
                Result::Ok(())
            },
            Result::Err(e) => Result::Err(e),
        }
    }
}

/// Parse and fold every `.table` file among the listed entries, then
/// resolve deferred types.
#[verifier::rlimit(100)]
fn read_snapshot_tables<FS: Filesystem>(fs: &FS, dir: &String, entries: &Vec<String>) -> (r:
    Result<(ADB, Ghost<Seq<TableV>>), Error>)
    requires
        crate::fs::listing_ok(fs.files(), dir@, entries@),
    ensures
        r matches Ok(p) ==> snapshot_read(fs.files(), dir@, p.1@, p.0@),
        r matches Err(e) ==> (e matches Error::UnknownType(k) ==> exists|raw: Seq<TableV>|
            #[trigger] snapshot_unresolved(fs.files(), dir@, raw, k@)),
{
    let mut db = ADB::new();
    let ghost mut raw: Seq<TableV> = Seq::<TableV>::empty();
    let mut i: usize = 0;
    while i < entries.len()
        invariant
            crate::fs::listing_ok(fs.files(), dir@, entries@),
            i <= entries@.len(),
            db@ == fold_replace(raw),
            forall|x: int|
                0 <= x < raw.len() ==> exists|k: Seq<char>|
                    fs.files().contains_key(k) && crate::fs::is_child(dir@, k) && is_table_file(
                        k,
                    ) && fs.files()[k] == json_table(#[trigger] raw[x]),
            forall|e: int|
                0 <= e < i && is_table_file((#[trigger] entries@[e])@) ==> exists|x: int|
                    0 <= x < raw.len() && fs.files()[entries@[e]@] == json_table(raw[x]),
        decreases entries@.len() - i,
    {
        if has_suffix(entries[i].as_str(), ".table") {
            proof {
                reveal_strlit(".table");
                assert(is_table_file(entries@[i as int]@));
            }
            let contents = match fs.read(entries[i].as_str()) {
                Result::Ok(c) => c,
                Result::Err(e) => {
                    // a failed read of a listed file is an I/O failure
                    return match e {
                        Error::IoNotFound => Result::Err(Error::IoNotFound),
                        _ => Result::Err(Error::Io),
                    };
                },
            };
            let table = match parse_table(contents.as_str()) {
                Option::Some(t) => t,
                Option::None => {
                    return Result::Err(Error::Serde);
                },
            };
            let ghost tv = table@;
            let ghost pre_raw = raw;
            db.replace_table(table);
            proof {
                raw = raw.push(tv);
                assert(raw.drop_last() =~= pre_raw);
                assert(raw.last() == tv);
                assert(db@ == fold_replace(raw));
                assert(fs.files()[entries@[i as int]@] == json_table(tv));
                assert(raw[raw.len() - 1] == tv);
            }
        } else {
            proof {
                reveal_strlit(".table");
            }
        }
        i = i + 1;
    }
    proof {
        assert(covers_dir(fs.files(), dir@, raw)) by {
            reveal(covers_dir);
            assert forall|k: Seq<char>|
                fs.files().contains_key(k) && crate::fs::is_child(dir@, k) && is_table_file(
                    k,
                ) implies exists|x: int|
                0 <= x < raw.len() && fs.files()[k] == json_table(#[trigger] raw[x]) by {
                let e = choose|e: int| 0 <= e < entries@.len() && (#[trigger] entries@[e])@ == k;
                assert(is_table_file(entries@[e]@));
                let x = choose|x: int|
                    0 <= x < raw.len() && fs.files()[entries@[e]@] == json_table(raw[x]);
                assert(fs.files()[k] == json_table(raw[x]));
            }
        }
    }
    match db.resolve_types() {
        Result::Ok(()) => {
            proof {
                assert(snapshot_read(fs.files(), dir@, raw, db@));
            }
            Result::Ok((db, Ghost(raw)))
        },
        Result::Err(e) => {
            proof {
                match &e {
                    Error::UnknownType(k) => {
                        assert(snapshot_unresolved(fs.files(), dir@, raw, k@));
                    },
                    _ => {},
                }
            }
            Result::Err(e)
        },
    }
}

/// Write the whole snapshot, one `.table` file per table; every file
/// already present stays present.
#[verifier::loop_isolation(false)]
fn write_snapshot<FS: Filesystem>(m: &Migration, fs: &mut FS, tables: &Vec<ATable>) -> (r: Result<
    (),
    Error,
>)
    ensures
        forall|k: Seq<char>|
            old(fs).files().contains_key(k) ==> final(fs).files().contains_key(k),
        r is Ok ==> forall|i: int|
            0 <= i < tables@.len() ==> final(fs).files().contains_key(
                table_path(m.root@, m.name@, (#[trigger] tables@[i])@.name),
            ),
        forall|k: Seq<char>|
            !#[trigger] is_table_file(k) ==> (final(fs).files().contains_key(k) <==> old(fs).files().contains_key(k)) && (old(fs).files().contains_key(k) ==> final(fs).files()[k] == old(fs).files()[k]),
        forall|k: Seq<char>|
            !#[trigger] under_dir(mdir(m.root@, m.name@), k) ==> (final(fs).files().contains_key(k) <==> old(fs).files().contains_key(k)) && (old(fs).files().contains_key(k) ==> final(fs).files()[k] == old(fs).files()[k]),
{
    let mut ti: usize = 0;
    while ti < tables.len()
        invariant
            ti <= tables.len(),
            forall|k: Seq<char>|
                old(fs).files().contains_key(k) ==> fs.files().contains_key(k),
            forall|i: int|
                0 <= i < ti ==> fs.files().contains_key(
                    table_path(m.root@, m.name@, (#[trigger] tables@[i])@.name),
                ),
            forall|k: Seq<char>|
                !#[trigger] is_table_file(k) ==> (fs.files().contains_key(k) <==> old(fs).files().contains_key(k)) && (old(fs).files().contains_key(k) ==> fs.files()[k]
                    == old(fs).files()[k]),
            forall|k: Seq<char>|
                !#[trigger] under_dir(mdir(m.root@, m.name@), k) ==> (fs.files().contains_key(k)
                    <==> old(fs).files().contains_key(k)) && (old(fs).files().contains_key(k)
                    ==> fs.files()[k] == old(fs).files()[k]),
        decreases tables.len() - ti,
    {
        match m.write_table(fs, &tables[ti]) {
            Result::Ok(()) => {},
            Result::Err(e) => {
                return Result::Err(e);
            },
        }
        proof {
            lemma_table_path_shape(m.root@, m.name@, tables@[ti as int]@.name);
        }
        ti = ti + 1;
    }
    Result::Ok(())
}

/// A migration's pointer file and the chain-tip file never share a path.
proof fn lemma_info_state_distinct(root: Seq<char>, name: Seq<char>)
    ensures
        info_path(root, name) != state_path(root),
{
    reveal_strlit("/");
    reveal_strlit("info.json");
    reveal_strlit("state.json");
    if info_path(root, name) == state_path(root) {
        assert(info_path(root, name).len() == root.len() + name.len() + 11);
        assert(state_path(root).len() == root.len() + 11);
        assert(name.len() == 0);
        assert(info_path(root, name)[root.len() as int + 1] == '/');
        assert(state_path(root)[root.len() as int + 1] == 's');
        assert(false);
    }
}

/// The chain tip record.
pub struct MigrationsState {
    pub latest: Option<String>,
}

impl MigrationsState {
    /// The state of an empty chain.
    pub fn new() -> (r: MigrationsState)
        ensures
            r.latest is None,
    {
        MigrationsState { latest: Option::None }
    }
}

/// The bookkeeping table's schema: a single text primary-key column
/// holding the applied migration's name.
pub fn migrations_table() -> (r: ATable)
    ensures
        r@.name == migrations_table_name(),
        r@.columns.len() == 1,
        r@.columns[0] == (ColV {
            name: "name"@,
            sqltype: TypV::Known(SqlType::Text),
            nullable: false,
            pk: true,
            auto: false,
            default: Option::None,
        }),
{
    proof {
        reveal_strlit("propane_migrations");
    }
    let mut table = ATable::new("propane_migrations".to_owned());
    let col = AColumn::new(
        "name",
        DeferredSqlType::Known(SqlType::Text),
        false,
        true,
        Option::None,
    );
    table.add_column(col);
    table
}

/// What the chain-tip record holds: absent-or-null for `None`, the
/// canonical text naming `x` for `Some(x)`.
pub open spec fn state_record_is(
    files: Map<Seq<char>, Seq<char>>,
    root: Seq<char>,
    n: Option<Seq<char>>,
) -> bool {
    match n {
        Option::None => !files.contains_key(state_path(root)) || files[state_path(root)]
            == json_state(Option::None),
        Option::Some(x) => files.contains_key(state_path(root)) && files[state_path(root)]
            == json_state(Option::Some(x)),
    }
}

/// The supplied predecessor's name.
pub open spec fn from_name_view(from: Option<Migration>) -> Option<Seq<char>> {
    match from {
        Option::None => Option::None,
        Option::Some(f) => Option::Some(f.name@),
    }
}

/// The bookkeeping table's mathematical value.
pub open spec fn bookkeeping_table() -> TableV {
    TableV {
        name: migrations_table_name(),
        columns: seq![
            ColV {
                name: "name"@,
                sqltype: TypV::Known(SqlType::Text),
                nullable: false,
                pk: true,
                auto: false,
                default: Option::None,
            },
        ],
    }
}

/// The operations a creation call renders forward: the diff, extended
/// with the bookkeeping table's creation for a root migration.
pub open spec fn planned_ops(fdb: Seq<TableV>, tdb: Seq<TableV>, root_migration: bool) -> Seq<
    OpV,
> {
    if root_migration {
        spec_diff(fdb, tdb).push(OpV::AddTable(bookkeeping_table()))
    } else {
        spec_diff(fdb, tdb)
    }
}

/// The two schemas a creation call reads: the predecessor's snapshot
/// (or the empty schema when there is none) and the current snapshot.
pub open spec fn read_schemas(
    files: Map<Seq<char>, Seq<char>>,
    root: Seq<char>,
    from: Option<Migration>,
    fdb: Seq<TableV>,
    tdb: Seq<TableV>,
) -> bool {
    &&& match from {
        Option::None => fdb == Seq::<TableV>::empty(),
        Option::Some(f) => got_db(files, f.root@, f.name@, fdb),
    }
    &&& got_db(files, root, "current"@, tdb)
}

/// A creation call found nothing to migrate: the schemas it read diff to
/// the empty operation list.
pub open spec fn no_change_seen(
    files: Map<Seq<char>, Seq<char>>,
    root: Seq<char>,
    from: Option<Migration>,
) -> bool {
    exists|fdb: Seq<TableV>, tdb: Seq<TableV>|
        #[trigger] read_schemas(files, root, from, fdb, tdb) && spec_diff(fdb, tdb)
            == Seq::<OpV>::empty()
}

/// A creation call found work: the schemas it read diff to a non-empty
/// operation list; the new node carries one `.table` file per table of
/// the current schema, and its forward and reverse SQL files hold the
/// backend's rendering of the planned operations and of the reverse
/// diff.
pub open spec fn change_recorded<B: Backend>(
    b: B,
    files_before: Map<Seq<char>, Seq<char>>,
    files_after: Map<Seq<char>, Seq<char>>,
    root: Seq<char>,
    mname: Seq<char>,
    from: Option<Migration>,
) -> bool {
    exists|fdb: Seq<TableV>, tdb: Seq<TableV>|
        {
            &&& #[trigger] read_schemas(files_before, root, from, fdb, tdb)
            &&& spec_diff(fdb, tdb) != Seq::<OpV>::empty()
            &&& forall|i: int|
                0 <= i < tdb.len() ==> files_after.contains_key(
                    table_path(root, mname, (#[trigger] tdb[i]).name),
                )
            &&& files_after.contains_key(
                sql_file_path(root, mname, b.backend_name_spec() + "_up"@),
            )
            &&& b.sql_for(fdb, planned_ops(fdb, tdb, from is None)) == Option::Some(
                files_after[sql_file_path(root, mname, b.backend_name_spec() + "_up"@)],
            )
            &&& files_after.contains_key(
                sql_file_path(root, mname, b.backend_name_spec() + "_down"@),
            )
            &&& b.sql_for(tdb, spec_diff(tdb, fdb)) == Option::Some(
                files_after[sql_file_path(root, mname, b.backend_name_spec() + "_down"@)],
            )
        }
}

/// A tip-first walk of the chain on which no name is applied: the head
/// is the recorded tip (or the chain is empty), each node points to the
/// next, the last is a root, and none of them is in the applied set.
pub open spec fn trail_clear(
    files: Map<Seq<char>, Seq<char>>,
    root: Seq<char>,
    applied: Set<Seq<char>>,
    names: Seq<Seq<char>>,
) -> bool {
    &&& names.len() == 0 ==> (files.contains_key(state_path(root)) ==> files[state_path(root)]
        == json_state(Option::None))
    &&& names.len() > 0 ==> files.contains_key(state_path(root)) && files[state_path(root)]
        == json_state(Option::Some(names[0])) && info_at(files, root, names.last(), Option::None)
    &&& forall|i: int|
        0 <= i < names.len() - 1 ==> info_at(
            files,
            root,
            #[trigger] names[i],
            Option::Some(names[i + 1]),
        )
    &&& forall|i: int| 0 <= i < names.len() ==> !applied.contains(#[trigger] names[i])
}

/// A tip-first walk that stops exactly at `mname`: the head is the
/// recorded tip (or `mname` is the tip itself), each node points to the
/// next, none of the walked nodes is applied, the last walked node
/// points to `mname`, and `mname` is applied.
pub open spec fn trail_to(
    files: Map<Seq<char>, Seq<char>>,
    root: Seq<char>,
    applied: Set<Seq<char>>,
    names: Seq<Seq<char>>,
    mname: Seq<char>,
) -> bool {
    &&& names.len() == 0 ==> files.contains_key(state_path(root)) && files[state_path(root)]
        == json_state(Option::Some(mname))
    &&& names.len() > 0 ==> files.contains_key(state_path(root)) && files[state_path(root)]
        == json_state(Option::Some(names[0])) && info_at(
        files,
        root,
        names.last(),
        Option::Some(mname),
    )
    &&& forall|i: int|
        0 <= i < names.len() - 1 ==> info_at(
            files,
            root,
            #[trigger] names[i],
            Option::Some(names[i + 1]),
        )
    &&& forall|i: int| 0 <= i < names.len() ==> !applied.contains(#[trigger] names[i])
    &&& applied.contains(mname)
}

/// `mname` is the first applied node on the walk from the recorded tip.
pub open spec fn first_applied(
    files: Map<Seq<char>, Seq<char>>,
    root: Seq<char>,
    applied: Set<Seq<char>>,
    mname: Seq<char>,
) -> bool {
    exists|names: Seq<Seq<char>>| #[trigger] trail_to(files, root, applied, names, mname)
}

/// A tip-first walk from the recorded tip down to a root on which no
/// node carries the name `sname`.
pub open spec fn trail_missing(
    files: Map<Seq<char>, Seq<char>>,
    root: Seq<char>,
    names: Seq<Seq<char>>,
    sname: Seq<char>,
) -> bool {
    &&& names.len() == 0 ==> (files.contains_key(state_path(root)) ==> files[state_path(root)]
        == json_state(Option::None))
    &&& names.len() > 0 ==> files.contains_key(state_path(root)) && files[state_path(root)]
        == json_state(Option::Some(names[0])) && info_at(files, root, names.last(), Option::None)
    &&& forall|i: int|
        0 <= i < names.len() - 1 ==> info_at(
            files,
            root,
            #[trigger] names[i],
            Option::Some(names[i + 1]),
        )
    &&& forall|i: int| 0 <= i < names.len() ==> #[trigger] names[i] != sname
}

/// The whole chain from the recorded tip down to a root misses `sname`.
pub open spec fn chain_missing(
    files: Map<Seq<char>, Seq<char>>,
    root: Seq<char>,
    sname: Seq<char>,
) -> bool {
    exists|names: Seq<Seq<char>>| #[trigger] trail_missing(files, root, names, sname)
}

/// The whole chain from the recorded tip down to a root carries no
/// applied name.
pub open spec fn chain_unapplied(
    files: Map<Seq<char>, Seq<char>>,
    root: Seq<char>,
    applied: Set<Seq<char>>,
) -> bool {
    exists|names: Seq<Seq<char>>| #[trigger] trail_clear(files, root, applied, names)
}

/// The set of migrations rooted at a directory, over an injectable
/// filesystem.
pub struct Migrations<FS: Filesystem> {
    pub fs: FS,
    pub root: String,
}

impl<FS: Filesystem> Migrations<FS> {
    /// The migration named `name` under this root.
    pub fn get_migration(&self, name: &str) -> (r: Migration)
        ensures
            r.root@ == self.root@,
            r.name@ == name@,
    {
        Migration { root: self.root.clone(), name: name.to_owned() }
    }

    /// The synthetic node holding the current build's schema snapshot.
    pub fn get_current(&self) -> (r: Migration)
        ensures
            r.root@ == self.root@,
            r.name@ == "current"@,
    {
        self.get_migration("current")
    }

    /// Read the chain tip record. An absent file is the empty state;
    /// any other failure to read, and a file that does not hold the
    /// canonical record, propagate as errors.
    pub fn get_state(&self) -> (r: Result<MigrationsState, Error>)
        ensures
            match r {
                Result::Ok(st) => match st.latest {
                    Option::Some(n) => self.fs.files().contains_key(state_path(self.root@))
                        && self.fs.files()[state_path(self.root@)] == json_state(
                        Option::Some(n@),
                    ),
                    Option::None => self.fs.files().contains_key(state_path(self.root@))
                        ==> self.fs.files()[state_path(self.root@)] == json_state(Option::None),
                },
                Result::Err(e) => (e is Io || e is Serde) && (e is Serde
                    ==> self.fs.files().contains_key(state_path(self.root@)) && forall|
                    l: Option<Seq<char>>,
                |
                    self.fs.files()[state_path(self.root@)] != json_state(l)),
            },
    {
        let path = join(self.root.as_str(), "state.json");
        proof {
            assert(path@ =~= state_path(self.root@));
        }
        match self.fs.read(path.as_str()) {
            Result::Ok(contents) => match parse_state(contents.as_str()) {
                Option::None => Result::Err(Error::Serde),
                Option::Some(latest) => Result::Ok(MigrationsState { latest }),
            },
            Result::Err(e) => match e {
                Error::IoNotFound => Result::Ok(MigrationsState::new()),
                // a store failure is an I/O failure; a serialization error
                // is reserved for a present, non-canonical record
                _ => Result::Err(Error::Io),
            },
        }
    }

    /// Write the chain tip record.
    fn save_state(&mut self, state: &MigrationsState) -> (r: Result<(), Error>)
        ensures
            r is Ok ==> final(self).fs.files() == old(self).fs.files().insert(
                state_path(old(self).root@),
                json_state(opt_name_view(state.latest)),
            ) && final(self).root == old(self).root,
            r is Err ==> final(self).fs.files() == old(self).fs.files() && final(self).root == old(self).root,
    {
        let path = join(self.root.as_str(), "state.json");
        proof {
            assert(path@ =~= state_path(self.root@));
        }
        let contents = crate::json::state_json(&state.latest);
        self.fs.write(path.as_str(), contents.as_str())
    }

    /// The tip of the chain, or `None` when no migration exists. A
    /// returned tip is exactly the one the state record names; `None`
    /// comes only from an absent or null record, and an unreadable
    /// record propagates as an error.
    pub fn get_latest(&self) -> (r: Result<Option<Migration>, Error>)
        ensures
            r matches Ok(Option::Some(m)) ==> self.fs.files().contains_key(state_path(self.root@))
                && self.fs.files()[state_path(self.root@)] == json_state(Option::Some(m.name@))
                && m.root@ == self.root@,
            r matches Ok(Option::None) ==> (self.fs.files().contains_key(state_path(self.root@))
                ==> self.fs.files()[state_path(self.root@)] == json_state(Option::None)),
            r matches Err(e) ==> e is Io || e is Serde,
    {
        match self.get_state() {
            Result::Err(e) => Result::Err(e),
            Result::Ok(st) => match st.latest {
                Option::None => Result::Ok(Option::None),
                Option::Some(name) => Result::Ok(Option::Some(self.get_migration(name.as_str()))),
            },
        }
    }

    /// Walk the predecessor links from the tip to the root and return
    /// the whole history oldest-first. The returned names are linked on
    /// disk, and the last one is the recorded tip.
    #[verifier::loop_isolation(false)]
    pub fn get_all_migrations(&self) -> (r: Result<Vec<Migration>, Error>)
        ensures
            r matches Ok(v) ==> {
                &&& chain_linked(
                    self.fs.files(),
                    self.root@,
                    v@.map_values(|m: Migration| m.name@),
                )
                &&& v@.len() > 0 ==> self.fs.files()[state_path(self.root@)] == json_state(
                    Option::Some(v@.last().name@),
                )
                &&& v@.len() == 0 ==> (self.fs.files().contains_key(state_path(self.root@))
                    ==> self.fs.files()[state_path(self.root@)] == json_state(Option::None))
                &&& forall|i: int| 0 <= i < v@.len() ==> (#[trigger] v@[i]).root@ == self.root@
            },
    {
        let mut accum: Vec<Migration> = Vec::new();
        let mut cursor: Option<Migration> = match self.get_latest() {
            Result::Ok(c) => c,
            Result::Err(e) => {
                return Result::Err(e);
            },
        };
        let mut fuel: usize = usize::MAX;
        while fuel > 0
            invariant
                cursor matches Some(c) ==> c.root@ == self.root@,
                accum@.len() == 0 && cursor is None ==> (self.fs.files().contains_key(
                    state_path(self.root@),
                ) ==> self.fs.files()[state_path(self.root@)] == json_state(Option::None)),
                accum@.len() > 0 ==> {
                    &&& self.fs.files().contains_key(state_path(self.root@))
                    &&& self.fs.files()[state_path(self.root@)] == json_state(
                        Option::Some(accum@[0].name@),
                    )
                    &&& cursor matches Some(c) ==> info_at(
                        self.fs.files(),
                        self.root@,
                        accum@.last().name@,
                        Option::Some(c.name@),
                    )
                    &&& cursor is None ==> info_at(
                        self.fs.files(),
                        self.root@,
                        accum@.last().name@,
                        Option::None,
                    )
                },
                match cursor {
                    Option::Some(c) => accum@.len() == 0 ==> self.fs.files()[state_path(
                        self.root@,
                    )] == json_state(Option::Some(c.name@)) && self.fs.files().contains_key(
                        state_path(self.root@),
                    ),
                    Option::None => true,
                },
                forall|i: int|
                    0 <= i < accum@.len() - 1 ==> info_at(
                        self.fs.files(),
                        self.root@,
                        (#[trigger] accum@[i]).name@,
                        Option::Some(accum@[i + 1].name@),
                    ),
                forall|i: int| 0 <= i < accum@.len() ==> (#[trigger] accum@[i]).root@ == self.root@,
            decreases fuel,
        {
            fuel = fuel - 1;
            match cursor {
                Option::None => {
                    let rev = reverse_migrations(accum);
                    return Result::Ok(rev);
                },
                Option::Some(m) => {
                    let prev = match m.get_from_migration(&self.fs) {
                        Result::Ok(p) => p,
                        Result::Err(e) => {
                            return Result::Err(e);
                        },
                    };
                    accum.push(m);
                    cursor = prev;
                },
            }
        }
        Result::Err(Error::MigrationError("migration chain is too long".to_owned()))
    }

    /// Walk backward from the tip, stopping before `since`; the result
    /// is the migrations after `since`, oldest-first, each linked to the
    /// one before it and the first linked to `since` itself.
    #[verifier::loop_isolation(false)]
    pub fn get_migrations_since(&self, since: &Migration) -> (r: Result<Vec<Migration>, Error>)
        ensures
            r matches Ok(v) ==> {
                &&& v@.len() > 0 ==> info_at(
                    self.fs.files(),
                    self.root@,
                    v@[0].name@,
                    Option::Some(since.name@),
                ) && self.fs.files()[state_path(self.root@)] == json_state(
                    Option::Some(v@.last().name@),
                )
                &&& v@.len() == 0 ==> self.fs.files().contains_key(state_path(self.root@))
                    && self.fs.files()[state_path(self.root@)] == json_state(
                    Option::Some(since.name@),
                )
                &&& forall|i: int|
                    0 <= i < v@.len() - 1 ==> info_at(
                        self.fs.files(),
                        self.root@,
                        (#[trigger] v@[i + 1]).name@,
                        Option::Some(v@[i].name@),
                    )
                &&& forall|i: int| 0 <= i < v@.len() ==> (#[trigger] v@[i]).root@ == self.root@
            },
            r matches Err(e) ==> (e matches Error::MigrationError(msg) ==> (msg@
                == "Migration not in chain"@ ==> chain_missing(
                self.fs.files(),
                self.root@,
                since.name@,
            ))),
    {
        let mut accum: Vec<Migration> = Vec::new();
        let mut cursor: Option<Migration> = match self.get_latest() {
            Result::Ok(c) => c,
            Result::Err(e) => {
                return Result::Err(e);
            },
        };
        let mut fuel: usize = usize::MAX;
        while fuel > 0
            invariant
                cursor matches Some(c) ==> c.root@ == self.root@,
                accum@.len() == 0 && cursor is None ==> (self.fs.files().contains_key(
                    state_path(self.root@),
                ) ==> self.fs.files()[state_path(self.root@)] == json_state(Option::None)),
                accum@.len() > 0 ==> self.fs.files().contains_key(state_path(self.root@))
                    && self.fs.files()[state_path(self.root@)] == json_state(
                    Option::Some(accum@[0].name@),
                ),
                match cursor {
                    Option::Some(c) => accum@.len() == 0 ==> self.fs.files().contains_key(
                        state_path(self.root@),
                    ) && self.fs.files()[state_path(self.root@)] == json_state(
                        Option::Some(c.name@),
                    ),
                    Option::None => true,
                },
                match cursor {
                    Option::Some(c) => accum@.len() > 0 ==> info_at(
                        self.fs.files(),
                        self.root@,
                        accum@.last().name@,
                        Option::Some(c.name@),
                    ),
                    Option::None => accum@.len() > 0 ==> info_at(
                        self.fs.files(),
                        self.root@,
                        accum@.last().name@,
                        Option::None,
                    ),
                },
                forall|i: int|
                    0 <= i < accum@.len() - 1 ==> info_at(
                        self.fs.files(),
                        self.root@,
                        (#[trigger] accum@[i]).name@,
                        Option::Some(accum@[i + 1].name@),
                    ),
                forall|i: int| 0 <= i < accum@.len() ==> (#[trigger] accum@[i]).root@ == self.root@,
                forall|i: int| 0 <= i < accum@.len() ==> (#[trigger] accum@[i]).name@ != since.name@,
            decreases fuel,
        {
            fuel = fuel - 1;
            match cursor {
                Option::None => {
                    proof {
                        let names = accum@.map_values(|mm: Migration| mm.name@);
                        assert forall|i: int|
                            0 <= i < accum@.len() implies accum@.map_values(
                            |mm: Migration| mm.name@,
                        )[i] == (#[trigger] accum@[i]).name@ by {}
                        assert(chain_missing(self.fs.files(), self.root@, since.name@)) by {
                            assert(trail_missing(self.fs.files(), self.root@, names, since.name@));
                        }
                    }
                    return Result::Err(
                        Error::MigrationError("Migration not in chain".to_owned()),
                    );
                },
                Option::Some(m) => {
                    if str_eq(m.name.as_str(), since.name.as_str()) {
                        let rev = reverse_migrations(accum);
                        return Result::Ok(rev);
                    }
                    let prev = match m.get_from_migration(&self.fs) {
                        Result::Ok(p) => p,
                        Result::Err(e) => {
                            return Result::Err(e);
                        },
                    };
                    accum.push(m);
                    cursor = prev;
                },
            }
        }
        proof {
            reveal_strlit("Migration not in chain");
            reveal_strlit("migration chain is too long");
            assert("migration chain is too long"@.len() == 27);
            assert("Migration not in chain"@.len() == 22);
            assert("migration chain is too long"@ != "Migration not in chain"@);
        }
        Result::Err(Error::MigrationError("migration chain is too long".to_owned()))
    }

    /// The most recent migration whose name the bookkeeping table holds,
    /// walking backward from the tip; `None` when no chain node has been
    /// applied.
    #[verifier::loop_isolation(false)]
    pub fn get_last_applied_migration<C: BackendConnection>(&self, conn: &C) -> (r: Result<
        Option<Migration>,
        Error,
    >)
        ensures
            r matches Ok(Option::Some(m)) ==> conn.applied().contains(m.name@) && m.root@
                == self.root@ && first_applied(
                self.fs.files(),
                self.root@,
                conn.applied(),
                m.name@,
            ),
            r matches Ok(Option::None) ==> chain_unapplied(
                self.fs.files(),
                self.root@,
                conn.applied(),
            ),
    {
        let mut columns: Vec<String> = Vec::new();
        columns.push("name".to_owned());
        let rows = match conn.query("propane_migrations", &columns) {
            Result::Ok(rows) => rows,
            Result::Err(e) => {
                return Result::Err(e);
            },
        };
        proof {
            reveal_strlit("propane_migrations");
        }
        let mut cursor: Option<Migration> = match self.get_latest() {
            Result::Ok(c) => c,
            Result::Err(e) => {
                return Result::Err(e);
            },
        };
        let ghost mut trail: Seq<Seq<char>> = Seq::<Seq<char>>::empty();
        let mut fuel: usize = usize::MAX;
        while fuel > 0
            invariant
                crate::db::rows_record(rows@, conn.applied()),
                cursor matches Some(c) ==> c.root@ == self.root@,
                trail.len() == 0 && cursor is None ==> (self.fs.files().contains_key(
                    state_path(self.root@),
                ) ==> self.fs.files()[state_path(self.root@)] == json_state(Option::None)),
                match cursor {
                    Option::Some(c) => {
                        &&& trail.len() == 0 ==> self.fs.files().contains_key(
                            state_path(self.root@),
                        ) && self.fs.files()[state_path(self.root@)] == json_state(
                            Option::Some(c.name@),
                        )
                        &&& trail.len() > 0 ==> info_at(
                            self.fs.files(),
                            self.root@,
                            trail.last(),
                            Option::Some(c.name@),
                        )
                    },
                    Option::None => trail.len() > 0 ==> info_at(
                        self.fs.files(),
                        self.root@,
                        trail.last(),
                        Option::None,
                    ),
                },
                trail.len() > 0 ==> self.fs.files().contains_key(state_path(self.root@))
                    && self.fs.files()[state_path(self.root@)] == json_state(
                    Option::Some(trail[0]),
                ),
                forall|i: int|
                    0 <= i < trail.len() - 1 ==> info_at(
                        self.fs.files(),
                        self.root@,
                        #[trigger] trail[i],
                        Option::Some(trail[i + 1]),
                    ),
                forall|i: int| 0 <= i < trail.len() ==> !conn.applied().contains(#[trigger] trail[i]),
            decreases fuel,
        {
            fuel = fuel - 1;
            match cursor {
                Option::None => {
                    proof {
                        assert(chain_unapplied(self.fs.files(), self.root@, conn.applied())) by {
                            assert(trail_clear(self.fs.files(), self.root@, conn.applied(), trail));
                        }
                    }
                    return Result::Ok(Option::None);
                },
                Option::Some(m) => {
                    if rows_contain(&rows, m.name.as_str()) {
                        proof {
                            let i = choose|i: int|
                                0 <= i < rows@.len() && (#[trigger] rows@[i])@.len() == 1
                                    && rows@[i]@[0]@ == crate::adb::ValV::Text(m.name@);
                            assert(conn.applied().contains(m.name@));
                            assert(first_applied(
                                self.fs.files(),
                                self.root@,
                                conn.applied(),
                                m.name@,
                            )) by {
                                assert(trail_to(
                                    self.fs.files(),
                                    self.root@,
                                    conn.applied(),
                                    trail,
                                    m.name@,
                                ));
                            }
                        }
                        return Result::Ok(Option::Some(m));
                    }
                    proof {
                        if conn.applied().contains(m.name@) {
                            // the rows record every applied name, so the scan
                            // would have found this one
                            assert(false);
                        }
                    }
                    let prev = match m.get_from_migration(&self.fs) {
                        Result::Ok(p) => p,
                        Result::Err(e) => {
                            return Result::Err(e);
                        },
                    };
                    proof {
                        trail = trail.push(m.name@);
                    }
                    cursor = prev;
                },
            }
        }
        Result::Err(Error::MigrationError("migration chain is too long".to_owned()))
    }

    /// The migrations not yet applied, in apply order. Any failure to
    /// read the bookkeeping table is treated as "nothing applied yet":
    /// the table may not exist before the first migration runs.
    pub fn get_unapplied_migrations<C: BackendConnection>(&self, conn: &C) -> (r: Result<
        Vec<Migration>,
        Error,
    >)
        ensures
            r matches Ok(v) ==> {
                &&& forall|i: int| 0 <= i < v@.len() ==> (#[trigger] v@[i]).root@ == self.root@
                &&& forall|i: int|
                    0 <= i < v@.len() - 1 ==> info_at(
                        self.fs.files(),
                        self.root@,
                        (#[trigger] v@[i + 1]).name@,
                        Option::Some(v@[i].name@),
                    )
                &&& v@.len() > 0 ==> self.fs.files()[state_path(self.root@)] == json_state(
                    Option::Some(v@.last().name@),
                )
                &&& v@.len() > 0 ==> info_at(
                    self.fs.files(),
                    self.root@,
                    v@[0].name@,
                    Option::None,
                ) || exists|n: Seq<char>|
                    conn.applied().contains(n) && #[trigger] info_at(
                        self.fs.files(),
                        self.root@,
                        v@[0].name@,
                        Option::Some(n),
                    )
                &&& v@.len() == 0 ==> (self.fs.files().contains_key(state_path(self.root@))
                    ==> self.fs.files()[state_path(self.root@)] == json_state(Option::None))
                    || exists|n: Seq<char>|
                    #[trigger] conn.applied().contains(n) && self.fs.files()[state_path(
                        self.root@,
                    )] == json_state(Option::Some(n))
            },
    {
        match self.get_last_applied_migration(conn) {
            Result::Ok(Option::None) => {
                let r = self.get_all_migrations();
                proof {
                    match &r {
                        Result::Ok(v) => {
                            assert forall|i: int|
                                0 <= i < v@.len() implies v@.map_values(|mm: Migration| mm.name@)[
                                i
                            ] == (#[trigger] v@[i]).name@ by {}
                        },
                        Result::Err(_) => {},
                    }
                }
                r
            },
            Result::Ok(Option::Some(m)) => {
                let r = self.get_migrations_since(&m);
                proof {
                    match &r {
                        Result::Ok(v) => {
                            if v@.len() > 0 {
                                assert(conn.applied().contains(m.name@) && info_at(
                                    self.fs.files(),
                                    self.root@,
                                    v@[0].name@,
                                    Option::Some(m.name@),
                                ));
                            } else {
                                assert(conn.applied().contains(m.name@) && self.fs.files()[
                                    state_path(self.root@)
                                ] == json_state(Option::Some(m.name@)));
                            }
                        },
                        Result::Err(_) => {},
                    }
                }
                r
            },
            Result::Err(_) => {
                let r = self.get_all_migrations();
                proof {
                    match &r {
                        Result::Ok(v) => {
                            assert forall|i: int|
                                0 <= i < v@.len() implies v@.map_values(|mm: Migration| mm.name@)[
                                i
                            ] == (#[trigger] v@[i]).name@ by {}
                        },
                        Result::Err(_) => {},
                    }
                }
                r
            },
        }
    }

    /// Create a migration `from` -> `current` named `name`; `from` may be
    /// `None`, in which case the migration starts from the empty schema.
    /// Returns `Ok(None)`, touching nothing, when the two schemas are
    /// identical. On success the new node carries its predecessor
    /// pointer, and the tip advances exactly when the old state record
    /// named `from` (or was empty alongside a `None` `from`).
    #[verifier::rlimit(100)]
    pub fn create_migration<B: Backend>(
        &mut self,
        backend: &B,
        name: &str,
        from: Option<Migration>,
    ) -> (r: Result<Option<Migration>, Error>)
        ensures
            final(self).root == old(self).root,
            r matches Ok(Option::None) ==> final(self).fs.files() == old(self).fs.files()
                && no_change_seen(old(self).fs.files(), old(self).root@, from),
            r matches Ok(Option::Some(m)) ==> {
                &&& m.name@ == name@
                &&& m.root@ == old(self).root@
                &&& change_recorded(
                    *backend,
                    old(self).fs.files(),
                    final(self).fs.files(),
                    old(self).root@,
                    name@,
                    from,
                )
                &&& info_at(
                    final(self).fs.files(),
                    old(self).root@,
                    name@,
                    from_name_view(from),
                )
                &&& state_record_is(old(self).fs.files(), old(self).root@, from_name_view(from))
                    ==> final(self).fs.files().contains_key(state_path(old(self).root@))
                    && final(self).fs.files()[state_path(old(self).root@)] == json_state(
                    Option::Some(name@),
                )
                &&& !state_record_is(old(self).fs.files(), old(self).root@, from_name_view(from))
                    ==> (final(self).fs.files().contains_key(state_path(old(self).root@))
                    <==> old(self).fs.files().contains_key(state_path(old(self).root@))) && (old(self).fs.files().contains_key(state_path(old(self).root@)) ==> final(self).fs.files()[state_path(old(self).root@)] == old(self).fs.files()[state_path(
                    old(self).root@,
                )])
                &&& forall|k: Seq<char>|
                    !#[trigger] under_dir(mdir(old(self).root@, name@), k) && k != state_path(
                        old(self).root@,
                    ) ==> ((final(self).fs.files().contains_key(k) <==> old(self).fs.files().contains_key(k)) && (old(self).fs.files().contains_key(k)
                        ==> final(self).fs.files()[k] == old(self).fs.files()[k]))
            },
    {
        let ghost f0 = self.fs.files();
        let ghost rt = self.root@;
        let ghost upk = sql_file_path(rt, name@, backend.backend_name_spec() + "_up"@);
        let ghost dnk = sql_file_path(rt, name@, backend.backend_name_spec() + "_down"@);
        let ghost infk = info_path(rt, name@);
        let ghost spk = state_path(rt);
        let from_name: Option<String> = match &from {
            Option::None => Option::None,
            Option::Some(m) => Option::Some(m.get_name()),
        };
        proof {
            assert(opt_name_view(from_name) == from_name_view(from));
            assert(from_name is None <==> from is None);
            lemma_sql_path_shape(rt, name@, backend.backend_name_spec() + "_up"@);
            lemma_sql_path_shape(rt, name@, backend.backend_name_spec() + "_down"@);
            lemma_info_path_shape(rt, name@);
            lemma_state_path_shape(rt);
            lemma_info_state_distinct(rt, name@);
            lemma_last_ne(upk, spk);
            lemma_last_ne(dnk, spk);
            lemma_last_ne(infk, upk);
            lemma_last_ne(infk, dnk);
            reveal_strlit("_up");
            reveal_strlit("_down");
            assert(upk.len() != dnk.len());
        }
        let from_db = match &from {
            Option::None => ADB::new(),
            Option::Some(m) => match m.get_db(&self.fs) {
                Result::Ok(db) => db,
                Result::Err(e) => {
                    return Result::Err(e);
                },
            },
        };
        let to_db = match self.get_current().get_db(&self.fs) {
            Result::Ok(db) => db,
            Result::Err(e) => {
                return Result::Err(e);
            },
        };
        let mut ops = diff(&from_db, &to_db);
        let ghost gfdb = from_db@;
        let ghost gtdb = to_db@;
        proof {
            assert(read_schemas(f0, self.root@, from, gfdb, gtdb));
        }
        if ops.len() == 0 {
            proof {
                assert(spec_diff(gfdb, gtdb) =~= Seq::<OpV>::empty());
                assert(no_change_seen(f0, self.root@, from)) by {
                    assert(read_schemas(f0, self.root@, from, gfdb, gtdb));
                }
            }
            return Result::Ok(Option::None);
        }
        proof {
            assert(spec_diff(gfdb, gtdb).len() > 0);
        }
        if from_name.is_none() {
            // the first migration must create the bookkeeping table itself
            let mt = migrations_table();
            proof {
                assert(mt@.columns =~= bookkeeping_table().columns);
                assert(mt@ == bookkeeping_table());
            }
            let ghost pre_ops = ops@.map_values(|o: Operation| o@);
            ops.push(Operation::AddTable(mt));
            proof {
                assert(ops@.map_values(|o: Operation| o@) =~= pre_ops.push(
                    OpV::AddTable(bookkeeping_table()),
                ));
            }
        }
        proof {
            assert(ops@.map_values(|o: Operation| o@) == planned_ops(gfdb, gtdb, from is None));
        }
        let m = self.get_migration(name);
        let up = match backend.create_migration_sql(&from_db, &ops) {
            Result::Ok(s) => s,
            Result::Err(e) => {
                return Result::Err(e);
            },
        };
        let ghost gup = up@;
        let mut up_name = backend.get_name();
        up_name.append("_up");
        match m.write_sql(&mut self.fs, up_name.as_str(), up.as_str()) {
            Result::Ok(()) => {},
            Result::Err(e) => {
                return Result::Err(e);
            },
        }
        proof {
            assert(self.fs.files() == f0.insert(upk, gup));
        }
        let down_ops = diff(&to_db, &from_db);
        let down = match backend.create_migration_sql(&to_db, &down_ops) {
            Result::Ok(s) => s,
            Result::Err(e) => {
                return Result::Err(e);
            },
        };
        let ghost gdown = down@;
        let mut down_name = backend.get_name();
        down_name.append("_down");
        let ghost f1 = self.fs.files();
        match m.write_sql(&mut self.fs, down_name.as_str(), down.as_str()) {
            Result::Ok(()) => {},
            Result::Err(e) => {
                return Result::Err(e);
            },
        }
        proof {
            assert(self.fs.files() == f1.insert(dnk, gdown));
            assert(self.fs.files()[upk] == gup);
            assert(self.fs.files()[dnk] == gdown);
        }
        let ghost f2 = self.fs.files();
        match write_snapshot(&m, &mut self.fs, &to_db.tables) {
            Result::Ok(()) => {},
            Result::Err(e) => {
                return Result::Err(e);
            },
        }
        proof {
            assert(self.fs.files()[upk] == gup);
            assert(self.fs.files()[dnk] == gdown);
            assert((self.fs.files().contains_key(spk) <==> f0.contains_key(spk)) && (
            f0.contains_key(spk) ==> self.fs.files()[spk] == f0[spk]));
        }
        let ghost f3 = self.fs.files();
        match m.write_info(&mut self.fs, &from_name) {
            Result::Ok(()) => {},
            Result::Err(e) => {
                return Result::Err(e);
            },
        }
        proof {
            assert(self.fs.files() == f3.insert(infk, json_info(from_name_view(from))));
            assert(self.fs.files()[upk] == gup);
            assert(self.fs.files()[dnk] == gdown);
            assert((self.fs.files().contains_key(spk) <==> f0.contains_key(spk)) && (
            f0.contains_key(spk) ==> self.fs.files()[spk] == f0[spk]));
        }
        let state = match self.get_state() {
            Result::Ok(st) => st,
            Result::Err(e) => {
                return Result::Err(e);
            },
        };
        // the fork guard, spec-style: advance only when the prior record
        // named the supplied predecessor; compare the canonical texts, which
        // is what the record itself stores
        let advance = match (&state.latest, &from_name) {
            (Option::None, Option::None) => true,
            (Option::Some(_), Option::Some(_)) => {
                let cur = crate::json::state_json(&state.latest);
                let want = crate::json::state_json(&from_name);
                str_eq(cur.as_str(), want.as_str())
            },
            _ => false,
        };
        proof {
            match &state.latest {
                Option::Some(l) => {
                    lemma_state_forms_distinct(l@);
                },
                Option::None => {
                    match &from_name {
                        Option::Some(fstr) => {
                            lemma_state_forms_distinct(fstr@);
                        },
                        Option::None => {},
                    }
                },
            }
            assert(advance == state_record_is(f0, rt, from_name_view(from)));
        }
        if advance {
            let new_state = MigrationsState { latest: Option::Some(name.to_owned()) };
            let ghost f4 = self.fs.files();
            match self.save_state(&new_state) {
                Result::Ok(()) => {},
                Result::Err(e) => {
                    return Result::Err(e);
                },
            }
            proof {
                assert(self.fs.files() == f4.insert(spk, json_state(Option::Some(name@))));
                assert(self.fs.files()[upk] == gup);
                assert(self.fs.files()[dnk] == gdown);
                assert(self.fs.files()[infk] == json_info(from_name_view(from)));
            }
        }
        proof {
            assert(change_recorded(*backend, f0, self.fs.files(), rt, name@, from)) by {
                assert forall|i: int|
                    0 <= i < gtdb.len() implies self.fs.files().contains_key(
                    table_path(rt, name@, (#[trigger] gtdb[i]).name),
                ) by {
                    assert(gtdb[i] == to_db.tables@[i]@);
                }
                assert(read_schemas(f0, rt, from, gfdb, gtdb));
                assert(spec_diff(gfdb, gtdb) != Seq::<OpV>::empty());
                assert(self.fs.files()[upk] == gup);
                assert(self.fs.files()[dnk] == gdown);
                assert(backend.sql_for(gfdb, planned_ops(gfdb, gtdb, from is None))
                    == Option::Some(gup));
                assert(backend.sql_for(gtdb, spec_diff(gtdb, gfdb)) == Option::Some(gdown));
            }
            assert forall|k: Seq<char>|
                !#[trigger] under_dir(mdir(rt, name@), k) && k != spk implies ((
            self.fs.files().contains_key(k) <==> f0.contains_key(k)) && (f0.contains_key(k)
                ==> self.fs.files()[k] == f0[k])) by {}
        }
        Result::Ok(Option::Some(m))
    }
}

/// Whether the row set holds a single-text row with this name.
#[verifier::loop_isolation(false)]
fn rows_contain(rows: &Vec<Vec<crate::adb::SqlVal>>, name: &str) -> (r: bool)
    ensures
        r == exists|i: int|
            0 <= i < rows@.len() && (#[trigger] rows@[i])@.len() == 1 && rows@[i]@[0]@
                == crate::adb::ValV::Text(name@),
{
    let mut i: usize = 0;
    while i < rows.len()
        invariant
            i <= rows@.len(),
            forall|k: int|
                0 <= k < i ==> !((#[trigger] rows@[k])@.len() == 1 && rows@[k]@[0]@
                    == crate::adb::ValV::Text(name@)),
        decreases rows@.len() - i,
    {
        if rows[i].len() == 1 {
            match &rows[i][0] {
                crate::adb::SqlVal::Text(t) => {
                    if str_eq(t.as_str(), name) {
                        return true;
                    }
                },
                _ => {},
            }
        }
        i = i + 1;
    }
    false
}

/// Reverse a migration list.
#[verifier::loop_isolation(false)]
fn reverse_migrations(v: Vec<Migration>) -> (r: Vec<Migration>)
    ensures
        r@.len() == v@.len(),
        forall|i: int| 0 <= i < v@.len() ==> r@[i] == v@[v@.len() - 1 - i],
{
    let mut out: Vec<Migration> = Vec::new();
    let mut k: usize = v.len();
    while k > 0
        invariant
            k <= v@.len(),
            out@.len() == v@.len() - k,
            forall|i: int| 0 <= i < out@.len() ==> out@[i] == v@[v@.len() - 1 - i],
        decreases k,
    {
        k = k - 1;
        let m = Migration { root: v[k].root.clone(), name: v[k].name.clone() };
        proof {
            assert(m.root@ == v@[k as int].root@ && m.name@ == v@[k as int].name@);
        }
        out.push(m);
    }
    out
}

/// A chain rooted at `path`, using the given filesystem.
pub fn from_root_and_filesystem<FS: Filesystem>(path: String, fs: FS) -> (r: Migrations<FS>)
    ensures
        r.root@ == path@,
        r.fs == fs,
{
    Migrations { fs, root: path }
}

} // verus!
