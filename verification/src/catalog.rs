//! The catalog: the in-memory registry of databases and tables.
//!
//! The catalog owns an ordered collection of databases; each database owns
//! an ordered collection of tables. Entries are created once and never
//! renamed or removed, so a handle — a stable position — never dangles.
//! The invariant `wf` says that no two databases share a name and that no
//! two tables within one database share a name.

use vstd::prelude::*;

use crate::errors::CatalogError;
use crate::utils::string_fits;

verus! {

/// A handle to a database: its stable position in the catalog's creation
/// order. Nothing removes entries, so a handle stays valid for the
/// process's lifetime.
pub type DatabaseHandle = usize;

/// A handle to a table: its stable position within its database.
pub type TableHandle = usize;

/// A table. It carries only a name; schema data is out of this design's
/// scope.
#[derive(Debug)]
pub struct Table {
    pub name: String,
}

impl Table {
    pub fn new(name: String) -> (t: Table)
        ensures
            t@ == name@,
    {
        Table { name }
    }
}

impl View for Table {
    type V = Seq<char>;

    open spec fn view(&self) -> Seq<char> {
        self.name@
    }
}

impl DeepView for Table {
    type V = Seq<char>;

    open spec fn deep_view(&self) -> Seq<char> {
        self.name@
    }
}

/// The model of a database: its name and its tables' names, in creation
/// order.
#[verifier::ext_equal]
pub ghost struct DatabaseView {
    pub name: Seq<char>,
    pub tables: Seq<Seq<char>>,
}

impl DatabaseView {
    /// No two tables share a name, and every name fits the wire format.
    pub open spec fn wf(self) -> bool {
        &&& string_fits(self.name)
        &&& forall|i: int, j: int|
            0 <= i < j < self.tables.len() ==> self.tables[i] != self.tables[j]
        &&& forall|i: int| 0 <= i < self.tables.len() ==> string_fits(#[trigger] self.tables[i])
    }

    /// Whether this database holds a table of the given name.
    pub open spec fn has_table(self, name: Seq<char>) -> bool {
        exists|i: int| 0 <= i < self.tables.len() && self.tables[i] == name
    }
}

/// A database: a name and the tables created inside it.
#[derive(Debug)]
pub struct Database {
    pub name: String,
    pub tables: Vec<Table>,
}

impl Database {
    pub fn new(name: String) -> (d: Database)
        ensures
            d@ == (DatabaseView { name: name@, tables: Seq::empty() }),
    {
        let d = Database { name, tables: Vec::new() };
        proof {
            assert(d@.tables =~= Seq::<Seq<char>>::empty());
            assert(d@ =~~= (DatabaseView { name: d.name@, tables: Seq::empty() }));
        }
        d
    }
}

impl View for Database {
    type V = DatabaseView;

    open spec fn view(&self) -> DatabaseView {
        DatabaseView { name: self.name@, tables: self.tables.deep_view() }
    }
}

impl DeepView for Database {
    type V = DatabaseView;

    open spec fn deep_view(&self) -> DatabaseView {
        self.view()
    }
}

/// Whether a catalog holds a database of the given name.
pub open spec fn has_db(cat: Seq<DatabaseView>, name: Seq<char>) -> bool {
    exists|i: int| 0 <= i < cat.len() && cat[i].name == name
}

/// The position of the database of the given name; meaningful only when
/// `has_db` holds (under `catalog_wf` that position is unique).
pub open spec fn db_index(cat: Seq<DatabaseView>, name: Seq<char>) -> int {
    choose|i: int| 0 <= i < cat.len() && cat[i].name == name
}

/// The database names, in creation order.
pub open spec fn db_names(cat: Seq<DatabaseView>) -> Seq<Seq<char>> {
    cat.map_values(|d: DatabaseView| d.name)
}

/// How many databases of the given name a catalog holds.
pub open spec fn count_dbs(cat: Seq<DatabaseView>, name: Seq<char>) -> nat
    decreases cat.len(),
{
    if cat.len() == 0 {
        0
    } else {
        count_dbs(cat.drop_last(), name) + if cat.last().name == name {
            1nat
        } else {
            0
        }
    }
}

/// A catalog holds no database of a name exactly when its count of that
/// name is zero.
pub proof fn lemma_count_dbs_zero(cat: Seq<DatabaseView>, name: Seq<char>)
    ensures
        count_dbs(cat, name) == 0 <==> !has_db(cat, name),
    decreases cat.len(),
{
    if cat.len() > 0 {
        lemma_count_dbs_zero(cat.drop_last(), name);
        assert(has_db(cat, name) <==> (has_db(cat.drop_last(), name) || cat.last().name == name))
            by {
            if has_db(cat, name) {
                let i = choose|i: int| 0 <= i < cat.len() && cat[i].name == name;
                if i < cat.len() - 1 {
                    assert(cat.drop_last()[i].name == name);
                }
            }
            if has_db(cat.drop_last(), name) {
                let i = choose|i: int|
                    0 <= i < cat.drop_last().len() && cat.drop_last()[i].name == name;
                assert(cat[i].name == name);
            }
        }
    }
}

/// The catalog invariant: every database is well formed and no two share a
/// name.
pub open spec fn catalog_wf(cat: Seq<DatabaseView>) -> bool {
    &&& forall|i: int| 0 <= i < cat.len() ==> (#[trigger] cat[i]).wf()
    &&& forall|i: int, j: int| 0 <= i < j < cat.len() ==> cat[i].name != cat[j].name
}

/// The shared registry of databases and tables. Pure data plus invariant
/// enforcement; concurrency discipline is its caller's affair.
#[derive(Debug)]
pub struct Catalog {
    databases: Vec<Database>,
}

impl View for Catalog {
    type V = Seq<DatabaseView>;

    closed spec fn view(&self) -> Seq<DatabaseView> {
        self.databases.deep_view()
    }
}

impl Catalog {
    /// The catalog invariant; see [`catalog_wf`].
    pub open spec fn wf(&self) -> bool {
        catalog_wf(self@)
    }

    /// An empty catalog.
    pub fn new() -> (c: Catalog)
        ensures
            c@.len() == 0,
            c.wf(),
    {
        let c = Catalog { databases: Vec::new() };
        proof {
            assert(c@ =~= Seq::<DatabaseView>::empty());
        }
        c
    }

    /// How many databases the catalog holds.
    pub fn database_count(&self) -> (r: usize)
        ensures
            r == self@.len(),
    {
        self.databases.len()
    }

    /// Creates a database, appending it at the end of the creation order
    /// and returning its handle; fails with `DuplicateName` if and only if
    /// a database of that name already exists.
    pub fn create_database(&mut self, name: String) -> (r: Result<DatabaseHandle, CatalogError>)
        requires
            old(self).wf(),
            string_fits(name@),
        ensures
            final(self).wf(),
            match r {
                Ok(h) => {
                    &&& !has_db(old(self)@, name@)
                    &&& h == old(self)@.len()
                    &&& final(self)@ == old(self)@.push(
                        DatabaseView { name: name@, tables: Seq::empty() },
                    )
                },
                Err(e) => {
                    &&& e == CatalogError::DuplicateName
                    &&& has_db(old(self)@, name@)
                    &&& final(self)@ == old(self)@
                },
            },
    {
        let ghost cat0 = self@;
        let mut i: usize = 0;
        while i < self.databases.len()
            invariant
                self@ == cat0,
                cat0 == old(self)@,
                catalog_wf(cat0),
                i <= cat0.len(),
                forall|k: int| 0 <= k < i ==> cat0[k].name != name@,
            decreases self.databases.len() - i,
        {
            proof {
                assert(self.databases@[i as int]@ == cat0[i as int]);
            }
            if self.databases[i].name == name {
                return Err(CatalogError::DuplicateName);
            }
            i = i + 1;
        }
        let h = self.databases.len();
        self.databases.push(Database::new(name));
        proof {
            assert(final(self)@ =~~= cat0.push(DatabaseView { name: name@, tables: Seq::empty() }));
            assert(!has_db(cat0, name@));
        }
        Ok(h)
    }

    /// A pure lookup: the handle of the database of that name, `None` when
    /// no such database exists.
    pub fn find_database(&self, name: &String) -> (r: Option<DatabaseHandle>)
        ensures
            r is Some <==> has_db(self@, name@),
            r matches Some(h) ==> h < self@.len() && self@[h as int].name == name@,
    {
        let mut i: usize = 0;
        while i < self.databases.len()
            invariant
                i <= self@.len(),
                forall|k: int| 0 <= k < i ==> self@[k].name != name@,
            decreases self.databases.len() - i,
        {
            proof {
                assert(self.databases@[i as int]@ == self@[i as int]);
            }
            if self.databases[i].name == *name {
                return Some(i);
            }
            i = i + 1;
        }
        None
    }

    /// Creates a table inside the database the handle resolves to,
    /// returning the table's handle; fails with `InvalidHandle` if and only
    /// if the handle does not resolve, and with `DuplicateName` if and only
    /// if that database already holds a table of that name.
    pub fn create_table(&mut self, db: DatabaseHandle, name: String) -> (r: Result<
        TableHandle,
        CatalogError,
    >)
        requires
            old(self).wf(),
            string_fits(name@),
        ensures
            final(self).wf(),
            match r {
                Ok(t) => {
                    &&& db < old(self)@.len()
                    &&& !old(self)@[db as int].has_table(name@)
                    &&& t == old(self)@[db as int].tables.len()
                    &&& final(self)@ == old(self)@.update(
                        db as int,
                        DatabaseView {
                            name: old(self)@[db as int].name,
                            tables: old(self)@[db as int].tables.push(name@),
                        },
                    )
                },
                Err(e) => {
                    &&& final(self)@ == old(self)@
                    &&& (e == CatalogError::InvalidHandle || e == CatalogError::DuplicateName)
                    &&& (e == CatalogError::InvalidHandle <==> db >= old(self)@.len())
                    &&& (e == CatalogError::DuplicateName ==> old(self)@[db as int].has_table(
                        name@,
                    ))
                },
            },
    {
        let ghost cat0 = self@;
        if db >= self.databases.len() {
            return Err(CatalogError::InvalidHandle);
        }
        proof {
            assert(self.databases@[db as int]@ == cat0[db as int]);
        }
        let tables_len = self.databases[db].tables.len();
        let mut i: usize = 0;
        while i < tables_len
            invariant
                self@ == cat0,
                cat0 == old(self)@,
                catalog_wf(cat0),
                db < cat0.len(),
                self.databases@[db as int]@ == cat0[db as int],
                tables_len == cat0[db as int].tables.len(),
                i <= tables_len,
                forall|k: int| 0 <= k < i ==> cat0[db as int].tables[k] != name@,
            decreases tables_len - i,
        {
            proof {
                assert(self.databases@[db as int].tables@[i as int]@ == cat0[db as int].tables[i as int]);
            }
            if self.databases[db].tables[i].name == name {
                return Err(CatalogError::DuplicateName);
            }
            i = i + 1;
        }
        proof {
            assert(!cat0[db as int].has_table(name@));
        }
        let d = vstd::std_specs::vec::vec_index_mut(&mut self.databases, db);
        let t = d.tables.len();
        d.tables.push(Table::new(name));
        proof {
            assert(final(self)@ =~~= cat0.update(
                db as int,
                DatabaseView {
                    name: cat0[db as int].name,
                    tables: cat0[db as int].tables.push(name@),
                },
            ));
        }
        Ok(t)
    }

    /// The database names, in creation order, snapshotted at call time.
    pub fn list_database_names(&self) -> (r: Vec<String>)
        ensures
            r.deep_view() == db_names(self@),
    {
        let mut names: Vec<String> = Vec::new();
        let mut i: usize = 0;
        while i < self.databases.len()
            invariant
                i <= self@.len(),
                names.deep_view() == db_names(self@).take(i as int),
            decreases self.databases.len() - i,
        {
            let ghost before = names.deep_view();
            proof {
                assert(self.databases@[i as int]@ == self@[i as int]);
                assert(db_names(self@).take(i as int).len() == i);
                assert(before.len() == i);
                assert(names@.len() == i);
            }
            names.push(self.databases[i].name.clone());
            proof {
                let dn = db_names(self@);
                assert(names@.len() == i + 1);
                assert(names@[i as int]@ == dn[i as int]);
                assert forall|k: int| 0 <= k < i + 1 implies names.deep_view()[k] == dn.take(
                    i as int + 1,
                )[k] by {
                    if k < i {
                        assert(names.deep_view()[k] == before[k]);
                        assert(before[k] == dn.take(i as int)[k]);
                    }
                }
                assert(names.deep_view() =~~= dn.take(i as int + 1));
            }
            i = i + 1;
        }
        proof {
            assert(db_names(self@).take(self@.len() as int) =~= db_names(self@));
        }
        names
    }

    /// The table names of the database the handle resolves to, in creation
    /// order; fails with `InvalidHandle` if and only if the handle does not
    /// resolve.
    pub fn list_table_names(&self, db: DatabaseHandle) -> (r: Result<Vec<String>, CatalogError>)
        ensures
            match r {
                Ok(names) => {
                    &&& db < self@.len()
                    &&& names.deep_view() == self@[db as int].tables
                },
                Err(e) => {
                    &&& e == CatalogError::InvalidHandle
                    &&& db >= self@.len()
                },
            },
    {
        if db >= self.databases.len() {
            return Err(CatalogError::InvalidHandle);
        }
        proof {
            assert(self.databases@[db as int]@ == self@[db as int]);
        }
        let tables_len = self.databases[db].tables.len();
        let mut names: Vec<String> = Vec::new();
        let mut i: usize = 0;
        while i < tables_len
            invariant
                db < self@.len(),
                self.databases@[db as int]@ == self@[db as int],
                tables_len == self@[db as int].tables.len(),
                i <= tables_len,
                names.deep_view() == self@[db as int].tables.take(i as int),
            decreases tables_len - i,
        {
            let ghost before = names.deep_view();
            proof {
                assert(self.databases@[db as int].tables@[i as int]@ == self@[db as int].tables[i as int]);
                assert(self@[db as int].tables.take(i as int).len() == i);
                assert(names@.len() == i);
            }
            names.push(self.databases[db].tables[i].name.clone());
            proof {
                let ts = self@[db as int].tables;
                assert(names@.len() == i + 1);
                assert(names@[i as int]@ == ts[i as int]);
                assert forall|k: int| 0 <= k < i + 1 implies names.deep_view()[k] == ts.take(
                    i as int + 1,
                )[k] by {
                    if k < i {
                        assert(names.deep_view()[k] == before[k]);
                        assert(before[k] == ts.take(i as int)[k]);
                    }
                }
                assert(names.deep_view() =~~= ts.take(i as int + 1));
            }
            i = i + 1;
        }
        proof {
            assert(self@[db as int].tables.take(tables_len as int) =~= self@[db as int].tables);
        }
        Ok(names)
    }
}

} // verus!
