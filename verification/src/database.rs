//! The database: the tables, by name.

use crate::error::Error;
use crate::parser::create::CreateQuery;
use crate::parser::insert::InsertQuery;
use crate::parser::select::SelectQuery;
use crate::table::{
    created, declares_distinct_names, insert_effect, insert_verdict, lemma_position_in_prefix,
    position_in, select_outcome, Table, TableView,
};
use crate::snapshot::{
    content_names, content_of, contents_of, first_refusal, holds_content,
    lemma_first_refusal_prefix, restore_all_verdict, restore_verdict, snapshot_views,
    TableSnapshot,
};
use crate::value::{nested_texts, texts};
use vstd::prelude::*;

verus! {

/// A database: its tables in the order of their creation.
#[derive(Debug, PartialEq)]
pub struct Database {
    pub tables: Vec<Table>,
}

impl View for Database {
    type V = Seq<TableView>;

    /// The tables as specifications see them, in the order of their creation.
    open spec fn view(&self) -> Seq<TableView> {
        Seq::new(self.tables@.len(), |i: int| self.tables@[i]@)
    }
}

/// The names of the tables in the order of their creation.
pub open spec fn table_names(tables: Seq<TableView>) -> Seq<Seq<char>> {
    Seq::new(tables.len(), |i: int| tables[i].name)
}

/// The position of the first table named `name`, if there is one.
pub open spec fn table_position(tables: Seq<TableView>, name: Seq<char>) -> Option<int> {
    position_in(table_names(tables), name)
}

/// Whether no two tables have the same name.
pub open spec fn table_names_distinct(tables: Seq<TableView>) -> bool {
    forall|i: int, j: int|
        0 <= i < j < tables.len() ==> (#[trigger] tables[i]).name != (#[trigger] tables[j]).name
}

impl Database {
    /// Whether every table of the database is well formed.
    pub open spec fn wf(&self) -> bool {
        forall|i: int| 0 <= i < self.tables@.len() ==> (#[trigger] self.tables@[i]).wf()
    }

    /// A database without tables.
    pub fn new() -> (r: Database)
        ensures
            r.wf(),
            r@ == Seq::<TableView>::empty(),
    {
        let r = Database { tables: Vec::new() };
        assert(r@ =~= Seq::<TableView>::empty());
        r
    }

    /// The position of the first table named `tname`, if there is one.
    pub fn table_position(&self, tname: &String) -> (r: Option<usize>)
        ensures
            match r {
                Some(i) => table_position(self@, tname@) == Some(i as int) && i
                    < self.tables@.len(),
                None => table_position(self@, tname@) is None,
            },
    {
        let ghost names = table_names(self@);
        let mut i: usize = 0;
        while i < self.tables.len()
            invariant
                i <= self.tables@.len(),
                names == table_names(self@),
                names.len() == self.tables@.len(),
                position_in(names.take(i as int), tname@) is None,
            decreases self.tables@.len() - i,
        {
            assert(names.take(i + 1).drop_last() =~= names.take(i as int));
            assert(names.take(i + 1).last() == self.tables@[i as int]@.name);
            if *self.tables[i].name() == *tname {
                proof {
                    lemma_position_in_prefix(names, i + 1, tname@);
                }
                return Some(i);
            }
            i += 1;
        }
        assert(names.take(i as int) =~= names);
        None
    }

    /// Whether there is a table named `tname`.
    pub fn table_exists(&self, tname: String) -> (r: bool)
        ensures
            r == table_position(self@, tname@) is Some,
    {
        self.table_position(&tname).is_some()
    }

    /// The first table named `tname`; a `SchemaError` if there is none.
    pub fn get_table(&self, tname: String) -> (r: Result<&Table, Error>)
        ensures
            match r {
                Ok(t) => table_position(self@, tname@) matches Some(i) && *t == self.tables@[i],
                Err(e) => table_position(self@, tname@) is None && e == Error::SchemaError,
            },
    {
        match self.table_position(&tname) {
            Some(i) => Ok(&self.tables[i]),
            None => Err(Error::SchemaError),
        }
    }

    /// The first table named `tname`, to change it in place; a `SchemaError`
    /// if there is none. No other table changes with it.
    pub fn get_table_mut(&mut self, tname: String) -> (r: Result<&mut Table, Error>)
        ensures
            match r {
                Ok(t) => table_position(old(self)@, tname@) matches Some(i) && *t == old(
                    self,
                ).tables@[i] && final(self).tables@ == old(self).tables@.update(i, *final(t)),
                Err(e) => table_position(old(self)@, tname@) is None && e == Error::SchemaError
                    && *final(self) == *old(self),
            },
    {
        match self.table_position(&tname) {
            Some(i) => Ok(&mut self.tables[i]),
            None => Err(Error::SchemaError),
        }
    }

    /// Creates the table that `cq` describes, after the tables that exist.
    ///
    /// A table of that name that exists already, or two columns of one name,
    /// are a `SchemaError`, and then the database stays as it was.
    pub fn create_table(&mut self, cq: CreateQuery) -> (r: Result<(), Error>)
        requires
            old(self).wf(),
        ensures
            final(self).wf(),
            r == if table_position(old(self)@, cq.table_name@) is Some || !declares_distinct_names(
                cq,
            ) {
                Err::<(), Error>(Error::SchemaError)
            } else {
                Ok::<(), Error>(())
            },
            r is Ok ==> final(self)@ == old(self)@.push(created(cq)),
            r is Err ==> final(self)@ == old(self)@,
            table_names_distinct(old(self)@) ==> table_names_distinct(final(self)@),
    {
        if self.table_position(&cq.table_name).is_some() {
            return Err(Error::SchemaError);
        }
        match Table::new(cq) {
            Ok(t) => {
                self.tables.push(t);
                assert(self@ =~= old(self)@.push(created(cq)));
                proof {
                    if table_names_distinct(old(self)@) {
                        crate::laws::law_create_keeps_names_distinct(old(self)@, cq);
                    }
                }
                Ok(())
            },
            Err(e) => Err(e),
        }
    }

    /// Inserts the rows of `iq` into the table that it names.
    ///
    /// An unknown table is a `SchemaError`. Otherwise the insertion ends as
    /// it does on that table. No other table changes, and none at all if
    /// the insertion is refused.
    pub fn insert(&mut self, iq: &InsertQuery) -> (r: Result<(), Error>)
        requires
            old(self).wf(),
        ensures
            final(self).wf(),
            final(self)@.len() == old(self)@.len(),
            match table_position(old(self)@, iq.table_name@) {
                None => r == Err::<(), Error>(Error::SchemaError) && final(self)@ == old(self)@,
                Some(i) => {
                    &&& r == insert_verdict(
                        old(self)@[i],
                        texts(iq.columns@),
                        nested_texts(iq.values@),
                    )
                    &&& forall|j: int|
                        0 <= j < final(self)@.len() && j != i ==> #[trigger] final(self)@[j] == old(
                            self,
                        )@[j]
                    &&& r is Err ==> final(self)@[i] == old(self)@[i]
                    &&& r is Ok ==> insert_effect(
                        old(self)@[i],
                        texts(iq.columns@),
                        nested_texts(iq.values@),
                        final(self)@[i],
                    )
                },
            },
    {
        match self.table_position(&iq.table_name) {
            Some(i) => {
                let r = self.tables[i].insert_row(&iq.columns, &iq.values);
                assert(self@[i as int] == self.tables@[i as int]@);
                assert forall|j: int| 0 <= j < self@.len() && j != i implies #[trigger] self@[j]
                    == old(self)@[j] by {
                    assert(self.tables@[j] == old(self).tables@[j]);
                }
                r
            },
            None => {
                assert(self@ =~= old(self)@);
                Err(Error::SchemaError)
            },
        }
    }

    /// Executes the select query `sq` on the table that it names.
    ///
    /// An unknown table is a `SchemaError`. Otherwise the result is that of
    /// the query on that table.
    pub fn select(&self, sq: &SelectQuery) -> (r: Result<Vec<Vec<String>>, Error>)
        requires
            self.wf(),
        ensures
            match table_position(self@, sq.from@) {
                None => r == Err::<Vec<Vec<String>>, Error>(Error::SchemaError),
                Some(i) => match r {
                    Ok(data) => select_outcome(self@[i], *sq) == Ok::<Seq<Seq<Seq<char>>>, Error>(
                        nested_texts(data@),
                    ),
                    Err(e) => select_outcome(self@[i], *sq) == Err::<Seq<Seq<Seq<char>>>, Error>(e),
                },
            },
            r matches Ok(data) ==> crate::table::util::equal_lengths(data@),
    {
        match self.table_position(&sq.from) {
            Some(i) => self.tables[i].execute_select_query(sq),
            None => Err(Error::SchemaError),
        }
    }

    /// Snapshots of all tables, in the order of the tables.
    #[verifier::loop_isolation(false)]
    pub fn snapshot(&self) -> (r: Vec<TableSnapshot>)
        requires
            self.wf(),
        ensures
            snapshot_views(r@) == contents_of(self@),
    {
        let mut r: Vec<TableSnapshot> = Vec::new();
        let mut i: usize = 0;
        while i < self.tables.len()
            invariant
                i <= self.tables@.len(),
                r@.len() == i,
                forall|j: int| 0 <= j < i ==> (#[trigger] r@[j])@ == content_of(self@[j]),
            decreases self.tables@.len() - i,
        {
            r.push(self.tables[i].snapshot());
            i += 1;
        }
        assert(snapshot_views(r@) =~= contents_of(self@));
        r
    }

    /// Replaces the tables of the database by those that the snapshots hold.
    ///
    /// All or nothing: if one snapshot cannot be restored, or two are of
    /// one name, the database stays as it was. When that is so is what
    /// [`restore_all_verdict`] says.
    #[verifier::loop_isolation(false)]
    pub fn restore(&mut self, snaps: &Vec<TableSnapshot>) -> (r: Result<(), Error>)
        ensures
            match r {
                Ok(_) => {
                    &&& restore_all_verdict(snapshot_views(snaps@)) is Ok
                    &&& final(self).wf()
                    &&& table_names_distinct(final(self)@)
                    &&& final(self)@.len() == snaps@.len()
                    &&& forall|i: int|
                        0 <= i < snaps@.len() ==> holds_content(
                            #[trigger] final(self)@[i],
                            snaps@[i]@,
                        )
                },
                Err(e) => restore_all_verdict(snapshot_views(snaps@)) == Err::<(), Error>(e)
                    && *final(self) == *old(self),
            },
    {
        let ghost contents = snapshot_views(snaps@);
        let ghost names = content_names(contents);
        let n = snaps.len();
        let mut i: usize = 0;
        while i < n
            invariant
                i <= n,
                forall|a: int, b: int| 0 <= a < b < i ==> names[a] != names[b],
            decreases n - i,
        {
            let mut k: usize = 0;
            while k < i
                invariant
                    k <= i,
                    forall|a: int| 0 <= a < k ==> names[a] != names[i as int],
                decreases i - k,
            {
                assert(names[k as int] == snaps@[k as int].name@);
                assert(names[i as int] == snaps@[i as int].name@);
                if snaps[k].name == snaps[i].name {
                    return Err(Error::SchemaError);
                }
                k += 1;
            }
            i += 1;
        }
        assert(names.no_duplicates());
        let mut tables: Vec<Table> = Vec::new();
        i = 0;
        while i < n
            invariant
                i <= n,
                tables@.len() == i,
                first_refusal(contents.take(i as int)) is Ok,
                forall|j: int|
                    0 <= j < i ==> (#[trigger] tables@[j]).wf() && holds_content(
                        tables@[j]@,
                        snaps@[j]@,
                    ),
            decreases n - i,
        {
            assert(contents.take(i + 1).drop_last() =~= contents.take(i as int));
            assert(contents.take(i + 1).last() == snaps@[i as int]@);
            match Table::restore(&snaps[i]) {
                Ok(t) => tables.push(t),
                Err(e) => {
                    proof {
                        lemma_first_refusal_prefix(contents, i + 1);
                    }
                    return Err(e);
                },
            }
            i += 1;
        }
        assert(contents.take(n as int) =~= contents);
        self.tables = tables;
        assert forall|a: int, b: int| 0 <= a < b < self@.len() implies (
        #[trigger] self@[a]).name != (#[trigger] self@[b]).name by {
            assert(names[a] == snaps@[a]@.name && names[b] == snaps@[b]@.name);
            assert(holds_content(self@[a], snaps@[a]@) && holds_content(self@[b], snaps@[b]@));
        }
        Ok(())
    }
}

} // verus!
