//! Collections, the named and numbered groups of storage objects, and the table of them that
//! a run works with.

use vstd::prelude::*;

verus! {

/// A named, numbered group of storage objects.
#[derive(Debug, PartialEq, Eq)]
pub struct Collection {
    pub name: String,
    pub collection: u16,
    pub last_modified: u64,
}

/// What a [`Collection`] holds, as mathematical values.
pub struct CollectionView {
    pub name: Seq<char>,
    pub collection: u16,
    pub last_modified: u64,
}

impl View for Collection {
    type V = CollectionView;

    open spec fn view(&self) -> CollectionView {
        CollectionView {
            name: self.name@,
            collection: self.collection,
            last_modified: self.last_modified,
        }
    }
}

impl Clone for Collection {
    fn clone(&self) -> (copy: Self)
        ensures
            copy == *self,
    {
        Collection {
            name: self.name.clone(),
            collection: self.collection,
            last_modified: self.last_modified,
        }
    }
}

/// What each of a sequence of collections holds.
pub open spec fn collection_views(v: Seq<Collection>) -> Seq<CollectionView> {
    v.map_values(|c: Collection| c@)
}

/// A table of collections by name, which also remembers in which order the names came in.
pub struct Table {
    /// The names, each once, in the order in which they were first set.
    pub names: Seq<Seq<char>>,
    /// The collection that each name stands for.
    pub by_name: Map<Seq<char>, CollectionView>,
}

impl Table {
    /// The table without any name.
    pub open spec fn empty() -> Table {
        Table { names: Seq::empty(), by_name: Map::empty() }
    }

    /// Every name of the table is listed once, and nothing else is listed.
    pub open spec fn wf(self) -> bool {
        &&& self.names.no_duplicates()
        &&& forall|name: Seq<char>| self.by_name.contains_key(name) <==> self.names.contains(name)
    }

    /// The table in which `name` stands for `value`. A name that the table did not know is
    /// listed last; a known one keeps its place.
    pub open spec fn set(self, name: Seq<char>, value: CollectionView) -> Table {
        Table {
            names: if self.by_name.contains_key(name) {
                self.names
            } else {
                self.names.push(name)
            },
            by_name: self.by_name.insert(name, value),
        }
    }

    /// The collections of the table, in the order of their names.
    pub open spec fn values(self) -> Seq<CollectionView> {
        self.names.map_values(|name: Seq<char>| self.by_name[name])
    }

    /// Setting a name keeps a table well formed.
    pub proof fn lemma_set_wf(self, name: Seq<char>, value: CollectionView)
        requires
            self.wf(),
        ensures
            self.set(name, value).wf(),
    {
        let after = self.set(name, value);
        if self.by_name.contains_key(name) {
            assert forall|k: Seq<char>| after.by_name.contains_key(k) <==> after.names.contains(
                k,
            ) by {}
        } else {
            assert(!self.names.contains(name));
            assert forall|i: int, j: int|
                0 <= i < after.names.len() && 0 <= j < after.names.len() && i != j implies after.names[i]
                != after.names[j] by {
                if i < self.names.len() {
                    assert(self.names.contains(self.names[i]));
                }
                if j < self.names.len() {
                    assert(self.names.contains(self.names[j]));
                }
            }
            assert forall|k: Seq<char>| after.by_name.contains_key(k) <==> after.names.contains(
                k,
            ) by {
                if after.names.contains(k) {
                    let i = choose|i: int| 0 <= i < after.names.len() && after.names[i] == k;
                    if i < self.names.len() {
                        assert(self.names[i] == k);
                        assert(self.names.contains(k));
                        assert(self.by_name.contains_key(k));
                    }
                }
                if after.by_name.contains_key(k) {
                    if k == name {
                        assert(after.names[self.names.len() as int] == k);
                    } else {
                        assert(self.by_name.contains_key(k));
                        assert(self.names.contains(k));
                        let i = choose|i: int| 0 <= i < self.names.len() && self.names[i] == k;
                        assert(after.names[i] == k);
                    }
                }
            }
        }
    }
}

/// One name of a table with the collection that it stands for.
#[derive(Debug)]
struct Entry {
    key: String,
    value: Collection,
}

/// The names of the entries, in their order.
spec fn entry_names(entries: Seq<Entry>) -> Seq<Seq<char>> {
    entries.map_values(|e: Entry| e.key@)
}

/// The table that a sequence of entries stands for.
spec fn table_of(entries: Seq<Entry>) -> Table {
    let names = entry_names(entries);
    Table {
        names,
        by_name: Map::new(
            |name: Seq<char>| names.contains(name),
            |name: Seq<char>| entries[names.index_of(name)].value@,
        ),
    }
}

/// No two entries have the same name.
spec fn distinct_names(entries: Seq<Entry>) -> bool {
    forall|i: int, j: int|
        0 <= i < j < entries.len() ==> (#[trigger] entries[i]).key@ != (#[trigger] entries[j]).key@
}

/// Among entries with distinct names, a name is found where it stands.
proof fn lemma_index_of(entries: Seq<Entry>, i: int)
    requires
        distinct_names(entries),
        0 <= i < entries.len(),
    ensures
        entry_names(entries).contains(entries[i].key@),
        entry_names(entries).index_of(entries[i].key@) == i,
        table_of(entries).by_name.contains_key(entries[i].key@),
        table_of(entries).by_name[entries[i].key@] == entries[i].value@,
{
    let names = entry_names(entries);
    assert(names[i] == entries[i].key@);
    let j = names.index_of(entries[i].key@);
    assert(0 <= j < names.len() && names[j] == entries[i].key@);
    assert(names[j] == entries[j].key@);
}

/// Entries with distinct names stand for a well-formed table.
proof fn lemma_table_wf(entries: Seq<Entry>)
    requires
        distinct_names(entries),
    ensures
        table_of(entries).wf(),
{
    let names = entry_names(entries);
    assert forall|i: int, j: int| 0 <= i < names.len() && 0 <= j < names.len() && i != j implies names[i]
        != names[j] by {
        assert(names[i] == entries[i].key@ && names[j] == entries[j].key@);
    }
}

/// The table of collections that a run works with: each name stands for one collection.
#[derive(Debug)]
pub struct Collections {
    entries: Vec<Entry>,
}

impl View for Collections {
    type V = Table;

    closed spec fn view(&self) -> Table {
        table_of(self.entries@)
    }
}

impl Collections {
    #[verifier::type_invariant]
    spec fn distinct(&self) -> bool {
        distinct_names(self.entries@)
    }

    /// A table without any collection: the start of a list of collections that a store did
    /// not know.
    pub fn empty() -> (table: Collections)
        ensures
            table@ == Table::empty(),
    {
        let table = Collections { entries: Vec::new() };
        assert(table@.names =~= Table::empty().names);
        assert(table@.by_name =~= Table::empty().by_name);
        table
    }

    /// Where the entry of `key` stands, if there is one.
    fn position(&self, key: &String) -> (r: Option<usize>)
        ensures
            match r {
                Some(i) => i < self.entries.len() && self.entries[i as int].key@ == key@,
                None => forall|i: int| 0 <= i < self.entries.len() ==> self.entries[i].key@ != key@,
            },
    {
        let mut i: usize = 0;
        while i < self.entries.len()
            invariant
                i <= self.entries.len(),
                forall|j: int| 0 <= j < i ==> self.entries[j].key@ != key@,
            decreases self.entries.len() - i,
        {
            if self.entries[i].key == *key {
                return Some(i);
            }
            i = i + 1;
        }
        None
    }

    /// The collection that `key` stands for, if the table knows the name.
    pub fn get(&self, key: &str) -> (found: Option<&Collection>)
        ensures
            match found {
                Some(col) => self@.by_name.contains_key(key@) && col@ == self@.by_name[key@],
                None => !self@.by_name.contains_key(key@),
            },
    {
        proof {
            use_type_invariant(self);
        }
        let owned = key.to_owned();
        match self.position(&owned) {
            Some(i) => {
                proof {
                    lemma_index_of(self.entries@, i as int);
                }
                Some(&self.entries[i].value)
            },
            None => {
                proof {
                    let names = entry_names(self.entries@);
                    if names.contains(key@) {
                        let j = choose|j: int| 0 <= j < names.len() && names[j] == key@;
                        assert(self.entries[j].key@ == key@);
                    }
                }
                None
            },
        }
    }

    /// Lets `key` stand for `col`, in place of what it stood for before.
    pub fn set(&mut self, key: &str, col: Collection)
        ensures
            final(self)@ == old(self)@.set(key@, col@),
    {
        proof {
            use_type_invariant(&*self);
        }
        let owned = key.to_owned();
        let ghost before = self.entries@;
        let ghost names = entry_names(before);
        match self.position(&owned) {
            Some(i) => {
                proof {
                    lemma_index_of(before, i as int);
                }
                let mut entries: Vec<Entry> = Vec::new();
                core::mem::swap(&mut self.entries, &mut entries);
                entries.set(i, Entry { key: owned, value: col });
                proof {
                    let after = entries@;
                    assert(distinct_names(after)) by {
                        assert forall|a: int, b: int| 0 <= a < b < after.len() implies (
                        #[trigger] after[a]).key@ != (#[trigger] after[b]).key@ by {
                            assert(after[a].key@ == before[a].key@);
                            assert(after[b].key@ == before[b].key@);
                        }
                    }
                }
                self.entries = entries;
                proof {
                    let after = self.entries@;
                    assert(entry_names(after) =~= names);
                    assert forall|name: Seq<char>| names.contains(name) implies #[trigger] table_of(
                        after,
                    ).by_name[name] == table_of(before).by_name.insert(key@, col@)[name] by {
                        let j = names.index_of(name);
                        assert(names[j] == before[j].key@);
                        if j != i {
                            assert(before[j].key@ != before[i as int].key@);
                        }
                    }
                    assert(table_of(after).by_name =~= table_of(before).by_name.insert(key@, col@));
                }
            },
            None => {
                proof {
                    if names.contains(key@) {
                        let j = choose|j: int| 0 <= j < names.len() && names[j] == key@;
                        assert(before[j].key@ == key@);
                    }
                }
                let mut entries: Vec<Entry> = Vec::new();
                core::mem::swap(&mut self.entries, &mut entries);
                entries.push(Entry { key: owned, value: col });
                proof {
                    let after = entries@;
                    assert(distinct_names(after)) by {
                        assert forall|a: int, b: int| 0 <= a < b < after.len() implies (
                        #[trigger] after[a]).key@ != (#[trigger] after[b]).key@ by {
                            assert(after[a] == before[a]);
                            if b < before.len() {
                                assert(after[b] == before[b]);
                            }
                        }
                    }
                }
                self.entries = entries;
                proof {
                    let after = self.entries@;
                    let new_names = entry_names(after);
                    assert(new_names =~= names.push(key@));
                    assert forall|name: Seq<char>| new_names.contains(name) implies #[trigger] table_of(
                        after,
                    ).by_name[name] == table_of(before).by_name.insert(key@, col@)[name] by {
                        let j = new_names.index_of(name);
                        assert(new_names[j] == after[j].key@);
                        if name != key@ {
                            assert(j < before.len());
                            assert(names[j] == name);
                            lemma_index_of(before, j);
                        }
                    }
                    assert forall|name: Seq<char>| new_names.contains(name) <==> (names.contains(
                        name,
                    ) || name == key@) by {
                        if names.contains(name) {
                            let j = choose|j: int| 0 <= j < names.len() && names[j] == name;
                            assert(new_names[j] == name);
                        }
                        if name == key@ {
                            assert(new_names[names.len() as int] == name);
                        }
                    }
                    assert(table_of(after).by_name =~= table_of(before).by_name.insert(key@, col@));
                }
            },
        }
    }

    /// The collections of the table, in the order in which their names came in.
    pub fn items(self) -> (all: Vec<Collection>)
        ensures
            collection_views(all@) == self@.values(),
            self@.wf(),
    {
        proof {
            use_type_invariant(&self);
            lemma_table_wf(self.entries@);
        }
        let mut all: Vec<Collection> = Vec::new();
        let mut i: usize = 0;
        while i < self.entries.len()
            invariant
                i <= self.entries.len(),
                distinct_names(self.entries@),
                all@.len() == i,
                forall|j: int| 0 <= j < i ==> (#[trigger] all[j])@ == self.entries[j].value@,
            decreases self.entries.len() - i,
        {
            all.push(self.entries[i].value.clone());
            i = i + 1;
        }
        proof {
            let values = self@.values();
            assert(collection_views(all@).len() == values.len());
            assert forall|j: int| 0 <= j < values.len() implies collection_views(all@)[j]
                == values[j] by {
                lemma_index_of(self.entries@, j);
            }
            assert(collection_views(all@) =~= values);
        }
        all
    }
}

/// A well-known collection: one that has its number by convention, whatever a store says.
pub open spec fn well_known(name: Seq<char>, id: u16) -> CollectionView {
    CollectionView { name, collection: id, last_modified: 0 }
}

/// The table of the well-known collections, which every run starts from.
pub open spec fn default_table() -> Table {
    Table::empty().set("clients"@, well_known("clients"@, 1)).set(
        "crypto"@,
        well_known("crypto"@, 2),
    ).set("forms"@, well_known("forms"@, 3)).set("history"@, well_known("history"@, 4)).set(
        "keys"@,
        well_known("keys"@, 5),
    ).set("meta"@, well_known("meta"@, 6)).set("bookmarks"@, well_known("bookmarks"@, 7)).set(
        "prefs"@,
        well_known("prefs"@, 8),
    ).set("tabs"@, well_known("tabs"@, 9)).set("passwords"@, well_known("passwords"@, 10)).set(
        "addons"@,
        well_known("addons"@, 11),
    ).set("addresses"@, well_known("addresses"@, 12)).set(
        "creditcards"@,
        well_known("creditcards"@, 13),
    ).set("reserved"@, well_known("reserved"@, 100))
}

/// The names of the well-known collections, in the order of their numbers.
pub open spec fn default_names() -> Seq<Seq<char>> {
    seq![
        "clients"@,
        "crypto"@,
        "forms"@,
        "history"@,
        "keys"@,
        "meta"@,
        "bookmarks"@,
        "prefs"@,
        "tabs"@,
        "passwords"@,
        "addons"@,
        "addresses"@,
        "creditcards"@,
        "reserved"@,
    ]
}

/// The numbers of the well-known collections, each at the place of its name.
pub open spec fn default_ids() -> Seq<u16> {
    seq![1u16, 2u16, 3u16, 4u16, 5u16, 6u16, 7u16, 8u16, 9u16, 10u16, 11u16, 12u16, 13u16, 100u16]
}

/// No two well-known collections have the same name.
pub proof fn lemma_default_names_distinct()
    ensures
        default_names().no_duplicates(),
{
    reveal_strlit("clients");
    reveal_strlit("crypto");
    reveal_strlit("forms");
    reveal_strlit("history");
    reveal_strlit("keys");
    reveal_strlit("meta");
    reveal_strlit("bookmarks");
    reveal_strlit("prefs");
    reveal_strlit("tabs");
    reveal_strlit("passwords");
    reveal_strlit("addons");
    reveal_strlit("addresses");
    reveal_strlit("creditcards");
    reveal_strlit("reserved");
    let names = default_names();
    assert(names[0].len() == 7 && names[0][0] == 'c');
    assert(names[1].len() == 6 && names[1][0] == 'c');
    assert(names[2].len() == 5 && names[2][0] == 'f');
    assert(names[3].len() == 7 && names[3][0] == 'h');
    assert(names[4].len() == 4 && names[4][0] == 'k');
    assert(names[5].len() == 4 && names[5][0] == 'm');
    assert(names[6].len() == 9 && names[6][0] == 'b');
    assert(names[7].len() == 5 && names[7][0] == 'p');
    assert(names[8].len() == 4 && names[8][0] == 't');
    assert(names[9].len() == 9 && names[9][0] == 'p');
    assert(names[10].len() == 6 && names[10][0] == 'a');
    assert(names[11].len() == 9 && names[11][0] == 'a');
    assert(names[12].len() == 11 && names[12][0] == 'c');
    assert(names[13].len() == 8 && names[13][0] == 'r');
}

/// The table of the well-known collections is well formed: it lists the well-known names
/// in the order of their numbers, and each name stands for its number.
pub proof fn lemma_default_table()
    ensures
        default_table().wf(),
        default_table().names == default_names(),
        forall|i: int|
            0 <= i < 14 ==> default_table().by_name.contains_key(#[trigger] default_names()[i])
                && default_table().by_name[default_names()[i]] == well_known(
                default_names()[i],
                default_ids()[i],
            ),
{
    lemma_default_names_distinct();
    let names = default_names();
    let ids = default_ids();
    let t0 = Table::empty();
    let t1 = t0.set(names[0], well_known(names[0], ids[0]));
    let t2 = t1.set(names[1], well_known(names[1], ids[1]));
    let t3 = t2.set(names[2], well_known(names[2], ids[2]));
    let t4 = t3.set(names[3], well_known(names[3], ids[3]));
    let t5 = t4.set(names[4], well_known(names[4], ids[4]));
    let t6 = t5.set(names[5], well_known(names[5], ids[5]));
    let t7 = t6.set(names[6], well_known(names[6], ids[6]));
    let t8 = t7.set(names[7], well_known(names[7], ids[7]));
    let t9 = t8.set(names[8], well_known(names[8], ids[8]));
    let t10 = t9.set(names[9], well_known(names[9], ids[9]));
    let t11 = t10.set(names[10], well_known(names[10], ids[10]));
    let t12 = t11.set(names[11], well_known(names[11], ids[11]));
    let t13 = t12.set(names[12], well_known(names[12], ids[12]));
    let t14 = t13.set(names[13], well_known(names[13], ids[13]));
    assert(t0.names =~= names.take(0));
    assert(t1.names =~= names.take(1));
    assert(t2.names =~= names.take(2));
    assert(t3.names =~= names.take(3));
    assert(t4.names =~= names.take(4));
    assert(t5.names =~= names.take(5));
    assert(t6.names =~= names.take(6));
    assert(t7.names =~= names.take(7));
    assert(t8.names =~= names.take(8));
    assert(t9.names =~= names.take(9));
    assert(t10.names =~= names.take(10));
    assert(t11.names =~= names.take(11));
    assert(t12.names =~= names.take(12));
    assert(t13.names =~= names.take(13));
    assert(t14.names =~= names);
    assert(t14 == default_table());
    assert(t0.wf()) by {
        assert(t0.names =~= Seq::<Seq<char>>::empty());
    }
    t0.lemma_set_wf(names[0], well_known(names[0], ids[0]));
    t1.lemma_set_wf(names[1], well_known(names[1], ids[1]));
    t2.lemma_set_wf(names[2], well_known(names[2], ids[2]));
    t3.lemma_set_wf(names[3], well_known(names[3], ids[3]));
    t4.lemma_set_wf(names[4], well_known(names[4], ids[4]));
    t5.lemma_set_wf(names[5], well_known(names[5], ids[5]));
    t6.lemma_set_wf(names[6], well_known(names[6], ids[6]));
    t7.lemma_set_wf(names[7], well_known(names[7], ids[7]));
    t8.lemma_set_wf(names[8], well_known(names[8], ids[8]));
    t9.lemma_set_wf(names[9], well_known(names[9], ids[9]));
    t10.lemma_set_wf(names[10], well_known(names[10], ids[10]));
    t11.lemma_set_wf(names[11], well_known(names[11], ids[11]));
    t12.lemma_set_wf(names[12], well_known(names[12], ids[12]));
    t13.lemma_set_wf(names[13], well_known(names[13], ids[13]));
}

impl Collections {
    /// Lets the well-known name `name` stand for the number `id`.
    fn set_well_known(&mut self, name: &str, id: u16)
        ensures
            final(self)@ == old(self)@.set(name@, well_known(name@, id)),
    {
        self.set(name, Collection { name: name.to_owned(), collection: id, last_modified: 0 });
    }
}

impl Default for Collections {
    /// The table of the well-known collections.
    fn default() -> (table: Self)
        ensures
            table@ == default_table(),
    {
        let mut table = Collections::empty();
        table.set_well_known("clients", 1);
        table.set_well_known("crypto", 2);
        table.set_well_known("forms", 3);
        table.set_well_known("history", 4);
        table.set_well_known("keys", 5);
        table.set_well_known("meta", 6);
        table.set_well_known("bookmarks", 7);
        table.set_well_known("prefs", 8);
        table.set_well_known("tabs", 9);
        table.set_well_known("passwords", 10);
        table.set_well_known("addons", 11);
        table.set_well_known("addresses", 12);
        table.set_well_known("creditcards", 13);
        table.set_well_known("reserved", 100);
        table
    }
}

/// A collection as a store reports it: its number and its name.
#[derive(Debug, PartialEq, Eq)]
pub struct CollectionRow {
    pub id: u16,
    pub name: String,
}

/// What a [`CollectionRow`] holds, as mathematical values.
pub struct RowView {
    pub id: u16,
    pub name: Seq<char>,
}

impl View for CollectionRow {
    type V = RowView;

    open spec fn view(&self) -> RowView {
        RowView { id: self.id, name: self.name@ }
    }
}

/// What each of a sequence of rows holds.
pub open spec fn row_views(rows: Seq<CollectionRow>) -> Seq<RowView> {
    rows.map_values(|row: CollectionRow| row@)
}

/// The collection that a reported row describes.
pub open spec fn observed(row: RowView) -> CollectionView {
    CollectionView { name: row.name, collection: row.id, last_modified: 0 }
}

/// The table after one reported row: a name that the table knows keeps what it stands for, a
/// new one is added with the number that the row reports.
pub open spec fn add_missing(table: Table, row: RowView) -> Table {
    if table.by_name.contains_key(row.name) {
        table
    } else {
        table.set(row.name, observed(row))
    }
}

/// The table after all the reported rows, taken in their order.
pub open spec fn merged(table: Table, rows: Seq<RowView>) -> Table
    decreases rows.len(),
{
    if rows.len() == 0 {
        table
    } else {
        add_missing(merged(table, rows.drop_last()), rows.last())
    }
}

/// The collections that the rows brought and the table did not know: what `merged` added.
pub open spec fn discovered(table: Table, rows: Seq<RowView>) -> Table
    decreases rows.len(),
{
    if rows.len() == 0 {
        Table::empty()
    } else if merged(table, rows.drop_last()).by_name.contains_key(rows.last().name) {
        discovered(table, rows.drop_last())
    } else {
        discovered(table, rows.drop_last()).set(rows.last().name, observed(rows.last()))
    }
}

impl Collections {
    /// Takes a reported row into the table unless the table knows its name, and tells
    /// whether the name was new.
    pub fn add_missing(&mut self, row: &CollectionRow) -> (added: bool)
        ensures
            added == !old(self)@.by_name.contains_key(row.name@),
            final(self)@ == add_missing(old(self)@, row@),
    {
        if self.get(row.name.as_str()).is_none() {
            self.set(
                row.name.as_str(),
                Collection { name: row.name.clone(), collection: row.id, last_modified: 0 },
            );
            true
        } else {
            false
        }
    }
}

/// Merging keeps a table well formed, and what it discovers is well formed too.
pub proof fn lemma_merged_wf(table: Table, rows: Seq<RowView>)
    requires
        table.wf(),
    ensures
        merged(table, rows).wf(),
        discovered(table, rows).wf(),
    decreases rows.len(),
{
    if rows.len() > 0 {
        lemma_merged_wf(table, rows.drop_last());
        merged(table, rows.drop_last()).lemma_set_wf(rows.last().name, observed(rows.last()));
        discovered(table, rows.drop_last()).lemma_set_wf(rows.last().name, observed(rows.last()));
    } else {
        assert(Table::empty().names =~= Seq::<Seq<char>>::empty());
    }
}

/// After merging, the table knows the name of every row, and what it knew before it still
/// knows unchanged.
pub proof fn lemma_merged_knows(table: Table, rows: Seq<RowView>)
    ensures
        forall|i: int| 0 <= i < rows.len() ==> merged(table, rows).by_name.contains_key(#[trigger] rows[i].name),
        forall|name: Seq<char>| #[trigger]
            table.by_name.contains_key(name) ==> merged(table, rows).by_name.contains_key(name)
                && merged(table, rows).by_name[name] == table.by_name[name],
    decreases rows.len(),
{
    if rows.len() > 0 {
        lemma_merged_knows(table, rows.drop_last());
        assert forall|i: int| 0 <= i < rows.len() implies merged(table, rows).by_name.contains_key(
            #[trigger] rows[i].name,
        ) by {
            if i < rows.len() - 1 {
                assert(rows.drop_last()[i] == rows[i]);
            }
        }
    }
}

/// Rows whose names the table knows already change nothing and bring nothing new.
pub proof fn lemma_known_rows_add_nothing(table: Table, rows: Seq<RowView>)
    requires
        forall|i: int| 0 <= i < rows.len() ==> table.by_name.contains_key(#[trigger] rows[i].name),
    ensures
        merged(table, rows) == table,
        discovered(table, rows) == Table::empty(),
    decreases rows.len(),
{
    if rows.len() > 0 {
        assert forall|i: int| 0 <= i < rows.drop_last().len() implies table.by_name.contains_key(
            #[trigger] rows.drop_last()[i].name,
        ) by {
            assert(rows.drop_last()[i] == rows[i]);
        }
        lemma_known_rows_add_nothing(table, rows.drop_last());
        assert(table.by_name.contains_key(rows[rows.len() - 1].name));
    }
}

/// Reconciling is idempotent: merging the same rows a second time, into the table that the
/// first merge gave, leaves that table as it is and discovers no collection.
pub proof fn lemma_reconcile_idempotent(table: Table, rows: Seq<RowView>)
    ensures
        merged(merged(table, rows), rows) == merged(table, rows),
        discovered(merged(table, rows), rows) == Table::empty(),
{
    lemma_merged_knows(table, rows);
    lemma_known_rows_add_nothing(merged(table, rows), rows);
}

/// Where the collections of a merged table come from: each was in the table before, and is
/// unchanged, or is the collection that one of the rows describes under its name.
pub proof fn lemma_merged_origin(table: Table, rows: Seq<RowView>)
    ensures
        forall|name: Seq<char>| #[trigger]
            merged(table, rows).by_name.contains_key(name) ==> {
                ||| table.by_name.contains_key(name) && merged(table, rows).by_name[name]
                    == table.by_name[name]
                ||| exists|i: int|
                    0 <= i < rows.len() && (#[trigger] rows[i]).name == name && merged(
                        table,
                        rows,
                    ).by_name[name] == observed(rows[i])
            },
    decreases rows.len(),
{
    if rows.len() > 0 {
        let before = merged(table, rows.drop_last());
        let after = merged(table, rows);
        lemma_merged_origin(table, rows.drop_last());
        assert forall|name: Seq<char>| #[trigger] after.by_name.contains_key(name) implies {
            ||| table.by_name.contains_key(name) && after.by_name[name] == table.by_name[name]
            ||| exists|i: int|
                0 <= i < rows.len() && (#[trigger] rows[i]).name == name && after.by_name[name]
                    == observed(rows[i])
        } by {
            if before.by_name.contains_key(name) {
                assert(after.by_name[name] == before.by_name[name]);
                if !(table.by_name.contains_key(name) && before.by_name[name]
                    == table.by_name[name]) {
                    let i = choose|i: int|
                        0 <= i < rows.drop_last().len() && (#[trigger] rows.drop_last()[i]).name
                            == name && before.by_name[name] == observed(rows.drop_last()[i]);
                    assert(rows[i] == rows.drop_last()[i]);
                }
            } else {
                let last = rows.len() - 1;
                assert(rows[last].name == name);
                assert(after.by_name[name] == observed(rows[last]));
            }
        }
    }
}

/// Reconciling a second time finds nothing new, once the destination reports what the first
/// time left in it.
///
/// The first time starts from the table `base` of the well-known collections, takes in what
/// the destination reports (`reported`) and then what the source reports (`observed_rows`).
/// The second time the source reports the same, and the destination reports `again`: only
/// collections of the first time's table, each under its number, and every one of them
/// that is not well known. Then no collection is new, so that nothing is inserted, and the
/// table of the second time has the names of the first, each with the same collection.
pub proof fn lemma_second_run_finds_nothing(
    base: Table,
    reported: Seq<RowView>,
    observed_rows: Seq<RowView>,
    again: Seq<RowView>,
)
    requires
        forall|i: int|
            0 <= i < again.len() ==> {
                let first = merged(merged(base, reported), observed_rows);
                &&& first.by_name.contains_key((#[trigger] again[i]).name)
                &&& first.by_name[again[i].name] == observed(again[i])
            },
        forall|name: Seq<char>| #[trigger]
            merged(merged(base, reported), observed_rows).by_name.contains_key(name)
                && !base.by_name.contains_key(name) ==> exists|i: int|
                0 <= i < again.len() && (#[trigger] again[i]).name == name,
    ensures
        discovered(merged(base, again), observed_rows) == Table::empty(),
        merged(merged(base, again), observed_rows) == merged(base, again),
        merged(merged(base, again), observed_rows).by_name == merged(
            merged(base, reported),
            observed_rows,
        ).by_name,
{
    let known = merged(base, reported);
    let first = merged(known, observed_rows);
    let second = merged(base, again);
    lemma_merged_knows(base, reported);
    lemma_merged_knows(known, observed_rows);
    lemma_merged_knows(base, again);
    lemma_merged_origin(base, again);
    assert forall|name: Seq<char>| second.by_name.contains_key(name) implies first.by_name.contains_key(
        name,
    ) && first.by_name[name] == second.by_name[name] by {
        if base.by_name.contains_key(name) {
            assert(known.by_name.contains_key(name));
        } else {
            let i = choose|i: int|
                0 <= i < again.len() && (#[trigger] again[i]).name == name && second.by_name[name]
                    == observed(again[i]);
            assert(first.by_name[again[i].name] == observed(again[i]));
        }
    }
    assert forall|name: Seq<char>| first.by_name.contains_key(name) implies second.by_name.contains_key(
        name,
    ) by {
        if !base.by_name.contains_key(name) {
            let i = choose|i: int| 0 <= i < again.len() && (#[trigger] again[i]).name == name;
            assert(second.by_name.contains_key(again[i].name));
        }
    }
    assert(second.by_name =~= first.by_name);
    assert forall|i: int| 0 <= i < observed_rows.len() implies second.by_name.contains_key(
        #[trigger] observed_rows[i].name,
    ) by {
        assert(first.by_name.contains_key(observed_rows[i].name));
    }
    lemma_known_rows_add_nothing(second, observed_rows);
}

/// What is discovered is what merging added: the collections of the merged table under the
/// names that the table did not know before.
pub proof fn lemma_discovered(table: Table, rows: Seq<RowView>)
    ensures
        forall|name: Seq<char>| #[trigger]
            discovered(table, rows).by_name.contains_key(name) <==> merged(
                table,
                rows,
            ).by_name.contains_key(name) && !table.by_name.contains_key(name),
        forall|name: Seq<char>| #[trigger]
            discovered(table, rows).by_name.contains_key(name) ==> discovered(
                table,
                rows,
            ).by_name[name] == merged(table, rows).by_name[name],
    decreases rows.len(),
{
    if rows.len() > 0 {
        let init = rows.drop_last();
        let last = rows.last();
        let before = merged(table, init);
        let found = discovered(table, init);
        let after = merged(table, rows);
        let fresh = discovered(table, rows);
        lemma_discovered(table, init);
        lemma_merged_knows(table, init);
        assert forall|name: Seq<char>| #[trigger]
            fresh.by_name.contains_key(name) <==> after.by_name.contains_key(name)
                && !table.by_name.contains_key(name) by {
            if before.by_name.contains_key(last.name) {
                assert(after == before && fresh == found);
            } else {
                assert(after.by_name == before.by_name.insert(last.name, observed(last)));
                assert(fresh.by_name == found.by_name.insert(last.name, observed(last)));
                if name == last.name {
                    assert(!table.by_name.contains_key(name));
                } else {
                    assert(fresh.by_name.contains_key(name) == found.by_name.contains_key(name));
                    assert(after.by_name.contains_key(name) == before.by_name.contains_key(name));
                }
            }
        }
        assert forall|name: Seq<char>| #[trigger]
            fresh.by_name.contains_key(name) implies fresh.by_name[name]
            == after.by_name[name] by {
            if !before.by_name.contains_key(last.name) && name != last.name {
                assert(found.by_name.contains_key(name));
            }
        }
    } else {
        assert(discovered(table, rows).by_name =~= Map::<Seq<char>, CollectionView>::empty());
    }
}

/// The rows that an insert of the collections `items` leaves in the destination's table:
/// the number and the name of each.
pub open spec fn rows_of(items: Seq<CollectionView>) -> Seq<RowView> {
    items.map_values(|item: CollectionView| RowView { id: item.collection, name: item.name })
}

/// Reconciling is idempotent over two whole runs: where the destination reports, the
/// second time, what it reported the first time and what the first run inserted, the second
/// run finds no new collection, and its table has the names of the first, each with the
/// same collection.
///
/// This holds of a destination whose first report agrees with the table of the first run:
/// no name twice under different numbers, and no well-known name under another number than
/// its own.
pub proof fn lemma_rerun_after_insert(base: Table, reported: Seq<RowView>, observed_rows: Seq<RowView>)
    requires
        base.wf(),
        forall|i: int|
            0 <= i < reported.len() ==> merged(merged(base, reported), observed_rows).by_name[(
            #[trigger] reported[i]).name] == observed(reported[i]),
    ensures
        ({
            let inserted = rows_of(discovered(merged(base, reported), observed_rows).values());
            let again = reported + inserted;
            &&& discovered(merged(base, again), observed_rows) == Table::empty()
            &&& merged(merged(base, again), observed_rows).by_name == merged(
                merged(base, reported),
                observed_rows,
            ).by_name
        }),
{
    let known = merged(base, reported);
    let first = merged(known, observed_rows);
    let fresh = discovered(known, observed_rows);
    let inserted = rows_of(fresh.values());
    let again = reported + inserted;
    lemma_merged_wf(base, reported);
    lemma_merged_wf(known, observed_rows);
    lemma_merged_knows(base, reported);
    lemma_merged_knows(known, observed_rows);
    lemma_merged_origin(base, reported);
    lemma_merged_origin(known, observed_rows);
    lemma_discovered(known, observed_rows);
    assert forall|k: int| 0 <= k < fresh.names.len() implies {
        let name = #[trigger] fresh.names[k];
        &&& inserted[k].name == name
        &&& first.by_name.contains_key(name)
        &&& first.by_name[name] == observed(inserted[k])
    } by {
        let name = fresh.names[k];
        assert(fresh.names.contains(name));
        assert(fresh.by_name.contains_key(name));
        assert(fresh.values()[k] == fresh.by_name[name]);
        assert(first.by_name.contains_key(name) && !known.by_name.contains_key(name));
        let j = choose|j: int|
            0 <= j < observed_rows.len() && (#[trigger] observed_rows[j]).name == name
                && first.by_name[name] == observed(observed_rows[j]);
        assert(fresh.by_name[name] == observed(observed_rows[j]));
    }
    assert forall|i: int| 0 <= i < again.len() implies {
        &&& first.by_name.contains_key((#[trigger] again[i]).name)
        &&& first.by_name[again[i].name] == observed(again[i])
    } by {
        if i < reported.len() {
            assert(again[i] == reported[i]);
            assert(known.by_name.contains_key(reported[i].name));
        } else {
            let k = i - reported.len();
            assert(again[i] == inserted[k]);
            assert(inserted[k].name == fresh.names[k]);
        }
    }
    assert forall|name: Seq<char>| #[trigger]
        first.by_name.contains_key(name) && !base.by_name.contains_key(name) implies exists|i: int|
        0 <= i < again.len() && (#[trigger] again[i]).name == name by {
        if known.by_name.contains_key(name) {
            let i = choose|i: int|
                0 <= i < reported.len() && (#[trigger] reported[i]).name == name
                    && known.by_name[name] == observed(reported[i]);
            assert(again[i].name == name);
        } else {
            assert(fresh.by_name.contains_key(name));
            assert(fresh.names.contains(name));
            let k = choose|k: int| 0 <= k < fresh.names.len() && fresh.names[k] == name;
            assert(inserted[k].name == fresh.names[k]);
            assert(again[reported.len() + k] == inserted[k]);
        }
    }
    lemma_second_run_finds_nothing(base, reported, observed_rows, again);
}

} // verus!
