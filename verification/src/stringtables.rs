//! String tables as plain values: what the rest of the library reads of them.

use vstd::prelude::*;

verus! {

/// An entry of a string table.
#[derive(Debug)]
pub struct StringTableItem {
    pub string: Option<Vec<u8>>,
    pub user_data: Option<Vec<u8>>,
}

/// What a [`StringTableItem`] stands for.
pub struct ItemModel {
    pub string: Option<Seq<u8>>,
    pub user_data: Option<Seq<u8>>,
}

/// The bytes, where there are any.
pub open spec fn bytes_of(bytes: Option<Vec<u8>>) -> Option<Seq<u8>> {
    match bytes {
        Some(bytes) => Some(bytes@),
        None => None,
    }
}

impl View for StringTableItem {
    type V = ItemModel;

    open spec fn view(&self) -> ItemModel {
        ItemModel { string: bytes_of(self.string), user_data: bytes_of(self.user_data) }
    }
}

/// How the entries of a string table are packed.
#[derive(Debug, Clone, Copy, PartialEq, Eq, Structural)]
pub struct TableLayout {
    pub user_data_fixed_size: bool,
    pub user_data_size: i32,
    pub user_data_size_bits: i32,
    pub flags: i32,
    pub using_varint_bitcounts: bool,
}

/// A string table.
#[derive(Debug)]
pub struct StringTable {
    pub name: String,
    pub layout: TableLayout,
    pub items: Vec<StringTableItem>,
}

/// What a [`StringTable`] stands for.
pub struct TableModel {
    pub name: Seq<char>,
    pub layout: TableLayout,
    pub items: Seq<ItemModel>,
}

/// The entries that `items` stands for.
pub open spec fn items_view(items: Seq<StringTableItem>) -> Seq<ItemModel> {
    Seq::new(items.len(), |i: int| items[i]@)
}

impl View for StringTable {
    type V = TableModel;

    open spec fn view(&self) -> TableModel {
        TableModel {
            name: self.name@,
            layout: self.layout,
            items: items_view(self.items@),
        }
    }
}

impl StringTable {
    /// Whether the table has the name `name`.
    pub fn is_named(&self, name: &str) -> (r: bool)
        ensures
            r == (self@.name == name@),
    {
        self.name == name.to_owned()
    }
}

/// The string tables of a demo. A table is known by its place among them.
#[derive(Debug)]
pub struct StringTableContainer {
    pub tables: Vec<StringTable>,
}

impl View for StringTableContainer {
    type V = Seq<TableModel>;

    open spec fn view(&self) -> Seq<TableModel> {
        Seq::new(self.tables@.len(), |i: int| self.tables@[i]@)
    }
}

/// The place of the first table named `name`, or the number of tables if none is.
pub open spec fn place_of(tables: Seq<TableModel>, name: Seq<char>) -> nat
    decreases tables.len(),
{
    if tables.len() == 0 || tables[0].name == name {
        0
    } else {
        1 + place_of(tables.skip(1), name)
    }
}

/// The first table named `name`.
pub open spec fn table_named(tables: Seq<TableModel>, name: Seq<char>) -> Option<TableModel> {
    let place = place_of(tables, name) as int;
    if place < tables.len() {
        Some(tables[place])
    } else {
        None
    }
}

proof fn lemma_place_of(tables: Seq<TableModel>, name: Seq<char>, place: nat)
    requires
        place <= tables.len(),
        forall|i: int| 0 <= i < place ==> tables[i].name != name,
        place == tables.len() || tables[place as int].name == name,
    ensures
        place_of(tables, name) == place,
    decreases place,
{
    if place > 0 {
        lemma_place_of(tables.skip(1), name, (place - 1) as nat);
    }
}

/// [`place_of`] is the first place with the name.
pub proof fn lemma_place_of_first(tables: Seq<TableModel>, name: Seq<char>)
    ensures
        place_of(tables, name) <= tables.len(),
        forall|i: int| 0 <= i < place_of(tables, name) ==> tables[i].name != name,
        place_of(tables, name) < tables.len() ==> tables[place_of(tables, name) as int].name
            == name,
    decreases tables.len(),
{
    if tables.len() > 0 && tables[0].name != name {
        lemma_place_of_first(tables.skip(1), name);
        assert forall|i: int| 0 <= i < place_of(tables, name) implies tables[i].name != name by {
            if i > 0 {
                assert(tables[i] == tables.skip(1)[i - 1]);
            }
        }
    }
}

/// Where no table has the name, a new one that has it is the first.
pub proof fn lemma_table_named_push(tables: Seq<TableModel>, table: TableModel)
    requires
        table_named(tables, table.name) is None,
    ensures
        table_named(tables.push(table), table.name) == Some(table),
{
    lemma_place_of_first(tables, table.name);
    lemma_place_of(tables.push(table), table.name, tables.len());
}

impl StringTableContainer {
    /// No tables.
    pub fn new() -> (r: Self)
        ensures
            r@ == Seq::<TableModel>::empty(),
    {
        let r = StringTableContainer { tables: Vec::new() };
        assert(r@ =~= Seq::<TableModel>::empty());
        r
    }

    /// Whether there are no tables.
    pub fn is_empty(&self) -> (r: bool)
        ensures
            r == (self@.len() == 0),
    {
        self.tables.len() == 0
    }

    /// Whether there is a table at the place `id`.
    pub fn has_table(&self, id: usize) -> (r: bool)
        ensures
            r == (id < self@.len()),
    {
        id < self.tables.len()
    }

    /// The table at the place `id`.
    pub fn get_table(&self, id: usize) -> (r: Option<&StringTable>)
        ensures
            match r {
                Some(table) => id < self@.len() && table@ == self@[id as int],
                None => id >= self@.len(),
            },
    {
        if id < self.tables.len() {
            Some(&self.tables[id])
        } else {
            None
        }
    }

    /// The first table named `name`.
    pub fn find_table(&self, name: &str) -> (r: Option<&StringTable>)
        ensures
            match r {
                Some(table) => table_named(self@, name@) == Some(table@),
                None => table_named(self@, name@) is None,
            },
    {
        let wanted: String = name.to_owned();
        let mut i: usize = 0;
        while i < self.tables.len()
            invariant
                i <= self.tables@.len(),
                wanted@ == name@,
                forall|j: int| 0 <= j < i ==> self@[j].name != name@,
            decreases self.tables@.len() - i,
        {
            if self.tables[i].name == wanted {
                proof {
                    lemma_place_of(self@, name@, i as nat);
                }
                return Some(&self.tables[i]);
            }
            i = i + 1;
        }
        proof {
            lemma_place_of(self@, name@, i as nat);
        }
        None
    }

    /// Adds a table without entries, and gives its place.
    pub fn create_string_table(&mut self, name: String, layout: TableLayout) -> (r: usize)
        ensures
            r == old(self)@.len(),
            final(self)@ == old(self)@.push(
                TableModel { name: name@, layout, items: Seq::empty() },
            ),
    {
        let id: usize = self.tables.len();
        let table = StringTable { name, layout, items: Vec::new() };
        assert(items_view(table.items@) =~= Seq::<ItemModel>::empty());
        self.tables.push(table);
        assert(self@ =~= old(self)@.push(
            TableModel { name: name@, layout, items: Seq::empty() },
        ));
        id
    }

    /// Replaces the entries of the table at the place `id`.
    pub fn set_items(&mut self, id: usize, items: Vec<StringTableItem>)
        requires
            id < old(self)@.len(),
        ensures
            final(self)@ == old(self)@.update(
                id as int,
                TableModel { items: items_view(items@), ..old(self)@[id as int] },
            ),
    {
        self.tables[id].items = items;
        assert(self@ =~= old(self)@.update(
            id as int,
            TableModel { items: items_view(items@), ..old(self)@[id as int] },
        ));
    }

    /// Removes all tables.
    pub fn clear(&mut self)
        ensures
            final(self)@ == Seq::<TableModel>::empty(),
    {
        self.tables.clear();
        assert(self@ =~= Seq::<TableModel>::empty());
    }
}

/// An entry stands for the very bytes that it holds, and for none where it holds none.
pub proof fn lemma_items_stand_for_their_bytes(items: Seq<StringTableItem>, i: int)
    requires
        0 <= i < items.len(),
    ensures
        items_view(items).len() == items.len(),
        items[i].string is None ==> items_view(items)[i].string is None,
        items[i].string is Some ==> items_view(items)[i].string == Some(items[i].string->Some_0@),
        items[i].user_data is None ==> items_view(items)[i].user_data is None,
        items[i].user_data is Some ==> items_view(items)[i].user_data == Some(
            items[i].user_data->Some_0@,
        ),
{
}

} // verus!
