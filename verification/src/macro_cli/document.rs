//! Editing the `[[macro]]` entries of a config file in place, with
//! `toml_edit`, so comments and layout survive.

use toml_edit::{value, Array, ArrayOfTables, DocumentMut, Item, Table};
use vstd::prelude::*;

use crate::config::{CommandView, HookCommand};
use crate::input::keys;
use crate::input::keys::{ComboFault, KeyCombo};
use crate::text;

verus! {

broadcast use vstd::seq::group_seq_axioms;

/// The timeout of a macro that names none.
pub const DEFAULT_TIMEOUT_SECS: u64 = 10;

/// The top-level key of the macros.
pub const MACRO: &'static str = "macro";

pub const KEYS: &'static str = "keys";

pub const NAME: &'static str = "name";

pub const RUN: &'static str = "run";

pub const TIMEOUT: &'static str = "timeout_secs";

// ---------------------------------------------------------------------------
// Documents
// ---------------------------------------------------------------------------

/// `toml_edit::DocumentMut`: a TOML document that can be edited.
#[verifier::external_type_specification]
#[verifier::external_body]
pub struct ExDocumentMut(toml_edit::DocumentMut);

/// What a field of a table holds.
pub enum Field {
    Text(Seq<char>),
    /// An array of texts.
    Texts(Seq<Seq<char>>),
    Number(i64),
    Other,
}

pub open spec fn no_fields() -> Map<Seq<char>, Field> {
    Map::empty()
}

pub open spec fn no_tables() -> Seq<Map<Seq<char>, Field>> {
    Seq::empty()
}

pub open spec fn no_entries() -> Map<Seq<char>, bool> {
    Map::empty()
}

pub open spec fn no_layouts() -> Seq<TableLayout> {
    Seq::empty()
}

pub open spec fn no_keys() -> Seq<Seq<char>> {
    Seq::empty()
}

/// Fields in order, without one of them.
pub open spec fn dropped_from(order: Seq<Seq<char>>, field: Seq<char>) -> Seq<Seq<char>> {
    order.filter(|f: Seq<char>| f != field)
}

/// How a table is written, comments and blank lines included.
#[verifier::ext_equal]
pub struct TableLayout {
    /// What stands around its header.
    pub header: Seq<char>,
    /// Its fields, in order.
    pub order: Seq<Seq<char>>,
    /// How each field is written, key and value with what stands around them.
    pub fields: Map<Seq<char>, Seq<char>>,
}

impl TableLayout {
    /// The same table with one field dropped.
    pub open spec fn without(self, field: Seq<char>) -> TableLayout {
        TableLayout {
            order: dropped_from(self.order, field),
            fields: self.fields.remove(field),
            ..self
        }
    }

    /// The same table but for how one field is written, which is new or stands
    /// where it stood.
    pub open spec fn rewritten(self, after: TableLayout, field: Seq<char>) -> bool {
        &&& after.header == self.header
        &&& after.order == (if self.order.contains(field) {
            self.order
        } else {
            self.order.push(field)
        })
        &&& after.fields.remove(field) == self.fields.remove(field)
    }
}

/// The document a text spells, or the message about why it spells none.
pub uninterp spec fn toml_parsed(text: Seq<char>) -> Result<DocumentMut, Seq<char>>;

/// A document as it is written.
pub uninterp spec fn document_text(doc: DocumentMut) -> Seq<char>;

/// The top-level keys of a document, and which of them stand for an array of
/// tables (`[[key]]`).
pub uninterp spec fn entry_kinds(doc: DocumentMut) -> Map<Seq<char>, bool>;

/// The tables under a top-level key, by field; none where the key does not
/// stand for an array of tables.
pub uninterp spec fn tables_at(doc: DocumentMut, key: Seq<char>) -> Seq<Map<Seq<char>, Field>>;

/// The items under every other top-level key, as they are written.
pub uninterp spec fn other_items(doc: DocumentMut, key: Seq<char>) -> Map<Seq<char>, Seq<char>>;

/// The top-level keys of a document, in order.
pub uninterp spec fn root_order(doc: DocumentMut) -> Seq<Seq<char>>;

/// What a document is written between: the comments and blank lines before its
/// first item and after its last.
pub uninterp spec fn root_margins(doc: DocumentMut) -> Seq<Seq<char>>;

/// How the tables under a top-level key are written; none where the key does
/// not stand for an array of tables.
pub uninterp spec fn table_layouts(doc: DocumentMut, key: Seq<char>) -> Seq<TableLayout>;

/// The text in a field, if it holds one.
pub open spec fn field_text(table: Map<Seq<char>, Field>, field: Seq<char>) -> Option<Seq<char>> {
    if table.contains_key(field) {
        match table[field] {
            Field::Text(s) => Some(s),
            _ => None,
        }
    } else {
        None
    }
}

/// A document that differs from an earlier one in nothing but the tables under
/// a key.
pub open spec fn edited(
    before: DocumentMut,
    after: DocumentMut,
    key: Seq<char>,
    tables: Seq<Map<Seq<char>, Field>>,
) -> bool {
    &&& entry_kinds(after) == entry_kinds(before)
    &&& other_items(after, key) == other_items(before, key)
    &&& root_order(after) == root_order(before)
    &&& root_margins(after) == root_margins(before)
    &&& tables_at(after, key) == tables
}

/// Tables that are written as they were, but for one.
pub open spec fn only_table_changed(
    before: Seq<TableLayout>,
    after: Seq<TableLayout>,
    index: int,
) -> bool {
    &&& after.len() == before.len()
    &&& forall|i: int| 0 <= i < before.len() && i != index ==> #[trigger] after[i] == before[i]
}

/// Tables that are written as they were, but for one field of one of them.
pub open spec fn field_rewritten(
    before: Seq<TableLayout>,
    after: Seq<TableLayout>,
    index: int,
    field: Seq<char>,
) -> bool {
    &&& only_table_changed(before, after, index)
    &&& before[index].rewritten(after[index], field)
}

/// Tables that are written as they were, with one more at the end that has no
/// fields.
pub open spec fn table_appended(before: Seq<TableLayout>, after: Seq<TableLayout>) -> bool {
    &&& after.len() == before.len() + 1
    &&& after.drop_last() == before
    &&& after.last().order == no_keys()
    &&& after.last().fields.dom() == Set::<Seq<char>>::empty()
}

/// How a parse ended.
pub open spec fn parse_result(r: Result<DocumentMut, String>) -> Result<DocumentMut, Seq<char>> {
    match r {
        Ok(doc) => Ok(doc),
        Err(message) => Err(message@),
    }
}

/// `toml_edit::DocumentMut::from_str`: reads a document. Nothing is said of
/// what the document holds: that takes the TOML grammar to state.
#[verifier::external_body]
fn toml_read(text: &str) -> (r: Result<DocumentMut, String>)
    ensures
        parse_result(r) == toml_parsed(text@),
{
    match text.parse::<DocumentMut>() {
        Ok(doc) => Ok(doc),
        Err(err) => Err(err.to_string()),
    }
}

/// `Display` of `toml_edit::DocumentMut`: writes a document. Nothing is said
/// of how: that takes the TOML grammar and the recorded layout to state.
#[verifier::external_body]
fn toml_write(doc: &DocumentMut) -> (r: String)
    ensures
        r@ == document_text(*doc),
{
    doc.to_string()
}

/// `toml_edit::DocumentMut::new`: a document without any key.
#[verifier::external_body]
fn toml_empty() -> (r: DocumentMut)
    ensures
        entry_kinds(r) == no_entries(),
        root_order(r) == no_keys(),
{
    DocumentMut::new()
}

/// `toml_edit::ArrayOfTables::iter`, counted: how many tables stand under a
/// key, 0 where it does not stand for an array of tables.
#[verifier::external_body]
fn toml_table_count(doc: &DocumentMut, key: &str) -> (r: usize)
    ensures
        r == tables_at(*doc, key@).len(),
        r == table_layouts(*doc, key@).len(),
{
    match doc.get(key).and_then(Item::as_array_of_tables) {
        Some(tables) => tables.iter().count(),
        None => 0,
    }
}

/// `toml_edit::Table::get` with `Item::as_str`: the text in a field of one
/// table, `None` where the field is missing or holds something else.
#[verifier::external_body]
fn toml_text(doc: &DocumentMut, key: &str, index: usize, field: &str) -> (r: Option<String>)
    requires
        index < tables_at(*doc, key@).len(),
    ensures
        text::opt_text(r) == field_text(tables_at(*doc, key@)[index as int], field@),
{
    let tables = doc.get(key)?.as_array_of_tables()?;
    let item = tables.iter().nth(index)?.get(field)?;
    item.as_str().map(str::to_owned)
}

/// `toml_edit::Table::entry` with `Entry::or_insert`: makes an empty array of
/// tables under a key that is not taken. Returns whether the key stands for an
/// array of tables then. A key that is taken stays as it is, and so does the
/// whole document; a new one comes after all others.
#[verifier::external_body]
fn toml_ensure_tables(doc: &mut DocumentMut, key: &str) -> (r: bool)
    ensures
        r == (!entry_kinds(*old(doc)).contains_key(key@) || entry_kinds(*old(doc))[key@]),
        entry_kinds(*final(doc)) == (if entry_kinds(*old(doc)).contains_key(key@) {
            entry_kinds(*old(doc))
        } else {
            entry_kinds(*old(doc)).insert(key@, true)
        }),
        tables_at(*final(doc), key@) == (if entry_kinds(*old(doc)).contains_key(key@) {
            tables_at(*old(doc), key@)
        } else {
            no_tables()
        }),
        other_items(*final(doc), key@) == other_items(*old(doc), key@),
        root_margins(*final(doc)) == root_margins(*old(doc)),
        entry_kinds(*old(doc)).contains_key(key@) ==> *final(doc) == *old(doc),
        !entry_kinds(*old(doc)).contains_key(key@) ==> root_order(*final(doc)) == root_order(
            *old(doc),
        ).push(key@),
        !entry_kinds(*old(doc)).contains_key(key@) ==> table_layouts(*final(doc), key@)
            == no_layouts(),
{
    let empty = Item::ArrayOfTables(ArrayOfTables::new());
    doc.as_table_mut().entry(key).or_insert(empty).is_array_of_tables()
}

/// `toml_edit::ArrayOfTables::push`: appends an empty table. The others are
/// written as they were.
#[verifier::external_body]
fn toml_push_table(doc: &mut DocumentMut, key: &str)
    requires
        entry_kinds(*old(doc)).contains_key(key@),
        entry_kinds(*old(doc))[key@],
    ensures
        edited(
            *old(doc),
            *final(doc),
            key@,
            tables_at(*old(doc), key@).push(no_fields()),
        ),
        table_appended(table_layouts(*old(doc), key@), table_layouts(*final(doc), key@)),
{
    if let Some(tables) = doc.get_mut(key).and_then(Item::as_array_of_tables_mut) {
        tables.push(Table::new());
    }
}

/// `toml_edit::Table::insert` of an item: sets a field of one table, replacing
/// what it held where it stands, or after the other fields. Nothing else is
/// written otherwise than before; how the field is written is not said.
#[verifier::external_body]
fn toml_set_text(doc: &mut DocumentMut, key: &str, index: usize, field: &str, text: &str)
    requires
        index < tables_at(*old(doc), key@).len(),
    ensures
        edited(
            *old(doc),
            *final(doc),
            key@,
            tables_at(*old(doc), key@).update(
                index as int,
                tables_at(*old(doc), key@)[index as int].insert(field@, Field::Text(text@)),
            ),
        ),
        field_rewritten(
            table_layouts(*old(doc), key@),
            table_layouts(*final(doc), key@),
            index as int,
            field@,
        ),
{
    let tables = doc.get_mut(key).and_then(Item::as_array_of_tables_mut);
    if let Some(table) = tables.and_then(|t| t.iter_mut().nth(index)) {
        table.insert(field, value(text));
    }
}

/// `toml_edit::Table::insert` of an array of texts.
#[verifier::external_body]
fn toml_set_texts(doc: &mut DocumentMut, key: &str, index: usize, field: &str, list: &Vec<String>)
    requires
        index < tables_at(*old(doc), key@).len(),
    ensures
        edited(
            *old(doc),
            *final(doc),
            key@,
            tables_at(*old(doc), key@).update(
                index as int,
                tables_at(*old(doc), key@)[index as int].insert(
                    field@,
                    Field::Texts(text::texts(list@)),
                ),
            ),
        ),
        field_rewritten(
            table_layouts(*old(doc), key@),
            table_layouts(*final(doc), key@),
            index as int,
            field@,
        ),
{
    let tables = doc.get_mut(key).and_then(Item::as_array_of_tables_mut);
    if let Some(table) = tables.and_then(|t| t.iter_mut().nth(index)) {
        table.insert(field, value(list.iter().collect::<Array>()));
    }
}

/// `toml_edit::Table::insert` of an integer.
#[verifier::external_body]
fn toml_set_number(doc: &mut DocumentMut, key: &str, index: usize, field: &str, number: i64)
    requires
        index < tables_at(*old(doc), key@).len(),
    ensures
        edited(
            *old(doc),
            *final(doc),
            key@,
            tables_at(*old(doc), key@).update(
                index as int,
                tables_at(*old(doc), key@)[index as int].insert(field@, Field::Number(number)),
            ),
        ),
        field_rewritten(
            table_layouts(*old(doc), key@),
            table_layouts(*final(doc), key@),
            index as int,
            field@,
        ),
{
    let tables = doc.get_mut(key).and_then(Item::as_array_of_tables_mut);
    if let Some(table) = tables.and_then(|t| t.iter_mut().nth(index)) {
        table.insert(field, value(number));
    }
}

/// `toml_edit::Table::remove`: drops a field of one table, if it is there. The
/// other fields keep their order and are written as they were.
#[verifier::external_body]
fn toml_remove(doc: &mut DocumentMut, key: &str, index: usize, field: &str)
    requires
        index < tables_at(*old(doc), key@).len(),
    ensures
        edited(
            *old(doc),
            *final(doc),
            key@,
            tables_at(*old(doc), key@).update(
                index as int,
                tables_at(*old(doc), key@)[index as int].remove(field@),
            ),
        ),
        table_layouts(*final(doc), key@) == table_layouts(*old(doc), key@).update(
            index as int,
            table_layouts(*old(doc), key@)[index as int].without(field@),
        ),
{
    let tables = doc.get_mut(key).and_then(Item::as_array_of_tables_mut);
    if let Some(table) = tables.and_then(|t| t.iter_mut().nth(index)) {
        table.remove(field);
    }
}

/// Read a config file as a document.
pub fn parse_document(text: &str) -> (r: Result<DocumentMut, String>)
    ensures
        parse_result(r) == toml_parsed(text@),
{
    toml_read(text)
}

/// The document as it is to be written.
pub fn document_to_string(doc: &DocumentMut) -> (r: String)
    ensures
        r@ == document_text(*doc),
{
    toml_write(doc)
}

// ---------------------------------------------------------------------------
// Macros
// ---------------------------------------------------------------------------

/// A macro to write.
#[derive(Debug, Clone)]
pub struct MacroEntry {
    pub combo: KeyCombo,
    pub name: Option<String>,
    pub command: HookCommand,
    pub timeout_secs: u64,
}

/// The content of a [`MacroEntry`].
pub struct MacroEntryView {
    pub combo: KeyCombo,
    pub name: Option<Seq<char>>,
    pub command: CommandView,
    pub timeout_secs: u64,
}

impl View for MacroEntry {
    type V = MacroEntryView;

    open spec fn view(&self) -> MacroEntryView {
        MacroEntryView {
            combo: self.combo,
            name: text::opt_text(self.name),
            command: self.command@,
            timeout_secs: self.timeout_secs,
        }
    }
}

/// Why a macro cannot be written.
#[derive(Debug, Clone, PartialEq, Eq)]
pub enum MacroError {
    /// `macro` exists but is not an array of tables (`macro = [{...}]` inline).
    NotTables,
    /// Another macro has the combo; its spelling.
    AlreadyBound(String),
}

impl MacroError {
    pub fn message(&self) -> (r: String)
        ensures
            r@ == match *self {
                MacroError::NotTables =>
                    "'macro' in the config is not a [[macro]] table array — edit it by hand"@,
                MacroError::AlreadyBound(combo) => combo@ + " is already bound"@,
            },
    {
        match self {
            MacroError::NotTables =>
                "'macro' in the config is not a [[macro]] table array — edit it by hand".to_owned(),
            MacroError::AlreadyBound(combo) => {
                let mut out = combo.clone();
                out.append(" is already bound");
                out
            },
        }
    }
}

/// Whether a table binds a combo, whatever the spelling: `Alt+Ctrl+KP1` and
/// `ctrl+alt+kp1` are the same binding.
pub open spec fn binds(table: Map<Seq<char>, Field>, combo: KeyCombo) -> bool {
    field_text(table, KEYS@) matches Some(spelling) && keys::parsed_combo(spelling) == Ok::<
        KeyCombo,
        ComboFault,
    >(combo)
}

/// The first of some tables that binds a combo.
pub open spec fn first_bound(tables: Seq<Map<Seq<char>, Field>>, combo: KeyCombo) -> Option<int>
    decreases tables.len(),
{
    if tables.len() == 0 {
        None
    } else {
        match first_bound(tables.drop_last(), combo) {
            Some(i) => Some(i),
            None => if binds(tables.last(), combo) {
                Some(tables.len() - 1)
            } else {
                None
            },
        }
    }
}

/// What a macro runs, as a field.
pub open spec fn run_field(command: CommandView) -> Field {
    match command {
        CommandView::Shell(line) => Field::Text(line),
        CommandView::Argv(argv) => Field::Texts(argv),
    }
}

/// A table filled from an entry; optional keys at their default are dropped,
/// so a replaced entry does not keep a stale name or timeout.
pub open spec fn filled(table: Map<Seq<char>, Field>, entry: MacroEntryView) -> Map<
    Seq<char>,
    Field,
> {
    let keyed = table.insert(KEYS@, Field::Text(entry.combo.spelling()));
    let named = match entry.name {
        Some(name) => keyed.insert(NAME@, Field::Text(name)),
        None => keyed.remove(NAME@),
    };
    let running = named.insert(RUN@, run_field(entry.command));
    if entry.timeout_secs == DEFAULT_TIMEOUT_SECS {
        running.remove(TIMEOUT@)
    } else {
        running.insert(TIMEOUT@, Field::Number(entry.timeout_secs as i64))
    }
}

/// The tables after an entry was appended, or with `replace` written over the
/// table already bound to the same combo; `None` where that table is in the
/// way.
pub open spec fn upserted(
    tables: Seq<Map<Seq<char>, Field>>,
    entry: MacroEntryView,
    replace: bool,
) -> Option<Seq<Map<Seq<char>, Field>>> {
    match first_bound(tables, entry.combo) {
        Some(i) => if replace {
            Some(tables.update(i, filled(tables[i], entry)))
        } else {
            None
        },
        None => Some(tables.push(filled(no_fields(), entry))),
    }
}

proof fn lemma_first_bound(tables: Seq<Map<Seq<char>, Field>>, combo: KeyCombo)
    ensures
        first_bound(tables, combo) matches Some(i) ==> 0 <= i < tables.len() && binds(
            tables[i],
            combo,
        ),
        first_bound(tables, combo) is None ==> forall|i: int|
            0 <= i < tables.len() ==> !binds(#[trigger] tables[i], combo),
    decreases tables.len(),
{
    if tables.len() > 0 {
        let init = tables.drop_last();
        lemma_first_bound(init, combo);
        assert forall|i: int| 0 <= i < init.len() implies init[i] == #[trigger] tables[i] by {}
    }
}

proof fn lemma_found_first(tables: Seq<Map<Seq<char>, Field>>, combo: KeyCombo, n: int)
    requires
        0 <= n <= tables.len(),
        first_bound(tables.take(n), combo) is Some,
    ensures
        first_bound(tables, combo) == first_bound(tables.take(n), combo),
    decreases tables.len() - n,
{
    if n < tables.len() {
        assert(tables.take(n + 1).drop_last() =~= tables.take(n));
        lemma_found_first(tables, combo, n + 1);
    } else {
        assert(tables.take(n) =~= tables);
    }
}

proof fn lemma_some_bound(tables: Seq<Map<Seq<char>, Field>>, combo: KeyCombo, i: int)
    requires
        0 <= i < tables.len(),
        binds(tables[i], combo),
    ensures
        first_bound(tables, combo) is Some,
{
    lemma_first_bound(tables, combo);
}

fn find_macro(doc: &DocumentMut, combo: KeyCombo) -> (r: Option<usize>)
    ensures
        match r {
            Some(i) => first_bound(tables_at(*doc, MACRO@), combo) == Some(i as int),
            None => first_bound(tables_at(*doc, MACRO@), combo) is None,
        },
        r matches Some(i) ==> i < tables_at(*doc, MACRO@).len() && i < table_layouts(
            *doc,
            MACRO@,
        ).len(),
{
    let ghost tables = tables_at(*doc, MACRO@);
    let count: usize = toml_table_count(doc, MACRO);
    let mut i: usize = 0;
    assert(tables.take(0) =~= Seq::empty());
    while i < count
        invariant
            i <= count,
            count == tables.len(),
            count == table_layouts(*doc, MACRO@).len(),
            tables == tables_at(*doc, MACRO@),
            first_bound(tables.take(i as int), combo) is None,
        decreases count - i,
    {
        assert(tables.take(i + 1).drop_last() =~= tables.take(i as int));
        if let Some(spelling) = toml_text(doc, MACRO, i, KEYS) {
            if let Ok(bound) = KeyCombo::from_str(spelling.as_str()) {
                if bound == combo {
                    proof {
                        assert(first_bound(tables.take(i + 1), combo) == Some(i as int));
                        lemma_found_first(tables, combo, i + 1);
                    }
                    return Some(i);
                }
            }
        }
        assert(!binds(tables[i as int], combo));
        i = i + 1;
    }
    assert(tables.take(i as int) =~= tables);
    None
}

/// Label of the macro already bound to `combo`: its name, or the combo.
pub fn existing_macro(doc: &DocumentMut, combo: KeyCombo) -> (r: Option<String>)
    ensures
        text::opt_text(r) == match first_bound(tables_at(*doc, MACRO@), combo) {
            Some(i) => Some(
                match field_text(tables_at(*doc, MACRO@)[i], NAME@) {
                    Some(name) => name,
                    None => combo.spelling(),
                },
            ),
            None => None::<Seq<char>>,
        },
{
    match find_macro(doc, combo) {
        None => None,
        Some(i) => match toml_text(doc, MACRO, i, NAME) {
            Some(name) => Some(name),
            None => Some(combo.to_string()),
        },
    }
}

/// The `[[macro]]` tables of the document, created empty if absent.
pub fn macro_tables(doc: &mut DocumentMut) -> (r: Result<(), MacroError>)
    ensures
        r is Ok <==> (!entry_kinds(*old(doc)).contains_key(MACRO@) || entry_kinds(
            *old(doc),
        )[MACRO@]),
        r is Err ==> r == Err::<(), MacroError>(MacroError::NotTables) && *final(doc) == *old(doc),
        r is Ok ==> {
            &&& entry_kinds(*final(doc)) == entry_kinds(*old(doc)).insert(MACRO@, true)
            &&& tables_at(*final(doc), MACRO@) == macros_of(*old(doc))
            &&& table_layouts(*final(doc), MACRO@) == layouts_of(*old(doc))
            &&& root_order(*final(doc)) == order_with_macros(*old(doc))
            &&& other_items(*final(doc), MACRO@) == other_items(*old(doc), MACRO@)
            &&& root_margins(*final(doc)) == root_margins(*old(doc))
        },
        entry_kinds(*old(doc)).contains_key(MACRO@) ==> *final(doc) == *old(doc),
{
    let ghost kinds = entry_kinds(*doc);
    if toml_ensure_tables(doc, MACRO) {
        assert(entry_kinds(*doc) =~= kinds.insert(MACRO@, true));
        Ok(())
    } else {
        Err(MacroError::NotTables)
    }
}

/// The macros of a document; none where there is no such key.
pub open spec fn macros_of(doc: DocumentMut) -> Seq<Map<Seq<char>, Field>> {
    if entry_kinds(doc).contains_key(MACRO@) {
        tables_at(doc, MACRO@)
    } else {
        Seq::empty()
    }
}

/// How the macros of a document are written; none where there is no such key.
pub open spec fn layouts_of(doc: DocumentMut) -> Seq<TableLayout> {
    if entry_kinds(doc).contains_key(MACRO@) {
        table_layouts(doc, MACRO@)
    } else {
        Seq::empty()
    }
}

/// The top-level keys of a document once it has macros.
pub open spec fn order_with_macros(doc: DocumentMut) -> Seq<Seq<char>> {
    if entry_kinds(doc).contains_key(MACRO@) {
        root_order(doc)
    } else {
        root_order(doc).push(MACRO@)
    }
}

/// A field that the tool knows nothing of.
pub open spec fn foreign(field: Seq<char>) -> bool {
    field != KEYS@ && field != NAME@ && field != RUN@ && field != TIMEOUT@
}

/// The foreign ones among some fields, in order.
pub open spec fn foreign_order(order: Seq<Seq<char>>) -> Seq<Seq<char>> {
    order.filter(|field: Seq<char>| foreign(field))
}

/// A table that was filled: what stands around its header is left as it was,
/// and so are the foreign fields, their order and what stands around them.
pub open spec fn written_over(before: TableLayout, after: TableLayout) -> bool {
    &&& after.header == before.header
    &&& foreign_order(after.order) == foreign_order(before.order)
    &&& forall|field: Seq<char>|
        foreign(field) ==> #[trigger] after.fields.contains_key(field)
            == before.fields.contains_key(field)
    &&& forall|field: Seq<char>|
        foreign(field) && before.fields.contains_key(field) ==> #[trigger] after.fields[field]
            == before.fields[field]
}

proof fn lemma_rewritten(before: TableLayout, after: TableLayout, field: Seq<char>)
    requires
        before.rewritten(after, field),
        !foreign(field),
    ensures
        written_over(before, after),
{
    reveal(Seq::filter);
    assert(before.order.push(field).drop_last() =~= before.order);
    assert forall|f: Seq<char>| foreign(f) implies #[trigger] after.fields.contains_key(f)
        == before.fields.contains_key(f) by {
        assert(after.fields.remove(field).contains_key(f) == before.fields.remove(
            field,
        ).contains_key(f));
    }
    assert forall|f: Seq<char>|
        foreign(f) && before.fields.contains_key(f) implies #[trigger] after.fields[f]
        == before.fields[f] by {
        assert(after.fields.remove(field)[f] == before.fields.remove(field)[f]);
    }
}

proof fn lemma_foreign_stay(order: Seq<Seq<char>>, field: Seq<char>)
    requires
        !foreign(field),
    ensures
        foreign_order(dropped_from(order, field)) == foreign_order(order),
    decreases order.len(),
{
    reveal(Seq::filter);
    if order.len() > 0 {
        let init = order.drop_last();
        lemma_foreign_stay(init, field);
        let kept = dropped_from(init, field);
        assert(kept.push(order.last()).drop_last() =~= kept);
    }
}

proof fn lemma_dropped(before: TableLayout, field: Seq<char>)
    requires
        !foreign(field),
    ensures
        written_over(before, before.without(field)),
{
    lemma_foreign_stay(before.order, field);
}

/// Whether a document is what writing a macro makes of an earlier one: the
/// macros are the upserted ones, a replaced table is written over where it
/// stands and a new one comes after the others, and everything else —
/// comments, order, other macros, other items — is as it was.
pub open spec fn macro_written(
    before: DocumentMut,
    after: DocumentMut,
    entry: MacroEntryView,
    replace: bool,
) -> bool {
    let layouts = table_layouts(after, MACRO@);
    &&& Some(tables_at(after, MACRO@)) == upserted(macros_of(before), entry, replace)
    &&& entry_kinds(after) == entry_kinds(before).insert(MACRO@, true)
    &&& root_order(after) == order_with_macros(before)
    &&& root_margins(after) == root_margins(before)
    &&& other_items(after, MACRO@) == other_items(before, MACRO@)
    &&& match first_bound(macros_of(before), entry.combo) {
        Some(i) => only_table_changed(layouts_of(before), layouts, i) && written_over(
            layouts_of(before)[i],
            layouts[i],
        ),
        None => layouts.len() == layouts_of(before).len() + 1 && layouts.drop_last() == layouts_of(
            before,
        ),
    }
}

/// Fill a table from an entry.
fn fill_table(doc: &mut DocumentMut, index: usize, entry: &MacroEntry)
    requires
        index < tables_at(*old(doc), MACRO@).len(),
        index < table_layouts(*old(doc), MACRO@).len(),
        entry.timeout_secs <= i64::MAX,
    ensures
        edited(
            *old(doc),
            *final(doc),
            MACRO@,
            tables_at(*old(doc), MACRO@).update(
                index as int,
                filled(tables_at(*old(doc), MACRO@)[index as int], entry@),
            ),
        ),
        entry.combo.writable() ==> binds(
            filled(tables_at(*old(doc), MACRO@)[index as int], entry@),
            entry.combo,
        ),
        only_table_changed(
            table_layouts(*old(doc), MACRO@),
            table_layouts(*final(doc), MACRO@),
            index as int,
        ),
        written_over(
            table_layouts(*old(doc), MACRO@)[index as int],
            table_layouts(*final(doc), MACRO@)[index as int],
        ),
{
    let ghost before = tables_at(*doc, MACRO@);
    let ghost start = table_layouts(*doc, MACRO@);
    let spelling = entry.combo.to_string();
    toml_set_text(doc, MACRO, index, KEYS, spelling.as_str());
    let ghost keyed = table_layouts(*doc, MACRO@);
    proof {
        lemma_rewritten(start[index as int], keyed[index as int], KEYS@);
    }
    match &entry.name {
        Some(name) => {
            toml_set_text(doc, MACRO, index, NAME, name.as_str());
        },
        None => {
            toml_remove(doc, MACRO, index, NAME);
        },
    }
    let ghost named = table_layouts(*doc, MACRO@);
    proof {
        if entry.name is Some {
            lemma_rewritten(keyed[index as int], named[index as int], NAME@);
        } else {
            lemma_dropped(keyed[index as int], NAME@);
        }
    }
    match &entry.command {
        HookCommand::Shell(line) => {
            toml_set_text(doc, MACRO, index, RUN, line.as_str());
        },
        HookCommand::Argv(argv) => {
            toml_set_texts(doc, MACRO, index, RUN, argv);
        },
    }
    let ghost running = table_layouts(*doc, MACRO@);
    proof {
        lemma_rewritten(named[index as int], running[index as int], RUN@);
    }
    if entry.timeout_secs == DEFAULT_TIMEOUT_SECS {
        toml_remove(doc, MACRO, index, TIMEOUT);
    } else {
        toml_set_number(doc, MACRO, index, TIMEOUT, entry.timeout_secs as i64);
    }
    proof {
        reveal_strlit("keys");
        reveal_strlit("name");
        reveal_strlit("run");
        reveal_strlit("timeout_secs");
        assert(KEYS@.len() == 4 && NAME@.len() == 4 && KEYS@[0] == 'k' && NAME@[0] == 'n');
        assert(RUN@.len() == 3 && TIMEOUT@.len() == 12);
        let made = filled(before[index as int], entry@);
        assert(tables_at(*doc, MACRO@) =~= before.update(index as int, made));
        assert(field_text(made, KEYS@) == Some(entry.combo.spelling()));
        let timed = table_layouts(*doc, MACRO@);
        if entry.timeout_secs == DEFAULT_TIMEOUT_SECS {
            lemma_dropped(running[index as int], TIMEOUT@);
        } else {
            lemma_rewritten(running[index as int], timed[index as int], TIMEOUT@);
        }
    }
}

/// Append `entry` as a new `[[macro]]`, or with `replace` overwrite the table
/// already bound to the same combo. Everything else in the document — comments,
/// ordering, other tables — is left as it was; where nothing is written, so is
/// the whole document.
pub fn upsert_macro(doc: &mut DocumentMut, entry: &MacroEntry, replace: bool) -> (r: Result<
    (),
    MacroError,
>)
    requires
        entry.timeout_secs <= i64::MAX,
    ensures
        r is Ok <==> (!entry_kinds(*old(doc)).contains_key(MACRO@) || entry_kinds(
            *old(doc),
        )[MACRO@]) && upserted(macros_of(*old(doc)), entry@, replace) is Some,
        r is Ok ==> {
            &&& macro_written(*old(doc), *final(doc), entry@, replace)
            &&& entry.combo.writable() ==> first_bound(
                tables_at(*final(doc), MACRO@),
                entry.combo,
            ) is Some
        },
        r matches Err(e) ==> {
            &&& *final(doc) == *old(doc)
            &&& match e {
                MacroError::NotTables => entry_kinds(*old(doc)).contains_key(MACRO@)
                    && !entry_kinds(*old(doc))[MACRO@],
                MacroError::AlreadyBound(spelling) => spelling@ == entry.combo.spelling()
                    && upserted(macros_of(*old(doc)), entry@, replace) is None,
            }
        },
{
    let ghost kinds = entry_kinds(*doc);
    match macro_tables(doc) {
        Err(e) => return Err(e),
        Ok(()) => {},
    }
    let ghost tables = tables_at(*doc, MACRO@);
    assert(kinds.contains_key(MACRO@) ==> kinds.insert(MACRO@, true) =~= kinds);
    match find_macro(doc, entry.combo) {
        Some(i) => {
            if !replace {
                proof {
                    lemma_first_bound(tables, entry.combo);
                }
                return Err(MacroError::AlreadyBound(entry.combo.to_string()));
            }
            fill_table(doc, i, entry);
            proof {
                if entry.combo.writable() {
                    lemma_some_bound(tables_at(*doc, MACRO@), entry.combo, i as int);
                }
            }
        },
        None => {
            let count: usize = toml_table_count(doc, MACRO);
            toml_push_table(doc, MACRO);
            fill_table(doc, count, entry);
            proof {
                let layouts = table_layouts(*doc, MACRO@);
                assert(tables_at(*doc, MACRO@) =~= tables.push(filled(no_fields(), entry@)));
                assert(layouts.drop_last() =~= layouts_of(*old(doc)));
                if entry.combo.writable() {
                    lemma_some_bound(tables_at(*doc, MACRO@), entry.combo, count as int);
                }
            }
        },
    }
    Ok(())
}

/// The entry as it will look in the file, for the confirmation printout: a
/// document of this one macro, as it is written.
pub fn render_entry(entry: &MacroEntry) -> (r: String)
    requires
        entry.timeout_secs <= i64::MAX,
    ensures
        exists|doc: DocumentMut| #[trigger]
            document_text(doc) == r@ && tables_at(doc, MACRO@) == seq![
                filled(no_fields(), entry@),
            ] && entry_kinds(doc) == no_entries().insert(MACRO@, true) && root_order(doc)
                == seq![MACRO@],
{
    let mut doc = toml_empty();
    toml_ensure_tables(&mut doc, MACRO);
    toml_push_table(&mut doc, MACRO);
    fill_table(&mut doc, 0, entry);
    assert(tables_at(doc, MACRO@) =~= seq![filled(no_fields(), entry@)]);
    assert(root_order(doc) =~= seq![MACRO@]);
    toml_write(&doc)
}

// ---------------------------------------------------------------------------
// Laws
// ---------------------------------------------------------------------------

/// Writing a macro leaves every other macro as it was, where it was.
pub proof fn law_other_macros_are_kept(
    tables: Seq<Map<Seq<char>, Field>>,
    entry: MacroEntryView,
    replace: bool,
    i: int,
)
    requires
        0 <= i < tables.len(),
        !binds(tables[i], entry.combo),
    ensures
        upserted(tables, entry, replace) matches Some(after) ==> after.len() >= tables.len()
            && after[i] == tables[i],
{
    lemma_first_bound(tables, entry.combo);
}

/// Writing a macro leaves the text of every other macro alone, comments
/// included, and that of a replaced one outside the fields the tool knows.
pub proof fn law_other_text_is_kept(
    before: DocumentMut,
    after: DocumentMut,
    entry: MacroEntryView,
    replace: bool,
    i: int,
)
    requires
        macro_written(before, after, entry, replace),
        0 <= i < layouts_of(before).len(),
        i < macros_of(before).len(),
    ensures
        ({
            let layout = table_layouts(after, MACRO@)[i];
            &&& !binds(macros_of(before)[i], entry.combo) ==> layout == layouts_of(before)[i]
            &&& written_over(layouts_of(before)[i], layout)
        }),
{
    lemma_first_bound(macros_of(before), entry.combo);
    if first_bound(macros_of(before), entry.combo) is None {
        assert(table_layouts(after, MACRO@).drop_last()[i] == layouts_of(before)[i]);
    }
}

/// Replacing keeps the number of macros; otherwise there is one more, at the
/// end.
pub proof fn law_one_macro_is_written(
    tables: Seq<Map<Seq<char>, Field>>,
    entry: MacroEntryView,
    replace: bool,
)
    ensures
        upserted(tables, entry, replace) matches Some(after) ==> after.len() == tables.len() + (
        if first_bound(tables, entry.combo) is Some {
            0int
        } else {
            1int
        }),
        first_bound(tables, entry.combo) is None ==> upserted(tables, entry, replace) is Some,
        upserted(tables, entry, true) is Some,
{
    lemma_first_bound(tables, entry.combo);
}

/// Fields of a macro that the tool knows nothing of survive a replacement.
pub proof fn law_foreign_fields_survive(
    table: Map<Seq<char>, Field>,
    entry: MacroEntryView,
    field: Seq<char>,
)
    requires
        field != KEYS@,
        field != NAME@,
        field != RUN@,
        field != TIMEOUT@,
    ensures
        filled(table, entry).contains_key(field) == table.contains_key(field),
        table.contains_key(field) ==> filled(table, entry)[field] == table[field],
{
}

/// What is written does not depend on what a replaced table said before in the
/// fields the tool knows.
pub proof fn law_no_stale_fields(
    a: Map<Seq<char>, Field>,
    b: Map<Seq<char>, Field>,
    entry: MacroEntryView,
    field: Seq<char>,
)
    requires
        field == KEYS@ || field == NAME@ || field == RUN@ || field == TIMEOUT@,
    ensures
        filled(a, entry).contains_key(field) == filled(b, entry).contains_key(field),
        filled(a, entry).contains_key(field) ==> filled(a, entry)[field] == filled(
            b,
            entry,
        )[field],
{
}

/// What a written macro says: its keys as they are spelled, its name if it has
/// one, what it runs as a text or a list, and its timeout unless that is ten
/// seconds.
pub proof fn law_written_fields(table: Map<Seq<char>, Field>, entry: MacroEntryView)
    requires
        entry.timeout_secs <= i64::MAX,
    ensures
        ({
            let t = filled(table, entry);
            &&& t.contains_key("keys"@) && t["keys"@] == Field::Text(entry.combo.spelling())
            &&& t.contains_key("name"@) <==> entry.name is Some
            &&& entry.name is Some ==> t["name"@] == Field::Text(entry.name->0)
            &&& t.contains_key("run"@)
            &&& entry.command is Shell ==> t["run"@] == Field::Text(entry.command->Shell_0)
            &&& entry.command is Argv ==> t["run"@] == Field::Texts(entry.command->Argv_0)
            &&& t.contains_key("timeout_secs"@) <==> entry.timeout_secs != 10
            &&& entry.timeout_secs != 10 ==> t["timeout_secs"@] == Field::Number(
                entry.timeout_secs as i64,
            )
        }),
        MACRO@ == "macro"@,
        KEYS@ == "keys"@,
        NAME@ == "name"@,
        RUN@ == "run"@,
        TIMEOUT@ == "timeout_secs"@,
{
    reveal_strlit("keys");
    reveal_strlit("name");
    reveal_strlit("run");
    reveal_strlit("timeout_secs");
    assert(KEYS@.len() == 4 && NAME@.len() == 4 && KEYS@[0] == 'k' && NAME@[0] == 'n');
    assert(RUN@.len() == 3 && TIMEOUT@.len() == 12);
}

/// A macro is bound where the text under `keys` spells its combo, and the
/// first such table is the one that counts.
pub proof fn law_first_binding_counts(
    tables: Seq<Map<Seq<char>, Field>>,
    combo: KeyCombo,
    i: int,
)
    requires
        0 <= i < tables.len(),
    ensures
        binds(tables[i], combo) <==> tables[i].contains_key("keys"@) && tables[i]["keys"@] is Text
            && keys::parsed_combo(tables[i]["keys"@]->Text_0) == Ok::<KeyCombo, ComboFault>(combo),
        binds(tables[i], combo) && (forall|j: int|
            0 <= j < i ==> !binds(#[trigger] tables[j], combo)) ==> first_bound(tables, combo)
            == Some(i),
        (forall|j: int| 0 <= j < tables.len() ==> !binds(#[trigger] tables[j], combo))
            ==> first_bound(tables, combo) is None,
{
    lemma_first_bound_exact(tables, combo);
}

proof fn lemma_first_bound_exact(tables: Seq<Map<Seq<char>, Field>>, combo: KeyCombo)
    ensures
        match first_bound(tables, combo) {
            Some(i) => 0 <= i < tables.len() && binds(tables[i], combo) && forall|j: int|
                0 <= j < i ==> !binds(#[trigger] tables[j], combo),
            None => forall|j: int| 0 <= j < tables.len() ==> !binds(#[trigger] tables[j], combo),
        },
    decreases tables.len(),
{
    if tables.len() > 0 {
        let init = tables.drop_last();
        lemma_first_bound_exact(init, combo);
        assert forall|j: int| 0 <= j < init.len() implies init[j] == #[trigger] tables[j] by {}
    }
}

/// Where a macro goes: over the first table bound to its combo if replacing is
/// allowed, nowhere if not, and after all others where none is bound.
pub proof fn law_where_a_macro_goes(
    tables: Seq<Map<Seq<char>, Field>>,
    entry: MacroEntryView,
    replace: bool,
    i: int,
)
    ensures
        0 <= i < tables.len() && first_bound(tables, entry.combo) == Some(i) && replace ==> upserted(
            tables,
            entry,
            replace,
        ) == Some(tables.update(i, filled(tables[i], entry))),
        first_bound(tables, entry.combo) is Some && !replace ==> upserted(
            tables,
            entry,
            replace,
        ) is None,
        first_bound(tables, entry.combo) is None ==> upserted(tables, entry, replace) is Some && (
        upserted(tables, entry, replace)->0).len() == tables.len() + 1 && (upserted(
            tables,
            entry,
            replace,
        )->0).last() == filled(no_fields(), entry) && (upserted(
            tables,
            entry,
            replace,
        )->0).drop_last() == tables,
{
    assert(tables.push(filled(no_fields(), entry)).drop_last() =~= tables);
}

} // verus!
