//! Adding a typo to the words that a typos configuration file accepts, keeping the
//! comments and layout of the file.

use toml_edit::{DocumentMut, Table, TomlError};
use vstd::prelude::*;
use vstd::string::StringExecFns;

verus! {

#[verifier::external_type_specification]
#[verifier::external_body]
pub struct ExDocumentMut(DocumentMut);

#[verifier::external_type_specification]
#[verifier::external_body]
pub struct ExTable(Table);

#[verifier::external_type_specification]
#[verifier::external_body]
pub struct ExTomlError(TomlError);

/// Name of the table of general settings of a typos configuration.
pub const DEFAULT_TABLE: &'static str = "default";

/// Name of the table of accepted words, inside the default table.
pub const EXTEND_WORDS_TABLE: &'static str = "extend-words";

/// What an entry of a TOML table holds.
pub enum Node {
    /// A table (`Item::Table`; an inline table is a value).
    Table,
    /// A string value (`Value::String`), with its text.
    Text(Seq<char>),
    /// Any other item: another value or an array of tables.
    Other,
    /// An entry that holds no item (`Item::None`).
    Empty,
}

/// The shape of a TOML table: for each key path that leads through tables to an
/// entry, what that entry holds; the empty path stands for the table itself.
pub type Shape = Map<Seq<Seq<char>>, Node>;

/// The shape of the document that `toml_edit` parses from `input`, or `None` when
/// `input` is not TOML.
pub uninterp spec fn toml_parsed(input: Seq<char>) -> Option<Shape>;

/// The shape of the entries that a `toml_edit` document holds, entries that hold no
/// item included: at the empty path its root item, then the keys of its root table,
/// and under each entry that holds an `Item::Table` the keys of that table, and so on.
pub uninterp spec fn document_shape(doc: DocumentMut) -> Shape;

/// The shape of the entries that a `toml_edit` table holds, read as for a document
/// whose root item is that table.
pub uninterp spec fn table_shape(table: Table) -> Shape;

/// The table under the entry `key` of `shape`, with paths relative to it.
pub open spec fn subshape(shape: Shape, key: Seq<char>) -> Shape {
    Map::new(
        |p: Seq<Seq<char>>| p.len() == 0 || shape.contains_key(seq![key] + p),
        |p: Seq<Seq<char>>| if p.len() == 0 { Node::Table } else { shape[seq![key] + p] },
    )
}

/// Whether path `p` goes through or ends at the item `key`.
pub open spec fn under(p: Seq<Seq<char>>, key: Seq<char>) -> bool {
    p.len() > 0 && p[0] == key
}

/// `shape` with the item `key` replaced by a table of shape `child`.
pub open spec fn graft(shape: Shape, key: Seq<char>, child: Shape) -> Shape {
    Map::new(
        |p: Seq<Seq<char>>|
            (shape.contains_key(p) && !under(p, key)) || p == seq![key] || (p.len() > 1 && p[0]
                == key && child.contains_key(p.drop_first())),
        |p: Seq<Seq<char>>|
            if p == seq![key] {
                Node::Table
            } else if under(p, key) {
                child[p.drop_first()]
            } else {
                shape[p]
            },
    )
}

/// `shape` with the entry `key` replaced by the string `value`.
pub open spec fn set_value(shape: Shape, key: Seq<char>, value: Seq<char>) -> Shape {
    Map::new(
        |p: Seq<Seq<char>>| (shape.contains_key(p) && !under(p, key)) || p == seq![key],
        |p: Seq<Seq<char>>| if p == seq![key] { Node::Text(value) } else { shape[p] },
    )
}

/// Whether `shape` has an entry `key` that holds something other than a table.
pub open spec fn holds_non_table(shape: Shape, key: Seq<char>) -> bool {
    shape.contains_key(seq![key]) && shape[seq![key]] != Node::Table
}

/// Parses `input` with `<DocumentMut as FromStr>::from_str`. Whether it succeeds and
/// the shape of the document depend on `input` alone; they are named `toml_parsed`.
/// The parser makes the root item a table.
#[verifier::external_body]
fn parse_document(input: &str) -> (r: Result<DocumentMut, TomlError>)
    ensures
        r is Ok <==> toml_parsed(input@) is Some,
        r matches Ok(d) ==> toml_parsed(input@) == Some(document_shape(d)),
        r matches Ok(d) ==> document_shape(d).contains_key(seq![]) && document_shape(d)[seq![]]
            == Node::Table,
{
    input.parse::<DocumentMut>()
}

/// The root table of `doc`, by `DocumentMut::as_item_mut` and `Item::as_table_mut`:
/// `None`, with `doc` left as it was, when the root item is not a table.
#[verifier::external_body]
fn root_table(doc: &mut DocumentMut) -> (r: Option<&mut Table>)
    ensures
        r is Some <==> document_shape(*old(doc)).contains_key(seq![]) && document_shape(
            *old(doc),
        )[seq![]] == Node::Table,
        r is None ==> document_shape(*final(doc)) == document_shape(*old(doc)),
        match r {
            Some(t) => {
                &&& table_shape(*t) == document_shape(*old(doc))
                &&& document_shape(*final(doc)) == table_shape(*final(t))
            },
            None => true,
        },
{
    doc.as_item_mut().as_table_mut()
}

/// `Table::entry(key)` with `Entry::or_insert(toml_edit::table())`, then
/// `Item::as_table_mut`: the table under `key`, inserted empty when the key is absent;
/// `None`, with `table` left as it was, when the entry under `key` holds something
/// other than a table.
#[verifier::external_body]
fn table_entry<'a>(table: &'a mut Table, key: &str) -> (r: Option<&'a mut Table>)
    ensures
        r is Some <==> !holds_non_table(table_shape(*old(table)), key@),
        r is None ==> table_shape(*final(table)) == table_shape(*old(table)),
        match r {
            Some(t) => {
                &&& table_shape(*t) == subshape(table_shape(*old(table)), key@)
                &&& table_shape(*final(table)) == graft(
                    table_shape(*old(table)),
                    key@,
                    table_shape(*final(t)),
                )
            },
            None => true,
        },
{
    table.entry(key).or_insert(toml_edit::table()).as_table_mut()
}

/// Sets the entry `key` of `table` to the string `value`, through
/// `IndexMut<&str> for Table` and `toml_edit::value`; any item that was there, with
/// all it held, is replaced.
#[verifier::external_body]
fn set_string(table: &mut Table, key: &str, value: &str)
    ensures
        table_shape(*final(table)) == set_value(table_shape(*old(table)), key@, value@),
{
    table[key] = toml_edit::value(value);
}

/// Why a typo could not be added to a configuration file.
#[derive(PartialEq, Eq, Structural, Clone, Copy, Debug)]
pub enum ConfigEditError {
    /// The file is not valid TOML.
    Parse,
    /// The file has a `default` entry that is not a table.
    DefaultNotTable,
    /// The `default` table has an `extend-words` entry that is not a table.
    ExtendWordsNotTable,
}

impl ConfigEditError {
    /// The message of the error for the configuration file at `path`.
    pub fn message(&self, path: &str) -> (r: String)
        ensures
            *self == ConfigEditError::Parse ==> r@ == "Cannot parse config file at "@ + path@,
            *self == ConfigEditError::DefaultNotTable ==> r@ == "Cannot get 'default' table"@,
            *self == ConfigEditError::ExtendWordsNotTable ==> r@
                == "Cannot get 'extend-words' table"@,
    {
        match self {
            ConfigEditError::Parse => {
                let mut m = String::from_str("Cannot parse config file at ");
                m.append(path);
                m
            },
            ConfigEditError::DefaultNotTable => String::from_str("Cannot get 'default' table"),
            ConfigEditError::ExtendWordsNotTable => String::from_str(
                "Cannot get 'extend-words' table",
            ),
        }
    }
}

/// The outcome of adding `typo` to a document of shape `shape`: the error, or the
/// shape of the new document, where `default` and `default.extend-words` are tables
/// and `default.extend-words.<typo>` is the string `typo`.
pub open spec fn typo_added(shape: Shape, typo: Seq<char>) -> Result<Shape, ConfigEditError> {
    let d = DEFAULT_TABLE@;
    let w = EXTEND_WORDS_TABLE@;
    if holds_non_table(shape, d) {
        Err(ConfigEditError::DefaultNotTable)
    } else if holds_non_table(subshape(shape, d), w) {
        Err(ConfigEditError::ExtendWordsNotTable)
    } else {
        Ok(
            graft(
                shape,
                d,
                graft(
                    subshape(shape, d),
                    w,
                    set_value(subshape(subshape(shape, d), w), typo, typo),
                ),
            ),
        )
    }
}

/// Whether adding `typo` sets the entry at path `p`: `default`,
/// `default.extend-words`, `default.extend-words.<typo>` or a path under the last.
pub open spec fn set_by_adding(p: Seq<Seq<char>>, typo: Seq<char>) -> bool {
    let d = DEFAULT_TABLE@;
    let w = EXTEND_WORDS_TABLE@;
    p == seq![d] || p == seq![d, w] || (p.len() >= 3 && p[0] == d && p[1] == w && p[2] == typo)
}

/// Adding a typo records it: `default` and `default.extend-words` are tables and
/// `default.extend-words.<typo>` is the string `typo`, with nothing under it; every
/// other entry, table or value, is kept as it was, and no other entry is added.
pub proof fn law_typo_recorded(shape: Shape, typo: Seq<char>)
    requires
        typo_added(shape, typo) is Ok,
    ensures
        ({
            let s = typo_added(shape, typo)->Ok_0;
            let d = DEFAULT_TABLE@;
            let w = EXTEND_WORDS_TABLE@;
            &&& s.contains_key(seq![d]) && s[seq![d]] == Node::Table
            &&& s.contains_key(seq![d, w]) && s[seq![d, w]] == Node::Table
            &&& s.contains_key(seq![d, w, typo]) && s[seq![d, w, typo]] == Node::Text(typo)
            &&& forall|p: Seq<Seq<char>>|
                p.len() > 3 && set_by_adding(p, typo) ==> !#[trigger] s.contains_key(p)
            &&& forall|p: Seq<Seq<char>>|
                !set_by_adding(p, typo) ==> (#[trigger] s.contains_key(p) <==> shape.contains_key(
                    p,
                ))
            &&& forall|p: Seq<Seq<char>>|
                !set_by_adding(p, typo) && shape.contains_key(p) ==> #[trigger] s[p] == shape[p]
        }),
{
    let d = DEFAULT_TABLE@;
    let w = EXTEND_WORDS_TABLE@;
    let c0 = subshape(shape, d);
    let e0 = subshape(c0, w);
    let v = set_value(e0, typo, typo);
    let g = graft(c0, w, v);
    let s = graft(shape, d, g);
    assert(typo_added(shape, typo) == Ok::<Shape, ConfigEditError>(s));
    assert(seq![d, w].drop_first() == seq![w]);
    assert(seq![d, w, typo].drop_first() == seq![w, typo]);
    assert(seq![w, typo].drop_first() == seq![typo]);
    assert forall|p: Seq<Seq<char>>| p.len() > 3 && set_by_adding(p, typo) implies !#[trigger] s.contains_key(p) by {
        let q = p.drop_first();
        let r = q.drop_first();
        assert(q[0] == w && r[0] == typo && r.len() > 1);
    }
    assert forall|p: Seq<Seq<char>>| !set_by_adding(p, typo) implies (#[trigger] s.contains_key(p)
        <==> shape.contains_key(p)) && (shape.contains_key(p) ==> s[p] == shape[p]) by {
        if p.len() > 1 && p[0] == d {
            let q = p.drop_first();
            assert(seq![d] + q =~= p);
            if q[0] == w {
                let r = q.drop_first();
                assert(seq![w] + r =~= q);
                if q.len() == 1 {
                    assert(q =~= seq![w]);
                    assert(p =~= seq![d, w]);
                }
                assert(q.len() > 1);
                assert(r[0] != typo);
                assert(r.len() > 0);
            }
        } else if p.len() == 1 && p[0] == d {
            assert(p =~= seq![d]);
        }
    }
}

proof fn lemma_subshape_of_graft(shape: Shape, key: Seq<char>, child: Shape)
    requires
        child.contains_key(Seq::<Seq<char>>::empty()),
        child[Seq::<Seq<char>>::empty()] == Node::Table,
    ensures
        subshape(graft(shape, key, child), key) == child,
{
    let g = graft(shape, key, child);
    assert forall|p: Seq<Seq<char>>| #[trigger] subshape(g, key).contains_key(p) <==> child.contains_key(p) by {
        if p.len() == 0 {
            assert(p =~= Seq::<Seq<char>>::empty());
        }
        assert((seq![key] + p).drop_first() == p);
        assert((seq![key] + p).len() == p.len() + 1);
        assert((seq![key] + p)[0] == key);
    }
    assert forall|p: Seq<Seq<char>>| #[trigger] child.contains_key(p) implies subshape(g, key)[p] == child[p] by {
        if p.len() == 0 {
            assert(p =~= Seq::<Seq<char>>::empty());
        }
        assert((seq![key] + p).drop_first() == p);
        assert((seq![key] + p)[0] == key);
    }
    assert(subshape(g, key) =~= child);
}

proof fn lemma_graft_twice(shape: Shape, key: Seq<char>, child: Shape)
    ensures
        graft(graft(shape, key, child), key, child) == graft(shape, key, child),
{
    assert(graft(graft(shape, key, child), key, child) =~= graft(shape, key, child));
}

proof fn lemma_set_value_twice(shape: Shape, key: Seq<char>, value: Seq<char>)
    ensures
        set_value(set_value(shape, key, value), key, value) == set_value(shape, key, value),
{
    assert(set_value(set_value(shape, key, value), key, value) =~= set_value(shape, key, value));
}

/// Adding the same typo a second time changes nothing more.
pub proof fn law_add_typo_idempotent(shape: Shape, typo: Seq<char>)
    requires
        typo_added(shape, typo) is Ok,
    ensures
        typo_added(typo_added(shape, typo)->Ok_0, typo) == typo_added(shape, typo),
{
    let d = DEFAULT_TABLE@;
    let w = EXTEND_WORDS_TABLE@;
    let c0 = subshape(shape, d);
    let e0 = subshape(c0, w);
    let v = set_value(e0, typo, typo);
    let g = graft(c0, w, v);
    let s = graft(shape, d, g);
    assert(typo_added(shape, typo) == Ok::<Shape, ConfigEditError>(s));
    law_typo_recorded(shape, typo);
    lemma_subshape_of_graft(shape, d, g);
    lemma_subshape_of_graft(c0, w, v);
    lemma_set_value_twice(e0, typo, typo);
    lemma_graft_twice(c0, w, v);
    lemma_graft_twice(shape, d, g);
}

/// Adds `typo = "typo"` to the `[default.extend-words]` table of the TOML document
/// `input`, creating the tables that are missing, and keeps everything else of the
/// document. It fails when `input` is not TOML, or when `default` or
/// `default.extend-words` is there but is not a table.
pub fn add_typo(input: &str, typo: &str) -> (r: Result<DocumentMut, ConfigEditError>)
    ensures
        r == Err::<DocumentMut, ConfigEditError>(ConfigEditError::Parse) <==> toml_parsed(
            input@,
        ) is None,
        toml_parsed(input@) matches Some(shape) ==> match (r, typo_added(shape, typo@)) {
            (Ok(d), Ok(s)) => document_shape(d) == s,
            (Err(e), Err(f)) => e == f,
            _ => false,
        },
{
    let mut document = match parse_document(input) {
        Ok(d) => d,
        Err(_) => {
            return Err(ConfigEditError::Parse);
        },
    };
    let ghost shape = document_shape(document);
    {
        let root = match root_table(&mut document) {
            Some(t) => t,
            None => {
                return Err(ConfigEditError::Parse);
            },
        };
        let default = match table_entry(root, DEFAULT_TABLE) {
            Some(t) => t,
            None => {
                return Err(ConfigEditError::DefaultNotTable);
            },
        };
        let extend_words = match table_entry(default, EXTEND_WORDS_TABLE) {
            Some(t) => t,
            None => {
                return Err(ConfigEditError::ExtendWordsNotTable);
            },
        };
        set_string(extend_words, typo, typo);
    }
    Ok(document)
}

} // verus!
