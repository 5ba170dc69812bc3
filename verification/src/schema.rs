//! The vector table schema: one source text column plus one fixed-width
//! embedding column per space, each embedding column bound to a registry
//! name so the table can recompute its vectors and be reopened safely.
//!
//! On startup the index either opens an existing table whose schema matches
//! the expected one, or creates the table from scratch. An existing table
//! with an incompatible schema (wrong width, missing column, different
//! binding) is a fatal startup error; no migration is attempted.

use vstd::prelude::*;
use crate::embedding::ColumnKind;
use crate::WordStoreError;

verus! {

/// One column of the vector table: its name, its declared type, and, for
/// an embedding column, the registry name that populates it.
pub struct ColumnSpec {
    pub name: String,
    pub kind: ColumnKind,
    pub embedding: Option<String>,
}

/// The spec-level shape of one column.
pub ghost struct ColumnView {
    pub name: Seq<char>,
    pub kind: ColumnKind,
    pub embedding: Option<Seq<char>>,
}

impl View for ColumnSpec {
    type V = ColumnView;

    open spec fn view(&self) -> ColumnView {
        ColumnView {
            name: self.name@,
            kind: self.kind,
            embedding: match self.embedding {
                Option::Some(s) => Option::Some(s@),
                Option::None => Option::None,
            },
        }
    }
}

/// A table schema: a list of columns.
pub struct TableSchema {
    pub columns: Vec<ColumnSpec>,
}

impl View for TableSchema {
    type V = Seq<ColumnView>;

    open spec fn view(&self) -> Seq<ColumnView> {
        self.columns@.map_values(|c: ColumnSpec| c@)
    }
}

/// The expected schema, column by column: the source text column `word`,
/// a 768-wide `meaning_embed` column bound to the `meaning` registration,
/// and a 150-wide `ngram_vector` column bound to the `ngram` registration.
pub open spec fn spec_expected_schema() -> Seq<ColumnView> {
    seq![
        ColumnView { name: "word"@, kind: ColumnKind::Utf8, embedding: Option::None },
        ColumnView {
            name: "meaning_embed"@,
            kind: ColumnKind::FixedSizeList(768),
            embedding: Option::Some("meaning"@),
        },
        ColumnView {
            name: "ngram_vector"@,
            kind: ColumnKind::FixedSizeList(150),
            embedding: Option::Some("ngram"@),
        },
    ]
}

/// Builds the expected schema.
pub fn expected_schema() -> (r: TableSchema)
    ensures
        r@ =~= spec_expected_schema(),
{
    let mut columns: Vec<ColumnSpec> = Vec::new();
    columns.push(
        ColumnSpec { name: "word".to_owned(), kind: ColumnKind::Utf8, embedding: Option::None },
    );
    columns.push(
        ColumnSpec {
            name: "meaning_embed".to_owned(),
            kind: ColumnKind::FixedSizeList(768),
            embedding: Option::Some("meaning".to_owned()),
        },
    );
    columns.push(
        ColumnSpec {
            name: "ngram_vector".to_owned(),
            kind: ColumnKind::FixedSizeList(150),
            embedding: Option::Some("ngram".to_owned()),
        },
    );
    TableSchema { columns }
}

/// Two schemas are compatible when they have the same columns, in order:
/// same name, same declared type, same embedding binding.
pub open spec fn schemas_compatible(a: Seq<ColumnView>, b: Seq<ColumnView>) -> bool {
    &&& a.len() == b.len()
    &&& forall|i: int| 0 <= i < a.len() ==> #[trigger] a[i] == b[i]
}

/// Whether two optional registry names agree.
fn embedding_names_agree(a: &Option<String>, b: &Option<String>) -> (r: bool)
    ensures
        r == (match (a, b) {
            (Option::Some(x), Option::Some(y)) => x@ == y@,
            (Option::None, Option::None) => true,
            _ => false,
        }),
{
    match (a, b) {
        (Option::Some(x), Option::Some(y)) => crate::text::str_eq(x.as_str(), y.as_str()),
        (Option::None, Option::None) => true,
        _ => false,
    }
}

/// Checks column-by-column compatibility of two schemas.
pub fn check_compatible(a: &TableSchema, b: &TableSchema) -> (r: bool)
    ensures
        r == schemas_compatible(a@, b@),
{
    let n = a.columns.len();
    if b.columns.len() != n {
        return false;
    }
    let mut i: usize = 0;
    while i < n
        invariant
            n == a.columns@.len(),
            n == b.columns@.len(),
            i <= n,
            forall|j: int| 0 <= j < i ==> a@[j] == b@[j],
        decreases n - i,
    {
        let ca = &a.columns[i];
        let cb = &b.columns[i];
        proof {
            assert(a@[i as int] == ca@);
            assert(b@[i as int] == cb@);
        }
        if !crate::text::str_eq(ca.name.as_str(), cb.name.as_str()) {
            return false;
        }
        if ca.kind != cb.kind {
            return false;
        }
        if !embedding_names_agree(&ca.embedding, &cb.embedding) {
            return false;
        }
        assert(a@[i as int] == b@[i as int]);
        i = i + 1;
    }
    true
}

/// Whether a column's embedding binding resolves in the registry.
pub open spec fn binding_resolves(
    c: ColumnView,
    entries: Seq<crate::registry::RegistrationView>,
) -> bool {
    match c.embedding {
        Option::Some(n) => crate::registry::name_bound(entries, n),
        Option::None => true,
    }
}

/// Checks that every embedding column of the schema is bound to a
/// registered name, so appends can recompute the column and a later
/// process can reopen the table.
pub fn bindings_resolve(schema: &TableSchema, registry: &crate::registry::EmbeddingRegistry) -> (r:
    bool)
    ensures
        r == forall|i: int| 0 <= i < schema@.len() ==> binding_resolves(#[trigger] schema@[i], registry@),
{
    let n = schema.columns.len();
    let mut i: usize = 0;
    while i < n
        invariant
            n == schema.columns@.len(),
            i <= n,
            forall|j: int| 0 <= j < i ==> binding_resolves(#[trigger] schema@[j], registry@),
        decreases n - i,
    {
        let c = &schema.columns[i];
        proof {
            assert(schema@[i as int] == c@);
        }
        match &c.embedding {
            Option::Some(name) => {
                if registry.lookup(name.as_str()).is_none() {
                    return false;
                }
            },
            Option::None => {
            },
        }
        i = i + 1;
    }
    true
}

/// Opens the vector table's schema or creates it: with no existing table
/// the expected schema is created; an existing table is accepted exactly
/// when its schema is compatible with the expected one; anything else is a
/// fatal `SchemaError`.
pub fn open_or_create_schema(existing: Option<TableSchema>) -> (r: Result<
    TableSchema,
    WordStoreError,
>)
    ensures
        existing is None ==> (r matches Ok(s) && s@ =~= spec_expected_schema()),
        existing matches Some(e) ==> ((r is Ok <==> schemas_compatible(e@, spec_expected_schema()))
            && (r matches Ok(s) ==> s@ == e@)),
        r is Err ==> r == Err::<TableSchema, WordStoreError>(WordStoreError::SchemaError),
{
    match existing {
        Option::None => Ok(expected_schema()),
        Option::Some(e) => {
            let expected = expected_schema();
            if check_compatible(&e, &expected) {
                Ok(e)
            } else {
                Err(WordStoreError::SchemaError)
            }
        },
    }
}

} // verus!
