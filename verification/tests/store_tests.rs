use asom_index::index::{field_sort_key, get_files_by_path, IndexStore};
use asom_index::paths::RelPath;
use asom_index::records::{AttrMap, AttrValue, DatePair, RecordFromDb};
use asom_index::schema::{
    DateCollectionSettings, DatesPairCollectionSettings, NumberSettings, Schema, SchemaAttrType,
    SchemaItem, TextSettings,
};
use asom_index::schema_store::{locate_schema_and_folder, SchemasInMemoryCache};

fn rp(segments: &[&str]) -> RelPath {
    RelPath::from_segments(segments.iter().map(|s| s.to_string()).collect())
}

fn schema_named(name: &str) -> Schema {
    Schema {
        name: name.to_owned(),
        version: "1.0".to_owned(),
        fill_from_filename: None,
        fill_api_search_from: None,
        items: vec![SchemaItem {
            name: "title".to_owned(),
            value: SchemaAttrType::Text(TextSettings::default()),
        }],
    }
}

fn record_at(path: RelPath, title: &str) -> RecordFromDb {
    let mut attrs = AttrMap::new();
    attrs.insert("title".to_owned(), AttrValue::Str(Some(title.to_owned())));
    RecordFromDb { path: Some(path), modified: Some(11), markdown: None, attrs }
}

/// Resolution correctness: a stored folder governs itself and everything
/// under it that no nearer schema shadows; outside paths resolve to
/// nothing.
#[test]
fn resolve_nearest_ancestor() {
    let mut cache = SchemasInMemoryCache::new();
    cache.insert(rp(&["books"]), schema_named("books"));
    cache.insert(rp(&["books", "special"]), schema_named("special"));

    let direct = cache.get_schema(&rp(&["books", "a.md"])).expect("governed");
    assert_eq!(direct.schema.name, "books");
    assert_eq!(direct.location.schema_owner_folder, rp(&["books"]));
    assert_eq!(
        direct.location.schema_path,
        rp(&["books", ".asom", "schema.yaml"])
    );

    let shadowed = cache.get_schema(&rp(&["books", "special", "x", "y.md"])).expect("governed");
    assert_eq!(shadowed.schema.name, "special");

    assert!(cache.get_schema(&rp(&["movies", "m.md"])).is_none());
    assert!(cache.get_schema(&rp(&[])).is_none());
}

/// Subtree removal completeness: no schema key at or under the removed
/// folder survives, and unrelated keys do.
#[test]
fn schema_subtree_removal() {
    let mut cache = SchemasInMemoryCache::new();
    cache.insert(rp(&["books"]), schema_named("books"));
    cache.insert(rp(&["books", "sub"]), schema_named("sub"));
    cache.insert(rp(&["movies"]), schema_named("movies"));

    cache.remove_schemas_with_children(&rp(&["books"]));

    assert!(cache.get_schema_owner(&rp(&["books"])).is_none());
    assert!(cache.get_schema_owner(&rp(&["books", "sub", "x"])).is_none());
    let left = cache.get_schema_owner(&rp(&["movies", "m.md"])).expect("movies stays");
    assert_eq!(left, rp(&["movies"]));
}

/// A sibling whose name merely extends the removed folder's name is not
/// a descendant and must survive a subtree removal.
#[test]
fn subtree_removal_keeps_name_siblings() {
    let mut store = IndexStore::new();
    store.upsert_folder(&rp(&["books"]), "books");
    store.upsert_folder(&rp(&["books2"]), "books2");
    store.upsert_file(&record_at(rp(&["books2", "b.md"]), "b"));
    store.remove_folder_subtree(&rp(&["books"]));
    store.remove_files_in_folder(&rp(&["books"]));

    let schemas = SchemasInMemoryCache::new();
    let folders = store.get_all_folders(&schemas);
    assert_eq!(folders.folders.len(), 1);
    assert_eq!(folders.folders[0].path, rp(&["books2"]));
    assert_eq!(store.query_files(&rp(&[]), None).len(), 1);
}

/// Idempotent upsert: a second identical write changes nothing
/// observable.
#[test]
fn upsert_file_is_idempotent() {
    let mut store = IndexStore::new();
    let rec = record_at(rp(&["books", "a.md"]), "Dune");
    store.upsert_file(&rec);
    let once: Vec<RecordFromDb> = store.query_files(&rp(&[]), None);
    store.upsert_file(&rec);
    let twice: Vec<RecordFromDb> = store.query_files(&rp(&[]), None);

    assert_eq!(once.len(), 1);
    assert_eq!(twice.len(), 1);
    assert_eq!(once[0].path, twice[0].path);
    assert_eq!(once[0].modified, twice[0].modified);
    assert_eq!(once[0].attrs, twice[0].attrs);
}

#[test]
fn upsert_folder_is_idempotent_and_skips_hidden() {
    let mut store = IndexStore::new();
    store.upsert_folder(&rp(&["books"]), "books");
    store.upsert_folder(&rp(&["books"]), "books");
    store.upsert_folder(&rp(&["books", ".asom"]), ".asom");

    let schemas = SchemasInMemoryCache::new();
    let folders = store.get_all_folders(&schemas);
    assert_eq!(folders.folders.len(), 1);
    assert_eq!(folders.folders[0].name, "books");
    assert!(!folders.folders[0].has_schema);
    assert!(folders.folders[0].schema_file_path.is_none());
}

/// The denormalized search text is lower-cased, so a lower-cased query
/// matches mixed-case content.
#[test]
fn query_files_search_filter() {
    let mut store = IndexStore::new();
    store.upsert_file(&record_at(rp(&["books", "a.md"]), "DUNE Messiah"));
    store.upsert_file(&record_at(rp(&["books", "b.md"]), "Hyperion"));

    let hits = store.query_files(&rp(&["books"]), Some("dune"));
    assert_eq!(hits.len(), 1);
    assert_eq!(hits[0].path, Some(rp(&["books", "a.md"])));

    let misses = store.query_files(&rp(&["books"]), Some("dragon"));
    assert_eq!(misses.len(), 0);

    let upper_query = store.query_files(&rp(&["books"]), Some("HYPERION"));
    assert_eq!(upper_query.len(), 1, "the filter is lower-cased before matching");
}

#[test]
fn query_files_prefix_scope() {
    let mut store = IndexStore::new();
    store.upsert_file(&record_at(rp(&["books", "a.md"]), "a"));
    store.upsert_file(&record_at(rp(&["movies", "m.md"]), "m"));

    let books = store.query_files(&rp(&["books"]), None);
    assert_eq!(books.len(), 1);
    assert_eq!(books[0].path, Some(rp(&["books", "a.md"])));
    let all = store.query_files(&rp(&[]), None);
    assert_eq!(all.len(), 2);
}

#[test]
fn folder_flags_follow_resolution() {
    let mut store = IndexStore::new();
    store.upsert_folder(&rp(&["books"]), "books");
    store.upsert_folder(&rp(&["books", "sub"]), "sub");
    store.upsert_folder(&rp(&["movies"]), "movies");

    let mut schemas = SchemasInMemoryCache::new();
    schemas.insert(rp(&["books"]), schema_named("books"));

    let all = store.get_all_folders(&schemas);
    assert_eq!(all.folders.len(), 3);
    for f in &all.folders {
        if f.path == rp(&["books"]) {
            assert!(f.has_schema && f.own_schema);
            assert_eq!(
                f.schema_file_path,
                Some(rp(&["books", ".asom", "schema.yaml"]))
            );
        } else if f.path == rp(&["books", "sub"]) {
            assert!(f.has_schema && !f.own_schema);
        } else {
            assert!(!f.has_schema && !f.own_schema);
        }
    }

    let governed = store.get_all_folders_by_schema(&rp(&["books"]), &schemas);
    assert_eq!(governed.folders.len(), 2);
}

#[test]
fn get_files_by_path_needs_governance() {
    let mut store = IndexStore::new();
    store.upsert_file(&record_at(rp(&["books", "a.md"]), "a"));
    let mut schemas = SchemasInMemoryCache::new();

    let err = get_files_by_path(&store, &schemas, &rp(&["books"]), None);
    assert!(err.is_err());
    assert_eq!(err.err().unwrap().title, "Unable to retrieve schema");

    schemas.insert(rp(&["books"]), schema_named("books"));
    let ok = get_files_by_path(&store, &schemas, &rp(&["books"]), None).unwrap();
    assert_eq!(ok.schema.schema.name, "books");
    assert_eq!(ok.records.len(), 1);
}

#[test]
fn test_double_insert() {
    let mut cache = SchemasInMemoryCache::new();
    cache.insert(rp(&["test"]), schema_named("test"));
    cache.insert(rp(&["test"]), schema_named("test222"));

    let schemas = cache.get_schemas_list();
    assert_eq!(schemas.len(), 1);
    assert_eq!(schemas[0].0, rp(&["test"]));
    assert_eq!(schemas[0].1.name, "test222");
}

#[test]
fn empty_schemas_are_left_out_of_the_listing() {
    let mut cache = SchemasInMemoryCache::new();
    let mut empty = schema_named("empty");
    empty.items = Vec::new();
    cache.insert(rp(&["empty"]), empty);
    cache.insert(rp(&["full"]), schema_named("full"));

    assert_eq!(cache.get_schemas_list().len(), 1);
    assert_eq!(cache.get_schemas_list_with_empty().len(), 2);
}

#[test]
fn test_locate_schema_and_folder() {
    let mock_path = rp(&["test"]);
    let mock_path_with_internal_folder = rp(&["test", ".asom"]);
    let mock_path_with_schema_file = rp(&["test", ".asom", "schema.yaml"]);

    let (f_1, p_1) = locate_schema_and_folder(&mock_path, false, false).unwrap();
    let (f_2, p_2) = locate_schema_and_folder(&mock_path_with_internal_folder, false, false)
        .unwrap();
    let (f_3, p_3) = locate_schema_and_folder(&mock_path_with_schema_file, false, false).unwrap();
    assert_eq!(f_1, mock_path_with_schema_file);
    assert_eq!(p_1, mock_path);
    assert_eq!(f_2, mock_path_with_schema_file);
    assert_eq!(p_2, mock_path);
    assert_eq!(f_3, mock_path_with_schema_file);
    assert_eq!(p_3, mock_path);
}

#[test]
fn locate_rejects_misnamed_and_rootless_schema_files() {
    let misnamed = locate_schema_and_folder(&rp(&["test", "other.yaml"]), true, false);
    assert_eq!(
        misnamed.err().unwrap().title,
        "Schema file must be named schema.yaml"
    );

    let rootless = locate_schema_and_folder(&rp(&["schema.yaml"]), true, false);
    assert!(rootless.is_err());
}

#[test]
fn records_sort_in_path_order() {
    let mut store = IndexStore::new();
    store.upsert_file(&record_at(rp(&["books", "c.md"]), "c"));
    store.upsert_file(&record_at(rp(&["books", "a.md"]), "a"));
    store.upsert_file(&record_at(rp(&["archive", "z.md"]), "z"));

    let sorted =
        asom_index::index::sort_records_by_path(store.query_files(&rp(&[]), None));
    let paths: Vec<String> = sorted
        .iter()
        .map(|r| r.path.as_ref().unwrap().to_display())
        .collect();
    assert_eq!(paths, vec!["archive/z.md", "books/a.md", "books/c.md"]);
}

#[test]
fn field_sort_keys_follow_field_kind() {
    let mut attrs = AttrMap::new();
    attrs.insert(
        "read".to_owned(),
        AttrValue::DatePairVec(Some(vec![
            DatePair { started: Some("2001".into()), finished: Some("2002".into()) },
            DatePair { started: Some("2010".into()), finished: Some("2011".into()) },
        ])),
    );
    attrs.insert(
        "watched".to_owned(),
        AttrValue::StrVec(Some(vec!["1999".to_owned(), "2005".to_owned()])),
    );
    attrs.insert("year".to_owned(), AttrValue::Integer(Some("2024".to_owned())));
    let record = RecordFromDb { path: None, modified: None, markdown: None, attrs };

    let pairs_type = SchemaAttrType::DatesPairCollection(DatesPairCollectionSettings::default());
    assert_eq!(field_sort_key(&record, "read", &pairs_type), "2011");

    let dates_type = SchemaAttrType::DateCollection(DateCollectionSettings::default());
    assert_eq!(field_sort_key(&record, "watched", &dates_type), "1999");

    let number_type = SchemaAttrType::Number(NumberSettings::default());
    assert_eq!(field_sort_key(&record, "year", &number_type), "2024");
    assert_eq!(field_sort_key(&record, "missing", &number_type), "");
}

#[test]
fn get_files_by_path_returns_sorted_records() {
    let mut store = IndexStore::new();
    store.upsert_file(&record_at(rp(&["books", "c.md"]), "c"));
    store.upsert_file(&record_at(rp(&["books", "a.md"]), "a"));
    store.upsert_file(&record_at(rp(&["books", "b.md"]), "b"));
    let mut schemas = SchemasInMemoryCache::new();
    schemas.insert(rp(&["books"]), schema_named("books"));

    let listing = get_files_by_path(&store, &schemas, &rp(&["books"]), None).unwrap();
    let paths: Vec<String> = listing
        .records
        .iter()
        .map(|r| r.path.as_ref().unwrap().to_display())
        .collect();
    assert_eq!(paths, vec!["books/a.md", "books/b.md", "books/c.md"]);
}
