//! Front-matter parsing: a YAML document, carried over into plain nodes,
//! is classified against the governing schema into typed attribute
//! values.
//!
//! Parse failure is not fatal: every field falls back to its
//! type-appropriate empty value and the failure is surfaced alongside,
//! so indexing can proceed with the empty record.

use vstd::prelude::*;

use crate::errors::ErrFR;
use crate::records::{AttrMap, AttrValue, AttrValueV, DatePair, DatePairV};
use crate::schema::{Schema, SchemaAttrType, SchemaAttrTypeV, spec_is_fractional};

verus! {

/// A YAML value as plain data: scalars, lists, and string-keyed entry
/// lists.  `Other` stands for any shape the engine has no use for.
#[derive(Debug, PartialEq)]
pub enum YamlNode {
    Null,
    Bool(bool),
    Num(String),
    Str(String),
    List(Vec<YamlNode>),
    Entries(Vec<(String, YamlNode)>),
    Other,
}

#[verifier::external_type_specification]
#[verifier::external_body]
pub struct ExYamlValue(serde_yml::Value);

/// What parsing a YAML document yields: its plain node, or nothing when
/// the text does not parse.  The parse depends on the text alone.
pub uninterp spec fn yaml_parse_of(s: Seq<char>) -> Option<YamlNode>;

/// Relies on serde_yml::from_str::<serde_yml::Value>: parses the
/// document, or fails; the error text is reported as is.
#[verifier::external_body]
pub fn parse_yaml(s: &str) -> (r: Result<YamlNode, String>)
    ensures
        r matches Ok(n) ==> yaml_parse_of(s@) == Some(n),
        r is Err ==> yaml_parse_of(s@) is None,
{
    match serde_yml::from_str::<serde_yml::Value>(s) {
        Ok(v) => Ok(yaml_value_to_node(&v)),
        Err(e) => Err(e.to_string()),
    }
}

/// Relies on serde_yml::Value: moves each variant of the parsed document
/// into the crate's plain node type, entry for entry; a tagged value
/// stands for its content.
#[verifier::external_body]
fn yaml_value_to_node(v: &serde_yml::Value) -> YamlNode {
    match v {
        serde_yml::Value::Null => YamlNode::Null,
        serde_yml::Value::Bool(b) => YamlNode::Bool(*b),
        serde_yml::Value::Number(n) => YamlNode::Num(n.to_string()),
        serde_yml::Value::String(s) => YamlNode::Str(s.clone()),
        serde_yml::Value::Sequence(xs) => YamlNode::List(
            xs.iter().map(yaml_value_to_node).collect(),
        ),
        serde_yml::Value::Mapping(m) => YamlNode::Entries(
            m.iter().map(|(k, w)| (k.clone(), yaml_value_to_node(w))).collect(),
        ),
        serde_yml::Value::Tagged(t) => yaml_value_to_node(t.value()),
    }
}

/// The first entry under `key`, if any: YAML mappings carry unique keys.
pub open spec fn spec_lookup(es: Seq<(String, YamlNode)>, key: Seq<char>) -> Option<YamlNode>
    decreases es.len(),
{
    if es.len() == 0 {
        None
    } else if es.first().0@ == key {
        Some(es.first().1)
    } else {
        spec_lookup(es.drop_first(), key)
    }
}

/// The texts of the string items of a list, everything else skipped.
pub open spec fn spec_texts_of(xs: Seq<YamlNode>) -> Seq<Seq<char>>
    decreases xs.len(),
{
    if xs.len() == 0 {
        Seq::empty()
    } else {
        let rest = spec_texts_of(xs.drop_last());
        match xs.last() {
            YamlNode::Str(s) => rest.push(s@),
            _ => rest,
        }
    }
}

/// The date pair an entry list stands for: each endpoint's text where it
/// is a string, its presence alone where it is not.
pub open spec fn spec_pair_of(es: Seq<(String, YamlNode)>) -> Option<DatePairV> {
    let started = spec_lookup(es, "started"@);
    let finished = spec_lookup(es, "finished"@);
    if started is None && finished is None {
        None
    } else {
        Some(
            DatePairV {
                started: match started {
                    Some(YamlNode::Str(s)) => Some(s@),
                    _ => None,
                },
                finished: match finished {
                    Some(YamlNode::Str(s)) => Some(s@),
                    _ => None,
                },
            },
        )
    }
}

/// The date pairs of a list: entry-list items with at least one
/// endpoint, everything else skipped.
pub open spec fn spec_pairs_of(xs: Seq<YamlNode>) -> Seq<DatePairV>
    decreases xs.len(),
{
    if xs.len() == 0 {
        Seq::empty()
    } else {
        let rest = spec_pairs_of(xs.drop_last());
        match xs.last() {
            YamlNode::Entries(es) => match spec_pair_of(es@) {
                Some(p) => rest.push(p),
                None => rest,
            },
            _ => rest,
        }
    }
}

/// The type-appropriate empty value of a schema field.
pub open spec fn spec_default_metadata(t: SchemaAttrTypeV) -> AttrValueV {
    match t {
        SchemaAttrTypeV::Text(_) => AttrValueV::Str(None),
        SchemaAttrTypeV::Image(_) => AttrValueV::Str(None),
        SchemaAttrTypeV::Date(_) => AttrValueV::Str(None),
        SchemaAttrTypeV::Number(ns) => if spec_is_fractional(ns) {
            AttrValueV::Float(None)
        } else {
            AttrValueV::Integer(None)
        },
        SchemaAttrTypeV::TextCollection(_) => AttrValueV::StrVec(None),
        SchemaAttrTypeV::DateCollection(_) => AttrValueV::StrVec(None),
        SchemaAttrTypeV::DatesPairCollection(_) => AttrValueV::DatePairVec(None),
    }
}

/// How one found front-matter value classifies against one schema field:
/// the value where its shape fits the field's type, the field's empty
/// value otherwise.
pub open spec fn spec_classify_attr(found: Option<YamlNode>, t: SchemaAttrTypeV) -> AttrValueV {
    match (found, t) {
        (Some(YamlNode::Str(s)), SchemaAttrTypeV::Text(_)) => AttrValueV::Str(Some(s@)),
        (Some(YamlNode::Str(s)), SchemaAttrTypeV::Image(_)) => AttrValueV::Str(Some(s@)),
        (Some(YamlNode::Str(s)), SchemaAttrTypeV::Date(_)) => AttrValueV::Str(Some(s@)),
        (Some(YamlNode::Num(n)), SchemaAttrTypeV::Number(ns)) => if spec_is_fractional(ns) {
            AttrValueV::Float(Some(n@))
        } else {
            AttrValueV::Integer(Some(n@))
        },
        (Some(YamlNode::List(xs)), SchemaAttrTypeV::TextCollection(_)) => spec_texts_value(xs@),
        (Some(YamlNode::List(xs)), SchemaAttrTypeV::DateCollection(_)) => spec_texts_value(xs@),
        (Some(YamlNode::List(xs)), SchemaAttrTypeV::DatesPairCollection(_)) => spec_pairs_value(
            xs@,
        ),
        (f, t) => spec_default_metadata(t),
    }
}

pub open spec fn spec_texts_value(xs: Seq<YamlNode>) -> AttrValueV {
    if spec_texts_of(xs).len() == 0 {
        AttrValueV::StrVec(None)
    } else {
        AttrValueV::StrVec(Some(spec_texts_of(xs)))
    }
}

pub open spec fn spec_pairs_value(xs: Seq<YamlNode>) -> AttrValueV {
    if spec_pairs_of(xs).len() == 0 {
        AttrValueV::DatePairVec(None)
    } else {
        AttrValueV::DatePairVec(Some(spec_pairs_of(xs)))
    }
}

/// What one schema field yields against the document.
pub open spec fn spec_field_value(
    doc: Option<Seq<(String, YamlNode)>>,
    item: crate::schema::SchemaItemV,
) -> AttrValueV {
    match doc {
        Some(es) => spec_classify_attr(spec_lookup(es, item.name), item.value),
        None => spec_default_metadata(item.value),
    }
}

/// The attribute map the schema's fields give, in order, against the
/// document's entries; with no usable document every field is empty.
pub open spec fn spec_metadata_map(
    doc: Option<Seq<(String, YamlNode)>>,
    items: Seq<crate::schema::SchemaItemV>,
) -> Map<Seq<char>, AttrValueV>
    decreases items.len(),
{
    if items.len() == 0 {
        Map::empty()
    } else {
        spec_metadata_map(doc, items.drop_last()).insert(
            items.last().name,
            spec_field_value(doc, items.last()),
        )
    }
}

/// The attribute entries the schema's fields give, in schema order, a
/// repeated field name keeping its first position with its last value.
pub open spec fn spec_metadata_entries(
    doc: Option<Seq<(String, YamlNode)>>,
    items: Seq<crate::schema::SchemaItemV>,
) -> Seq<(Seq<char>, AttrValueV)>
    decreases items.len(),
{
    if items.len() == 0 {
        Seq::empty()
    } else {
        crate::records::spec_entries_insert(
            spec_metadata_entries(doc, items.drop_last()),
            items.last().name,
            spec_field_value(doc, items.last()),
        )
    }
}

/// The usable entry list of a parse outcome.
pub open spec fn spec_parsed_entries(parsed: Result<YamlNode, String>) -> Option<
    Seq<(String, YamlNode)>,
> {
    match parsed {
        Ok(n) => spec_doc_entries(Some(n)),
        Err(_) => None,
    }
}

/// The usable entry list of a parsed front-matter document: a mapping's
/// entries; an empty document's empty list; nothing for any other shape.
pub open spec fn spec_doc_entries(parsed: Option<YamlNode>) -> Option<Seq<(String, YamlNode)>> {
    match parsed {
        Some(YamlNode::Entries(es)) => Some(es@),
        Some(YamlNode::Null) => Some(Seq::empty()),
        _ => None,
    }
}

/// A classified record: the attributes, and the parse failure if the
/// document itself was unusable.
pub struct MetaDataParseResult {
    pub metadata: AttrMap,
    pub parsing_error: Option<ErrFR>,
}

/// The type-appropriate empty value of a schema field.
pub fn get_default_metadata(schema_type: &SchemaAttrType) -> (r: AttrValue)
    ensures
        r@ == spec_default_metadata(schema_type@),
{
    match schema_type {
        SchemaAttrType::Text(_) => AttrValue::Str(None),
        SchemaAttrType::Image(_) => AttrValue::Str(None),
        SchemaAttrType::Date(_) => AttrValue::Str(None),
        SchemaAttrType::Number(ns) => if ns.is_fractional() {
            AttrValue::Float(None)
        } else {
            AttrValue::Integer(None)
        },
        SchemaAttrType::TextCollection(_) => AttrValue::StrVec(None),
        SchemaAttrType::DateCollection(_) => AttrValue::StrVec(None),
        SchemaAttrType::DatesPairCollection(_) => AttrValue::DatePairVec(None),
    }
}

/// The first entry under `key` in a document's entry list.
fn lookup<'a>(es: &'a Vec<(String, YamlNode)>, key: &str) -> (r: Option<&'a YamlNode>)
    ensures
        r matches Some(n) ==> spec_lookup(es@, key@) == Some(*n),
        r is None ==> spec_lookup(es@, key@) is None,
{
    let mut i: usize = 0;
    proof {
        assert(es@.skip(0) =~= es@);
    }
    while i < es.len()
        invariant
            i <= es@.len(),
            spec_lookup(es@, key@) == spec_lookup(es@.skip(i as int), key@),
        decreases es@.len() - i,
    {
        proof {
            assert(es@.skip(i as int).first() == es@[i as int]);
            assert(es@.skip(i as int).drop_first() =~= es@.skip(i + 1));
        }
        if crate::paths::str_eq(es[i].0.as_str(), key) {
            return Some(&es[i].1);
        }
        i = i + 1;
    }
    proof {
        assert(es@.skip(es@.len() as int).len() == 0);
    }
    None
}

/// The string items of a list, as owned texts.
fn texts_of(xs: &Vec<YamlNode>) -> (r: Vec<String>)
    ensures
        r.deep_view() == spec_texts_of(xs@),
{
    let mut out: Vec<String> = Vec::new();
    let mut i: usize = 0;
    while i < xs.len()
        invariant
            i <= xs@.len(),
            out.deep_view() == spec_texts_of(xs@.subrange(0, i as int)),
        decreases xs@.len() - i,
    {
        proof {
            assert(xs@.subrange(0, i + 1).drop_last() =~= xs@.subrange(0, i as int));
            assert(xs@.subrange(0, i + 1).last() == xs@[i as int]);
        }
        match &xs[i] {
            YamlNode::Str(s) => {
                out.push(s.clone());
                proof {
                    assert(out.deep_view() =~= spec_texts_of(xs@.subrange(0, i + 1)));
                }
            },
            _ => {
                proof {
                    assert(out.deep_view() =~= spec_texts_of(xs@.subrange(0, i + 1)));
                }
            },
        }
        i = i + 1;
    }
    proof {
        assert(xs@.subrange(0, xs@.len() as int) =~= xs@);
    }
    out
}

/// The date pairs of a list's entry-list items.
fn pairs_of(xs: &Vec<YamlNode>) -> (r: Vec<DatePair>)
    ensures
        r.deep_view() == spec_pairs_of(xs@),
{
    let mut out: Vec<DatePair> = Vec::new();
    let mut i: usize = 0;
    while i < xs.len()
        invariant
            i <= xs@.len(),
            out.deep_view() == spec_pairs_of(xs@.subrange(0, i as int)),
        decreases xs@.len() - i,
    {
        proof {
            assert(xs@.subrange(0, i + 1).drop_last() =~= xs@.subrange(0, i as int));
            assert(xs@.subrange(0, i + 1).last() == xs@[i as int]);
        }
        match &xs[i] {
            YamlNode::Entries(es) => {
                let started = lookup(es, "started");
                let finished = lookup(es, "finished");
                proof {
                    reveal_strlit("started");
                    reveal_strlit("finished");
                }
                if started.is_some() || finished.is_some() {
                    let pair = DatePair {
                        started: match started {
                            Some(YamlNode::Str(s)) => Some(s.clone()),
                            _ => None,
                        },
                        finished: match finished {
                            Some(YamlNode::Str(s)) => Some(s.clone()),
                            _ => None,
                        },
                    };
                    proof {
                        assert(spec_pair_of(es@) == Some(pair@));
                    }
                    out.push(pair);
                    proof {
                        assert(out.deep_view() =~= spec_pairs_of(xs@.subrange(0, i + 1)));
                    }
                } else {
                    proof {
                        assert(spec_pair_of(es@) is None);
                        assert(out.deep_view() =~= spec_pairs_of(xs@.subrange(0, i + 1)));
                    }
                }
            },
            _ => {
                proof {
                    assert(out.deep_view() =~= spec_pairs_of(xs@.subrange(0, i + 1)));
                }
            },
        }
        i = i + 1;
    }
    proof {
        assert(xs@.subrange(0, xs@.len() as int) =~= xs@);
    }
    out
}

/// Classifies one found value against one schema field.
fn classify_attr(found: Option<&YamlNode>, t: &SchemaAttrType) -> (r: AttrValue)
    ensures
        found matches Some(n) ==> r@ == spec_classify_attr(Some(*n), t@),
        found is None ==> r@ == spec_classify_attr(None, t@),
{
    match (found, t) {
        (
            Some(YamlNode::Str(s)),
            SchemaAttrType::Text(_) | SchemaAttrType::Image(_) | SchemaAttrType::Date(_),
        ) => AttrValue::Str(Some(s.clone())),
        (Some(YamlNode::Num(n)), SchemaAttrType::Number(ns)) => {
            if ns.is_fractional() {
                AttrValue::Float(Some(n.clone()))
            } else {
                AttrValue::Integer(Some(n.clone()))
            }
        },
        (
            Some(YamlNode::List(xs)),
            SchemaAttrType::TextCollection(_) | SchemaAttrType::DateCollection(_),
        ) => {
            let arr = texts_of(xs);
            if arr.len() == 0 {
                proof {
                    assert(spec_texts_of(xs@).len() == 0);
                }
                AttrValue::StrVec(None)
            } else {
                let r = AttrValue::StrVec(Some(arr));
                r
            }
        },
        (Some(YamlNode::List(xs)), SchemaAttrType::DatesPairCollection(_)) => {
            let arr = pairs_of(xs);
            if arr.len() == 0 {
                proof {
                    assert(spec_pairs_of(xs@).len() == 0);
                }
                AttrValue::DatePairVec(None)
            } else {
                AttrValue::DatePairVec(Some(arr))
            }
        },
        (_, t) => get_default_metadata(t),
    }
}

/// Classifies a parsed front-matter document against a schema: one typed
/// value per schema field.  A document that is not a mapping (and not
/// empty) cannot be classified; every field is then its empty value and
/// the failure is surfaced.
pub fn metadata_from_doc(parsed: &Result<YamlNode, String>, schema: &Schema) -> (r:
    MetaDataParseResult)
    ensures
        r.metadata.wf(),
        r.metadata@ == spec_metadata_map(spec_parsed_entries(*parsed), schema.items.deep_view()),
        r.metadata.entries_view() == spec_metadata_entries(
            spec_parsed_entries(*parsed),
            schema.items.deep_view(),
        ),
        r.parsing_error is None <==> spec_parsed_entries(*parsed) is Some,
    {
    let empty_entries: Vec<(String, YamlNode)> = Vec::new();
    let (doc, err): (Option<&Vec<(String, YamlNode)>>, Option<ErrFR>) = match parsed {
        Ok(YamlNode::Entries(es)) => (Some(es), None),
        Ok(YamlNode::Null) => (Some(&empty_entries), None),
        Ok(_) => (
            None,
            Some(
                ErrFR::new("Parsing error").info(
                    "Metadata was not parsed correctly, and will be overridden",
                ).raw("front matter is not a mapping"),
            ),
        ),
        Err(e) => (
            None,
            Some(
                ErrFR::new("Parsing error").info(
                    "Metadata was not parsed correctly, and will be overridden",
                ).raw(e.as_str()),
            ),
        ),
    };
    let ghost doc_spec: Option<Seq<(String, YamlNode)>> = match doc {
        Some(es) => Some(es@),
        None => None,
    };
    proof {
        match parsed {
            Ok(n) => {
                assert(doc_spec == spec_doc_entries(Some(*n)));
            },
            Err(e) => {
                assert(doc_spec is None);
            },
        }
    }
    let ghost iv = schema.items.deep_view();
    let mut metadata = AttrMap::new();
    let mut i: usize = 0;
    proof {
        assert(iv.subrange(0, 0) =~= Seq::<crate::schema::SchemaItemV>::empty());
        assert(metadata.entries_view() =~= spec_metadata_entries(doc_spec, iv.subrange(0, 0)));
    }
    while i < schema.items.len()
        invariant
            i <= schema.items@.len(),
            schema.items@.len() == iv.len(),
            forall|j: int| 0 <= j < iv.len() ==> #[trigger] schema.items@[j]@ == iv[j],
            metadata.wf(),
            doc matches Some(es) ==> doc_spec == Some(es@),
            doc is None ==> doc_spec is None,
            metadata@ == spec_metadata_map(doc_spec, iv.subrange(0, i as int)),
            metadata.entries_view() == spec_metadata_entries(doc_spec, iv.subrange(0, i as int)),
        decreases schema.items@.len() - i,
    {
        proof {
            assert(iv.subrange(0, i + 1).drop_last() =~= iv.subrange(0, i as int));
            assert(iv.subrange(0, i + 1).last() == iv[i as int]);
            assert(schema.items@[i as int]@ == iv[i as int]);
        }
        let item = &schema.items[i];
        let value = match doc {
            Some(es) => {
                let found = lookup(es, item.name.as_str());
                classify_attr(found, &item.value)
            },
            None => get_default_metadata(&item.value),
        };
        proof {
            assert(value@ == spec_field_value(doc_spec, iv[i as int]));
        }
        metadata.insert(item.name.clone(), value);
        i = i + 1;
    }
    proof {
        assert(iv.subrange(0, iv.len() as int) =~= iv);
    }
    MetaDataParseResult { metadata, parsing_error: err }
}

/// Parses front-matter text and classifies it against `schema`.  Fields
/// whose values are missing or ill-shaped fall back to their empty
/// values; an unusable document yields all-empty fields plus a surfaced
/// parse failure.
pub fn parse_metadata(front_matter: &str, schema: &Schema) -> (r: MetaDataParseResult)
    ensures
        r.metadata.wf(),
        r.metadata@ == spec_metadata_map(
            spec_doc_entries(yaml_parse_of(front_matter@)),
            schema.items.deep_view(),
        ),
        r.metadata.entries_view() == spec_metadata_entries(
            spec_doc_entries(yaml_parse_of(front_matter@)),
            schema.items.deep_view(),
        ),
        r.parsing_error is None <==> spec_doc_entries(yaml_parse_of(front_matter@)) is Some,
{
    let parsed = parse_yaml(front_matter);
    metadata_from_doc(&parsed, schema)
}

} // verus!
