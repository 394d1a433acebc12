//! The schema data model: typed field definitions governing how markdown
//! front matter under a folder subtree is parsed and displayed.
//!
//! Numeric bounds that the user may put on a number field are carried as
//! decimal text; the engine never computes with them.

use vstd::prelude::*;

verus! {

#[derive(Clone, Copy, Debug, PartialEq, Eq)]
pub enum InputSize {
    S,
    M,
    L,
}

#[derive(Clone, Copy, Debug, PartialEq, Eq)]
pub enum TextFont {
    Serif,
    Sans,
}

#[derive(Clone, Copy, Debug, PartialEq, Eq)]
pub enum TextWeight {
    Light,
    Normal,
    Bold,
    Black,
}

#[derive(Clone, Copy, Debug, PartialEq, Eq)]
pub enum NumberStyle {
    Default,
    Stars,
    Slider,
}

#[derive(Clone, Copy, Debug, PartialEq, Eq)]
pub enum SettingsTypeText {
    Text,
}

#[derive(Clone, Copy, Debug, PartialEq, Eq)]
pub enum SettingsTypeNumber {
    Num,
}

#[derive(Clone, Copy, Debug, PartialEq, Eq)]
pub enum SettingsTypeTextCollection {
    TextCollection,
}

#[derive(Clone, Copy, Debug, PartialEq, Eq)]
pub enum SettingsTypeImage {
    Image,
}

#[derive(Clone, Copy, Debug, PartialEq, Eq)]
pub enum SettingsTypeDate {
    Date,
}

#[derive(Clone, Copy, Debug, PartialEq, Eq)]
pub enum SettingsTypeDateCollection {
    DateCollection,
}

#[derive(Clone, Copy, Debug, PartialEq, Eq)]
pub enum SettingsTypeDatesPairCollection {
    DatesPairCollection,
}

#[derive(Debug, PartialEq)]
pub struct TextSettings {
    pub settings_type: SettingsTypeText,
    pub display_name: Option<String>,
    pub size: Option<InputSize>,
    pub font: Option<TextFont>,
    pub weight: Option<TextWeight>,
    pub is_multiline: Option<bool>,
}

/// The abstract value of a [`TextSettings`].
pub struct TextSettingsV {
    pub display_name: Option<Seq<char>>,
    pub size: Option<InputSize>,
    pub font: Option<TextFont>,
    pub weight: Option<TextWeight>,
    pub is_multiline: Option<bool>,
}

impl View for TextSettings {
    type V = TextSettingsV;

    open spec fn view(&self) -> TextSettingsV {
        TextSettingsV {
            display_name: self.display_name.deep_view(),
            size: self.size,
            font: self.font,
            weight: self.weight,
            is_multiline: self.is_multiline,
        }
    }
}

impl TextSettings {
    pub fn duplicate(&self) -> (r: TextSettings)
        ensures
            r@ == self@,
    {
        TextSettings {
            settings_type: SettingsTypeText::Text,
            display_name: clone_opt_string(&self.display_name),
            size: self.size,
            font: self.font,
            weight: self.weight,
            is_multiline: self.is_multiline,
        }
    }
}

impl Default for TextSettings {
    fn default() -> (r: TextSettings)
        ensures
            r@.display_name is None,
            r@.size is None,
            r@.font is None,
            r@.weight is None,
            r@.is_multiline is None,
    {
        TextSettings {
            settings_type: SettingsTypeText::Text,
            display_name: None,
            size: None,
            font: None,
            weight: None,
            is_multiline: None,
        }
    }
}

/// Settings of a number field.  `min` and `max` hold decimal text; a field
/// with a positive `decimal_places` holds fractional values, any other
/// number field holds integers.
#[derive(Debug, PartialEq)]
pub struct NumberSettings {
    pub settings_type: SettingsTypeNumber,
    pub display_name: Option<String>,
    pub size: Option<InputSize>,
    pub min: Option<String>,
    pub max: Option<String>,
    pub decimal_places: Option<u8>,
    pub style: Option<NumberStyle>,
    pub stars_count: Option<u8>,
}

/// The abstract value of a [`NumberSettings`].
pub struct NumberSettingsV {
    pub display_name: Option<Seq<char>>,
    pub size: Option<InputSize>,
    pub min: Option<Seq<char>>,
    pub max: Option<Seq<char>>,
    pub decimal_places: Option<u8>,
    pub style: Option<NumberStyle>,
    pub stars_count: Option<u8>,
}

impl View for NumberSettings {
    type V = NumberSettingsV;

    open spec fn view(&self) -> NumberSettingsV {
        NumberSettingsV {
            display_name: self.display_name.deep_view(),
            size: self.size,
            min: self.min.deep_view(),
            max: self.max.deep_view(),
            decimal_places: self.decimal_places,
            style: self.style,
            stars_count: self.stars_count,
        }
    }
}

/// Whether a number field holds fractional values rather than integers.
pub open spec fn spec_is_fractional(s: NumberSettingsV) -> bool {
    s.decimal_places matches Some(d) && d > 0
}

impl NumberSettings {
    pub fn duplicate(&self) -> (r: NumberSettings)
        ensures
            r@ == self@,
    {
        NumberSettings {
            settings_type: SettingsTypeNumber::Num,
            display_name: clone_opt_string(&self.display_name),
            size: self.size,
            min: clone_opt_string(&self.min),
            max: clone_opt_string(&self.max),
            decimal_places: self.decimal_places,
            style: self.style,
            stars_count: self.stars_count,
        }
    }

    /// Whether the field holds fractional values rather than integers.
    pub fn is_fractional(&self) -> (r: bool)
        ensures
            r == spec_is_fractional(self@),
    {
        match self.decimal_places {
            Some(d) => d > 0,
            None => false,
        }
    }
}

impl Default for NumberSettings {
    fn default() -> (r: NumberSettings)
        ensures
            r@.display_name is None,
            r@.size is None,
            r@.min is None,
            r@.max is None,
            r@.decimal_places is None,
            r@.style is None,
            r@.stars_count is None,
    {
        NumberSettings {
            settings_type: SettingsTypeNumber::Num,
            display_name: None,
            size: None,
            min: None,
            max: None,
            decimal_places: None,
            style: None,
            stars_count: None,
        }
    }
}

#[derive(Debug, PartialEq)]
pub struct TextCollectionSettings {
    pub settings_type: SettingsTypeTextCollection,
    pub display_name: Option<String>,
    pub size: Option<InputSize>,
    pub font: Option<TextFont>,
    pub weight: Option<TextWeight>,
    pub prefix: Option<String>,
}

/// The abstract value of a [`TextCollectionSettings`].
pub struct TextCollectionSettingsV {
    pub display_name: Option<Seq<char>>,
    pub size: Option<InputSize>,
    pub font: Option<TextFont>,
    pub weight: Option<TextWeight>,
    pub prefix: Option<Seq<char>>,
}

impl View for TextCollectionSettings {
    type V = TextCollectionSettingsV;

    open spec fn view(&self) -> TextCollectionSettingsV {
        TextCollectionSettingsV {
            display_name: self.display_name.deep_view(),
            size: self.size,
            font: self.font,
            weight: self.weight,
            prefix: self.prefix.deep_view(),
        }
    }
}

impl TextCollectionSettings {
    pub fn duplicate(&self) -> (r: TextCollectionSettings)
        ensures
            r@ == self@,
    {
        TextCollectionSettings {
            settings_type: SettingsTypeTextCollection::TextCollection,
            display_name: clone_opt_string(&self.display_name),
            size: self.size,
            font: self.font,
            weight: self.weight,
            prefix: clone_opt_string(&self.prefix),
        }
    }
}

impl Default for TextCollectionSettings {
    fn default() -> (r: TextCollectionSettings)
        ensures
            r@.display_name is None,
            r@.size is None,
            r@.font is None,
            r@.weight is None,
            r@.prefix is None,
    {
        TextCollectionSettings {
            settings_type: SettingsTypeTextCollection::TextCollection,
            display_name: None,
            size: None,
            font: None,
            weight: None,
            prefix: None,
        }
    }
}

#[derive(Debug, PartialEq)]
pub struct ImageSettings {
    pub settings_type: SettingsTypeImage,
    pub display_name: Option<String>,
    pub aspect_ratio: Option<String>,
}

/// The abstract value of an [`ImageSettings`].
pub struct ImageSettingsV {
    pub display_name: Option<Seq<char>>,
    pub aspect_ratio: Option<Seq<char>>,
}

impl View for ImageSettings {
    type V = ImageSettingsV;

    open spec fn view(&self) -> ImageSettingsV {
        ImageSettingsV {
            display_name: self.display_name.deep_view(),
            aspect_ratio: self.aspect_ratio.deep_view(),
        }
    }
}

impl ImageSettings {
    pub fn duplicate(&self) -> (r: ImageSettings)
        ensures
            r@ == self@,
    {
        ImageSettings {
            settings_type: SettingsTypeImage::Image,
            display_name: clone_opt_string(&self.display_name),
            aspect_ratio: clone_opt_string(&self.aspect_ratio),
        }
    }
}

impl Default for ImageSettings {
    fn default() -> (r: ImageSettings)
        ensures
            r@.display_name is None,
            r@.aspect_ratio is None,
    {
        ImageSettings {
            settings_type: SettingsTypeImage::Image,
            display_name: None,
            aspect_ratio: None,
        }
    }
}

#[derive(Debug, PartialEq)]
pub struct DateSettings {
    pub settings_type: SettingsTypeDate,
    pub display_name: Option<String>,
}

impl View for DateSettings {
    type V = Option<Seq<char>>;

    open spec fn view(&self) -> Option<Seq<char>> {
        self.display_name.deep_view()
    }
}

impl DateSettings {
    pub fn duplicate(&self) -> (r: DateSettings)
        ensures
            r@ == self@,
    {
        DateSettings {
            settings_type: SettingsTypeDate::Date,
            display_name: clone_opt_string(&self.display_name),
        }
    }
}

impl Default for DateSettings {
    fn default() -> (r: DateSettings)
        ensures
            r@ is None,
    {
        DateSettings { settings_type: SettingsTypeDate::Date, display_name: None }
    }
}

#[derive(Debug, PartialEq)]
pub struct DateCollectionSettings {
    pub settings_type: SettingsTypeDateCollection,
    pub display_name: Option<String>,
}

impl View for DateCollectionSettings {
    type V = Option<Seq<char>>;

    open spec fn view(&self) -> Option<Seq<char>> {
        self.display_name.deep_view()
    }
}

impl DateCollectionSettings {
    pub fn duplicate(&self) -> (r: DateCollectionSettings)
        ensures
            r@ == self@,
    {
        DateCollectionSettings {
            settings_type: SettingsTypeDateCollection::DateCollection,
            display_name: clone_opt_string(&self.display_name),
        }
    }
}

impl Default for DateCollectionSettings {
    fn default() -> (r: DateCollectionSettings)
        ensures
            r@ is None,
    {
        DateCollectionSettings {
            settings_type: SettingsTypeDateCollection::DateCollection,
            display_name: None,
        }
    }
}

#[derive(Debug, PartialEq)]
pub struct DatesPairCollectionSettings {
    pub settings_type: SettingsTypeDatesPairCollection,
    pub display_name: Option<String>,
}

impl View for DatesPairCollectionSettings {
    type V = Option<Seq<char>>;

    open spec fn view(&self) -> Option<Seq<char>> {
        self.display_name.deep_view()
    }
}

impl DatesPairCollectionSettings {
    pub fn duplicate(&self) -> (r: DatesPairCollectionSettings)
        ensures
            r@ == self@,
    {
        DatesPairCollectionSettings {
            settings_type: SettingsTypeDatesPairCollection::DatesPairCollection,
            display_name: clone_opt_string(&self.display_name),
        }
    }
}

impl Default for DatesPairCollectionSettings {
    fn default() -> (r: DatesPairCollectionSettings)
        ensures
            r@ is None,
    {
        DatesPairCollectionSettings {
            settings_type: SettingsTypeDatesPairCollection::DatesPairCollection,
            display_name: None,
        }
    }
}

/// The type of one schema field, with its display settings.
#[derive(Debug, PartialEq)]
pub enum SchemaAttrType {
    Text(TextSettings),
    TextCollection(TextCollectionSettings),
    Number(NumberSettings),
    Date(DateSettings),
    DateCollection(DateCollectionSettings),
    DatesPairCollection(DatesPairCollectionSettings),
    Image(ImageSettings),
}

/// The abstract value of a [`SchemaAttrType`].
pub enum SchemaAttrTypeV {
    Text(TextSettingsV),
    TextCollection(TextCollectionSettingsV),
    Number(NumberSettingsV),
    Date(Option<Seq<char>>),
    DateCollection(Option<Seq<char>>),
    DatesPairCollection(Option<Seq<char>>),
    Image(ImageSettingsV),
}

impl View for SchemaAttrType {
    type V = SchemaAttrTypeV;

    open spec fn view(&self) -> SchemaAttrTypeV {
        match self {
            SchemaAttrType::Text(s) => SchemaAttrTypeV::Text(s@),
            SchemaAttrType::TextCollection(s) => SchemaAttrTypeV::TextCollection(s@),
            SchemaAttrType::Number(s) => SchemaAttrTypeV::Number(s@),
            SchemaAttrType::Date(s) => SchemaAttrTypeV::Date(s@),
            SchemaAttrType::DateCollection(s) => SchemaAttrTypeV::DateCollection(s@),
            SchemaAttrType::DatesPairCollection(s) => SchemaAttrTypeV::DatesPairCollection(s@),
            SchemaAttrType::Image(s) => SchemaAttrTypeV::Image(s@),
        }
    }
}

impl SchemaAttrType {
    pub fn duplicate(&self) -> (r: SchemaAttrType)
        ensures
            r@ == self@,
    {
        match self {
            SchemaAttrType::Text(s) => SchemaAttrType::Text(s.duplicate()),
            SchemaAttrType::TextCollection(s) => SchemaAttrType::TextCollection(s.duplicate()),
            SchemaAttrType::Number(s) => SchemaAttrType::Number(s.duplicate()),
            SchemaAttrType::Date(s) => SchemaAttrType::Date(s.duplicate()),
            SchemaAttrType::DateCollection(s) => SchemaAttrType::DateCollection(s.duplicate()),
            SchemaAttrType::DatesPairCollection(s) => SchemaAttrType::DatesPairCollection(
                s.duplicate(),
            ),
            SchemaAttrType::Image(s) => SchemaAttrType::Image(s.duplicate()),
        }
    }
}

/// One named, typed field of a schema.
#[derive(Debug, PartialEq)]
pub struct SchemaItem {
    pub name: String,
    pub value: SchemaAttrType,
}

/// The abstract value of a [`SchemaItem`].
pub struct SchemaItemV {
    pub name: Seq<char>,
    pub value: SchemaAttrTypeV,
}

impl View for SchemaItem {
    type V = SchemaItemV;

    open spec fn view(&self) -> SchemaItemV {
        SchemaItemV { name: self.name@, value: self.value@ }
    }
}

impl DeepView for SchemaItem {
    type V = SchemaItemV;

    open spec fn deep_view(&self) -> SchemaItemV {
        self@
    }
}

impl SchemaItem {
    pub fn duplicate(&self) -> (r: SchemaItem)
        ensures
            r@ == self@,
    {
        SchemaItem { name: self.name.clone(), value: self.value.duplicate() }
    }
}

/// A user-defined schema: a named, ordered list of typed fields.  Identity
/// is structural; the folder that owns a schema is tracked by the store,
/// not by the schema itself.
#[derive(Debug, PartialEq)]
pub struct Schema {
    pub name: String,
    pub version: String,
    pub fill_from_filename: Option<String>,
    pub fill_api_search_from: Option<String>,
    pub items: Vec<SchemaItem>,
}

/// The abstract value of a [`Schema`].
pub struct SchemaV {
    pub name: Seq<char>,
    pub version: Seq<char>,
    pub fill_from_filename: Option<Seq<char>>,
    pub fill_api_search_from: Option<Seq<char>>,
    pub items: Seq<SchemaItemV>,
}

impl View for Schema {
    type V = SchemaV;

    open spec fn view(&self) -> SchemaV {
        SchemaV {
            name: self.name@,
            version: self.version@,
            fill_from_filename: self.fill_from_filename.deep_view(),
            fill_api_search_from: self.fill_api_search_from.deep_view(),
            items: self.items.deep_view(),
        }
    }
}

impl Schema {
    pub fn duplicate(&self) -> (r: Schema)
        ensures
            r@ == self@,
    {
        let mut items: Vec<SchemaItem> = Vec::new();
        let mut i: usize = 0;
        while i < self.items.len()
            invariant
                i <= self.items.len(),
                items@.len() == i,
                forall|j: int| 0 <= j < i ==> #[trigger] items@[j]@ == self.items@[j]@,
            decreases self.items.len() - i,
        {
            items.push(self.items[i].duplicate());
            i = i + 1;
        }
        let r = Schema {
            name: self.name.clone(),
            version: self.version.clone(),
            fill_from_filename: clone_opt_string(&self.fill_from_filename),
            fill_api_search_from: clone_opt_string(&self.fill_api_search_from),
            items,
        };
        proof {
            assert(r.items.deep_view() =~= self.items.deep_view());
        }
        r
    }

    /// Whether the schema declares no fields.  An empty schema is filtering
    /// noise, not real governance; listings leave it out.
    pub fn is_empty(&self) -> (r: bool)
        ensures
            r == (self@.items.len() == 0),
    {
        self.items.len() == 0
    }
}

/// Whether some item in the list carries this field name.
pub open spec fn spec_items_contain_name(s: Seq<SchemaItemV>, n: Seq<char>) -> bool {
    exists|i: int| 0 <= i < s.len() && s[i].name == n
}

/// The normalized field list: items with empty names dropped, and of
/// several items sharing a name only the first kept.
pub open spec fn spec_normalize_items(items: Seq<SchemaItemV>) -> Seq<SchemaItemV>
    decreases items.len(),
{
    if items.len() == 0 {
        Seq::empty()
    } else {
        let prefix = spec_normalize_items(items.drop_last());
        if items.last().name.len() > 0 && !spec_items_contain_name(prefix, items.last().name) {
            prefix.push(items.last())
        } else {
            prefix
        }
    }
}

impl Schema {
    /// The schema with empty and duplicate field entries removed: the
    /// idempotent normalization the write path applies before a save.
    pub fn remove_empty_and_duplicates(self) -> (r: Schema)
        ensures
            r@.items == spec_normalize_items(self.items.deep_view()),
            r@.name == self@.name,
            r@.version == self@.version,
            r@.fill_from_filename == self@.fill_from_filename,
            r@.fill_api_search_from == self@.fill_api_search_from,
    {
        let ghost iv = self.items.deep_view();
        let mut kept: Vec<SchemaItem> = Vec::new();
        let mut i: usize = 0;
        proof {
            assert(iv.subrange(0, 0) =~= Seq::<SchemaItemV>::empty());
            assert(kept.deep_view() =~= spec_normalize_items(iv.subrange(0, 0)));
        }
        while i < self.items.len()
            invariant
                i <= self.items@.len(),
                self.items@.len() == iv.len(),
                forall|j: int| 0 <= j < iv.len() ==> #[trigger] self.items@[j]@ == iv[j],
                kept.deep_view() == spec_normalize_items(iv.subrange(0, i as int)),
            decreases self.items@.len() - i,
        {
            proof {
                assert(iv.subrange(0, i + 1).drop_last() =~= iv.subrange(0, i as int));
                assert(iv.subrange(0, i + 1).last() == iv[i as int]);
                assert(self.items@[i as int]@ == iv[i as int]);
            }
            let item = &self.items[i];
            let nonempty = item.name.as_str().unicode_len() > 0;
            let dup = items_contain_name(&kept, item.name.as_str());
            if nonempty && !dup {
                kept.push(item.duplicate());
                proof {
                    assert(kept.deep_view() =~= spec_normalize_items(iv.subrange(0, i + 1)));
                }
            }
            i = i + 1;
        }
        proof {
            assert(iv.subrange(0, iv.len() as int) =~= iv);
        }
        let r = Schema {
            name: self.name,
            version: self.version,
            fill_from_filename: self.fill_from_filename,
            fill_api_search_from: self.fill_api_search_from,
            items: kept,
        };
        r
    }
}

/// Whether an item under this name was already kept.
fn items_contain_name(items: &Vec<SchemaItem>, name: &str) -> (r: bool)
    ensures
        r == spec_items_contain_name(items.deep_view(), name@),
{
    let mut i: usize = 0;
    while i < items.len()
        invariant
            i <= items@.len(),
            forall|j: int| 0 <= j < i ==> items.deep_view()[j].name != name@,
        decreases items@.len() - i,
    {
        if crate::paths::str_eq(items[i].name.as_str(), name) {
            proof {
                assert(items.deep_view()[i as int].name == name@);
            }
            return true;
        }
        i = i + 1;
    }
    false
}

/// The version marker stamped on every schema the engine writes.
pub fn schema_version() -> (r: String)
    ensures
        r@ == spec_schema_version(),
{
    proof {
        reveal_strlit("1.0");
    }
    "1.0".to_owned()
}

pub open spec fn spec_schema_version() -> Seq<char> {
    "1.0"@
}

/// A clone of an optional string, preserving its abstract value.
pub fn clone_opt_string(s: &Option<String>) -> (r: Option<String>)
    ensures
        r.deep_view() == s.deep_view(),
{
    match s {
        Some(v) => Some(v.clone()),
        None => None,
    }
}

} // verus!
