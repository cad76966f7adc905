//! Metadata: the value that a note's frontmatter block stands for.
//!
//! The block is YAML. Reading it is left to `serde_yaml`; what comes back is
//! mirrored in [`YamlValue`] and turned, by verified code, into a [`MetaValue`].

use vstd::prelude::*;

verus! {

/// A YAML number, as far as this crate reads it.
#[derive(Clone, Copy, Debug, PartialEq, Eq)]
pub struct YamlNumber {
    /// The number as a signed 64-bit integer, if it is an integer that fits.
    pub integer: Option<i64>,
    /// The bits of the number as an IEEE 754 double, if it has such a form.
    pub float_bits: Option<u64>,
}

/// A YAML value: what `serde_yaml::Value` holds, without the text of tags.
#[derive(Debug, PartialEq)]
pub enum YamlValue {
    Null,
    Bool(bool),
    Number(YamlNumber),
    String(String),
    Sequence(Vec<YamlValue>),
    Mapping(Vec<(YamlValue, YamlValue)>),
    Tagged(Box<YamlValue>),
}

/// The mathematical form of a [`YamlValue`].
pub ghost enum YamlView {
    Null,
    Bool(bool),
    Number(YamlNumber),
    String(Seq<char>),
    Sequence(Seq<YamlView>),
    Mapping(Seq<(YamlView, YamlView)>),
    Tagged(Box<YamlView>),
}

/// The mathematical form of `value`.
pub open spec fn yaml_view(value: YamlValue) -> YamlView
    decreases value,
{
    match value {
        YamlValue::Null => YamlView::Null,
        YamlValue::Bool(b) => YamlView::Bool(b),
        YamlValue::Number(n) => YamlView::Number(n),
        YamlValue::String(s) => YamlView::String(s@),
        YamlValue::Sequence(items) => YamlView::Sequence(
            Seq::new(
                items.len() as nat,
                |i: int|
                    if 0 <= i < items.len() {
                        yaml_view(items[i])
                    } else {
                        YamlView::Null
                    },
            ),
        ),
        YamlValue::Mapping(entries) => YamlView::Mapping(
            Seq::new(
                entries.len() as nat,
                |i: int|
                    if 0 <= i < entries.len() {
                        (yaml_view(entries[i].0), yaml_view(entries[i].1))
                    } else {
                        (YamlView::Null, YamlView::Null)
                    },
            ),
        ),
        YamlValue::Tagged(inner) => YamlView::Tagged(Box::new(yaml_view(*inner))),
    }
}

impl View for YamlValue {
    type V = YamlView;

    open spec fn view(&self) -> YamlView {
        yaml_view(*self)
    }
}

/// A metadata value: null, a boolean, an integer, a float, a text, a list, or
/// a mapping from text keys to values.
#[derive(Debug, PartialEq)]
pub enum MetaValue {
    Null,
    Bool(bool),
    Int(i64),
    /// A finite float, held as the bits of an IEEE 754 double.
    Float(u64),
    Text(String),
    List(Vec<MetaValue>),
    /// The entries in the order in which their keys first came. A value is
    /// well formed when no mapping in it holds a key twice.
    Mapping(Vec<(String, MetaValue)>),
}

/// The mathematical form of a [`MetaValue`].
pub ghost enum MetaView {
    Null,
    Bool(bool),
    Int(i64),
    Float(u64),
    Text(Seq<char>),
    List(Seq<MetaView>),
    Mapping(Seq<(Seq<char>, MetaView)>),
}

/// The mathematical form of `value`.
pub open spec fn value_view(value: MetaValue) -> MetaView
    decreases value,
{
    match value {
        MetaValue::Null => MetaView::Null,
        MetaValue::Bool(b) => MetaView::Bool(b),
        MetaValue::Int(i) => MetaView::Int(i),
        MetaValue::Float(bits) => MetaView::Float(bits),
        MetaValue::Text(s) => MetaView::Text(s@),
        MetaValue::List(items) => MetaView::List(
            Seq::new(
                items.len() as nat,
                |i: int|
                    if 0 <= i < items.len() {
                        value_view(items[i])
                    } else {
                        MetaView::Null
                    },
            ),
        ),
        MetaValue::Mapping(entries) => MetaView::Mapping(
            Seq::new(
                entries.len() as nat,
                |i: int|
                    if 0 <= i < entries.len() {
                        (entries[i].0@, value_view(entries[i].1))
                    } else {
                        (Seq::<char>::empty(), MetaView::Null)
                    },
            ),
        ),
    }
}

impl View for MetaValue {
    type V = MetaView;

    open spec fn view(&self) -> MetaView {
        value_view(*self)
    }
}

/// The mathematical forms of the entries in `entries`.
pub open spec fn entry_views(entries: Seq<(String, MetaValue)>) -> Seq<(Seq<char>, MetaView)> {
    Seq::new(entries.len(), |i: int| (entries[i].0@, value_view(entries[i].1)))
}

/// Whether the bits are those of a double that is neither infinite nor NaN:
/// the eleven exponent bits are not all set.
pub open spec fn is_finite_bits(bits: u64) -> bool {
    (bits / 0x10_0000_0000_0000) % 0x800 != 0x7ff
}

/// The value of a YAML number: the integer if it is one that fits, else the
/// float if it is finite, else null.
pub open spec fn number_value(n: YamlNumber) -> MetaView {
    match n.integer {
        Some(i) => MetaView::Int(i),
        None => match n.float_bits {
            Some(bits) => if is_finite_bits(bits) {
                MetaView::Float(bits)
            } else {
                MetaView::Null
            },
            None => MetaView::Null,
        },
    }
}

/// `y` without the tags around it.
pub open spec fn untagged(y: YamlView) -> YamlView
    decreases y,
{
    match y {
        YamlView::Tagged(inner) => untagged(*inner),
        _ => y,
    }
}

/// The text of a YAML value that is a string, tagged or not.
pub open spec fn string_key(y: YamlView) -> Option<Seq<char>> {
    match untagged(y) {
        YamlView::String(s) => Some(s),
        _ => None,
    }
}

/// The first position in `entries` whose key is `key`.
pub open spec fn key_index(entries: Seq<(Seq<char>, MetaView)>, key: Seq<char>) -> Option<int>
    decreases entries.len(),
{
    if entries.len() == 0 {
        None
    } else {
        match key_index(entries.drop_last(), key) {
            Some(i) => Some(i),
            None => if entries.last().0 == key {
                Some(entries.len() - 1)
            } else {
                None
            },
        }
    }
}

/// `entries` with `value` under `key`: in the place of the entry that has the
/// key, or at the end if there is none.
pub open spec fn with_entry(
    entries: Seq<(Seq<char>, MetaView)>,
    key: Seq<char>,
    value: MetaView,
) -> Seq<(Seq<char>, MetaView)> {
    match key_index(entries, key) {
        Some(i) => entries.update(i, (key, value)),
        None => entries.push((key, value)),
    }
}

/// The value under `key` in `entries`.
pub open spec fn lookup(entries: Seq<(Seq<char>, MetaView)>, key: Seq<char>) -> Option<
    MetaView,
> {
    match key_index(entries, key) {
        Some(i) => Some(entries[i].1),
        None => None,
    }
}

/// The metadata value that a YAML value stands for.
///
/// Scalars and sequences carry over. A tagged value stands for the value
/// under the tag. Of a mapping the entries with a string key are kept, in the
/// order in which their keys first come; where a key comes again, its value
/// replaces the earlier one.
pub open spec fn to_value(y: YamlView) -> MetaView
    decreases y, 0nat,
{
    match y {
        YamlView::Null => MetaView::Null,
        YamlView::Bool(b) => MetaView::Bool(b),
        YamlView::Number(n) => number_value(n),
        YamlView::String(s) => MetaView::Text(s),
        YamlView::Sequence(items) => MetaView::List(
            Seq::new(
                items.len(),
                |i: int|
                    if 0 <= i < items.len() {
                        to_value(items[i])
                    } else {
                        MetaView::Null
                    },
            ),
        ),
        YamlView::Mapping(entries) => MetaView::Mapping(to_entries(entries, entries.len() as int)),
        YamlView::Tagged(inner) => to_value(*inner),
    }
}

/// The entries that the first `n` entries of a YAML mapping stand for.
pub open spec fn to_entries(entries: Seq<(YamlView, YamlView)>, n: int) -> Seq<
    (Seq<char>, MetaView),
>
    decreases entries, n,
{
    if n <= 0 || n > entries.len() {
        Seq::empty()
    } else {
        let before = to_entries(entries, n - 1);
        match string_key(entries[n - 1].0) {
            Some(key) => with_entry(before, key, to_value(entries[n - 1].1)),
            None => before,
        }
    }
}

/// The key `title`.
pub open spec fn title_key() -> Seq<char> {
    seq!['t', 'i', 't', 'l', 'e']
}

/// The title that a metadata value gives: the text under the key `title` of a
/// mapping.
pub open spec fn title_in(value: MetaView) -> Option<Seq<char>> {
    match value {
        MetaView::Mapping(entries) => match lookup(entries, title_key()) {
            Some(MetaView::Text(s)) => Some(s),
            _ => None,
        },
        _ => None,
    }
}

/// Whether no key comes twice in `entries`.
pub open spec fn distinct_keys(entries: Seq<(Seq<char>, MetaView)>) -> bool {
    forall|i: int, j: int| 0 <= i < j < entries.len() ==> entries[i].0 != entries[j].0
}

/// Whether a metadata value is well formed: in every mapping in it, at
/// whatever depth, no key comes twice.
pub open spec fn well_formed(value: MetaView) -> bool
    decreases value,
{
    match value {
        MetaView::List(items) => forall|i: int|
            0 <= i < items.len() ==> well_formed(#[trigger] items[i]),
        MetaView::Mapping(entries) => distinct_keys(entries) && forall|i: int|
            0 <= i < entries.len() ==> well_formed((#[trigger] entries[i]).1),
        _ => true,
    }
}

/// What `key_index` finds is the first entry with the key, and it finds
/// nothing only where no entry has the key.
pub proof fn lemma_key_index(entries: Seq<(Seq<char>, MetaView)>, key: Seq<char>)
    ensures
        match key_index(entries, key) {
            Some(i) => 0 <= i < entries.len() && entries[i].0 == key && forall|j: int|
                0 <= j < i ==> entries[j].0 != key,
            None => forall|j: int| 0 <= j < entries.len() ==> entries[j].0 != key,
        },
    decreases entries.len(),
{
    if entries.len() > 0 {
        let before = entries.drop_last();
        lemma_key_index(before, key);
        assert forall|j: int| 0 <= j < before.len() implies before[j] == entries[j] by {}
    }
}

/// A mapping stays well formed when a well-formed value is put under a key.
pub proof fn lemma_with_entry(
    entries: Seq<(Seq<char>, MetaView)>,
    key: Seq<char>,
    value: MetaView,
)
    requires
        well_formed(MetaView::Mapping(entries)),
        well_formed(value),
    ensures
        well_formed(MetaView::Mapping(with_entry(entries, key, value))),
        lookup(with_entry(entries, key, value), key) == Some(value),
{
    lemma_key_index(entries, key);
    let after = with_entry(entries, key, value);
    lemma_key_index(after, key);
    match key_index(entries, key) {
        Some(i) => {
            assert(after[i] == (key, value));
        },
        None => {
            assert(after[entries.len() as int] == (key, value));
        },
    }
    assert forall|i: int| 0 <= i < after.len() implies well_formed((#[trigger] after[i]).1) by {
        if i < entries.len() && after[i] != (key, value) {
            assert(after[i] == entries[i]);
        }
    }
}

/// Law. Every metadata value that comes of a YAML value is well formed.
pub proof fn lemma_to_value_is_well_formed(y: YamlView)
    ensures
        well_formed(to_value(y)),
    decreases y, 0nat,
{
    match y {
        YamlView::Sequence(items) => {
            let list = to_value(y)->List_0;
            assert forall|i: int| 0 <= i < list.len() implies well_formed(
                #[trigger] list[i],
            ) by {
                lemma_to_value_is_well_formed(items[i]);
            }
        },
        YamlView::Mapping(entries) => {
            lemma_to_entries_are_well_formed(entries, entries.len() as int);
        },
        YamlView::Tagged(inner) => {
            lemma_to_value_is_well_formed(*inner);
        },
        _ => {},
    }
}

/// The entries that come of the first `n` entries of a YAML mapping make a
/// well-formed mapping.
pub proof fn lemma_to_entries_are_well_formed(entries: Seq<(YamlView, YamlView)>, n: int)
    ensures
        well_formed(MetaView::Mapping(to_entries(entries, n))),
    decreases entries, n,
{
    if 0 < n <= entries.len() {
        lemma_to_entries_are_well_formed(entries, n - 1);
        if string_key(entries[n - 1].0) is Some {
            lemma_to_value_is_well_formed(entries[n - 1].1);
            lemma_with_entry(
                to_entries(entries, n - 1),
                string_key(entries[n - 1].0)->0,
                to_value(entries[n - 1].1),
            );
        }
    }
}

/// Makes `serde_yaml::Value` known as a type whose inside is not looked at.
#[verifier::external_type_specification]
#[verifier::external_body]
pub struct ExYamlDocument(serde_yaml::Value);

/// What `serde_yaml::from_str`, asked for a `serde_yaml::Value`, makes of a
/// text: the document it reads, or nothing where it reports an error.
pub uninterp spec fn yaml_document(text: Seq<char>) -> Option<YamlView>;

/// What a `serde_yaml::Value` holds.
pub uninterp spec fn yaml_content(document: serde_yaml::Value) -> YamlView;

/// Calls `serde_yaml::from_str` for a `serde_yaml::Value`. The contract
/// claims only that the outcome is a function of the text: the same text
/// reads as the same document, or fails, every time.
#[verifier::external_body]
fn read_yaml(text: &str) -> (r: Option<serde_yaml::Value>)
    ensures
        match r {
            Some(document) => yaml_document(text@) == Some(yaml_content(document)),
            None => yaml_document(text@) is None,
        },
{
    serde_yaml::from_str::<serde_yaml::Value>(text).ok()
}

/// Copies a `serde_yaml::Value` into a [`YamlValue`], variant by variant. Of a
/// number it keeps what `Number::as_i64` and `Number::as_f64` give, the
/// latter as bits; of a tagged value, the value. The contract claims that the
/// copy holds what the document holds.
#[verifier::external_body]
fn mirror_yaml(document: serde_yaml::Value) -> (r: YamlValue)
    ensures
        r@ == yaml_content(document),
{
    match document {
        serde_yaml::Value::Null => YamlValue::Null,
        serde_yaml::Value::Bool(b) => YamlValue::Bool(b),
        serde_yaml::Value::Number(n) => YamlValue::Number(
            YamlNumber { integer: n.as_i64(), float_bits: n.as_f64().map(|f| f.to_bits()) },
        ),
        serde_yaml::Value::String(s) => YamlValue::String(s),
        serde_yaml::Value::Sequence(s) => YamlValue::Sequence(s.into_iter().map(mirror_yaml).collect()),
        serde_yaml::Value::Mapping(m) => YamlValue::Mapping(
            m.into_iter().map(|(k, v)| (mirror_yaml(k), mirror_yaml(v))).collect(),
        ),
        serde_yaml::Value::Tagged(t) => YamlValue::Tagged(Box::new(mirror_yaml(t.value))),
    }
}

/// The metadata that a frontmatter block stands for: the value of the YAML
/// document it holds, or an empty mapping where it is not valid YAML.
pub open spec fn metadata_of(block: Seq<char>) -> MetaView {
    match yaml_document(block) {
        Some(y) => to_value(y),
        None => MetaView::Mapping(Seq::empty()),
    }
}

/// Whether the bits are those of a finite double.
pub fn finite_bits(bits: u64) -> (b: bool)
    ensures
        b == is_finite_bits(bits),
{
    (bits / 0x10_0000_0000_0000) % 0x800 != 0x7ff
}

/// The value of a YAML number.
pub fn number_to_value(n: YamlNumber) -> (r: MetaValue)
    ensures
        r@ == number_value(n),
{
    match n.integer {
        Some(i) => MetaValue::Int(i),
        None => match n.float_bits {
            Some(bits) => if finite_bits(bits) {
                MetaValue::Float(bits)
            } else {
                MetaValue::Null
            },
            None => MetaValue::Null,
        },
    }
}

/// The text of a YAML value that is a string, tagged or not.
pub fn yaml_string(yaml: &YamlValue) -> (r: Option<&String>)
    ensures
        match r {
            Some(s) => string_key(yaml@) == Some(s@),
            None => string_key(yaml@) is None,
        },
    decreases yaml,
{
    match yaml {
        YamlValue::String(s) => Some(s),
        YamlValue::Tagged(inner) => yaml_string(inner),
        _ => None,
    }
}

/// The position of `key` among the keys of `entries`.
pub fn position_of_key(entries: &Vec<(String, MetaValue)>, key: &String) -> (r: Option<usize>)
    ensures
        match r {
            Some(i) => i < entries.len() && key_index(entry_views(entries@), key@) == Some(
                i as int,
            ),
            None => key_index(entry_views(entries@), key@) is None,
        },
{
    let ghost all = entry_views(entries@);
    let mut i: usize = 0;
    while i < entries.len()
        invariant
            i <= entries.len(),
            all == entry_views(entries@),
            key_index(all.take(i as int), key@) is None,
        decreases entries.len() - i,
    {
        let ghost next = all.take(i + 1);
        assert(next.drop_last() == all.take(i as int));
        if entries[i].0 == *key {
            proof {
                lemma_key_index_stays(all, key@, i + 1);
                assert(all.take(all.len() as int) == all);
            }
            return Some(i);
        }
        i = i + 1;
    }
    assert(all.take(i as int) == all);
    None
}

/// Once a key is found among the first `n` entries, it is found at the same
/// place among all of them.
pub proof fn lemma_key_index_stays(entries: Seq<(Seq<char>, MetaView)>, key: Seq<char>, n: int)
    requires
        0 <= n <= entries.len(),
        key_index(entries.take(n), key) is Some,
    ensures
        key_index(entries.take(entries.len() as int), key) == key_index(entries.take(n), key),
    decreases entries.len() - n,
{
    if n < entries.len() {
        let next = entries.take(n + 1);
        assert(next.drop_last() == entries.take(n));
        lemma_key_index_stays(entries, key, n + 1);
    }
}

/// The metadata value that a YAML value stands for.
pub fn yaml_to_value(yaml: &YamlValue) -> (r: MetaValue)
    ensures
        r@ == to_value(yaml@),
        well_formed(r@),
    decreases yaml,
{
    proof {
        lemma_to_value_is_well_formed(yaml@);
    }
    match yaml {
        YamlValue::Null => MetaValue::Null,
        YamlValue::Bool(b) => MetaValue::Bool(*b),
        YamlValue::Number(n) => number_to_value(*n),
        YamlValue::String(s) => MetaValue::Text(s.clone()),
        YamlValue::Sequence(items) => {
            let mut out: Vec<MetaValue> = Vec::new();
            let mut i: usize = 0;
            while i < items.len()
                invariant
                    i <= items.len(),
                    out.len() == i,
                    yaml is Sequence,
                    yaml->Sequence_0 == *items,
                    forall|j: int| 0 <= j < i ==> value_view(#[trigger] out@[j]) == to_value(yaml_view(items@[j])),
                decreases items.len() - i,
            {
                let item = yaml_to_value(&items[i]);
                out.push(item);
                i = i + 1;
            }
            let r = MetaValue::List(out);
            assert(r@ == to_value(yaml@)) by {
                assert(r@->List_0 =~= to_value(yaml@)->List_0);
            }
            r
        },
        YamlValue::Mapping(entries) => {
            let mut out: Vec<(String, MetaValue)> = Vec::new();
            let mut i: usize = 0;
            let ghost source = yaml@->Mapping_0;
            while i < entries.len()
                invariant
                    i <= entries.len(),
                    yaml is Mapping,
                    yaml->Mapping_0 == *entries,
                    source == yaml@->Mapping_0,
                    source.len() == entries.len(),
                    entry_views(out@) == to_entries(source, i as int),
                decreases entries.len() - i,
            {
                if let Some(key) = yaml_string(&entries[i].0) {
                    let value = yaml_to_value(&entries[i].1);
                    let ghost before = out@;
                    match position_of_key(&out, key) {
                        Some(at) => {
                            out.set(at, (key.clone(), value));
                            assert(entry_views(out@) =~= entry_views(before).update(
                                at as int,
                                (key@, value@),
                            ));
                        },
                        None => {
                            out.push((key.clone(), value));
                        },
                    }
                }
                i = i + 1;
            }
            let r = MetaValue::Mapping(out);
            assert(r@ == to_value(yaml@)) by {
                assert(r@->Mapping_0 =~= entry_views(out@));
            }
            r
        },
        YamlValue::Tagged(inner) => yaml_to_value(inner),
    }
}

/// The metadata that a frontmatter block stands for.
pub fn parse_frontmatter(block: &str) -> (r: MetaValue)
    ensures
        r@ == metadata_of(block@),
        well_formed(r@),
{
    match read_yaml(block) {
        Some(document) => {
            let yaml = mirror_yaml(document);
            yaml_to_value(&yaml)
        },
        None => {
            let r = MetaValue::Mapping(Vec::new());
            assert(r@->Mapping_0 =~= Seq::empty());
            r
        },
    }
}

/// The title that a metadata value gives.
pub fn title_of(value: &MetaValue) -> (r: Option<String>)
    ensures
        match r {
            Some(s) => title_in(value@) == Some(s@),
            None => title_in(value@) is None,
        },
{
    proof {
        reveal_strlit("title");
    }
    assert("title"@ == title_key());
    match value {
        MetaValue::Mapping(entries) => {
            assert(value@->Mapping_0 =~= entry_views(entries@));
            let key = "title".to_owned();
            match position_of_key(entries, &key) {
                Some(i) => match &entries[i].1 {
                    MetaValue::Text(s) => Some(s.clone()),
                    _ => None,
                },
                None => None,
            }
        },
        _ => None,
    }
}

} // verus!
