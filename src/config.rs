//! Extraction rules, the records they produce, and routing of an incoming
//! message to the first rule whose topic pattern matches.

use vstd::prelude::*;
use vstd::utf8::*;
use crate::json::{coerce, coerced, json_document, resolve, resolve_spec, JsonValue, TypedValue};
use crate::text::{split_on, split_string};
use crate::topic::{topic_matches, topic_matches_spec};

verus! {

/// Where an extracted value lands in a record.
#[derive(Debug, Clone, Copy, PartialEq, Eq, Structural)]
pub enum DstVariant {
    Field,
    Tag,
}

impl Default for DstVariant {
    fn default() -> (r: Self)
        ensures
            r == DstVariant::Field,
    {
        DstVariant::Field
    }
}

/// An ordered mapping from names to typed values, seen as its entries.
pub type Entries = Seq<(String, TypedValue)>;

pub open spec fn has_key(m: Entries, k: Seq<char>) -> bool {
    exists|j: int| 0 <= j < m.len() && (#[trigger] m[j]).0@ == k
}

/// The position of the first entry of `m` named `k`.
pub open spec fn key_position(m: Entries, k: Seq<char>) -> int {
    choose|j: int|
        0 <= j < m.len() && (#[trigger] m[j]).0@ == k && forall|l: int|
            0 <= l < j ==> (#[trigger] m[l]).0@ != k
}

/// `m` with `k` set to `v`: the entry named `k` is overwritten in place, or
/// a new entry is appended.
pub open spec fn put(m: Entries, k: String, v: TypedValue) -> Entries {
    if has_key(m, k@) {
        m.update(key_position(m, k@), (k, v))
    } else {
        m.push((k, v))
    }
}

/// No two entries of `m` share a name.
pub open spec fn unique_keys(m: Entries) -> bool {
    forall|i: int, j: int| 0 <= i < j < m.len() ==> (#[trigger] m[i]).0@ != (#[trigger] m[j]).0@
}

/// Sets `name` to `value` in `m`, overwriting an entry of that name.
fn put_entry(m: &mut Vec<(String, TypedValue)>, name: String, value: TypedValue)
    ensures
        final(m)@ == put(old(m)@, name, value),
{
    let mut j: usize = 0;
    while j < m.len()
        invariant
            m@ == old(m)@,
            j <= m@.len(),
            forall|l: int| 0 <= l < j ==> (#[trigger] m@[l]).0@ != name@,
        decreases m.len() - j,
    {
        if m[j].0 == name {
            proof {
                assert(m@[j as int].0@ == name@);
                assert(has_key(m@, name@));
                let f = key_position(m@, name@);
                assert(0 <= f < m@.len());
                if j < f {
                    assert(m@[j as int].0@ == name@);
                }
                assert(f == j);
            }
            m.set(j, (name, value));
            return;
        }
        j = j + 1;
    }
    proof {
        assert(!has_key(m@, name@));
    }
    m.push((name, value));
}

/// The output of one message: a name and its fields and tags.
#[derive(Debug)]
pub struct Record {
    pub name: String,
    pub fields: Vec<(String, TypedValue)>,
    pub tags: Vec<(String, TypedValue)>,
}

pub struct RecordModel {
    pub name: Seq<char>,
    pub fields: Entries,
    pub tags: Entries,
}

impl View for Record {
    type V = RecordModel;

    open spec fn view(&self) -> RecordModel {
        RecordModel { name: self.name@, fields: self.fields@, tags: self.tags@ }
    }
}

impl Record {
    /// No two fields and no two tags share a name.
    pub open spec fn wf(&self) -> bool {
        unique_keys(self.fields@) && unique_keys(self.tags@)
    }

    /// An empty record with the given name.
    pub fn new(name: String) -> (r: Record)
        ensures
            r@ == (RecordModel { name: name@, fields: Seq::empty(), tags: Seq::empty() }),
            r.wf(),
    {
        Record { name, fields: Vec::new(), tags: Vec::new() }
    }
}

/// The record `r` after `value` is written under `name` as `variant`.
pub open spec fn written(r: RecordModel, variant: DstVariant, name: String, value: TypedValue) -> RecordModel {
    match variant {
        DstVariant::Field => RecordModel { fields: put(r.fields, name, value), ..r },
        DstVariant::Tag => RecordModel { tags: put(r.tags, name, value), ..r },
    }
}

/// The first entry named `k` is at `p`.
proof fn lemma_key_position(m: Entries, k: Seq<char>, p: int)
    requires
        0 <= p < m.len(),
        m[p].0@ == k,
        forall|l: int| 0 <= l < p ==> (#[trigger] m[l]).0@ != k,
    ensures
        has_key(m, k),
        key_position(m, k) == p,
{
    assert(has_key(m, k));
    let f = key_position(m, k);
    assert(0 <= f < m.len() && m[f].0@ == k);
    if f > p {
        assert(m[p].0@ == k);
    }
}

/// Where `m` has an entry named `k`, there is a first one.
proof fn lemma_first_key(m: Entries, k: Seq<char>, j: int)
    requires
        0 <= j < m.len(),
        m[j].0@ == k,
    ensures
        0 <= key_position(m, k) < m.len(),
        m[key_position(m, k)].0@ == k,
        forall|l: int| 0 <= l < key_position(m, k) ==> (#[trigger] m[l]).0@ != k,
    decreases j,
{
    if exists|l: int| 0 <= l < j && (#[trigger] m[l]).0@ == k {
        let l = choose|l: int| 0 <= l < j && (#[trigger] m[l]).0@ == k;
        lemma_first_key(m, k, l);
    } else {
        lemma_key_position(m, k, j);
    }
}

/// Setting a name twice leaves the second value: the later write wins.
pub proof fn lemma_put_overwrites(m: Entries, k: String, v1: TypedValue, v2: TypedValue)
    ensures
        put(put(m, k, v1), k, v2) == put(m, k, v2),
{
    let m1 = put(m, k, v1);
    if has_key(m, k@) {
        let p = key_position(m, k@);
        let j = choose|j: int| 0 <= j < m.len() && (#[trigger] m[j]).0@ == k@;
        lemma_first_key(m, k@, j);
        assert forall|l: int| 0 <= l < p implies (#[trigger] m1[l]).0@ != k@ by {
            assert(m1[l] == m[l]);
        }
        lemma_key_position(m1, k@, p);
        assert(m1.update(p, (k, v2)) =~= m.update(p, (k, v2)));
    } else {
        assert forall|l: int| 0 <= l < m.len() implies (#[trigger] m1[l]).0@ != k@ by {
            assert(m1[l] == m[l]);
        }
        lemma_key_position(m1, k@, m.len() as int);
        assert(m1.update(m.len() as int, (k, v2)) =~= m.push((k, v2)));
    }
}

/// Setting a name keeps the names of a mapping unique.
pub proof fn lemma_put_unique(m: Entries, k: String, v: TypedValue)
    requires
        unique_keys(m),
    ensures
        unique_keys(put(m, k, v)),
{
    let r = put(m, k, v);
    if !has_key(m, k@) {
        assert forall|i: int, j: int| 0 <= i < j < r.len() implies (#[trigger] r[i]).0@ != (
        #[trigger] r[j]).0@ by {
            if j == m.len() {
                assert(r[i] == m[i]);
            }
        }
    } else {
        let p = key_position(m, k@);
        assert forall|i: int, j: int| 0 <= i < j < r.len() implies (#[trigger] r[i]).0@ != (
        #[trigger] r[j]).0@ by {
            if i != p && j != p {
                assert(r[i] == m[i] && r[j] == m[j]);
            } else if i == p {
                assert(r[j] == m[j]);
                assert(m[i].0@ == k@);
            } else {
                assert(r[i] == m[i]);
                assert(m[j].0@ == k@);
            }
        }
    }
}

impl DstVariant {
    /// Writes `value` under `name` into the fields or the tags of `record`;
    /// an earlier value of that name is overwritten.
    pub fn write_to(&self, name: String, value: TypedValue, record: Record) -> (r: Record)
        ensures
            r@ == written(record@, *self, name, value),
            record.wf() ==> r.wf(),
    {
        let mut record = record;
        proof {
            if record.wf() {
                lemma_put_unique(record.fields@, name, value);
                lemma_put_unique(record.tags@, name, value);
            }
        }
        match self {
            DstVariant::Field => put_entry(&mut record.fields, name, value),
            DstVariant::Tag => put_entry(&mut record.tags, name, value),
        }
        record
    }
}

/// One value of a JSON payload to extract.
#[derive(Debug)]
pub struct JsonField {
    /// A dotted path into the document.
    pub src_path: String,
    pub dst_variant: DstVariant,
    /// The output name; the path itself where absent.
    pub dst_name: Option<String>,
}

/// The name under which field `f` is written.
pub open spec fn output_name(f: JsonField) -> String {
    match f.dst_name {
        Some(n) => n,
        None => f.src_path,
    }
}

/// The value that field `f` resolves to in `doc`.
pub open spec fn field_value(f: JsonField, doc: JsonValue) -> JsonValue {
    resolve_spec(doc, split_on(f.src_path@, '.'))
}

impl JsonField {
    /// The segments of the path, split at every `.`.
    pub fn src_path_parts(&self) -> (r: Vec<String>)
        ensures
            r@.map_values(|p: String| p@) == split_on(self.src_path@, '.'),
    {
        split_string(self.src_path.as_str(), '.')
    }

    /// The name under which this field is written.
    pub fn output_name(&self) -> (r: String)
        ensures
            r == output_name(*self),
    {
        match &self.dst_name {
            Some(n) => n.clone(),
            None => self.src_path.clone(),
        }
    }
}

/// One named, classified value produced by an extraction.
#[derive(Debug)]
pub struct Emitted {
    pub name: String,
    pub variant: DstVariant,
    pub value: TypedValue,
}

/// What a payload yields: the emitted values in order, and the names of the
/// fields that resolved to `null` and were left out.
#[derive(Debug)]
pub struct Extraction {
    pub emitted: Vec<Emitted>,
    pub skipped: Vec<String>,
}

/// `emitted` and `skipped` are what `fields` yield from `doc`: each field in
/// turn either emits its coerced value or, where it resolves to `null`, is
/// skipped under its output name.
pub open spec fn json_extracted(
    fields: Seq<JsonField>,
    doc: JsonValue,
    emitted: Seq<Emitted>,
    skipped: Seq<String>,
) -> bool
    decreases fields.len(),
{
    if fields.len() == 0 {
        emitted.len() == 0 && skipped.len() == 0
    } else {
        let f = fields.last();
        let v = field_value(f, doc);
        if v is Null {
            skipped.len() > 0 && skipped.last() == output_name(f) && json_extracted(
                fields.drop_last(),
                doc,
                emitted,
                skipped.drop_last(),
            )
        } else {
            emitted.len() > 0 && emitted.last().name == output_name(f) && emitted.last().variant
                == f.dst_variant && coerced(v, Some(emitted.last().value)) && json_extracted(
                fields.drop_last(),
                doc,
                emitted.drop_last(),
                skipped,
            )
        }
    }
}

/// Extracts the values that `fields` name from a parsed document.
pub fn extract_json(fields: &Vec<JsonField>, doc: &JsonValue) -> (r: Extraction)
    ensures
        json_extracted(fields@, *doc, r.emitted@, r.skipped@),
{
    let mut emitted: Vec<Emitted> = Vec::new();
    let mut skipped: Vec<String> = Vec::new();
    let mut i: usize = 0;
    while i < fields.len()
        invariant
            i <= fields@.len(),
            json_extracted(fields@.subrange(0, i as int), *doc, emitted@, skipped@),
        decreases fields.len() - i,
    {
        let f = &fields[i];
        let parts = f.src_path_parts();
        let v = resolve(doc, &parts);
        let name = f.output_name();
        let ghost prev_e = emitted@;
        let ghost prev_s = skipped@;
        proof {
            assert(fields@.subrange(0, i + 1).drop_last() =~= fields@.subrange(0, i as int));
            assert(fields@.subrange(0, i + 1).last() == fields@[i as int]);
        }
        match coerce(v) {
            Some(value) => {
                emitted.push(Emitted { name, variant: f.dst_variant, value });
                proof {
                    assert(emitted@.drop_last() =~= prev_e);
                }
            },
            None => {
                skipped.push(name);
                proof {
                    assert(skipped@.drop_last() =~= prev_s);
                }
            },
        }
        i = i + 1;
    }
    proof {
        assert(fields@.subrange(0, i as int) =~= fields@);
    }
    Extraction { emitted, skipped }
}

/// The record `r` after each of `emitted` is written in order; a later value
/// of a name overwrites an earlier one.
pub open spec fn applied(r: RecordModel, emitted: Seq<Emitted>) -> RecordModel
    decreases emitted.len(),
{
    if emitted.len() == 0 {
        r
    } else {
        let e = emitted.last();
        written(applied(r, emitted.drop_last()), e.variant, e.name, e.value)
    }
}

/// Writes each of `emitted`, in order, into `record`.
pub fn apply_all(record: Record, emitted: Vec<Emitted>) -> (r: Record)
    ensures
        r@ == applied(record@, emitted@),
        record.wf() ==> r.wf(),
{
    let ghost all = emitted@;
    let total = emitted.len();
    let ghost start = record@;
    let ghost was_wf = record.wf();
    let mut record = record;
    let mut rest = emitted;
    let mut k: usize = 0;
    while rest.len() > 0
        invariant
            k + rest@.len() == all.len(),
            all.len() == total,
            rest@ == all.subrange(k as int, all.len() as int),
            record@ == applied(start, all.subrange(0, k as int)),
            was_wf ==> record.wf(),
        decreases rest.len(),
    {
        let e = rest.remove(0);
        proof {
            assert(all.subrange(0, k + 1).drop_last() =~= all.subrange(0, k as int));
            assert(all.subrange(0, k + 1).last() == all[k as int]);
            assert(rest@ =~= all.subrange(k + 1, all.len() as int));
        }
        record = e.variant.write_to(e.name, e.value, record);
        k = k + 1;
    }
    proof {
        assert(all.subrange(0, k as int) =~= all);
    }
    record
}

/// How a payload is turned into values.
#[derive(Debug)]
pub enum Fields {
    /// The whole payload as one text value.
    SingleText { dst_variant: DstVariant, dst_name: String },
    /// Values picked out of a JSON document by path.
    Json { fields: Vec<JsonField> },
}

/// Why a payload yields no values.
#[derive(Debug, Clone, Copy, PartialEq, Eq, Structural)]
pub enum ExtractError {
    /// The payload is not UTF-8 text, or not a JSON document.
    PayloadDecode,
}

/// Relies on std::str::from_utf8: it succeeds exactly on valid UTF-8, and
/// the text then holds the characters the bytes encode.
#[verifier::external_body]
fn utf8_text(bytes: &[u8]) -> (r: Option<String>)
    ensures
        r is Some <==> valid_utf8(bytes@),
        r is Some ==> r->0@ == decode_utf8(bytes@),
{
    std::str::from_utf8(bytes).ok().map(str::to_owned)
}

/// `r` is what `spec` yields from `payload`.
pub open spec fn extracted(spec: Fields, payload: Seq<u8>, r: Result<Extraction, ExtractError>) -> bool {
    match spec {
        Fields::SingleText { dst_variant, dst_name } => if valid_utf8(payload) {
            match r {
                Ok(x) => x.skipped@.len() == 0 && x.emitted@.len() == 1 && x.emitted@[0].name
                    == dst_name && x.emitted@[0].variant == dst_variant && match x.emitted@[0].value {
                    TypedValue::Text(t) => t@ == decode_utf8(payload),
                    _ => false,
                },
                Err(_) => false,
            }
        } else {
            r == Err::<Extraction, ExtractError>(ExtractError::PayloadDecode)
        },
        Fields::Json { fields } => match json_document(payload) {
            Some(doc) => match r {
                Ok(x) => json_extracted(fields@, doc, x.emitted@, x.skipped@),
                Err(_) => false,
            },
            None => r == Err::<Extraction, ExtractError>(ExtractError::PayloadDecode),
        },
    }
}

impl Fields {
    /// The values this rule yields from `payload`, in declared order; fails
    /// where the payload is not text (single text) or not JSON (json).
    pub fn extract(&self, payload: &[u8]) -> (r: Result<Extraction, ExtractError>)
        ensures
            extracted(*self, payload@, r),
    {
        match self {
            Fields::SingleText { dst_variant, dst_name } => match utf8_text(payload) {
                Some(text) => {
                    let mut emitted: Vec<Emitted> = Vec::new();
                    emitted.push(
                        Emitted {
                            name: dst_name.clone(),
                            variant: *dst_variant,
                            value: TypedValue::Text(text),
                        },
                    );
                    Ok(Extraction { emitted, skipped: Vec::new() })
                },
                None => Err(ExtractError::PayloadDecode),
            },
            Fields::Json { fields } => match JsonValue::parse(payload) {
                Some(doc) => Ok(extract_json(fields, &doc)),
                None => Err(ExtractError::PayloadDecode),
            },
        }
    }
}

/// One rule: a topic pattern, the name of the records it produces, and how
/// to extract their values.
#[derive(Debug)]
pub struct Entry {
    pub src_topic: String,
    pub dst_name: String,
    pub fields: Fields,
}

/// The rules, in order; the first whose pattern matches a topic handles it.
#[derive(Debug)]
pub struct Configuration {
    pub entries: Vec<Entry>,
}

/// Whether entry `e` takes messages on `topic`.
pub open spec fn entry_matches(e: Entry, topic: Seq<char>) -> bool {
    topic_matches_spec(topic, e.src_topic@)
}

/// Entry `i` is the first of `entries` that takes messages on `topic`.
pub open spec fn is_first_match(entries: Seq<Entry>, topic: Seq<char>, i: int) -> bool {
    &&& 0 <= i < entries.len()
    &&& entry_matches(entries[i], topic)
    &&& forall|l: int| 0 <= l < i ==> !entry_matches(#[trigger] entries[l], topic)
}

/// A message handled by an entry: its record and the fields left out.
#[derive(Debug)]
pub struct Handled {
    pub record: Record,
    pub skipped: Vec<String>,
}

/// `r` is what entry `e` makes of `payload`: the decode failure, or the
/// record named after the entry holding every extracted value.
pub open spec fn handled_by(e: Entry, payload: Seq<u8>, r: Result<Handled, ExtractError>) -> bool {
    match r {
        Err(err) => extracted(e.fields, payload, Err(err)),
        Ok(h) => exists|x: Extraction|
            #[trigger] extracted(e.fields, payload, Ok(x)) && h.record@ == applied(
                RecordModel { name: e.dst_name@, fields: Seq::empty(), tags: Seq::empty() },
                x.emitted@,
            ) && h.skipped@ == x.skipped@,
    }
}

impl Configuration {
    /// The position of the first entry whose pattern matches `topic`.
    pub fn find_entry(&self, topic: &str) -> (r: Option<usize>)
        ensures
            match r {
                Some(i) => is_first_match(self.entries@, topic@, i as int),
                None => forall|i: int|
                    0 <= i < self.entries@.len() ==> !entry_matches(
                        #[trigger] self.entries@[i],
                        topic@,
                    ),
            },
    {
        let mut i: usize = 0;
        while i < self.entries.len()
            invariant
                i <= self.entries@.len(),
                forall|l: int| 0 <= l < i ==> !entry_matches(#[trigger] self.entries@[l], topic@),
            decreases self.entries.len() - i,
        {
            if topic_matches(topic, self.entries[i].src_topic.as_str()) {
                return Some(i);
            }
            i = i + 1;
        }
        None
    }

    /// Handles one message: `None` where no entry takes the topic, else the
    /// position of the first entry that does and what it makes of the
    /// payload.
    pub fn handle(&self, topic: &str, payload: &[u8]) -> (r: Option<(usize, Result<Handled, ExtractError>)>)
        ensures
            match r {
                None => forall|i: int|
                    0 <= i < self.entries@.len() ==> !entry_matches(
                        #[trigger] self.entries@[i],
                        topic@,
                    ),
                Some((i, res)) => is_first_match(self.entries@, topic@, i as int) && handled_by(
                    self.entries@[i as int],
                    payload@,
                    res,
                ),
            },
            match r {
                Some((_, Ok(h))) => h.record.wf(),
                _ => true,
            },
    {
        match self.find_entry(topic) {
            None => None,
            Some(i) => {
                let entry = &self.entries[i];
                match entry.fields.extract(payload) {
                    Err(e) => Some((i, Err(e))),
                    Ok(x) => {
                        let ghost xg = x;
                        let record = apply_all(Record::new(entry.dst_name.clone()), x.emitted);
                        let h = Handled { record, skipped: x.skipped };
                        proof {
                            assert(extracted(entry.fields, payload@, Ok(xg)));
                        }
                        Some((i, Ok(h)))
                    },
                }
            },
        }
    }
}

} // verus!
