//! The bridge to the external consistency checker: the options a check
//! takes, the verdict it returns, and the exact wire forms of both and of
//! the history handed over.

use crate::history::{HistoryType, SerializableHistory, SerializableHistoryList};
use crate::json::{
    fields_view, jsons_view, lemma_fields_view, lemma_jsons_view, spec_op_json, JsonV, JsonValue,
};
use crate::op::OpFunctionType;
use vstd::prelude::*;

verus! {

/// The directory diagnostic artifacts go to when none is chosen.
pub fn default_out_dir() -> (r: String)
    ensures
        r@ == "./out"@,
{
    String::from_str("./out")
}

/// The verdict value of a check: anomalies found, none found, or the
/// analyzer could not decide.
#[derive(Debug, Clone, Copy, PartialEq, Eq)]
pub enum ValidType {
    True,
    False,
    Unknown,
}

/// A verdict on the wire: a JSON boolean, or the keyword `:unknown`.
pub open spec fn spec_valid_json(v: ValidType) -> JsonV {
    match v {
        ValidType::True => JsonV::Bool(true),
        ValidType::False => JsonV::Bool(false),
        ValidType::Unknown => JsonV::Str(":unknown"@),
    }
}

/// The verdict a wire value stands for, when it stands for one.
pub open spec fn spec_valid_of_json(v: JsonV) -> Option<ValidType> {
    match v {
        JsonV::Bool(b) => Some(
            if b {
                ValidType::True
            } else {
                ValidType::False
            },
        ),
        JsonV::Str(s) => if s == ":unknown"@ {
            Some(ValidType::Unknown)
        } else {
            None
        },
        _ => None,
    }
}

impl ValidType {
    /// Serialize the verdict into its wire form.
    pub fn to_json(&self) -> (r: JsonValue)
        ensures
            r@ == spec_valid_json(*self),
    {
        match self {
            ValidType::True => JsonValue::Bool(true),
            ValidType::False => JsonValue::Bool(false),
            ValidType::Unknown => JsonValue::Str(String::from_str(":unknown")),
        }
    }

    /// Parse a verdict from its wire form: a boolean, or the string
    /// `:unknown`; anything else is no verdict.
    pub fn from_json(v: &JsonValue) -> (r: Result<ValidType, &'static str>)
        ensures
            r matches Ok(t) ==> spec_valid_of_json(v@) == Some(t),
            r is Err <==> spec_valid_of_json(v@) is None,
    {
        match v {
            JsonValue::Bool(b) => Ok(
                if *b {
                    ValidType::True
                } else {
                    ValidType::False
                },
            ),
            JsonValue::Str(s) => {
                let unknown = String::from_str(":unknown");
                if *s == unknown {
                    Ok(ValidType::Unknown)
                } else {
                    Err("invalid string value")
                }
            },
            _ => Err("invalid type"),
        }
    }
}

/// The consistency models the checker knows, serialized as kebab keywords.
#[derive(Debug, Clone, Copy, PartialEq, Eq)]
pub enum ConsistencyModel {
    ConsistentView,
    ConflictSerializable,
    CursorStability,
    ForwardConsistentView,
    MonotonicSnapshotRead,
    MonotonicView,
    ReadCommitted,
    ReadUncommitted,
    RepeatableRead,
    Serializable,
    SnapshotIsolation,
    StrictSerializable,
    StrongSerializable,
    UpdateSerializable,
    StrongSessionReadUncommitted,
    StrongSessionReadCommitted,
    StrongReadUncommitted,
    StrongReadCommitted,
}

impl Default for ConsistencyModel {
    /// By default, serializability.
    fn default() -> (r: ConsistencyModel)
        ensures
            r is Serializable,
    {
        ConsistencyModel::Serializable
    }
}

/// The keyword a consistency model serializes as.
pub open spec fn spec_model_keyword(m: ConsistencyModel) -> Seq<char> {
    match m {
        ConsistencyModel::ConsistentView => ":consistent-view"@,
        ConsistencyModel::ConflictSerializable => ":conflict-serializable"@,
        ConsistencyModel::CursorStability => ":cursor-stability"@,
        ConsistencyModel::ForwardConsistentView => ":forward-consistent-view"@,
        ConsistencyModel::MonotonicSnapshotRead => ":monotonic-snapshot-read"@,
        ConsistencyModel::MonotonicView => ":monotonic-view"@,
        ConsistencyModel::ReadCommitted => ":read-committed"@,
        ConsistencyModel::ReadUncommitted => ":read-uncommitted"@,
        ConsistencyModel::RepeatableRead => ":repeatable-read"@,
        ConsistencyModel::Serializable => ":serializable"@,
        ConsistencyModel::SnapshotIsolation => ":snapshot-isolation"@,
        ConsistencyModel::StrictSerializable => ":strict-serializable"@,
        ConsistencyModel::StrongSerializable => ":strong-serializable"@,
        ConsistencyModel::UpdateSerializable => ":update-serializable"@,
        ConsistencyModel::StrongSessionReadUncommitted => ":strong-session-read-uncommitted"@,
        ConsistencyModel::StrongSessionReadCommitted => ":strong-session-read-committed"@,
        ConsistencyModel::StrongReadUncommitted => ":strong-read-uncommitted"@,
        ConsistencyModel::StrongReadCommitted => ":strong-read-committed"@,
    }
}

impl ConsistencyModel {
    /// The keyword this model serializes as.
    pub fn keyword(&self) -> (r: &'static str)
        ensures
            r@ == spec_model_keyword(*self),
    {
        match self {
            ConsistencyModel::ConsistentView => ":consistent-view",
            ConsistencyModel::ConflictSerializable => ":conflict-serializable",
            ConsistencyModel::CursorStability => ":cursor-stability",
            ConsistencyModel::ForwardConsistentView => ":forward-consistent-view",
            ConsistencyModel::MonotonicSnapshotRead => ":monotonic-snapshot-read",
            ConsistencyModel::MonotonicView => ":monotonic-view",
            ConsistencyModel::ReadCommitted => ":read-committed",
            ConsistencyModel::ReadUncommitted => ":read-uncommitted",
            ConsistencyModel::RepeatableRead => ":repeatable-read",
            ConsistencyModel::Serializable => ":serializable",
            ConsistencyModel::SnapshotIsolation => ":snapshot-isolation",
            ConsistencyModel::StrictSerializable => ":strict-serializable",
            ConsistencyModel::StrongSerializable => ":strong-serializable",
            ConsistencyModel::UpdateSerializable => ":update-serializable",
            ConsistencyModel::StrongSessionReadUncommitted => ":strong-session-read-uncommitted",
            ConsistencyModel::StrongSessionReadCommitted => ":strong-session-read-committed",
            ConsistencyModel::StrongReadUncommitted => ":strong-read-uncommitted",
            ConsistencyModel::StrongReadCommitted => ":strong-read-committed",
        }
    }
}

/// What a check is asked to do: which consistency models to test, which
/// analyzer to use, which anomalies to look for, and where diagnostics go.
#[derive(Debug)]
pub struct CheckOption {
    pub consistency_models: Option<Vec<ConsistencyModel>>,
    pub directory: String,
    pub anomalies: Option<Vec<String>>,
    pub analyzer: Option<String>,
}

impl CheckOption {
    /// Choose the consistency models to test.
    pub fn consistency_models(self, models: Vec<ConsistencyModel>) -> (r: CheckOption)
        ensures
            r.consistency_models == Some(models),
            r.directory == self.directory,
            r.anomalies == self.anomalies,
            r.analyzer == self.analyzer,
    {
        CheckOption { consistency_models: Some(models), ..self }
    }

    /// Choose the anomalies to look for.
    pub fn anomalies(self, anomalies: Vec<String>) -> (r: CheckOption)
        ensures
            r.anomalies == Some(anomalies),
            r.consistency_models == self.consistency_models,
            r.directory == self.directory,
            r.analyzer == self.analyzer,
    {
        CheckOption { anomalies: Some(anomalies), ..self }
    }

    /// Choose the analyzer.
    pub fn analyzer(self, analyzer: String) -> (r: CheckOption)
        ensures
            r.analyzer == Some(analyzer),
            r.consistency_models == self.consistency_models,
            r.directory == self.directory,
            r.anomalies == self.anomalies,
    {
        CheckOption { analyzer: Some(analyzer), ..self }
    }

    /// Choose the diagnostics directory.
    pub fn directory(self, directory: String) -> (r: CheckOption)
        ensures
            r.directory == directory,
            r.consistency_models == self.consistency_models,
            r.anomalies == self.anomalies,
            r.analyzer == self.analyzer,
    {
        CheckOption { directory, ..self }
    }
}

impl Default for CheckOption {
    /// By default: no model list, the default output directory, no anomaly
    /// list, no analyzer.
    fn default() -> (r: CheckOption)
        ensures
            r.consistency_models is None,
            r.directory@ == "./out"@,
            r.anomalies is None,
            r.analyzer is None,
    {
        CheckOption {
            consistency_models: None,
            directory: default_out_dir(),
            anomalies: None,
            analyzer: None,
        }
    }
}

/// The models of a string list.
pub open spec fn strings_view(s: Seq<String>) -> Seq<Seq<char>>
    decreases s,
{
    if s.len() == 0 {
        Seq::empty()
    } else {
        strings_view(s.drop_last()).push(s.last()@)
    }
}

/// The model of a string list is the list of the models.
pub broadcast proof fn lemma_strings_view(s: Seq<String>)
    ensures
        #[trigger] strings_view(s).len() == s.len(),
        forall|i: int| 0 <= i < s.len() ==> strings_view(s)[i] == s[i]@,
    decreases s.len(),
{
    if s.len() > 0 {
        lemma_strings_view(s.drop_last());
    }
}

/// The keywords of a model list.
pub open spec fn models_keywords(s: Seq<ConsistencyModel>) -> Seq<JsonV>
    decreases s,
{
    if s.len() == 0 {
        Seq::empty()
    } else {
        models_keywords(s.drop_last()).push(JsonV::Str(spec_model_keyword(s.last())))
    }
}

/// The keywords of a model list are the keywords of its models.
pub broadcast proof fn lemma_models_keywords(s: Seq<ConsistencyModel>)
    ensures
        #[trigger] models_keywords(s).len() == s.len(),
        forall|i: int|
            0 <= i < s.len() ==> models_keywords(s)[i] == JsonV::Str(spec_model_keyword(s[i])),
    decreases s.len(),
{
    if s.len() > 0 {
        lemma_models_keywords(s.drop_last());
    }
}

/// The wire form of a string list: an array of JSON strings.
pub open spec fn spec_string_array(s: Seq<Seq<char>>) -> Seq<JsonV>
    decreases s,
{
    if s.len() == 0 {
        Seq::empty()
    } else {
        spec_string_array(s.drop_last()).push(JsonV::Str(s.last()))
    }
}

/// The wire form of a string list holds each string in place.
pub broadcast proof fn lemma_spec_string_array(s: Seq<Seq<char>>)
    ensures
        #[trigger] spec_string_array(s).len() == s.len(),
        forall|i: int| 0 <= i < s.len() ==> spec_string_array(s)[i] == JsonV::Str(s[i]),
    decreases s.len(),
{
    if s.len() > 0 {
        lemma_spec_string_array(s.drop_last());
    }
}

/// The wire form of a check request: keyword keys in declaration order, the
/// absent options left out.
pub open spec fn spec_check_option_json(opt: CheckOption) -> JsonV {
    JsonV::Obj(
        (match opt.consistency_models {
            Some(ms) => seq![((":consistency-models"@), JsonV::Arr(models_keywords(ms@)))],
            None => Seq::empty(),
        }) + seq![((":directory"@), JsonV::Str(opt.directory@))] + (match opt.anomalies {
            Some(a) => seq![((":anomalies"@), JsonV::Arr(spec_string_array(strings_view(a@))))],
            None => Seq::empty(),
        }) + (match opt.analyzer {
            Some(a) => seq![((":analyzer"@), JsonV::Str(a@))],
            None => Seq::empty(),
        }),
    )
}

/// Serialize a check request into its wire form.
#[verifier::loop_isolation(false)]
pub fn check_option_to_json(opt: &CheckOption) -> (r: JsonValue)
    ensures
        r@ == spec_check_option_json(*opt),
{
    let mut fields: Vec<(String, JsonValue)> = Vec::new();
    match &opt.consistency_models {
        Some(ms) => {
            let mut arr: Vec<JsonValue> = Vec::new();
            let mut i: usize = 0;
            while i < ms.len()
                invariant
                    i <= ms@.len(),
                    arr@.len() == i,
                    forall|j: int|
                        0 <= j < i ==> arr@[j]@ == JsonV::Str(spec_model_keyword(ms@[j])),
                decreases ms@.len() - i,
            {
                arr.push(JsonValue::Str(String::from_str(ms[i].keyword())));
                i = i + 1;
            }
            proof {
                lemma_jsons_view(arr@);
                lemma_models_keywords(ms@);
                assert(jsons_view(arr@) =~= models_keywords(ms@));
            }
            fields.push((String::from_str(":consistency-models"), JsonValue::Arr(arr)));
        },
        None => {},
    }
    fields.push((String::from_str(":directory"), JsonValue::Str(opt.directory.clone())));
    match &opt.anomalies {
        Some(anomalies) => {
            let mut arr: Vec<JsonValue> = Vec::new();
            let mut i: usize = 0;
            while i < anomalies.len()
                invariant
                    i <= anomalies@.len(),
                    arr@.len() == i,
                    forall|j: int| 0 <= j < i ==> arr@[j]@ == JsonV::Str(anomalies@[j]@),
                decreases anomalies@.len() - i,
            {
                arr.push(JsonValue::Str(anomalies[i].clone()));
                i = i + 1;
            }
            proof {
                lemma_jsons_view(arr@);
                lemma_spec_string_array(strings_view(anomalies@));
                lemma_strings_view(anomalies@);
                assert(jsons_view(arr@) =~= spec_string_array(strings_view(anomalies@)));
            }
            fields.push((String::from_str(":anomalies"), JsonValue::Arr(arr)));
        },
        None => {},
    }
    match &opt.analyzer {
        Some(a) => {
            fields.push((String::from_str(":analyzer"), JsonValue::Str(a.clone())));
        },
        None => {},
    }
    let r = JsonValue::Obj(fields);
    proof {
        lemma_fields_view(fields@);
        assert(fields_view(fields@) =~= spec_check_option_json(*opt)->Obj_0);
    }
    r
}

/// The keyword a history kind serializes as.
pub open spec fn spec_history_type_keyword(t: HistoryType) -> Seq<char> {
    match t {
        HistoryType::Invoke => ":invoke"@,
        HistoryType::Okay => ":ok"@,
        HistoryType::Fail => ":fail"@,
        HistoryType::Info => ":info"@,
    }
}

/// The keyword a history kind serializes as.
pub fn history_type_keyword(t: &HistoryType) -> (r: &'static str)
    ensures
        r@ == spec_history_type_keyword(*t),
{
    match t {
        HistoryType::Invoke => ":invoke",
        HistoryType::Okay => ":ok",
        HistoryType::Fail => ":fail",
        HistoryType::Info => ":info",
    }
}

/// The keyword an operation tag serializes as.
pub open spec fn spec_op_type_keyword(t: OpFunctionType) -> Seq<char> {
    match t {
        OpFunctionType::Read => ":r"@,
        OpFunctionType::Write => ":w"@,
        OpFunctionType::Txn => ":txn"@,
    }
}

/// The keyword an operation tag serializes as.
pub fn op_type_keyword(t: &OpFunctionType) -> (r: &'static str)
    ensures
        r@ == spec_op_type_keyword(*t),
{
    match t {
        OpFunctionType::Read => ":r",
        OpFunctionType::Write => ":w",
        OpFunctionType::Txn => ":txn",
    }
}

/// The wire form of one history entry: a map with keyword keys in schema
/// order, the error field left out when there is no error.
pub open spec fn spec_entry_json(e: SerializableHistory) -> JsonV {
    JsonV::Obj(
        seq![
            ((":index"@), JsonV::UInt(e.index)),
            ((":type"@), JsonV::Str(spec_history_type_keyword(e.type_))),
            ((":f"@), JsonV::Str(spec_op_type_keyword(e.f))),
            ((":value"@), spec_op_json(crate::op::op_view(e.value))),
            ((":time"@), JsonV::UInt(e.time)),
            ((":process"@), JsonV::UInt(e.process)),
        ] + (match e.error {
            Some(err) => seq![((":error"@), JsonV::Arr(spec_string_array(strings_view(err@))))],
            None => Seq::empty(),
        }),
    )
}

/// Serialize one history entry into its wire form.
pub fn entry_to_json(e: &SerializableHistory) -> (r: JsonValue)
    ensures
        r@ == spec_entry_json(*e),
{
    let mut fields: Vec<(String, JsonValue)> = Vec::new();
    fields.push((String::from_str(":index"), JsonValue::UInt(e.index)));
    fields.push(
        (String::from_str(":type"), JsonValue::Str(String::from_str(history_type_keyword(&e.type_)))),
    );
    fields.push((String::from_str(":f"), JsonValue::Str(String::from_str(op_type_keyword(&e.f)))));
    fields.push((String::from_str(":value"), crate::json::op_to_json(&e.value)));
    fields.push((String::from_str(":time"), JsonValue::UInt(e.time)));
    fields.push((String::from_str(":process"), JsonValue::UInt(e.process)));
    match &e.error {
        Some(err) => {
            let mut arr: Vec<JsonValue> = Vec::new();
            let mut i: usize = 0;
            while i < err.len()
                invariant
                    i <= err@.len(),
                    arr@.len() == i,
                    forall|j: int| 0 <= j < i ==> arr@[j]@ == JsonV::Str(err@[j]@),
                decreases err@.len() - i,
            {
                arr.push(JsonValue::Str(err[i].clone()));
                i = i + 1;
            }
            proof {
                lemma_jsons_view(arr@);
                lemma_spec_string_array(strings_view(err@));
                lemma_strings_view(err@);
                assert(jsons_view(arr@) =~= spec_string_array(strings_view(err@)));
            }
            fields.push((String::from_str(":error"), JsonValue::Arr(arr)));
        },
        None => {},
    }
    let r = JsonValue::Obj(fields);
    proof {
        lemma_fields_view(fields@);
        assert(fields_view(fields@) =~= spec_entry_json(*e)->Obj_0);
    }
    r
}

/// The wire forms of a history's entries.
pub open spec fn spec_history_json(h: Seq<SerializableHistory>) -> Seq<JsonV>
    decreases h,
{
    if h.len() == 0 {
        Seq::empty()
    } else {
        spec_history_json(h.drop_last()).push(spec_entry_json(h.last()))
    }
}

/// The wire form of a history holds each entry's form in order.
pub broadcast proof fn lemma_spec_history_json(h: Seq<SerializableHistory>)
    ensures
        #[trigger] spec_history_json(h).len() == h.len(),
        forall|i: int| 0 <= i < h.len() ==> spec_history_json(h)[i] == spec_entry_json(h[i]),
    decreases h.len(),
{
    if h.len() > 0 {
        lemma_spec_history_json(h.drop_last());
    }
}

/// Serialize the whole history into its wire form: the array of its entries'
/// forms, in order.
#[verifier::loop_isolation(false)]
pub fn history_to_json(h: &SerializableHistoryList) -> (r: JsonValue)
    ensures
        r@ == JsonV::Arr(spec_history_json(h.0@)),
{
    let mut arr: Vec<JsonValue> = Vec::new();
    let mut i: usize = 0;
    while i < h.0.len()
        invariant
            i <= h.0@.len(),
            arr@.len() == i,
            forall|j: int| 0 <= j < i ==> arr@[j]@ == spec_entry_json(h.0@[j]),
        decreases h.0@.len() - i,
    {
        arr.push(entry_to_json(&h.0[i]));
        i = i + 1;
    }
    let r = JsonValue::Arr(arr);
    proof {
        lemma_jsons_view(arr@);
        lemma_spec_history_json(h.0@);
        assert(jsons_view(arr@) =~= spec_history_json(h.0@));
    }
    r
}

/// What the checker reports back: whether the history satisfies the
/// requested models, which anomaly kinds it saw, and which models it
/// excludes.
#[derive(Debug)]
pub struct SerializableCheckResult {
    pub valid: ValidType,
    pub anomaly_types: Vec<String>,
    pub anomalies: Option<JsonValue>,
    pub ruled_out: Vec<String>,
    pub also_ruled_out: Vec<String>,
}

/// The value under the first field named `key`, if any.
pub open spec fn spec_lookup(fs: Seq<(Seq<char>, JsonV)>, key: Seq<char>) -> Option<JsonV>
    decreases fs,
{
    if fs.len() == 0 {
        None
    } else if fs.first().0 == key {
        Some(fs.first().1)
    } else {
        spec_lookup(fs.drop_first(), key)
    }
}

/// The strings of a wire array, when it holds only strings.
pub open spec fn spec_strings_of_json(a: Seq<JsonV>) -> Option<Seq<Seq<char>>>
    decreases a,
{
    if a.len() == 0 {
        Some(Seq::empty())
    } else {
        match a.last() {
            JsonV::Str(s) => match spec_strings_of_json(a.drop_last()) {
                Some(rest) => Some(rest.push(s)),
                None => None,
            },
            _ => None,
        }
    }
}

/// A list-valued field is well formed when it is absent or an array of
/// strings.
pub open spec fn spec_list_field_ok(fs: Seq<(Seq<char>, JsonV)>, key: Seq<char>) -> bool {
    match spec_lookup(fs, key) {
        Some(jv) => jv matches JsonV::Arr(a) && spec_strings_of_json(a) is Some,
        None => true,
    }
}

/// A well-formed verdict object: an object whose `:valid?` field parses as
/// a verdict and whose list fields, where present, are arrays of strings.
pub open spec fn spec_result_shape_ok(v: JsonV) -> bool {
    v matches JsonV::Obj(fs) && {
        &&& (spec_lookup(fs, ":valid?"@) matches Some(jv) && spec_valid_of_json(jv) is Some)
        &&& spec_list_field_ok(fs, ":anomaly-types"@)
        &&& spec_list_field_ok(fs, ":not"@)
        &&& spec_list_field_ok(fs, ":also-not"@)
    }
}

/// Parse a verdict object from its wire form. The `:valid?` field must be
/// present and well-formed; the list fields default to empty and the
/// anomalies payload to nothing when missing. Parsing succeeds exactly on
/// well-formed verdict objects.
pub fn parse_check_result(v: &JsonValue) -> (r: Result<SerializableCheckResult, &'static str>)
    ensures
        r is Ok <==> spec_result_shape_ok(v@),
        r matches Ok(res) ==> v@ matches JsonV::Obj(fs) && {
            &&& spec_lookup(fs, ":valid?"@) matches Some(jv) && spec_valid_of_json(jv) == Some(
                res.valid,
            )
            &&& (match spec_lookup(fs, ":anomaly-types"@) {
                Some(jv) => jv matches JsonV::Arr(a) && spec_strings_of_json(a) == Some(
                    strings_view(res.anomaly_types@),
                ),
                None => res.anomaly_types@.len() == 0,
            })
            &&& (match spec_lookup(fs, ":anomalies"@) {
                Some(jv) => res.anomalies matches Some(a) && a@ == jv,
                None => res.anomalies is None,
            })
            &&& (match spec_lookup(fs, ":not"@) {
                Some(jv) => jv matches JsonV::Arr(a) && spec_strings_of_json(a) == Some(
                    strings_view(res.ruled_out@),
                ),
                None => res.ruled_out@.len() == 0,
            })
            &&& (match spec_lookup(fs, ":also-not"@) {
                Some(jv) => jv matches JsonV::Arr(a) && spec_strings_of_json(a) == Some(
                    strings_view(res.also_ruled_out@),
                ),
                None => res.also_ruled_out@.len() == 0,
            })
        },
{
    let fields = match v {
        JsonValue::Obj(fields) => fields,
        _ => {
            return Err("expected an object");
        },
    };
    let valid_field = lookup_field(fields, ":valid?");
    let valid = match valid_field {
        Some(jv) => match ValidType::from_json(jv) {
            Ok(t) => t,
            Err(e) => {
                return Err(e);
            },
        },
        None => {
            return Err("missing :valid? field");
        },
    };
    let anomaly_types = match lookup_field(fields, ":anomaly-types") {
        Some(jv) => match parse_string_array(jv) {
            Ok(ss) => ss,
            Err(e) => {
                return Err(e);
            },
        },
        None => Vec::new(),
    };
    let anomalies = match lookup_field(fields, ":anomalies") {
        Some(jv) => Some(clone_json(jv)),
        None => None,
    };
    let ruled_out = match lookup_field(fields, ":not") {
        Some(jv) => match parse_string_array(jv) {
            Ok(ss) => ss,
            Err(e) => {
                return Err(e);
            },
        },
        None => Vec::new(),
    };
    let also_ruled_out = match lookup_field(fields, ":also-not") {
        Some(jv) => match parse_string_array(jv) {
            Ok(ss) => ss,
            Err(e) => {
                return Err(e);
            },
        },
        None => Vec::new(),
    };
    Ok(SerializableCheckResult { valid, anomaly_types, anomalies, ruled_out, also_ruled_out })
}

/// Find the first field with the given name.
#[verifier::loop_isolation(false)]
fn lookup_field<'a>(fields: &'a Vec<(String, JsonValue)>, key: &str) -> (r: Option<&'a JsonValue>)
    ensures
        (match r {
            Some(jv) => spec_lookup(fields_view(fields@), key@) == Some(jv@),
            None => spec_lookup(fields_view(fields@), key@) is None,
        }),
{
    let owned = key.to_owned();
    let mut i: usize = 0;
    proof {
        lemma_fields_view(fields@);
    }
    while i < fields.len()
        invariant
            owned@ == key@,
            i <= fields@.len(),
            forall|j: int| 0 <= j < i ==> fields@[j].0@ != key@,
        decreases fields@.len() - i,
    {
        let e = &fields[i].0;
        if *e == owned {
            proof {
                lemma_lookup_found(fields_view(fields@), key@, i as int);
            }
            return Some(&fields[i].1);
        }
        i = i + 1;
    }
    proof {
        lemma_lookup_missing(fields_view(fields@), key@);
    }
    None
}

/// When the first `i` field names differ from the key and field `i` bears
/// it, the lookup finds field `i`'s value.
proof fn lemma_lookup_found(fs: Seq<(Seq<char>, JsonV)>, key: Seq<char>, i: int)
    requires
        0 <= i < fs.len(),
        forall|j: int| 0 <= j < i ==> fs[j].0 != key,
        fs[i].0 == key,
    ensures
        spec_lookup(fs, key) == Some(fs[i].1),
    decreases i,
{
    if i > 0 {
        lemma_lookup_found(fs.drop_first(), key, i - 1);
    }
}

/// When no field bears the key, the lookup finds nothing.
proof fn lemma_lookup_missing(fs: Seq<(Seq<char>, JsonV)>, key: Seq<char>)
    requires
        forall|j: int| 0 <= j < fs.len() ==> (#[trigger] fs[j]).0 != key,
    ensures
        spec_lookup(fs, key) is None,
    decreases fs.len(),
{
    if fs.len() > 0 {
        lemma_lookup_missing(fs.drop_first(), key);
    }
}

/// When one element of an array is not a string, the array holds no string
/// list.
proof fn lemma_strings_of_json_none(a: Seq<JsonV>, i: int)
    requires
        0 <= i < a.len(),
        !(a[i] is Str),
    ensures
        spec_strings_of_json(a) is None,
    decreases a.len(),
{
    if i < a.len() - 1 {
        lemma_strings_of_json_none(a.drop_last(), i);
    }
}

/// Read an array of strings out of a wire value; succeeds exactly on arrays
/// of strings.
#[verifier::loop_isolation(false)]
fn parse_string_array(v: &JsonValue) -> (r: Result<Vec<String>, &'static str>)
    ensures
        r is Ok <==> (v@ matches JsonV::Arr(a) && spec_strings_of_json(a) is Some),
        r matches Ok(ss) ==> v@ matches JsonV::Arr(a) && spec_strings_of_json(a) == Some(
            strings_view(ss@),
        ),
{
    let arr = match v {
        JsonValue::Arr(items) => items,
        _ => {
            return Err("expected an array of strings");
        },
    };
    let mut out: Vec<String> = Vec::new();
    let mut i: usize = 0;
    proof {
        lemma_jsons_view(arr@);
    }
    while i < arr.len()
        invariant
            i <= arr@.len(),
            out@.len() == i,
            spec_strings_of_json(jsons_view(arr@).subrange(0, i as int)) == Some(
                strings_view(out@),
            ),
        decreases arr@.len() - i,
    {
        let ghost prefix = jsons_view(arr@).subrange(0, i as int);
        match &arr[i] {
            JsonValue::Str(s) => {
                let ghost out_before = out@;
                out.push(s.clone());
                proof {
                    lemma_strings_view(out@);
                    lemma_strings_view(out_before);
                    assert(jsons_view(arr@).subrange(0, i + 1).drop_last() =~= prefix);
                    assert(jsons_view(arr@).subrange(0, i + 1).last() == JsonV::Str(s@));
                    assert(strings_view(out@).drop_last() =~= strings_view(out_before));
                    assert(strings_view(out@) =~= strings_view(out_before).push(s@));
                }
            },
            _ => {
                proof {
                    lemma_strings_of_json_none(jsons_view(arr@), i as int);
                }
                return Err("expected an array of strings");
            },
        }
        i = i + 1;
    }
    proof {
        assert(jsons_view(arr@).subrange(0, arr@.len() as int) =~= jsons_view(arr@));
    }
    Ok(out)
}

/// A structural copy of a JSON value.
#[verifier::loop_isolation(false)]
fn clone_json(v: &JsonValue) -> (r: JsonValue)
    ensures
        r@ == v@,
    decreases *v,
{
    match v {
        JsonValue::Null => JsonValue::Null,
        JsonValue::Bool(b) => JsonValue::Bool(*b),
        JsonValue::UInt(n) => JsonValue::UInt(*n),
        JsonValue::Str(s) => JsonValue::Str(s.clone()),
        JsonValue::Arr(items) => {
            let mut out: Vec<JsonValue> = Vec::new();
            let mut i: usize = 0;
            while i < items.len()
                invariant
                    i <= items@.len(),
                    out@.len() == i,
                    forall|j: int| 0 <= j < i ==> out@[j]@ == items@[j]@,
                decreases items@.len() - i,
            {
                proof {
                    let ghost whole = *v;
                    assert(decreases_to!(whole => whole->Arr_0));
                    assert(decreases_to!(whole->Arr_0 => whole->Arr_0@));
                    assert(decreases_to!(whole->Arr_0@ => whole->Arr_0@[i as int]));
                    assert(whole->Arr_0@[i as int] == items@[i as int]);
                }
                let c = clone_json(&items[i]);
                out.push(c);
                i = i + 1;
            }
            let r = JsonValue::Arr(out);
            proof {
                lemma_jsons_view(out@);
                lemma_jsons_view(items@);
                assert(jsons_view(out@) =~= jsons_view(items@));
            }
            r
        },
        JsonValue::Obj(fields) => {
            let mut out: Vec<(String, JsonValue)> = Vec::new();
            let mut i: usize = 0;
            while i < fields.len()
                invariant
                    i <= fields@.len(),
                    out@.len() == i,
                    forall|j: int|
                        0 <= j < i ==> (#[trigger] out@[j]).0@ == fields@[j].0@ && out@[j].1@
                            == fields@[j].1@,
                decreases fields@.len() - i,
            {
                proof {
                    let ghost whole = *v;
                    assert(decreases_to!(whole => whole->Obj_0));
                    assert(decreases_to!(whole->Obj_0 => whole->Obj_0@));
                    assert(decreases_to!(whole->Obj_0@ => whole->Obj_0@[i as int]));
                    assert(whole->Obj_0@[i as int] == fields@[i as int]);
                    assert(decreases_to!(whole->Obj_0@[i as int] => whole->Obj_0@[i as int].1));
                }
                let key = fields[i].0.clone();
                let val = clone_json(&fields[i].1);
                out.push((key, val));
                i = i + 1;
            }
            let r = JsonValue::Obj(out);
            proof {
                lemma_fields_view(out@);
                lemma_fields_view(fields@);
                assert(fields_view(out@) =~= fields_view(fields@));
            }
            r
        },
    }
}

/// A consistency checker, implemented outside this crate. It receives the
/// recorded history and the options and reports a verdict. Nothing is
/// assumed of it beyond its signature.
pub trait Check {
    fn check(&mut self, history: &SerializableHistoryList, option: CheckOption) -> Result<
        SerializableCheckResult,
        String,
    >;
}

} // verus!
