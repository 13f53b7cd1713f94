//! Reasoning adapters: the offline cassette engine, which answers from recorded
//! responses keyed by a stable hash of the request, and the provider engine's
//! deterministic half (its identity, and the mapping of its structured output).

use vstd::prelude::*;
use crate::domain::{Priority, RequirementCategory};
use crate::ports::{
    CandidateRequirement, CandidateRequirementView, ReasoningEngine, ReasoningError,
    ReasoningRequest, ReasoningResponse, ReasoningResponseView,
};
use crate::text::{hex_digits, hex_text, lowercased, str_equal, to_lowercase};
use crate::units::Magnitude;
use vstd::string::StringSliceAdditionalSpecFns;

verus! {

/// FNV-1a (64-bit) continued over more bytes.
pub open spec fn fnv_fold(h: u64, bytes: Seq<u8>) -> u64
    decreases bytes.len(),
{
    if bytes.len() == 0 {
        h
    } else {
        (fnv_fold(h, bytes.drop_last()) ^ (bytes.last() as u64)).wrapping_mul(0x0000_0100_0000_01b3u64)
    }
}

/// The cassette key of a request: FNV-1a over the prompt's then the schema name's UTF-8
/// bytes, xor the seed, as 16 lower-case hex digits.
pub open spec fn fixture_key(prompt: Seq<char>, schema: Seq<char>, seed: u64) -> Seq<char> {
    let h = fnv_fold(
        fnv_fold(0xcbf2_9ce4_8422_2325u64, vstd::utf8::encode_utf8(prompt)),
        vstd::utf8::encode_utf8(schema),
    );
    hex_digits((h ^ seed) as nat, 16)
}

fn fold_bytes(h: u64, text: &str) -> (r: u64)
    ensures
        r == fnv_fold(h, vstd::utf8::encode_utf8(text@)),
{
    let bytes = text.as_bytes();
    let n = bytes.len();
    let mut acc: u64 = h;
    let mut i: usize = 0;
    while i < n
        invariant
            n == bytes@.len(),
            bytes@ == text.spec_bytes(),
            i <= n,
            acc == fnv_fold(h, bytes@.take(i as int)),
        decreases n - i,
    {
        proof {
            assert(bytes@.take(i + 1).drop_last() =~= bytes@.take(i as int));
        }
        acc = (acc ^ (bytes[i] as u64)).wrapping_mul(0x0000_0100_0000_01b3);
        i = i + 1;
    }
    assert(bytes@.take(n as int) =~= bytes@);
    acc
}

/// One recorded response under its request key.
pub struct CassetteEntry {
    pub key: String,
    pub response: ReasoningResponse,
}

/// A recorded set of reasoning responses, with an optional answer for any request.
pub struct Cassette {
    pub entries: Vec<CassetteEntry>,
    pub default: Option<ReasoningResponse>,
}

impl Cassette {
    /// No entry and no default.
    pub fn empty() -> (c: Self)
        ensures
            c.entries@.len() == 0,
            c.default is None,
    {
        Cassette { entries: Vec::new(), default: None }
    }
}

/// The first entry of a cassette recorded under `key`.
pub open spec fn first_entry(entries: Seq<CassetteEntry>, key: Seq<char>, i: int) -> bool {
    &&& 0 <= i < entries.len()
    &&& entries[i].key@ == key
    &&& forall|j: int| 0 <= j < i ==> (#[trigger] entries[j]).key@ != key
}

/// What the cassette answers to a request with key `key`: the first entry recorded under
/// it, else the default, else nothing.
pub open spec fn cassette_answer(c: Cassette, key: Seq<char>) -> Option<ReasoningResponseView> {
    if exists|i: int| first_entry(c.entries@, key, i) {
        Some(c.entries@[choose|i: int| first_entry(c.entries@, key, i)].response@)
    } else {
        match c.default {
            Some(d) => Some(d@),
            None => None,
        }
    }
}

/// Answers from a cassette: deterministic, offline, no credentials.
pub struct FixtureEngine {
    cassette: Cassette,
}

impl FixtureEngine {
    pub closed spec fn recorded(&self) -> Cassette {
        self.cassette
    }

    /// One canned response for any request.
    pub fn single(response: ReasoningResponse) -> (e: Self)
        ensures
            e.recorded().entries@.len() == 0,
            e.recorded().default matches Some(d) && d@ == response@,
    {
        FixtureEngine { cassette: Cassette { entries: Vec::new(), default: Some(response) } }
    }

    pub fn from_cassette(cassette: Cassette) -> (e: Self)
        ensures
            e.recorded() == cassette,
    {
        FixtureEngine { cassette }
    }

    /// The stable lookup key of a request.
    pub fn key(req: &ReasoningRequest) -> (k: String)
        ensures
            k@ == fixture_key(req.prompt@, req.schema_name@, req.seed),
    {
        let h = fold_bytes(0xcbf2_9ce4_8422_2325, req.prompt.as_str());
        let h = fold_bytes(h, req.schema_name.as_str());
        let h = h ^ req.seed;
        hex_text(h as u128, 16)
    }

    /// Answers a request: the response recorded under its key, else the default, else
    /// unavailable.
    pub fn answer(&self, req: &ReasoningRequest) -> (r: Result<ReasoningResponse, ReasoningError>)
        ensures
            match cassette_answer(self.recorded(), fixture_key(req.prompt@, req.schema_name@, req.seed)) {
                Some(v) => r matches Ok(resp) && resp@ == v,
                None => r == Err::<ReasoningResponse, ReasoningError>(ReasoningError::Unavailable),
            },
    {
        let key = Self::key(req);
        let ghost k = key@;
        let entries = &self.cassette.entries;
        let n = entries.len();
        let mut i: usize = 0;
        while i < n
            invariant
                n == entries@.len(),
                entries@ == self.cassette.entries@,
                k == key@,
                k == fixture_key(req.prompt@, req.schema_name@, req.seed),
                i <= n,
                forall|j: int| 0 <= j < i ==> (#[trigger] entries@[j]).key@ != k,
            decreases n - i,
        {
            if entries[i].key.eq(&key) {
                proof {
                    assert(first_entry(entries@, k, i as int));
                    let c = choose|c: int| first_entry(entries@, k, c);
                    if c < i {
                        assert(entries@[c].key@ != k);
                    }
                    if i < c {
                        assert(entries@[i as int].key@ != k);
                    }
                    assert(exists|c: int| first_entry(self.recorded().entries@, k, c));
                    assert(cassette_answer(self.recorded(), k) == Some(entries@[i as int].response@));
                }
                let resp = entries[i].response.clone();
                return Ok(resp);
            }
            i = i + 1;
        }
        match &self.cassette.default {
            Some(d) => Ok(d.clone()),
            None => Err(ReasoningError::Unavailable),
        }
    }
}

impl ReasoningEngine for FixtureEngine {
    fn model_id(&self) -> (s: String)
        ensures
            s@ == "fixture"@,
    {
        String::from_str("fixture")
    }

    /// The response recorded under the request's key, else the default, else unavailable.
    fn request_judgement(&self, req: &ReasoningRequest) -> (r: Result<ReasoningResponse, ReasoningError>)
        ensures
            match cassette_answer(self.recorded(), fixture_key(req.prompt@, req.schema_name@, req.seed)) {
                Some(v) => r matches Ok(resp) && resp@ == v,
                None => r == Err::<ReasoningResponse, ReasoningError>(ReasoningError::Unavailable),
            },
    {
        self.answer(req)
    }
}

// ------------------------------------------------------------------------------------
// Provider engine
// ------------------------------------------------------------------------------------

/// The live provider engine: its credentials and model. The HTTP exchange is made at
/// the edge; the kernel maps the provider's structured output to candidates.
pub struct AnthropicEngine {
    api_key: String,
    model: String,
}

pub open spec fn provider_model_id(model: Seq<char>) -> Seq<char> {
    "anthropic:"@ + model
}

/// The requirement category a provider label names, case-insensitively; an unknown
/// label is functional.
pub open spec fn category_of(label: Seq<char>) -> RequirementCategory {
    category_named(lowercased(label))
}

/// The requirement category a lower-case label names; an unknown label is functional.
pub open spec fn category_named(l: Seq<char>) -> RequirementCategory {
    if l == "electrical"@ {
        RequirementCategory::Electrical
    } else if l == "mechanical"@ {
        RequirementCategory::Mechanical
    } else if l == "thermal"@ {
        RequirementCategory::Thermal
    } else if l == "regulatory"@ {
        RequirementCategory::Regulatory
    } else if l == "cost"@ {
        RequirementCategory::Cost
    } else if l == "schedule"@ {
        RequirementCategory::Schedule
    } else {
        RequirementCategory::Functional
    }
}

/// The priority a provider label names, case-insensitively; an unknown label is medium.
pub open spec fn priority_of(label: Seq<char>) -> Priority {
    priority_named(lowercased(label))
}

/// The priority a lower-case label names; an unknown label is medium.
pub open spec fn priority_named(l: Seq<char>) -> Priority {
    if l == "high"@ {
        Priority::High
    } else if l == "low"@ {
        Priority::Low
    } else {
        Priority::Medium
    }
}

/// Maps a provider category label.
pub fn map_category(s: &str) -> (c: RequirementCategory)
    ensures
        c == category_of(s@),
{
    let l = to_lowercase(s);
    category_from_lowered(l.as_str())
}

/// Maps an already lower-cased category label.
pub fn category_from_lowered(t: &str) -> (c: RequirementCategory)
    ensures
        c == category_named(t@),
{
    proof {
        reveal_strlit("electrical");
        reveal_strlit("mechanical");
        reveal_strlit("thermal");
        reveal_strlit("regulatory");
        reveal_strlit("cost");
        reveal_strlit("schedule");
    }
    if str_equal(t, "electrical") {
        RequirementCategory::Electrical
    } else if str_equal(t, "mechanical") {
        RequirementCategory::Mechanical
    } else if str_equal(t, "thermal") {
        RequirementCategory::Thermal
    } else if str_equal(t, "regulatory") {
        RequirementCategory::Regulatory
    } else if str_equal(t, "cost") {
        RequirementCategory::Cost
    } else if str_equal(t, "schedule") {
        RequirementCategory::Schedule
    } else {
        RequirementCategory::Functional
    }
}

/// Maps a provider priority label.
pub fn map_priority(s: &str) -> (p: Priority)
    ensures
        p == priority_of(s@),
{
    let l = to_lowercase(s);
    priority_from_lowered(l.as_str())
}

/// Maps an already lower-cased priority label.
pub fn priority_from_lowered(t: &str) -> (p: Priority)
    ensures
        p == priority_named(t@),
{
    proof {
        reveal_strlit("high");
        reveal_strlit("low");
    }
    if str_equal(t, "high") {
        Priority::High
    } else if str_equal(t, "low") {
        Priority::Low
    } else {
        Priority::Medium
    }
}

/// One candidate as the provider's structured output carries it.
pub struct RawCandidate {
    pub statement: String,
    pub category: String,
    pub priority: String,
    pub acceptance_criterion: String,
    pub source_hint: String,
    pub confidence: Magnitude,
    pub rationale: String,
}

/// `c` is the candidate mapped from the provider's `r`: labels mapped, no targets.
pub open spec fn mapped_from(c: CandidateRequirementView, r: RawCandidate) -> bool {
    &&& c.statement == r.statement
    &&& c.category == category_of(r.category@)
    &&& c.priority == priority_of(r.priority@)
    &&& c.acceptance_criterion == r.acceptance_criterion
    &&& c.source_hint == r.source_hint
    &&& c.confidence == r.confidence
    &&& c.rationale == r.rationale
    &&& c.targets.len() == 0
}

impl AnthropicEngine {
    pub fn new(api_key: String, model: String) -> (e: Self)
        ensures
            e.key_value() == api_key,
            e.model_value() == model,
    {
        AnthropicEngine { api_key, model }
    }

    pub closed spec fn key_value(&self) -> String {
        self.api_key
    }

    pub closed spec fn model_value(&self) -> String {
        self.model
    }

    pub fn api_key(&self) -> (k: &String)
        ensures
            *k == self.key_value(),
    {
        &self.api_key
    }

    pub fn model(&self) -> (m: &String)
        ensures
            *m == self.model_value(),
    {
        &self.model
    }

    /// `anthropic:` and the model name.
    pub fn model_id(&self) -> (s: String)
        ensures
            s@ == provider_model_id(self.model_value()@),
    {
        String::from_str("anthropic:").concat(self.model.as_str())
    }

    /// The response for the provider's structured output: every candidate mapped, in
    /// order, with the output's clarifying questions and raw text.
    pub fn response_from(raw: Vec<RawCandidate>, clarifying_questions: Vec<String>, raw_text: String) -> (r:
        ReasoningResponse)
        ensures
            r.candidates@.len() == raw@.len(),
            forall|k: int| 0 <= k < raw@.len() ==> mapped_from(#[trigger] r.candidates@[k]@, raw@[k]),
            r.clarifying_questions@ == clarifying_questions@,
            r.raw == raw_text,
    {
        let mut candidates: Vec<CandidateRequirement> = Vec::new();
        let n = raw.len();
        let mut i: usize = 0;
        while i < n
            invariant
                n == raw@.len(),
                i <= n,
                candidates@.len() == i,
                forall|k: int| 0 <= k < i ==> mapped_from(#[trigger] candidates@[k]@, raw@[k]),
            decreases n - i,
        {
            let c = &raw[i];
            candidates.push(
                CandidateRequirement {
                    statement: c.statement.clone(),
                    category: map_category(c.category.as_str()),
                    priority: map_priority(c.priority.as_str()),
                    acceptance_criterion: c.acceptance_criterion.clone(),
                    source_hint: c.source_hint.clone(),
                    confidence: c.confidence,
                    rationale: c.rationale.clone(),
                    targets: Vec::new(),
                },
            );
            i = i + 1;
        }
        ReasoningResponse { candidates, clarifying_questions, raw: raw_text }
    }
}

} // verus!
