use vstd::prelude::*;
use crate::config::ConfigEntry;
use crate::config::ConfigMap;
use crate::config::RuleError;
use crate::config::spec_config_get;
use crate::request::Request;
use crate::request::spec_header_value;
use crate::score::BodyLimit;
use crate::score::DEFAULT_HARD_LIMIT;
use crate::score::DEFAULT_HARD_WEIGHT_MILLI;
use crate::score::DEFAULT_MAX_EXCESS;
use crate::score::DEFAULT_MAX_LEN;
use crate::score::DEFAULT_MAX_SCORE_MILLI;
use crate::score::DEFAULT_SOFT_LIMIT;
use crate::score::DEFAULT_SOFT_WEIGHT_MILLI;
use crate::score::Decision;
use crate::score::Direction;
use crate::score::body_limit;
use crate::score::length_excess_score;
use crate::score::match_score;
use crate::score::spec_length_excess;
use crate::score::spec_length_excess_score;
use crate::score::spec_match_score;
use crate::score::spec_resolved_limit;
use crate::score::spec_resolved_weight;
use crate::score::spec_tier;
use crate::score::spec_tier_weight;
use crate::score::weight_limit;
use crate::sources::get_patterns;
use crate::sources::get_sources;
use crate::sources::spec_patterns;
use crate::sources::spec_sources;
use crate::patterns::PatternSet;
use crate::patterns::regex_set_compiles;
use crate::patterns::spec_total_match_count;
use crate::numeric_host::host_matches_numeric;
use crate::numeric_host::spec_host_is_numeric;
use crate::scan::parse_u64;
use crate::scan::spec_parse_u64;

verus! {

/// The request phases at which the host drives detectors.
#[derive(Clone, Copy, Debug, PartialEq, Eq, Structural)]
pub enum Phase {
    RequestHeaders,
    RequestBody,
}

pub open spec fn host_header_name() -> Seq<u8> {
    seq![72u8, 111u8, 115u8, 116u8]
}

fn host_name() -> (r: Vec<u8>)
    ensures
        r@ == host_header_name(),
{
    let v: Vec<u8> = vec![72u8, 111u8, 115u8, 116u8];
    proof {
        assert(v@ =~= host_header_name());
    }
    v
}

pub open spec fn content_type_header_name() -> Seq<u8> {
    seq![67u8, 111u8, 110u8, 116u8, 101u8, 110u8, 116u8, 45u8, 84u8, 121u8, 112u8, 101u8]
}

fn content_type_name() -> (r: Vec<u8>)
    ensures
        r@ == content_type_header_name(),
{
    let v: Vec<u8> = vec![67u8, 111u8, 110u8, 116u8, 101u8, 110u8, 116u8, 45u8, 84u8, 121u8, 112u8, 101u8];
    proof {
        assert(v@ =~= content_type_header_name());
    }
    v
}

pub open spec fn content_length_header_name() -> Seq<u8> {
    seq![
        67u8,
        111u8,
        110u8,
        116u8,
        101u8,
        110u8,
        116u8,
        45u8,
        76u8,
        101u8,
        110u8,
        103u8,
        116u8,
        104u8,
    ]
}

fn content_length_name() -> (r: Vec<u8>)
    ensures
        r@ == content_length_header_name(),
{
    let v: Vec<u8> = vec![
        67u8,
        111u8,
        110u8,
        116u8,
        101u8,
        110u8,
        116u8,
        45u8,
        76u8,
        101u8,
        110u8,
        103u8,
        116u8,
        104u8,
    ];
    proof {
        assert(v@ =~= content_length_header_name());
    }
    v
}

// ---------------------------------------------------------------------------
// Long Content-Type detector
// ---------------------------------------------------------------------------

pub struct LongContentType;

impl LongContentType {
    /// How many characters the `Content-Type` value is above the maximum.
    pub fn chars_above_max(content_type: &Vec<u8>) -> (r: usize)
        ensures
            r == spec_length_excess(content_type@.len(), 120),
    {
        if content_type.len() > 120 {
            content_type.len() - 120
        } else {
            0
        }
    }

    /// The length-excess score of the `Content-Type` value, in milli-units.
    pub fn score_content_type(content_type: &Vec<u8>) -> (r: u32)
        ensures
            r == spec_length_excess_score(content_type@.len(), 120, 150, 750),
            r <= 750,
    {
        length_excess_score(
            content_type.len() as u64,
            DEFAULT_MAX_LEN,
            DEFAULT_MAX_EXCESS,
            DEFAULT_MAX_SCORE_MILLI,
        )
    }

    /// Emits a restrict decision whenever a Content-Type header is present,
    /// tagged only when the score is positive; without the header there is
    /// nothing to judge and no decision.
    pub fn handle_request_decision(request: &Request) -> (r: Option<Decision>)
        ensures
            match spec_header_value(request.headers@, content_type_header_name()) {
                Some(v) => r matches Some(d) && d.score_milli == spec_length_excess_score(
                    v.len(),
                    120,
                    150,
                    750,
                ) && d.direction == Direction::Restrict && d.wf() && d.tags.deep_view() == (
                if spec_length_excess_score(v.len(), 120, 150, 750) > 0 {
                    seq!["long-content-type"@]
                } else {
                    Seq::<Seq<char>>::empty()
                }),
                None => r is None,
            },
    {
        let name = content_type_name();
        match request.header_value(&name) {
            Some(v) => {
                let score = Self::score_content_type(v);
                let mut tags: Vec<String> = Vec::new();
                proof {
                    assert(tags.deep_view() =~~= Seq::<Seq<char>>::empty());
                }
                if score > 0 {
                    let tag: String = "long-content-type".to_owned();
                    tags.push(tag);
                    proof {
                        assert(tags.deep_view() =~~= seq!["long-content-type"@]);
                    }
                }
                Some(Decision { score_milli: score, direction: Direction::Restrict, tags })
            },
            None => None,
        }
    }
}

// ---------------------------------------------------------------------------
// Numeric-host detector
// ---------------------------------------------------------------------------

/// Whether the request's Host header holds a literal network address; a
/// missing Host header is a fatal error, never a negative classification.
pub fn check_numeric_host(request: &Request) -> (r: Result<bool, RuleError>)
    ensures
        match spec_header_value(request.headers@, host_header_name()) {
            Some(h) => r == Ok::<bool, RuleError>(spec_host_is_numeric(h)),
            None => r == Err::<bool, RuleError>(RuleError::MissingHost),
        },
{
    let name = host_name();
    match request.header_value(&name) {
        Some(h) => Ok(host_matches_numeric(h)),
        None => Err(RuleError::MissingHost),
    }
}

pub struct NumericHostPlugin;

impl NumericHostPlugin {
    /// A numeric host restricts maximally; the detector judges its mandatory
    /// field on every request, so a non-numeric host still emits score zero.
    pub fn on_request_decision(request: &Request) -> (r: Result<Decision, RuleError>)
        ensures
            match spec_header_value(request.headers@, host_header_name()) {
                Some(h) => r matches Ok(d) && d.score_milli == (if spec_host_is_numeric(h) {
                    1000nat
                } else {
                    0nat
                }) && d.direction == Direction::Restrict && d.wf() && d.tags.deep_view()
                    == Seq::<Seq<char>>::empty(),
                None => r == Err::<Decision, RuleError>(RuleError::MissingHost),
            },
    {
        match check_numeric_host(request) {
            Ok(numeric) => {
                let score: u32 = if numeric {
                    1000
                } else {
                    0
                };
                let tags: Vec<String> = Vec::new();
                proof {
                    assert(tags.deep_view() =~~= Seq::<Seq<char>>::empty());
                }
                Ok(Decision { score_milli: score, direction: Direction::Restrict, tags })
            },
            Err(e) => Err(e),
        }
    }
}

// ---------------------------------------------------------------------------
// Pattern-matching detector
// ---------------------------------------------------------------------------

/// The configured increment and its direction: exactly one of `restrict` or
/// `accept` must be present, and it must be a number.
pub open spec fn spec_increment(entries: Seq<ConfigEntry>) -> Result<(i64, Direction), RuleError> {
    match (spec_config_get(entries, "restrict"@), spec_config_get(entries, "accept"@)) {
        (Some(_), Some(_)) => Err(RuleError::ConflictingIncrements),
        (Some(rv), None) => match rv.spec_as_milli() {
            Some(m) => Ok((m, Direction::Restrict)),
            None => Err(RuleError::IncrementNotNumber),
        },
        (None, Some(av)) => match av.spec_as_milli() {
            Some(m) => Ok((m, Direction::Accept)),
            None => Err(RuleError::IncrementNotNumber),
        },
        (None, None) => Err(RuleError::MissingIncrement),
    }
}

/// Everything the pattern-matching detector decides, as mathematical values:
/// either the failing configuration error, or score, direction, and whether
/// an unknown location key was skipped (the "error" tag).
pub open spec fn spec_regex_outcome(entries: Seq<ConfigEntry>, req: Request) -> Result<
    (nat, Direction, bool),
    RuleError,
> {
    match spec_sources(spec_config_get(entries, "location"@), req) {
        None => Err(RuleError::InvalidLocationConfig),
        Some(extracted) => match spec_patterns(spec_config_get(entries, "patterns"@)) {
            Err(e) => Err(e),
            Ok(pats) => if pats.len() == 0 {
                Err(RuleError::EmptyPatterns)
            } else if !regex_set_compiles(pats) {
                Err(RuleError::UnparseablePattern)
            } else {
                match spec_increment(entries) {
                    Err(e) => Err(e),
                    Ok(inc) => Ok(
                        (
                            spec_match_score(
                                inc.0 as int,
                                spec_total_match_count(pats, extracted.0),
                            ),
                            inc.1,
                            extracted.1,
                        ),
                    ),
                }
            },
        },
    }
}

/// One pattern-matching invocation: extract the configured sources, count
/// distinct-pattern matches across them, scale by the configured increment.
pub fn regex_handler(config: &ConfigMap, request: &Request) -> (r: Result<Decision, RuleError>)
    ensures
        match spec_regex_outcome(config.entries@, *request) {
            Ok(o) => r matches Ok(d) && d.score_milli == o.0 && d.direction == o.1 && d.wf()
                && d.tags.deep_view() == (if o.2 {
                seq!["error"@]
            } else {
                Seq::<Seq<char>>::empty()
            }),
            Err(e) => r == Err::<Decision, RuleError>(e),
        },
{
    let loc_key: String = "location".to_owned();
    let extracted = match get_sources(config.get(&loc_key), request) {
        Ok(p) => p,
        Err(e) => {
            return Err(e);
        },
    };
    let sources = extracted.0;
    let err_tag = extracted.1;
    let pat_key: String = "patterns".to_owned();
    let patterns = match get_patterns(config.get(&pat_key)) {
        Ok(p) => p,
        Err(e) => {
            return Err(e);
        },
    };
    let set = match PatternSet::build(&patterns) {
        Ok(s) => s,
        Err(e) => {
            return Err(e);
        },
    };
    let restrict_key: String = "restrict".to_owned();
    let accept_key: String = "accept".to_owned();
    let k: i64;
    let dir: Direction;
    match (config.get(&restrict_key), config.get(&accept_key)) {
        (Some(_), Some(_)) => {
            return Err(RuleError::ConflictingIncrements);
        },
        (Some(rv), None) => match rv.as_milli() {
            Some(m) => {
                k = m;
                dir = Direction::Restrict;
            },
            None => {
                return Err(RuleError::IncrementNotNumber);
            },
        },
        (None, Some(av)) => match av.as_milli() {
            Some(m) => {
                k = m;
                dir = Direction::Accept;
            },
            None => {
                return Err(RuleError::IncrementNotNumber);
            },
        },
        (None, None) => {
            return Err(RuleError::MissingIncrement);
        },
    }
    let n = set.total_match_count(&sources);
    let score = match_score(k, n);
    let mut tags: Vec<String> = Vec::new();
    proof {
        assert(tags.deep_view() =~~= Seq::<Seq<char>>::empty());
    }
    if err_tag {
        let tag: String = "error".to_owned();
        tags.push(tag);
        proof {
            assert(tags.deep_view() =~~= seq!["error"@]);
        }
    }
    Ok(Decision { score_milli: score, direction: dir, tags })
}

pub struct RegexPlugin;

impl RegexPlugin {
    pub fn on_request_decision(config: &ConfigMap, request: &Request) -> (r: Result<
        Decision,
        RuleError,
    >)
        ensures
            match spec_regex_outcome(config.entries@, *request) {
                Ok(o) => r matches Ok(d) && d.score_milli == o.0 && d.direction == o.1 && d.wf()
                    && d.tags.deep_view() == (if o.2 {
                    seq!["error"@]
                } else {
                    Seq::<Seq<char>>::empty()
                }),
                Err(e) => r == Err::<Decision, RuleError>(e),
            },
    {
        regex_handler(config, request)
    }

    pub fn on_request_body_decision(config: &ConfigMap, request: &Request) -> (r: Result<
        Decision,
        RuleError,
    >)
        ensures
            match spec_regex_outcome(config.entries@, *request) {
                Ok(o) => r matches Ok(d) && d.score_milli == o.0 && d.direction == o.1 && d.wf()
                    && d.tags.deep_view() == (if o.2 {
                    seq!["error"@]
                } else {
                    Seq::<Seq<char>>::empty()
                }),
                Err(e) => r == Err::<Decision, RuleError>(e),
            },
    {
        regex_handler(config, request)
    }
}

// ---------------------------------------------------------------------------
// Size-limit detector
// ---------------------------------------------------------------------------

/// The restrict weight owed for a measured size under this configuration.
pub open spec fn spec_size_weight(entries: Seq<ConfigEntry>, size: nat) -> nat {
    spec_tier_weight(
        spec_tier(
            size,
            spec_resolved_limit(
                spec_config_get(entries, "soft_limit"@),
                DEFAULT_SOFT_LIMIT as nat,
            ),
            spec_resolved_limit(
                spec_config_get(entries, "hard_limit"@),
                DEFAULT_HARD_LIMIT as nat,
            ),
        ),
        spec_resolved_weight(
            spec_config_get(entries, "soft_weight"@),
            DEFAULT_SOFT_WEIGHT_MILLI as nat,
        ),
        spec_resolved_weight(
            spec_config_get(entries, "hard_weight"@),
            DEFAULT_HARD_WEIGHT_MILLI as nat,
        ),
    )
}

/// The declared request size: the Content-Length header when it is present
/// and reads as a number.
pub open spec fn spec_content_length(req: Request) -> Option<u64> {
    match spec_header_value(req.headers@, content_length_header_name()) {
        Some(v) => spec_parse_u64(v),
        None => None,
    }
}

pub struct SizeLimitPlugin;

impl SizeLimitPlugin {
    fn weigh(config: &ConfigMap, size: u64) -> (r: u32)
        ensures
            r == spec_size_weight(config.entries@, size as nat),
            r <= 1000,
    {
        let soft_limit_key: String = "soft_limit".to_owned();
        let hard_limit_key: String = "hard_limit".to_owned();
        let soft_weight_key: String = "soft_weight".to_owned();
        let hard_weight_key: String = "hard_weight".to_owned();
        let tier: BodyLimit = body_limit(
            config.get(&soft_limit_key),
            config.get(&hard_limit_key),
            size,
        );
        weight_limit(config.get(&soft_weight_key), config.get(&hard_weight_key), tier)
    }

    /// Headers phase: scores the declared Content-Length, when one parses;
    /// without a readable declared size there is nothing to judge.
    pub fn on_request_decision(config: &ConfigMap, request: &Request) -> (r: Option<Decision>)
        ensures
            match spec_content_length(*request) {
                Some(len) => r matches Some(d) && d.score_milli == spec_size_weight(
                    config.entries@,
                    len as nat,
                ) && d.direction == Direction::Restrict && d.wf() && d.tags.deep_view()
                    == Seq::<Seq<char>>::empty(),
                None => r is None,
            },
    {
        let name = content_length_name();
        let declared: Option<u64> = match request.header_value(&name) {
            Some(v) => parse_u64(v),
            None => None,
        };
        match declared {
            Some(len) => {
                let w = Self::weigh(config, len);
                let tags: Vec<String> = Vec::new();
                proof {
                    assert(tags.deep_view() =~~= Seq::<Seq<char>>::empty());
                }
                Some(Decision { score_milli: w, direction: Direction::Restrict, tags })
            },
            None => None,
        }
    }

    /// Body phase: always scores the size received so far.
    pub fn on_request_body_decision(config: &ConfigMap, request: &Request) -> (r: Decision)
        ensures
            r.score_milli == spec_size_weight(config.entries@, request.body.size as nat),
            r.direction == Direction::Restrict,
            r.wf(),
            r.tags.deep_view() == Seq::<Seq<char>>::empty(),
    {
        let w = Self::weigh(config, request.body.size);
        let tags: Vec<String> = Vec::new();
        proof {
            assert(tags.deep_view() =~~= Seq::<Seq<char>>::empty());
        }
        Decision { score_milli: w, direction: Direction::Restrict, tags }
    }
}

// ---------------------------------------------------------------------------
// Phase dispatch
// ---------------------------------------------------------------------------

/// One independently configured rule instance. The host drives dispatch: it
/// asks the detector to evaluate at a phase; the detector never subscribes
/// itself to anything.
#[derive(Clone, Copy, Debug, PartialEq, Eq, Structural)]
pub enum Detector {
    LongContentType,
    NumericHost,
    PatternMatch,
    SizeLimit,
}

impl Detector {
    /// Evaluates this detector at one phase: `Ok(None)` where the phase does
    /// not apply or there is nothing to judge, `Ok(Some)` with the decision,
    /// and `Err` for a fatal configuration or missing-signal failure.
    pub fn evaluate_at(&self, phase: Phase, config: &ConfigMap, request: &Request) -> (r: Result<
        Option<Decision>,
        RuleError,
    >)
        ensures
            *self == Detector::LongContentType && phase == Phase::RequestHeaders ==> match
                spec_header_value(request.headers@, content_type_header_name()) {
                Some(v) => r matches Ok(od) && od matches Some(d) && d.score_milli
                    == spec_length_excess_score(v.len(), 120, 150, 750) && d.direction
                    == Direction::Restrict && d.wf(),
                None => r == Ok::<Option<Decision>, RuleError>(None),
            },
            *self == Detector::NumericHost && phase == Phase::RequestHeaders ==> match
                spec_header_value(request.headers@, host_header_name()) {
                Some(h) => r matches Ok(od) && od matches Some(d) && d.score_milli == (
                if spec_host_is_numeric(h) {
                    1000nat
                } else {
                    0nat
                }) && d.direction == Direction::Restrict && d.wf(),
                None => r == Err::<Option<Decision>, RuleError>(RuleError::MissingHost),
            },
            *self == Detector::PatternMatch ==> match spec_regex_outcome(
                config.entries@,
                *request,
            ) {
                Ok(o) => r matches Ok(od) && od matches Some(d) && d.score_milli == o.0
                    && d.direction == o.1 && d.wf(),
                Err(e) => r == Err::<Option<Decision>, RuleError>(e),
            },
            *self == Detector::SizeLimit && phase == Phase::RequestHeaders ==> match
                spec_content_length(*request) {
                Some(len) => r matches Ok(od) && od matches Some(d) && d.score_milli
                    == spec_size_weight(config.entries@, len as nat) && d.direction
                    == Direction::Restrict && d.wf(),
                None => r == Ok::<Option<Decision>, RuleError>(None),
            },
            *self == Detector::SizeLimit && phase == Phase::RequestBody ==> (r matches Ok(od)
                && od matches Some(d) && d.score_milli == spec_size_weight(
                config.entries@,
                request.body.size as nat,
            ) && d.direction == Direction::Restrict && d.wf()),
            (*self == Detector::LongContentType || *self == Detector::NumericHost) && phase
                == Phase::RequestBody ==> r == Ok::<Option<Decision>, RuleError>(None),
    {
        match (self, phase) {
            (Detector::LongContentType, Phase::RequestHeaders) => Ok(
                LongContentType::handle_request_decision(request),
            ),
            (Detector::LongContentType, Phase::RequestBody) => Ok(None),
            (Detector::NumericHost, Phase::RequestHeaders) => match
                NumericHostPlugin::on_request_decision(request) {
                Ok(d) => Ok(Some(d)),
                Err(e) => Err(e),
            },
            (Detector::NumericHost, Phase::RequestBody) => Ok(None),
            (Detector::PatternMatch, Phase::RequestHeaders) => match RegexPlugin::on_request_decision(
                config,
                request,
            ) {
                Ok(d) => Ok(Some(d)),
                Err(e) => Err(e),
            },
            (Detector::PatternMatch, Phase::RequestBody) => match
                RegexPlugin::on_request_body_decision(config, request) {
                Ok(d) => Ok(Some(d)),
                Err(e) => Err(e),
            },
            (Detector::SizeLimit, Phase::RequestHeaders) => Ok(
                SizeLimitPlugin::on_request_decision(config, request),
            ),
            (Detector::SizeLimit, Phase::RequestBody) => Ok(
                Some(SizeLimitPlugin::on_request_body_decision(config, request)),
            ),
        }
    }
}

} // verus!
