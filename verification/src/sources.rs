use vstd::prelude::*;
use crate::config::ConfigEntry;
use crate::config::ConfigValue;
use crate::config::RuleError;
use crate::request::Header;
use crate::request::Request;
use crate::request::spec_header_value;
use vstd::utf8::encode_utf8;

verus! {

// ---------------------------------------------------------------------------
// What a location specification resolves to, as a mathematical value
// ---------------------------------------------------------------------------

pub open spec fn opt_source(v: Option<Vec<u8>>) -> Seq<Seq<u8>> {
    match v {
        Some(b) => seq![b@],
        None => Seq::empty(),
    }
}

pub open spec fn spec_header_values(headers: Seq<Header>) -> Seq<Seq<u8>> {
    headers.map_values(|h: Header| h.value@)
}

/// The `"all"` selection: host if present, path, query if present, every
/// header value in order, and the body content if it was received.
pub open spec fn spec_all_sources(req: Request) -> Seq<Seq<u8>> {
    opt_source(req.host) + seq![req.path@] + opt_source(req.query) + spec_header_values(req.headers@)
        + (if req.body.received {
        seq![req.body.content@]
    } else {
        Seq::<Seq<u8>>::empty()
    })
}

/// The values of the named headers, in the order the names are listed;
/// names that are not strings and names of absent headers select nothing.
pub open spec fn spec_header_list_sources(items: Seq<ConfigValue>, headers: Seq<Header>) -> Seq<Seq<u8>>
    decreases items.len(),
{
    if items.len() == 0 {
        Seq::empty()
    } else {
        let rest = spec_header_list_sources(items.drop_first(), headers);
        match items[0] {
            ConfigValue::Str(name) => match spec_header_value(headers, encode_utf8(name@)) {
                Some(v) => seq![v] + rest,
                None => rest,
            },
            _ => rest,
        }
    }
}

/// What one key of an object-form location selects, and whether the key is
/// unknown (a non-fatal, per-key error).
pub open spec fn spec_entry_sources(e: ConfigEntry, req: Request) -> (Seq<Seq<u8>>, bool) {
    if e.key@ == "host"@ {
        (opt_source(req.host), false)
    } else if e.key@ == "path"@ {
        (seq![req.path@], false)
    } else if e.key@ == "query"@ {
        (opt_source(req.query), false)
    } else if e.key@ == "header"@ {
        match e.value {
            ConfigValue::Arr(items) => (spec_header_list_sources(items@, req.headers@), false),
            _ => (Seq::<Seq<u8>>::empty(), false),
        }
    } else if e.key@ == "body"@ {
        (
            if req.body.received {
                seq![req.body.content@]
            } else {
                Seq::<Seq<u8>>::empty()
            },
            false,
        )
    } else {
        (Seq::<Seq<u8>>::empty(), true)
    }
}

pub open spec fn spec_object_sources(entries: Seq<ConfigEntry>, req: Request) -> (Seq<Seq<u8>>, bool)
    decreases entries.len(),
{
    if entries.len() == 0 {
        (Seq::<Seq<u8>>::empty(), false)
    } else {
        let head = spec_entry_sources(entries[0], req);
        let rest = spec_object_sources(entries.drop_first(), req);
        (head.0 + rest.0, head.1 || rest.1)
    }
}

/// The full source selection: an absent location means `"all"`; the keyword
/// `"all"` and the object form are the only accepted shapes, everything else
/// is a fatal configuration error (`None` here).
pub open spec fn spec_sources(location: Option<ConfigValue>, req: Request) -> Option<(Seq<Seq<u8>>, bool)> {
    match location {
        None => Some((spec_all_sources(req), false)),
        Some(cv) => match cv {
            ConfigValue::Str(kw) => if kw@ == "all"@ {
                Some((spec_all_sources(req), false))
            } else {
                None
            },
            ConfigValue::Obj(entries) => Some(spec_object_sources(entries@, req)),
            _ => None,
        },
    }
}

// ---------------------------------------------------------------------------
// Executable extraction
// ---------------------------------------------------------------------------

/// String comparison against a literal.
pub fn str_is(s: &String, lit: &str) -> (r: bool)
    ensures
        r == (s@ == lit@),
{
    let owned: String = lit.to_owned();
    *s == owned
}

/// Appends a copy of one drawn byte sequence.
fn push_source(sources: &mut Vec<Vec<u8>>, v: &Vec<u8>)
    ensures
        final(sources).deep_view() == old(sources).deep_view().push(v@),
{
    let copy: Vec<u8> = vstd::slice::slice_to_vec(v.as_slice());
    sources.push(copy);
    proof {
        assert(sources.deep_view() =~~= old(sources).deep_view().push(v@));
    }
}

/// Resolves a `location` configuration value against a request into the
/// ordered byte sequences to inspect, together with a flag that records
/// whether an unknown key was skipped (surfaced as an "error" tag).
pub fn get_sources(location: Option<&ConfigValue>, request: &Request) -> (r: Result<
    (Vec<Vec<u8>>, bool),
    RuleError,
>)
    ensures
        match r {
            Ok(p) => spec_sources(crate::config::opt_value(location), *request) == Some((
                p.0.deep_view(),
                p.1,
            )),
            Err(e) => spec_sources(crate::config::opt_value(location), *request) is None && e
                == RuleError::InvalidLocationConfig,
        },
{
    match location {
        None => Ok((all_sources(request), false)),
        Some(cv) => match cv {
            ConfigValue::Str(kw) => if str_is(kw, "all") {
                Ok((all_sources(request), false))
            } else {
                Err(RuleError::InvalidLocationConfig)
            },
            ConfigValue::Obj(entries) => Ok(object_sources(entries, request)),
            _ => Err(RuleError::InvalidLocationConfig),
        },
    }
}

fn all_sources(request: &Request) -> (r: Vec<Vec<u8>>)
    ensures
        r.deep_view() == spec_all_sources(*request),
{
    let mut sources: Vec<Vec<u8>> = Vec::new();
    match &request.host {
        Some(h) => push_source(&mut sources, h),
        None => {},
    }
    push_source(&mut sources, &request.path);
    match &request.query {
        Some(q) => push_source(&mut sources, q),
        None => {},
    }
    let ghost prefix = opt_source(request.host) + seq![request.path@] + opt_source(request.query);
    proof {
        assert(sources.deep_view() =~~= prefix);
    }
    let n = request.headers.len();
    let mut j: usize = 0;
    while j < n
        invariant
            j <= n,
            n == request.headers.len(),
            prefix == opt_source(request.host) + seq![request.path@] + opt_source(request.query),
            sources.deep_view() == prefix + spec_header_values(request.headers@.take(j as int)),
        decreases n - j,
    {
        push_source(&mut sources, &request.headers[j].value);
        proof {
            assert(spec_header_values(request.headers@.take(j as int + 1)) =~~= spec_header_values(
                request.headers@.take(j as int),
            ).push(request.headers@[j as int].value@));
            assert(sources.deep_view() =~~= prefix + spec_header_values(
                request.headers@.take(j as int + 1),
            ));
        }
        j += 1;
    }
    proof {
        assert(request.headers@.take(n as int) =~= request.headers@);
    }
    if request.body.received {
        push_source(&mut sources, &request.body.content);
    }
    proof {
        assert(sources.deep_view() =~~= spec_all_sources(*request));
    }
    sources
}

fn object_sources(entries: &Vec<ConfigEntry>, request: &Request) -> (r: (Vec<Vec<u8>>, bool))
    ensures
        spec_object_sources(entries@, *request) == (r.0.deep_view(), r.1),
{
    let mut sources: Vec<Vec<u8>> = Vec::new();
    let mut unknown_key = false;
    let n = entries.len();
    let mut i: usize = 0;
    proof {
        assert(entries@.skip(0) =~= entries@);
        assert(sources.deep_view() =~~= Seq::<Seq<u8>>::empty());
    }
    while i < n
        invariant
            i <= n,
            n == entries.len(),
            spec_object_sources(entries@, *request).0 == sources.deep_view() + spec_object_sources(
                entries@.skip(i as int),
                *request,
            ).0,
            spec_object_sources(entries@, *request).1 == (unknown_key || spec_object_sources(
                entries@.skip(i as int),
                *request,
            ).1),
        decreases n - i,
    {
        proof {
            assert(entries@.skip(i as int).len() > 0);
            assert(entries@.skip(i as int)[0] == entries@[i as int]);
            assert(entries@.skip(i as int).drop_first() =~= entries@.skip(i as int + 1));
        }
        let ghost head = spec_entry_sources(entries@[i as int], *request);
        let ghost rest = spec_object_sources(entries@.skip(i as int + 1), *request);
        let ghost pre_dv = sources.deep_view();
        let e = &entries[i];
        if str_is(&e.key, "host") {
            match &request.host {
                Some(h) => push_source(&mut sources, h),
                None => {},
            }
        } else if str_is(&e.key, "path") {
            push_source(&mut sources, &request.path);
        } else if str_is(&e.key, "query") {
            match &request.query {
                Some(q) => push_source(&mut sources, q),
                None => {},
            }
        } else if str_is(&e.key, "header") {
            match e.value.as_array() {
                Some(items) => {
                    header_list_sources(&mut sources, items, request);
                },
                None => {},
            }
        } else if str_is(&e.key, "body") {
            if request.body.received {
                push_source(&mut sources, &request.body.content);
            }
        } else {
            unknown_key = true;
        }
        proof {
            assert(sources.deep_view() =~~= pre_dv + head.0);
            assert(pre_dv + (head.0 + rest.0) =~~= (pre_dv + head.0) + rest.0);
        }
        i += 1;
    }
    proof {
        assert(entries@.skip(n as int).len() == 0);
        assert(sources.deep_view() + Seq::<Seq<u8>>::empty() =~~= sources.deep_view());
    }
    (sources, unknown_key)
}

/// Pushes the values of the named, present headers in list order.
fn header_list_sources(sources: &mut Vec<Vec<u8>>, items: &Vec<ConfigValue>, request: &Request)
    ensures
        final(sources).deep_view() == old(sources).deep_view() + spec_header_list_sources(
            items@,
            request.headers@,
        ),
{
    let ghost base = old(sources).deep_view();
    let n = items.len();
    let mut k: usize = 0;
    proof {
        assert(items@.skip(0) =~= items@);
    }
    while k < n
        invariant
            k <= n,
            n == items.len(),
            base + spec_header_list_sources(items@, request.headers@) == sources.deep_view()
                + spec_header_list_sources(items@.skip(k as int), request.headers@),
        decreases n - k,
    {
        proof {
            assert(items@.skip(k as int).len() > 0);
            assert(items@.skip(k as int)[0] == items@[k as int]);
            assert(items@.skip(k as int).drop_first() =~= items@.skip(k as int + 1));
        }
        let ghost pre_dv = sources.deep_view();
        let ghost rest = spec_header_list_sources(items@.skip(k as int + 1), request.headers@);
        match items[k].as_str() {
            Some(name) => {
                let name_bytes: Vec<u8> = vstd::slice::slice_to_vec(name.as_str().as_bytes());
                proof {
                    assert(name_bytes@ == encode_utf8(name@));
                }
                match request.header_value(&name_bytes) {
                    Some(hv) => {
                        push_source(sources, hv);
                        proof {
                            assert(pre_dv + (seq![hv@] + rest) =~~= (pre_dv.push(hv@)) + rest);
                        }
                    },
                    None => {},
                }
            },
            None => {},
        }
        k += 1;
    }
    proof {
        assert(items@.skip(n as int).len() == 0);
        assert(sources.deep_view() + Seq::<Seq<u8>>::empty() =~~= sources.deep_view());
    }
}

// ---------------------------------------------------------------------------
// Pattern configuration
// ---------------------------------------------------------------------------

pub open spec fn spec_pattern_list(items: Seq<ConfigValue>) -> Result<Seq<Seq<char>>, RuleError>
    decreases items.len(),
{
    if items.len() == 0 {
        Ok(Seq::<Seq<char>>::empty())
    } else {
        match items[0] {
            ConfigValue::Str(s) => match spec_pattern_list(items.drop_first()) {
                Ok(rest) => Ok(seq![s@] + rest),
                Err(e) => Err(e),
            },
            _ => Err(RuleError::PatternNotString),
        }
    }
}

/// The configured pattern strings: the `patterns` entry must be present and
/// an array whose members are all strings.
pub open spec fn spec_patterns(value: Option<ConfigValue>) -> Result<Seq<Seq<char>>, RuleError> {
    match value {
        None => Err(RuleError::MissingPatternsConfig),
        Some(cv) => match cv {
            ConfigValue::Arr(items) => spec_pattern_list(items@),
            _ => Err(RuleError::InvalidPatternsConfig),
        },
    }
}

pub fn get_patterns(value: Option<&ConfigValue>) -> (r: Result<Vec<String>, RuleError>)
    ensures
        match r {
            Ok(patterns) => spec_patterns(crate::config::opt_value(value)) == Ok::<
                Seq<Seq<char>>,
                RuleError,
            >(patterns.deep_view()),
            Err(e) => spec_patterns(crate::config::opt_value(value)) == Err::<
                Seq<Seq<char>>,
                RuleError,
            >(e),
        },
{
    let items: &Vec<ConfigValue> = match value {
        None => {
            return Err(RuleError::MissingPatternsConfig);
        },
        Some(cv) => match cv {
            ConfigValue::Arr(items) => items,
            _ => {
                return Err(RuleError::InvalidPatternsConfig);
            },
        },
    };
    let mut patterns: Vec<String> = Vec::new();
    let n = items.len();
    let mut k: usize = 0;
    proof {
        assert(items@.skip(0) =~= items@);
        assert(patterns.deep_view() =~~= Seq::<Seq<char>>::empty());
    }
    while k < n
        invariant
            k <= n,
            n == items.len(),
            spec_patterns(crate::config::opt_value(value)) == spec_pattern_list(items@),
            spec_pattern_list(items@) == (match spec_pattern_list(items@.skip(k as int)) {
                Ok(rest) => Ok::<Seq<Seq<char>>, RuleError>(patterns.deep_view() + rest),
                Err(e) => Err::<Seq<Seq<char>>, RuleError>(e),
            }),
        decreases n - k,
    {
        proof {
            assert(items@.skip(k as int).len() > 0);
            assert(items@.skip(k as int)[0] == items@[k as int]);
            assert(items@.skip(k as int).drop_first() =~= items@.skip(k as int + 1));
        }
        let ghost pre_dv = patterns.deep_view();
        match items[k].as_str() {
            Some(s) => {
                let copy: String = s.clone();
                patterns.push(copy);
                proof {
                    assert(patterns.deep_view() =~~= pre_dv.push(s@));
                    match spec_pattern_list(items@.skip(k as int + 1)) {
                        Ok(rest) => {
                            assert(pre_dv + (seq![s@] + rest) =~~= (pre_dv.push(s@)) + rest);
                        },
                        Err(_) => {},
                    }
                }
            },
            None => {
                return Err(RuleError::PatternNotString);
            },
        }
        k += 1;
    }
    proof {
        assert(items@.skip(n as int).len() == 0);
        assert(patterns.deep_view() + Seq::<Seq<char>>::empty() =~~= patterns.deep_view());
    }
    Ok(patterns)
}

} // verus!
