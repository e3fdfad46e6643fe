use vstd::prelude::*;
use crate::config::RuleError;
use vstd::utf8::valid_utf8;
use vstd::utf8::decode_utf8;

verus! {

#[verifier::external_type_specification]
#[verifier::external_body]
pub struct ExRegexSet(regex::RegexSet);

#[verifier::external_type_specification]
#[verifier::external_body]
pub struct ExRegexError(regex::Error);

/// The pattern strings a compiled set holds, in build order.
pub uninterp spec fn regex_set_patterns(rs: regex::RegexSet) -> Seq<Seq<char>>;

/// Whether the regex crate's default build accepts this pattern list.
pub uninterp spec fn regex_set_compiles(patterns: Seq<Seq<char>>) -> bool;

/// How many distinct patterns of the list match somewhere in the haystack.
pub uninterp spec fn regex_match_count(patterns: Seq<Seq<char>>, haystack: Seq<char>) -> nat;

/// Relies on regex::RegexSet::new: it returns Ok exactly when the pattern
/// list compiles (every pattern parses and the set fits the default size
/// limit), and the compiled set then holds the given patterns.
#[verifier::external_body]
fn regex_set_new(patterns: &Vec<String>) -> (r: Result<regex::RegexSet, regex::Error>)
    ensures
        (r is Ok) <==> regex_set_compiles(patterns.deep_view()),
        r matches Ok(rs) ==> regex_set_patterns(rs) == patterns.deep_view(),
{
    regex::RegexSet::new(patterns)
}

/// Relies on regex::RegexSet::matches and SetMatches::iter: the indices of
/// the distinct patterns with at least one match, so their number is at most
/// the size of the set.
#[verifier::external_body]
fn regex_set_match_count(rs: &regex::RegexSet, haystack: &str) -> (n: usize)
    ensures
        n == regex_match_count(regex_set_patterns(*rs), haystack@),
        n <= regex_set_patterns(*rs).len(),
{
    rs.matches(haystack).iter().count()
}

/// Relies on core::str::from_utf8: it succeeds exactly on valid UTF-8,
/// giving the decoded text.
#[verifier::external_body]
fn bytes_as_str(v: &Vec<u8>) -> (r: Option<&str>)
    ensures
        (r is Some) <==> valid_utf8(v@),
        r matches Some(s) ==> s@ == decode_utf8(v@),
{
    core::str::from_utf8(v.as_slice()).ok()
}

/// Matches of one source: only sources that decode as text are searched;
/// one that does not is skipped and matches nothing.
pub open spec fn spec_source_match_count(patterns: Seq<Seq<char>>, source: Seq<u8>) -> nat {
    if valid_utf8(source) {
        regex_match_count(patterns, decode_utf8(source))
    } else {
        0
    }
}

/// The detector's measurement: the per-source counts summed over all sources.
pub open spec fn spec_total_match_count(patterns: Seq<Seq<char>>, sources: Seq<Seq<u8>>) -> nat
    decreases sources.len(),
{
    if sources.len() == 0 {
        0
    } else {
        spec_source_match_count(patterns, sources[0]) + spec_total_match_count(
            patterns,
            sources.drop_first(),
        )
    }
}

/// The total measurement is additive over any split of the source list.
pub proof fn lemma_match_count_sums(patterns: Seq<Seq<char>>, a: Seq<Seq<u8>>, b: Seq<Seq<u8>>)
    ensures
        spec_total_match_count(patterns, a + b) == spec_total_match_count(patterns, a)
            + spec_total_match_count(patterns, b),
    decreases a.len(),
{
    if a.len() == 0 {
        assert(a + b =~= b);
    } else {
        assert((a + b)[0] == a[0]);
        assert((a + b).drop_first() =~= a.drop_first() + b);
        lemma_match_count_sums(patterns, a.drop_first(), b);
    }
}

/// A pattern that matches in two distinct sources counts twice: the
/// measurement over both sources is the sum of the per-source counts.
pub proof fn lemma_two_sources_count_twice(patterns: Seq<Seq<char>>, s1: Seq<u8>, s2: Seq<u8>)
    ensures
        spec_total_match_count(patterns, seq![s1, s2]) == spec_source_match_count(patterns, s1)
            + spec_source_match_count(patterns, s2),
{
    reveal_with_fuel(spec_total_match_count, 4);
    assert(seq![s2].drop_first() =~= Seq::<Seq<u8>>::empty());
    assert(spec_total_match_count(patterns, seq![s2]) == spec_source_match_count(patterns, s2));
    assert(seq![s1, s2].drop_first() =~= seq![s2]);
    assert(seq![s1, s2][0] == s1);
}

/// A compiled collection of textual patterns evaluated together against one
/// byte sequence at a time.
pub struct PatternSet {
    set: regex::RegexSet,
}

impl PatternSet {
    /// The pattern strings this set was compiled from.
    pub closed spec fn patterns(&self) -> Seq<Seq<char>> {
        regex_set_patterns(self.set)
    }

    /// Compiles a pattern list. An empty list is a configuration error, and
    /// so is a list the regex crate refuses.
    pub fn build(patterns: &Vec<String>) -> (r: Result<PatternSet, RuleError>)
        ensures
            patterns.deep_view().len() == 0 ==> r == Err::<PatternSet, RuleError>(
                RuleError::EmptyPatterns,
            ),
            patterns.deep_view().len() > 0 ==> ((r is Ok) <==> regex_set_compiles(
                patterns.deep_view(),
            )),
            r matches Ok(ps) ==> ps.patterns() == patterns.deep_view(),
            patterns.deep_view().len() > 0 && r is Err ==> r == Err::<PatternSet, RuleError>(
                RuleError::UnparseablePattern,
            ),
    {
        if patterns.len() == 0 {
            return Err(RuleError::EmptyPatterns);
        }
        match regex_set_new(patterns) {
            Ok(set) => Ok(PatternSet { set }),
            Err(_) => Err(RuleError::UnparseablePattern),
        }
    }

    /// Number of distinct patterns matching this one source.
    pub fn match_count(&self, source: &Vec<u8>) -> (n: usize)
        ensures
            n == spec_source_match_count(self.patterns(), source@),
            n <= self.patterns().len(),
    {
        match bytes_as_str(source) {
            Some(h) => regex_set_match_count(&self.set, h),
            None => 0,
        }
    }

    /// The measurement over a whole source list: per-source counts, summed.
    pub fn total_match_count(&self, sources: &Vec<Vec<u8>>) -> (n: u128)
        ensures
            n == spec_total_match_count(self.patterns(), sources.deep_view()),
    {
        let ghost dv = sources.deep_view();
        let mut acc: u128 = 0;
        let n = sources.len();
        let mut i: usize = 0;
        proof {
            assert(dv.skip(0) =~~= dv);
        }
        while i < n
            invariant
                i <= n,
                n == sources.len(),
                dv == sources.deep_view(),
                spec_total_match_count(self.patterns(), dv) == acc + spec_total_match_count(
                    self.patterns(),
                    dv.skip(i as int),
                ),
                acc <= (i as int) * (usize::MAX as int),
            decreases n - i,
        {
            proof {
                assert(dv.skip(i as int).len() > 0);
                assert(dv.skip(i as int)[0] == dv[i as int]);
                assert(dv[i as int] =~= sources@[i as int]@);
                assert(dv.skip(i as int).drop_first() =~~= dv.skip(i as int + 1));
            }
            let cnt = self.match_count(&sources[i]);
            proof {
                assert(acc + cnt <= (i as int + 1) * (usize::MAX as int)) by (nonlinear_arith)
                    requires
                        acc <= (i as int) * (usize::MAX as int),
                        0 <= cnt <= usize::MAX,
                ;
                assert((i as int + 1) * (usize::MAX as int) <= u128::MAX as int) by (nonlinear_arith)
                    requires
                        0 <= i as int + 1 <= 0x1_0000_0000_0000_0000int,
                        0 <= usize::MAX as int <= 0xFFFF_FFFF_FFFF_FFFFint,
                ;
            }
            acc = acc + (cnt as u128);
            i += 1;
        }
        proof {
            assert(dv.skip(n as int).len() == 0);
        }
        acc
    }
}

} // verus!
