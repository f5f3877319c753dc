//! Sets of glob patterns.

use vstd::prelude::*;

use crate::error::{CobwebError, ErrorView};
use crate::text::{cat, cat3};

verus! {

/// `globset::GlobSetBuilder`, which collects patterns. Nothing is claimed of what
/// is inside.
#[verifier::external_type_specification]
#[verifier::external_body]
pub struct ExGlobSetBuilder(globset::GlobSetBuilder);

/// `globset::GlobSet`, which matches texts against patterns. Nothing is claimed
/// of what is inside.
#[verifier::external_type_specification]
#[verifier::external_body]
pub struct ExGlobSet(globset::GlobSet);

/// The patterns that have been added to a builder.
pub uninterp spec fn builder_patterns(b: globset::GlobSetBuilder) -> Seq<Seq<char>>;

/// The patterns a set was built from.
pub uninterp spec fn set_patterns(s: globset::GlobSet) -> Seq<Seq<char>>;

/// The text of the error with which `globset::Glob::new` refuses a pattern.
pub uninterp spec fn glob_fault(pattern: Seq<char>) -> Option<Seq<char>>;

/// The text of the error with which `globset::GlobSetBuilder::build` refuses a
/// list of patterns.
pub uninterp spec fn globs_fault(patterns: Seq<Seq<char>>) -> Option<Seq<char>>;

/// Whether one pattern matches a text.
pub uninterp spec fn glob_matches(pattern: Seq<char>, text: Seq<char>) -> bool;

/// Calls `globset::GlobSetBuilder::new`: a builder without patterns.
#[verifier::external_body]
fn call_new() -> (r: globset::GlobSetBuilder)
    ensures
        builder_patterns(r) == Seq::<Seq<char>>::empty(),
{
    globset::GlobSetBuilder::new()
}

/// Calls `globset::Glob::new` and hands the glob to
/// `globset::GlobSetBuilder::add`. A pattern that the first one refuses adds
/// nothing; the error's text is named and depends on the pattern alone.
#[verifier::external_body]
fn call_add(b: &mut globset::GlobSetBuilder, pattern: &str) -> (r: Option<String>)
    ensures
        r.deep_view() == glob_fault(pattern@),
        builder_patterns(*final(b)) == if r is None {
            builder_patterns(*old(b)).push(pattern@)
        } else {
            builder_patterns(*old(b))
        },
{
    match globset::Glob::new(pattern) {
        Ok(g) => {
            b.add(g);
            None
        },
        Err(e) => Some(e.to_string()),
    }
}

/// Calls `globset::GlobSetBuilder::build`: a set of the builder's patterns, or
/// an error whose text is named and depends on the patterns alone.
#[verifier::external_body]
fn call_build(b: &globset::GlobSetBuilder) -> (r: Result<globset::GlobSet, String>)
    ensures
        match r {
            Ok(s) => globs_fault(builder_patterns(*b)) is None && set_patterns(s)
                == builder_patterns(*b),
            Err(e) => globs_fault(builder_patterns(*b)) == Some(e@),
        },
{
    b.build().map_err(|e| e.to_string())
}

/// Calls `globset::GlobSet::is_match`: whether any pattern of the set matches.
#[verifier::external_body]
fn call_is_match(s: &globset::GlobSet, text: &str) -> (r: bool)
    ensures
        r == (exists|i: int|
            0 <= i < set_patterns(*s).len() && (#[trigger] glob_matches(
                set_patterns(*s)[i],
                text@,
            ))),
{
    s.is_match(text)
}

/// Calls `globset::GlobSet::is_empty`: whether the set has no pattern.
#[verifier::external_body]
fn call_is_empty(s: &globset::GlobSet) -> (r: bool)
    ensures
        r == (set_patterns(*s).len() == 0),
{
    s.is_empty()
}

/// Whether any of the patterns matches.
pub open spec fn any_matches(patterns: Seq<Seq<char>>, text: Seq<char>) -> bool {
    exists|i: int| 0 <= i < patterns.len() && #[trigger] glob_matches(patterns[i], text)
}

/// Compiled patterns.
pub struct Globs {
    set: globset::GlobSet,
}

/// The patterns.
impl View for Globs {
    type V = Seq<Seq<char>>;

    closed spec fn view(&self) -> Seq<Seq<char>> {
        set_patterns(self.set)
    }
}

/// The first pattern that is refused, with the error's text.
pub open spec fn first_fault(patterns: Seq<Seq<char>>) -> Option<(Seq<char>, Seq<char>)>
    decreases patterns.len(),
{
    if patterns.len() == 0 {
        None
    } else {
        match glob_fault(patterns[0]) {
            Some(e) => Some((patterns[0], e)),
            None => first_fault(patterns.skip(1)),
        }
    }
}

/// Why patterns do not compile, if they do not.
pub open spec fn patterns_fault(patterns: Seq<Seq<char>>) -> Option<ErrorView> {
    match first_fault(patterns) {
        Some((p, e)) => Some(ErrorView::BadRequest("bad url_pattern `"@ + p + "`: "@ + e)),
        None => match globs_fault(patterns) {
            Some(e) => Some(ErrorView::BadRequest("bad url_pattern set: "@ + e)),
            None => None,
        },
    }
}

impl Globs {
    /// Compile patterns.
    pub fn compile(patterns: &Vec<String>) -> (r: Result<Globs, CobwebError>)
        ensures
            match r {
                Ok(g) => patterns_fault(patterns.deep_view()) is None && g@ == patterns.deep_view(),
                Err(e) => patterns_fault(patterns.deep_view()) == Some(e@),
            },
    {
        let ghost all = patterns.deep_view();
        let mut b = call_new();
        assert(all.skip(0) =~= all);
        assert(all.take(0) =~= seq![]);
        for i in 0..patterns.len()
            invariant
                all == patterns.deep_view(),
                builder_patterns(b) == all.take(i as int),
                first_fault(all.skip(i as int)) == first_fault(all),
        {
            assert(all.skip(i as int)[0] == patterns@[i as int]@);
            assert(all.skip(i as int).skip(1) =~= all.skip(i + 1));
            match call_add(&mut b, patterns[i].as_str()) {
                Some(e) => {
                    return Err(
                        CobwebError::BadRequest(
                            cat(
                                cat3("bad url_pattern `", patterns[i].as_str(), "`: ").as_str(),
                                e.as_str(),
                            ),
                        ),
                    );
                },
                None => {},
            }
            assert(all.take(i + 1) =~= all.take(i as int).push(patterns@[i as int]@));
        }
        assert(all.take(patterns@.len() as int) =~= all);
        match call_build(&b) {
            Ok(set) => Ok(Globs { set }),
            Err(e) => Err(CobwebError::BadRequest(cat("bad url_pattern set: ", e.as_str()))),
        }
    }

    /// Whether any of the patterns matches.
    pub fn matches(&self, text: &str) -> (r: bool)
        ensures
            r == any_matches(self@, text@),
    {
        call_is_match(&self.set, text)
    }

    pub fn is_empty(&self) -> (r: bool)
        ensures
            r == (self@.len() == 0),
    {
        call_is_empty(&self.set)
    }
}

/// A text matches where any one of the patterns matches it, wherever that stands.
pub proof fn any_pattern_may_match(patterns: Seq<Seq<char>>, text: Seq<char>, i: int)
    ensures
        0 <= i < patterns.len() && glob_matches(patterns[i], text) ==> any_matches(patterns, text),
        (forall|k: int| 0 <= k < patterns.len() ==> !glob_matches(#[trigger] patterns[k], text))
            ==> !any_matches(patterns, text),
        patterns.len() == 0 ==> !any_matches(patterns, text),
{
    if any_matches(patterns, text) {
        let k = choose|k: int|
            0 <= k < patterns.len() && #[trigger] glob_matches(patterns[k], text);
        assert(glob_matches(patterns[k], text));
    }
}

/// Any one bad pattern refuses a list, and the first is named.
pub proof fn the_first_bad_pattern_is_named(patterns: Seq<Seq<char>>, i: int, e: Seq<char>)
    requires
        0 <= i < patterns.len(),
        glob_fault(patterns[i]) == Some(e),
    ensures
        first_fault(patterns) is Some,
        patterns_fault(patterns) is Some,
        (forall|k: int| 0 <= k < i ==> glob_fault(#[trigger] patterns[k]) is None) ==> first_fault(
            patterns,
        ) == Some((patterns[i], e)),
    decreases i,
{
    if i > 0 {
        let rest = patterns.skip(1);
        assert(rest[i - 1] == patterns[i]);
        the_first_bad_pattern_is_named(rest, i - 1, e);
        if forall|k: int| 0 <= k < i ==> glob_fault(#[trigger] patterns[k]) is None {
            assert(glob_fault(patterns[0]) is None);
            assert forall|k: int| 0 <= k < i - 1 implies glob_fault(#[trigger] rest[k]) is None by {
                assert(rest[k] == patterns[k + 1]);
            }
        }
    }
}

} // verus!
