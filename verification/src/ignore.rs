//! Ignore patterns: regular expressions over DNs; a live entry whose DN
//! matches one is never deleted.

use vstd::prelude::*;
use crate::error::{ProviderError, ProviderErrorView};

verus! {

#[verifier::external_type_specification]
#[verifier::external_body]
pub struct ExRegex(regex::Regex);

/// What `regex::Regex::new(pattern)` reports: `None` where the pattern
/// compiles, the text of its error otherwise.
pub uninterp spec fn regex_compile_error(pattern: Seq<char>) -> Option<Seq<char>>;

/// What `is_match` of the regex compiled from `pattern` answers for
/// `haystack`: whether the regex matches anywhere in it.
pub uninterp spec fn regex_is_match(pattern: Seq<char>, haystack: Seq<char>) -> bool;

/// What `format!("{:?}", s)` gives for a string slice: the string quoted
/// and escaped.
pub uninterp spec fn str_debug(s: Seq<char>) -> Seq<char>;

/// Calls `regex::Regex::new`. Claimed: it succeeds exactly where the
/// pattern compiles, and otherwise hands back the text of its error; both
/// are named by `regex_compile_error`, a function of the pattern alone.
#[verifier::external_body]
fn regex_new(pattern: &str) -> (r: Result<regex::Regex, String>)
    ensures
        r is Ok <==> regex_compile_error(pattern@) is None,
        r matches Err(m) ==> regex_compile_error(pattern@) == Some(m@),
{
    match regex::Regex::new(pattern) {
        Ok(re) => Ok(re),
        Err(e) => Err(e.to_string()),
    }
}

/// Formats a string slice with `{:?}`. Claimed: the result is named by
/// `str_debug`, a function of the string alone.
#[verifier::external_body]
pub(crate) fn debug_str(s: &str) -> (r: String)
    ensures
        r@ == str_debug(s@),
{
    format!("{:?}", s)
}

/// A compiled ignore pattern. Its regex is the one compiled from `source`:
/// the fields are private and `compile` is the only way to build one.
pub struct IgnorePattern {
    source: String,
    regex: regex::Regex,
}

impl View for IgnorePattern {
    type V = Seq<char>;

    closed spec fn view(&self) -> Seq<char> {
        self.source@
    }
}

impl DeepView for IgnorePattern {
    type V = Seq<char>;

    open spec fn deep_view(&self) -> Seq<char> {
        self@
    }
}

impl IgnorePattern {
    /// Compiles `pattern`; on failure, the text of the regex error.
    pub fn compile(pattern: &str) -> (r: Result<IgnorePattern, String>)
        ensures
            regex_compile_error(pattern@) is None ==> r is Ok && r->Ok_0@ == pattern@,
            regex_compile_error(pattern@) matches Some(m) ==> r is Err && r->Err_0@ == m,
    {
        match regex_new(pattern) {
            Ok(re) => Ok(IgnorePattern { source: String::from_str(pattern), regex: re }),
            Err(m) => Err(m),
        }
    }

    /// Calls `regex::Regex::is_match` on the compiled regex. Claimed: the
    /// answer is named by `regex_is_match` of the pattern the regex was
    /// compiled from and the haystack.
    #[verifier::external_body]
    pub(crate) fn is_match(&self, haystack: &str) -> (r: bool)
        ensures
            r == regex_is_match(self@, haystack@),
    {
        self.regex.is_match(haystack)
    }
}

/// The DN matches one of the patterns.
pub open spec fn spec_is_ignored(dn: Seq<char>, patterns: Seq<Seq<char>>) -> bool {
    exists|i: int| 0 <= i < patterns.len() && regex_is_match(#[trigger] patterns[i], dn)
}

/// Whether `dn` matches one of the ignore patterns.
pub fn is_ignored(dn: &str, patterns: &[IgnorePattern]) -> (r: bool)
    ensures
        r == spec_is_ignored(dn@, patterns.deep_view()),
{
    let ghost ps = patterns.deep_view();
    let mut i: usize = 0;
    while i < patterns.len()
        invariant
            ps == patterns.deep_view(),
            i <= patterns@.len(),
            forall|j: int| 0 <= j < i ==> !regex_is_match(#[trigger] ps[j], dn@),
        decreases patterns@.len() - i,
    {
        if patterns[i].is_match(dn) {
            assert(ps[i as int] == patterns@[i as int]@);
            return true;
        }
        assert(ps[i as int] == patterns@[i as int]@);
        i = i + 1;
    }
    false
}

/// The error for an ignore pattern that does not compile.
pub open spec fn spec_pattern_error(pattern: Seq<char>, message: Seq<char>) -> ProviderErrorView {
    ProviderErrorView::OperationFailed(
        "Invalid ignore pattern "@ + str_debug(pattern) + ": "@ + message,
    )
}

/// The position of the first pattern that does not compile.
pub open spec fn first_bad_pattern(patterns: Seq<Seq<char>>) -> Option<int> {
    if exists|i: int| 0 <= i < patterns.len() && regex_compile_error(#[trigger] patterns[i]) is Some {
        Some(
            choose|i: int|
                0 <= i < patterns.len() && regex_compile_error(#[trigger] patterns[i]) is Some
                    && forall|j: int| 0 <= j < i ==> regex_compile_error(patterns[j]) is None,
        )
    } else {
        None
    }
}

/// Compiles every ignore pattern. Fails on the first that does not compile.
pub fn compile_ignore_patterns(patterns: &Vec<String>) -> (r: Result<Vec<IgnorePattern>, ProviderError>)
    ensures
        match first_bad_pattern(patterns.deep_view()) {
            None => r is Ok && r->Ok_0.deep_view() == patterns.deep_view(),
            Some(i) => r is Err && r->Err_0@ == spec_pattern_error(
                patterns.deep_view()[i],
                regex_compile_error(patterns.deep_view()[i])->0,
            ),
        },
{
    let ghost ps = patterns.deep_view();
    let mut out: Vec<IgnorePattern> = Vec::new();
    let mut i: usize = 0;
    while i < patterns.len()
        invariant
            ps == patterns.deep_view(),
            i <= patterns@.len(),
            forall|j: int| 0 <= j < i ==> regex_compile_error(#[trigger] ps[j]) is None,
            out.deep_view() =~= ps.take(i as int),
        decreases patterns@.len() - i,
    {
        assert(ps[i as int] == patterns@[i as int]@);
        match IgnorePattern::compile(patterns[i].as_str()) {
            Ok(p) => {
                let ghost before = out.deep_view();
                out.push(p);
                assert(out.deep_view() =~= before.push(ps[i as int]));
            },
            Err(m) => {
                let mut msg = String::from_str("Invalid ignore pattern ");
                msg.append(debug_str(patterns[i].as_str()).as_str());
                msg.append(": ");
                msg.append(m.as_str());
                proof {
                    let k = choose|k: int|
                        0 <= k < ps.len() && regex_compile_error(#[trigger] ps[k]) is Some
                            && forall|j: int| 0 <= j < k ==> regex_compile_error(ps[j]) is None;
                    assert(regex_compile_error(ps[i as int]) is Some);
                    if k < i {
                        assert(regex_compile_error(ps[k]) is None);
                    }
                    if k > i {
                        assert(regex_compile_error(ps[i as int]) is None);
                    }
                }
                return Err(ProviderError::OperationFailed(msg));
            },
        }
        i = i + 1;
    }
    assert(ps.take(ps.len() as int) =~= ps);
    Ok(out)
}

} // verus!
