use vstd::prelude::*;
use vstd::std_specs::cmp::PartialEqSpec;
use vstd::std_specs::cmp::PartialOrdIs;
use vstd::std_specs::cmp::PartialOrdSpec;

verus! {

/// The criterion of a pattern query: a pure test of one key.
///
/// `spec_matches` is what the matcher answers; `matches` computes it.  The
/// built-in matchers are well formed (`wf`) whenever the comparisons of the
/// key type obey their specifications; a matcher wrapping a caller-supplied
/// function is well formed when that function is total and deterministic,
/// which the store's pattern queries count on.
pub trait Matcher<T> {
    /// When this matcher's answers are pinned down at all.
    spec fn wf(&self) -> bool;

    /// The matcher's answer for `key`.
    spec fn spec_matches(&self, key: &T) -> bool;

    /// Whether `key` satisfies this matcher's criterion.
    fn matches(&self, key: &T) -> (matched: bool)
        requires
            self.wf(),
        ensures
            matched == self.spec_matches(key),
    ;
}

/// Matches exactly one key: the target it was built from.
pub struct ExactMatcher<T> {
    target: T,
}

impl<T> ExactMatcher<T> {
    /// The key this matcher answers to.
    pub closed spec fn spec_target(&self) -> T {
        self.target
    }

    /// A matcher for exactly the key `target`.
    pub fn new(target: T) -> (matcher: Self)
        ensures
            matcher.spec_target() == target,
    {
        Self { target }
    }
}

impl<T: PartialEq> Matcher<T> for ExactMatcher<T> {
    open spec fn wf(&self) -> bool {
        T::obeys_eq_spec()
    }

    open spec fn spec_matches(&self, key: &T) -> bool {
        key.eq_spec(&self.spec_target())
    }

    fn matches(&self, key: &T) -> (matched: bool) {
        *key == self.target
    }
}

/// Relies on `str::starts_with`: whether `prefix` matches a prefix of `s`.
#[verifier::external_body]
fn str_starts_with(s: &str, prefix: &str) -> (r: bool)
    ensures
        r == prefix@.is_prefix_of(s@),
{
    s.starts_with(prefix)
}

/// Relies on `str::ends_with`: whether `suffix` matches a suffix of `s`.
#[verifier::external_body]
fn str_ends_with(s: &str, suffix: &str) -> (r: bool)
    ensures
        r == suffix@.is_suffix_of(s@),
{
    s.ends_with(suffix)
}

/// Whether `needle` occurs contiguously somewhere in `hay`.
pub open spec fn contains_seq(hay: Seq<char>, needle: Seq<char>) -> bool {
    exists|k: int|
        0 <= k && k + needle.len() <= hay.len() && needle == #[trigger] hay.subrange(
            k,
            k + needle.len(),
        )
}

/// Relies on `str::contains`: whether `needle` matches a sub-slice of `s`.
#[verifier::external_body]
fn str_contains(s: &str, needle: &str) -> (r: bool)
    ensures
        r == contains_seq(s@, needle@),
{
    s.contains(needle)
}

/// Matches every string key that starts with a fixed prefix.
pub struct PrefixMatcher {
    prefix: String,
}

impl PrefixMatcher {
    /// The prefix looked for, as its characters.
    pub closed spec fn spec_prefix(&self) -> Seq<char> {
        self.prefix@
    }

    /// A matcher for keys starting with `prefix`.
    pub fn new(prefix: &str) -> (matcher: Self)
        ensures
            matcher.spec_prefix() == prefix@,
    {
        Self { prefix: prefix.to_owned() }
    }
}

impl Matcher<String> for PrefixMatcher {
    open spec fn wf(&self) -> bool {
        true
    }

    open spec fn spec_matches(&self, key: &String) -> bool {
        self.spec_prefix().is_prefix_of(key@)
    }

    fn matches(&self, key: &String) -> (matched: bool) {
        str_starts_with(key.as_str(), self.prefix.as_str())
    }
}

impl<'s> Matcher<&'s str> for PrefixMatcher {
    open spec fn wf(&self) -> bool {
        true
    }

    open spec fn spec_matches(&self, key: &&str) -> bool {
        self.spec_prefix().is_prefix_of((*key)@)
    }

    fn matches(&self, key: &&str) -> (matched: bool) {
        str_starts_with(*key, self.prefix.as_str())
    }
}

/// Matches every string key that ends with a fixed suffix.
pub struct SuffixMatcher {
    suffix: String,
}

impl SuffixMatcher {
    /// The suffix looked for, as its characters.
    pub closed spec fn spec_suffix(&self) -> Seq<char> {
        self.suffix@
    }

    /// A matcher for keys ending with `suffix`.
    pub fn new(suffix: &str) -> (matcher: Self)
        ensures
            matcher.spec_suffix() == suffix@,
    {
        Self { suffix: suffix.to_owned() }
    }
}

impl Matcher<String> for SuffixMatcher {
    open spec fn wf(&self) -> bool {
        true
    }

    open spec fn spec_matches(&self, key: &String) -> bool {
        self.spec_suffix().is_suffix_of(key@)
    }

    fn matches(&self, key: &String) -> (matched: bool) {
        str_ends_with(key.as_str(), self.suffix.as_str())
    }
}

impl<'s> Matcher<&'s str> for SuffixMatcher {
    open spec fn wf(&self) -> bool {
        true
    }

    open spec fn spec_matches(&self, key: &&str) -> bool {
        self.spec_suffix().is_suffix_of((*key)@)
    }

    fn matches(&self, key: &&str) -> (matched: bool) {
        str_ends_with(*key, self.suffix.as_str())
    }
}

/// Matches every string key that holds a fixed substring.
pub struct ContainsMatcher {
    substring: String,
}

impl ContainsMatcher {
    /// The substring looked for, as its characters.
    pub closed spec fn spec_substring(&self) -> Seq<char> {
        self.substring@
    }

    /// A matcher for keys holding `substring`.
    pub fn new(substring: &str) -> (matcher: Self)
        ensures
            matcher.spec_substring() == substring@,
    {
        Self { substring: substring.to_owned() }
    }
}

impl Matcher<String> for ContainsMatcher {
    open spec fn wf(&self) -> bool {
        true
    }

    open spec fn spec_matches(&self, key: &String) -> bool {
        contains_seq(key@, self.spec_substring())
    }

    fn matches(&self, key: &String) -> (matched: bool) {
        str_contains(key.as_str(), self.substring.as_str())
    }
}

impl<'s> Matcher<&'s str> for ContainsMatcher {
    open spec fn wf(&self) -> bool {
        true
    }

    open spec fn spec_matches(&self, key: &&str) -> bool {
        contains_seq((*key)@, self.spec_substring())
    }

    fn matches(&self, key: &&str) -> (matched: bool) {
        str_contains(*key, self.substring.as_str())
    }
}

/// Matches every key that lies between two bounds, either with the bounds
/// themselves included or with both excluded.
pub struct RangeMatcher<T> {
    min: T,
    max: T,
    inclusive: bool,
}

impl<T> RangeMatcher<T> {
    /// The lower bound.
    pub closed spec fn spec_min(&self) -> T {
        self.min
    }

    /// The upper bound.
    pub closed spec fn spec_max(&self) -> T {
        self.max
    }

    /// Whether the bounds themselves match.
    pub closed spec fn spec_inclusive(&self) -> bool {
        self.inclusive
    }

    /// A matcher for keys between `min` and `max`, bounds included.
    pub fn new(min: T, max: T) -> (matcher: Self)
        ensures
            matcher.spec_min() == min,
            matcher.spec_max() == max,
            matcher.spec_inclusive(),
    {
        Self { min, max, inclusive: true }
    }

    /// A matcher for keys strictly between `min` and `max`.
    pub fn exclusive(min: T, max: T) -> (matcher: Self)
        ensures
            matcher.spec_min() == min,
            matcher.spec_max() == max,
            !matcher.spec_inclusive(),
    {
        Self { min, max, inclusive: false }
    }
}

impl<T: PartialOrd> Matcher<T> for RangeMatcher<T> {
    open spec fn wf(&self) -> bool {
        T::obeys_partial_cmp_spec()
    }

    open spec fn spec_matches(&self, key: &T) -> bool {
        if self.spec_inclusive() {
            key.is_ge(&self.spec_min()) && key.is_le(&self.spec_max())
        } else {
            key.is_gt(&self.spec_min()) && key.is_lt(&self.spec_max())
        }
    }

    fn matches(&self, key: &T) -> (matched: bool) {
        if self.inclusive {
            *key >= self.min && *key <= self.max
        } else {
            *key > self.min && *key < self.max
        }
    }
}

/// Matches whatever a caller-supplied function of the key says.  The store's
/// pattern queries count on the function being total and deterministic; a
/// partial or nondeterministic one leaves the matcher without a pinned
/// answer, which `wf` records.
pub struct FnMatcher<T, F>
where
    F: Fn(&T) -> bool,
{
    matcher_fn: F,
    _phantom: core::marker::PhantomData<T>,
}

impl<T, F> FnMatcher<T, F>
where
    F: Fn(&T) -> bool,
{
    /// The wrapped function.
    pub closed spec fn spec_fn(&self) -> F {
        self.matcher_fn
    }

    /// A matcher answering whatever `matcher_fn` answers.
    pub fn new(matcher_fn: F) -> (matcher: Self)
        ensures
            matcher.spec_fn() == matcher_fn,
    {
        Self { matcher_fn, _phantom: core::marker::PhantomData }
    }
}

impl<T, F> Matcher<T> for FnMatcher<T, F>
where
    F: Fn(&T) -> bool,
{
    open spec fn wf(&self) -> bool {
        &&& forall|k: &T| #[trigger] call_requires(self.spec_fn(), (k,))
        &&& forall|k: &T, b1: bool, b2: bool|
            #[trigger] call_ensures(self.spec_fn(), (k,), b1) && #[trigger] call_ensures(
                self.spec_fn(),
                (k,),
                b2,
            ) ==> b1 == b2
    }

    open spec fn spec_matches(&self, key: &T) -> bool {
        call_ensures(self.spec_fn(), (key,), true)
    }

    fn matches(&self, key: &T) -> (matched: bool) {
        let matched = (self.matcher_fn)(key);
        proof {
            if call_ensures(self.spec_fn(), (key,), true) {
                assert(matched);
            }
        }
        matched
    }
}

} // verus!
