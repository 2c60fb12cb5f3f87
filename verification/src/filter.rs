//! Regular expressions (through the `regex` crate), filter expressions over
//! playlist items, and rename rules.

use vstd::prelude::*;
use vstd::string::*;
use crate::model::ItemField;
use crate::playlist::{ItemSpec, PlaylistItem, field_value, get_field_value};

verus! {

/// Whether `pattern` compiles as a regular expression (`regex::Regex::new`).
pub uninterp spec fn regex_valid(pattern: Seq<char>) -> bool;

/// Whether the compiled `pattern` finds a match anywhere in `haystack`.
pub uninterp spec fn regex_matches(pattern: Seq<char>, haystack: Seq<char>) -> bool;

/// `haystack` with every non-overlapping match of `pattern` replaced by
/// `replacement` (in which `$name` refers to capture groups).
pub uninterp spec fn regex_replace_all(pattern: Seq<char>, haystack: Seq<char>, replacement: Seq<char>) -> Seq<char>;

/// Whether a pattern compiles.
///
/// Trusted: wraps `regex::Regex::new` and reports whether it returned `Ok`;
/// the contract only names that outcome.
#[verifier::external_body]
pub fn regex_is_valid(pattern: &str) -> (r: bool)
    ensures
        r == regex_valid(pattern@),
{
    regex::Regex::new(pattern).is_ok()
}

/// Whether a valid pattern matches somewhere in `haystack`.
///
/// Trusted: wraps `regex::Regex::is_match` on the regex that
/// `regex::Regex::new(pattern)` compiles; the contract only names the result.
#[verifier::external_body]
pub(crate) fn regex_is_match(pattern: &str, haystack: &str) -> (r: bool)
    requires
        regex_valid(pattern@),
    ensures
        r == regex_matches(pattern@, haystack@),
{
    match regex::Regex::new(pattern) {
        Ok(re) => re.is_match(haystack),
        Err(_) => false,
    }
}

/// Replaces every match of a valid pattern.
///
/// Trusted: wraps `regex::Regex::replace_all` on the regex that
/// `regex::Regex::new(pattern)` compiles; the contract only names the result.
#[verifier::external_body]
pub(crate) fn regex_replace(pattern: &str, haystack: &str, replacement: &str) -> (r: String)
    requires
        regex_valid(pattern@),
    ensures
        r@ == regex_replace_all(pattern@, haystack@, replacement@),
{
    match regex::Regex::new(pattern) {
        Ok(re) => re.replace_all(haystack, replacement).into_owned(),
        Err(_) => haystack.to_string(),
    }
}

/// A filter expression over the fields of a playlist item.
pub enum Filter {
    /// The field matches the regular expression.
    FieldComparison(ItemField, String),
    /// A parenthesised expression.
    Group(Box<Filter>),
    Not(Box<Filter>),
    And(Box<Filter>, Box<Filter>),
    Or(Box<Filter>, Box<Filter>),
}

/// Every regular expression of the filter compiles.
pub open spec fn filter_wf(f: Filter) -> bool
    decreases f,
{
    match f {
        Filter::FieldComparison(_, pattern) => regex_valid(pattern@),
        Filter::Group(inner) => filter_wf(*inner),
        Filter::Not(inner) => filter_wf(*inner),
        Filter::And(a, b) => filter_wf(*a) && filter_wf(*b),
        Filter::Or(a, b) => filter_wf(*a) && filter_wf(*b),
    }
}

/// Whether the item satisfies the filter.
pub open spec fn filter_matches(f: Filter, item: ItemSpec) -> bool
    decreases f,
{
    match f {
        Filter::FieldComparison(field, pattern) => regex_matches(pattern@, field_value(item, field)),
        Filter::Group(inner) => filter_matches(*inner, item),
        Filter::Not(inner) => !filter_matches(*inner, item),
        Filter::And(a, b) => filter_matches(*a, item) && filter_matches(*b, item),
        Filter::Or(a, b) => filter_matches(*a, item) || filter_matches(*b, item),
    }
}

impl Filter {
    /// Whether every regular expression of the filter compiles.
    pub fn is_wf(&self) -> (r: bool)
        ensures
            r == filter_wf(*self),
        decreases self,
    {
        match self {
            Filter::FieldComparison(_, pattern) => regex_is_valid(pattern.as_str()),
            Filter::Group(inner) => inner.is_wf(),
            Filter::Not(inner) => inner.is_wf(),
            Filter::And(a, b) => a.is_wf() && b.is_wf(),
            Filter::Or(a, b) => a.is_wf() && b.is_wf(),
        }
    }

    /// A field comparison whose pattern compiles, or `None`.
    pub fn field_comparison(field: ItemField, pattern: String) -> (r: Option<Filter>)
        ensures
            r is None <==> !regex_valid(pattern@),
            match r {
                Some(f) => filter_wf(f) && f == Filter::FieldComparison(field, pattern),
                None => true,
            },
    {
        if regex_is_valid(pattern.as_str()) {
            Some(Filter::FieldComparison(field, pattern))
        } else {
            None
        }
    }

    /// Evaluates the filter on an item.
    pub fn filter(&self, item: &PlaylistItem) -> (r: bool)
        requires
            filter_wf(*self),
        ensures
            r == filter_matches(*self, item@),
        decreases self,
    {
        match self {
            Filter::FieldComparison(field, pattern) => regex_is_match(
                pattern.as_str(),
                get_field_value(item, *field),
            ),
            Filter::Group(inner) => inner.filter(item),
            Filter::Not(inner) => !inner.filter(item),
            Filter::And(a, b) => a.filter(item) && b.filter(item),
            Filter::Or(a, b) => a.filter(item) || b.filter(item),
        }
    }
}

/// A rename rule: matches of `pattern` in `field` become `new_name`.
pub struct ConfigRename {
    pub field: ItemField,
    pub pattern: String,
    pub new_name: String,
}

impl ConfigRename {
    /// A rule whose pattern compiles, or `None`.
    pub fn new(field: ItemField, pattern: String, new_name: String) -> (r: Option<ConfigRename>)
        ensures
            match r {
                Some(c) => c.field == field && c.pattern == pattern && c.new_name == new_name
                    && regex_valid(c.pattern@),
                None => !regex_valid(pattern@),
            },
    {
        if regex_is_valid(pattern.as_str()) {
            Some(ConfigRename { field, pattern, new_name })
        } else {
            None
        }
    }
}

/// Every rule's pattern compiles.
pub open spec fn renames_wf(renames: Seq<ConfigRename>) -> bool {
    forall|i: int| 0 <= i < renames.len() ==> regex_valid(#[trigger] renames[i].pattern@)
}

/// Whether every rule's pattern compiles.
pub fn renames_are_wf(renames: &Vec<ConfigRename>) -> (r: bool)
    ensures
        r == renames_wf(renames@),
{
    let n: usize = renames.len();
    let mut i: usize = 0;
    while i < n
        invariant
            n == renames@.len(),
            i <= n,
            forall|k: int| 0 <= k < i ==> regex_valid(#[trigger] renames@[k].pattern@),
        decreases n - i,
    {
        if !regex_is_valid(renames[i].pattern.as_str()) {
            return false;
        }
        i = i + 1;
    }
    true
}

/// The text of `field` after applying, in order, the rules that address
/// that field.
pub open spec fn apply_renames(renames: Seq<ConfigRename>, field: ItemField, value: Seq<char>) -> Seq<char>
    decreases renames.len(),
{
    if renames.len() == 0 {
        value
    } else {
        let earlier = apply_renames(renames.drop_last(), field, value);
        let r = renames.last();
        if r.field == field {
            regex_replace_all(r.pattern@, earlier, r.new_name@)
        } else {
            earlier
        }
    }
}

/// Applies the rules that address `field` to `value`.
pub fn rename_text(renames: &Vec<ConfigRename>, field: ItemField, value: &str) -> (r: String)
    requires
        renames_wf(renames@),
    ensures
        r@ == apply_renames(renames@, field, value@),
{
    let mut current: String = String::from_str(value);
    let n: usize = renames.len();
    let mut i: usize = 0;
    while i < n
        invariant
            n == renames@.len(),
            i <= n,
            renames_wf(renames@),
            current@ == apply_renames(renames@.take(i as int), field, value@),
        decreases n - i,
    {
        let r: &ConfigRename = &renames[i];
        assert(renames@.take(i + 1).drop_last() =~= renames@.take(i as int));
        if r.field == field {
            assert(regex_valid(renames@[i as int].pattern@));
            current = regex_replace(r.pattern.as_str(), current.as_str(), r.new_name.as_str());
        }
        i = i + 1;
    }
    assert(renames@.take(n as int) =~= renames@);
    current
}

} // verus!
