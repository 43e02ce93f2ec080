//! Decoding named byte values into schemas: field lookup, consumption,
//! nested prefixes, the remainder, and unknown-field reporting.

use vstd::prelude::*;
use crate::text::{eq_ignore_case, eq_ignore_ascii_case, chars_of, string_of, chars_equal};
use crate::headers::{HeaderEntries, entries_view};
use crate::dispatch::{filter_upto, lemma_filter_members, lemma_filter_none};
use crate::schemaval::{
    DecodeOptions, UnknownFields, SchemaMetadata, ValidationRule, ValidationIssue, ValidationErrors,
    prefixed_field,
};
use crate::values::{ValueSchema, Length};

verus! {

/// Whether an input name `actual` names the field `expected`.
pub open spec fn names_match(case_insensitive: bool, actual: Seq<char>, expected: Seq<char>) -> bool {
    if case_insensitive {
        eq_ignore_case(actual, expected)
    } else {
        actual == expected
    }
}

/// The rest of `actual` after `prefix`, when it starts with `prefix`.
pub open spec fn strip_prefix(case_insensitive: bool, actual: Seq<char>, prefix: Seq<char>) -> Option<Seq<char>> {
    if prefix.len() <= actual.len() && names_match(case_insensitive, actual.take(prefix.len() as int), prefix) {
        Some(actual.skip(prefix.len() as int))
    } else {
        None
    }
}

/// One named value of a request.
#[derive(Debug, Clone, Copy)]
pub struct Value<'value> {
    pub name: &'value str,
    pub bytes: &'value [u8],
}

/// The named values a schema is decoded from, with the way their names
/// compare (header names compare without ASCII case).
#[derive(Debug, Clone)]
pub struct FieldValues {
    entries: Vec<(String, Vec<u8>)>,
    case_insensitive: bool,
}

fn names_equal(case_insensitive: bool, actual: &str, expected: &str) -> (r: bool)
    ensures
        r == names_match(case_insensitive, actual@, expected@),
{
    if case_insensitive {
        eq_ignore_ascii_case(actual, expected)
    } else {
        let a = chars_of(actual);
        let e = chars_of(expected);
        chars_equal(a.as_slice(), e.as_slice())
    }
}

fn strip_name(case_insensitive: bool, actual: &str, prefix: &str) -> (r: Option<String>)
    ensures
        match strip_prefix(case_insensitive, actual@, prefix@) {
            Some(rest) => r matches Some(s) && s@ == rest,
            None => r is None,
        },
{
    let a = chars_of(actual);
    let p = chars_of(prefix);
    if p.len() > a.len() {
        return None;
    }
    let mut head: Vec<char> = Vec::new();
    let mut tail: Vec<char> = Vec::new();
    let mut i: usize = 0;
    while i < a.len()
        invariant
            a@ == actual@,
            p@.len() <= a@.len(),
            i <= a@.len(),
            head@ == a@.take(if i < p@.len() { i as int } else { p@.len() as int }),
            tail@ == (if i <= p@.len() { Seq::<char>::empty() } else { a@.subrange(p@.len() as int, i as int) }),
        decreases a@.len() - i,
    {
        if i < p.len() {
            head.push(a[i]);
        } else {
            tail.push(a[i]);
        }
        i += 1;
        assert(head@ =~= a@.take(if i < p@.len() { i as int } else { p@.len() as int }));
        assert(tail@ =~= (if i <= p@.len() { Seq::<char>::empty() } else { a@.subrange(p@.len() as int, i as int) }));
    }
    assert(a@.subrange(p@.len() as int, a@.len() as int) =~= a@.skip(p@.len() as int));
    let head_text = string_of(head.as_slice());
    if names_equal(case_insensitive, head_text.as_str(), prefix) {
        Some(string_of(tail.as_slice()))
    } else {
        None
    }
}

impl FieldValues {
    /// The entries, in input order.
    pub closed spec fn entries(&self) -> HeaderEntries {
        entries_view(self.entries@)
    }

    pub closed spec fn spec_case_insensitive(&self) -> bool {
        self.case_insensitive
    }

    pub fn new(entries: Vec<(String, Vec<u8>)>, case_insensitive: bool) -> (r: FieldValues)
        ensures
            r.entries() == entries_view(entries@),
            r.spec_case_insensitive() == case_insensitive,
    {
        FieldValues { entries, case_insensitive }
    }

    pub fn len(&self) -> (n: usize)
        ensures
            n == self.entries().len(),
    {
        self.entries.len()
    }

    pub fn is_empty(&self) -> (b: bool)
        ensures
            b == (self.entries().len() == 0),
    {
        self.entries.len() == 0
    }

    /// The value at `index`, if there is one.
    pub fn value(&self, index: usize) -> (r: Option<Value<'_>>)
        ensures
            index < self.entries().len() ==> (r matches Some(v) && v.name@ == self.entries()[index as int].0
                && v.bytes@ == self.entries()[index as int].1),
            index >= self.entries().len() ==> r is None,
    {
        if index < self.entries.len() {
            let e = &self.entries[index];
            Some(Value { name: e.0.as_str(), bytes: e.1.as_slice() })
        } else {
            None
        }
    }

    pub fn name_matches(&self, actual: &str, expected: &str) -> (r: bool)
        ensures
            r == names_match(self.spec_case_insensitive(), actual@, expected@),
    {
        names_equal(self.case_insensitive, actual, expected)
    }

    pub fn names_are_case_insensitive(&self) -> (r: bool)
        ensures
            r == self.spec_case_insensitive(),
    {
        self.case_insensitive
    }

    pub fn strip_name_prefix(&self, actual: &str, prefix: &str) -> (r: Option<String>)
        ensures
            match strip_prefix(self.spec_case_insensitive(), actual@, prefix@) {
                Some(rest) => r matches Some(s) && s@ == rest,
                None => r is None,
            },
    {
        strip_name(self.case_insensitive, actual, prefix)
    }
}

/// Values a schema did not declare, kept for the schema to inspect.
#[derive(Debug, Default, Clone)]
pub struct ExtraFields {
    entries: Vec<(String, Vec<u8>)>,
    case_insensitive: bool,
}

/// The values of the entries among the first `n` whose name matches.
pub open spec fn matching_values(entries: HeaderEntries, ci: bool, name: Seq<char>, n: int) -> Seq<Seq<u8>>
    decreases n,
{
    if n <= 0 {
        Seq::<Seq<u8>>::empty()
    } else if names_match(ci, entries[n - 1].0, name) {
        matching_values(entries, ci, name, n - 1).push(entries[n - 1].1)
    } else {
        matching_values(entries, ci, name, n - 1)
    }
}

/// The first entry at or after `from` whose name matches.
pub open spec fn first_match(entries: HeaderEntries, ci: bool, name: Seq<char>, from: int) -> Option<int>
    decreases entries.len() - from,
{
    if from < 0 || from >= entries.len() {
        None
    } else if names_match(ci, entries[from].0, name) {
        Some(from)
    } else {
        first_match(entries, ci, name, from + 1)
    }
}

impl ExtraFields {
    pub closed spec fn entries(&self) -> HeaderEntries {
        entries_view(self.entries@)
    }

    pub closed spec fn spec_case_insensitive(&self) -> bool {
        self.case_insensitive
    }

    /// The value of the first entry named `name`.
    pub fn get(&self, name: &str) -> (r: Option<&[u8]>)
        ensures
            match first_match(self.entries(), self.spec_case_insensitive(), name@, 0) {
                Some(i) => r matches Some(v) && v@ == self.entries()[i].1,
                None => r is None,
            },
    {
        let ghost es = self.entries();
        let mut i: usize = 0;
        while i < self.entries.len()
            invariant
                es == self.entries(),
                i <= self.entries@.len(),
                first_match(es, self.case_insensitive, name@, 0) == first_match(es, self.case_insensitive, name@, i as int),
            decreases self.entries@.len() - i,
        {
            if names_equal(self.case_insensitive, self.entries[i].0.as_str(), name) {
                return Some(self.entries[i].1.as_slice());
            }
            i += 1;
        }
        None
    }

    /// The values of all entries named `name`, in order.
    pub fn get_all(&self, name: &str) -> (r: Vec<&[u8]>)
        ensures
            r@.map_values(|v: &[u8]| v@) == matching_values(self.entries(), self.spec_case_insensitive(), name@, self.entries().len() as int),
    {
        let ghost es = self.entries();
        let mut out: Vec<&[u8]> = Vec::new();
        let mut i: usize = 0;
        assert(out@.map_values(|v: &[u8]| v@) =~= Seq::<Seq<u8>>::empty());
        while i < self.entries.len()
            invariant
                es == self.entries(),
                i <= self.entries@.len(),
                out@.map_values(|v: &[u8]| v@) == matching_values(es, self.case_insensitive, name@, i as int),
            decreases self.entries@.len() - i,
        {
            let ghost before = out@.map_values(|v: &[u8]| v@);
            if names_equal(self.case_insensitive, self.entries[i].0.as_str(), name) {
                out.push(self.entries[i].1.as_slice());
                assert(out@.map_values(|v: &[u8]| v@) =~= before.push(es[i as int].1));
            }
            i += 1;
        }
        out
    }

    /// Every entry, in input order.
    pub fn iter(&self) -> (r: Vec<(&str, &[u8])>)
        ensures
            r@.len() == self.entries().len(),
            forall|i: int| 0 <= i < r@.len() ==> (#[trigger] r@[i]).0@ == self.entries()[i].0 && r@[i].1@ == self.entries()[i].1,
    {
        let mut out: Vec<(&str, &[u8])> = Vec::new();
        let mut i: usize = 0;
        while i < self.entries.len()
            invariant
                i <= self.entries@.len(),
                out@.len() == i,
                forall|k: int| 0 <= k < i ==> (#[trigger] out@[k]).0@ == self.entries()[k].0 && out@[k].1@ == self.entries()[k].1,
            decreases self.entries@.len() - i,
        {
            out.push((self.entries[i].0.as_str(), self.entries[i].1.as_slice()));
            i += 1;
        }
        out
    }

    pub fn is_empty(&self) -> (b: bool)
        ensures
            b == (self.entries().len() == 0),
    {
        self.entries.len() == 0
    }

    pub fn len(&self) -> (n: usize)
        ensures
            n == self.entries().len(),
    {
        self.entries.len()
    }
}

/// A type decoded from a whole set of named values.
pub trait Schema: Sized {
    /// Whether `r` is what decoding the entries `entries` (names compared
    /// without case when `case_insensitive`) under `options` gives.
    /// A type that does not say accepts any result.
    open spec fn decode_result(entries: HeaderEntries, case_insensitive: bool, options: DecodeOptions,
        r: Result<Self, ValidationErrors>) -> bool {
        true
    }

    /// The unknown-field policy the type imposes on itself, if any.
    const UNKNOWN_FIELDS: Option<UnknownFields> = None;

    fn decode(values: &FieldValues, options: DecodeOptions) -> (r: Result<Self, ValidationErrors>)
        ensures
            Self::decode_result(values.entries(), values.spec_case_insensitive(), options, r),
    ;

    fn metadata() -> SchemaMetadata;
}

impl<T: ValueSchema> Schema for T {
    open spec fn decode_result(entries: HeaderEntries, case_insensitive: bool, options: DecodeOptions,
        r: Result<T, ValidationErrors>) -> bool {
        &&& entries.len() == 1 ==> match T::rejection(entries[0].1) {
            None => r matches Ok(v) && T::decodes_to(entries[0].1, v),
            Some(m) => r matches Err(e) && e.spec_issues().len() == 1
                && issue_is(e.spec_issues()[0], Some("value"@), ValidationRule::InvalidType, m),
        }
        &&& entries.len() == 0 ==> (r matches Err(e) && e.spec_issues().len() == 1
            && issue_is(e.spec_issues()[0], None, ValidationRule::Missing, "a value is required"@))
        &&& entries.len() > 1 ==> (r matches Err(e) && e.spec_issues().len() == 1
            && issue_is(e.spec_issues()[0], None, ValidationRule::Multiple, "exactly one value is required"@))
    }

    /// A single value: exactly one entry, whatever its name.
    fn decode(values: &FieldValues, options: DecodeOptions) -> (r: Result<T, ValidationErrors>)
        ensures
            values.entries().len() == 1 ==> match T::rejection(values.entries()[0].1) {
                None => r matches Ok(v) && T::decodes_to(values.entries()[0].1, v),
                Some(m) => r matches Err(e) && e.spec_issues().len() == 1
                    && issue_is(e.spec_issues()[0], Some("value"@), ValidationRule::InvalidType, m),
            },
            values.entries().len() == 0 ==> (r matches Err(e) && e.spec_issues().len() == 1
                && issue_is(e.spec_issues()[0], None, ValidationRule::Missing, "a value is required"@)),
            values.entries().len() > 1 ==> (r matches Err(e) && e.spec_issues().len() == 1
                && issue_is(e.spec_issues()[0], None, ValidationRule::Multiple, "exactly one value is required"@)),
    {
        let mut decoder = Decoder::new(values, options);
        let value = decoder.single::<T>();
        proof {
            lemma_filter_none(|k: int| decoder.first_unknown(k), decoder.spec_entries().len() as int);
        }
        let errors = decoder.finish();
        match value {
            Some(v) => {
                if errors.is_empty() {
                    Ok(v)
                } else {
                    Err(errors)
                }
            },
            None => Err(errors),
        }
    }

    fn metadata() -> SchemaMetadata {
        T::metadata()
    }
}

/// Whether `issue` has exactly this field, rule and message, and no code.
pub open spec fn issue_is(issue: ValidationIssue, field: Option<Seq<char>>, rule: ValidationRule, message: Seq<char>) -> bool {
    &&& issue.spec_field() == field
    &&& issue.spec_rule() == rule
    &&& issue.spec_code_override() is None
    &&& issue.spec_message() == message
}

/// `after` is `before` with one more issue of this field, rule and message.
pub open spec fn one_more(
    before: Seq<ValidationIssue>,
    after: Seq<ValidationIssue>,
    field: Option<Seq<char>>,
    rule: ValidationRule,
    message: Seq<char>,
) -> bool {
    &&& after.len() == before.len() + 1
    &&& after.take(before.len() as int) == before
    &&& issue_is(after[before.len() as int], field, rule, message)
}


/// The first position at or after `from` holding `c`.
pub open spec fn first_index_of(s: Seq<char>, c: char, from: int) -> Option<int>
    decreases s.len() - from,
{
    if from < 0 || from >= s.len() {
        None
    } else if s[from] == c {
        Some(from)
    } else {
        first_index_of(s, c, from + 1)
    }
}

pub open spec fn is_digit_char(c: char) -> bool {
    '0' <= c && c <= '9'
}

/// The number a run of decimal digit characters denotes.
pub open spec fn digit_chars_value(s: Seq<char>) -> int
    decreases s.len(),
{
    if s.len() == 0 {
        0
    } else {
        10 * digit_chars_value(s.drop_last()) + (s.last() as int - 48)
    }
}

pub open spec fn all_digit_chars(s: Seq<char>) -> bool {
    forall|i: int| 0 <= i < s.len() ==> is_digit_char(#[trigger] s[i])
}

/// The digits of an item text: the text without one leading `+`.
pub open spec fn index_digits(s: Seq<char>) -> Seq<char> {
    if s.len() > 0 && s[0] == '+' { s.drop_first() } else { s }
}

/// The index an item text denotes: an optional `+` and at least one digit,
/// as Rust's `usize` parsing reads it.
pub open spec fn index_text(s: Seq<char>) -> Option<int> {
    if index_digits(s).len() > 0 && all_digit_chars(index_digits(s)) {
        Some(digit_chars_value(index_digits(s)))
    } else {
        None
    }
}

pub open spec fn no_dot_message() -> Seq<char> {
    "must use `<field>.<index>.<nested-field>`"@
}

pub open spec fn empty_field_message() -> Seq<char> {
    "nested field name cannot be empty"@
}

pub open spec fn bad_index_message() -> Seq<char> {
    "nested item index must be a non-negative integer"@
}

/// How an input name relates to the repeated nested field behind `prefix`:
/// not under it, malformed (with the message), or naming an item index.
pub open spec fn item_class(case_insensitive: bool, actual: Seq<char>, prefix: Seq<char>) -> Option<Result<int, Seq<char>>> {
    match strip_prefix(case_insensitive, actual, prefix) {
        None => None,
        Some(rest) => match first_index_of(rest, '.', 0) {
            None => Some(Err(no_dot_message())),
            Some(k) => if k + 1 == rest.len() {
                Some(Err(empty_field_message()))
            } else {
                match index_text(rest.take(k)) {
                    Some(v) => if 0 <= v && v <= usize::MAX { Some(Ok(v)) } else { Some(Err(bad_index_message())) },
                    None => Some(Err(bad_index_message())),
                }
            },
        },
    }
}

proof fn lemma_digit_chars_step(s: Seq<char>, i: int)
    requires
        0 <= i < s.len(),
    ensures
        digit_chars_value(s.take(i + 1)) == 10 * digit_chars_value(s.take(i)) + (s[i] as int - 48),
{
    assert(s.take(i + 1).drop_last() =~= s.take(i));
}

proof fn lemma_digit_chars_monotonic(s: Seq<char>, i: int, j: int)
    requires
        0 <= i <= j <= s.len(),
        forall|k: int| 0 <= k < s.len() ==> is_digit_char(#[trigger] s[k]),
    ensures
        0 <= digit_chars_value(s.take(i)) <= digit_chars_value(s.take(j)),
    decreases j - i,
{
    if i < j {
        lemma_digit_chars_monotonic(s, i, j - 1);
        lemma_digit_chars_step(s, j - 1);
    } else {
        lemma_digit_chars_nonneg(s, i);
    }
}

proof fn lemma_digit_chars_nonneg(s: Seq<char>, i: int)
    requires
        0 <= i <= s.len(),
        forall|k: int| 0 <= k < s.len() ==> is_digit_char(#[trigger] s[k]),
    ensures
        0 <= digit_chars_value(s.take(i)),
    decreases i,
{
    if i > 0 {
        lemma_digit_chars_nonneg(s, i - 1);
        lemma_digit_chars_step(s, i - 1);
    }
}

/// Reads an item index.
fn parse_index(s: &[char]) -> (r: Option<usize>)
    ensures
        match index_text(s@) {
            Some(v) => if 0 <= v && v <= usize::MAX { r matches Some(x) && x as int == v } else { r is None },
            None => r is None,
        },
{
    let start: usize = if s.len() > 0 && s[0] == '+' { 1 } else { 0 };
    let ghost d = s@.skip(start as int);
    assert(d =~= index_digits(s@));
    if start >= s.len() {
        return None;
    }
    let mut acc: usize = 0;
    let mut i: usize = start;
    assert(d.take(0) =~= Seq::<char>::empty());
    while i < s.len()
        invariant
            start <= i <= s@.len(),
            d == s@.skip(start as int),
            d == index_digits(s@),
            forall|k: int| 0 <= k < i - start ==> is_digit_char(#[trigger] d[k]),
            acc == digit_chars_value(d.take(i - start)),
        decreases s@.len() - i,
    {
        let c = s[i];
        assert(d[i - start] == c);
        if c < '0' || c > '9' {
            assert(!is_digit_char(d[i - start]));
            assert(!all_digit_chars(d));
            return None;
        }
        let v: usize = (c as u32 - 48) as usize;
        assert(v as int == c as int - 48);
        proof {
            lemma_digit_chars_step(d, i - start);
        }
        if acc > (usize::MAX - v) / 10 {
            proof {
                assert(10 * acc + v > usize::MAX) by (nonlinear_arith)
                    requires
                        acc > (usize::MAX - v) / 10,
                        v <= 9,
                ;
                if all_digit_chars(d) {
                    lemma_digit_chars_monotonic(d, i - start + 1, d.len() as int);
                    assert(d.take(d.len() as int) =~= d);
                    assert(digit_chars_value(d) > usize::MAX);
                }
            }
            return None;
        }
        proof {
            assert(10 * acc + v <= usize::MAX) by (nonlinear_arith)
                requires
                    acc <= (usize::MAX - v) / 10,
                    v <= 9,
            ;
        }
        acc = acc * 10 + v;
        i += 1;
    }
    assert(d.take(d.len() as int) =~= d);
    assert(all_digit_chars(d));
    assert(index_text(s@) == Some(acc as int));
    Some(acc)
}

/// Classifies one input name against a repeated nested field's prefix.
fn classify_item(case_insensitive: bool, actual: &str, prefix: &str) -> (r: Option<Result<usize, &'static str>>)
    ensures
        match item_class(case_insensitive, actual@, prefix@) {
            None => r is None,
            Some(Ok(v)) => r matches Some(Ok(x)) && x as int == v,
            Some(Err(m)) => r matches Some(Err(t)) && t@ == m,
        },
{
    proof {
        reveal_strlit("must use `<field>.<index>.<nested-field>`");
        reveal_strlit("nested field name cannot be empty");
        reveal_strlit("nested item index must be a non-negative integer");
    }
    let rest = match strip_name(case_insensitive, actual, prefix) {
        Some(r) => r,
        None => return None,
    };
    let chars = chars_of(rest.as_str());
    let mut k: usize = 0;
    while k < chars.len() && chars[k] != '.'
        invariant
            chars@ == rest@,
            k <= chars@.len(),
            first_index_of(rest@, '.', 0) == first_index_of(rest@, '.', k as int),
        decreases chars@.len() - k,
    {
        k += 1;
    }
    if k == chars.len() {
        return Some(Err("must use `<field>.<index>.<nested-field>`"));
    }
    if k + 1 == chars.len() {
        return Some(Err("nested field name cannot be empty"));
    }
    let mut item: Vec<char> = Vec::new();
    let mut j: usize = 0;
    while j < k
        invariant
            j <= k < chars@.len(),
            item@ == chars@.take(j as int),
        decreases k - j,
    {
        item.push(chars[j]);
        j += 1;
        assert(item@ =~= chars@.take(j as int));
    }
    assert(first_index_of(rest@, '.', k as int) == Some(k as int));
    assert(item@ == rest@.take(k as int));
    match parse_index(item.as_slice()) {
        Some(v) => Some(Ok(v)),
        None => Some(Err("nested item index must be a non-negative integer")),
    }
}

/// The parent options as seen by a nested schema with its own override.
pub fn nested_options(override_fields: Option<UnknownFields>, parent: DecodeOptions) -> (r: DecodeOptions)
    ensures
        r.spec_unknown_fields() == match override_fields {
            Some(u) => u,
            None => parent.spec_unknown_fields(),
        },
{
    match override_fields {
        Some(u) => DecodeOptions::new(u),
        None => DecodeOptions::new(parent.unknown_fields()),
    }
}

/// The indexes as integers.
pub open spec fn as_ints(xs: Seq<usize>) -> Seq<int> {
    xs.map_values(|x: usize| x as int)
}

/// Whether `ys` is strictly increasing.
pub open spec fn increasing(ys: Seq<int>) -> bool {
    forall|a: int, b: int| 0 <= a < b < ys.len() ==> ys[a] < ys[b]
}

/// `name` followed by a dot.
pub open spec fn dotted(name: Seq<char>) -> Seq<char> {
    name.push('.')
}

/// `name`, a dot, and the decimal text of `index`.
pub open spec fn item_name(name: Seq<char>, index: int) -> Seq<char> {
    name.push('.') + crate::text::decimal(index as nat)
}


/// The entries whose names start with `prefix` (compared without case when
/// `case_insensitive`), in order, with the prefix taken off their names.
pub open spec fn nested_entries(entries: HeaderEntries, case_insensitive: bool, prefix: Seq<char>) -> HeaderEntries {
    filter_upto(|i: int| strip_prefix(case_insensitive, entries[i].0, prefix) is Some, entries.len() as int).map_values(
        |i: int| (strip_prefix(case_insensitive, entries[i].0, prefix)->0, entries[i].1))
}

/// `r` and the issues `after` are what settling the outcome of a nested
/// schema for `name` gives: its value, or its issues put under `name`.
pub open spec fn settled<T>(before: Seq<ValidationIssue>, after: Seq<ValidationIssue>, name: Seq<char>,
    outcome: Result<T, ValidationErrors>, r: Option<T>) -> bool {
    match outcome {
        Ok(v) => r == Some(v) && after == before,
        Err(e) => r is None && nested_issues(before, after, name, e.spec_issues()),
    }
}

/// The unknown-field policy a schema is decoded under: its own, if it sets
/// one, else `default`.
pub open spec fn schema_policy(own: Option<UnknownFields>, default: UnknownFields) -> UnknownFields {
    match own {
        Some(u) => u,
        None => default,
    }
}

/// `r` and the issues `after` are what decoding the nested schema of `name`
/// from `entries` gives, under the options handed down to it from a parent
/// decoded under `parent`: the schema's own policy, else the parent's.
pub open spec fn nested_decoded<T: Schema>(entries: HeaderEntries, case_insensitive: bool, parent: DecodeOptions,
    before: Seq<ValidationIssue>, after: Seq<ValidationIssue>, name: Seq<char>, r: Option<T>) -> bool {
    exists|options: DecodeOptions, outcome: Result<T, ValidationErrors>|
        #[trigger] T::decode_result(entries, case_insensitive, options, outcome)
        && options.spec_unknown_fields() == schema_policy(T::UNKNOWN_FIELDS, parent.spec_unknown_fields())
        && settled(before, after, name, outcome, r)
}

/// The items of the repeated nested field `name` in `d`: `indexes` are the
/// item indexes named, in increasing order, and `outcomes[k]` is what decoding
/// the entries under `name.<indexes[k]>.` gave, under the options `options[k]`.
pub open spec fn items_decoded<T: Schema>(d: Decoder, name: Seq<char>, indexes: Seq<int>, options: Seq<DecodeOptions>,
    outcomes: Seq<Result<T, ValidationErrors>>) -> bool {
    &&& increasing(indexes)
    &&& forall|v: int| #[trigger] indexes.contains(v) <==> exists|i: int| 0 <= i < d.spec_entries().len()
        && item_class(d.spec_case_insensitive(), #[trigger] d.spec_entries()[i].0, dotted(name)) == Some(Ok::<int, Seq<char>>(v))
    &&& options.len() == indexes.len()
    &&& forall|k: int| 0 <= k < indexes.len() ==> (#[trigger] options[k]).spec_unknown_fields()
        == schema_policy(T::UNKNOWN_FIELDS, d.spec_options().spec_unknown_fields())
    &&& outcomes.len() == indexes.len()
    &&& forall|k: int| 0 <= k < indexes.len() ==> #[trigger] T::decode_result(
        d.nested_of(dotted(item_name(name, indexes[k]))), d.spec_case_insensitive(), options[k], outcomes[k])
}

/// What a repeated nested field gives for the item outcomes `outcomes`: every
/// item's value, in order, when no name under it is malformed and every item
/// decoded; nothing otherwise.
pub open spec fn repeated_outcome<T>(d: Decoder, name: Seq<char>, outcomes: Seq<Result<T, ValidationErrors>>,
    r: Option<Vec<T>>) -> bool {
    &&& r is Some <==> (d.malformed_list(dotted(name)).len() == 0
        && forall|k: int| 0 <= k < outcomes.len() ==> #[trigger] outcomes[k] is Ok)
    &&& r matches Some(vs) ==> vs@.len() == outcomes.len()
        && forall|k: int| 0 <= k < outcomes.len() ==> #[trigger] outcomes[k] == Ok::<T, ValidationErrors>(vs@[k])
}

/// `after` is `before` followed by the issues of a nested schema, each
/// field put under `name`.
pub open spec fn nested_issues(before: Seq<ValidationIssue>, after: Seq<ValidationIssue>, name: Seq<char>, nested: Seq<ValidationIssue>) -> bool {
    &&& after.len() == before.len() + nested.len()
    &&& after.take(before.len() as int) == before
    &&& forall|j: int| 0 <= j < nested.len() ==> {
        let n = #[trigger] after[before.len() + j];
        let e = nested[j];
        &&& n.spec_field() == Some(prefixed_field(name, e.spec_field()))
        &&& n.spec_rule() == e.spec_rule()
        &&& n.spec_code_override() == e.spec_code_override()
        &&& n.spec_message() == e.spec_message()
    }
}

/// The number of distinct item indexes named under `prefix`.
pub open spec fn item_count(d: Decoder, prefix: Seq<char>) -> nat {
    Set::new(|v: int| exists|i: int| 0 <= i < d.spec_entries().len()
        && item_class(d.spec_case_insensitive(), #[trigger] d.spec_entries()[i].0, prefix) == Some(Ok::<int, Seq<char>>(v))).len()
}

proof fn lemma_item_count(d: Decoder, prefix: Seq<char>, ys: Seq<int>)
    requires
        increasing(ys),
        forall|v: int| ys.contains(v) <==> exists|i: int| 0 <= i < d.spec_entries().len()
            && item_class(d.spec_case_insensitive(), #[trigger] d.spec_entries()[i].0, prefix) == Some(Ok::<int, Seq<char>>(v)),
    ensures
        ys.len() == item_count(d, prefix),
{
    assert(ys.no_duplicates()) by {
        assert forall|a: int, b: int| 0 <= a < ys.len() && 0 <= b < ys.len() && a != b implies ys[a] != ys[b] by {
            if a < b {} else {}
        }
    }
    ys.unique_seq_to_set();
    assert(ys.to_set() =~= Set::new(|v: int| exists|i: int| 0 <= i < d.spec_entries().len()
        && item_class(d.spec_case_insensitive(), #[trigger] d.spec_entries()[i].0, prefix) == Some(Ok::<int, Seq<char>>(v))));
}

/// Inserts `v` into the increasing `xs` unless it is already there.
fn insert_sorted(xs: &mut Vec<usize>, v: usize)
    requires
        increasing(as_ints(old(xs)@)),
    ensures
        increasing(as_ints(final(xs)@)),
        forall|w: int| #[trigger] as_ints(final(xs)@).contains(w) <==> (as_ints(old(xs)@).contains(w) || w == v),
{
    let ghost ys = as_ints(old(xs)@);
    let mut pos: usize = 0;
    while pos < xs.len() && xs[pos] < v
        invariant
            pos <= xs@.len(),
            xs@ == old(xs)@,
            ys == as_ints(old(xs)@),
            forall|k: int| 0 <= k < pos ==> (#[trigger] xs@[k]) < v,
        decreases xs@.len() - pos,
    {
        pos += 1;
    }
    if pos < xs.len() && xs[pos] == v {
        assert(ys[pos as int] == v);
        return;
    }
    xs.insert(pos, v);
    proof {
        let zs = as_ints(xs@);
        assert(zs =~= ys.take(pos as int).push(v as int) + ys.skip(pos as int));
        assert forall|a: int, b: int| 0 <= a < b < zs.len() implies zs[a] < zs[b] by {
            if b < pos {
            } else if b == pos {
                assert(zs[a] == ys[a]);
            } else if a < pos {
                assert(zs[a] == ys[a]);
                assert(zs[b] == ys[b - 1]);
                assert(ys[pos as int] > v);
                if b - 1 > pos {
                    assert(ys[pos as int] < ys[b - 1]);
                }
            } else if a == pos {
                assert(zs[b] == ys[b - 1]);
                assert(ys[pos as int] > v);
                if b - 1 > pos {
                    assert(ys[pos as int] < ys[b - 1]);
                }
            } else {
                assert(zs[a] == ys[a - 1]);
                assert(zs[b] == ys[b - 1]);
            }
        }
        assert forall|w: int| zs.contains(w) <==> (ys.contains(w) || w == v) by {
            if zs.contains(w) {
                let k = choose|k: int| 0 <= k < zs.len() && zs[k] == w;
                if k < pos {
                    assert(ys[k] == w);
                } else if k > pos {
                    assert(ys[k - 1] == w);
                }
            }
            if ys.contains(w) {
                let k = choose|k: int| 0 <= k < ys.len() && ys[k] == w;
                if k < pos {
                    assert(zs[k] == w);
                } else {
                    assert(zs[k + 1] == w);
                }
            }
            if w == v {
                assert(zs[pos as int] == w);
            }
        }
    }
}

/// The state of one decoding pass over a set of values: which values were
/// consumed by a declared field, and the issues found so far.
pub struct Decoder<'values> {
    values: &'values FieldValues,
    options: DecodeOptions,
    consumed: Vec<bool>,
    errors: ValidationErrors,
}

impl<'values> Decoder<'values> {
    pub closed spec fn spec_entries(&self) -> HeaderEntries {
        self.values.entries()
    }

    pub closed spec fn spec_case_insensitive(&self) -> bool {
        self.values.spec_case_insensitive()
    }

    pub closed spec fn spec_options(&self) -> DecodeOptions {
        self.options
    }

    pub closed spec fn spec_consumed(&self) -> Seq<bool> {
        self.consumed@
    }

    pub closed spec fn spec_issues(&self) -> Seq<ValidationIssue> {
        self.errors.spec_issues()
    }

    pub open spec fn wf(&self) -> bool {
        self.spec_consumed().len() == self.spec_entries().len()
    }

    /// The same values and options as `old`.
    pub open spec fn same_input(&self, old: &Decoder<'values>) -> bool {
        &&& self.spec_entries() == old.spec_entries()
        &&& self.spec_case_insensitive() == old.spec_case_insensitive()
        &&& self.spec_options() == old.spec_options()
    }

    /// Whether the entry at `i` names `name`.
    pub open spec fn names(&self, i: int, name: Seq<char>) -> bool {
        names_match(self.spec_case_insensitive(), self.spec_entries()[i].0, name)
    }

    /// The indexes of the entries named `name`, in order.
    pub open spec fn matched(&self, name: Seq<char>) -> Seq<int> {
        filter_upto(|i: int| self.names(i, name), self.spec_entries().len() as int)
    }

    /// The consumption marks after marking the entries named `name`.
    pub open spec fn marked(&self, name: Seq<char>) -> Seq<bool> {
        Seq::new(self.spec_consumed().len(), |i: int| self.spec_consumed()[i] || self.names(i, name))
    }

    /// Whether `r` and the issues after are what decoding entry `index` as a
    /// `T` for field `name` gives.
    pub open spec fn decoded_at<T: ValueSchema>(&self, after: Seq<ValidationIssue>, name: Seq<char>, index: int, r: Option<T>) -> bool {
        let bytes = self.spec_entries()[index].1;
        match T::rejection(bytes) {
            None => r matches Some(v) && T::decodes_to(bytes, v) && after == self.spec_issues(),
            Some(m) => r is None && one_more(self.spec_issues(), after, Some(name), ValidationRule::InvalidType, m),
        }
    }

    /// A pass over `values` with nothing consumed and no issues.
    pub fn new(values: &'values FieldValues, options: DecodeOptions) -> (d: Decoder<'values>)
        ensures
            d.wf(),
            d.spec_entries() == values.entries(),
            d.spec_case_insensitive() == values.spec_case_insensitive(),
            d.spec_options() == options,
            forall|i: int| 0 <= i < d.spec_consumed().len() ==> !#[trigger] d.spec_consumed()[i],
            d.spec_issues().len() == 0,
    {
        let mut consumed: Vec<bool> = Vec::new();
        let mut i: usize = 0;
        while i < values.len()
            invariant
                consumed@.len() == i,
                i <= values.entries().len(),
                forall|k: int| 0 <= k < i ==> !#[trigger] consumed@[k],
            decreases values.entries().len() - i,
        {
            consumed.push(false);
            i += 1;
        }
        Decoder { values, options, consumed, errors: ValidationErrors::new() }
    }

    fn issue(&mut self, field: Option<&str>, rule: ValidationRule, message: &str)
        ensures
            final(self).same_input(old(self)),
            final(self).spec_consumed() == old(self).spec_consumed(),
            one_more(old(self).spec_issues(), final(self).spec_issues(),
                match field { Some(f) => Some(f@), None => None }, rule, message@),
    {
        let field_text = match field {
            Some(f) => Some(f.to_owned()),
            None => None,
        };
        let issue = ValidationIssue::new(field_text, rule, message.to_owned());
        self.errors.push(issue);
        assert(final(self).spec_issues().take(old(self).spec_issues().len() as int) =~= old(self).spec_issues());
    }

    /// Marks and returns the entries named `name`.
    fn indexes(&mut self, name: &str) -> (r: Vec<usize>)
        requires
            old(self).wf(),
        ensures
            final(self).wf(),
            final(self).same_input(old(self)),
            final(self).spec_issues() == old(self).spec_issues(),
            final(self).spec_consumed() == old(self).marked(name@),
            r@.map_values(|i: usize| i as int) == old(self).matched(name@),
    {
        let ghost p = |i: int| old(self).names(i, name@);
        let mut out: Vec<usize> = Vec::new();
        let mut i: usize = 0;
        let n = self.values.len();
        assert(out@.map_values(|i: usize| i as int) =~= filter_upto(p, 0));
        while i < n
            invariant
                n == self.spec_entries().len(),
                self.wf(),
                self.same_input(old(self)),
                self.spec_issues() == old(self).spec_issues(),
                i <= n,
                p == (|i: int| old(self).names(i, name@)),
                old(self).wf(),
                out@.map_values(|i: usize| i as int) == filter_upto(p, i as int),
                forall|k: int| 0 <= k < i ==> #[trigger] self.spec_consumed()[k] == old(self).marked(name@)[k],
                forall|k: int| i <= k < n ==> #[trigger] self.spec_consumed()[k] == old(self).spec_consumed()[k],
            decreases n - i,
        {
            let ghost before = out@.map_values(|i: usize| i as int);
            let e = &self.values.entries[i];
            assert(self.values.entries()[i as int].0 == e.0@);
            if names_equal(self.values.case_insensitive, e.0.as_str(), name) {
                out.push(i);
                self.consumed.set(i, true);
                assert(out@.map_values(|i: usize| i as int) =~= before.push(i as int));
            }
            i += 1;
        }
        assert(self.spec_consumed() =~= old(self).marked(name@));
        out
    }

    fn decode_at<T: ValueSchema>(&mut self, name: &str, index: usize) -> (r: Option<T>)
        requires
            old(self).wf(),
            index < old(self).spec_entries().len(),
        ensures
            final(self).wf(),
            final(self).same_input(old(self)),
            final(self).spec_consumed() == old(self).spec_consumed(),
            old(self).decoded_at(final(self).spec_issues(), name@, index as int, r),
    {
        let bytes = self.values.entries[index].1.as_slice();
        match T::decode_value(bytes) {
            Ok(v) => Some(v),
            Err(message) => {
                self.issue(Some(name), ValidationRule::InvalidType, message.as_str());
                None
            },
        }
    }

    /// Decodes the field `name`, which must appear exactly once.
    pub fn required<T: ValueSchema>(&mut self, name: &str) -> (r: Option<T>)
        requires
            old(self).wf(),
        ensures
            final(self).wf(),
            final(self).same_input(old(self)),
            final(self).spec_consumed() == old(self).marked(name@),
            old(self).matched(name@).len() == 0 ==> r is None
                && one_more(old(self).spec_issues(), final(self).spec_issues(), Some(name@), ValidationRule::Missing, "is required"@),
            old(self).matched(name@).len() == 1 ==> old(self).decoded_at(final(self).spec_issues(), name@, old(self).matched(name@)[0], r),
            old(self).matched(name@).len() > 1 ==> r is None
                && one_more(old(self).spec_issues(), final(self).spec_issues(), Some(name@), ValidationRule::Multiple, "must appear exactly once"@),
    {
        let indexes = self.indexes(name);
        proof {
            lemma_filter_members(|i: int| old(self).names(i, name@), old(self).spec_entries().len() as int);
        }
        if indexes.len() == 0 {
            self.issue(Some(name), ValidationRule::Missing, "is required");
            None
        } else if indexes.len() == 1 {
            assert(indexes@.map_values(|i: usize| i as int)[0] == indexes@[0] as int);
            self.decode_at::<T>(name, indexes[0])
        } else {
            self.issue(Some(name), ValidationRule::Multiple, "must appear exactly once");
            None
        }
    }

    /// Decodes the field `name`, which may appear at most once.
    pub fn optional<T: ValueSchema>(&mut self, name: &str) -> (r: Option<Option<T>>)
        requires
            old(self).wf(),
        ensures
            final(self).wf(),
            final(self).same_input(old(self)),
            final(self).spec_consumed() == old(self).marked(name@),
            old(self).matched(name@).len() == 0 ==> r == Some(None::<T>) && final(self).spec_issues() == old(self).spec_issues(),
            old(self).matched(name@).len() == 1 ==> {
                let inner = match r { Some(Some(v)) => Some(v), _ => None };
                &&& old(self).decoded_at(final(self).spec_issues(), name@, old(self).matched(name@)[0], inner)
                &&& r != Some(None::<T>)
            },
            old(self).matched(name@).len() > 1 ==> r is None
                && one_more(old(self).spec_issues(), final(self).spec_issues(), Some(name@), ValidationRule::Multiple, "must appear at most once"@),
    {
        let indexes = self.indexes(name);
        proof {
            lemma_filter_members(|i: int| old(self).names(i, name@), old(self).spec_entries().len() as int);
        }
        if indexes.len() == 0 {
            Some(None)
        } else if indexes.len() == 1 {
            assert(indexes@.map_values(|i: usize| i as int)[0] == indexes@[0] as int);
            match self.decode_at::<T>(name, indexes[0]) {
                Some(v) => Some(Some(v)),
                None => None,
            }
        } else {
            self.issue(Some(name), ValidationRule::Multiple, "must appear at most once");
            None
        }
    }

    /// Decodes every occurrence of `name`, in input order.
    pub fn repeated<T: ValueSchema>(&mut self, name: &str) -> (r: Option<Vec<T>>)
        requires
            old(self).wf(),
        ensures
            final(self).wf(),
            final(self).same_input(old(self)),
            final(self).spec_consumed() == old(self).marked(name@),
            ({
                let idx = old(self).matched(name@);
                let bad = idx.filter(|i: int| T::rejection(old(self).spec_entries()[i].1) is Some);
                &&& final(self).spec_issues().len() == old(self).spec_issues().len() + bad.len()
                &&& final(self).spec_issues().take(old(self).spec_issues().len() as int) == old(self).spec_issues()
                &&& forall|j: int| 0 <= j < bad.len() ==> issue_is(
                    #[trigger] final(self).spec_issues()[old(self).spec_issues().len() + j],
                    Some(name@),
                    ValidationRule::InvalidType,
                    T::rejection(old(self).spec_entries()[bad[j]].1)->0,
                )
                &&& (bad.len() == 0 <==> r is Some)
                &&& r matches Some(vs) ==> vs@.len() == idx.len() && forall|j: int| 0 <= j < idx.len()
                    ==> T::decodes_to(old(self).spec_entries()[idx[j]].1, #[trigger] vs@[j])
            }),
    {
        let ghost d0 = *old(self);
        let indexes = self.indexes(name);
        let ghost idx = d0.matched(name@);
        let ghost rej = |i: int| T::rejection(d0.spec_entries()[i].1) is Some;
        proof {
            lemma_filter_members(|i: int| d0.names(i, name@), d0.spec_entries().len() as int);
        }
        let mut decoded: Vec<T> = Vec::new();
        let mut valid = true;
        let mut k: usize = 0;
        let ghost base = self.spec_issues();
        assert(idx.take(0).filter(rej) =~= Seq::<int>::empty());
        while k < indexes.len()
            invariant
                self.wf(),
                self.same_input(&d0),
                self.spec_consumed() == d0.marked(name@),
                base == d0.spec_issues(),
                indexes@.map_values(|i: usize| i as int) == idx,
                forall|j: int| 0 <= j < idx.len() ==> 0 <= #[trigger] idx[j] < d0.spec_entries().len(),
                k <= indexes@.len(),
                rej == (|i: int| T::rejection(d0.spec_entries()[i].1) is Some),
                self.spec_issues().len() == base.len() + idx.take(k as int).filter(rej).len(),
                self.spec_issues().take(base.len() as int) == base,
                forall|j: int| 0 <= j < idx.take(k as int).filter(rej).len() ==> issue_is(
                    #[trigger] self.spec_issues()[base.len() + j],
                    Some(name@),
                    ValidationRule::InvalidType,
                    T::rejection(d0.spec_entries()[idx.take(k as int).filter(rej)[j]].1)->0,
                ),
                valid == (idx.take(k as int).filter(rej).len() == 0),
                valid ==> decoded@.len() == k && forall|j: int| 0 <= j < k ==> T::decodes_to(d0.spec_entries()[idx[j]].1, #[trigger] decoded@[j]),
            decreases indexes@.len() - k,
        {
            let ghost before_issues = self.spec_issues();
            let ghost prev = idx.take(k as int).filter(rej);
            assert(indexes@.map_values(|i: usize| i as int)[k as int] == indexes@[k as int] as int);
            let at = indexes[k];
            let ghost dk = *self;
            let item = self.decode_at::<T>(name, at);
            proof {
                assert(idx.take(k + 1) =~= idx.take(k as int).push(idx[k as int]));
                idx.take(k as int).lemma_filter_push(idx[k as int], rej);
            }
            match item {
                Some(v) => {
                    decoded.push(v);
                },
                None => {
                    valid = false;
                    proof {
                        assert(self.spec_issues().take(before_issues.len() as int) == before_issues);
                        assert forall|j: int| 0 <= j < base.len() implies #[trigger] self.spec_issues()[j] == base[j] by {
                            assert(self.spec_issues()[j] == self.spec_issues().take(before_issues.len() as int)[j]);
                            assert(before_issues[j] == before_issues.take(base.len() as int)[j]);
                        }
                        assert(self.spec_issues().take(base.len() as int) =~= base);
                        assert forall|j: int| 0 <= j < idx.take(k + 1).filter(rej).len() implies issue_is(
                            #[trigger] self.spec_issues()[base.len() + j],
                            Some(name@),
                            ValidationRule::InvalidType,
                            T::rejection(d0.spec_entries()[idx.take(k + 1).filter(rej)[j]].1)->0,
                        ) by {
                            if j < prev.len() {
                                assert(self.spec_issues()[base.len() + j] == self.spec_issues().take(before_issues.len() as int)[base.len() + j]);
                            }
                        }
                    }
                },
            }
            k += 1;
        }
        assert(idx.take(idx.len() as int) =~= idx);
        if valid {
            Some(decoded)
        } else {
            None
        }
    }

    /// Decodes the field `name` when present, else takes `default`.
    pub fn defaulted<T: ValueSchema, F: FnOnce() -> T>(&mut self, name: &str, default: F) -> (r: Option<T>)
        requires
            old(self).wf(),
            default.requires(()),
        ensures
            final(self).wf(),
            final(self).same_input(old(self)),
            final(self).spec_consumed() == old(self).marked(name@),
            old(self).matched(name@).len() == 0 ==> (r matches Some(v) && default.ensures((), v)
                && final(self).spec_issues() == old(self).spec_issues()),
            old(self).matched(name@).len() == 1 ==> old(self).decoded_at(final(self).spec_issues(), name@, old(self).matched(name@)[0], r),
            old(self).matched(name@).len() > 1 ==> r is None
                && one_more(old(self).spec_issues(), final(self).spec_issues(), Some(name@), ValidationRule::Multiple, "must appear exactly once"@),
    {
        let indexes = self.indexes(name);
        proof {
            lemma_filter_members(|i: int| old(self).names(i, name@), old(self).spec_entries().len() as int);
        }
        if indexes.len() == 0 {
            Some(default())
        } else if indexes.len() == 1 {
            assert(indexes@.map_values(|i: usize| i as int)[0] == indexes@[0] as int);
            self.decode_at::<T>(name, indexes[0])
        } else {
            self.issue(Some(name), ValidationRule::Multiple, "must appear exactly once");
            None
        }
    }

    /// Reports `name` when `value` lies below `minimum`.
    pub fn minimum(&mut self, name: &str, value: i128, minimum: i128)
        requires
            old(self).wf(),
        ensures
            final(self).wf(),
            final(self).same_input(old(self)),
            final(self).spec_consumed() == old(self).spec_consumed(),
            value < minimum ==> one_more(old(self).spec_issues(), final(self).spec_issues(), Some(name@), ValidationRule::Minimum, "is below the minimum"@),
            value >= minimum ==> final(self).spec_issues() == old(self).spec_issues(),
    {
        if value < minimum {
            self.issue(Some(name), ValidationRule::Minimum, "is below the minimum");
        }
    }

    /// Reports `name` when `value` lies above `maximum`.
    pub fn maximum(&mut self, name: &str, value: i128, maximum: i128)
        requires
            old(self).wf(),
        ensures
            final(self).wf(),
            final(self).same_input(old(self)),
            final(self).spec_consumed() == old(self).spec_consumed(),
            value > maximum ==> one_more(old(self).spec_issues(), final(self).spec_issues(), Some(name@), ValidationRule::Maximum, "is above the maximum"@),
            value <= maximum ==> final(self).spec_issues() == old(self).spec_issues(),
    {
        if value > maximum {
            self.issue(Some(name), ValidationRule::Maximum, "is above the maximum");
        }
    }

    /// Reports `name` when `value` is shorter than `minimum`.
    pub fn minimum_length<T: Length>(&mut self, name: &str, value: &T, minimum: usize)
        requires
            old(self).wf(),
        ensures
            final(self).wf(),
            final(self).same_input(old(self)),
            final(self).spec_consumed() == old(self).spec_consumed(),
            value.spec_length() < minimum ==> one_more(old(self).spec_issues(), final(self).spec_issues(), Some(name@),
                ValidationRule::MinimumLength, "is shorter than the minimum length"@),
            value.spec_length() >= minimum ==> final(self).spec_issues() == old(self).spec_issues(),
    {
        if value.length() < minimum {
            self.issue(Some(name), ValidationRule::MinimumLength, "is shorter than the minimum length");
        }
    }

    /// Reports `name` when `value` is longer than `maximum`.
    pub fn maximum_length<T: Length>(&mut self, name: &str, value: &T, maximum: usize)
        requires
            old(self).wf(),
        ensures
            final(self).wf(),
            final(self).same_input(old(self)),
            final(self).spec_consumed() == old(self).spec_consumed(),
            value.spec_length() > maximum ==> one_more(old(self).spec_issues(), final(self).spec_issues(), Some(name@),
                ValidationRule::MaximumLength, "is longer than the maximum length"@),
            value.spec_length() <= maximum ==> final(self).spec_issues() == old(self).spec_issues(),
    {
        if value.length() > maximum {
            self.issue(Some(name), ValidationRule::MaximumLength, "is longer than the maximum length");
        }
    }

    /// Records the issue of a custom check, attached to `name` when it has no field.
    pub fn custom(&mut self, name: &str, result: Result<(), ValidationIssue>)
        requires
            old(self).wf(),
        ensures
            final(self).wf(),
            final(self).same_input(old(self)),
            final(self).spec_consumed() == old(self).spec_consumed(),
            match result {
                Ok(()) => final(self).spec_issues() == old(self).spec_issues(),
                Err(issue) => {
                    let after = final(self).spec_issues();
                    let n = old(self).spec_issues().len();
                    &&& after.len() == n + 1
                    &&& after.take(n as int) == old(self).spec_issues()
                    &&& after[n as int].spec_field() == (match issue.spec_field() {
                        Some(f) => Some(f),
                        None => Some(name@),
                    })
                    &&& after[n as int].spec_rule() == issue.spec_rule()
                    &&& after[n as int].spec_code_override() == issue.spec_code_override()
                    &&& after[n as int].spec_message() == issue.spec_message()
                },
            },
    {
        match result {
            Ok(()) => {},
            Err(issue) => {
                self.errors.push(issue.attach_field(name));
                assert(final(self).spec_issues().take(old(self).spec_issues().len() as int) =~= old(self).spec_issues());
            },
        }
    }

    /// Takes every value no field consumed, in input order, and marks it consumed.
    pub fn rest(&mut self) -> (r: ExtraFields)
        requires
            old(self).wf(),
        ensures
            final(self).wf(),
            final(self).same_input(old(self)),
            final(self).spec_issues() == old(self).spec_issues(),
            forall|i: int| 0 <= i < final(self).spec_consumed().len() ==> #[trigger] final(self).spec_consumed()[i],
            r.entries() == filter_upto(|i: int| !old(self).spec_consumed()[i], old(self).spec_entries().len() as int).map_values(
                |i: int| old(self).spec_entries()[i]),
            r.spec_case_insensitive() == old(self).spec_case_insensitive(),
    {
        let ghost p = |i: int| !old(self).spec_consumed()[i];
        let ghost es = old(self).spec_entries();
        let mut entries: Vec<(String, Vec<u8>)> = Vec::new();
        let n = self.values.len();
        let mut i: usize = 0;
        assert(entries_view(entries@) =~= filter_upto(p, 0).map_values(|i: int| es[i]));
        while i < n
            invariant
                n == es.len(),
                es == self.spec_entries(),
                self.wf(),
                self.same_input(old(self)),
                self.spec_issues() == old(self).spec_issues(),
                i <= n,
                p == (|i: int| !old(self).spec_consumed()[i]),
                entries_view(entries@) == filter_upto(p, i as int).map_values(|i: int| es[i]),
                forall|k: int| 0 <= k < i ==> #[trigger] self.spec_consumed()[k],
                forall|k: int| i <= k < n ==> #[trigger] self.spec_consumed()[k] == old(self).spec_consumed()[k],
            decreases n - i,
        {
            let ghost before = entries_view(entries@);
            if !self.consumed[i] {
                let e = &self.values.entries[i];
                let name = e.0.as_str().to_owned();
                let bytes = vstd::slice::slice_to_vec(e.1.as_slice());
                entries.push((name, bytes));
                assert(entries_view(entries@) =~= before.push(es[i as int]));
                assert(filter_upto(p, i + 1).map_values(|i: int| es[i]) =~= filter_upto(p, i as int).map_values(|i: int| es[i]).push(es[i as int]));
                self.consumed.set(i, true);
            }
            i += 1;
        }
        ExtraFields { entries, case_insensitive: self.values.case_insensitive }
    }

    /// Ends the pass: with unknown fields rejected, each unconsumed name is
    /// reported once (names compared as the values compare them).
    pub fn finish(self) -> (r: ValidationErrors)
        requires
            self.wf(),
        ensures
            self.spec_options().spec_unknown_fields() == UnknownFields::Ignore ==> r.spec_issues() == self.spec_issues(),
            self.spec_options().spec_unknown_fields() == UnknownFields::Reject ==> {
                let firsts = self.unknown_firsts(self.spec_entries().len() as int);
                &&& r.spec_issues().len() == self.spec_issues().len() + firsts.len()
                &&& r.spec_issues().take(self.spec_issues().len() as int) == self.spec_issues()
                &&& forall|j: int| 0 <= j < firsts.len() ==> issue_is(
                    #[trigger] r.spec_issues()[self.spec_issues().len() + j],
                    Some(self.spec_entries()[firsts[j]].0),
                    ValidationRule::UnknownField,
                    "is not declared by the schema"@,
                )
            },
    {
        let mut this = self;
        if this.options.unknown_fields() == UnknownFields::Reject {
            let ghost d0 = this;
            let ghost base = d0.spec_issues();
            let mut unknown: Vec<String> = Vec::new();
            let n = this.values.len();
            let mut i: usize = 0;
            while i < n
                invariant
                    n == d0.spec_entries().len(),
                    this.wf(),
                    this.same_input(&d0),
                    this.spec_consumed() == d0.spec_consumed(),
                    i <= n,
                    unknown@.len() == d0.unknown_firsts(i as int).len(),
                    forall|j: int| 0 <= j < unknown@.len() ==> (#[trigger] unknown@[j])@ == d0.spec_entries()[d0.unknown_firsts(i as int)[j]].0,
                    this.spec_issues().len() == base.len() + d0.unknown_firsts(i as int).len(),
                    this.spec_issues().take(base.len() as int) == base,
                    forall|j: int| 0 <= j < d0.unknown_firsts(i as int).len() ==> issue_is(
                        #[trigger] this.spec_issues()[base.len() + j],
                        Some(d0.spec_entries()[d0.unknown_firsts(i as int)[j]].0),
                        ValidationRule::UnknownField,
                        "is not declared by the schema"@,
                    ),
                decreases n - i,
            {
                let ghost prev = d0.unknown_firsts(i as int);
                proof {
                    lemma_filter_members(|k: int| d0.first_unknown(k), i as int);
                }
                if !this.consumed[i] {
                    let e = &this.values.entries[i];
                    let mut seen = false;
                    let mut k: usize = 0;
                    while k < unknown.len()
                        invariant
                            k <= unknown@.len(),
                            unknown@.len() == prev.len(),
                            forall|j: int| 0 <= j < unknown@.len() ==> (#[trigger] unknown@[j])@ == d0.spec_entries()[prev[j]].0,
                            seen == exists|j: int| 0 <= j < k && names_match(d0.spec_case_insensitive(), d0.spec_entries()[#[trigger] prev[j]].0, d0.spec_entries()[i as int].0),
                            e.0@ == d0.spec_entries()[i as int].0,
                            this.values.case_insensitive == d0.spec_case_insensitive(),
                        decreases unknown@.len() - k,
                    {
                        if names_equal(this.values.case_insensitive, unknown[k].as_str(), e.0.as_str()) {
                            seen = true;
                        }
                        k += 1;
                    }
                    proof {
                        d0.lemma_first_unknown_step(i as int, prev);
                    }
                    if !seen {
                        let ghost before_issues = this.spec_issues();
                        unknown.push(e.0.as_str().to_owned());
                        this.issue(Some(e.0.as_str()), ValidationRule::UnknownField, "is not declared by the schema");
                        proof {
                            assert(d0.unknown_firsts(i + 1) == prev.push(i as int));
                            assert forall|j: int| 0 <= j < base.len() implies #[trigger] this.spec_issues()[j] == base[j] by {
                                assert(this.spec_issues()[j] == this.spec_issues().take(before_issues.len() as int)[j]);
                                assert(before_issues[j] == before_issues.take(base.len() as int)[j]);
                            }
                            assert(this.spec_issues().take(base.len() as int) =~= base);
                            assert forall|j: int| 0 <= j < d0.unknown_firsts(i + 1).len() implies issue_is(
                                #[trigger] this.spec_issues()[base.len() + j],
                                Some(d0.spec_entries()[d0.unknown_firsts(i + 1)[j]].0),
                                ValidationRule::UnknownField,
                                "is not declared by the schema"@,
                            ) by {
                                if j < prev.len() {
                                    assert(this.spec_issues()[base.len() + j] == this.spec_issues().take(before_issues.len() as int)[base.len() + j]);
                                }
                            }
                        }
                    }
                } else {
                    proof {
                        d0.lemma_first_unknown_step(i as int, prev);
                    }
                }
                i += 1;
            }
        }
        this.errors
    }

    /// The entries below `n` that are the first unconsumed of their name.
    pub open spec fn unknown_firsts(&self, n: int) -> Seq<int> {
        filter_upto(|k: int| self.first_unknown(k), n)
    }

    /// Whether entry `i` is unconsumed and no earlier unconsumed entry has a
    /// matching name.
    pub open spec fn first_unknown(&self, i: int) -> bool {
        &&& !self.spec_consumed()[i]
        &&& forall|j: int| 0 <= j < i && !#[trigger] self.spec_consumed()[j] ==> !names_match(
            self.spec_case_insensitive(), self.spec_entries()[j].0, self.spec_entries()[i].0)
    }

    proof fn lemma_first_unknown_step(&self, i: int, prev: Seq<int>)
        requires
            self.wf(),
            0 <= i < self.spec_entries().len(),
            prev == self.unknown_firsts(i),
        ensures
            !self.spec_consumed()[i] ==> (self.first_unknown(i) <==> !exists|j: int| 0 <= j < prev.len() && names_match(
                self.spec_case_insensitive(), self.spec_entries()[#[trigger] prev[j]].0, self.spec_entries()[i].0)),
            self.unknown_firsts(i + 1) == if self.first_unknown(i) { prev.push(i) } else { prev },
    {
        let p = |k: int| self.first_unknown(k);
        lemma_filter_members(p, i);
        crate::headers::lemma_name_equivalence(self.spec_entries()[i].0, self.spec_entries()[i].0, self.spec_entries()[i].0);
        if !self.spec_consumed()[i] && !self.first_unknown(i) {
            // some earlier unconsumed entry matches; the first such is in prev
            let j0 = choose|j: int| 0 <= j < i && !#[trigger] self.spec_consumed()[j] && names_match(
                self.spec_case_insensitive(), self.spec_entries()[j].0, self.spec_entries()[i].0);
            self.lemma_earliest_match(i, j0);
        }
        if self.first_unknown(i) {
            assert forall|j: int| 0 <= j < prev.len() implies !names_match(
                self.spec_case_insensitive(), self.spec_entries()[#[trigger] prev[j]].0, self.spec_entries()[i].0) by {
                assert(p(prev[j]));
            }
        }
    }

    /// An unconsumed entry `j0 < i` whose name matches entry `i` leads to one
    /// in `filter_upto(first_unknown, i)` that matches too.
    proof fn lemma_earliest_match(&self, i: int, j0: int)
        requires
            self.wf(),
            0 <= j0 < i < self.spec_entries().len(),
            !self.spec_consumed()[j0],
            names_match(self.spec_case_insensitive(), self.spec_entries()[j0].0, self.spec_entries()[i].0),
        ensures
            exists|j: int| 0 <= j < self.unknown_firsts(i).len() && names_match(
                self.spec_case_insensitive(),
                self.spec_entries()[#[trigger] self.unknown_firsts(i)[j]].0,
                self.spec_entries()[i].0),
        decreases j0,
    {
        let p = |k: int| self.first_unknown(k);
        lemma_filter_members(p, i);
        let ci = self.spec_case_insensitive();
        let es = self.spec_entries();
        if self.first_unknown(j0) {
            let f = filter_upto(p, i);
            assert(p(j0));
            assert(f == self.unknown_firsts(i));
            assert(f.contains(j0));
            let j = choose|j: int| 0 <= j < f.len() && f[j] == j0;
            assert(names_match(ci, es[f[j]].0, es[i].0));
        } else {
            let j1 = choose|j: int| 0 <= j < j0 && !#[trigger] self.spec_consumed()[j] && names_match(ci, es[j].0, es[j0].0);
            crate::headers::lemma_name_equivalence(es[j1].0, es[j0].0, es[i].0);
            self.lemma_earliest_match(i, j1);
        }
    }

    /// Whether entry `i` lies under `prefix`.
    pub open spec fn under(&self, i: int, prefix: Seq<char>) -> bool {
        strip_prefix(self.spec_case_insensitive(), self.spec_entries()[i].0, prefix) is Some
    }

    /// The entries under `prefix`, with the prefix taken off their names.
    pub open spec fn nested_of(&self, prefix: Seq<char>) -> HeaderEntries {
        nested_entries(self.spec_entries(), self.spec_case_insensitive(), prefix)
    }

    /// The consumption marks after marking the entries under `prefix`.
    pub open spec fn marked_under(&self, prefix: Seq<char>) -> Seq<bool> {
        Seq::new(self.spec_consumed().len(), |i: int| self.spec_consumed()[i] || self.under(i, prefix))
    }

    /// Marks and returns the entries under `name.`, with that prefix taken off.
    pub fn nested_values(&mut self, name: &str) -> (r: FieldValues)
        requires
            old(self).wf(),
        ensures
            final(self).wf(),
            final(self).same_input(old(self)),
            final(self).spec_issues() == old(self).spec_issues(),
            final(self).spec_consumed() == old(self).marked_under(dotted(name@)),
            r.entries() == old(self).nested_of(dotted(name@)),
            r.spec_case_insensitive() == old(self).spec_case_insensitive(),
    {
        let mut text = chars_of(name);
        text.push('.');
        let prefix = string_of(text.as_slice());
        let ghost pre = dotted(name@);
        let ghost p = |i: int| strip_prefix(old(self).spec_case_insensitive(), old(self).spec_entries()[i].0, pre) is Some;
        let ghost es = old(self).spec_entries();
        let ghost ci = old(self).spec_case_insensitive();
        let ghost f = |i: int| (strip_prefix(ci, es[i].0, pre)->0, es[i].1);
        let mut entries: Vec<(String, Vec<u8>)> = Vec::new();
        let n = self.values.len();
        let mut i: usize = 0;
        assert(entries_view(entries@) =~= filter_upto(p, 0).map_values(f));
        while i < n
            invariant
                n == es.len(),
                es == self.spec_entries(),
                ci == self.spec_case_insensitive(),
                prefix@ == pre,
                old(self).wf(),
                self.wf(),
                self.same_input(old(self)),
                self.spec_issues() == old(self).spec_issues(),
                i <= n,
                p == (|i: int| strip_prefix(ci, es[i].0, pre) is Some),
                f == (|i: int| (strip_prefix(ci, es[i].0, pre)->0, es[i].1)),
                entries_view(entries@) == filter_upto(p, i as int).map_values(f),
                forall|k: int| 0 <= k < i ==> #[trigger] self.spec_consumed()[k] == old(self).marked_under(pre)[k],
                forall|k: int| i <= k < n ==> #[trigger] self.spec_consumed()[k] == old(self).spec_consumed()[k],
            decreases n - i,
        {
            let ghost before = entries_view(entries@);
            let e = &self.values.entries[i];
            assert(es[i as int].0 == e.0@ && es[i as int].1 == e.1@);
            match strip_name(self.values.case_insensitive, e.0.as_str(), prefix.as_str()) {
                Some(rest) => {
                    let bytes = vstd::slice::slice_to_vec(e.1.as_slice());
                    entries.push((rest, bytes));
                    self.consumed.set(i, true);
                    assert(entries_view(entries@) =~= before.push(f(i as int)));
                    assert(filter_upto(p, i + 1).map_values(f) =~= filter_upto(p, i as int).map_values(f).push(f(i as int)));
                },
                None => {},
            }
            i += 1;
        }
        assert(self.spec_consumed() =~= old(self).marked_under(pre));
        FieldValues { entries, case_insensitive: self.values.case_insensitive }
    }

    /// Takes the outcome of decoding the nested schema of `name`: its value,
    /// or its issues with each field put under `name`.
    pub fn settle_nested<T>(&mut self, name: &str, outcome: Result<T, ValidationErrors>) -> (r: Option<T>)
        requires
            old(self).wf(),
        ensures
            final(self).wf(),
            final(self).same_input(old(self)),
            final(self).spec_consumed() == old(self).spec_consumed(),
            settled(old(self).spec_issues(), final(self).spec_issues(), name@, outcome, r),
    {
        match outcome {
            Ok(v) => Some(v),
            Err(errors) => {
                self.errors.extend_nested(name, errors);
                assert(final(self).spec_issues().take(old(self).spec_issues().len() as int) =~= old(self).spec_issues());
                None
            },
        }
    }

    /// Decodes the nested schema under `name.`, which must have some value.
    pub fn required_nested<T: Schema>(&mut self, name: &str) -> (r: Option<T>)
        requires
            old(self).wf(),
        ensures
            final(self).wf(),
            final(self).same_input(old(self)),
            final(self).spec_consumed() == old(self).marked_under(dotted(name@)),
            old(self).nested_of(dotted(name@)).len() == 0 ==> r is None
                && one_more(old(self).spec_issues(), final(self).spec_issues(), Some(name@), ValidationRule::Missing, "is required"@),
            old(self).nested_of(dotted(name@)).len() > 0 ==> nested_decoded(old(self).nested_of(dotted(name@)),
                old(self).spec_case_insensitive(), old(self).spec_options(), old(self).spec_issues(), final(self).spec_issues(), name@, r),
    {
        let values = self.nested_values(name);
        if values.is_empty() {
            self.issue(Some(name), ValidationRule::Missing, "is required");
            return None;
        }
        let options = nested_options(T::UNKNOWN_FIELDS, self.options);
        let outcome = T::decode(&values, options);
        let ghost out = outcome;
        let r = self.settle_nested(name, outcome);
        assert(T::decode_result(values.entries(), values.spec_case_insensitive(), options, out));
        r
    }

    /// Decodes the nested schema under `name.` when it has some value.
    pub fn optional_nested<T: Schema>(&mut self, name: &str) -> (r: Option<Option<T>>)
        requires
            old(self).wf(),
        ensures
            final(self).wf(),
            final(self).same_input(old(self)),
            final(self).spec_consumed() == old(self).marked_under(dotted(name@)),
            old(self).nested_of(dotted(name@)).len() == 0 ==> r == Some(None::<T>)
                && final(self).spec_issues() == old(self).spec_issues(),
            old(self).nested_of(dotted(name@)).len() > 0 ==> r != Some(None::<T>)
                && nested_decoded(old(self).nested_of(dotted(name@)), old(self).spec_case_insensitive(),
                old(self).spec_options(), old(self).spec_issues(), final(self).spec_issues(), name@, match r { Some(x) => x, None => None::<T> }),
    {
        let values = self.nested_values(name);
        if values.is_empty() {
            return Some(None);
        }
        let options = nested_options(T::UNKNOWN_FIELDS, self.options);
        let outcome = T::decode(&values, options);
        let ghost out = outcome;
        let settled = self.settle_nested(name, outcome);
        assert(T::decode_result(values.entries(), values.spec_case_insensitive(), options, out));
        match settled {
            Some(v) => Some(Some(v)),
            None => None,
        }
    }

    /// Decodes the nested schema under `name.`, or takes `default` when it
    /// has no value.
    pub fn defaulted_nested<T: Schema, F: FnOnce() -> T>(&mut self, name: &str, default: F) -> (r: Option<T>)
        requires
            old(self).wf(),
            default.requires(()),
        ensures
            final(self).wf(),
            final(self).same_input(old(self)),
            final(self).spec_consumed() == old(self).marked_under(dotted(name@)),
            old(self).nested_of(dotted(name@)).len() == 0 ==> (r matches Some(v) && default.ensures((), v)
                && final(self).spec_issues() == old(self).spec_issues()),
            old(self).nested_of(dotted(name@)).len() > 0 ==> nested_decoded(old(self).nested_of(dotted(name@)),
                old(self).spec_case_insensitive(), old(self).spec_options(), old(self).spec_issues(), final(self).spec_issues(), name@, r),
    {
        let values = self.nested_values(name);
        if values.is_empty() {
            return Some(default());
        }
        let options = nested_options(T::UNKNOWN_FIELDS, self.options);
        let outcome = T::decode(&values, options);
        let ghost out = outcome;
        let r = self.settle_nested(name, outcome);
        assert(T::decode_result(values.entries(), values.spec_case_insensitive(), options, out));
        r
    }

    /// Whether entry `i` is under `prefix` but names no item.
    pub open spec fn malformed(&self, i: int, prefix: Seq<char>) -> bool {
        item_class(self.spec_case_insensitive(), self.spec_entries()[i].0, prefix) matches Some(Err(_))
    }

    proof fn lemma_indexes_step(&self, i: int, prefix: Seq<char>, ys0: Seq<int>, ys: Seq<int>)
        requires
            0 <= i < self.spec_entries().len(),
            forall|v: int| #[trigger] ys0.contains(v) <==> exists|k: int| 0 <= k < i
                && item_class(self.spec_case_insensitive(), #[trigger] self.spec_entries()[k].0, prefix) == Some(Ok::<int, Seq<char>>(v)),
            forall|v: int| #[trigger] ys.contains(v) <==> (ys0.contains(v) || item_class(self.spec_case_insensitive(),
                self.spec_entries()[i].0, prefix) == Some(Ok::<int, Seq<char>>(v))),
        ensures
            forall|v: int| #[trigger] ys.contains(v) <==> exists|k: int| 0 <= k < i + 1
                && item_class(self.spec_case_insensitive(), #[trigger] self.spec_entries()[k].0, prefix) == Some(Ok::<int, Seq<char>>(v)),
    {
        let ci = self.spec_case_insensitive();
        let es = self.spec_entries();
        assert forall|v: int| #[trigger] ys.contains(v) <==> exists|k: int| 0 <= k < i + 1
            && item_class(ci, #[trigger] es[k].0, prefix) == Some(Ok::<int, Seq<char>>(v)) by {
            if ys.contains(v) {
                if ys0.contains(v) {
                    let k = choose|k: int| 0 <= k < i && item_class(ci, #[trigger] es[k].0, prefix) == Some(Ok::<int, Seq<char>>(v));
                    assert(0 <= k < i + 1 && item_class(ci, es[k].0, prefix) == Some(Ok::<int, Seq<char>>(v)));
                } else {
                    assert(item_class(ci, es[i].0, prefix) == Some(Ok::<int, Seq<char>>(v)));
                }
            }
            if exists|k: int| 0 <= k < i + 1 && item_class(ci, #[trigger] es[k].0, prefix) == Some(Ok::<int, Seq<char>>(v)) {
                let k = choose|k: int| 0 <= k < i + 1 && item_class(ci, #[trigger] es[k].0, prefix) == Some(Ok::<int, Seq<char>>(v));
                if k < i {
                    assert(ys0.contains(v));
                }
            }
        }
    }

    /// The malformed entries under `prefix`, in input order.
    pub open spec fn malformed_list(&self, prefix: Seq<char>) -> Seq<int> {
        filter_upto(|i: int| self.malformed(i, prefix), self.spec_entries().len() as int)
    }

    /// Reads the item indexes of the entries under `prefix`: the distinct
    /// indexes in increasing order, and whether no entry was malformed. Each
    /// malformed entry is consumed and reported.
    pub fn item_indexes(&mut self, prefix: &str) -> (r: (Vec<usize>, bool))
        requires
            old(self).wf(),
        ensures
            final(self).wf(),
            final(self).same_input(old(self)),
            final(self).spec_consumed() == Seq::new(old(self).spec_consumed().len(),
                |i: int| old(self).spec_consumed()[i] || old(self).malformed(i, prefix@)),
            increasing(as_ints(r.0@)),
            forall|v: int| #[trigger] as_ints(r.0@).contains(v) <==> exists|i: int| 0 <= i < old(self).spec_entries().len()
                && item_class(old(self).spec_case_insensitive(), #[trigger] old(self).spec_entries()[i].0, prefix@) == Some(Ok::<int, Seq<char>>(v)),
            ({
                let bad = old(self).malformed_list(prefix@);
                &&& r.1 == (bad.len() == 0)
                &&& final(self).spec_issues().len() == old(self).spec_issues().len() + bad.len()
                &&& final(self).spec_issues().take(old(self).spec_issues().len() as int) == old(self).spec_issues()
                &&& forall|j: int| 0 <= j < bad.len() ==> issue_is(
                    #[trigger] final(self).spec_issues()[old(self).spec_issues().len() + j],
                    Some(old(self).spec_entries()[bad[j]].0),
                    ValidationRule::InvalidType,
                    item_class(old(self).spec_case_insensitive(), old(self).spec_entries()[bad[j]].0, prefix@)->0->Err_0,
                )
            }),
    {
        let ghost d0 = *old(self);
        let ghost p = |i: int| d0.malformed(i, prefix@);
        let ghost es = d0.spec_entries();
        let ghost ci = d0.spec_case_insensitive();
        let ghost base = d0.spec_issues();
        let mut indexes: Vec<usize> = Vec::new();
        let mut valid = true;
        let n = self.values.len();
        let mut i: usize = 0;
        while i < n
            invariant
                n == es.len(),
                es == self.spec_entries(),
                ci == self.spec_case_insensitive(),
                d0.wf(),
                self.wf(),
                self.same_input(&d0),
                i <= n,
                p == (|i: int| d0.malformed(i, prefix@)),
                forall|k: int| 0 <= k < i ==> #[trigger] self.spec_consumed()[k] == (d0.spec_consumed()[k] || d0.malformed(k, prefix@)),
                forall|k: int| i <= k < n ==> #[trigger] self.spec_consumed()[k] == d0.spec_consumed()[k],
                increasing(as_ints(indexes@)),
                forall|v: int| #[trigger] as_ints(indexes@).contains(v) <==> exists|k: int| 0 <= k < i
                    && item_class(ci, #[trigger] es[k].0, prefix@) == Some(Ok::<int, Seq<char>>(v)),
                valid == (filter_upto(p, i as int).len() == 0),
                self.spec_issues().len() == base.len() + filter_upto(p, i as int).len(),
                self.spec_issues().take(base.len() as int) == base,
                forall|j: int| 0 <= j < filter_upto(p, i as int).len() ==> issue_is(
                    #[trigger] self.spec_issues()[base.len() + j],
                    Some(es[filter_upto(p, i as int)[j]].0),
                    ValidationRule::InvalidType,
                    item_class(ci, es[filter_upto(p, i as int)[j]].0, prefix@)->0->Err_0,
                ),
            decreases n - i,
        {
            let ghost prev = filter_upto(p, i as int);
            let ghost ys0 = as_ints(indexes@);
            let e = &self.values.entries[i];
            assert(es[i as int].0 == e.0@);
            match classify_item(self.values.case_insensitive, e.0.as_str(), prefix) {
                None => {
                    assert(filter_upto(p, i + 1) == prev);
                    proof {
                        self.lemma_indexes_step(i as int, prefix@, ys0, ys0);
                    }
                },
                Some(Err(message)) => {
                    let ghost before_issues = self.spec_issues();
                    self.consumed.set(i, true);
                    self.issue(Some(e.0.as_str()), ValidationRule::InvalidType, message);
                    valid = false;
                    proof {
                        d0.lemma_indexes_step(i as int, prefix@, ys0, ys0);
                        assert(filter_upto(p, i + 1) == prev.push(i as int));
                        assert forall|j: int| 0 <= j < base.len() implies #[trigger] self.spec_issues()[j] == base[j] by {
                            assert(self.spec_issues()[j] == self.spec_issues().take(before_issues.len() as int)[j]);
                            assert(before_issues[j] == before_issues.take(base.len() as int)[j]);
                        }
                        assert(self.spec_issues().take(base.len() as int) =~= base);
                        assert forall|j: int| 0 <= j < filter_upto(p, i + 1).len() implies issue_is(
                            #[trigger] self.spec_issues()[base.len() + j],
                            Some(es[filter_upto(p, i + 1)[j]].0),
                            ValidationRule::InvalidType,
                            item_class(ci, es[filter_upto(p, i + 1)[j]].0, prefix@)->0->Err_0,
                        ) by {
                            if j < prev.len() {
                                assert(self.spec_issues()[base.len() + j] == self.spec_issues().take(before_issues.len() as int)[base.len() + j]);
                            }
                        }
                    }
                },
                Some(Ok(w)) => {
                    assert(item_class(ci, es[i as int].0, prefix@) == Some(Ok::<int, Seq<char>>(w as int)));
                    assert(filter_upto(p, i + 1) == prev);
                    insert_sorted(&mut indexes, w);
                    proof {
                        d0.lemma_indexes_step(i as int, prefix@, ys0, as_ints(indexes@));
                    }
                },
            }
            i += 1;
        }
        assert(filter_upto(p, n as int) == d0.malformed_list(prefix@));
        (indexes, valid)
    }

    /// Decodes every item `name.<index>` of a repeated nested schema, in
    /// increasing index order.
    pub fn repeated_nested<T: Schema>(&mut self, name: &str) -> (r: Option<Vec<T>>)
        requires
            old(self).wf(),
        ensures
            final(self).wf(),
            final(self).same_input(old(self)),
            exists|indexes: Seq<int>, options: Seq<DecodeOptions>, outcomes: Seq<Result<T, ValidationErrors>>|
                #[trigger] items_decoded::<T>(*old(self), name@, indexes, options, outcomes)
                && repeated_outcome(*old(self), name@, outcomes, r),
            final(self).spec_issues().len() >= old(self).spec_issues().len(),
            final(self).spec_issues().take(old(self).spec_issues().len() as int) == old(self).spec_issues(),
            r matches Some(vs) ==> vs@.len() == item_count(*old(self), dotted(name@))
                && final(self).spec_issues() == old(self).spec_issues(),
            ({
                let bad = old(self).malformed_list(dotted(name@));
                &&& final(self).spec_issues().len() >= old(self).spec_issues().len() + bad.len()
                &&& forall|j: int| 0 <= j < bad.len() ==> issue_is(
                    #[trigger] final(self).spec_issues()[old(self).spec_issues().len() + j],
                    Some(old(self).spec_entries()[bad[j]].0),
                    ValidationRule::InvalidType,
                    item_class(old(self).spec_case_insensitive(), old(self).spec_entries()[bad[j]].0, dotted(name@))->0->Err_0,
                )
            }),
    {
        let mut text = chars_of(name);
        text.push('.');
        let prefix = string_of(text.as_slice());
        let ghost d0 = *old(self);
        let (indexes, mut valid) = self.item_indexes(prefix.as_str());
        let ghost d1 = *self;
        let ghost v0 = valid;
        let ghost idx = as_ints(indexes@);
        let ghost mut opts: Seq<DecodeOptions> = Seq::empty();
        let ghost mut outs: Seq<Result<T, ValidationErrors>> = Seq::empty();
        let mut decoded: Vec<T> = Vec::new();
        let mut k: usize = 0;
        while k < indexes.len()
            invariant
                self.wf(),
                self.same_input(&d0),
                d0.wf(),
                k <= indexes@.len(),
                idx == as_ints(indexes@),
                self.spec_issues().len() >= d1.spec_issues().len(),
                self.spec_issues().take(d1.spec_issues().len() as int) == d1.spec_issues(),
                opts.len() == k,
                outs.len() == k,
                forall|j: int| 0 <= j < k ==> (#[trigger] opts[j]).spec_unknown_fields()
                    == schema_policy(T::UNKNOWN_FIELDS, d0.spec_options().spec_unknown_fields()),
                forall|j: int| 0 <= j < k ==> #[trigger] T::decode_result(
                    d0.nested_of(dotted(item_name(name@, idx[j]))), d0.spec_case_insensitive(), opts[j], outs[j]),
                valid == (v0 && forall|j: int| 0 <= j < k ==> #[trigger] outs[j] is Ok),
                valid ==> decoded@.len() == k && self.spec_issues() == d1.spec_issues()
                    && forall|j: int| 0 <= j < k ==> #[trigger] outs[j] == Ok::<T, ValidationErrors>(decoded@[j]),
            decreases indexes@.len() - k,
        {
            let mut item = chars_of(name);
            item.push('.');
            crate::text::push_decimal(&mut item, indexes[k] as u128);
            let item_text = string_of(item.as_slice());
            assert(item_text@ == item_name(name@, idx[k as int]));
            let values = self.nested_values(item_text.as_str());
            let options = nested_options(T::UNKNOWN_FIELDS, self.options);
            let outcome = T::decode(&values, options);
            let ghost out = outcome;
            let ghost before = self.spec_issues();
            let ghost outs0 = outs;
            let ghost opts0 = opts;
            let ghost decoded0 = decoded@;
            let ghost valid0 = valid;
            proof {
                assert(T::decode_result(values.entries(), values.spec_case_insensitive(), options, out));
                opts = opts.push(options);
                outs = outs.push(out);
            }
            match self.settle_nested(item_text.as_str(), outcome) {
                Some(v) => {
                    decoded.push(v);
                },
                None => {
                    valid = false;
                },
            }
            proof {
                assert forall|j: int| 0 <= j < k + 1 implies (#[trigger] opts[j]).spec_unknown_fields()
                    == schema_policy(T::UNKNOWN_FIELDS, d0.spec_options().spec_unknown_fields()) by {
                    if j < k {
                        assert(opts[j] == opts0[j]);
                    }
                }
                assert forall|j: int| 0 <= j < k + 1 implies #[trigger] T::decode_result(
                    d0.nested_of(dotted(item_name(name@, idx[j]))), d0.spec_case_insensitive(), opts[j], outs[j]) by {
                    if j < k {
                        assert(opts[j] == opts0[j] && outs[j] == outs0[j]);
                    }
                }
                assert(valid == (v0 && forall|j: int| 0 <= j < k + 1 ==> #[trigger] outs[j] is Ok)) by {
                    if valid0 && out is Ok {
                        assert forall|j: int| 0 <= j < k + 1 implies #[trigger] outs[j] is Ok by {
                            if j < k {
                                assert(outs[j] == outs0[j]);
                            }
                        }
                    }
                    if !valid0 && v0 {
                        let j0 = choose|j: int| 0 <= j < k && !(#[trigger] outs0[j] is Ok);
                        assert(outs[j0] == outs0[j0]);
                    }
                    if out is Err {
                        assert(!(outs[k as int] is Ok));
                    }
                }
                if valid {
                    assert forall|j: int| 0 <= j < k + 1 implies #[trigger] outs[j] == Ok::<T, ValidationErrors>(decoded@[j]) by {
                        if j < k {
                            assert(outs[j] == outs0[j]);
                            assert(decoded@[j] == decoded0[j]);
                        }
                    }
                }
                assert forall|j: int| 0 <= j < d1.spec_issues().len() implies #[trigger] self.spec_issues()[j] == d1.spec_issues()[j] by {
                    assert(self.spec_issues()[j] == self.spec_issues().take(before.len() as int)[j]);
                    assert(before[j] == before.take(d1.spec_issues().len() as int)[j]);
                }
                assert(self.spec_issues().take(d1.spec_issues().len() as int) =~= d1.spec_issues());
            }
            k += 1;
        }
        proof {
            assert forall|j: int| 0 <= j < d0.spec_issues().len() implies #[trigger] self.spec_issues()[j] == d0.spec_issues()[j] by {
                assert(self.spec_issues()[j] == self.spec_issues().take(d1.spec_issues().len() as int)[j]);
                assert(d1.spec_issues()[j] == d1.spec_issues().take(d0.spec_issues().len() as int)[j]);
            }
            assert(self.spec_issues().take(d0.spec_issues().len() as int) =~= d0.spec_issues());
            lemma_item_count(d0, dotted(name@), idx);
            let bad = d0.malformed_list(dotted(name@));
            assert forall|j: int| 0 <= j < bad.len() implies #[trigger] self.spec_issues()[d0.spec_issues().len() + j]
                == d1.spec_issues()[d0.spec_issues().len() + j] by {
                assert(self.spec_issues()[d0.spec_issues().len() + j] == self.spec_issues().take(
                    d1.spec_issues().len() as int,
                )[d0.spec_issues().len() + j]);
            }
        }
        let r = if valid {
            Some(decoded)
        } else {
            None
        };
        assert(items_decoded::<T>(d0, name@, idx, opts, outs));
        assert(repeated_outcome(d0, name@, outs, r));
        r
    }

    /// Consumes every value for a schema that decodes one value on its own.
    pub fn single<T: ValueSchema>(&mut self) -> (r: Option<T>)
        requires
            old(self).wf(),
        ensures
            final(self).wf(),
            final(self).same_input(old(self)),
            forall|i: int| 0 <= i < final(self).spec_consumed().len() ==> #[trigger] final(self).spec_consumed()[i],
            old(self).spec_entries().len() == 0 ==> r is None
                && one_more(old(self).spec_issues(), final(self).spec_issues(), None, ValidationRule::Missing, "a value is required"@),
            old(self).spec_entries().len() == 1 ==> old(self).decoded_at(final(self).spec_issues(), "value"@, 0, r),
            old(self).spec_entries().len() > 1 ==> r is None
                && one_more(old(self).spec_issues(), final(self).spec_issues(), None, ValidationRule::Multiple, "exactly one value is required"@),
    {
        let n = self.consumed.len();
        let mut i: usize = 0;
        while i < n
            invariant
                n == self.spec_consumed().len(),
                self.wf(),
                self.same_input(old(self)),
                self.spec_issues() == old(self).spec_issues(),
                i <= n,
                forall|k: int| 0 <= k < i ==> #[trigger] self.spec_consumed()[k],
            decreases n - i,
        {
            self.consumed.set(i, true);
            i += 1;
        }
        let count = self.values.len();
        if count == 0 {
            self.issue(None, ValidationRule::Missing, "a value is required");
            None
        } else if count == 1 {
            self.decode_at::<T>("value", 0)
        } else {
            self.issue(None, ValidationRule::Multiple, "exactly one value is required");
            None
        }
    }
}

} // verus!
