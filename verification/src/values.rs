//! Decoding single values from raw bytes: text, bytes, booleans and integers.

use vstd::prelude::*;
use vstd::utf8::{valid_utf8, decode_utf8};
use crate::schemaval::{SchemaKind, SchemaMetadata};
use crate::text::{chars_of, string_of, push_str};

verus! {

/// The text `bytes` hold when they are valid UTF-8.
fn utf8_text(bytes: &[u8]) -> (r: Option<String>)
    ensures
        r is Some <==> valid_utf8(bytes@),
        r matches Some(s) ==> s@ == decode_utf8(bytes@),
{
    crate::text::string_from_utf8(vstd::slice::slice_to_vec(bytes))
}


pub open spec fn is_digit(b: u8) -> bool {
    48 <= b && b <= 57
}

pub open spec fn all_digits(s: Seq<u8>) -> bool {
    forall|i: int| 0 <= i < s.len() ==> is_digit(#[trigger] s[i])
}

/// The number a run of decimal digits denotes.
pub open spec fn digits_value(s: Seq<u8>) -> int
    decreases s.len(),
{
    if s.len() == 0 {
        0
    } else {
        10 * digits_value(s.drop_last()) + (s.last() - 48)
    }
}

/// The number `s` denotes when it is one or more decimal digits.
pub open spec fn magnitude_text(s: Seq<u8>) -> Option<int> {
    if s.len() > 0 && all_digits(s) {
        Some(digits_value(s))
    } else {
        None
    }
}

/// The integer a decimal text denotes: an optional `+` (or `-` when `signed`)
/// followed by at least one digit, as Rust's integer parsing reads it.
pub open spec fn integer_text(s: Seq<u8>, signed: bool) -> Option<int> {
    if s.len() > 0 && s[0] == 43u8 {
        magnitude_text(s.drop_first())
    } else if signed && s.len() > 0 && s[0] == 45u8 {
        match magnitude_text(s.drop_first()) {
            Some(v) => Some(-v),
            None => None,
        }
    } else {
        magnitude_text(s)
    }
}

/// The ASCII bytes of a text made of ASCII characters.
pub open spec fn ascii_bytes(s: Seq<char>) -> Seq<u8> {
    s.map_values(|c: char| (c as u32) as u8)
}

proof fn lemma_decimal_digits(n: nat)
    ensures
        ascii_bytes(crate::text::decimal(n)).len() > 0,
        all_digits(ascii_bytes(crate::text::decimal(n))),
        digits_value(ascii_bytes(crate::text::decimal(n))) == n,
    decreases n,
{
    let b = ascii_bytes(crate::text::decimal(n));
    if n < 10 {
        assert(b.len() == 1);
        assert(b[0] == 48 + n);
        assert(b.drop_last() =~= Seq::<u8>::empty());
        assert(digits_value(b.drop_last()) == 0);
        assert(digits_value(b) == 10 * digits_value(b.drop_last()) + (b.last() - 48));
    } else {
        lemma_decimal_digits(n / 10);
        let c = ascii_bytes(crate::text::decimal(n / 10));
        assert(b =~= c.push((48 + n % 10) as u8));
        assert(b.drop_last() =~= c);
        assert(b.last() == 48 + n % 10);
        assert(digits_value(b) == 10 * digits_value(c) + (b.last() - 48));
        assert(n == 10 * (n / 10) + n % 10);
    }
}

/// Decimal text reads back as the number it writes: the digits of `n`, with
/// an optional `+`, give `n`; with a `-` they give `-n` where a sign is
/// allowed and nothing otherwise.
pub proof fn law_decimal_reads_back(n: nat, signed: bool)
    ensures
        integer_text(ascii_bytes(crate::text::decimal(n)), signed) == Some(n as int),
        integer_text(seq![43u8] + ascii_bytes(crate::text::decimal(n)), signed) == Some(n as int),
        integer_text(seq![45u8] + ascii_bytes(crate::text::decimal(n)), signed) == if signed {
            Some(-n)
        } else {
            None::<int>
        },
{
    let b = ascii_bytes(crate::text::decimal(n));
    lemma_decimal_digits(n);
    assert(b[0] != 43u8 && b[0] != 45u8) by {
        assert(is_digit(b[0]));
    }
    assert((seq![43u8] + b).drop_first() =~= b);
    assert((seq![45u8] + b).drop_first() =~= b);
    if !signed {
        assert(!all_digits(seq![45u8] + b)) by {
            assert(!is_digit((seq![45u8] + b)[0]));
        }
    }
}

/// Every `u8` is read from its decimal text, and no other value is.
pub proof fn law_u8_reads_its_decimal(v: u8, w: u8)
    ensures
        <u8 as ValueSchema>::decodes_to(ascii_bytes(crate::text::decimal(v as nat)), v),
        <u8 as ValueSchema>::decodes_to(ascii_bytes(crate::text::decimal(v as nat)), w) ==> w == v,
{
    law_decimal_reads_back(v as nat, false);
}

pub open spec fn invalid_utf8_message() -> Seq<char> {
    "must be valid UTF-8"@
}

pub open spec fn invalid_value_message(kind_name: Seq<char>) -> Seq<char> {
    "must be a valid "@ + kind_name
}

/// Why `bytes` hold no integer of the range `lo..=hi`, named `kind_name`.
pub open spec fn integer_rejection(bytes: Seq<u8>, signed: bool, lo: int, hi: int, kind_name: Seq<char>) -> Option<Seq<char>> {
    if !valid_utf8(bytes) {
        Some(invalid_utf8_message())
    } else {
        match integer_text(bytes, signed) {
            Some(v) => if lo <= v && v <= hi { None } else { Some(invalid_value_message(kind_name)) },
            None => Some(invalid_value_message(kind_name)),
        }
    }
}

proof fn lemma_digits_step(s: Seq<u8>, i: int)
    requires
        0 <= i < s.len(),
    ensures
        digits_value(s.take(i + 1)) == 10 * digits_value(s.take(i)) + (s[i] - 48),
{
    assert(s.take(i + 1).drop_last() =~= s.take(i));
}

proof fn lemma_digits_monotonic(s: Seq<u8>, i: int, j: int)
    requires
        0 <= i <= j <= s.len(),
        all_digits(s),
    ensures
        digits_value(s.take(i)) <= digits_value(s.take(j)),
    decreases j - i,
{
    if i < j {
        lemma_digits_monotonic(s, i, j - 1);
        lemma_digits_step(s, j - 1);
        lemma_digits_nonneg(s.take(j - 1));
    }
}

proof fn lemma_digits_nonneg(s: Seq<u8>)
    requires
        all_digits(s),
    ensures
        digits_value(s) >= 0,
    decreases s.len(),
{
    if s.len() > 0 {
        assert(all_digits(s.drop_last())) by {
            assert forall|i: int| 0 <= i < s.drop_last().len() implies is_digit(#[trigger] s.drop_last()[i]) by {
                assert(s.drop_last()[i] == s[i]);
            }
        }
        lemma_digits_nonneg(s.drop_last());
        assert(is_digit(s[s.len() - 1]));
    }
}

/// An unsigned decimal text denotes no negative number.
pub(crate) proof fn lemma_unsigned_text(s: Seq<u8>)
    ensures
        integer_text(s, false) matches Some(v) ==> v >= 0,
{
    if s.len() > 0 && s[0] == 43u8 {
        if magnitude_text(s.drop_first()) is Some {
            lemma_digits_nonneg(s.drop_first());
        }
    } else if magnitude_text(s) is Some {
        lemma_digits_nonneg(s);
    }
}

/// Reads the digits of `bytes[start..]` when they denote at most `limit`.
fn parse_magnitude(bytes: &[u8], start: usize, limit: u128) -> (r: Option<u128>)
    requires
        start <= bytes@.len(),
    ensures
        match magnitude_text(bytes@.skip(start as int)) {
            Some(v) => if v <= limit { r == Some(v as u128) } else { r is None },
            None => r is None,
        },
{
    let ghost s = bytes@.skip(start as int);
    if start >= bytes.len() {
        return None;
    }
    let mut acc: u128 = 0;
    let mut i: usize = start;
    assert(s.take(0) =~= Seq::<u8>::empty());
    while i < bytes.len()
        invariant
            start <= i <= bytes@.len(),
            s == bytes@.skip(start as int),
            forall|k: int| 0 <= k < i - start ==> is_digit(#[trigger] s[k]),
            acc == digits_value(s.take(i - start)),
            acc <= limit,
        decreases bytes@.len() - i,
    {
        let b = bytes[i];
        assert(s[i - start] == b);
        if b < 48 || b > 57 {
            assert(!all_digits(s));
            return None;
        }
        let d: u128 = (b - 48) as u128;
        proof {
            lemma_digits_step(s, i - start);
        }
        if d > limit || acc > (limit - d) / 10 {
            proof {
                assert(10 * acc + d > limit) by (nonlinear_arith)
                    requires
                        d > limit || acc > (limit - d) / 10,
                        d <= 9,
                        acc >= 0,
                ;
                if all_digits(s) {
                    lemma_digits_monotonic(s, i - start + 1, s.len() as int);
                    assert(s.take(s.len() as int) =~= s);
                }
            }
            return None;
        }
        proof {
            assert(10 * acc + d <= limit) by (nonlinear_arith)
                requires
                    d <= limit,
                    acc <= (limit - d) / 10,
            ;
        }
        acc = acc * 10 + d;
        i += 1;
    }
    assert(s.take(s.len() as int) =~= s);
    assert(all_digits(s));
    Some(acc)
}

/// Reads a decimal integer of `bytes` as sign and magnitude, when its value
/// lies in `-neg_limit..=pos_limit` (`neg_limit` is used only when `signed`).
pub(crate) fn parse_integer(bytes: &[u8], signed: bool, neg_limit: u128, pos_limit: u128) -> (r: Option<(bool, u128)>)
    ensures
        match integer_text(bytes@, signed) {
            Some(v) => if (signed ==> -neg_limit <= v) && v <= pos_limit && (!signed ==> 0 <= v) {
                r matches Some((neg, m)) && (if neg { v == -(m as int) && m > 0 } else { v == m as int })
            } else {
                r is None
            },
            None => r is None,
        },
{
    proof {
        assert(bytes@.skip(0) =~= bytes@);
        assert(bytes@.skip(1) =~= bytes@.drop_first());
        if magnitude_text(bytes@) is Some {
            lemma_digits_nonneg(bytes@);
        }
        if bytes@.len() > 0 && magnitude_text(bytes@.drop_first()) is Some {
            lemma_digits_nonneg(bytes@.drop_first());
        }
    }
    if bytes.len() > 0 && bytes[0] == 43u8 {
        match parse_magnitude(bytes, 1, pos_limit) {
            Some(m) => Some((false, m)),
            None => None,
        }
    } else if signed && bytes.len() > 0 && bytes[0] == 45u8 {
        match parse_magnitude(bytes, 1, neg_limit) {
            Some(m) => if m == 0 { Some((false, 0)) } else { Some((true, m)) },
            None => None,
        }
    } else {
        match parse_magnitude(bytes, 0, pos_limit) {
            Some(m) => Some((false, m)),
            None => None,
        }
    }
}

/// `"must be a valid "` followed by `kind_name`.
fn invalid_value(kind_name: &str) -> (r: String)
    ensures
        r@ == invalid_value_message(kind_name@),
{
    let mut text = chars_of("must be a valid ");
    push_str(&mut text, kind_name);
    string_of(text.as_slice())
}

/// Decodes an integer of the range `lo..=hi` (given as limits of magnitude).
fn decode_integer(bytes: &[u8], signed: bool, neg_limit: u128, pos_limit: u128, kind_name: &str) -> (r: Result<(bool, u128), String>)
    ensures
        match r {
            Ok((neg, m)) => integer_rejection(bytes@, signed, if signed { -neg_limit } else { 0 }, pos_limit as int, kind_name@) is None
                && integer_text(bytes@, signed) == Some(if neg { -(m as int) } else { m as int })
                && (neg ==> signed && m <= neg_limit && m > 0) && (!neg ==> m <= pos_limit),
            Err(e) => integer_rejection(bytes@, signed, if signed { -neg_limit } else { 0 }, pos_limit as int, kind_name@) == Some(e@),
        },
{
    proof {
        reveal_strlit("must be valid UTF-8");
    }
    if utf8_text(bytes).is_none() {
        return Err("must be valid UTF-8".to_owned());
    }
    match parse_integer(bytes, signed, neg_limit, pos_limit) {
        Some(v) => Ok(v),
        None => Err(invalid_value(kind_name)),
    }
}

/// A type whose values are decoded from the raw bytes of one field.
pub trait ValueSchema: Sized {
    /// The message reported for `bytes` that hold no value of this type;
    /// a type that says nothing more accepts every input.
    open spec fn rejection(bytes: Seq<u8>) -> Option<Seq<char>> {
        None
    }

    /// Whether `value` is what `bytes` decode to; a type that says nothing
    /// more allows any value.
    open spec fn decodes_to(bytes: Seq<u8>, value: Self) -> bool {
        true
    }

    fn decode_value(bytes: &[u8]) -> (r: Result<Self, String>)
        ensures
            match r {
                Ok(v) => Self::rejection(bytes@) is None && Self::decodes_to(bytes@, v),
                Err(m) => Self::rejection(bytes@) == Some(m@),
            },
    ;

    fn metadata() -> SchemaMetadata {
        SchemaMetadata::new(SchemaKind::String)
    }
}

impl ValueSchema for String {
    open spec fn rejection(bytes: Seq<u8>) -> Option<Seq<char>> {
        if valid_utf8(bytes) { None } else { Some(invalid_utf8_message()) }
    }

    open spec fn decodes_to(bytes: Seq<u8>, value: String) -> bool {
        value@ == decode_utf8(bytes)
    }

    fn decode_value(bytes: &[u8]) -> (r: Result<String, String>) {
        proof {
            reveal_strlit("must be valid UTF-8");
        }
        match utf8_text(bytes) {
            Some(s) => Ok(s),
            None => Err("must be valid UTF-8".to_owned()),
        }
    }

    fn metadata() -> (m: SchemaMetadata)
        ensures
            m.spec_kind() == SchemaKind::String,
            m.spec_name() is None,
            m.spec_format() is None,
    {
        SchemaMetadata::new(SchemaKind::String)
    }
}

impl ValueSchema for Vec<u8> {
    open spec fn rejection(bytes: Seq<u8>) -> Option<Seq<char>> {
        None
    }

    open spec fn decodes_to(bytes: Seq<u8>, value: Vec<u8>) -> bool {
        value@ == bytes
    }

    fn decode_value(bytes: &[u8]) -> (r: Result<Vec<u8>, String>) {
        Ok(vstd::slice::slice_to_vec(bytes))
    }

    fn metadata() -> (m: SchemaMetadata)
        ensures
            m.spec_kind() == SchemaKind::Bytes,
            m.spec_name() is None,
            m.spec_format() is None,
    {
        SchemaMetadata::new(SchemaKind::Bytes)
    }
}

pub open spec fn bool_text(bytes: Seq<u8>) -> Option<bool> {
    if bytes == seq![116u8, 114u8, 117u8, 101u8] {
        Some(true)
    } else if bytes == seq![102u8, 97u8, 108u8, 115u8, 101u8] {
        Some(false)
    } else {
        None
    }
}

/// A `bool` is read as `str::parse` reads it: the ASCII text `true` gives
/// `true`, the ASCII text `false` gives `false`, and nothing else is a
/// `bool`; so two texts read as the same value are the same text.
pub proof fn law_bool_parses_its_name(bytes: Seq<u8>, other: Seq<u8>, value: bool)
    ensures
        <bool as ValueSchema>::decodes_to(bytes, value) <==> (value && bytes == seq![116u8, 114u8, 117u8, 101u8])
            || (!value && bytes == seq![102u8, 97u8, 108u8, 115u8, 101u8]),
        <bool as ValueSchema>::decodes_to(bytes, value) && <bool as ValueSchema>::decodes_to(other, value) ==> bytes == other,
        valid_utf8(bytes) ==> (<bool as ValueSchema>::rejection(bytes) is None <==> (bytes == seq![116u8, 114u8, 117u8, 101u8]
            || bytes == seq![102u8, 97u8, 108u8, 115u8, 101u8])),
{
    assert(seq![116u8, 114u8, 117u8, 101u8] != seq![102u8, 97u8, 108u8, 115u8, 101u8]) by {
        assert(seq![116u8, 114u8, 117u8, 101u8].len() != seq![102u8, 97u8, 108u8, 115u8, 101u8].len());
    }
}

fn bytes_equal(a: &[u8], b: &[u8]) -> (r: bool)
    ensures
        r == (a@ == b@),
{
    if a.len() != b.len() {
        return false;
    }
    let mut i: usize = 0;
    while i < a.len()
        invariant
            a@.len() == b@.len(),
            i <= a@.len(),
            forall|k: int| 0 <= k < i ==> a@[k] == b@[k],
        decreases a@.len() - i,
    {
        if a[i] != b[i] {
            return false;
        }
        i += 1;
    }
    assert(a@ =~= b@);
    true
}

impl ValueSchema for bool {
    open spec fn rejection(bytes: Seq<u8>) -> Option<Seq<char>> {
        if !valid_utf8(bytes) {
            Some(invalid_utf8_message())
        } else if bool_text(bytes) is None {
            Some(invalid_value_message("bool"@))
        } else {
            None
        }
    }

    open spec fn decodes_to(bytes: Seq<u8>, value: bool) -> bool {
        bool_text(bytes) == Some(value)
    }

    fn decode_value(bytes: &[u8]) -> (r: Result<bool, String>) {
        proof {
            reveal_strlit("must be valid UTF-8");
        }
        if utf8_text(bytes).is_none() {
            return Err("must be valid UTF-8".to_owned());
        }
        let t: [u8; 4] = [116u8, 114u8, 117u8, 101u8];
        let f: [u8; 5] = [102u8, 97u8, 108u8, 115u8, 101u8];
        proof {
            assert(t@ =~= seq![116u8, 114u8, 117u8, 101u8]);
            assert(f@ =~= seq![102u8, 97u8, 108u8, 115u8, 101u8]);
        }
        if bytes_equal(bytes, t.as_slice()) {
            Ok(true)
        } else if bytes_equal(bytes, f.as_slice()) {
            Ok(false)
        } else {
            Err(invalid_value("bool"))
        }
    }

    fn metadata() -> (m: SchemaMetadata)
        ensures
            m.spec_kind() == SchemaKind::Boolean,
            m.spec_name() is None,
            m.spec_format() is None,
    {
        SchemaMetadata::new(SchemaKind::Boolean)
    }
}

fn integer_metadata() -> (m: SchemaMetadata)
    ensures
        m.spec_kind() == SchemaKind::Integer,
        m.spec_name() is None,
        m.spec_format() is None,
{
    SchemaMetadata::new(SchemaKind::Integer)
}

impl ValueSchema for u8 {
    open spec fn rejection(bytes: Seq<u8>) -> Option<Seq<char>> {
        integer_rejection(bytes, false, 0, 0xff, "u8"@)
    }

    open spec fn decodes_to(bytes: Seq<u8>, value: u8) -> bool {
        integer_text(bytes, false) == Some(value as int)
    }

    fn decode_value(bytes: &[u8]) -> (r: Result<u8, String>) {
        match decode_integer(bytes, false, 0, 0xff, "u8") {
            Ok((_, m)) => Ok(m as u8),
            Err(e) => Err(e),
        }
    }

    fn metadata() -> (m: SchemaMetadata)
        ensures
            m.spec_kind() == SchemaKind::Integer,
    {
        integer_metadata()
    }
}

impl ValueSchema for u16 {
    open spec fn rejection(bytes: Seq<u8>) -> Option<Seq<char>> {
        integer_rejection(bytes, false, 0, 0xffff, "u16"@)
    }

    open spec fn decodes_to(bytes: Seq<u8>, value: u16) -> bool {
        integer_text(bytes, false) == Some(value as int)
    }

    fn decode_value(bytes: &[u8]) -> (r: Result<u16, String>) {
        match decode_integer(bytes, false, 0, 0xffff, "u16") {
            Ok((_, m)) => Ok(m as u16),
            Err(e) => Err(e),
        }
    }

    fn metadata() -> (m: SchemaMetadata)
        ensures
            m.spec_kind() == SchemaKind::Integer,
    {
        integer_metadata()
    }
}

impl ValueSchema for u32 {
    open spec fn rejection(bytes: Seq<u8>) -> Option<Seq<char>> {
        integer_rejection(bytes, false, 0, 0xffff_ffff, "u32"@)
    }

    open spec fn decodes_to(bytes: Seq<u8>, value: u32) -> bool {
        integer_text(bytes, false) == Some(value as int)
    }

    fn decode_value(bytes: &[u8]) -> (r: Result<u32, String>) {
        match decode_integer(bytes, false, 0, 0xffff_ffff, "u32") {
            Ok((_, m)) => Ok(m as u32),
            Err(e) => Err(e),
        }
    }

    fn metadata() -> (m: SchemaMetadata)
        ensures
            m.spec_kind() == SchemaKind::Integer,
    {
        integer_metadata()
    }
}

impl ValueSchema for u64 {
    open spec fn rejection(bytes: Seq<u8>) -> Option<Seq<char>> {
        integer_rejection(bytes, false, 0, 0xffff_ffff_ffff_ffff, "u64"@)
    }

    open spec fn decodes_to(bytes: Seq<u8>, value: u64) -> bool {
        integer_text(bytes, false) == Some(value as int)
    }

    fn decode_value(bytes: &[u8]) -> (r: Result<u64, String>) {
        match decode_integer(bytes, false, 0, 0xffff_ffff_ffff_ffff, "u64") {
            Ok((_, m)) => Ok(m as u64),
            Err(e) => Err(e),
        }
    }

    fn metadata() -> (m: SchemaMetadata)
        ensures
            m.spec_kind() == SchemaKind::Integer,
    {
        integer_metadata()
    }
}

impl ValueSchema for u128 {
    open spec fn rejection(bytes: Seq<u8>) -> Option<Seq<char>> {
        integer_rejection(bytes, false, 0, u128::MAX as int, "u128"@)
    }

    open spec fn decodes_to(bytes: Seq<u8>, value: u128) -> bool {
        integer_text(bytes, false) == Some(value as int)
    }

    fn decode_value(bytes: &[u8]) -> (r: Result<u128, String>) {
        match decode_integer(bytes, false, 0, u128::MAX, "u128") {
            Ok((_, m)) => Ok(m),
            Err(e) => Err(e),
        }
    }

    fn metadata() -> (m: SchemaMetadata)
        ensures
            m.spec_kind() == SchemaKind::Integer,
    {
        integer_metadata()
    }
}

impl ValueSchema for usize {
    open spec fn rejection(bytes: Seq<u8>) -> Option<Seq<char>> {
        integer_rejection(bytes, false, 0, usize::MAX as int, "usize"@)
    }

    open spec fn decodes_to(bytes: Seq<u8>, value: usize) -> bool {
        integer_text(bytes, false) == Some(value as int)
    }

    fn decode_value(bytes: &[u8]) -> (r: Result<usize, String>) {
        match decode_integer(bytes, false, 0, usize::MAX as u128, "usize") {
            Ok((_, m)) => Ok(m as usize),
            Err(e) => Err(e),
        }
    }

    fn metadata() -> (m: SchemaMetadata)
        ensures
            m.spec_kind() == SchemaKind::Integer,
    {
        integer_metadata()
    }
}

impl ValueSchema for i8 {
    open spec fn rejection(bytes: Seq<u8>) -> Option<Seq<char>> {
        integer_rejection(bytes, true, -0x80, 0x7f, "i8"@)
    }

    open spec fn decodes_to(bytes: Seq<u8>, value: i8) -> bool {
        integer_text(bytes, true) == Some(value as int)
    }

    fn decode_value(bytes: &[u8]) -> (r: Result<i8, String>) {
        match decode_integer(bytes, true, 0x80, 0x7f, "i8") {
            Ok((neg, m)) => Ok(if neg { (0i16 - m as i16) as i8 } else { m as i8 }),
            Err(e) => Err(e),
        }
    }

    fn metadata() -> (m: SchemaMetadata)
        ensures
            m.spec_kind() == SchemaKind::Integer,
    {
        integer_metadata()
    }
}

impl ValueSchema for i16 {
    open spec fn rejection(bytes: Seq<u8>) -> Option<Seq<char>> {
        integer_rejection(bytes, true, -0x8000, 0x7fff, "i16"@)
    }

    open spec fn decodes_to(bytes: Seq<u8>, value: i16) -> bool {
        integer_text(bytes, true) == Some(value as int)
    }

    fn decode_value(bytes: &[u8]) -> (r: Result<i16, String>) {
        match decode_integer(bytes, true, 0x8000, 0x7fff, "i16") {
            Ok((neg, m)) => Ok(if neg { (0i32 - m as i32) as i16 } else { m as i16 }),
            Err(e) => Err(e),
        }
    }

    fn metadata() -> (m: SchemaMetadata)
        ensures
            m.spec_kind() == SchemaKind::Integer,
    {
        integer_metadata()
    }
}

impl ValueSchema for i32 {
    open spec fn rejection(bytes: Seq<u8>) -> Option<Seq<char>> {
        integer_rejection(bytes, true, -0x8000_0000, 0x7fff_ffff, "i32"@)
    }

    open spec fn decodes_to(bytes: Seq<u8>, value: i32) -> bool {
        integer_text(bytes, true) == Some(value as int)
    }

    fn decode_value(bytes: &[u8]) -> (r: Result<i32, String>) {
        match decode_integer(bytes, true, 0x8000_0000, 0x7fff_ffff, "i32") {
            Ok((neg, m)) => Ok(if neg { (0i64 - m as i64) as i32 } else { m as i32 }),
            Err(e) => Err(e),
        }
    }

    fn metadata() -> (m: SchemaMetadata)
        ensures
            m.spec_kind() == SchemaKind::Integer,
    {
        integer_metadata()
    }
}

impl ValueSchema for i64 {
    open spec fn rejection(bytes: Seq<u8>) -> Option<Seq<char>> {
        integer_rejection(bytes, true, -0x8000_0000_0000_0000, 0x7fff_ffff_ffff_ffff, "i64"@)
    }

    open spec fn decodes_to(bytes: Seq<u8>, value: i64) -> bool {
        integer_text(bytes, true) == Some(value as int)
    }

    fn decode_value(bytes: &[u8]) -> (r: Result<i64, String>) {
        match decode_integer(bytes, true, 0x8000_0000_0000_0000, 0x7fff_ffff_ffff_ffff, "i64") {
            Ok((neg, m)) => Ok(if neg { (0i128 - m as i128) as i64 } else { m as i64 }),
            Err(e) => Err(e),
        }
    }

    fn metadata() -> (m: SchemaMetadata)
        ensures
            m.spec_kind() == SchemaKind::Integer,
    {
        integer_metadata()
    }
}

impl ValueSchema for i128 {
    open spec fn rejection(bytes: Seq<u8>) -> Option<Seq<char>> {
        integer_rejection(bytes, true, i128::MIN as int, i128::MAX as int, "i128"@)
    }

    open spec fn decodes_to(bytes: Seq<u8>, value: i128) -> bool {
        integer_text(bytes, true) == Some(value as int)
    }

    fn decode_value(bytes: &[u8]) -> (r: Result<i128, String>) {
        match decode_integer(bytes, true, 0x8000_0000_0000_0000_0000_0000_0000_0000, i128::MAX as u128, "i128") {
            Ok((neg, m)) => {
                if neg {
                    if m == 0x8000_0000_0000_0000_0000_0000_0000_0000 {
                        Ok(i128::MIN)
                    } else {
                        Ok(0i128 - m as i128)
                    }
                } else {
                    Ok(m as i128)
                }
            },
            Err(e) => Err(e),
        }
    }

    fn metadata() -> (m: SchemaMetadata)
        ensures
            m.spec_kind() == SchemaKind::Integer,
    {
        integer_metadata()
    }
}

impl ValueSchema for isize {
    open spec fn rejection(bytes: Seq<u8>) -> Option<Seq<char>> {
        integer_rejection(bytes, true, isize::MIN as int, isize::MAX as int, "isize"@)
    }

    open spec fn decodes_to(bytes: Seq<u8>, value: isize) -> bool {
        integer_text(bytes, true) == Some(value as int)
    }

    fn decode_value(bytes: &[u8]) -> (r: Result<isize, String>) {
        let lo: u128 = (0i128 - isize::MIN as i128) as u128;
        match decode_integer(bytes, true, lo, isize::MAX as u128, "isize") {
            Ok((neg, m)) => Ok(if neg { (0i128 - m as i128) as isize } else { m as isize }),
            Err(e) => Err(e),
        }
    }

    fn metadata() -> (m: SchemaMetadata)
        ensures
            m.spec_kind() == SchemaKind::Integer,
    {
        integer_metadata()
    }
}

/// Values whose size is bounded by a field's length limits: characters for
/// text, items for lists.
pub trait Length {
    spec fn spec_length(&self) -> nat;

    fn length(&self) -> (n: usize)
        ensures
            n == self.spec_length(),
    ;
}

impl Length for String {
    open spec fn spec_length(&self) -> nat {
        self@.len()
    }

    fn length(&self) -> (n: usize) {
        chars_of(self.as_str()).len()
    }
}

impl<T> Length for Vec<T> {
    open spec fn spec_length(&self) -> nat {
        self@.len()
    }

    fn length(&self) -> (n: usize) {
        self.len()
    }
}

} // verus!
