//! Header collections with case-insensitive names.

use vstd::prelude::*;
use crate::text::{eq_ignore_case, eq_ignore_ascii_case, chars_of};

verus! {

/// An HTTP header collection; names compare without ASCII case and values
/// are raw bytes.
#[derive(Debug, Default)]
pub struct Headers {
    entries: Vec<(String, Vec<u8>)>,
}

/// A header name or value that cannot be written.
#[derive(Debug, Clone, PartialEq, Eq)]
pub struct InvalidHeader {
    name_invalid: bool,
}

pub type HeaderEntries = Seq<(Seq<char>, Seq<u8>)>;

pub open spec fn entries_view(v: Seq<(String, Vec<u8>)>) -> HeaderEntries {
    v.map_values(|e: (String, Vec<u8>)| (e.0@, e.1@))
}

/// Token characters allowed in a header name.
pub open spec fn is_tchar(c: char) -> bool {
    ('a' <= c && c <= 'z') || ('A' <= c && c <= 'Z') || ('0' <= c && c <= '9') || c == '!' || c == '#' || c == '$'
        || c == '%' || c == '&' || c == '\'' || c == '*' || c == '+' || c == '-' || c == '.' || c == '^' || c == '_'
        || c == '`' || c == '|' || c == '~'
}

pub open spec fn valid_header_name(name: Seq<char>) -> bool {
    name.len() > 0 && forall|i: int| 0 <= i < name.len() ==> is_tchar(#[trigger] name[i])
}

pub open spec fn valid_header_value(value: Seq<u8>) -> bool {
    forall|i: int| 0 <= i < value.len() ==> (#[trigger] value[i]) != 0u8 && value[i] != 13u8 && value[i] != 10u8
}

/// Index of the first entry named `name`, if any.
pub open spec fn first_named(entries: HeaderEntries, name: Seq<char>, from: int) -> Option<int>
    decreases entries.len() - from,
{
    if from < 0 || from >= entries.len() {
        None
    } else if eq_ignore_case(entries[from].0, name) {
        Some(from)
    } else {
        first_named(entries, name, from + 1)
    }
}

/// Values of the entries among the first `n` named `name`, in order.
pub open spec fn values_named(entries: HeaderEntries, name: Seq<char>, n: int) -> Seq<Seq<u8>>
    decreases n,
{
    if n <= 0 {
        Seq::<Seq<u8>>::empty()
    } else if eq_ignore_case(entries[n - 1].0, name) {
        values_named(entries, name, n - 1).push(entries[n - 1].1)
    } else {
        values_named(entries, name, n - 1)
    }
}

/// The entries among the first `n` not named `name`, in order.
pub open spec fn without_named(entries: HeaderEntries, name: Seq<char>, n: int) -> HeaderEntries
    decreases n,
{
    if n <= 0 {
        Seq::empty()
    } else if eq_ignore_case(entries[n - 1].0, name) {
        without_named(entries, name, n - 1)
    } else {
        without_named(entries, name, n - 1).push(entries[n - 1])
    }
}

pub open spec fn has_named(entries: HeaderEntries, name: Seq<char>) -> bool {
    exists|i: int| 0 <= i < entries.len() && eq_ignore_case(#[trigger] entries[i].0, name)
}

proof fn lemma_eq_ignore_case_equiv(a: Seq<char>, b: Seq<char>, c: Seq<char>)
    ensures
        eq_ignore_case(a, a),
        eq_ignore_case(a, b) == eq_ignore_case(b, a),
        eq_ignore_case(a, b) && eq_ignore_case(b, c) ==> eq_ignore_case(a, c),
{
    if eq_ignore_case(a, b) && eq_ignore_case(b, c) {
        assert forall|i: int| 0 <= i < a.len() implies crate::text::lower(#[trigger] a[i]) == crate::text::lower(c[i]) by {
            assert(crate::text::lower(a[i]) == crate::text::lower(b[i]));
        }
    }
    if eq_ignore_case(b, a) {
        assert forall|i: int| 0 <= i < a.len() implies crate::text::lower(#[trigger] a[i]) == crate::text::lower(b[i]) by {
            assert(crate::text::lower(b[i]) == crate::text::lower(a[i]));
        }
    }
}

/// Case-insensitive equality of names is an equivalence.
pub proof fn lemma_name_equivalence(a: Seq<char>, b: Seq<char>, c: Seq<char>)
    ensures
        eq_ignore_case(a, a),
        eq_ignore_case(a, b) == eq_ignore_case(b, a),
        eq_ignore_case(a, b) && eq_ignore_case(b, c) ==> eq_ignore_case(a, c),
{
    lemma_eq_ignore_case_equiv(a, b, c);
}

proof fn lemma_first_named_push(entries: HeaderEntries, e: (Seq<char>, Seq<u8>), name: Seq<char>, from: int)
    requires
        0 <= from <= entries.len(),
    ensures
        first_named(entries.push(e), name, from) == match first_named(entries, name, from) {
            Some(i) => Some(i),
            None => if eq_ignore_case(e.0, name) {
                Some(entries.len() as int)
            } else {
                None
            },
        },
    decreases entries.len() - from,
{
    let all = entries.push(e);
    if from < entries.len() {
        assert(all[from] == entries[from]);
        if !eq_ignore_case(entries[from].0, name) {
            lemma_first_named_push(entries, e, name, from + 1);
        }
    } else {
        assert(all[from] == e);
        assert(first_named(all, name, from + 1) is None);
        assert(first_named(entries, name, from) is None);
    }
}

proof fn lemma_first_named_none(entries: HeaderEntries, name: Seq<char>, from: int)
    requires
        0 <= from,
        forall|i: int| from <= i < entries.len() ==> !eq_ignore_case(#[trigger] entries[i].0, name),
    ensures
        first_named(entries, name, from) is None,
    decreases entries.len() - from,
{
    if from < entries.len() {
        lemma_first_named_none(entries, name, from + 1);
    }
}

/// After `set`, reading the name back, in any letter case, finds exactly
/// the value set.
pub proof fn law_set_then_get(entries: HeaderEntries, name: Seq<char>, value: Seq<u8>, read: Seq<char>)
    requires
        eq_ignore_case(name, read),
    ensures
        ({
            let after = without_named(entries, name, entries.len() as int).push((name, value));
            &&& first_named(after, read, 0) == Some(after.len() - 1)
            &&& after[after.len() - 1].1 == value
            &&& values_named(after, read, after.len() as int) == seq![value]
        }),
{
    let kept = without_named(entries, name, entries.len() as int);
    lemma_without_named_clears(entries, name, entries.len() as int);
    assert forall|i: int| 0 <= i < kept.len() implies !eq_ignore_case(#[trigger] kept[i].0, read) by {
        lemma_eq_ignore_case_equiv(kept[i].0, read, name);
        lemma_eq_ignore_case_equiv(name, read, kept[i].0);
    }
    lemma_first_named_none(kept, read, 0);
    lemma_first_named_push(kept, (name, value), read, 0);
    lemma_values_named_none(kept, read, kept.len() as int);
    lemma_values_named_append(kept, read, (name, value));
    assert(Seq::<Seq<u8>>::empty().push(value) =~= seq![value]);
}

/// After `remove`, no header of that name is found, in any letter case.
pub proof fn law_remove_then_get(entries: HeaderEntries, name: Seq<char>, read: Seq<char>)
    requires
        eq_ignore_case(name, read),
    ensures
        first_named(without_named(entries, name, entries.len() as int), read, 0) is None,
        values_named(
            without_named(entries, name, entries.len() as int),
            read,
            without_named(entries, name, entries.len() as int).len() as int,
        ) == Seq::<Seq<u8>>::empty(),
{
    let kept = without_named(entries, name, entries.len() as int);
    lemma_without_named_clears(entries, name, entries.len() as int);
    assert forall|i: int| 0 <= i < kept.len() implies !eq_ignore_case(#[trigger] kept[i].0, read) by {
        lemma_eq_ignore_case_equiv(kept[i].0, read, name);
        lemma_eq_ignore_case_equiv(name, read, kept[i].0);
    }
    lemma_first_named_none(kept, read, 0);
    lemma_values_named_none(kept, read, kept.len() as int);
}

/// `append` keeps what a read finds first, and adds its value last to what
/// a read of all values finds.
pub proof fn law_append_keeps_first(entries: HeaderEntries, name: Seq<char>, value: Seq<u8>, read: Seq<char>)
    ensures
        ({
            let after = entries.push((name, value));
            &&& first_named(entries, read, 0) is Some ==> first_named(after, read, 0) == first_named(entries, read, 0)
            &&& values_named(after, read, after.len() as int) == if eq_ignore_case(name, read) {
                values_named(entries, read, entries.len() as int).push(value)
            } else {
                values_named(entries, read, entries.len() as int)
            }
        }),
{
    lemma_first_named_push(entries, (name, value), read, 0);
    lemma_values_named_append(entries, read, (name, value));
}

/// Removing a name a second time changes nothing, and no casing of the
/// name is left after the first.
pub proof fn law_remove_idempotent(entries: HeaderEntries, name: Seq<char>, read: Seq<char>)
    ensures
        ({
            let once = without_named(entries, name, entries.len() as int);
            &&& without_named(once, name, once.len() as int) == once
            &&& eq_ignore_case(name, read) ==> !has_named(once, read)
        }),
{
    let once = without_named(entries, name, entries.len() as int);
    lemma_without_named_clears(entries, name, entries.len() as int);
    lemma_without_named_keeps(once, name, once.len() as int);
    assert(once.take(once.len() as int) =~= once);
    if eq_ignore_case(name, read) {
        assert forall|i: int| 0 <= i < once.len() implies !eq_ignore_case(#[trigger] once[i].0, read) by {
            lemma_eq_ignore_case_equiv(once[i].0, read, name);
            lemma_eq_ignore_case_equiv(name, read, once[i].0);
        }
    }
}

/// A read of one value finds the first of the values a read of all finds,
/// and a name is present exactly when such a read finds something.
pub proof fn law_get_is_first_of_all(entries: HeaderEntries, read: Seq<char>)
    ensures
        ({
            let all = values_named(entries, read, entries.len() as int);
            &&& has_named(entries, read) == first_named(entries, read, 0) is Some
            &&& first_named(entries, read, 0) is Some == (all.len() > 0)
            &&& first_named(entries, read, 0) matches Some(i) ==> all[0] == entries[i].1
        }),
{
    lemma_first_named_spec(entries, read, 0);
    lemma_values_named_first(entries, read, entries.len() as int);
    match first_named(entries, read, 0) {
        Some(i) => {
            assert(eq_ignore_case(entries[i].0, read));
        },
        None => {},
    }
}

proof fn lemma_without_named_keeps(entries: HeaderEntries, name: Seq<char>, n: int)
    requires
        0 <= n <= entries.len(),
        forall|i: int| 0 <= i < entries.len() ==> !eq_ignore_case(#[trigger] entries[i].0, name),
    ensures
        without_named(entries, name, n) == entries.take(n),
    decreases n,
{
    if n > 0 {
        lemma_without_named_keeps(entries, name, n - 1);
        assert(entries.take(n) =~= entries.take(n - 1).push(entries[n - 1]));
    } else {
        assert(entries.take(0) =~= Seq::<(Seq<char>, Seq<u8>)>::empty());
    }
}

proof fn lemma_first_named_spec(entries: HeaderEntries, name: Seq<char>, from: int)
    requires
        0 <= from,
    ensures
        match first_named(entries, name, from) {
            Some(i) => from <= i < entries.len() && eq_ignore_case(entries[i].0, name)
                && forall|j: int| from <= j < i ==> !eq_ignore_case(#[trigger] entries[j].0, name),
            None => forall|j: int| from <= j < entries.len() ==> !eq_ignore_case(#[trigger] entries[j].0, name),
        },
    decreases entries.len() - from,
{
    if from < entries.len() && !eq_ignore_case(entries[from].0, name) {
        lemma_first_named_spec(entries, name, from + 1);
    }
}

proof fn lemma_values_named_first(entries: HeaderEntries, name: Seq<char>, n: int)
    requires
        0 <= n <= entries.len(),
    ensures
        (forall|j: int| 0 <= j < n ==> !eq_ignore_case(#[trigger] entries[j].0, name)) ==> values_named(entries, name, n).len() == 0,
        forall|i: int| 0 <= i < n && eq_ignore_case(entries[i].0, name)
            && (forall|j: int| 0 <= j < i ==> !eq_ignore_case(#[trigger] entries[j].0, name))
            ==> #[trigger] values_named(entries, name, n).len() > 0 && values_named(entries, name, n)[0] == entries[i].1,
    decreases n,
{
    if n > 0 {
        lemma_values_named_first(entries, name, n - 1);
        assert forall|i: int| 0 <= i < n && eq_ignore_case(entries[i].0, name)
            && (forall|j: int| 0 <= j < i ==> !eq_ignore_case(#[trigger] entries[j].0, name))
            implies #[trigger] values_named(entries, name, n).len() > 0 && values_named(entries, name, n)[0] == entries[i].1 by {
            if i < n - 1 {
                assert(values_named(entries, name, n - 1).len() > 0);
            } else {
                assert(forall|j: int| 0 <= j < n - 1 ==> !eq_ignore_case(#[trigger] entries[j].0, name));
            }
        }
    }
}

proof fn lemma_without_named_clears(entries: HeaderEntries, name: Seq<char>, n: int)
    requires
        0 <= n <= entries.len(),
    ensures
        forall|i: int| 0 <= i < without_named(entries, name, n).len() ==> !eq_ignore_case(#[trigger] without_named(entries, name, n)[i].0, name),
        without_named(entries, name, n).len() <= n,
    decreases n,
{
    if n > 0 {
        lemma_without_named_clears(entries, name, n - 1);
    }
}

proof fn lemma_values_named_append(entries: HeaderEntries, name: Seq<char>, e: (Seq<char>, Seq<u8>))
    ensures
        values_named(entries.push(e), name, entries.len() + 1int) == if eq_ignore_case(e.0, name) {
            values_named(entries, name, entries.len() as int).push(e.1)
        } else {
            values_named(entries, name, entries.len() as int)
        },
{
    lemma_values_named_prefix(entries.push(e), entries, name, entries.len() as int);
}

proof fn lemma_values_named_prefix(a: HeaderEntries, b: HeaderEntries, name: Seq<char>, n: int)
    requires
        0 <= n <= a.len(),
        n <= b.len(),
        forall|i: int| 0 <= i < n ==> a[i] == b[i],
    ensures
        values_named(a, name, n) == values_named(b, name, n),
    decreases n,
{
    if n > 0 {
        lemma_values_named_prefix(a, b, name, n - 1);
    }
}

proof fn lemma_values_named_none(entries: HeaderEntries, name: Seq<char>, n: int)
    requires
        0 <= n <= entries.len(),
        forall|i: int| 0 <= i < n ==> !eq_ignore_case(#[trigger] entries[i].0, name),
    ensures
        values_named(entries, name, n) == Seq::<Seq<u8>>::empty(),
    decreases n,
{
    if n > 0 {
        lemma_values_named_none(entries, name, n - 1);
    }
}

impl InvalidHeader {
    /// Whether the name (rather than the value) was refused.
    pub closed spec fn is_name_error(&self) -> bool {
        self.name_invalid
    }

    /// The reason the header was refused.
    pub fn message(&self) -> (m: &'static str)
        ensures
            self.is_name_error() ==> m@ == "invalid HTTP header name"@,
            !self.is_name_error() ==> m@ == "invalid HTTP header value"@,
    {
        if self.name_invalid {
            "invalid HTTP header name"
        } else {
            "invalid HTTP header value"
        }
    }
}

/// Checks a header name and value before they are written.
pub fn validate_header(name: &str, value: &[u8]) -> (r: Result<(), InvalidHeader>)
    ensures
        r is Ok <==> valid_header_name(name@) && valid_header_value(value@),
        r matches Err(e) ==> e.is_name_error() == !valid_header_name(name@),
{
    let chars = chars_of(name);
    if chars.len() == 0 {
        return Err(InvalidHeader { name_invalid: true });
    }
    let mut i: usize = 0;
    while i < chars.len()
        invariant
            chars@ == name@,
            i <= chars@.len(),
            forall|j: int| 0 <= j < i ==> is_tchar(#[trigger] chars@[j]),
        decreases chars@.len() - i,
    {
        let c = chars[i];
        let ok = ('a' <= c && c <= 'z') || ('A' <= c && c <= 'Z') || ('0' <= c && c <= '9') || c == '!' || c == '#'
            || c == '$' || c == '%' || c == '&' || c == '\'' || c == '*' || c == '+' || c == '-' || c == '.' || c == '^'
            || c == '_' || c == '`' || c == '|' || c == '~';
        if !ok {
            return Err(InvalidHeader { name_invalid: true });
        }
        i += 1;
    }
    assert(valid_header_name(name@));
    let mut k: usize = 0;
    while k < value.len()
        invariant
            valid_header_name(name@),
            k <= value@.len(),
            forall|j: int| 0 <= j < k ==> (#[trigger] value@[j]) != 0u8 && value@[j] != 13u8 && value@[j] != 10u8,
        decreases value@.len() - k,
    {
        let b = value[k];
        if b == 0 || b == 13 || b == 10 {
            return Err(InvalidHeader { name_invalid: false });
        }
        k += 1;
    }
    Ok(())
}

impl Headers {
    /// The entries, in insertion order.
    pub closed spec fn entries(&self) -> HeaderEntries {
        entries_view(self.entries@)
    }

    /// An empty collection.
    pub fn new() -> (h: Headers)
        ensures
            h.entries().len() == 0,
    {
        Headers { entries: Vec::new() }
    }

    /// The number of entries, repeated names included.
    pub fn len(&self) -> (n: usize)
        ensures
            n == self.entries().len(),
    {
        self.entries.len()
    }

    /// Whether there are no entries.
    pub fn is_empty(&self) -> (b: bool)
        ensures
            b == (self.entries().len() == 0),
    {
        self.entries.len() == 0
    }

    /// The entry at `index`.
    pub fn entry(&self, index: usize) -> (r: (&str, &[u8]))
        requires
            index < self.entries().len(),
        ensures
            r.0@ == self.entries()[index as int].0,
            r.1@ == self.entries()[index as int].1,
    {
        let e = &self.entries[index];
        (e.0.as_str(), e.1.as_slice())
    }

    /// Every entry, in insertion order.
    pub fn iter(&self) -> (r: Vec<(&str, &[u8])>)
        ensures
            r@.len() == self.entries().len(),
            forall|i: int| 0 <= i < r@.len() ==> (#[trigger] r@[i]).0@ == self.entries()[i].0 && r@[i].1@ == self.entries()[i].1,
    {
        let mut out: Vec<(&str, &[u8])> = Vec::new();
        let mut i: usize = 0;
        while i < self.entries.len()
            invariant
                i <= self.entries@.len(),
                out@.len() == i,
                forall|k: int| 0 <= k < i ==> (#[trigger] out@[k]).0@ == self.entries()[k].0 && out@[k].1@ == self.entries()[k].1,
            decreases self.entries@.len() - i,
        {
            out.push((self.entries[i].0.as_str(), self.entries[i].1.as_slice()));
            i += 1;
        }
        out
    }

    /// The value of the first entry named `name`.
    pub fn get(&self, name: &str) -> (r: Option<&[u8]>)
        ensures
            match first_named(self.entries(), name@, 0) {
                Some(i) => r matches Some(v) && v@ == self.entries()[i].1,
                None => r is None,
            },
    {
        let ghost es = self.entries();
        let mut i: usize = 0;
        while i < self.entries.len()
            invariant
                es == self.entries(),
                i <= self.entries@.len(),
                first_named(es, name@, 0) == first_named(es, name@, i as int),
            decreases self.entries@.len() - i,
        {
            if eq_ignore_ascii_case(self.entries[i].0.as_str(), name) {
                return Some(self.entries[i].1.as_slice());
            }
            i += 1;
        }
        None
    }

    /// The values of all entries named `name`, in order.
    pub fn get_all(&self, name: &str) -> (r: Vec<Vec<u8>>)
        ensures
            r@.map_values(|v: Vec<u8>| v@) == values_named(self.entries(), name@, self.entries().len() as int),
    {
        let ghost es = self.entries();
        let mut out: Vec<Vec<u8>> = Vec::new();
        let mut i: usize = 0;
        assert(out@.map_values(|v: Vec<u8>| v@) =~= Seq::<Seq<u8>>::empty());
        while i < self.entries.len()
            invariant
                es == self.entries(),
                i <= self.entries@.len(),
                out@.map_values(|v: Vec<u8>| v@) == values_named(es, name@, i as int),
            decreases self.entries@.len() - i,
        {
            let ghost before = out@.map_values(|v: Vec<u8>| v@);
            if eq_ignore_ascii_case(self.entries[i].0.as_str(), name) {
                out.push(vstd::slice::slice_to_vec(self.entries[i].1.as_slice()));
                assert(out@.map_values(|v: Vec<u8>| v@) == before.push(es[i as int].1));
            }
            i += 1;
        }
        out
    }

    /// Whether some entry is named `name`.
    pub fn contains(&self, name: &str) -> (r: bool)
        ensures
            r == has_named(self.entries(), name@),
    {
        let ghost es = self.entries();
        let mut i: usize = 0;
        while i < self.entries.len()
            invariant
                es == self.entries(),
                i <= self.entries@.len(),
                forall|j: int| 0 <= j < i ==> !eq_ignore_case(#[trigger] es[j].0, name@),
            decreases self.entries@.len() - i,
        {
            if eq_ignore_ascii_case(self.entries[i].0.as_str(), name) {
                assert(eq_ignore_case(es[i as int].0, name@));
                return true;
            }
            i += 1;
        }
        false
    }

    /// Removes every entry named `name`.
    pub fn remove(&mut self, name: &str)
        ensures
            final(self).entries() == without_named(old(self).entries(), name@, old(self).entries().len() as int),
    {
        let ghost es = self.entries();
        let mut kept: Vec<(String, Vec<u8>)> = Vec::new();
        let mut i: usize = 0;
        assert(entries_view(kept@) =~= without_named(es, name@, 0));
        while i < self.entries.len()
            invariant
                es == self.entries(),
                i <= self.entries@.len(),
                entries_view(kept@) == without_named(es, name@, i as int),
            decreases self.entries@.len() - i,
        {
            if !eq_ignore_ascii_case(self.entries[i].0.as_str(), name) {
                let ghost before = entries_view(kept@);
                let copy = (self.entries[i].0.clone(), vstd::slice::slice_to_vec(self.entries[i].1.as_slice()));
                kept.push(copy);
                assert(entries_view(kept@) == before.push(es[i as int]));
            }
            i += 1;
        }
        self.entries = kept;
    }

    /// Adds an entry after the existing ones, once the name and value are
    /// checked.
    pub fn append(&mut self, name: String, value: Vec<u8>) -> (r: Result<(), InvalidHeader>)
        ensures
            r is Ok <==> valid_header_name(name@) && valid_header_value(value@),
            r matches Err(e) ==> e.is_name_error() == !valid_header_name(name@),
            r is Ok ==> final(self).entries() == old(self).entries().push((name@, value@)),
            r is Err ==> final(self).entries() == old(self).entries(),
    {
        match validate_header(name.as_str(), value.as_slice()) {
            Err(e) => Err(e),
            Ok(()) => {
                self.append_unchecked(name, value);
                Ok(())
            },
        }
    }

    /// Replaces every entry named `name` by one entry, once the name and
    /// value are checked.
    pub fn set(&mut self, name: String, value: Vec<u8>) -> (r: Result<(), InvalidHeader>)
        ensures
            r is Ok <==> valid_header_name(name@) && valid_header_value(value@),
            r matches Err(e) ==> e.is_name_error() == !valid_header_name(name@),
            r is Ok ==> final(self).entries() == without_named(old(self).entries(), name@, old(self).entries().len() as int).push(
                (name@, value@),
            ),
            r is Err ==> final(self).entries() == old(self).entries(),
    {
        match validate_header(name.as_str(), value.as_slice()) {
            Err(e) => Err(e),
            Ok(()) => {
                self.set_unchecked(name, value);
                Ok(())
            },
        }
    }

    /// Adds an entry without checking it.
    pub fn append_unchecked(&mut self, name: String, value: Vec<u8>)
        ensures
            final(self).entries() == old(self).entries().push((name@, value@)),
    {
        let ghost before = self.entries();
        self.entries.push((name, value));
        assert(self.entries() == before.push((name@, value@)));
    }

    /// Replaces every entry named `name` by one entry, without checking it.
    pub fn set_unchecked(&mut self, name: String, value: Vec<u8>)
        ensures
            final(self).entries() == without_named(old(self).entries(), name@, old(self).entries().len() as int).push(
                (name@, value@),
            ),
    {
        self.remove(name.as_str());
        self.append_unchecked(name, value);
    }
}

} // verus!
