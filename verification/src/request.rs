//! A request as the router sees it: method, path, query, headers, the
//! parameters its route captured, and the extensions, states and body limit
//! attached to it. Its body stays with the serving layer.

use vstd::prelude::*;
use crate::method::Method;
use crate::headers::Headers;

verus! {

/// Sets the value of kind `kind`, replacing an entry of that kind.
pub fn set_keyed(states: &mut Vec<(u64, u64)>, kind: u64, value: u64)
    ensures
        final(states)@ == with_keyed(old(states)@, kind, value),
{
    let ghost before = states@;
    let mut k: usize = 0;
    while k < states.len()
        invariant
            k <= states@.len(),
            states@ == before,
            before == old(states)@,
            forall|j: int| 0 <= j < k ==> (#[trigger] before[j]).0 != kind,
        decreases states@.len() - k,
    {
        if states[k].0 == kind {
            proof {
                lemma_first_of_kind(before, kind, k as int);
            }
            states.set(k, (kind, value));
            return;
        }
        k += 1;
    }
    proof {
        lemma_no_kind(before, kind);
    }
    states.push((kind, value));
}

/// The position of the first entry of kind `kind`, if any.
pub open spec fn first_of_kind(states: Seq<(u64, u64)>, kind: u64) -> Option<int>
    decreases states.len(),
{
    if states.len() == 0 {
        None
    } else if states[0].0 == kind {
        Some(0)
    } else {
        match first_of_kind(states.drop_first(), kind) {
            Some(i) => Some(i + 1),
            None => None,
        }
    }
}

/// The entries with `(kind, value)` in place of the first one of that
/// kind, or added last when there is none.
pub open spec fn with_keyed(states: Seq<(u64, u64)>, kind: u64, value: u64) -> Seq<(u64, u64)> {
    match first_of_kind(states, kind) {
        Some(i) => states.update(i, (kind, value)),
        None => states.push((kind, value)),
    }
}

proof fn lemma_first_of_kind(states: Seq<(u64, u64)>, kind: u64, k: int)
    requires
        0 <= k < states.len(),
        states[k].0 == kind,
        forall|j: int| 0 <= j < k ==> (#[trigger] states[j]).0 != kind,
    ensures
        first_of_kind(states, kind) == Some(k),
    decreases k,
{
    if k > 0 {
        assert forall|j: int| 0 <= j < k - 1 implies (#[trigger] states.drop_first()[j]).0 != kind by {
            assert(states.drop_first()[j] == states[j + 1]);
        }
        lemma_first_of_kind(states.drop_first(), kind, k - 1);
    }
}

proof fn lemma_no_kind(states: Seq<(u64, u64)>, kind: u64)
    requires
        forall|j: int| 0 <= j < states.len() ==> (#[trigger] states[j]).0 != kind,
    ensures
        first_of_kind(states, kind) is None,
    decreases states.len(),
{
    if states.len() > 0 {
        assert forall|j: int| 0 <= j < states.len() - 1 implies (#[trigger] states.drop_first()[j]).0 != kind by {
            assert(states.drop_first()[j] == states[j + 1]);
        }
        lemma_no_kind(states.drop_first(), kind);
    }
}



/// The value of the entry of kind `kind`, taking the first when there are
/// several.
pub open spec fn keyed_value(entries: Seq<(u64, u64)>, kind: u64) -> Option<u64> {
    match first_of_kind(entries, kind) {
        Some(i) => Some(entries[i].1),
        None => None,
    }
}

proof fn lemma_first_of_kind_facts(entries: Seq<(u64, u64)>, kind: u64)
    ensures
        first_of_kind(entries, kind) matches Some(i) ==> 0 <= i < entries.len() && entries[i].0 == kind && forall|j: int|
            0 <= j < i ==> (#[trigger] entries[j]).0 != kind,
        first_of_kind(entries, kind) is None ==> forall|j: int| 0 <= j < entries.len() ==> (#[trigger] entries[j]).0 != kind,
    decreases entries.len(),
{
    if entries.len() > 0 && entries[0].0 != kind {
        lemma_first_of_kind_facts(entries.drop_first(), kind);
        assert forall|j: int| 1 <= j < entries.len() implies entries[j] == #[trigger] entries.drop_first()[j - 1] by {}
        if first_of_kind(entries.drop_first(), kind) is None {
            assert forall|j: int| 0 <= j < entries.len() implies (#[trigger] entries[j]).0 != kind by {
                if j > 0 {
                    assert(entries[j] == entries.drop_first()[j - 1]);
                }
            }
        } else {
            let k = first_of_kind(entries.drop_first(), kind)->0;
            assert forall|j: int| 0 <= j < k + 1 implies (#[trigger] entries[j]).0 != kind by {
                if j > 0 {
                    assert(entries[j] == entries.drop_first()[j - 1]);
                }
            }
        }
    }
}

/// Reading a kind back after setting it gives the value set, and other
/// kinds keep their values.
pub proof fn law_set_then_read(entries: Seq<(u64, u64)>, kind: u64, value: u64, other: u64)
    ensures
        keyed_value(with_keyed(entries, kind, value), kind) == Some(value),
        other != kind ==> keyed_value(with_keyed(entries, kind, value), other) == keyed_value(entries, other),
{
    let after = with_keyed(entries, kind, value);
    lemma_first_of_kind_facts(entries, kind);
    lemma_first_of_kind_facts(entries, other);
    match first_of_kind(entries, kind) {
        Some(i) => {
            assert forall|j: int| 0 <= j < i implies (#[trigger] after[j]).0 != kind by {
                assert(after[j] == entries[j]);
            }
            lemma_first_of_kind(after, kind, i);
            if other != kind {
                match first_of_kind(entries, other) {
                    Some(k) => {
                        assert forall|j: int| 0 <= j < k implies (#[trigger] after[j]).0 != other by {
                            if j != i {
                                assert(after[j] == entries[j]);
                            }
                        }
                        assert(after[k] == entries[k]);
                        lemma_first_of_kind(after, other, k);
                    },
                    None => {
                        assert forall|j: int| 0 <= j < after.len() implies (#[trigger] after[j]).0 != other by {
                            if j != i {
                                assert(after[j] == entries[j]);
                            }
                        }
                        lemma_no_kind(after, other);
                    },
                }
            }
        },
        None => {
            assert forall|j: int| 0 <= j < entries.len() implies (#[trigger] after[j]).0 != kind by {
                assert(after[j] == entries[j]);
            }
            lemma_first_of_kind(after, kind, entries.len() as int);
            if other != kind {
                match first_of_kind(entries, other) {
                    Some(k) => {
                        assert forall|j: int| 0 <= j < k implies (#[trigger] after[j]).0 != other by {
                            assert(after[j] == entries[j]);
                        }
                        assert(after[k] == entries[k]);
                        lemma_first_of_kind(after, other, k);
                    },
                    None => {
                        assert forall|j: int| 0 <= j < after.len() implies (#[trigger] after[j]).0 != other by {
                            if j < entries.len() {
                                assert(after[j] == entries[j]);
                            }
                        }
                        lemma_no_kind(after, other);
                    },
                }
            }
        },
    }
}

fn find_first(entries: &Vec<(u64, u64)>, kind: u64) -> (r: Option<u64>)
    ensures
        r == keyed_value(entries@, kind),
{
    let mut i: usize = 0;
    while i < entries.len()
        invariant
            i <= entries@.len(),
            forall|j: int| 0 <= j < i ==> (#[trigger] entries@[j]).0 != kind,
        decreases entries@.len() - i,
    {
        if entries[i].0 == kind {
            proof {
                lemma_first_of_kind(entries@, kind, i as int);
            }
            return Some(entries[i].1);
        }
        i += 1;
    }
    proof {
        lemma_no_kind(entries@, kind);
    }
    None
}

/// The value of the last entry of kind `kind`, if any: later entries
/// override earlier ones.
pub open spec fn last_of_kind(entries: Seq<(u64, u64)>, kind: u64) -> Option<u64>
    decreases entries.len(),
{
    if entries.len() == 0 {
        None
    } else if entries.last().0 == kind {
        Some(entries.last().1)
    } else {
        last_of_kind(entries.drop_last(), kind)
    }
}

fn find_last(entries: &Vec<(u64, u64)>, kind: u64) -> (r: Option<u64>)
    ensures
        r == last_of_kind(entries@, kind),
{
    let mut i: usize = entries.len();
    assert(entries@.take(i as int) =~= entries@);
    while i > 0
        invariant
            i <= entries@.len(),
            last_of_kind(entries@, kind) == last_of_kind(entries@.take(i as int), kind),
        decreases i,
    {
        assert(entries@.take(i as int).drop_last() =~= entries@.take(i - 1));
        if entries[i - 1].0 == kind {
            return Some(entries[i - 1].1);
        }
        i -= 1;
    }
    None
}

/// A request's metadata.
#[derive(Debug)]
pub struct Request {
    pub method: Method,
    pub path: String,
    pub query: Option<String>,
    pub headers: Headers,
    params: Vec<(String, String)>,
    extensions: Vec<(u64, u64)>,
    states: Vec<(u64, u64)>,
    body_limit: Option<usize>,
}

impl Request {
    pub closed spec fn spec_method(&self) -> Method {
        self.method
    }

    pub closed spec fn spec_path(&self) -> Seq<char> {
        self.path@
    }

    pub closed spec fn spec_query(&self) -> Option<Seq<char>> {
        match self.query {
            Some(q) => Some(q@),
            None => None,
        }
    }

    pub closed spec fn spec_headers(&self) -> crate::headers::HeaderEntries {
        self.headers.entries()
    }

    pub closed spec fn spec_params(&self) -> Seq<(Seq<char>, Seq<char>)> {
        self.params@.map_values(|p: (String, String)| (p.0@, p.1@))
    }

    pub closed spec fn spec_extensions(&self) -> Seq<(u64, u64)> {
        self.extensions@
    }

    pub closed spec fn spec_states(&self) -> Seq<(u64, u64)> {
        self.states@
    }

    pub closed spec fn spec_body_limit(&self) -> Option<usize> {
        self.body_limit
    }

    /// A request with nothing attached yet.
    pub fn from_parts(method: Method, path: String, query: Option<String>, headers: Headers) -> (r: Request)
        ensures
            r.spec_method() == method,
            r.spec_path() == path@,
            r.spec_query() == match query {
                Some(q) => Some(q@),
                None => None,
            },
            r.spec_headers() == headers.entries(),
            r.spec_params().len() == 0,
            r.spec_extensions().len() == 0,
            r.spec_states().len() == 0,
            r.spec_body_limit() is None,
    {
        Request {
            method,
            path,
            query,
            headers,
            params: Vec::new(),
            extensions: Vec::new(),
            states: Vec::new(),
            body_limit: None,
        }
    }

    /// The parameters the route captured.
    pub fn params(&self) -> (r: &Vec<(String, String)>)
        ensures
            r@.map_values(|p: (String, String)| (p.0@, p.1@)) == self.spec_params(),
    {
        &self.params
    }

    pub fn set_params(&mut self, params: Vec<(String, String)>)
        ensures
            final(self).spec_params() == params@.map_values(|p: (String, String)| (p.0@, p.1@)),
            final(self).spec_extensions() == old(self).spec_extensions(),
            final(self).spec_states() == old(self).spec_states(),
            final(self).spec_body_limit() == old(self).spec_body_limit(),
    {
        self.params = params;
    }

    /// Attaches a value of kind `kind`, replacing one of that kind.
    pub fn insert_extension(&mut self, kind: u64, value: u64)
        ensures
            final(self).spec_extensions() == with_keyed(old(self).spec_extensions(), kind, value),
            final(self).spec_params() == old(self).spec_params(),
            final(self).spec_states() == old(self).spec_states(),
            final(self).spec_body_limit() == old(self).spec_body_limit(),
    {
        set_keyed(&mut self.extensions, kind, value);
    }

    /// The attached value of kind `kind`.
    pub fn extension(&self, kind: u64) -> (r: Option<u64>)
        ensures
            r == keyed_value(self.spec_extensions(), kind),
    {
        find_first(&self.extensions, kind)
    }

    /// Sets the states the request's scopes give it, in the order they
    /// apply.
    pub fn set_states(&mut self, states: Vec<(u64, u64)>)
        ensures
            final(self).spec_states() == states@,
            final(self).spec_params() == old(self).spec_params(),
            final(self).spec_extensions() == old(self).spec_extensions(),
            final(self).spec_body_limit() == old(self).spec_body_limit(),
    {
        self.states = states;
    }

    /// The state of kind `kind`: the one the innermost scope gave.
    pub fn state(&self, kind: u64) -> (r: Option<u64>)
        ensures
            r == last_of_kind(self.spec_states(), kind),
    {
        find_last(&self.states, kind)
    }

    pub fn set_body_limit(&mut self, limit: Option<usize>)
        ensures
            final(self).spec_body_limit() == limit,
            final(self).spec_params() == old(self).spec_params(),
            final(self).spec_extensions() == old(self).spec_extensions(),
            final(self).spec_states() == old(self).spec_states(),
    {
        self.body_limit = limit;
    }

    pub fn body_limit(&self) -> (r: Option<usize>)
        ensures
            r == self.spec_body_limit(),
    {
        self.body_limit
    }
}

} // verus!
