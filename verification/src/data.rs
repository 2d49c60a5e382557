//! The value model: everything a template can observe while rendering.
//!
//! A mapping is held as an association list ordered strictly by key, so
//! lookup, iteration order and serialization are all plain functions of the
//! stored entries. [`map_from_pairs`] builds such a list from pairs in any
//! order, with a later pair overriding an earlier one of the same key.

use vstd::prelude::*;

verus! {

/// Holds a user-supplied transform from template source to template source.
///
/// Trusted: the struct hides a `RefCell<Box<dyn FnMut(String) -> String + Send>>`,
/// a stateful closure that Verus cannot model. It is opaque to verification;
/// the renderer only passes it to [`producer_invoke`].
#[verifier::external_body]
pub struct Producer {
    transform: std::cell::RefCell<std::boxed::Box<dyn FnMut(String) -> String + Send>>,
}

/// Wraps a transform for use as a [`Data::Fun`] value.
///
/// Relies on `RefCell::new` and `Box::new`, which only store the closure.
#[verifier::external_body]
pub fn producer_new<F: FnMut(String) -> String + Send + 'static>(f: F) -> Producer {
    Producer { transform: std::cell::RefCell::new(std::boxed::Box::new(f)) }
}

/// Calls the wrapped transform on `input`.
///
/// Relies on `RefCell::try_borrow_mut` and on calling the boxed closure:
/// `None` comes only when the producer is already running, which a
/// single-threaded render never causes. Nothing is promised of the output;
/// the transform may carry state of its own, so two calls on one input may
/// differ.
#[verifier::external_body]
pub fn producer_invoke(p: &Producer, input: String) -> Option<String> {
    match p.transform.try_borrow_mut() {
        Ok(mut f) => Some((*f)(input)),
        Err(_) => None,
    }
}

/// All data a template can observe: scalars, collections, and producers.
pub enum Data {
    Null,
    Str(String),
    Bool(bool),
    List(Vec<Data>),
    /// A mapping, stored as an association list; a well-formed one is
    /// strictly ordered by key (see [`Data::wf`]).
    Obj(Vec<(String, Data)>),
    /// A dynamic content producer whose output is template source.
    Fun(Producer),
}

/// Strict lexicographic order on character sequences, by scalar value.
pub open spec fn chars_lt(a: Seq<char>, b: Seq<char>) -> bool
    decreases a.len(),
{
    if b.len() == 0 {
        false
    } else if a.len() == 0 {
        true
    } else if (a[0] as int) < (b[0] as int) {
        true
    } else if (b[0] as int) < (a[0] as int) {
        false
    } else {
        chars_lt(a.drop_first(), b.drop_first())
    }
}

/// The value under `key`, scanning entries front to back.
pub open spec fn map_lookup(entries: Seq<(String, Data)>, key: Seq<char>) -> Option<Data>
    decreases entries.len(),
{
    if entries.len() == 0 {
        None
    } else if entries[0].0@ == key {
        Some(entries[0].1)
    } else {
        map_lookup(entries.drop_first(), key)
    }
}

/// Whether the entry keys are strictly increasing (hence unique).
pub open spec fn entries_sorted(entries: Seq<(String, Data)>) -> bool {
    forall|i: int, j: int|
        0 <= i < j < entries.len() ==> chars_lt(#[trigger] entries[i].0@, #[trigger] entries[j].0@)
}

impl Data {
    /// Validity: every mapping anywhere in the value is strictly ordered by
    /// key, so mappings have unique keys and a fixed iteration order.
    pub open spec fn wf(self) -> bool
        decreases self,
    {
        match self {
            Data::List(items) => forall|i: int|
                0 <= i < items@.len() ==> (#[trigger] items@[i]).wf(),
            Data::Obj(entries) => entries_sorted(entries@) && forall|i: int|
                0 <= i < entries@.len() ==> (#[trigger] entries@[i]).1.wf(),
            _ => true,
        }
    }
}

/// Structural equality of values. Producers are not comparable: any
/// comparison that reaches one answers not-equal, a producer against itself
/// included.
pub open spec fn data_eq_spec(a: Data, b: Data) -> bool
    decreases a,
{
    match (a, b) {
        (Data::Null, Data::Null) => true,
        (Data::Str(x), Data::Str(y)) => x@ == y@,
        (Data::Bool(x), Data::Bool(y)) => x == y,
        (Data::List(x), Data::List(y)) => x@.len() == y@.len() && (forall|i: int|
            0 <= i < x@.len() ==> data_eq_spec(#[trigger] x@[i], y@[i])),
        (Data::Obj(x), Data::Obj(y)) => x@.len() == y@.len() && (forall|i: int|
            0 <= i < x@.len() ==> (#[trigger] x@[i]).0@ == y@[i].0@ && data_eq_spec(
                x@[i].1,
                y@[i].1,
            )),
        _ => false,
    }
}

/// Structural equality on values; producers compare not-equal.
#[verifier::loop_isolation(false)]
pub fn data_eq(a: &Data, b: &Data) -> (r: bool)
    ensures
        r == data_eq_spec(*a, *b),
    decreases *a,
{
    match (a, b) {
        (Data::Null, Data::Null) => true,
        (Data::Str(x), Data::Str(y)) => string_eq(x.as_str(), y.as_str()),
        (Data::Bool(x), Data::Bool(y)) => *x == *y,
        (Data::List(x), Data::List(y)) => {
            if x.len() != y.len() {
                return false;
            }
            let mut i: usize = 0;
            while i < x.len()
                invariant
                    *a == Data::List(*x),
                    *b == Data::List(*y),
                    x@.len() == y@.len(),
                    i <= x@.len(),
                    forall|k: int| 0 <= k < i ==> data_eq_spec(#[trigger] x@[k], y@[k]),
                decreases x@.len() - i,
            {
                proof {
                    assert(decreases_to!(x@ => x@[i as int]));
                }
                if !data_eq(&x[i], &y[i]) {
                    return false;
                }
                i = i + 1;
            }
            true
        },
        (Data::Obj(x), Data::Obj(y)) => {
            if x.len() != y.len() {
                return false;
            }
            let mut i: usize = 0;
            while i < x.len()
                invariant
                    *a == Data::Obj(*x),
                    *b == Data::Obj(*y),
                    x@.len() == y@.len(),
                    i <= x@.len(),
                    forall|k: int|
                        0 <= k < i ==> (#[trigger] x@[k]).0@ == y@[k].0@ && data_eq_spec(
                            x@[k].1,
                            y@[k].1,
                        ),
                decreases x@.len() - i,
            {
                proof {
                    assert(decreases_to!(x@ => x@[i as int]));
                }
                if !string_eq(x[i].0.as_str(), y[i].0.as_str()) {
                    return false;
                }
                if !data_eq(&x[i].1, &y[i].1) {
                    return false;
                }
                i = i + 1;
            }
            true
        },
        _ => false,
    }
}

impl PartialEq for Data {
    fn eq(&self, other: &Data) -> (r: bool) {
        data_eq(self, other)
    }
}

impl vstd::std_specs::cmp::PartialEqSpecImpl for Data {
    open spec fn obeys_eq_spec() -> bool {
        true
    }

    open spec fn eq_spec(&self, other: &Data) -> bool {
        data_eq_spec(*self, *other)
    }
}

/// Three-way comparison outcome for keys.
pub enum KeyOrder {
    Less,
    Equal,
    Greater,
}

/// Compares two strings in lexicographic scalar-value order.
pub fn key_cmp(a: &str, b: &str) -> (r: KeyOrder)
    ensures
        r == KeyOrder::Less <==> chars_lt(a@, b@),
        r == KeyOrder::Equal <==> a@ == b@,
{
    let alen = a.unicode_len();
    let blen = b.unicode_len();
    let mut i: usize = 0;
    proof {
        assert(a@.skip(0) =~= a@);
        assert(b@.skip(0) =~= b@);
        assert(a@.subrange(0, 0) =~= b@.subrange(0, 0));
    }
    while i < alen && i < blen
        invariant
            alen == a@.len(),
            blen == b@.len(),
            i <= alen,
            i <= blen,
            a@.subrange(0, i as int) == b@.subrange(0, i as int),
            chars_lt(a@, b@) == chars_lt(a@.skip(i as int), b@.skip(i as int)),
            (a@ == b@) == (a@.skip(i as int) == b@.skip(i as int)),
        decreases alen - i,
    {
        let ca = a.get_char(i);
        let cb = b.get_char(i);
        proof {
            assert(a@.skip(i as int)[0] == a@[i as int]);
            assert(b@.skip(i as int)[0] == b@[i as int]);
            assert(a@.skip(i as int).drop_first() =~= a@.skip(i + 1));
            assert(b@.skip(i as int).drop_first() =~= b@.skip(i + 1));
        }
        if (ca as u32) < (cb as u32) {
            assert(chars_lt(a@.skip(i as int), b@.skip(i as int)));
            assert(a@.skip(i as int) != b@.skip(i as int));
            return KeyOrder::Less;
        }
        if (cb as u32) < (ca as u32) {
            assert(!chars_lt(a@.skip(i as int), b@.skip(i as int)));
            assert(a@.skip(i as int) != b@.skip(i as int));
            return KeyOrder::Greater;
        }
        proof {
            assert(a@[i as int] == b@[i as int]);
            assert(a@.subrange(0, i + 1) =~= b@.subrange(0, i + 1));
            if a@.skip(i + 1) == b@.skip(i + 1) {
                assert(a@.skip(i + 1).len() == b@.skip(i + 1).len());
                assert(a@.len() == b@.len());
                assert forall|k: int| 0 <= k < a@.len() implies a@[k] == b@[k] by {
                    if k < i + 1 {
                        assert(a@.subrange(0, i + 1)[k] == b@.subrange(0, i + 1)[k]);
                    } else {
                        assert(a@.skip(i + 1)[k - i - 1] == b@.skip(i + 1)[k - i - 1]);
                    }
                }
                assert(a@ =~= b@);
            }
            if a@ == b@ {
                assert(a@.skip(i + 1) == b@.skip(i + 1));
            }
        }
        i = i + 1;
    }
    if alen == blen {
        proof {
            assert(a@.skip(i as int) =~= Seq::<char>::empty());
            assert(b@.skip(i as int) =~= Seq::<char>::empty());
            assert(a@ =~= b@);
        }
        KeyOrder::Equal
    } else if alen < blen {
        proof {
            assert(a@.skip(i as int) =~= Seq::<char>::empty());
            assert(b@.skip(i as int).len() > 0);
            assert(a@.skip(i as int) != b@.skip(i as int));
        }
        KeyOrder::Less
    } else {
        proof {
            assert(b@.skip(i as int) =~= Seq::<char>::empty());
            assert(a@.skip(i as int).len() > 0);
            assert(!chars_lt(a@.skip(i as int), b@.skip(i as int)));
            assert(a@.skip(i as int) != b@.skip(i as int));
        }
        KeyOrder::Greater
    }
}

/// Whether two strings hold the same characters.
pub fn string_eq(a: &str, b: &str) -> (r: bool)
    ensures
        r == (a@ == b@),
{
    matches!(key_cmp(a, b), KeyOrder::Equal)
}

/// The value under `key` in an association list, scanning front to back.
pub fn map_get<'e>(entries: &'e Vec<(String, Data)>, key: &str) -> (r: Option<&'e Data>)
    ensures
        match r {
            Some(v) => map_lookup(entries@, key@) == Some(*v),
            None => map_lookup(entries@, key@) is None,
        },
{
    let n = entries.len();
    let mut i: usize = 0;
    proof {
        assert(entries@.skip(0) =~= entries@);
    }
    while i < n
        invariant
            n == entries@.len(),
            i <= n,
            map_lookup(entries@, key@) == map_lookup(entries@.skip(i as int), key@),
        decreases n - i,
    {
        proof {
            assert(entries@.skip(i as int)[0] == entries@[i as int]);
            assert(entries@.skip(i as int).drop_first() =~= entries@.skip(i + 1));
        }
        if matches!(key_cmp(entries[i].0.as_str(), key), KeyOrder::Equal) {
            return Some(&entries[i].1);
        }
        i = i + 1;
    }
    proof {
        assert(entries@.skip(i as int) =~= Seq::<(String, Data)>::empty());
    }
    None
}

/// `entries` with `kv` inserted at its ordered place; an entry of the same
/// key is replaced.
pub open spec fn insert_entry(entries: Seq<(String, Data)>, kv: (String, Data)) -> Seq<
    (String, Data),
>
    decreases entries.len(),
{
    if entries.len() == 0 {
        seq![kv]
    } else if kv.0@ == entries[0].0@ {
        seq![kv] + entries.drop_first()
    } else if chars_lt(kv.0@, entries[0].0@) {
        seq![kv] + entries
    } else {
        seq![entries[0]] + insert_entry(entries.drop_first(), kv)
    }
}

/// The ordered entries that folding `insert_entry` over `pairs` gives:
/// a later pair overrides an earlier one of the same key.
pub open spec fn entries_of(pairs: Seq<(String, Data)>) -> Seq<(String, Data)>
    decreases pairs.len(),
{
    if pairs.len() == 0 {
        Seq::empty()
    } else {
        insert_entry(entries_of(pairs.drop_last()), pairs.last())
    }
}

fn insert_pair(entries: &mut Vec<(String, Data)>, kv: (String, Data))
    ensures
        final(entries)@ == insert_entry(old(entries)@, kv),
    decreases old(entries)@.len(),
{
    let ghost orig = entries@;
    let n = entries.len();
    let mut i: usize = 0;
    proof {
        assert(orig.skip(0) =~= orig);
        assert(orig.take(0) + insert_entry(orig.skip(0), kv) =~= insert_entry(orig, kv));
    }
    while i < n
        invariant
            orig == old(entries)@,
            n == entries@.len(),
            entries@ == orig,
            i <= n,
            insert_entry(orig, kv) == orig.take(i as int) + insert_entry(
                orig.skip(i as int),
                kv,
            ),
        decreases n - i,
    {
        proof {
            assert(orig.skip(i as int)[0] == orig[i as int]);
            assert(orig.skip(i as int).drop_first() =~= orig.skip(i + 1));
        }
        match key_cmp(kv.0.as_str(), entries[i].0.as_str()) {
            KeyOrder::Equal => {
                entries.insert(i, kv);
                let _ = entries.remove(i + 1);
                proof {
                    assert(insert_entry(orig.skip(i as int), kv) =~= seq![kv] + orig.skip(
                        i + 1,
                    ));
                    assert(entries@ =~= orig.take(i as int) + (seq![kv] + orig.skip(i + 1)));
                }
                return ;
            },
            KeyOrder::Less => {
                entries.insert(i, kv);
                proof {
                    assert(insert_entry(orig.skip(i as int), kv) =~= seq![kv] + orig.skip(
                        i as int,
                    ));
                    assert(entries@ =~= orig.take(i as int) + (seq![kv] + orig.skip(i as int)));
                }
                return ;
            },
            KeyOrder::Greater => {
                proof {
                    assert(insert_entry(orig.skip(i as int), kv) == seq![orig[i as int]]
                        + insert_entry(orig.skip(i + 1), kv));
                    assert(orig.take(i as int) + (seq![orig[i as int]] + insert_entry(
                        orig.skip(i + 1),
                        kv,
                    )) =~= orig.take(i + 1) + insert_entry(orig.skip(i + 1), kv));
                }
                i = i + 1;
            },
        }
    }
    proof {
        assert(orig.skip(i as int) =~= Seq::<(String, Data)>::empty());
        assert(insert_entry(orig.skip(i as int), kv) =~= seq![kv]);
    }
    entries.push(kv);
    proof {
        assert(orig.take(n as int) =~= orig);
        assert(entries@ =~= orig.take(n as int) + seq![kv]);
    }
}

/// The key order is transitive.
pub proof fn lemma_chars_lt_trans(a: Seq<char>, b: Seq<char>, c: Seq<char>)
    requires
        chars_lt(a, b),
        chars_lt(b, c),
    ensures
        chars_lt(a, c),
    decreases a.len() + b.len() + c.len(),
{
    if a.len() == 0 {
    } else {
        let x = a[0] as int;
        let y = b[0] as int;
        let z = c[0] as int;
        if x < y {
            if y < z {
            } else {
                assert(y == z);
            }
        } else {
            assert(x == y);
            if y < z {
            } else {
                assert(y == z);
                lemma_chars_lt_trans(a.drop_first(), b.drop_first(), c.drop_first());
            }
        }
    }
}

/// The key order is total: two keys are ordered one way or the other, or
/// they are the same characters.
pub proof fn lemma_chars_lt_total(a: Seq<char>, b: Seq<char>)
    ensures
        chars_lt(a, b) || chars_lt(b, a) || a == b,
    decreases a.len(),
{
    if b.len() == 0 {
        if a.len() == 0 {
            assert(a =~= b);
        }
    } else if a.len() == 0 {
    } else {
        let x = a[0] as int;
        let y = b[0] as int;
        if x < y {
        } else if y < x {
        } else {
            lemma_chars_lt_total(a.drop_first(), b.drop_first());
            if a.drop_first() == b.drop_first() {
                assert(a[0] == b[0]);
                assert(a.drop_first().len() == b.drop_first().len());
                assert forall|k: int| 0 <= k < a.len() implies a[k] == b[k] by {
                    if k > 0 {
                        assert(a[k] == a.drop_first()[k - 1]);
                        assert(b[k] == b.drop_first()[k - 1]);
                    }
                }
                assert(a =~= b);
            }
        }
    }
}

/// Each entry of an ordered insertion is the inserted pair or one of the
/// old entries.
proof fn lemma_insert_entry_elems(es: Seq<(String, Data)>, kv: (String, Data))
    ensures
        forall|m: int|
            0 <= m < insert_entry(es, kv).len() ==> (#[trigger] insert_entry(es, kv)[m] == kv
                || exists|n: int| 0 <= n < es.len() && insert_entry(es, kv)[m] == es[n]),
    decreases es.len(),
{
    let r = insert_entry(es, kv);
    if es.len() == 0 {
    } else if kv.0@ == es[0].0@ {
        assert forall|m: int| 0 <= m < r.len() implies (r[m] == kv || exists|n: int|
            0 <= n < es.len() && r[m] == es[n]) by {
            if m > 0 {
                assert(r[m] == es.drop_first()[m - 1]);
                assert(r[m] == es[m]);
            }
        }
    } else if chars_lt(kv.0@, es[0].0@) {
        assert forall|m: int| 0 <= m < r.len() implies (r[m] == kv || exists|n: int|
            0 <= n < es.len() && r[m] == es[n]) by {
            if m > 0 {
                assert(r[m] == es[m - 1]);
            }
        }
    } else {
        lemma_insert_entry_elems(es.drop_first(), kv);
        let inner = insert_entry(es.drop_first(), kv);
        assert forall|m: int| 0 <= m < r.len() implies (r[m] == kv || exists|n: int|
            0 <= n < es.len() && r[m] == es[n]) by {
            if m == 0 {
                assert(r[0] == es[0]);
            } else {
                assert(r[m] == inner[m - 1]);
                if inner[m - 1] == kv {
                } else {
                    let n = choose|n: int|
                        0 <= n < es.drop_first().len() && inner[m - 1] == es.drop_first()[n];
                    assert(es.drop_first()[n] == es[n + 1]);
                }
            }
        }
    }
}

/// Ordered insertion keeps the entries strictly ordered by key.
proof fn lemma_insert_entry_sorted(es: Seq<(String, Data)>, kv: (String, Data))
    requires
        entries_sorted(es),
    ensures
        entries_sorted(insert_entry(es, kv)),
    decreases es.len(),
{
    let r = insert_entry(es, kv);
    if es.len() == 0 {
    } else if kv.0@ == es[0].0@ {
        assert forall|i: int, j: int| 0 <= i < j < r.len() implies chars_lt(
            #[trigger] r[i].0@,
            #[trigger] r[j].0@,
        ) by {
            assert(r[j] == es.drop_first()[j - 1]);
            assert(r[j] == es[j]);
            if i == 0 {
                assert(chars_lt(es[0].0@, es[j].0@));
            } else {
                assert(r[i] == es[i]);
            }
        }
    } else if chars_lt(kv.0@, es[0].0@) {
        assert forall|i: int, j: int| 0 <= i < j < r.len() implies chars_lt(
            #[trigger] r[i].0@,
            #[trigger] r[j].0@,
        ) by {
            assert(r[j] == es[j - 1]);
            if i == 0 {
                if j == 1 {
                } else {
                    lemma_chars_lt_trans(kv.0@, es[0].0@, es[j - 1].0@);
                }
            } else {
                assert(r[i] == es[i - 1]);
            }
        }
    } else {
        lemma_chars_lt_total(kv.0@, es[0].0@);
        assert(chars_lt(es[0].0@, kv.0@));
        assert(entries_sorted(es.drop_first())) by {
            assert forall|i: int, j: int| 0 <= i < j < es.drop_first().len() implies chars_lt(
                #[trigger] es.drop_first()[i].0@,
                #[trigger] es.drop_first()[j].0@,
            ) by {
                assert(es.drop_first()[i] == es[i + 1]);
                assert(es.drop_first()[j] == es[j + 1]);
            }
        }
        lemma_insert_entry_sorted(es.drop_first(), kv);
        lemma_insert_entry_elems(es.drop_first(), kv);
        let inner = insert_entry(es.drop_first(), kv);
        assert forall|i: int, j: int| 0 <= i < j < r.len() implies chars_lt(
            #[trigger] r[i].0@,
            #[trigger] r[j].0@,
        ) by {
            if i == 0 {
                assert(r[0] == es[0]);
                assert(r[j] == inner[j - 1]);
                if inner[j - 1] == kv {
                } else {
                    let n = choose|n: int|
                        0 <= n < es.drop_first().len() && inner[j - 1] == es.drop_first()[n];
                    assert(es.drop_first()[n] == es[n + 1]);
                    assert(chars_lt(es[0].0@, es[n + 1].0@));
                }
            } else {
                assert(r[i] == inner[i - 1]);
                assert(r[j] == inner[j - 1]);
            }
        }
    }
}

/// Law (mapping validity): building a mapping from pairs in any order gives
/// entries strictly ordered by key, so its keys are unique and its
/// iteration and serialization order is the lexicographic key order.
pub proof fn lemma_entries_of_sorted(pairs: Seq<(String, Data)>)
    ensures
        entries_sorted(entries_of(pairs)),
    decreases pairs.len(),
{
    if pairs.len() > 0 {
        lemma_entries_of_sorted(pairs.drop_last());
        lemma_insert_entry_sorted(entries_of(pairs.drop_last()), pairs.last());
    }
}


/// Each entry of the ordered form is one of the given pairs.
proof fn lemma_entries_of_elems(pairs: Seq<(String, Data)>)
    ensures
        forall|m: int|
            0 <= m < entries_of(pairs).len() ==> exists|n: int|
                0 <= n < pairs.len() && #[trigger] entries_of(pairs)[m] == pairs[n],
    decreases pairs.len(),
{
    if pairs.len() > 0 {
        lemma_entries_of_elems(pairs.drop_last());
        lemma_insert_entry_elems(entries_of(pairs.drop_last()), pairs.last());
        let prior = entries_of(pairs.drop_last());
        let r = entries_of(pairs);
        assert forall|m: int| 0 <= m < r.len() implies exists|n: int|
            0 <= n < pairs.len() && #[trigger] r[m] == pairs[n] by {
            if r[m] == pairs.last() {
                assert(r[m] == pairs[pairs.len() - 1]);
            } else {
                let q = choose|q: int| 0 <= q < prior.len() && r[m] == prior[q];
                let n = choose|n: int|
                    0 <= n < pairs.drop_last().len() && prior[q] == pairs.drop_last()[n];
                assert(pairs.drop_last()[n] == pairs[n]);
            }
        }
    }
}

/// Law (constructors establish validity): a mapping built from pairs whose
/// values are all well-formed is itself well-formed — its entries are
/// strictly ordered by key and its values are well-formed.
pub proof fn lemma_map_from_pairs_wf(pairs: Seq<(String, Data)>)
    requires
        forall|n: int| 0 <= n < pairs.len() ==> (#[trigger] pairs[n]).1.wf(),
    ensures
        entries_sorted(entries_of(pairs)),
        forall|m: int| 0 <= m < entries_of(pairs).len() ==> (#[trigger] entries_of(
            pairs,
        )[m]).1.wf(),
{
    lemma_entries_of_sorted(pairs);
    lemma_entries_of_elems(pairs);
    assert forall|m: int| 0 <= m < entries_of(pairs).len() implies (#[trigger] entries_of(
        pairs,
    )[m]).1.wf() by {
        let n = choose|n: int| 0 <= n < pairs.len() && entries_of(pairs)[m] == pairs[n];
    }
}

/// Builds a mapping from key-value pairs given in any order; a later pair
/// overrides an earlier one of the same key. When every given value is
/// well-formed, the mapping is well-formed (see [`lemma_map_from_pairs_wf`]).
pub fn map_from_pairs(pairs: Vec<(String, Data)>) -> (d: Data)
    ensures
        d matches Data::Obj(entries) && entries@ == entries_of(pairs@),
{
    let ghost all = pairs@;
    let mut entries: Vec<(String, Data)> = Vec::new();
    let mut rest = pairs;
    let mut i: usize = 0;
    let n = rest.len();
    while i < n
        invariant
            n == all.len(),
            i <= n,
            rest@ == all.skip(i as int),
            entries@ == entries_of(all.take(i as int)),
        decreases n - i,
    {
        let kv = rest.remove(0);
        proof {
            assert(kv == all[i as int]);
            assert(all.skip(i as int).drop_first() =~= all.skip(i + 1));
            assert(all.take(i + 1).drop_last() =~= all.take(i as int));
            assert(all.take(i + 1).last() == all[i as int]);
        }
        insert_pair(&mut entries, kv);
        i = i + 1;
    }
    proof {
        assert(all.take(n as int) =~= all);
    }
    Data::Obj(entries)
}

} // verus!
