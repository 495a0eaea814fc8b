//! JSON document model for payload metadata and filter expressions.
//!
//! Payload documents are values of `JsonValue`; their mathematical shape is
//! `SpecJson`.  Merging follows the read-modify-write rule of the payload
//! storage: objects merge recursively with new keys winning on collision,
//! and every other kind — arrays included — is replaced whole.

use vstd::prelude::*;

verus! {

broadcast use vstd::std_specs::vec::group_vec_axioms, vstd::seq::group_seq_axioms;

/// Mathematical shape of a JSON document.
pub enum SpecJson {
    Null,
    Bool(bool),
    Int(int),
    Str(Seq<char>),
    Arr(Seq<SpecJson>),
    Obj(Seq<(Seq<char>, SpecJson)>),
}

/// A JSON document as the adapters store and merge it.  Numbers are 64-bit
/// integers: the metadata documents of this layer carry identifiers, flags
/// and counters.
#[derive(Debug, PartialEq)]
pub enum JsonValue {
    Null,
    Bool(bool),
    Int(i64),
    Str(String),
    Arr(Vec<JsonValue>),
    Obj(Vec<(String, JsonValue)>),
}

/// The view of a `JsonValue`, and of the element sequences of its arrays
/// and objects.
pub open spec fn json_view(v: JsonValue) -> SpecJson
    decreases v,
{
    match v {
        JsonValue::Null => SpecJson::Null,
        JsonValue::Bool(b) => SpecJson::Bool(b),
        JsonValue::Int(i) => SpecJson::Int(i as int),
        JsonValue::Str(s) => SpecJson::Str(s@),
        JsonValue::Arr(items) => SpecJson::Arr(arr_view(items@)),
        JsonValue::Obj(entries) => SpecJson::Obj(obj_view(entries@)),
    }
}

/// The views of the elements of an array, in order.
pub open spec fn arr_view(items: Seq<JsonValue>) -> Seq<SpecJson>
    decreases items,
{
    if items.len() == 0 {
        Seq::empty()
    } else {
        seq![json_view(items[0])] + arr_view(items.drop_first())
    }
}

/// The views of the entries of an object, in order.
pub open spec fn obj_view(entries: Seq<(String, JsonValue)>) -> Seq<(Seq<char>, SpecJson)>
    decreases entries,
{
    if entries.len() == 0 {
        Seq::empty()
    } else {
        seq![(entries[0].0@, json_view(entries[0].1))] + obj_view(entries.drop_first())
    }
}

impl View for JsonValue {
    type V = SpecJson;

    open spec fn view(&self) -> SpecJson {
        json_view(*self)
    }
}

/// The view of a sequence of path keys.
pub open spec fn keys_view(ks: Seq<String>) -> Seq<Seq<char>> {
    Seq::new(ks.len(), |i: int| ks[i]@)
}

/// Length and elements of `arr_view`.
pub proof fn lemma_arr_view(items: Seq<JsonValue>)
    ensures
        arr_view(items).len() == items.len(),
        forall|i: int|
            0 <= i < items.len() ==> arr_view(items)[i] == json_view(items[i]),
    decreases items.len(),
{
    if items.len() > 0 {
        lemma_arr_view(items.drop_first());
        assert forall|i: int|
            0 <= i < items.len() implies arr_view(items)[i] == json_view(items[i]) by {
            if i > 0 {
                assert(items.drop_first()[i - 1] == items[i]);
            }
        }
    }
}

/// Length and elements of `obj_view`.
pub proof fn lemma_obj_view(entries: Seq<(String, JsonValue)>)
    ensures
        obj_view(entries).len() == entries.len(),
        forall|i: int|
            0 <= i < entries.len() ==> obj_view(entries)[i] == (
                entries[i].0@,
                json_view(entries[i].1),
            ),
    decreases entries.len(),
{
    if entries.len() > 0 {
        lemma_obj_view(entries.drop_first());
        assert forall|i: int|
            0 <= i < entries.len() implies obj_view(entries)[i] == (
            entries[i].0@,
            json_view(entries[i].1),
        ) by {
            if i > 0 {
                assert(entries.drop_first()[i - 1] == entries[i]);
            }
        }
    }
}

/// The value under the first entry named `k`, if any.
pub open spec fn obj_get(es: Seq<(Seq<char>, SpecJson)>, k: Seq<char>) -> Option<SpecJson>
    decreases es.len(),
{
    if es.len() == 0 {
        None
    } else if es[0].0 == k {
        Some(es[0].1)
    } else {
        obj_get(es.drop_first(), k)
    }
}

/// Entries with the first entry named `k` replaced by `v`, or with `(k, v)`
/// appended when no entry is named `k`.
pub open spec fn obj_put(
    es: Seq<(Seq<char>, SpecJson)>,
    k: Seq<char>,
    v: SpecJson,
) -> Seq<(Seq<char>, SpecJson)>
    decreases es.len(),
{
    if es.len() == 0 {
        seq![(k, v)]
    } else if es[0].0 == k {
        seq![(k, v)] + es.drop_first()
    } else {
        seq![es[0]] + obj_put(es.drop_first(), k, v)
    }
}

/// Entries with every entry named `k` removed.
pub open spec fn obj_remove_all(
    es: Seq<(Seq<char>, SpecJson)>,
    k: Seq<char>,
) -> Seq<(Seq<char>, SpecJson)>
    decreases es.len(),
{
    if es.len() == 0 {
        Seq::empty()
    } else if es[0].0 == k {
        obj_remove_all(es.drop_first(), k)
    } else {
        seq![es[0]] + obj_remove_all(es.drop_first(), k)
    }
}

/// Recursive merge of `b` over `a`: two objects merge key by key with `b`'s
/// keys winning, anything else is replaced by `b` — arrays included.
pub open spec fn merge(a: SpecJson, b: SpecJson) -> SpecJson
    decreases b,
{
    match b {
        SpecJson::Obj(be) => match a {
            SpecJson::Obj(ae) => SpecJson::Obj(merge_entries(ae, be)),
            _ => b,
        },
        _ => b,
    }
}

/// Folds the entries of `be` over `ae`, left to right.
pub open spec fn merge_entries(
    ae: Seq<(Seq<char>, SpecJson)>,
    be: Seq<(Seq<char>, SpecJson)>,
) -> Seq<(Seq<char>, SpecJson)>
    decreases be,
{
    if be.len() == 0 {
        ae
    } else {
        let k = be[0].0;
        let merged = match obj_get(ae, k) {
            Some(prev) => merge(prev, be[0].1),
            None => be[0].1,
        };
        merge_entries(obj_put(ae, k, merged), be.drop_first())
    }
}

/// The value reached by descending `path` through nested objects.
pub open spec fn get_at_path(doc: SpecJson, path: Seq<Seq<char>>) -> Option<SpecJson>
    decreases path.len(),
{
    if path.len() == 0 {
        Some(doc)
    } else {
        match doc {
            SpecJson::Obj(es) => match obj_get(es, path[0]) {
                Some(v) => get_at_path(v, path.drop_first()),
                None => None,
            },
            _ => None,
        }
    }
}

/// Merge of `p` into the value at `path`, creating nested objects along the
/// way; a non-object on the way is replaced by a fresh object.
pub open spec fn merge_at_path(doc: SpecJson, path: Seq<Seq<char>>, p: SpecJson) -> SpecJson
    decreases path.len(),
{
    if path.len() == 0 {
        merge(doc, p)
    } else {
        let child = match doc {
            SpecJson::Obj(es) => match obj_get(es, path[0]) {
                Some(v) => v,
                None => SpecJson::Null,
            },
            _ => SpecJson::Null,
        };
        let new_child = merge_at_path(child, path.drop_first(), p);
        match doc {
            SpecJson::Obj(es) => SpecJson::Obj(obj_put(es, path[0], new_child)),
            _ => SpecJson::Obj(seq![(path[0], new_child)]),
        }
    }
}

/// Removal of the value at `path`: the document without it, and the value
/// that stood there.  A path that leads nowhere removes nothing.
pub open spec fn remove_at_path(doc: SpecJson, path: Seq<Seq<char>>) -> (SpecJson, Option<
    SpecJson,
>)
    decreases path.len(),
{
    if path.len() == 0 {
        (doc, None)
    } else {
        match doc {
            SpecJson::Obj(es) => match obj_get(es, path[0]) {
                Some(child) => {
                    if path.len() == 1 {
                        (SpecJson::Obj(obj_remove_all(es, path[0])), Some(child))
                    } else {
                        let (c2, removed) = remove_at_path(child, path.drop_first());
                        (SpecJson::Obj(obj_put(es, path[0], c2)), removed)
                    }
                },
                None => (doc, None),
            },
            _ => (doc, None),
        }
    }
}

/// `obj_get` finds the entry at the first index whose key is `k`.
pub proof fn lemma_obj_get_at(es: Seq<(Seq<char>, SpecJson)>, k: Seq<char>, p: int)
    requires
        0 <= p < es.len(),
        es[p].0 == k,
        forall|j: int| 0 <= j < p ==> es[j].0 != k,
    ensures
        obj_get(es, k) == Some(es[p].1),
    decreases p,
{
    if p > 0 {
        lemma_obj_get_at(es.drop_first(), k, p - 1);
    }
}

/// `obj_get` finds nothing when no entry is named `k`.
pub proof fn lemma_obj_get_absent(es: Seq<(Seq<char>, SpecJson)>, k: Seq<char>)
    requires
        forall|j: int| 0 <= j < es.len() ==> es[j].0 != k,
    ensures
        obj_get(es, k) is None,
    decreases es.len(),
{
    if es.len() > 0 {
        lemma_obj_get_absent(es.drop_first(), k);
    }
}

/// When `k` first occurs at index `p`, `obj_put` is an update at `p`.
pub proof fn lemma_obj_put_at(es: Seq<(Seq<char>, SpecJson)>, k: Seq<char>, v: SpecJson, p: int)
    requires
        0 <= p < es.len(),
        es[p].0 == k,
        forall|j: int| 0 <= j < p ==> es[j].0 != k,
    ensures
        obj_put(es, k, v) == es.update(p, (k, v)),
    decreases p,
{
    if p == 0 {
        assert(obj_put(es, k, v) =~= es.update(0, (k, v)));
    } else {
        lemma_obj_put_at(es.drop_first(), k, v, p - 1);
        assert(obj_put(es, k, v) =~= es.update(p, (k, v)));
    }
}

/// When no entry is named `k`, `obj_put` appends.
pub proof fn lemma_obj_put_absent(es: Seq<(Seq<char>, SpecJson)>, k: Seq<char>, v: SpecJson)
    requires
        forall|j: int| 0 <= j < es.len() ==> es[j].0 != k,
    ensures
        obj_put(es, k, v) == es.push((k, v)),
    decreases es.len(),
{
    if es.len() == 0 {
        assert(obj_put(es, k, v) =~= es.push((k, v)));
    } else {
        lemma_obj_put_absent(es.drop_first(), k, v);
        assert(obj_put(es, k, v) =~= es.push((k, v)));
    }
}

/// Reading the key just put yields the value just put.
pub proof fn lemma_obj_get_put_same(es: Seq<(Seq<char>, SpecJson)>, k: Seq<char>, v: SpecJson)
    ensures
        obj_get(obj_put(es, k, v), k) == Some(v),
    decreases es.len(),
{
    if es.len() > 0 && es[0].0 != k {
        lemma_obj_get_put_same(es.drop_first(), k, v);
        assert((seq![es[0]] + obj_put(es.drop_first(), k, v)).drop_first() =~= obj_put(
            es.drop_first(),
            k,
            v,
        ));
    }
}

/// After removing every entry named `k`, reading `k` yields nothing.
pub proof fn lemma_obj_get_remove_all(es: Seq<(Seq<char>, SpecJson)>, k: Seq<char>)
    ensures
        obj_get(obj_remove_all(es, k), k) is None,
    decreases es.len(),
{
    if es.len() > 0 {
        lemma_obj_get_remove_all(es.drop_first(), k);
        if es[0].0 != k {
            assert((seq![es[0]] + obj_remove_all(es.drop_first(), k)).drop_first()
                =~= obj_remove_all(es.drop_first(), k));
        }
    }
}

/// Index of the first entry named `k`, if any.
pub(crate) fn find_key(es: &Vec<(String, JsonValue)>, k: &String) -> (r: Option<usize>)
    ensures
        match r {
            Some(p) => {
                &&& p < es@.len()
                &&& es@[p as int].0@ == k@
                &&& forall|j: int| 0 <= j < p ==> es@[j].0@ != k@
            },
            None => forall|j: int| 0 <= j < es@.len() ==> es@[j].0@ != k@,
        },
{
    let mut i: usize = 0;
    while i < es.len()
        invariant
            i <= es@.len(),
            forall|j: int| 0 <= j < i ==> es@[j].0@ != k@,
        decreases es@.len() - i,
    {
        if es[i].0 == *k {
            return Some(i);
        }
        i += 1;
    }
    None
}

impl JsonValue {
    /// A structurally equal copy of the document.
    #[verifier::loop_isolation(false)]
    pub fn deep_copy(&self) -> (r: JsonValue)
        ensures
            r@ == self@,
        decreases self,
    {
        match self {
            JsonValue::Null => JsonValue::Null,
            JsonValue::Bool(b) => JsonValue::Bool(*b),
            JsonValue::Int(i) => JsonValue::Int(*i),
            JsonValue::Str(s) => JsonValue::Str(s.clone()),
            JsonValue::Arr(items) => {
                let mut out: Vec<JsonValue> = Vec::new();
                let mut i: usize = 0;
                while i < items.len()
                    invariant
                        i <= items@.len(),
                        out@.len() == i as int,
                        forall|j: int| 0 <= j < i ==> out@[j]@ == items@[j]@,
                    decreases items@.len() - i,
                {
                    proof {
                        assert(decreases_to!(*self => (*self)->Arr_0));
                        assert((*self)->Arr_0 == *items);
                        assert(decreases_to!(*items => items@));
                        assert(decreases_to!(items@ => items@[i as int]));
                    }
                    out.push(items[i].deep_copy());
                    i += 1;
                }
                proof {
                    lemma_arr_view(out@);
                    lemma_arr_view(items@);
                    assert(arr_view(out@) =~= arr_view(items@));
                }
                JsonValue::Arr(out)
            },
            JsonValue::Obj(entries) => {
                let mut out: Vec<(String, JsonValue)> = Vec::new();
                let mut i: usize = 0;
                while i < entries.len()
                    invariant
                        i <= entries@.len(),
                        out@.len() == i as int,
                        forall|j: int|
                            0 <= j < i ==> out@[j].0@ == entries@[j].0@ && out@[j].1@
                                == entries@[j].1@,
                    decreases entries@.len() - i,
                {
                    proof {
                        assert(decreases_to!(*self => (*self)->Obj_0));
                        assert((*self)->Obj_0 == *entries);
                        assert(decreases_to!(*entries => entries@));
                        assert(decreases_to!(entries@ => entries@[i as int]));
                        assert(decreases_to!(entries@[i as int] => entries@[i as int].1));
                    }
                    let e = &entries[i];
                    out.push((e.0.clone(), e.1.deep_copy()));
                    i += 1;
                }
                proof {
                    lemma_obj_view(out@);
                    lemma_obj_view(entries@);
                    assert(obj_view(out@) =~= obj_view(entries@));
                }
                JsonValue::Obj(out)
            },
        }
    }
}

/// Merge of `b` over `a`, as the payload storage applies partial documents.
#[verifier::loop_isolation(false)]
pub fn merge_json(a: JsonValue, b: &JsonValue) -> (r: JsonValue)
    ensures
        r@ == merge(a@, b@),
    decreases b,
{
    match b {
        JsonValue::Obj(be) => {
            match a {
                JsonValue::Obj(ae) => {
                    let mut acc = ae;
                    let ghost orig: Seq<(Seq<char>, SpecJson)> = obj_view(acc@);
                    let ghost bv: Seq<(Seq<char>, SpecJson)> = obj_view(be@);
                    proof {
                        lemma_obj_view(be@);
                        assert(bv.skip(0) =~= bv);
                    }
                    let mut i: usize = 0;
                    while i < be.len()
                        invariant
                            i <= be@.len(),
                            merge_entries(orig, bv) == merge_entries(
                                obj_view(acc@),
                                bv.skip(i as int),
                            ),
                        decreases be@.len() - i,
                    {
                        let ghost prior: Seq<(String, JsonValue)> = acc@;
                        let e = &be[i];
                        proof {
                            lemma_obj_view(prior);
                            assert(bv.skip(i as int)[0] == bv[i as int]);
                            assert(bv.skip(i as int).drop_first() =~= bv.skip(i as int + 1));
                        }
                        match find_key(&acc, &e.0) {
                            Some(p) => {
                                let (k0, prev) = acc.remove(p);
                                proof {
                                    assert(decreases_to!(*b => (*b)->Obj_0));
                                    assert((*b)->Obj_0 == *be);
                                    assert(decreases_to!(*be => be@));
                                    assert(decreases_to!(be@ => be@[i as int]));
                                    assert(decreases_to!(be@[i as int] => be@[i as int].1));
                                }
                                let merged = merge_json(prev, &e.1);
                                acc.insert(p, (k0, merged));
                                proof {
                                    assert(acc@ =~= prior.update(p as int, acc@[p as int]));
                                    lemma_obj_view(acc@);
                                    lemma_obj_get_at(obj_view(prior), e.0@, p as int);
                                    lemma_obj_put_at(
                                        obj_view(prior),
                                        e.0@,
                                        merged@,
                                        p as int,
                                    );
                                    assert(obj_view(acc@) =~= obj_view(prior).update(
                                        p as int,
                                        (e.0@, merged@),
                                    ));
                                }
                            },
                            None => {
                                acc.push((e.0.clone(), e.1.deep_copy()));
                                proof {
                                    lemma_obj_view(acc@);
                                    lemma_obj_get_absent(obj_view(prior), e.0@);
                                    lemma_obj_put_absent(obj_view(prior), e.0@, bv[i as int].1);
                                    assert(obj_view(acc@) =~= obj_view(prior).push(
                                        (e.0@, bv[i as int].1),
                                    ));
                                }
                            },
                        }
                        i += 1;
                    }
                    proof {
                        assert(bv.skip(be@.len() as int) =~= Seq::empty());
                    }
                    JsonValue::Obj(acc)
                },
                _ => b.deep_copy(),
            }
        },
        _ => b.deep_copy(),
    }
}

/// A path into nested payload objects: at least one key, then further keys.
#[derive(Debug, PartialEq)]
pub struct JsonPath {
    pub first: String,
    pub rest: Vec<String>,
}

impl JsonPath {
    /// The keys of the path, outermost first.
    pub open spec fn keys(self) -> Seq<Seq<char>> {
        seq![self.first@] + keys_view(self.rest@)
    }

    /// The keys as one vector.
    fn key_vec(&self) -> (r: Vec<String>)
        ensures
            keys_view(r@) == self.keys(),
            r@.len() >= 1,
    {
        let mut out: Vec<String> = Vec::new();
        out.push(self.first.clone());
        let mut i: usize = 0;
        while i < self.rest.len()
            invariant
                i <= self.rest@.len(),
                out@.len() == i + 1,
                out@[0]@ == self.first@,
                forall|j: int| 0 <= j < i ==> out@[j + 1]@ == self.rest@[j]@,
            decreases self.rest@.len() - i,
        {
            out.push(self.rest[i].clone());
            i += 1;
        }
        proof {
            assert(keys_view(out@) =~= self.keys());
        }
        out
    }
}

impl JsonValue {
    /// The value under `path`, descending through nested objects.
    #[verifier::loop_isolation(false)]
    pub fn get_path(&self, path: &JsonPath) -> (r: Option<&JsonValue>)
        ensures
            match r {
                Some(v) => get_at_path(self@, path.keys()) == Some(v@),
                None => get_at_path(self@, path.keys()) is None,
            },
    {
        let ks = path.key_vec();
        let ghost kv: Seq<Seq<char>> = keys_view(ks@);
        let mut cur: &JsonValue = self;
        let mut i: usize = 0;
        proof {
            assert(kv.skip(0) =~= kv);
        }
        while i < ks.len()
            invariant
                i <= ks@.len(),
                get_at_path(self@, kv) == get_at_path(cur@, kv.skip(i as int)),
            decreases ks@.len() - i,
        {
            proof {
                assert(kv.skip(i as int)[0] == kv[i as int]);
                assert(kv.skip(i as int).drop_first() =~= kv.skip(i as int + 1));
            }
            match cur {
                JsonValue::Obj(es) => {
                    proof {
                        lemma_obj_view(es@);
                    }
                    match find_key(es, &ks[i]) {
                        Some(p) => {
                            proof {
                                lemma_obj_get_at(obj_view(es@), kv[i as int], p as int);
                            }
                            cur = &es[p].1;
                        },
                        None => {
                            proof {
                                lemma_obj_get_absent(obj_view(es@), kv[i as int]);
                            }
                            return None;
                        },
                    }
                },
                _ => {
                    return None;
                },
            }
            i += 1;
        }
        proof {
            assert(kv.skip(ks@.len() as int) =~= Seq::<Seq<char>>::empty());
        }
        Some(cur)
    }
}

/// Merge of `p` into `doc` at `path`, as `set_by_key` applies it.
pub fn set_path(doc: JsonValue, path: &JsonPath, p: &JsonValue) -> (r: JsonValue)
    ensures
        r@ == merge_at_path(doc@, path.keys(), p@),
{
    let ks = path.key_vec();
    proof {
        assert(keys_view(ks@).skip(0) =~= keys_view(ks@));
    }
    merge_at_rec(doc, &ks, 0, p)
}

#[verifier::rlimit(50)]
fn merge_at_rec(doc: JsonValue, ks: &Vec<String>, idx: usize, p: &JsonValue) -> (r: JsonValue)
    requires
        idx < ks@.len(),
    ensures
        r@ == merge_at_path(doc@, keys_view(ks@).skip(idx as int), p@),
    decreases ks@.len() - idx,
{
    let ghost kv: Seq<Seq<char>> = keys_view(ks@);
    proof {
        assert(kv.skip(idx as int)[0] == kv[idx as int]);
        assert(kv.skip(idx as int).drop_first() =~= kv.skip(idx as int + 1));
    }
    let last = idx == ks.len() - 1;
    proof {
        if last {
            assert(kv.skip(idx as int + 1) =~= Seq::<Seq<char>>::empty());
        }
    }
    match doc {
        JsonValue::Obj(mut es) => {
            let ghost prior: Seq<(String, JsonValue)> = es@;
            proof {
                lemma_obj_view(prior);
                assert(doc@ == SpecJson::Obj(obj_view(prior)));
            }
            match find_key(&es, &ks[idx]) {
                Some(pos) => {
                    let (k0, child) = es.remove(pos);
                    let nc = if last {
                        merge_json(child, p)
                    } else {
                        merge_at_rec(child, ks, idx + 1, p)
                    };
                    let ghost pairv = (k0, nc);
                    let ghost mid = es@;
                    es.insert(pos, (k0, nc));
                    proof {
                        mid.insert_ensures(pos as int, pairv);
                        assert(es@[pos as int] == pairv);
                        assert(es@ =~= prior.update(pos as int, es@[pos as int]));
                        lemma_obj_view(es@);
                        lemma_obj_get_at(obj_view(prior), kv[idx as int], pos as int);
                        lemma_obj_put_at(
                            obj_view(prior),
                            kv[idx as int],
                            es@[pos as int].1@,
                            pos as int,
                        );
                        assert(obj_view(es@) =~= obj_view(prior).update(
                            pos as int,
                            (kv[idx as int], es@[pos as int].1@),
                        ));
                    }
                    let r = JsonValue::Obj(es);
                    proof {
                        let pathx = kv.skip(idx as int);
                        let spec_child = match obj_get(obj_view(prior), kv[idx as int]) {
                            Some(v) => v,
                            None => SpecJson::Null,
                        };
                        assert(pathx.len() > 0);
                        assert(merge_at_path(doc@, pathx, p@) == SpecJson::Obj(obj_put(
                            obj_view(prior),
                            pathx[0],
                            merge_at_path(spec_child, pathx.drop_first(), p@),
                        )));
                        if last {
                            assert(merge_at_path(spec_child, pathx.drop_first(), p@) == merge(
                                spec_child,
                                p@,
                            ));
                        }
                        assert(es@[pos as int].1@ == merge_at_path(
                            spec_child,
                            pathx.drop_first(),
                            p@,
                        ));
                        assert(r@ == merge_at_path(doc@, kv.skip(idx as int), p@));
                    }
                    r
                },
                None => {
                    let nc = if last {
                        merge_json(JsonValue::Null, p)
                    } else {
                        merge_at_rec(JsonValue::Null, ks, idx + 1, p)
                    };
                    es.push((ks[idx].clone(), nc));
                    proof {
                        lemma_obj_view(es@);
                        lemma_obj_get_absent(obj_view(prior), kv[idx as int]);
                        lemma_obj_put_absent(obj_view(prior), kv[idx as int], es@.last().1@);
                        assert(obj_view(es@) =~= obj_view(prior).push(
                            (kv[idx as int], es@.last().1@),
                        ));
                    }
                    let r = JsonValue::Obj(es);
                    proof {
                        let pathx = kv.skip(idx as int);
                        assert(merge_at_path(doc@, pathx, p@) == SpecJson::Obj(obj_put(
                            obj_view(prior),
                            pathx[0],
                            merge_at_path(SpecJson::Null, pathx.drop_first(), p@),
                        )));
                        if last {
                            assert(merge_at_path(SpecJson::Null, pathx.drop_first(), p@) == merge(
                                SpecJson::Null,
                                p@,
                            ));
                        }
                        assert(es@.last().1@ == merge_at_path(
                            SpecJson::Null,
                            pathx.drop_first(),
                            p@,
                        ));
                        assert(r@ == merge_at_path(doc@, kv.skip(idx as int), p@));
                    }
                    r
                },
            }
        },
        _ => {
            let nc = if last {
                merge_json(JsonValue::Null, p)
            } else {
                merge_at_rec(JsonValue::Null, ks, idx + 1, p)
            };
            let mut out: Vec<(String, JsonValue)> = Vec::new();
            out.push((ks[idx].clone(), nc));
            proof {
                lemma_obj_view(out@);
                assert(obj_view(out@) =~= seq![(kv[idx as int], out@[0].1@)]);
            }
            let r = JsonValue::Obj(out);
            proof {
                match doc {
                    JsonValue::Null => assert(doc@ == SpecJson::Null),
                    JsonValue::Bool(b) => assert(doc@ == SpecJson::Bool(b)),
                    JsonValue::Int(i) => assert(doc@ == SpecJson::Int(i as int)),
                    JsonValue::Str(s) => assert(doc@ == SpecJson::Str(s@)),
                    JsonValue::Arr(items) => assert(doc@ == SpecJson::Arr(arr_view(items@))),
                    JsonValue::Obj(_) => assert(false),
                }
                assert(!(doc@ is Obj));
                if last {
                    assert(merge_at_path(
                        SpecJson::Null,
                        kv.skip(idx as int).drop_first(),
                        p@,
                    ) == merge(SpecJson::Null, p@));
                }
                assert(out@[0].1@ == merge_at_path(
                    SpecJson::Null,
                    kv.skip(idx as int).drop_first(),
                    p@,
                ));
                assert(r@ == merge_at_path(doc@, kv.skip(idx as int), p@));
            }
            r
        },
    }
}

/// Removal of the value at `path`: the document without it and the value
/// removed, as `delete` applies it.
pub fn remove_path(doc: JsonValue, path: &JsonPath) -> (r: (JsonValue, Option<JsonValue>))
    ensures
        r.0@ == remove_at_path(doc@, path.keys()).0,
        match r.1 {
            Some(v) => remove_at_path(doc@, path.keys()).1 == Some(v@),
            None => remove_at_path(doc@, path.keys()).1 is None,
        },
{
    let ks = path.key_vec();
    proof {
        assert(keys_view(ks@).skip(0) =~= keys_view(ks@));
    }
    remove_at_rec(doc, &ks, 0)
}

#[verifier::loop_isolation(false)]
fn remove_at_rec(doc: JsonValue, ks: &Vec<String>, idx: usize) -> (r: (
    JsonValue,
    Option<JsonValue>,
))
    requires
        idx < ks@.len(),
    ensures
        r.0@ == remove_at_path(doc@, keys_view(ks@).skip(idx as int)).0,
        match r.1 {
            Some(v) => remove_at_path(doc@, keys_view(ks@).skip(idx as int)).1 == Some(v@),
            None => remove_at_path(doc@, keys_view(ks@).skip(idx as int)).1 is None,
        },
    decreases ks@.len() - idx,
{
    let ghost kv: Seq<Seq<char>> = keys_view(ks@);
    proof {
        assert(kv.skip(idx as int)[0] == kv[idx as int]);
        assert(kv.skip(idx as int).drop_first() =~= kv.skip(idx as int + 1));
    }
    let last = idx == ks.len() - 1;
    match doc {
        JsonValue::Obj(mut es) => {
            let ghost prior: Seq<(String, JsonValue)> = es@;
            proof {
                lemma_obj_view(prior);
                assert(doc@ == SpecJson::Obj(obj_view(prior)));
            }
            match find_key(&es, &ks[idx]) {
                Some(pos) => {
                    proof {
                        lemma_obj_get_at(obj_view(prior), kv[idx as int], pos as int);
                    }
                    if last {
                        let ghost ov: Seq<(Seq<char>, SpecJson)> = obj_view(prior);
                        let mut out: Vec<(String, JsonValue)> = Vec::new();
                        let mut removed: Option<JsonValue> = None;
                        let mut i: usize = 0;
                        proof {
                            assert(ov.skip(0) =~= ov);
                            assert(obj_view(out@) =~= Seq::<(Seq<char>, SpecJson)>::empty());
                        }
                        while i < es.len()
                            invariant
                                i <= es@.len(),
                                es@ == prior,
                                obj_view(out@) + obj_remove_all(ov.skip(i as int), kv[idx as int])
                                    == obj_remove_all(ov, kv[idx as int]),
                                match removed {
                                    Some(v) => obj_get(ov, kv[idx as int]) == Some(v@),
                                    None => obj_get(ov, kv[idx as int]) == obj_get(
                                        ov.skip(i as int),
                                        kv[idx as int],
                                    ),
                                },
                            decreases es@.len() - i,
                        {
                            let ghost kept: Seq<(String, JsonValue)> = out@;
                            proof {
                                assert(ov.skip(i as int)[0] == ov[i as int]);
                                assert(ov.skip(i as int).drop_first() =~= ov.skip(i as int + 1));
                            }
                            let e = &es[i];
                            if e.0 == ks[idx] {
                                if removed.is_none() {
                                    removed = Some(e.1.deep_copy());
                                }
                            } else {
                                out.push((e.0.clone(), e.1.deep_copy()));
                                proof {
                                    lemma_obj_view(out@);
                                    lemma_obj_view(kept);
                                    assert(obj_view(out@) =~= obj_view(kept).push(ov[i as int]));
                                    assert(obj_view(kept).push(ov[i as int]) + obj_remove_all(
                                        ov.skip(i as int + 1),
                                        kv[idx as int],
                                    ) =~= obj_view(kept) + (seq![ov[i as int]] + obj_remove_all(
                                        ov.skip(i as int + 1),
                                        kv[idx as int],
                                    )));
                                }
                            }
                            i += 1;
                        }
                        proof {
                            assert(ov.skip(es@.len() as int) =~= Seq::<(
                                Seq<char>,
                                SpecJson,
                            )>::empty());
                            assert(obj_view(out@) + Seq::<(Seq<char>, SpecJson)>::empty()
                                =~= obj_view(out@));
                        }
                        (JsonValue::Obj(out), removed)
                    } else {
                        let (k0, child) = es.remove(pos);
                        let (c2, removed) = remove_at_rec(child, ks, idx + 1);
                        es.insert(pos, (k0, c2));
                        proof {
                            assert(es@ =~= prior.update(pos as int, es@[pos as int]));
                            lemma_obj_view(es@);
                            lemma_obj_put_at(
                                obj_view(prior),
                                kv[idx as int],
                                es@[pos as int].1@,
                                pos as int,
                            );
                            assert(obj_view(es@) =~= obj_view(prior).update(
                                pos as int,
                                (kv[idx as int], es@[pos as int].1@),
                            ));
                        }
                        (JsonValue::Obj(es), removed)
                    }
                },
                None => {
                    proof {
                        lemma_obj_get_absent(obj_view(prior), kv[idx as int]);
                    }
                    (JsonValue::Obj(es), None)
                },
            }
        },
        other => (other, None),
    }
}

/// The value, or null where there is none: the base a path merge starts from.
pub open spec fn value_or_null(v: Option<SpecJson>) -> SpecJson {
    match v {
        Some(x) => x,
        None => SpecJson::Null,
    }
}

/// Law: merging a partial document at a path and then reading that path
/// yields the merge of what stood there — or null — with the partial
/// document.
pub proof fn lemma_merge_then_get_at_path(doc: SpecJson, path: Seq<Seq<char>>, p: SpecJson)
    ensures
        get_at_path(merge_at_path(doc, path, p), path) == Some(
            merge(value_or_null(get_at_path(doc, path)), p),
        ),
    decreases path.len(),
{
    if path.len() > 0 {
        let k = path[0];
        let child = match doc {
            SpecJson::Obj(es) => match obj_get(es, k) {
                Some(v) => v,
                None => SpecJson::Null,
            },
            _ => SpecJson::Null,
        };
        let nc = merge_at_path(child, path.drop_first(), p);
        lemma_merge_then_get_at_path(child, path.drop_first(), p);
        match doc {
            SpecJson::Obj(es) => {
                lemma_obj_get_put_same(es, k, nc);
            },
            _ => {
                assert(obj_get(seq![(k, nc)], k) == Some(nc));
            },
        }
    }
}

/// Law: removing at a path returns exactly what reading that path returned,
/// and reading the path after the removal finds nothing.
pub proof fn lemma_remove_then_get_at_path(doc: SpecJson, path: Seq<Seq<char>>)
    requires
        path.len() > 0,
    ensures
        remove_at_path(doc, path).1 == get_at_path(doc, path),
        get_at_path(remove_at_path(doc, path).0, path) is None,
    decreases path.len(),
{
    let k = path[0];
    match doc {
        SpecJson::Obj(es) => {
            match obj_get(es, k) {
                Some(child) => {
                    if path.len() == 1 {
                        assert(path.drop_first().len() == 0);
                        assert(get_at_path(child, path.drop_first()) == Some(child));
                        assert(get_at_path(doc, path) == Some(child));
                        lemma_obj_get_remove_all(es, k);
                        assert(get_at_path(remove_at_path(doc, path).0, path) is None);
                    } else {
                        lemma_remove_then_get_at_path(child, path.drop_first());
                        lemma_obj_get_put_same(
                            es,
                            k,
                            remove_at_path(child, path.drop_first()).0,
                        );
                    }
                },
                None => {},
            }
        },
        _ => {},
    }
}

} // verus!
