//! The template dictionary: a tree of string-keyed entries whose leaves are
//! terminal scalars, built by single-key insertion or whole-subtree merge and
//! read as the variable context of the template renderer.

use vstd::prelude::*;

verus! {

/// A structured template value: either a terminal scalar or a nested
/// dictionary. Nested dictionaries keep their entries in insertion order
/// with pairwise-distinct keys.
#[derive(Debug, PartialEq, Eq)]
pub enum DictValue {
    Null,
    Bool(bool),
    Int(i64),
    Str(String),
    Obj(Vec<(String, DictValue)>),
}

/// Mathematical model of a `DictValue`: strings become character sequences and
/// machine integers become mathematical integers.
pub enum ValueModel {
    Null,
    Bool(bool),
    Int(int),
    Str(Seq<char>),
    Obj(Seq<(Seq<char>, ValueModel)>),
}

impl DictValue {
    /// The model of this value.
    pub open spec fn model(self) -> ValueModel
        decreases self,
    {
        match self {
            DictValue::Null => ValueModel::Null,
            DictValue::Bool(b) => ValueModel::Bool(b),
            DictValue::Int(i) => ValueModel::Int(i as int),
            DictValue::Str(s) => ValueModel::Str(s@),
            DictValue::Obj(es) => ValueModel::Obj(DictValue::entries_model(es@)),
        }
    }

    /// The model of a sequence of entries, in order.
    pub open spec fn entries_model(es: Seq<(String, DictValue)>) -> Seq<(Seq<char>, ValueModel)>
        decreases es,
    {
        if es.len() == 0 {
            Seq::empty()
        } else {
            DictValue::entries_model(es.drop_last()).push((es.last().0@, es.last().1.model()))
        }
    }
}

impl View for DictValue {
    type V = ValueModel;

    open spec fn view(&self) -> ValueModel {
        self.model()
    }
}

/// The value bound to `k`, if `k` is among the keys of `es`.
pub open spec fn lookup(es: Seq<(Seq<char>, ValueModel)>, k: Seq<char>) -> Option<ValueModel>
    decreases es,
{
    if es.len() == 0 {
        None
    } else if es[0].0 == k {
        Some(es[0].1)
    } else {
        lookup(es.drop_first(), k)
    }
}

/// Whether `k` is among the keys of `es`.
pub open spec fn has_key(es: Seq<(Seq<char>, ValueModel)>, k: Seq<char>) -> bool {
    lookup(es, k) is Some
}

/// `es` with the value at the first entry whose key is `k` replaced by `nv`;
/// all other entries and the order are kept.
pub open spec fn update_entry(
    es: Seq<(Seq<char>, ValueModel)>,
    k: Seq<char>,
    nv: ValueModel,
) -> Seq<(Seq<char>, ValueModel)>
    decreases es,
{
    if es.len() == 0 {
        es
    } else if es[0].0 == k {
        seq![(k, nv)] + es.drop_first()
    } else {
        seq![es[0]] + update_entry(es.drop_first(), k, nv)
    }
}

/// The merge of `b` into `a`: when both sides are nested dictionaries the
/// entries merge key by key, otherwise the right side replaces the left.
pub open spec fn merge_model(a: ValueModel, b: ValueModel) -> ValueModel
    decreases b, 0nat,
{
    match (a, b) {
        (ValueModel::Obj(xs), ValueModel::Obj(ys)) => ValueModel::Obj(merge_entries(xs, ys)),
        _ => b,
    }
}

/// Fold the entries of `ys` into `xs`, left to right: a fresh key is
/// appended, a shared key's value is merged recursively.
pub open spec fn merge_entries(
    xs: Seq<(Seq<char>, ValueModel)>,
    ys: Seq<(Seq<char>, ValueModel)>,
) -> Seq<(Seq<char>, ValueModel)>
    decreases ys, 1nat,
{
    if ys.len() == 0 {
        xs
    } else {
        let k = ys[0].0;
        let v = ys[0].1;
        let xs2 = match lookup(xs, k) {
            Some(ov) => update_entry(xs, k, merge_model(ov, v)),
            None => xs.push((k, v)),
        };
        merge_entries(xs2, ys.subrange(1, ys.len() as int))
    }
}

/// The model of a sequence of entries is the sequence of entry models.
pub proof fn lemma_entries_model(es: Seq<(String, DictValue)>)
    ensures
        DictValue::entries_model(es).len() == es.len(),
        forall|i: int|
            0 <= i < es.len() ==> DictValue::entries_model(es)[i] == (es[i].0@, es[i].1.model()),
    decreases es.len(),
{
    if es.len() > 0 {
        lemma_entries_model(es.drop_last());
        assert(forall|i: int| 0 <= i < es.len() - 1 ==> es.drop_last()[i] == es[i]);
    }
}

/// A lookup resolves to the first entry whose key matches.
pub proof fn lemma_lookup_at(m: Seq<(Seq<char>, ValueModel)>, k: Seq<char>, i: int)
    requires
        0 <= i < m.len(),
        m[i].0 == k,
        forall|j: int| 0 <= j < i ==> m[j].0 != k,
    ensures
        lookup(m, k) == Some(m[i].1),
    decreases i,
{
    if i > 0 {
        lemma_lookup_at(m.drop_first(), k, i - 1);
    }
}

/// A lookup of a key that no entry carries resolves to nothing.
pub proof fn lemma_lookup_none(m: Seq<(Seq<char>, ValueModel)>, k: Seq<char>)
    requires
        forall|j: int| 0 <= j < m.len() ==> m[j].0 != k,
    ensures
        lookup(m, k) is None,
    decreases m.len(),
{
    if m.len() > 0 {
        lemma_lookup_none(m.drop_first(), k);
    }
}

/// Replacing the value at the first matching index is a point update.
pub proof fn lemma_update_at(
    m: Seq<(Seq<char>, ValueModel)>,
    k: Seq<char>,
    nv: ValueModel,
    i: int,
)
    requires
        0 <= i < m.len(),
        m[i].0 == k,
        forall|j: int| 0 <= j < i ==> m[j].0 != k,
    ensures
        update_entry(m, k, nv) =~= m.update(i, (k, nv)),
    decreases i,
{
    if i == 0 {
        assert(update_entry(m, k, nv) =~= m.update(0, (k, nv)));
    } else {
        lemma_update_at(m.drop_first(), k, nv, i - 1);
        assert(update_entry(m, k, nv) =~= m.update(i, (k, nv)));
    }
}

impl DictValue {
    /// A structurally identical copy of this value.
    pub fn deep_copy(&self) -> (r: DictValue)
        ensures
            r@ == self@,
        decreases *self,
    {
        match self {
            DictValue::Null => DictValue::Null,
            DictValue::Bool(b) => DictValue::Bool(*b),
            DictValue::Int(i) => DictValue::Int(*i),
            DictValue::Str(s) => DictValue::Str(s.clone()),
            DictValue::Obj(es) => DictValue::Obj(copy_entries(es)),
        }
    }
}

/// A structurally identical copy of an entry vector.
fn copy_entries(es: &Vec<(String, DictValue)>) -> (r: Vec<(String, DictValue)>)
    ensures
        r@.len() == es@.len(),
        forall|i: int|
            0 <= i < es@.len() ==> r@[i].0@ == es@[i].0@ && r@[i].1.model() == es@[i].1.model(),
        DictValue::entries_model(r@) == DictValue::entries_model(es@),
    decreases es@,
{
    let mut r: Vec<(String, DictValue)> = Vec::new();
    let mut i: usize = 0;
    while i < es.len()
        invariant
            i <= es@.len(),
            r@.len() == i,
            forall|j: int|
                0 <= j < i ==> r@[j].0@ == es@[j].0@ && r@[j].1.model() == es@[j].1.model(),
        decreases es@.len() - i,
    {
        let key = es[i].0.clone();
        let val = es[i].1.deep_copy();
        r.push((key, val));
        i += 1;
    }
    proof {
        lemma_entries_model(r@);
        lemma_entries_model(es@);
        assert(DictValue::entries_model(r@) =~= DictValue::entries_model(es@));
    }
    r
}

/// The index of the first entry whose key equals `k`, if any.
fn find_key(es: &Vec<(String, DictValue)>, k: &String) -> (r: Option<usize>)
    ensures
        match r {
            Some(i) => i < es@.len() && es@[i as int].0@ == k@ && forall|j: int|
                0 <= j < i ==> es@[j].0@ != k@,
            None => forall|j: int| 0 <= j < es@.len() ==> es@[j].0@ != k@,
        },
{
    let mut i: usize = 0;
    while i < es.len()
        invariant
            i <= es@.len(),
            forall|j: int| 0 <= j < i ==> es@[j].0@ != k@,
        decreases es@.len() - i,
    {
        if es[i].0 == *k {
            return Some(i);
        }
        i += 1;
    }
    None
}

/// The merge of `b` into `a`, as a fresh value: nested dictionaries merge
/// key by key, anything else is replaced by `b`.
pub fn merge_val(a: &DictValue, b: &DictValue) -> (r: DictValue)
    ensures
        r@ == merge_model(a@, b@),
    decreases *b,
{
    match b {
        DictValue::Obj(ys) => match a {
            DictValue::Obj(xs) => {
            let mut acc = copy_entries(xs);
            let ghost mxs = DictValue::entries_model(xs@);
            let ghost mys = DictValue::entries_model(ys@);
            proof {
                lemma_entries_model(ys@);
                assert(mys.skip(0) =~= mys);
            }
            let mut j: usize = 0;
            while j < ys.len()
                invariant
                    j <= ys@.len(),
                    *b == DictValue::Obj(*ys),
                    mys == DictValue::entries_model(ys@),
                    mys.len() == ys@.len(),
                    forall|t: int| 0 <= t < ys@.len() ==> mys[t] == (ys@[t].0@, ys@[t].1.model()),
                    merge_entries(mxs, mys) == merge_entries(
                        DictValue::entries_model(acc@),
                        mys.skip(j as int),
                    ),
                decreases ys@.len() - j,
            {
                let ghost accm = DictValue::entries_model(acc@);
                proof {
                    lemma_entries_model(acc@);
                }
                let key = ys[j].0.clone();
                match find_key(&acc, &key) {
                    Some(i) => {
                        proof {
                            assert(decreases_to!(*b => (*b)->Obj_0));
                            assert((*b)->Obj_0 == *ys);
                            assert(decreases_to!(*ys => ys@));
                            assert(decreases_to!(ys@ => ys@[j as int]));
                            assert(decreases_to!(ys@[j as int] => ys@[j as int].1));
                        }
                        let nv = merge_val(&acc[i].1, &ys[j].1);
                        proof {
                            lemma_lookup_at(accm, key@, i as int);
                            lemma_update_at(accm, key@, nv@, i as int);
                        }
                        acc.set(i, (key, nv));
                        proof {
                            lemma_entries_model(acc@);
                            assert(DictValue::entries_model(acc@) =~= accm.update(
                                i as int,
                                (ys@[j as int].0@, nv.model()),
                            ));
                        }
                    },
                    None => {
                        let nv = ys[j].1.deep_copy();
                        proof {
                            lemma_lookup_none(accm, key@);
                        }
                        acc.push((key, nv));
                        proof {
                            lemma_entries_model(acc@);
                            assert(DictValue::entries_model(acc@) =~= accm.push(
                                (ys@[j as int].0@, nv.model()),
                            ));
                        }
                    },
                }
                proof {
                    assert(mys.skip(j as int)[0] == mys[j as int]);
                    assert(mys.skip(j as int).subrange(1, mys.skip(j as int).len() as int) =~= mys.skip(
                        j as int + 1,
                    ));
                }
                j += 1;
            }
            proof {
                assert(mys.skip(ys@.len() as int) =~= Seq::<(Seq<char>, ValueModel)>::empty());
            }
            DictValue::Obj(acc)
            },
            _ => b.deep_copy(),
        },
        _ => b.deep_copy(),
    }
}

} // verus!

verus! {

/// Pairwise-distinct keys in an entry sequence.
pub open spec fn keys_distinct(es: Seq<(Seq<char>, ValueModel)>) -> bool {
    forall|i: int, j: int| 0 <= i < j < es.len() ==> es[i].0 != es[j].0
}

/// Well-formed model: every nested dictionary has pairwise-distinct keys.
pub open spec fn wf_model(m: ValueModel) -> bool
    decreases m, 0nat,
{
    match m {
        ValueModel::Obj(es) => entries_wf(es),
        _ => true,
    }
}

/// Well-formed entries: pairwise-distinct keys, recursively well-formed
/// values.
pub open spec fn entries_wf(es: Seq<(Seq<char>, ValueModel)>) -> bool
    decreases es, 1nat,
{
    keys_distinct(es) && forall|i: int| 0 <= i < es.len() ==> wf_model(#[trigger] es[i].1)
}

/// The value reached by following `path` key by key from `m`.
pub open spec fn get_path(m: ValueModel, path: Seq<Seq<char>>) -> Option<ValueModel>
    decreases path.len(),
{
    if path.len() == 0 {
        Some(m)
    } else {
        match m {
            ValueModel::Obj(es) => match lookup(es, path[0]) {
                Some(v) => get_path(v, path.drop_first()),
                None => None,
            },
            _ => None,
        }
    }
}

/// A point update changes the looked-up key and nothing else.
pub proof fn lemma_lookup_update(
    m: Seq<(Seq<char>, ValueModel)>,
    k: Seq<char>,
    nv: ValueModel,
    k2: Seq<char>,
)
    ensures
        lookup(update_entry(m, k, nv), k2) == if k2 == k && has_key(m, k) {
            Some(nv)
        } else {
            lookup(m, k2)
        },
    decreases m.len(),
{
    if m.len() > 0 {
        if m[0].0 == k {
            assert((seq![(k, nv)] + m.drop_first()).drop_first() =~= m.drop_first());
        } else {
            lemma_lookup_update(m.drop_first(), k, nv, k2);
            assert((seq![m[0]] + update_entry(m.drop_first(), k, nv)).drop_first()
                =~= update_entry(m.drop_first(), k, nv));
        }
    }
}

/// Appending an entry leaves earlier bindings in place and binds a fresh key.
pub proof fn lemma_lookup_push(
    m: Seq<(Seq<char>, ValueModel)>,
    e: (Seq<char>, ValueModel),
    k2: Seq<char>,
)
    ensures
        lookup(m.push(e), k2) == if has_key(m, k2) {
            lookup(m, k2)
        } else if e.0 == k2 {
            Some(e.1)
        } else {
            None::<ValueModel>
        },
    decreases m.len(),
{
    if m.len() == 0 {
        reveal_with_fuel(lookup, 2);
        assert(m.push(e)[0] == e);
        assert(m.push(e).drop_first() =~= Seq::<(Seq<char>, ValueModel)>::empty());
        assert(lookup(Seq::<(Seq<char>, ValueModel)>::empty(), k2) is None);
    } else {
        lemma_lookup_push(m.drop_first(), e, k2);
        assert(m.push(e)[0] == m[0]);
        assert(m.push(e).drop_first() =~= m.drop_first().push(e));
        assert(m.push(e).len() == m.len() + 1);
    }
}

/// A looked-up binding names some entry of the sequence.
pub proof fn lemma_lookup_some_index(m: Seq<(Seq<char>, ValueModel)>, k: Seq<char>)
    requires
        lookup(m, k) is Some,
    ensures
        exists|i: int| 0 <= i < m.len() && m[i].0 == k && m[i].1 == lookup(m, k)->Some_0,
    decreases m.len(),
{
    if m.len() > 0 && m[0].0 != k {
        lemma_lookup_some_index(m.drop_first(), k);
        let i = choose|i: int|
            0 <= i < m.drop_first().len() && m.drop_first()[i].0 == k && m.drop_first()[i].1
                == lookup(m.drop_first(), k)->Some_0;
        assert(m[i + 1].0 == k && m[i + 1].1 == lookup(m, k)->Some_0);
    }
}

/// Merging entries that never bind `k` leaves the binding of `k` unchanged.
pub proof fn lemma_merge_absent(
    xs: Seq<(Seq<char>, ValueModel)>,
    ys: Seq<(Seq<char>, ValueModel)>,
    k: Seq<char>,
)
    requires
        !has_key(ys, k),
    ensures
        lookup(merge_entries(xs, ys), k) == lookup(xs, k),
    decreases ys.len(),
{
    if ys.len() > 0 {
        let rest = ys.subrange(1, ys.len() as int);
        assert(rest =~= ys.drop_first());
        let xs2 = match lookup(xs, ys[0].0) {
            Some(ov) => update_entry(xs, ys[0].0, merge_model(ov, ys[0].1)),
            None => xs.push((ys[0].0, ys[0].1)),
        };
        match lookup(xs, ys[0].0) {
            Some(ov) => lemma_lookup_update(xs, ys[0].0, merge_model(ov, ys[0].1), k),
            None => lemma_lookup_push(xs, (ys[0].0, ys[0].1), k),
        }
        lemma_merge_absent(xs2, rest, k);
    }
}

/// The binding of a merged key: the right side's value, merged recursively
/// with the left side's value when the left side also binds the key.
pub proof fn lemma_merge_present(
    xs: Seq<(Seq<char>, ValueModel)>,
    ys: Seq<(Seq<char>, ValueModel)>,
    k: Seq<char>,
)
    requires
        keys_distinct(ys),
        has_key(ys, k),
    ensures
        lookup(merge_entries(xs, ys), k) == Some(
            match lookup(xs, k) {
                Some(xv) => merge_model(xv, lookup(ys, k)->Some_0),
                None => lookup(ys, k)->Some_0,
            },
        ),
    decreases ys.len(),
{
    let rest = ys.subrange(1, ys.len() as int);
    assert(rest =~= ys.drop_first());
    let xs2 = match lookup(xs, ys[0].0) {
        Some(ov) => update_entry(xs, ys[0].0, merge_model(ov, ys[0].1)),
        None => xs.push((ys[0].0, ys[0].1)),
    };
    if ys[0].0 == k {
        assert(forall|j: int| 0 <= j < rest.len() ==> rest[j].0 != k);
        lemma_lookup_none(rest, k);
        lemma_merge_absent(xs2, rest, k);
        match lookup(xs, k) {
            Some(ov) => lemma_lookup_update(xs, k, merge_model(ov, ys[0].1), k),
            None => lemma_lookup_push(xs, (k, ys[0].1), k),
        }
    } else {
        match lookup(xs, ys[0].0) {
            Some(ov) => lemma_lookup_update(xs, ys[0].0, merge_model(ov, ys[0].1), k),
            None => lemma_lookup_push(xs, (ys[0].0, ys[0].1), k),
        }
        assert(keys_distinct(rest));
        lemma_merge_present(xs2, rest, k);
    }
}

/// LAW: at any path that reaches a terminal value of the right merge operand,
/// the merged tree carries exactly that value - the rightmost operand wins.
pub proof fn lemma_merge_leaf_rightmost_wins(x: ValueModel, c: ValueModel, path: Seq<Seq<char>>)
    requires
        wf_model(c),
        get_path(c, path) is Some,
        !(get_path(c, path)->Some_0 is Obj),
    ensures
        get_path(merge_model(x, c), path) == get_path(c, path),
    decreases path.len(),
{
    if path.len() == 0 {
    } else {
        let es = c->Obj_0;
        let cv = lookup(es, path[0])->Some_0;
        lemma_lookup_some_index(es, path[0]);
        match x {
            ValueModel::Obj(xs) => {
                lemma_merge_present(xs, es, path[0]);
                match lookup(xs, path[0]) {
                    Some(xv) => {
                        lemma_merge_leaf_rightmost_wins(xv, cv, path.drop_first());
                    },
                    None => {},
                }
            },
            _ => {},
        }
    }
}

/// LAW: a top-level key that neither of two successively merged operands
/// binds keeps its original binding after both merges.
pub proof fn lemma_merge_preserves_unmerged_keys(
    a: Seq<(Seq<char>, ValueModel)>,
    b: Seq<(Seq<char>, ValueModel)>,
    c: Seq<(Seq<char>, ValueModel)>,
    k: Seq<char>,
)
    requires
        !has_key(b, k),
        !has_key(c, k),
    ensures
        lookup(merge_entries(merge_entries(a, b), c), k) == lookup(a, k),
{
    lemma_merge_absent(a, b, k);
    lemma_merge_absent(merge_entries(a, b), c, k);
}

} // verus!

verus! {

/// A key that no lookup finds heads no entry.
pub proof fn lemma_lookup_none_keys(m: Seq<(Seq<char>, ValueModel)>, k: Seq<char>)
    requires
        lookup(m, k) is None,
    ensures
        forall|j: int| 0 <= j < m.len() ==> m[j].0 != k,
    decreases m.len(),
{
    if m.len() > 0 {
        lemma_lookup_none_keys(m.drop_first(), k);
        assert(forall|j: int| 1 <= j < m.len() ==> m[j] == m.drop_first()[j - 1]);
    }
}

/// A point update keeps every key and touches at most the updated value.
pub proof fn lemma_update_entry_shape(
    m: Seq<(Seq<char>, ValueModel)>,
    k: Seq<char>,
    nv: ValueModel,
)
    ensures
        update_entry(m, k, nv).len() == m.len(),
        forall|j: int| 0 <= j < m.len() ==> (#[trigger] update_entry(m, k, nv)[j]).0 == m[j].0,
        forall|j: int|
            0 <= j < m.len() ==> ((#[trigger] update_entry(m, k, nv)[j]).1 == m[j].1
                || update_entry(m, k, nv)[j].1 == nv),
    decreases m.len(),
{
    if m.len() > 0 && m[0].0 != k {
        lemma_update_entry_shape(m.drop_first(), k, nv);
        assert(forall|j: int|
            1 <= j < m.len() ==> update_entry(m, k, nv)[j] == update_entry(
                m.drop_first(),
                k,
                nv,
            )[j - 1]);
        assert(forall|j: int| 1 <= j < m.len() ==> m[j] == m.drop_first()[j - 1]);
    }
}

/// LAW: the merge of two well-formed dictionary values is well-formed: no
/// nested dictionary ever gains a duplicate key.
pub proof fn lemma_merge_wf(a: ValueModel, b: ValueModel)
    requires
        wf_model(a),
        wf_model(b),
    ensures
        wf_model(merge_model(a, b)),
    decreases b, 2nat,
{
    match b {
        ValueModel::Obj(ys) => match a {
            ValueModel::Obj(xs) => {
                lemma_merge_entries_wf(xs, ys);
            },
            _ => {},
        },
        _ => {},
    }
}

/// Merging well-formed entry sequences yields well-formed entries.
pub proof fn lemma_merge_entries_wf(
    xs: Seq<(Seq<char>, ValueModel)>,
    ys: Seq<(Seq<char>, ValueModel)>,
)
    requires
        entries_wf(xs),
        entries_wf(ys),
    ensures
        entries_wf(merge_entries(xs, ys)),
    decreases ys, 3nat,
{
    if ys.len() > 0 {
        let k = ys[0].0;
        let v = ys[0].1;
        let rest = ys.subrange(1, ys.len() as int);
        assert(wf_model(v));
        let xs2 = match lookup(xs, k) {
            Some(ov) => update_entry(xs, k, merge_model(ov, v)),
            None => xs.push((k, v)),
        };
        match lookup(xs, k) {
            Some(ov) => {
                lemma_lookup_some_index(xs, k);
                assert(wf_model(ov));
                lemma_merge_wf(ov, v);
                lemma_update_entry_shape(xs, k, merge_model(ov, v));
                assert(entries_wf(xs2));
            },
            None => {
                lemma_lookup_none_keys(xs, k);
                assert(forall|j: int| 0 <= j < xs.len() ==> xs2[j] == xs[j]);
                assert(xs2[xs.len() as int] == (k, v));
                assert(entries_wf(xs2));
            },
        }
        assert(entries_wf(rest)) by {
            assert(forall|j: int| 0 <= j < rest.len() ==> rest[j] == ys[j + 1]);
        }
        lemma_merge_entries_wf(xs2, rest);
    }
}

} // verus!

verus! {

/// The right merge operand says nothing about `path`: somewhere along it, a
/// key is missing from the operand's nested dictionaries. (An operand that
/// holds a terminal on a prefix of the path is not silent: it replaces the
/// whole subtree there.)
pub open spec fn silent_at(c: ValueModel, path: Seq<Seq<char>>) -> bool
    decreases path.len(),
{
    if path.len() == 0 {
        false
    } else {
        match c {
            ValueModel::Obj(es) => match lookup(es, path[0]) {
                Some(cv) => silent_at(cv, path.drop_first()),
                None => true,
            },
            _ => false,
        }
    }
}

/// A silent operand resolves nothing at the path itself.
pub proof fn lemma_silent_none(c: ValueModel, path: Seq<Seq<char>>)
    requires
        silent_at(c, path),
    ensures
        get_path(c, path) is None,
    decreases path.len(),
{
    if path.len() > 0 && c is Obj && lookup(c->Obj_0, path[0]) is Some {
        lemma_silent_none(lookup(c->Obj_0, path[0])->Some_0, path.drop_first());
    }
}

/// LAW: at any path the right merge operand is silent on, the merged tree
/// keeps the left side's value - in a chain of merges, an earlier operand's
/// leaf survives wherever the later operand says nothing.
pub proof fn lemma_merge_right_silent(x: ValueModel, c: ValueModel, path: Seq<Seq<char>>)
    requires
        wf_model(c),
        silent_at(c, path),
    ensures
        get_path(merge_model(x, c), path) == get_path(x, path),
    decreases path.len(),
{
    let es = c->Obj_0;
    lemma_silent_none(c, path);
    match x {
        ValueModel::Obj(xs) => {
            match lookup(es, path[0]) {
                Some(cv) => {
                    lemma_lookup_some_index(es, path[0]);
                    lemma_merge_present(xs, es, path[0]);
                    match lookup(xs, path[0]) {
                        Some(xv) => {
                            lemma_merge_right_silent(xv, cv, path.drop_first());
                        },
                        None => {
                            lemma_silent_none(cv, path.drop_first());
                        },
                    }
                },
                None => {
                    lemma_merge_absent(xs, es, path[0]);
                },
            }
        },
        _ => {},
    }
}

} // verus!
